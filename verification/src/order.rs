//! Lexicographic order of texts by character, and sorted sets of texts.

use vstd::prelude::*;

use crate::text;

verus! {

/// Whether `a` comes before `b` in the order of their characters.
pub open spec fn precedes(a: Seq<char>, b: Seq<char>) -> bool
    decreases a.len(),
{
    if b.len() == 0 {
        false
    } else if a.len() == 0 {
        true
    } else if a[0] != b[0] {
        a[0] < b[0]
    } else {
        precedes(a.drop_first(), b.drop_first())
    }
}

/// No text precedes itself.
proof fn lemma_precedes_irreflexive(a: Seq<char>)
    ensures
        !precedes(a, a),
    decreases a.len(),
{
    if a.len() > 0 {
        lemma_precedes_irreflexive(a.drop_first());
    }
}

/// The order is transitive.
proof fn lemma_precedes_transitive(a: Seq<char>, b: Seq<char>, c: Seq<char>)
    requires
        precedes(a, b),
        precedes(b, c),
    ensures
        precedes(a, c),
    decreases a.len(),
{
    if a.len() > 0 && a[0] == b[0] && b[0] == c[0] {
        lemma_precedes_transitive(a.drop_first(), b.drop_first(), c.drop_first());
    }
}

/// Of two different texts one precedes the other.
proof fn lemma_precedes_total(a: Seq<char>, b: Seq<char>)
    requires
        a != b,
    ensures
        precedes(a, b) || precedes(b, a),
    decreases a.len(),
{
    if a.len() > 0 && b.len() > 0 && a[0] == b[0] {
        if a.drop_first() == b.drop_first() {
            assert(a =~= seq![a[0]] + a.drop_first());
            assert(b =~= seq![b[0]] + b.drop_first());
        }
        lemma_precedes_total(a.drop_first(), b.drop_first());
    } else if a.len() == 0 && b.len() == 0 {
        assert(a =~= b);
    }
}

/// A common beginning does not matter to the order.
proof fn lemma_precedes_common(a: Seq<char>, b: Seq<char>, k: int)
    requires
        0 <= k <= a.len(),
        k <= b.len(),
        forall|j: int| 0 <= j < k ==> #[trigger] a[j] == b[j],
    ensures
        precedes(a, b) == precedes(a.skip(k), b.skip(k)),
    decreases k,
{
    if k == 0 {
        assert(a.skip(0) =~= a);
        assert(b.skip(0) =~= b);
    } else {
        assert(a[0] == b[0]);
        let x = a.drop_first();
        let y = b.drop_first();
        assert forall|j: int| 0 <= j < k - 1 implies #[trigger] x[j] == y[j] by {
            assert(x[j] == a[j + 1]);
        }
        lemma_precedes_common(x, y, k - 1);
        assert(x.skip(k - 1) =~= a.skip(k));
        assert(y.skip(k - 1) =~= b.skip(k));
    }
}

/// Whether `a` comes before `b`.
pub fn is_before(a: &Vec<char>, b: &Vec<char>) -> (r: bool)
    ensures
        r == precedes(a@, b@),
{
    let mut i: usize = 0;
    while i < a.len() && i < b.len() && a[i] == b[i]
        invariant
            i <= a.len(),
            i <= b.len(),
            forall|j: int| 0 <= j < i ==> #[trigger] a@[j] == b@[j],
        decreases a.len() - i,
    {
        i = i + 1;
    }
    proof {
        lemma_precedes_common(a@, b@, i as int);
    }
    if i == b.len() {
        false
    } else if i == a.len() {
        true
    } else {
        a[i] < b[i]
    }
}

/// Each text comes before all later ones, so none occurs twice.
pub open spec fn increasing(s: Seq<Seq<char>>) -> bool {
    forall|i: int, j: int| 0 <= i < j < s.len() ==> precedes(#[trigger] s[i], #[trigger] s[j])
}

/// Puts `item` into the increasing `set`, unless it is there already.
pub fn insert_sorted(set: &mut Vec<Vec<char>>, item: Vec<char>)
    requires
        increasing(text::char_texts(old(set)@)),
    ensures
        increasing(text::char_texts(final(set)@)),
        forall|x: Seq<char>|
            text::char_texts(final(set)@).contains(x) <==> (text::char_texts(old(set)@).contains(x) || x
                == item@),
{
    let ghost before = text::char_texts(set@);
    let mut low: usize = 0;
    let mut high: usize = set.len();
    while low < high
        invariant
            low <= high <= set.len(),
            before == text::char_texts(set@),
            increasing(before),
            forall|j: int| 0 <= j < low ==> precedes(#[trigger] before[j], item@),
            forall|j: int| high <= j < before.len() ==> !precedes(#[trigger] before[j], item@),
        decreases high - low,
    {
        let middle: usize = low + (high - low) / 2;
        assert(before[middle as int] == set@[middle as int]@);
        if is_before(&set[middle], &item) {
            assert forall|j: int| 0 <= j < middle + 1 implies precedes(
                #[trigger] before[j],
                item@,
            ) by {
                if j < middle {
                    lemma_precedes_transitive(before[j], before[middle as int], item@);
                }
            }
            low = middle + 1;
        } else {
            assert forall|j: int| middle <= j < before.len() implies !precedes(
                #[trigger] before[j],
                item@,
            ) by {
                if precedes(before[j], item@) && j > middle {
                    lemma_precedes_transitive(before[middle as int], before[j], item@);
                }
            }
            high = middle;
        }
    }
    let ghost text = item@;
    assert(low < before.len() ==> before[low as int] == set@[low as int]@);
    if low < set.len() && text::same(&set[low], &item) {
        assert(before.contains(text));
        return;
    }
    set.insert(low, item);
    proof {
        let after = text::char_texts(set@);
        assert(after =~= before.insert(low as int, text));
        assert forall|j: int| low <= j < before.len() implies precedes(text, #[trigger] before[j])
            by {
            if before[j] == text {
                if j > low {
                    assert(precedes(before[low as int], before[j]));
                }
            } else {
                lemma_precedes_total(before[j], text);
            }
        }
        assert forall|i: int, j: int| 0 <= i < j < after.len() implies precedes(
            #[trigger] after[i],
            #[trigger] after[j],
        ) by {
            let a = if i < low { i } else { i - 1 };
            let b = if j < low { j } else { j - 1 };
            if i != low && j != low {
                assert(after[i] == before[a] && after[j] == before[b]);
            }
        }
        assert forall|x: Seq<char>| after.contains(x) <==> (before.contains(x) || x == text) by {
            if before.contains(x) {
                let i = choose|i: int| 0 <= i < before.len() && before[i] == x;
                if i < low {
                    assert(after[i] == x);
                } else {
                    assert(after[i + 1] == x);
                }
            }
            if after.contains(x) {
                let i = choose|i: int| 0 <= i < after.len() && after[i] == x;
                if i < low {
                    assert(before[i] == x);
                } else if i > low {
                    assert(before[i - 1] == x);
                }
            }
            assert(after[low as int] == text);
        }
    }
}

/// In an increasing sequence every text stands once.
pub proof fn law_increasing_texts_stand_once(s: Seq<Seq<char>>)
    requires
        increasing(s),
    ensures
        s.no_duplicates(),
{
    assert forall|i: int, j: int| 0 <= i < j < s.len() implies s[i] != s[j] by {
        assert(precedes(s[i], s[j]));
        lemma_precedes_irreflexive(s[i]);
    }
}

/// The first characters in which two texts differ decide which comes first.
pub proof fn law_first_difference_decides(a: Seq<char>, b: Seq<char>, k: int)
    requires
        0 <= k < a.len(),
        k < b.len(),
        a.take(k) == b.take(k),
        a[k] != b[k],
    ensures
        precedes(a, b) <==> a[k] < b[k],
{
    assert forall|j: int| 0 <= j < k implies #[trigger] a[j] == b[j] by {
        assert(a.take(k)[j] == a[j]);
        assert(b.take(k)[j] == b[j]);
    }
    lemma_precedes_common(a, b, k);
}

/// A beginning of a text comes before the text.
pub proof fn law_beginnings_come_first(a: Seq<char>, more: Seq<char>)
    requires
        more.len() > 0,
    ensures
        precedes(a, a + more),
        !precedes(a + more, a),
{
    let k = a.len() as int;
    lemma_precedes_common(a, a + more, k);
    lemma_precedes_common(a + more, a, k);
}

} // verus!
