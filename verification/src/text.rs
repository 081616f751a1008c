//! Text as sequences of characters: splitting, trimming, joining, numbers.
//!
//! Every string is handled as the sequence of its characters.

use vstd::prelude::*;
use vstd::string::*;

verus! {

/// `String::push` appends one character to the end of the string.
pub assume_specification[ String::push ](s: &mut String, c: char)
    ensures
        final(s)@ == old(s)@.push(c),
;

/// The characters of a string.
pub fn chars_of(s: &str) -> (r: Vec<char>)
    ensures
        r@ == s@,
{
    let mut out: Vec<char> = Vec::new();
    for c in it: s.chars()
        invariant
            it.seq() == s@,
            out@ == s@.take(it.index() as int),
    {
        out.push(c);
    }
    out
}

/// The string made of the given characters.
pub fn string_of(v: &Vec<char>) -> (r: String)
    ensures
        r@ == v@,
{
    let mut out = String::new();
    let mut i: usize = 0;
    while i < v.len()
        invariant
            i <= v.len(),
            out@ == v@.take(i as int),
        decreases v.len() - i,
    {
        out.push(v[i]);
        i = i + 1;
    }
    out
}

/// The part of `v` from `from` up to `to`.
pub fn part(v: &Vec<char>, from: usize, to: usize) -> (r: Vec<char>)
    requires
        from <= to <= v.len(),
    ensures
        r@ == v@.subrange(from as int, to as int),
{
    let mut out: Vec<char> = Vec::new();
    let mut i: usize = from;
    while i < to
        invariant
            from <= i <= to <= v.len(),
            out@ == v@.subrange(from as int, i as int),
        decreases to - i,
    {
        out.push(v[i]);
        i = i + 1;
    }
    out
}

/// Appends `more` to `v`.
pub fn extend(v: &mut Vec<char>, more: &Vec<char>)
    ensures
        final(v)@ == old(v)@ + more@,
{
    let mut i: usize = 0;
    while i < more.len()
        invariant
            i <= more.len(),
            v@ == old(v)@ + more@.take(i as int),
        decreases more.len() - i,
    {
        v.push(more[i]);
        i = i + 1;
    }
    assert(more@.take(i as int) =~= more@);
}

/// Whether two character vectors hold the same text.
pub fn same(a: &Vec<char>, b: &Vec<char>) -> (r: bool)
    ensures
        r == (a@ == b@),
{
    if a.len() != b.len() {
        return false;
    }
    let mut i: usize = 0;
    while i < a.len()
        invariant
            i <= a.len(),
            a.len() == b.len(),
            forall|j: int| 0 <= j < i ==> a[j] == b[j],
        decreases a.len() - i,
    {
        if a[i] != b[i] {
            return false;
        }
        i = i + 1;
    }
    assert(a@ =~= b@);
    true
}

/// Whether `v` is the text of the literal `s`.
pub fn is_text(v: &Vec<char>, s: &str) -> (r: bool)
    ensures
        r == (v@ == s@),
{
    let other = chars_of(s);
    same(v, &other)
}

/// `s` between two other texts.
pub fn between(before: &str, s: &str, after: &str) -> (r: String)
    ensures
        r@ == before@ + s@ + after@,
{
    let mut out = chars_of(before);
    let middle = chars_of(s);
    extend(&mut out, &middle);
    let tail = chars_of(after);
    extend(&mut out, &tail);
    string_of(&out)
}

/// The texts of a sequence of strings.
pub open spec fn texts(v: Seq<String>) -> Seq<Seq<char>> {
    Seq::new(v.len(), |i: int| v[i]@)
}

/// The text of an optional string.
pub open spec fn option_text(s: Option<String>) -> Option<Seq<char>> {
    match s {
        Some(t) => Some(t@),
        None => None,
    }
}

/// The text of an optional string slice.
pub open spec fn str_text(s: Option<&str>) -> Option<Seq<char>> {
    match s {
        Some(t) => Some(t@),
        None => None,
    }
}

/// The texts of a sequence of character vectors.
pub open spec fn char_texts(v: Seq<Vec<char>>) -> Seq<Seq<char>> {
    Seq::new(v.len(), |i: int| v[i]@)
}

// ---------------------------------------------------------------------------
// Single characters
// ---------------------------------------------------------------------------

/// The Unicode property `White_Space`.
pub open spec fn white_space(c: char) -> bool {
    let n = c as u32;
    ||| 0x9 <= n <= 0xd
    ||| n == 0x20
    ||| n == 0x85
    ||| n == 0xa0
    ||| n == 0x1680
    ||| 0x2000 <= n <= 0x200a
    ||| n == 0x2028
    ||| n == 0x2029
    ||| n == 0x202f
    ||| n == 0x205f
    ||| n == 0x3000
}

/// Whether `c` is Unicode white space.
pub fn is_white_space(c: char) -> (r: bool)
    ensures
        r == white_space(c),
{
    let n: u32 = c as u32;
    (0x9 <= n && n <= 0xd) || n == 0x20 || n == 0x85 || n == 0xa0 || n == 0x1680 || (0x2000 <= n
        && n <= 0x200a) || n == 0x2028 || n == 0x2029 || n == 0x202f || n == 0x205f || n == 0x3000
}

/// `c` with an ASCII capital letter turned into its small letter.
pub open spec fn lower_char(c: char) -> char {
    if 'A' <= c <= 'Z' {
        (c as u8 + 32) as char
    } else {
        c
    }
}

/// Turns an ASCII capital letter into its small letter.
pub fn to_lower_char(c: char) -> (r: char)
    ensures
        r == lower_char(c),
{
    if 'A' <= c && c <= 'Z' {
        ((c as u8) + 32) as char
    } else {
        c
    }
}

/// `s` with every ASCII capital letter turned into its small letter.
pub open spec fn lower(s: Seq<char>) -> Seq<char> {
    s.map_values(|c: char| lower_char(c))
}

/// The ASCII lower case of a text.
pub fn to_lower(v: &Vec<char>) -> (r: Vec<char>)
    ensures
        r@ == lower(v@),
{
    let mut out: Vec<char> = Vec::new();
    let mut i: usize = 0;
    while i < v.len()
        invariant
            i <= v.len(),
            out@ == lower(v@.take(i as int)),
        decreases v.len() - i,
    {
        out.push(to_lower_char(v[i]));
        i = i + 1;
    }
    assert(v@.take(i as int) =~= v@);
    out
}

/// Lower case leaves lower case unchanged.
pub proof fn lemma_lower_idempotent(s: Seq<char>)
    ensures
        lower(lower(s)) == lower(s),
{
    assert(lower(lower(s)) =~= lower(s));
}

// ---------------------------------------------------------------------------
// Trimming
// ---------------------------------------------------------------------------

/// `s` without its leading characters in `p`.
pub open spec fn trim_start_while(s: Seq<char>, p: spec_fn(char) -> bool) -> Seq<char>
    decreases s.len(),
{
    if s.len() > 0 && p(s[0]) {
        trim_start_while(s.drop_first(), p)
    } else {
        s
    }
}

/// `s` without its trailing characters in `p`.
pub open spec fn trim_end_while(s: Seq<char>, p: spec_fn(char) -> bool) -> Seq<char>
    decreases s.len(),
{
    if s.len() > 0 && p(s.last()) {
        trim_end_while(s.drop_last(), p)
    } else {
        s
    }
}

/// `s` without leading and trailing white space.
pub open spec fn trimmed(s: Seq<char>) -> Seq<char> {
    trim_end_while(trim_start_while(s, |c: char| white_space(c)), |c: char| white_space(c))
}

/// Being the character `c`.
pub open spec fn equals(c: char) -> spec_fn(char) -> bool {
    |d: char| d == c
}

/// `s` without its leading `c` characters.
pub open spec fn trim_start_char(s: Seq<char>, c: char) -> Seq<char> {
    trim_start_while(s, equals(c))
}

/// `s` without its trailing `c` characters.
pub open spec fn trim_end_char(s: Seq<char>, c: char) -> Seq<char> {
    trim_end_while(s, equals(c))
}

/// Skipping characters in `p` from the left does not change the trimmed text.
pub proof fn lemma_trim_start_skip(s: Seq<char>, p: spec_fn(char) -> bool, k: int)
    requires
        0 <= k <= s.len(),
        forall|j: int| 0 <= j < k ==> p(#[trigger] s[j]),
    ensures
        trim_start_while(s, p) == trim_start_while(s.skip(k), p),
    decreases k,
{
    if k == 0 {
        assert(s.skip(0) =~= s);
    } else {
        assert(p(s[0]));
        assert forall|j: int| 0 <= j < k - 1 implies p(#[trigger] s.drop_first()[j]) by {
            assert(s.drop_first()[j] == s[j + 1]);
        }
        lemma_trim_start_skip(s.drop_first(), p, k - 1);
        assert(s.drop_first().skip(k - 1) =~= s.skip(k));
    }
}

/// Dropping characters in `p` from the right does not change the trimmed text.
pub proof fn lemma_trim_end_take(s: Seq<char>, p: spec_fn(char) -> bool, k: int)
    requires
        0 <= k <= s.len(),
        forall|j: int| k <= j < s.len() ==> p(#[trigger] s[j]),
    ensures
        trim_end_while(s, p) == trim_end_while(s.take(k), p),
    decreases s.len() - k,
{
    if k == s.len() {
        assert(s.take(k) =~= s);
    } else {
        assert(p(s[s.len() - 1]));
        assert forall|j: int| k <= j < s.drop_last().len() implies p(
            #[trigger] s.drop_last()[j],
        ) by {
            assert(s.drop_last()[j] == s[j]);
        }
        lemma_trim_end_take(s.drop_last(), p, k);
        assert(s.drop_last().take(k) =~= s.take(k));
    }
}

/// What trimming from the left leaves: a tail that does not start in `p`,
/// behind characters in `p`.
pub proof fn lemma_trim_start_shape(s: Seq<char>, p: spec_fn(char) -> bool)
    ensures
        trim_start_while(s, p).len() <= s.len(),
        trim_start_while(s, p) == s.skip(s.len() - trim_start_while(s, p).len()),
        forall|j: int|
            0 <= j < s.len() - trim_start_while(s, p).len() ==> p(#[trigger] s[j]),
        trim_start_while(s, p).len() > 0 ==> !p(trim_start_while(s, p)[0]),
    decreases s.len(),
{
    if s.len() > 0 && p(s[0]) {
        let t = s.drop_first();
        lemma_trim_start_shape(t, p);
        let k = t.len() - trim_start_while(t, p).len();
        assert(t.skip(k) =~= s.skip(k + 1));
        assert forall|j: int| 0 <= j < k + 1 implies p(#[trigger] s[j]) by {
            if j > 0 {
                assert(t[j - 1] == s[j]);
            }
        }
    } else {
        assert(s.skip(0) =~= s);
    }
}

/// What trimming from the right leaves: a head that does not end in `p`,
/// before characters in `p`.
pub proof fn lemma_trim_end_shape(s: Seq<char>, p: spec_fn(char) -> bool)
    ensures
        trim_end_while(s, p).len() <= s.len(),
        trim_end_while(s, p) == s.take(trim_end_while(s, p).len() as int),
        forall|j: int| trim_end_while(s, p).len() <= j < s.len() ==> p(#[trigger] s[j]),
        trim_end_while(s, p).len() > 0 ==> !p(trim_end_while(s, p).last()),
    decreases s.len(),
{
    if s.len() > 0 && p(s.last()) {
        let t = s.drop_last();
        lemma_trim_end_shape(t, p);
        let k = trim_end_while(t, p).len() as int;
        assert(t.take(k) =~= s.take(k));
        assert forall|j: int| k <= j < s.len() implies p(#[trigger] s[j]) by {
            if j < t.len() {
                assert(t[j] == s[j]);
            }
        }
    } else {
        assert(s.take(s.len() as int) =~= s);
    }
}

/// White space at the end does not matter to what trimming leaves.
pub proof fn lemma_trimmed_push(s: Seq<char>, c: char)
    requires
        white_space(c),
    ensures
        trimmed(s.push(c)) == trimmed(s),
{
    let p = |c: char| white_space(c);
    lemma_trim_start_push(s, c, p);
    let left = trim_start_while(s, p);
    if left.len() > 0 {
        assert(left.push(c).drop_last() =~= left);
    } else {
        assert(trim_start_while(s.push(c), p) =~= left);
    }
}

/// A further character in `p` stays behind what trimming from the left leaves, if
/// that is anything.
proof fn lemma_trim_start_push(s: Seq<char>, c: char, p: spec_fn(char) -> bool)
    requires
        p(c),
    ensures
        trim_start_while(s, p).len() > 0 ==> trim_start_while(s.push(c), p) == trim_start_while(
            s,
            p,
        ).push(c),
        trim_start_while(s, p).len() == 0 ==> trim_start_while(s.push(c), p).len() == 0,
    decreases s.len(),
{
    if s.len() == 0 {
        assert(s.push(c).drop_first() =~= s);
    } else {
        assert(s.push(c)[0] == s[0]);
        assert(s.push(c).drop_first() =~= s.drop_first().push(c));
        lemma_trim_start_push(s.drop_first(), c, p);
    }
}

/// Removes leading and trailing white space.
pub fn trim(v: &Vec<char>) -> (r: Vec<char>)
    ensures
        r@ == trimmed(v@),
{
    let ghost p = |c: char| white_space(c);
    let mut i: usize = 0;
    while i < v.len() && is_white_space(v[i])
        invariant
            i <= v.len(),
            p == (|c: char| white_space(c)),
            forall|j: int| 0 <= j < i ==> p(#[trigger] v@[j]),
        decreases v.len() - i,
    {
        i = i + 1;
    }
    proof {
        lemma_trim_start_skip(v@, p, i as int);
        assert(trim_start_while(v@, p) == v@.skip(i as int));
    }
    let ghost t = v@.skip(i as int);
    let mut k: usize = v.len();
    while k > i && is_white_space(v[k - 1])
        invariant
            i <= k <= v.len(),
            p == (|c: char| white_space(c)),
            t == v@.skip(i as int),
            forall|j: int| k - i <= j < t.len() ==> p(#[trigger] t[j]),
        decreases k,
    {
        k = k - 1;
    }
    proof {
        lemma_trim_end_take(t, p, k - i);
        assert(t.take(k - i) =~= v@.subrange(i as int, k as int));
    }
    part(v, i, k)
}

/// Removes leading `c` characters.
pub fn trim_start_of(v: &Vec<char>, c: char) -> (r: Vec<char>)
    ensures
        r@ == trim_start_char(v@, c),
{
    let ghost p = equals(c);
    let mut i: usize = 0;
    while i < v.len() && v[i] == c
        invariant
            i <= v.len(),
            p == equals(c),
            forall|j: int| 0 <= j < i ==> p(#[trigger] v@[j]),
        decreases v.len() - i,
    {
        i = i + 1;
    }
    proof {
        lemma_trim_start_skip(v@, p, i as int);
        assert(trim_start_while(v@, p) == v@.skip(i as int));
        assert(v@.skip(i as int) =~= v@.subrange(i as int, v@.len() as int));
    }
    part(v, i, v.len())
}

/// Removes trailing `c` characters.
pub fn trim_end_of(v: &Vec<char>, c: char) -> (r: Vec<char>)
    ensures
        r@ == trim_end_char(v@, c),
{
    let ghost p = equals(c);
    let mut k: usize = v.len();
    while k > 0 && v[k - 1] == c
        invariant
            k <= v.len(),
            p == equals(c),
            forall|j: int| k <= j < v@.len() ==> p(#[trigger] v@[j]),
        decreases k,
    {
        k = k - 1;
    }
    proof {
        lemma_trim_end_take(v@, p, k as int);
        assert(trim_end_while(v@, p) == v@.take(k as int));
        assert(v@.take(k as int) =~= v@.subrange(0, k as int));
    }
    part(v, 0, k)
}

// ---------------------------------------------------------------------------
// Searching
// ---------------------------------------------------------------------------

/// The first position of `c` in `s`; the length of `s` when it does not occur.
pub open spec fn first_index(s: Seq<char>, c: char) -> int
    decreases s.len(),
{
    if s.len() == 0 || s[0] == c {
        0
    } else {
        1 + first_index(s.drop_first(), c)
    }
}

/// `first_index` is the position before which `c` does not occur and at which
/// it does, or the end.
pub proof fn lemma_first_index(s: Seq<char>, c: char, i: int)
    requires
        0 <= i <= s.len(),
        forall|j: int| 0 <= j < i ==> #[trigger] s[j] != c,
        i < s.len() ==> s[i] == c,
    ensures
        first_index(s, c) == i,
    decreases s.len(),
{
    if s.len() > 0 && s[0] != c {
        assert(i > 0);
        let t = s.drop_first();
        assert forall|j: int| 0 <= j < i - 1 implies #[trigger] t[j] != c by {
            assert(t[j] == s[j + 1]);
        }
        lemma_first_index(t, c, i - 1);
    }
}

/// `c` does not occur before `first_index`, which is a position of `c` or the end.
pub proof fn lemma_first_index_shape(s: Seq<char>, c: char)
    ensures
        0 <= first_index(s, c) <= s.len(),
        forall|j: int| 0 <= j < first_index(s, c) ==> #[trigger] s[j] != c,
        first_index(s, c) < s.len() ==> s[first_index(s, c)] == c,
    decreases s.len(),
{
    if s.len() > 0 && s[0] != c {
        let t = s.drop_first();
        lemma_first_index_shape(t, c);
        assert forall|j: int| 0 <= j < first_index(s, c) implies #[trigger] s[j] != c by {
            if j > 0 {
                assert(t[j - 1] == s[j]);
            }
        }
    }
}

/// Finds the first `c`; returns the length when there is none.
pub fn find_char(v: &Vec<char>, c: char) -> (r: usize)
    ensures
        r == first_index(v@, c),
        r <= v@.len(),
{
    let mut i: usize = 0;
    while i < v.len() && v[i] != c
        invariant
            i <= v.len(),
            forall|j: int| 0 <= j < i ==> #[trigger] v@[j] != c,
        decreases v.len() - i,
    {
        i = i + 1;
    }
    proof {
        lemma_first_index(v@, c, i as int);
    }
    i
}

/// Whether `s` starts with `prefix`.
pub open spec fn has_prefix(s: Seq<char>, prefix: Seq<char>) -> bool {
    prefix.len() <= s.len() && s.take(prefix.len() as int) == prefix
}

/// Whether `s` ends with `suffix`.
pub open spec fn has_suffix(s: Seq<char>, suffix: Seq<char>) -> bool {
    suffix.len() <= s.len() && s.skip(s.len() - suffix.len()) == suffix
}

/// Whether `piece` stands in `s` at position `i`.
pub open spec fn occurs_at(s: Seq<char>, piece: Seq<char>, i: int) -> bool {
    0 <= i && i + piece.len() <= s.len() && s.subrange(i, i + piece.len()) == piece
}

/// Whether `piece` stands somewhere in `s`.
pub open spec fn has_piece(s: Seq<char>, piece: Seq<char>) -> bool {
    exists|i: int| occurs_at(s, piece, i)
}

/// Whether `piece` stands in `v` at position `at`.
pub fn matches_at(v: &Vec<char>, piece: &Vec<char>, at: usize) -> (r: bool)
    requires
        at <= v.len(),
    ensures
        r == occurs_at(v@, piece@, at as int),
{
    if v.len() - at < piece.len() {
        return false;
    }
    let mut i: usize = 0;
    while i < piece.len()
        invariant
            i <= piece.len(),
            at + piece.len() <= v.len(),
            forall|j: int| 0 <= j < i ==> v@[at + j] == #[trigger] piece@[j],
        decreases piece.len() - i,
    {
        if v[at + i] != piece[i] {
            assert(v@.subrange(at as int, at + piece@.len())[i as int] != piece@[i as int]);
            return false;
        }
        i = i + 1;
    }
    assert(v@.subrange(at as int, at + piece@.len()) =~= piece@);
    true
}

/// Whether `v` starts with `prefix`.
pub fn starts_with(v: &Vec<char>, prefix: &Vec<char>) -> (r: bool)
    ensures
        r == has_prefix(v@, prefix@),
{
    proof {
        if prefix@.len() <= v@.len() {
            assert(v@.take(prefix@.len() as int) =~= v@.subrange(0, prefix@.len() as int));
        }
    }
    matches_at(v, prefix, 0)
}

/// Whether `v` ends with `suffix`.
pub fn ends_with(v: &Vec<char>, suffix: &Vec<char>) -> (r: bool)
    ensures
        r == has_suffix(v@, suffix@),
{
    if suffix.len() > v.len() {
        return false;
    }
    proof {
        let k = v@.len() - suffix@.len();
        assert(v@.skip(k) =~= v@.subrange(k, k + suffix@.len()));
    }
    matches_at(v, suffix, v.len() - suffix.len())
}

/// Whether `piece` stands somewhere in `v`.
pub fn contains(v: &Vec<char>, piece: &Vec<char>) -> (r: bool)
    ensures
        r == has_piece(v@, piece@),
{
    let mut i: usize = 0;
    while i < v.len()
        invariant
            i <= v.len(),
            forall|j: int| 0 <= j < i ==> !occurs_at(v@, piece@, j),
        decreases v.len() - i,
    {
        if matches_at(v, piece, i) {
            return true;
        }
        i = i + 1;
    }
    let last = matches_at(v, piece, v.len());
    proof {
        if !last && has_piece(v@, piece@) {
            let j = choose|j: int| occurs_at(v@, piece@, j);
            assert(0 <= j <= v@.len());
            assert(false);
        }
    }
    last
}

/// The first position at which `piece` stands in `s`; the length of `s` when it
/// stands nowhere.
pub open spec fn first_piece(s: Seq<char>, piece: Seq<char>) -> int
    decreases s.len(),
{
    if s.len() == 0 || has_prefix(s, piece) {
        0
    } else {
        1 + first_piece(s.drop_first(), piece)
    }
}

/// `first_piece` is the position before which `piece` does not stand and at
/// which it does, or the end.
pub proof fn lemma_first_piece(s: Seq<char>, piece: Seq<char>, i: int)
    requires
        piece.len() > 0,
        0 <= i <= s.len(),
        forall|j: int| 0 <= j < i ==> !#[trigger] occurs_at(s, piece, j),
        i < s.len() ==> occurs_at(s, piece, i),
    ensures
        first_piece(s, piece) == i,
    decreases s.len(),
{
    assert(occurs_at(s, piece, 0) == has_prefix(s, piece)) by {
        if piece.len() <= s.len() {
            assert(s.subrange(0, piece.len() as int) =~= s.take(piece.len() as int));
        }
    }
    if s.len() > 0 && !has_prefix(s, piece) {
        assert(i > 0);
        let t = s.drop_first();
        assert forall|j: int| 0 <= j < t.len() implies #[trigger] occurs_at(t, piece, j)
            == occurs_at(s, piece, j + 1) by {
            if j + piece.len() <= t.len() {
                assert(t.subrange(j, j + piece.len()) =~= s.subrange(j + 1, j + 1 + piece.len()));
            }
        }
        lemma_first_piece(t, piece, i - 1);
    }
}

/// Finds the first place of `piece`; returns the length when there is none.
pub fn find_piece(v: &Vec<char>, piece: &Vec<char>) -> (r: usize)
    requires
        piece@.len() > 0,
    ensures
        r == first_piece(v@, piece@),
        r <= v@.len(),
        r < v@.len() ==> r + piece@.len() <= v@.len(),
{
    let mut i: usize = 0;
    while i < v.len() && !matches_at(v, piece, i)
        invariant
            i <= v.len(),
            forall|j: int| 0 <= j < i ==> !#[trigger] occurs_at(v@, piece@, j),
        decreases v.len() - i,
    {
        i = i + 1;
    }
    proof {
        lemma_first_piece(v@, piece@, i as int);
    }
    i
}

// ---------------------------------------------------------------------------
// Splitting and joining
// ---------------------------------------------------------------------------

/// The pieces of `s` between the separators `sep`; never empty.
pub open spec fn split(s: Seq<char>, sep: char) -> Seq<Seq<char>>
    decreases s.len(),
{
    if s.len() == 0 {
        seq![Seq::<char>::empty()]
    } else {
        let before = split(s.drop_last(), sep);
        if s.last() == sep {
            before.push(Seq::<char>::empty())
        } else {
            before.drop_last().push(before.last().push(s.last()))
        }
    }
}

/// There is always at least one piece.
pub proof fn lemma_split_nonempty(s: Seq<char>, sep: char)
    ensures
        split(s, sep).len() > 0,
    decreases s.len(),
{
    if s.len() > 0 {
        lemma_split_nonempty(s.drop_last(), sep);
    }
}

/// Splits a text at every `sep`.
pub fn split_at_char(v: &Vec<char>, sep: char) -> (r: Vec<Vec<char>>)
    ensures
        char_texts(r@) == split(v@, sep),
        r@.len() > 0,
{
    let mut done: Vec<Vec<char>> = Vec::new();
    let mut piece: Vec<char> = Vec::new();
    let mut i: usize = 0;
    while i < v.len()
        invariant
            i <= v.len(),
            split(v@.take(i as int), sep) == char_texts(done@).push(piece@),
        decreases v.len() - i,
    {
        let ghost before = split(v@.take(i as int), sep);
        assert(v@.take(i + 1).drop_last() =~= v@.take(i as int));
        let c = v[i];
        if c == sep {
            let ghost old_done = done@;
            done.push(piece);
            assert(char_texts(done@) =~= before);
            piece = Vec::new();
        } else {
            assert(before.drop_last() =~= char_texts(done@));
            piece.push(c);
        }
        i = i + 1;
    }
    assert(v@.take(i as int) =~= v@);
    done.push(piece);
    assert(char_texts(done@) =~= split(v@, sep));
    done
}

/// The pieces, one after the other, with `sep` between them.
pub open spec fn join(pieces: Seq<Seq<char>>, sep: Seq<char>) -> Seq<char>
    decreases pieces.len(),
{
    if pieces.len() == 0 {
        Seq::empty()
    } else if pieces.len() == 1 {
        pieces[0]
    } else {
        join(pieces.drop_last(), sep) + sep + pieces.last()
    }
}

/// Joins texts with `sep` between them.
pub fn join_with(pieces: &Vec<Vec<char>>, sep: &Vec<char>) -> (r: Vec<char>)
    ensures
        r@ == join(char_texts(pieces@), sep@),
{
    let ghost all = char_texts(pieces@);
    let mut out: Vec<char> = Vec::new();
    let mut i: usize = 0;
    while i < pieces.len()
        invariant
            i <= pieces.len(),
            all == char_texts(pieces@),
            out@ == join(all.take(i as int), sep@),
        decreases pieces.len() - i,
    {
        assert(all.take(i + 1).drop_last() =~= all.take(i as int));
        if i > 0 {
            extend(&mut out, sep);
        }
        extend(&mut out, &pieces[i]);
        i = i + 1;
    }
    assert(all.take(i as int) =~= all);
    out
}

/// Joining the pieces of a text gives the text back.
pub proof fn lemma_join_split(s: Seq<char>, sep: char)
    ensures
        join(split(s, sep), seq![sep]) == s,
    decreases s.len(),
{
    lemma_split_nonempty(s, sep);
    if s.len() == 0 {
        assert(join(split(s, sep), seq![sep]) =~= s);
    } else {
        let head = s.drop_last();
        let before = split(head, sep);
        let pieces = split(s, sep);
        lemma_split_nonempty(head, sep);
        lemma_join_split(head, sep);
        if s.last() == sep {
            assert(pieces.drop_last() =~= before);
            assert(join(pieces, seq![sep]) =~= s);
        } else {
            assert(pieces.drop_last() =~= before.drop_last());
            if before.len() == 1 {
                assert(join(pieces, seq![sep]) =~= s);
            } else {
                assert(join(pieces, seq![sep]) =~= join(before, seq![sep]).push(s.last()));
                assert(head.push(s.last()) =~= s);
            }
        }
    }
}

/// No piece holds the separator.
pub proof fn lemma_split_pieces(s: Seq<char>, sep: char)
    ensures
        forall|i: int| 0 <= i < split(s, sep).len() ==> !(#[trigger] split(s, sep)[i]).contains(sep),
    decreases s.len(),
{
    lemma_split_nonempty(s, sep);
    if s.len() > 0 {
        let before = split(s.drop_last(), sep);
        lemma_split_nonempty(s.drop_last(), sep);
        lemma_split_pieces(s.drop_last(), sep);
        assert forall|i: int| 0 <= i < split(s, sep).len() implies !(#[trigger] split(
            s,
            sep,
        )[i]).contains(sep) by {
            if s.last() == sep {
                if i < before.len() {
                    assert(split(s, sep)[i] == before[i]);
                }
            } else if i < before.len() - 1 {
                assert(split(s, sep)[i] == before[i]);
            } else {
                let piece = before.last();
                assert(!before[before.len() - 1].contains(sep));
                assert(split(s, sep)[i] == piece.push(s.last()));
                if piece.push(s.last()).contains(sep) {
                    let j = choose|j: int|
                        0 <= j < piece.push(s.last()).len() && piece.push(s.last())[j] == sep;
                    if j < piece.len() {
                        assert(piece[j] == sep);
                    }
                }
            }
        }
    }
}

/// A text without the separator is one piece.
pub proof fn lemma_split_plain(s: Seq<char>, sep: char)
    requires
        !s.contains(sep),
    ensures
        split(s, sep) == seq![s],
    decreases s.len(),
{
    if s.len() > 0 {
        let head = s.drop_last();
        assert(!head.contains(sep)) by {
            if head.contains(sep) {
                let j = choose|j: int| 0 <= j < head.len() && head[j] == sep;
                assert(s[j] == sep);
            }
        }
        lemma_split_plain(head, sep);
        assert(s.last() != sep) by {
            assert(s[s.len() - 1] == s.last());
        }
        assert(head.push(s.last()) =~= s);
        assert(split(s, sep) =~= seq![s]);
    } else {
        assert(s =~= Seq::<char>::empty());
    }
}

/// A separator and a text without it add one piece.
pub proof fn lemma_split_append(a: Seq<char>, b: Seq<char>, sep: char)
    requires
        !b.contains(sep),
    ensures
        split(a + seq![sep] + b, sep) == split(a, sep).push(b),
    decreases b.len(),
{
    let s = a + seq![sep] + b;
    lemma_split_nonempty(a, sep);
    if b.len() == 0 {
        assert(s.drop_last() =~= a);
        assert(b =~= Seq::<char>::empty());
    } else {
        let head = b.drop_last();
        assert(!head.contains(sep)) by {
            if head.contains(sep) {
                let j = choose|j: int| 0 <= j < head.len() && head[j] == sep;
                assert(b[j] == sep);
            }
        }
        lemma_split_append(a, head, sep);
        assert(b.last() != sep) by {
            assert(b[b.len() - 1] == b.last());
        }
        assert(s.drop_last() =~= a + seq![sep] + head);
        assert(head.push(b.last()) =~= b);
        assert(split(a, sep).push(head).drop_last() =~= split(a, sep));
    }
}

/// Texts with a separator between them have the pieces of both.
pub proof fn lemma_split_concat(a: Seq<char>, b: Seq<char>, sep: char)
    ensures
        split(a + seq![sep] + b, sep) == split(a, sep) + split(b, sep),
    decreases b.len(),
{
    let s = a + seq![sep] + b;
    lemma_split_nonempty(a, sep);
    if b.len() == 0 {
        assert(s.drop_last() =~= a);
        assert(split(s, sep) =~= split(a, sep) + split(b, sep));
    } else {
        let head = b.drop_last();
        lemma_split_concat(a, head, sep);
        lemma_split_nonempty(head, sep);
        assert(s.drop_last() =~= a + seq![sep] + head);
        assert(s.last() == b.last());
        let before = split(a, sep) + split(head, sep);
        assert(before.last() == split(head, sep).last());
        assert(before.drop_last() =~= split(a, sep) + split(head, sep).drop_last());
        assert(split(s, sep) =~= split(a, sep) + split(b, sep));
    }
}

/// Splitting what was joined gives the pieces back, when none holds the separator.
pub proof fn lemma_split_join(pieces: Seq<Seq<char>>, sep: char)
    requires
        pieces.len() > 0,
        forall|i: int| 0 <= i < pieces.len() ==> !(#[trigger] pieces[i]).contains(sep),
    ensures
        split(join(pieces, seq![sep]), sep) == pieces,
    decreases pieces.len(),
{
    assert(!pieces[pieces.len() - 1].contains(sep));
    if pieces.len() == 1 {
        lemma_split_plain(pieces[0], sep);
        assert(pieces =~= seq![pieces[0]]);
    } else {
        let head = pieces.drop_last();
        assert forall|i: int| 0 <= i < head.len() implies !(#[trigger] head[i]).contains(sep) by {
            assert(head[i] == pieces[i]);
        }
        lemma_split_join(head, sep);
        lemma_split_append(join(head, seq![sep]), pieces.last(), sep);
        assert(head.push(pieces.last()) =~= pieces);
    }
}

/// Texts joined behind others stand behind what those make, with a separator.
pub proof fn lemma_join_concat(a: Seq<Seq<char>>, b: Seq<Seq<char>>, sep: Seq<char>)
    requires
        a.len() > 0,
        b.len() > 0,
    ensures
        join(a + b, sep) == join(a, sep) + sep + join(b, sep),
    decreases b.len(),
{
    let all = a + b;
    assert(all.drop_last() =~= a + b.drop_last());
    assert(all.last() == b.last());
    if b.len() == 1 {
        assert(a + b.drop_last() =~= a);
        assert(join(b, sep) == b[0]);
    } else {
        lemma_join_concat(a, b.drop_last(), sep);
        assert(join(all, sep) =~= join(a, sep) + sep + join(b, sep));
    }
}

// ---------------------------------------------------------------------------
// Lines
// ---------------------------------------------------------------------------

/// `s` without one carriage return at its end.
pub open spec fn without_cr(s: Seq<char>) -> Seq<char> {
    if s.len() > 0 && s.last() == '\r' {
        s.drop_last()
    } else {
        s
    }
}

/// The lines of `s`. A line ends in a line feed, or in a carriage return and a
/// line feed; after the last line that end may be missing.
pub open spec fn lines(s: Seq<char>) -> Seq<Seq<char>> {
    let pieces = split(s, '\n');
    let ended = Seq::new((pieces.len() - 1) as nat, |i: int| without_cr(pieces[i]));
    if pieces.last().len() == 0 {
        ended
    } else {
        ended.push(pieces.last())
    }
}

/// The lines of `s` where each of them ends in a line feed, the last one too.
pub open spec fn ended_lines(s: Seq<char>) -> Seq<Seq<char>> {
    Seq::new(split(s, '\n').len(), |i: int| without_cr(split(s, '\n')[i]))
}

/// Texts with a line feed between them have the lines of both; those of the first
/// are all ended.
pub proof fn lemma_lines_concat(a: Seq<char>, b: Seq<char>)
    ensures
        lines(a + seq!['\n'] + b) == ended_lines(a) + lines(b),
{
    lemma_split_concat(a, b, '\n');
    lemma_split_nonempty(b, '\n');
    let all = split(a + seq!['\n'] + b, '\n');
    assert(all.last() == split(b, '\n').last());
    assert(lines(a + seq!['\n'] + b) =~= ended_lines(a) + lines(b));
}

/// Splits a text into its lines.
pub fn lines_of(v: &Vec<char>) -> (r: Vec<Vec<char>>)
    ensures
        char_texts(r@) == lines(v@),
{
    let pieces = split_at_char(v, '\n');
    let ghost all = split(v@, '\n');
    let mut out: Vec<Vec<char>> = Vec::new();
    let mut i: usize = 0;
    while i + 1 < pieces.len()
        invariant
            i < pieces.len(),
            all == char_texts(pieces@),
            char_texts(out@) == Seq::new(i as nat, |j: int| without_cr(all[j])),
        decreases pieces.len() - i,
    {
        let line = &pieces[i];
        assert(line@ == all[i as int]);
        let n = line.len();
        let end: usize = if n > 0 && line[n - 1] == '\r' {
            n - 1
        } else {
            n
        };
        let kept = part(line, 0, end);
        assert(kept@ =~= without_cr(all[i as int]));
        let ghost before = out@;
        out.push(kept);
        assert(char_texts(out@) =~= char_texts(before).push(kept@));
        i = i + 1;
        assert(char_texts(out@) =~= Seq::new(i as nat, |j: int| without_cr(all[j])));
    }
    let last = &pieces[i];
    assert(last@ == all.last());
    let ghost before = out@;
    if last.len() > 0 {
        out.push(part(last, 0, last.len()));
        assert(last@.subrange(0, last@.len() as int) =~= last@);
        assert(char_texts(out@) =~= char_texts(before).push(last@));
    }
    out
}

// ---------------------------------------------------------------------------
// Replacing
// ---------------------------------------------------------------------------

/// `s` with every occurrence of `from`, taken from the left without overlap,
/// replaced by `to`.
pub open spec fn replaced(s: Seq<char>, from: Seq<char>, to: Seq<char>) -> Seq<char>
    decreases s.len(),
{
    if from.len() == 0 || s.len() < from.len() {
        s
    } else if has_prefix(s, from) {
        to + replaced(s.skip(from.len() as int), from, to)
    } else {
        seq![s[0]] + replaced(s.drop_first(), from, to)
    }
}

/// Replaces every occurrence of `from` in `v` by `to`.
pub fn replace(v: &Vec<char>, from: &Vec<char>, to: &Vec<char>) -> (r: Vec<char>)
    requires
        from@.len() > 0,
    ensures
        r@ == replaced(v@, from@, to@),
{
    let mut out: Vec<char> = Vec::new();
    let mut i: usize = 0;
    assert(v@.skip(0) =~= v@);
    while i < v.len()
        invariant
            i <= v.len(),
            from@.len() > 0,
            replaced(v@, from@, to@) == out@ + replaced(v@.skip(i as int), from@, to@),
        decreases v.len() - i,
    {
        let ghost rest = v@.skip(i as int);
        let ghost before = out@;
        let here = matches_at(v, from, i);
        proof {
            if from@.len() <= rest.len() {
                assert(rest.take(from@.len() as int) =~= v@.subrange(i as int, i + from@.len()));
            }
            assert(here == has_prefix(rest, from@));
        }
        if here {
            extend(&mut out, to);
            assert(rest.skip(from@.len() as int) =~= v@.skip(i + from@.len()));
            i = i + from.len();
            assert(before + (to@ + replaced(v@.skip(i as int), from@, to@)) =~= out@ + replaced(
                v@.skip(i as int),
                from@,
                to@,
            ));
        } else {
            out.push(v[i]);
            assert(rest.drop_first() =~= v@.skip(i + 1));
            assert(rest =~= seq![rest[0]] + rest.drop_first());
            assert(replaced(rest, from@, to@) == seq![rest[0]] + replaced(
                rest.drop_first(),
                from@,
                to@,
            ));
            i = i + 1;
            assert(before + (seq![rest[0]] + replaced(v@.skip(i as int), from@, to@)) =~= out@
                + replaced(v@.skip(i as int), from@, to@));
        }
    }
    assert(v@.skip(i as int) =~= Seq::empty());
    out
}

// ---------------------------------------------------------------------------
// Laws
// ---------------------------------------------------------------------------

/// White space is what stands between words: of ASCII the space and the five characters
/// from the tab to the carriage return, and beyond it the next line, the spaces of fixed
/// width, and the two separators.
pub proof fn law_white_space_by_its_characters(c: char)
    ensures
        white_space(c) <==> {
            ||| c == ' '
            ||| '\t' <= c <= '\r'
            ||| c == '\u{85}'
            ||| c == '\u{a0}'
            ||| c == '\u{1680}'
            ||| '\u{2000}' <= c <= '\u{200a}'
            ||| c == '\u{2028}'
            ||| c == '\u{2029}'
            ||| c == '\u{202f}'
            ||| c == '\u{205f}'
            ||| c == '\u{3000}'
        },
{
}

/// The small letter of a capital letter is the one at the same place of the alphabet;
/// everything else stays as it is.
pub proof fn law_letters_keep_their_place(c: char, i: int)
    requires
        0 <= i < 26,
    ensures
        c == "ABCDEFGHIJKLMNOPQRSTUVWXYZ"@[i] ==> lower_char(c) == "abcdefghijklmnopqrstuvwxyz"@[i],
        !('A' <= c <= 'Z') ==> lower_char(c) == c,
{
    reveal_strlit("ABCDEFGHIJKLMNOPQRSTUVWXYZ");
    reveal_strlit("abcdefghijklmnopqrstuvwxyz");
}

/// Of a text between white space the text is left.
pub proof fn law_white_space_around_is_trimmed(before: Seq<char>, s: Seq<char>, behind: Seq<char>)
    requires
        forall|i: int| 0 <= i < before.len() ==> white_space(#[trigger] before[i]),
        forall|i: int| 0 <= i < behind.len() ==> white_space(#[trigger] behind[i]),
        s.len() > 0,
        !white_space(s[0]),
        !white_space(s.last()),
    ensures
        trimmed(before + s + behind) == s,
{
    let p = |c: char| white_space(c);
    let all = before + s + behind;
    let n = before.len() as int;
    assert forall|j: int| 0 <= j < n implies p(#[trigger] all[j]) by {
        assert(all[j] == before[j]);
    }
    lemma_trim_start_skip(all, p, n);
    let rest = all.skip(n);
    assert(rest =~= s + behind);
    assert(trim_start_while(rest, p) == rest);
    let k = s.len() as int;
    assert forall|j: int| k <= j < rest.len() implies p(#[trigger] rest[j]) by {
        assert(rest[j] == behind[j - k]);
    }
    lemma_trim_end_take(rest, p, k);
    assert(rest.take(k) =~= s);
}

/// A line ends in a line feed, with a carriage return before it or not; the rest of the
/// text has its own lines. An empty text has none, and what stands behind the last end
/// is a line where it is anything.
pub proof fn law_lines_end_in_line_feeds(line: Seq<char>, rest: Seq<char>)
    requires
        !line.contains('\n'),
        line.len() > 0 ==> line.last() != '\r',
    ensures
        lines(line + seq!['\n'] + rest) == seq![line] + lines(rest),
        lines(line + seq!['\r'] + seq!['\n'] + rest) == seq![line] + lines(rest),
        line.len() > 0 ==> lines(line) == seq![line],
        lines(Seq::empty()) == Seq::<Seq<char>>::empty(),
{
    let returned = line + seq!['\r'];
    assert(!returned.contains('\n')) by {
        if returned.contains('\n') {
            let j = choose|j: int| 0 <= j < returned.len() && returned[j] == '\n';
            assert(line[j] == '\n');
        }
    }
    lemma_split_plain(line, '\n');
    lemma_split_plain(returned, '\n');
    lemma_lines_concat(line, rest);
    lemma_lines_concat(returned, rest);
    assert(returned.drop_last() =~= line);
    assert(ended_lines(line) =~= seq![line]);
    assert(ended_lines(returned) =~= seq![line]);
    assert(lines(line) =~= if line.len() > 0 {
        seq![line]
    } else {
        Seq::empty()
    });
    assert(lines(Seq::empty()) =~= Seq::<Seq<char>>::empty());
}

/// Where a piece stands it is replaced, wherever its first character does not stand
/// the text is kept, and the rest is treated alike.
pub proof fn law_pieces_are_replaced(
    before: Seq<char>,
    rest: Seq<char>,
    from: Seq<char>,
    to: Seq<char>,
)
    requires
        from.len() > 0,
        !before.contains(from[0]),
    ensures
        replaced(before + from + rest, from, to) == before + to + replaced(rest, from, to),
        replaced(before, from, to) == before,
    decreases before.len(),
{
    let all = before + from + rest;
    if before.len() == 0 {
        assert(all =~= from + rest);
        assert(all.take(from.len() as int) =~= from);
        assert(all.skip(from.len() as int) =~= rest);
        assert(replaced(all, from, to) =~= before + to + replaced(rest, from, to));
        assert(replaced(before, from, to) =~= before);
    } else {
        let tail = before.drop_first();
        assert(!tail.contains(from[0])) by {
            if tail.contains(from[0]) {
                let j = choose|j: int| 0 <= j < tail.len() && tail[j] == from[0];
                assert(before[j + 1] == from[0]);
            }
        }
        law_pieces_are_replaced(tail, rest, from, to);
        assert(before[0] != from[0]) by {
            assert(before.contains(before[0]));
        }
        assert(all[0] == before[0]);
        if has_prefix(all, from) {
            assert(all.take(from.len() as int)[0] == all[0]);
        }
        if has_prefix(before, from) {
            assert(before.take(from.len() as int)[0] == before[0]);
        }
        assert(all.drop_first() =~= tail + from + rest);
        assert(replaced(all, from, to) =~= before + to + replaced(rest, from, to));
        assert(seq![before[0]] + tail =~= before);
        assert(replaced(before, from, to) =~= before);
    }
}

} // verus!
