//! File names that every file system accepts.

use vstd::prelude::*;

use crate::text;

verus! {

/// The characters that a file name cannot hold: `< > : " | ? * \`, the control
/// characters and DEL.
pub open spec fn forbidden(c: char) -> bool {
    let n = c as u32;
    ||| c == '<'
    ||| c == '>'
    ||| c == ':'
    ||| c == '"'
    ||| c == '|'
    ||| c == '?'
    ||| c == '*'
    ||| c == '\\'
    ||| n <= 0x1f
    ||| n == 0x7f
}

/// `c`, or an underscore in the place of a forbidden character.
pub open spec fn safe_char(c: char) -> char {
    if forbidden(c) {
        '_'
    } else {
        c
    }
}

/// The device names of Windows, in any case: CON, PRN, AUX, NUL, COM1 to COM9
/// and LPT1 to LPT9.
pub open spec fn reserved(s: Seq<char>) -> bool {
    let small = text::lower(s);
    ||| small == "con"@
    ||| small == "prn"@
    ||| small == "aux"@
    ||| small == "nul"@
    ||| {
        &&& small.len() == 4
        &&& small.take(3) == "com"@ || small.take(3) == "lpt"@
        &&& '1' <= small[3] <= '9'
    }
}

/// The part of a component before its first dot.
pub open spec fn base_name(s: Seq<char>) -> Seq<char> {
    s.take(text::first_index(s, '.'))
}

/// Being what cannot stand at the end of a component: white space or a dot.
pub open spec fn loose_end() -> spec_fn(char) -> bool {
    |c: char| text::white_space(c) || c == '.'
}

/// `s` with forbidden characters replaced, then without leading white space and
/// without trailing white space and dots.
pub open spec fn stripped_component(s: Seq<char>) -> Seq<char> {
    stripped(s.map_values(|c: char| safe_char(c)))
}

/// `s` without leading white space and without trailing white space and dots.
pub open spec fn stripped(s: Seq<char>) -> Seq<char> {
    text::trim_end_while(
        text::trim_start_while(s, |c: char| text::white_space(c)),
        loose_end(),
    )
}

/// `s` with an underscore behind its base name where that is reserved.
pub open spec fn unreserved_component(s: Seq<char>) -> Seq<char> {
    if reserved(base_name(s)) {
        s.insert(text::first_index(s, '.'), '_')
    } else {
        s
    }
}

/// What becomes of one component of a path. A component of which nothing is
/// left becomes an underscore.
pub open spec fn sanitized_component(s: Seq<char>) -> Seq<char> {
    let stripped = stripped_component(s);
    unreserved_component(
        if stripped.len() == 0 {
            seq!['_']
        } else {
            stripped
        },
    )
}

/// The sanitized components of the pieces that are not empty.
pub open spec fn sanitized_components(pieces: Seq<Seq<char>>) -> Seq<Seq<char>>
    decreases pieces.len(),
{
    if pieces.len() == 0 {
        Seq::empty()
    } else {
        let before = sanitized_components(pieces.drop_last());
        if pieces.last().len() == 0 {
            before
        } else {
            before.push(sanitized_component(pieces.last()))
        }
    }
}

/// The components of a sanitized path.
pub open spec fn path_components(path: Seq<char>) -> Seq<Seq<char>> {
    sanitized_components(text::split(path, '/'))
}

/// The sanitized form of a path: its components, with single slashes between.
pub open spec fn sanitized_path(path: Seq<char>) -> Seq<char> {
    text::join(path_components(path), seq!['/'])
}

/// What holds of each component of a sanitized path.
pub open spec fn safe_component(s: Seq<char>) -> bool {
    &&& s.len() > 0
    &&& forall|i: int| 0 <= i < s.len() ==> !forbidden(#[trigger] s[i])
    &&& !text::white_space(s[0])
    &&& !text::white_space(s.last())
    &&& s.last() != '.'
    &&& !reserved(base_name(s))
}

// ---------------------------------------------------------------------------
// Properties of one component
// ---------------------------------------------------------------------------

/// The shape of a stripped component: a part of the replaced text, from the
/// returned position on, which starts with no white space and ends in neither
/// white space nor a dot.
proof fn lemma_stripped_shape(s: Seq<char>) -> (from: int)
    ensures
        ({
            let safe = s.map_values(|c: char| safe_char(c));
            let d = stripped_component(s);
            &&& 0 <= from <= from + d.len() <= s.len()
            &&& d == safe.subrange(from, from + d.len())
            &&& d.len() > 0 ==> {
                &&& !text::white_space(d[0])
                &&& !text::white_space(d.last())
                &&& d.last() != '.'
            }
            &&& forall|i: int| 0 <= i < d.len() ==> !forbidden(#[trigger] d[i])
        }),
{
    let p = |c: char| text::white_space(c);
    let safe = s.map_values(|c: char| safe_char(c));
    text::lemma_trim_start_shape(safe, p);
    let left = text::trim_start_while(safe, p);
    text::lemma_trim_end_shape(left, loose_end());
    let d = stripped_component(s);
    let from = safe.len() - left.len();
    assert(d =~= safe.subrange(from, from + d.len()));
    if d.len() > 0 {
        assert(d[0] == left[0]);
    }
    assert forall|i: int| 0 <= i < d.len() implies !forbidden(#[trigger] d[i]) by {
        assert(d[i] == safe[from + i]);
    }
    from
}

/// A name that is not reserved stays so behind an added underscore.
proof fn lemma_reserved_underscore(s: Seq<char>)
    ensures
        reserved(s) ==> s.len() > 0,
        reserved(s) ==> !s.contains('.'),
        !reserved(s.push('_')) || !reserved(s),
        !reserved(seq!['_']),
{
    reveal_strlit("con");
    reveal_strlit("prn");
    reveal_strlit("aux");
    reveal_strlit("nul");
    reveal_strlit("com");
    reveal_strlit("lpt");
    let small = text::lower(s);
    let more = text::lower(s.push('_'));
    assert(more =~= small.push('_'));
    if reserved(s) {
        assert(small.len() == 3 || small.len() == 4);
        if s.contains('.') {
            let j = choose|j: int| 0 <= j < s.len() && s[j] == '.';
            assert(small[j] == '.');
            if small.len() == 4 && j < 3 {
                assert(small.take(3)[j] == '.');
            }
        }
        if more.len() == 4 {
            assert(more[3] == '_');
        }
    }
    let one = text::lower(seq!['_']);
    assert(one.len() == 1);
}

/// Every sanitized component is safe.
pub proof fn lemma_sanitized_component_safe(s: Seq<char>)
    ensures
        safe_component(sanitized_component(s)),
{
    let from = lemma_stripped_shape(s);
    let d = stripped_component(s);
    let f = if d.len() == 0 {
        seq!['_']
    } else {
        d
    };
    let g = sanitized_component(s);
    assert(f.len() > 0 && !text::white_space(f[0]) && f.last() != '.');
    assert(!text::white_space(f.last()));
    assert(forall|i: int| 0 <= i < f.len() ==> !forbidden(#[trigger] f[i]));
    text::lemma_first_index_shape(f, '.');
    let k = text::first_index(f, '.');
    lemma_reserved_underscore(base_name(f));
    if reserved(base_name(f)) {
        assert(g == f.insert(k, '_'));
        assert(0 < k);
        assert(g[0] == f[0]);
        assert(g.last() != '.' && !text::white_space(g.last())) by {
            if k == f.len() {
                assert(g.last() == '_');
            } else {
                assert(g.last() == f.last());
            }
        }
        assert forall|i: int| 0 <= i < g.len() implies !forbidden(#[trigger] g[i]) by {
            if i < k {
                assert(g[i] == f[i]);
            } else if i > k {
                assert(g[i] == f[i - 1]);
            }
        }
        assert forall|j: int| 0 <= j < k + 1 implies #[trigger] g[j] != '.' by {
            if j < k {
                assert(g[j] == f[j]);
            }
        }
        if k + 1 < g.len() {
            assert(g[k + 1] == f[k]);
        }
        text::lemma_first_index(g, '.', k + 1);
        assert(base_name(g) =~= base_name(f).push('_'));
    }
}

/// Sanitizing leaves a safe component as it is.
pub proof fn lemma_safe_component_unchanged(s: Seq<char>)
    requires
        safe_component(s),
    ensures
        sanitized_component(s) == s,
{
    assert(s.map_values(|c: char| safe_char(c)) =~= s);
    assert(text::trim_start_while(s, |c: char| text::white_space(c)) == s);
    assert(text::trim_end_while(s, loose_end()) == s);
}

/// A component without the path separator stays without it.
proof fn lemma_sanitized_component_no_slash(s: Seq<char>)
    requires
        !s.contains('/'),
    ensures
        !sanitized_component(s).contains('/'),
{
    let from = lemma_stripped_shape(s);
    let d = stripped_component(s);
    let f = if d.len() == 0 {
        seq!['_']
    } else {
        d
    };
    let g = sanitized_component(s);
    let k = text::first_index(f, '.');
    text::lemma_first_index_shape(f, '.');
    let safe = s.map_values(|c: char| safe_char(c));
    if g.contains('/') {
        let j = choose|j: int| 0 <= j < g.len() && g[j] == '/';
        let i = if g == f || j < k {
            j
        } else {
            j - 1
        };
        assert(f[i] == '/');
        assert(d[i] == '/');
        assert(safe[from + i] == '/');
        assert(s[from + i] == '/');
    }
}

/// Whether `name` is one of the reserved device names.
fn is_reserved(name: &Vec<char>) -> (r: bool)
    ensures
        r == reserved(name@),
{
    let small = text::to_lower(name);
    if text::is_text(&small, "con") || text::is_text(&small, "prn") || text::is_text(
        &small,
        "aux",
    ) || text::is_text(&small, "nul") {
        return true;
    }
    if small.len() != 4 {
        return false;
    }
    let stem = text::part(&small, 0, 3);
    assert(stem@ =~= small@.take(3));
    (text::is_text(&stem, "com") || text::is_text(&stem, "lpt")) && '1' <= small[3] && small[3]
        <= '9'
}

/// Whether `c` cannot stand in a file name.
fn is_forbidden(c: char) -> (r: bool)
    ensures
        r == forbidden(c),
{
    c == '<' || c == '>' || c == ':' || c == '"' || c == '|' || c == '?' || c == '*' || c == '\\'
        || c as u32 <= 0x1f || c as u32 == 0x7f
}

/// Removes leading white space and trailing white space and dots.
fn strip(v: &Vec<char>) -> (r: Vec<char>)
    ensures
        r@ == stripped(v@),
{
    let ghost p = |c: char| text::white_space(c);
    let mut i: usize = 0;
    while i < v.len() && text::is_white_space(v[i])
        invariant
            i <= v.len(),
            p == (|c: char| text::white_space(c)),
            forall|j: int| 0 <= j < i ==> p(#[trigger] v@[j]),
        decreases v.len() - i,
    {
        i = i + 1;
    }
    proof {
        text::lemma_trim_start_skip(v@, p, i as int);
        assert(text::trim_start_while(v@, p) == v@.skip(i as int));
    }
    let ghost t = v@.skip(i as int);
    let ghost q = loose_end();
    let mut k: usize = v.len();
    while k > i && (text::is_white_space(v[k - 1]) || v[k - 1] == '.')
        invariant
            i <= k <= v.len(),
            q == loose_end(),
            t == v@.skip(i as int),
            forall|j: int| k - i <= j < t.len() ==> q(#[trigger] t[j]),
        decreases k,
    {
        k = k - 1;
    }
    proof {
        text::lemma_trim_end_take(t, q, k - i);
        assert(t.take(k - i) =~= v@.subrange(i as int, k as int));
    }
    text::part(v, i, k)
}

/// Sanitizes one component of a path and says whether that changed it.
pub fn sanitize_component(component: &Vec<char>) -> (r: (Vec<char>, bool))
    ensures
        r.0@ == sanitized_component(component@),
        r.1 == (r.0@ != component@),
{
    let ghost safe = component@.map_values(|c: char| safe_char(c));
    let mut clean: Vec<char> = Vec::new();
    let mut i: usize = 0;
    while i < component.len()
        invariant
            i <= component.len(),
            safe == component@.map_values(|c: char| safe_char(c)),
            clean@ == safe.take(i as int),
        decreases component.len() - i,
    {
        let c = component[i];
        assert(safe.take(i + 1) =~= safe.take(i as int).push(safe[i as int]));
        if is_forbidden(c) {
            clean.push('_');
        } else {
            clean.push(c);
        }
        i = i + 1;
    }
    assert(safe.take(i as int) =~= safe);

    let mut result = strip(&clean);
    if result.len() == 0 {
        result.push('_');
        assert(result@ =~= seq!['_']);
    }
    let dot = text::find_char(&result, '.');
    let base = text::part(&result, 0, dot);
    assert(base@ =~= base_name(result@));
    if is_reserved(&base) {
        result.insert(dot, '_');
    }
    let changed = !text::same(&result, component);
    (result, changed)
}

// ---------------------------------------------------------------------------
// Whole paths
// ---------------------------------------------------------------------------

/// Every component of a sanitized path is safe and holds no separator.
pub proof fn lemma_components_safe(pieces: Seq<Seq<char>>)
    requires
        forall|i: int| 0 <= i < pieces.len() ==> !(#[trigger] pieces[i]).contains('/'),
    ensures
        forall|i: int|
            0 <= i < sanitized_components(pieces).len() ==> {
                &&& safe_component(#[trigger] sanitized_components(pieces)[i])
                &&& !sanitized_components(pieces)[i].contains('/')
            },
    decreases pieces.len(),
{
    if pieces.len() > 0 {
        let head = pieces.drop_last();
        assert forall|i: int| 0 <= i < head.len() implies !(#[trigger] head[i]).contains('/') by {
            assert(head[i] == pieces[i]);
        }
        lemma_components_safe(head);
        assert(!pieces[pieces.len() - 1].contains('/'));
        lemma_sanitized_component_safe(pieces.last());
        lemma_sanitized_component_no_slash(pieces.last());
        let all = sanitized_components(pieces);
        let before = sanitized_components(head);
        assert forall|i: int| 0 <= i < all.len() implies {
            &&& safe_component(#[trigger] all[i])
            &&& !all[i].contains('/')
        } by {
            if i < before.len() {
                assert(all[i] == before[i]);
            }
        }
    }
}

/// Where no piece is empty there is one component for each.
proof fn lemma_components_of_full_pieces(pieces: Seq<Seq<char>>)
    requires
        forall|i: int| 0 <= i < pieces.len() ==> (#[trigger] pieces[i]).len() > 0,
    ensures
        sanitized_components(pieces) == pieces.map_values(|p: Seq<char>| sanitized_component(p)),
    decreases pieces.len(),
{
    let f = |p: Seq<char>| sanitized_component(p);
    if pieces.len() > 0 {
        let head = pieces.drop_last();
        assert forall|i: int| 0 <= i < head.len() implies (#[trigger] head[i]).len() > 0 by {
            assert(head[i] == pieces[i]);
        }
        lemma_components_of_full_pieces(head);
        assert(pieces[pieces.len() - 1].len() > 0);
    }
    assert(sanitized_components(pieces) =~= pieces.map_values(f));
}

/// A path without a separator has one component, or none where it is empty.
pub proof fn lemma_one_component(path: Seq<char>)
    requires
        !path.contains('/'),
    ensures
        path_components(path) == if path.len() == 0 {
            Seq::<Seq<char>>::empty()
        } else {
            seq![sanitized_component(path)]
        },
{
    text::lemma_split_plain(path, '/');
    assert(seq![path].drop_last() =~= Seq::<Seq<char>>::empty());
    assert(sanitized_components(seq![path].drop_last()) =~= Seq::<Seq<char>>::empty());
    assert(seq![path].last() == path);
    if path.len() > 0 {
        assert(path_components(path) =~= seq![sanitized_component(path)]);
    }
}

/// The pieces of a sanitized path are its components.
pub proof fn lemma_sanitized_pieces(path: Seq<char>)
    requires
        sanitized_path(path).len() > 0,
    ensures
        text::split(sanitized_path(path), '/') == path_components(path),
{
    text::lemma_split_pieces(path, '/');
    lemma_components_safe(text::split(path, '/'));
    if path_components(path).len() > 0 {
        text::lemma_split_join(path_components(path), '/');
    }
}

/// A path is unchanged exactly when it is empty or none of its pieces is empty
/// or changed.
proof fn lemma_path_changed(path: Seq<char>)
    ensures
        (sanitized_path(path) == path) <==> path.len() == 0 || (forall|i: int|
            0 <= i < text::split(path, '/').len() ==> {
                &&& (#[trigger] text::split(path, '/')[i]).len() > 0
                &&& sanitized_component(text::split(path, '/')[i]) == text::split(path, '/')[i]
            }),
{
    let pieces = text::split(path, '/');
    let clean = path_components(path);
    text::lemma_split_nonempty(path, '/');
    text::lemma_split_pieces(path, '/');
    text::lemma_join_split(path, '/');
    lemma_components_safe(pieces);
    if path.len() == 0 {
        assert(pieces.drop_last() =~= Seq::<Seq<char>>::empty());
        assert(sanitized_components(pieces.drop_last()) =~= Seq::<Seq<char>>::empty());
        assert(pieces.last().len() == 0);
        assert(sanitized_path(path) =~= path);
    } else {
        if forall|i: int|
            0 <= i < pieces.len() ==> {
                &&& (#[trigger] pieces[i]).len() > 0
                &&& sanitized_component(pieces[i]) == pieces[i]
            } {
            lemma_components_of_full_pieces(pieces);
            assert(clean =~= pieces);
        }
        if sanitized_path(path) == path {
            lemma_sanitized_pieces(path);
            assert(pieces == clean);
            assert forall|i: int| 0 <= i < pieces.len() implies (#[trigger] pieces[i]).len() > 0 by {
                assert(safe_component(clean[i]));
            }
            lemma_components_of_full_pieces(pieces);
            assert forall|i: int| 0 <= i < pieces.len() implies {
                &&& (#[trigger] pieces[i]).len() > 0
                &&& sanitized_component(pieces[i]) == pieces[i]
            } by {
                assert(clean[i] == pieces[i]);
            }
        }
    }
}

/// Makes `filename` valid on every file system: its components, separated by
/// `/`, are sanitized one by one, and empty ones are left out. Also says whether
/// that changed anything.
pub fn sanitize_filename(filename: &str) -> (r: (String, bool))
    ensures
        r.0@ == sanitized_path(filename@),
        r.1 == (r.0@ != filename@),
{
    let chars = text::chars_of(filename);
    let pieces = text::split_at_char(&chars, '/');
    let ghost all = text::split(filename@, '/');
    let mut kept: Vec<Vec<char>> = Vec::new();
    let mut modified = false;
    let mut i: usize = 0;
    while i < pieces.len()
        invariant
            i <= pieces.len(),
            chars@ == filename@,
            all == text::char_texts(pieces@),
            text::char_texts(kept@) == sanitized_components(all.take(i as int)),
            modified <==> filename@.len() > 0 && (exists|j: int|
                0 <= j < i && ((#[trigger] all[j]).len() == 0 || sanitized_component(all[j])
                    != all[j])),
            filename@.len() == 0 ==> all == text::split(filename@, '/'),
        decreases pieces.len() - i,
    {
        let piece = &pieces[i];
        assert(piece@ == all[i as int]);
        assert(all.take(i + 1).drop_last() =~= all.take(i as int));
        if piece.len() == 0 {
            if chars.len() > 0 {
                modified = true;
            }
        } else {
            let (clean, changed) = sanitize_component(piece);
            if changed {
                modified = true;
            }
            let ghost before = kept@;
            kept.push(clean);
            assert(text::char_texts(kept@) =~= text::char_texts(before).push(
                sanitized_component(all[i as int]),
            ));
            assert(filename@.len() > 0) by {
                if filename@.len() == 0 {
                    assert(all[i as int].len() == 0);
                }
            }
        }
        i = i + 1;
    }
    assert(all.take(i as int) =~= all);
    proof {
        lemma_path_changed(filename@);
    }
    let mut slash: Vec<char> = Vec::new();
    slash.push('/');
    assert(slash@ =~= seq!['/']);
    let result = text::join_with(&kept, &slash);
    (text::string_of(&result), modified)
}

// ---------------------------------------------------------------------------
// Laws
// ---------------------------------------------------------------------------

/// A sanitized path is empty, or every piece of it is safe: it is not empty,
/// holds no forbidden character, neither starts nor ends with white space, ends
/// in no dot (so it is neither `.` nor `..`) and is no device name. So a sanitized
/// path neither starts nor ends with a slash, nor holds two in a row.
pub proof fn law_sanitized_path_is_safe(path: Seq<char>)
    ensures
        sanitized_path(path).len() == 0 || forall|i: int|
            0 <= i < text::split(sanitized_path(path), '/').len() ==> safe_component(
                #[trigger] text::split(sanitized_path(path), '/')[i],
            ),
{
    if sanitized_path(path).len() > 0 {
        text::lemma_split_pieces(path, '/');
        lemma_components_safe(text::split(path, '/'));
        lemma_sanitized_pieces(path);
    }
}

/// Sanitizing a sanitized path changes nothing.
pub proof fn law_sanitize_idempotent(path: Seq<char>)
    ensures
        sanitized_path(sanitized_path(path)) == sanitized_path(path),
{
    let once = sanitized_path(path);
    law_sanitized_path_is_safe(path);
    if once.len() > 0 {
        law_safe_path_unchanged(once);
    } else {
        lemma_path_changed(once);
    }
}

/// A path whose pieces are all safe is kept as it is.
pub proof fn law_safe_path_unchanged(path: Seq<char>)
    requires
        forall|i: int|
            0 <= i < text::split(path, '/').len() ==> safe_component(
                #[trigger] text::split(path, '/')[i],
            ),
    ensures
        sanitized_path(path) == path,
{
    lemma_path_changed(path);
    let pieces = text::split(path, '/');
    assert forall|i: int| 0 <= i < pieces.len() implies {
        &&& (#[trigger] pieces[i]).len() > 0
        &&& sanitized_component(pieces[i]) == pieces[i]
    } by {
        lemma_safe_component_unchanged(pieces[i]);
    }
}

/// The components of pieces behind others come behind those of the others.
pub proof fn lemma_components_concat(a: Seq<Seq<char>>, b: Seq<Seq<char>>)
    ensures
        sanitized_components(a + b) == sanitized_components(a) + sanitized_components(b),
    decreases b.len(),
{
    if b.len() == 0 {
        assert(a + b =~= a);
        assert(sanitized_components(a) + sanitized_components(b) =~= sanitized_components(a));
    } else {
        lemma_components_concat(a, b.drop_last());
        assert((a + b).drop_last() =~= a + b.drop_last());
        assert((a + b).last() == b.last());
        assert(sanitized_components(a + b) =~= sanitized_components(a) + sanitized_components(b));
    }
}

/// A sanitized path is empty only where it has no component.
pub proof fn lemma_empty_path(path: Seq<char>)
    ensures
        sanitized_path(path).len() == 0 <==> path_components(path).len() == 0,
{
    text::lemma_split_pieces(path, '/');
    lemma_components_safe(text::split(path, '/'));
    let c = path_components(path);
    if c.len() > 0 {
        assert(safe_component(c[c.len() - 1]));
        if c.len() == 1 {
            assert(text::join(c, seq!['/']) == c[0]);
        }
    }
}

/// A name without a slash that is not empty makes one safe component.
pub proof fn lemma_name_is_safe(name: Seq<char>)
    requires
        name.len() > 0,
        !name.contains('/'),
    ensures
        sanitized_path(name) == sanitized_component(name),
        sanitized_component(name).len() > 0,
        !sanitized_component(name).contains('/'),
{
    lemma_one_component(name);
    lemma_sanitized_component_safe(name);
    lemma_sanitized_component_no_slash(name);
    assert(text::join(seq![sanitized_component(name)], seq!['/']) == sanitized_component(name));
}

/// The parts of a path are made safe each by itself and in their order; one of
/// which nothing remains leaves no slash.
pub proof fn law_folders_are_sanitized_one_by_one(a: Seq<char>, b: Seq<char>)
    ensures
        ({
            let first = sanitized_path(a);
            let second = sanitized_path(b);
            sanitized_path(a + seq!['/'] + b) == if first.len() == 0 {
                second
            } else if second.len() == 0 {
                first
            } else {
                first + seq!['/'] + second
            }
        }),
{
    text::lemma_split_concat(a, b, '/');
    lemma_components_concat(text::split(a, '/'), text::split(b, '/'));
    lemma_empty_path(a);
    lemma_empty_path(b);
    let x = path_components(a);
    let y = path_components(b);
    if x.len() == 0 {
        assert(x + y =~= y);
    } else if y.len() == 0 {
        assert(x + y =~= x);
    } else {
        text::lemma_join_concat(x, y, seq!['/']);
    }
}

/// Whether a name may hold a character, by its number: it is none of the eight
/// signs and no control character.
pub open spec fn ordinary(c: char) -> bool {
    &&& c as u32 > 31
    &&& c as u32 != 127
    &&& !seq!['<', '>', ':', '"', '|', '?', '*', '\\'].contains(c)
}

/// What the two ways to tell the characters of names say is the same.
proof fn lemma_ordinary(c: char)
    ensures
        ordinary(c) <==> !forbidden(c),
{
    let signs = seq!['<', '>', ':', '"', '|', '?', '*', '\\'];
    assert(signs[0] == '<' && signs[1] == '>' && signs[2] == ':' && signs[3] == '"');
    assert(signs[4] == '|' && signs[5] == '?' && signs[6] == '*' && signs[7] == '\\');
    if signs.contains(c) {
        let i = choose|i: int| 0 <= i < signs.len() && signs[i] == c;
        assert(0 <= i < 8);
    }
}

/// The device names without their numbers.
pub open spec fn device(base: Seq<char>) -> bool {
    let b = text::lower(base);
    ||| b == seq!['c', 'o', 'n']
    ||| b == seq!['p', 'r', 'n']
    ||| b == seq!['a', 'u', 'x']
    ||| b == seq!['n', 'u', 'l']
    ||| exists|d: char|
        '1' <= d <= '9' && (b == seq!['c', 'o', 'm', d] || b == #[trigger] seq!['l', 'p', 't', d])
}

/// What the two ways to tell the device names say is the same.
proof fn lemma_device(base: Seq<char>)
    ensures
        device(base) <==> reserved(base),
{
    reveal_strlit("con");
    reveal_strlit("prn");
    reveal_strlit("aux");
    reveal_strlit("nul");
    reveal_strlit("com");
    reveal_strlit("lpt");
    let b = text::lower(base);
    assert("con"@ =~= seq!['c', 'o', 'n']);
    assert("prn"@ =~= seq!['p', 'r', 'n']);
    assert("aux"@ =~= seq!['a', 'u', 'x']);
    assert("nul"@ =~= seq!['n', 'u', 'l']);
    assert("com"@ =~= seq!['c', 'o', 'm']);
    assert("lpt"@ =~= seq!['l', 'p', 't']);
    if b.len() == 4 {
        let d = b[3];
        if b.take(3) == "com"@ {
            assert(b[0] == b.take(3)[0] && b[1] == b.take(3)[1] && b[2] == b.take(3)[2]);
            assert(b =~= seq!['c', 'o', 'm', d]);
            assert(seq!['l', 'p', 't', d].len() == 4);
        }
        if b.take(3) == "lpt"@ {
            assert(b[0] == b.take(3)[0] && b[1] == b.take(3)[1] && b[2] == b.take(3)[2]);
            assert(b =~= seq!['l', 'p', 't', d]);
        }
    }
    if exists|d: char|
        '1' <= d <= '9' && (b == seq!['c', 'o', 'm', d] || b == #[trigger] seq![
            'l',
            'p',
            't',
            d,
        ]) {
        let d = choose|d: char|
            '1' <= d <= '9' && (b == seq!['c', 'o', 'm', d] || b == #[trigger] seq![
                'l',
                'p',
                't',
                d,
            ]);
        assert(b.take(3) =~= "com"@ || b.take(3) =~= "lpt"@);
        assert(b[3] == d);
    }
}

/// The name of a component without trouble at its ends is kept character by
/// character, and only what a name cannot hold becomes an underscore.
pub proof fn law_characters_are_replaced_one_by_one(name: Seq<char>)
    requires
        name.len() > 0,
        !name.contains('/'),
        !text::white_space(name[0]) || !ordinary(name[0]),
        (!text::white_space(name.last()) && name.last() != '.') || !ordinary(name.last()),
        !device(
            replaced_by_underscores(name).take(
                text::first_index(replaced_by_underscores(name), '.'),
            ),
        ),
    ensures
        sanitized_path(name) == replaced_by_underscores(name),
{
    lemma_name_is_safe(name);
    let safe = name.map_values(|c: char| safe_char(c));
    let out = replaced_by_underscores(name);
    assert forall|i: int| 0 <= i < name.len() implies #[trigger] safe[i] == out[i] by {
        lemma_ordinary(name[i]);
    }
    assert(safe =~= out);
    lemma_ordinary(name[0]);
    lemma_ordinary(name.last());
    assert(!text::white_space(safe[0]));
    assert(!text::white_space(safe.last()) && safe.last() != '.');
    assert(text::trim_start_while(safe, |c: char| text::white_space(c)) == safe);
    assert(text::trim_end_while(safe, loose_end()) == safe);
    lemma_device(base_name(out));
}

/// A name with an underscore for each character that it cannot hold.
pub open spec fn replaced_by_underscores(name: Seq<char>) -> Seq<char> {
    Seq::new(
        name.len(),
        |i: int|
            if ordinary(name[i]) {
                name[i]
            } else {
                '_'
            },
    )
}

/// A name that every file system accepts is not touched: one of ordinary characters,
/// with no white space at its ends and no dot at its end, whose beginning up to the
/// first dot is no device name.
pub proof fn law_good_names_are_kept(name: Seq<char>)
    requires
        name.len() > 0,
        !name.contains('/'),
        forall|i: int| 0 <= i < name.len() ==> ordinary(#[trigger] name[i]),
        !text::white_space(name[0]),
        !text::white_space(name.last()),
        name.last() != '.',
        !device(name.take(text::first_index(name, '.'))),
    ensures
        sanitized_path(name) == name,
{
    assert(replaced_by_underscores(name) =~= name);
    law_characters_are_replaced_one_by_one(name);
}

/// A device name gets an underscore behind it, before its extension where it has
/// one.
pub proof fn law_device_names_are_marked(base: Seq<char>, rest: Seq<char>)
    requires
        device(base),
        rest.len() > 0 ==> rest[0] == '.' && !text::white_space(rest.last()) && rest.last() != '.',
        !rest.contains('/'),
        forall|i: int| 0 <= i < rest.len() ==> ordinary(#[trigger] rest[i]),
    ensures
        sanitized_path(base + rest) == base + seq!['_'] + rest,
{
    lemma_device(base);
    lemma_reserved_underscore(base);
    let name = base + rest;
    lemma_device_letters(base);
    assert(!name.contains('/')) by {
        if name.contains('/') {
            let i = choose|i: int| 0 <= i < name.len() && name[i] == '/';
            if i < base.len() {
                assert(base[i] == '/');
            } else {
                assert(rest[i - base.len()] == '/');
            }
        }
    }
    lemma_name_is_safe(name);
    let safe = name.map_values(|c: char| safe_char(c));
    assert forall|i: int| 0 <= i < name.len() implies #[trigger] safe[i] == name[i] by {
        if i < base.len() {
            assert(base[i] == name[i]);
        } else {
            assert(rest[i - base.len()] == name[i]);
            lemma_ordinary(name[i]);
        }
    }
    assert(safe =~= name);
    assert(name[0] == base[0]);
    if rest.len() > 0 {
        assert(name.last() == rest.last());
    } else {
        assert(name =~= base);
        assert(base[base.len() - 1] == name.last());
    }
    assert(text::trim_start_while(safe, |c: char| text::white_space(c)) == safe);
    assert(text::trim_end_while(safe, loose_end()) == safe);
    let k = base.len() as int;
    assert forall|j: int| 0 <= j < k implies #[trigger] name[j] != '.' by {
        assert(base[j] == name[j]);
    }
    if rest.len() > 0 {
        assert(name[k] == rest[0]);
    }
    text::lemma_first_index(name, '.', k);
    assert(base_name(name) =~= base);
    assert(name.insert(k, '_') =~= base + seq!['_'] + rest);
}

/// A device name is made of letters and digits.
proof fn lemma_device_letters(base: Seq<char>)
    requires
        reserved(base),
    ensures
        base.len() > 0,
        forall|i: int|
            0 <= i < base.len() ==> {
                &&& !forbidden(#[trigger] base[i])
                &&& !text::white_space(base[i])
                &&& base[i] != '/'
                &&& base[i] != '.'
            },
{
    reveal_strlit("con");
    reveal_strlit("prn");
    reveal_strlit("aux");
    reveal_strlit("nul");
    reveal_strlit("com");
    reveal_strlit("lpt");
    let small = text::lower(base);
    assert(small.len() == base.len());
    assert forall|i: int| 0 <= i < base.len() implies {
        &&& !forbidden(#[trigger] base[i])
        &&& !text::white_space(base[i])
        &&& base[i] != '/'
        &&& base[i] != '.'
    } by {
        assert(small[i] == text::lower_char(base[i]));
        if small.len() == 4 && i < 3 {
            assert(small.take(3)[i] == small[i]);
        }
        assert('a' <= small[i] <= 'z' || '1' <= small[i] <= '9');
    }
}

/// White space before a name, and white space and dots behind it, are left out.
pub proof fn law_ends_are_trimmed(before: Seq<char>, name: Seq<char>, behind: Seq<char>)
    requires
        name.len() > 0,
        !name.contains('/'),
        !text::white_space(name[0]) || !ordinary(name[0]),
        (!text::white_space(name.last()) && name.last() != '.') || !ordinary(name.last()),
        forall|i: int|
            0 <= i < before.len() ==> text::white_space(#[trigger] before[i]) && ordinary(
                before[i],
            ),
        forall|i: int|
            0 <= i < behind.len() ==> (text::white_space(#[trigger] behind[i]) || behind[i] == '.')
                && ordinary(behind[i]),
    ensures
        sanitized_path(before + name + behind) == sanitized_path(name),
{
    let whole = before + name + behind;
    assert(!whole.contains('/')) by {
        if whole.contains('/') {
            let i = choose|i: int| 0 <= i < whole.len() && whole[i] == '/';
            if i < before.len() {
                assert(before[i] == '/');
            } else if i < before.len() + name.len() {
                assert(name[i - before.len()] == '/');
            } else {
                assert(behind[i - before.len() - name.len()] == '/');
            }
        }
    }
    lemma_name_is_safe(name);
    lemma_name_is_safe(whole);
    let f = |c: char| safe_char(c);
    let p = |c: char| text::white_space(c);
    let a = before.len() as int;
    let n = name.len() as int;
    let safe = whole.map_values(f);
    let inner = name.map_values(f);
    lemma_ordinary(name[0]);
    lemma_ordinary(name.last());
    assert(inner[0] == safe_char(name[0]));
    assert(inner.last() == safe_char(name.last()));
    assert(!p(inner[0]));
    assert(!text::white_space(inner.last()) && inner.last() != '.');
    assert forall|j: int| 0 <= j < a implies p(#[trigger] safe[j]) by {
        assert(whole[j] == before[j]);
        lemma_ordinary(before[j]);
    }
    assert(safe[a] == inner[0]) by {
        assert(whole[a] == name[0]);
    }
    text::lemma_trim_start_skip(safe, p, a);
    let left = safe.skip(a);
    assert(text::trim_start_while(safe, p) == left);
    assert forall|j: int| n <= j < left.len() implies loose_end()(#[trigger] left[j]) by {
        let b = behind[j - n];
        assert(whole[a + j] == b);
        assert(left[j] == safe[a + j]);
        lemma_ordinary(b);
    }
    assert(left[n - 1] == inner.last()) by {
        assert(whole[a + n - 1] == name[n - 1]);
    }
    text::lemma_trim_end_take(left, loose_end(), n);
    assert(left.take(n) =~= inner) by {
        assert forall|j: int| 0 <= j < n implies left.take(n)[j] == inner[j] by {
            assert(whole[a + j] == name[j]);
        }
    }
    assert(stripped_component(whole) == inner);
    assert(text::trim_start_while(inner, p) == inner);
    assert(text::trim_end_while(inner, loose_end()) == inner);
    assert(stripped_component(name) == inner);
}

} // verus!
