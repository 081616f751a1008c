//! Filters by file extension: `*apk` includes, `#jpg` excludes.

use vstd::prelude::*;

use crate::error::IaGetError;
use crate::text;

verus! {

/// Include and exclude extensions, in the form in which names are compared:
/// a dot and the extension in lower case.
#[derive(Debug, Clone, PartialEq, Eq)]
pub struct ExtensionFilterSpec {
    pub includes: Vec<String>,
    pub excludes: Vec<String>,
}

impl Default for ExtensionFilterSpec {
    fn default() -> (r: Self)
        ensures
            r.includes@.len() == 0,
            r.excludes@.len() == 0,
    {
        ExtensionFilterSpec { includes: Vec::new(), excludes: Vec::new() }
    }
}

// ---------------------------------------------------------------------------
// What filters mean
// ---------------------------------------------------------------------------

/// Whether `s` starts with the character `mark`.
pub open spec fn marked(s: Seq<char>, mark: char) -> bool {
    s.len() > 0 && s[0] == mark
}

/// Those of `filters` that start with `mark`, in their order.
pub open spec fn all_marked(filters: Seq<Seq<char>>, mark: char) -> Seq<Seq<char>>
    decreases filters.len(),
{
    if filters.len() == 0 {
        Seq::empty()
    } else {
        let before = all_marked(filters.drop_last(), mark);
        if marked(filters.last(), mark) {
            before.push(filters.last())
        } else {
            before
        }
    }
}

/// Whether a filter argument includes or excludes.
pub open spec fn is_filter(s: Seq<char>) -> bool {
    marked(s, '*') || marked(s, '#')
}

/// Whether `i` is the position of the first argument that is no filter.
pub open spec fn first_invalid(filters: Seq<Seq<char>>, i: int) -> bool {
    &&& 0 <= i < filters.len()
    &&& !is_filter(filters[i])
    &&& forall|j: int| 0 <= j < i ==> is_filter(#[trigger] filters[j])
}

/// The message for an argument that is no filter.
pub open spec fn invalid_filter_message(filter: Seq<char>) -> Seq<char> {
    "Invalid filter '"@ + filter
        + "'. Use *ext to include or #ext to exclude, for example *apk or #jpg"@
}

/// The extension of a filter behind its marks, without leading dots.
pub open spec fn bare_extension(filter: Seq<char>, mark: char) -> Seq<char> {
    text::trim_start_char(text::trim_start_char(filter, mark), '.')
}

/// The messages of a kind of filters: what stands before and behind a filter
/// that does not start with the mark, and what is said where the extension is
/// missing.
pub struct FilterMessages {
    pub mark: char,
    pub before: &'static str,
    pub behind: &'static str,
    pub missing: &'static str,
}

/// The extension that a filter asks for, or the message of an error.
pub open spec fn normalized(filter: Seq<char>, kind: FilterMessages) -> Result<
    Seq<char>,
    Seq<char>,
> {
    if !marked(filter, kind.mark) {
        Err(kind.before@ + filter + kind.behind@)
    } else if bare_extension(filter, kind.mark).len() == 0 {
        Err(kind.missing@)
    } else {
        Ok(seq!['.'] + text::lower(bare_extension(filter, kind.mark)))
    }
}

/// The extensions that filters ask for, in their order, or the message for the
/// first of them that is wrong.
pub open spec fn all_normalized(filters: Seq<Seq<char>>, kind: FilterMessages) -> Result<
    Seq<Seq<char>>,
    Seq<char>,
>
    decreases filters.len(),
{
    if filters.len() == 0 {
        Ok(Seq::empty())
    } else {
        match all_normalized(filters.drop_last(), kind) {
            Ok(before) => match normalized(filters.last(), kind) {
                Ok(extension) => Ok(before.push(extension)),
                Err(message) => Err(message),
            },
            Err(message) => Err(message),
        }
    }
}

/// The messages of include filters.
pub open spec fn include_messages() -> FilterMessages {
    FilterMessages {
        mark: '*',
        before: "Invalid filter '",
        behind: "'. Filters must start with *, for example *apk or *xapk",
        missing: "Invalid filter. Provide an extension after *, for example *apk",
    }
}

/// The messages of exclude filters.
pub open spec fn exclude_messages() -> FilterMessages {
    FilterMessages {
        mark: '#',
        before: "Invalid exclude '",
        behind: "'. Excludes must start with #, for example #jpg or #torrent",
        missing: "Invalid exclude. Provide an extension after #, for example #jpg",
    }
}

/// What filter arguments mean: the extensions to include and to exclude, or the
/// message of an error. An argument that is no filter is told first, then a
/// wrong include, then a wrong exclude.
pub open spec fn parsed_filters(filters: Seq<Seq<char>>) -> Result<
    (Seq<Seq<char>>, Seq<Seq<char>>),
    Seq<char>,
> {
    if exists|i: int| first_invalid(filters, i) {
        let i = choose|i: int| first_invalid(filters, i);
        Err(invalid_filter_message(filters[i]))
    } else {
        match all_normalized(all_marked(filters, '*'), include_messages()) {
            Err(message) => Err(message),
            Ok(includes) => match all_normalized(all_marked(filters, '#'), exclude_messages()) {
                Err(message) => Err(message),
                Ok(excludes) => Ok((includes, excludes)),
            },
        }
    }
}

/// Whether a name ends with one of the extensions, in any case.
pub open spec fn ends_with_any(filename: Seq<char>, extensions: Seq<Seq<char>>) -> bool {
    exists|i: int|
        0 <= i < extensions.len() && text::has_suffix(
            text::lower(filename),
            #[trigger] extensions[i],
        )
}

/// Whether a file is downloaded: its name ends with one of the includes, where
/// there are any, and with none of the excludes.
pub open spec fn passes(
    filename: Seq<char>,
    includes: Seq<Seq<char>>,
    excludes: Seq<Seq<char>>,
) -> bool {
    (includes.len() == 0 || ends_with_any(filename, includes)) && !ends_with_any(filename, excludes)
}

// ---------------------------------------------------------------------------
// Reading filters
// ---------------------------------------------------------------------------

/// `before`, `middle` and `behind`, one after the other.
fn message_around(before: &str, middle: &Vec<char>, behind: &str) -> (r: String)
    ensures
        r@ == before@ + middle@ + behind@,
{
    let mut out = text::chars_of(before);
    text::extend(&mut out, middle);
    let tail = text::chars_of(behind);
    text::extend(&mut out, &tail);
    text::string_of(&out)
}

/// The first invalid argument is the only first one.
proof fn lemma_first_invalid_unique(filters: Seq<Seq<char>>, i: int, j: int)
    requires
        first_invalid(filters, i),
        first_invalid(filters, j),
    ensures
        i == j,
{
    if i < j {
        assert(is_filter(filters[i]));
    } else if j < i {
        assert(is_filter(filters[j]));
    }
}

/// Splits filter arguments into includes and excludes.
pub fn split_extension_filter_args(filters: &[String]) -> (r: Result<
    (Vec<String>, Vec<String>),
    IaGetError,
>)
    ensures
        match r {
            Ok((includes, excludes)) => {
                &&& forall|i: int| !first_invalid(text::texts(filters@), i)
                &&& text::texts(includes@) == all_marked(text::texts(filters@), '*')
                &&& text::texts(excludes@) == all_marked(text::texts(filters@), '#')
            },
            Err(e) => e is UrlFormat && exists|i: int|
                first_invalid(text::texts(filters@), i) && e.message() == invalid_filter_message(
                    text::texts(filters@)[i],
                ),
        },
{
    let ghost all = text::texts(filters@);
    let mut includes: Vec<String> = Vec::new();
    let mut excludes: Vec<String> = Vec::new();
    let mut i: usize = 0;
    while i < filters.len()
        invariant
            i <= filters.len(),
            all == text::texts(filters@),
            forall|j: int| 0 <= j < i ==> is_filter(#[trigger] all[j]),
            text::texts(includes@) == all_marked(all.take(i as int), '*'),
            text::texts(excludes@) == all_marked(all.take(i as int), '#'),
        decreases filters.len() - i,
    {
        let chars = text::chars_of(filters[i].as_str());
        assert(chars@ == all[i as int]);
        assert(all.take(i + 1).drop_last() =~= all.take(i as int));
        if chars.len() > 0 && chars[0] == '*' {
            let ghost before = includes@;
            includes.push(filters[i].clone());
            assert(text::texts(includes@) =~= text::texts(before).push(all[i as int]));
        } else if chars.len() > 0 && chars[0] == '#' {
            let ghost before = excludes@;
            excludes.push(filters[i].clone());
            assert(text::texts(excludes@) =~= text::texts(before).push(all[i as int]));
        } else {
            assert(first_invalid(all, i as int));
            return Err(
                IaGetError::UrlFormat(
                    message_around(
                        "Invalid filter '",
                        &chars,
                        "'. Use *ext to include or #ext to exclude, for example *apk or #jpg",
                    ),
                ),
            );
        }
        i = i + 1;
    }
    assert(all.take(i as int) =~= all);
    Ok((includes, excludes))
}

/// Normalizes one filter.
fn normalize(filter: &Vec<char>, kind: &FilterMessages) -> (r: Result<String, IaGetError>)
    ensures
        match r {
            Ok(extension) => normalized(filter@, *kind) == Ok::<Seq<char>, Seq<char>>(extension@),
            Err(e) => e is UrlFormat && normalized(filter@, *kind) == Err::<Seq<char>, Seq<char>>(
                e.message(),
            ),
        },
{
    if !(filter.len() > 0 && filter[0] == kind.mark) {
        return Err(IaGetError::UrlFormat(message_around(kind.before, filter, kind.behind)));
    }
    let unmarked = text::trim_start_of(filter, kind.mark);
    let extension = text::trim_start_of(&unmarked, '.');
    if extension.len() == 0 {
        return Err(IaGetError::UrlFormat(kind.missing.to_owned()));
    }
    let mut out: Vec<char> = Vec::new();
    out.push('.');
    let small = text::to_lower(&extension);
    text::extend(&mut out, &small);
    assert(out@ =~= seq!['.'] + small@);
    Ok(text::string_of(&out))
}

/// Behind an error nothing more is normalized.
proof fn lemma_normalize_error_stays(filters: Seq<Seq<char>>, kind: FilterMessages, k: int)
    requires
        0 <= k <= filters.len(),
        all_normalized(filters.take(k), kind) is Err,
    ensures
        all_normalized(filters, kind) == all_normalized(filters.take(k), kind),
    decreases filters.len() - k,
{
    if k == filters.len() {
        assert(filters.take(k) =~= filters);
    } else {
        assert(filters.take(k + 1).drop_last() =~= filters.take(k));
        lemma_normalize_error_stays(filters, kind, k + 1);
    }
}

/// Normalizes filters of one kind.
fn normalize_all(filters: &[String], kind: &FilterMessages) -> (r: Result<Vec<String>, IaGetError>)
    ensures
        match r {
            Ok(extensions) => all_normalized(text::texts(filters@), *kind) == Ok::<
                Seq<Seq<char>>,
                Seq<char>,
            >(text::texts(extensions@)),
            Err(e) => e is UrlFormat && all_normalized(text::texts(filters@), *kind) == Err::<
                Seq<Seq<char>>,
                Seq<char>,
            >(e.message()),
        },
{
    let ghost all = text::texts(filters@);
    let mut out: Vec<String> = Vec::new();
    let mut i: usize = 0;
    assert(text::texts(out@) =~= Seq::<Seq<char>>::empty());
    while i < filters.len()
        invariant
            i <= filters.len(),
            all == text::texts(filters@),
            all_normalized(all.take(i as int), *kind) == Ok::<Seq<Seq<char>>, Seq<char>>(
                text::texts(out@),
            ),
        decreases filters.len() - i,
    {
        let chars = text::chars_of(filters[i].as_str());
        assert(chars@ == all[i as int]);
        assert(all.take(i + 1).drop_last() =~= all.take(i as int));
        match normalize(&chars, kind) {
            Ok(extension) => {
                let ghost before = out@;
                out.push(extension);
                assert(text::texts(out@) =~= text::texts(before).push(extension@));
            },
            Err(e) => {
                proof {
                    lemma_normalize_error_stays(all, *kind, i + 1);
                }
                return Err(e);
            },
        }
        i = i + 1;
    }
    assert(all.take(i as int) =~= all);
    Ok(out)
}

/// Turns excludes like `#jpg` into extensions like `.jpg`.
pub fn normalize_extension_excludes(excludes: &[String]) -> (r: Result<Vec<String>, IaGetError>)
    ensures
        match r {
            Ok(extensions) => all_normalized(text::texts(excludes@), exclude_messages()) == Ok::<
                Seq<Seq<char>>,
                Seq<char>,
            >(text::texts(extensions@)),
            Err(e) => e is UrlFormat && all_normalized(text::texts(excludes@), exclude_messages())
                == Err::<Seq<Seq<char>>, Seq<char>>(e.message()),
        },
{
    let kind = FilterMessages {
        mark: '#',
        before: "Invalid exclude '",
        behind: "'. Excludes must start with #, for example #jpg or #torrent",
        missing: "Invalid exclude. Provide an extension after #, for example #jpg",
    };
    normalize_all(excludes, &kind)
}

/// Turns filters like `*apk` into extensions like `.apk`.
pub fn normalize_extension_filters(filters: &[String]) -> (r: Result<Vec<String>, IaGetError>)
    ensures
        match r {
            Ok(extensions) => all_normalized(text::texts(filters@), include_messages()) == Ok::<
                Seq<Seq<char>>,
                Seq<char>,
            >(text::texts(extensions@)),
            Err(e) => e is UrlFormat && all_normalized(text::texts(filters@), include_messages())
                == Err::<Seq<Seq<char>>, Seq<char>>(e.message()),
        },
{
    let kind = FilterMessages {
        mark: '*',
        before: "Invalid filter '",
        behind: "'. Filters must start with *, for example *apk or *xapk",
        missing: "Invalid filter. Provide an extension after *, for example *apk",
    };
    normalize_all(filters, &kind)
}

/// Reads filter arguments into the extensions to include and to exclude.
pub fn parse_extension_filters(filters: &[String]) -> (r: Result<ExtensionFilterSpec, IaGetError>)
    ensures
        match r {
            Ok(spec) => parsed_filters(text::texts(filters@)) == Ok::<
                (Seq<Seq<char>>, Seq<Seq<char>>),
                Seq<char>,
            >((text::texts(spec.includes@), text::texts(spec.excludes@))),
            Err(e) => e is UrlFormat && parsed_filters(text::texts(filters@)) == Err::<
                (Seq<Seq<char>>, Seq<Seq<char>>),
                Seq<char>,
            >(e.message()),
        },
{
    let ghost all = text::texts(filters@);
    let (includes, excludes) = match split_extension_filter_args(filters) {
        Ok(pair) => pair,
        Err(e) => {
            proof {
                let i = choose|i: int|
                    first_invalid(all, i) && e.message() == invalid_filter_message(all[i]);
                let j = choose|j: int| first_invalid(all, j);
                lemma_first_invalid_unique(all, i, j);
            }
            return Err(e);
        },
    };
    let includes = match normalize_extension_filters(includes.as_slice()) {
        Ok(extensions) => extensions,
        Err(e) => {
            return Err(e);
        },
    };
    let excludes = match normalize_extension_excludes(excludes.as_slice()) {
        Ok(extensions) => extensions,
        Err(e) => {
            return Err(e);
        },
    };
    Ok(ExtensionFilterSpec { includes, excludes })
}

// ---------------------------------------------------------------------------
// Applying filters
// ---------------------------------------------------------------------------

/// Whether a name ends with one of the extensions.
fn matches_any(filename: &str, extensions: &[String]) -> (r: bool)
    ensures
        r == ends_with_any(filename@, text::texts(extensions@)),
{
    let ghost all = text::texts(extensions@);
    let chars = text::chars_of(filename);
    let small = text::to_lower(&chars);
    let mut i: usize = 0;
    while i < extensions.len()
        invariant
            i <= extensions.len(),
            all == text::texts(extensions@),
            small@ == text::lower(filename@),
            forall|j: int| 0 <= j < i ==> !text::has_suffix(small@, #[trigger] all[j]),
        decreases extensions.len() - i,
    {
        let extension = text::chars_of(extensions[i].as_str());
        assert(extension@ == all[i as int]);
        if text::ends_with(&small, &extension) {
            return true;
        }
        i = i + 1;
    }
    false
}

/// Whether no filters are set, or the name ends with one of them.
pub fn file_matches_extension_filters(filename: &str, filters: &[String]) -> (r: bool)
    ensures
        r == (filters@.len() == 0 || ends_with_any(filename@, text::texts(filters@))),
{
    if filters.len() == 0 {
        return true;
    }
    matches_any(filename, filters)
}

/// Whether a file is to be downloaded under the filters.
pub fn file_passes_extension_filters(
    filename: &str,
    includes: &[String],
    excludes: &[String],
) -> (r: bool)
    ensures
        r == passes(filename@, text::texts(includes@), text::texts(excludes@)),
{
    if !file_matches_extension_filters(filename, includes) {
        return false;
    }
    if excludes.len() == 0 {
        return true;
    }
    !matches_any(filename, excludes)
}

// ---------------------------------------------------------------------------
// Laws
// ---------------------------------------------------------------------------

/// Without filters every file passes.
pub proof fn law_no_filters_pass_all(filename: Seq<char>)
    ensures
        passes(filename, Seq::empty(), Seq::empty()),
{
}

/// The case of a name does not matter.
pub proof fn law_case_does_not_matter(
    a: Seq<char>,
    b: Seq<char>,
    includes: Seq<Seq<char>>,
    excludes: Seq<Seq<char>>,
)
    requires
        text::lower(a) == text::lower(b),
    ensures
        passes(a, includes, excludes) == passes(b, includes, excludes),
{
}

/// An exclude removes a file whatever the includes are.
pub proof fn law_exclude_wins(
    filename: Seq<char>,
    includes: Seq<Seq<char>>,
    excludes: Seq<Seq<char>>,
)
    requires
        ends_with_any(filename, excludes),
    ensures
        !passes(filename, includes, excludes),
{
}

/// One more include lets no file out that passed, where there was one before.
pub proof fn law_more_includes_pass_more(
    filename: Seq<char>,
    includes: Seq<Seq<char>>,
    excludes: Seq<Seq<char>>,
    extension: Seq<char>,
)
    requires
        includes.len() > 0,
        passes(filename, includes, excludes),
    ensures
        passes(filename, includes.push(extension), excludes),
{
    let i = choose|i: int|
        0 <= i < includes.len() && text::has_suffix(text::lower(filename), #[trigger] includes[i]);
    assert(includes.push(extension)[i] == includes[i]);
}

/// One more exclude lets no file in that did not pass.
pub proof fn law_more_excludes_pass_less(
    filename: Seq<char>,
    includes: Seq<Seq<char>>,
    excludes: Seq<Seq<char>>,
    extension: Seq<char>,
)
    requires
        passes(filename, includes, excludes.push(extension)),
    ensures
        passes(filename, includes, excludes),
{
    if ends_with_any(filename, excludes) {
        let i = choose|i: int|
            0 <= i < excludes.len() && text::has_suffix(
                text::lower(filename),
                #[trigger] excludes[i],
            );
        assert(excludes.push(extension)[i] == excludes[i]);
    }
}

/// A normalized extension is a dot and at least one character, in lower case.
pub proof fn law_normalized_form(filter: Seq<char>, kind: FilterMessages)
    ensures
        normalized(filter, kind) matches Ok(e) ==> {
            &&& e.len() >= 2
            &&& e[0] == '.'
            &&& e[1] != '.'
            &&& text::lower(e) == e
        },
{
    if normalized(filter, kind) is Ok {
        let bare = bare_extension(filter, kind.mark);
        let e = normalized(filter, kind)->Ok_0;
        text::lemma_trim_start_shape(
            text::trim_start_char(filter, kind.mark),
            text::equals('.'),
        );
        text::lemma_lower_idempotent(bare);
        assert(text::lower(bare)[0] == text::lower_char(bare[0]));
        assert(e[1] == text::lower_char(bare[0]));
        assert(text::lower(e) =~= seq!['.'] + text::lower(text::lower(bare)));
    }
}

/// A dot behind the mark makes no difference: `*.apk` means `*apk`.
pub proof fn law_dot_is_optional(extension: Seq<char>, kind: FilterMessages)
    requires
        kind.mark != '.',
        extension.len() > 0,
        extension[0] != kind.mark,
    ensures
        normalized(seq![kind.mark, '.'] + extension, kind) == normalized(
            seq![kind.mark] + extension,
            kind,
        ),
{
    reveal_with_fuel(text::trim_start_while, 3);
    let with = seq![kind.mark, '.'] + extension;
    let without = seq![kind.mark] + extension;
    assert(with.drop_first() =~= seq!['.'] + extension);
    assert(without.drop_first() =~= extension);
    assert((seq!['.'] + extension).drop_first() =~= extension);
    assert(text::trim_start_char(with, kind.mark) == seq!['.'] + extension);
    assert(text::trim_start_char(without, kind.mark) == extension);
    assert(text::trim_start_char(seq!['.'] + extension, '.') == text::trim_start_char(
        extension,
        '.',
    ));
}

/// The case of a filter does not matter.
pub proof fn law_filter_case_does_not_matter(a: Seq<char>, b: Seq<char>, kind: FilterMessages)
    requires
        kind == include_messages() || kind == exclude_messages(),
        text::lower(a) == text::lower(b),
        normalized(a, kind) is Ok,
    ensures
        normalized(a, kind) == normalized(b, kind),
{
    let mark = kind.mark;
    lemma_trim_lower(a, mark);
    lemma_trim_lower(b, mark);
    lemma_trim_lower(text::trim_start_char(a, mark), '.');
    lemma_trim_lower(text::trim_start_char(b, mark), '.');
    assert(a.len() == text::lower(a).len());
    assert(b.len() == text::lower(b).len());
    assert(text::lower(a)[0] == text::lower_char(a[0]));
    assert(text::lower(b)[0] == text::lower_char(b[0]));
    let e = bare_extension(a, mark);
    let f = bare_extension(b, mark);
    assert(text::lower(e) == text::lower(f));
    assert(e.len() == text::lower(e).len());
    assert(f.len() == text::lower(f).len());
}

/// Trimming a character that has no case commutes with lower case.
proof fn lemma_trim_lower(s: Seq<char>, c: char)
    requires
        c == '*' || c == '.' || c == '#',
    ensures
        text::lower(text::trim_start_char(s, c)) == text::trim_start_char(text::lower(s), c),
    decreases s.len(),
{
    if s.len() > 0 {
        assert(text::lower(s)[0] == text::lower_char(s[0]));
        assert(text::lower(s.drop_first()) =~= text::lower(s).drop_first());
        lemma_trim_lower(s.drop_first(), c);
    }
}

/// A file is downloaded exactly where its name, in lower case, ends with one of the
/// includes, or there are none, and with none of the excludes.
pub proof fn law_names_pass_by_their_ends(
    filename: Seq<char>,
    includes: Seq<Seq<char>>,
    excludes: Seq<Seq<char>>,
)
    ensures
        passes(filename, includes, excludes) <==> {
            let name = text::lower(filename);
            &&& includes.len() == 0 || exists|i: int|
                0 <= i < includes.len() && (#[trigger] includes[i]).len() <= name.len()
                    && name.skip(name.len() - includes[i].len()) == includes[i]
            &&& forall|i: int|
                0 <= i < excludes.len() ==> (#[trigger] excludes[i]).len() > name.len()
                    || name.skip(name.len() - excludes[i].len()) != excludes[i]
        },
{
    let name = text::lower(filename);
    if exists|i: int|
        0 <= i < includes.len() && (#[trigger] includes[i]).len() <= name.len() && name.skip(
            name.len() - includes[i].len(),
        ) == includes[i] {
        let i = choose|i: int|
            0 <= i < includes.len() && (#[trigger] includes[i]).len() <= name.len() && name.skip(
                name.len() - includes[i].len(),
            ) == includes[i];
        assert(text::has_suffix(name, includes[i]));
    }
    if ends_with_any(filename, includes) {
        let i = choose|i: int|
            0 <= i < includes.len() && text::has_suffix(name, #[trigger] includes[i]);
        assert(includes[i].len() <= name.len());
    }
    if ends_with_any(filename, excludes) {
        let i = choose|i: int|
            0 <= i < excludes.len() && text::has_suffix(name, #[trigger] excludes[i]);
        assert(excludes[i].len() <= name.len());
    } else {
        assert forall|i: int| 0 <= i < excludes.len() implies (#[trigger] excludes[i]).len()
            > name.len() || name.skip(name.len() - excludes[i].len()) != excludes[i] by {
            assert(!text::has_suffix(name, excludes[i]));
        }
    }
}

/// No argument is wrong for the first time where all are filters.
proof fn lemma_all_valid(filters: Seq<Seq<char>>)
    ensures
        (exists|i: int| first_invalid(filters, i)) <==> exists|i: int|
            0 <= i < filters.len() && !is_filter(#[trigger] filters[i]),
    decreases filters.len(),
{
    if exists|i: int| 0 <= i < filters.len() && !is_filter(#[trigger] filters[i]) {
        let head = filters.drop_last();
        lemma_all_valid(head);
        if exists|i: int| 0 <= i < head.len() && !is_filter(#[trigger] head[i]) {
            let i = choose|i: int| first_invalid(head, i);
            assert(filters[i] == head[i]);
            assert forall|j: int| 0 <= j < i implies is_filter(#[trigger] filters[j]) by {
                assert(head[j] == filters[j]);
            }
            assert(first_invalid(filters, i));
        } else {
            let i = choose|i: int| 0 <= i < filters.len() && !is_filter(#[trigger] filters[i]);
            assert(i == filters.len() - 1) by {
                if i < head.len() {
                    assert(head[i] == filters[i]);
                }
            }
            assert forall|j: int| 0 <= j < i implies is_filter(#[trigger] filters[j]) by {
                assert(head[j] == filters[j]);
            }
            assert(first_invalid(filters, i));
        }
    }
    if exists|i: int| first_invalid(filters, i) {
        let i = choose|i: int| first_invalid(filters, i);
        assert(!is_filter(filters[i]));
    }
}

/// Each argument adds one extension: a star and an extension to the includes, a hash
/// sign and an extension to the excludes, in lower case behind a dot, and in the
/// order of the arguments. Without arguments there is none.
pub proof fn law_arguments_are_read_one_by_one(filters: Seq<Seq<char>>, extension: Seq<char>)
    requires
        parsed_filters(filters) is Ok,
        extension.len() > 0,
        extension[0] != '*',
        extension[0] != '#',
        extension[0] != '.',
    ensures
        ({
            let (includes, excludes) = parsed_filters(filters)->Ok_0;
            let new = seq!['.'] + text::lower(extension);
            &&& parsed_filters(filters.push(seq!['*'] + extension)) == Ok::<
                (Seq<Seq<char>>, Seq<Seq<char>>),
                Seq<char>,
            >((includes.push(new), excludes))
            &&& parsed_filters(filters.push(seq!['#'] + extension)) == Ok::<
                (Seq<Seq<char>>, Seq<Seq<char>>),
                Seq<char>,
            >((includes, excludes.push(new)))
        }),
        parsed_filters(Seq::empty()) == Ok::<(Seq<Seq<char>>, Seq<Seq<char>>), Seq<char>>(
            (Seq::empty(), Seq::empty()),
        ),
{
    lemma_all_valid(Seq::empty());
    lemma_all_valid(filters);
    lemma_argument(filters, extension, '*');
    lemma_argument(filters, extension, '#');
}

/// One more argument with a mark is one more of its kind.
proof fn lemma_argument(filters: Seq<Seq<char>>, extension: Seq<char>, mark: char)
    requires
        parsed_filters(filters) is Ok,
        mark == '*' || mark == '#',
        extension.len() > 0,
        extension[0] != mark,
        extension[0] != '.',
    ensures
        ({
            let more = filters.push(seq![mark] + extension);
            let kind = if mark == '*' {
                include_messages()
            } else {
                exclude_messages()
            };
            &&& !exists|i: int| first_invalid(more, i)
            &&& all_marked(more, mark) == all_marked(filters, mark).push(seq![mark] + extension)
            &&& forall|other: char|
                other != mark ==> #[trigger] all_marked(more, other) == all_marked(filters, other)
            &&& normalized(seq![mark] + extension, kind) == Ok::<Seq<char>, Seq<char>>(
                seq!['.'] + text::lower(extension),
            )
            &&& forall|k: FilterMessages| #[trigger]
                all_normalized(all_marked(filters, mark).push(seq![mark] + extension), k) == match (
                all_normalized(all_marked(filters, mark), k)) {
                    Ok(before) => match normalized(seq![mark] + extension, k) {
                        Ok(e) => Ok(before.push(e)),
                        Err(message) => Err(message),
                    },
                    Err(message) => Err(message),
                }
        }),
{
    let word = seq![mark] + extension;
    let more = filters.push(word);
    lemma_all_valid(filters);
    lemma_all_valid(more);
    assert(more.drop_last() =~= filters);
    assert(word[0] == mark);
    assert forall|i: int| 0 <= i < more.len() implies is_filter(#[trigger] more[i]) by {
        if i < filters.len() {
            assert(is_filter(filters[i]));
        }
    }
    reveal_with_fuel(text::trim_start_while, 3);
    assert(word.drop_first() =~= extension);
    assert(text::trim_start_char(word, mark) == extension);
    assert(text::trim_start_char(extension, '.') == extension);
    assert(all_marked(filters, mark).push(word).drop_last() =~= all_marked(filters, mark));
}

/// An argument that starts with neither a star nor a hash sign is an error, wherever
/// it stands, and the first such argument is the one that is told.
pub proof fn law_wrong_arguments_are_errors(filters: Seq<Seq<char>>, i: int)
    requires
        0 <= i < filters.len(),
        filters[i].len() == 0 || (filters[i][0] != '*' && filters[i][0] != '#'),
    ensures
        parsed_filters(filters) is Err,
        (forall|j: int|
            0 <= j < i ==> (#[trigger] filters[j]).len() > 0 && (filters[j][0] == '*'
                || filters[j][0] == '#')) ==> parsed_filters(filters)->Err_0
            == "Invalid filter '"@ + filters[i]
            + "'. Use *ext to include or #ext to exclude, for example *apk or #jpg"@,
{
    lemma_all_valid(filters);
    assert(!is_filter(filters[i]));
    if forall|j: int|
        0 <= j < i ==> (#[trigger] filters[j]).len() > 0 && (filters[j][0] == '*' || filters[j][0]
            == '#') {
        assert(first_invalid(filters, i));
        lemma_first_invalid_unique(filters, i, choose|k: int| first_invalid(filters, k));
    }
}

/// A filter without its mark is told, and so is a mark without an extension.
pub proof fn law_wrong_filters_are_told(filter: Seq<char>)
    ensures
        filter.len() == 0 || filter[0] != '*' ==> normalized(filter, include_messages()) == Err::<
            Seq<char>,
            Seq<char>,
        >(
            "Invalid filter '"@ + filter
                + "'. Filters must start with *, for example *apk or *xapk"@,
        ),
        filter.len() == 0 || filter[0] != '#' ==> normalized(filter, exclude_messages()) == Err::<
            Seq<char>,
            Seq<char>,
        >(
            "Invalid exclude '"@ + filter
                + "'. Excludes must start with #, for example #jpg or #torrent"@,
        ),
        normalized(seq!['*'], include_messages()) == Err::<Seq<char>, Seq<char>>(
            "Invalid filter. Provide an extension after *, for example *apk"@,
        ),
        normalized(seq!['#'], exclude_messages()) == Err::<Seq<char>, Seq<char>>(
            "Invalid exclude. Provide an extension after #, for example #jpg"@,
        ),
{
    reveal_with_fuel(text::trim_start_while, 3);
    assert(seq!['*'].drop_first() =~= Seq::empty());
    assert(seq!['#'].drop_first() =~= Seq::empty());
}

} // verus!
