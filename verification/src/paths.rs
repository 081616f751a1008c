//! Where the files of an archive go: local paths, directories and labels.

use std::path::Path;

use vstd::prelude::*;

use crate::error::IaGetError;
use crate::order;
use crate::sanitize;
use crate::text;

verus! {

// ---------------------------------------------------------------------------
// Local paths
// ---------------------------------------------------------------------------

/// The last component of a path, or nothing where the path is empty.
pub open spec fn last_component(path: Seq<char>) -> Seq<char> {
    text::split(path, '/').last()
}

/// The local path of an archive file: the whole sanitized path, or only its last
/// component where files are filtered and no folder structure is asked for.
pub open spec fn local_path(
    archive_path: Seq<char>,
    keep_folder_structure: bool,
    partial_folder_structure: bool,
    has_filters: bool,
) -> Seq<char> {
    let whole = sanitize::sanitized_path(archive_path);
    if has_filters && !keep_folder_structure && !partial_folder_structure {
        last_component(whole)
    } else {
        whole
    }
}

/// Resolves the local path of an archive file and says whether it differs from
/// the path in the archive.
pub fn resolve_local_download_path(
    archive_path: &str,
    keep_folder_structure: bool,
    partial_folder_structure: bool,
    has_filters: bool,
) -> (r: (String, bool))
    ensures
        r.0@ == local_path(
            archive_path@,
            keep_folder_structure,
            partial_folder_structure,
            has_filters,
        ),
        r.1 == (r.0@ != archive_path@),
{
    let (sanitized, modified) = sanitize::sanitize_filename(archive_path);
    if !has_filters {
        return (sanitized, modified);
    }
    if keep_folder_structure || partial_folder_structure {
        return (sanitized, modified);
    }
    let chars = text::chars_of(sanitized.as_str());
    let pieces = text::split_at_char(&chars, '/');
    let ghost all = text::split(sanitized@, '/');
    let last = &pieces[pieces.len() - 1];
    assert(last@ == all.last());
    let flattened = text::string_of(last);
    let differs = flattened != sanitized;
    proof {
        text::lemma_split_pieces(sanitized@, '/');
        assert(!all[all.len() - 1].contains('/'));
        if flattened@ == archive_path@ {
            lemma_plain_path_is_one_component(archive_path@);
        }
    }
    (flattened, modified || differs)
}

/// A sanitized path without a separator is its own last component.
proof fn lemma_plain_path_is_one_component(path: Seq<char>)
    requires
        !path.contains('/'),
    ensures
        last_component(sanitize::sanitized_path(path)) == sanitize::sanitized_path(path),
{
    let whole = sanitize::sanitized_path(path);
    sanitize::lemma_one_component(path);
    text::lemma_split_pieces(path, '/');
    sanitize::lemma_components_safe(text::split(path, '/'));
    if path.len() > 0 {
        assert(!sanitize::path_components(path)[0].contains('/'));
    }
    text::lemma_split_plain(whole, '/');
}

/// A filtered download without folder structure lands in the current directory.
pub proof fn law_flat_path_has_no_folder(archive_path: Seq<char>)
    ensures
        !local_path(archive_path, false, false, true).contains('/'),
{
    let whole = sanitize::sanitized_path(archive_path);
    text::lemma_split_nonempty(whole, '/');
    text::lemma_split_pieces(whole, '/');
    let pieces = text::split(whole, '/');
    assert(!pieces[pieces.len() - 1].contains('/'));
}

/// What stands behind the last separator is the last component: all of the text, or
/// what follows a separator.
proof fn lemma_last_component_is_behind_the_last_slash(s: Seq<char>)
    ensures
        ({
            let last = last_component(s);
            let n = s.len() - last.len();
            &&& last.len() <= s.len()
            &&& s.skip(n) == last
            &&& !last.contains('/')
            &&& n == 0 || s[n - 1] == '/'
        }),
    decreases s.len(),
{
    text::lemma_split_nonempty(s, '/');
    text::lemma_split_pieces(s, '/');
    let pieces = text::split(s, '/');
    assert(!pieces[pieces.len() - 1].contains('/'));
    if s.len() > 0 {
        let head = s.drop_last();
        lemma_last_component_is_behind_the_last_slash(head);
        text::lemma_split_nonempty(head, '/');
        if s.last() == '/' {
            assert(last_component(s) =~= Seq::<char>::empty());
            assert(s.skip(s.len() as int) =~= Seq::<char>::empty());
        } else {
            let before = last_component(head);
            assert(last_component(s) == before.push(s.last()));
            let n = head.len() - before.len();
            assert(s.skip(n) =~= head.skip(n).push(s.last()));
        }
    } else {
        assert(s.skip(0) =~= s);
        assert(last_component(s) =~= s);
    }
}

/// A filtered download without folder structure gets its base name: the end of the
/// sanitized path behind its last slash, or all of it where it has none.
pub proof fn law_flat_path_is_the_base_name(archive_path: Seq<char>)
    ensures
        ({
            let whole = sanitize::sanitized_path(archive_path);
            let flat = local_path(archive_path, false, false, true);
            let n = whole.len() - flat.len();
            &&& flat.len() <= whole.len()
            &&& whole.skip(n) == flat
            &&& !flat.contains('/')
            &&& n == 0 || whole[n - 1] == '/'
        }),
{
    lemma_last_component_is_behind_the_last_slash(sanitize::sanitized_path(archive_path));
}

/// Whatever folder a file lies in, its flat path is its own name, made safe.
pub proof fn law_flat_path_is_the_own_name(folder: Seq<char>, name: Seq<char>)
    requires
        name.len() > 0,
        !name.contains('/'),
    ensures
        local_path(folder + seq!['/'] + name, false, false, true) == sanitize::sanitized_path(name),
        local_path(name, false, false, true) == sanitize::sanitized_path(name),
{
    let path = folder + seq!['/'] + name;
    sanitize::law_folders_are_sanitized_one_by_one(folder, name);
    sanitize::lemma_one_component(name);
    sanitize::lemma_name_is_safe(name);
    let clean = sanitize::sanitized_path(name);
    let before = sanitize::sanitized_path(folder);
    assert(clean == sanitize::sanitized_component(name));
    text::lemma_split_plain(clean, '/');
    if before.len() > 0 {
        text::lemma_split_append(before, clean, '/');
    }
}

/// Where folders are kept, or files are not filtered, the local path is the whole
/// sanitized path.
pub proof fn law_kept_path_is_the_sanitized_one(
    archive_path: Seq<char>,
    keep: bool,
    partial: bool,
    filters: bool,
)
    requires
        keep || partial || !filters,
    ensures
        local_path(archive_path, keep, partial, filters) == sanitize::sanitized_path(archive_path),
{
}

/// With or without filters, and whichever of the two folder flags is given, a
/// kept path is the same.
pub proof fn law_kept_paths_agree(archive_path: Seq<char>, keep: bool, partial: bool, filters: bool)
    requires
        keep || partial || !filters,
    ensures
        local_path(archive_path, keep, partial, filters) == local_path(
            archive_path,
            false,
            false,
            false,
        ),
{
}

// ---------------------------------------------------------------------------
// Directories
// ---------------------------------------------------------------------------

/// Whether `dir` is a beginning of at least one and less than `n` of the `components`.
pub open spec fn beginning_of(components: Seq<Seq<char>>, n: int, dir: Seq<char>) -> bool {
    exists|m: int| 1 <= m < n && dir == text::join(#[trigger] components.take(m), seq!['/'])
}

/// Whether `dir` is a proper beginning of the sanitized path `path`: some, but
/// not all, of its components.
pub open spec fn directory_of(path: Seq<char>, dir: Seq<char>) -> bool {
    beginning_of(
        sanitize::path_components(path),
        sanitize::path_components(path).len() as int,
        dir,
    )
}

/// Whether some path lies in the directory `dir`, at any depth.
pub open spec fn implied_directory(paths: Seq<Seq<char>>, dir: Seq<char>) -> bool {
    exists|k: int| 0 <= k < paths.len() && directory_of(#[trigger] paths[k], dir)
}

/// A path that has components is not empty.
proof fn lemma_join_nonempty(pieces: Seq<Seq<char>>)
    requires
        pieces.len() > 0,
        pieces[pieces.len() - 1].len() > 0,
    ensures
        text::join(pieces, seq!['/']).len() > 0,
{
}

/// The components of the sanitized form of `path`.
fn components_of(path: &str) -> (r: Vec<Vec<char>>)
    ensures
        text::char_texts(r@) == sanitize::path_components(path@),
{
    let (sanitized, _) = sanitize::sanitize_filename(path);
    let chars = text::chars_of(sanitized.as_str());
    proof {
        text::lemma_split_pieces(path@, '/');
        sanitize::lemma_components_safe(text::split(path@, '/'));
        if sanitize::path_components(path@).len() > 0 {
            let c = sanitize::path_components(path@);
            assert(sanitize::safe_component(c[c.len() - 1]));
            lemma_join_nonempty(c);
        }
    }
    if chars.len() == 0 {
        let none: Vec<Vec<char>> = Vec::new();
        assert(text::char_texts(none@) =~= sanitize::path_components(path@));
        return none;
    }
    proof {
        sanitize::lemma_sanitized_pieces(path@);
    }
    text::split_at_char(&chars, '/')
}

/// The first `n` of `pieces`.
fn first_pieces(pieces: &Vec<Vec<char>>, n: usize) -> (r: Vec<Vec<char>>)
    requires
        n <= pieces.len(),
    ensures
        text::char_texts(r@) == text::char_texts(pieces@).take(n as int),
{
    let mut out: Vec<Vec<char>> = Vec::new();
    let mut i: usize = 0;
    while i < n
        invariant
            i <= n <= pieces.len(),
            text::char_texts(out@) == text::char_texts(pieces@).take(i as int),
        decreases n - i,
    {
        let ghost before = out@;
        let piece = text::part(&pieces[i], 0, pieces[i].len());
        assert(piece@ =~= pieces[i as int]@);
        out.push(piece);
        assert(text::char_texts(out@) =~= text::char_texts(before).push(pieces[i as int]@));
        assert(text::char_texts(pieces@).take(i + 1) =~= text::char_texts(pieces@).take(
            i as int,
        ).push(pieces[i as int]@));
        i = i + 1;
    }
    out
}

/// Collects every directory that the archive paths imply, each once, in the
/// order of their characters.
pub fn collect_archive_directories(archive_paths: &[String]) -> (r: Vec<String>)
    ensures
        order::increasing(text::texts(r@)),
        forall|dir: Seq<char>| #[trigger]
            text::texts(r@).contains(dir) <==> implied_directory(text::texts(archive_paths@), dir),
{
    let ghost paths = text::texts(archive_paths@);
    let mut slash: Vec<char> = Vec::new();
    slash.push('/');
    assert(slash@ =~= seq!['/']);
    let mut dirs: Vec<Vec<char>> = Vec::new();
    let mut k: usize = 0;
    while k < archive_paths.len()
        invariant
            k <= archive_paths.len(),
            paths == text::texts(archive_paths@),
            slash@ == seq!['/'],
            order::increasing(text::char_texts(dirs@)),
            forall|dir: Seq<char>| #[trigger]
                text::char_texts(dirs@).contains(dir) <==> implied_directory(
                    paths.take(k as int),
                    dir,
                ),
        decreases archive_paths.len() - k,
    {
        let path = archive_paths[k].as_str();
        let ghost known = text::char_texts(dirs@);
        let components = components_of(path);
        let ghost c = sanitize::path_components(path@);
        let mut n: usize = 1;
        while n < components.len()
            invariant
                1 <= n,
                c.len() > 0 ==> n <= c.len(),
                c.len() == 0 ==> n == 1,
                c == text::char_texts(components@),
                slash@ == seq!['/'],
                order::increasing(text::char_texts(dirs@)),
                forall|d: Seq<char>|
                    #![trigger text::char_texts(dirs@).contains(d)]
                    text::char_texts(dirs@).contains(d) <==> (known.contains(d) || beginning_of(
                        c,
                        n as int,
                        d,
                    )),
            decreases components.len() - n,
        {
            let ghost before = text::char_texts(dirs@);
            let head = first_pieces(&components, n);
            let dir = text::join_with(&head, &slash);
            let ghost added = dir@;
            order::insert_sorted(&mut dirs, dir);
            proof {
                let after = text::char_texts(dirs@);
                assert(added == text::join(c.take(n as int), seq!['/']));
                assert forall|d: Seq<char>| #[trigger]
                    after.contains(d) <==> (known.contains(d) || beginning_of(c, n + 1, d)) by {
                    assert(before.contains(d) <==> (known.contains(d) || beginning_of(
                        c,
                        n as int,
                        d,
                    )));
                }
            }
            n = n + 1;
        }
        proof {
            let after = text::char_texts(dirs@);
            let some = paths.take(k as int);
            let more = paths.take(k + 1);
            assert(more =~= some.push(path@));
            assert forall|d: Seq<char>| #[trigger]
                after.contains(d) <==> implied_directory(more, d) by {
                assert(known.contains(d) <==> implied_directory(some, d));
                if implied_directory(some, d) {
                    let j = choose|j: int| 0 <= j < some.len() && directory_of(#[trigger] some[j], d);
                    assert(more[j] == some[j]);
                }
                if directory_of(path@, d) {
                    assert(more[k as int] == path@);
                }
                if implied_directory(more, d) {
                    let j = choose|j: int| 0 <= j < more.len() && directory_of(#[trigger] more[j], d);
                    if j < k {
                        assert(some[j] == more[j]);
                    }
                }
            }
        }
        k = k + 1;
    }
    assert(paths.take(k as int) =~= paths);
    let mut out: Vec<String> = Vec::new();
    let mut i: usize = 0;
    while i < dirs.len()
        invariant
            i <= dirs.len(),
            text::texts(out@) == text::char_texts(dirs@).take(i as int),
        decreases dirs.len() - i,
    {
        let ghost before = out@;
        let dir = text::string_of(&dirs[i]);
        out.push(dir);
        assert(text::texts(out@) =~= text::texts(before).push(dirs[i as int]@));
        assert(text::char_texts(dirs@).take(i + 1) =~= text::char_texts(dirs@).take(i as int).push(
            dirs[i as int]@,
        ));
        i = i + 1;
    }
    assert(text::char_texts(dirs@).take(i as int) =~= text::char_texts(dirs@));
    out
}

/// The directory that holds a file of the archive is among the collected ones.
pub proof fn law_directory_of_file_is_collected(paths: Seq<Seq<char>>, k: int)
    requires
        0 <= k < paths.len(),
        sanitize::path_components(paths[k]).len() > 1,
    ensures
        implied_directory(
            paths,
            text::join(sanitize::path_components(paths[k]).drop_last(), seq!['/']),
        ),
{
    let c = sanitize::path_components(paths[k]);
    assert(c.take(c.len() - 1) =~= c.drop_last());
    assert(directory_of(paths[k], text::join(c.drop_last(), seq!['/'])));
}

/// The parent of a collected directory is collected too, so every directory can
/// be created inside one that exists.
pub proof fn law_parent_directory_is_collected(paths: Seq<Seq<char>>, k: int, n: int)
    requires
        0 <= k < paths.len(),
        2 <= n < sanitize::path_components(paths[k]).len(),
    ensures
        implied_directory(paths, text::join(sanitize::path_components(paths[k]).take(n), seq!['/'])),
        implied_directory(
            paths,
            text::join(sanitize::path_components(paths[k]).take(n - 1), seq!['/']),
        ),
{
    let c = sanitize::path_components(paths[k]);
    assert(directory_of(paths[k], text::join(c.take(n), seq!['/'])));
    assert(directory_of(paths[k], text::join(c.take(n - 1), seq!['/'])));
}

/// Files in the root of the archive imply no directory.
pub proof fn law_root_files_imply_no_directory(paths: Seq<Seq<char>>, dir: Seq<char>)
    requires
        forall|k: int| 0 <= k < paths.len() ==> !(#[trigger] paths[k]).contains('/'),
    ensures
        !implied_directory(paths, dir),
{
    if implied_directory(paths, dir) {
        let k = choose|k: int| 0 <= k < paths.len() && directory_of(#[trigger] paths[k], dir);
        sanitize::lemma_one_component(paths[k]);
    }
}

/// A directory that some files imply is implied by more files too.
pub proof fn law_more_files_more_directories(
    paths: Seq<Seq<char>>,
    more: Seq<Seq<char>>,
    dir: Seq<char>,
)
    requires
        forall|k: int| 0 <= k < paths.len() ==> more.contains(#[trigger] paths[k]),
        implied_directory(paths, dir),
    ensures
        implied_directory(more, dir),
{
    let k = choose|k: int| 0 <= k < paths.len() && directory_of(#[trigger] paths[k], dir);
    let j = choose|j: int| 0 <= j < more.len() && more[j] == paths[k];
    assert(directory_of(more[j], dir));
}

/// Says why a directory could not be created.
pub fn directory_error(dir: &str, reason: &str) -> (r: IaGetError)
    ensures
        r is FileSystem,
        r.message() == "Failed to create directory '"@ + dir@ + "': "@ + reason@,
{
    let mut out = text::chars_of("Failed to create directory '");
    let name = text::chars_of(dir);
    text::extend(&mut out, &name);
    let colon = text::chars_of("': ");
    text::extend(&mut out, &colon);
    let why = text::chars_of(reason);
    text::extend(&mut out, &why);
    IaGetError::FileSystem(text::string_of(&out))
}

/// The folder of a file is one of its directories, at every depth.
pub proof fn law_folders_are_directories(folder: Seq<char>, rest: Seq<char>)
    requires
        sanitize::sanitized_path(folder).len() > 0,
        sanitize::sanitized_path(rest).len() > 0,
    ensures
        directory_of(folder + seq!['/'] + rest, sanitize::sanitized_path(folder)),
{
    text::lemma_split_concat(folder, rest, '/');
    sanitize::lemma_components_concat(text::split(folder, '/'), text::split(rest, '/'));
    sanitize::lemma_empty_path(folder);
    sanitize::lemma_empty_path(rest);
    let x = sanitize::path_components(folder);
    let y = sanitize::path_components(rest);
    assert((x + y).take(x.len() as int) =~= x);
}

/// A directory of a file is what stands before one of the slashes of its sanitized
/// path.
pub proof fn law_directories_lie_above_the_file(path: Seq<char>, dir: Seq<char>)
    requires
        directory_of(path, dir),
    ensures
        ({
            let whole = sanitize::sanitized_path(path);
            &&& 0 < dir.len() < whole.len() - 1
            &&& whole.take(dir.len() as int) == dir
            &&& whole[dir.len() as int] == '/'
        }),
{
    let c = sanitize::path_components(path);
    let m = choose|m: int|
        1 <= m < c.len() && dir == text::join(#[trigger] c.take(m), seq!['/']);
    let x = c.take(m);
    let y = c.skip(m);
    assert(c =~= x + y);
    text::lemma_join_concat(x, y, seq!['/']);
    text::lemma_split_pieces(path, '/');
    sanitize::lemma_components_safe(text::split(path, '/'));
    assert forall|i: int| 0 <= i < x.len() implies (#[trigger] x[i]).len() > 0 by {
        assert(sanitize::safe_component(c[i]));
    }
    assert forall|i: int| 0 <= i < y.len() implies (#[trigger] y[i]).len() > 0 by {
        assert(sanitize::safe_component(c[i + m]));
    }
    lemma_join_nonempty(x);
    lemma_join_nonempty(y);
    let whole = sanitize::sanitized_path(path);
    assert(whole.take(dir.len() as int) =~= dir);
}

// ---------------------------------------------------------------------------
// Labels
// ---------------------------------------------------------------------------

/// Whether `path` is written in the one way that means the same everywhere: a
/// relative path of named components, without backslashes and colons.
pub open spec fn portable_path(path: Seq<char>) -> bool {
    &&& !path.contains('\\')
    &&& !path.contains(':')
    &&& forall|i: int|
        0 <= i < text::split(path, '/').len() ==> {
            &&& (#[trigger] text::split(path, '/')[i]).len() > 0
            &&& text::split(path, '/')[i] != "."@
            &&& text::split(path, '/')[i] != ".."@
        }
}

/// Whether `path` is taken apart at its slashes everywhere: it holds no backslash
/// and no colon, and does not start with two slashes.
pub open spec fn plain_path(path: Seq<char>) -> bool {
    &&& !path.contains('\\')
    &&& !path.contains(':')
    &&& !(path.len() >= 2 && path[0] == '/' && path[1] == '/')
}

/// The last of some pieces that leads anywhere: that is neither empty nor a dot.
pub open spec fn last_step(pieces: Seq<Seq<char>>) -> Option<Seq<char>>
    decreases pieces.len(),
{
    if pieces.len() == 0 {
        None
    } else if pieces.last().len() == 0 || pieces.last() == "."@ {
        last_step(pieces.drop_last())
    } else {
        Some(pieces.last())
    }
}

/// The name of the file at a path: the last step to it, unless that leads up.
pub open spec fn path_name(path: Seq<char>) -> Option<Seq<char>> {
    match last_step(text::split(path, '/')) {
        Some(step) => if step == ".."@ {
            None
        } else {
            Some(step)
        },
        None => None,
    }
}

/// `std::path::Path::file_name` returns the final component of a path, if it
/// is a name: not where the path ends in `..` or has no component. Slashes at the
/// end and repeated ones are ignored, and so are single dots. The contract leaves
/// out paths with backslashes, with colons or with two slashes in front: how those
/// are taken apart depends on the platform.
#[verifier::external_body]
fn path_file_name(path: &str) -> (r: Option<String>)
    ensures
        plain_path(path@) ==> text::option_text(r) == path_name(path@),
{
    Path::new(path).file_name().map(|name| name.to_string_lossy().into_owned())
}

/// The name of a file for display, or its whole path where it has no name.
pub open spec fn label_text(path: Seq<char>, name: Option<Seq<char>>) -> Seq<char> {
    match name {
        Some(name) => name,
        None => path,
    }
}

/// Takes the name of a file for display, or its whole path where it has no name.
pub fn name_or_path(file_path: &str, name: Option<String>) -> (r: String)
    ensures
        r@ == label_text(file_path@, text::option_text(name)),
{
    match name {
        Some(name) => name,
        None => file_path.to_owned(),
    }
}

/// The name of a file for display: the last component of its path, or the whole
/// path where it has no name.
pub fn file_display_label(file_path: &str) -> (r: String)
    ensures
        plain_path(file_path@) ==> r@ == label_text(file_path@, path_name(file_path@)),
        portable_path(file_path@) ==> r@ == last_component(file_path@),
        file_path@.len() == 0 ==> r@.len() == 0,
        plain_path(file_path@) && last_component(file_path@) == ".."@ ==> r@ == file_path@,
{
    proof {
        if portable_path(file_path@) {
            law_name_of_portable_path(file_path@);
        }
        if file_path@.len() == 0 || last_component(file_path@) == ".."@ {
            law_paths_without_a_name(file_path@);
        }
    }
    name_or_path(file_path, path_file_name(file_path))
}

/// The name of a portable path is its last component.
pub proof fn law_name_of_portable_path(path: Seq<char>)
    requires
        portable_path(path),
    ensures
        plain_path(path),
        path_name(path) == Some(last_component(path)),
{
    text::lemma_split_nonempty(path, '/');
    let pieces = text::split(path, '/');
    assert(pieces[pieces.len() - 1] == pieces.last());
    if path.len() >= 2 && path[0] == '/' && path[1] == '/' {
        let rest = path.drop_first();
        assert(path =~= Seq::<char>::empty() + seq!['/'] + rest);
        text::lemma_split_concat(Seq::empty(), rest, '/');
        assert(pieces[0].len() == 0);
    }
}

/// A path that is empty or whose last piece is `..` has no name, and is shown as a
/// whole.
pub proof fn law_paths_without_a_name(path: Seq<char>)
    requires
        path.len() == 0 || last_component(path) == ".."@,
    ensures
        path_name(path) is None,
        label_text(path, path_name(path)) == path,
        path.len() == 0 ==> plain_path(path),
{
    reveal_strlit("..");
    reveal_strlit(".");
    reveal_with_fuel(last_step, 2);
    assert("."@.len() == 1);
    assert(".."@.len() == 2);
    text::lemma_split_nonempty(path, '/');
}

/// A slash or a dot at the end of a path leads nowhere, and two dots lead up, to what has
/// no name.
pub proof fn law_dots_lead_to_no_name(path: Seq<char>)
    ensures
        path_name(path + seq!['/']) == path_name(path),
        path_name(path + seq!['/', '.']) == path_name(path),
        path_name(path + seq!['/', '.', '.']) is None,
{
    reveal_strlit(".");
    reveal_strlit("..");
    let none = Seq::<char>::empty();
    text::lemma_split_append(path, none, '/');
    text::lemma_split_append(path, seq!['.'], '/');
    text::lemma_split_append(path, seq!['.', '.'], '/');
    assert(path + seq!['/'] + none =~= path + seq!['/']);
    assert(path + seq!['/'] + seq!['.'] =~= path + seq!['/', '.']);
    assert(path + seq!['/'] + seq!['.', '.'] =~= path + seq!['/', '.', '.']);
    let pieces = text::split(path, '/');
    assert(pieces.push(none).drop_last() =~= pieces);
    assert(pieces.push(seq!['.']).drop_last() =~= pieces);
    assert(seq!['.'] =~= "."@);
    assert(seq!['.', '.'] =~= ".."@);
    assert("."@.len() == 1);
    assert(".."@.len() == 2);
}

/// Sanitized paths that are not empty are portable.
pub proof fn law_sanitized_path_is_portable(path: Seq<char>)
    requires
        sanitize::sanitized_path(path).len() > 0,
    ensures
        portable_path(sanitize::sanitized_path(path)),
{
    let whole = sanitize::sanitized_path(path);
    let pieces = text::split(whole, '/');
    sanitize::law_sanitized_path_is_safe(path);
    reveal_strlit(".");
    reveal_strlit("..");
    assert forall|i: int| 0 <= i < pieces.len() implies {
        &&& (#[trigger] pieces[i]).len() > 0
        &&& pieces[i] != "."@
        &&& pieces[i] != ".."@
    } by {
        assert(sanitize::safe_component(pieces[i]));
    }
    lemma_pieces_cover(whole, '\\');
    lemma_pieces_cover(whole, ':');
}

/// A character other than the separator that no piece holds is not in the text.
proof fn lemma_pieces_cover(s: Seq<char>, c: char)
    requires
        c != '/',
        forall|i: int|
            0 <= i < text::split(s, '/').len() ==> !(#[trigger] text::split(s, '/')[i]).contains(c),
    ensures
        !s.contains(c),
    decreases s.len(),
{
    if s.len() > 0 {
        let head = s.drop_last();
        let before = text::split(head, '/');
        let pieces = text::split(s, '/');
        text::lemma_split_nonempty(head, '/');
        if s.last() != '/' {
            let piece = before.last();
            assert(pieces[pieces.len() - 1] == piece.push(s.last()));
            assert(piece.push(s.last())[piece.len() as int] == s.last());
            assert(!pieces[pieces.len() - 1].contains(c));
            assert(s.last() != c);
        }
        assert forall|i: int| 0 <= i < before.len() implies !(#[trigger] before[i]).contains(c) by {
            if before[i].contains(c) {
                let j = choose|j: int| 0 <= j < before[i].len() && before[i][j] == c;
                assert(!pieces[i].contains(c));
                assert(pieces[i][j] == c);
            }
        }
        lemma_pieces_cover(head, c);
        if s.contains(c) {
            let j = choose|j: int| 0 <= j < s.len() && s[j] == c;
            assert(j < head.len());
            assert(head[j] == c);
        }
    }
}

/// `label`, or its first `max - 1` characters and an ellipsis where it is longer
/// than `max` characters.
pub open spec fn truncated_label(label: Seq<char>, max: nat) -> Seq<char> {
    if label.len() <= max {
        label
    } else if max == 0 {
        seq!['…']
    } else {
        label.take(max - 1).push('…')
    }
}

/// Shortens a label for a narrow display.
pub fn truncate_file_label(label: &str, max_chars: usize) -> (r: String)
    ensures
        r@ == truncated_label(label@, max_chars as nat),
{
    let chars = text::chars_of(label);
    if chars.len() <= max_chars {
        return label.to_owned();
    }
    let kept: usize = if max_chars == 0 {
        0
    } else {
        max_chars - 1
    };
    let mut out = text::part(&chars, 0, kept);
    out.push('…');
    assert(out@ =~= truncated_label(label@, max_chars as nat));
    text::string_of(&out)
}

/// A shortened label fits, as long as there is room for one character.
pub proof fn law_truncated_label_fits(label: Seq<char>, max: nat)
    requires
        max > 0,
    ensures
        truncated_label(label, max).len() <= max,
{
}

/// A long label is cut to its beginning, and the last place shows an ellipsis; a
/// label that fits is shown as it is.
pub proof fn law_labels_keep_their_beginning(label: Seq<char>, max: nat)
    requires
        max >= 1,
    ensures
        label.len() <= max ==> truncated_label(label, max) == label,
        label.len() > max ==> {
            &&& truncated_label(label, max).len() == max
            &&& truncated_label(label, max).drop_last() == label.take(max - 1)
            &&& truncated_label(label, max).last() == '…'
        },
{
    if label.len() > max {
        assert(label.take(max - 1).push('…').drop_last() =~= label.take(max - 1));
    }
}

/// Without room for a label only the ellipsis is shown, unless there is nothing to show.
pub proof fn law_labels_without_room(label: Seq<char>)
    ensures
        label.len() > 0 ==> truncated_label(label, 0) == seq!['…'],
        label.len() == 0 ==> truncated_label(label, 0) == label,
{
}

} // verus!
