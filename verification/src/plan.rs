//! What is downloaded, from where and to where.

use vstd::prelude::*;

use crate::filters;
use crate::filters::ExtensionFilterSpec;
use crate::listing;
use crate::listing::{XmlFile, XmlFiles};
use crate::order;
use crate::paths;
use crate::text;
use crate::urls;
use crate::urls::RequestUrl;

verus! {

// ---------------------------------------------------------------------------
// Which files
// ---------------------------------------------------------------------------

/// Whether there are filters at all.
pub open spec fn filtering(choice: ExtensionFilterSpec) -> bool {
    choice.includes@.len() > 0 || choice.excludes@.len() > 0
}

/// Whether a file passes the filters.
pub open spec fn wanted(file: XmlFile, choice: ExtensionFilterSpec) -> bool {
    filters::passes(file.name@, text::texts(choice.includes@), text::texts(choice.excludes@))
}

/// The files that pass the filters, in their order.
pub open spec fn kept(files: Seq<XmlFile>, choice: ExtensionFilterSpec) -> Seq<XmlFile>
    decreases files.len(),
{
    if files.len() == 0 {
        Seq::empty()
    } else {
        let before = kept(files.drop_last(), choice);
        if wanted(files.last(), choice) {
            before.push(files.last())
        } else {
            before
        }
    }
}

/// Tests whether there are filters at all.
pub fn has_filters(choice: &ExtensionFilterSpec) -> (r: bool)
    ensures
        r == filtering(*choice),
{
    choice.includes.len() > 0 || choice.excludes.len() > 0
}

/// Keeps the files that pass the filters.
pub fn retain_wanted(files: XmlFiles, choice: &ExtensionFilterSpec) -> (r: XmlFiles)
    ensures
        r.files@ == kept(files.files@, *choice),
{
    let ghost all = files.files@;
    let mut rest = files.files;
    // The files come off the end, so that they are gathered in reverse.
    let mut reversed: Vec<XmlFile> = Vec::new();
    while rest.len() > 0
        invariant
            rest@ == all.take(rest@.len() as int),
            rest@.len() <= all.len(),
            reversed@.len() + rest@.len() == all.len(),
            forall|j: int|
                0 <= j < reversed@.len() ==> #[trigger] reversed@[j] == all[all.len() - 1 - j],
        decreases rest.len(),
    {
        match rest.pop() {
            Some(file) => {
                reversed.push(file);
                assert(rest@ =~= all.take(rest@.len() as int));
            },
            None => {},
        }
    }
    let mut out: Vec<XmlFile> = Vec::new();
    let ghost mut i: int = 0;
    while reversed.len() > 0
        invariant
            0 <= i,
            i + reversed@.len() == all.len(),
            forall|j: int|
                0 <= j < reversed@.len() ==> #[trigger] reversed@[j] == all[all.len() - 1 - j],
            out@ == kept(all.take(i), *choice),
        decreases reversed.len(),
    {
        let ghost before = reversed@;
        match reversed.pop() {
            Some(file) => {
                assert(file == before[before.len() - 1]);
                assert(file == all[i]);
                assert(all.take(i + 1).drop_last() =~= all.take(i));
                let keep = filters::file_passes_extension_filters(
                    file.name.as_str(),
                    choice.includes.as_slice(),
                    choice.excludes.as_slice(),
                );
                if keep {
                    out.push(file);
                }
                proof {
                    i = i + 1;
                }
            },
            None => {},
        }
    }
    assert(all.take(i) =~= all);
    XmlFiles { files: out }
}

/// The names of the files.
pub open spec fn names(files: Seq<XmlFile>) -> Seq<Seq<char>> {
    Seq::new(files.len(), |i: int| files[i].name@)
}

/// The names of the files.
pub fn archive_paths(files: &XmlFiles) -> (r: Vec<String>)
    ensures
        text::texts(r@) == names(files.files@),
{
    let mut out: Vec<String> = Vec::new();
    let mut i: usize = 0;
    while i < files.files.len()
        invariant
            i <= files.files.len(),
            out@.len() == i,
            forall|j: int| 0 <= j < i ==> (#[trigger] out@[j])@ == files.files@[j].name@,
        decreases files.files.len() - i,
    {
        out.push(files.files[i].name.clone());
        i = i + 1;
    }
    assert(text::texts(out@) =~= names(files.files@));
    out
}

/// What is done with the files.
#[derive(Debug, Clone, Copy, PartialEq, Eq, Structural)]
pub enum Purpose {
    /// They are listed.
    List,
    /// There are none.
    Nothing,
    /// They are downloaded.
    Download,
}

/// Decides what is done with the files that passed the filters.
pub fn purpose(list: bool, files: usize) -> (r: Purpose)
    ensures
        r == if list {
            Purpose::List
        } else if files == 0 {
            Purpose::Nothing
        } else {
            Purpose::Download
        },
{
    if list {
        Purpose::List
    } else if files == 0 {
        Purpose::Nothing
    } else {
        Purpose::Download
    }
}

// ---------------------------------------------------------------------------
// Which directories
// ---------------------------------------------------------------------------

/// The paths whose directories are created: all where files are not filtered or
/// the whole structure is asked for, those of the downloaded files where only
/// their folders are, and else none.
pub open spec fn directory_paths(
    all: Seq<Seq<char>>,
    downloaded: Seq<Seq<char>>,
    keep_folder_structure: bool,
    partial_folder_structure: bool,
    has_filters: bool,
) -> Seq<Seq<char>> {
    if !has_filters || keep_folder_structure {
        all
    } else if partial_folder_structure {
        downloaded
    } else {
        Seq::empty()
    }
}

/// The directories to create before files are downloaded, each once and in the
/// order of their characters.
pub fn directories_to_create(
    all: &[String],
    downloaded: &[String],
    keep_folder_structure: bool,
    partial_folder_structure: bool,
    has_filters: bool,
) -> (r: Vec<String>)
    ensures
        order::increasing(text::texts(r@)),
        forall|dir: Seq<char>| #[trigger]
            text::texts(r@).contains(dir) <==> paths::implied_directory(
                directory_paths(
                    text::texts(all@),
                    text::texts(downloaded@),
                    keep_folder_structure,
                    partial_folder_structure,
                    has_filters,
                ),
                dir,
            ),
{
    if !has_filters || keep_folder_structure {
        paths::collect_archive_directories(all)
    } else if partial_folder_structure {
        paths::collect_archive_directories(downloaded)
    } else {
        let none: Vec<String> = Vec::new();
        assert(text::texts(none@) =~= Seq::empty());
        paths::collect_archive_directories(none.as_slice())
    }
}

// ---------------------------------------------------------------------------
// From where and to where
// ---------------------------------------------------------------------------

/// The download of a file.
#[derive(Debug, Clone, PartialEq, Eq)]
pub struct DownloadEntry {
    /// Its name in the archive.
    pub name: String,
    /// Where it comes from.
    pub url: String,
    /// Where it goes to.
    pub local_path: String,
    /// The hash that it should have, where it is known.
    pub md5: Option<String>,
    /// Whether its local path is not its name in the archive.
    pub renamed: bool,
}

/// How the local paths of files are made.
#[derive(Debug, Clone, Copy, PartialEq, Eq, Structural)]
pub struct Layout {
    pub keep_folder_structure: bool,
    pub partial_folder_structure: bool,
    pub has_filters: bool,
}

/// The local path of a file.
pub open spec fn placed(name: Seq<char>, layout: Layout) -> Seq<char> {
    paths::local_path(
        name,
        layout.keep_folder_structure,
        layout.partial_folder_structure,
        layout.has_filters,
    )
}

/// Whether an entry is the download of a file.
pub open spec fn entry_of(
    file: XmlFile,
    base: Seq<char>,
    layout: Layout,
    entry: DownloadEntry,
) -> bool {
    &&& entry.name@ == file.name@
    &&& entry.url@ == urls::file_url(base, urls::joined_url(base, file.name@))
    &&& entry.local_path@ == placed(file.name@, layout)
    &&& entry.renamed == (placed(file.name@, layout) != file.name@)
    &&& text::option_text(entry.md5) == text::option_text(file.md5)
}

/// Plans the download of a file that comes from `url`.
pub fn plan_file(file: &XmlFile, url: String, layout: Layout) -> (r: DownloadEntry)
    ensures
        r.name@ == file.name@,
        r.url == url,
        r.local_path@ == placed(file.name@, layout),
        r.renamed == (placed(file.name@, layout) != file.name@),
        text::option_text(r.md5) == text::option_text(file.md5),
{
    let (local_path, renamed) = paths::resolve_local_download_path(
        file.name.as_str(),
        layout.keep_folder_structure,
        layout.partial_folder_structure,
        layout.has_filters,
    );
    let md5 = match &file.md5 {
        Some(hash) => Some(hash.clone()),
        None => None,
    };
    DownloadEntry { name: file.name.clone(), url, local_path, md5, renamed }
}

/// Plans the downloads of all files, in their order. `base` is the URL of their
/// list.
pub fn plan_downloads(files: &XmlFiles, base: &RequestUrl, layout: Layout) -> (r: Vec<
    DownloadEntry,
>)
    ensures
        r@.len() == files.files@.len(),
        forall|i: int|
            0 <= i < r@.len() ==> entry_of(
                files.files@[i],
                base.full@,
                layout,
                #[trigger] r@[i],
            ),
{
    let mut out: Vec<DownloadEntry> = Vec::new();
    let mut i: usize = 0;
    while i < files.files.len()
        invariant
            i <= files.files.len(),
            out@.len() == i,
            forall|j: int|
                0 <= j < i ==> entry_of(
                    files.files@[j],
                    base.full@,
                    layout,
                    #[trigger] out@[j],
                ),
        decreases files.files.len() - i,
    {
        let url = urls::download_url(base, files.files[i].name.as_str());
        out.push(plan_file(&files.files[i], url, layout));
        i = i + 1;
    }
    out
}

/// How many of the files get another name.
pub open spec fn renamed_among(entries: Seq<DownloadEntry>) -> nat
    decreases entries.len(),
{
    if entries.len() == 0 {
        0
    } else {
        renamed_among(entries.drop_last()) + (if entries.last().renamed {
            1nat
        } else {
            0
        })
    }
}

/// Counts the files that get another name.
pub fn renamed_count(entries: &[DownloadEntry]) -> (r: usize)
    ensures
        r == renamed_among(entries@),
        r <= entries@.len(),
{
    let ghost all = entries@;
    let mut count: usize = 0;
    let mut i: usize = 0;
    while i < entries.len()
        invariant
            i <= entries.len(),
            all == entries@,
            count <= i,
            count == renamed_among(all.take(i as int)),
        decreases entries.len() - i,
    {
        assert(all.take(i + 1).drop_last() =~= all.take(i as int));
        if entries[i].renamed {
            count = count + 1;
        }
        i = i + 1;
    }
    assert(all.take(i as int) =~= all);
    count
}

// ---------------------------------------------------------------------------
// Laws
// ---------------------------------------------------------------------------

/// Exactly the files that pass the filters are kept.
pub proof fn law_kept_files_are_the_wanted_ones(
    files: Seq<XmlFile>,
    choice: ExtensionFilterSpec,
    file: XmlFile,
)
    ensures
        kept(files, choice).contains(file) <==> files.contains(file) && wanted(file, choice),
        kept(files, choice).len() <= files.len(),
    decreases files.len(),
{
    if files.len() > 0 {
        let head = files.drop_last();
        let before = kept(head, choice);
        let now = kept(files, choice);
        law_kept_files_are_the_wanted_ones(head, choice, file);
        if before.contains(file) {
            let i = choose|i: int| 0 <= i < before.len() && before[i] == file;
            assert(now[i] == file);
            let j = choose|j: int| 0 <= j < head.len() && head[j] == file;
            assert(files[j] == file);
        }
        if now.contains(file) && !before.contains(file) {
            let i = choose|i: int| 0 <= i < now.len() && now[i] == file;
            if i < before.len() {
                assert(before[i] == file);
            }
            assert(files[files.len() - 1] == file);
        }
        if files.contains(file) && wanted(file, choice) && !before.contains(file) {
            let j = choose|j: int| 0 <= j < files.len() && files[j] == file;
            if j < head.len() {
                assert(head[j] == file);
            }
            assert(now[before.len() as int] == file);
        }
    }
}

/// Without filters all files are kept.
pub proof fn law_without_filters_all_are_kept(files: Seq<XmlFile>, choice: ExtensionFilterSpec)
    requires
        !filtering(choice),
    ensures
        kept(files, choice) == files,
    decreases files.len(),
{
    if files.len() > 0 {
        law_without_filters_all_are_kept(files.drop_last(), choice);
        assert(files =~= files.drop_last().push(files.last()));
    }
}

/// Files that are left out do not make the list larger.
pub proof fn law_filtering_shrinks_the_list(files: Seq<XmlFile>, choice: ExtensionFilterSpec)
    ensures
        listing::known_size(kept(files, choice)) <= listing::known_size(files),
    decreases files.len(),
{
    if files.len() > 0 {
        law_filtering_shrinks_the_list(files.drop_last(), choice);
        let before = kept(files.drop_last(), choice);
        assert(before.push(files.last()).drop_last() =~= before);
    }
}

/// Where folders are kept, the directory of every downloaded file is created
/// before it is downloaded: all the directories of its local path are among those
/// to be created.
pub proof fn law_directories_of_downloads_are_created(
    all: Seq<Seq<char>>,
    downloaded: Seq<Seq<char>>,
    layout: Layout,
    k: int,
    dir: Seq<char>,
)
    requires
        0 <= k < downloaded.len(),
        all.contains(downloaded[k]),
        !layout.has_filters || layout.keep_folder_structure || layout.partial_folder_structure,
        paths::directory_of(downloaded[k], dir),
    ensures
        paths::implied_directory(
            directory_paths(
                all,
                downloaded,
                layout.keep_folder_structure,
                layout.partial_folder_structure,
                layout.has_filters,
            ),
            dir,
        ),
{
    let j = choose|j: int| 0 <= j < all.len() && all[j] == downloaded[k];
    assert(paths::directory_of(all[j], dir));
}

/// Where only the folders of the downloaded files are asked for, no other
/// directory is created; where files are laid flat, none is.
pub proof fn law_no_directory_without_a_download(
    all: Seq<Seq<char>>,
    downloaded: Seq<Seq<char>>,
    partial_folder_structure: bool,
    dir: Seq<char>,
)
    requires
        paths::implied_directory(
            directory_paths(all, downloaded, false, partial_folder_structure, true),
            dir,
        ),
    ensures
        partial_folder_structure,
        exists|k: int|
            0 <= k < downloaded.len() && paths::directory_of(#[trigger] downloaded[k], dir),
{
}

/// A file of the list is kept exactly where its name, in lower case, ends with one
/// of the include extensions, or there are none, and with none of the exclude
/// extensions. Nothing else matters.
pub proof fn law_files_are_chosen_by_name(
    files: Seq<XmlFile>,
    choice: ExtensionFilterSpec,
    file: XmlFile,
)
    requires
        files.contains(file),
    ensures
        kept(files, choice).contains(file) <==> {
            let name = text::lower(file.name@);
            &&& choice.includes@.len() == 0 || exists|i: int|
                0 <= i < choice.includes@.len() && text::has_suffix(
                    name,
                    (#[trigger] choice.includes@[i])@,
                )
            &&& !exists|i: int|
                0 <= i < choice.excludes@.len() && text::has_suffix(
                    name,
                    (#[trigger] choice.excludes@[i])@,
                )
        },
{
    law_kept_files_are_the_wanted_ones(files, choice, file);
    lemma_ends_with_any(file.name@, choice.includes@);
    lemma_ends_with_any(file.name@, choice.excludes@);
}

/// A name ends with one of some extensions where it ends with one of their texts.
proof fn lemma_ends_with_any(name: Seq<char>, extensions: Seq<String>)
    ensures
        filters::ends_with_any(name, text::texts(extensions)) <==> exists|i: int|
            0 <= i < extensions.len() && text::has_suffix(
                text::lower(name),
                (#[trigger] extensions[i])@,
            ),
{
    let all = text::texts(extensions);
    if filters::ends_with_any(name, all) {
        let i = choose|i: int|
            0 <= i < all.len() && text::has_suffix(text::lower(name), #[trigger] all[i]);
        assert(extensions[i]@ == all[i]);
    }
    if exists|i: int|
        0 <= i < extensions.len() && text::has_suffix(
            text::lower(name),
            (#[trigger] extensions[i])@,
        ) {
        let i = choose|i: int|
            0 <= i < extensions.len() && text::has_suffix(
                text::lower(name),
                (#[trigger] extensions[i])@,
            );
        assert(all[i] == extensions[i]@);
    }
}

/// Files of one name are both kept or both left out, whatever else is known of
/// them.
pub proof fn law_files_of_one_name_go_together(
    files: Seq<XmlFile>,
    choice: ExtensionFilterSpec,
    a: XmlFile,
    b: XmlFile,
)
    requires
        files.contains(a),
        files.contains(b),
        a.name@ == b.name@,
    ensures
        kept(files, choice).contains(a) <==> kept(files, choice).contains(b),
{
    law_files_are_chosen_by_name(files, choice, a);
    law_files_are_chosen_by_name(files, choice, b);
}

/// Each file is judged by itself: of two lists together as much is kept as of each
/// alone, in the order of the lists, and of one file the file or nothing.
pub proof fn law_files_are_chosen_one_by_one(
    a: Seq<XmlFile>,
    b: Seq<XmlFile>,
    file: XmlFile,
    choice: ExtensionFilterSpec,
)
    ensures
        kept(a + b, choice) == kept(a, choice) + kept(b, choice),
        kept(seq![file], choice) == seq![file] || kept(seq![file], choice).len() == 0,
    decreases b.len(),
{
    let none = Seq::<XmlFile>::empty();
    assert(seq![file].drop_last() =~= none);
    assert(kept(none, choice) =~= none);
    assert(seq![file].last() == file);
    if wanted(file, choice) {
        assert(kept(seq![file], choice) =~= seq![file]);
    }
    if b.len() == 0 {
        assert(a + b =~= a);
        assert(kept(a, choice) + kept(b, choice) =~= kept(a, choice));
    } else {
        law_files_are_chosen_one_by_one(a, b.drop_last(), file, choice);
        assert((a + b).drop_last() =~= a + b.drop_last());
        assert((a + b).last() == b.last());
        assert(kept(a + b, choice) =~= kept(a, choice) + kept(b, choice));
    }
}

/// The download of a file comes from the place beside the list that its own name
/// gives, or from the list where that cannot be joined; it goes to the local path of
/// its name, and is held to the hash that the list gives. Only the name and the hash
/// of the file matter.
pub proof fn law_entries_follow_their_files(
    file: XmlFile,
    base: Seq<char>,
    layout: Layout,
    entry: DownloadEntry,
)
    requires
        entry_of(file, base, layout, entry),
    ensures
        entry.name@ == file.name@,
        urls::joined_url(base, file.name@) is Some ==> entry.url@ == urls::joined_url(
            base,
            file.name@,
        )->0,
        urls::joined_url(base, file.name@) is None ==> entry.url@ == base,
        entry.local_path@ == paths::local_path(
            file.name@,
            layout.keep_folder_structure,
            layout.partial_folder_structure,
            layout.has_filters,
        ),
        entry.renamed <==> entry.local_path@ != entry.name@,
        entry.md5 is Some <==> file.md5 is Some,
        file.md5 is Some ==> entry.md5->0@ == file.md5->0@,
{
}

/// The directories of all files are created where files are not filtered or the
/// whole structure is asked for.
pub proof fn law_whole_structure_is_created(
    all: Seq<Seq<char>>,
    downloaded: Seq<Seq<char>>,
    partial_folder_structure: bool,
    has_filters: bool,
    k: int,
    dir: Seq<char>,
)
    requires
        0 <= k < all.len(),
        paths::directory_of(all[k], dir),
    ensures
        paths::implied_directory(
            directory_paths(all, downloaded, true, partial_folder_structure, has_filters),
            dir,
        ),
        paths::implied_directory(
            directory_paths(all, downloaded, false, partial_folder_structure, false),
            dir,
        ),
{
}

/// How many files get another name is counted file by file.
pub proof fn law_renamed_files_are_counted(entries: Seq<DownloadEntry>, entry: DownloadEntry)
    ensures
        renamed_among(Seq::empty()) == 0,
        renamed_among(entries.push(entry)) == renamed_among(entries) + if entry.renamed {
            1int
        } else {
            0int
        },
{
    assert(entries.push(entry).drop_last() =~= entries);
}

} // verus!
