//! What the user asks for on the command line.

use vstd::prelude::*;

use crate::error::IaGetError;
use crate::text;

verus! {

/// The arguments of the program, once they are parsed.
#[derive(Debug, Clone, PartialEq, Eq)]
pub struct Cli {
    pub url: Option<String>,
    pub filters: Vec<String>,
    pub list: bool,
    pub cookies: Option<String>,
    pub keep_folder_structure: bool,
    pub partial_folder_structure: bool,
}

/// What the user asks for.
#[derive(Debug, Clone, PartialEq, Eq)]
pub struct RunRequest {
    pub url: String,
    pub filters: Vec<String>,
    pub list: bool,
    pub keep_folder_structure: bool,
    pub partial_folder_structure: bool,
    pub cookies: Option<String>,
}

// ---------------------------------------------------------------------------
// Arguments
// ---------------------------------------------------------------------------

/// An argument with the two-letter flag written out.
pub open spec fn normalized_arg(arg: Seq<char>) -> Seq<char> {
    if arg == "-pk"@ {
        "--partial-folder-structure"@
    } else {
        arg
    }
}

/// Writes the two-letter flag out in all arguments, so that it is not taken for
/// two flags of one letter.
pub fn normalize_cli_args(args: &[String]) -> (r: Vec<String>)
    ensures
        r@.len() == args@.len(),
        forall|i: int| 0 <= i < r@.len() ==> (#[trigger] r@[i])@ == normalized_arg(args@[i]@),
{
    let mut out: Vec<String> = Vec::new();
    let mut i: usize = 0;
    while i < args.len()
        invariant
            i <= args.len(),
            out@.len() == i,
            forall|j: int| 0 <= j < i ==> (#[trigger] out@[j])@ == normalized_arg(args@[j]@),
        decreases args.len() - i,
    {
        let chars = text::chars_of(args[i].as_str());
        if text::is_text(&chars, "-pk") {
            out.push("--partial-folder-structure".to_owned());
        } else {
            out.push(args[i].clone());
        }
        i = i + 1;
    }
    out
}

/// What is said of a call without a URL.
pub open spec fn missing_url() -> Seq<char> {
    "Missing archive.org URL. Example: ia-get https://archive.org/details/my-item"@
}

/// Turns the arguments into a request; a URL has to be among them.
pub fn build_run_request(cli: Cli) -> (r: Result<RunRequest, IaGetError>)
    ensures
        match r {
            Ok(request) => {
                &&& cli.url == Some(request.url)
                &&& request.filters == cli.filters
                &&& request.list == cli.list
                &&& request.keep_folder_structure == cli.keep_folder_structure
                &&& request.partial_folder_structure == cli.partial_folder_structure
                &&& request.cookies == cli.cookies
            },
            Err(e) => cli.url is None && e is UrlFormat && e.message() == missing_url(),
        },
{
    match cli.url {
        Some(url) => Ok(
            RunRequest {
                url,
                filters: cli.filters,
                list: cli.list,
                keep_folder_structure: cli.keep_folder_structure,
                partial_folder_structure: cli.partial_folder_structure,
                cookies: cli.cookies,
            },
        ),
        None => Err(
            IaGetError::UrlFormat(
                "Missing archive.org URL. Example: ia-get https://archive.org/details/my-item".to_owned(),
            ),
        ),
    }
}

// ---------------------------------------------------------------------------
// Folders
// ---------------------------------------------------------------------------

/// What is said of a flag that makes no sense without filters.
pub open spec fn requires_filters(flag: Seq<char>) -> Seq<char> {
    flag + " requires include (*ext) or exclude (#ext) filters"@
}

/// The flag about folders that was given.
pub open spec fn folder_flag(keep_folder_structure: bool) -> Seq<char> {
    if keep_folder_structure {
        "keep-folder-structure (-k)"@
    } else {
        "partial-folder-structure (-pk)"@
    }
}

/// Says that a flag makes no sense without filters.
pub fn folder_structure_requires_filters_message(flag: &str) -> (r: String)
    ensures
        r@ == requires_filters(flag@),
{
    let r = text::between(flag, " requires include (*ext) or exclude (#ext) filters", "");
    proof {
        reveal_strlit("");
        assert(r@ =~= requires_filters(flag@));
    }
    r
}

/// Checks that the flags about folders come with filters only.
pub fn validate_folder_structure_flags(
    keep_folder_structure: bool,
    partial_folder_structure: bool,
    has_filters: bool,
) -> (r: Result<(), IaGetError>)
    ensures
        match r {
            Ok(()) => has_filters || !(keep_folder_structure || partial_folder_structure),
            Err(e) => {
                &&& !has_filters
                &&& keep_folder_structure || partial_folder_structure
                &&& e is UrlFormat
                &&& e.message() == requires_filters(folder_flag(keep_folder_structure))
            },
        },
{
    if (keep_folder_structure || partial_folder_structure) && !has_filters {
        let flag = if keep_folder_structure {
            "keep-folder-structure (-k)"
        } else {
            "partial-folder-structure (-pk)"
        };
        return Err(IaGetError::UrlFormat(folder_structure_requires_filters_message(flag)));
    }
    Ok(())
}

/// The filters in one line.
pub fn format_filter_summary(filters: &[String]) -> (r: String)
    ensures
        r@ == text::join(text::texts(filters@), ", "@),
{
    let mut pieces: Vec<Vec<char>> = Vec::new();
    let mut i: usize = 0;
    while i < filters.len()
        invariant
            i <= filters.len(),
            pieces@.len() == i,
            forall|j: int| 0 <= j < i ==> (#[trigger] pieces@[j])@ == filters@[j]@,
        decreases filters.len() - i,
    {
        pieces.push(text::chars_of(filters[i].as_str()));
        i = i + 1;
    }
    assert(text::char_texts(pieces@) =~= text::texts(filters@));
    let separator = text::chars_of(", ");
    let joined = text::join_with(&pieces, &separator);
    text::string_of(&joined)
}

// ---------------------------------------------------------------------------
// Laws
// ---------------------------------------------------------------------------

/// Arguments that are written out already stay as they are, and nothing is left
/// to be written out.
pub proof fn law_normalizing_twice_changes_nothing(arg: Seq<char>)
    ensures
        normalized_arg(normalized_arg(arg)) == normalized_arg(arg),
        normalized_arg(arg) != "-pk"@,
        arg != "-pk"@ ==> normalized_arg(arg) == arg,
{
    reveal_strlit("-pk");
    reveal_strlit("--partial-folder-structure");
    assert("-pk"@.len() == 3);
    assert("--partial-folder-structure"@.len() == 26);
}

/// Only the two-letter flag is changed, and it becomes the long flag.
pub proof fn law_only_the_two_letter_flag_changes(arg: Seq<char>)
    ensures
        normalized_arg("-pk"@) == "--partial-folder-structure"@,
        arg != "-pk"@ ==> normalized_arg(arg) == arg,
{
}

/// The user is told which flag it is that needs filters.
pub proof fn law_flags_are_told_by_name(keep_folder_structure: bool)
    ensures
        requires_filters(folder_flag(keep_folder_structure)) == if keep_folder_structure {
            "keep-folder-structure (-k) requires include (*ext) or exclude (#ext) filters"@
        } else {
            "partial-folder-structure (-pk) requires include (*ext) or exclude (#ext) filters"@
        },
{
    reveal_strlit("keep-folder-structure (-k)");
    reveal_strlit("partial-folder-structure (-pk)");
    reveal_strlit(" requires include (*ext) or exclude (#ext) filters");
    reveal_strlit("keep-folder-structure (-k) requires include (*ext) or exclude (#ext) filters");
    reveal_strlit(
        "partial-folder-structure (-pk) requires include (*ext) or exclude (#ext) filters",
    );
    let told = requires_filters(folder_flag(keep_folder_structure));
    if keep_folder_structure {
        assert(told
            =~= "keep-folder-structure (-k) requires include (*ext) or exclude (#ext) filters"@);
    } else {
        assert(told
            =~= "partial-folder-structure (-pk) requires include (*ext) or exclude (#ext) filters"@);
    }
}

} // verus!
