//! What the program tells its user, line by line.

use vstd::prelude::*;

use crate::numbers;
use crate::paint;
use crate::paint::{Line, Tone};
use crate::text;

verus! {

// ---------------------------------------------------------------------------
// The lines of a file
// ---------------------------------------------------------------------------

/// The line with the name of a file.
pub fn file_name_line(file_path: &str) -> (r: Line)
    ensures
        r@ == seq![
            (Tone::Mark, "▣"@),
            (Tone::Plain, "  "@),
            (Tone::Label, "Filename"@),
            (Tone::Plain, "     "@),
            (Tone::Strong, file_path@),
        ],
{
    Line::new()
        .and(Tone::Mark, "▣")
        .plain("  ")
        .and(Tone::Label, "Filename")
        .plain("     ")
        .and(Tone::Strong, file_path)
}

/// The line with the number of a file among all; `index` counts from 0.
pub fn file_count_line(index: usize, total_files: usize) -> (r: Line)
    requires
        index < usize::MAX,
    ensures
        r@ == seq![
            (Tone::Frame, "├╼"@),
            (Tone::Plain, " "@),
            (Tone::Label, "Count"@),
            (Tone::Plain, "        "@),
            (Tone::Number, "#"@),
            (Tone::Plain, " "@),
            (Tone::Strong, numbers::decimal((index + 1) as nat)),
            (Tone::Plain, " of "@),
            (Tone::Strong, numbers::decimal(total_files as nat)),
        ],
{
    let number = numbers::decimal_string((index + 1) as u64);
    let total_files_text = numbers::decimal_string(total_files as u64);
    Line::new()
        .and(Tone::Frame, "├╼")
        .plain(" ")
        .and(Tone::Label, "Count")
        .plain("        ")
        .and(Tone::Number, "#")
        .plain(" ")
        .and(Tone::Strong, number.as_str())
        .plain(" of ")
        .and(Tone::Strong, total_files_text.as_str())
}

/// What is said of a file that is already there.
pub open spec fn already_downloaded() -> Seq<(Tone, Seq<char>)> {
    seq![
        (Tone::Frame, "╰╼"@),
        (Tone::Plain, " "@),
        (Tone::Label, "Downloaded"@),
        (Tone::Plain, "   "@),
        (Tone::Good, "✔"@),
    ]
}

/// Said of a file that is already there.
pub fn already_downloaded_line() -> (r: Line)
    ensures
        r@ == already_downloaded(),
{
    Line::new()
        .and(Tone::Frame, "╰╼")
        .plain(" ")
        .and(Tone::Label, "Downloaded")
        .plain("   ")
        .and(Tone::Good, "✔")
}

/// What is said of a file of which a part is there.
pub open spec fn partial() -> Seq<(Tone, Seq<char>)> {
    seq![
        (Tone::Frame, "├╼"@),
        (Tone::Plain, " "@),
        (Tone::Label, "Partial"@),
        (Tone::Plain, "      "@),
        (Tone::Warning, "▲"@),
    ]
}

/// Said of a file of which a part is there.
pub fn partial_line() -> (r: Line)
    ensures
        r@ == partial(),
{
    Line::new()
        .and(Tone::Frame, "├╼")
        .plain(" ")
        .and(Tone::Label, "Partial")
        .plain("      ")
        .and(Tone::Warning, "▲")
}

/// What is said where the hash of a file could not be computed.
pub open spec fn hash_failed(message: Seq<char>) -> Seq<(Tone, Seq<char>)> {
    seq![
        (Tone::Frame, "╰╼"@),
        (Tone::Plain, " "@),
        (Tone::Bad, "Failed"@),
        (Tone::Plain, " to calculate MD5 hash: "@),
        (Tone::Plain, message),
    ]
}

/// Said where the hash of a file could not be computed.
pub fn hash_failed_line(message: &str) -> (r: Line)
    ensures
        r@ == hash_failed(message@),
{
    Line::new()
        .and(Tone::Frame, "╰╼")
        .plain(" ")
        .and(Tone::Bad, "Failed")
        .plain(" to calculate MD5 hash: ")
        .plain(message)
}

/// What is said of a downloaded file of which no hash is known.
pub open spec fn no_hash() -> Seq<(Tone, Seq<char>)> {
    seq![
        (Tone::Faint, "-"@),
        (Tone::Plain, " "@),
        (Tone::Faint, "No MD5 hash provided for verification."@),
    ]
}

/// Said of a downloaded file of which no hash is known.
pub fn no_hash_line() -> (r: Line)
    ensures
        r@ == no_hash(),
{
    Line::new()
        .and(Tone::Faint, "-")
        .plain(" ")
        .and(Tone::Faint, "No MD5 hash provided for verification.")
}

/// What is said of a downloaded file whose hash is the expected one.
pub open spec fn hash_matches(hash: Seq<char>) -> Seq<(Tone, Seq<char>)> {
    seq![
        (Tone::Frame, "╰╼"@),
        (Tone::Plain, " "@),
        (Tone::Label, "Hash"@),
        (Tone::Plain, "         "@),
        (Tone::Good, "✔"@),
        (Tone::Plain, " "@),
        (Tone::Faint, "("@ + hash + ")"@),
    ]
}

/// Said of a downloaded file whose hash is the expected one.
pub fn hash_matches_line(hash: &str) -> (r: Line)
    ensures
        r@ == hash_matches(hash@),
{
    let wrapped = text::between("(", hash, ")");
    Line::new()
        .and(Tone::Frame, "╰╼")
        .plain(" ")
        .and(Tone::Label, "Hash")
        .plain("         ")
        .and(Tone::Good, "✔")
        .plain(" ")
        .and(Tone::Faint, wrapped.as_str())
}

/// What is said of a downloaded file whose hash is not the expected one.
pub open spec fn hash_differs(hash: Seq<char>, expected: Seq<char>) -> Seq<(Tone, Seq<char>)> {
    seq![
        (Tone::Frame, "╰╼"@),
        (Tone::Plain, " "@),
        (Tone::Label, "Hash"@),
        (Tone::Plain, "         "@),
        (Tone::Bad, "✘"@),
        (Tone::Plain, " ("@),
        (Tone::Wrong, hash),
        (Tone::Plain, ") Expected ("@),
        (Tone::Faint, expected),
        (Tone::Plain, ")"@),
    ]
}

/// Said of a downloaded file whose hash is not the expected one.
pub fn hash_differs_line(hash: &str, expected: &str) -> (r: Line)
    ensures
        r@ == hash_differs(hash@, expected@),
{
    Line::new()
        .and(Tone::Frame, "╰╼")
        .plain(" ")
        .and(Tone::Label, "Hash")
        .plain("         ")
        .and(Tone::Bad, "✘")
        .plain(" (")
        .and(Tone::Wrong, hash)
        .plain(") Expected (")
        .and(Tone::Faint, expected)
        .plain(")")
}

/// What is said of a finished transfer.
pub open spec fn downloaded(size: Seq<char>, duration: Seq<char>, rate: Seq<char>) -> Seq<
    (Tone, Seq<char>),
> {
    seq![
        (Tone::Frame, "├╼"@),
        (Tone::Plain, " "@),
        (Tone::Label, "Downloaded"@),
        (Tone::Plain, "   "@),
        (Tone::Good, "↓"@),
        (Tone::Plain, " "@),
        (Tone::Strong, size),
        (Tone::Plain, " in "@),
        (Tone::Strong, duration),
        (Tone::Plain, " ("@),
        (Tone::Plain, rate),
        (Tone::Plain, "/s)"@),
    ]
}

/// Said of a finished transfer: the size of what came, the time it took and
/// the rate.
pub fn downloaded_line(size: &str, duration: &str, rate: &str) -> (r: Line)
    ensures
        r@ == downloaded(size@, duration@, rate@),
{
    Line::new()
        .and(Tone::Frame, "├╼")
        .plain(" ")
        .and(Tone::Label, "Downloaded")
        .plain("   ")
        .and(Tone::Good, "↓")
        .plain(" ")
        .and(Tone::Strong, size)
        .plain(" in ")
        .and(Tone::Strong, duration)
        .plain(" (")
        .plain(rate)
        .plain("/s)")
}

// ---------------------------------------------------------------------------
// The lines of failures
// ---------------------------------------------------------------------------

/// What is said where a transfer is given up.
pub open spec fn retries_exceeded(max_retries: nat) -> Seq<(Tone, Seq<char>)> {
    seq![
        (Tone::Frame, "├╼"@),
        (Tone::Plain, " "@),
        (Tone::Bad, "Failed"@),
        (Tone::Plain, "      "@),
        (Tone::Bad, "✘"@),
        (Tone::Plain, " Maximum retries ("@),
        (Tone::Plain, numbers::decimal(max_retries)),
        (Tone::Plain, ") exceeded"@),
    ]
}

/// Said where a transfer is given up.
pub fn retries_exceeded_line(max_retries: u32) -> (r: Line)
    ensures
        r@ == retries_exceeded(max_retries as nat),
{
    let max_retries_text = numbers::decimal_string(max_retries as u64);
    Line::new()
        .and(Tone::Frame, "├╼")
        .plain(" ")
        .and(Tone::Bad, "Failed")
        .plain("      ")
        .and(Tone::Bad, "✘")
        .plain(" Maximum retries (")
        .plain(max_retries_text.as_str())
        .plain(") exceeded")
}

/// What is said where a transfer is tried again.
pub open spec fn retrying(
    what: Seq<char>,
    attempt: nat,
    max_retries: nat,
    message: Seq<char>,
) -> Seq<(Tone, Seq<char>)> {
    seq![
        (Tone::Frame, "├╼"@),
        (Tone::Plain, " "@),
        (Tone::Warning, "Retry"@),
        (Tone::Plain, "      "@),
        (Tone::Warning, "⟳"@),
        (Tone::Plain, " "@),
        (Tone::Plain, what),
        (Tone::Plain, " (attempt "@),
        (Tone::Plain, numbers::decimal(attempt)),
        (Tone::Plain, "/"@),
        (Tone::Plain, numbers::decimal(max_retries)),
        (Tone::Plain, "): "@),
        (Tone::Plain, message),
    ]
}

/// Said where a transfer is tried again; `what` names the kind of error.
pub fn retry_line(what: &str, attempt: u32, max_retries: u32, message: &str) -> (r: Line)
    ensures
        r@ == retrying(what@, attempt as nat, max_retries as nat, message@),
{
    let attempt_text = numbers::decimal_string(attempt as u64);
    let max_retries_text = numbers::decimal_string(max_retries as u64);
    Line::new()
        .and(Tone::Frame, "├╼")
        .plain(" ")
        .and(Tone::Warning, "Retry")
        .plain("      ")
        .and(Tone::Warning, "⟳")
        .plain(" ")
        .plain(what)
        .plain(" (attempt ")
        .plain(attempt_text.as_str())
        .plain("/")
        .plain(max_retries_text.as_str())
        .plain("): ")
        .plain(message)
}

/// What is said before a pause of whole seconds.
pub open spec fn waiting(seconds: nat) -> Seq<(Tone, Seq<char>)> {
    seq![
        (Tone::Frame, "├╼"@),
        (Tone::Plain, " "@),
        (Tone::Label, "Wait"@),
        (Tone::Plain, "      Waiting "@),
        (Tone::Plain, numbers::decimal(seconds)),
        (Tone::Plain, ".0s before retry..."@),
    ]
}

/// Said before a transfer is tried again after a pause of whole seconds.
pub fn wait_line(seconds: u64) -> (r: Line)
    ensures
        r@ == waiting(seconds as nat),
{
    let seconds_text = numbers::decimal_string(seconds);
    Line::new()
        .and(Tone::Frame, "├╼")
        .plain(" ")
        .and(Tone::Label, "Wait")
        .plain("      Waiting ")
        .plain(seconds_text.as_str())
        .plain(".0s before retry...")
}

/// Said when the user interrupts the program.
pub fn signal_line() -> (r: Line)
    ensures
        r@ == seq![
            (Tone::Plain, "\n"@),
            (Tone::Bad, "✘"@),
            (Tone::Plain, " Received Ctrl+C, finishing current operation..."@),
        ],
{
    Line::new()
        .plain("\n")
        .and(Tone::Bad, "✘")
        .plain(" Received Ctrl+C, finishing current operation...")
}

/// Said where the remaining files are left for another time.
pub fn interrupted_line() -> (r: Line)
    ensures
        r@ == seq![
            (Tone::Plain, "\n"@),
            (Tone::Bad, "✘"@),
            (Tone::Plain, " Download interrupted. Run the command again to resume remaining files."@),
        ],
{
    Line::new()
        .plain("\n")
        .and(Tone::Bad, "✘")
        .plain(" Download interrupted. Run the command again to resume remaining files.")
}

// ---------------------------------------------------------------------------
// The lines about the item
// ---------------------------------------------------------------------------

/// Said while a URL is looked at.
pub fn processing_line(url: &str) -> (r: Line)
    ensures
        r@ == seq![
            (Tone::Plain, "Processing archive.org URL: "@),
            (Tone::Strong, url@),
        ],
{
    Line::new()
        .plain("Processing archive.org URL: ")
        .and(Tone::Strong, url)
}

/// Said of a request that cannot be met.
pub fn rejected_line(message: &str) -> (r: Line)
    ensures
        r@ == seq![
            (Tone::Bad, "✘"@),
            (Tone::Plain, " "@),
            (Tone::Plain, message@),
        ],
{
    Line::new()
        .and(Tone::Bad, "✘")
        .plain(" ")
        .plain(message)
}

/// Said where the details page cannot be reached.
pub fn url_inaccessible_line(url: &str) -> (r: Line)
    ensures
        r@ == seq![
            (Tone::Bad, "✘"@),
            (Tone::Plain, " Archive.org URL not accessible: "@),
            (Tone::Strong, url@),
        ],
{
    Line::new()
        .and(Tone::Bad, "✘")
        .plain(" Archive.org URL not accessible: ")
        .and(Tone::Strong, url)
}

/// Said while the list of files is fetched.
pub fn metadata_line(url: &str) -> (r: Line)
    ensures
        r@ == seq![
            (Tone::Work, "⚙"@),
            (Tone::Plain, " Accessing XML metadata: "@),
            (Tone::Strong, url@),
        ],
{
    Line::new()
        .and(Tone::Work, "⚙")
        .plain(" Accessing XML metadata: ")
        .and(Tone::Strong, url)
}

/// Said where the list of files cannot be reached.
pub fn metadata_inaccessible_line(url: &str) -> (r: Line)
    ensures
        r@ == seq![
            (Tone::Bad, "✘"@),
            (Tone::Plain, " XML metadata not accessible: "@),
            (Tone::Strong, url@),
        ],
{
    Line::new()
        .and(Tone::Bad, "✘")
        .plain(" XML metadata not accessible: ")
        .and(Tone::Strong, url)
}

/// Said while the list of files is read.
pub fn parsing_line() -> (r: Line)
    ensures
        r@ == seq![
            (Tone::Work, "⚙"@),
            (Tone::Plain, " "@),
            (Tone::Strong, "Parsing archive metadata..."@),
        ],
{
    Line::new()
        .and(Tone::Work, "⚙")
        .plain(" ")
        .and(Tone::Strong, "Parsing archive metadata...")
}

/// Said of a flag that cannot be used here.
pub fn flag_rejected_line(message: &str) -> (r: Line)
    ensures
        r@ == seq![
            (Tone::Bad, "✘"@),
            (Tone::Plain, " "@),
            (Tone::Strong, message@),
        ],
{
    Line::new()
        .and(Tone::Bad, "✘")
        .plain(" ")
        .and(Tone::Strong, message)
}

/// Said of how many files pass the filters.
pub fn filtered_line(kept: usize, before: usize, filters: &str) -> (r: Line)
    ensures
        r@ == seq![
            (Tone::Work, "⚙"@),
            (Tone::Plain, " Filtered to "@),
            (Tone::Strong, numbers::decimal(kept as nat)),
            (Tone::Plain, " of "@),
            (Tone::Strong, numbers::decimal(before as nat)),
            (Tone::Plain, " files matching "@),
            (Tone::Strong, filters@),
        ],
{
    let kept_text = numbers::decimal_string(kept as u64);
    let before_text = numbers::decimal_string(before as u64);
    Line::new()
        .and(Tone::Work, "⚙")
        .plain(" Filtered to ")
        .and(Tone::Strong, kept_text.as_str())
        .plain(" of ")
        .and(Tone::Strong, before_text.as_str())
        .plain(" files matching ")
        .and(Tone::Strong, filters)
}

/// Said where no file passes the filters.
pub fn no_files_line() -> (r: Line)
    ensures
        r@ == seq![
            (Tone::Bad, "✘"@),
            (Tone::Plain, " No files matched the requested filters"@),
        ],
{
    Line::new()
        .and(Tone::Bad, "✘")
        .plain(" No files matched the requested filters")
}

/// Said above the list of files.
pub fn listing_line(summary: &str) -> (r: Line)
    ensures
        r@ == seq![
            (Tone::Good, "✔"@),
            (Tone::Plain, " Archive has "@),
            (Tone::Strong, summary@),
        ],
{
    Line::new()
        .and(Tone::Good, "✔")
        .plain(" Archive has ")
        .and(Tone::Strong, summary)
}

/// Said before the downloads start.
pub fn ready_line(files: usize) -> (r: Line)
    ensures
        r@ == seq![
            (Tone::Good, "✔"@),
            (Tone::Plain, " "@),
            (Tone::Strong, "Ready"@),
            (Tone::Plain, " to download "@),
            (Tone::Strong, numbers::decimal(files as nat)),
            (Tone::Plain, " files from archive.org "@),
            (Tone::Notice, "★"@),
        ],
{
    let files_text = numbers::decimal_string(files as u64);
    Line::new()
        .and(Tone::Good, "✔")
        .plain(" ")
        .and(Tone::Strong, "Ready")
        .plain(" to download ")
        .and(Tone::Strong, files_text.as_str())
        .plain(" files from archive.org ")
        .and(Tone::Notice, "★")
}

/// Said of a file that gets another name here.
pub fn sanitized_line(name: &str, local_path: &str) -> (r: Line)
    ensures
        r@ == seq![
            (Tone::Warning, "⚠"@),
            (Tone::Plain, " "@),
            (Tone::Notice, "Sanitized:"@),
            (Tone::Plain, " "@),
            (Tone::Faint, name@),
            (Tone::Plain, " → "@),
            (Tone::Strong, local_path@),
        ],
{
    Line::new()
        .and(Tone::Warning, "⚠")
        .plain(" ")
        .and(Tone::Notice, "Sanitized:")
        .plain(" ")
        .and(Tone::Faint, name)
        .plain(" → ")
        .and(Tone::Strong, local_path)
}

/// Said of how many files get another name here.
pub fn sanitized_count_line(count: usize) -> (r: Line)
    ensures
        r@ == seq![
            (Tone::Plain, "\n"@),
            (Tone::Good, "✓"@),
            (Tone::Plain, " "@),
            (Tone::Strong, "Sanitized"@),
            (Tone::Plain, " "@),
            (Tone::Strong, numbers::decimal(count as nat)),
            (Tone::Plain, " file"@),
            (Tone::Plain, if count == 1 { ""@ } else { "s"@ }),
            (Tone::Plain, " for filesystem compatibility"@),
        ],
{
    let count_text = numbers::decimal_string(count as u64);
    let plural = if count == 1 {
        ""
    } else {
        "s"
    };
    Line::new()
        .plain("\n")
        .and(Tone::Good, "✓")
        .plain(" ")
        .and(Tone::Strong, "Sanitized")
        .plain(" ")
        .and(Tone::Strong, count_text.as_str())
        .plain(" file")
        .plain(plural)
        .plain(" for filesystem compatibility")
}

/// The lines that introduce the file `index` of all: an empty one, its name and
/// its number.
pub open spec fn file_header(index: nat, total_files: nat, file_path: Seq<char>) -> Seq<
    Seq<(Tone, Seq<char>)>,
> {
    seq![
        seq![(Tone::Plain, " "@)],
        seq![
            (Tone::Mark, "▣"@),
            (Tone::Plain, "  "@),
            (Tone::Label, "Filename"@),
            (Tone::Plain, "     "@),
            (Tone::Strong, file_path),
        ],
        seq![
            (Tone::Frame, "├╼"@),
            (Tone::Plain, " "@),
            (Tone::Label, "Count"@),
            (Tone::Plain, "        "@),
            (Tone::Number, "#"@),
            (Tone::Plain, " "@),
            (Tone::Strong, numbers::decimal(index + 1)),
            (Tone::Plain, " of "@),
            (Tone::Strong, numbers::decimal(total_files)),
        ],
    ]
}

/// The lines that introduce a file: an empty one, its name and its number;
/// `index` counts from 0.
pub fn format_file_header_lines(index: usize, total_files: usize, file_path: &str) -> (r: Vec<Line>)
    requires
        index < usize::MAX,
    ensures
        paint::line_views(r@) == file_header(index as nat, total_files as nat, file_path@),
{
    let mut lines: Vec<Line> = Vec::new();
    lines.push(Line::new().plain(" "));
    lines.push(file_name_line(file_path));
    lines.push(file_count_line(index, total_files));
    assert(paint::line_views(lines@) =~= file_header(
        index as nat,
        total_files as nat,
        file_path@,
    ));
    lines
}

/// The lines that introduce the first `n` files, one file after the other.
pub open spec fn file_headers(file_paths: Seq<Seq<char>>, total_files: nat, n: nat) -> Seq<
    Seq<(Tone, Seq<char>)>,
>
    decreases n,
{
    if n == 0 {
        Seq::empty()
    } else {
        file_headers(file_paths, total_files, (n - 1) as nat) + file_header(
            (n - 1) as nat,
            total_files,
            file_paths[n - 1],
        )
    }
}

/// The lines that introduce all files before they are downloaded in parallel.
pub fn parallel_header_lines(file_paths: &[String], total_files: usize) -> (r: Vec<Line>)
    ensures
        paint::line_views(r@) == file_headers(
            text::texts(file_paths@),
            total_files as nat,
            file_paths@.len(),
        ),
{
    let mut out: Vec<Line> = Vec::new();
    let ghost all = text::texts(file_paths@);
    let mut i: usize = 0;
    assert(paint::line_views(out@) =~= Seq::empty());
    while i < file_paths.len()
        invariant
            i <= file_paths.len(),
            all == text::texts(file_paths@),
            paint::line_views(out@) == file_headers(all, total_files as nat, i as nat),
        decreases file_paths.len() - i,
    {
        let mut lines = format_file_header_lines(i, total_files, file_paths[i].as_str());
        let ghost before = paint::line_views(out@);
        let ghost more = paint::line_views(lines@);
        out.append(&mut lines);
        assert(paint::line_views(out@) =~= before + more);
        assert(file_paths@[i as int]@ == all[i as int]);
        i = i + 1;
    }
    out
}

/// The lines that introduce a file show its path as it is, and its number and the
/// number of all, counted from one.
pub proof fn law_headers_show_path_and_number(index: nat, total_files: nat, file_path: Seq<char>)
    ensures
        ({
            let lines = file_header(index, total_files, file_path);
            &&& lines.len() == 3
            &&& paint::plain_text(lines[1]) == "▣"@ + "  "@ + "Filename"@ + "     "@ + file_path
            &&& paint::plain_text(lines[2]) == "├╼"@ + " "@ + "Count"@ + "        "@ + "#"@ + " "@
                + numbers::decimal(index + 1) + " of "@ + numbers::decimal(total_files)
        }),
{
    let lines = file_header(index, total_files, file_path);
    reveal_with_fuel(paint::plain_text, 10);
    let a = lines[1];
    assert(a.drop_last().drop_last().drop_last().drop_last().drop_last().len() == 0);
    assert(paint::plain_text(a) =~= "▣"@ + "  "@ + "Filename"@ + "     "@ + file_path);
    let b = lines[2];
    assert(paint::plain_text(b) =~= "├╼"@ + " "@ + "Count"@ + "        "@ + "#"@ + " "@
        + numbers::decimal(index + 1) + " of "@ + numbers::decimal(total_files));
}

/// All files are introduced in their order, each with three lines and under its own
/// number.
pub proof fn law_files_are_introduced_in_order(
    file_paths: Seq<Seq<char>>,
    total_files: nat,
    n: nat,
    i: int,
)
    requires
        n <= file_paths.len(),
        0 <= i < n,
    ensures
        file_headers(file_paths, total_files, n).len() == 3 * n,
        file_headers(file_paths, total_files, n).subrange(3 * i, 3 * i + 3) == file_header(
            i as nat,
            total_files,
            file_paths[i],
        ),
    decreases n,
{
    let before = file_headers(file_paths, total_files, (n - 1) as nat);
    let all = file_headers(file_paths, total_files, n);
    if n > 1 {
        law_files_are_introduced_in_order(
            file_paths,
            total_files,
            (n - 1) as nat,
            if i < n - 1 {
                i
            } else {
                0
            },
        );
    }
    if i < n - 1 {
        assert(all.subrange(3 * i, 3 * i + 3) =~= before.subrange(3 * i, 3 * i + 3));
    } else {
        assert(all.subrange(3 * i, 3 * i + 3) =~= file_header(i as nat, total_files, file_paths[i]));
    }
}

} // verus!
