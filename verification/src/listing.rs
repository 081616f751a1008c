//! The files of an item, as its metadata lists them.

use vstd::prelude::*;

use crate::numbers;
use crate::text;
use crate::units;

verus! {

/// A file of an item.
#[derive(Debug, Clone, PartialEq, Eq)]
pub struct XmlFile {
    pub name: String,
    pub source: String,
    pub mtime: Option<u64>,
    pub size: Option<u64>,
    pub format: Option<String>,
    pub rotation: Option<u32>,
    pub md5: Option<String>,
    pub crc32: Option<String>,
    pub sha1: Option<String>,
    pub btih: Option<String>,
    pub summation: Option<String>,
    pub original: Option<String>,
}

/// The files of an item.
#[derive(Debug, Clone, PartialEq, Eq)]
pub struct XmlFiles {
    pub files: Vec<XmlFile>,
}

// ---------------------------------------------------------------------------
// Rows
// ---------------------------------------------------------------------------

/// The size of a file for people.
pub open spec fn size_label(size: Option<u64>) -> Seq<char> {
    match size {
        Some(n) => units::size_text(n as nat),
        None => "unknown"@,
    }
}

/// The row of a file: its size, set to the right in nine columns, and its name.
pub open spec fn file_row(file: XmlFile) -> Seq<char> {
    numbers::padded(size_label(file.size), 9, ' ') + " "@ + file.name@
}

/// The rows of all files, in their order.
pub fn list_file_rows(files: &XmlFiles) -> (r: Vec<String>)
    ensures
        r@.len() == files.files@.len(),
        forall|i: int| 0 <= i < r@.len() ==> (#[trigger] r@[i])@ == file_row(files.files@[i]),
{
    let mut rows: Vec<String> = Vec::new();
    let mut i: usize = 0;
    while i < files.files.len()
        invariant
            i <= files.files.len(),
            rows@.len() == i,
            forall|j: int| 0 <= j < i ==> (#[trigger] rows@[j])@ == file_row(files.files@[j]),
        decreases files.files.len() - i,
    {
        let size = match files.files[i].size {
            Some(n) => units::format_size(n),
            None => "unknown".to_owned(),
        };
        let chars = text::chars_of(size.as_str());
        let mut row = numbers::pad_left(&chars, 9, ' ');
        units::append_text(&mut row, " ");
        units::append_text(&mut row, files.files[i].name.as_str());
        rows.push(text::string_of(&row));
        i = i + 1;
    }
    rows
}

// ---------------------------------------------------------------------------
// The summary
// ---------------------------------------------------------------------------

/// The sizes of the files together, as far as they are known.
pub open spec fn known_size(files: Seq<XmlFile>) -> nat
    decreases files.len(),
{
    if files.len() == 0 {
        0
    } else {
        known_size(files.drop_last()) + (match files.last().size {
            Some(n) => n as nat,
            None => 0,
        })
    }
}

/// How many files are of unknown size.
pub open spec fn unknown_count(files: Seq<XmlFile>) -> nat
    decreases files.len(),
{
    if files.len() == 0 {
        0
    } else {
        unknown_count(files.drop_last()) + (if files.last().size is None {
            1nat
        } else {
            0
        })
    }
}

/// What is said of the files together.
pub open spec fn summary_text(files: Seq<XmlFile>) -> Seq<char> {
    let count = numbers::decimal(files.len()) + (if files.len() == 1 {
        " file, "@
    } else {
        " files, "@
    }) + units::size_text(known_size(files));
    let unknown = unknown_count(files);
    if unknown == 0 {
        count + " total"@
    } else {
        count + " total known size, "@ + numbers::decimal(unknown) + (if unknown == 1 {
            " unknown size"@
        } else {
            " unknown sizes"@
        })
    }
}

/// The first files are together no larger than all.
proof fn lemma_known_size_grows(files: Seq<XmlFile>, n: int)
    requires
        0 <= n <= files.len(),
    ensures
        known_size(files.take(n)) <= known_size(files),
    decreases files.len(),
{
    if files.len() > 0 {
        let head = files.drop_last();
        if n == files.len() {
            lemma_known_size_grows(head, n - 1);
            assert(files.take(n) =~= files);
        } else {
            lemma_known_size_grows(head, n);
            assert(files.take(n) =~= head.take(n));
        }
    } else {
        assert(files.take(n) =~= files);
    }
}

/// The sizes of the files together, as far as they are known, where that number
/// can be held.
pub fn total_known_size(files: &XmlFiles) -> (r: Option<u64>)
    ensures
        match r {
            Some(total) => total == known_size(files.files@),
            None => known_size(files.files@) > u64::MAX,
        },
{
    let ghost all = files.files@;
    let mut total: u64 = 0;
    let mut i: usize = 0;
    while i < files.files.len()
        invariant
            i <= files.files.len(),
            all == files.files@,
            total == known_size(all.take(i as int)),
        decreases files.files.len() - i,
    {
        assert(all.take(i + 1).drop_last() =~= all.take(i as int));
        if let Some(n) = files.files[i].size {
            if n > u64::MAX - total {
                proof {
                    lemma_known_size_grows(all, i + 1);
                }
                return None;
            }
            total = total + n;
        }
        i = i + 1;
    }
    assert(all.take(i as int) =~= all);
    Some(total)
}

/// Says how many files there are and how large they are together.
pub fn list_summary(files: &XmlFiles) -> (r: String)
    requires
        known_size(files.files@) <= u64::MAX,
    ensures
        r@ == summary_text(files.files@),
{
    let ghost all = files.files@;
    let mut unknown: u64 = 0;
    let mut i: usize = 0;
    while i < files.files.len()
        invariant
            i <= files.files.len(),
            all == files.files@,
            unknown == unknown_count(all.take(i as int)),
            unknown <= i,
        decreases files.files.len() - i,
    {
        assert(all.take(i + 1).drop_last() =~= all.take(i as int));
        if files.files[i].size.is_none() {
            unknown = unknown + 1;
        }
        i = i + 1;
    }
    assert(all.take(i as int) =~= all);
    let total = match total_known_size(files) {
        Some(total) => total,
        None => 0,
    };
    let mut out = numbers::decimal_of(files.files.len() as u64);
    if files.files.len() == 1 {
        units::append_text(&mut out, " file, ");
    } else {
        units::append_text(&mut out, " files, ");
    }
    let size = units::format_size(total);
    units::append_text(&mut out, size.as_str());
    if unknown == 0 {
        units::append_text(&mut out, " total");
    } else {
        units::append_text(&mut out, " total known size, ");
        units::append_number(&mut out, unknown);
        if unknown == 1 {
            units::append_text(&mut out, " unknown size");
        } else {
            units::append_text(&mut out, " unknown sizes");
        }
    }
    text::string_of(&out)
}

/// A row is the size, set to the right in nine columns or more, a space and the
/// name: it ends with the name, which a space precedes, and what stands before is
/// the size behind nothing but spaces.
pub proof fn law_rows_show_size_and_name(file: XmlFile)
    ensures
        ({
            let row = file_row(file);
            let size = match file.size {
                Some(n) => units::size_text(n as nat),
                None => seq!['u', 'n', 'k', 'n', 'o', 'w', 'n'],
            };
            let blank = if size.len() < 9 {
                9 - size.len()
            } else {
                0
            };
            &&& row.len() == blank + size.len() + 1 + file.name@.len()
            &&& row.skip(blank + size.len() + 1) == file.name@
            &&& row[blank + size.len()] == ' '
            &&& row.subrange(blank, blank + size.len()) == size
            &&& forall|i: int| 0 <= i < blank ==> #[trigger] row[i] == ' '
        }),
{
    reveal_strlit("unknown");
    reveal_strlit(" ");
    assert("unknown"@ =~= seq!['u', 'n', 'k', 'n', 'o', 'w', 'n']);
    let row = file_row(file);
    let size = size_label(file.size);
    let blank = if size.len() < 9 {
        9 - size.len()
    } else {
        0
    };
    assert(row.skip(blank + size.len() + 1) =~= file.name@);
    assert(row.subrange(blank, blank + size.len()) =~= size);
}

/// Every file counts: its size where it is known, and else as one of unknown size.
pub proof fn law_every_file_counts(files: Seq<XmlFile>, file: XmlFile)
    ensures
        known_size(Seq::empty()) == 0,
        unknown_count(Seq::empty()) == 0,
        file.size is Some ==> known_size(files.push(file)) == known_size(files) + file.size->0
            && unknown_count(files.push(file)) == unknown_count(files),
        file.size is None ==> known_size(files.push(file)) == known_size(files) && unknown_count(
            files.push(file),
        ) == unknown_count(files) + 1,
{
    assert(files.push(file).drop_last() =~= files);
}

/// The summary tells how many files there are and how large they are together, and
/// how many are of unknown size where there are such.
pub proof fn law_summary_tells_numbers_and_sizes(files: Seq<XmlFile>)
    ensures
        ({
            let front = numbers::decimal(files.len()) + (if files.len() == 1 {
                " file, "@
            } else {
                " files, "@
            }) + units::size_text(known_size(files));
            summary_text(files) == if unknown_count(files) == 0 {
                front + " total"@
            } else if unknown_count(files) == 1 {
                front + " total known size, "@ + numbers::decimal(1) + " unknown size"@
            } else {
                front + " total known size, "@ + numbers::decimal(unknown_count(files))
                    + " unknown sizes"@
            }
        }),
{
}

} // verus!
