//! MD5 hashes of files.

use md5::Context;

use vstd::prelude::*;

use crate::error::IaGetError;
use crate::text;

verus! {

/// How many bytes of a file are read at a time.
pub const BUFFER_SIZE: usize = 8192;

/// A file above this size gets a progress bar while its hash is computed.
pub const LARGE_FILE_THRESHOLD: u64 = 2 * 1024 * 1024;

// ---------------------------------------------------------------------------
// Hexadecimal
// ---------------------------------------------------------------------------

/// The lower case hexadecimal digit for `d`.
pub open spec fn hex_digit(d: nat) -> char {
    if d < 10 {
        ('0' as u32 + d) as char
    } else {
        ('a' as u32 + (d - 10)) as char
    }
}

/// Bytes in lower case hexadecimal, two digits each.
pub open spec fn hex(bytes: Seq<u8>) -> Seq<char>
    decreases bytes.len(),
{
    if bytes.len() == 0 {
        Seq::empty()
    } else {
        hex(bytes.drop_last()) + seq![
            hex_digit((bytes.last() / 16) as nat),
            hex_digit((bytes.last() % 16) as nat),
        ]
    }
}

/// The lower case hexadecimal digit for `d`.
fn hex_digit_of(d: u8) -> (r: char)
    requires
        d < 16,
    ensures
        r == hex_digit(d as nat),
{
    if d < 10 {
        (48 + d) as char
    } else {
        (97 + (d - 10)) as char
    }
}

/// Writes bytes in lower case hexadecimal.
pub fn hex_of(bytes: &[u8]) -> (r: String)
    ensures
        r@ == hex(bytes@),
{
    let mut out: Vec<char> = Vec::new();
    let mut i: usize = 0;
    while i < bytes.len()
        invariant
            i <= bytes.len(),
            out@ == hex(bytes@.take(i as int)),
        decreases bytes.len() - i,
    {
        assert(bytes@.take(i + 1).drop_last() =~= bytes@.take(i as int));
        let ghost before = out@;
        out.push(hex_digit_of(bytes[i] / 16));
        out.push(hex_digit_of(bytes[i] % 16));
        assert(out@ =~= before + seq![
            hex_digit((bytes@[i as int] / 16) as nat),
            hex_digit((bytes@[i as int] % 16) as nat),
        ]);
        i = i + 1;
    }
    assert(bytes@.take(i as int) =~= bytes@);
    text::string_of(&out)
}

// ---------------------------------------------------------------------------
// Hashing
// ---------------------------------------------------------------------------

/// The state of a hash under computation.
#[verifier::external_type_specification]
#[verifier::external_body]
pub struct ExContext(Context);

/// The bytes that a context has consumed.
pub uninterp spec fn consumed(context: Context) -> Seq<u8>;

/// The MD5 digest of some bytes.
pub uninterp spec fn md5_digest(bytes: Seq<u8>) -> Seq<u8>;

/// `md5::Context::new` returns a context that has consumed nothing.
pub assume_specification[ Context::new ]() -> (context: Context)
    ensures
        consumed(context) == Seq::<u8>::empty(),
;

/// `md5::Context::consume` appends the data to what the context has consumed.
#[verifier::external_body]
fn consume(context: &mut Context, data: &[u8])
    ensures
        consumed(*final(context)) == consumed(*old(context)) + data@,
{
    context.consume(data)
}

/// `md5::Context::finalize` returns the digest of all the bytes that the context
/// has consumed, in sixteen bytes.
#[verifier::external_body]
fn finalize(context: Context) -> (r: [u8; 16])
    ensures
        r@ == md5_digest(consumed(context)),
{
    context.finalize().0
}

/// The computation of the hash of a file.
pub struct FileHasher {
    context: Context,
    processed: u64,
}

impl FileHasher {
    /// The bytes that have been read.
    pub closed spec fn view(&self) -> Seq<u8> {
        consumed(self.context)
    }

    /// Whether the bytes were counted.
    pub closed spec fn wf(&self) -> bool {
        self.processed == consumed(self.context).len()
    }

    /// Nothing has been read.
    pub fn new() -> (r: FileHasher)
        ensures
            r.wf(),
            r@ == Seq::<u8>::empty(),
    {
        FileHasher { context: Context::new(), processed: 0 }
    }

    /// Takes the next bytes of the file and returns how many have been read in
    /// all. `running` says whether the user has let the program go on.
    pub fn feed(&mut self, running: bool, data: &[u8]) -> (r: Result<u64, IaGetError>)
        requires
            old(self).wf(),
            old(self)@.len() + data@.len() <= u64::MAX,
        ensures
            final(self).wf(),
            match r {
                Ok(processed) => {
                    &&& running
                    &&& final(self)@ == old(self)@ + data@
                    &&& processed == final(self)@.len()
                },
                Err(e) => {
                    &&& !running
                    &&& final(self)@ == old(self)@
                    &&& e is FileSystem
                    &&& e.message() == "Hash calculation interrupted by signal"@
                },
            },
    {
        if !running {
            return Err(
                IaGetError::FileSystem("Hash calculation interrupted by signal".to_owned()),
            );
        }
        consume(&mut self.context, data);
        self.processed = self.processed + data.len() as u64;
        Ok(self.processed)
    }

    /// The hash of all that was read.
    pub fn finish(self) -> (r: String)
        ensures
            r@ == hex(md5_digest(self@)),
            r@.len() == 32,
    {
        let digest = finalize(self.context);
        proof {
            law_hex_has_two_digits_a_byte(digest@);
        }
        hex_of(digest.as_slice())
    }
}

/// Tests whether the hash of a file of this size takes long enough for a bar.
pub fn shows_hash_progress(file_size: u64) -> (r: bool)
    ensures
        r == (file_size > LARGE_FILE_THRESHOLD),
{
    file_size > LARGE_FILE_THRESHOLD
}

// ---------------------------------------------------------------------------
// Laws
// ---------------------------------------------------------------------------

/// What the user interrupted while a hash was computed is told as an
/// interruption by a signal.
pub proof fn law_hash_interruption_is_a_signal(e: IaGetError)
    requires
        e.message() == "Hash calculation interrupted by signal"@,
    ensures
        e.tells_signal(),
        e.tells_interruption(),
{
    reveal_strlit("interrupted by signal");
    reveal_strlit("Hash calculation interrupted by signal");
    let piece = "interrupted by signal"@;
    assert(e.message().subrange(17, 38) =~= piece) by {
        assert forall|j: int| 0 <= j < 21 implies e.message()[17 + j] == piece[j] by {}
    }
    assert(text::occurs_at(e.message(), piece, 17));
    crate::error::law_signal_is_interruption(e);
}

/// A digest is written with two digits for each byte.
pub proof fn law_hex_has_two_digits_a_byte(bytes: Seq<u8>)
    ensures
        hex(bytes).len() == 2 * bytes.len(),
        forall|i: int|
            0 <= i < hex(bytes).len() ==> '0' <= #[trigger] hex(bytes)[i] <= '9' || 'a' <= hex(
                bytes,
            )[i] <= 'f',
    decreases bytes.len(),
{
    if bytes.len() > 0 {
        law_hex_has_two_digits_a_byte(bytes.drop_last());
    }
}

/// Different digests are written differently.
pub proof fn law_hex_tells_bytes_apart(a: Seq<u8>, b: Seq<u8>)
    requires
        hex(a) == hex(b),
    ensures
        a == b,
    decreases a.len(),
{
    law_hex_has_two_digits_a_byte(a);
    law_hex_has_two_digits_a_byte(b);
    assert(a.len() == b.len());
    if a.len() > 0 {
        let n = hex(a).len() as int;
        assert(hex(a)[n - 1] == hex_digit((a.last() % 16) as nat));
        assert(hex(b)[n - 1] == hex_digit((b.last() % 16) as nat));
        assert(hex(a)[n - 2] == hex_digit((a.last() / 16) as nat));
        assert(hex(b)[n - 2] == hex_digit((b.last() / 16) as nat));
        assert(a.last() == b.last());
        assert(hex(a.drop_last()) =~= hex(a).take(n - 2)) by {
            law_hex_has_two_digits_a_byte(a.drop_last());
        }
        assert(hex(b.drop_last()) =~= hex(b).take(n - 2)) by {
            law_hex_has_two_digits_a_byte(b.drop_last());
        }
        law_hex_tells_bytes_apart(a.drop_last(), b.drop_last());
        assert(a =~= a.drop_last().push(a.last()));
        assert(b =~= b.drop_last().push(b.last()));
    } else {
        assert(a =~= b);
    }
}

/// Each byte is written as its two digits, the higher one first, in the order of the
/// bytes.
pub proof fn law_hex_writes_byte_by_byte(bytes: Seq<u8>, i: int)
    requires
        0 <= i < bytes.len(),
    ensures
        ({
            let digits = seq![
                '0', '1', '2', '3', '4', '5', '6', '7', '8', '9', 'a', 'b', 'c', 'd', 'e', 'f',
            ];
            &&& hex(bytes)[2 * i] == digits[(bytes[i] / 16) as int]
            &&& hex(bytes)[2 * i + 1] == digits[(bytes[i] % 16) as int]
        }),
    decreases bytes.len(),
{
    let head = bytes.drop_last();
    law_hex_has_two_digits_a_byte(head);
    law_hex_has_two_digits_a_byte(bytes);
    if i < head.len() {
        law_hex_writes_byte_by_byte(head, i);
        assert(hex(bytes)[2 * i] == hex(head)[2 * i]);
        assert(hex(bytes)[2 * i + 1] == hex(head)[2 * i + 1]);
        assert(head[i] == bytes[i]);
    } else {
        assert(hex(bytes)[2 * i] == hex_digit((bytes[i] / 16) as nat));
        assert(hex(bytes)[2 * i + 1] == hex_digit((bytes[i] % 16) as nat));
        assert(bytes[i] / 16 < 16 && bytes[i] % 16 < 16);
    }
}

} // verus!
