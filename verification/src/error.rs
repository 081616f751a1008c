//! Errors of the library.

use vstd::prelude::*;

use crate::text;

verus! {

/// What can go wrong. Each kind carries a message for the user.
#[derive(Debug, Clone, PartialEq, Eq)]
pub enum IaGetError {
    /// A request failed or could not be made.
    Network(String),
    /// Reading or writing local files failed, or was interrupted.
    FileSystem(String),
    /// The configuration file holds a value that cannot be used.
    Config(String),
    /// An argument is not an archive.org URL or not a valid filter.
    UrlFormat(String),
    /// The metadata of the archive cannot be read.
    XmlParsing(String),
}

impl IaGetError {
    /// The text of the message.
    pub open spec fn message(self) -> Seq<char> {
        match self {
            IaGetError::Network(m) => m@,
            IaGetError::FileSystem(m) => m@,
            IaGetError::Config(m) => m@,
            IaGetError::UrlFormat(m) => m@,
            IaGetError::XmlParsing(m) => m@,
        }
    }

    /// The message.
    pub fn as_text(&self) -> (r: &str)
        ensures
            r@ == self.message(),
    {
        match self {
            IaGetError::Network(m) => m.as_str(),
            IaGetError::FileSystem(m) => m.as_str(),
            IaGetError::Config(m) => m.as_str(),
            IaGetError::UrlFormat(m) => m.as_str(),
            IaGetError::XmlParsing(m) => m.as_str(),
        }
    }

    /// Whether the message says that the user interrupted the work.
    pub open spec fn tells_interruption(self) -> bool {
        text::has_piece(self.message(), "interrupted"@)
    }

    /// Whether the message says that a signal interrupted the work.
    pub open spec fn tells_signal(self) -> bool {
        text::has_piece(self.message(), "interrupted by signal"@)
    }

    /// Tells an interruption by the user from a failure.
    pub fn is_interruption(&self) -> (r: bool)
        ensures
            r == self.tells_interruption(),
    {
        let message = text::chars_of(self.as_text());
        let piece = text::chars_of("interrupted");
        text::contains(&message, &piece)
    }

    /// Tells an interruption by a signal from a failure.
    pub fn is_signal(&self) -> (r: bool)
        ensures
            r == self.tells_signal(),
    {
        let message = text::chars_of(self.as_text());
        let piece = text::chars_of("interrupted by signal");
        text::contains(&message, &piece)
    }
}

/// What a signal interrupted is an interruption.
pub proof fn law_signal_is_interruption(e: IaGetError)
    requires
        e.tells_signal(),
    ensures
        e.tells_interruption(),
{
    reveal_strlit("interrupted");
    reveal_strlit("interrupted by signal");
    let long = "interrupted by signal"@;
    let short = "interrupted"@;
    let m = e.message();
    let i = choose|i: int| text::occurs_at(m, long, i);
    assert(m.subrange(i, i + short.len()) =~= short) by {
        assert forall|j: int| 0 <= j < short.len() implies m[i + j] == short[j] by {
            assert(m.subrange(i, i + long.len())[j] == long[j]);
        }
    }
    assert(text::occurs_at(m, short, i));
}

/// A message tells an interruption exactly where the word stands in it, whatever
/// stands around it and whatever kind of error it is.
pub proof fn law_the_word_tells_an_interruption(e: IaGetError)
    ensures
        e.tells_interruption() <==> exists|before: Seq<char>, behind: Seq<char>|
            e.message() == #[trigger] (before + "interrupted"@ + behind),
{
    let m = e.message();
    let word = "interrupted"@;
    if e.tells_interruption() {
        let i = choose|i: int| text::occurs_at(m, word, i);
        let before = m.take(i);
        let behind = m.skip(i + word.len());
        assert(m =~= before + word + behind) by {
            assert(m.subrange(i, i + word.len()) == word);
        }
    }
    if exists|before: Seq<char>, behind: Seq<char>|
        m == #[trigger] (before + word + behind) {
        let (before, behind) = choose|before: Seq<char>, behind: Seq<char>|
            m == #[trigger] (before + word + behind);
        let i = before.len() as int;
        assert(m.subrange(i, i + word.len()) =~= word);
        assert(text::occurs_at(m, word, i));
    }
}

} // verus!
