//! Lines of coloured text.

use colored::Colorize;

use vstd::prelude::*;

use crate::text;

verus! {

// ---------------------------------------------------------------------------
// Colours
// ---------------------------------------------------------------------------

/// The code of a colour that a terminal knows by name.
pub open spec fn color_code(name: Seq<char>) -> Option<Seq<char>> {
    if name == "red"@ {
        Some("31"@)
    } else if name == "green"@ {
        Some("32"@)
    } else if name == "yellow"@ {
        Some("33"@)
    } else if name == "blue"@ {
        Some("34"@)
    } else if name == "cyan"@ {
        Some("36"@)
    } else if name == "white"@ {
        Some("37"@)
    } else if name == "bright cyan"@ {
        Some("96"@)
    } else {
        None
    }
}

/// What switches the style with the given codes on.
pub open spec fn style_start(codes: Seq<char>) -> Seq<char> {
    "\x1B["@ + codes + "m"@
}

/// What ends every style.
pub open spec fn style_end() -> Seq<char> {
    "\x1B[0m"@
}

/// `s` in the style with the given codes. Where `s` itself ends a style, this
/// one is switched on again.
pub open spec fn styled(s: Seq<char>, codes: Seq<char>) -> Seq<char> {
    style_start(codes) + text::replaced(s, style_end(), style_end() + style_start(codes))
        + style_end()
}

/// Whether `shown` is what becomes of `s` in a style: `s` in that style, or `s`
/// as it is where colours are switched off.
pub open spec fn shows(shown: Seq<char>, s: Seq<char>, codes: Seq<char>) -> bool {
    shown == s || shown == styled(s, codes)
}

/// `Colorize::color` gives a text one of the colours that it knows by name, and
/// displaying the result writes the codes around it. Whether colours are on is a
/// switch of the whole process, which its environment sets and which nothing here
/// changes: the contract holds either way, as long as nobody changes it while the
/// text is displayed.
#[verifier::external_body]
fn in_color(s: &str, color: &str) -> (r: String)
    requires
        color_code(color@) is Some,
    ensures
        shows(r@, s@, color_code(color@)->0),
{
    s.color(color).to_string()
}

/// `Colorize::bold` makes a coloured text bold: its code comes before that of
/// the colour.
#[verifier::external_body]
fn in_bold_color(s: &str, color: &str) -> (r: String)
    requires
        color_code(color@) is Some,
    ensures
        shows(r@, s@, "1;"@ + color_code(color@)->0),
{
    s.color(color).bold().to_string()
}

/// `Colorize::dimmed` dims a coloured text: its code comes before that of the
/// colour.
#[verifier::external_body]
fn in_dimmed_color(s: &str, color: &str) -> (r: String)
    requires
        color_code(color@) is Some,
    ensures
        shows(r@, s@, "2;"@ + color_code(color@)->0),
{
    s.color(color).dimmed().to_string()
}

/// `Colorize::bold` makes a text without a colour bold.
#[verifier::external_body]
fn in_bold(s: &str) -> (r: String)
    ensures
        shows(r@, s@, "1"@),
{
    s.bold().to_string()
}

/// `Colorize::dimmed` dims a text without a colour.
#[verifier::external_body]
fn in_dimmed(s: &str) -> (r: String)
    ensures
        shows(r@, s@, "2"@),
{
    s.dimmed().to_string()
}

// ---------------------------------------------------------------------------
// Tones
// ---------------------------------------------------------------------------

/// What a piece of a line stands for.
#[derive(Debug, Clone, Copy, PartialEq, Eq, Structural)]
pub enum Tone {
    /// Text as it is.
    Plain,
    /// The frame at the left, in dimmed cyan.
    Frame,
    /// The mark of a file, in bold bright cyan.
    Mark,
    /// A label, in white.
    Label,
    /// A number sign, in bold blue.
    Number,
    /// Work that goes on, in blue.
    Work,
    /// A success, in bold green.
    Good,
    /// A failure, in bold red.
    Bad,
    /// A wrong value, in red.
    Wrong,
    /// A warning, in bold yellow.
    Warning,
    /// Something to notice, in yellow.
    Notice,
    /// Something important, in bold.
    Strong,
    /// Something less important, dimmed.
    Faint,
}

/// The codes of a tone; none for plain text.
pub open spec fn tone_codes(tone: Tone) -> Option<Seq<char>> {
    match tone {
        Tone::Plain => None,
        Tone::Frame => Some("2;"@ + "36"@),
        Tone::Mark => Some("1;"@ + "96"@),
        Tone::Label => Some("37"@),
        Tone::Number => Some("1;"@ + "34"@),
        Tone::Work => Some("34"@),
        Tone::Good => Some("1;"@ + "32"@),
        Tone::Bad => Some("1;"@ + "31"@),
        Tone::Wrong => Some("31"@),
        Tone::Warning => Some("1;"@ + "33"@),
        Tone::Notice => Some("33"@),
        Tone::Strong => Some("1"@),
        Tone::Faint => Some("2"@),
    }
}

/// Whether `shown` is what becomes of `s` in a tone.
pub open spec fn tone_shows(shown: Seq<char>, s: Seq<char>, tone: Tone) -> bool {
    match tone_codes(tone) {
        Some(codes) => shows(shown, s, codes),
        None => shown == s,
    }
}

/// The names of the colours have their codes.
proof fn lemma_colors()
    ensures
        color_code("red"@) == Some("31"@),
        color_code("green"@) == Some("32"@),
        color_code("yellow"@) == Some("33"@),
        color_code("blue"@) == Some("34"@),
        color_code("cyan"@) == Some("36"@),
        color_code("white"@) == Some("37"@),
        color_code("bright cyan"@) == Some("96"@),
{
    reveal_strlit("red");
    reveal_strlit("green");
    reveal_strlit("yellow");
    reveal_strlit("blue");
    reveal_strlit("cyan");
    reveal_strlit("white");
    reveal_strlit("bright cyan");
    assert("bright cyan"@.len() == 11);
    assert("yellow"@[0] == 'y');
    assert("blue"@[0] == 'b');
    assert("cyan"@[0] == 'c');
    assert("white"@[0] == 'w');
    assert("green"@[0] == 'g');
}

/// Shows a text in a tone.
pub fn paint(s: &str, tone: Tone) -> (r: String)
    ensures
        tone_shows(r@, s@, tone),
{
    proof {
        lemma_colors();
    }
    match tone {
        Tone::Plain => s.to_owned(),
        Tone::Frame => in_dimmed_color(s, "cyan"),
        Tone::Mark => in_bold_color(s, "bright cyan"),
        Tone::Label => in_color(s, "white"),
        Tone::Number => in_bold_color(s, "blue"),
        Tone::Work => in_color(s, "blue"),
        Tone::Good => in_bold_color(s, "green"),
        Tone::Bad => in_bold_color(s, "red"),
        Tone::Wrong => in_color(s, "red"),
        Tone::Warning => in_bold_color(s, "yellow"),
        Tone::Notice => in_color(s, "yellow"),
        Tone::Strong => in_bold(s),
        Tone::Faint => in_dimmed(s),
    }
}

// ---------------------------------------------------------------------------
// Lines
// ---------------------------------------------------------------------------

/// A piece of a line.
#[derive(Debug, Clone, PartialEq, Eq)]
pub struct Span {
    pub tone: Tone,
    pub content: String,
}

/// A line made of pieces in their tones.
#[derive(Debug, Clone, PartialEq, Eq)]
pub struct Line {
    pub spans: Vec<Span>,
}

/// Whether `shown` is made of what becomes of the pieces, one after the other.
pub open spec fn line_shows(shown: Seq<char>, line: Seq<(Tone, Seq<char>)>) -> bool
    decreases line.len(),
{
    if line.len() == 0 {
        shown.len() == 0
    } else {
        exists|i: int|
            #![trigger shown.take(i)]
            0 <= i <= shown.len() && line_shows(shown.take(i), line.drop_last()) && tone_shows(
                shown.skip(i),
                line.last().1,
                line.last().0,
            )
    }
}

/// The text of a line without its colours.
pub open spec fn plain_text(line: Seq<(Tone, Seq<char>)>) -> Seq<char>
    decreases line.len(),
{
    if line.len() == 0 {
        Seq::empty()
    } else {
        plain_text(line.drop_last()) + line.last().1
    }
}

/// The pieces of some lines.
pub open spec fn line_views(lines: Seq<Line>) -> Seq<Seq<(Tone, Seq<char>)>> {
    Seq::new(lines.len(), |i: int| lines[i]@)
}

impl Line {
    /// The pieces with their tones.
    pub open spec fn view(&self) -> Seq<(Tone, Seq<char>)> {
        Seq::new(self.spans@.len(), |i: int| (self.spans@[i].tone, self.spans@[i].content@))
    }

    /// An empty line.
    pub fn new() -> (r: Line)
        ensures
            r@ == Seq::<(Tone, Seq<char>)>::empty(),
    {
        Line { spans: Vec::new() }
    }

    /// The line with one more piece.
    pub fn and(self, tone: Tone, content: &str) -> (r: Line)
        ensures
            r@ == self@.push((tone, content@)),
    {
        let mut spans = self.spans;
        spans.push(Span { tone, content: content.to_owned() });
        let line = Line { spans };
        assert(line@ =~= self@.push((tone, content@)));
        line
    }

    /// The line with one more piece of plain text.
    pub fn plain(self, content: &str) -> (r: Line)
        ensures
            r@ == self@.push((Tone::Plain, content@)),
    {
        self.and(Tone::Plain, content)
    }

    /// Shows the line in its colours.
    pub fn show(&self) -> (r: String)
        ensures
            line_shows(r@, self@),
    {
        let mut out: Vec<char> = Vec::new();
        let ghost all = self@;
        let mut i: usize = 0;
        while i < self.spans.len()
            invariant
                i <= self.spans.len(),
                all == self@,
                line_shows(out@, all.take(i as int)),
            decreases self.spans.len() - i,
        {
            let ghost before = out@;
            let shown = paint(self.spans[i].content.as_str(), self.spans[i].tone);
            let more = text::chars_of(shown.as_str());
            text::extend(&mut out, &more);
            proof {
                let n = before.len() as int;
                assert(out@.take(n) =~= before);
                assert(out@.skip(n) =~= shown@);
                assert(all.take(i + 1).drop_last() =~= all.take(i as int));
                assert(all.take(i + 1).last() == all[i as int]);
                assert(line_shows(out@.take(n), all.take(i + 1).drop_last()));
            }
            i = i + 1;
        }
        assert(all.take(i as int) =~= all);
        text::string_of(&out)
    }
}

/// The text without colours is one way in which a line may be shown.
pub proof fn law_colors_are_optional(line: Seq<(Tone, Seq<char>)>)
    ensures
        line_shows(plain_text(line), line),
    decreases line.len(),
{
    if line.len() > 0 {
        let before = plain_text(line.drop_last());
        law_colors_are_optional(line.drop_last());
        assert(plain_text(line).take(before.len() as int) =~= before);
        assert(plain_text(line).skip(before.len() as int) =~= line.last().1);
    }
}

/// Each tone has its colour: a text without codes of its own stands between the code of
/// the colour and the end of it, or is shown as it is. Plain text is always shown as
/// it is.
pub proof fn law_tones_have_their_colors(shown: Seq<char>, s: Seq<char>)
    requires
        !s.contains('\x1B'),
    ensures
        tone_shows(shown, s, Tone::Frame) <==> shown == s || shown == "\x1B[2;36m"@ + s + "\x1B[0m"@,
        tone_shows(shown, s, Tone::Mark) <==> shown == s || shown == "\x1B[1;96m"@ + s + "\x1B[0m"@,
        tone_shows(shown, s, Tone::Label) <==> shown == s || shown == "\x1B[37m"@ + s + "\x1B[0m"@,
        tone_shows(shown, s, Tone::Number) <==> shown == s || shown == "\x1B[1;34m"@ + s + "\x1B[0m"@,
        tone_shows(shown, s, Tone::Work) <==> shown == s || shown == "\x1B[34m"@ + s + "\x1B[0m"@,
        tone_shows(shown, s, Tone::Good) <==> shown == s || shown == "\x1B[1;32m"@ + s + "\x1B[0m"@,
        tone_shows(shown, s, Tone::Bad) <==> shown == s || shown == "\x1B[1;31m"@ + s + "\x1B[0m"@,
        tone_shows(shown, s, Tone::Wrong) <==> shown == s || shown == "\x1B[31m"@ + s + "\x1B[0m"@,
        tone_shows(shown, s, Tone::Warning) <==> shown == s || shown == "\x1B[1;33m"@ + s + "\x1B[0m"@,
        tone_shows(shown, s, Tone::Notice) <==> shown == s || shown == "\x1B[33m"@ + s + "\x1B[0m"@,
        tone_shows(shown, s, Tone::Strong) <==> shown == s || shown == "\x1B[1m"@ + s + "\x1B[0m"@,
        tone_shows(shown, s, Tone::Faint) <==> shown == s || shown == "\x1B[2m"@ + s + "\x1B[0m"@,
        tone_shows(shown, s, Tone::Plain) <==> shown == s,
{
    reveal_strlit("\x1B[");
    reveal_strlit("m");
    reveal_strlit("\x1B[0m");
    reveal_strlit("1");
    reveal_strlit("1;");
    reveal_strlit("2");
    reveal_strlit("2;");
    reveal_strlit("31");
    reveal_strlit("32");
    reveal_strlit("33");
    reveal_strlit("34");
    reveal_strlit("36");
    reveal_strlit("37");
    reveal_strlit("96");
    reveal_strlit("\x1B[2;36m");
    reveal_strlit("\x1B[1;96m");
    reveal_strlit("\x1B[37m");
    reveal_strlit("\x1B[1;34m");
    reveal_strlit("\x1B[34m");
    reveal_strlit("\x1B[1;32m");
    reveal_strlit("\x1B[1;31m");
    reveal_strlit("\x1B[31m");
    reveal_strlit("\x1B[1;33m");
    reveal_strlit("\x1B[33m");
    reveal_strlit("\x1B[1m");
    reveal_strlit("\x1B[2m");
    assert(style_start(tone_codes(Tone::Frame)->0) =~= "\x1B[2;36m"@);
    assert(style_start(tone_codes(Tone::Mark)->0) =~= "\x1B[1;96m"@);
    assert(style_start(tone_codes(Tone::Label)->0) =~= "\x1B[37m"@);
    assert(style_start(tone_codes(Tone::Number)->0) =~= "\x1B[1;34m"@);
    assert(style_start(tone_codes(Tone::Work)->0) =~= "\x1B[34m"@);
    assert(style_start(tone_codes(Tone::Good)->0) =~= "\x1B[1;32m"@);
    assert(style_start(tone_codes(Tone::Bad)->0) =~= "\x1B[1;31m"@);
    assert(style_start(tone_codes(Tone::Wrong)->0) =~= "\x1B[31m"@);
    assert(style_start(tone_codes(Tone::Warning)->0) =~= "\x1B[1;33m"@);
    assert(style_start(tone_codes(Tone::Notice)->0) =~= "\x1B[33m"@);
    assert(style_start(tone_codes(Tone::Strong)->0) =~= "\x1B[1m"@);
    assert(style_start(tone_codes(Tone::Faint)->0) =~= "\x1B[2m"@);
    assert forall|codes: Seq<char>| #[trigger] styled(s, codes) == style_start(codes) + s
        + style_end() by {
        text::law_pieces_are_replaced(
            s,
            Seq::empty(),
            style_end(),
            style_end() + style_start(codes),
        );
    }
}

} // verus!
