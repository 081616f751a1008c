//! How progress bars and spinners look.

use vstd::prelude::*;

use crate::numbers;
use crate::paint;
use crate::paint::{Line, Tone};
use crate::paths;
use crate::text;
use crate::units;

verus! {

/// The pause between two pictures of a spinner, in milliseconds.
pub const SPINNER_TICK_INTERVAL: u64 = 100;

/// The width of a bar that has a line for itself.
pub const BAR_WIDTH: u64 = 40;

/// The width of a bar beside the name of its file.
pub const PARALLEL_BAR_WIDTH: u64 = 28;

/// How many characters of the name of a file stand beside its bar.
pub const LABEL_WIDTH: usize = 26;

/// Where a bar is drawn.
#[derive(Debug, Clone, Copy, PartialEq, Eq, Structural)]
pub enum Placement {
    /// On a line for itself.
    Alone,
    /// Below the other bars.
    Below,
    /// At a fixed place among the other bars.
    Slot(usize),
}

/// A progress bar: where it is drawn, the length it counts to, and how it looks.
#[derive(Debug, Clone, PartialEq, Eq)]
pub struct BarStyle {
    pub placement: Placement,
    pub length: u64,
    pub template: String,
    pub progress_chars: String,
}

/// A spinner: how it is drawn, and the pause between two pictures.
#[derive(Debug, Clone, PartialEq, Eq)]
pub struct SpinnerStyle {
    pub template: String,
    pub tick_chars: String,
    pub tick_interval: u64,
}

/// The colours of a bar where none are asked for.
pub open spec fn bar_color(color: Option<Seq<char>>) -> Seq<char> {
    match color {
        Some(color) => color,
        None => "green/green"@,
    }
}

/// The template of a bar behind a prefix: the time, the bar, the bytes and, where
/// it is asked for, a message.
pub open spec fn bar_template(
    prefix: Seq<char>,
    width: nat,
    color: Option<Seq<char>>,
    with_eta: bool,
) -> Seq<char> {
    prefix + "{elapsed_precise} {bar:"@ + numbers::decimal(width) + "."@ + bar_color(color)
        + "} {bytes}/{total_bytes}"@ + (if with_eta {
        " {wide_msg}"@
    } else {
        ""@
    })
}

/// What a bar is drawn with.
pub open spec fn bar_chars() -> Seq<char> {
    "▓▒░"@
}

/// The bar behind a prefix.
pub fn bar_with_prefix(
    placement: Placement,
    total: u64,
    prefix: &str,
    width: u64,
    color: Option<&str>,
    with_eta: bool,
) -> (r: BarStyle)
    ensures
        r.placement == placement,
        r.length == total,
        r.template@ == bar_template(prefix@, width as nat, text::str_text(color), with_eta),
        r.progress_chars@ == bar_chars(),
{
    let mut out = text::chars_of(prefix);
    units::append_text(&mut out, "{elapsed_precise} {bar:");
    units::append_number(&mut out, width);
    units::append_text(&mut out, ".");
    match color {
        Some(color) => {
            units::append_text(&mut out, color);
        },
        None => {
            units::append_text(&mut out, "green/green");
        },
    }
    units::append_text(&mut out, "} {bytes}/{total_bytes}");
    if with_eta {
        units::append_text(&mut out, " {wide_msg}");
    } else {
        units::append_text(&mut out, "");
    }
    BarStyle {
        placement,
        length: total,
        template: text::string_of(&out),
        progress_chars: "▓▒░".to_owned(),
    }
}

/// An action with the two marks of the frame shown as given.
pub open spec fn framed_action(action: Seq<char>, tee: Seq<char>, corner: Seq<char>) -> Seq<char> {
    text::replaced(text::replaced(action, "├╼"@, tee), "╰╼"@, corner)
}

/// Shows the marks of the frame in an action as given.
pub fn frame_action(action: &str, tee: &str, corner: &str) -> (r: String)
    ensures
        r@ == framed_action(action@, tee@, corner@),
{
    proof {
        reveal_strlit("├╼");
        reveal_strlit("╰╼");
    }
    let chars = text::chars_of(action);
    let tee_mark = text::chars_of("├╼");
    let tee_shown = text::chars_of(tee);
    let first = text::replace(&chars, &tee_mark, &tee_shown);
    let corner_mark = text::chars_of("╰╼");
    let corner_shown = text::chars_of(corner);
    let second = text::replace(&first, &corner_mark, &corner_shown);
    text::string_of(&second)
}

/// A progress bar behind an action, in which the marks of the frame get their
/// colour; `among_others` says that it is drawn below other bars.
pub fn create_progress_bar_in(
    total: u64,
    action: &str,
    color: Option<&str>,
    with_eta: bool,
    among_others: bool,
) -> (r: BarStyle)
    ensures
        r.placement == if among_others {
            Placement::Below
        } else {
            Placement::Alone
        },
        r.length == total,
        exists|tee: Seq<char>, corner: Seq<char>|
            {
                &&& paint::tone_shows(tee, "├╼"@, Tone::Frame)
                &&& paint::tone_shows(corner, "╰╼"@, Tone::Frame)
                &&& r.template@ == bar_template(
                    #[trigger] framed_action(action@, tee, corner),
                    BAR_WIDTH as nat,
                    text::str_text(color),
                    with_eta,
                )
            },
        r.progress_chars@ == bar_chars(),
{
    let tee = paint::paint("├╼", Tone::Frame);
    let corner = paint::paint("╰╼", Tone::Frame);
    let prefix = frame_action(action, tee.as_str(), corner.as_str());
    assert(prefix@ == framed_action(action@, tee@, corner@));
    let placement = if among_others {
        Placement::Below
    } else {
        Placement::Alone
    };
    bar_with_prefix(placement, total, prefix.as_str(), BAR_WIDTH, color, with_eta)
}

/// A progress bar with a line for itself.
pub fn create_progress_bar(total: u64, action: &str, color: Option<&str>, with_eta: bool) -> (r:
    BarStyle)
    ensures
        r.placement == Placement::Alone,
        r.length == total,
        exists|tee: Seq<char>, corner: Seq<char>|
            {
                &&& paint::tone_shows(tee, "├╼"@, Tone::Frame)
                &&& paint::tone_shows(corner, "╰╼"@, Tone::Frame)
                &&& r.template@ == bar_template(
                    #[trigger] framed_action(action@, tee, corner),
                    BAR_WIDTH as nat,
                    text::str_text(color),
                    with_eta,
                )
            },
        r.progress_chars@ == bar_chars(),
{
    create_progress_bar_in(total, action, color, with_eta, false)
}

/// What stands before the bar of a file that is transferred beside others.
pub open spec fn parallel_prefix(action: Seq<char>, label: Seq<char>) -> Seq<(Tone, Seq<char>)> {
    seq![
        (Tone::Frame, "╰╼"@),
        (Tone::Plain, " "@),
        (Tone::Label, action),
        (Tone::Plain, " "@),
        (Tone::Faint, paths::truncated_label(label, LABEL_WIDTH as nat)),
        (Tone::Plain, " "@),
    ]
}

/// The progress bar of a file that is transferred beside others, at its own place
/// among them.
pub fn create_parallel_progress_bar(
    slot: usize,
    total: u64,
    action: &str,
    file_label: &str,
    color: Option<&str>,
    with_eta: bool,
) -> (r: BarStyle)
    ensures
        r.placement == Placement::Slot(slot),
        r.length == total,
        exists|prefix: Seq<char>|
            paint::line_shows(prefix, parallel_prefix(action@, file_label@)) && r.template@
                == #[trigger] bar_template(
                prefix,
                PARALLEL_BAR_WIDTH as nat,
                text::str_text(color),
                with_eta,
            ),
        r.progress_chars@ == bar_chars(),
{
    let label = paths::truncate_file_label(file_label, LABEL_WIDTH);
    let line = Line::new()
        .and(Tone::Frame, "╰╼")
        .plain(" ")
        .and(Tone::Label, action)
        .plain(" ")
        .and(Tone::Faint, label.as_str())
        .plain(" ");
    assert(line@ =~= parallel_prefix(action@, file_label@));
    let prefix = line.show();
    bar_with_prefix(
        Placement::Slot(slot),
        total,
        prefix.as_str(),
        PARALLEL_BAR_WIDTH,
        color,
        with_eta,
    )
}

/// What stands before the bar of a file that is transferred alone.
pub fn progress_action_prefix(action: &str) -> (r: String)
    ensures
        paint::line_shows(
            r@,
            seq![
                (Tone::Frame, "╰╼"@),
                (Tone::Plain, " "@),
                (Tone::Label, action@),
                (Tone::Plain, "  "@),
            ],
        ),
{
    let line = Line::new()
        .and(Tone::Frame, "╰╼")
        .plain(" ")
        .and(Tone::Label, action)
        .plain("  ");
    assert(line@ =~= seq![
        (Tone::Frame, "╰╼"@),
        (Tone::Plain, " "@),
        (Tone::Label, action@),
        (Tone::Plain, "  "@),
    ]);
    line.show()
}

/// A spinner before a message.
pub fn create_spinner(message: &str) -> (r: SpinnerStyle)
    ensures
        paint::line_shows(
            r.template@,
            seq![
                (Tone::Warning, "{spinner}"@),
                (Tone::Plain, " "@),
                (Tone::Plain, message@),
            ],
        ),
        r.tick_chars@ == "⠋⠙⠹⠸⠼⠴⠦⠧⠇⠏"@,
        r.tick_interval == SPINNER_TICK_INTERVAL,
{
    let line = Line::new().and(Tone::Warning, "{spinner}").plain(" ").plain(message);
    assert(line@ =~= seq![
        (Tone::Warning, "{spinner}"@),
        (Tone::Plain, " "@),
        (Tone::Plain, message@),
    ]);
    SpinnerStyle {
        template: line.show(),
        tick_chars: "⠋⠙⠹⠸⠼⠴⠦⠧⠇⠏".to_owned(),
        tick_interval: SPINNER_TICK_INTERVAL,
    }
}

/// All that a bar with the remaining time has more is the message at its end.
pub proof fn law_message_extends_bar(prefix: Seq<char>, width: nat, color: Option<Seq<char>>)
    ensures
        bar_template(prefix, width, color, true) == bar_template(prefix, width, color, false)
            + " {wide_msg}"@,
{
    reveal_strlit("");
    assert(bar_template(prefix, width, color, true) =~= bar_template(prefix, width, color, false)
        + " {wide_msg}"@);
}

/// A bar is green unless another colour is asked for, and that one is taken as it is.
pub proof fn law_bars_are_green_unless_asked_for(
    prefix: Seq<char>,
    width: nat,
    color: Seq<char>,
    with_eta: bool,
)
    ensures
        bar_template(prefix, width, None, with_eta) == bar_template(
            prefix,
            width,
            Some("green/green"@),
            with_eta,
        ),
        bar_template(prefix, width, Some(color), false) == prefix + "{elapsed_precise} {bar:"@
            + numbers::decimal(width) + "."@ + color + "} {bytes}/{total_bytes}"@,
{
    reveal_strlit("");
    assert(bar_template(prefix, width, Some(color), false) =~= prefix + "{elapsed_precise} {bar:"@
        + numbers::decimal(width) + "."@ + color + "} {bytes}/{total_bytes}"@);
}

/// In an action a mark of the frame is shown as asked for, and the rest as it is.
pub proof fn law_marks_are_shown_as_given(action: Seq<char>, tee: Seq<char>, corner: Seq<char>)
    requires
        !action.contains('├'),
        !action.contains('╰'),
        !tee.contains('╰'),
    ensures
        framed_action(action, tee, corner) == action,
        framed_action("├╼"@ + action, tee, corner) == tee + action,
        framed_action("╰╼"@ + action, tee, corner) == corner + action,
{
    reveal_strlit("├╼");
    reveal_strlit("╰╼");
    let none = Seq::<char>::empty();
    let t = "├╼"@;
    let c = "╰╼"@;
    text::law_pieces_are_replaced(action, none, t, tee);
    text::law_pieces_are_replaced(action, none, c, corner);
    text::law_pieces_are_replaced(none, action, t, tee);
    assert(none + t + action =~= t + action);
    assert(none + tee + action =~= tee + action);
    let shown = tee + action;
    assert(!shown.contains('╰')) by {
        if shown.contains('╰') {
            let j = choose|j: int| 0 <= j < shown.len() && shown[j] == '╰';
            if j < tee.len() {
                assert(tee[j] == '╰');
            } else {
                assert(action[j - tee.len()] == '╰');
            }
        }
    }
    text::law_pieces_are_replaced(shown, none, c, corner);
    let cornered = c + action;
    assert(!cornered.contains('├')) by {
        if cornered.contains('├') {
            let j = choose|j: int| 0 <= j < cornered.len() && cornered[j] == '├';
            if j >= 2 {
                assert(action[j - 2] == '├');
            }
        }
    }
    text::law_pieces_are_replaced(cornered, none, t, tee);
    text::law_pieces_are_replaced(none, action, c, corner);
    assert(none + c + action =~= cornered);
    assert(none + corner + action =~= corner + action);
}

/// Beside other bars a file is shown by its label, cut to the room that there is.
pub proof fn law_parallel_bars_show_the_label(action: Seq<char>, label: Seq<char>)
    ensures
        ({
            let pieces = parallel_prefix(action, label);
            let shown = pieces[4].1;
            &&& pieces.len() == 6
            &&& pieces[2].1 == action
            &&& label.len() <= LABEL_WIDTH ==> shown == label
            &&& label.len() > LABEL_WIDTH ==> {
                &&& shown.len() == LABEL_WIDTH
                &&& shown.drop_last() == label.take(LABEL_WIDTH - 1)
                &&& shown.last() == '…'
            }
        }),
{
    paths::law_labels_keep_their_beginning(label, LABEL_WIDTH as nat);
}

} // verus!
