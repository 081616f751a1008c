//! What is shown.

use ia_get::bars::{
    bar_with_prefix, create_parallel_progress_bar, create_progress_bar, create_progress_bar_in,
    create_spinner, frame_action, progress_action_prefix, Placement, SPINNER_TICK_INTERVAL,
};
use ia_get::messages;
use ia_get::paint::{paint, Line, Tone};
use ia_get::text::is_white_space;

fn plain(line: &Line) -> String {
    line.spans.iter().map(|span| span.content.as_str()).collect()
}

#[test]
fn file_headers_name_and_count() {
    let lines = messages::format_file_header_lines(0, 12, "a/b.txt");
    let texts: Vec<String> = lines.iter().map(plain).collect();
    assert_eq!(texts, [" ", "▣  Filename     a/b.txt", "├╼ Count        # 1 of 12"]);

    let paths = ["x".to_string(), "y".to_string()];
    let all: Vec<String> = messages::parallel_header_lines(&paths, 2).iter().map(plain).collect();
    assert_eq!(all.len(), 6);
    assert_eq!(all[4], "▣  Filename     y");
    assert_eq!(all[5], "├╼ Count        # 2 of 2");
}

#[test]
fn messages_read_as_sentences() {
    for (line, text) in [
        (messages::signal_line(), "\n✘ Received Ctrl+C, finishing current operation..."),
        (
            messages::interrupted_line(),
            "\n✘ Download interrupted. Run the command again to resume remaining files.",
        ),
        (messages::processing_line("u"), "Processing archive.org URL: u"),
        (messages::rejected_line("no"), "✘ no"),
        (messages::url_inaccessible_line("u"), "✘ Archive.org URL not accessible: u"),
        (messages::metadata_line("u"), "⚙ Accessing XML metadata: u"),
        (messages::metadata_inaccessible_line("u"), "✘ XML metadata not accessible: u"),
        (messages::parsing_line(), "⚙ Parsing archive metadata..."),
        (messages::flag_rejected_line("no"), "✘ no"),
        (messages::filtered_line(1, 5, "*apk"), "⚙ Filtered to 1 of 5 files matching *apk"),
        (messages::no_files_line(), "✘ No files matched the requested filters"),
        (messages::listing_line("1 file"), "✔ Archive has 1 file"),
        (messages::ready_line(3), "✔ Ready to download 3 files from archive.org ★"),
        (messages::sanitized_line("a?", "a_"), "⚠ Sanitized: a? → a_"),
        (messages::sanitized_count_line(1), "\n✓ Sanitized 1 file for filesystem compatibility"),
        (messages::sanitized_count_line(2), "\n✓ Sanitized 2 files for filesystem compatibility"),
    ] {
        assert_eq!(plain(&line), text);
    }
}

#[test]
fn white_space_is_that_of_unicode() {
    for c in '\0'..=char::MAX {
        assert_eq!(is_white_space(c), c.is_whitespace());
    }
}

fn tones_have_their_colors() {
    for (tone, codes) in [
        (Tone::Frame, "2;36"), (Tone::Mark, "1;96"), (Tone::Label, "37"), (Tone::Number, "1;34"),
        (Tone::Work, "34"), (Tone::Good, "1;32"), (Tone::Bad, "1;31"), (Tone::Wrong, "31"),
        (Tone::Warning, "1;33"), (Tone::Notice, "33"), (Tone::Strong, "1"), (Tone::Faint, "2"),
    ] {
        assert_eq!(paint("x", tone), format!("\x1B[{codes}mx\x1B[0m"));
        assert_eq!(
            paint("a\x1B[0mb", tone),
            format!("\x1B[{codes}ma\x1B[0m\x1B[{codes}mb\x1B[0m")
        );
    }
    assert_eq!(paint("x", Tone::Plain), "x");
}

fn lines_are_shown_piece_by_piece() {
    let line = Line::new().and(Tone::Good, "✔").plain(" done");
    assert_eq!(line.show(), "\x1B[1;32m✔\x1B[0m done");
    assert_eq!(Line::new().show(), "");
}

fn frames_get_their_color_in_bars() {
    let bar = create_progress_bar(1, "├╼ x ╰╼ ", None, false);
    assert!(bar.template.starts_with("\x1B[2;36m├╼\x1B[0m x \x1B[2;36m╰╼\x1B[0m {elapsed"));
    assert_eq!(frame_action("├╼├╼ ╰╼", "T", "C"), "TT C");
    assert_eq!(
        progress_action_prefix("Verifying"),
        "\x1B[2;36m╰╼\x1B[0m \x1B[37mVerifying\x1B[0m  "
    );
}

fn tones_can_be_switched_off() {
    for tone in [Tone::Frame, Tone::Good, Tone::Label, Tone::Strong, Tone::Faint] {
        assert_eq!(paint("x", tone), "x");
    }
    let line = messages::retries_exceeded_line(3);
    assert_eq!(line.show(), "├╼ Failed      ✘ Maximum retries (3) exceeded");
}

fn bars_show_time_bytes_and_message() {
    let bar = create_progress_bar(9, "╰╼ Downloading  ", None, true);
    assert_eq!(
        bar.template,
        "╰╼ Downloading  {elapsed_precise} {bar:40.green/green} {bytes}/{total_bytes} {wide_msg}"
    );
    assert_eq!((bar.length, bar.placement), (9, Placement::Alone));
    assert_eq!(bar.progress_chars, "▓▒░");
    let below = create_progress_bar_in(9, "x", Some("blue/blue"), false, true);
    assert_eq!(below.template, "x{elapsed_precise} {bar:40.blue/blue} {bytes}/{total_bytes}");
    assert_eq!(below.placement, Placement::Below);
    let bare = bar_with_prefix(Placement::Alone, 1, "", 3, None, false);
    assert_eq!(bare.template, "{elapsed_precise} {bar:3.green/green} {bytes}/{total_bytes}");
}

fn parallel_bars_name_their_file() {
    let label = "a-very-long-file-name-that-does-not-fit.zip";
    let bar = create_parallel_progress_bar(4, 7, "Resuming", label, None, true);
    assert_eq!(bar.placement, Placement::Slot(4));
    assert_eq!(
        bar.template,
        "╰╼ Resuming a-very-long-file-name-tha… {elapsed_precise} {bar:28.green/green} \
{bytes}/{total_bytes} {wide_msg}"
    );
}

fn spinners_turn_before_their_message() {
    let spinner = create_spinner("working");
    assert_eq!(spinner.template, "{spinner} working");
    assert_eq!(spinner.tick_chars.chars().count(), 10);
    assert_eq!(spinner.tick_interval, SPINNER_TICK_INTERVAL);
}

/// Colours are a switch of the whole process, so one test goes through both.
#[test]
fn everything_is_shown_with_and_without_colors() {
    colored::control::set_override(true);
    tones_have_their_colors();
    lines_are_shown_piece_by_piece();
    frames_get_their_color_in_bars();

    colored::control::set_override(false);
    tones_can_be_switched_off();
    bars_show_time_bytes_and_message();
    parallel_bars_name_their_file();
    spinners_turn_before_their_message();
}
