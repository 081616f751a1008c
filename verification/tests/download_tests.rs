//! Downloads.

use ia_get::bandwidth::{BandwidthLimiter, Claim, Grant};
use ia_get::batch::{
    begin_download, concurrent_download_slots, connection_pool_size, download_options, next_file,
    DownloadOptions, NextFile, Outcome, TaskEnd,
};
use ia_get::config::Config;
use ia_get::digest::{hex_of, shows_hash_progress, FileHasher, LARGE_FILE_THRESHOLD};
use ia_get::error::IaGetError;
use ia_get::ordered::OrderedDisplayState;
use ia_get::paint::Line;
use ia_get::single::{FileAction, FileDownload, FileEvent, FileStage, FileTask};
use ia_get::transfer::{
    retry_delay, transfer_summary, Stage, Transfer, TransferAction, TransferEvent,
};

#[test]
fn concurrent_download_slots_respects_multithreading_flag() {
    assert_eq!(
        concurrent_download_slots(DownloadOptions {
            multithreading: true,
            thread_count: 3,
            ..Default::default()
        }),
        3
    );
    assert_eq!(
        concurrent_download_slots(DownloadOptions {
            multithreading: false,
            thread_count: 8,
            ..Default::default()
        }),
        1
    );
}

#[test]
fn ordered_parallel_display_flushes_in_index_order() {
    let mut ordered = OrderedDisplayState::new();

    ordered.push_line(1, "second".to_string());
    ordered.push_line(0, "first-a".to_string());
    ordered.push_line(0, "first-b".to_string());
    ordered.finish_file(0);
    ordered.push_line(1, "second-b".to_string());
    ordered.finish_file(1);

    assert_eq!(ordered.next, 2);
    assert!(ordered.files.is_empty());
}

fn plain(line: &Line) -> String {
    line.spans.iter().map(|span| span.content.as_str()).collect()
}

fn plains(lines: &[Line]) -> Vec<String> {
    lines.iter().map(plain).collect()
}

fn network(message: &str) -> IaGetError {
    IaGetError::Network(message.to_string())
}

// Options

#[test]
fn there_is_always_a_slot() {
    let options = DownloadOptions { multithreading: true, thread_count: 0, ..Default::default() };
    assert_eq!(concurrent_download_slots(options), 1);
    assert_eq!(
        DownloadOptions::default(),
        DownloadOptions { max_bytes_per_sec: None, multithreading: false, thread_count: 4 }
    );
}

#[test]
fn options_follow_from_the_settings() {
    let settings = Config { max_bandwidth_kbps: 4000, multithreading: true, thread_count: 3 };
    assert_eq!(
        download_options(&settings),
        DownloadOptions { max_bytes_per_sec: Some(4_096_000), multithreading: true, thread_count: 3 }
    );
    assert_eq!(connection_pool_size(&settings), 3);
    assert_eq!(connection_pool_size(&Config::default()), 1);
    assert_eq!(download_options(&Config::default()).max_bytes_per_sec, None);
}

// Output in the order of the files

#[test]
fn lines_come_out_when_it_is_their_turn() {
    let mut output = OrderedDisplayState::new();
    let mut said: Vec<String> = Vec::new();
    said.extend(output.push_line(2, "c1".to_string()));
    said.extend(output.push_line(1, "b1".to_string()));
    said.extend(output.finish_file(2));
    assert!(said.is_empty());
    said.extend(output.push_line(0, "a1".to_string()));
    assert_eq!(said, ["a1"]);
    said.extend(output.finish_file(0));
    assert_eq!(said, ["a1", "b1"]);
    said.extend(output.push_line(1, "b2".to_string()));
    assert_eq!(said, ["a1", "b1", "b2"]);
    said.extend(output.finish_file(1));
    assert_eq!(said, ["a1", "b1", "b2", "c1"]);
    assert_eq!(output.next, 3);
    assert!(output.files.is_empty());
}

#[test]
fn a_second_end_says_nothing() {
    let mut output = OrderedDisplayState::new();
    assert!(output.finish_file(0).is_empty());
    assert!(output.finish_file(0).is_empty());
    assert_eq!(output.push_line(1, "b".to_string()), ["b"]);
    assert_eq!(output.next, 1);
}

#[test]
fn files_without_lines_make_room() {
    let mut output = OrderedDisplayState::new();
    assert!(output.finish_file(1).is_empty());
    assert!(output.finish_file(0).is_empty());
    assert_eq!(output.next, 2);
}

// The transfer of one file

fn requesting(size: u64) -> Transfer {
    let mut transfer = Transfer::new();
    let action = transfer.step(None, TransferEvent::Sized { size });
    assert!(matches!(action, TransferAction::Send { .. }));
    transfer
}

fn receiving(size: u64) -> Transfer {
    let mut transfer = requesting(size);
    transfer.step(None, TransferEvent::Answered { content_length: Some(100) });
    transfer
}

#[test]
fn a_transfer_resumes_where_the_file_ends() {
    let mut transfer = Transfer::new();
    match transfer.step(Some("a=b"), TransferEvent::Sized { size: 50 }) {
        TransferAction::Send { headers } => {
            assert_eq!(headers.cookie, Some(b"a=b".to_vec()));
            assert_eq!(headers.range, Some(b"bytes=50-".to_vec()));
        }
        other => panic!("{other:?}"),
    }
    match transfer.step(Some("a=b"), TransferEvent::Answered { content_length: Some(100) }) {
        TransferAction::Show { action, length, position } => {
            assert_eq!((action, length, position), ("Resuming", 150, 50));
        }
        other => panic!("{other:?}"),
    }
    for bytes in [60, 40] {
        let event = TransferEvent::Chunk { running: true, chunk: Ok(bytes) };
        match transfer.step(None, event) {
            TransferAction::Write { bytes: asked } => assert_eq!(asked, bytes),
            other => panic!("{other:?}"),
        }
        assert!(matches!(transfer.step(None, TransferEvent::Written), TransferAction::Progress));
    }
    match transfer.step(None, TransferEvent::Ended) {
        TransferAction::Finished { received, total } => assert_eq!((received, total), (100, 150)),
        other => panic!("{other:?}"),
    }
    assert_eq!(transfer.stage, Stage::Closed);
}

#[test]
fn a_new_transfer_needs_no_length() {
    let mut transfer = requesting(0);
    match transfer.step(None, TransferEvent::Answered { content_length: None }) {
        TransferAction::Show { action, length, position } => {
            assert_eq!((action, length, position), ("Downloading", 0, 0));
        }
        other => panic!("{other:?}"),
    }
}

#[test]
fn a_transfer_is_tried_four_times() {
    let mut transfer = Transfer::new();
    for (attempt, delay) in [(1, 1000), (2, 2000), (3, 4000)] {
        transfer.step(None, TransferEvent::Sized { size: 0 });
        match transfer.step(None, TransferEvent::Refused { error: network("down") }) {
            TransferAction::Retry { lines, delay_ms } => {
                assert_eq!(delay_ms, delay);
                assert_eq!(
                    plains(&lines),
                    [
                        format!("├╼ Retry      ⟳ Connection error (attempt {attempt}/3): down"),
                        format!("├╼ Wait      Waiting {}.0s before retry...", delay / 1000),
                    ]
                );
            }
            other => panic!("{other:?}"),
        }
    }
    transfer.step(None, TransferEvent::Sized { size: 0 });
    match transfer.step(None, TransferEvent::Refused { error: network("down") }) {
        TransferAction::Failed { lines, error } => {
            assert_eq!(plains(&lines), ["├╼ Failed      ✘ Maximum retries (3) exceeded"]);
            assert_eq!(error, network("down"));
        }
        other => panic!("{other:?}"),
    }
    assert_eq!(transfer.stage, Stage::Closed);
}

#[test]
fn a_broken_transfer_is_tried_again() {
    let mut transfer = receiving(7);
    let event = TransferEvent::Chunk { running: true, chunk: Err(network("reset")) };
    match transfer.step(None, event) {
        TransferAction::Retry { lines, delay_ms } => {
            assert_eq!(delay_ms, 1000);
            assert_eq!(plain(&lines[0]), "├╼ Retry      ⟳ Download error (attempt 1/3): reset");
        }
        other => panic!("{other:?}"),
    }
    assert_eq!(transfer.stage, Stage::Sizing);

    let mut transfer = receiving(7);
    transfer.step(None, TransferEvent::Chunk { running: true, chunk: Ok(1) });
    let full = IaGetError::FileSystem("disk full".to_string());
    let action = transfer.step(None, TransferEvent::Unwritten { error: full });
    assert!(matches!(action, TransferAction::Retry { .. }));
}

#[test]
fn an_interruption_ends_a_transfer() {
    let mut transfer = receiving(0);
    let event = TransferEvent::Chunk { running: false, chunk: Ok(5) };
    match transfer.step(None, event) {
        TransferAction::Failed { lines, error } => {
            assert!(lines.is_empty());
            assert!(error.is_interruption());
            assert_eq!(error.as_text(), "Download interrupted during file transfer");
        }
        other => panic!("{other:?}"),
    }

    let mut transfer = receiving(0);
    let event = TransferEvent::Chunk { running: true, chunk: Err(network("was interrupted")) };
    assert!(matches!(transfer.step(None, event), TransferAction::Failed { .. }));
    assert_eq!(transfer.failures, 0);

    // Before the content comes, only the number of attempts counts.
    let mut transfer = requesting(0);
    let event = TransferEvent::Refused { error: network("was interrupted") };
    assert!(matches!(transfer.step(None, event), TransferAction::Retry { .. }));
}

#[test]
fn cookies_that_cannot_be_sent_end_a_transfer() {
    let mut transfer = Transfer::new();
    match transfer.step(Some("\u{0}"), TransferEvent::Sized { size: 0 }) {
        TransferAction::Failed { lines, error } => {
            assert!(lines.is_empty());
            assert_eq!(
                error,
                network("Invalid cookie header value: failed to parse header value")
            );
        }
        other => panic!("{other:?}"),
    }
}

#[test]
fn pauses_double() {
    assert_eq!([retry_delay(1), retry_delay(2), retry_delay(3)], [1000, 2000, 4000]);
}

#[test]
fn finished_transfers_are_summed_up() {
    assert_eq!(
        plain(&transfer_summary(1536, 61, 0, "25.18 B")),
        "├╼ Downloaded   ↓ 1.50KB in 1m 1s (25.18 B/s)"
    );
}

// The download of one file

fn after_look(exists: bool, expected: Option<&str>) -> (FileDownload, FileAction) {
    let mut download = FileDownload::new(expected.map(str::to_string));
    let action = download.step(FileEvent::Found { exists });
    (download, action)
}

#[test]
fn missing_files_are_prepared() {
    let (download, action) = after_look(false, Some("abc"));
    assert!(matches!(action.task, FileTask::Prepare));
    assert!(action.status.is_empty() && action.lines.is_empty());
    assert_eq!(download.stage, FileStage::Preparing);
}

#[test]
fn existing_files_without_a_hash_are_complete() {
    let (download, action) = after_look(true, None);
    assert!(matches!(action.task, FileTask::Finish { result: Ok(()) }));
    assert_eq!(plains(&action.status), ["╰╼ Downloaded   ✔"]);
    assert_eq!(download.stage, FileStage::Closed);
}

#[test]
fn existing_files_are_judged_by_their_hash() {
    let (mut download, action) = after_look(true, Some("abc"));
    assert!(matches!(action.task, FileTask::Hash));
    let action = download.step(FileEvent::Hashed { hash: Ok("abc".to_string()) });
    assert!(matches!(action.task, FileTask::Finish { result: Ok(()) }));
    assert_eq!(plains(&action.status), ["╰╼ Downloaded   ✔"]);

    let (mut download, _) = after_look(true, Some("abc"));
    let action = download.step(FileEvent::Hashed { hash: Ok("ABC".to_string()) });
    assert!(matches!(action.task, FileTask::Prepare));
    assert_eq!(plains(&action.status), ["├╼ Partial      ▲"]);

    let (mut download, _) = after_look(true, Some("abc"));
    let denied = IaGetError::FileSystem("denied".to_string());
    let action = download.step(FileEvent::Hashed { hash: Err(denied) });
    assert!(matches!(action.task, FileTask::Prepare));
    assert_eq!(
        plains(&action.status),
        ["╰╼ Failed to calculate MD5 hash: denied", "├╼ Partial      ▲"]
    );
}

#[test]
fn a_signal_ends_a_download() {
    let (mut download, _) = after_look(true, Some("abc"));
    let mut hasher = FileHasher::new();
    let signal = hasher.feed(false, b"x").unwrap_err();
    assert!(signal.is_signal() && signal.is_interruption());
    let action = download.step(FileEvent::Hashed { hash: Err(signal.clone()) });
    match action.task {
        FileTask::Finish { result } => assert_eq!(result, Err(signal)),
        other => panic!("{other:?}"),
    }
}

#[test]
fn downloaded_files_are_checked() {
    let (mut download, _) = after_look(false, Some("abc"));
    let action = download.step(FileEvent::Prepared { result: Ok(()) });
    assert!(matches!(action.task, FileTask::Transfer));
    let action = download.step(FileEvent::Transferred { result: Ok(()) });
    assert!(matches!(action.task, FileTask::Hash));
    let action = download.step(FileEvent::Hashed { hash: Ok("abd".to_string()) });
    assert!(matches!(action.task, FileTask::Finish { result: Ok(()) }));
    assert_eq!(plains(&action.lines), ["╰╼ Hash         ✘ (abd) Expected (abc)"]);

    let (mut download, _) = after_look(false, Some("abc"));
    download.step(FileEvent::Prepared { result: Ok(()) });
    download.step(FileEvent::Transferred { result: Ok(()) });
    let action = download.step(FileEvent::Hashed { hash: Ok("abc".to_string()) });
    assert_eq!(plains(&action.lines), ["╰╼ Hash         ✔ (abc)"]);

    let (mut download, _) = after_look(false, None);
    download.step(FileEvent::Prepared { result: Ok(()) });
    let action = download.step(FileEvent::Transferred { result: Ok(()) });
    assert!(matches!(action.task, FileTask::Finish { result: Ok(()) }));
    assert_eq!(plains(&action.lines), ["- No MD5 hash provided for verification."]);
}

#[test]
fn errors_end_a_download() {
    let (mut download, _) = after_look(false, None);
    let action = download.step(FileEvent::Prepared { result: Err(network("x")) });
    assert!(matches!(action.task, FileTask::Finish { result: Err(_) }));

    let (mut download, _) = after_look(false, Some("abc"));
    download.step(FileEvent::Prepared { result: Ok(()) });
    let action = download.step(FileEvent::Transferred { result: Err(network("x")) });
    assert!(matches!(action.task, FileTask::Finish { result: Err(_) }));

    let (mut download, _) = after_look(false, Some("abc"));
    download.step(FileEvent::Prepared { result: Ok(()) });
    download.step(FileEvent::Transferred { result: Ok(()) });
    let action = download.step(FileEvent::Hashed { hash: Err(network("x")) });
    assert!(matches!(action.task, FileTask::Finish { result: Err(_) }));
}

// All files

#[test]
fn files_are_downloaded_one_after_the_other() {
    assert_eq!(next_file(Ok(()), 0, 2, true), NextFile::Download(0));
    assert_eq!(next_file(Ok(()), 1, 2, true), NextFile::Download(1));
    assert_eq!(next_file(Ok(()), 1, 2, false), NextFile::Interrupted);
    assert_eq!(next_file(Ok(()), 2, 2, true), NextFile::Complete);
    assert_eq!(next_file(Ok(()), 2, 2, false), NextFile::Complete);
    assert_eq!(next_file(Ok(()), 0, 0, true), NextFile::Complete);
}

#[test]
fn the_first_error_ends_the_sequence() {
    for running in [true, false] {
        assert_eq!(next_file(Err(network("x")), 1, 3, running), NextFile::Failed(network("x")));
        assert_eq!(next_file(Err(network("x")), 3, 3, running), NextFile::Failed(network("x")));
    }
}

#[test]
fn the_first_error_is_reported() {
    let mut outcome = Outcome::new();
    assert!(!outcome.note(TaskEnd::Done(Ok(()))));
    assert!(outcome.note(TaskEnd::Done(Err(network("first")))));
    assert!(!outcome.note(TaskEnd::Done(Err(network("second")))));
    assert!(!outcome.note(TaskEnd::Lost("cancelled".to_string())));
    assert_eq!(outcome.conclude(), (Err(network("first")), false));
}

#[test]
fn a_lost_download_is_an_error() {
    let mut outcome = Outcome::new();
    assert!(outcome.note(TaskEnd::Lost("panicked".to_string())));
    assert_eq!(outcome.conclude(), (Err(network("Download task failed: panicked")), false));
}

#[test]
fn an_interruption_outweighs_errors() {
    let mut outcome = Outcome::new();
    assert!(outcome.note(TaskEnd::Done(Err(network("first")))));
    let refused = begin_download(false).unwrap_err();
    assert_eq!(refused.as_text(), "Download interrupted before start");
    assert!(outcome.note(TaskEnd::Done(Err(refused))));
    assert_eq!(outcome.conclude(), (Ok(()), true));
    assert!(begin_download(true).is_ok());
}

#[test]
fn nothing_wrong_is_a_success() {
    let mut outcome = Outcome::new();
    outcome.note(TaskEnd::Done(Ok(())));
    assert_eq!(outcome.conclude(), (Ok(()), false));
}

// The cap on the rate

const SECOND: u128 = 1_000_000_000;

fn ask(limiter: &mut BandwidthLimiter, now: u128, bytes: u64) -> Grant {
    limiter.acquire(now, &mut Claim::new(bytes))
}

#[test]
fn a_full_bucket_lets_a_second_of_bytes_pass() {
    let mut limiter = BandwidthLimiter::new(1000, 0);
    assert_eq!(ask(&mut limiter, 0, 600), Grant::Pass);
    assert_eq!(ask(&mut limiter, 0, 600), Grant::Wait(200_000_000));
    // Asking takes nothing out.
    assert_eq!(ask(&mut limiter, 0, 600), Grant::Wait(200_000_000));
    assert_eq!(ask(&mut limiter, 200_000_000, 600), Grant::Pass);
    assert_eq!(limiter.tokens, 0);
}

#[test]
fn the_bucket_holds_no_more_than_a_second() {
    let mut limiter = BandwidthLimiter::new(1000, 0);
    assert_eq!(ask(&mut limiter, 0, 1000), Grant::Pass);
    assert_eq!(ask(&mut limiter, 100 * SECOND, 1000), Grant::Pass);
    assert_eq!(ask(&mut limiter, 100 * SECOND, 2), Grant::Wait(2_000_000));
    assert_eq!(ask(&mut limiter, u128::MAX, 1000), Grant::Pass);
}

#[test]
fn short_pauses_are_made_too() {
    let mut limiter = BandwidthLimiter::new(1000, 0);
    assert_eq!(ask(&mut limiter, 0, 1000), Grant::Pass);
    assert_eq!(ask(&mut limiter, 0, 1), Grant::Wait(1_000_000));
    let mut fast = BandwidthLimiter::new(3_000_000_000, 0);
    assert_eq!(ask(&mut fast, 0, 3_000_000_000), Grant::Pass);
    // A third of a nanosecond is rounded up.
    assert_eq!(ask(&mut fast, 0, 1), Grant::Wait(1));
    assert_eq!(ask(&mut fast, 1, 1), Grant::Pass);
    assert_eq!(fast.tokens, 2 * SECOND);
}

#[test]
fn empty_pieces_count_as_one_byte() {
    let mut limiter = BandwidthLimiter::new(10, 0);
    assert_eq!(ask(&mut limiter, 0, 0), Grant::Pass);
    assert_eq!(limiter.tokens, 9 * SECOND);
}

#[test]
fn large_pieces_are_charged_second_by_second() {
    let mut limiter = BandwidthLimiter::new(1024, 0);
    let mut claim = Claim::new(8192);
    let mut now: u128 = 0;
    let mut pauses = 0;
    while let Grant::Wait(nanos) = limiter.acquire(now, &mut claim) {
        pauses += 1;
        now += nanos as u128;
    }
    assert_eq!((pauses, now, claim.left), (7, 7 * SECOND, 0));

    // From an empty bucket it takes one pause more.
    let mut claim = Claim::new(2049);
    let mut pauses = 0;
    while let Grant::Wait(nanos) = limiter.acquire(now, &mut claim) {
        pauses += 1;
        now += nanos as u128;
    }
    assert_eq!(pauses, 3);
}

#[test]
fn all_pieces_together_stay_below_the_cap() {
    let mut limiter = BandwidthLimiter::new(5000, 0);
    let mut claims: Vec<(u64, Claim)> = (0..400u64)
        .map(|i| {
            let bytes = (i * 7919) % 12_000;
            (bytes, Claim::new(bytes))
        })
        .collect();
    let mut now: u128 = 0;
    let mut passed: u128 = 0;
    // Four transfers ask in turn.
    while !claims.is_empty() {
        let turn = claims.len().min(4);
        for k in (0..turn).rev() {
            if limiter.acquire(now, &mut claims[k].1) == Grant::Pass {
                passed += claims.remove(k).0 as u128;
            }
            assert!(passed * SECOND <= 5000 * (now + SECOND));
        }
        now += 17_000_000;
    }
}

// Hashes

#[test]
fn hashes_do_not_depend_on_the_pieces() {
    let text = b"abcdefghijklmnopqrstuvwxyz";
    for size in 1..=26 {
        let mut hasher = FileHasher::new();
        let mut processed = 0;
        for piece in text.chunks(size) {
            processed = hasher.feed(true, piece).unwrap();
        }
        assert_eq!(processed, 26);
        assert_eq!(hasher.finish(), "c3fcd3d76192e4007dfb496cca67e13b");
    }
    assert_eq!(FileHasher::new().finish(), "d41d8cd98f00b204e9800998ecf8427e");
}

#[test]
fn an_interrupted_hash_takes_nothing_in() {
    let mut hasher = FileHasher::new();
    hasher.feed(true, b"abc").unwrap();
    assert_eq!(
        hasher.feed(false, b"def"),
        Err(IaGetError::FileSystem("Hash calculation interrupted by signal".to_string()))
    );
    assert_eq!(hasher.finish(), "900150983cd24fb0d6963f7d28e17f72");
}

#[test]
fn bytes_have_two_digits() {
    assert_eq!(hex_of(&[0x00, 0x0f, 0xa5, 0xff]), "000fa5ff");
    assert_eq!(hex_of(&[]), "");
    assert_eq!(FileHasher::new().finish().len(), 32);
}

#[test]
fn large_files_show_their_progress() {
    assert!(!shows_hash_progress(LARGE_FILE_THRESHOLD));
    assert!(shows_hash_progress(2 * 1024 * 1024 + 1));
}
