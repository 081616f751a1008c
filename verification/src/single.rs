//! The download of one file: is it there, fetch it, check it.
//!
//! A [`FileDownload`] decides; whoever drives it performs the actions that it
//! asks for and reports what came of them.

use vstd::prelude::*;

use crate::error::IaGetError;
use crate::messages;
use crate::paint;
use crate::paint::{Line, Tone};
use crate::text;

verus! {

/// What a download waits for.
#[derive(Debug, Clone, Copy, PartialEq, Eq, Structural)]
pub enum FileStage {
    /// Whether the file is there.
    Looking,
    /// The hash of the file that is there.
    HashingExisting,
    /// The local file to be opened.
    Preparing,
    /// The transfer.
    Transferring,
    /// The hash of the file that was transferred.
    HashingDownloaded,
    /// Nothing any more.
    Closed,
}

/// What a download is told.
#[derive(Debug)]
pub enum FileEvent {
    /// Whether a file is there.
    Found { exists: bool },
    /// The hash of the file, or why it could not be computed.
    Hashed { hash: Result<String, IaGetError> },
    /// The directories of the file exist and it is open, or why not.
    Prepared { result: Result<(), IaGetError> },
    /// The transfer is complete, or why not.
    Transferred { result: Result<(), IaGetError> },
}

/// What a download asks for.
#[derive(Debug)]
pub enum FileTask {
    /// Compute the hash of the local file.
    Hash,
    /// Create the directories of the file and open it.
    Prepare,
    /// Transfer the content.
    Transfer,
    /// The download is over.
    Finish { result: Result<(), IaGetError> },
}

/// What a download says and asks for.
#[derive(Debug)]
pub struct FileAction {
    /// To be said at once.
    pub status: Vec<Line>,
    /// To be said when it is the turn of the file.
    pub lines: Vec<Line>,
    /// To be done.
    pub task: FileTask,
}

/// The download of one file.
#[derive(Debug)]
pub struct FileDownload {
    /// What it waits for.
    pub stage: FileStage,
    /// The hash that the file should have, where it is known.
    pub expected_md5: Option<String>,
}

// ---------------------------------------------------------------------------
// What is said
// ---------------------------------------------------------------------------

/// Said of a downloaded file whose hash was computed.
pub open spec fn hash_result(hash: Seq<char>, expected: Seq<char>) -> Seq<(Tone, Seq<char>)> {
    if hash == expected {
        messages::hash_matches(hash)
    } else {
        messages::hash_differs(hash, expected)
    }
}

/// Whether an action says just this.
pub open spec fn says(
    action: FileAction,
    status: Seq<Seq<(Tone, Seq<char>)>>,
    lines: Seq<Seq<(Tone, Seq<char>)>>,
) -> bool {
    paint::line_views(action.status@) == status && paint::line_views(action.lines@) == lines
}

/// Saying nothing.
pub open spec fn nothing() -> Seq<Seq<(Tone, Seq<char>)>> {
    Seq::empty()
}

// ---------------------------------------------------------------------------
// What happens
// ---------------------------------------------------------------------------

impl FileDownload {
    /// The hash that the file should have, where it is known.
    pub open spec fn expected(self) -> Option<Seq<char>> {
        text::option_text(self.expected_md5)
    }

    /// Whether the stage fits to what is known: only an expected hash is waited for.
    pub open spec fn wf(self) -> bool {
        self.stage is HashingExisting || self.stage is HashingDownloaded ==> self.expected_md5
            is Some
    }

    /// Whether the event can come now.
    pub open spec fn allows(self, event: FileEvent) -> bool {
        match event {
            FileEvent::Found { exists } => self.stage is Looking,
            FileEvent::Hashed { hash } => self.stage is HashingExisting || self.stage
                is HashingDownloaded,
            FileEvent::Prepared { result } => self.stage is Preparing,
            FileEvent::Transferred { result } => self.stage is Transferring,
        }
    }

    /// What the download waits for after an event.
    pub open spec fn next(self, event: FileEvent) -> FileStage {
        match event {
            FileEvent::Found { exists } => if !exists {
                FileStage::Preparing
            } else if self.expected_md5 is Some {
                FileStage::HashingExisting
            } else {
                FileStage::Closed
            },
            FileEvent::Hashed { hash } => if self.stage is HashingDownloaded {
                FileStage::Closed
            } else {
                match hash {
                    Ok(hash) => if Some(hash@) == self.expected() {
                        FileStage::Closed
                    } else {
                        FileStage::Preparing
                    },
                    Err(error) => if error.tells_signal() {
                        FileStage::Closed
                    } else {
                        FileStage::Preparing
                    },
                }
            },
            FileEvent::Prepared { result } => if result is Ok {
                FileStage::Transferring
            } else {
                FileStage::Closed
            },
            FileEvent::Transferred { result } => if result is Ok && self.expected_md5 is Some {
                FileStage::HashingDownloaded
            } else {
                FileStage::Closed
            },
        }
    }

    /// Whether an action is what an event calls for.
    pub open spec fn answers(self, event: FileEvent, action: FileAction) -> bool {
        match event {
            FileEvent::Found { exists } => if !exists {
                action.task is Prepare && says(action, nothing(), nothing())
            } else if self.expected_md5 is Some {
                action.task is Hash && says(action, nothing(), nothing())
            } else {
                &&& action.task is Finish
                &&& action.task->result is Ok
                &&& says(action, seq![messages::already_downloaded()], nothing())
            },
            FileEvent::Hashed { hash } => if self.stage is HashingDownloaded {
                &&& action.task is Finish
                &&& match hash {
                    Ok(hash) => {
                        &&& action.task->result is Ok
                        &&& says(action, nothing(), seq![hash_result(hash@, self.expected()->0)])
                    },
                    Err(error) => {
                        &&& action.task->result == Err::<(), IaGetError>(error)
                        &&& says(action, nothing(), nothing())
                    },
                }
            } else {
                match hash {
                    Ok(hash) => if Some(hash@) == self.expected() {
                        &&& action.task is Finish
                        &&& action.task->result is Ok
                        &&& says(action, seq![messages::already_downloaded()], nothing())
                    } else {
                        action.task is Prepare && says(action, seq![messages::partial()], nothing())
                    },
                    Err(error) => if error.tells_signal() {
                        &&& action.task is Finish
                        &&& action.task->result == Err::<(), IaGetError>(error)
                        &&& says(action, nothing(), nothing())
                    } else {
                        &&& action.task is Prepare
                        &&& says(
                            action,
                            seq![messages::hash_failed(error.message()), messages::partial()],
                            nothing(),
                        )
                    },
                }
            },
            FileEvent::Prepared { result } => match result {
                Ok(()) => action.task is Transfer && says(action, nothing(), nothing()),
                Err(error) => {
                    &&& action.task is Finish
                    &&& action.task->result == Err::<(), IaGetError>(error)
                    &&& says(action, nothing(), nothing())
                },
            },
            FileEvent::Transferred { result } => match result {
                Ok(()) => if self.expected_md5 is Some {
                    action.task is Hash && says(action, nothing(), nothing())
                } else {
                    &&& action.task is Finish
                    &&& action.task->result is Ok
                    &&& says(action, nothing(), seq![messages::no_hash()])
                },
                Err(error) => {
                    &&& action.task is Finish
                    &&& action.task->result == Err::<(), IaGetError>(error)
                    &&& says(action, nothing(), nothing())
                },
            },
        }
    }

    /// A download that has not begun.
    pub fn new(expected_md5: Option<String>) -> (r: FileDownload)
        ensures
            r.wf(),
            r.stage is Looking,
            r.expected_md5 == expected_md5,
    {
        FileDownload { stage: FileStage::Looking, expected_md5 }
    }

    /// Tests whether a hash is the expected one.
    fn matches(&self, hash: &String) -> (r: bool)
        ensures
            r == (Some(hash@) == self.expected()),
    {
        match &self.expected_md5 {
            Some(expected) => {
                let chars = text::chars_of(hash.as_str());
                text::is_text(&chars, expected.as_str())
            },
            None => false,
        }
    }

    /// Says what came of the hash of the downloaded file.
    fn hash_line(&self, hash: &String) -> (r: Line)
        requires
            self.expected_md5 is Some,
        ensures
            r@ == hash_result(hash@, self.expected()->0),
    {
        if self.matches(hash) {
            return messages::hash_matches_line(hash.as_str());
        }
        match &self.expected_md5 {
            Some(expected) => messages::hash_differs_line(hash.as_str(), expected.as_str()),
            None => messages::hash_matches_line(hash.as_str()),
        }
    }

    /// Takes note of an event and decides what to do next.
    pub fn step(&mut self, event: FileEvent) -> (r: FileAction)
        requires
            old(self).wf(),
            old(self).allows(event),
        ensures
            final(self).wf(),
            final(self).stage == old(self).next(event),
            final(self).expected_md5 == old(self).expected_md5,
            old(self).answers(event, r),
    {
        let mut status: Vec<Line> = Vec::new();
        let mut lines: Vec<Line> = Vec::new();
        let ghost start = *self;
        assert(paint::line_views(status@) =~= nothing());
        assert(paint::line_views(lines@) =~= nothing());
        let task = match event {
            FileEvent::Found { exists } => if !exists {
                self.stage = FileStage::Preparing;
                FileTask::Prepare
            } else if self.expected_md5.is_some() {
                self.stage = FileStage::HashingExisting;
                FileTask::Hash
            } else {
                self.stage = FileStage::Closed;
                status.push(messages::already_downloaded_line());
                assert(paint::line_views(status@) =~= seq![messages::already_downloaded()]);
                FileTask::Finish { result: Ok(()) }
            },
            FileEvent::Hashed { hash } => if let FileStage::HashingDownloaded = self.stage {
                self.stage = FileStage::Closed;
                match hash {
                    Ok(hash) => {
                        lines.push(self.hash_line(&hash));
                        assert(paint::line_views(lines@) =~= seq![
                            hash_result(hash@, start.expected()->0),
                        ]);
                        FileTask::Finish { result: Ok(()) }
                    },
                    Err(error) => FileTask::Finish { result: Err(error) },
                }
            } else {
                match hash {
                    Ok(hash) => if self.matches(&hash) {
                        self.stage = FileStage::Closed;
                        status.push(messages::already_downloaded_line());
                        assert(paint::line_views(status@) =~= seq![messages::already_downloaded()]);
                        FileTask::Finish { result: Ok(()) }
                    } else {
                        self.stage = FileStage::Preparing;
                        status.push(messages::partial_line());
                        assert(paint::line_views(status@) =~= seq![messages::partial()]);
                        FileTask::Prepare
                    },
                    Err(error) => if error.is_signal() {
                        self.stage = FileStage::Closed;
                        FileTask::Finish { result: Err(error) }
                    } else {
                        self.stage = FileStage::Preparing;
                        status.push(messages::hash_failed_line(error.as_text()));
                        status.push(messages::partial_line());
                        assert(paint::line_views(status@) =~= seq![
                            messages::hash_failed(error.message()),
                            messages::partial(),
                        ]);
                        FileTask::Prepare
                    },
                }
            },
            FileEvent::Prepared { result } => match result {
                Ok(()) => {
                    self.stage = FileStage::Transferring;
                    FileTask::Transfer
                },
                Err(error) => {
                    self.stage = FileStage::Closed;
                    FileTask::Finish { result: Err(error) }
                },
            },
            FileEvent::Transferred { result } => match result {
                Ok(()) => if self.expected_md5.is_some() {
                    self.stage = FileStage::HashingDownloaded;
                    FileTask::Hash
                } else {
                    self.stage = FileStage::Closed;
                    lines.push(messages::no_hash_line());
                    assert(paint::line_views(lines@) =~= seq![messages::no_hash()]);
                    FileTask::Finish { result: Ok(()) }
                },
                Err(error) => {
                    self.stage = FileStage::Closed;
                    FileTask::Finish { result: Err(error) }
                },
            },
        };
        FileAction { status, lines, task }
    }
}

// ---------------------------------------------------------------------------
// Laws
// ---------------------------------------------------------------------------

/// How far a stage is from the end.
pub open spec fn distance(stage: FileStage) -> nat {
    match stage {
        FileStage::Looking => 5,
        FileStage::HashingExisting => 4,
        FileStage::Preparing => 3,
        FileStage::Transferring => 2,
        FileStage::HashingDownloaded => 1,
        FileStage::Closed => 0,
    }
}

/// Every event brings a download nearer to its end: it never looks, transfers or
/// checks twice, and ends after at most five events.
pub proof fn law_download_moves_on(download: FileDownload, event: FileEvent)
    requires
        download.wf(),
        download.allows(event),
    ensures
        distance(download.next(event)) < distance(download.stage),
{
}

/// Nothing is done any more once a download is over, and it is over exactly where
/// its result is told.
pub proof fn law_result_is_told_at_the_end(
    download: FileDownload,
    event: FileEvent,
    action: FileAction,
)
    requires
        download.wf(),
        download.allows(event),
        download.answers(event, action),
    ensures
        download.next(event) is Closed <==> action.task is Finish,
{
}

/// A file is passed over without a transfer only where it is there and either no
/// hash is known of it or its hash is the expected one.
pub proof fn law_only_complete_files_are_passed_over(
    download: FileDownload,
    event: FileEvent,
    action: FileAction,
)
    requires
        download.wf(),
        download.stage is Looking || download.stage is HashingExisting,
        download.allows(event),
        download.answers(event, action),
        action.task is Finish,
        action.task->result is Ok,
    ensures
        match event {
            FileEvent::Found { exists } => exists && download.expected() is None,
            FileEvent::Hashed { hash } => hash is Ok && download.expected() == Some(
                hash->Ok_0@,
            ),
            _ => false,
        },
{
}

/// A file that is there but whose hash is another one, or cannot be computed, is
/// transferred again, unless the user interrupts the program.
pub proof fn law_incomplete_files_are_transferred(
    download: FileDownload,
    hash: Result<String, IaGetError>,
    action: FileAction,
)
    requires
        download.wf(),
        download.stage is HashingExisting,
        download.answers((FileEvent::Hashed { hash }), action),
        match hash {
            Ok(hash) => download.expected() != Some(hash@),
            Err(error) => !error.tells_signal(),
        },
    ensures
        action.task is Prepare,
        download.next((FileEvent::Hashed { hash })) is Preparing,
{
}

// ---------------------------------------------------------------------------
// Runs
// ---------------------------------------------------------------------------

/// The download after some events.
pub open spec fn after(start: FileDownload, events: Seq<FileEvent>) -> FileDownload
    decreases events.len(),
{
    if events.len() == 0 {
        start
    } else {
        let before = after(start, events.drop_last());
        FileDownload { stage: before.next(events.last()), expected_md5: before.expected_md5 }
    }
}

/// Whether the events can come one after the other.
pub open spec fn run(start: FileDownload, events: Seq<FileEvent>) -> bool
    decreases events.len(),
{
    events.len() > 0 ==> {
        &&& run(start, events.drop_last())
        &&& after(start, events.drop_last()).allows(events.last())
    }
}

/// What the stage tells of the events before it.
proof fn lemma_history(start: FileDownload, events: Seq<FileEvent>)
    requires
        start.stage is Looking,
        run(start, events),
    ensures
        ({
            let now = after(start, events);
            &&& now.wf()
            &&& now.expected_md5 == start.expected_md5
            &&& match now.stage {
                FileStage::Looking => events.len() == 0,
                FileStage::HashingExisting => {
                    &&& events.len() == 1
                    &&& events[0] is Found
                    &&& events[0]->exists
                },
                FileStage::HashingDownloaded => {
                    &&& events.len() > 0
                    &&& events.last() is Transferred
                    &&& events.last()->Transferred_result is Ok
                },
                _ => true,
            }
        }),
    decreases events.len(),
{
    if events.len() > 0 {
        let head = events.drop_last();
        lemma_history(start, head);
    }
}

/// A download succeeds only for one of two reasons: the file was there, and either
/// no hash is known of it or its hash was the expected one; or its content was
/// transferred. Where content was transferred and a hash is known, the file that
/// resulted was hashed too.
pub proof fn law_success_means_the_file_is_there(
    start: FileDownload,
    events: Seq<FileEvent>,
    action: FileAction,
)
    requires
        start.stage is Looking,
        events.len() > 0,
        run(start, events),
        after(start, events.drop_last()).answers(events.last(), action),
        action.task is Finish,
        action.task->result is Ok,
    ensures
        ({
            let transferred = exists|i: int|
                0 <= i < events.len() && (#[trigger] events[i]) is Transferred
                    && events[i]->Transferred_result is Ok;
            let complete = {
                &&& events[0] is Found
                &&& events[0]->exists
                &&& match start.expected_md5 {
                    Some(expected) => events.len() == 2 && events[1] is Hashed
                        && events[1]->hash is Ok && events[1]->hash->Ok_0@ == expected@,
                    None => events.len() == 1,
                }
            };
            &&& transferred || complete
            &&& !complete && start.expected_md5 is Some ==> {
                &&& events.len() >= 2
                &&& events[events.len() - 2] is Transferred
                &&& events[events.len() - 2]->Transferred_result is Ok
                &&& events.last() is Hashed
                &&& events.last()->hash is Ok
            }
        }),
{
    let head = events.drop_last();
    lemma_history(start, head);
    let before = after(start, head);
    match before.stage {
        FileStage::Transferring => {
            assert(events[events.len() - 1] is Transferred);
        },
        FileStage::HashingDownloaded => {
            assert(events[events.len() - 2] == head.last());
        },
        _ => {},
    }
}

/// Once a file is open its content is transferred, whether a hash is known or not.
pub proof fn law_open_files_are_transferred(
    download: FileDownload,
    action: FileAction,
)
    requires
        download.stage is Preparing,
        download.answers((FileEvent::Prepared { result: Ok(()) }), action),
    ensures
        action.task is Transfer,
        download.next((FileEvent::Prepared { result: Ok(()) })) is Transferring,
{
}

/// A file that is not there is fetched, whether a hash is known or not.
pub proof fn law_missing_files_are_fetched(download: FileDownload, action: FileAction)
    requires
        download.stage is Looking,
        download.answers((FileEvent::Found { exists: false }), action),
    ensures
        action.task is Prepare,
        download.next((FileEvent::Found { exists: false })) is Preparing,
{
}

/// A complete file is left alone: one that is there and of which no hash is known,
/// or whose hash is the expected one.
pub proof fn law_complete_files_are_left_alone(
    download: FileDownload,
    hash: String,
    action: FileAction,
)
    requires
        download.wf(),
        match download.expected_md5 {
            Some(expected) => {
                &&& download.stage is HashingExisting
                &&& hash@ == expected@
                &&& download.answers((FileEvent::Hashed { hash: Ok(hash) }), action)
            },
            None => {
                &&& download.stage is Looking
                &&& download.answers((FileEvent::Found { exists: true }), action)
            },
        },
    ensures
        action.task is Finish,
        action.task->result is Ok,
{
}

/// What goes wrong while a file is opened, transferred or hashed afterwards is
/// reported as it is.
pub proof fn law_errors_are_reported(
    download: FileDownload,
    event: FileEvent,
    error: IaGetError,
    action: FileAction,
)
    requires
        download.wf(),
        download.allows(event),
        download.answers(event, action),
        ({
            ||| event == (FileEvent::Prepared { result: Err(error) })
            ||| event == (FileEvent::Transferred { result: Err(error) })
            ||| download.stage is HashingDownloaded && event == (FileEvent::Hashed {
                hash: Err(error),
            })
            ||| download.stage is HashingExisting && error.tells_signal() && event == (
            FileEvent::Hashed { hash: Err(error) })
        }),
    ensures
        action.task is Finish,
        action.task->result == Err::<(), IaGetError>(error),
{
}

/// After a transfer the user is told whether the hash is the expected one: with a
/// check mark exactly where it is, and with a cross and both hashes exactly where it is
/// not.
pub proof fn law_hash_is_told(download: FileDownload, hash: String, action: FileAction)
    requires
        download.stage is HashingDownloaded,
        download.expected_md5 is Some,
        download.answers((FileEvent::Hashed { hash: Ok(hash) }), action),
    ensures
        action.lines@.len() == 1,
        action.lines@[0]@.contains((Tone::Good, "✔"@)) <==> hash@ == download.expected_md5->0@,
        action.lines@[0]@.contains((Tone::Bad, "✘"@)) <==> hash@ != download.expected_md5->0@,
        hash@ != download.expected_md5->0@ ==> {
            &&& action.lines@[0]@.contains((Tone::Wrong, hash@))
            &&& action.lines@[0]@.contains((Tone::Faint, download.expected_md5->0@))
        },
{
    let expected = download.expected_md5->0@;
    let line = action.lines@[0]@;
    let views = paint::line_views(action.lines@);
    assert(views.len() == 1);
    assert(views[0] == line);
    assert(line == hash_result(hash@, expected));
    assert(line[4].0 == Tone::Good || line[4].0 == Tone::Bad);
    if hash@ == expected {
        assert(line[4] == (Tone::Good, "✔"@));
        assert(forall|i: int| 0 <= i < line.len() ==> (#[trigger] line[i]).0 != Tone::Bad);
    } else {
        assert(line[4] == (Tone::Bad, "✘"@));
        assert(line[6] == (Tone::Wrong, hash@));
        assert(line[8] == (Tone::Faint, expected));
        assert(forall|i: int| 0 <= i < line.len() ==> (#[trigger] line[i]).0 != Tone::Good);
    }
}

/// The user is told what was found: that a file is there already, that only a part of it
/// is and why its hash is not known, or that a downloaded file cannot be checked. Where
/// nothing has been decided, nothing is said.
pub proof fn law_findings_are_told(download: FileDownload, event: FileEvent, action: FileAction)
    requires
        download.wf(),
        download.allows(event),
        download.answers(event, action),
        !(download.stage is HashingDownloaded),
    ensures
        match event {
            FileEvent::Found { exists } => {
                &&& action.lines@.len() == 0
                &&& if exists && download.expected_md5 is None {
                    &&& action.status@.len() == 1
                    &&& action.status@[0]@.contains((Tone::Label, "Downloaded"@))
                    &&& action.status@[0]@.contains((Tone::Good, "✔"@))
                } else {
                    action.status@.len() == 0
                }
            },
            FileEvent::Hashed { hash: Ok(hash) } => {
                &&& action.lines@.len() == 0
                &&& action.status@.len() == 1
                &&& if hash@ == download.expected_md5->0@ {
                    &&& action.status@[0]@.contains((Tone::Label, "Downloaded"@))
                    &&& action.status@[0]@.contains((Tone::Good, "✔"@))
                } else {
                    &&& action.status@[0]@.contains((Tone::Label, "Partial"@))
                    &&& action.status@[0]@.contains((Tone::Warning, "▲"@))
                }
            },
            FileEvent::Hashed { hash: Err(error) } => {
                &&& action.lines@.len() == 0
                &&& if text::has_piece(error.message(), "interrupted by signal"@) {
                    action.status@.len() == 0
                } else {
                    &&& action.status@.len() == 2
                    &&& action.status@[0]@.contains((Tone::Plain, error.message()))
                    &&& action.status@[1]@.contains((Tone::Label, "Partial"@))
                }
            },
            FileEvent::Prepared { result } => action.status@.len() == 0 && action.lines@.len() == 0,
            FileEvent::Transferred { result } => {
                &&& action.status@.len() == 0
                &&& if result is Ok && download.expected_md5 is None {
                    &&& action.lines@.len() == 1
                    &&& action.lines@[0]@.contains(
                        (Tone::Faint, "No MD5 hash provided for verification."@),
                    )
                } else {
                    action.lines@.len() == 0
                }
            },
        },
{
    let status = paint::line_views(action.status@);
    let lines = paint::line_views(action.lines@);
    assert(status.len() == action.status@.len());
    assert(lines.len() == action.lines@.len());
    assert(forall|i: int| 0 <= i < status.len() ==> #[trigger] status[i] == action.status@[i]@);
    assert(forall|i: int| 0 <= i < lines.len() ==> #[trigger] lines[i] == action.lines@[i]@);
    assert(messages::already_downloaded()[2] == (Tone::Label, "Downloaded"@));
    assert(messages::already_downloaded()[4] == (Tone::Good, "✔"@));
    assert(messages::partial()[2] == (Tone::Label, "Partial"@));
    assert(messages::partial()[4] == (Tone::Warning, "▲"@));
    assert(messages::no_hash()[2] == (Tone::Faint, "No MD5 hash provided for verification."@));
    if let FileEvent::Hashed { hash: Err(error) } = event {
        assert(messages::hash_failed(error.message())[4] == (Tone::Plain, error.message()));
    }
    if action.status@.len() > 0 {
        assert(status[0] == action.status@[0]@);
    }
    if action.status@.len() > 1 {
        assert(status[1] == action.status@[1]@);
    }
    if action.lines@.len() > 0 {
        assert(lines[0] == action.lines@[0]@);
    }
}

} // verus!
