//! The downloads of all files, one after the other or in parallel.

use vstd::prelude::*;

use crate::config;
use crate::config::Config;
use crate::error::IaGetError;
use crate::text;

verus! {

// ---------------------------------------------------------------------------
// Options
// ---------------------------------------------------------------------------

/// How files are downloaded.
#[derive(Debug, Clone, Copy, PartialEq, Eq, Structural)]
pub struct DownloadOptions {
    /// The rate of all downloads together, in bytes per second; none where it is
    /// not limited.
    pub max_bytes_per_sec: Option<u64>,
    /// Whether files are downloaded in parallel.
    pub multithreading: bool,
    /// How many files are downloaded at a time.
    pub thread_count: u32,
}

impl Default for DownloadOptions {
    fn default() -> (r: Self)
        ensures
            r == (DownloadOptions {
                max_bytes_per_sec: None,
                multithreading: false,
                thread_count: 4,
            }),
    {
        DownloadOptions { max_bytes_per_sec: None, multithreading: false, thread_count: 4 }
    }
}

/// How many files may be downloaded at a time: one, or as many as there are
/// threads, but at least one.
pub open spec fn slots(multithreading: bool, thread_count: u32) -> u32 {
    if multithreading && thread_count > 1 {
        thread_count
    } else {
        1
    }
}

/// How many files may be downloaded at a time.
pub fn concurrent_download_slots(options: DownloadOptions) -> (r: u32)
    ensures
        r == slots(options.multithreading, options.thread_count),
{
    if options.multithreading && options.thread_count > 1 {
        options.thread_count
    } else {
        1
    }
}

/// How many connections to a host are kept open.
pub fn connection_pool_size(settings: &Config) -> (r: u32)
    ensures
        r == slots(settings.multithreading, settings.thread_count),
{
    if settings.multithreading && settings.thread_count > 1 {
        settings.thread_count
    } else {
        1
    }
}

/// The options that follow from the settings.
pub fn download_options(settings: &Config) -> (r: DownloadOptions)
    requires
        settings.max_bandwidth_kbps * 1024 <= u64::MAX,
    ensures
        r.multithreading == settings.multithreading,
        r.thread_count == settings.thread_count,
        match r.max_bytes_per_sec {
            Some(rate) => settings.max_bandwidth_kbps >= 0 && rate == settings.max_bandwidth_kbps
                * 1024,
            None => settings.max_bandwidth_kbps < 0,
        },
{
    DownloadOptions {
        max_bytes_per_sec: config::max_bytes_per_second(settings.max_bandwidth_kbps),
        multithreading: settings.multithreading,
        thread_count: settings.thread_count,
    }
}

/// The pool of connections and the downloads are of one size: at least one, and
/// just one where files are not downloaded in parallel.
pub proof fn law_slots(multithreading: bool, thread_count: u32)
    ensures
        slots(multithreading, thread_count) >= 1,
        !multithreading ==> slots(multithreading, thread_count) == 1,
        multithreading && thread_count >= 1 ==> slots(multithreading, thread_count)
            == thread_count,
{
}

// ---------------------------------------------------------------------------
// One after the other
// ---------------------------------------------------------------------------

/// What to do next where files are downloaded one after the other.
#[derive(Debug, PartialEq, Eq)]
pub enum NextFile {
    /// Download this file.
    Download(usize),
    /// Report the error of the last download; the remaining files are not touched.
    Failed(IaGetError),
    /// Leave the remaining files for another time.
    Interrupted,
    /// All files are done.
    Complete,
}

/// What follows the first `done` files, the last of which ended with `last`.
pub open spec fn following(
    last: Result<(), IaGetError>,
    done: usize,
    total: usize,
    running: bool,
) -> NextFile {
    match last {
        Err(error) => NextFile::Failed(error),
        Ok(()) => if done >= total {
            NextFile::Complete
        } else if running {
            NextFile::Download(done)
        } else {
            NextFile::Interrupted
        },
    }
}

/// Decides what to do after the first `done` files. `last` is how the last of them
/// ended, and success where there is none; `running` says whether the user has let
/// the program go on.
pub fn next_file(
    last: Result<(), IaGetError>,
    done: usize,
    total: usize,
    running: bool,
) -> (r: NextFile)
    ensures
        r == following(last, done, total, running),
{
    match last {
        Err(error) => NextFile::Failed(error),
        Ok(()) => if done >= total {
            NextFile::Complete
        } else if running {
            NextFile::Download(done)
        } else {
            NextFile::Interrupted
        },
    }
}

/// How downloading one after the other ends, from the state after `done` files on,
/// and how many files were touched then. `results` holds how each file ends that
/// is downloaded, and `running` whether the program may go on before each.
pub open spec fn sequence(
    results: Seq<Result<(), IaGetError>>,
    running: Seq<bool>,
    done: usize,
    total: usize,
) -> (NextFile, nat)
    decreases total - done,
{
    let last = if done == 0 {
        Ok(())
    } else {
        results[done - 1]
    };
    match following(last, done, total, running[done as int]) {
        NextFile::Download(i) => if done < total {
            sequence(results, running, (done + 1) as usize, total)
        } else {
            (NextFile::Complete, done as nat)
        },
        end => (end, done as nat),
    }
}

/// Files are downloaded one at a time and in their order. The first that fails
/// ends the run with its error, and a stop that is seen before a file starts ends
/// it without one; the later files are not touched either way. Without files, or
/// where all succeed, the run is complete.
pub proof fn law_sequence_stops_at_the_first_error(
    results: Seq<Result<(), IaGetError>>,
    running: Seq<bool>,
    done: usize,
    total: usize,
)
    requires
        done <= total,
        forall|i: int| 0 <= i < done ==> #[trigger] running[i],
        forall|i: int| 0 <= i < done - 1 ==> (#[trigger] results[i]) is Ok,
    ensures
        ({
            let (end, touched) = sequence(results, running, done, total);
            &&& done <= touched <= total
            &&& forall|i: int| 0 <= i < touched ==> #[trigger] running[i]
            &&& forall|i: int| 0 <= i < touched - 1 ==> (#[trigger] results[i]) is Ok
            &&& match end {
                NextFile::Failed(error) => {
                    touched > 0 && results[touched - 1] == Err::<(), IaGetError>(error)
                },
                NextFile::Interrupted => {
                    &&& touched < total
                    &&& !running[touched as int]
                    &&& touched > 0 ==> results[touched - 1] is Ok
                },
                NextFile::Complete => {
                    touched == total && (touched > 0 ==> results[touched - 1] is Ok)
                },
                NextFile::Download(i) => false,
            }
        }),
    decreases total - done,
{
    let last = if done == 0 {
        Ok(())
    } else {
        results[done - 1]
    };
    if following(last, done, total, running[done as int]) is Download {
        assert forall|i: int| 0 <= i < done implies (#[trigger] results[i]) is Ok by {
            if i == done - 1 {
                assert(last is Ok);
            }
        }
        law_sequence_stops_at_the_first_error(results, running, (done + 1) as usize, total);
    }
}

// ---------------------------------------------------------------------------
// In parallel
// ---------------------------------------------------------------------------

/// Lets a download begin whose turn has come, unless the user has interrupted the
/// program.
pub fn begin_download(running: bool) -> (r: Result<(), IaGetError>)
    ensures
        match r {
            Ok(()) => running,
            Err(e) => {
                &&& !running
                &&& e is FileSystem
                &&& e.message() == "Download interrupted before start"@
            },
        },
{
    if running {
        Ok(())
    } else {
        Err(IaGetError::FileSystem("Download interrupted before start".to_owned()))
    }
}

/// How a download ended.
#[derive(Debug)]
pub enum TaskEnd {
    /// With a result.
    Done(Result<(), IaGetError>),
    /// Without one: it was broken off.
    Lost(String),
}

/// What the ends of parallel downloads amount to.
#[derive(Debug)]
pub struct Outcome {
    /// The first error.
    pub first_error: Option<IaGetError>,
    /// Whether the user interrupted a download.
    pub interrupted: bool,
}

/// A failure of a download.
pub enum Failure {
    /// The error with which it ended.
    Error(IaGetError),
    /// What was said of a download that was broken off.
    Lost(Seq<char>),
}

/// Whether an error is the report of a failure.
pub open spec fn reports(error: IaGetError, failure: Failure) -> bool {
    match failure {
        Failure::Error(e) => error == e,
        Failure::Lost(message) => error is Network && error.message() == "Download task failed: "@
            + message,
    }
}

/// Whether a download ended because the user interrupted it.
pub open spec fn is_interrupted(end: TaskEnd) -> bool {
    end is Done && end->Done_0 is Err && end->Done_0->Err_0.tells_interruption()
}

/// The failure with which a download ended, if it failed.
pub open spec fn failure_of(end: TaskEnd) -> Option<Failure> {
    match end {
        TaskEnd::Done(Ok(())) => None,
        TaskEnd::Done(Err(e)) => if e.tells_interruption() {
            None
        } else {
            Some(Failure::Error(e))
        },
        TaskEnd::Lost(message) => Some(Failure::Lost(message@)),
    }
}

/// Whether some download was interrupted.
pub open spec fn any_interrupted(ends: Seq<TaskEnd>) -> bool {
    exists|i: int| 0 <= i < ends.len() && is_interrupted(#[trigger] ends[i])
}

/// The first failure, in the order in which the downloads ended.
pub open spec fn first_failure(ends: Seq<TaskEnd>) -> Option<Failure>
    decreases ends.len(),
{
    if ends.len() == 0 {
        None
    } else {
        let before = first_failure(ends.drop_last());
        if before is Some {
            before
        } else {
            failure_of(ends.last())
        }
    }
}

impl Outcome {
    /// Whether this is what the given ends amount to.
    pub open spec fn sums_up(self, ends: Seq<TaskEnd>) -> bool {
        &&& self.interrupted == any_interrupted(ends)
        &&& match self.first_error {
            Some(error) => first_failure(ends) is Some && reports(error, first_failure(ends)->0),
            None => first_failure(ends) is None,
        }
    }

    /// No download has ended.
    pub fn new() -> (r: Outcome)
        ensures
            r.first_error is None,
            !r.interrupted,
            r.sums_up(Seq::empty()),
    {
        Outcome { first_error: None, interrupted: false }
    }

    /// Takes note of the end of a download. Returns whether the others are to be
    /// broken off.
    pub fn note(&mut self, end: TaskEnd) -> (r: bool)
        ensures
            r == (is_interrupted(end) || (old(self).first_error is None && failure_of(end)
                is Some)),
            final(self).interrupted == (old(self).interrupted || is_interrupted(end)),
            match old(self).first_error {
                Some(error) => final(self).first_error == Some(error),
                None => match failure_of(end) {
                    Some(failure) => final(self).first_error is Some && reports(
                        final(self).first_error->0,
                        failure,
                    ),
                    None => final(self).first_error is None,
                },
            },
            forall|ends: Seq<TaskEnd>| #[trigger]
                old(self).sums_up(ends) ==> final(self).sums_up(ends.push(end)),
    {
        let ghost before = *self;
        let failed = match end {
            TaskEnd::Done(Ok(())) => false,
            TaskEnd::Done(Err(error)) => if error.is_interruption() {
                self.interrupted = true;
                true
            } else if self.first_error.is_none() {
                self.first_error = Some(error);
                true
            } else {
                false
            },
            TaskEnd::Lost(message) => if self.first_error.is_none() {
                let error = text::between("Download task failed: ", message.as_str(), "");
                proof {
                    reveal_strlit("");
                    assert(error@ =~= "Download task failed: "@ + message@);
                }
                self.first_error = Some(IaGetError::Network(error));
                true
            } else {
                false
            },
        };
        proof {
            assert forall|ends: Seq<TaskEnd>| #[trigger] before.sums_up(ends) implies self.sums_up(
                ends.push(end),
            ) by {
                let all = ends.push(end);
                assert(all.drop_last() =~= ends);
                assert(all[ends.len() as int] == end);
                assert(forall|i: int| 0 <= i < ends.len() ==> all[i] == ends[i]);
                if any_interrupted(ends) {
                    let i = choose|i: int|
                        0 <= i < ends.len() && is_interrupted(#[trigger] ends[i]);
                    assert(is_interrupted(all[i]));
                }
            }
        }
        failed
    }

    /// The result of all downloads: none where the user interrupted them, who
    /// knows it; else the first error; else success. Also returns whether the
    /// user is to be told how to go on.
    pub fn conclude(self) -> (r: (Result<(), IaGetError>, bool))
        ensures
            r.1 == self.interrupted,
            match r.0 {
                Ok(()) => self.interrupted || self.first_error is None,
                Err(error) => !self.interrupted && self.first_error == Some(error),
            },
    {
        if self.interrupted {
            return (Ok(()), true);
        }
        match self.first_error {
            Some(error) => (Err(error), false),
            None => (Ok(()), false),
        }
    }
}

/// A download that was not let begin counts as interrupted, not as failed.
pub proof fn law_refused_begin_is_an_interruption(e: IaGetError)
    requires
        e.message() == "Download interrupted before start"@,
    ensures
        is_interrupted(TaskEnd::Done(Err(e))),
        failure_of(TaskEnd::Done(Err(e))) is None,
{
    reveal_strlit("interrupted");
    reveal_strlit("Download interrupted before start");
    let piece = "interrupted"@;
    assert(e.message().subrange(9, 20) =~= piece) by {
        assert forall|j: int| 0 <= j < 11 implies e.message()[9 + j] == piece[j] by {}
    }
    assert(text::occurs_at(e.message(), piece, 9));
}

/// All downloads succeeded exactly where none was interrupted and none failed.
pub proof fn law_success_means_all_succeeded(ends: Seq<TaskEnd>)
    ensures
        !any_interrupted(ends) && first_failure(ends) is None <==> forall|i: int|
            0 <= i < ends.len() ==> (#[trigger] ends[i]) is Done && ends[i]->Done_0 is Ok,
    decreases ends.len(),
{
    if ends.len() > 0 {
        let head = ends.drop_last();
        law_success_means_all_succeeded(head);
        assert(forall|i: int| 0 <= i < head.len() ==> head[i] == ends[i]);
        assert(any_interrupted(ends) == (any_interrupted(head) || is_interrupted(ends.last()))) by {
            if any_interrupted(head) {
                let i = choose|i: int| 0 <= i < head.len() && is_interrupted(#[trigger] head[i]);
                assert(is_interrupted(ends[i]));
            }
            if is_interrupted(ends.last()) {
                assert(is_interrupted(ends[ends.len() - 1]));
            }
            if any_interrupted(ends) && !is_interrupted(ends.last()) {
                let i = choose|i: int| 0 <= i < ends.len() && is_interrupted(#[trigger] ends[i]);
                assert(is_interrupted(head[i]));
            }
        }
        if forall|i: int|
            0 <= i < ends.len() ==> (#[trigger] ends[i]) is Done && ends[i]->Done_0 is Ok {
            assert(ends[ends.len() - 1] is Done);
        }
        if !any_interrupted(ends) && first_failure(ends) is None {
            assert forall|i: int| 0 <= i < ends.len() implies (#[trigger] ends[i]) is Done
                && ends[i]->Done_0 is Ok by {
                if i < head.len() {
                    assert(head[i] is Done);
                }
            }
        }
    }
}

/// The error that is reported belongs to the first download that failed: those
/// that ended before it succeeded or were interrupted.
pub proof fn law_first_failure_is_reported(ends: Seq<TaskEnd>)
    requires
        first_failure(ends) is Some,
    ensures
        exists|i: int|
            0 <= i < ends.len() && failure_of(#[trigger] ends[i]) == first_failure(ends) && (
            forall|j: int| 0 <= j < i ==> failure_of(#[trigger] ends[j]) is None),
    decreases ends.len(),
{
    let head = ends.drop_last();
    if first_failure(head) is Some {
        law_first_failure_is_reported(head);
        let i = choose|i: int|
            0 <= i < head.len() && failure_of(#[trigger] head[i]) == first_failure(head) && (
            forall|j: int| 0 <= j < i ==> failure_of(#[trigger] head[j]) is None);
        assert(ends[i] == head[i]);
        assert forall|j: int| 0 <= j < i implies failure_of(#[trigger] ends[j]) is None by {
            assert(ends[j] == head[j]);
        }
    } else {
        lemma_no_failure(head);
        let i = ends.len() - 1;
        assert(failure_of(ends[i]) == first_failure(ends));
        assert forall|j: int| 0 <= j < i implies failure_of(#[trigger] ends[j]) is None by {
            assert(ends[j] == head[j]);
        }
    }
}

/// Where there is no first failure there is none.
proof fn lemma_no_failure(ends: Seq<TaskEnd>)
    requires
        first_failure(ends) is None,
    ensures
        forall|j: int| 0 <= j < ends.len() ==> failure_of(#[trigger] ends[j]) is None,
    decreases ends.len(),
{
    if ends.len() > 0 {
        let head = ends.drop_last();
        lemma_no_failure(head);
        assert forall|j: int| 0 <= j < ends.len() implies failure_of(#[trigger] ends[j]) is None by {
            if j < head.len() {
                assert(ends[j] == head[j]);
            }
        }
    }
}

/// A download fails with the error that it ended with, unless that tells of an
/// interruption, and a download that was broken off fails with what was said of it.
pub proof fn law_failures_are_reported_as_they_are(
    e: IaGetError,
    message: String,
    reported: IaGetError,
)
    ensures
        !text::has_piece(e.message(), "interrupted"@) ==> {
            &&& failure_of(TaskEnd::Done(Err(e))) is Some
            &&& reports(reported, failure_of(TaskEnd::Done(Err(e)))->0) <==> reported == e
        },
        text::has_piece(e.message(), "interrupted"@) ==> is_interrupted(TaskEnd::Done(Err(e)))
            && failure_of(TaskEnd::Done(Err(e))) is None,
        failure_of(TaskEnd::Lost(message)) is Some,
        reports(reported, failure_of(TaskEnd::Lost(message))->0) ==> reported.message()
            == "Download task failed: "@ + message@,
        failure_of(TaskEnd::Done(Ok(()))) is None,
        !is_interrupted(TaskEnd::Done(Ok(()))),
{
}

/// The files are taken in turn: as long as all goes well, the file that follows the
/// first `done` ones is the one with that index. A stop leaves it for another time,
/// and an error is reported before anything else.
pub proof fn law_files_are_taken_in_turn(done: usize, total: usize, error: IaGetError, running: bool)
    ensures
        done < total ==> following(Ok(()), done, total, true) == NextFile::Download(done),
        done < total ==> following(Ok(()), done, total, false) == NextFile::Interrupted,
        following(Ok(()), total, total, running) == NextFile::Complete,
        following(Err(error), done, total, running) == NextFile::Failed(error),
{
}

} // verus!
