//! The transfer of one file: resuming, retrying and giving up.
//!
//! A [`Transfer`] decides; whoever drives it performs the actions that it asks
//! for and reports what came of them.

use vstd::prelude::*;

use crate::error::IaGetError;
use crate::headers;
use crate::headers::RequestHeaders;
use crate::messages;
use crate::numbers;
use crate::paint;
use crate::paint::Line;
use crate::text;
use crate::units;

verus! {

// ---------------------------------------------------------------------------
// Retries
// ---------------------------------------------------------------------------

/// How often a failed transfer is tried again.
pub const MAX_RETRIES: u32 = 3;

/// The pause before the first retry, in milliseconds.
pub const INITIAL_RETRY_DELAY_MS: u64 = 1000;

/// The pause before the `n`th retry, in milliseconds: it doubles with each.
pub open spec fn retry_delay_ms(n: nat) -> nat
    decreases n,
{
    if n <= 1 {
        INITIAL_RETRY_DELAY_MS as nat
    } else {
        2 * retry_delay_ms((n - 1) as nat)
    }
}

/// The pause before the `n`th retry, in milliseconds.
pub fn retry_delay(n: u32) -> (r: u64)
    requires
        n <= MAX_RETRIES,
    ensures
        r == retry_delay_ms(n as nat),
        r % 1000 == 0,
    decreases n,
{
    reveal_with_fuel(retry_delay_ms, 4);
    if n <= 1 {
        INITIAL_RETRY_DELAY_MS
    } else {
        2 * retry_delay(n - 1)
    }
}

// ---------------------------------------------------------------------------
// States, events and actions
// ---------------------------------------------------------------------------

/// What a transfer waits for.
#[derive(Debug, Clone, Copy, PartialEq, Eq, Structural)]
pub enum Stage {
    /// The size of the local file.
    Sizing,
    /// An answer to the request.
    Requesting,
    /// A piece of the content, or its end.
    Receiving,
    /// The piece of so many bytes to be written.
    Writing(u64),
    /// Nothing any more.
    Closed,
}

/// The transfer of one file.
#[derive(Debug, Clone, Copy, PartialEq, Eq, Structural)]
pub struct Transfer {
    /// What it waits for.
    pub stage: Stage,
    /// The failures so far.
    pub failures: u32,
    /// The bytes that were there when this attempt began.
    pub resumed: u64,
    /// The bytes that this attempt has added.
    pub received: u64,
    /// The size that the file is expected to have in the end.
    pub expected: u64,
}

/// What a transfer is told.
#[derive(Debug)]
pub enum TransferEvent {
    /// The local file has this size.
    Sized { size: u64 },
    /// The request got no answer.
    Refused { error: IaGetError },
    /// The request was answered, with the length of what follows where it is known.
    Answered { content_length: Option<u64> },
    /// A piece of so many bytes came, or an error in its place; `running` says
    /// whether the user has let the program go on.
    Chunk { running: bool, chunk: Result<u64, IaGetError> },
    /// The piece was written.
    Written,
    /// The piece could not be written.
    Unwritten { error: IaGetError },
    /// There is no further piece.
    Ended,
}

/// What a transfer asks for.
#[derive(Debug)]
pub enum TransferAction {
    /// Send a request with these headers.
    Send { headers: RequestHeaders },
    /// Show a bar for this action, of this length and at this position.
    Show { action: &'static str, length: u64, position: u64 },
    /// Write the piece of so many bytes, once they may pass.
    Write { bytes: u64 },
    /// Show how far the transfer is.
    Progress,
    /// Say this, pause for so many milliseconds and look at the file again.
    Retry { lines: Vec<Line>, delay_ms: u64 },
    /// The file is complete: what this attempt added, and its size.
    Finished { received: u64, total: u64 },
    /// Say this and report the error.
    Failed { lines: Vec<Line>, error: IaGetError },
}

/// What a transfer is called: resumed where a part of the file is there.
pub open spec fn action_name(size: nat) -> Seq<char> {
    if size > 0 {
        "Resuming"@
    } else {
        "Downloading"@
    }
}

impl Transfer {
    /// Whether the numbers of the transfer belong together.
    pub open spec fn wf(self) -> bool {
        &&& self.stage is Closed || self.failures <= MAX_RETRIES
        &&& self.failures <= MAX_RETRIES + 1
        &&& self.resumed + self.received <= u64::MAX
    }

    /// Whether the event can come now, with numbers that the machine can add.
    pub open spec fn allows(self, event: TransferEvent) -> bool {
        match event {
            TransferEvent::Sized { size } => self.stage is Sizing,
            TransferEvent::Refused { error } => self.stage is Requesting,
            TransferEvent::Answered { content_length } => {
                &&& self.stage is Requesting
                &&& content_length is Some ==> content_length->0 + self.resumed <= u64::MAX
            },
            TransferEvent::Chunk { running, chunk } => self.stage is Receiving,
            TransferEvent::Written => {
                &&& self.stage is Writing
                &&& self.resumed + self.received + self.stage->0 <= u64::MAX
            },
            TransferEvent::Unwritten { error } => self.stage is Writing,
            TransferEvent::Ended => self.stage is Receiving,
        }
    }

    /// The transfer after one more failure: it starts anew, or is closed after
    /// too many.
    pub open spec fn after_failure(self) -> Transfer {
        Transfer {
            stage: if self.failures + 1 > MAX_RETRIES {
                Stage::Closed
            } else {
                Stage::Sizing
            },
            failures: (self.failures + 1) as u32,
            ..self
        }
    }

    /// The transfer after an error while the content came.
    pub open spec fn after_break(self, error: IaGetError) -> Transfer {
        if error.tells_interruption() {
            Transfer { stage: Stage::Closed, ..self }
        } else {
            self.after_failure()
        }
    }

    /// The transfer after an event.
    pub open spec fn next(self, cookie: Option<Seq<char>>, event: TransferEvent) -> Transfer {
        match event {
            TransferEvent::Sized { size } => if cookie is Some && !headers::header_text(
                cookie->0,
            ) {
                Transfer { stage: Stage::Closed, ..self }
            } else {
                Transfer { stage: Stage::Requesting, resumed: size, received: 0, expected: 0, ..self }
            },
            TransferEvent::Refused { error } => self.after_failure(),
            TransferEvent::Answered { content_length } => Transfer {
                stage: Stage::Receiving,
                expected: match content_length {
                    Some(n) => (n + self.resumed) as u64,
                    None => self.resumed,
                },
                ..self
            },
            TransferEvent::Chunk { running, chunk } => if !running {
                Transfer { stage: Stage::Closed, ..self }
            } else {
                match chunk {
                    Ok(bytes) => Transfer { stage: Stage::Writing(bytes), ..self },
                    Err(error) => self.after_break(error),
                }
            },
            TransferEvent::Written => Transfer {
                stage: Stage::Receiving,
                received: (self.received + self.stage->0) as u64,
                ..self
            },
            TransferEvent::Unwritten { error } => self.after_break(error),
            TransferEvent::Ended => Transfer { stage: Stage::Closed, ..self },
        }
    }

    /// Whether an action answers a failure: a further attempt with its pause, or
    /// the report of the error.
    pub open spec fn answers_failure(
        self,
        what: Seq<char>,
        error: IaGetError,
        action: TransferAction,
    ) -> bool {
        let n = (self.failures + 1) as nat;
        if n > MAX_RETRIES {
            &&& action is Failed
            &&& action->error == error
            &&& paint::line_views(action->Failed_lines@) == seq![
                messages::retries_exceeded(MAX_RETRIES as nat),
            ]
        } else {
            &&& action is Retry
            &&& action->delay_ms == retry_delay_ms(n)
            &&& paint::line_views(action->Retry_lines@) == seq![
                messages::retrying(what, n, MAX_RETRIES as nat, error.message()),
                messages::waiting(retry_delay_ms(n) / 1000),
            ]
        }
    }

    /// Whether an action answers an error while the content came: interruptions
    /// are reported at once.
    pub open spec fn answers_break(self, error: IaGetError, action: TransferAction) -> bool {
        if error.tells_interruption() {
            action is Failed && action->error == error && action->Failed_lines@.len() == 0
        } else {
            self.answers_failure("Download error"@, error, action)
        }
    }

    /// Whether an action is what an event calls for.
    pub open spec fn answers(
        self,
        cookie: Option<Seq<char>>,
        event: TransferEvent,
        action: TransferAction,
    ) -> bool {
        match event {
            TransferEvent::Sized { size } => if cookie is Some && !headers::header_text(
                cookie->0,
            ) {
                &&& action is Failed
                &&& action->Failed_lines@.len() == 0
                &&& action->error is Network
                &&& action->error.message() == "Invalid cookie header value"@ + ": "@
                    + headers::invalid_header()
            } else {
                &&& action is Send
                &&& headers::option_bytes(action->headers.cookie) == (match cookie {
                    Some(value) => Some(vstd::utf8::encode_utf8(value)),
                    None => None,
                })
                &&& headers::option_bytes(action->headers.range) == (if size > 0 {
                    Some(vstd::utf8::encode_utf8(headers::range_text(size as nat)))
                } else {
                    None
                })
            },
            TransferEvent::Refused { error } => self.answers_failure(
                "Connection error"@,
                error,
                action,
            ),
            TransferEvent::Answered { content_length } => {
                &&& action is Show
                &&& action->action@ == action_name(self.resumed as nat)
                &&& action->length == self.next(cookie, event).expected
                &&& action->position == self.resumed
            },
            TransferEvent::Chunk { running, chunk } => if !running {
                &&& action is Failed
                &&& action->Failed_lines@.len() == 0
                &&& action->error is FileSystem
                &&& action->error.message() == "Download interrupted during file transfer"@
            } else {
                match chunk {
                    Ok(bytes) => action is Write && action->bytes == bytes,
                    Err(error) => self.answers_break(error, action),
                }
            },
            TransferEvent::Written => action is Progress,
            TransferEvent::Unwritten { error } => self.answers_break(error, action),
            TransferEvent::Ended => {
                &&& action is Finished
                &&& action->received == self.received
                &&& action->total == self.resumed + self.received
            },
        }
    }

    /// A transfer at its start.
    pub open spec fn start() -> Transfer {
        Transfer { stage: Stage::Sizing, failures: 0, resumed: 0, received: 0, expected: 0 }
    }

    /// A transfer at its start.
    pub fn new() -> (r: Transfer)
        ensures
            r == Transfer::start(),
            r.wf(),
    {
        Transfer { stage: Stage::Sizing, failures: 0, resumed: 0, received: 0, expected: 0 }
    }

    /// Counts a failure and decides whether to try again.
    fn fail(&mut self, what: &str, error: IaGetError) -> (r: TransferAction)
        requires
            old(self).wf(),
            !(old(self).stage is Closed),
        ensures
            *final(self) == old(self).after_failure(),
            final(self).wf(),
            old(self).answers_failure(what@, error, r),
    {
        self.failures = self.failures + 1;
        let mut lines: Vec<Line> = Vec::new();
        if self.failures > MAX_RETRIES {
            self.stage = Stage::Closed;
            lines.push(messages::retries_exceeded_line(MAX_RETRIES));
            assert(paint::line_views(lines@) =~= seq![
                messages::retries_exceeded(MAX_RETRIES as nat),
            ]);
            return TransferAction::Failed { lines, error };
        }
        self.stage = Stage::Sizing;
        let delay_ms = retry_delay(self.failures);
        lines.push(messages::retry_line(what, self.failures, MAX_RETRIES, error.as_text()));
        lines.push(messages::wait_line(delay_ms / 1000));
        assert(paint::line_views(lines@) =~= seq![
            messages::retrying(what@, self.failures as nat, MAX_RETRIES as nat, error.message()),
            messages::waiting(retry_delay_ms(self.failures as nat) / 1000),
        ]);
        TransferAction::Retry { lines, delay_ms }
    }

    /// Decides what an error while the content came means.
    fn break_off(&mut self, error: IaGetError) -> (r: TransferAction)
        requires
            old(self).wf(),
            !(old(self).stage is Closed),
        ensures
            *final(self) == old(self).after_break(error),
            final(self).wf(),
            old(self).answers_break(error, r),
    {
        if error.is_interruption() {
            self.stage = Stage::Closed;
            return TransferAction::Failed { lines: Vec::new(), error };
        }
        self.fail("Download error", error)
    }

    /// Takes note of an event and decides what to do next. `cookie` is the value
    /// of the `Cookie` header, where there is one.
    pub fn step(&mut self, cookie: Option<&str>, event: TransferEvent) -> (r: TransferAction)
        requires
            old(self).wf(),
            old(self).allows(event),
        ensures
            *final(self) == old(self).next(text::str_text(cookie), event),
            final(self).wf(),
            old(self).answers(text::str_text(cookie), event, r),
    {
        match event {
            TransferEvent::Sized { size } => match headers::download_headers(cookie, size) {
                Ok(headers) => {
                    self.stage = Stage::Requesting;
                    self.resumed = size;
                    self.received = 0;
                    self.expected = 0;
                    TransferAction::Send { headers }
                },
                Err(error) => {
                    self.stage = Stage::Closed;
                    TransferAction::Failed { lines: Vec::new(), error }
                },
            },
            TransferEvent::Refused { error } => self.fail("Connection error", error),
            TransferEvent::Answered { content_length } => {
                self.stage = Stage::Receiving;
                self.expected = match content_length {
                    Some(n) => n + self.resumed,
                    None => self.resumed,
                };
                let action = if self.resumed > 0 {
                    "Resuming"
                } else {
                    "Downloading"
                };
                TransferAction::Show { action, length: self.expected, position: self.resumed }
            },
            TransferEvent::Chunk { running, chunk } => {
                if !running {
                    self.stage = Stage::Closed;
                    return TransferAction::Failed {
                        lines: Vec::new(),
                        error: IaGetError::FileSystem(
                            "Download interrupted during file transfer".to_owned(),
                        ),
                    };
                }
                match chunk {
                    Ok(bytes) => {
                        self.stage = Stage::Writing(bytes);
                        TransferAction::Write { bytes }
                    },
                    Err(error) => self.break_off(error),
                }
            },
            TransferEvent::Written => {
                if let Stage::Writing(bytes) = self.stage {
                    self.received = self.received + bytes;
                }
                self.stage = Stage::Receiving;
                TransferAction::Progress
            },
            TransferEvent::Unwritten { error } => self.break_off(error),
            TransferEvent::Ended => {
                self.stage = Stage::Closed;
                TransferAction::Finished {
                    received: self.received,
                    total: self.resumed + self.received,
                }
            },
        }
    }
}

/// The line about a finished transfer: the bytes that came, the time they took
/// in seconds and milliseconds, and the rate.
pub fn transfer_summary(received: u64, total_secs: u64, subsec_millis: u32, rate: &str) -> (r: Line)
    ensures
        r@ == messages::downloaded(
            units::size_text(received as nat),
            units::duration_text(total_secs as nat, subsec_millis as nat),
            rate@,
        ),
{
    let size = units::format_size(received);
    let duration = units::format_duration(total_secs, subsec_millis);
    messages::downloaded_line(size.as_str(), duration.as_str(), rate)
}

// ---------------------------------------------------------------------------
// Runs
// ---------------------------------------------------------------------------

/// The transfer after some events.
pub open spec fn after(cookie: Option<Seq<char>>, events: Seq<TransferEvent>) -> Transfer
    decreases events.len(),
{
    if events.len() == 0 {
        Transfer::start()
    } else {
        after(cookie, events.drop_last()).next(cookie, events.last())
    }
}

/// Whether the events can come one after the other from the start.
pub open spec fn run(cookie: Option<Seq<char>>, events: Seq<TransferEvent>) -> bool
    decreases events.len(),
{
    events.len() > 0 ==> {
        &&& run(cookie, events.drop_last())
        &&& after(cookie, events.drop_last()).allows(events.last())
    }
}

/// How often the transfer was begun.
pub open spec fn attempts(events: Seq<TransferEvent>) -> nat
    decreases events.len(),
{
    if events.len() == 0 {
        0
    } else {
        attempts(events.drop_last()) + (if events.last() is Sized {
            1nat
        } else {
            0
        })
    }
}

/// All the bytes that were written.
pub open spec fn written(cookie: Option<Seq<char>>, events: Seq<TransferEvent>) -> nat
    decreases events.len(),
{
    if events.len() == 0 {
        0
    } else {
        written(cookie, events.drop_last()) + (if events.last() is Written {
            after(cookie, events.drop_last()).stage->0 as nat
        } else {
            0
        })
    }
}

/// Whether the local file starts with `size` bytes, holds what was written and
/// changes in no other way: each attempt finds it as the last one left it.
pub open spec fn file_grows(
    cookie: Option<Seq<char>>,
    events: Seq<TransferEvent>,
    size: nat,
) -> bool
    decreases events.len(),
{
    events.len() > 0 ==> {
        &&& file_grows(cookie, events.drop_last(), size)
        &&& events.last() is Sized ==> events.last()->size == size + written(
            cookie,
            events.drop_last(),
        )
    }
}

/// Every run keeps the numbers of the transfer together.
proof fn lemma_run_wf(cookie: Option<Seq<char>>, events: Seq<TransferEvent>)
    requires
        run(cookie, events),
    ensures
        after(cookie, events).wf(),
    decreases events.len(),
{
    if events.len() > 0 {
        lemma_run_wf(cookie, events.drop_last());
    }
}

/// A transfer is begun at most once more than it may be retried, whatever
/// happens.
pub proof fn law_attempts_are_bounded(cookie: Option<Seq<char>>, events: Seq<TransferEvent>)
    requires
        run(cookie, events),
    ensures
        attempts(events) <= after(cookie, events).failures + 1,
        attempts(events) <= MAX_RETRIES + 1,
        after(cookie, events).stage is Sizing ==> attempts(events) == after(
            cookie,
            events,
        ).failures,
{
    lemma_run_wf(cookie, events);
    lemma_open_attempts(cookie, events);
}

/// An open transfer was begun once more than it failed, or is to be begun.
proof fn lemma_open_attempts(cookie: Option<Seq<char>>, events: Seq<TransferEvent>)
    requires
        run(cookie, events),
    ensures
        ({
            let t = after(cookie, events);
            match t.stage {
                Stage::Sizing => attempts(events) == t.failures,
                Stage::Closed => attempts(events) <= t.failures + 1 && attempts(events)
                    <= MAX_RETRIES + 1,
                _ => attempts(events) == t.failures + 1,
            }
        }),
    decreases events.len(),
{
    if events.len() > 0 {
        lemma_run_wf(cookie, events.drop_last());
        lemma_open_attempts(cookie, events.drop_last());
    }
}

/// The pause doubles with each retry.
pub proof fn law_pauses_double(n: nat)
    requires
        n >= 1,
    ensures
        retry_delay_ms(1) == INITIAL_RETRY_DELAY_MS,
        retry_delay_ms(n + 1) == 2 * retry_delay_ms(n),
{
}

/// Resuming loses and repeats nothing: where nobody else changes the file, its
/// size is at all times what it was at first and all the bytes that were written
/// since, over all attempts. So a finished transfer reports just that size.
pub proof fn law_resuming_keeps_the_file(
    cookie: Option<Seq<char>>,
    events: Seq<TransferEvent>,
    size: nat,
)
    requires
        cookie is Some ==> headers::header_text(cookie->0),
        run(cookie, events),
        file_grows(cookie, events, size),
    ensures
        ({
            let t = after(cookie, events);
            attempts(events) > 0 ==> t.resumed + t.received == size + written(cookie, events)
        }),
    decreases events.len(),
{
    if events.len() > 0 {
        lemma_run_wf(cookie, events.drop_last());
        law_resuming_keeps_the_file(cookie, events.drop_last(), size);
        lemma_open_attempts(cookie, events.drop_last());
    }
}

/// Once the user has interrupted the program, the next piece of content ends the
/// transfer with an error that tells so, and nothing is tried again.
pub proof fn law_interruption_ends_transfer(
    t: Transfer,
    cookie: Option<Seq<char>>,
    chunk: Result<u64, IaGetError>,
    action: TransferAction,
)
    requires
        t.allows((TransferEvent::Chunk { running: false, chunk })),
        t.answers(cookie, (TransferEvent::Chunk { running: false, chunk }), action),
    ensures
        t.next(cookie, (TransferEvent::Chunk { running: false, chunk })).stage is Closed,
        action is Failed,
        action->error.tells_interruption(),
{
    reveal_strlit("interrupted");
    reveal_strlit("Download interrupted during file transfer");
    let message = action->error.message();
    assert(message.subrange(9, 20) =~= "interrupted"@) by {
        assert forall|j: int| 0 <= j < 11 implies message[9 + j] == "interrupted"@[j] by {}
    }
    assert(text::occurs_at(message, "interrupted"@, 9));
}

// ---------------------------------------------------------------------------
// The content
// ---------------------------------------------------------------------------

/// Whether a request asks for everything from byte `from` on: for the whole file
/// without a `Range` header, and from a later byte with one that names it.
pub open spec fn asks_from(headers: RequestHeaders, from: nat) -> bool {
    if from == 0 {
        headers.range is None
    } else {
        headers.range is Some && headers.range->0@ == vstd::utf8::encode_utf8(
            "bytes="@ + numbers::decimal(from) + "-"@,
        )
    }
}

/// A transfer, the local file that it writes, the place in the remote file that
/// the server has reached, and the last piece that it sent.
pub struct Exchange {
    pub transfer: Transfer,
    pub local: Seq<u8>,
    pub reached: nat,
    pub piece: Seq<u8>,
}

/// One step of an exchange: what the transfer was told and asked for, and what the
/// world did. `from` is where a request that was sent asks to begin, `bytes` the
/// piece that came, and `kept` how much of a piece was written before it failed.
pub struct Turn {
    pub event: TransferEvent,
    pub action: TransferAction,
    pub from: nat,
    pub bytes: Seq<u8>,
    pub kept: nat,
}

impl Exchange {
    /// Whether a step can happen with a server that holds `remote`: the size that
    /// is told is that of the local file; the server sends its bytes in order, from
    /// where the request asks to begin, and ends where the file ends.
    pub open spec fn admits(
        self,
        remote: Seq<u8>,
        cookie: Option<Seq<char>>,
        turn: Turn,
    ) -> bool {
        &&& self.transfer.allows(turn.event)
        &&& self.transfer.answers(cookie, turn.event, turn.action)
        &&& match turn.event {
            TransferEvent::Sized { size } => {
                &&& size == self.local.len()
                &&& turn.action is Send ==> asks_from(turn.action->headers, turn.from)
            },
            TransferEvent::Chunk { running, chunk } => chunk is Ok ==> {
                &&& turn.bytes.len() == chunk->Ok_0
                &&& self.reached + turn.bytes.len() <= remote.len()
                &&& turn.bytes == remote.subrange(
                    self.reached as int,
                    (self.reached + turn.bytes.len()) as int,
                )
            },
            TransferEvent::Unwritten { error } => turn.kept <= self.piece.len(),
            TransferEvent::Ended => self.reached == remote.len(),
            _ => true,
        }
    }

    /// The exchange after a step: what was asked for is where the server begins, and
    /// what was written stands behind what was there.
    pub open spec fn after_turn(self, cookie: Option<Seq<char>>, turn: Turn) -> Exchange {
        let transfer = self.transfer.next(cookie, turn.event);
        match turn.event {
            TransferEvent::Sized { size } => Exchange { transfer, reached: turn.from, ..self },
            TransferEvent::Chunk { running, chunk } => Exchange {
                transfer,
                reached: self.reached + turn.bytes.len(),
                piece: turn.bytes,
                ..self
            },
            TransferEvent::Written => Exchange {
                transfer,
                local: self.local + self.piece,
                ..self
            },
            TransferEvent::Unwritten { error } => Exchange {
                transfer,
                local: self.local + self.piece.take(turn.kept as int),
                ..self
            },
            _ => Exchange { transfer, ..self },
        }
    }
}

/// The exchange after some steps, from a local file that holds `local`.
pub open spec fn exchanged(
    cookie: Option<Seq<char>>,
    local: Seq<u8>,
    turns: Seq<Turn>,
) -> Exchange
    decreases turns.len(),
{
    if turns.len() == 0 {
        Exchange { transfer: Transfer::start(), local, reached: 0, piece: Seq::empty() }
    } else {
        exchanged(cookie, local, turns.drop_last()).after_turn(cookie, turns.last())
    }
}

/// Whether the steps can happen one after the other.
pub open spec fn admitted(
    remote: Seq<u8>,
    cookie: Option<Seq<char>>,
    local: Seq<u8>,
    turns: Seq<Turn>,
) -> bool
    decreases turns.len(),
{
    turns.len() > 0 ==> {
        &&& admitted(remote, cookie, local, turns.drop_last())
        &&& exchanged(cookie, local, turns.drop_last()).admits(remote, cookie, turns.last())
    }
}

/// A request asks to begin at one place only.
proof fn lemma_one_beginning(headers: RequestHeaders, a: nat, b: nat)
    requires
        asks_from(headers, a),
        asks_from(headers, b),
    ensures
        a == b,
{
    if a > 0 && b > 0 {
        let x = "bytes="@ + numbers::decimal(a) + "-"@;
        let y = "bytes="@ + numbers::decimal(b) + "-"@;
        vstd::utf8::encode_utf8_decode_utf8(x);
        vstd::utf8::encode_utf8_decode_utf8(y);
        assert(x == y);
        let n = "bytes="@.len() as int;
        let m = x.len() - "-"@.len();
        assert(x.subrange(n, m) =~= numbers::decimal(a));
        assert(y.subrange(n, m) =~= numbers::decimal(b));
        let max = a + b;
        numbers::law_decimal_reads_back(a, max);
        numbers::law_decimal_reads_back(b, max);
    }
}

/// In every attempt, whatever came before, the request asks for exactly the bytes
/// that the local file does not hold, and carries the cookies that were given.
pub proof fn law_requests_ask_for_what_is_missing(
    t: Transfer,
    cookie: Option<Seq<char>>,
    size: u64,
    action: TransferAction,
)
    requires
        t.allows((TransferEvent::Sized { size })),
        t.answers(cookie, (TransferEvent::Sized { size }), action),
        cookie is Some ==> forall|i: int|
            0 <= i < cookie->0.len() ==> 32 <= (#[trigger] cookie->0[i]) as u32 && cookie->0[i]
                as u32 != 127,
    ensures
        action is Send,
        asks_from(action->headers, size as nat),
        action->headers.cookie is Some <==> cookie is Some,
        cookie is Some ==> action->headers.cookie->0@ == vstd::utf8::encode_utf8(cookie->0),
{
}

/// What ties the local file to what the server sends.
spec fn in_step(e: Exchange, remote: Seq<u8>) -> bool {
    &&& e.local.len() <= remote.len()
    &&& e.local == remote.take(e.local.len() as int)
    &&& match e.transfer.stage {
        Stage::Requesting => e.reached == e.local.len(),
        Stage::Receiving => e.reached == e.local.len(),
        Stage::Writing(n) => {
            &&& e.piece.len() == n
            &&& e.reached == e.local.len() + n
            &&& e.reached <= remote.len()
            &&& e.piece == remote.subrange(e.local.len() as int, e.reached as int)
        },
        _ => true,
    }
}

/// A piece of the remote file behind a beginning of it makes a longer beginning.
proof fn lemma_grown(remote: Seq<u8>, n: int, m: int)
    requires
        0 <= n <= m <= remote.len(),
    ensures
        remote.take(n) + remote.subrange(n, m) == remote.take(m),
{
    assert(remote.take(n) + remote.subrange(n, m) =~= remote.take(m));
}

/// Every step keeps the local file a beginning of the remote one.
proof fn lemma_turn(e: Exchange, remote: Seq<u8>, cookie: Option<Seq<char>>, turn: Turn)
    requires
        in_step(e, remote),
        e.admits(remote, cookie, turn),
    ensures
        in_step(e.after_turn(cookie, turn), remote),
{
    let after = e.after_turn(cookie, turn);
    match turn.event {
        TransferEvent::Sized { size } => {
            if turn.action is Send {
                assert(asks_from(turn.action->headers, size as nat));
                lemma_one_beginning(turn.action->headers, turn.from, size as nat);
            }
        },
        TransferEvent::Written => {
            lemma_grown(remote, e.local.len() as int, e.reached as int);
            assert(after.local == remote.take(e.reached as int));
        },
        TransferEvent::Unwritten { error } => {
            let m = (e.local.len() + turn.kept) as int;
            lemma_grown(remote, e.local.len() as int, m);
            assert(e.piece.take(turn.kept as int) =~= remote.subrange(e.local.len() as int, m));
            assert(after.local == remote.take(m));
        },
        _ => {},
    }
}

/// The size of the local file when the last attempt began.
pub open spec fn begun(cookie: Option<Seq<char>>, local: Seq<u8>, turns: Seq<Turn>) -> nat
    decreases turns.len(),
{
    if turns.len() == 0 {
        0
    } else if turns.last().event is Sized {
        exchanged(cookie, local, turns.drop_last()).local.len()
    } else {
        begun(cookie, local, turns.drop_last())
    }
}

/// Where the server keeps to what is asked for and nobody else changes the file,
/// the local file is at all times a beginning of the remote one, over all attempts
/// and whatever goes wrong in between: no byte is lost, repeated or misplaced. When
/// the transfer is finished it is the remote file, and its size is reported, together
/// with what the last attempt added.
pub proof fn law_local_file_follows_the_remote_one(
    remote: Seq<u8>,
    cookie: Option<Seq<char>>,
    local: Seq<u8>,
    turns: Seq<Turn>,
)
    requires
        local.len() <= remote.len(),
        local == remote.take(local.len() as int),
        admitted(remote, cookie, local, turns),
    ensures
        ({
            let end = exchanged(cookie, local, turns);
            &&& end.local.len() <= remote.len()
            &&& end.local == remote.take(end.local.len() as int)
            &&& turns.len() > 0 && turns.last().event is Ended ==> end.local == remote
            &&& turns.len() > 0 && turns.last().action is Finished ==> {
                &&& turns.last().event is Ended
                &&& turns.last().action->total == remote.len()
                &&& turns.last().action->received + begun(cookie, local, turns) == remote.len()
            }
        }),
{
    lemma_exchanged(remote, cookie, local, turns);
    if turns.len() > 0 {
        let head = turns.drop_last();
        lemma_exchanged(remote, cookie, local, head);
        let before = exchanged(cookie, local, head);
        if turns.last().event is Ended {
            assert(remote.take(remote.len() as int) =~= remote);
        }
    }
}

/// The local file follows the remote one, and while content comes the transfer
/// has counted what is there.
proof fn lemma_exchanged(
    remote: Seq<u8>,
    cookie: Option<Seq<char>>,
    local: Seq<u8>,
    turns: Seq<Turn>,
)
    requires
        local.len() <= remote.len(),
        local == remote.take(local.len() as int),
        admitted(remote, cookie, local, turns),
    ensures
        ({
            let end = exchanged(cookie, local, turns);
            &&& in_step(end, remote)
            &&& end.transfer.wf()
            &&& end.transfer.stage is Requesting || end.transfer.stage is Receiving
                || end.transfer.stage is Writing ==> {
                &&& end.transfer.resumed + end.transfer.received == end.local.len()
                &&& end.transfer.resumed == begun(cookie, local, turns)
            }
        }),
    decreases turns.len(),
{
    if turns.len() > 0 {
        let head = turns.drop_last();
        lemma_exchanged(remote, cookie, local, head);
        lemma_turn(exchanged(cookie, local, head), remote, cookie, turns.last());
    }
}

/// The bar of an attempt stands where the file ends and is as long as the file will
/// be: what is there and what was announced, where anything was.
pub proof fn law_bar_counts_what_is_there(
    t: Transfer,
    cookie: Option<Seq<char>>,
    size: u64,
    content_length: Option<u64>,
    action: TransferAction,
)
    requires
        t.allows((TransferEvent::Sized { size })),
        cookie is Some ==> forall|i: int|
            0 <= i < cookie->0.len() ==> 32 <= (#[trigger] cookie->0[i]) as u32 && cookie->0[i]
                as u32 != 127,
        content_length is Some ==> size + content_length->0 <= u64::MAX,
        t.next(cookie, (TransferEvent::Sized { size })).answers(
            cookie,
            (TransferEvent::Answered { content_length }),
            action,
        ),
    ensures
        action is Show,
        action->position == size,
        content_length is Some ==> action->length == size + content_length->0,
        content_length is None ==> action->length == size,
        action->action@ == if size == 0 {
            "Downloading"@
        } else {
            "Resuming"@
        },
{
}

/// A failure that is no interruption is answered by a further attempt as long as
/// there were fewer than three, and reported as it is after that; an interruption
/// while content comes is reported at once.
pub proof fn law_failures_are_retried_three_times(
    t: Transfer,
    cookie: Option<Seq<char>>,
    error: IaGetError,
    action: TransferAction,
)
    requires
        t.stage is Receiving,
        t.answers(cookie, (TransferEvent::Chunk { running: true, chunk: Err(error) }), action),
    ensures
        ({
            let next = t.next(cookie, (TransferEvent::Chunk { running: true, chunk: Err(error) }));
            if text::has_piece(error.message(), "interrupted"@) || t.failures >= 3 {
                &&& action is Failed
                &&& action->error == error
                &&& next.stage is Closed
            } else {
                &&& action is Retry
                &&& t.failures == 0 ==> action->delay_ms == 1000
                &&& t.failures == 1 ==> action->delay_ms == 2000
                &&& t.failures == 2 ==> action->delay_ms == 4000
                &&& next.stage is Sizing
                &&& next.failures == t.failures + 1
            }
        }),
{
    reveal_with_fuel(retry_delay_ms, 4);
}

/// A piece that comes while the program runs is written whole and counted once it is
/// written. When the user has stopped the program, it is not written, and that is
/// reported.
pub proof fn law_pieces_are_written_whole(
    t: Transfer,
    cookie: Option<Seq<char>>,
    bytes: u64,
    running: bool,
    action: TransferAction,
)
    requires
        t.stage is Receiving,
        t.resumed + t.received + bytes <= u64::MAX,
        t.answers(cookie, (TransferEvent::Chunk { running, chunk: Ok(bytes) }), action),
    ensures
        ({
            let next = t.next(cookie, (TransferEvent::Chunk { running, chunk: Ok(bytes) }));
            if running {
                &&& action is Write
                &&& action->bytes == bytes
                &&& next.allows(TransferEvent::Written)
                &&& next.next(cookie, TransferEvent::Written) == (Transfer {
                    received: (t.received + bytes) as u64,
                    ..t
                })
            } else {
                &&& action is Failed
                &&& action->error is FileSystem
                &&& action->error.message() == "Download interrupted during file transfer"@
                &&& next.stage is Closed
            }
        }),
{
}

/// A further attempt is announced with its number, the kind and the message of the error
/// and the seconds of the pause. When there is none, the user is told that there were
/// too many.
pub proof fn law_retries_are_announced(
    t: Transfer,
    cookie: Option<Seq<char>>,
    event: TransferEvent,
    error: IaGetError,
    action: TransferAction,
)
    requires
        t.allows(event),
        t.failures <= 3,
        t.answers(cookie, event, action),
        !text::has_piece(error.message(), "interrupted"@),
        event == (TransferEvent::Refused { error }) || event == (TransferEvent::Unwritten { error })
            || event == (TransferEvent::Chunk { running: true, chunk: Err(error) }),
    ensures
        t.failures < 3 ==> {
            &&& action is Retry
            &&& action->Retry_lines@.len() == 2
            &&& action->Retry_lines@[0]@.skip(6) == seq![
                (
                    paint::Tone::Plain,
                    if event is Refused {
                        "Connection error"@
                    } else {
                        "Download error"@
                    },
                ),
                (paint::Tone::Plain, " (attempt "@),
                (paint::Tone::Plain, numbers::decimal((t.failures + 1) as nat)),
                (paint::Tone::Plain, "/"@),
                (paint::Tone::Plain, numbers::decimal(3)),
                (paint::Tone::Plain, "): "@),
                (paint::Tone::Plain, error.message()),
            ]
            &&& action->Retry_lines@[1]@[4].1 == numbers::decimal(action->delay_ms as nat / 1000)
        },
        t.failures == 3 ==> {
            &&& action is Failed
            &&& action->error == error
            &&& action->Failed_lines@.len() == 1
            &&& action->Failed_lines@[0]@.skip(5) == seq![
                (paint::Tone::Plain, " Maximum retries ("@),
                (paint::Tone::Plain, numbers::decimal(3)),
                (paint::Tone::Plain, ") exceeded"@),
            ]
        },
{
    if t.failures < 3 {
        let views = paint::line_views(action->Retry_lines@);
        assert(views.len() == 2);
        assert(views[0] == action->Retry_lines@[0]@);
        assert(views[1] == action->Retry_lines@[1]@);
    } else {
        let views = paint::line_views(action->Failed_lines@);
        assert(views.len() == 1);
        assert(views[0] == action->Failed_lines@[0]@);
    }
}

/// An interruption while content comes or is written is not retried: it is reported as
/// it is, and nothing is said. A request without an answer is retried whatever is said
/// of it.
pub proof fn law_interruptions_are_not_retried(
    t: Transfer,
    cookie: Option<Seq<char>>,
    event: TransferEvent,
    error: IaGetError,
    action: TransferAction,
)
    requires
        t.allows(event),
        t.failures < 3,
        t.answers(cookie, event, action),
        text::has_piece(error.message(), "interrupted"@),
    ensures
        event == (TransferEvent::Unwritten { error }) || event == (TransferEvent::Chunk {
            running: true,
            chunk: Err(error),
        }) ==> {
            &&& action is Failed
            &&& action->error == error
            &&& action->Failed_lines@.len() == 0
            &&& t.next(cookie, event).stage is Closed
        },
        event == (TransferEvent::Refused { error }) ==> {
            &&& action is Retry
            &&& t.next(cookie, event).stage is Sizing
            &&& t.next(cookie, event).failures == t.failures + 1
        },
{
}

/// Cookies that cannot stand in a header end the transfer before anything is sent, and
/// that is reported.
pub proof fn law_invalid_cookies_are_reported(
    t: Transfer,
    cookie: Seq<char>,
    size: u64,
    i: int,
    action: TransferAction,
)
    requires
        t.allows((TransferEvent::Sized { size })),
        t.answers(Some(cookie), (TransferEvent::Sized { size }), action),
        0 <= i < cookie.len(),
        cookie[i] == '\n' || cookie[i] == '\r' || cookie[i] == '\0',
    ensures
        action is Failed,
        action->error is Network,
        action->error.message() == "Invalid cookie header value"@ + ": "@
            + "failed to parse header value"@,
        t.next(Some(cookie), (TransferEvent::Sized { size })).stage is Closed,
{
    assert(!headers::header_char(cookie[i]));
}

} // verus!
