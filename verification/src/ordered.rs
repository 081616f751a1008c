//! Console output of parallel downloads, in the order of the files.

use std::collections::BTreeMap;

use vstd::prelude::*;

use crate::text;

verus! {

broadcast use vstd::laws_cmp::group_laws_cmp;

// ---------------------------------------------------------------------------
// The model
// ---------------------------------------------------------------------------

/// What a file still has to say, and whether it will say more.
pub struct Waiting {
    pub lines: Seq<Seq<char>>,
    pub finished: bool,
}

/// The output of all files: the file whose turn it is, what waits, and what has
/// just been said.
pub struct Settled {
    pub next: usize,
    pub files: Map<usize, Waiting>,
    pub said: Seq<Seq<char>>,
}

/// What a file has to say; nothing where it has not been heard of.
pub open spec fn waiting_of(files: Map<usize, Waiting>, index: usize) -> Waiting {
    if files.contains_key(index) {
        files[index]
    } else {
        Waiting { lines: Seq::empty(), finished: false }
    }
}

/// The file `index` has one more line to say.
pub open spec fn with_line(
    files: Map<usize, Waiting>,
    index: usize,
    line: Seq<char>,
) -> Map<usize, Waiting> {
    let w = waiting_of(files, index);
    files.insert(index, Waiting { lines: w.lines.push(line), finished: w.finished })
}

/// The file `index` will say no more.
pub open spec fn with_end(files: Map<usize, Waiting>, index: usize) -> Map<usize, Waiting> {
    let w = waiting_of(files, index);
    files.insert(index, Waiting { lines: w.lines, finished: true })
}

/// The file whose turn it is says what it has. Where it is finished, it makes
/// room for the one after it.
pub open spec fn settle(next: usize, files: Map<usize, Waiting>) -> Settled
    decreases files.dom().len(),
    when files.dom().finite()
{
    if !files.contains_key(next) {
        Settled { next, files, said: Seq::empty() }
    } else if files[next].finished {
        let rest = settle((next + 1) as usize, files.remove(next));
        Settled { next: rest.next, files: rest.files, said: files[next].lines + rest.said }
    } else {
        Settled {
            next,
            files: files.insert(next, Waiting { lines: Seq::empty(), finished: false }),
            said: files[next].lines,
        }
    }
}

// ---------------------------------------------------------------------------
// The state
// ---------------------------------------------------------------------------

/// The lines of one file.
#[derive(Debug)]
pub struct OrderedFileSlot {
    /// The lines that have come.
    pub lines: Vec<String>,
    /// How many of them have been said.
    pub emitted: usize,
    /// Whether there will be no more.
    pub finished: bool,
}

impl OrderedFileSlot {
    /// What the file still has to say.
    pub open spec fn waiting(self) -> Waiting {
        Waiting {
            lines: text::texts(self.lines@).skip(self.emitted as int),
            finished: self.finished,
        }
    }

    /// Whether no more has been said than has come.
    pub open spec fn wf(self) -> bool {
        self.emitted <= self.lines@.len()
    }

    /// A file that has said nothing yet.
    fn new() -> (r: OrderedFileSlot)
        ensures
            r.wf(),
            r.waiting() == (Waiting { lines: Seq::empty(), finished: false }),
    {
        let slot = OrderedFileSlot { lines: Vec::new(), emitted: 0, finished: false };
        assert(slot.waiting().lines =~= Seq::empty());
        slot
    }
}

/// The output of files that are downloaded in parallel.
#[derive(Debug)]
pub struct OrderedDisplayState {
    /// The file whose turn it is.
    pub next: usize,
    /// The files that have been heard of and whose turn is not over.
    pub files: BTreeMap<usize, OrderedFileSlot>,
}

impl OrderedDisplayState {
    /// What waits.
    pub open spec fn waiting(self) -> Map<usize, Waiting> {
        self.files@.map_values(|slot: OrderedFileSlot| slot.waiting())
    }

    /// Whether the files can be counted and their lines are in order.
    pub open spec fn wf(self) -> bool {
        forall|i: usize| #[trigger]
            self.files@.contains_key(i) ==> i < usize::MAX && self.files@[i].wf()
    }

    /// Nothing has been said and nothing waits.
    pub fn new() -> (r: OrderedDisplayState)
        ensures
            r.wf(),
            r.next == 0,
            r.waiting() == Map::<usize, Waiting>::empty(),
    {
        let state = OrderedDisplayState { next: 0, files: BTreeMap::new() };
        assert(state.waiting() =~= Map::<usize, Waiting>::empty());
        state
    }

    /// Takes the lines of a file out, or an empty slot where it has none.
    fn take_slot(&mut self, index: usize) -> (r: OrderedFileSlot)
        requires
            old(self).wf(),
        ensures
            final(self).wf(),
            final(self).next == old(self).next,
            final(self).files@ == old(self).files@.remove(index),
            r.wf(),
            r.waiting() == waiting_of(old(self).waiting(), index),
    {
        let ghost before = self.waiting();
        match self.files.remove(&index) {
            Some(slot) => {
                assert(before.contains_key(index));
                slot
            },
            None => {
                assert(!before.contains_key(index));
                OrderedFileSlot::new()
            },
        }
    }

    /// Puts the lines of a file back.
    fn put_slot(&mut self, index: usize, slot: OrderedFileSlot)
        requires
            old(self).wf(),
            index < usize::MAX,
            slot.wf(),
        ensures
            final(self).wf(),
            final(self).next == old(self).next,
            final(self).files@ == old(self).files@.insert(index, slot),
    {
        self.files.insert(index, slot);
    }

    /// A file has one more line. Returns the lines to print now.
    pub fn push_line(&mut self, index: usize, line: String) -> (r: Vec<String>)
        requires
            old(self).wf(),
            index < usize::MAX,
        ensures
            final(self).wf(),
            ({
                let settled = settle(
                    old(self).next,
                    with_line(old(self).waiting(), index, line@),
                );
                &&& final(self).next == settled.next
                &&& final(self).waiting() == settled.files
                &&& text::texts(r@) == settled.said
            }),
    {
        let ghost before = self.waiting();
        let mut slot = self.take_slot(index);
        let ghost w = slot.waiting();
        slot.lines.push(line);
        assert(slot.waiting().lines =~= w.lines.push(line@));
        self.put_slot(index, slot);
        assert(self.waiting() =~= with_line(before, index, line@));
        self.flush_ready()
    }

    /// A file will say no more. Returns the lines to print now.
    pub fn finish_file(&mut self, index: usize) -> (r: Vec<String>)
        requires
            old(self).wf(),
            index < usize::MAX,
        ensures
            final(self).wf(),
            ({
                let settled = settle(old(self).next, with_end(old(self).waiting(), index));
                &&& final(self).next == settled.next
                &&& final(self).waiting() == settled.files
                &&& text::texts(r@) == settled.said
            }),
    {
        let ghost before = self.waiting();
        let mut slot = self.take_slot(index);
        slot.finished = true;
        self.put_slot(index, slot);
        assert(self.waiting() =~= with_end(before, index));
        self.flush_ready()
    }

    /// Lets the files speak whose turn it is.
    fn flush_ready(&mut self) -> (r: Vec<String>)
        requires
            old(self).wf(),
        ensures
            final(self).wf(),
            ({
                let settled = settle(old(self).next, old(self).waiting());
                &&& final(self).next == settled.next
                &&& final(self).waiting() == settled.files
                &&& text::texts(r@) == settled.said
            }),
    {
        let mut out: Vec<String> = Vec::new();
        let ghost all = settle(self.next, self.waiting());
        let mut done = false;
        assert(text::texts(out@) =~= Seq::empty());
        while !done
            invariant
                self.wf(),
                !done ==> ({
                    let rest = settle(self.next, self.waiting());
                    &&& all.next == rest.next
                    &&& all.files == rest.files
                    &&& all.said == text::texts(out@) + rest.said
                }),
                done ==> {
                    &&& all.next == self.next
                    &&& all.files == self.waiting()
                    &&& all.said == text::texts(out@)
                },
            decreases (if done { 0int } else { 1int }), self.files@.dom().len(),
        {
            let ghost before = self.waiting();
            let ghost said = text::texts(out@);
            let ghost rest = settle(self.next, before);
            assert(before.dom() =~= self.files@.dom());
            assert(before.dom().finite());
            if self.files.contains_key(&self.next) {
                let index = self.next;
                let mut slot = self.take_slot(index);
                let ghost w = slot.waiting();
                while slot.emitted < slot.lines.len()
                    invariant
                        slot.wf(),
                        slot.finished == w.finished,
                        said + w.lines == text::texts(out@) + slot.waiting().lines,
                    decreases slot.lines.len() - slot.emitted,
                {
                    let line = slot.lines[slot.emitted].clone();
                    let ghost pending = slot.waiting().lines;
                    let ghost printed = text::texts(out@);
                    slot.emitted = slot.emitted + 1;
                    out.push(line);
                    assert(pending =~= seq![line@] + slot.waiting().lines);
                    assert(text::texts(out@) =~= printed.push(line@));
                    assert(printed + pending =~= printed.push(line@) + slot.waiting().lines);
                }
                assert(slot.waiting().lines =~= Seq::empty());
                assert(text::texts(out@) =~= said + w.lines);
                if slot.finished {
                    self.next = self.next + 1;
                    assert(self.waiting() =~= before.remove(index));
                    assert(said + rest.said =~= said + w.lines + settle(
                        self.next,
                        self.waiting(),
                    ).said);
                } else {
                    self.put_slot(index, slot);
                    assert(self.waiting() =~= before.insert(index, slot.waiting()));
                    done = true;
                }
            } else {
                done = true;
            }
        }
        out
    }
}

// ---------------------------------------------------------------------------
// Runs
// ---------------------------------------------------------------------------

/// What a file reports.
pub enum Report {
    /// A line to say.
    Line(usize, Seq<char>),
    /// That there will be no more lines.
    End(usize),
}

/// The file that a report is about.
pub open spec fn about(report: Report) -> usize {
    match report {
        Report::Line(index, line) => index,
        Report::End(index) => index,
    }
}

/// What waits once a report has come.
pub open spec fn with_report(files: Map<usize, Waiting>, report: Report) -> Map<usize, Waiting> {
    match report {
        Report::Line(index, line) => with_line(files, index, line),
        Report::End(index) => with_end(files, index),
    }
}

/// The output after some reports; `said` holds all that has been said.
pub open spec fn after(reports: Seq<Report>) -> Settled
    decreases reports.len(),
{
    if reports.len() == 0 {
        Settled { next: 0, files: Map::empty(), said: Seq::empty() }
    } else {
        let before = after(reports.drop_last());
        let settled = settle(before.next, with_report(before.files, reports.last()));
        Settled { next: settled.next, files: settled.files, said: before.said + settled.said }
    }
}

/// Whether a file has been heard of.
pub open spec fn heard_of(reports: Seq<Report>, index: int) -> bool
    decreases reports.len(),
{
    reports.len() > 0 && (about(reports.last()) == index || heard_of(reports.drop_last(), index))
}

/// Whether a file has said that there will be no more lines.
pub open spec fn ended(reports: Seq<Report>, index: int) -> bool
    decreases reports.len(),
{
    reports.len() > 0 && (ended(reports.drop_last(), index) || (reports.last() is End && about(
        reports.last(),
    ) == index))
}

/// The lines of a file.
pub open spec fn lines_of(reports: Seq<Report>, index: int) -> Seq<Seq<char>>
    decreases reports.len(),
{
    if reports.len() == 0 {
        Seq::empty()
    } else {
        let before = lines_of(reports.drop_last(), index);
        match reports.last() {
            Report::Line(i, line) => if i == index {
                before.push(line)
            } else {
                before
            },
            Report::End(i) => before,
        }
    }
}

/// The lines of the first `n` files, file by file.
pub open spec fn lines_in_order(reports: Seq<Report>, n: int) -> Seq<Seq<char>>
    decreases n,
{
    if n <= 0 {
        Seq::empty()
    } else {
        lines_in_order(reports, n - 1) + lines_of(reports, n - 1)
    }
}

/// Whether the reports come as files give them: no line comes from a file after
/// its end, and no index is the last that the machine can count to.
pub open spec fn orderly(reports: Seq<Report>) -> bool
    decreases reports.len(),
{
    reports.len() > 0 ==> {
        &&& orderly(reports.drop_last())
        &&& reports.last() is Line ==> !ended(reports.drop_last(), about(reports.last()) as int)
        &&& about(reports.last()) < usize::MAX
    }
}

/// Whether a file has said more than once that there will be no more lines.
pub open spec fn ended_again(reports: Seq<Report>, index: int) -> bool
    decreases reports.len(),
{
    reports.len() > 0 && (ended_again(reports.drop_last(), index) || (reports.last() is End
        && about(reports.last()) == index && ended(reports.drop_last(), index)))
}

/// What waits agrees with the reports from the file `next` on.
spec fn agrees(reports: Seq<Report>, next: usize, files: Map<usize, Waiting>) -> bool {
    &&& files.dom().finite()
    &&& forall|i: usize|
        i >= next ==> (#[trigger] files.contains_key(i) <==> heard_of(reports, i as int))
    &&& forall|i: usize|
        i < next && #[trigger] files.contains_key(i) ==> files[i].lines.len() == 0
            && files[i].finished && ended_again(reports, i as int)
    &&& forall|i: usize|
        i >= next && #[trigger] files.contains_key(i) ==> files[i].finished == ended(
            reports,
            i as int,
        )
    &&& forall|i: usize|
        i > next && #[trigger] files.contains_key(i) ==> files[i].lines == lines_of(
            reports,
            i as int,
        )
    &&& forall|i: int| 0 <= i < next ==> #[trigger] ended(reports, i)
}

/// A file that has not been heard of has no lines and no end.
proof fn lemma_unheard(reports: Seq<Report>, index: int)
    requires
        !heard_of(reports, index),
    ensures
        lines_of(reports, index).len() == 0,
        !ended(reports, index),
    decreases reports.len(),
{
    if reports.len() > 0 {
        lemma_unheard(reports.drop_last(), index);
    }
}

/// Reports come only from files that the machine can count beyond.
proof fn lemma_orderly_bound(reports: Seq<Report>, index: int)
    requires
        orderly(reports),
        heard_of(reports, index),
    ensures
        0 <= index < usize::MAX,
    decreases reports.len(),
{
    if about(reports.last()) != index {
        lemma_orderly_bound(reports.drop_last(), index);
    }
}

/// Letting files speak keeps what waits in agreement with the reports, and what
/// has been said in the order of the files.
proof fn lemma_settle(
    reports: Seq<Report>,
    next: usize,
    files: Map<usize, Waiting>,
    said: Seq<Seq<char>>,
)
    requires
        orderly(reports),
        agrees(reports, next, files),
        said + waiting_of(files, next).lines == lines_in_order(reports, next as int) + lines_of(
            reports,
            next as int,
        ),
    ensures
        ({
            let settled = settle(next, files);
            &&& agrees(reports, settled.next, settled.files)
            &&& waiting_of(settled.files, settled.next) == (Waiting {
                lines: Seq::empty(),
                finished: false,
            })
            &&& !ended(reports, settled.next as int)
            &&& said + settled.said == lines_in_order(reports, settled.next as int) + lines_of(
                reports,
                settled.next as int,
            )
        }),
    decreases files.dom().len(),
{
    if !files.contains_key(next) {
        lemma_unheard(reports, next as int);
    } else if files[next].finished {
        lemma_orderly_bound(reports, next as int);
        let after_it = (next + 1) as usize;
        let rest = files.remove(next);
        let now = said + files[next].lines;
        if !rest.contains_key(after_it) {
            lemma_unheard(reports, after_it as int);
        }
        assert(lines_in_order(reports, after_it as int) == now);
        assert forall|i: int| 0 <= i < after_it implies #[trigger] ended(reports, i) by {
            if i == next {
                assert(files[next].finished);
            }
        }
        assert(now + waiting_of(rest, after_it).lines =~= lines_in_order(reports, after_it as int)
            + lines_of(reports, after_it as int));
        lemma_settle(reports, after_it, rest, now);
        let settled = settle(next, files);
        assert(said + settled.said =~= now + settle(after_it, rest).said);
    } else {
        let settled = settle(next, files);
        assert forall|i: usize| i >= next implies (#[trigger] settled.files.contains_key(i)
            <==> heard_of(reports, i as int)) by {
            assert(files.contains_key(i) <==> heard_of(reports, i as int));
        }
    }
}

/// A report changes the lines of no other file, and an end changes no lines.
proof fn lemma_unconcerned(reports: Seq<Report>, n: int)
    requires
        reports.len() > 0,
        reports.last() is Line ==> n <= about(reports.last()),
    ensures
        lines_in_order(reports, n) == lines_in_order(reports.drop_last(), n),
    decreases n,
{
    if n > 0 {
        lemma_unconcerned(reports, n - 1);
    }
}

/// What has been said is always the lines of the first files, file by file and
/// each in its own order, and whatever the file has reported whose turn it is.
/// All files before it have ended, and it has not. So no line is lost, said twice
/// or said before its turn.
pub proof fn law_output_is_in_file_order(reports: Seq<Report>)
    requires
        orderly(reports),
    ensures
        after(reports).said == lines_in_order(reports, after(reports).next as int) + lines_of(
            reports,
            after(reports).next as int,
        ),
        forall|i: int| 0 <= i < after(reports).next ==> #[trigger] ended(reports, i),
        !ended(reports, after(reports).next as int),
{
    lemma_run(reports);
}

/// Once every file has ended, everything has been said and no line waits. Of a
/// file that ended once nothing is kept.
pub proof fn law_everything_is_said_in_the_end(reports: Seq<Report>, n: usize)
    requires
        orderly(reports),
        forall|i: int| 0 <= i < n ==> #[trigger] ended(reports, i),
        forall|i: int| i >= n ==> !#[trigger] heard_of(reports, i),
    ensures
        after(reports).next == n,
        after(reports).said == lines_in_order(reports, n as int),
        forall|i: usize| #[trigger]
            after(reports).files.contains_key(i) ==> after(reports).files[i].lines.len() == 0
                && after(reports).files[i].finished && ended_again(reports, i as int),
        (forall|i: int| !#[trigger] ended_again(reports, i)) ==> after(reports).files
            == Map::<usize, Waiting>::empty(),
{
    lemma_run(reports);
    let state = after(reports);
    assert(!ended(reports, state.next as int));
    if state.next > n {
        assert(ended(reports, n as int));
    }
    lemma_unheard(reports, n as int);
    assert forall|i: usize| #[trigger] state.files.contains_key(i) implies i < n by {
        if i >= n {
            assert(!heard_of(reports, i as int));
        }
    }
    if forall|i: int| !#[trigger] ended_again(reports, i) {
        assert forall|i: usize| !#[trigger] state.files.contains_key(i) by {
            assert(!ended_again(reports, i as int));
        }
        assert(state.files =~= Map::<usize, Waiting>::empty());
    }
    assert(state.said =~= lines_in_order(reports, n as int));
}

/// The state after every orderly run agrees with its reports.
proof fn lemma_run(reports: Seq<Report>)
    requires
        orderly(reports),
    ensures
        ({
            let state = after(reports);
            &&& agrees(reports, state.next, state.files)
            &&& waiting_of(state.files, state.next) == (Waiting {
                lines: Seq::empty(),
                finished: false,
            })
            &&& !ended(reports, state.next as int)
            &&& state.said == lines_in_order(reports, state.next as int) + lines_of(
                reports,
                state.next as int,
            )
        }),
    decreases reports.len(),
{
    if reports.len() == 0 {
        assert(after(reports).said =~= lines_in_order(reports, 0) + lines_of(reports, 0));
    } else {
        let head = reports.drop_last();
        lemma_run(head);
        let before = after(head);
        let files = with_report(before.files, reports.last());
        let index = about(reports.last());
        if index < before.next {
            assert(ended(head, index as int));
            assert(ended_again(reports, index as int));
        }
        lemma_unconcerned(reports, before.next as int);
        if !before.files.contains_key(index) && index >= before.next {
            lemma_unheard(head, index as int);
        }
        assert forall|i: int| 0 <= i < before.next implies #[trigger] ended(reports, i) by {
            assert(ended(head, i));
        }
        assert(agrees(reports, before.next, files)) by {
            assert forall|i: usize| i >= before.next implies (#[trigger] files.contains_key(i)
                <==> heard_of(reports, i as int)) by {
                assert(before.files.contains_key(i) <==> heard_of(head, i as int));
            }
            assert forall|i: usize| i < before.next && #[trigger] files.contains_key(i) implies {
                &&& files[i].lines.len() == 0
                &&& files[i].finished
                &&& ended_again(reports, i as int)
            } by {
                if before.files.contains_key(i) {
                    assert(ended_again(head, i as int));
                }
            }
            assert forall|i: usize| i >= before.next && #[trigger] files.contains_key(i) implies {
                &&& files[i].finished == ended(reports, i as int)
                &&& i > before.next ==> files[i].lines == lines_of(reports, i as int)
            } by {
                if before.files.contains_key(i) {
                    assert(before.files[i].finished == ended(head, i as int));
                    if i > before.next {
                        assert(before.files[i].lines == lines_of(head, i as int));
                    }
                } else {
                    lemma_unheard(head, i as int);
                    assert(lines_of(head, i as int) =~= Seq::empty());
                }
            }
        }
        assert(before.said + waiting_of(files, before.next).lines =~= lines_in_order(
            reports,
            before.next as int,
        ) + lines_of(reports, before.next as int));
        lemma_settle(reports, before.next, files, before.said);
    }
}

} // verus!
