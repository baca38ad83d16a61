//! The ingest of a page window as a state machine. The machine decides; its
//! driver performs each action (a pause, a fetch, a question to the sink, a
//! write of the checkpoint or of the failure log) and reports the outcome as
//! the next event.
use vstd::prelude::*;
use crate::extract::{QuestionRow, RowView, row_views};
use crate::planner::PageWindow;
use rand::Rng;

verus! {

/// Why a page could not be ingested.
#[derive(Clone, Copy, Debug, PartialEq, Eq, Structural)]
pub enum FailureReason {
    /// The request failed in transport (connection, timeout, name lookup).
    Transport,
    /// The server answered with a non-success status.
    Status,
}

/// A page that this run could not ingest.
#[derive(Clone, Copy, Debug, PartialEq, Eq, Structural)]
pub struct FailureEntry {
    pub page: u64,
    pub reason: FailureReason,
}

/// Bounds of the randomized pause before each request, in milliseconds.
#[derive(Clone, Copy, Debug, PartialEq, Eq, Structural)]
pub struct Pacing {
    pub min_ms: u64,
    pub max_ms: u64,
}

/// Relies on `rand::rng` and `rand::Rng::random_range`: a value of the
/// thread-local generator drawn from `lo..=hi` (which panics only when the
/// range is empty, or when the operating system cannot seed the generator,
/// a fault of the machine rather than of any input).
#[verifier::external_body]
fn draw_between(lo: u64, hi: u64) -> (r: u64)
    requires
        lo <= hi,
    ensures
        lo <= r <= hi,
{
    rand::rng().random_range(lo..=hi)
}

impl Pacing {
    /// A pause drawn from the bounds.
    pub fn draw(&self) -> (r: u64)
        requires
            self.min_ms <= self.max_ms,
        ensures
            self.min_ms <= r <= self.max_ms,
    {
        draw_between(self.min_ms, self.max_ms)
    }
}

/// Where the machine stands on the current page.
#[derive(Clone, Copy, Debug, PartialEq, Eq, Structural)]
pub enum Phase {
    /// Waiting out the pause before the request.
    Pausing,
    /// Waiting for the server's answer to the request.
    Fetching,
    /// Waiting for the body of a successful answer, read and extracted.
    Reading,
    /// Asking the sink whether the current record is present.
    Checking,
    /// Handing the current record to the sink.
    Inserting,
    /// Recording the page as the new checkpoint.
    Committing,
    /// Recording the page's failure.
    Recording,
    /// The window is done.
    Finished,
}

/// What the driver reports.
pub enum Event {
    /// The pause, the checkpoint write or the failure record was carried out.
    Done,
    /// The request, or the reading of the body, failed in transport.
    TransportFailed,
    /// The server answered with this HTTP status code.
    Answered(u16),
    /// The body was read; these are its extracted records.
    Fetched(Vec<QuestionRow>),
    /// The sink's answer: whether the record's id is present.
    Present(bool),
    /// The sink's answer to the insert: whether it succeeded.
    Stored(bool),
}

/// What the driver is asked to do next.
#[derive(Debug)]
pub enum Action {
    /// Pause for this many milliseconds.
    Pause(u64),
    /// Request this page.
    Fetch(u64),
    /// Read the body of the successful answer for this page and extract its records.
    ReadBody(u64),
    /// Ask the sink whether a record with this id is present.
    CheckExists(i64),
    /// Hand this record to the sink.
    Insert(QuestionRow),
    /// Store this page as the last committed one.
    Commit(u64),
    /// Append this entry to the failure log.
    RecordFailure(FailureEntry),
    /// The window is done.
    Finish,
}

/// An [`Event`] as values.
pub enum EventView {
    Done,
    TransportFailed,
    Answered(u16),
    Fetched(Seq<RowView>),
    Present(bool),
    Stored(bool),
}

impl View for Event {
    type V = EventView;

    open spec fn view(&self) -> EventView {
        match self {
            Event::Done => EventView::Done,
            Event::TransportFailed => EventView::TransportFailed,
            Event::Answered(code) => EventView::Answered(*code),
            Event::Fetched(rows) => EventView::Fetched(row_views(rows@)),
            Event::Present(b) => EventView::Present(*b),
            Event::Stored(b) => EventView::Stored(*b),
        }
    }
}

/// An [`Action`] as values; the length of a pause is left out.
pub enum ActionView {
    Pause,
    Fetch(u64),
    ReadBody(u64),
    CheckExists(i64),
    Insert(RowView),
    Commit(u64),
    RecordFailure(FailureEntry),
    Finish,
}

impl View for Action {
    type V = ActionView;

    open spec fn view(&self) -> ActionView {
        match self {
            Action::Pause(_) => ActionView::Pause,
            Action::Fetch(p) => ActionView::Fetch(*p),
            Action::ReadBody(p) => ActionView::ReadBody(*p),
            Action::CheckExists(id) => ActionView::CheckExists(*id),
            Action::Insert(q) => ActionView::Insert(q@),
            Action::Commit(p) => ActionView::Commit(*p),
            Action::RecordFailure(f) => ActionView::RecordFailure(*f),
            Action::Finish => ActionView::Finish,
        }
    }
}

/// The state of a [`Crawl`], as values.
pub struct CrawlView {
    pub window: PageWindow,
    pub pacing: Pacing,
    pub phase: Phase,
    /// The page being worked on.
    pub page: u64,
    /// The page's records that go to the sink.
    pub records: Seq<RowView>,
    /// Index of the current record.
    pub next: int,
    /// The last committed page (0: none).
    pub checkpoint: u64,
    /// This run's failed pages, in order.
    pub failures: Seq<FailureEntry>,
    /// Number of pages committed by this run.
    pub committed: u64,
}

/// The records of a page that go to the sink: those with a usable id (an id
/// of 0 marks a link that could not be read).
pub open spec fn eligible(rows: Seq<RowView>) -> Seq<RowView>
    decreases rows.len(),
{
    if rows.len() == 0 {
        Seq::empty()
    } else {
        let e = eligible(rows.drop_last());
        if rows.last().id != 0 {
            e.push(rows.last())
        } else {
            e
        }
    }
}

/// Moves on to the current record, or commits the page when none is left.
pub open spec fn settle(s: CrawlView) -> CrawlView {
    if s.next < s.records.len() {
        CrawlView { phase: Phase::Checking, ..s }
    } else {
        CrawlView {
            phase: Phase::Committing,
            checkpoint: s.page,
            committed: (s.committed + 1) as u64,
            ..s
        }
    }
}

/// Moves on to the next older page, or finishes at the window's end.
pub open spec fn advance_page(s: CrawlView) -> CrawlView {
    if s.page > s.window.end_page {
        CrawlView {
            phase: Phase::Pausing,
            page: (s.page - 1) as u64,
            records: Seq::empty(),
            next: 0,
            ..s
        }
    } else {
        CrawlView { phase: Phase::Finished, ..s }
    }
}

/// Whether an HTTP status code reports success (the 2xx class).
pub open spec fn is_success(code: u16) -> bool {
    200 <= code <= 299
}

/// The state after a failure of the current page for `reason`.
pub open spec fn fail_page(s: CrawlView, reason: FailureReason) -> CrawlView {
    CrawlView {
        phase: Phase::Recording,
        failures: s.failures.push(FailureEntry { page: s.page, reason }),
        ..s
    }
}

/// The state after event `e`. An event that does not answer the pending
/// action leaves the state as it is.
pub open spec fn next_state(s: CrawlView, e: EventView) -> CrawlView {
    match s.phase {
        Phase::Pausing => match e {
            EventView::Done => CrawlView { phase: Phase::Fetching, ..s },
            _ => s,
        },
        Phase::Fetching => match e {
            EventView::TransportFailed => fail_page(s, FailureReason::Transport),
            EventView::Answered(code) => if is_success(code) {
                CrawlView { phase: Phase::Reading, ..s }
            } else {
                fail_page(s, FailureReason::Status)
            },
            _ => s,
        },
        Phase::Reading => match e {
            EventView::TransportFailed => fail_page(s, FailureReason::Transport),
            EventView::Fetched(rows) => settle(CrawlView { records: eligible(rows), next: 0, ..s }),
            _ => s,
        },
        Phase::Checking => match e {
            EventView::Present(true) => settle(CrawlView { next: s.next + 1, ..s }),
            EventView::Present(false) => CrawlView { phase: Phase::Inserting, ..s },
            _ => s,
        },
        Phase::Inserting => match e {
            EventView::Stored(_) => settle(CrawlView { next: s.next + 1, ..s }),
            _ => s,
        },
        Phase::Committing => match e {
            EventView::Done => advance_page(s),
            _ => s,
        },
        Phase::Recording => match e {
            EventView::Done => advance_page(s),
            _ => s,
        },
        Phase::Finished => s,
    }
}

/// The action that a state asks for.
pub open spec fn pending(s: CrawlView) -> ActionView {
    match s.phase {
        Phase::Pausing => ActionView::Pause,
        Phase::Fetching => ActionView::Fetch(s.page),
        Phase::Reading => ActionView::ReadBody(s.page),
        Phase::Checking => ActionView::CheckExists(s.records[s.next].id),
        Phase::Inserting => ActionView::Insert(s.records[s.next]),
        Phase::Committing => ActionView::Commit(s.page),
        Phase::Recording => ActionView::RecordFailure(s.failures.last()),
        Phase::Finished => ActionView::Finish,
    }
}

/// Whether a state is one that the machine can reach.
pub open spec fn crawl_wf(s: CrawlView) -> bool {
    &&& s.window.wf()
    &&& s.pacing.min_ms <= s.pacing.max_ms
    &&& s.window.end_page <= s.page <= s.window.start_page
    &&& 0 <= s.next <= s.records.len()
    &&& (s.phase == Phase::Checking || s.phase == Phase::Inserting) ==> s.next < s.records.len()
    &&& s.phase == Phase::Recording ==> s.failures.len() > 0
    &&& s.phase == Phase::Finished ==> s.page == s.window.end_page
    &&& forall|i: int| 0 <= i < s.records.len() ==> (#[trigger] s.records[i]).id != 0
    &&& if s.phase == Phase::Committing || s.phase == Phase::Recording || s.phase
        == Phase::Finished {
        s.committed <= s.window.start_page - s.page + 1
    } else {
        s.committed <= s.window.start_page - s.page
    }
}

/// The ingest of one page window.
pub struct Crawl {
    window: PageWindow,
    pacing: Pacing,
    phase: Phase,
    page: u64,
    records: Vec<QuestionRow>,
    next: usize,
    checkpoint: u64,
    failures: Vec<FailureEntry>,
    committed: u64,
}

impl View for Crawl {
    type V = CrawlView;

    closed spec fn view(&self) -> CrawlView {
        CrawlView {
            window: self.window,
            pacing: self.pacing,
            phase: self.phase,
            page: self.page,
            records: row_views(self.records@),
            next: self.next as int,
            checkpoint: self.checkpoint,
            failures: self.failures@,
            committed: self.committed,
        }
    }
}

/// The handling of the current page's records against a sink that answers
/// truthfully from the set of ids `sink` and stores every record it is
/// handed, for at most `fuel` events: the state reached, the sink's ids
/// afterwards and the records inserted, in order.
pub open spec fn ingest(s: CrawlView, sink: Set<i64>, fuel: nat) -> (CrawlView, Set<i64>, Seq<
    RowView,
>)
    decreases fuel,
{
    if fuel == 0 {
        (s, sink, Seq::empty())
    } else if s.phase == Phase::Checking {
        ingest(
            next_state(s, EventView::Present(sink.contains(s.records[s.next].id))),
            sink,
            (fuel - 1) as nat,
        )
    } else if s.phase == Phase::Inserting {
        let r = s.records[s.next];
        let (t, k, ins) = ingest(
            next_state(s, EventView::Stored(true)),
            sink.insert(r.id),
            (fuel - 1) as nat,
        );
        (t, k, seq![r] + ins)
    } else {
        (s, sink, Seq::empty())
    }
}

proof fn lemma_eligible_len(rows: Seq<RowView>)
    ensures
        eligible(rows).len() <= rows.len(),
    decreases rows.len(),
{
    if rows.len() > 0 {
        lemma_eligible_len(rows.drop_last());
    }
}

/// Every record that goes to the sink is a record of the page, and every
/// record of the page with a usable id goes to the sink.
proof fn lemma_eligible_members(rows: Seq<RowView>)
    ensures
        forall|i: int|
            0 <= i < eligible(rows).len() ==> exists|j: int|
                0 <= j < rows.len() && rows[j] == #[trigger] eligible(rows)[i],
        forall|j: int|
            0 <= j < rows.len() && (#[trigger] rows[j]).id != 0 ==> exists|i: int|
                0 <= i < eligible(rows).len() && eligible(rows)[i] == rows[j],
    decreases rows.len(),
{
    if rows.len() > 0 {
        let d = rows.drop_last();
        lemma_eligible_members(d);
        let e = eligible(d);
        let n = rows.len() - 1;
        assert forall|i: int| 0 <= i < eligible(rows).len() implies exists|j: int|
            0 <= j < rows.len() && rows[j] == #[trigger] eligible(rows)[i] by {
            if i < e.len() {
                let j = choose|j: int| 0 <= j < d.len() && d[j] == e[i];
                assert(rows[j] == d[j]);
                if rows.last().id != 0 {
                    assert(eligible(rows)[i] == e.push(rows.last())[i]);
                }
            } else {
                assert(rows[n] == eligible(rows)[i]);
            }
        }
        assert forall|j: int| 0 <= j < rows.len() && (#[trigger] rows[j]).id != 0 implies exists|
            i: int,
        | 0 <= i < eligible(rows).len() && eligible(rows)[i] == rows[j] by {
            if j < n {
                assert(d[j] == rows[j]);
                let i = choose|i: int| 0 <= i < e.len() && e[i] == d[j];
                if rows.last().id != 0 {
                    assert(eligible(rows)[i] == e.push(rows.last())[i]);
                }
                assert(0 <= i < eligible(rows).len() && eligible(rows)[i] == rows[j]);
            } else {
                assert(rows.last() == rows[j]);
                assert(eligible(rows) == e.push(rows.last()));
                assert(eligible(rows)[e.len() as int] == rows[j]);
            }
        }
    }
}

/// Handling a page's records ends in the page's commit; it inserts only
/// records whose ids the sink lacked, never two with one id, and leaves the
/// sink holding the ids of all the records.
proof fn lemma_ingest(s: CrawlView, sink: Set<i64>, fuel: nat)
    requires
        crawl_wf(s),
        s.phase == Phase::Checking || s.phase == Phase::Inserting || (s.phase
            == Phase::Committing && s.next == s.records.len() && s.checkpoint == s.page),
        s.phase == Phase::Inserting ==> !sink.contains(s.records[s.next].id),
        fuel >= 2 * (s.records.len() - s.next) - (if s.phase == Phase::Inserting {
            1int
        } else {
            0int
        }),
    ensures
        ({
            let (t, k, ins) = ingest(s, sink, fuel);
            &&& crawl_wf(t)
            &&& t.window == s.window
            &&& t.phase == Phase::Committing
            &&& t.checkpoint == s.page
            &&& t.page == s.page
            &&& t.failures == s.failures
            &&& sink.subset_of(k)
            &&& forall|j: int| s.next <= j < s.records.len() ==> k.contains(#[trigger] s.records[j].id)
            &&& forall|i: int| 0 <= i < ins.len() ==> !sink.contains(#[trigger] ins[i].id)
            &&& forall|i: int, j: int| 0 <= i < j < ins.len() ==> ins[i].id != ins[j].id
            &&& ins.len() == 0 ==> k == sink
            &&& forall|id: i64|
                #![trigger k.contains(id)]
                k.contains(id) ==> sink.contains(id) || exists|j: int|
                    s.next <= j < s.records.len() && s.records[j].id == id
            &&& (forall|j: int| s.next <= j < s.records.len() ==> sink.contains(
                #[trigger] s.records[j].id,
            )) ==> ins.len() == 0
        }),
    decreases fuel,
{
    if s.phase == Phase::Committing {
        return;
    }
    if s.phase == Phase::Checking {
        let found = sink.contains(s.records[s.next].id);
        let t = next_state(s, EventView::Present(found));
        lemma_ingest(t, sink, (fuel - 1) as nat);
    } else {
        let r = s.records[s.next];
        let sink2 = sink.insert(r.id);
        let t = next_state(s, EventView::Stored(true));
        lemma_ingest(t, sink2, (fuel - 1) as nat);
        let (u, k, ins) = ingest(t, sink2, (fuel - 1) as nat);
        assert forall|id: i64| #![trigger k.contains(id)] k.contains(id) implies sink.contains(id)
            || exists|j: int| s.next <= j < s.records.len() && s.records[j].id == id by {
            if id == r.id {
                assert(s.records[s.next].id == id);
            } else if !sink.contains(id) {
                assert(!sink2.contains(id));
                let j = choose|j: int| t.next <= j < t.records.len() && t.records[j].id == id;
                assert(s.next <= j < s.records.len() && s.records[j].id == id);
            }
        }
        let all = seq![r] + ins;
        assert forall|i: int| 0 <= i < all.len() implies !sink.contains(#[trigger] all[i].id) by {
            if i > 0 {
                assert(all[i] == ins[i - 1]);
            }
        }
        assert forall|i: int, j: int| 0 <= i < j < all.len() implies all[i].id != all[j].id by {
            assert(all[j] == ins[j - 1]);
            if i > 0 {
                assert(all[i] == ins[i - 1]);
            } else {
                assert(sink2.contains(r.id));
            }
        }
    }
}

/// Re-running a page that was fully committed, against a sink that was not
/// reset, inserts nothing: the sink's presence answers suppress every record,
/// the sink is unchanged, and the page is committed again.
pub proof fn lemma_rerun_inserts_nothing(s: CrawlView, rows: Seq<RowView>, sink: Set<i64>)
    requires
        crawl_wf(s),
        s.phase == Phase::Reading,
        forall|j: int| 0 <= j < rows.len() && (#[trigger] rows[j]).id != 0 ==> sink.contains(
            rows[j].id,
        ),
    ensures
        ({
            let (t, k, ins) = ingest(
                next_state(s, EventView::Fetched(rows)),
                sink,
                2 * rows.len(),
            );
            &&& ins.len() == 0
            &&& k == sink
            &&& t.phase == Phase::Committing
            &&& t.checkpoint == s.page
        }),
{
    let t = next_state(s, EventView::Fetched(rows));
    lemma_eligible_len(rows);
    lemma_eligible_members(rows);
    lemma_eligible_ids(rows);
    let e = eligible(rows);
    assert forall|j: int| 0 <= j < e.len() implies sink.contains(#[trigger] e[j].id) by {
        let k = choose|k: int| 0 <= k < rows.len() && rows[k] == e[j];
    }
    lemma_ingest(t, sink, 2 * rows.len());
}

/// Ingesting a fetched page never inserts a record whose id the sink already
/// holds, nor two records with one id; it ends with the page committed and
/// the sink holding every record of the page that has a usable id.
pub proof fn lemma_ingest_never_duplicates(s: CrawlView, rows: Seq<RowView>, sink: Set<i64>)
    requires
        crawl_wf(s),
        s.phase == Phase::Reading,
    ensures
        ({
            let (t, k, ins) = ingest(
                next_state(s, EventView::Fetched(rows)),
                sink,
                2 * rows.len(),
            );
            &&& t.phase == Phase::Committing
            &&& t.checkpoint == s.page
            &&& forall|i: int| 0 <= i < ins.len() ==> !sink.contains(#[trigger] ins[i].id)
            &&& forall|i: int, j: int| 0 <= i < j < ins.len() ==> ins[i].id != ins[j].id
            &&& forall|j: int| 0 <= j < rows.len() && (#[trigger] rows[j]).id != 0 ==> k.contains(
                rows[j].id,
            )
        }),
{
    let t = next_state(s, EventView::Fetched(rows));
    lemma_eligible_len(rows);
    lemma_eligible_members(rows);
    lemma_eligible_ids(rows);
    lemma_ingest(t, sink, 2 * rows.len());
    let (u, k, ins) = ingest(t, sink, 2 * rows.len());
    let e = eligible(rows);
    assert forall|j: int| 0 <= j < rows.len() && (#[trigger] rows[j]).id != 0 implies k.contains(
        rows[j].id,
    ) by {
        let i = choose|i: int| 0 <= i < e.len() && e[i] == rows[j];
        assert(t.records[i] == e[i]);
    }
}

/// A page that fails, in transport (of the request or of its body) or by a
/// non-success status, leaves the checkpoint as it was before the page was
/// attempted: the failure is logged with the page, and once it is recorded
/// the run goes on to the next older page (or finishes at the window's end)
/// with the checkpoint still unchanged.
pub proof fn lemma_failed_page_keeps_checkpoint(s: CrawlView, e: EventView)
    requires
        crawl_wf(s),
        (s.phase == Phase::Fetching && (e is TransportFailed || (e matches EventView::Answered(c)
            && !is_success(c)))) || (s.phase == Phase::Reading && e is TransportFailed),
    ensures
        ({
            let entry = FailureEntry {
                page: s.page,
                reason: if e is TransportFailed {
                    FailureReason::Transport
                } else {
                    FailureReason::Status
                },
            };
            let t = next_state(s, e);
            let u = next_state(t, EventView::Done);
            &&& t.checkpoint == s.checkpoint
            &&& t.failures == s.failures.push(entry)
            &&& pending(t) == ActionView::RecordFailure(entry)
            &&& u.checkpoint == s.checkpoint
            &&& u.committed == s.committed
            &&& u.failures == t.failures
            &&& if s.page > s.window.end_page {
                u.phase == Phase::Pausing && u.page == s.page - 1
            } else {
                u.phase == Phase::Finished
            }
        }),
{
}

/// The body of a page is read, and its records extracted, only after the
/// server answered the request for that page with a success status; a page
/// whose answer failed yields no record to the sink.
pub proof fn lemma_body_read_only_after_success(s: CrawlView, e: EventView)
    requires
        crawl_wf(s),
    ensures
        ({
            let t = next_state(s, e);
            &&& (t.phase == Phase::Reading && s.phase != Phase::Reading) ==> (s.phase
                == Phase::Fetching && t.page == s.page && (e matches EventView::Answered(c)
                && is_success(c)))
            &&& (s.phase == Phase::Fetching && (e matches EventView::Answered(c) && !is_success(c)))
                ==> (t.phase == Phase::Recording && t.records == s.records)
        }),
{
}

/// The checkpoint moves only when a page is committed: to that page, once
/// every one of its records has been handled.
pub proof fn lemma_checkpoint_moves_only_on_commit(s: CrawlView, e: EventView)
    requires
        crawl_wf(s),
    ensures
        ({
            let t = next_state(s, e);
            ||| t.checkpoint == s.checkpoint
            ||| {
                &&& t.phase == Phase::Committing
                &&& s.phase != Phase::Committing
                &&& t.checkpoint == s.page
                &&& t.next == t.records.len()
            }
        }),
{
}

/// The machine never returns to a newer page: the page it works on only
/// moves down, one at a time, within the same window. With the two laws
/// above, a page that failed is never committed later in the run.
pub proof fn lemma_pages_descend(s: CrawlView, e: EventView)
    requires
        crawl_wf(s),
    ensures
        ({
            let t = next_state(s, e);
            &&& t.window == s.window
            &&& t.page == s.page || (t.page == s.page - 1 && t.phase == Phase::Pausing)
        }),
{
}

/// What the outside world does with one page of a run.
pub enum Outcome {
    /// The request fails in transport.
    Unreachable,
    /// The server answers with this status code.
    Refused(u16),
    /// The server answers 200 and the body yields these records.
    Served(Seq<RowView>),
}

/// One page of a run, driven by a driver that carries out each action, meets
/// the page's outcome, and asks a sink that answers truthfully from the ids
/// `sink` and stores what it is handed: the state once the page is left, and
/// the sink's ids afterwards.
pub open spec fn run_page(s: CrawlView, o: Outcome, sink: Set<i64>) -> (CrawlView, Set<i64>) {
    let f = next_state(s, EventView::Done);
    match o {
        Outcome::Unreachable => (
            next_state(next_state(f, EventView::TransportFailed), EventView::Done),
            sink,
        ),
        Outcome::Refused(c) => (
            next_state(next_state(f, EventView::Answered(c)), EventView::Done),
            sink,
        ),
        Outcome::Served(rows) => {
            let r = next_state(next_state(f, EventView::Answered(200)), EventView::Fetched(rows));
            let (t, k, ins) = ingest(r, sink, 2 * rows.len());
            (next_state(t, EventView::Done), k)
        },
    }
}

/// A run over consecutive pages, the first outcome for the current page and
/// each next one for the page below.
pub open spec fn run_pages(s: CrawlView, os: Seq<Outcome>, sink: Set<i64>) -> (CrawlView, Set<
    i64,
>)
    decreases os.len(),
{
    if os.len() == 0 {
        (s, sink)
    } else {
        let (t, k) = run_page(s, os[0], sink);
        run_pages(t, os.drop_first(), k)
    }
}

/// The checkpoint after pages `page`, `page - 1`, ... meet outcomes `os`,
/// starting from `cp`: the last page that was served.
pub open spec fn checkpoint_after(os: Seq<Outcome>, page: int, cp: u64) -> u64
    decreases os.len(),
{
    if os.len() == 0 {
        cp
    } else {
        checkpoint_after(
            os.drop_first(),
            page - 1,
            if os[0] is Served {
                page as u64
            } else {
                cp
            },
        )
    }
}

/// The failure entries of pages `page`, `page - 1`, ... meeting outcomes `os`.
pub open spec fn failures_of(os: Seq<Outcome>, page: int) -> Seq<FailureEntry>
    decreases os.len(),
{
    if os.len() == 0 {
        Seq::empty()
    } else {
        let rest = failures_of(os.drop_first(), page - 1);
        match os[0] {
            Outcome::Unreachable => seq![
                FailureEntry { page: page as u64, reason: FailureReason::Transport },
            ] + rest,
            Outcome::Refused(_) => seq![
                FailureEntry { page: page as u64, reason: FailureReason::Status },
            ] + rest,
            Outcome::Served(_) => rest,
        }
    }
}

/// The records of a page with outcome `o`: none unless it was served.
pub open spec fn served_rows(o: Outcome) -> Seq<RowView> {
    match o {
        Outcome::Served(rows) => rows,
        _ => Seq::empty(),
    }
}

/// Whether `id` is a usable id of a record of a served page among `os`.
pub open spec fn served_id(os: Seq<Outcome>, id: i64) -> bool {
    id != 0 && exists|i: int, j: int|
        0 <= i < os.len() && 0 <= j < served_rows(os[i]).len() && (#[trigger] served_rows(
            os[i],
        )[j]).id == id
}

/// Whether every refusal among `os` carries a non-success status.
pub open spec fn refusals_fail(os: Seq<Outcome>) -> bool {
    forall|i: int| 0 <= i < os.len() ==> ((#[trigger] os[i]) matches Outcome::Refused(c) ==> !is_success(c))
}

proof fn lemma_outcomes_split(o: Outcome, rest: Seq<Outcome>, page: int, cp: u64)
    ensures
        failures_of(seq![o] + rest, page) == failures_of(seq![o], page) + failures_of(
            rest,
            page - 1,
        ),
        failures_of(seq![o], page) == match o {
            Outcome::Unreachable => seq![
                FailureEntry { page: page as u64, reason: FailureReason::Transport },
            ],
            Outcome::Refused(_) => seq![
                FailureEntry { page: page as u64, reason: FailureReason::Status },
            ],
            Outcome::Served(_) => Seq::<FailureEntry>::empty(),
        },
        checkpoint_after(seq![o] + rest, page, cp) == checkpoint_after(
            rest,
            page - 1,
            if o is Served {
                page as u64
            } else {
                cp
            },
        ),
        checkpoint_after(Seq::<Outcome>::empty(), page, cp) == cp,
{
    let os = seq![o] + rest;
    assert(os.drop_first() =~= rest);
    assert(os[0] == o);
    let one = seq![o];
    assert(one.drop_first() =~= Seq::<Outcome>::empty());
    assert(failures_of(Seq::<Outcome>::empty(), page - 1) == Seq::<FailureEntry>::empty());
    assert(failures_of(one, page) =~= match o {
        Outcome::Unreachable => seq![
            FailureEntry { page: page as u64, reason: FailureReason::Transport },
        ],
        Outcome::Refused(_) => seq![
            FailureEntry { page: page as u64, reason: FailureReason::Status },
        ],
        Outcome::Served(_) => Seq::<FailureEntry>::empty(),
    });
    assert(failures_of(os, page) =~= failures_of(one, page) + failures_of(rest, page - 1));
}

proof fn lemma_run_page(s: CrawlView, o: Outcome, sink: Set<i64>)
    requires
        crawl_wf(s),
        s.phase == Phase::Pausing,
        o matches Outcome::Refused(c) ==> !is_success(c),
    ensures
        ({
            let (t, k) = run_page(s, o, sink);
            &&& crawl_wf(t)
            &&& if s.page > s.window.end_page {
                t.phase == Phase::Pausing && t.page == s.page - 1
            } else {
                t.phase == Phase::Finished
            }
            &&& t.window == s.window
            &&& t.checkpoint == (if o is Served {
                s.page
            } else {
                s.checkpoint
            })
            &&& t.failures == s.failures + failures_of(seq![o], s.page as int)
            &&& forall|id: i64|
                #![trigger k.contains(id)]
                k.contains(id) <==> sink.contains(id) || served_id(seq![o], id)
        }),
{
    let f = next_state(s, EventView::Done);
    lemma_next_state_wf(s, EventView::Done);
    let os = seq![o];
    lemma_outcomes_split(o, Seq::empty(), s.page as int, s.checkpoint);
    match o {
        Outcome::Unreachable => {
            let g = next_state(f, EventView::TransportFailed);
            lemma_next_state_wf(f, EventView::TransportFailed);
            lemma_next_state_wf(g, EventView::Done);
            assert(s.failures + failures_of(os, s.page as int) =~= g.failures);
            assert forall|id: i64| !served_id(os, id) by {}
        },
        Outcome::Refused(c) => {
            let g = next_state(f, EventView::Answered(c));
            lemma_next_state_wf(f, EventView::Answered(c));
            lemma_next_state_wf(g, EventView::Done);
            assert(s.failures + failures_of(os, s.page as int) =~= g.failures);
            assert forall|id: i64| !served_id(os, id) by {}
        },
        Outcome::Served(rows) => {
            let g = next_state(f, EventView::Answered(200));
            lemma_next_state_wf(f, EventView::Answered(200));
            let r = next_state(g, EventView::Fetched(rows));
            lemma_next_state_wf(g, EventView::Fetched(rows));
            lemma_eligible_len(rows);
            lemma_eligible_members(rows);
            lemma_eligible_ids(rows);
            lemma_ingest(r, sink, 2 * rows.len());
            let (t, k, ins) = ingest(r, sink, 2 * rows.len());
            lemma_next_state_wf(t, EventView::Done);
            assert(s.failures + failures_of(os, s.page as int) =~= s.failures);
            let e = eligible(rows);
            assert forall|id: i64| #![trigger k.contains(id)] k.contains(id) <==> sink.contains(id)
                || served_id(os, id) by {
                if k.contains(id) && !sink.contains(id) {
                    let j = choose|j: int| 0 <= j < r.records.len() && r.records[j].id == id;
                    let m = choose|m: int| 0 <= m < rows.len() && rows[m] == #[trigger] e[j];
                    assert(os[0] == o);
                    assert(r.records == e);
                    assert(e[j].id != 0);
                    assert(served_rows(os[0]) == rows);
                    assert(served_rows(os[0])[m].id == id);
                    assert(served_id(os, id));
                }
                if served_id(os, id) {
                    let (i, m) = choose|i: int, m: int|
                    0 <= i < os.len() && 0 <= m < served_rows(os[i]).len() && (#[trigger] served_rows(os[i])[m]).id == id;
                    assert(i == 0);
                    assert(rows[m].id != 0);
                    assert(k.contains(rows[m].id));
                }
            }
        },
    }
}

proof fn lemma_run_pages(s: CrawlView, os: Seq<Outcome>, sink: Set<i64>)
    requires
        crawl_wf(s),
        s.phase == Phase::Pausing,
        os.len() == s.page - s.window.end_page + 1,
        refusals_fail(os),
    ensures
        ({
            let (t, k) = run_pages(s, os, sink);
            &&& t.phase == Phase::Finished
            &&& t.checkpoint == checkpoint_after(os, s.page as int, s.checkpoint)
            &&& t.failures == s.failures + failures_of(os, s.page as int)
            &&& forall|id: i64|
                #![trigger k.contains(id)]
                k.contains(id) <==> sink.contains(id) || served_id(os, id)
        }),
    decreases os.len(),
{
    let o = os[0];
    let rest = os.drop_first();
    assert(o matches Outcome::Refused(c) ==> !is_success(c)) by {
        assert(os[0] == o);
    }
    lemma_run_page(s, o, sink);
    let (t, k) = run_page(s, o, sink);
    assert(os =~= seq![o] + rest);
    lemma_outcomes_split(o, rest, s.page as int, s.checkpoint);
    if os.len() == 1 {
        assert(rest =~= Seq::<Outcome>::empty());
        lemma_outcomes_split(o, Seq::empty(), s.page as int, s.checkpoint);
        assert(seq![o] + rest =~= seq![o]);
        assert(failures_of(os, s.page as int) =~= failures_of(seq![o], s.page as int));
        assert forall|id: i64| served_id(os, id) <==> served_id(seq![o], id) by {
            assert(os =~= seq![o]);
        }
    } else {
        assert(refusals_fail(rest)) by {
            assert forall|i: int| 0 <= i < rest.len() implies ((#[trigger] rest[i]) matches Outcome::Refused(c) ==> !is_success(c)) by {
                assert(rest[i] == os[i + 1]);
            }
        }
        lemma_run_pages(t, rest, k);
        let (u, k2) = run_pages(t, rest, k);
        assert(s.failures + failures_of(os, s.page as int) =~= t.failures + failures_of(
            rest,
            s.page - 1,
        ));
        assert forall|id: i64| #![trigger k2.contains(id)] k2.contains(id) <==> sink.contains(id)
            || served_id(os, id) by {
            if served_id(seq![o], id) {
                let (i, m) = choose|i: int, m: int|
                    0 <= i < 1 && 0 <= m < served_rows(seq![o][i]).len() && (#[trigger] served_rows(seq![o][i])[m]).id == id;
                assert(os[0] == seq![o][i]);
            }
            if served_id(rest, id) {
                let (i, m) = choose|i: int, m: int|
                    0 <= i < rest.len() && 0 <= m < served_rows(rest[i]).len() && (#[trigger] served_rows(rest[i])[m]).id == id;
                assert(os[i + 1] == rest[i]);
            }
            if served_id(os, id) {
                let (i, m) = choose|i: int, m: int|
                    0 <= i < os.len() && 0 <= m < served_rows(os[i]).len() && (#[trigger] served_rows(os[i])[m]).id == id;
                if i == 0 {
                    assert(seq![o][0] == os[0]);
                    assert(served_id(seq![o], id));
                } else {
                    assert(rest[i - 1] == os[i]);
                    assert(served_id(rest, id));
                }
            }
        }
    }
}

/// A whole run over a window, the pages meeting any outcomes (a refusal
/// carrying a non-success status): the run finishes; the checkpoint is the
/// last page served (or the saved one, when none was); the failure log holds
/// exactly the pages that failed, in the order walked, with their reasons;
/// and the sink holds afterwards exactly what it held before and the usable
/// ids of the served pages' records, none of a page that failed.
pub proof fn lemma_window_run(
    window: PageWindow,
    pacing: Pacing,
    checkpoint: u64,
    os: Seq<Outcome>,
    sink: Set<i64>,
)
    requires
        window.wf(),
        pacing.min_ms <= pacing.max_ms,
        os.len() == window.pages().len(),
        refusals_fail(os),
    ensures
        ({
            let (t, k) = run_pages(initial(window, pacing, checkpoint), os, sink);
            &&& t.phase == Phase::Finished
            &&& t.checkpoint == checkpoint_after(os, window.start_page as int, checkpoint)
            &&& t.failures == failures_of(os, window.start_page as int)
            &&& forall|id: i64|
                #![trigger k.contains(id)]
                k.contains(id) <==> sink.contains(id) || served_id(os, id)
        }),
{
    let s = initial(window, pacing, checkpoint);
    lemma_run_pages(s, os, sink);
    assert(s.failures + failures_of(os, window.start_page as int) =~= failures_of(
        os,
        window.start_page as int,
    ));
}

/// Every event takes a reachable state to a reachable state.
pub proof fn lemma_next_state_wf(s: CrawlView, e: EventView)
    requires
        crawl_wf(s),
    ensures
        crawl_wf(next_state(s, e)),
{
    if s.phase == Phase::Reading {
        if let EventView::Fetched(rows) = e {
            lemma_eligible_ids(rows);
        }
    }
}

/// The state in which a run over `window` starts, with the failure log empty.
pub open spec fn initial(window: PageWindow, pacing: Pacing, checkpoint: u64) -> CrawlView {
    CrawlView {
        window,
        pacing,
        phase: Phase::Pausing,
        page: window.start_page,
        records: Seq::empty(),
        next: 0,
        checkpoint,
        failures: Seq::empty(),
        committed: 0,
    }
}

/// Number of records of `rows` that do not go to the sink because their id
/// could not be read, for the driver to report.
pub fn count_unusable(rows: &Vec<QuestionRow>) -> (r: usize)
    ensures
        r == rows@.len() - eligible(row_views(rows@)).len(),
{
    let mut n: usize = 0;
    let mut i: usize = 0;
    while i < rows.len()
        invariant
            i <= rows@.len(),
            n <= i,
            n == i - eligible(row_views(rows@.subrange(0, i as int))).len(),
        decreases rows@.len() - i,
    {
        assert(row_views(rows@.subrange(0, i + 1)).drop_last() =~= row_views(
            rows@.subrange(0, i as int),
        ));
        if rows[i].id == 0 {
            n = n + 1;
        }
        i = i + 1;
    }
    assert(rows@.subrange(0, rows@.len() as int) =~= rows@);
    n
}

/// The records of `rows` that go to the sink (see [`eligible`]).
fn eligible_rows(rows: &Vec<QuestionRow>) -> (r: Vec<QuestionRow>)
    ensures
        row_views(r@) == eligible(row_views(rows@)),
{
    let mut out: Vec<QuestionRow> = Vec::new();
    let mut i: usize = 0;
    while i < rows.len()
        invariant
            i <= rows@.len(),
            row_views(out@) == eligible(row_views(rows@.subrange(0, i as int))),
        decreases rows@.len() - i,
    {
        let ghost before = out@;
        assert(row_views(rows@.subrange(0, i + 1)).drop_last() =~= row_views(
            rows@.subrange(0, i as int),
        ));
        if rows[i].id != 0 {
            out.push(rows[i].copy());
            assert(row_views(out@) =~= row_views(before).push(rows@[i as int]@));
        }
        i = i + 1;
    }
    assert(rows@.subrange(0, rows@.len() as int) =~= rows@);
    out
}

proof fn lemma_eligible_ids(rows: Seq<RowView>)
    ensures
        forall|i: int| 0 <= i < eligible(rows).len() ==> (#[trigger] eligible(rows)[i]).id != 0,
    decreases rows.len(),
{
    if rows.len() > 0 {
        lemma_eligible_ids(rows.drop_last());
        let e = eligible(rows.drop_last());
        if rows.last().id != 0 {
            assert forall|i: int| 0 <= i < e.push(rows.last()).len() implies (#[trigger] e.push(
                rows.last(),
            )[i]).id != 0 by {
                if i < e.len() {
                    assert(e.push(rows.last())[i] == e[i]);
                }
            }
        }
    }
}

impl Crawl {
    /// A run over `window` that starts from the saved `checkpoint`, pausing
    /// before each request for a time drawn from `pacing`.
    pub fn new(window: PageWindow, pacing: Pacing, checkpoint: u64) -> (r: Crawl)
        requires
            window.wf(),
            pacing.min_ms <= pacing.max_ms,
        ensures
            r@ == initial(window, pacing, checkpoint),
            crawl_wf(r@),
    {
        let r = Crawl {
            window,
            pacing,
            phase: Phase::Pausing,
            page: window.start_page,
            records: Vec::new(),
            next: 0,
            checkpoint,
            failures: Vec::new(),
            committed: 0,
        };
        assert(r@.records =~= Seq::<RowView>::empty());
        r
    }

    /// The action that the current state asks for.
    pub fn action(&self) -> (r: Action)
        requires
            crawl_wf(self@),
        ensures
            r@ == pending(self@),
            r matches Action::Pause(ms) ==> self@.pacing.min_ms <= ms <= self@.pacing.max_ms,
    {
        match self.phase {
            Phase::Pausing => Action::Pause(self.pacing.draw()),
            Phase::Fetching => Action::Fetch(self.page),
            Phase::Reading => Action::ReadBody(self.page),
            Phase::Checking => Action::CheckExists(self.records[self.next].id),
            Phase::Inserting => Action::Insert(self.records[self.next].copy()),
            Phase::Committing => Action::Commit(self.page),
            Phase::Recording => Action::RecordFailure(self.failures[self.failures.len() - 1]),
            Phase::Finished => Action::Finish,
        }
    }

    fn settle(&mut self)
        requires
            crawl_wf(
                CrawlView { phase: Phase::Reading, ..old(self)@ },
            ),
        ensures
            final(self)@ == settle(old(self)@),
    {
        if self.next < self.records.len() {
            self.phase = Phase::Checking;
        } else {
            self.phase = Phase::Committing;
            self.checkpoint = self.page;
            self.committed = self.committed + 1;
        }
    }

    fn advance_page(&mut self)
        requires
            crawl_wf(old(self)@),
        ensures
            final(self)@ == advance_page(old(self)@),
    {
        if self.page > self.window.end_page {
            self.phase = Phase::Pausing;
            self.page = self.page - 1;
            self.records = Vec::new();
            self.next = 0;
            assert(self@.records =~= Seq::<RowView>::empty());
        } else {
            self.phase = Phase::Finished;
        }
    }

    /// Takes the driver's report of the pending action and returns the next action.
    pub fn step(&mut self, event: Event) -> (r: Action)
        requires
            crawl_wf(old(self)@),
        ensures
            final(self)@ == next_state(old(self)@, event@),
            crawl_wf(final(self)@),
            r@ == pending(final(self)@),
            r matches Action::Pause(ms) ==> old(self)@.pacing.min_ms <= ms
                <= old(self)@.pacing.max_ms,
    {
        match event {
            Event::Done => {
                if self.phase == Phase::Pausing {
                    self.phase = Phase::Fetching;
                } else if self.phase == Phase::Committing || self.phase == Phase::Recording {
                    self.advance_page();
                }
            },
            Event::TransportFailed => {
                if self.phase == Phase::Fetching || self.phase == Phase::Reading {
                    self.failures.push(
                        FailureEntry { page: self.page, reason: FailureReason::Transport },
                    );
                    self.phase = Phase::Recording;
                }
            },
            Event::Answered(code) => {
                if self.phase == Phase::Fetching {
                    if 200 <= code && code <= 299 {
                        self.phase = Phase::Reading;
                    } else {
                        self.failures.push(
                            FailureEntry { page: self.page, reason: FailureReason::Status },
                        );
                        self.phase = Phase::Recording;
                    }
                }
            },
            Event::Fetched(rows) => {
                if self.phase == Phase::Reading {
                    self.records = eligible_rows(&rows);
                    self.next = 0;
                    proof {
                        lemma_eligible_ids(event@->Fetched_0);
                    }
                    self.settle();
                }
            },
            Event::Present(found) => {
                if self.phase == Phase::Checking {
                    if found {
                        let n = self.records.len();
                        assert(self@.records.len() == n);
                        self.next = self.next + 1;
                        self.settle();
                    } else {
                        self.phase = Phase::Inserting;
                    }
                }
            },
            Event::Stored(_) => {
                if self.phase == Phase::Inserting {
                    let n = self.records.len();
                    assert(self@.records.len() == n);
                    self.next = self.next + 1;
                    self.settle();
                }
            },
        }
        self.action()
    }

    /// The last committed page (0: none).
    pub fn checkpoint(&self) -> (r: u64)
        ensures
            r == self@.checkpoint,
    {
        self.checkpoint
    }

    /// The pages that failed in this run, in order.
    pub fn failures(&self) -> (r: &Vec<FailureEntry>)
        ensures
            r@ == self@.failures,
    {
        &self.failures
    }

    /// Number of pages committed by this run.
    pub fn committed(&self) -> (r: u64)
        ensures
            r == self@.committed,
    {
        self.committed
    }

    /// Where the machine stands.
    pub fn phase(&self) -> (r: Phase)
        ensures
            r == self@.phase,
    {
        self.phase
    }

    /// The page being worked on.
    pub fn page(&self) -> (r: u64)
        ensures
            r == self@.page,
    {
        self.page
    }
}

} // verus!
