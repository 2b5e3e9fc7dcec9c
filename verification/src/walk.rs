//! The batch walk as a state machine. The walk goes down the table of
//! competitions from a resume point, batch by batch; every answer of the
//! database is an event, and `step` says what state follows and what is asked
//! of the database next. Nothing here touches the database.

use vstd::prelude::*;

verus! {

/// The two walks.
#[derive(Clone, Copy, Debug, PartialEq, Eq, Structural)]
pub enum Workflow {
    /// Fill the table of normalized auctions from the stored competitions.
    PopulateAuctions,
    /// Re-express executed fees in the buy token.
    ConvertFees,
}

/// The query that gives a walk its resume point.
#[derive(Clone, Copy, Debug, PartialEq, Eq, Structural)]
pub enum ResumeQuery {
    /// The lowest id in the table of normalized auctions: everything at or
    /// above it was written by an earlier run.
    LowestNormalizedAuction,
    /// The highest id in the table of competitions: the correction of fees
    /// starts from the newest competition whatever was corrected before.
    HighestCompetition,
}

/// How the walk is tuned.
#[derive(Clone, Copy, Debug, PartialEq, Eq, Structural)]
pub struct WalkSettings {
    /// The most rows that one batch holds; at least 1.
    pub batch_size: i64,
    /// The pause after each commit, in milliseconds.
    pub pause_millis: u64,
}

/// How a walk ended.
#[derive(Clone, Copy, Debug, PartialEq, Eq, Structural)]
pub enum WalkEnd {
    /// There was no resume point: nothing to process.
    NothingToProcess,
    /// A fetch found no row below the cursor: the walk is complete.
    Exhausted,
    /// The database failed, or gave an answer that is none to what was asked.
    Failed,
}

/// Where a walk stands.
#[derive(Clone, Copy, Debug, PartialEq, Eq, Structural)]
pub enum WalkState {
    /// The resume point is being asked for.
    Resolving,
    /// The rows below `cursor` are being fetched.
    Fetching { cursor: i64 },
    /// A batch of rows below `cursor` is being transformed; `last_id` is the
    /// id of its last row, which is its lowest.
    Processing { cursor: i64, last_id: i64 },
    /// The transaction of the batch that ended with `last_id` is being
    /// committed.
    Committing { last_id: i64 },
    /// The walk is over.
    Done(WalkEnd),
}

/// What the database answered.
#[derive(Clone, Debug, PartialEq, Eq)]
pub enum WalkEvent {
    /// The resume point, or none where the table is empty.
    ResumePoint(Option<i64>),
    /// The ids of the rows that a fetch gave, in their order.
    Batch(Vec<i64>),
    /// A fetch failed because a row could not be deserialized.
    Undecodable,
    /// Every row of the batch was transformed or skipped.
    Processed,
    /// The transaction was committed, the pause is over and a new
    /// transaction is open.
    Committed,
    /// Any other failure of the database.
    Failure,
}

/// The mathematical content of a `WalkEvent`.
pub enum WalkEventView {
    /// The resume point, or none where the table is empty.
    ResumePoint(Option<i64>),
    /// The ids of the rows that a fetch gave, in their order.
    Batch(Seq<i64>),
    /// A fetch failed because a row could not be deserialized.
    Undecodable,
    /// Every row of the batch was transformed or skipped.
    Processed,
    /// The transaction was committed and a new one is open.
    Committed,
    /// Any other failure of the database.
    Failure,
}

impl View for WalkEvent {
    type V = WalkEventView;

    open spec fn view(&self) -> WalkEventView {
        match *self {
            WalkEvent::ResumePoint(point) => WalkEventView::ResumePoint(point),
            WalkEvent::Batch(ids) => WalkEventView::Batch(ids@),
            WalkEvent::Undecodable => WalkEventView::Undecodable,
            WalkEvent::Processed => WalkEventView::Processed,
            WalkEvent::Committed => WalkEventView::Committed,
            WalkEvent::Failure => WalkEventView::Failure,
        }
    }
}

/// What is asked of the database next.
#[derive(Clone, Copy, Debug, PartialEq, Eq, Structural)]
pub enum WalkAction {
    /// Run this query for the resume point.
    Resolve(ResumeQuery),
    /// Fetch up to `limit` rows with an id below `below`, the highest first.
    Fetch { below: i64, limit: i64 },
    /// Transform the rows of the batch, in their order.
    Process,
    /// Commit, pause for so many milliseconds, open a new transaction.
    Commit { pause_millis: u64 },
    /// Stop.
    Stop(WalkEnd),
}

/// `ids` can be the answer to a fetch of up to `limit` rows below `below`:
/// at most `limit` ids, all below `below`, each lower than the one before.
pub open spec fn answers_fetch(ids: Seq<i64>, below: i64, limit: i64) -> bool {
    &&& ids.len() <= limit
    &&& forall|i: int| 0 <= i < ids.len() ==> #[trigger] ids[i] < below
    &&& forall|i: int, j: int| 0 <= i < j < ids.len() ==> #[trigger] ids[i] > #[trigger] ids[j]
}

/// The query that resolves the resume point of `workflow`.
pub open spec fn spec_resume_query(workflow: Workflow) -> ResumeQuery {
    match workflow {
        Workflow::PopulateAuctions => ResumeQuery::LowestNormalizedAuction,
        Workflow::ConvertFees => ResumeQuery::HighestCompetition,
    }
}

/// The state that follows `state` when the database answers `event`, and what
/// is asked of it next.
///
/// From `Resolving`, no resume point ends the walk with nothing to process; a
/// resume point becomes the cursor and the first fetch is made below it. From
/// `Fetching`, an empty batch ends the walk; a batch that answers the fetch is
/// processed; a row that cannot be deserialized moves the cursor down by one
/// and the fetch is made again. From `Processing` the batch is committed, and
/// after the commit the id of the last row of the batch is the cursor of the
/// next fetch. A failure, or an event that does not answer what was asked,
/// ends the walk as failed; once over, a walk stays over.
pub open spec fn spec_step(settings: WalkSettings, state: WalkState, event: WalkEventView) -> (
    WalkState,
    WalkAction,
) {
    let failed = (WalkState::Done(WalkEnd::Failed), WalkAction::Stop(WalkEnd::Failed));
    match state {
        WalkState::Done(end) => (state, WalkAction::Stop(end)),
        WalkState::Resolving => match event {
            WalkEventView::ResumePoint(None) => (
                WalkState::Done(WalkEnd::NothingToProcess),
                WalkAction::Stop(WalkEnd::NothingToProcess),
            ),
            WalkEventView::ResumePoint(Some(cursor)) => (
                WalkState::Fetching { cursor },
                WalkAction::Fetch { below: cursor, limit: settings.batch_size },
            ),
            _ => failed,
        },
        WalkState::Fetching { cursor } => match event {
            WalkEventView::Batch(ids) => if ids.len() == 0 {
                (WalkState::Done(WalkEnd::Exhausted), WalkAction::Stop(WalkEnd::Exhausted))
            } else if answers_fetch(ids, cursor, settings.batch_size) {
                (WalkState::Processing { cursor, last_id: ids.last() }, WalkAction::Process)
            } else {
                failed
            },
            WalkEventView::Undecodable => if cursor > i64::MIN {
                (
                    WalkState::Fetching { cursor: (cursor - 1) as i64 },
                    WalkAction::Fetch { below: (cursor - 1) as i64, limit: settings.batch_size },
                )
            } else {
                (WalkState::Done(WalkEnd::Exhausted), WalkAction::Stop(WalkEnd::Exhausted))
            },
            _ => failed,
        },
        WalkState::Processing { cursor, last_id } => match event {
            WalkEventView::Processed => (
                WalkState::Committing { last_id },
                WalkAction::Commit { pause_millis: settings.pause_millis },
            ),
            _ => failed,
        },
        WalkState::Committing { last_id } => match event {
            WalkEventView::Committed => (
                WalkState::Fetching { cursor: last_id },
                WalkAction::Fetch { below: last_id, limit: settings.batch_size },
            ),
            _ => failed,
        },
    }
}

impl WalkSettings {
    /// A batch holds at least one row.
    pub open spec fn wf(&self) -> bool {
        self.batch_size >= 1
    }

    /// The settings with this batch size and pause; none where the batch
    /// size is not positive.
    pub fn new(batch_size: i64, pause_millis: u64) -> (r: Option<WalkSettings>)
        ensures
            r == if batch_size >= 1 {
                Some(WalkSettings { batch_size, pause_millis })
            } else {
                None
            },
    {
        if batch_size >= 1 {
            Some(WalkSettings { batch_size, pause_millis })
        } else {
            None
        }
    }

}

impl Default for WalkSettings {
    /// One row per batch and 50 milliseconds between batches.
    fn default() -> (r: WalkSettings)
        ensures
            r == (WalkSettings { batch_size: 1, pause_millis: 50 }),
            r.wf(),
    {
        WalkSettings { batch_size: 1, pause_millis: 50 }
    }
}

/// Whether `ids` can be the answer to a fetch of up to `limit` rows below
/// `below`.
pub fn check_batch(ids: &Vec<i64>, below: i64, limit: i64) -> (r: bool)
    ensures
        r == answers_fetch(ids@, below, limit),
{
    if limit < 0 || ids.len() as u128 > limit as u128 {
        return false;
    }
    let mut i: usize = 0;
    while i < ids.len()
        invariant
            i <= ids@.len(),
            forall|j: int| 0 <= j < i ==> #[trigger] ids@[j] < below,
            forall|a: int, b: int| 0 <= a < b < i ==> #[trigger] ids@[a] > #[trigger] ids@[b],
        decreases ids@.len() - i,
    {
        if ids[i] >= below {
            return false;
        }
        if i > 0 && ids[i - 1] <= ids[i] {
            assert(!(ids@[i - 1] > ids@[i as int]));
            return false;
        }
        proof {
            assert forall|a: int| 0 <= a < i implies #[trigger] ids@[a] > ids@[i as int] by {
                if a < i - 1 {
                    assert(ids@[a] > ids@[i - 1]);
                }
            }
        }
        i += 1;
    }
    true
}

/// The first state of a walk, and the query that it opens with.
pub fn start(workflow: Workflow) -> (r: (WalkState, WalkAction))
    ensures
        r == (WalkState::Resolving, WalkAction::Resolve(spec_resume_query(workflow))),
{
    let query = match workflow {
        Workflow::PopulateAuctions => ResumeQuery::LowestNormalizedAuction,
        Workflow::ConvertFees => ResumeQuery::HighestCompetition,
    };
    (WalkState::Resolving, WalkAction::Resolve(query))
}

/// The state that follows `state` when the database answers `event`, and what
/// is asked of it next.
pub fn step(settings: &WalkSettings, state: WalkState, event: &WalkEvent) -> (r: (
    WalkState,
    WalkAction,
))
    ensures
        r == spec_step(*settings, state, event@),
{
    let failed = (WalkState::Done(WalkEnd::Failed), WalkAction::Stop(WalkEnd::Failed));
    match state {
        WalkState::Done(end) => (state, WalkAction::Stop(end)),
        WalkState::Resolving => match event {
            WalkEvent::ResumePoint(None) => (
                WalkState::Done(WalkEnd::NothingToProcess),
                WalkAction::Stop(WalkEnd::NothingToProcess),
            ),
            WalkEvent::ResumePoint(Some(cursor)) => (
                WalkState::Fetching { cursor: *cursor },
                WalkAction::Fetch { below: *cursor, limit: settings.batch_size },
            ),
            _ => failed,
        },
        WalkState::Fetching { cursor } => match event {
            WalkEvent::Batch(ids) => {
                if ids.len() == 0 {
                    (WalkState::Done(WalkEnd::Exhausted), WalkAction::Stop(WalkEnd::Exhausted))
                } else if check_batch(ids, cursor, settings.batch_size) {
                    (
                        WalkState::Processing { cursor, last_id: ids[ids.len() - 1] },
                        WalkAction::Process,
                    )
                } else {
                    failed
                }
            },
            WalkEvent::Undecodable => match cursor.checked_sub(1) {
                Some(lower) => (
                    WalkState::Fetching { cursor: lower },
                    WalkAction::Fetch { below: lower, limit: settings.batch_size },
                ),
                None => (
                    WalkState::Done(WalkEnd::Exhausted),
                    WalkAction::Stop(WalkEnd::Exhausted),
                ),
            },
            _ => failed,
        },
        WalkState::Processing { cursor, last_id } => match event {
            WalkEvent::Processed => (
                WalkState::Committing { last_id },
                WalkAction::Commit { pause_millis: settings.pause_millis },
            ),
            _ => failed,
        },
        WalkState::Committing { last_id } => match event {
            WalkEvent::Committed => (
                WalkState::Fetching { cursor: last_id },
                WalkAction::Fetch { below: last_id, limit: settings.batch_size },
            ),
            _ => failed,
        },
    }
}

/// The state that a walk reaches from `state` when the database answers with
/// `events`, one after the other.
pub open spec fn run(settings: WalkSettings, state: WalkState, events: Seq<WalkEventView>)
    -> WalkState
    decreases events.len(),
{
    if events.len() == 0 {
        state
    } else {
        spec_step(settings, run(settings, state, events.drop_last()), events.last()).0
    }
}

/// What is asked of the database after the last of `events`, which must not
/// be empty.
pub open spec fn asked_after(
    settings: WalkSettings,
    state: WalkState,
    events: Seq<WalkEventView>,
) -> WalkAction {
    spec_step(settings, run(settings, state, events.drop_last()), events.last()).1
}

/// No row with an id of `bound` or more is fetched or processed from `state`
/// on: the cursor is at most `bound`, and a batch in work lies below it.
pub open spec fn stays_below(state: WalkState, bound: int) -> bool {
    match state {
        WalkState::Resolving => false,
        WalkState::Fetching { cursor } => cursor <= bound,
        WalkState::Processing { cursor, last_id } => last_id < cursor <= bound,
        WalkState::Committing { last_id } => last_id < bound,
        WalkState::Done(_) => true,
    }
}

/// One step never raises the cursor: what lies at or above `bound` stays out
/// of reach, a fetch that is asked for is for rows below `bound`, and a batch
/// that is taken into work holds only rows below `bound`.
pub proof fn lemma_step_stays_below(
    settings: WalkSettings,
    state: WalkState,
    event: WalkEventView,
    bound: int,
)
    requires
        stays_below(state, bound),
    ensures
        stays_below(spec_step(settings, state, event).0, bound),
        spec_step(settings, state, event).1 matches WalkAction::Fetch { below, .. } ==> below
            <= bound,
        spec_step(settings, state, event).0 matches WalkState::Processing { cursor, .. }
            ==> event matches WalkEventView::Batch(ids) && forall|i: int|
            0 <= i < ids.len() ==> #[trigger] ids[i] < bound,
{
    match (state, event) {
        (WalkState::Fetching { cursor }, WalkEventView::Batch(ids)) => {
            if ids.len() > 0 && answers_fetch(ids, cursor, settings.batch_size) {
                assert(ids[ids.len() - 1] < cursor);
                assert forall|i: int| 0 <= i < ids.len() implies #[trigger] ids[i] < bound by {
                    assert(ids[i] < cursor);
                }
            }
        },
        _ => {},
    }
}

/// The state of a walk that has just resumed at `resume_point`.
pub open spec fn resumed_at(settings: WalkSettings, resume_point: i64) -> WalkState {
    spec_step(settings, WalkState::Resolving, WalkEventView::ResumePoint(Some(resume_point))).0
}

/// A walk that resumes at `resume_point` never asks for, and never processes,
/// a row with an id at or above it, whatever the database answers and however
/// long the walk goes on: what earlier runs wrote is not done again.
pub proof fn lemma_resumed_walk_stays_below(
    settings: WalkSettings,
    resume_point: i64,
    events: Seq<WalkEventView>,
)
    ensures
        stays_below(
            run(settings, resumed_at(settings, resume_point), events),
            resume_point as int,
        ),
        events.len() > 0 ==> (asked_after(settings, resumed_at(settings, resume_point), events)
            matches WalkAction::Fetch { below, .. } ==> below <= resume_point),
    decreases events.len(),
{
    if events.len() > 0 {
        lemma_resumed_walk_stays_below(settings, resume_point, events.drop_last());
        lemma_step_stays_below(
            settings,
            run(settings, resumed_at(settings, resume_point), events.drop_last()),
            events.last(),
            resume_point as int,
        );
    }
}

/// The three answers of one round in which the fetch gives `ids`.
pub open spec fn round(ids: Seq<i64>) -> Seq<WalkEventView> {
    seq![WalkEventView::Batch(ids), WalkEventView::Processed, WalkEventView::Committed]
}

/// A round of fetch, process and commit with a batch that answers the fetch
/// moves the cursor to the id of the last row of the batch, which is below
/// the old cursor; a round whose fetch finds nothing ends the walk.
pub proof fn lemma_round(settings: WalkSettings, cursor: i64, ids: Seq<i64>)
    requires
        answers_fetch(ids, cursor, settings.batch_size),
    ensures
        ids.len() == 0 ==> run(settings, WalkState::Fetching { cursor }, round(ids)) == (
            WalkState::Done(WalkEnd::Exhausted)),
        ids.len() > 0 ==> run(settings, WalkState::Fetching { cursor }, round(ids)) == (
            WalkState::Fetching { cursor: ids.last() }) && ids.last() < cursor,
{
    let events = round(ids);
    assert(events.drop_last() =~= seq![WalkEventView::Batch(ids), WalkEventView::Processed]);
    assert(events.drop_last().drop_last() =~= seq![WalkEventView::Batch(ids)]);
    assert(events.drop_last().drop_last().drop_last() =~= Seq::<WalkEventView>::empty());
    reveal_with_fuel(run, 4);
    if ids.len() > 0 {
        assert(ids[ids.len() - 1] < cursor);
    }
}

/// The ids of `table` fall from each row to the next: the table of
/// competitions as a fetch sees it, the highest id first.
pub open spec fn descending(table: Seq<i64>) -> bool {
    forall|i: int, j: int| 0 <= i < j < table.len() ==> #[trigger] table[i] > #[trigger] table[j]
}

/// The number of rows of `table` that are not below `cursor`: the place of
/// the first row that a fetch below `cursor` gives.
pub open spec fn rows_above(table: Seq<i64>, cursor: i64) -> int
    decreases table.len(),
{
    if table.len() == 0 {
        0
    } else if table.last() >= cursor {
        table.len() as int
    } else {
        rows_above(table.drop_last(), cursor)
    }
}

/// What the database answers to a fetch of up to `limit` rows below `below`
/// when it holds the rows `table`: the first `limit` of the rows below
/// `below`, or all of them where they are fewer.
pub open spec fn fetched(table: Seq<i64>, below: i64, limit: i64) -> Seq<i64> {
    let first = rows_above(table, below);
    let end = if first + limit <= table.len() {
        first + limit
    } else {
        table.len() as int
    };
    table.subrange(first, end)
}

/// The rows that a walk processes from a fetch below `cursor` until it ends,
/// against a database that holds the rows `table` and answers every fetch
/// with what `fetched` says: round after round, each batch followed by what
/// the walk does from the cursor that the round leaves.
pub open spec fn walked(settings: WalkSettings, table: Seq<i64>, cursor: i64) -> Seq<i64>
    decreases cursor - i64::MIN,
{
    let batch = fetched(table, cursor, settings.batch_size);
    match run(settings, WalkState::Fetching { cursor }, round(batch)) {
        WalkState::Fetching { cursor: next } => if next < cursor {
            batch + walked(settings, table, next)
        } else {
            batch
        },
        _ => Seq::empty(),
    }
}

/// In a descending table the rows that are not below `cursor` come first and
/// all others after them.
pub proof fn lemma_rows_above(table: Seq<i64>, cursor: i64)
    requires
        descending(table),
    ensures
        0 <= rows_above(table, cursor) <= table.len(),
        forall|i: int| 0 <= i < rows_above(table, cursor) ==> #[trigger] table[i] >= cursor,
        forall|i: int| rows_above(table, cursor) <= i < table.len() ==> #[trigger] table[i] < cursor,
    decreases table.len(),
{
    if table.len() == 0 {
    } else if table.last() >= cursor {
        assert forall|i: int| 0 <= i < table.len() implies #[trigger] table[i] >= cursor by {
            if i < table.len() - 1 {
                assert(table[i] > table[table.len() - 1]);
            }
        }
    } else {
        let front = table.drop_last();
        assert forall|i: int, j: int| 0 <= i < j < front.len() implies #[trigger] front[i]
            > #[trigger] front[j] by {
            assert(front[i] == table[i] && front[j] == table[j]);
        }
        lemma_rows_above(front, cursor);
        assert forall|i: int| 0 <= i < rows_above(table, cursor) implies #[trigger] table[i]
            >= cursor by {
            assert(front[i] == table[i]);
        }
        assert forall|i: int| rows_above(table, cursor) <= i < table.len() implies #[trigger] table[i]
            < cursor by {
            if i < front.len() {
                assert(front[i] == table[i]);
            }
        }
    }
}

/// The one place that parts the rows that are not below `cursor` from the
/// others is the number of the former.
pub proof fn lemma_rows_above_is(table: Seq<i64>, cursor: i64, place: int)
    requires
        descending(table),
        0 <= place <= table.len(),
        forall|i: int| 0 <= i < place ==> #[trigger] table[i] >= cursor,
        forall|i: int| place <= i < table.len() ==> #[trigger] table[i] < cursor,
    ensures
        rows_above(table, cursor) == place,
{
    lemma_rows_above(table, cursor);
    let p = rows_above(table, cursor);
    if p < place {
        assert(table[p] >= cursor);
    } else if place < p {
        assert(table[place] >= cursor);
    }
}

/// A walk over a descending table processes every row below its cursor, each
/// once, in the order of the table, whatever the size of its batches.
pub proof fn lemma_walk_is_complete(settings: WalkSettings, table: Seq<i64>, cursor: i64)
    requires
        settings.wf(),
        descending(table),
    ensures
        walked(settings, table, cursor) == table.skip(rows_above(table, cursor)),
    decreases cursor - i64::MIN,
{
    lemma_rows_above(table, cursor);
    let first = rows_above(table, cursor);
    let batch = fetched(table, cursor, settings.batch_size);
    let end = first + batch.len();
    assert(answers_fetch(batch, cursor, settings.batch_size)) by {
        assert forall|i: int| 0 <= i < batch.len() implies #[trigger] batch[i] < cursor by {
            assert(batch[i] == table[first + i]);
        }
        assert forall|i: int, j: int| 0 <= i < j < batch.len() implies #[trigger] batch[i]
            > #[trigger] batch[j] by {
            assert(batch[i] == table[first + i] && batch[j] == table[first + j]);
        }
    }
    lemma_round(settings, cursor, batch);
    if batch.len() == 0 {
        assert(first == table.len());
        assert(table.skip(first) =~= Seq::<i64>::empty());
    } else {
        let next = batch.last();
        assert(next == table[end - 1]);
        assert forall|i: int| 0 <= i < end implies #[trigger] table[i] >= next by {
            if i < end - 1 {
                assert(table[i] > table[end - 1]);
            }
        }
        assert forall|i: int| end <= i < table.len() implies #[trigger] table[i] < next by {
            assert(table[end - 1] > table[i]);
        }
        lemma_rows_above_is(table, next, end);
        lemma_walk_is_complete(settings, table, next);
        assert(batch + table.skip(end) =~= table.skip(first));
    }
}

/// A walk that is stopped and resumed at a cursor that it had reached does
/// what the unbroken walk had left to do: from any `cursor`, and for any
/// `resume_point` at or below it, the unbroken walk processes the rows
/// between the two and then exactly the rows of the walk that resumes at
/// `resume_point`. The sizes of the batches of the two walks need not agree.
pub proof fn lemma_resumed_walk_does_the_rest(
    settings: WalkSettings,
    later: WalkSettings,
    table: Seq<i64>,
    cursor: i64,
    resume_point: i64,
)
    requires
        settings.wf(),
        later.wf(),
        descending(table),
        resume_point <= cursor,
    ensures
        rows_above(table, cursor) <= rows_above(table, resume_point) <= table.len(),
        walked(settings, table, cursor) == table.subrange(
            rows_above(table, cursor),
            rows_above(table, resume_point),
        ) + walked(later, table, resume_point),
{
    lemma_rows_above(table, cursor);
    lemma_rows_above(table, resume_point);
    let first = rows_above(table, cursor);
    let second = rows_above(table, resume_point);
    if second < first {
        assert(table[second] >= cursor);
        assert(table[second] < resume_point);
    }
    lemma_walk_is_complete(settings, table, cursor);
    lemma_walk_is_complete(later, table, resume_point);
    assert(table.subrange(first, second) + table.skip(second) =~= table.skip(first));
}

/// A fetch of the rows below `below` asks for the row with the id `id`.
pub open spec fn fetches(below: i64, id: int) -> bool {
    id < below
}

/// A row that cannot be deserialized costs the walk that row and no other:
/// the fetch is made again one id lower, without a commit in between, so
/// that the one id that the failed fetch asked for and the next does not is
/// the id just below the old cursor.
pub proof fn lemma_undecodable_row_skips_one(settings: WalkSettings, cursor: i64)
    requires
        cursor > i64::MIN,
    ensures
        spec_step(settings, WalkState::Fetching { cursor }, WalkEventView::Undecodable) == (
            WalkState::Fetching { cursor: (cursor - 1) as i64 },
            WalkAction::Fetch { below: (cursor - 1) as i64, limit: settings.batch_size },
        ),
        forall|id: int|
            (fetches(cursor, id) && !#[trigger] fetches((cursor - 1) as i64, id)) <==> id == cursor
                - 1,
{
}

/// `count` fetches in a row that fail on a row that cannot be deserialized.
pub open spec fn failed_fetches(count: nat) -> Seq<WalkEventView> {
    Seq::new(count, |i: int| WalkEventView::Undecodable)
}

/// After `count` failed fetches in a row the cursor is `count` lower.
pub proof fn lemma_failed_fetches(settings: WalkSettings, cursor: i64, count: nat)
    requires
        cursor - count >= i64::MIN,
    ensures
        run(settings, WalkState::Fetching { cursor }, failed_fetches(count)) == (
            WalkState::Fetching { cursor: (cursor - count) as i64 }),
    decreases count,
{
    if count > 0 {
        lemma_failed_fetches(settings, cursor, (count - 1) as nat);
        assert(failed_fetches(count).drop_last() =~= failed_fetches((count - 1) as nat));
        assert(failed_fetches(count).last() == WalkEventView::Undecodable);
    }
}

/// With one row per batch, a row that cannot be deserialized costs the walk
/// that row and no other. Let the first row below the cursor be such a row.
/// Every fetch from a cursor above it gives that row alone, and so fails;
/// the failures take the cursor down to the id of that row; and the fetch
/// from there gives the next row of the table, if there is one.
pub proof fn lemma_bad_row_costs_only_itself(settings: WalkSettings, table: Seq<i64>, cursor: i64)
    requires
        settings.batch_size == 1,
        descending(table),
        rows_above(table, cursor) < table.len(),
    ensures
        ({
            let first = rows_above(table, cursor);
            let bad = table[first];
            &&& 0 <= first
            &&& bad < cursor
            &&& forall|above: i64|
                bad < above <= cursor ==> #[trigger] fetched(table, above, 1) == seq![bad]
            &&& run(
                settings,
                WalkState::Fetching { cursor },
                failed_fetches((cursor - bad) as nat),
            ) == (WalkState::Fetching { cursor: bad })
            &&& fetched(table, bad, 1) == if first + 1 < table.len() {
                seq![table[first + 1]]
            } else {
                Seq::<i64>::empty()
            }
        }),
{
    lemma_rows_above(table, cursor);
    let first = rows_above(table, cursor);
    let bad = table[first];
    assert forall|above: i64| bad < above <= cursor implies #[trigger] fetched(table, above, 1)
        == seq![bad] by {
        assert forall|i: int| first <= i < table.len() implies #[trigger] table[i] < above by {
            if i > first {
                assert(table[first] > table[i]);
            }
        }
        lemma_rows_above_is(table, above, first);
        assert(fetched(table, above, 1) =~= seq![bad]);
    }
    lemma_failed_fetches(settings, cursor, (cursor - bad) as nat);
    assert forall|i: int| 0 <= i < first + 1 implies #[trigger] table[i] >= bad by {
        if i < first {
            assert(table[i] > table[first]);
        }
    }
    assert forall|i: int| first + 1 <= i < table.len() implies #[trigger] table[i] < bad by {
        assert(table[first] > table[i]);
    }
    lemma_rows_above_is(table, bad, first + 1);
    if first + 1 < table.len() {
        assert(fetched(table, bad, 1) =~= seq![table[first + 1]]);
    } else {
        assert(fetched(table, bad, 1) =~= Seq::<i64>::empty());
    }
}

} // verus!
