//! The scan engine: the decisions of a two-phase scan of one directory.
//!
//! The engine reads nothing itself. Its caller lists the root, aggregates the
//! directories it is told of, on as many workers and in whatever order it
//! likes, and reports each result as it comes; the engine keeps the entries,
//! says what to announce, and ranks the entries when all are in.

use crate::filter::FilterPolicy;
use crate::item::{DiskItem, ErrorTag, ScanResult};
use crate::listing::{list_children, listing_of, ChildEntry};
use crate::progress::{
    aggregation_percent, clamp_ms, complete_event, estimate_remaining,
    lemma_aggregation_percent_grows, remaining_estimate, scan_percent, ProgressEvent,
    COMPLETE_PERCENT, LISTED_PERCENT,
};
use crate::rank::{is_ranking_of, rank};
use vstd::prelude::*;
use vstd::string::StringExecFns;

verus! {

/// Where a scan stands.
#[derive(Clone, Copy, Debug, PartialEq, Eq, Structural)]
pub enum Phase {
    /// Nothing has been asked yet.
    Idle,
    /// The root is being listed.
    ListingTopLevel,
    /// The directories among the entries are being aggregated.
    AggregatingChildren,
    /// All sizes are in; the entries wait to be ranked.
    Ranking,
    /// The result has been handed out.
    Done,
    /// The root could not be listed.
    Failed,
}

/// Why a scan failed: the root could not be listed.
#[derive(Debug)]
pub struct ScanFailure {
    pub tag: ErrorTag,
    pub message: String,
}

/// How a scan ends: its result, and the last event to announce.
#[derive(Debug)]
pub struct ScanOutcome {
    pub result: ScanResult,
    pub event: ProgressEvent,
}

/// The indices of the directories among `items`, ascending.
pub open spec fn directory_tasks(items: Seq<DiskItem>) -> Seq<usize>
    decreases items.len(),
{
    if items.len() == 0 {
        Seq::empty()
    } else if items.last().is_directory {
        directory_tasks(items.drop_last()).push((items.len() - 1) as usize)
    } else {
        directory_tasks(items.drop_last())
    }
}

/// The number of flags of `done` that are set.
pub open spec fn count_done(done: Seq<bool>) -> nat
    decreases done.len(),
{
    if done.len() == 0 {
        0
    } else if done.last() {
        count_done(done.drop_last()) + 1
    } else {
        count_done(done.drop_last())
    }
}

/// Whether no percent of `percents` is lower than one before it.
pub open spec fn never_falls(percents: Seq<u32>) -> bool {
    forall|i: int, j: int| 0 <= i <= j < percents.len() ==> percents[i] <= percents[j]
}

/// `item` with its size filled in.
pub open spec fn with_size(item: DiskItem, size: u64) -> DiskItem {
    DiskItem { size, ..item }
}

proof fn lemma_count_done_bound(done: Seq<bool>)
    ensures
        count_done(done) <= done.len(),
    decreases done.len(),
{
    if done.len() > 0 {
        lemma_count_done_bound(done.drop_last());
    }
}

proof fn lemma_count_done_set(done: Seq<bool>, at: int)
    requires
        0 <= at < done.len(),
        !done[at],
    ensures
        count_done(done.update(at, true)) == count_done(done) + 1,
    decreases done.len(),
{
    let next = done.update(at, true);
    if at == done.len() - 1 {
        assert(next.drop_last() =~= done.drop_last());
    } else {
        lemma_count_done_set(done.drop_last(), at);
        assert(next.drop_last() =~= done.drop_last().update(at, true));
    }
}

proof fn lemma_tasks_in_range(items: Seq<DiskItem>)
    requires
        items.len() <= usize::MAX,
    ensures
        directory_tasks(items).len() <= items.len(),
        forall|t: int|
            0 <= t < directory_tasks(items).len() ==> (#[trigger] directory_tasks(items)[t])
                < items.len() && items[directory_tasks(items)[t] as int].is_directory,
    decreases items.len(),
{
    if items.len() > 0 {
        let front = items.drop_last();
        lemma_tasks_in_range(front);
        assert forall|t: int| 0 <= t < directory_tasks(items).len() implies (
        #[trigger] directory_tasks(items)[t]) < items.len() && items[directory_tasks(
            items,
        )[t] as int].is_directory by {
            if t < directory_tasks(front).len() {
                assert(directory_tasks(items)[t] == directory_tasks(front)[t]);
                assert(front[directory_tasks(front)[t] as int] == items[directory_tasks(
                    front,
                )[t] as int]);
            }
        }
    }
}

/// One scan of one directory.
pub struct ScanEngine {
    phase: Phase,
    policy: FilterPolicy,
    items: Vec<DiskItem>,
    tasks: Vec<usize>,
    done: Vec<bool>,
    completed: usize,
    percents: Ghost<Seq<u32>>,
}

impl ScanEngine {
    /// Where the scan stands.
    pub closed spec fn phase(&self) -> Phase {
        self.phase
    }

    /// The policy that the scan applies.
    pub closed spec fn policy(&self) -> FilterPolicy {
        self.policy
    }

    /// The entries that the scan holds.
    pub closed spec fn items(&self) -> Seq<DiskItem> {
        self.items@
    }

    /// For each directory to aggregate, the index of its entry.
    pub closed spec fn tasks(&self) -> Seq<usize> {
        self.tasks@
    }

    /// For each directory to aggregate, whether its size has come in.
    pub closed spec fn finished(&self) -> Seq<bool> {
        self.done@
    }

    /// The number of directories whose size has come in.
    pub closed spec fn completed(&self) -> nat {
        self.completed as nat
    }

    /// The percents of the events announced so far, in their order.
    pub closed spec fn percents(&self) -> Seq<u32> {
        self.percents@
    }

    /// What holds of every engine that this module hands out.
    pub closed spec fn well_formed(&self) -> bool {
        &&& self.done@.len() == self.tasks@.len()
        &&& self.completed == count_done(self.done@)
        &&& never_falls(self.percents@)
        &&& match self.phase {
            Phase::Idle => self.percents@.len() == 0,
            Phase::ListingTopLevel | Phase::Failed => self.percents@ == seq![0u32],
            Phase::AggregatingChildren => {
                &&& self.percents@.len() > 0
                &&& self.percents@.last() == aggregation_percent(
                    self.completed as nat,
                    self.tasks@.len(),
                )
                &&& self.completed < self.tasks@.len()
                &&& forall|t: int|
                    0 <= t < self.tasks@.len() ==> (#[trigger] self.tasks@[t]) < self.items@.len()
            },
            Phase::Ranking => self.percents@.len() > 0 && self.percents@.last() <= 95,
            Phase::Done => self.percents@.len() > 0 && self.percents@.last() == 100,
        }
    }

    /// An engine that has done nothing yet.
    pub fn new(policy: FilterPolicy) -> (engine: ScanEngine)
        ensures
            engine.well_formed(),
            engine.phase() == Phase::Idle,
            engine.policy() == policy,
            engine.items() == Seq::<DiskItem>::empty(),
            engine.percents() == Seq::<u32>::empty(),
    {
        ScanEngine {
            phase: Phase::Idle,
            policy,
            items: Vec::new(),
            tasks: Vec::new(),
            done: Vec::new(),
            completed: 0,
            percents: Ghost(Seq::empty()),
        }
    }

    /// Where the scan stands.
    pub fn current_phase(&self) -> (phase: Phase)
        ensures
            phase == self.phase(),
    {
        self.phase
    }

    /// Starts the scan: an idle engine goes on to list the root and announces
    /// 0 percent. Any other engine stays as it is and announces nothing.
    pub fn begin(&mut self) -> (event: Option<ProgressEvent>)
        requires
            old(self).well_formed(),
        ensures
            final(self).well_formed(),
            old(self).phase() != Phase::Idle ==> event is None && *final(self) == *old(self),
            old(self).phase() == Phase::Idle ==> {
                &&& event is Some
                &&& event->0.percent == 0
                &&& event->0.current == 0
                &&& event->0.total == 0
                &&& event->0.label@ == "listing"@
                &&& event->0.elapsed_ms == 0
                &&& event->0.remaining_ms == 0
                &&& final(self).phase() == Phase::ListingTopLevel
                &&& final(self).policy() == old(self).policy()
                &&& final(self).items() == old(self).items()
                &&& final(self).tasks() == old(self).tasks()
                &&& final(self).finished() == old(self).finished()
                &&& final(self).percents() == old(self).percents().push(0)
            },
    {
        match self.phase {
            Phase::Idle => {},
            _ => {
                return None;
            },
        }
        self.phase = Phase::ListingTopLevel;
        self.percents = Ghost(self.percents@.push(0));
        assert(self.percents@ =~= seq![0u32]);
        Some(
            ProgressEvent {
                percent: 0,
                current: 0,
                total: 0,
                label: "listing".to_owned(),
                elapsed_ms: 0,
                remaining_ms: 0,
            },
        )
    }

    /// Reports that the root could not be listed, with the tag of the error
    /// and its text. An engine that is listing fails for good and returns the
    /// failure to surface; any other stays as it is.
    pub fn listing_failed(&mut self, tag: ErrorTag, detail: &str) -> (failure: Option<ScanFailure>)
        requires
            old(self).well_formed(),
        ensures
            final(self).well_formed(),
            old(self).phase() != Phase::ListingTopLevel ==> failure is None && *final(self) == *old(
                self,
            ),
            old(self).phase() == Phase::ListingTopLevel ==> {
                &&& failure is Some
                &&& failure->0.tag == tag
                &&& failure->0.message@ == "读取目录失败: "@ + detail@
                &&& final(self).phase() == Phase::Failed
                &&& final(self).policy() == old(self).policy()
                &&& final(self).items() == old(self).items()
                &&& final(self).tasks() == old(self).tasks()
                &&& final(self).finished() == old(self).finished()
                &&& final(self).percents() == old(self).percents()
            },
    {
        match self.phase {
            Phase::ListingTopLevel => {},
            _ => {
                return None;
            },
        }
        self.phase = Phase::Failed;
        let mut message = "读取目录失败: ".to_owned();
        message.append(detail);
        Some(ScanFailure { tag, message })
    }

    /// Takes in the children of the root, read `elapsed_ms` after the start.
    /// An engine that is listing keeps the listing of the children, goes on
    /// to the aggregation of the directories among them, or straight to the
    /// ranking where there is none, and announces 20 percent. Any other
    /// engine stays as it is and announces nothing.
    pub fn listing_read(&mut self, children: &Vec<ChildEntry>, elapsed_ms: u64) -> (event: Option<
        ProgressEvent,
    >)
        requires
            old(self).well_formed(),
        ensures
            final(self).well_formed(),
            old(self).phase() != Phase::ListingTopLevel ==> event is None && *final(self) == *old(
                self,
            ),
            old(self).phase() == Phase::ListingTopLevel ==> {
                &&& event is Some
                &&& event->0.percent == 20
                &&& event->0.current == 0
                &&& event->0.total == final(self).tasks().len()
                &&& event->0.label@ == "listed"@
                &&& event->0.elapsed_ms == elapsed_ms
                &&& event->0.remaining_ms == 0
                &&& final(self).policy() == old(self).policy()
                &&& final(self).items() == listing_of(children@, old(self).policy())
                &&& final(self).tasks() == directory_tasks(final(self).items())
                &&& final(self).finished() == Seq::new(final(self).tasks().len(), |t: int| false)
                &&& final(self).completed() == 0
                &&& final(self).phase() == if final(self).tasks().len() == 0 {
                    Phase::Ranking
                } else {
                    Phase::AggregatingChildren
                }
                &&& final(self).percents() == old(self).percents().push(20)
            },
    {
        match self.phase {
            Phase::ListingTopLevel => {},
            _ => {
                return None;
            },
        }
        let items = list_children(children, self.policy);
        let mut tasks: Vec<usize> = Vec::new();
        let mut done: Vec<bool> = Vec::new();
        let mut i: usize = 0;
        proof {
            assert(items@.subrange(0, 0) =~= Seq::<DiskItem>::empty());
        }
        while i < items.len()
            invariant
                i <= items.len(),
                tasks@ == directory_tasks(items@.subrange(0, i as int)),
                done@ == Seq::new(tasks@.len(), |t: int| false),
                count_done(done@) == 0,
            decreases items.len() - i,
        {
            proof {
                let next = items@.subrange(0, i + 1);
                assert(next.drop_last() =~= items@.subrange(0, i as int));
                assert(next.last() == items@[i as int]);
            }
            if items[i].is_directory {
                let ghost before = done@;
                tasks.push(i);
                done.push(false);
                proof {
                    assert(done@.drop_last() =~= before);
                    assert(done@ =~= Seq::new(tasks@.len(), |t: int| false));
                }
            }
            i += 1;
        }
        proof {
            assert(items@.subrange(0, items@.len() as int) =~= items@);
            lemma_tasks_in_range(items@);
            lemma_aggregation_percent_grows(0, 0, tasks@.len());
        }
        let total = tasks.len();
        self.items = items;
        self.tasks = tasks;
        self.done = done;
        self.completed = 0;
        self.phase = if total == 0 {
            Phase::Ranking
        } else {
            Phase::AggregatingChildren
        };
        self.percents = Ghost(self.percents@.push(20));
        Some(
            ProgressEvent {
                percent: LISTED_PERCENT,
                current: 0,
                total,
                label: "listed".to_owned(),
                elapsed_ms,
                remaining_ms: 0,
            },
        )
    }

    /// The number of directories to aggregate.
    pub fn task_count(&self) -> (count: usize)
        requires
            self.well_formed(),
        ensures
            count == self.tasks().len(),
    {
        self.tasks.len()
    }

    /// The path of the directory of task `task`, while the engine aggregates
    /// and the task's size has not come in; `None` otherwise.
    pub fn task_path(&self, task: usize) -> (path: Option<String>)
        requires
            self.well_formed(),
        ensures
            path is Some <==> self.phase() == Phase::AggregatingChildren && task
                < self.tasks().len() && !self.finished()[task as int],
            path is Some ==> path->0 == self.items()[self.tasks()[task as int] as int].path,
    {
        match self.phase {
            Phase::AggregatingChildren => {},
            _ => {
                return None;
            },
        }
        if task >= self.tasks.len() || self.done[task] {
            return None;
        }
        Some(self.items[self.tasks[task]].path.clone())
    }

    /// Takes in the size of the directory of task `task`, aggregated
    /// `elapsed_ms` after the start. An engine that aggregates and still
    /// waits for that size fills it into the entry, counts the directory as
    /// completed, goes on to the ranking if it was the last, and announces:
    /// 20 percent plus the completed share of 75, at most 95, and the time
    /// left at the rate so far. Any other engine stays as it is and announces
    /// nothing.
    pub fn child_done(&mut self, task: usize, size: u64, elapsed_ms: u64) -> (event: Option<
        ProgressEvent,
    >)
        requires
            old(self).well_formed(),
        ensures
            final(self).well_formed(),
            event is Some <==> old(self).phase() == Phase::AggregatingChildren && task < old(
                self,
            ).tasks().len() && !old(self).finished()[task as int],
            event is None ==> *final(self) == *old(self),
            event is Some ==> {
                let entry = old(self).tasks()[task as int] as int;
                let total = old(self).tasks().len();
                let completed = old(self).completed() + 1;
                &&& event->0.percent == aggregation_percent(completed, total)
                &&& event->0.current == completed
                &&& event->0.total == total
                &&& event->0.label == old(self).items()[entry].name
                &&& event->0.elapsed_ms == elapsed_ms
                &&& event->0.remaining_ms == clamp_ms(
                    remaining_estimate(completed, total, elapsed_ms as nat),
                )
                &&& final(self).policy() == old(self).policy()
                &&& final(self).items() == old(self).items().update(
                    entry,
                    with_size(old(self).items()[entry], size),
                )
                &&& final(self).tasks() == old(self).tasks()
                &&& final(self).finished() == old(self).finished().update(task as int, true)
                &&& final(self).completed() == completed
                &&& final(self).phase() == if completed == total {
                    Phase::Ranking
                } else {
                    Phase::AggregatingChildren
                }
                &&& final(self).percents() == old(self).percents().push(event->0.percent)
            },
    {
        match self.phase {
            Phase::AggregatingChildren => {},
            _ => {
                return None;
            },
        }
        if task >= self.tasks.len() || self.done[task] {
            return None;
        }
        let total = self.tasks.len();
        let entry = self.tasks[task];
        proof {
            lemma_count_done_set(self.done@, task as int);
            lemma_count_done_bound(self.done@.update(task as int, true));
            lemma_aggregation_percent_grows(
                self.completed as nat,
                (self.completed + 1) as nat,
                total as nat,
            );
        }
        let completed = self.completed + 1;
        let percent = scan_percent(completed, total);
        let label = self.items[entry].name.clone();
        let mut item = self.items[entry].clone();
        item.size = size;
        self.items.set(entry, item);
        self.done.set(task, true);
        self.completed = completed;
        if completed == total {
            self.phase = Phase::Ranking;
        }
        let ghost before = self.percents@;
        self.percents = Ghost(before.push(percent));
        proof {
            assert forall|i: int, j: int| 0 <= i <= j < self.percents@.len() implies self.percents@[i]
                <= self.percents@[j] by {
                if j == before.len() {
                    if i < before.len() {
                        assert(before[i] <= before[before.len() - 1]);
                    }
                }
            }
        }
        Some(
            ProgressEvent {
                percent,
                current: completed,
                total,
                label,
                elapsed_ms,
                remaining_ms: estimate_remaining(completed, total, elapsed_ms),
            },
        )
    }

    /// Ends the scan, `elapsed_ms` after the start. An engine that waits to
    /// rank hands out its entries in ranking order, announces 100 percent and
    /// is done. Any other engine stays as it is and returns nothing.
    pub fn finish(&mut self, elapsed_ms: u64) -> (end: Option<ScanOutcome>)
        requires
            old(self).well_formed(),
        ensures
            final(self).well_formed(),
            old(self).phase() != Phase::Ranking ==> end is None && *final(self) == *old(self),
            old(self).phase() == Phase::Ranking ==> {
                &&& end is Some
                &&& is_ranking_of(end->0.result.items@, old(self).items())
                &&& end->0.result.items@.len() == old(self).items().len()
                &&& end->0.event.percent == 100
                &&& end->0.event.current == old(self).tasks().len()
                &&& end->0.event.total == old(self).tasks().len()
                &&& end->0.event.label@ == "complete"@
                &&& end->0.event.elapsed_ms == elapsed_ms
                &&& end->0.event.remaining_ms == 0
                &&& final(self).phase() == Phase::Done
                &&& final(self).policy() == old(self).policy()
                &&& final(self).items() == Seq::<DiskItem>::empty()
                &&& final(self).tasks() == old(self).tasks()
                &&& final(self).finished() == old(self).finished()
                &&& final(self).percents() == old(self).percents().push(100)
            },
    {
        match self.phase {
            Phase::Ranking => {},
            _ => {
                return None;
            },
        }
        let mut items: Vec<DiskItem> = Vec::new();
        core::mem::swap(&mut self.items, &mut items);
        let ranked = rank(items);
        let total = self.tasks.len();
        self.phase = Phase::Done;
        let ghost before = self.percents@;
        self.percents = Ghost(before.push(COMPLETE_PERCENT));
        proof {
            assert forall|i: int, j: int| 0 <= i <= j < self.percents@.len() implies self.percents@[i]
                <= self.percents@[j] by {
                if j == before.len() {
                    if i < before.len() {
                        assert(before[i] <= before[before.len() - 1]);
                    }
                }
            }
        }
        Some(
            ScanOutcome {
                result: ScanResult { items: ranked },
                event: complete_event(total, elapsed_ms),
            },
        )
    }
}

/// The percents that a scan announces never fall, and the last percent of a
/// scan that is done is 100.
pub proof fn lemma_percents_never_fall(engine: ScanEngine)
    requires
        engine.well_formed(),
    ensures
        never_falls(engine.percents()),
        forall|i: int| 0 <= i < engine.percents().len() ==> engine.percents()[i] <= 100,
        engine.phase() == Phase::Done ==> engine.percents().len() > 0 && engine.percents().last()
            == 100,
        engine.phase() != Phase::Done ==> forall|i: int|
            0 <= i < engine.percents().len() ==> engine.percents()[i] <= 95,
{
    let percents = engine.percents();
    if percents.len() > 0 {
        assert forall|i: int| 0 <= i < percents.len() implies percents[i] <= percents.last() by {}
        if engine.phase() == Phase::AggregatingChildren {
            lemma_aggregation_percent_grows(
                engine.completed(),
                engine.completed(),
                engine.tasks().len(),
            );
        }
    }
}

} // verus!
