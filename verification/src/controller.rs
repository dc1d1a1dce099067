//! Group and controller bookkeeping: a worker group owns the shared run/idle
//! status and the growth color of its workers; the main controller owns all
//! groups and is the single entry point of the surrounding application.

use vstd::prelude::*;
use crate::buffer::{
    Color, PixelBuffer, is_paint_of, lemma_seed_unique, lemma_wrap_in_range, wrap_spec,
};
use crate::priority::{PriorityController, PriorityError};
use crate::random::random_color;
use crate::worker::{Worker, WorkerStatus, get_random_pos};

verus! {

/// How many workers every group runs; fixed by design.
pub const WORKERS_PER_GROUP: usize = 4;

/// A status write failed because a prior holder of the lock panicked. With
/// the status exclusively owned by its group this cannot arise, but the
/// start/stop protocol keeps the fallible shape so that callers handle the
/// report rather than a crash.
#[derive(Clone, Copy, PartialEq, Eq, Structural, Debug)]
pub enum LockError {
    Poisoned,
}

/// Why a priority update did not cover every group.
#[derive(Clone, Copy, PartialEq, Eq, Structural, Debug)]
pub enum UpdateError {
    /// The list of priority values does not have one entry per group; the
    /// call fails before any group's priority is touched.
    WrongLength,
    /// The platform refused a request while applying to group `group`;
    /// groups before it keep their already-applied settings.
    GroupFailed { group: usize, error: PriorityError },
}

/// `post` is `pre` with one random in-range cell painted `c`: the seed the
/// region of color `c` grows from.
pub open spec fn seeded(pre: PixelBuffer, post: PixelBuffer, c: Color) -> bool {
    exists|i: int, j: int| #![auto] pre.in_grid(i, j) && is_paint_of(pre, post, i, j, c)
}

/// The seed invariant: if the buffer nowhere carried the committed color
/// before a group's initialization, exactly one cell carries it afterwards,
/// before any growth begins.
pub proof fn lemma_seed_invariant(pre: PixelBuffer, post: PixelBuffer, c: Color)
    requires
        seeded(pre, post, c),
        forall|a: int, b: int| pre.in_grid(a, b) ==> #[trigger] pre.cell(a, b) != c,
    ensures
        exists|i: int, j: int|
            #![auto]
            pre.in_grid(i, j) && post.cell(i, j) == c && (forall|a: int, b: int|
                pre.in_grid(a, b) && !(a == i && b == j) ==> #[trigger] post.cell(a, b) != c),
{
    let (i, j) = choose|i: int, j: int| #![auto] pre.in_grid(i, j) && is_paint_of(pre, post, i, j, c);
    lemma_seed_unique(pre, post, i, j, c);
    assert(pre.in_grid(i, j) && post.cell(i, j) == c && (forall|a: int, b: int|
        pre.in_grid(a, b) && !(a == i && b == j) ==> #[trigger] post.cell(a, b) != c));
}

/// The granted priority requests of one group's first `m` workers for one
/// value: each worker's thread identifier paired with that value, in worker
/// order, every request answered with success.
pub open spec fn group_calls_granted(g: WorkerGroup, p: i32, m: int) -> Seq<
    ((u32, i32), Result<(), PriorityError>),
> {
    Seq::new(m as nat, |k: int| ((g.spec_workers()[k].spec_pid(), p), Ok::<(), PriorityError>(())))
}

/// One group of workers: a fixed complement of workers that share one
/// run/idle status and, once committed, one growth color.
pub struct WorkerGroup {
    workers: Vec<Worker>,
    status: WorkerStatus,
    color: Option<Color>,
}

impl WorkerGroup {
    pub closed spec fn spec_workers(&self) -> Seq<Worker> {
        self.workers@
    }

    pub closed spec fn spec_status(&self) -> WorkerStatus {
        self.status
    }

    pub closed spec fn spec_color(&self) -> Option<Color> {
        self.color
    }

    /// Every group has exactly its fixed complement of workers.
    pub open spec fn wf(&self) -> bool {
        self.spec_workers().len() == WORKERS_PER_GROUP
    }

    /// The current run/idle status shared by the group's workers.
    #[verifier::when_used_as_spec(spec_status)]
    pub fn status(&self) -> (s: WorkerStatus)
        ensures
            s == self.spec_status(),
    {
        self.status
    }

    /// The growth color the group committed at initialization, if any.
    #[verifier::when_used_as_spec(spec_color)]
    pub fn color(&self) -> (c: Option<Color>)
        ensures
            c == self.spec_color(),
    {
        self.color
    }

    /// One of the group's workers, by index.
    pub fn worker(&self, index: usize) -> (w: &Worker)
        requires
            index < self.spec_workers().len(),
        ensures
            *w == self.spec_workers()[index as int],
    {
        &self.workers[index]
    }

    /// A fresh group: the fixed number of unspawned workers, one shared Idle
    /// status, and no growth color committed yet.
    pub fn new() -> (g: WorkerGroup)
        ensures
            g.wf(),
            g.spec_status() == WorkerStatus::Idle,
            g.spec_color() is None,
            forall|k: int|
                0 <= k < g.spec_workers().len() ==> {
                    &&& !(#[trigger] g.spec_workers()[k]).spec_spawned()
                    &&& g.spec_workers()[k].spec_pid() == 0
                },
    {
        let mut workers: Vec<Worker> = Vec::new();
        let mut k: usize = 0;
        while k < WORKERS_PER_GROUP
            invariant
                k <= WORKERS_PER_GROUP,
                workers@.len() == k,
                forall|j: int|
                    0 <= j < k ==> {
                        &&& !(#[trigger] workers@[j]).spec_spawned()
                        &&& workers@[j].spec_pid() == 0
                    },
            decreases WORKERS_PER_GROUP - k,
        {
            workers.push(Worker::new());
            k = k + 1;
        }
        WorkerGroup { workers, status: WorkerStatus::default(), color: None }
    }

    /// Commit a uniformly random growth color and plant its seed: exactly
    /// one random cell of the buffer is painted with the committed color.
    /// Spawning the group's threads is the surrounding application's work;
    /// it reports each identifier back through `record_spawn`.
    pub fn init(&mut self, buf: &mut PixelBuffer)
        requires
            old(self).wf(),
            old(buf).wf(),
            old(buf).wrappable(),
        ensures
            final(self).wf(),
            final(self).spec_status() == old(self).spec_status(),
            final(self).spec_workers() == old(self).spec_workers(),
            final(buf).wf(),
            final(buf).spec_width() == old(buf).spec_width(),
            final(buf).spec_height() == old(buf).spec_height(),
            final(self).spec_color() is Some,
            seeded(*old(buf), *final(buf), final(self).spec_color().unwrap()),
            final(self).spec_color().unwrap().3 == 255,
    {
        let color = random_color();
        let pos = get_random_pos(buf);
        buf.set_color(pos.x, pos.y, color);
        self.color = Some(color);
        proof {
            let w = old(buf).spec_width() as int;
            let h = old(buf).spec_height() as int;
            lemma_wrap_in_range(pos.x as int, w);
            lemma_wrap_in_range(pos.y as int, h);
            assert(old(buf).in_grid(wrap_spec(pos.x as int, w), wrap_spec(pos.y as int, h)));
        }
    }

    /// Record the thread identifier that worker `index`'s spawned thread
    /// reported back.
    pub fn record_spawn(&mut self, index: usize, pid: u32)
        requires
            old(self).wf(),
            index < WORKERS_PER_GROUP,
        ensures
            final(self).wf(),
            final(self).spec_status() == old(self).spec_status(),
            final(self).spec_color() == old(self).spec_color(),
            final(self).spec_workers()[index as int].spec_spawned(),
            final(self).spec_workers()[index as int].spec_pid() == pid,
            forall|k: int|
                0 <= k < WORKERS_PER_GROUP && k != index ==> final(self).spec_workers()[k]
                    == old(self).spec_workers()[k],
    {
        let w = &mut self.workers[index];
        w.record_spawn(pid);
    }

    /// Switch the shared status to Running. The status is exclusively owned
    /// by its group, so the write cannot observe a poisoned lock: the call
    /// always reports success.
    pub fn start(&mut self) -> (r: Result<(), LockError>)
        ensures
            r is Ok,
            final(self).spec_status() == WorkerStatus::Running,
            final(self).spec_workers() == old(self).spec_workers(),
            final(self).spec_color() == old(self).spec_color(),
    {
        self.status = WorkerStatus::Running;
        Ok(())
    }

    /// Switch the shared status to Idle; the symmetric half of `start`.
    pub fn stop(&mut self) -> (r: Result<(), LockError>)
        ensures
            r is Ok,
            final(self).spec_status() == WorkerStatus::Idle,
            final(self).spec_workers() == old(self).spec_workers(),
            final(self).spec_color() == old(self).spec_color(),
    {
        self.status = WorkerStatus::Idle;
        Ok(())
    }

    /// Forward one priority value to every worker of the group, in worker
    /// order, stopping at the first refused request, whose answer is
    /// returned unchanged. Success means the platform granted every
    /// worker's request.
    pub fn set_priority<P: PriorityController>(&self, ctrl: &mut P, priority: i32) -> (r: Result<
        (),
        PriorityError,
    >)
        ensures
            r is Ok ==> final(ctrl).log() == old(ctrl).log() + group_calls_granted(
                *self,
                priority,
                self.spec_workers().len() as int,
            ),
            r matches Err(e) ==> exists|m: int|
                0 <= m < self.spec_workers().len() && final(ctrl).log() == old(ctrl).log()
                    + #[trigger] group_calls_granted(*self, priority, m).push(
                    ((self.spec_workers()[m].spec_pid(), priority), Err(e)),
                ),
            old(ctrl).wf() ==> final(ctrl).wf(),
            old(ctrl).same_config(final(ctrl)),
    {
        proof {
            P::lemma_same_config_refl(ctrl);
        }
        let n = self.workers.len();
        let mut k: usize = 0;
        while k < n
            invariant
                n == self.spec_workers().len(),
                k <= n,
                ctrl.log() == old(ctrl).log() + group_calls_granted(*self, priority, k as int),
                old(ctrl).wf() ==> ctrl.wf(),
                old(ctrl).same_config(ctrl),
            decreases n - k,
        {
            let w = &self.workers[k];
            let ghost logged = group_calls_granted(*self, priority, k as int);
            let ghost mid: P = *ctrl;
            let r = w.set_priority(ctrl, priority);
            proof {
                P::lemma_same_config_trans(old(ctrl), &mid, ctrl);
            }
            match r {
                Ok(()) => {
                    proof {
                        assert(r == Ok::<(), PriorityError>(r->Ok_0));
                        assert(group_calls_granted(*self, priority, k + 1) =~= logged.push(
                            (
                                (self.spec_workers()[k as int].spec_pid(), priority),
                                Ok::<(), PriorityError>(()),
                            ),
                        ));
                        assert(ctrl.log() =~= old(ctrl).log() + group_calls_granted(
                            *self,
                            priority,
                            k + 1,
                        ));
                    }
                },
                Err(e) => {
                    proof {
                        assert(ctrl.log() =~= old(ctrl).log() + logged.push(
                            ((self.spec_workers()[k as int].spec_pid(), priority), Err(e)),
                        ));
                    }
                    return Err(e);
                },
            }
            k = k + 1;
        }
        Ok(())
    }
}

/// `post` holds the same groups as `pre`, every one with its status switched
/// to `s` and its workers and color untouched.
pub open spec fn set_all_status(pre: MainController, post: MainController, s: WorkerStatus) -> bool {
    &&& post.spec_groups().len() == pre.spec_groups().len()
    &&& forall|k: int|
        0 <= k < pre.spec_groups().len() ==> {
            &&& (#[trigger] post.spec_groups()[k]).spec_status() == s
            &&& post.spec_groups()[k].spec_workers() == pre.spec_groups()[k].spec_workers()
            &&& post.spec_groups()[k].spec_color() == pre.spec_groups()[k].spec_color()
        }
}

/// Every group of the controller is idle.
pub open spec fn all_idle(c: MainController) -> bool {
    forall|k: int|
        0 <= k < c.spec_groups().len() ==> (#[trigger] c.spec_groups()[k]).spec_status()
            == WorkerStatus::Idle
}

/// The granted priority requests of the first `upto` groups, in group
/// order: each group contributes one request per worker with that group's
/// value, every request answered with success.
pub open spec fn all_groups_granted(groups: Seq<WorkerGroup>, ps: Seq<i32>, upto: int) -> Seq<
    ((u32, i32), Result<(), PriorityError>),
>
    decreases upto,
{
    if upto <= 0 {
        Seq::empty()
    } else {
        all_groups_granted(groups, ps, upto - 1) + group_calls_granted(
            groups[upto - 1],
            ps[upto - 1],
            groups[upto - 1].spec_workers().len() as int,
        )
    }
}

/// Reserved hook for disbanding groups and ending their threads. The
/// modeled lifecycle never tears a group down — stopping only pauses
/// painting — so the handler carries no state yet.
pub struct DeletionHandler {}

impl DeletionHandler {
    pub fn new() -> DeletionHandler {
        DeletionHandler {  }
    }
}

/// The capability log left behind by a priority update that failed while
/// applying to group `g` with error `e`: every earlier group's requests
/// granted, then `g`'s first workers granted, and the refused request with
/// its answer last — nothing after it.
pub open spec fn failed_update_log(
    pre: Seq<((u32, i32), Result<(), PriorityError>)>,
    post: Seq<((u32, i32), Result<(), PriorityError>)>,
    groups: Seq<WorkerGroup>,
    ps: Seq<i32>,
    g: int,
    e: PriorityError,
) -> bool {
    exists|m: int|
        0 <= m < groups[g].spec_workers().len() && post == pre + all_groups_granted(groups, ps, g)
            + #[trigger] group_calls_granted(groups[g], ps[g], m).push(
            ((groups[g].spec_workers()[m].spec_pid(), ps[g]), Err(e)),
        )
}

/// The sole entry point the surrounding application uses: owns every worker
/// group of the simulation.
pub struct MainController {
    groups: Vec<WorkerGroup>,
    deletion_handler: Box<DeletionHandler>,
}

impl MainController {
    pub closed spec fn spec_groups(&self) -> Seq<WorkerGroup> {
        self.groups@
    }

    pub open spec fn wf(&self) -> bool {
        forall|k: int| 0 <= k < self.spec_groups().len() ==> (#[trigger] self.spec_groups()[k]).wf()
    }

    /// How many groups the controller owns.
    pub fn group_count(&self) -> (n: usize)
        ensures
            n == self.spec_groups().len(),
    {
        self.groups.len()
    }

    /// One of the controller's groups, by index.
    pub fn group(&self, index: usize) -> (g: &WorkerGroup)
        requires
            index < self.spec_groups().len(),
        ensures
            *g == self.spec_groups()[index as int],
    {
        &self.groups[index]
    }

    /// Allocate `group_amount` fresh groups, every one idle with no color
    /// committed. No threads exist yet: every worker is unspawned with no
    /// thread identifier.
    pub fn new(group_amount: u32) -> (c: MainController)
        ensures
            c.wf(),
            c.spec_groups().len() == group_amount,
            all_idle(c),
            forall|k: int|
                0 <= k < group_amount ==> (#[trigger] c.spec_groups()[k]).spec_color() is None,
            forall|k: int, w: int|
                0 <= k < group_amount && 0 <= w < WORKERS_PER_GROUP ==> {
                    &&& !(#[trigger] c.spec_groups()[k].spec_workers()[w]).spec_spawned()
                    &&& c.spec_groups()[k].spec_workers()[w].spec_pid() == 0
                },
    {
        let mut groups: Vec<WorkerGroup> = Vec::new();
        let mut k: u32 = 0;
        while k < group_amount
            invariant
                k <= group_amount,
                groups@.len() == k,
                forall|j: int|
                    0 <= j < k ==> {
                        &&& (#[trigger] groups@[j]).wf()
                        &&& groups@[j].spec_status() == WorkerStatus::Idle
                        &&& groups@[j].spec_color() is None
                    },
                forall|j: int, w: int|
                    0 <= j < k && 0 <= w < WORKERS_PER_GROUP ==> {
                        &&& !(#[trigger] groups@[j].spec_workers()[w]).spec_spawned()
                        &&& groups@[j].spec_workers()[w].spec_pid() == 0
                    },
            decreases group_amount - k,
        {
            groups.push(WorkerGroup::new());
            k = k + 1;
        }
        MainController { groups, deletion_handler: Box::new(DeletionHandler::new()) }
    }

    /// Initialize every group in order: each commits a random growth color
    /// and seeds one random cell of the shared buffer. Meant to be called
    /// once, before any start or stop command; a second call is allowed and
    /// simply re-seeds every group with a fresh color. The statuses stay as
    /// they are.
    pub fn init(&mut self, buf: &mut PixelBuffer)
        requires
            old(self).wf(),
            old(buf).wf(),
            old(buf).wrappable(),
        ensures
            final(self).wf(),
            final(self).spec_groups().len() == old(self).spec_groups().len(),
            final(buf).wf(),
            final(buf).spec_width() == old(buf).spec_width(),
            final(buf).spec_height() == old(buf).spec_height(),
            forall|k: int|
                0 <= k < old(self).spec_groups().len() ==> {
                    &&& (#[trigger] final(self).spec_groups()[k]).spec_color() is Some
                    &&& final(self).spec_groups()[k].spec_color().unwrap().3 == 255
                    &&& final(self).spec_groups()[k].spec_status() == old(self).spec_groups()[k].spec_status()
                    &&& final(self).spec_groups()[k].spec_workers() == old(self).spec_groups()[k].spec_workers()
                },
            exists|steps: Seq<PixelBuffer>|
                #![auto]
                steps.len() == old(self).spec_groups().len() + 1 && steps[0] == *old(buf)
                    && steps[steps.len() - 1] == *final(buf) && (forall|k: int|
                    0 <= k < old(self).spec_groups().len() ==> seeded(
                        #[trigger] steps[k],
                        steps[k + 1],
                        final(self).spec_groups()[k].spec_color().unwrap(),
                    )),
    {
        let ghost mut steps: Seq<PixelBuffer> = seq![*buf];
        let n = self.groups.len();
        let mut k: usize = 0;
        while k < n
            invariant
                n == self.spec_groups().len(),
                self.spec_groups().len() == old(self).spec_groups().len(),
                k <= n,
                self.wf(),
                buf.wf(),
                buf.wrappable(),
                buf.spec_width() == old(buf).spec_width(),
                buf.spec_height() == old(buf).spec_height(),
                steps.len() == k + 1,
                steps[0] == *old(buf),
                steps[k as int] == *buf,
                forall|j: int|
                    0 <= j < k ==> {
                        &&& (#[trigger] self.spec_groups()[j]).spec_color() is Some
                        &&& self.spec_groups()[j].spec_color().unwrap().3 == 255
                        &&& self.spec_groups()[j].spec_status() == old(self).spec_groups()[j].spec_status()
                        &&& self.spec_groups()[j].spec_workers() == old(self).spec_groups()[j].spec_workers()
                    },
                forall|j: int|
                    0 <= j < k ==> seeded(
                        #[trigger] steps[j],
                        steps[j + 1],
                        self.spec_groups()[j].spec_color().unwrap(),
                    ),
                forall|j: int|
                    k <= j < n ==> #[trigger] self.spec_groups()[j] == old(self).spec_groups()[j],
            decreases n - k,
        {
            let g = &mut self.groups[k];
            g.init(buf);
            proof {
                steps = steps.push(*buf);
            }
            k = k + 1;
        }
        proof {
            assert(steps.len() == old(self).spec_groups().len() + 1 && steps[0] == *old(buf)
                && steps[steps.len() - 1] == *buf && (forall|j: int|
                0 <= j < old(self).spec_groups().len() ==> seeded(
                    #[trigger] steps[j],
                    steps[j + 1],
                    self.spec_groups()[j].spec_color().unwrap(),
                )));
        }
    }

    /// Record the thread identifier reported back by worker `worker` of
    /// group `group` after the surrounding application spawned it.
    pub fn record_spawn(&mut self, group: usize, worker: usize, pid: u32)
        requires
            old(self).wf(),
            group < old(self).spec_groups().len(),
            worker < WORKERS_PER_GROUP,
        ensures
            final(self).wf(),
            final(self).spec_groups().len() == old(self).spec_groups().len(),
            final(self).spec_groups()[group as int].spec_workers()[worker as int].spec_spawned(),
            final(self).spec_groups()[group as int].spec_workers()[worker as int].spec_pid() == pid,
            final(self).spec_groups()[group as int].spec_status() == old(self).spec_groups()[group as int].spec_status(),
            final(self).spec_groups()[group as int].spec_color() == old(self).spec_groups()[group as int].spec_color(),
            forall|k: int|
                0 <= k < old(self).spec_groups().len() && k != group ==> #[trigger] final(self).spec_groups()[k]
                    == old(self).spec_groups()[k],
    {
        let g = &mut self.groups[group];
        g.record_spawn(worker, pid);
    }

    /// Set every group's status to Running, in group order. The write is
    /// owed to every group: the call reports success and leaves workers and
    /// colors untouched.
    pub fn start_all(&mut self) -> (r: Result<(), LockError>)
        ensures
            r is Ok,
            set_all_status(*old(self), *final(self), WorkerStatus::Running),
    {
        let n = self.groups.len();
        let mut k: usize = 0;
        while k < n
            invariant
                n == self.spec_groups().len(),
                self.spec_groups().len() == old(self).spec_groups().len(),
                k <= n,
                forall|j: int|
                    0 <= j < k ==> {
                        &&& (#[trigger] self.spec_groups()[j]).spec_status() == WorkerStatus::Running
                        &&& self.spec_groups()[j].spec_workers() == old(self).spec_groups()[j].spec_workers()
                        &&& self.spec_groups()[j].spec_color() == old(self).spec_groups()[j].spec_color()
                    },
                forall|j: int|
                    k <= j < n ==> #[trigger] self.spec_groups()[j] == old(self).spec_groups()[j],
            decreases n - k,
        {
            let g = &mut self.groups[k];
            match g.start() {
                Ok(()) => {},
                Err(e) => {
                    return Err(e);
                },
            }
            k = k + 1;
        }
        Ok(())
    }

    /// Set every group's status to Idle, in group order; the symmetric half
    /// of `start_all`.
    pub fn stop_all(&mut self) -> (r: Result<(), LockError>)
        ensures
            r is Ok,
            set_all_status(*old(self), *final(self), WorkerStatus::Idle),
    {
        let n = self.groups.len();
        let mut k: usize = 0;
        while k < n
            invariant
                n == self.spec_groups().len(),
                self.spec_groups().len() == old(self).spec_groups().len(),
                k <= n,
                forall|j: int|
                    0 <= j < k ==> {
                        &&& (#[trigger] self.spec_groups()[j]).spec_status() == WorkerStatus::Idle
                        &&& self.spec_groups()[j].spec_workers() == old(self).spec_groups()[j].spec_workers()
                        &&& self.spec_groups()[j].spec_color() == old(self).spec_groups()[j].spec_color()
                    },
                forall|j: int|
                    k <= j < n ==> #[trigger] self.spec_groups()[j] == old(self).spec_groups()[j],
            decreases n - k,
        {
            let g = &mut self.groups[k];
            match g.stop() {
                Ok(()) => {},
                Err(e) => {
                    return Err(e);
                },
            }
            k = k + 1;
        }
        Ok(())
    }

    /// Apply one priority value per group, in group order: group `k`'s value
    /// goes to every one of its workers. A list of the wrong length fails
    /// before any request is made. Success means the platform granted every
    /// request; a refusal stops the walk and is returned naming the failing
    /// group, with every earlier group's requests granted and applied.
    pub fn update_priorities<P: PriorityController>(
        &self,
        ctrl: &mut P,
        priorities: &Vec<i32>,
    ) -> (r: Result<(), UpdateError>)
        ensures
            r == Ok::<(), UpdateError>(()) ==> {
                &&& priorities@.len() == self.spec_groups().len()
                &&& final(ctrl).log() == old(ctrl).log() + all_groups_granted(
                    self.spec_groups(),
                    priorities@,
                    self.spec_groups().len() as int,
                )
            },
            r == Err::<(), UpdateError>(UpdateError::WrongLength) <==> priorities@.len()
                != self.spec_groups().len(),
            r == Err::<(), UpdateError>(UpdateError::WrongLength) ==> final(ctrl).log()
                == old(ctrl).log(),
            r matches Err(UpdateError::GroupFailed { group, error }) ==> {
                &&& group < self.spec_groups().len()
                &&& failed_update_log(
                    old(ctrl).log(),
                    final(ctrl).log(),
                    self.spec_groups(),
                    priorities@,
                    group as int,
                    error,
                )
            },
            old(ctrl).wf() ==> final(ctrl).wf(),
            old(ctrl).same_config(final(ctrl)),
    {
        proof {
            P::lemma_same_config_refl(ctrl);
        }
        if priorities.len() != self.groups.len() {
            return Err(UpdateError::WrongLength);
        }
        let n = self.groups.len();
        let mut k: usize = 0;
        while k < n
            invariant
                n == self.spec_groups().len(),
                priorities@.len() == n,
                k <= n,
                ctrl.log() == old(ctrl).log() + all_groups_granted(
                    self.spec_groups(),
                    priorities@,
                    k as int,
                ),
                old(ctrl).wf() ==> ctrl.wf(),
                old(ctrl).same_config(ctrl),
            decreases n - k,
        {
            let g = &self.groups[k];
            let ghost logged = all_groups_granted(self.spec_groups(), priorities@, k as int);
            let ghost mid: P = *ctrl;
            match g.set_priority(ctrl, priorities[k]) {
                Ok(()) => {},
                Err(e) => {
                    proof {
                        P::lemma_same_config_trans(old(ctrl), &mid, ctrl);
                        let gspec = self.spec_groups()[k as int];
                        let p = priorities@[k as int];
                        let base = old(ctrl).log() + logged;
                        let m = choose|m: int|
                            0 <= m < gspec.spec_workers().len() && ctrl.log() == base
                                + #[trigger] group_calls_granted(gspec, p, m).push(
                                ((gspec.spec_workers()[m].spec_pid(), p), Err(e)),
                            );
                        assert(ctrl.log() =~= old(ctrl).log() + logged + group_calls_granted(
                            gspec,
                            p,
                            m,
                        ).push(((gspec.spec_workers()[m].spec_pid(), p), Err(e))));
                        assert(failed_update_log(
                            old(ctrl).log(),
                            ctrl.log(),
                            self.spec_groups(),
                            priorities@,
                            k as int,
                            e,
                        ));
                    }
                    return Err(UpdateError::GroupFailed { group: k, error: e });
                },
            }
            proof {
                P::lemma_same_config_trans(old(ctrl), &mid, ctrl);
                assert(all_groups_granted(self.spec_groups(), priorities@, k + 1) =~= logged
                    + group_calls_granted(
                    self.spec_groups()[k as int],
                    priorities@[k as int],
                    self.spec_groups()[k as int].spec_workers().len() as int,
                ));
                assert(ctrl.log() =~= old(ctrl).log() + all_groups_granted(
                    self.spec_groups(),
                    priorities@,
                    k + 1,
                ));
            }
            k = k + 1;
        }
        Ok(())
    }
}

/// A start command followed by a stop command returns every group to Idle,
/// with workers and colors exactly as before, and both commands are owed
/// success.
pub proof fn lemma_start_stop_round_trip(
    pre: MainController,
    mid: MainController,
    post: MainController,
)
    requires
        set_all_status(pre, mid, WorkerStatus::Running),
        set_all_status(mid, post, WorkerStatus::Idle),
    ensures
        all_idle(post),
        post.spec_groups().len() == pre.spec_groups().len(),
        forall|k: int|
            0 <= k < pre.spec_groups().len() ==> {
                &&& (#[trigger] post.spec_groups()[k]).spec_workers() == pre.spec_groups()[k].spec_workers()
                &&& post.spec_groups()[k].spec_color() == pre.spec_groups()[k].spec_color()
            },
{
}

/// Priority propagation reaches each group exactly once, in group order:
/// entry number `g * WORKERS_PER_GROUP + w` of a fully granted update pairs
/// worker `w` of group `g` with that group's own value, answered with
/// success.
pub proof fn lemma_priority_propagation(
    groups: Seq<WorkerGroup>,
    ps: Seq<i32>,
    upto: int,
    g: int,
    w: int,
)
    requires
        forall|k: int| 0 <= k < groups.len() ==> (#[trigger] groups[k]).wf(),
        0 <= upto <= groups.len(),
        0 <= g < upto,
        0 <= w < WORKERS_PER_GROUP,
    ensures
        all_groups_granted(groups, ps, upto).len() == upto * WORKERS_PER_GROUP,
        all_groups_granted(groups, ps, upto)[g * WORKERS_PER_GROUP + w]
            == ((groups[g].spec_workers()[w].spec_pid(), ps[g]), Ok::<(), PriorityError>(())),
    decreases upto,
{
    assert(groups[upto - 1].wf());
    if g == upto - 1 {
        lemma_all_groups_granted_len(groups, ps, upto - 1);
    } else {
        lemma_priority_propagation(groups, ps, upto - 1, g, w);
    }
}

/// A fully granted update makes exactly one request per worker: the
/// accumulated log of the first `upto` groups has `upto * WORKERS_PER_GROUP`
/// entries.
pub proof fn lemma_all_groups_granted_len(groups: Seq<WorkerGroup>, ps: Seq<i32>, upto: int)
    requires
        forall|k: int| 0 <= k < groups.len() ==> (#[trigger] groups[k]).wf(),
        0 <= upto <= groups.len(),
    ensures
        all_groups_granted(groups, ps, upto).len() == upto * WORKERS_PER_GROUP,
    decreases upto,
{
    if upto > 0 {
        lemma_all_groups_granted_len(groups, ps, upto - 1);
    }
}

} // verus!
