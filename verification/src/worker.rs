//! The growth algorithm one worker runs: pick a random live position, walk in
//! random cardinal directions, and claim the current cell for the worker's
//! color as soon as a neighbor already carries that color. Every buffer
//! access goes through the wraparound, so the walk may drift freely.

use vstd::prelude::*;
use crate::buffer::{
    Color, PixelBuffer, grows_only, has_matching_neighbor, is_paint_of, lemma_grows_only_trans,
    lemma_paint_grows_only, wrap_spec,
};
use crate::priority::{PriorityController, PriorityError};
use crate::random::random_below;
use crate::region::{lemma_paint_preserves_connectivity, region_connected};

verus! {

/// How many single steps a walk takes before it restarts from a fresh random
/// position.
pub const WALK_BUDGET: usize = 1000;

/// One worker's bookkeeping: the thread identifier used for priority
/// requests. A worker carries a valid identifier only after its thread was
/// spawned and has reported the identifier back through the spawn handshake.
#[derive(Clone, Copy, PartialEq, Eq, Structural, Debug)]
pub struct Worker {
    pid: u32,
    spawned: bool,
}

impl Worker {
    pub closed spec fn spec_pid(&self) -> u32 {
        self.pid
    }

    pub closed spec fn spec_spawned(&self) -> bool {
        self.spawned
    }

    /// A worker before its thread exists: no valid thread identifier yet.
    pub fn new() -> (w: Worker)
        ensures
            !w.spec_spawned(),
            w.spec_pid() == 0,
    {
        Worker { pid: 0, spawned: false }
    }

    /// Record the thread identifier that the spawned thread reported back;
    /// only from this point on does the worker accept priority requests for
    /// a real thread.
    pub fn record_spawn(&mut self, pid: u32)
        ensures
            final(self).spec_spawned(),
            final(self).spec_pid() == pid,
    {
        self.pid = pid;
        self.spawned = true;
    }

    #[verifier::when_used_as_spec(spec_pid)]
    pub fn pid(&self) -> (p: u32)
        ensures
            p == self.spec_pid(),
    {
        self.pid
    }

    /// Whether the worker's thread was spawned and has reported its
    /// identifier back.
    #[verifier::when_used_as_spec(spec_spawned)]
    pub fn spawned(&self) -> (s: bool)
        ensures
            s == self.spec_spawned(),
    {
        self.spawned
    }

    /// Forward one priority request for this worker's thread through the
    /// platform capability; the platform's answer is returned unchanged.
    pub fn set_priority<P: PriorityController>(&self, ctrl: &mut P, priority: i32) -> (r: Result<
        (),
        PriorityError,
    >)
        ensures
            final(ctrl).log() == old(ctrl).log().push(((self.spec_pid(), priority), r)),
            old(ctrl).wf() ==> final(ctrl).wf(),
            old(ctrl).same_config(final(ctrl)),
    {
        ctrl.set_priority(self.pid, priority)
    }
}

/// A live position of the randomized walk. It may drift outside the grid;
/// the wraparound is applied whenever the buffer is touched.
#[derive(Clone, Copy, PartialEq, Eq, Structural, Debug)]
pub struct Pos {
    pub x: i64,
    pub y: i64,
}

/// The run/idle switch shared by all workers of one group: mutated only by
/// the group's start and stop calls, observed by every worker's loop.
#[derive(Clone, Copy, PartialEq, Eq, Structural, Debug)]
pub enum WorkerStatus {
    Idle,
    Running,
}

impl Default for WorkerStatus {
    /// A fresh status is Idle: workers do not paint until started.
    fn default() -> (s: Self)
        ensures
            s == WorkerStatus::Idle,
    {
        WorkerStatus::Idle
    }
}

/// What a worker's polling loop should do after one observation of the
/// shared status.
#[derive(Clone, Copy, PartialEq, Eq, Structural, Debug)]
pub enum PollAction {
    /// The status read Running: go mutate the buffer.
    Proceed,
    /// The status could not be read, or read Idle: sleep briefly and poll
    /// again.
    Backoff,
}

/// Decide one round of waiting for readiness: only a successfully read
/// Running status lets the worker proceed; a failed read or an Idle status
/// sends it back to sleep.
pub fn poll_decision(observed: Option<WorkerStatus>) -> (a: PollAction)
    ensures
        a == PollAction::Proceed <==> observed == Some(WorkerStatus::Running),
{
    match observed {
        Some(WorkerStatus::Running) => PollAction::Proceed,
        _ => PollAction::Backoff,
    }
}

/// `to` is one cardinal unit step away from `from`.
pub open spec fn is_unit_step(from: Pos, to: Pos) -> bool {
    ||| (to.x == from.x + 1 && to.y == from.y)
    ||| (to.x == from.x - 1 && to.y == from.y)
    ||| (to.x == from.x && to.y == from.y + 1)
    ||| (to.x == from.x && to.y == from.y - 1)
}

/// Move one unit in the given cardinal direction (east, west, south, north
/// for 0, 1, 2, 3).
pub fn step_in_direction(from: Pos, direction: u32) -> (to: Pos)
    requires
        direction < 4,
        i64::MIN < from.x < i64::MAX,
        i64::MIN < from.y < i64::MAX,
    ensures
        direction == 0 ==> to.x == from.x + 1 && to.y == from.y,
        direction == 1 ==> to.x == from.x - 1 && to.y == from.y,
        direction == 2 ==> to.x == from.x && to.y == from.y + 1,
        direction == 3 ==> to.x == from.x && to.y == from.y - 1,
        is_unit_step(from, to),
{
    match direction {
        0 => Pos { x: from.x + 1, y: from.y },
        1 => Pos { x: from.x - 1, y: from.y },
        2 => Pos { x: from.x, y: from.y + 1 },
        _ => Pos { x: from.x, y: from.y - 1 },
    }
}

/// Move one unit in a uniformly random cardinal direction, each with equal
/// weight.
pub fn move_random_direction(from: Pos) -> (to: Pos)
    requires
        i64::MIN < from.x < i64::MAX,
        i64::MIN < from.y < i64::MAX,
    ensures
        is_unit_step(from, to),
{
    let direction = random_below(4);
    step_in_direction(from, direction)
}

/// Pick a uniformly random in-range position of the buffer.
pub fn get_random_pos(buf: &PixelBuffer) -> (p: Pos)
    requires
        buf.wf(),
    ensures
        0 <= p.x < buf.spec_width(),
        0 <= p.y < buf.spec_height(),
{
    let x = random_below(buf.width());
    let y = random_below(buf.height());
    Pos { x: x as i64, y: y as i64 }
}

/// Normalize a walk position to the in-range cell it touches: the
/// wraparound applied to both axes.
pub fn truncate_pos(buf: &PixelBuffer, pos: Pos) -> (r: Pos)
    requires
        buf.wf(),
        buf.wrappable(),
        pos.x > i64::MIN,
        pos.y > i64::MIN,
    ensures
        r.x == wrap_spec(pos.x as int, buf.spec_width() as int),
        r.y == wrap_spec(pos.y as int, buf.spec_height() as int),
        0 <= r.x < buf.spec_width() - 1,
        0 <= r.y < buf.spec_height() - 1,
{
    let x = PixelBuffer::wrap_coord(pos.x, buf.width());
    let y = PixelBuffer::wrap_coord(pos.y, buf.height());
    Pos { x: x as i64, y: y as i64 }
}

/// Whether a position sits on the frame one step inside the buffer edges.
pub fn hit_wall(buf: &PixelBuffer, pos: Pos) -> (r: bool)
    requires
        buf.wf(),
    ensures
        r == (pos.x == buf.spec_width() - 1 || pos.x == 1 || pos.y == buf.spec_height() - 1
            || pos.y == 1),
{
    pos.x == (buf.width() as i64) - 1 || pos.x == 1 || pos.y == (buf.height() as i64) - 1
        || pos.y == 1
}

/// If any cardinal neighbor of `pos` (read through the wraparound) already
/// carries `color`, paint the cell at `pos` with `color` and report the
/// claim; otherwise leave the buffer untouched.
pub fn fill_if_near_neighbor(buf: &mut PixelBuffer, pos: Pos, color: Color) -> (painted: bool)
    requires
        old(buf).wf(),
        old(buf).wrappable(),
        i64::MIN + 1 < pos.x < i64::MAX,
        i64::MIN + 1 < pos.y < i64::MAX,
    ensures
        final(buf).wf(),
        final(buf).spec_width() == old(buf).spec_width(),
        final(buf).spec_height() == old(buf).spec_height(),
        painted == has_matching_neighbor(*old(buf), pos.x as int, pos.y as int, color),
        painted ==> is_paint_of(
            *old(buf),
            *final(buf),
            wrap_spec(pos.x as int, old(buf).spec_width() as int),
            wrap_spec(pos.y as int, old(buf).spec_height() as int),
            color,
        ),
        !painted ==> *final(buf) == *old(buf),
        grows_only(*old(buf), *final(buf), color),
{
    let east = buf.get_color(pos.x + 1, pos.y);
    let west = buf.get_color(pos.x - 1, pos.y);
    let south = buf.get_color(pos.x, pos.y + 1);
    let north = buf.get_color(pos.x, pos.y - 1);
    if east == color || west == color || south == color || north == color {
        let ghost pre = *buf;
        buf.set_color(pos.x, pos.y, color);
        proof {
            lemma_paint_grows_only(
                pre,
                *buf,
                wrap_spec(pos.x as int, pre.spec_width() as int),
                wrap_spec(pos.y as int, pre.spec_height() as int),
                color,
            );
        }
        true
    } else {
        false
    }
}

/// A walk either left the buffer untouched or claimed exactly one cell whose
/// neighborhood already carried the walk's color.
pub open spec fn paints_one(pre: PixelBuffer, post: PixelBuffer, c: Color) -> bool {
    exists|x: int, y: int|
        #![auto]
        has_matching_neighbor(pre, x, y, c) && is_paint_of(
            pre,
            post,
            wrap_spec(x, pre.spec_width() as int),
            wrap_spec(y, pre.spec_height() as int),
            c,
        )
}

/// The full effect of one bounded walk on the buffer.
pub open spec fn walk_effect(pre: PixelBuffer, post: PixelBuffer, c: Color) -> bool {
    post == pre || paints_one(pre, post, c)
}

/// One inner walk: starting from `start`, take up to `WALK_BUDGET` random
/// unit steps; as soon as the current position touches existing territory of
/// `color`, claim it and stop.
pub fn walk_from(buf: &mut PixelBuffer, start: Pos, color: Color)
    requires
        old(buf).wf(),
        old(buf).wrappable(),
        0 <= start.x < old(buf).spec_width(),
        0 <= start.y < old(buf).spec_height(),
    ensures
        final(buf).wf(),
        final(buf).spec_width() == old(buf).spec_width(),
        final(buf).spec_height() == old(buf).spec_height(),
        walk_effect(*old(buf), *final(buf), color),
        grows_only(*old(buf), *final(buf), color),
{
    let mut pos = start;
    let mut step: usize = 0;
    while step < WALK_BUDGET
        invariant
            *buf == *old(buf),
            buf.wf(),
            buf.wrappable(),
            0 <= start.x < buf.spec_width(),
            0 <= start.y < buf.spec_height(),
            step <= WALK_BUDGET,
            start.x - step <= pos.x <= start.x + step,
            start.y - step <= pos.y <= start.y + step,
        decreases WALK_BUDGET - step,
    {
        pos = move_random_direction(pos);
        if fill_if_near_neighbor(buf, pos, color) {
            proof {
                assert(has_matching_neighbor(*old(buf), pos.x as int, pos.y as int, color)
                    && is_paint_of(
                    *old(buf),
                    *buf,
                    wrap_spec(pos.x as int, old(buf).spec_width() as int),
                    wrap_spec(pos.y as int, old(buf).spec_height() as int),
                    color,
                ));
            }
            return;
        }
        step = step + 1;
    }
}

/// One bounded walk preserves region connectivity: it either leaves the
/// buffer untouched or claims a cell whose wrapped neighborhood already
/// belonged to the region, so every cell of the region still walks back to
/// the seed.
pub proof fn lemma_walk_preserves_connectivity(
    pre: PixelBuffer,
    post: PixelBuffer,
    c: Color,
    si: int,
    sj: int,
)
    requires
        pre.wf(),
        pre.wrappable(),
        walk_effect(pre, post, c),
        region_connected(pre, c, si, sj),
    ensures
        region_connected(post, c, si, sj),
{
    if post != pre {
        let (x, y) = choose|x: int, y: int|
            #![auto]
            has_matching_neighbor(pre, x, y, c) && is_paint_of(
                pre,
                post,
                wrap_spec(x, pre.spec_width() as int),
                wrap_spec(y, pre.spec_height() as int),
                c,
            );
        lemma_paint_preserves_connectivity(pre, post, x, y, c, si, sj);
    }
}

/// One outer pass of a worker's loop: with a Running status, restart the walk
/// from a fresh random position; with an Idle status, do nothing at all.
pub fn worker_iteration(buf: &mut PixelBuffer, status: WorkerStatus, color: Color)
    requires
        old(buf).wf(),
        old(buf).wrappable(),
    ensures
        final(buf).wf(),
        final(buf).spec_width() == old(buf).spec_width(),
        final(buf).spec_height() == old(buf).spec_height(),
        status == WorkerStatus::Idle ==> *final(buf) == *old(buf),
        walk_effect(*old(buf), *final(buf), color),
        grows_only(*old(buf), *final(buf), color),
{
    match status {
        WorkerStatus::Idle => {
        },
        WorkerStatus::Running => {
            let start = get_random_pos(buf);
            walk_from(buf, start, color);
        },
    }
}

/// A bounded stretch of a worker's loop: `iterations` outer passes against
/// one observed status. An Idle status leaves the buffer unchanged however
/// many passes run; a Running status only ever claims cells for `color`.
pub fn run_bounded(buf: &mut PixelBuffer, status: WorkerStatus, color: Color, iterations: u32)
    requires
        old(buf).wf(),
        old(buf).wrappable(),
    ensures
        final(buf).wf(),
        final(buf).spec_width() == old(buf).spec_width(),
        final(buf).spec_height() == old(buf).spec_height(),
        status == WorkerStatus::Idle ==> *final(buf) == *old(buf),
        grows_only(*old(buf), *final(buf), color),
        forall|si: int, sj: int|
            #[trigger] region_connected(*old(buf), color, si, sj) ==> region_connected(
                *final(buf),
                color,
                si,
                sj,
            ),
{
    let mut i: u32 = 0;
    while i < iterations
        invariant
            buf.wf(),
            buf.wrappable(),
            buf.spec_width() == old(buf).spec_width(),
            buf.spec_height() == old(buf).spec_height(),
            status == WorkerStatus::Idle ==> *buf == *old(buf),
            grows_only(*old(buf), *buf, color),
            forall|si: int, sj: int|
                #[trigger] region_connected(*old(buf), color, si, sj) ==> region_connected(
                    *buf,
                    color,
                    si,
                    sj,
                ),
        decreases iterations - i,
    {
        let ghost pre = *buf;
        worker_iteration(buf, status, color);
        proof {
            lemma_grows_only_trans(*old(buf), pre, *buf, color);
            assert forall|si: int, sj: int|
                #[trigger] region_connected(*old(buf), color, si, sj) implies region_connected(
                *buf,
                color,
                si,
                sj,
            ) by {
                lemma_walk_preserves_connectivity(pre, *buf, color, si, sj);
            }
        }
        i = i + 1;
    }
}

} // verus!
