//! Thumbnails for the filmstrip, one at a time.
//!
//! Only small embedded previews are decoded, from a budget of their own. A
//! thumbnail that was handed out must be acknowledged before the next one.
use crate::arw::parser::EmbeddedPreview;
use crate::image::cache::{MemoryBudget, MemoryLease};
use crate::image::decoder;
use crate::image::decoder::{div_ceil, jpeg_layout};
use crate::path::Identity;
use std::collections::VecDeque;
use vstd::prelude::*;
use vstd::std_specs::vecdeque::VecDequeAdditionalSpecFns;

verus! {

/// Thumbnails that a plan may hold.
pub const MAX_PLAN: usize = 48;

/// Pixels on a side of a preview that is still small.
pub const MAX_EDGE: u32 = 512;

/// Pixels on a side of a thumbnail.
pub const MAX_OUTPUT_EDGE: u32 = 192;

/// Bytes of a preview that is still small.
pub const MAX_JPEG_BYTES: u64 = 262144;

/// How long the stages of a thumbnail took, in nanoseconds.
#[derive(Clone, Copy, Debug, PartialEq, Eq, Structural)]
pub struct ThumbnailTimings {
    /// Opening the file included.
    pub parse: u64,
    pub read: u64,
    pub decode: u64,
    pub metadata: u64,
    pub total: u64,
}

impl Default for ThumbnailTimings {
    fn default() -> (out: Self)
        ensures
            out == (ThumbnailTimings { parse: 0, read: 0, decode: 0, metadata: 0, total: 0 }),
    {
        ThumbnailTimings { parse: 0, read: 0, decode: 0, metadata: 0, total: 0 }
    }
}

#[derive(Debug)]
pub enum ThumbnailFailure {
    /// There was no memory to spare. The rest of the plan is dropped.
    Deferred,
    Unavailable(String),
}

/// A thumbnail that was decoded, or not. An image is known by a number.
#[derive(Debug)]
pub struct ThumbnailEvent<P> {
    pub session: u64,
    pub serial: u64,
    pub index: usize,
    pub path: P,
    pub orientation: u16,
    pub timings: ThumbnailTimings,
    pub rating: Result<Option<i8>, String>,
    pub result: Result<u64, ThumbnailFailure>,
}

/// A thumbnail to be decoded.
#[derive(Debug)]
pub struct Task<P> {
    pub epoch: u64,
    pub session: u64,
    pub serial: u64,
    pub index: usize,
    pub path: P,
}

/// What is to be decoded, and what was.
#[derive(Debug)]
pub struct ThumbnailWorker<P> {
    pub epoch: u64,
    pub plan: VecDeque<Task<P>>,
    /// The thumbnail that was handed out and not acknowledged yet.
    pub awaiting: Option<(u64, usize)>,
    pub started: u64,
    pub completed: u64,
    pub stop: bool,
}

/// The first `n` photographs of a plan, each position once.
pub open spec fn planned<P>(plan: Seq<(usize, P)>, n: int, epoch: u64, session: u64, serial: u64) -> Seq<
    Task<P>,
>
    decreases n,
{
    if n <= 0 {
        Seq::empty()
    } else {
        let before = planned(plan, n - 1, epoch, session, serial);
        let (index, path) = plan[n - 1];
        if named(plan, n - 1, index) {
            before
        } else {
            before.push(Task { epoch, session, serial, index, path })
        }
    }
}

/// Whether a position is among the first `n` of a plan.
pub open spec fn named<P>(plan: Seq<(usize, P)>, n: int, index: usize) -> bool {
    exists|i: int| 0 <= i < n && (#[trigger] plan[i]).0 == index
}

/// How much of a plan is taken up.
pub open spec fn plan_length(length: int) -> int {
    if length < MAX_PLAN {
        length
    } else {
        MAX_PLAN as int
    }
}

/// The next tick of a counter, which stops at its end.
pub open spec fn counted(n: u64) -> u64 {
    if n == u64::MAX {
        n
    } else {
        (n + 1) as u64
    }
}

proof fn lemma_planned<P>(plan: Seq<(usize, P)>, n: int, epoch: u64, session: u64, serial: u64)
    requires
        0 <= n <= plan.len(),
    ensures
        planned(plan, n, epoch, session, serial).len() <= n,
        forall|i: int|
            0 <= i < planned(plan, n, epoch, session, serial).len() ==> {
                let task = #[trigger] planned(plan, n, epoch, session, serial)[i];
                &&& task.epoch == epoch
                &&& named(plan, n, task.index)
            },
        forall|i: int, j: int|
            0 <= i < j < planned(plan, n, epoch, session, serial).len() ==> (#[trigger] planned(
                plan,
                n,
                epoch,
                session,
                serial,
            )[i]).index != (#[trigger] planned(plan, n, epoch, session, serial)[j]).index,
    decreases n,
{
    if n > 0 {
        lemma_planned(plan, n - 1, epoch, session, serial);
        let before = planned(plan, n - 1, epoch, session, serial);
        let now = planned(plan, n, epoch, session, serial);
        assert forall|i: int| 0 <= i < now.len() implies {
            let task = #[trigger] now[i];
            &&& task.epoch == epoch
            &&& named(plan, n, task.index)
        } by {
            if i < before.len() {
                assert(now[i] == before[i]);
                let k = choose|k: int| 0 <= k < n - 1 && (#[trigger] plan[k]).0 == before[i].index;
                assert(plan[k].0 == now[i].index);
            } else {
                assert(plan[n - 1].0 == now[i].index);
            }
        }
        assert forall|i: int, j: int| 0 <= i < j < now.len() implies (#[trigger] now[i]).index != (
        #[trigger] now[j]).index by {
            assert(now[i] == before[i]);
            if j < before.len() {
                assert(now[j] == before[j]);
            }
        }
    }
}

/// A plan is bounded and names no position twice.
pub proof fn law_plans_are_bounded<P>(
    plan: Seq<(usize, P)>,
    epoch: u64,
    session: u64,
    serial: u64,
)
    ensures
        ({
            let tasks = planned(plan, plan_length(plan.len() as int), epoch, session, serial);
            &&& tasks.len() <= MAX_PLAN
            &&& forall|i: int, j: int|
                0 <= i < j < tasks.len() ==> (#[trigger] tasks[i]).index != (
                #[trigger] tasks[j]).index
        }),
{
    lemma_planned(plan, plan_length(plan.len() as int), epoch, session, serial);
}

impl<P: Identity> ThumbnailWorker<P> {
    pub fn new() -> (out: Self)
        ensures
            out.epoch == 0,
            out.plan@.len() == 0,
            out.awaiting is None,
            out.started == 0,
            out.completed == 0,
            !out.stop,
    {
        ThumbnailWorker {
            epoch: 0,
            plan: VecDeque::new(),
            awaiting: None,
            started: 0,
            completed: 0,
            stop: false,
        }
    }

    /// Whether a task is still of use.
    pub open spec fn wants(&self, task: Task<P>) -> bool {
        !self.stop && task.epoch == self.epoch
    }

    pub fn relevant(&self, task: &Task<P>) -> (out: bool)
        ensures
            out == self.wants(*task),
    {
        !self.stop && task.epoch == self.epoch
    }

    /// What is kept by every change to the plan.
    pub open spec fn same_books(&self, other: &Self) -> bool {
        &&& self.awaiting == other.awaiting
        &&& self.started == other.started
        &&& self.completed == other.completed
        &&& self.stop == other.stop
    }

    /// Drops the plan. A thumbnail that was handed out still has to be
    /// acknowledged.
    pub fn cancel(&mut self)
        ensures
            final(self).epoch == old(self).epoch.wrapping_add(1),
            final(self).plan@.len() == 0,
            final(self).same_books(old(self)),
    {
        self.epoch = self.epoch.wrapping_add(1);
        self.plan = VecDeque::new();
    }

    /// Drops the plan.
    pub fn pause(&mut self)
        ensures
            final(self).epoch == old(self).epoch.wrapping_add(1),
            final(self).plan@.len() == 0,
            final(self).same_books(old(self)),
    {
        self.cancel();
    }

    /// Takes up another plan: missing thumbnails, most wanted first.
    pub fn request(&mut self, session: u64, serial: u64, plan: Vec<(usize, P)>)
        ensures
            final(self).epoch == old(self).epoch.wrapping_add(1),
            final(self).same_books(old(self)),
            final(self).plan@ == planned(
                plan@,
                plan_length(plan@.len() as int),
                final(self).epoch,
                session,
                serial,
            ),
    {
        self.cancel();
        let ghost all = plan@;
        let ghost n = plan_length(all.len() as int);
        let mut rest = plan;
        if rest.len() > MAX_PLAN {
            rest.truncate(MAX_PLAN);
        }
        assert(rest@ =~= all.take(n));
        let mut reversed: VecDeque<(usize, P)> = VecDeque::new();
        while rest.len() > 0
            invariant
                rest@ + reversed@ =~= all.take(n),
                n == plan_length(all.len() as int),
            decreases rest@.len(),
        {
            let ghost before = rest@;
            match rest.pop() {
                Some(entry) => {
                    assert(before =~= rest@.push(entry));
                    reversed.push_front(entry);
                },
                None => {},
            }
        }
        assert(reversed@ =~= all.take(n));
        let mut seen: Vec<usize> = Vec::new();
        let ghost mut k: int = 0;
        while reversed.len() > 0
            invariant
                0 <= k <= n <= all.len(),
                n == plan_length(all.len() as int),
                reversed@ =~= all.subrange(k, n),
                forall|index: usize| seen@.contains(index) <==> #[trigger] named(all, k, index),
                self.plan@ =~= planned(all, k, self.epoch, session, serial),
                self.same_books(old(self)),
                self.epoch == old(self).epoch.wrapping_add(1),
            decreases reversed@.len(),
        {
            match reversed.pop_front() {
                Some((index, path)) => {
                    let ghost listed = seen@;
                    assert(all.subrange(k, n)[0] == all[k]);
                    if !crate::image::cache::lists(&seen, index) {
                        seen.push(index);
                        self.plan.push_back(
                            Task { epoch: self.epoch, session, serial, index, path },
                        );
                    }
                    proof {
                        assert forall|other: usize|
                            seen@.contains(other) <==> #[trigger] named(all, k + 1, other) by {
                            if named(all, k + 1, other) {
                                let i = choose|i: int|
                                    0 <= i < k + 1 && (#[trigger] all[i]).0 == other;
                                if i < k {
                                    assert(named(all, k, other));
                                    let at = choose|at: int|
                                        0 <= at < listed.len() && listed[at] == other;
                                    assert(seen@[at] == other);
                                } else {
                                    assert(other == index);
                                    if seen@.len() > listed.len() {
                                        assert(seen@[listed.len() as int] == index);
                                    }
                                }
                            }
                            if seen@.contains(other) {
                                if listed.contains(other) {
                                    assert(named(all, k, other));
                                    let i = choose|i: int|
                                        0 <= i < k && (#[trigger] all[i]).0 == other;
                                    assert(all[i].0 == other);
                                } else {
                                    assert(all[k].0 == other);
                                }
                            }
                        }
                        k = k + 1;
                    }
                },
                None => {},
            }
        }
    }

    /// Takes in that a thumbnail was dealt with. An acknowledgement of another
    /// one changes nothing.
    pub fn acknowledge(&mut self, serial: u64, index: usize)
        ensures
            final(self).awaiting == if old(self).awaiting == Some((serial, index)) {
                None
            } else {
                old(self).awaiting
            },
            final(self).epoch == old(self).epoch,
            final(self).plan == old(self).plan,
            final(self).started == old(self).started,
            final(self).completed == old(self).completed,
            final(self).stop == old(self).stop,
    {
        let matches = match self.awaiting {
            Some((s, i)) => s == serial && i == index,
            None => false,
        };
        if matches {
            self.awaiting = None;
        }
    }

    /// How many thumbnails were begun and ended. They are equal while none is
    /// being decoded.
    pub fn activity(&self) -> (out: (u64, u64))
        ensures
            out == (self.started, self.completed),
    {
        (self.started, self.completed)
    }

    /// The next thumbnail to be decoded, unless one has to be acknowledged.
    pub fn next_task(&mut self) -> (out: Option<Task<P>>)
        ensures
            final(self).epoch == old(self).epoch,
            final(self).awaiting == old(self).awaiting,
            final(self).completed == old(self).completed,
            final(self).stop == old(self).stop,
            if !old(self).stop && old(self).awaiting is None && old(self).plan@.len() > 0 {
                &&& out == Some(old(self).plan@[0])
                &&& final(self).plan@ == old(self).plan@.skip(1)
                &&& final(self).started == counted(old(self).started)
            } else {
                &&& out is None
                &&& final(self).plan@ == old(self).plan@
                &&& final(self).started == old(self).started
            },
    {
        if self.stop || self.awaiting.is_some() {
            return None;
        }
        match self.plan.pop_front() {
            Some(task) => {
                self.started = self.started.saturating_add(1);
                assert(self.plan@ =~= old(self).plan@.skip(1));
                Some(task)
            },
            None => None,
        }
    }

    /// Takes in what became of a thumbnail, and says what is announced. `None`
    /// as result stands for a cancelled load. A thumbnail that nobody wants any
    /// more is not announced; one for which there was no memory ends its plan.
    pub fn publish(
        &mut self,
        task: Task<P>,
        orientation: u16,
        timings: ThumbnailTimings,
        rating: Result<Option<i8>, String>,
        result: Option<Result<u64, ThumbnailFailure>>,
    ) -> (out: Option<ThumbnailEvent<P>>)
        ensures
            final(self).epoch == old(self).epoch,
            final(self).started == old(self).started,
            final(self).stop == old(self).stop,
            final(self).completed == counted(old(self).completed),
            if old(self).wants(task) && result is Some {
                &&& out == Some(
                    ThumbnailEvent {
                        session: task.session,
                        serial: task.serial,
                        index: task.index,
                        path: task.path,
                        orientation,
                        timings,
                        rating,
                        result: result->0,
                    },
                )
                &&& final(self).awaiting == Some((task.serial, task.index))
                &&& final(self).plan@ == if result->0 matches Err(
                    ThumbnailFailure::Deferred,
                ) {
                    Seq::empty()
                } else {
                    old(self).plan@
                }
            } else {
                &&& out is None
                &&& final(self).awaiting == old(self).awaiting
                &&& final(self).plan@ == old(self).plan@
            },
    {
        self.completed = self.completed.saturating_add(1);
        if !self.relevant(&task) {
            return None;
        }
        match result {
            None => None,
            Some(result) => {
                let deferred = match &result {
                    Err(ThumbnailFailure::Deferred) => true,
                    _ => false,
                };
                if deferred {
                    self.plan = VecDeque::new();
                }
                self.awaiting = Some((task.serial, task.index));
                Some(
                    ThumbnailEvent {
                        session: task.session,
                        serial: task.serial,
                        index: task.index,
                        path: task.path,
                        orientation,
                        timings,
                        rating,
                        result,
                    },
                )
            },
        }
    }
}

/// Once a plan was replaced or dropped, its thumbnails are of no use.
pub proof fn law_only_the_latest_plan_counts<P: Identity>(
    before: ThumbnailWorker<P>,
    after: ThumbnailWorker<P>,
    task: Task<P>,
)
    requires
        before.wants(task),
        after.epoch == before.epoch.wrapping_add(1),
    ensures
        !after.wants(task),
{
    assert(before.epoch.wrapping_add(1) != before.epoch);
}

/// Whether a preview is small enough for a thumbnail.
pub open spec fn small(p: EmbeddedPreview) -> bool {
    &&& p.width matches Some(width)
    &&& p.height matches Some(height)
    &&& 1 <= width <= MAX_EDGE
    &&& 1 <= height <= MAX_EDGE
    &&& 4 <= p.length <= MAX_JPEG_BYTES
}

/// The pixels of a preview.
pub open spec fn area(p: EmbeddedPreview) -> int {
    match (p.width, p.height) {
        (Some(width), Some(height)) => width * height,
        _ => 0,
    }
}

/// Whether a preview has fewer pixels than another, or as many in fewer bytes.
pub open spec fn lighter(a: EmbeddedPreview, b: EmbeddedPreview) -> bool {
    area(a) < area(b) || (area(a) == area(b) && a.length < b.length)
}

/// No preview comes before a lighter one.
pub open spec fn by_weight(s: Seq<EmbeddedPreview>) -> bool {
    forall|i: int, j: int| 0 <= i < j < s.len() ==> !lighter(#[trigger] s[j], #[trigger] s[i])
}

/// The small ones of the first `n` previews.
pub open spec fn smalls(previews: Seq<EmbeddedPreview>, n: int) -> Seq<EmbeddedPreview>
    decreases n,
{
    if n <= 0 {
        Seq::empty()
    } else if small(previews[n - 1]) {
        smalls(previews, n - 1).push(previews[n - 1])
    } else {
        smalls(previews, n - 1)
    }
}

fn is_small(p: &EmbeddedPreview) -> (out: bool)
    ensures
        out == small(*p),
{
    match (p.width, p.height) {
        (Some(width), Some(height)) => 1 <= width && width <= MAX_EDGE && 1 <= height && height
            <= MAX_EDGE && 4 <= p.length && p.length <= MAX_JPEG_BYTES,
        _ => false,
    }
}

fn pixels_of(p: &EmbeddedPreview) -> (out: u64)
    requires
        small(*p),
    ensures
        out == area(*p),
{
    match (p.width, p.height) {
        (Some(width), Some(height)) => {
            assert(width * height <= 512 * 512) by (nonlinear_arith)
                requires
                    1 <= width <= 512,
                    1 <= height <= 512,
            ;
            width as u64 * height as u64
        },
        _ => 0,
    }
}

/// The previews that are small enough for a thumbnail, lightest first.
pub fn candidates(previews: Vec<EmbeddedPreview>) -> (out: Vec<EmbeddedPreview>)
    ensures
        by_weight(out@),
        out@.to_multiset() == smalls(previews@, previews@.len() as int).to_multiset(),
        forall|i: int| 0 <= i < out@.len() ==> small(#[trigger] out@[i]),
{
    let mut out: Vec<EmbeddedPreview> = Vec::new();
    let mut n: usize = 0;
    while n < previews.len()
        invariant
            n <= previews@.len(),
            by_weight(out@),
            out@.to_multiset() == smalls(previews@, n as int).to_multiset(),
            forall|i: int| 0 <= i < out@.len() ==> small(#[trigger] out@[i]),
        decreases previews@.len() - n,
    {
        let p = previews[n];
        if is_small(&p) {
            let mut at: usize = out.len();
            let area: u64 = pixels_of(&p);
            while at > 0
                invariant
                    at <= out@.len(),
                    small(p),
                    area == self::area(p),
                    by_weight(out@),
                    forall|i: int| 0 <= i < out@.len() ==> small(#[trigger] out@[i]),
                    forall|i: int| at <= i < out@.len() ==> lighter(p, #[trigger] out@[i]),
                ensures
                    at == 0 || !lighter(p, out@[at - 1]),
                decreases at,
            {
                let q = out[at - 1];
                let other: u64 = pixels_of(&q);
                if !(area < other || (area == other && p.length < q.length)) {
                    break;
                }
                at -= 1;
            }
            let ghost before = out@;
            out.insert(at, p);
            proof {
                smalls(previews@, n as int).to_multiset_ensures();
                out@.to_multiset_ensures();
                assert(out@.remove(at as int) =~= before);
                assert(out@[at as int] == p);
                assert(out@.contains(p));
                assert(out@.to_multiset() =~= before.to_multiset().insert(p));
                assert forall|i: int, j: int| 0 <= i < j < out@.len() implies !lighter(
                    #[trigger] out@[j],
                    #[trigger] out@[i],
                ) by {
                    if j == at {
                        if at > 0 {
                            assert(!lighter(before[at - 1], before[i]) || i == at - 1);
                        }
                    } else if i == at {
                        assert(lighter(p, before[j - 1]));
                    } else {
                        let a = if i < at {
                            i
                        } else {
                            i - 1
                        };
                        let b = if j < at {
                            j
                        } else {
                            j - 1
                        };
                        assert(!lighter(before[b], before[a]));
                    }
                }
            }
        }
        n += 1;
    }
    out
}

/// The part of its size at which a preview is decoded: the largest of the
/// whole, a half and a fourth that fits.
pub open spec fn part(width: int, height: int) -> int {
    if width <= MAX_OUTPUT_EDGE && height <= MAX_OUTPUT_EDGE {
        1
    } else if decoder::reduced(width, 2) <= MAX_OUTPUT_EDGE && decoder::reduced(height, 2)
        <= MAX_OUTPUT_EDGE {
        2
    } else {
        4
    }
}

/// The size of a thumbnail, and the part of its size at which its preview is
/// decoded.
pub fn output_layout(width: u32, height: u32) -> (out: (u32, u32, u32))
    ensures
        out.2 == part(width as int, height as int),
        out.0 == decoder::reduced(width as int, out.2 as int),
        out.1 == decoder::reduced(height as int, out.2 as int),
{
    let denominator: u32 = if width <= MAX_OUTPUT_EDGE && height <= MAX_OUTPUT_EDGE {
        1
    } else if div_ceil(width, 2) <= MAX_OUTPUT_EDGE && div_ceil(height, 2) <= MAX_OUTPUT_EDGE {
        2
    } else {
        4
    };
    (div_ceil(width, denominator), div_ceil(height, denominator), denominator)
}

/// Every small preview gives a thumbnail within bounds, and not an empty one.
pub proof fn law_thumbnails_are_bounded(p: EmbeddedPreview)
    requires
        small(p),
    ensures
        ({
            let scale = part(p.width->0 as int, p.height->0 as int);
            &&& 1 <= decoder::reduced(p.width->0 as int, scale) <= MAX_OUTPUT_EDGE
            &&& 1 <= decoder::reduced(p.height->0 as int, scale) <= MAX_OUTPUT_EDGE
        }),
{
}

/// The decoder for a part of the size: each part has one of its own.
pub fn decoder_slot(denominator: u32) -> (out: Result<usize, String>)
    ensures
        match out {
            Ok(slot) => (denominator == 1 && slot == 0) || (denominator == 2 && slot == 1) || (
            denominator == 4 && slot == 2),
            Err(error) => denominator != 1 && denominator != 2 && denominator != 4 && error@
                == "unsupported thumbnail reduction"@,
        },
{
    if denominator == 1 {
        Ok(0)
    } else if denominator == 2 {
        Ok(1)
    } else if denominator == 4 {
        Ok(2)
    } else {
        Err("unsupported thumbnail reduction".to_owned())
    }
}

/// The small previews of one photograph, tried from the lightest up until one
/// decodes.
#[derive(Debug)]
pub struct ThumbnailAttempts {
    pub previews: Vec<EmbeddedPreview>,
    pub tried: usize,
    pub last_error: String,
}

/// A preview to be decoded as a thumbnail, and the memory set aside for it.
#[derive(Debug)]
pub struct ThumbnailAttempt {
    pub preview: EmbeddedPreview,
    pub width: u32,
    pub height: u32,
    pub scale: u32,
    pub jpeg: MemoryLease,
    pub decoded: MemoryLease,
}

/// The pixels of the thumbnail that a preview gives, in bytes.
pub open spec fn thumbnail_bytes(p: EmbeddedPreview) -> int {
    let scale = part(p.width->0 as int, p.height->0 as int);
    decoder::reduced(p.width->0 as int, scale) * decoder::reduced(p.height->0 as int, scale) * 4
}

impl ThumbnailAttempts {
    pub open spec fn sound(&self) -> bool {
        &&& self.tried <= self.previews@.len()
        &&& forall|i: int| 0 <= i < self.previews@.len() ==> small(#[trigger] self.previews@[i])
    }

    pub fn new(previews: Vec<EmbeddedPreview>) -> (out: Self)
        ensures
            out.sound(),
            out.tried == 0,
            by_weight(out.previews@),
            out.previews@.to_multiset() == smalls(
                previews@,
                previews@.len() as int,
            ).to_multiset(),
            out.last_error@ == "No embedded thumbnail within 512 pixels and 256 KiB"@,
    {
        ThumbnailAttempts {
            previews: candidates(previews),
            tried: 0,
            last_error: "No embedded thumbnail within 512 pixels and 256 KiB".to_owned(),
        }
    }

    /// The next preview to try, with memory set aside for it. Nothing else is
    /// evicted: where there is no memory to spare, the thumbnail is put off.
    pub fn next(&mut self, budget: &mut MemoryBudget) -> (out: Result<
        ThumbnailAttempt,
        ThumbnailFailure,
    >)
        requires
            old(self).sound(),
        ensures
            final(self).sound(),
            final(self).previews == old(self).previews,
            final(self).last_error == old(self).last_error,
            final(budget).bounded(),
            if old(self).tried == old(self).previews@.len() {
                &&& out matches Err(ThumbnailFailure::Unavailable(error)) && error@
                    == old(self).last_error@
                &&& final(self).tried == old(self).tried
                &&& final(budget)@ == old(budget)@
            } else {
                let p = old(self).previews@[old(self).tried as int];
                let required = p.length + thumbnail_bytes(p);
                &&& final(self).tried == old(self).tried + 1
                &&& if required <= old(budget)@.available() {
                    &&& out is Ok
                    &&& out->Ok_0.preview == p
                    &&& out->Ok_0.width == p.width->0
                    &&& out->Ok_0.height == p.height->0
                    &&& out->Ok_0.scale == part(p.width->0 as int, p.height->0 as int)
                    &&& out->Ok_0.jpeg@ == p.length
                    &&& out->Ok_0.decoded@ == thumbnail_bytes(p)
                    &&& final(budget)@ == old(budget)@.charge(required)
                } else {
                    &&& out matches Err(ThumbnailFailure::Deferred)
                    &&& final(budget)@ == old(budget)@
                }
            },
    {
        let _ = budget.available();
        if self.tried >= self.previews.len() {
            return Err(ThumbnailFailure::Unavailable(self.last_error.as_str().to_owned()));
        }
        let preview = self.previews[self.tried];
        self.tried = self.tried + 1;
        let (width, height): (u32, u32) = match (preview.width, preview.height) {
            (Some(width), Some(height)) => (width, height),
            _ => (0, 0),
        };
        let (wide, high, scale): (u32, u32, u32) = output_layout(width, height);
        proof {
            law_thumbnails_are_bounded(preview);
            assert(wide * high <= 192 * 192) by (nonlinear_arith)
                requires
                    1 <= wide <= 192,
                    1 <= high <= 192,
            ;
        }
        let rgba: usize = wide as usize * high as usize * 4;
        let jpeg_bytes: usize = preview.length as usize;
        match budget.try_reserve(jpeg_bytes + rgba) {
            None => Err(ThumbnailFailure::Deferred),
            Some(lease) => {
                let mut jpeg = lease;
                match jpeg.split_off(rgba) {
                    Some(decoded) => Ok(
                        ThumbnailAttempt { preview, width, height, scale, jpeg, decoded },
                    ),
                    None => {
                        assert(false);
                        Err(ThumbnailFailure::Deferred)
                    },
                }
            },
        }
    }

    /// The preview that was asked for last was read into `capacity` bytes of memory,
    /// or was not. Its reservation comes to cover that memory; where the budget has
    /// too little left, the thumbnail is put off. Says whether there is something to
    /// decode; if not, the next preview is tried.
    pub fn read(
        &mut self,
        jpeg: &mut MemoryLease,
        capacity: usize,
        read: Result<(), String>,
        budget: &mut MemoryBudget,
    ) -> (out: Result<bool, ThumbnailFailure>)
        requires
            old(self).sound(),
        ensures
            final(self).sound(),
            final(budget).bounded(),
            final(self).previews == old(self).previews,
            final(self).tried == old(self).tried,
            if capacity > old(jpeg)@ && capacity - old(jpeg)@ > old(budget)@.available() {
                &&& out matches Err(ThumbnailFailure::Deferred)
                &&& final(self).last_error@ == old(self).last_error@
                &&& final(jpeg)@ == old(jpeg)@
                &&& final(budget)@ == old(budget)@
            } else {
                &&& final(jpeg)@ == capacity
                &&& final(budget)@ == if capacity <= old(jpeg)@ {
                    old(budget)@.refund(old(jpeg)@ - capacity)
                } else {
                    old(budget)@.charge(capacity - old(jpeg)@)
                }
                &&& match read {
                    Ok(()) => {
                        &&& out == Ok::<bool, ThumbnailFailure>(true)
                        &&& final(self).last_error@ == old(self).last_error@
                    },
                    Err(error) => {
                        &&& out == Ok::<bool, ThumbnailFailure>(false)
                        &&& final(self).last_error@ == error@
                    },
                }
            },
    {
        if !jpeg.resize(budget, capacity) {
            return Err(ThumbnailFailure::Deferred);
        }
        match read {
            Ok(()) => Ok(true),
            Err(error) => {
                self.last_error = error;
                Ok(false)
            },
        }
    }

    /// The preview that was tried last did not decode.
    pub fn failed(&mut self, error: String)
        requires
            old(self).sound(),
        ensures
            final(self).sound(),
            final(self).last_error@ == error@,
            final(self).previews == old(self).previews,
            final(self).tried == old(self).tried,
    {
        self.last_error = error;
    }
}

/// Why the bytes that were read are not those of the preview that was found.
pub fn revalidate(jpeg: &[u8], width: u32, height: u32) -> (out: Option<String>)
    ensures
        match decoder::declared_layout(jpeg@) {
            Ok(info) => if info.width == width && info.height == height {
                out is None
            } else {
                out is Some && out->0@ == "Thumbnail dimensions changed during read"@
            },
            Err(reason) => out is Some && out->0@ == reason,
        },
{
    match jpeg_layout(jpeg) {
        Ok(layout) => if layout.width == width && layout.height == height {
            None
        } else {
            Some("Thumbnail dimensions changed during read".to_owned())
        },
        Err(error) => Some(error),
    }
}

/// A plan of no more than forty-eight photographs at different positions is carried
/// out as it is, in its order.
pub proof fn law_plans_are_carried_out<P>(
    plan: Seq<(usize, P)>,
    epoch: u64,
    session: u64,
    serial: u64,
    n: int,
)
    requires
        0 <= n <= plan.len() <= 48,
        forall|i: int, j: int|
            0 <= i < j < plan.len() ==> (#[trigger] plan[i]).0 != (#[trigger] plan[j]).0,
    ensures
        plan_length(plan.len() as int) == plan.len(),
        planned(plan, n, epoch, session, serial) == Seq::new(
            n as nat,
            |i: int| Task { epoch, session, serial, index: plan[i].0, path: plan[i].1 },
        ),
    decreases n,
{
    let all = Seq::new(
        n as nat,
        |i: int| Task { epoch, session, serial, index: plan[i].0, path: plan[i].1 },
    );
    if n > 0 {
        law_plans_are_carried_out(plan, epoch, session, serial, n - 1);
        assert(!named(plan, n - 1, plan[n - 1].0)) by {
            if named(plan, n - 1, plan[n - 1].0) {
                let i = choose|i: int| 0 <= i < n - 1 && (#[trigger] plan[i]).0 == plan[n - 1].0;
                assert(plan[i].0 != plan[n - 1].0);
            }
        }
    }
    assert(planned(plan, n, epoch, session, serial) =~= all);
}

/// Every preview of no more than 512 pixels either way and 256 kilobytes may become a
/// thumbnail, and no other.
pub proof fn law_small_previews_become_thumbnails(
    previews: Seq<EmbeddedPreview>,
    n: int,
    p: EmbeddedPreview,
)
    requires
        0 <= n <= previews.len(),
    ensures
        smalls(previews, n).contains(p) <==> previews.take(n).contains(p) && p.width is Some
            && p.height is Some && 1 <= p.width->0 <= 512 && 1 <= p.height->0 <= 512 && 4
            <= p.length <= 262144,
    decreases n,
{
    if n > 0 {
        law_small_previews_become_thumbnails(previews, n - 1, p);
        let (before, now) = (previews.take(n - 1), previews.take(n));
        let (few, more) = (smalls(previews, n - 1), smalls(previews, n));
        assert(now =~= before.push(previews[n - 1]));
        assert(now[n - 1] == previews[n - 1]);
        if before.contains(p) {
            let i = choose|i: int| 0 <= i < before.len() && before[i] == p;
            assert(now[i] == p);
        }
        if now.contains(p) && previews[n - 1] != p {
            let i = choose|i: int| 0 <= i < now.len() && now[i] == p;
            assert(before[i] == p);
        }
        if few.contains(p) {
            let i = choose|i: int| 0 <= i < few.len() && few[i] == p;
            assert(more[i] == p);
        }
        if small(previews[n - 1]) {
            assert(more[few.len() as int] == previews[n - 1]);
            if more.contains(p) && previews[n - 1] != p {
                let i = choose|i: int| 0 <= i < more.len() && more[i] == p;
                assert(few[i] == p);
            }
        }
    }
}

/// A thumbnail is as large as it can be within 192 pixels either way: of the whole
/// size, the half and the fourth.
pub proof fn law_thumbnails_are_as_large_as_they_can_be(width: int, height: int)
    requires
        1 <= width <= 512,
        1 <= height <= 512,
    ensures
        ({
            let scale = part(width, height);
            &&& scale == 1 <==> width <= 192 && height <= 192
            &&& scale == 4 <==> width > 384 || height > 384
            &&& scale == 1 || scale == 2 || scale == 4
            &&& scale * decoder::reduced(width, scale) >= width
            &&& scale * (decoder::reduced(width, scale) - 1) < width
            &&& scale * decoder::reduced(height, scale) >= height
            &&& scale * (decoder::reduced(height, scale) - 1) < height
        }),
{
}

} // verus!
