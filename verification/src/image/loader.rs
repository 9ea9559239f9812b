//! Which photograph is decoded next, and what happens to the result.
//!
//! Two workers share one [`ImageLoader`]: one decodes the photograph on screen,
//! the other its neighbours. Files, threads and waiting stay with the program; every
//! decision is made here.
use crate::arw::parser::EmbeddedPreview;
use crate::browser::prefetch;
use crate::browser::prefetch::Direction;
use crate::image::cache;
use crate::image::cache::{Budget, DecodedCache, DecodedImage, MemoryBudget, MemoryLease, Stock};
use crate::image::decoder;
use crate::image::decoder::{jpeg_layout, MAX_DECODED_BYTES};
use crate::path;
use crate::path::Identity;
use crate::text;
use std::collections::VecDeque;
use vstd::prelude::*;
use vstd::std_specs::vecdeque::VecDequeAdditionalSpecFns;

verus! {

#[derive(Clone, Copy, Debug, PartialEq, Eq, Structural)]
pub struct LoaderConfig {
    pub decode_scale: u32,
    pub ahead: usize,
    pub behind: usize,
    pub cpu_cache_bytes: usize,
}

impl LoaderConfig {
    pub fn new() -> (out: Self)
        ensures
            out == (LoaderConfig {
                decode_scale: 1,
                ahead: 8,
                behind: 3,
                cpu_cache_bytes: 268435456,
            }),
    {
        LoaderConfig { decode_scale: 1, ahead: 8, behind: 3, cpu_cache_bytes: 268435456 }
    }
}

/// How long the stages of a load took, in nanoseconds.
#[derive(Clone, Copy, Debug, PartialEq, Eq, Structural)]
pub struct LoadTimings {
    pub parse: u64,
    pub jpeg_read: u64,
    pub decode: u64,
    pub total: u64,
    pub cache_hit: bool,
}

impl Default for LoadTimings {
    fn default() -> (out: Self)
        ensures
            out == (LoadTimings { parse: 0, jpeg_read: 0, decode: 0, total: 0, cache_hit: false }),
    {
        LoadTimings { parse: 0, jpeg_read: 0, decode: 0, total: 0, cache_hit: false }
    }
}

/// Events carry no image: the window fetches the current one from the bounded
/// cache, so a slow window cannot pile up pixels.
#[derive(Debug)]
pub enum LoaderEvent {
    Ready { session: u64, index: usize, generation: u64, timings: LoadTimings, prefetched: bool },
    Failed { session: u64, index: usize, generation: u64, error: String },
    /// Evicting decoded images was not enough for the current request. The
    /// window can release spare textures, and its own only if it must.
    MemoryPressure { session: u64, index: usize, generation: u64, bytes_needed: usize },
}

#[derive(Clone, Copy, Debug, PartialEq, Eq, Structural)]
pub enum Role {
    Foreground,
    Speculative,
}

#[derive(Clone, Copy, Debug, PartialEq, Eq, Structural)]
pub struct Task {
    pub session: u64,
    pub generation: u64,
    pub index: usize,
    pub role: Role,
}

/// What is to be decoded, for which list, and what is under way.
#[derive(Debug)]
pub struct State<P> {
    pub session: u64,
    pub generation: u64,
    pub files: Vec<P>,
    pub target: Option<usize>,
    /// The photographs worth having, most wanted first.
    pub wanted: Vec<usize>,
    pub foreground: Option<Task>,
    pub prefetch: VecDeque<Task>,
    pub inflight: Vec<(u64, usize)>,
    pub foreground_running: bool,
    pub prefetch_paused: bool,
    pub current_available: bool,
    pub current_gpu_cached: bool,
    pub gpu_cached: Vec<usize>,
    pub shutdown: bool,
    pub cache: DecodedCache,
}

/// What a `State` says, without its cache.
#[verifier::ext_equal]
pub struct Plan<K> {
    pub session: u64,
    pub generation: u64,
    pub files: Seq<K>,
    pub target: Option<usize>,
    pub wanted: Seq<usize>,
    pub foreground: Option<Task>,
    pub prefetch: Seq<Task>,
    pub inflight: Seq<(u64, usize)>,
    pub foreground_running: bool,
    pub prefetch_paused: bool,
    pub current_available: bool,
    pub current_gpu_cached: bool,
    pub gpu_cached: Seq<usize>,
    pub shutdown: bool,
}

impl<K> Plan<K> {
    /// Whether the result of a task is still of use. A task of another list, of
    /// a later request or of a photograph that the GPU has is not. A decode of
    /// the photograph on screen is; a speculative one is while nothing more
    /// urgent waits. A speculative decode of what is now on screen is promoted.
    pub open spec fn relevant(self, task: Task) -> bool {
        &&& !self.shutdown
        &&& task.session == self.session
        &&& task.generation <= self.generation
        &&& task.index < self.files.len()
        &&& !self.gpu_cached.contains(task.index)
        &&& !(self.current_gpu_cached && self.target == Some(task.index))
        &&& self.target == Some(task.index) || {
            &&& task.role == Role::Speculative
            &&& task.generation == self.generation
            &&& !self.prefetch_paused
            &&& self.foreground is None
            &&& !self.foreground_running
            &&& self.wanted.contains(task.index)
        }
    }

    /// Whether a wanted photograph is still to be decoded ahead of need.
    pub open spec fn missing(self, entries: Seq<cache::Entry>, index: usize) -> bool {
        &&& self.target != Some(index)
        &&& !cache::cached(entries, index)
        &&& !self.gpu_cached.contains(index)
        &&& !self.inflight.contains((self.session, index))
    }

    /// The speculative decode of a photograph.
    pub open spec fn ahead(self, index: usize) -> Task {
        Task {
            session: self.session,
            generation: self.generation,
            index,
            role: Role::Speculative,
        }
    }

    /// Speculative decodes for those of the first `n` wanted photographs that
    /// are missing.
    pub open spec fn queue(self, entries: Seq<cache::Entry>, n: int) -> Seq<Task>
        decreases n,
    {
        if n <= 0 {
            Seq::empty()
        } else if self.missing(entries, self.wanted[n - 1]) {
            self.queue(entries, n - 1).push(self.ahead(self.wanted[n - 1]))
        } else {
            self.queue(entries, n - 1)
        }
    }

    /// With the queue of speculative decodes made anew.
    pub open spec fn requeued(self, entries: Seq<cache::Entry>) -> Plan<K> {
        Plan { prefetch: self.queue(entries, self.wanted.len() as int), ..self }
    }

    /// On another list of photographs.
    pub open spec fn listing(self, session: u64, files: Seq<K>) -> Plan<K> {
        Plan {
            session,
            generation: 0,
            files,
            target: None,
            wanted: Seq::empty(),
            foreground: None,
            prefetch: Seq::empty(),
            prefetch_paused: true,
            current_available: false,
            current_gpu_cached: false,
            gpu_cached: Seq::empty(),
            ..self
        }
    }

    /// The photographs worth having around `index`.
    pub open spec fn worth(
        self,
        config: LoaderConfig,
        index: usize,
        direction: Direction,
    ) -> Seq<usize> {
        seq![index] + prefetch::planned(
            index,
            self.files.len() as usize,
            direction,
            config.ahead,
            config.behind,
        )
    }

    /// With another photograph on screen, and `entries` at hand.
    pub open spec fn targeted(
        self,
        config: LoaderConfig,
        index: usize,
        generation: u64,
        direction: Direction,
        gpu_cached: bool,
        entries: Seq<cache::Entry>,
    ) -> Plan<K> {
        let available = gpu_cached || cache::cached(entries, index);
        Plan {
            generation,
            target: Some(index),
            prefetch_paused: true,
            wanted: self.worth(config, index, direction),
            current_available: available,
            current_gpu_cached: gpu_cached,
            foreground: if available {
                None
            } else {
                Some(
                    Task { session: self.session, generation, index, role: Role::Foreground },
                )
            },
            ..self
        }.requeued(entries)
    }

    /// Those of the first `n` positions that are in the list.
    pub open spec fn inside(self, indices: Seq<usize>, n: int) -> Seq<usize>
        decreases n,
    {
        if n <= 0 {
            Seq::empty()
        } else if indices[n - 1] < self.files.len() {
            self.inside(indices, n - 1).push(indices[n - 1])
        } else {
            self.inside(indices, n - 1)
        }
    }

    /// With the textures of some photographs on the GPU, and `entries` at hand.
    pub open spec fn uploaded(self, indices: Seq<usize>, entries: Seq<cache::Entry>) -> Plan<K> {
        let gpu = self.inside(indices, indices.len() as int);
        let next = Plan { gpu_cached: gpu, ..self };
        let shown = match self.target {
            None => next,
            Some(index) => Plan {
                current_gpu_cached: gpu.contains(index),
                current_available: gpu.contains(index) || cache::cached(entries, index),
                foreground: if gpu.contains(index) {
                    None
                } else {
                    self.foreground
                },
                ..next
            },
        };
        shown.requeued(entries)
    }
}

/// Whether a task is queued at most once, and only for what is missing.
proof fn lemma_queue<K>(plan: Plan<K>, entries: Seq<cache::Entry>, n: int)
    requires
        0 <= n <= plan.wanted.len(),
    ensures
        forall|i: int|
            #![trigger plan.queue(entries, n)[i]]
            0 <= i < plan.queue(entries, n).len() ==> {
                let task = plan.queue(entries, n)[i];
                &&& task == plan.ahead(task.index)
                &&& plan.missing(entries, task.index)
                &&& exists|k: int| 0 <= k < n && plan.wanted[k] == task.index
            },
    decreases n,
{
    if n > 0 {
        lemma_queue(plan, entries, n - 1);
        let rest = plan.queue(entries, n - 1);
        assert forall|i: int|
            #![trigger plan.queue(entries, n)[i]]
            0 <= i < plan.queue(entries, n).len() implies ({
            let task = plan.queue(entries, n)[i];
            &&& task == plan.ahead(task.index)
            &&& plan.missing(entries, task.index)
            &&& exists|k: int| 0 <= k < n && plan.wanted[k] == task.index
        }) by {
            if i < rest.len() {
                assert(plan.queue(entries, n)[i] == rest[i]);
                let k = choose|k: int| 0 <= k < n - 1 && plan.wanted[k] == rest[i].index;
                assert(plan.wanted[k] == rest[i].index);
            } else {
                assert(plan.wanted[n - 1] == plan.queue(entries, n)[i].index);
            }
        }
    }
}

/// A queue of speculative decodes holds only wanted photographs that neither the
/// cache nor the GPU has and that are not being decoded, never the one on screen.
pub proof fn law_speculation_is_never_redundant<K>(
    plan: Plan<K>,
    entries: Seq<cache::Entry>,
    i: int,
)
    requires
        0 <= i < plan.requeued(entries).prefetch.len(),
    ensures
        ({
            let task = plan.requeued(entries).prefetch[i];
            &&& plan.wanted.contains(task.index)
            &&& plan.target != Some(task.index)
            &&& !cache::cached(entries, task.index)
            &&& !plan.gpu_cached.contains(task.index)
            &&& !plan.inflight.contains((plan.session, task.index))
            &&& task.session == plan.session
            &&& task.generation == plan.generation
        }),
{
    lemma_queue(plan, entries, plan.wanted.len() as int);
}

/// No task of an earlier list is ever of use for another one, whatever the new
/// list and its positions are.
pub proof fn law_old_lists_are_forgotten<K>(plan: Plan<K>, session: u64, files: Seq<K>, task: Task)
    requires
        task.session != session,
    ensures
        !plan.listing(session, files).relevant(task),
{
}

/// A new request makes every decode of another photograph for the screen
/// useless, and every speculative decode that an earlier request queued, unless
/// it is of the photograph that is now on screen.
pub proof fn law_latest_request_wins<K>(
    plan: Plan<K>,
    config: LoaderConfig,
    index: usize,
    generation: u64,
    direction: Direction,
    gpu_cached: bool,
    entries: Seq<cache::Entry>,
    task: Task,
)
    requires
        task.index != index,
        task.role == Role::Foreground || task.generation < generation,
    ensures
        !plan.targeted(config, index, generation, direction, gpu_cached, entries).relevant(task),
{
}

/// While a request for the screen waits for its decode, no speculative decode of
/// another photograph is of use.
pub proof fn law_foreground_comes_first<K>(plan: Plan<K>, task: Task)
    requires
        plan.foreground is Some || plan.foreground_running || plan.prefetch_paused,
        plan.target != Some(task.index),
    ensures
        !plan.relevant(task),
{
}

impl<K> Plan<K> {
    /// Nothing is being decoded twice.
    pub open spec fn sound(self) -> bool {
        self.inflight.no_duplicates()
    }

    /// Whether a queued task is still worth starting.
    pub open spec fn startable(self, entries: Seq<cache::Entry>, task: Task) -> bool {
        &&& self.relevant(task)
        &&& !cache::cached(entries, task.index)
        &&& !self.inflight.contains((task.session, task.index))
    }

    /// With a task begun.
    pub open spec fn begun(self, task: Task) -> Plan<K> {
        Plan {
            inflight: self.inflight.push((task.session, task.index)),
            foreground_running: self.foreground_running || task.role == Role::Foreground,
            ..self
        }
    }

    /// Whether neighbours may be decoded at all: the photograph on screen has
    /// what it needs, and nothing is being decoded for it.
    pub open spec fn idle(self) -> bool {
        &&& !self.prefetch_paused
        &&& self.current_available
        &&& self.foreground is None
        &&& !self.foreground_running
    }

    /// What a worker does next. Queued tasks that are no longer worth starting
    /// are dropped.
    pub open spec fn polled(self, entries: Seq<cache::Entry>, role: Role) -> (
        Plan<K>,
        Option<Task>,
    )
        decreases self.prefetch.len(),
    {
        match role {
            Role::Foreground => match self.foreground {
                Some(task) => {
                    let rest = Plan { foreground: None, ..self };
                    if rest.startable(entries, task) {
                        let started = rest.begun(task);
                        (Plan { foreground_running: true, ..started }, Some(task))
                    } else {
                        (rest, None)
                    }
                },
                None => (self, None),
            },
            Role::Speculative => if self.idle() && self.prefetch.len() > 0 {
                let task = self.prefetch[0];
                let rest = Plan { prefetch: self.prefetch.skip(1), ..self };
                if rest.startable(entries, task) {
                    (
                        Plan { inflight: rest.inflight.push((task.session, task.index)), ..rest },
                        Some(task),
                    )
                } else {
                    rest.polled(entries, role)
                }
            } else {
                (self, None)
            },
        }
    }

    /// With a task no longer under way.
    pub open spec fn ended(self, task: Task) -> Plan<K> {
        Plan {
            inflight: self.inflight.remove_value((task.session, task.index)),
            foreground_running: self.foreground_running && task.role == Role::Speculative,
            ..self
        }
    }
}

impl Stock {
    /// Without the image of one photograph.
    pub open spec fn forgetting(self, index: usize) -> Stock {
        if cache::cached(self.entries, index) {
            self.without(choose|i: int| cache::at(self.entries, index, i))
        } else {
            self
        }
    }

    /// Without the images of the first `n` of some photographs.
    pub open spec fn stripped(self, indices: Seq<usize>, n: int) -> Stock
        decreases n,
    {
        if n <= 0 {
            self
        } else {
            self.stripped(indices, n - 1).forgetting(indices[n - 1])
        }
    }

    /// The image of a photograph has been asked for.
    pub open spec fn noticed(self, index: usize) -> Stock {
        let i = choose|i: int| cache::at(self.entries, index, i);
        Stock {
            entries: self.entries.update(
                i,
                cache::Entry { prefetched: false, ..self.entries[i] },
            ),
            ..self
        }
    }

    /// Whether the image of a photograph was decoded ahead of need.
    pub open spec fn foreseen(self, index: usize) -> bool {
        self.entries[choose|i: int| cache::at(self.entries, index, i)].prefetched
    }

    /// Whether a speculative decode fits beside what is cached.
    pub open spec fn roomy(self, config: LoaderConfig, required: int, decoded: int) -> bool {
        &&& cache::entry_bytes(self.entries) + decoded <= config.cpu_cache_bytes
        &&& required <= self.budget.available()
    }

    /// Less wanted images give way to a speculative decode, until it fits or
    /// none is left.
    pub open spec fn cleared(
        self,
        config: LoaderConfig,
        wanted: Seq<usize>,
        index: usize,
        required: int,
        decoded: int,
    ) -> (Stock, bool)
        decreases self.entries.len(),
    {
        if self.roomy(config, required, decoded) {
            (self, true)
        } else {
            match self.yielding(wanted, index) {
                Some(i) => if 0 <= i < self.entries.len() {
                    if self.entries[i].image.size() == 0 {
                        (self.without(i), self.without(i).roomy(config, required, decoded))
                    } else {
                        self.without(i).cleared(config, wanted, index, required, decoded)
                    }
                } else {
                    (self, false)
                },
                None => (self, false),
            }
        }
    }

    /// With an image cached, and the cache back at its size.
    pub open spec fn stored(
        self,
        index: usize,
        image: DecodedImage,
        touched: u64,
        prefetched: bool,
    ) -> Stock {
        let rest = self.forgetting(index);
        Stock {
            entries: rest.entries.push(
                cache::Entry { index, image, holders: 0, touched, prefetched },
            ),
            ..rest
        }
    }
}

/// Why a load gave no image.
#[derive(Debug)]
pub enum LoadError {
    /// Nobody wants the image any more.
    Cancelled,
    Failed(String),
}

/// What became of a request for memory.
#[derive(Debug)]
pub enum Reservation {
    Granted { jpeg: MemoryLease, decoded: MemoryLease },
    Refused(LoadError),
    /// There is not enough memory yet. The window is told once.
    Blocked(Option<LoaderEvent>),
}

/// What a worker is to do.
#[derive(Debug)]
pub enum Poll<P> {
    /// End.
    Stop,
    /// Sleep until something changes.
    Wait,
    /// Load a photograph.
    Run(Task, P),
}

impl<P: Identity> State<P> {
    pub open spec fn plan(&self) -> Plan<P::Key> {
        Plan {
            session: self.session,
            generation: self.generation,
            files: path::keys(self.files@),
            target: self.target,
            wanted: self.wanted@,
            foreground: self.foreground,
            prefetch: self.prefetch@,
            inflight: self.inflight@,
            foreground_running: self.foreground_running,
            prefetch_paused: self.prefetch_paused,
            current_available: self.current_available,
            current_gpu_cached: self.current_gpu_cached,
            gpu_cached: self.gpu_cached@,
            shutdown: self.shutdown,
        }
    }

    /// The cache together with its budget.
    pub open spec fn stock(&self, budget: &MemoryBudget) -> Stock {
        self.cache.stock(budget@)
    }

    /// The budget covers the cache, and nothing is being decoded twice.
    pub open spec fn sound(&self, budget: &MemoryBudget) -> bool {
        self.cache.sound(budget) && self.plan().sound()
    }

    pub fn new() -> (out: Self)
        ensures
            out.plan() == (Plan {
                session: 0,
                generation: 0,
                files: Seq::<P::Key>::empty(),
                target: None,
                wanted: Seq::empty(),
                foreground: None,
                prefetch: Seq::empty(),
                inflight: Seq::empty(),
                foreground_running: false,
                prefetch_paused: true,
                current_available: false,
                current_gpu_cached: false,
                gpu_cached: Seq::empty(),
                shutdown: false,
            }),
            out.cache.entries@.len() == 0,
            out.cache.detached@.len() == 0,
            out.cache.clock == 0,
    {
        let out = State {
            session: 0,
            generation: 0,
            files: Vec::new(),
            target: None,
            wanted: Vec::new(),
            foreground: None,
            prefetch: VecDeque::new(),
            inflight: Vec::new(),
            foreground_running: false,
            prefetch_paused: true,
            current_available: false,
            current_gpu_cached: false,
            gpu_cached: Vec::new(),
            shutdown: false,
            cache: DecodedCache::new(),
        };
        assert(out.plan().files =~= Seq::empty());
        out
    }

    /// Whether the result of a task is still of use.
    pub fn relevant(&self, task: Task) -> (out: bool)
        ensures
            out == self.plan().relevant(task),
    {
        if self.shutdown || task.session != self.session || task.generation > self.generation
            || task.index >= self.files.len() {
            return false;
        }
        let shown = self.target == Some(task.index);
        if cache::lists(&self.gpu_cached, task.index) || (self.current_gpu_cached && shown) {
            return false;
        }
        if task.role == Role::Foreground || shown {
            return shown;
        }
        task.generation == self.generation && !self.prefetch_paused && self.foreground.is_none()
            && !self.foreground_running && cache::lists(&self.wanted, task.index)
    }
}

fn under_way(all: &Vec<(u64, usize)>, session: u64, index: usize) -> (out: Option<usize>)
    ensures
        match out {
            Some(i) => i < all@.len() && all@[i as int] == (session, index) && forall|k: int|
                0 <= k < i ==> all@[k] != (session, index),
            None => !all@.contains((session, index)),
        },
{
    let mut i: usize = 0;
    while i < all.len()
        invariant
            i <= all@.len(),
            forall|k: int| 0 <= k < i ==> all@[k] != (session, index),
        decreases all@.len() - i,
    {
        if all[i].0 == session && all[i].1 == index {
            return Some(i);
        }
        i += 1;
    }
    None
}

impl<P: Identity> State<P> {
    /// Makes the queue of speculative decodes anew.
    pub fn rebuild_prefetch(&mut self)
        ensures
            final(self).plan() == old(self).plan().requeued(old(self).cache.entries@),
            final(self).cache == old(self).cache,
    {
        let ghost plan = self.plan();
        let ghost entries = self.cache.entries@;
        let mut queue: VecDeque<Task> = VecDeque::new();
        let mut i: usize = 0;
        while i < self.wanted.len()
            invariant
                i <= self.wanted@.len(),
                plan == self.plan(),
                entries == self.cache.entries@,
                queue@ =~= plan.queue(entries, i as int),
                *self == *old(self),
            decreases self.wanted@.len() - i,
        {
            let index: usize = self.wanted[i];
            let busy = under_way(&self.inflight, self.session, index).is_some();
            let shown = self.target == Some(index);
            if !shown && !self.cache.contains(index) && !cache::lists(&self.gpu_cached, index)
                && !busy {
                queue.push_back(
                    Task {
                        session: self.session,
                        generation: self.generation,
                        index,
                        role: Role::Speculative,
                    },
                );
            }
            i += 1;
        }
        self.prefetch = queue;
    }

    /// Takes up another list of photographs. Images follow their photographs.
    pub fn set_files(&mut self, session: u64, files: Vec<P>, budget: &mut MemoryBudget)
        requires
            old(self).sound(old(budget)),
        ensures
            final(self).sound(final(budget)),
            final(self).plan() == old(self).plan().listing(session, path::keys(files@)),
            final(self).cache.clock == old(self).cache.clock,
            final(self).stock(final(budget)).elsewhere() == old(self).stock(old(budget)).elsewhere(),
            cache::followed(
                old(self).stock(old(budget)),
                path::keys(old(self).files@),
                path::keys(files@),
                final(self).stock(final(budget)),
            ),
    {
        self.cache.rekey(&self.files, &files, budget);
        self.session = session;
        self.generation = 0;
        self.files = files;
        self.target = None;
        self.wanted = Vec::new();
        self.foreground = None;
        self.prefetch = VecDeque::new();
        self.prefetch_paused = true;
        self.current_available = false;
        self.current_gpu_cached = false;
        self.gpu_cached = Vec::new();
        assert(self.plan() =~= old(self).plan().listing(session, path::keys(files@)));
    }

    /// Notes which photographs have a texture. They need no decoded image, and
    /// no decode. Losing a texture queues no decode of the photograph on screen:
    /// only another request does.
    pub fn set_gpu_cached(&mut self, indices: &Vec<usize>, budget: &mut MemoryBudget)
        requires
            old(self).sound(old(budget)),
        ensures
            final(self).sound(final(budget)),
            final(self).cache.clock == old(self).cache.clock,
            final(self).stock(final(budget)).elsewhere() == old(self).stock(old(budget)).elsewhere(),
            final(self).plan() == old(self).plan().uploaded(
                indices@,
                final(self).cache.entries@,
            ),
            ({
                let gpu = final(self).gpu_cached@;
                &&& final(self).stock(final(budget)) == old(self).stock(old(budget)).stripped(
                    gpu,
                    gpu.len() as int,
                )
                &&& forall|index: usize|
                    gpu.contains(index) ==> !#[trigger] cache::cached(
                        final(self).cache.entries@,
                        index,
                    )
            }),
    {
        let ghost plan = self.plan();
        let mut gpu: Vec<usize> = Vec::new();
        let mut i: usize = 0;
        while i < indices.len()
            invariant
                i <= indices@.len(),
                plan == self.plan(),
                *self == *old(self),
                gpu@ =~= plan.inside(indices@, i as int),
            decreases indices@.len() - i,
        {
            if indices[i] < self.files.len() {
                gpu.push(indices[i]);
            }
            i += 1;
        }
        let ghost listed = gpu@;
        self.gpu_cached = gpu;
        let ghost stock = self.cache.stock(budget@);
        let mut k: usize = 0;
        while k < self.gpu_cached.len()
            invariant
                k <= self.gpu_cached@.len(),
                self.cache.sound(budget),
                self.cache.clock == old(self).cache.clock,
                stock == old(self).stock(old(budget)),
                self.stock(budget).elsewhere() == stock.elsewhere(),
                self.stock(budget) == stock.stripped(self.gpu_cached@, k as int),
                self.plan() =~= (Plan { gpu_cached: listed, ..plan }),
                self.gpu_cached@ == listed,
                forall|j: int|
                    0 <= j < k ==> !cache::cached(
                        self.cache.entries@,
                        #[trigger] self.gpu_cached@[j],
                    ),
            decreases self.gpu_cached@.len() - k,
        {
            let ghost before = self.cache.entries@;
            let index: usize = self.gpu_cached[k];
            proof {
                if cache::cached(before, index) {
                    let at = choose|i: int| cache::at(before, index, i);
                    assert(cache::at(before, index, at));
                }
            }
            self.cache.remove(index, budget);
            k += 1;
        }
        if let Some(index) = self.target {
            self.current_gpu_cached = cache::lists(&self.gpu_cached, index);
            self.current_available = self.current_gpu_cached || self.cache.contains(index);
            if self.current_gpu_cached {
                self.foreground = None;
            }
        }
        self.rebuild_prefetch();
        assert(self.plan() =~= old(self).plan().uploaded(indices@, self.cache.entries@));
    }
}

/// What is announced of a photograph that is at hand when it is asked for.
pub open spec fn announced<K>(plan: Plan<K>, stock: Stock, index: usize, generation: u64) -> LoaderEvent {
    LoaderEvent::Ready {
        session: plan.session,
        index,
        generation,
        timings: LoadTimings { parse: 0, jpeg_read: 0, decode: 0, total: 0, cache_hit: true },
        prefetched: stock.foreseen(index),
    }
}

/// What was cached that is still worth having.
pub open spec fn worthwhile(stock: Stock, wanted: Seq<usize>) -> Stock {
    stock.culled(stock.among(wanted), stock.entries.len() as int)
}

/// Another photograph is asked for. What becomes of the plan and of the cache,
/// and what is announced.
pub open spec fn navigated<K>(
    plan: Plan<K>,
    stock: Stock,
    config: LoaderConfig,
    index: usize,
    generation: u64,
    direction: Direction,
    gpu_cached: bool,
) -> (Plan<K>, Stock, Option<LoaderEvent>) {
    if index >= plan.files.len() {
        (plan, stock, None)
    } else {
        let kept = worthwhile(stock, plan.worth(config, index, direction));
        let next = plan.targeted(config, index, generation, direction, gpu_cached, kept.entries);
        if cache::cached(kept.entries, index) && !gpu_cached {
            (next, kept.noticed(index), Some(announced(plan, kept, index, generation)))
        } else {
            (next, kept, None)
        }
    }
}

impl<P: Identity> State<P> {
    /// Shows another photograph. Images that are no longer worth having are
    /// dropped; what is missing is queued. A photograph outside the list is
    /// ignored. One that is at hand, and not on the GPU, is announced at once.
    pub fn navigate(
        &mut self,
        config: &LoaderConfig,
        index: usize,
        generation: u64,
        direction: Direction,
        gpu_cached: bool,
        budget: &mut MemoryBudget,
    ) -> (out: Option<LoaderEvent>)
        requires
            old(self).sound(old(budget)),
        ensures
            final(self).sound(final(budget)),
            final(self).cache.clock == old(self).cache.clock,
            final(self).stock(final(budget)).elsewhere() == old(self).stock(old(budget)).elsewhere(),
            (final(self).plan(), final(self).stock(final(budget)), out) == navigated(
                old(self).plan(),
                old(self).stock(old(budget)),
                *config,
                index,
                generation,
                direction,
                gpu_cached,
            ),
    {
        if index >= self.files.len() {
            return None;
        }
        let ghost plan = self.plan();
        self.generation = generation;
        self.target = Some(index);
        self.prefetch_paused = true;
        let mut wanted: Vec<usize> = Vec::new();
        wanted.push(index);
        let mut around = prefetch::plan(
            index,
            self.files.len(),
            direction,
            config.ahead,
            config.behind,
        );
        wanted.append(&mut around);
        self.wanted = wanted;
        assert(self.wanted@ =~= plan.worth(*config, index, direction));
        self.cache.retain_indices(&self.wanted, budget);
        let ghost kept = self.stock(budget);
        self.current_available = gpu_cached || self.cache.contains(index);
        self.current_gpu_cached = gpu_cached;
        self.foreground = if self.current_available {
            None
        } else {
            Some(Task { session: self.session, generation, index, role: Role::Foreground })
        };
        self.rebuild_prefetch();
        assert(self.plan() =~= plan.targeted(
            *config,
            index,
            generation,
            direction,
            gpu_cached,
            kept.entries,
        ));
        if self.cache.contains(index) && !gpu_cached {
            proof {
                let i = choose|i: int| cache::at(kept.entries, index, i);
                assert(cache::at(kept.entries, index, i));
            }
            let prefetched = self.cache.take_prefetched(index);
            proof {
                let i = choose|i: int| cache::at(kept.entries, index, i);
                cache::lemma_marked(kept, i);
                assert(self.stock(budget) == kept.noticed(index));
            }
            Some(
                LoaderEvent::Ready {
                    session: self.session,
                    index,
                    generation,
                    timings: LoadTimings {
                        parse: 0,
                        jpeg_read: 0,
                        decode: 0,
                        total: 0,
                        cache_hit: true,
                    },
                    prefetched,
                },
            )
        } else {
            None
        }
    }

    /// What a worker does next.
    pub fn next_task(&mut self, role: Role) -> (out: Poll<P>)
        requires
            old(self).plan().sound(),
        ensures
            final(self).cache == old(self).cache,
            final(self).plan().sound(),
            old(self).shutdown ==> out is Stop && final(self).plan() == old(self).plan(),
            !old(self).shutdown ==> {
                let (plan, task) = old(self).plan().polled(old(self).cache.entries@, role);
                &&& final(self).plan() == plan
                &&& match task {
                    Some(task) => out matches Poll::Run(started, file) && started == task
                        && task.index < old(self).files@.len() && file.key()
                        == old(self).files@[task.index as int].key() && file.form()
                        == old(self).files@[task.index as int].form(),
                    None => out is Wait,
                }
            },
    {
        if self.shutdown {
            return Poll::Stop;
        }
        let ghost entries = self.cache.entries@;
        let ghost want = self.plan().polled(entries, role);
        match role {
            Role::Foreground => {
                let queued = self.foreground;
                self.foreground = None;
                match queued {
                    Some(task) => if self.startable(task) {
                        self.inflight.push((task.session, task.index));
                        self.foreground_running = true;
                        assert(self.plan() =~= want.0);
                        return Poll::Run(task, self.files[task.index].copied());
                    },
                    None => {},
                }
                assert(self.plan() =~= want.0);
            },
            Role::Speculative => {
                if !self.prefetch_paused && self.current_available && self.foreground.is_none()
                    && !self.foreground_running {
                    while self.prefetch.len() > 0
                        invariant
                            self.plan().idle(),
                            !self.shutdown,
                            self.plan().sound(),
                            entries == self.cache.entries@,
                            self.cache == old(self).cache,
                            self.files == old(self).files,
                            role == Role::Speculative,
                            want == old(self).plan().polled(old(self).cache.entries@, role),
                            !old(self).shutdown,
                            want == self.plan().polled(entries, role),
                        decreases self.prefetch@.len(),
                    {
                        let ghost before = self.plan();
                        match self.prefetch.pop_front() {
                            Some(task) => {
                                assert(self.plan() =~= (Plan {
                                    prefetch: before.prefetch.skip(1),
                                    ..before
                                }));
                                if self.startable(task) {
                                    self.inflight.push((task.session, task.index));
                                    assert(self.plan() =~= want.0);
                                    return Poll::Run(task, self.files[task.index].copied());
                                }
                            },
                            None => {},
                        }
                    }
                }
            },
        }
        Poll::Wait
    }

    fn startable(&self, task: Task) -> (out: bool)
        ensures
            out == self.plan().startable(self.cache.entries@, task),
    {
        self.relevant(task) && !self.cache.contains(task.index) && under_way(
            &self.inflight,
            task.session,
            task.index,
        ).is_none()
    }

    /// Whether the work on a task goes on.
    pub fn checkpoint(&self, task: Task) -> (out: Result<(), LoadError>)
        ensures
            match out {
                Ok(_) => self.plan().relevant(task),
                Err(error) => !self.plan().relevant(task) && error is Cancelled,
            },
    {
        if self.relevant(task) {
            Ok(())
        } else {
            Err(LoadError::Cancelled)
        }
    }
}

/// Whether a task is for the photograph on screen.
pub open spec fn urgent<K>(plan: Plan<K>, task: Task) -> bool {
    task.role == Role::Foreground || plan.target == Some(task.index)
}

/// The cache after room was sought for a decode, and whether there is room. A
/// decode for the screen takes what it needs; a speculative one only displaces
/// what is wanted less.
pub open spec fn sought<K>(
    plan: Plan<K>,
    stock: Stock,
    config: LoaderConfig,
    task: Task,
    required: int,
    decoded: int,
) -> (Stock, bool) {
    if urgent(plan, task) {
        stock.evicted_for(plan.target, required)
    } else {
        stock.cleared(config, plan.wanted, task.index, required, decoded)
    }
}

/// Why a request for memory is refused.
pub open spec fn denial<K>(
    plan: Plan<K>,
    budget: Budget,
    task: Task,
    required: int,
) -> Option<Option<Seq<char>>> {
    if required > usize::MAX {
        Some(Some("image allocation overflow"@))
    } else if required > budget.limit {
        Some(Some("image exceeds the configured memory budget"@))
    } else if !plan.relevant(task) {
        Some(None)
    } else {
        None
    }
}

impl LoadError {
    /// What an error says; a cancellation says nothing.
    pub open spec fn said(&self) -> Option<Seq<char>> {
        match self {
            LoadError::Cancelled => None,
            LoadError::Failed(error) => Some(error@),
        }
    }
}

impl<P: Identity> State<P> {
    /// Seeks memory for a compressed and a decoded image. `notified` says
    /// whether the window knows that memory is short.
    pub fn reserve(
        &mut self,
        config: &LoaderConfig,
        task: Task,
        jpeg_bytes: usize,
        decoded_bytes: usize,
        notified: bool,
        budget: &mut MemoryBudget,
    ) -> (out: Reservation)
        requires
            old(self).sound(old(budget)),
        ensures
            final(self).sound(final(budget)),
            final(self).plan() == old(self).plan(),
            final(self).cache.clock == old(self).cache.clock,
            ({
                let plan = old(self).plan();
                let stock = old(self).stock(old(budget));
                let required = jpeg_bytes + decoded_bytes;
                let now = final(self).stock(final(budget));
                let (room, enough) = sought(
                    plan,
                    stock,
                    *config,
                    task,
                    required,
                    decoded_bytes as int,
                );
                match denial(plan, stock.budget, task, required) {
                    Some(reason) => {
                        &&& out matches Reservation::Refused(error) && error.said() == reason
                        &&& now == stock
                    },
                    None => if enough {
                        &&& out matches Reservation::Granted { jpeg, decoded } && jpeg@
                            == jpeg_bytes && decoded@ == decoded_bytes
                        &&& now == (Stock { budget: room.budget.charge(required), ..room })
                        &&& now.elsewhere() == stock.elsewhere() + required
                    } else {
                        &&& out == Reservation::Blocked(
                            if urgent(plan, task) && !notified {
                                Some(
                                    LoaderEvent::MemoryPressure {
                                        session: plan.session,
                                        index: task.index,
                                        generation: plan.generation,
                                        bytes_needed: required as usize,
                                    },
                                )
                            } else {
                                None
                            },
                        )
                        &&& now == room
                        &&& now.elsewhere() == stock.elsewhere()
                    },
                }
            }),
    {
        let ghost stock = self.stock(budget);
        let required: usize = match jpeg_bytes.checked_add(decoded_bytes) {
            Some(required) => required,
            None => {
                return Reservation::Refused(
                    LoadError::Failed("image allocation overflow".to_owned()),
                );
            },
        };
        if required > budget.limit() {
            return Reservation::Refused(
                LoadError::Failed("image exceeds the configured memory budget".to_owned()),
            );
        }
        if !self.relevant(task) {
            return Reservation::Refused(LoadError::Cancelled);
        }
        let foreground = task.role == Role::Foreground || self.target == Some(task.index);
        let keep = self.target;
        let enough = if foreground {
            self.cache.evict_for(required, keep, budget)
        } else {
            self.make_room(config, task.index, required, decoded_bytes, budget)
        };
        assert(self.plan() =~= old(self).plan());
        if enough {
            match budget.try_reserve(required) {
                Some(lease) => {
                    let mut decoded = lease;
                    match decoded.split_off(jpeg_bytes) {
                        Some(jpeg) => {
                            return Reservation::Granted { jpeg, decoded };
                        },
                        None => {},
                    }
                },
                None => {},
            }
        }
        Reservation::Blocked(
            if foreground && !notified {
                Some(
                    LoaderEvent::MemoryPressure {
                        session: self.session,
                        index: task.index,
                        generation: self.generation,
                        bytes_needed: required,
                    },
                )
            } else {
                None
            },
        )
    }

    fn roomy(
        &self,
        config: &LoaderConfig,
        required: usize,
        decoded_bytes: usize,
        budget: &MemoryBudget,
    ) -> (out: bool)
        requires
            self.cache.sound(budget),
        ensures
            out == self.stock(budget).roomy(*config, required as int, decoded_bytes as int),
    {
        proof {
            cache::lemma_detached_bytes(self.cache.detached@);
            cache::lemma_entry_bytes(self.cache.entries@);
        }
        match self.cache.bytes().checked_add(decoded_bytes) {
            Some(bytes) => bytes <= config.cpu_cache_bytes && budget.available() >= required,
            None => false,
        }
    }

    /// Lets less wanted images give way to a speculative decode.
    fn make_room(
        &mut self,
        config: &LoaderConfig,
        index: usize,
        required: usize,
        decoded_bytes: usize,
        budget: &mut MemoryBudget,
    ) -> (out: bool)
        requires
            old(self).cache.sound(old(budget)),
        ensures
            final(self).cache.sound(final(budget)),
            final(self).plan() == old(self).plan(),
            final(self).cache.clock == old(self).cache.clock,
            final(self).stock(final(budget)).elsewhere() == old(self).stock(old(budget)).elsewhere(),
            (final(self).stock(final(budget)), out) == old(self).stock(old(budget)).cleared(
                *config,
                old(self).wanted@,
                index,
                required as int,
                decoded_bytes as int,
            ),
            out ==> required <= final(budget)@.available(),
    {
        let ghost want = self.stock(budget).cleared(
            *config,
            self.wanted@,
            index,
            required as int,
            decoded_bytes as int,
        );
        loop
            invariant
                self.cache.sound(budget),
                self.plan() == old(self).plan(),
                self.cache.clock == old(self).cache.clock,
                self.stock(budget).elsewhere() == old(self).stock(old(budget)).elsewhere(),
                self.wanted@ == old(self).wanted@,
                want == old(self).stock(old(budget)).cleared(
                    *config,
                    old(self).wanted@,
                    index,
                    required as int,
                    decoded_bytes as int,
                ),
                want == self.stock(budget).cleared(
                    *config,
                    self.wanted@,
                    index,
                    required as int,
                    decoded_bytes as int,
                ),
            decreases self.cache.entries@.len(),
        {
            let ghost stock = self.stock(budget);
            if self.roomy(config, required, decoded_bytes, budget) {
                return true;
            }
            proof {
                if stock.yielding(self.wanted@, index) is Some {
                    stock.lemma_yielding(self.wanted@, index);
                    stock.lemma_without(stock.yielding(self.wanted@, index)->0);
                }
            }
            let freed: usize = self.cache.evict_lower_priority(&self.wanted, index, budget);
            if freed == 0 {
                return self.roomy(config, required, decoded_bytes, budget);
            }
        }
    }
}

/// A load ended. What becomes of the plan and of the cache, and what is
/// announced; `clock` is the cache's next tick.
pub open spec fn finished<K>(
    plan: Plan<K>,
    stock: Stock,
    config: LoaderConfig,
    task: Task,
    result: Result<(DecodedImage, LoadTimings), LoadError>,
    clock: u64,
) -> (Plan<K>, Stock, Option<LoaderEvent>) {
    let ended = plan.ended(task);
    if !ended.relevant(task) {
        (
            if task.role == Role::Speculative {
                ended.requeued(stock.entries)
            } else {
                ended
            },
            match result {
                Ok((image, _)) => Stock { budget: stock.budget.refund(image.size()), ..stock },
                Err(_) => stock,
            },
            None,
        )
    } else {
        match result {
            Ok((image, timings)) => (
                Plan {
                    current_available: ended.current_available || ended.target == Some(task.index),
                    ..ended
                },
                stock.stored(task.index, image, clock, task.role == Role::Speculative).trimmed(
                    ended.target,
                    config.cpu_cache_bytes as int,
                ),
                Some(
                    LoaderEvent::Ready {
                        session: plan.session,
                        index: task.index,
                        generation: plan.generation,
                        timings,
                        prefetched: task.role == Role::Speculative,
                    },
                ),
            ),
            Err(LoadError::Failed(error)) => (
                ended,
                stock,
                Some(
                    LoaderEvent::Failed {
                        session: plan.session,
                        index: task.index,
                        generation: plan.generation,
                        error,
                    },
                ),
            ),
            Err(LoadError::Cancelled) => (ended, stock, None),
        }
    }
}

impl<P: Identity> State<P> {
    /// Takes in what a load gave. An image that nobody wants any more is freed.
    pub fn finish(
        &mut self,
        config: &LoaderConfig,
        task: Task,
        result: Result<(DecodedImage, LoadTimings), LoadError>,
        budget: &mut MemoryBudget,
    ) -> (out: Option<LoaderEvent>)
        requires
            old(self).sound(old(budget)),
            result matches Ok((image, _)) ==> image.size() <= old(self).stock(
                old(budget),
            ).elsewhere(),
        ensures
            final(self).sound(final(budget)),
            (final(self).plan(), final(self).stock(final(budget)), out) == finished(
                old(self).plan(),
                old(self).stock(old(budget)),
                *config,
                task,
                result,
                cache::later(old(self).cache.clock),
            ),
            final(self).stock(final(budget)).elsewhere() == old(self).stock(
                old(budget),
            ).elsewhere() - match result {
                Ok((image, _)) => image.size(),
                Err(_) => 0,
            },
    {
        let ghost plan = self.plan();
        let ghost stock = self.stock(budget);
        match under_way(&self.inflight, task.session, task.index) {
            Some(i) => {
                proof {
                    let all = self.inflight@;
                    let one = (task.session, task.index);
                    assert(all.index_of_first(one) == Some(i as int)) by {
                        all.index_of_first_ensures(one);
                    }
                }
                let _ = self.inflight.remove(i);
            },
            None => {
                proof {
                    self.inflight@.index_of_first_ensures((task.session, task.index));
                }
            },
        }
        if task.role == Role::Foreground {
            self.foreground_running = false;
        }
        assert(self.plan() =~= plan.ended(task));
        if !self.relevant(task) {
            if task.role == Role::Speculative {
                self.rebuild_prefetch();
            }
            match result {
                Ok((image, _)) => {
                    broadcast use MemoryLease::lemma_range;

                    proof {
                        cache::lemma_detached_bytes(self.cache.detached@);
                        cache::lemma_entry_bytes(self.cache.entries@);
                    }
                    budget.release(image.lease);
                },
                Err(_) => {},
            }
            return None;
        }
        match result {
            Ok((image, timings)) => {
                let prefetched = task.role == Role::Speculative;
                proof {
                    if cache::cached(stock.entries, task.index) {
                        let i = choose|i: int| cache::at(stock.entries, task.index, i);
                        assert(cache::at(stock.entries, task.index, i));
                    }
                }
                self.cache.insert(task.index, image, prefetched, budget);
                let keep = self.target;
                self.cache.trim_to(config.cpu_cache_bytes, keep, budget);
                if self.target == Some(task.index) {
                    self.current_available = true;
                }
                Some(
                    LoaderEvent::Ready {
                        session: self.session,
                        index: task.index,
                        generation: self.generation,
                        timings,
                        prefetched,
                    },
                )
            },
            Err(LoadError::Failed(error)) => Some(
                LoaderEvent::Failed {
                    session: self.session,
                    index: task.index,
                    generation: self.generation,
                    error,
                },
            ),
            Err(LoadError::Cancelled) => None,
        }
    }
}

/// What a preview takes once it is decoded at one part in `scale` of its size.
pub open spec fn footprint(preview: EmbeddedPreview, scale: int) -> Result<(u32, u32, int), Seq<char>> {
    match (preview.width, preview.height) {
        (Some(width), Some(height)) => {
            let bytes = decoder::reduced(width as int, scale) * decoder::reduced(
                height as int,
                scale,
            ) * 4;
            if bytes <= MAX_DECODED_BYTES {
                Ok((width, height, bytes))
            } else {
                Err("decoded image exceeds the supported memory limit"@)
            }
        },
        _ => Err("JPEG dimensions are unavailable"@),
    }
}

/// The size of a preview, and what it takes once it is decoded.
pub fn layout(preview: &EmbeddedPreview, scale: u32) -> (out: Result<(u32, u32, usize), String>)
    requires
        scale > 0,
    ensures
        match footprint(*preview, scale as int) {
            Ok((width, height, bytes)) => out is Ok && out->Ok_0.0 == width && out->Ok_0.1 == height
                && out->Ok_0.2 == bytes,
            Err(reason) => out is Err && out->Err_0@ == reason,
        },
{
    let (width, height): (u32, u32) = match (preview.width, preview.height) {
        (Some(width), Some(height)) => (width, height),
        _ => {
            return Err("JPEG dimensions are unavailable".to_owned());
        },
    };
    let wide: u64 = decoder::div_ceil(width, scale) as u64;
    let high: u64 = decoder::div_ceil(height, scale) as u64;
    assert(wide * high <= 0xffff_ffff * 0xffff_ffff) by (nonlinear_arith)
        requires
            wide <= 0xffff_ffff,
            high <= 0xffff_ffff,
    ;
    let pixels: u64 = wide * high;
    if pixels > MAX_DECODED_BYTES as u64 / 4 {
        return Err("decoded image exceeds the supported memory limit".to_owned());
    }
    Ok((width, height, pixels as usize * 4))
}

/// Whether a JPEG is as large as it was when memory was reserved for it. A file
/// that is replaced between the two reads must not take more.
pub fn validate_reserved_dimensions(jpeg: &[u8], width: u32, height: u32) -> (out: Result<
    (),
    String,
>)
    ensures
        match decoder::declared_layout(jpeg@) {
            Ok(info) => match out {
                Ok(_) => info.width == width && info.height == height,
                Err(error) => !(info.width == width && info.height == height) && error@
                    == "JPEG preview dimensions changed during read"@,
            },
            Err(reason) => out is Err && out->Err_0@ == reason,
        },
{
    match jpeg_layout(jpeg) {
        Ok(actual) => if actual.width != width || actual.height != height {
            Err("JPEG preview dimensions changed during read".to_owned())
        } else {
            Ok(())
        },
        Err(error) => Err(error),
    }
}

/// The previews of one photograph, tried from the best down until one decodes.
#[derive(Debug)]
pub struct Attempts {
    pub previews: Vec<EmbeddedPreview>,
    /// How many were tried.
    pub tried: usize,
    pub scale: u32,
    pub last_error: String,
}

/// A preview to be decoded, and the memory that it takes.
#[derive(Clone, Copy, Debug, PartialEq, Eq, Structural)]
pub struct Attempt {
    pub preview: EmbeddedPreview,
    pub original_width: u32,
    pub original_height: u32,
    pub jpeg_bytes: usize,
    pub decoded_bytes: usize,
}

/// How a search for the next preview ends.
pub enum Outlook {
    /// The preview at a position is tried.
    Try(int, Attempt),
    /// A preview is too long for memory.
    TooLong(int),
    /// None is left; why the last one failed.
    Exhausted(Seq<char>),
}

/// The first of some previews, from a position on, whose decoded size is known
/// and bounded.
pub open spec fn outlook(previews: Seq<EmbeddedPreview>, from: int, scale: int, last: Seq<char>) -> Outlook
    decreases previews.len() - from,
{
    if from < 0 || from >= previews.len() {
        Outlook::Exhausted(last)
    } else {
        let preview = previews[from];
        match footprint(preview, scale) {
            Err(reason) => outlook(previews, from + 1, scale, reason),
            Ok((width, height, bytes)) => if preview.length > usize::MAX {
                Outlook::TooLong(from)
            } else {
                Outlook::Try(
                    from,
                    Attempt {
                        preview,
                        original_width: width,
                        original_height: height,
                        jpeg_bytes: preview.length as usize,
                        decoded_bytes: bytes as usize,
                    },
                )
            },
        }
    }
}

impl Attempts {
    pub fn new(previews: Vec<EmbeddedPreview>, scale: u32) -> (out: Self)
        ensures
            out.previews == previews,
            out.tried == 0,
            out.scale == scale,
            out.last_error@ == "no usable JPEG preview"@,
    {
        Attempts { previews, tried: 0, scale, last_error: "no usable JPEG preview".to_owned() }
    }

    /// The next preview to try. An error ends the load.
    pub fn next(&mut self) -> (out: Result<Attempt, LoadError>)
        requires
            old(self).scale > 0,
            old(self).tried <= old(self).previews@.len(),
        ensures
            final(self).previews == old(self).previews,
            final(self).scale == old(self).scale,
            final(self).tried <= final(self).previews@.len(),
            match outlook(
                old(self).previews@,
                old(self).tried as int,
                old(self).scale as int,
                old(self).last_error@,
            ) {
                Outlook::Try(at, attempt) => out == Ok::<Attempt, LoadError>(attempt)
                    && final(self).tried == at + 1,
                Outlook::TooLong(at) => out is Err && out->Err_0.said() == Some(
                    "JPEG length overflow"@,
                ) && final(self).tried == at + 1,
                Outlook::Exhausted(reason) => out is Err && out->Err_0.said() == Some(reason)
                    && final(self).tried == final(self).previews@.len(),
            },
    {
        while self.tried < self.previews.len()
            invariant
                self.previews == old(self).previews,
                self.scale == old(self).scale,
                self.scale > 0,
                self.tried <= self.previews@.len(),
                outlook(
                    old(self).previews@,
                    old(self).tried as int,
                    old(self).scale as int,
                    old(self).last_error@,
                ) == outlook(
                    self.previews@,
                    self.tried as int,
                    self.scale as int,
                    self.last_error@,
                ),
            decreases self.previews@.len() - self.tried,
        {
            let preview = self.previews[self.tried];
            self.tried = self.tried + 1;
            match layout(&preview, self.scale) {
                Ok((original_width, original_height, decoded_bytes)) => {
                    if preview.length > usize::MAX as u64 {
                        return Err(LoadError::Failed("JPEG length overflow".to_owned()));
                    }
                    return Ok(
                        Attempt {
                            preview,
                            original_width,
                            original_height,
                            jpeg_bytes: preview.length as usize,
                            decoded_bytes,
                        },
                    );
                },
                Err(error) => {
                    self.last_error = error;
                },
            }
        }
        Err(LoadError::Failed(self.last_error.as_str().to_owned()))
    }

    /// The preview that was asked for last was read into `capacity` bytes of memory,
    /// or was not. Its reservation comes to cover that memory, which ends the load
    /// where the budget has too little left. Says whether there is something to
    /// decode; if not, the next preview is tried.
    pub fn read(
        &mut self,
        jpeg: &mut MemoryLease,
        capacity: usize,
        read: Result<(), String>,
        budget: &mut MemoryBudget,
    ) -> (out: Result<bool, LoadError>)
        ensures
            final(budget).bounded(),
            final(self).previews == old(self).previews,
            final(self).tried == old(self).tried,
            final(self).scale == old(self).scale,
            if capacity > old(jpeg)@ && capacity - old(jpeg)@ > old(budget)@.available() {
                &&& out is Err
                &&& out->Err_0.said() == Some("JPEG allocation exceeded reserved memory"@)
                &&& final(self).last_error@ == old(self).last_error@
                &&& final(jpeg)@ == old(jpeg)@
                &&& final(budget)@ == old(budget)@
            } else {
                &&& final(jpeg)@ == capacity
                &&& final(budget)@ == if capacity <= old(jpeg)@ {
                    old(budget)@.refund(old(jpeg)@ - capacity)
                } else {
                    old(budget)@.charge(capacity - old(jpeg)@)
                }
                &&& match read {
                    Ok(()) => {
                        &&& out == Ok::<bool, LoadError>(true)
                        &&& final(self).last_error@ == old(self).last_error@
                    },
                    Err(error) => {
                        &&& out == Ok::<bool, LoadError>(false)
                        &&& final(self).last_error@ == error@
                    },
                }
            },
    {
        if !jpeg.resize(budget, capacity) {
            return Err(LoadError::Failed("JPEG allocation exceeded reserved memory".to_owned()));
        }
        match read {
            Ok(()) => Ok(true),
            Err(error) => {
                self.last_error = error;
                Ok(false)
            },
        }
    }

    /// The preview that was tried last did not decode.
    pub fn failed(&mut self, error: String)
        ensures
            final(self).last_error@ == error@,
            final(self).previews == old(self).previews,
            final(self).tried == old(self).tried,
            final(self).scale == old(self).scale,
    {
        self.last_error = error;
    }
}

/// Why no preview was found, with what was noticed on the way.
pub fn discovery_failure(error: String, warnings: &Vec<String>) -> (out: String)
    ensures
        out@ == if text::joined(text::texts(warnings@), "; "@).len() == 0 {
            error@
        } else {
            error@ + ": "@ + text::joined(text::texts(warnings@), "; "@)
        },
{
    let all = text::join(warnings, "; ");
    if all.as_str().is_empty() {
        error
    } else {
        error.concat(": ").concat(all.as_str())
    }
}

/// The loader that both workers and the window share.
#[derive(Debug)]
pub struct ImageLoader<P> {
    pub config: LoaderConfig,
    pub state: State<P>,
}

impl Stock {
    /// With every waiter told to look again.
    pub open spec fn woken(self) -> Stock {
        Stock {
            budget: Budget { epoch: self.budget.epoch.wrapping_add(1), ..self.budget },
            ..self
        }
    }
}

/// Images can be decoded whole, or at a half, a fourth or an eighth of the size.
pub open spec fn scalable(scale: u32) -> bool {
    scale == 1 || scale == 2 || scale == 4 || scale == 8
}

impl<P: Identity> ImageLoader<P> {
    /// The budget covers the cache, nothing is being decoded twice, and images
    /// can be decoded at the size that is set.
    pub open spec fn sound(&self, budget: &MemoryBudget) -> bool {
        self.state.sound(budget) && scalable(self.config.decode_scale)
    }

    pub fn new(config: LoaderConfig) -> (out: Result<Self, String>)
        ensures
            match out {
                Ok(loader) => {
                    &&& scalable(config.decode_scale)
                    &&& loader.config == config
                    &&& loader.state.plan().sound()
                    &&& loader.state.plan() == (Plan {
                        session: 0,
                        generation: 0,
                        files: Seq::<P::Key>::empty(),
                        target: None,
                        wanted: Seq::empty(),
                        foreground: None,
                        prefetch: Seq::empty(),
                        inflight: Seq::empty(),
                        foreground_running: false,
                        prefetch_paused: true,
                        current_available: false,
                        current_gpu_cached: false,
                        gpu_cached: Seq::empty(),
                        shutdown: false,
                    })
                    &&& loader.state.cache.entries@.len() == 0
                    &&& loader.state.cache.detached@.len() == 0
                    &&& loader.state.cache.clock == 0
                },
                Err(error) => !scalable(config.decode_scale) && error@
                    == "JPEG scale denominator must be 1, 2, 4, or 8"@,
            },
    {
        let scale: u32 = config.decode_scale;
        if !(scale == 1 || scale == 2 || scale == 4 || scale == 8) {
            return Err("JPEG scale denominator must be 1, 2, 4, or 8".to_owned());
        }
        Ok(ImageLoader { config, state: State::new() })
    }

    /// Takes up another list of photographs.
    pub fn set_files(&mut self, session: u64, files: Vec<P>, budget: &mut MemoryBudget)
        requires
            old(self).sound(old(budget)),
        ensures
            final(self).sound(final(budget)),
            final(self).config == old(self).config,
            final(self).state.plan() == old(self).state.plan().listing(session, path::keys(files@)),
            final(self).state.stock(final(budget)).elsewhere() == old(self).state.stock(
                old(budget),
            ).elsewhere(),
            exists|now: Stock|
                final(self).state.stock(final(budget)) == #[trigger] now.woken() && cache::followed(
                    old(self).state.stock(old(budget)),
                    path::keys(old(self).state.files@),
                    path::keys(files@),
                    now,
                ),
    {
        self.state.set_files(session, files, budget);
        let ghost now = self.state.stock(budget);
        budget.wake_waiters();
        assert(self.state.stock(budget) == now.woken());
    }

    /// Asks for a photograph.
    pub fn request(
        &mut self,
        index: usize,
        generation: u64,
        direction: Direction,
        budget: &mut MemoryBudget,
    ) -> (out: Option<LoaderEvent>)
        requires
            old(self).sound(old(budget)),
        ensures
            final(self).sound(final(budget)),
            final(self).config == old(self).config,
            ({
                let (plan, stock, event) = navigated(
                    old(self).state.plan(),
                    old(self).state.stock(old(budget)),
                    old(self).config,
                    index,
                    generation,
                    direction,
                    false,
                );
                &&& final(self).state.plan() == plan
                &&& final(self).state.stock(final(budget)) == stock.woken()
                &&& out == event
            }),
    {
        let event = self.state.navigate(&self.config, index, generation, direction, false, budget);
        budget.wake_waiters();
        event
    }

    /// Asks for a photograph that has a texture: only its neighbours are loaded.
    pub fn request_cached(
        &mut self,
        index: usize,
        generation: u64,
        direction: Direction,
        budget: &mut MemoryBudget,
    ) -> (out: Option<LoaderEvent>)
        requires
            old(self).sound(old(budget)),
        ensures
            final(self).sound(final(budget)),
            final(self).config == old(self).config,
            ({
                let (plan, stock, event) = navigated(
                    old(self).state.plan(),
                    old(self).state.stock(old(budget)),
                    old(self).config,
                    index,
                    generation,
                    direction,
                    true,
                );
                &&& final(self).state.plan() == plan
                &&& final(self).state.stock(final(budget)) == stock.woken()
                &&& out is None
                &&& event is None
            }),
    {
        let event = self.state.navigate(&self.config, index, generation, direction, true, budget);
        budget.wake_waiters();
        event
    }

    /// The decoded image of a photograph. The caller holds it until it lets go.
    pub fn get(&mut self, index: usize) -> (out: Option<u64>)
        requires
            cache::one_each(old(self).state.cache.entries@),
            forall|i: int|
                cache::at(old(self).state.cache.entries@, index, i)
                    ==> old(self).state.cache.entries@[i].holders < usize::MAX,
        ensures
            final(self).config == old(self).config,
            final(self).state.plan() == old(self).state.plan(),
            final(self).state.cache.detached@ == old(self).state.cache.detached@,
            !cache::cached(old(self).state.cache.entries@, index) ==> out is None
                && final(self).state.cache.entries@ == old(self).state.cache.entries@,
            forall|i: int|
                cache::at(old(self).state.cache.entries@, index, i) ==> {
                    let e = old(self).state.cache.entries@[i];
                    &&& out == Some(e.image.id)
                    &&& final(self).state.cache.entries@ == old(
                        self,
                    ).state.cache.entries@.update(
                        i,
                        cache::Entry {
                            holders: (e.holders + 1) as usize,
                            touched: cache::later(old(self).state.cache.clock),
                            ..e
                        },
                    )
                },
    {
        self.state.cache.get(index)
    }

    /// Notes which photographs have a texture.
    pub fn set_gpu_cached(&mut self, indices: &Vec<usize>, budget: &mut MemoryBudget)
        requires
            old(self).sound(old(budget)),
        ensures
            final(self).sound(final(budget)),
            final(self).config == old(self).config,
            final(self).state.plan() == old(self).state.plan().uploaded(
                indices@,
                final(self).state.cache.entries@,
            ),
            final(self).state.stock(final(budget)) == old(self).state.stock(old(budget)).stripped(
                final(self).state.gpu_cached@,
                final(self).state.gpu_cached@.len() as int,
            ).woken(),
    {
        self.state.set_gpu_cached(indices, budget);
        budget.wake_waiters();
    }

    /// Drops a decoded image that the GPU has taken over. An upload that still
    /// holds it keeps its memory.
    pub fn discard(&mut self, index: usize, budget: &mut MemoryBudget)
        requires
            old(self).sound(old(budget)),
        ensures
            final(self).sound(final(budget)),
            final(self).config == old(self).config,
            final(self).state.plan() == old(self).state.plan(),
            final(self).state.stock(final(budget)) == old(self).state.stock(old(budget)).forgetting(
                index,
            ).woken(),
    {
        proof {
            let entries = self.state.cache.entries@;
            if cache::cached(entries, index) {
                let i = choose|i: int| cache::at(entries, index, i);
                assert(cache::at(entries, index, i));
            }
        }
        self.state.cache.remove(index, budget);
        budget.wake_waiters();
    }

    /// Lets speculative decodes go on, once the photograph on screen has its
    /// texture. Until then the memory that an upload needs is left free.
    pub fn resume_prefetch(&mut self, budget: &mut MemoryBudget)
        requires
            old(self).sound(old(budget)),
        ensures
            final(self).sound(final(budget)),
            final(self).config == old(self).config,
            final(self).state.plan() == (Plan {
                prefetch_paused: false,
                ..old(self).state.plan()
            }).requeued(old(self).state.cache.entries@),
            final(self).state.stock(final(budget)) == old(self).state.stock(old(budget)).woken(),
    {
        self.state.prefetch_paused = false;
        self.state.rebuild_prefetch();
        budget.wake_waiters();
    }

    /// Frees some memory of decoded images, but not that of the photograph on
    /// screen, and pauses speculative decodes. Returns what was freed.
    pub fn evict_bytes(&mut self, bytes: usize, budget: &mut MemoryBudget) -> (out: usize)
        requires
            old(self).sound(old(budget)),
        ensures
            final(self).sound(final(budget)),
            final(self).config == old(self).config,
            final(self).state.plan() == (Plan {
                prefetch_paused: true,
                ..old(self).state.plan()
            }),
            ({
                let (stock, freed) = old(self).state.stock(old(budget)).evicted(
                    old(self).state.target,
                    bytes as int,
                    0,
                );
                out == freed && final(self).state.stock(final(budget)) == stock.woken()
            }),
    {
        self.state.prefetch_paused = true;
        let keep = self.state.target;
        let freed: usize = self.state.cache.evict_bytes(bytes, keep, budget);
        budget.wake_waiters();
        freed
    }

    /// Frees every decoded image but one, and pauses speculative decodes.
    /// Returns what was freed.
    pub fn evict_all_except(&mut self, keep: Option<usize>, budget: &mut MemoryBudget) -> (out:
        usize)
        requires
            old(self).sound(old(budget)),
        ensures
            final(self).sound(final(budget)),
            final(self).config == old(self).config,
            final(self).state.plan() == (Plan {
                prefetch_paused: true,
                ..old(self).state.plan()
            }),
            ({
                let (stock, freed) = old(self).state.stock(old(budget)).evicted(
                    keep,
                    usize::MAX as int,
                    0,
                );
                out == freed && final(self).state.stock(final(budget)) == stock.woken()
            }),
    {
        self.state.prefetch_paused = true;
        let freed: usize = self.state.cache.evict_all_except(keep, budget);
        budget.wake_waiters();
        freed
    }

    /// Frees decoded images, but not that of the photograph on screen, until
    /// some memory is available. Says whether it is.
    pub fn evict_for(&mut self, bytes: usize, budget: &mut MemoryBudget) -> (out: bool)
        requires
            old(self).sound(old(budget)),
        ensures
            final(self).sound(final(budget)),
            final(self).config == old(self).config,
            final(self).state.plan() == (Plan {
                prefetch_paused: true,
                ..old(self).state.plan()
            }),
            out == (bytes <= final(budget)@.available()),
            ({
                let (stock, enough) = old(self).state.stock(old(budget)).evicted_for(
                    old(self).state.target,
                    bytes as int,
                );
                out == enough && final(self).state.stock(final(budget)) == stock.woken()
            }),
    {
        self.state.prefetch_paused = true;
        let keep = self.state.target;
        let available = self.state.cache.evict_for(bytes, keep, budget);
        budget.wake_waiters();
        available
    }
}

/// All photographs that are worth having and still missing are decoded ahead of need,
/// in the order in which they are wanted.
pub proof fn law_neighbours_are_decoded_in_order<K>(
    plan: Plan<K>,
    entries: Seq<cache::Entry>,
    n: int,
) -> (positions: Seq<int>)
    requires
        0 <= n <= plan.wanted.len(),
    ensures
        ({
            let queue = plan.queue(entries, n);
            &&& positions.len() == queue.len()
            &&& forall|i: int|
                #![trigger positions[i]]
                0 <= i < positions.len() ==> 0 <= positions[i] < n && queue[i].index
                    == plan.wanted[positions[i]] && queue[i].session == plan.session
                    && queue[i].generation == plan.generation && queue[i].role == Role::Speculative
            &&& forall|i: int, j: int|
                0 <= i < j < positions.len() ==> #[trigger] positions[i] < #[trigger] positions[j]
            &&& forall|k: int|
                #![trigger plan.wanted[k]]
                0 <= k < n && plan.target != Some(plan.wanted[k]) && !cache::cached(
                    entries,
                    plan.wanted[k],
                ) && !plan.gpu_cached.contains(plan.wanted[k]) && !plan.inflight.contains(
                    (plan.session, plan.wanted[k]),
                ) ==> positions.contains(k)
        }),
    decreases n,
{
    if n <= 0 {
        Seq::empty()
    } else {
        let before = law_neighbours_are_decoded_in_order(plan, entries, n - 1);
        if plan.missing(entries, plan.wanted[n - 1]) {
            let out = before.push(n - 1);
            assert forall|k: int|
                #![trigger plan.wanted[k]]
                0 <= k < n && plan.target != Some(plan.wanted[k]) && !cache::cached(
                    entries,
                    plan.wanted[k],
                ) && !plan.gpu_cached.contains(plan.wanted[k]) && !plan.inflight.contains(
                    (plan.session, plan.wanted[k]),
                ) implies out.contains(k) by {
                if k < n - 1 {
                    assert(before.contains(k));
                    let w = choose|w: int| 0 <= w < before.len() && before[w] == k;
                    assert(out[w] == k);
                } else {
                    assert(out[before.len() as int] == k);
                }
            }
            out
        } else {
            before
        }
    }
}

/// A photograph that is to be shown is decoded at once, unless it is at hand; it is
/// wanted most, then what comes next.
pub proof fn law_what_is_shown_is_decoded_first<K>(
    plan: Plan<K>,
    config: LoaderConfig,
    index: usize,
    generation: u64,
    direction: Direction,
    gpu_cached: bool,
    entries: Seq<cache::Entry>,
)
    requires
        index < plan.files.len() <= usize::MAX,
        config.ahead >= 1,
    ensures
        ({
            let next = plan.targeted(config, index, generation, direction, gpu_cached, entries);
            &&& next.target == Some(index)
            &&& next.generation == generation
            &&& next.session == plan.session
            &&& next.files == plan.files
            &&& next.wanted[0] == index
            &&& direction == Direction::Forward && index + 1 < plan.files.len() ==> next.wanted[1]
                == index + 1
            &&& direction == Direction::Backward && index > 0 ==> next.wanted[1] == index - 1
            &&& gpu_cached || cache::cached(entries, index) ==> next.foreground is None
                && next.current_available
            &&& !gpu_cached && !cache::cached(entries, index) ==> next.foreground == Some(
                Task { session: plan.session, generation, index, role: Role::Foreground },
            ) && !next.current_available
        }),
{
    prefetch::law_plans_begin_with_what_comes_next(
        index,
        plan.files.len() as usize,
        direction,
        config.ahead,
        config.behind,
        1,
    );
}

/// A worker begins with what the screen waits for; a speculative one with the first
/// of the queue that is still worth it, and only if the screen waits for nothing.
pub proof fn law_workers_take_what_is_worth_it<K>(
    plan: Plan<K>,
    entries: Seq<cache::Entry>,
    i: int,
)
    ensures
        plan.foreground is Some && plan.startable(entries, plan.foreground->0) ==> plan.polled(
            entries,
            Role::Foreground,
        ).1 == plan.foreground,
        !plan.prefetch_paused && plan.current_available && plan.foreground is None
            && !plan.foreground_running && 0 <= i < plan.prefetch.len() && plan.startable(
            entries,
            plan.prefetch[i],
        ) && (forall|j: int| 0 <= j < i ==> !plan.startable(entries, #[trigger] plan.prefetch[j]))
            ==> plan.polled(entries, Role::Speculative).1 == Some(plan.prefetch[i]),
        plan.prefetch_paused || !plan.current_available || plan.foreground is Some
            || plan.foreground_running ==> plan.polled(entries, Role::Speculative).1 is None,
    decreases plan.prefetch.len(),
{
    if plan.foreground is Some {
        let task = plan.foreground->0;
        let rest = Plan { foreground: None, ..plan };
        if plan.startable(entries, task) {
            assert(rest.startable(entries, task));
        }
    }
    if plan.idle() && 0 <= i < plan.prefetch.len() && plan.startable(entries, plan.prefetch[i]) && (
    forall|j: int| 0 <= j < i ==> !plan.startable(entries, #[trigger] plan.prefetch[j])) {
        let rest = Plan { prefetch: plan.prefetch.skip(1), ..plan };
        assert forall|task: Task| rest.startable(entries, task) == plan.startable(entries, task) by {
        }
        if i > 0 {
            assert(!plan.startable(entries, plan.prefetch[0]));
            assert(rest.prefetch[i - 1] == plan.prefetch[i]);
            assert forall|j: int| 0 <= j < i - 1 implies !rest.startable(
                entries,
                #[trigger] rest.prefetch[j],
            ) by {
                assert(rest.prefetch[j] == plan.prefetch[j + 1]);
            }
            law_workers_take_what_is_worth_it(rest, entries, i - 1);
        }
    }
}

/// Of the previews of a photograph, which are listed best first, the first is decoded
/// whose size is known and fits in 256 megabytes; it takes four bytes a pixel, at the
/// part of its size that is asked for.
pub proof fn law_the_best_preview_that_fits_is_decoded(
    previews: Seq<EmbeddedPreview>,
    from: int,
    i: int,
    scale: int,
    last: Seq<char>,
)
    requires
        0 <= from <= i < previews.len(),
        scale > 0,
        previews[i].width is Some,
        previews[i].height is Some,
        previews[i].length <= usize::MAX,
        decoder::reduced(previews[i].width->0 as int, scale) * decoder::reduced(
            previews[i].height->0 as int,
            scale,
        ) * 4 <= 268435456,
        forall|k: int|
            from <= k < i ==> (#[trigger] previews[k]).width is None || previews[k].height is None
                || decoder::reduced(previews[k].width->0 as int, scale) * decoder::reduced(
                previews[k].height->0 as int,
                scale,
            ) * 4 > 268435456,
    ensures
        ({
            let out = outlook(previews, from, scale, last);
            let (w, h) = (
                decoder::reduced(previews[i].width->0 as int, scale),
                decoder::reduced(previews[i].height->0 as int, scale),
            );
            &&& out matches Outlook::Try(at, attempt) && at == i && attempt.preview == previews[i]
                && attempt.original_width == previews[i].width->0 && attempt.original_height
                == previews[i].height->0 && attempt.jpeg_bytes == previews[i].length
                && attempt.decoded_bytes == (w * h * 4) as usize
        }),
    decreases i - from,
{
    if from < i {
        assert(previews[from].width is None || previews[from].height is None || decoder::reduced(
            previews[from].width->0 as int,
            scale,
        ) * decoder::reduced(previews[from].height->0 as int, scale) * 4 > 268435456);
        law_the_best_preview_that_fits_is_decoded(
            previews,
            from + 1,
            i,
            scale,
            footprint(previews[from], scale)->Err_0,
        );
    }
}

/// An image that was decoded for the screen is cached and announced, for the request
/// at hand; a failure is announced too, and what nobody wants any more is not.
pub proof fn law_decoded_images_are_announced<K>(
    plan: Plan<K>,
    stock: Stock,
    config: LoaderConfig,
    task: Task,
    image: DecodedImage,
    timings: LoadTimings,
    clock: u64,
)
    requires
        plan.target == Some(task.index),
    ensures
        ({
            let (next, now, event) = finished(
                plan,
                stock,
                config,
                task,
                Ok((image, timings)),
                clock,
            );
            let useful = plan.ended(task).relevant(task);
            &&& useful ==> {
                &&& event matches Some(LoaderEvent::Ready { session, index, generation, .. })
                    && session == plan.session && index == task.index && generation
                    == plan.generation
                &&& next.current_available
                &&& cache::cached(now.entries, task.index)
            }
            &&& !useful ==> event is None && now.entries == stock.entries
        }),
{
    let ended = plan.ended(task);
    if ended.relevant(task) {
        let full = stock.stored(task.index, image, clock, task.role == Role::Speculative);
        let entry = cache::Entry {
            index: task.index,
            image,
            holders: 0,
            touched: clock,
            prefetched: task.role == Role::Speculative,
        };
        assert(full.entries[full.entries.len() - 1] == entry);
        assert(full.entries.contains(entry));
        cache::law_trimming_drops_the_least_recently_used(
            full,
            ended.target,
            config.cpu_cache_bytes as int,
            entry,
            entry,
        );
        let now = full.trimmed(ended.target, config.cpu_cache_bytes as int);
        let i = choose|i: int| 0 <= i < now.entries.len() && now.entries[i] == entry;
        assert(cache::at(now.entries, task.index, i));
    }
}

/// Culling keeps the entries that are to be kept, and those behind.
proof fn lemma_culled(stock: Stock, keep: Seq<bool>, n: int, index: usize)
    requires
        0 <= n <= stock.entries.len(),
    ensures
        cache::cached(stock.culled(keep, n).entries, index) <==> exists|k: int| #[trigger]
            cache::at(stock.entries, index, k) && (k >= n || keep[k]),
    decreases n,
{
    if n > 0 {
        if keep[n - 1] {
            lemma_culled(stock, keep, n - 1, index);
        } else {
            let rest = stock.without(n - 1);
            assert(rest.entries == stock.entries.remove(n - 1));
            lemma_culled(rest, keep, n - 1, index);
            if exists|k: int| #[trigger]
                cache::at(stock.entries, index, k) && (k >= n || keep[k]) {
                let k = choose|k: int| #[trigger]
                    cache::at(stock.entries, index, k) && (k >= n || keep[k]);
                let j = if k >= n {
                    k - 1
                } else {
                    k
                };
                assert(cache::at(rest.entries, index, j));
            }
            if exists|j: int| #[trigger]
                cache::at(rest.entries, index, j) && (j >= n - 1 || keep[j]) {
                let j = choose|j: int| #[trigger]
                    cache::at(rest.entries, index, j) && (j >= n - 1 || keep[j]);
                let k = if j >= n - 1 {
                    j + 1
                } else {
                    j
                };
                assert(cache::at(stock.entries, index, k));
            }
        }
    }
}

/// When another photograph is asked for, its image and those read ahead around it stay
/// in the cache, and the others go. An image at hand is announced at once, for the new
/// request, unless it is on the GPU. A photograph outside the list changes nothing.
pub proof fn law_images_around_the_photograph_are_kept<K>(
    plan: Plan<K>,
    stock: Stock,
    config: LoaderConfig,
    index: usize,
    generation: u64,
    direction: Direction,
    gpu_cached: bool,
    other: usize,
)
    ensures
        ({
            let (next, now, event) = navigated(
                plan,
                stock,
                config,
                index,
                generation,
                direction,
                gpu_cached,
            );
            &&& index >= plan.files.len() ==> next == plan && now == stock && event is None
            &&& index < plan.files.len() ==> {
                &&& next.target == Some(index)
                &&& next.generation == generation
                &&& next.files == plan.files
                &&& cache::cached(now.entries, other) <==> cache::cached(stock.entries, other) && (
                other == index || prefetch::planned(
                    index,
                    plan.files.len() as usize,
                    direction,
                    config.ahead,
                    config.behind,
                ).contains(other))
                &&& event is Some <==> cache::cached(stock.entries, index) && !gpu_cached
                &&& event matches Some(e) ==> {
                    &&& e matches LoaderEvent::Ready { session, index: at, generation: of, timings, .. }
                    &&& session == plan.session
                    &&& at == index
                    &&& of == generation
                    &&& timings.cache_hit
                }
            }
        }),
{
    if index < plan.files.len() {
        let wanted = plan.worth(config, index, direction);
        let ahead = prefetch::planned(
            index,
            plan.files.len() as usize,
            direction,
            config.ahead,
            config.behind,
        );
        assert(wanted[0] == index);
        assert forall|x: usize| wanted.contains(x) <==> x == index || ahead.contains(x) by {
            if ahead.contains(x) {
                let k = choose|k: int| 0 <= k < ahead.len() && ahead[k] == x;
                assert(wanted[k + 1] == x);
            }
            if wanted.contains(x) && x != index {
                let k = choose|k: int| 0 <= k < wanted.len() && wanted[k] == x;
                assert(ahead[k - 1] == x);
            }
        }
        let keep = stock.among(wanted);
        let n = stock.entries.len() as int;
        let kept = stock.culled(keep, n);
        lemma_culled(stock, keep, n, other);
        lemma_culled(stock, keep, n, index);
        if cache::cached(stock.entries, index) {
            let k = choose|k: int| cache::at(stock.entries, index, k);
            assert(cache::at(stock.entries, index, k) && keep[k]);
        }
        if cache::cached(stock.entries, other) && wanted.contains(other) {
            let k = choose|k: int| cache::at(stock.entries, other, k);
            assert(cache::at(stock.entries, other, k) && keep[k]);
        }
        let i = choose|i: int| cache::at(kept.entries, index, i);
        let marked = kept.noticed(index);
        if cache::cached(kept.entries, index) {
            assert(cache::at(kept.entries, index, i));
            if cache::cached(kept.entries, other) {
                let k = choose|k: int| cache::at(kept.entries, other, k);
                assert(cache::at(marked.entries, other, k));
            }
            if cache::cached(marked.entries, other) {
                let k = choose|k: int| cache::at(marked.entries, other, k);
                assert(cache::at(kept.entries, other, k));
            }
        }
    }
}

/// A speculative decode displaces only images that nobody holds and that are wanted
/// later than it, and none as long as there is room.
pub proof fn law_speculation_displaces_what_is_wanted_later(
    stock: Stock,
    config: LoaderConfig,
    wanted: Seq<usize>,
    index: usize,
    required: int,
    decoded: int,
    gone: cache::Entry,
)
    ensures
        ({
            let (now, room) = stock.cleared(config, wanted, index, required, decoded);
            &&& room ==> cache::entry_bytes(now.entries) + decoded <= config.cpu_cache_bytes
                && required <= now.budget.available()
            &&& cache::entry_bytes(stock.entries) + decoded <= config.cpu_cache_bytes && required
                <= stock.budget.available() ==> now == stock && room
            &&& stock.entries.contains(gone) && !now.entries.contains(gone) ==> {
                &&& gone.holders == 0
                &&& wanted.contains(index)
                &&& forall|k: int|
                    0 <= k < wanted.len() && #[trigger] wanted[k] == gone.index ==> exists|j: int|
                        0 <= j < k && #[trigger] wanted[j] == index
            }
        }),
    decreases stock.entries.len(),
{
    stock.lemma_yielding(wanted, index);
    path::lemma_first_position(wanted, index);
    path::lemma_first_position(wanted, gone.index);
    if !stock.roomy(config, required, decoded) {
        if let Some(i) = stock.yielding(wanted, index) {
            let than = path::first_position(wanted, index)->0;
            assert(stock.least_wanted(wanted, than, i));
            assert(stock.less_wanted(wanted, than, i));
            let rest = stock.without(i);
            assert(rest.entries == stock.entries.remove(i));
            if stock.entries[i] == gone {
                assert(wanted[than] == index);
                assert forall|k: int| 0 <= k < wanted.len() && #[trigger] wanted[k]
                    == gone.index implies exists|j: int|
                    0 <= j < k && #[trigger] wanted[j] == index by {
                    assert(than < k);
                }
            } else if stock.entries.contains(gone) {
                let k = choose|k: int| 0 <= k < stock.entries.len() && stock.entries[k] == gone;
                assert(rest.entries[if k < i {
                    k
                } else {
                    k - 1
                }] == gone);
            }
            if stock.entries[i].image.size() != 0 {
                law_speculation_displaces_what_is_wanted_later(
                    rest,
                    config,
                    wanted,
                    index,
                    required,
                    decoded,
                    gone,
                );
                assert(stock.cleared(config, wanted, index, required, decoded) == rest.cleared(
                    config,
                    wanted,
                    index,
                    required,
                    decoded,
                ));
            }
        }
    }
}

} // verus!
