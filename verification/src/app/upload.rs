//! What is uploaded to the GPU next.
//!
//! One worker uploads photographs and thumbnails. A photograph always goes
//! first; an upload that was begun ahead of need is kept when its photograph is
//! asked for.
use crate::app::textures::Texture;
use crate::path;
use crate::path::Identity;
use vstd::prelude::*;

verus! {

/// Milliseconds for which an upload waits for memory.
pub const BUDGET_PATIENCE: u64 = 3000;

/// A photograph to be uploaded. Its image is held until the job is handed back.
#[derive(Debug)]
pub struct Job<P> {
    pub session: u64,
    pub generation: u64,
    pub path: P,
    pub image: u64,
    pub orientation: u16,
}

/// What a `Job` says.
pub struct Load<K> {
    pub session: u64,
    pub generation: u64,
    pub key: K,
    pub image: u64,
    pub orientation: u16,
}

impl<P: Identity> View for Job<P> {
    type V = Load<P::Key>;

    open spec fn view(&self) -> Load<P::Key> {
        Load {
            session: self.session,
            generation: self.generation,
            key: self.path.key(),
            image: self.image,
            orientation: self.orientation,
        }
    }
}

/// A photograph that was uploaded, or not.
#[derive(Debug)]
pub struct Finished<P> {
    pub session: u64,
    pub generation: u64,
    pub path: P,
    pub result: Result<Texture, String>,
}

/// A thumbnail to be uploaded.
#[derive(Debug)]
pub struct ThumbJob<P> {
    pub session: u64,
    pub serial: u64,
    pub index: usize,
    pub path: P,
    pub image: u64,
    pub orientation: u16,
}

/// A thumbnail that was uploaded, or not.
#[derive(Debug)]
pub struct ThumbFinished<P> {
    pub session: u64,
    pub serial: u64,
    pub index: usize,
    pub path: P,
    /// The image that is no longer held.
    pub image: u64,
    pub result: Result<Texture, String>,
    /// The thumbnail was put off, and not tried again.
    pub deferred: bool,
}

impl<P> ThumbFinished<P> {
    pub fn new(job: ThumbJob<P>, result: Result<Texture, String>, deferred: bool) -> (out: Self)
        ensures
            out == (ThumbFinished {
                session: job.session,
                serial: job.serial,
                index: job.index,
                path: job.path,
                image: job.image,
                result,
                deferred,
            }),
    {
        ThumbFinished {
            session: job.session,
            serial: job.serial,
            index: job.index,
            path: job.path,
            image: job.image,
            result,
            deferred,
        }
    }

    /// Whether a report says that a thumbnail was put off, and why.
    pub open spec fn skips(self, job: ThumbJob<P>, reason: Seq<char>) -> bool {
        &&& self.session == job.session
        &&& self.serial == job.serial
        &&& self.index == job.index
        &&& self.path == job.path
        &&& self.image == job.image
        &&& self.deferred
        &&& self.result is Err
        &&& self.result->Err_0@ == reason
    }

    pub fn skipped(job: ThumbJob<P>, reason: &str) -> (out: Self)
        ensures
            out.skips(job, reason@),
    {
        ThumbFinished::new(job, Err(reason.to_owned()), true)
    }
}

/// A thumbnail that waits, and the plan that it belongs to.
#[derive(Debug)]
pub struct QueuedThumbnail<P> {
    pub job: ThumbJob<P>,
    pub epoch: u64,
}

#[derive(Debug)]
pub enum Work<P> {
    Photo(Job<P>),
    Thumbnail(QueuedThumbnail<P>),
}

/// What waits, what is under way and what was done.
#[derive(Debug)]
pub struct State<P> {
    pub pending: Option<Job<P>>,
    pub running: Option<(u64, P)>,
    /// The photograph on screen: its list, itself and the request for it.
    pub target: Option<(u64, P, u64)>,
    /// Uploads that the window was told of and has not taken over yet.
    pub completed: Vec<(u64, P, u64)>,
    pub thumbnail: Option<QueuedThumbnail<P>>,
    pub thumbnail_epoch: u64,
    pub thumbnail_plan: Option<(u64, u64)>,
    pub stop: bool,
}

/// What a `State` says.
#[verifier::ext_equal]
pub struct Bench<P: Identity> {
    pub pending: Option<Load<P::Key>>,
    pub running: Option<(u64, P::Key)>,
    pub target: Option<(u64, P::Key, u64)>,
    pub completed: Seq<(u64, P::Key, u64)>,
    pub thumbnail: Option<QueuedThumbnail<P>>,
    pub thumbnail_epoch: u64,
    pub thumbnail_plan: Option<(u64, u64)>,
    pub stop: bool,
}

/// The list and the photograph of some uploads.
pub open spec fn uploads<K>(completed: Seq<(u64, K, u64)>) -> Seq<(u64, K)> {
    completed.map_values(|c: (u64, K, u64)| (c.0, c.1))
}

impl<P: Identity> View for State<P> {
    type V = Bench<P>;

    open spec fn view(&self) -> Bench<P> {
        Bench {
            pending: match self.pending {
                Some(job) => Some(job@),
                None => None,
            },
            running: match self.running {
                Some((session, p)) => Some((session, p.key())),
                None => None,
            },
            target: match self.target {
                Some((session, p, generation)) => Some((session, p.key(), generation)),
                None => None,
            },
            completed: self.completed@.map_values(|c: (u64, P, u64)| (c.0, c.1.key(), c.2)),
            thumbnail: self.thumbnail,
            thumbnail_epoch: self.thumbnail_epoch,
            thumbnail_plan: self.thumbnail_plan,
            stop: self.stop,
        }
    }
}

impl<P: Identity> Bench<P> {
    /// Whether an upload is known to be done.
    pub open spec fn done(self, session: u64, key: P::Key) -> Option<int> {
        path::first_position(uploads(self.completed), (session, key))
    }

    /// No upload is noted twice.
    pub open spec fn sound(self) -> bool {
        uploads(self.completed).no_duplicates()
    }

    /// Whether an upload is still of use: it is for the request at hand, or of
    /// the photograph on screen.
    pub open spec fn relevant(self, job: Load<P::Key>) -> bool {
        &&& !self.stop
        &&& self.target matches Some((session, key, generation))
        &&& session == job.session
        &&& generation == job.generation || key == job.key
    }

    /// Whether the upload of a photograph is under way or done.
    pub open spec fn begun(self, session: u64, key: P::Key) -> bool {
        self.running == Some((session, key)) || self.done(session, key) is Some
    }

    /// Whether an upload takes the place of the one that waits.
    pub open spec fn accepts(self, job: Load<P::Key>) -> bool {
        self.relevant(job) && !self.begun(job.session, job.key)
    }

    /// Whether the upload that waits is that of a photograph.
    pub open spec fn awaits(self, session: u64, key: P::Key) -> bool {
        &&& self.pending matches Some(job)
        &&& job.session == session
        &&& job.key == key
    }

    /// With another photograph on screen. What waits is kept only if it is that
    /// photograph.
    pub open spec fn retargeted(self, session: u64, key: P::Key, generation: u64) -> Bench<P> {
        Bench {
            target: Some((session, key, generation)),
            pending: if self.awaits(session, key) {
                Some(Load { generation, ..self.pending->0 })
            } else {
                None
            },
            ..self
        }
    }

    /// The request that an upload is announced for.
    pub open spec fn served(self, job: Load<P::Key>) -> u64 {
        match self.target {
            Some((session, key, generation)) => if session == job.session && key == job.key {
                generation
            } else {
                job.generation
            },
            None => job.generation,
        }
    }

    /// With an upload noted as done.
    pub open spec fn noted(self, session: u64, key: P::Key, generation: u64) -> Bench<P> {
        Bench {
            completed: match self.done(session, key) {
                Some(i) => self.completed.update(i, (session, key, generation)),
                None => self.completed.push((session, key, generation)),
            },
            ..self
        }
    }

    /// With an upload taken over by the window, if it is the one announced.
    pub open spec fn taken_over(self, session: u64, key: P::Key, generation: u64) -> Bench<P> {
        match self.done(session, key) {
            Some(i) => if self.completed[i].2 == generation {
                Bench { completed: self.completed.remove(i), ..self }
            } else {
                self
            },
            None => self,
        }
    }

    /// Why a thumbnail is not taken up.
    pub open spec fn refusal(self, job: ThumbJob<P>) -> Option<Seq<char>> {
        if self.stop || !(self.target matches Some((session, _, _)) && session == job.session) {
            Some("thumbnail session is no longer active"@)
        } else if self.thumbnail_plan matches Some((session, serial)) && session == job.session
            && serial > job.serial {
            Some("thumbnail plan is stale"@)
        } else {
            None
        }
    }

    /// With a thumbnail waiting, in place of any other. A new plan makes the
    /// thumbnails of the last one useless.
    pub open spec fn thumbed(self, job: ThumbJob<P>) -> Bench<P> {
        let same = self.thumbnail_plan == Some((job.session, job.serial));
        let epoch = if same {
            self.thumbnail_epoch
        } else {
            self.thumbnail_epoch.wrapping_add(1)
        };
        Bench {
            thumbnail_epoch: epoch,
            thumbnail_plan: Some((job.session, job.serial)),
            thumbnail: Some(QueuedThumbnail { job, epoch }),
            ..self
        }
    }

    /// Whether a thumbnail is still of use.
    pub open spec fn thumbnail_relevant(self, queued: QueuedThumbnail<P>) -> bool {
        &&& !self.stop
        &&& queued.epoch == self.thumbnail_epoch
        &&& self.thumbnail_plan == Some((queued.job.session, queued.job.serial))
        &&& self.target matches Some((session, _, _))
        &&& session == queued.job.session
    }

    /// Without thumbnails, waiting or under way.
    pub open spec fn unthumbed(self) -> Bench<P> {
        Bench {
            thumbnail_epoch: self.thumbnail_epoch.wrapping_add(1),
            thumbnail: None,
            ..self
        }
    }
}

/// A photograph goes before a thumbnail, and nothing goes once the worker stops.
pub proof fn law_photographs_go_first<P: Identity>(state: State<P>)
    ensures
        state.stop ==> next_of(state) is None,
        !state.stop && state.pending is Some ==> next_of(state) == Some(
            Work::Photo(state.pending->0),
        ),
{
}

/// An upload of a photograph of another list is never announced.
pub proof fn law_other_lists_are_ignored<P: Identity>(
    bench: Bench<P>,
    session: u64,
    key: P::Key,
    generation: u64,
    job: Load<P::Key>,
)
    requires
        job.session != session,
    ensures
        !bench.retargeted(session, key, generation).relevant(job),
{
}

/// A photograph whose upload is under way, or done and not taken over, is not
/// uploaded again.
pub proof fn law_no_upload_happens_twice<P: Identity>(bench: Bench<P>, job: Load<P::Key>)
    requires
        bench.begun(job.session, job.key),
    ensures
        !bench.accepts(job),
{
}

/// A new plan, or a cancellation, makes the thumbnails of the last plan useless.
pub proof fn law_plans_replace_each_other<P: Identity>(
    bench: Bench<P>,
    queued: QueuedThumbnail<P>,
    job: ThumbJob<P>,
)
    requires
        bench.thumbnail_relevant(queued),
    ensures
        !bench.unthumbed().thumbnail_relevant(queued),
        job.serial != queued.job.serial ==> !bench.thumbed(job).thumbnail_relevant(queued),
{
    assert(bench.thumbnail_epoch.wrapping_add(1) != bench.thumbnail_epoch);
}

/// What the worker does next.
pub open spec fn next_of<P>(state: State<P>) -> Option<Work<P>> {
    if state.stop {
        None
    } else if state.pending is Some {
        Some(Work::Photo(state.pending->0))
    } else {
        match state.thumbnail {
            Some(queued) => Some(Work::Thumbnail(queued)),
            None => None,
        }
    }
}

impl<P: Identity> State<P> {
    pub fn new() -> (out: Self)
        ensures
            out@ == (Bench::<P> {
                pending: None,
                running: None,
                target: None,
                completed: Seq::empty(),
                thumbnail: None,
                thumbnail_epoch: 0,
                thumbnail_plan: None,
                stop: false,
            }),
            out@.sound(),
    {
        let out = State {
            pending: None,
            running: None,
            target: None,
            completed: Vec::new(),
            thumbnail: None,
            thumbnail_epoch: 0,
            thumbnail_plan: None,
            stop: false,
        };
        assert(out@.completed =~= Seq::empty());
        out
    }

    /// The position of an upload that is done.
    fn find(&self, session: u64, p: &P) -> (out: Option<usize>)
        ensures
            match self@.done(session, p.key()) {
                Some(i) => out is Some && out->0 == i && i < self.completed@.len(),
                None => out is None,
            },
    {
        let ghost all = uploads(self@.completed);
        proof {
            path::lemma_first_position(all, (session, p.key()));
        }
        let mut i: usize = 0;
        while i < self.completed.len()
            invariant
                i <= self.completed@.len(),
                all == uploads(self@.completed),
                forall|k: int| 0 <= k < i ==> all[k] != (session, p.key()),
            decreases self.completed@.len() - i,
        {
            assert(all[i as int] == (self.completed@[i as int].0, self.completed@[i as int].1.key()));
            if self.completed[i].0 == session && self.completed[i].1.same(p) {
                proof {
                    assert(path::is_first(all, (session, p.key()), i as int));
                    path::lemma_first_position(all, (session, p.key()));
                }
                return Some(i);
            }
            i += 1;
        }
        proof {
            path::lemma_first_position(all, (session, p.key()));
        }
        None
    }

    fn begun(&self, session: u64, p: &P) -> (out: bool)
        ensures
            out == self@.begun(session, p.key()),
    {
        let running = match &self.running {
            Some((s, q)) => *s == session && q.same(p),
            None => false,
        };
        running || self.find(session, p).is_some()
    }

    /// What the worker does next. A photograph is under way from then on.
    pub fn take_work(&mut self) -> (out: Option<Work<P>>)
        ensures
            out == next_of(*old(self)),
            final(self)@ == match out {
                None => old(self)@,
                Some(Work::Photo(job)) => Bench {
                    pending: None,
                    running: Some((job.session, job.path.key())),
                    ..old(self)@
                },
                Some(Work::Thumbnail(_)) => Bench { thumbnail: None, ..old(self)@ },
            },
    {
        if self.stop {
            return None;
        }
        match self.pending.take() {
            Some(job) => {
                self.running = Some((job.session, job.path.copied()));
                return Some(Work::Photo(job));
            },
            None => {},
        }
        match self.thumbnail.take() {
            Some(queued) => Some(Work::Thumbnail(queued)),
            None => None,
        }
    }

    /// Asks for a thumbnail. One that is refused, or that gives way, is handed
    /// back with the reason.
    pub fn request_thumbnail(&mut self, job: ThumbJob<P>) -> (out: Option<(ThumbJob<P>, &'static str)>)
        ensures
            match old(self)@.refusal(job) {
                Some(reason) => {
                    &&& out is Some
                    &&& (out->0).0 == job
                    &&& (out->0).1@ == reason
                    &&& final(self)@ == old(self)@
                },
                None => {
                    &&& final(self)@ == old(self)@.thumbed(job)
                    &&& match old(self).thumbnail {
                        Some(replaced) => out is Some && (out->0).0 == replaced.job && (out->0).1@
                            == "thumbnail was replaced by newer work"@,
                        None => out is None,
                    }
                },
            },
    {
        let active = match &self.target {
            Some((session, _, _)) => *session == job.session,
            None => false,
        };
        if self.stop || !active {
            return Some((job, "thumbnail session is no longer active"));
        }
        let (stale, same) = match self.thumbnail_plan {
            Some((session, serial)) => (
                session == job.session && serial > job.serial,
                session == job.session && serial == job.serial,
            ),
            None => (false, false),
        };
        if stale {
            return Some((job, "thumbnail plan is stale"));
        }
        if !same {
            self.thumbnail_epoch = self.thumbnail_epoch.wrapping_add(1);
            self.thumbnail_plan = Some((job.session, job.serial));
        }
        let replaced = self.thumbnail.take();
        self.thumbnail = Some(QueuedThumbnail { job, epoch: self.thumbnail_epoch });
        match replaced {
            Some(queued) => Some((queued.job, "thumbnail was replaced by newer work")),
            None => None,
        }
    }

    /// Whether a thumbnail is still of use.
    pub fn thumbnail_relevant(&self, queued: &QueuedThumbnail<P>) -> (out: bool)
        ensures
            out == self@.thumbnail_relevant(*queued),
    {
        let planned = match self.thumbnail_plan {
            Some((session, serial)) => session == queued.job.session && serial == queued.job.serial,
            None => false,
        };
        let active = match &self.target {
            Some((session, _, _)) => *session == queued.job.session,
            None => false,
        };
        !self.stop && queued.epoch == self.thumbnail_epoch && planned && active
    }

    /// Gives up all thumbnails. The one that waited is handed back.
    pub fn cancel_thumbnails(&mut self) -> (out: Option<ThumbJob<P>>)
        ensures
            final(self)@ == old(self)@.unthumbed(),
            final(self).pending == old(self).pending,
            out == match old(self).thumbnail {
                Some(queued) => Some(queued.job),
                None => None,
            },
    {
        self.thumbnail_epoch = self.thumbnail_epoch.wrapping_add(1);
        match self.thumbnail.take() {
            Some(queued) => Some(queued.job),
            None => None,
        }
    }

    /// Whether an upload is still of use.
    pub fn relevant(&self, job: &Job<P>) -> (out: bool)
        ensures
            out == self@.relevant(job@),
    {
        match &self.target {
            Some((session, p, generation)) => !self.stop && *session == job.session && (
            *generation == job.generation || p.same(&job.path)),
            None => false,
        }
    }

    /// Asks for an upload. A job that is not taken up, or that gives way, is
    /// handed back so that its image can be let go.
    pub fn request(&mut self, job: Job<P>) -> (out: Option<Job<P>>)
        ensures
            if old(self)@.accepts(job@) {
                &&& final(self)@ == (Bench { pending: Some(job@), ..old(self)@ })
                &&& out == old(self).pending
            } else {
                &&& final(self)@ == old(self)@
                &&& out == Some(job)
            },
    {
        if !self.relevant(&job) || self.begun(job.session, &job.path) {
            return Some(job);
        }
        let replaced = self.pending.take();
        self.pending = Some(job);
        replaced
    }

    /// Shows another photograph. Says whether its upload waits, is under way or
    /// is done; an upload of another one that waited is handed back.
    pub fn retarget(&mut self, session: u64, p: &P, generation: u64) -> (out: (bool, Option<Job<P>>))
        ensures
            final(self)@ == old(self)@.retargeted(session, p.key(), generation),
            out.0 == (old(self)@.awaits(session, p.key()) || old(self)@.begun(session, p.key())),
            out.1 == if old(self)@.awaits(session, p.key()) {
                None
            } else {
                old(self).pending
            },
    {
        self.target = Some((session, p.copied(), generation));
        let begun = self.begun(session, p);
        match self.pending.take() {
            Some(job) => if job.session == session && job.path.same(p) {
                self.pending = Some(Job { generation, ..job });
                (true, None)
            } else {
                (begun, Some(job))
            },
            None => (begun, None),
        }
    }

    /// Takes in that an upload ended, and says for which request it is
    /// announced, if it is of use.
    pub fn finish(&mut self, job: &Job<P>, successful: bool) -> (out: Option<u64>)
        requires
            old(self)@.sound(),
        ensures
            final(self)@.sound(),
            ({
                let idle = Bench { running: None, ..old(self)@ };
                if idle.relevant(job@) {
                    &&& out == Some(idle.served(job@))
                    &&& final(self)@ == if successful {
                        idle.noted(job.session, job.path.key(), idle.served(job@))
                    } else {
                        idle
                    }
                } else {
                    out is None && final(self)@ == idle
                }
            }),
    {
        self.running = None;
        let ghost idle = self@;
        if !self.relevant(job) {
            return None;
        }
        let generation: u64 = match &self.target {
            Some((session, p, generation)) => if *session == job.session && p.same(&job.path) {
                *generation
            } else {
                job.generation
            },
            None => job.generation,
        };
        if successful {
            let ghost all = uploads(idle.completed);
            proof {
                path::lemma_first_position(all, (job.session, job.path.key()));
            }
            match self.find(job.session, &job.path) {
                Some(i) => {
                    self.completed.set(i, (job.session, job.path.copied(), generation));
                    assert(self@ =~= idle.noted(job.session, job.path.key(), generation));
                    assert(uploads(self@.completed) =~= all);
                },
                None => {
                    self.completed.push((job.session, job.path.copied(), generation));
                    assert(self@ =~= idle.noted(job.session, job.path.key(), generation));
                    assert(uploads(self@.completed) =~= all.push((job.session, job.path.key())));
                },
            }
        }
        Some(generation)
    }

    /// Takes in that the window has the texture that was announced to it.
    pub fn acknowledge(&mut self, session: u64, p: &P, generation: u64)
        requires
            old(self)@.sound(),
        ensures
            final(self)@.sound(),
            final(self)@ == old(self)@.taken_over(session, p.key(), generation),
    {
        let ghost before = self@;
        match self.find(session, p) {
            Some(i) => {
                if self.completed[i].2 == generation {
                    let _ = self.completed.remove(i);
                    assert(self@ =~= before.taken_over(session, p.key(), generation));
                    assert(uploads(self@.completed) =~= uploads(before.completed).remove(i as int));
                }
            },
            None => {},
        }
    }

    /// Forgets every photograph. The upload that waited is handed back.
    pub fn cancel(&mut self) -> (out: Option<Job<P>>)
        ensures
            final(self)@ == (Bench {
                pending: None,
                target: None,
                completed: Seq::empty(),
                ..old(self)@
            }),
            final(self)@.sound(),
            out == old(self).pending,
    {
        let dropped = self.pending.take();
        self.target = None;
        self.completed = Vec::new();
        assert(self@.completed =~= Seq::empty());
        dropped
    }
}

/// What the GPU said about an upload.
#[derive(Debug)]
pub enum Uploaded {
    Texture(Texture),
    /// There is not enough memory yet.
    Short(String),
    Failed(String),
}

/// What a worker does after a try.
#[derive(Debug)]
pub enum Verdict {
    /// Wait a little, and try again.
    Retry,
    /// The worker ends.
    Stopped,
    Done(Result<Texture, String>),
}

/// The uploads of the program.
#[derive(Debug)]
pub struct UploadWorker<P> {
    pub state: State<P>,
}

/// Whether a report answers a thumbnail that was given up.
pub open spec fn reported<P>(
    out: Option<ThumbFinished<P>>,
    given_up: Option<QueuedThumbnail<P>>,
    reason: Seq<char>,
) -> bool {
    match given_up {
        Some(queued) => out is Some && (out->0).skips(queued.job, reason),
        None => out is None,
    }
}

impl<P: Identity> UploadWorker<P> {
    pub fn new() -> (out: Self)
        ensures
            out.state@ == (Bench::<P> {
                pending: None,
                running: None,
                target: None,
                completed: Seq::empty(),
                thumbnail: None,
                thumbnail_epoch: 0,
                thumbnail_plan: None,
                stop: false,
            }),
            out.state@.sound(),
    {
        UploadWorker { state: State::new() }
    }

    /// Asks for an upload. A job that is not taken up, or that gives way, is
    /// handed back.
    pub fn request(&mut self, job: Job<P>) -> (out: Option<Job<P>>)
        ensures
            if old(self).state@.accepts(job@) {
                &&& final(self).state@ == (Bench { pending: Some(job@), ..old(self).state@ })
                &&& out == old(self).state.pending
            } else {
                &&& final(self).state@ == old(self).state@
                &&& out == Some(job)
            },
    {
        self.state.request(job)
    }

    /// Asks for a thumbnail. At most one waits; one that is refused, or that
    /// gives way, is always reported.
    pub fn request_thumbnail(&mut self, job: ThumbJob<P>) -> (out: Option<ThumbFinished<P>>)
        ensures
            match old(self).state@.refusal(job) {
                Some(reason) => out is Some && (out->0).skips(job, reason) && final(self).state@
                    == old(self).state@,
                None => final(self).state@ == old(self).state@.thumbed(job) && reported(
                    out,
                    old(self).state.thumbnail,
                    "thumbnail was replaced by newer work"@,
                ),
            },
    {
        match self.state.request_thumbnail(job) {
            Some((job, reason)) => Some(ThumbFinished::skipped(job, reason)),
            None => None,
        }
    }

    fn give_up(&mut self, reason: &str) -> (out: Option<ThumbFinished<P>>)
        ensures
            final(self).state@ == old(self).state@.unthumbed(),
            reported(out, old(self).state.thumbnail, reason@),
    {
        match self.state.cancel_thumbnails() {
            Some(job) => Some(ThumbFinished::skipped(job, reason)),
            None => None,
        }
    }

    /// Gives up all thumbnails.
    pub fn cancel_thumbnails(&mut self) -> (out: Option<ThumbFinished<P>>)
        ensures
            final(self).state@ == old(self).state@.unthumbed(),
            reported(out, old(self).state.thumbnail, "thumbnail upload canceled"@),
    {
        self.give_up("thumbnail upload canceled")
    }

    /// Forgets everything that waits.
    pub fn cancel(&mut self) -> (out: (Option<Job<P>>, Option<ThumbFinished<P>>))
        ensures
            final(self).state@ == (Bench {
                pending: None,
                target: None,
                completed: Seq::empty(),
                ..old(self).state@
            }).unthumbed(),
            out.0 == old(self).state.pending,
            reported(out.1, old(self).state.thumbnail, "thumbnail upload canceled"@),
    {
        let dropped = self.state.cancel();
        let report = self.give_up("thumbnail upload canceled");
        (dropped, report)
    }

    /// Shows another photograph. Says whether its upload waits, is under way or
    /// is done.
    pub fn retarget(&mut self, session: u64, p: &P, generation: u64) -> (out: (
        bool,
        Option<Job<P>>,
        Option<ThumbFinished<P>>,
    ))
        ensures
            final(self).state@ == old(self).state@.unthumbed().retargeted(
                session,
                p.key(),
                generation,
            ),
            out.0 == (old(self).state@.awaits(session, p.key()) || old(self).state@.begun(
                session,
                p.key(),
            )),
            out.1 == if old(self).state@.awaits(session, p.key()) {
                None
            } else {
                old(self).state.pending
            },
            reported(
                out.2,
                old(self).state.thumbnail,
                "thumbnail upload canceled by navigation"@,
            ),
    {
        let report = match self.state.cancel_thumbnails() {
            Some(job) => Some(
                ThumbFinished::skipped(job, "thumbnail upload canceled by navigation"),
            ),
            None => None,
        };
        let (retained, dropped) = self.state.retarget(session, p, generation);
        (retained, dropped, report)
    }

    /// Takes in that the window has the texture that was announced to it.
    pub fn acknowledge(&mut self, session: u64, p: &P, generation: u64)
        requires
            old(self).state@.sound(),
        ensures
            final(self).state@.sound(),
            final(self).state@ == old(self).state@.taken_over(session, p.key(), generation),
    {
        self.state.acknowledge(session, p, generation);
    }

    /// Ends the worker.
    pub fn stop(&mut self) -> (out: (Option<Job<P>>, Option<ThumbFinished<P>>))
        ensures
            final(self).state@ == (Bench {
                stop: true,
                pending: None,
                ..old(self).state@
            }).unthumbed(),
            out.0 == old(self).state.pending,
            reported(out.1, old(self).state.thumbnail, "thumbnail upload worker stopped"@),
    {
        self.state.stop = true;
        let dropped = self.state.pending.take();
        let report = self.give_up("thumbnail upload worker stopped");
        (dropped, report)
    }

    /// Whether a thumbnail that was taken up is uploaded. If not, it is
    /// reported. A photograph that has come up meanwhile goes first.
    pub fn begin_thumbnail(&self, queued: QueuedThumbnail<P>) -> (out: Result<
        QueuedThumbnail<P>,
        ThumbFinished<P>,
    >)
        ensures
            if self.state@.thumbnail_relevant(queued) && self.state.pending is None {
                out == Ok::<QueuedThumbnail<P>, ThumbFinished<P>>(queued)
            } else {
                out is Err && (out->Err_0).skips(
                    queued.job,
                    "thumbnail upload canceled or deferred for a photo"@,
                )
            },
    {
        if self.state.thumbnail_relevant(&queued) && self.state.pending.is_none() {
            Ok(queued)
        } else {
            Err(
                ThumbFinished::skipped(
                    queued.job,
                    "thumbnail upload canceled or deferred for a photo",
                ),
            )
        }
    }

    /// What is reported of a thumbnail once the GPU has answered. A texture that
    /// nobody wants any more is not reported, and can be freed.
    pub fn end_thumbnail(&self, queued: QueuedThumbnail<P>, uploaded: Uploaded) -> (out:
        ThumbFinished<P>)
        ensures
            if !self.state@.thumbnail_relevant(queued) {
                out.skips(queued.job, "thumbnail upload canceled"@)
            } else {
                &&& out.session == queued.job.session
                &&& out.serial == queued.job.serial
                &&& out.index == queued.job.index
                &&& out.path == queued.job.path
                &&& out.image == queued.job.image
                &&& out.deferred == (uploaded is Short)
                &&& out.result == match uploaded {
                    Uploaded::Texture(texture) => Ok(texture),
                    Uploaded::Short(error) => Err(error),
                    Uploaded::Failed(error) => Err(error),
                }
            },
    {
        if !self.state.thumbnail_relevant(&queued) {
            return ThumbFinished::skipped(queued.job, "thumbnail upload canceled");
        }
        match uploaded {
            Uploaded::Texture(texture) => ThumbFinished::new(queued.job, Ok(texture), false),
            Uploaded::Short(error) => ThumbFinished::new(queued.job, Err(error), true),
            Uploaded::Failed(error) => ThumbFinished::new(queued.job, Err(error), false),
        }
    }

    /// Whether the upload of a photograph goes on. One that is given up is no
    /// longer under way: a rapid return can ask for it again.
    pub fn proceed(&mut self, job: &Job<P>) -> (out: bool)
        ensures
            out == old(self).state@.relevant(job@),
            final(self).state@ == if out {
                old(self).state@
            } else {
                Bench { running: None, ..old(self).state@ }
            },
    {
        if self.state.relevant(job) {
            true
        } else {
            self.state.running = None;
            false
        }
    }

    /// What a worker does after a try that took `elapsed` milliseconds since the
    /// first. Memory that is short may come back soon.
    pub fn judge(&mut self, elapsed: u64, uploaded: Uploaded) -> (out: Verdict)
        ensures
            ({
                let waits = uploaded is Short && elapsed < BUDGET_PATIENCE;
                &&& waits && old(self).state.stop ==> out is Stopped && final(self).state@ == (
                Bench { running: None, ..old(self).state@ })
                &&& waits && !old(self).state.stop ==> out is Retry && final(self).state@
                    == old(self).state@
                &&& !waits ==> final(self).state@ == old(self).state@ && out == Verdict::Done(
                    match uploaded {
                        Uploaded::Texture(texture) => Ok(texture),
                        Uploaded::Short(error) => Err(error),
                        Uploaded::Failed(error) => Err(error),
                    },
                )
            }),
    {
        match uploaded {
            Uploaded::Texture(texture) => Verdict::Done(Ok(texture)),
            Uploaded::Failed(error) => Verdict::Done(Err(error)),
            Uploaded::Short(error) => if elapsed >= BUDGET_PATIENCE {
                Verdict::Done(Err(error))
            } else if self.state.stop {
                self.state.running = None;
                Verdict::Stopped
            } else {
                Verdict::Retry
            },
        }
    }

    /// What is announced of an upload that ended. One that nobody wants any more
    /// is not announced. An upload that was begun ahead of need is announced for
    /// the request that asks for it by now.
    pub fn finish(&mut self, job: Job<P>, result: Result<Texture, String>) -> (out: Option<Finished<P>>)
        requires
            old(self).state@.sound(),
        ensures
            final(self).state@.sound(),
            ({
                let idle = Bench { running: None, ..old(self).state@ };
                if idle.relevant(job@) {
                    &&& out == Some(
                        Finished {
                            session: job.session,
                            generation: idle.served(job@),
                            path: job.path,
                            result,
                        },
                    )
                    &&& final(self).state@ == if result is Ok {
                        idle.noted(job.session, job.path.key(), idle.served(job@))
                    } else {
                        idle
                    }
                } else {
                    out is None && final(self).state@ == idle
                }
            }),
    {
        match self.state.finish(&job, result.is_ok()) {
            Some(generation) => Some(
                Finished { session: job.session, generation, path: job.path, result },
            ),
            None => None,
        }
    }
}

/// The photograph on screen is uploaded, unless that is under way or done; once another
/// one is on screen, only an upload of that one goes on waiting.
pub proof fn law_uploads_follow_the_screen<P: Identity>(
    bench: Bench<P>,
    session: u64,
    key: P::Key,
    generation: u64,
    job: Load<P::Key>,
)
    requires
        !bench.stop,
    ensures
        ({
            let next = bench.retargeted(session, key, generation);
            &&& job.session == session && job.key == key && bench.running != Some((session, key))
                && bench.done(session, key) is None ==> next.accepts(job)
            &&& next.pending matches Some(waiting) ==> waiting.session == session && waiting.key
                == key && waiting.generation == generation
            &&& bench.awaits(session, key) ==> next.pending is Some && (next.pending->0).image
                == (bench.pending->0).image
            &&& job.session == session && job.key == key ==> next.served(job) == generation
        }),
{
}

} // verus!
