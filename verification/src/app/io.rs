//! Changes to files, one after the other.
//!
//! Ratings, moves and undos share one queue, ahead of everything that is only
//! read: a save that was queued cannot overtake a move, nor leave a sidecar
//! beside a photograph that has gone.
use crate::app::deleted;
use crate::app::deleted::{move_error, MoveError, MoveRecord};
use crate::app::path_map::PathMap;
use crate::browser::directory;
use crate::metadata::exif::ExifMetadata;
use crate::path;
use crate::path::{Identity, PhotoPath};
use crate::text;
use std::collections::VecDeque;
use vstd::prelude::*;
use vstd::std_specs::vecdeque::VecDequeAdditionalSpecFns;

verus! {

/// Undoable rating edits that are remembered.
pub const MAX_HISTORY: usize = 100;

/// Ratings that are announced at once.
pub const SCAN_CHUNK: usize = 32;

/// Batches that may wait.
pub const MAX_BATCHES: usize = 2;

#[allow(inconsistent_fields)]
#[derive(Debug)]
pub enum IoEvent {
    Ratings {
        folder_epoch: u64,
        entries: Vec<(PhotoPath, Result<i8, String>)>,
        complete: bool,
    },
    Metadata {
        session: u64,
        path: PhotoPath,
        metadata: Result<ExifMetadata, String>,
        rating: Result<Option<i8>, String>,
    },
    Saved {
        session: u64,
        path: PhotoPath,
        revision: u64,
        edit_id: u64,
        undo: bool,
        /// What the sidecar says after a success; nothing is said by a sidecar
        /// without a rating.
        rating: Option<i8>,
        /// An undo that is refused must not hide an edit that was not saved.
        unsaved: bool,
        result: Result<(), String>,
    },
    Rejected { session: u64, result: Result<Vec<PhotoPath>, String> },
    Trashed { session: u64, removed: Vec<PhotoPath>, errors: Vec<String> },
    MovedDeleted {
        session: u64,
        op_id: u64,
        records: Vec<MoveRecord>,
        errors: Vec<(PhotoPath, String)>,
    },
    RestoredDeleted {
        session: u64,
        op_id: u64,
        restored: Vec<MoveRecord>,
        ratings: Vec<(PhotoPath, Result<i8, String>)>,
        failed: Vec<(MoveRecord, String)>,
    },
    Flushed { failures: usize },
}

#[derive(Clone, Copy, Debug, PartialEq, Eq, Structural)]
pub enum Edit {
    Assign(i8),
    Undo,
}

/// A rating to be written.
#[derive(Clone, Copy, Debug, PartialEq, Eq, Structural)]
pub struct Write {
    pub session: u64,
    pub revision: u64,
    pub edit_id: u64,
    pub operation: Edit,
}

/// A rating that was written, and what it replaced.
#[derive(Debug)]
pub struct UndoRecord {
    pub edit_id: u64,
    pub path: PhotoPath,
    pub previous: Option<i8>,
    pub rating: i8,
}

/// What an `UndoRecord` says.
pub struct Undo {
    pub edit_id: u64,
    pub path: Seq<u8>,
    pub previous: Option<i8>,
    pub rating: i8,
}

impl View for UndoRecord {
    type V = Undo;

    open spec fn view(&self) -> Undo {
        Undo {
            edit_id: self.edit_id,
            path: self.path@,
            previous: self.previous,
            rating: self.rating,
        }
    }
}

/// The rating edits that can be undone, oldest first.
#[derive(Debug)]
pub struct History(pub VecDeque<UndoRecord>);

impl View for History {
    type V = Seq<Undo>;

    open spec fn view(&self) -> Seq<Undo> {
        self.0@.map_values(|r: UndoRecord| r@)
    }
}

/// Without the edit that has some number.
pub open spec fn forgotten(edits: Seq<Undo>, edit_id: u64) -> Seq<Undo>
    decreases edits.len(),
{
    if edits.len() == 0 {
        Seq::empty()
    } else if edits.last().edit_id == edit_id {
        forgotten(edits.drop_last(), edit_id)
    } else {
        forgotten(edits.drop_last(), edit_id).push(edits.last())
    }
}

/// The last `n` edits.
pub open spec fn latest(edits: Seq<Undo>, n: int) -> Seq<Undo> {
    if edits.len() > n {
        edits.skip(edits.len() - n)
    } else {
        edits
    }
}

/// The last edit of a photograph.
pub open spec fn last_edit(edits: Seq<Undo>, at: Seq<u8>) -> Option<Undo>
    decreases edits.len(),
{
    if edits.len() == 0 {
        None
    } else if edits.last().path == at {
        Some(edits.last())
    } else {
        last_edit(edits.drop_last(), at)
    }
}

/// The edit that an undo takes back. Only the last edit of a photograph can be.
pub open spec fn undoable(edits: Seq<Undo>, at: Seq<u8>, edit_id: u64) -> Result<Undo, Seq<char>> {
    match last_edit(edits, at) {
        None => Err(
            "Rating undo is unavailable: the edit failed, expired, or was already undone."@,
        ),
        Some(edit) => if edit.edit_id != edit_id {
            Err("Cannot undo a rating while a newer edit to that photo remains."@)
        } else {
            Ok(edit)
        },
    }
}

impl History {
    pub fn new() -> (out: Self)
        ensures
            out@ == Seq::<Undo>::empty(),
    {
        let out = History(VecDeque::new());
        assert(out@ =~= Seq::<Undo>::empty());
        out
    }

    /// Remembers an edit, and forgets the oldest where there are too many.
    pub fn record(&mut self, record: UndoRecord)
        ensures
            final(self)@ == latest(
                forgotten(old(self)@, record.edit_id).push(record@),
                MAX_HISTORY as int,
            ),
            final(self)@.len() <= MAX_HISTORY,
    {
        self.remove(record.edit_id);
        let ghost all = self@.push(record@);
        self.0.push_back(record);
        assert(self@ =~= all);
        while self.0.len() > MAX_HISTORY
            invariant
                self@ == all.skip(all.len() - self@.len()),
                self@.len() <= all.len(),
                self@.len() >= MAX_HISTORY || self@.len() == all.len(),
            decreases self.0@.len(),
        {
            let ghost before = self@;
            let _ = self.0.pop_front();
            assert(self@ =~= before.skip(1));
            assert(self@ =~= all.skip(all.len() - self@.len()));
        }
        assert(self@ =~= latest(all, MAX_HISTORY as int));
    }

    /// The edit that an undo takes back.
    pub fn target(&self, at: &PhotoPath, edit_id: u64) -> (out: Result<UndoRecord, String>)
        ensures
            match undoable(self@, at@, edit_id) {
                Ok(edit) => out is Ok && out->Ok_0@ == edit,
                Err(reason) => out is Err && out->Err_0@ == reason,
            },
    {
        let mut n: usize = self.0.len();
        assert(self@.take(n as int) =~= self@);
        while n > 0
            invariant
                n <= self@.len(),
                self@.len() == self.0@.len(),
                last_edit(self@, at@) == last_edit(self@.take(n as int), at@),
            decreases n,
        {
            let record = &self.0[n - 1];
            assert(self@.take(n as int).last() == record@);
            assert(self@.take(n as int).drop_last() =~= self@.take(n - 1));
            if record.path.same(at) {
                if record.edit_id != edit_id {
                    return Err(
                        "Cannot undo a rating while a newer edit to that photo remains.".to_owned(),
                    );
                }
                return Ok(
                    UndoRecord {
                        edit_id: record.edit_id,
                        path: record.path.copied(),
                        previous: record.previous,
                        rating: record.rating,
                    },
                );
            }
            n -= 1;
        }
        Err("Rating undo is unavailable: the edit failed, expired, or was already undone.".to_owned())
    }

    /// Forgets an edit.
    pub fn remove(&mut self, edit_id: u64)
        ensures
            final(self)@ == forgotten(old(self)@, edit_id),
            final(self)@.len() <= old(self)@.len(),
    {
        let ghost all = self@;
        let mut kept: VecDeque<UndoRecord> = VecDeque::new();
        assert(kept@.map_values(|r: UndoRecord| r@) =~= forgotten(all.take(0), edit_id));
        let ghost mut n: int = 0;
        while self.0.len() > 0
            invariant
                0 <= n <= all.len(),
                self@ =~= all.skip(n),
                kept@.map_values(|r: UndoRecord| r@) =~= forgotten(all.take(n), edit_id),
                kept@.len() <= n,
            decreases self.0@.len(),
        {
            let ghost before = self@;
            match self.0.pop_front() {
                Some(record) => {
                    proof {
                        assert(self@ =~= before.skip(1));
                        assert(before.skip(1) =~= all.skip(n + 1));
                        assert(all.skip(n)[0] == record@);
                        assert(all.take(n + 1).drop_last() =~= all.take(n));
                        n = n + 1;
                    }
                    if record.edit_id != edit_id {
                        kept.push_back(record);
                    }
                },
                None => {},
            }
        }
        assert(all.take(n) =~= all);
        self.0 = kept;
    }
}

proof fn lemma_forgotten(edits: Seq<Undo>, edit_id: u64)
    ensures
        forgotten(edits, edit_id).len() <= edits.len(),
        forall|i: int|
            0 <= i < forgotten(edits, edit_id).len() ==> (#[trigger] forgotten(
                edits,
                edit_id,
            )[i]).edit_id != edit_id,
    decreases edits.len(),
{
    if edits.len() > 0 {
        lemma_forgotten(edits.drop_last(), edit_id);
    }
}

/// An edit that was just remembered is the one that its undo takes back.
pub proof fn law_undo_takes_back_the_last_edit(edits: Seq<Undo>, edit: Undo)
    ensures
        undoable(
            latest(forgotten(edits, edit.edit_id).push(edit), MAX_HISTORY as int),
            edit.path,
            edit.edit_id,
        ) == Ok::<Undo, Seq<char>>(edit),
{
    let all = forgotten(edits, edit.edit_id).push(edit);
    assert(latest(all, MAX_HISTORY as int).last() == edit);
}

/// Once an edit was undone, it cannot be undone again.
pub proof fn law_undo_happens_once(edits: Seq<Undo>, at: Seq<u8>, edit_id: u64)
    ensures
        undoable(forgotten(edits, edit_id), at, edit_id) is Err,
{
    lemma_forgotten(edits, edit_id);
    lemma_last_edit(forgotten(edits, edit_id), at);
}

proof fn lemma_last_edit(edits: Seq<Undo>, at: Seq<u8>)
    ensures
        last_edit(edits, at) matches Some(edit) ==> edits.contains(edit),
    decreases edits.len(),
{
    if edits.len() > 0 {
        lemma_last_edit(edits.drop_last(), at);
        if edits.last().path != at {
            if let Some(edit) = last_edit(edits.drop_last(), at) {
                let i = choose|i: int| 0 <= i < edits.len() - 1 && edits.drop_last()[i] == edit;
                assert(edits[i] == edit);
            }
        } else {
            assert(edits[edits.len() - 1] == edits.last());
        }
    }
}

/// A change to files.
#[derive(Debug)]
pub enum Mutation {
    Rating(PhotoPath, Write),
    MoveDeleted { session: u64, op_id: u64, paths: Vec<PhotoPath> },
    RestoreDeleted { session: u64, op_id: u64, records: Vec<MoveRecord> },
}

/// What a `Mutation` says.
pub enum Change {
    Rating(Seq<u8>, Write),
    Move { session: u64, op_id: u64, paths: Seq<Seq<u8>> },
    Restore { session: u64, op_id: u64, records: Seq<deleted::Pair> },
}

/// What some records say.
pub open spec fn pairs(records: Seq<MoveRecord>) -> Seq<deleted::Pair> {
    records.map_values(|r: MoveRecord| r@)
}

impl View for Mutation {
    type V = Change;

    open spec fn view(&self) -> Change {
        match self {
            Mutation::Rating(p, write) => Change::Rating(p@, *write),
            Mutation::MoveDeleted { session, op_id, paths } => Change::Move {
                session: *session,
                op_id: *op_id,
                paths: path::spellings(paths@),
            },
            Mutation::RestoreDeleted { session, op_id, records } => Change::Restore {
                session: *session,
                op_id: *op_id,
                records: pairs(records@),
            },
        }
    }
}

/// A larger job that only reads, or that goes to the trash.
#[derive(Debug)]
pub enum Batch {
    Rejected(u64, Vec<PhotoPath>),
    Trash(u64, Vec<PhotoPath>),
}

/// What a `Batch` says.
pub enum Bundle {
    Rejected(u64, Seq<Seq<u8>>),
    Trash(u64, Seq<Seq<u8>>),
}

impl View for Batch {
    type V = Bundle;

    open spec fn view(&self) -> Bundle {
        match self {
            Batch::Rejected(session, paths) => Bundle::Rejected(*session, path::spellings(paths@)),
            Batch::Trash(session, paths) => Bundle::Trash(*session, path::spellings(paths@)),
        }
    }
}

/// The ratings of a folder, read in the background.
#[derive(Debug)]
pub struct RatingScan {
    pub folder_epoch: u64,
    pub serial: u64,
    pub files: Vec<PhotoPath>,
    pub next: usize,
}

/// What a `RatingScan` says.
pub struct Survey {
    pub folder_epoch: u64,
    pub serial: u64,
    pub files: Seq<Seq<u8>>,
    pub next: usize,
}

impl View for RatingScan {
    type V = Survey;

    open spec fn view(&self) -> Survey {
        Survey {
            folder_epoch: self.folder_epoch,
            serial: self.serial,
            files: path::spellings(self.files@),
            next: self.next,
        }
    }
}

/// What is to be done to files, and what was.
#[derive(Debug)]
pub struct IoWorker {
    pub mutations: VecDeque<Mutation>,
    /// Ratings that could not be saved.
    pub failed: PathMap<Write>,
    pub read: Option<(u64, PhotoPath)>,
    pub batches: VecDeque<Batch>,
    pub rating_scan: Option<RatingScan>,
    pub rating_scan_serial: u64,
    pub flush: bool,
    pub stop: bool,
    pub history: History,
    /// Photographs that left, and where they went.
    pub moved_paths: PathMap<String>,
}

/// What an `IoWorker` says.
#[verifier::ext_equal]
pub struct Desk {
    pub queue: Seq<Change>,
    pub failed: Map<Seq<u8>, Write>,
    pub read: Option<(u64, Seq<u8>)>,
    pub batches: Seq<Bundle>,
    pub scan: Option<Survey>,
    pub serial: u64,
    pub flush: bool,
    pub stop: bool,
    pub history: Seq<Undo>,
    pub moved: Map<Seq<u8>, Seq<char>>,
}

pub open spec fn changes(queue: Seq<Mutation>) -> Seq<Change> {
    queue.map_values(|m: Mutation| m@)
}

pub open spec fn bundles(batches: Seq<Batch>) -> Seq<Bundle> {
    batches.map_values(|b: Batch| b@)
}

/// A map from paths to texts.
pub open spec fn reasons(map: Map<Seq<u8>, String>) -> Map<Seq<u8>, Seq<char>> {
    map.map_values(|s: String| s@)
}

impl View for IoWorker {
    type V = Desk;

    open spec fn view(&self) -> Desk {
        Desk {
            queue: changes(self.mutations@),
            failed: self.failed@,
            read: match self.read {
                Some((session, p)) => Some((session, p@)),
                None => None,
            },
            batches: bundles(self.batches@),
            scan: match self.rating_scan {
                Some(scan) => Some(scan@),
                None => None,
            },
            serial: self.rating_scan_serial,
            flush: self.flush,
            stop: self.stop,
            history: self.history@,
            moved: reasons(self.moved_paths@),
        }
    }
}

/// What the worker does next.
#[derive(Debug)]
pub enum Work {
    Mutation(Mutation),
    Read(u64, PhotoPath),
    Batch(Batch),
    Ratings(RatingScan),
    Flush(usize),
    Stop,
    /// Sleep until something is asked for.
    Wait,
}

/// What a `Work` says.
pub enum Task {
    Mutation(Change),
    Read(u64, Seq<u8>),
    Batch(Bundle),
    Ratings(Survey),
    Flush(int),
    Stop,
    Wait,
}

impl View for Work {
    type V = Task;

    open spec fn view(&self) -> Task {
        match self {
            Work::Mutation(m) => Task::Mutation(m@),
            Work::Read(session, p) => Task::Read(*session, p@),
            Work::Batch(b) => Task::Batch(b@),
            Work::Ratings(scan) => Task::Ratings(scan@),
            Work::Flush(failures) => Task::Flush(*failures as int),
            Work::Stop => Task::Stop,
            Work::Wait => Task::Wait,
        }
    }
}

impl Desk {
    /// Whether a rating of a photograph is queued.
    pub open spec fn queued(self, at: Seq<u8>) -> bool {
        exists|i: int| #[trigger] rates(self.queue, at, i)
    }

    /// Without the background scan.
    pub open spec fn unscanned(self) -> Desk {
        Desk { serial: self.serial.wrapping_add(1), scan: None, ..self }
    }

    /// Changes come first, in the order in which they were asked for, even when
    /// the worker is to stop. A flush is answered once all are done.
    pub open spec fn next(self, failures: int) -> (Desk, Task) {
        if self.queue.len() > 0 {
            (Desk { queue: self.queue.skip(1), ..self }, Task::Mutation(self.queue[0]))
        } else if self.stop {
            (self, Task::Stop)
        } else if self.flush {
            (Desk { flush: false, ..self }, Task::Flush(failures))
        } else if self.read is Some {
            (Desk { read: None, ..self }, Task::Read((self.read->0).0, (self.read->0).1))
        } else if self.batches.len() > 0 {
            (Desk { batches: self.batches.skip(1), ..self }, Task::Batch(self.batches[0]))
        } else if self.scan is Some {
            (Desk { scan: None, ..self }, Task::Ratings(self.scan->0))
        } else {
            (self, Task::Wait)
        }
    }

    /// With the ratings that failed queued again, those of the first `n` of
    /// some photographs.
    pub open spec fn retried(self, keys: Seq<Seq<u8>>, n: int) -> Desk
        decreases n,
    {
        if n <= 0 {
            self
        } else {
            let before = self.retried(keys, n - 1);
            if before.queued(keys[n - 1]) {
                before
            } else {
                Desk {
                    queue: before.queue.push(
                        Change::Rating(keys[n - 1], self.failed[keys[n - 1]]),
                    ),
                    ..before
                }
            }
        }
    }

    /// Whether something more urgent than a background scan waits.
    pub open spec fn urgent(self) -> bool {
        ||| self.queue.len() > 0
        ||| self.flush
        ||| self.read is Some
        ||| self.batches.len() > 0
    }

    /// Whether a scan is still the one that was asked for last.
    pub open spec fn current(self, scan: Survey) -> bool {
        scan.serial == self.serial && !self.stop
    }
}

/// The change at `i` is a rating of a photograph.
pub open spec fn rates(queue: Seq<Change>, at: Seq<u8>, i: int) -> bool {
    &&& 0 <= i < queue.len()
    &&& queue[i] matches Change::Rating(p, _)
    &&& p == at
}

impl IoWorker {
    pub open spec fn sound(&self) -> bool {
        self.failed.sound() && self.moved_paths.sound() && self.history@.len() <= MAX_HISTORY
    }

    pub fn new() -> (out: Self)
        ensures
            out.sound(),
            out@ == (Desk {
                queue: Seq::empty(),
                failed: Map::empty(),
                read: None,
                batches: Seq::empty(),
                scan: None,
                serial: 0,
                flush: false,
                stop: false,
                history: Seq::empty(),
                moved: Map::empty(),
            }),
    {
        let out = IoWorker {
            mutations: VecDeque::new(),
            failed: PathMap::new(),
            read: None,
            batches: VecDeque::new(),
            rating_scan: None,
            rating_scan_serial: 0,
            flush: false,
            stop: false,
            history: History::new(),
            moved_paths: PathMap::new(),
        };
        assert(out@.queue =~= Seq::empty());
        assert(out@.batches =~= Seq::empty());
        assert(out@.moved =~= Map::empty());
        out
    }

    /// Asks for what a photograph says about itself. Only the last request
    /// counts.
    pub fn read(&mut self, session: u64, photo: PhotoPath)
        requires
            old(self).sound(),
        ensures
            final(self).sound(),
            final(self)@ == (Desk { read: Some((session, photo@)), ..old(self)@ }),
    {
        self.read = Some((session, photo));
    }

    fn queue(&mut self, change: Mutation)
        requires
            old(self).sound(),
        ensures
            final(self).sound(),
            final(self).failed == old(self).failed,
            final(self)@ == (Desk { queue: old(self)@.queue.push(change@), ..old(self)@ }),
    {
        let ghost before = self@;
        self.mutations.push_back(change);
        assert(self@ =~= (Desk { queue: before.queue.push(change@), ..before }));
    }

    /// Asks for a rating to be written.
    pub fn save(&mut self, session: u64, photo: PhotoPath, revision: u64, rating: i8, edit_id: u64)
        requires
            old(self).sound(),
        ensures
            final(self).sound(),
            final(self)@ == (Desk {
                queue: old(self)@.queue.push(
                    Change::Rating(
                        photo@,
                        Write { session, revision, edit_id, operation: Edit::Assign(rating) },
                    ),
                ),
                ..old(self)@
            }),
    {
        self.queue(
            Mutation::Rating(
                photo,
                Write { session, revision, edit_id, operation: Edit::Assign(rating) },
            ),
        );
    }

    /// Asks for a rating to be taken back. It may still be queued: what it
    /// replaces is known once it is written.
    pub fn undo(&mut self, session: u64, photo: PhotoPath, revision: u64, edit_id: u64)
        requires
            old(self).sound(),
        ensures
            final(self).sound(),
            final(self)@ == (Desk {
                queue: old(self)@.queue.push(
                    Change::Rating(
                        photo@,
                        Write { session, revision, edit_id, operation: Edit::Undo },
                    ),
                ),
                ..old(self)@
            }),
    {
        self.queue(
            Mutation::Rating(
                photo,
                Write { session, revision, edit_id, operation: Edit::Undo },
            ),
        );
    }

    /// Asks for photographs to be moved, behind the changes asked for so far.
    pub fn move_deleted(&mut self, session: u64, op_id: u64, paths: Vec<PhotoPath>)
        requires
            old(self).sound(),
        ensures
            final(self).sound(),
            final(self)@ == (Desk {
                queue: old(self)@.queue.push(
                    Change::Move { session, op_id, paths: path::spellings(paths@) },
                ),
                ..old(self)@
            }),
    {
        self.queue(Mutation::MoveDeleted { session, op_id, paths });
    }

    /// Asks for photographs to be moved back.
    pub fn restore_deleted(&mut self, session: u64, op_id: u64, records: Vec<MoveRecord>)
        requires
            old(self).sound(),
        ensures
            final(self).sound(),
            final(self)@ == (Desk {
                queue: old(self)@.queue.push(
                    Change::Restore { session, op_id, records: pairs(records@) },
                ),
                ..old(self)@
            }),
    {
        self.queue(Mutation::RestoreDeleted { session, op_id, records });
    }

    /// Asks for the ratings of a folder, in place of any other.
    pub fn scan_ratings(&mut self, folder_epoch: u64, files: Vec<PhotoPath>)
        requires
            old(self).sound(),
        ensures
            final(self).sound(),
            final(self)@ == (Desk {
                scan: Some(
                    Survey {
                        folder_epoch,
                        serial: old(self)@.serial.wrapping_add(1),
                        files: path::spellings(files@),
                        next: 0,
                    },
                ),
                ..old(self)@.unscanned()
            }),
    {
        self.cancel_rating_scan();
        self.rating_scan = Some(
            RatingScan { folder_epoch, serial: self.rating_scan_serial, files, next: 0 },
        );
    }

    /// Ends the background scan. What it announced before may still arrive.
    pub fn cancel_rating_scan(&mut self)
        requires
            old(self).sound(),
        ensures
            final(self).sound(),
            final(self)@ == old(self)@.unscanned(),
    {
        self.rating_scan_serial = self.rating_scan_serial.wrapping_add(1);
        self.rating_scan = None;
    }

    /// Asks to be told when every change was made.
    pub fn flush(&mut self)
        requires
            old(self).sound(),
        ensures
            final(self).sound(),
            final(self)@ == (Desk { flush: true, read: None, ..old(self)@ }).unscanned(),
    {
        self.flush = true;
        self.read = None;
        self.cancel_rating_scan();
    }

    fn is_queued(&self, photo: &PhotoPath) -> (out: bool)
        ensures
            out == self@.queued(photo@),
    {
        let mut i: usize = 0;
        while i < self.mutations.len()
            invariant
                i <= self.mutations@.len(),
                forall|k: int| 0 <= k < i ==> !rates(self@.queue, photo@, k),
            decreases self.mutations@.len() - i,
        {
            assert(self@.queue[i as int] == self.mutations@[i as int]@);
            match &self.mutations[i] {
                Mutation::Rating(p, _) => if p.same(photo) {
                    assert(rates(self@.queue, photo@, i as int));
                    return true;
                },
                _ => {},
            }
            i += 1;
        }
        assert forall|k: int| !rates(self@.queue, photo@, k) by {}
        false
    }

    /// Queues the ratings again that could not be saved.
    pub fn retry_failed(&mut self)
        requires
            old(self).sound(),
        ensures
            final(self).sound(),
            final(self)@ == (Desk {
                flush: true,
                ..old(self)@.retried(
                    old(self).failed.keys(),
                    old(self).failed.keys().len() as int,
                )
            }).unscanned(),
    {
        let ghost before = self@;
        let ghost keys = self.failed.keys();
        let mut i: usize = 0;
        while i < self.failed.entries.len()
            invariant
                i <= self.failed.entries@.len(),
                self.sound(),
                keys == self.failed.keys(),
                self@ == before.retried(keys, i as int),
                self.failed@ == before.failed,
                before == old(self)@,
                keys == old(self).failed.keys(),
            decreases self.failed.entries@.len() - i,
        {
            proof {
                self.failed.lemma_lookup(i as int);
            }
            let photo = self.failed.entries[i].0.copied();
            let write = self.failed.entries[i].1;
            assert(photo@ == keys[i as int]);
            if !self.is_queued(&photo) {
                self.queue(Mutation::Rating(photo, write));
            }
            i += 1;
        }
        self.flush = true;
        self.cancel_rating_scan();
    }

    fn batch(&mut self, batch: Batch)
        requires
            old(self).sound(),
        ensures
            final(self).sound(),
            final(self)@ == if old(self)@.batches.len() < MAX_BATCHES {
                Desk { batches: old(self)@.batches.push(batch@), ..old(self)@ }
            } else {
                old(self)@
            },
    {
        let ghost before = self@;
        if self.batches.len() < MAX_BATCHES {
            self.batches.push_back(batch);
            assert(self@ =~= (Desk { batches: before.batches.push(batch@), ..before }));
        }
    }

    /// Asks which photographs are rated as rejected, unless enough is asked for.
    pub fn collect_rejected(&mut self, session: u64, files: Vec<PhotoPath>)
        requires
            old(self).sound(),
        ensures
            final(self).sound(),
            final(self)@ == if old(self)@.batches.len() < MAX_BATCHES {
                Desk {
                    batches: old(self)@.batches.push(
                        Bundle::Rejected(session, path::spellings(files@)),
                    ),
                    ..old(self)@
                }
            } else {
                old(self)@
            },
    {
        self.batch(Batch::Rejected(session, files));
    }

    /// Asks for photographs to go to the trash, once the user has agreed, unless
    /// enough is asked for.
    pub fn trash_confirmed(&mut self, session: u64, paths: Vec<PhotoPath>)
        requires
            old(self).sound(),
        ensures
            final(self).sound(),
            final(self)@ == if old(self)@.batches.len() < MAX_BATCHES {
                Desk {
                    batches: old(self)@.batches.push(
                        Bundle::Trash(session, path::spellings(paths@)),
                    ),
                    ..old(self)@
                }
            } else {
                old(self)@
            },
    {
        self.batch(Batch::Trash(session, paths));
    }

    /// Ends the worker once every change was made.
    pub fn finish(&mut self)
        requires
            old(self).sound(),
        ensures
            final(self).sound(),
            final(self)@ == (Desk {
                stop: true,
                read: None,
                batches: Seq::empty(),
                ..old(self)@
            }).unscanned(),
    {
        self.stop = true;
        self.read = None;
        self.batches = VecDeque::new();
        self.cancel_rating_scan();
        assert(self@.batches =~= Seq::empty());
    }

    /// What the worker does next.
    pub fn next_work(&mut self) -> (out: Work)
        requires
            old(self).sound(),
        ensures
            final(self).sound(),
            (final(self)@, out@) == old(self)@.next(old(self).failed.keys().len() as int),
    {
        let ghost before = self@;
        match self.mutations.pop_front() {
            Some(mutation) => {
                assert(self@ =~= (Desk { queue: before.queue.skip(1), ..before }));
                return Work::Mutation(mutation);
            },
            None => {},
        }
        assert(self@ == before);
        if self.stop {
            return Work::Stop;
        }
        if self.flush {
            self.flush = false;
            return Work::Flush(self.failed.len());
        }
        match self.read.take() {
            Some((session, photo)) => {
                return Work::Read(session, photo);
            },
            None => {},
        }
        match self.batches.pop_front() {
            Some(batch) => {
                assert(self@ =~= (Desk { batches: before.batches.skip(1), ..before }));
                return Work::Batch(batch);
            },
            None => {},
        }
        match self.rating_scan.take() {
            Some(scan) => Work::Ratings(scan),
            None => Work::Wait,
        }
    }
}

/// What is asked of a sidecar: the rating to write, and the one that must be
/// there for it.
#[derive(Clone, Copy, Debug, PartialEq, Eq, Structural)]
pub struct RatingWrite {
    pub desired: Option<i8>,
    pub expected: Option<Option<i8>>,
}

impl Desk {
    /// What is asked of the sidecar of a photograph. Nothing is written beside
    /// a photograph that has gone.
    pub open spec fn attempt(self, at: Seq<u8>, write: Write) -> Result<RatingWrite, Seq<char>> {
        if self.moved.contains_key(at) {
            Err("Rating write blocked until the photo is restored: "@ + self.moved[at])
        } else {
            match write.operation {
                Edit::Assign(rating) => Ok(RatingWrite { desired: Some(rating), expected: None }),
                Edit::Undo => match undoable(self.history, at, write.edit_id) {
                    Err(reason) => Err(reason),
                    Ok(edit) => Ok(
                        RatingWrite {
                            desired: edit.previous,
                            expected: Some(Some(edit.rating)),
                        },
                    ),
                },
            }
        }
    }

    /// A rating was written, in place of `previous`, or not. A failed edit is
    /// kept for a retry; an undo that fails changes nothing.
    pub open spec fn written(self, at: Seq<u8>, write: Write, previous: Option<Option<i8>>) -> Desk {
        match (previous, write.operation) {
            (Some(previous), Edit::Assign(rating)) => Desk {
                history: latest(
                    forgotten(self.history, write.edit_id).push(
                        Undo { edit_id: write.edit_id, path: at, previous, rating },
                    ),
                    MAX_HISTORY as int,
                ),
                failed: self.failed.remove(at),
                ..self
            },
            (Some(_), Edit::Undo) => Desk {
                history: forgotten(self.history, write.edit_id),
                failed: self.failed.remove(at),
                ..self
            },
            (None, Edit::Assign(_)) => Desk { failed: self.failed.insert(at, write), ..self },
            (None, Edit::Undo) => self,
        }
    }

    /// Why a photograph must not be moved.
    pub open spec fn pinned(self, at: Seq<u8>) -> Option<Seq<char>> {
        if self.moved.contains_key(at) {
            Some("Photo must be restored before another move: "@ + self.moved[at])
        } else if self.failed.contains_key(at) {
            Some(
                "This photo has an unsaved rating. Retry that save before moving it to _Rejected."@,
            )
        } else {
            None
        }
    }

    /// With a note on where a photograph went, or what is wrong with it.
    pub open spec fn noted(self, at: Seq<u8>, reason: Seq<char>) -> Desk {
        Desk { moved: self.moved.insert(at, reason), ..self }
    }
}

/// Once a rating was written in place of another, its undo asks for the other
/// one, and only if the rating is still there.
pub proof fn law_undo_restores_the_rating(
    desk: Desk,
    at: Seq<u8>,
    write: Write,
    rating: i8,
    previous: Option<i8>,
    undo: Write,
)
    requires
        write.operation == Edit::Assign(rating),
        undo.operation == Edit::Undo,
        undo.edit_id == write.edit_id,
        !desk.moved.contains_key(at),
    ensures
        desk.written(at, write, Some(previous)).attempt(at, undo) == Ok::<RatingWrite, Seq<char>>(
            RatingWrite { desired: previous, expected: Some(Some(rating)) },
        ),
{
    law_undo_takes_back_the_last_edit(
        desk.history,
        Undo { edit_id: write.edit_id, path: at, previous, rating },
    );
}

/// While a photograph is away, nothing is written beside its old place and it is
/// not moved again.
pub proof fn law_absent_photographs_are_left_alone(
    desk: Desk,
    at: Seq<u8>,
    reason: Seq<char>,
    write: Write,
)
    ensures
        desk.noted(at, reason).attempt(at, write) is Err,
        desk.noted(at, reason).pinned(at) is Some,
{
}

/// A rating that was not saved holds its photograph in place until it is.
pub proof fn law_unsaved_ratings_hold_photographs(
    desk: Desk,
    at: Seq<u8>,
    write: Write,
    rating: i8,
)
    requires
        write.operation == Edit::Assign(rating),
    ensures
        desk.written(at, write, None).pinned(at) is Some,
        forall|previous: Option<i8>|
            !desk.moved.contains_key(at) ==> #[trigger] desk.written(at, write, None).written(
                at,
                write,
                Some(previous),
            ).pinned(at) is None,
{
}

/// Changes are made in the order in which they were asked for, before anything
/// that is only read, and all of them before the worker stops.
pub proof fn law_changes_keep_their_order(desk: Desk, change: Change, failures: int)
    ensures
        desk.queue.len() > 0 ==> desk.next(failures).1 == Task::Mutation(desk.queue[0]),
        desk.queue.len() > 0 ==> (Desk { queue: desk.queue.push(change), ..desk }).next(
            failures,
        ).0.queue == desk.next(failures).0.queue.push(change),
        desk.next(failures).1 == Task::Stop ==> desk.queue.len() == 0,
        desk.next(failures).1 is Flush ==> desk.queue.len() == 0,
{
    if desk.queue.len() > 0 {
        assert(desk.queue.push(change).skip(1) =~= desk.queue.skip(1).push(change));
    }
}

impl IoWorker {
    /// What is asked of the sidecar of a photograph.
    pub fn begin_rating(&self, photo: &PhotoPath, write: Write) -> (out: Result<RatingWrite, String>)
        requires
            self.sound(),
        ensures
            text::same(out, self@.attempt(photo@, write)),
    {
        match self.moved_paths.get(photo) {
            Some(reason) => {
                return Err(
                    "Rating write blocked until the photo is restored: ".to_owned().concat(
                        reason.as_str(),
                    ),
                );
            },
            None => {},
        }
        match write.operation {
            Edit::Assign(rating) => Ok(RatingWrite { desired: Some(rating), expected: None }),
            Edit::Undo => match self.history.target(photo, write.edit_id) {
                Err(reason) => Err(reason),
                Ok(record) => Ok(
                    RatingWrite {
                        desired: record.previous,
                        expected: Some(Some(record.rating)),
                    },
                ),
            },
        }
    }

    /// Takes in what became of a rating, and says what is announced. `attempt`
    /// is what was asked of the sidecar, if anything was.
    pub fn finish_rating(
        &mut self,
        photo: PhotoPath,
        write: Write,
        attempt: Option<RatingWrite>,
        result: Result<Option<i8>, String>,
    ) -> (out: IoEvent)
        requires
            old(self).sound(),
        ensures
            final(self).sound(),
            final(self)@ == old(self)@.written(
                photo@,
                write,
                match result {
                    Ok(previous) => Some(previous),
                    Err(_) => None,
                },
            ),
            out matches IoEvent::Saved {
                session,
                path,
                revision,
                edit_id,
                undo,
                rating,
                unsaved,
                result: said,
            } && {
                &&& session == write.session
                &&& path.raw() == photo.raw()
                &&& revision == write.revision
                &&& edit_id == write.edit_id
                &&& undo == (write.operation == Edit::Undo)
                &&& rating == (match attempt {
                    Some(asked) => asked.desired,
                    None => None,
                })
                &&& unsaved == final(self)@.failed.contains_key(photo@)
                &&& said == (match result {
                    Ok(_) => Ok(()),
                    Err(error) => Err(error),
                })
            },
    {
        let undo = write.operation == Edit::Undo;
        let rating: Option<i8> = match attempt {
            Some(asked) => asked.desired,
            None => None,
        };
        let said: Result<(), String> = match result {
            Ok(previous) => {
                match write.operation {
                    Edit::Assign(rating) => {
                        self.history.record(
                            UndoRecord {
                                edit_id: write.edit_id,
                                path: photo.copied(),
                                previous,
                                rating,
                            },
                        );
                    },
                    Edit::Undo => {
                        self.history.remove(write.edit_id);
                    },
                }
                self.failed.remove(&photo);
                Ok(())
            },
            Err(error) => {
                if !undo {
                    self.failed.insert(photo.copied(), write);
                }
                Err(error)
            },
        };
        let unsaved = self.failed.contains_key(&photo);
        IoEvent::Saved {
            session: write.session,
            path: photo,
            revision: write.revision,
            edit_id: write.edit_id,
            undo,
            rating,
            unsaved,
            result: said,
        }
    }

    /// Why a photograph must not be moved.
    pub fn pinned(&self, photo: &PhotoPath) -> (out: Option<String>)
        requires
            self.sound(),
        ensures
            text::same_option(out, self@.pinned(photo@)),
    {
        match self.moved_paths.get(photo) {
            Some(reason) => {
                return Some(
                    "Photo must be restored before another move: ".to_owned().concat(
                        reason.as_str(),
                    ),
                );
            },
            None => {},
        }
        if self.failed.contains_key(photo) {
            Some(
                "This photo has an unsaved rating. Retry that save before moving it to _Rejected.".to_owned(),
            )
        } else {
            None
        }
    }

    fn note(&mut self, photo: &PhotoPath, reason: String)
        requires
            old(self).sound(),
        ensures
            final(self).sound(),
            final(self)@ == old(self)@.noted(photo@, reason@),
    {
        let ghost before = self@;
        self.moved_paths.insert(photo.copied(), reason);
        assert(self@ =~= before.noted(photo@, reason@));
    }
}

/// Photographs and what is said of them.
pub open spec fn remarks(said: Seq<(PhotoPath, String)>) -> Seq<(Seq<u8>, Seq<char>)> {
    said.map_values(|s: (PhotoPath, String)| (s.0.raw(), s.1@))
}

/// Photographs that are being moved, one after the other.
#[derive(Debug)]
pub struct MoveBatch {
    pub session: u64,
    pub op_id: u64,
    pub paths: VecDeque<PhotoPath>,
    pub seen: Vec<PhotoPath>,
    pub records: Vec<MoveRecord>,
    pub errors: Vec<(PhotoPath, String)>,
}

/// What a `MoveBatch` says.
#[verifier::ext_equal]
pub struct Outgoing {
    pub session: u64,
    pub op_id: u64,
    pub paths: Seq<Seq<u8>>,
    pub seen: Seq<Seq<u8>>,
    pub records: Seq<deleted::Pair>,
    pub errors: Seq<(Seq<u8>, Seq<char>)>,
}

impl View for MoveBatch {
    type V = Outgoing;

    open spec fn view(&self) -> Outgoing {
        Outgoing {
            session: self.session,
            op_id: self.op_id,
            paths: path::spellings(self.paths@),
            seen: path::keys(self.seen@),
            records: pairs(self.records@),
            errors: remarks(self.errors@),
        }
    }
}

impl Outgoing {
    /// The next photograph to be moved. A photograph that was named twice is
    /// moved once; one that must stay is reported.
    pub open spec fn chosen(self, desk: Desk) -> (Outgoing, Option<Seq<u8>>)
        decreases self.paths.len(),
    {
        if self.paths.len() == 0 {
            (self, None)
        } else {
            let at = self.paths[0];
            let rest = Outgoing { paths: self.paths.skip(1), ..self };
            if self.seen.contains(path::tidy(at)) {
                rest.chosen(desk)
            } else {
                let rest = Outgoing { seen: self.seen.push(path::tidy(at)), ..rest };
                match desk.pinned(path::tidy(at)) {
                    Some(reason) => (Outgoing {
                        errors: self.errors.push((at, reason)),
                        ..rest
                    }).chosen(desk),
                    None => (rest, Some(at)),
                }
            }
        }
    }
}

/// How the note on a moved photograph reads.
pub open spec fn moved_to(destination: Seq<u8>) -> Seq<char> {
    "moved to "@ + text::lossy_text(destination)
}

impl MoveBatch {
    pub fn new(session: u64, op_id: u64, paths: Vec<PhotoPath>) -> (out: Self)
        ensures
            out@ == (Outgoing {
                session,
                op_id,
                paths: path::spellings(paths@),
                seen: Seq::empty(),
                records: Seq::empty(),
                errors: Seq::empty(),
            }),
    {
        let ghost all = path::spellings(paths@);
        let mut paths = paths;
        let mut queue: VecDeque<PhotoPath> = VecDeque::new();
        while paths.len() > 0
            invariant
                path::spellings(paths@) + path::spellings(queue@) =~= all,
            decreases paths@.len(),
        {
            let ghost before = paths@;
            match paths.pop() {
                Some(photo) => {
                    proof {
                        assert(path::spellings(before) =~= path::spellings(paths@).push(photo.raw()));
                    }
                    let ghost rest = queue@;
                    queue.push_front(photo);
                    assert(path::spellings(queue@) =~= seq![photo.raw()] + path::spellings(rest));
                },
                None => {},
            }
        }
        let out = MoveBatch {
            session,
            op_id,
            paths: queue,
            seen: Vec::new(),
            records: Vec::new(),
            errors: Vec::new(),
        };
        assert(out@.paths =~= all);
        assert(out@.seen =~= Seq::empty());
        assert(out@.records =~= Seq::empty());
        assert(out@.errors =~= Seq::empty());
        out
    }

    /// The next photograph to be moved.
    pub fn next(&mut self, worker: &IoWorker) -> (out: Option<PhotoPath>)
        requires
            worker.sound(),
        ensures
            (final(self)@, path::written(out)) == old(self)@.chosen(worker@),
    {
        let ghost want = self@.chosen(worker@);
        while self.paths.len() > 0
            invariant
                worker.sound(),
                want == old(self)@.chosen(worker@),
                want == self@.chosen(worker@),
            decreases self.paths@.len(),
        {
            let ghost before = self@;
            match self.paths.pop_front() {
                Some(photo) => {
                    proof {
                        photo.lemma_spelling();
                    }
                    assert(self@ =~= (Outgoing { paths: before.paths.skip(1), ..before }));
                    if !listed(&self.seen, &photo) {
                        self.seen.push(photo.copied());
                        assert(self@ =~= (Outgoing {
                            paths: before.paths.skip(1),
                            seen: before.seen.push(photo@),
                            ..before
                        }));
                        match worker.pinned(&photo) {
                            Some(reason) => {
                                self.errors.push((photo, reason));
                                assert(self@ =~= (Outgoing {
                                    paths: before.paths.skip(1),
                                    seen: before.seen.push(photo@),
                                    errors: before.errors.push((photo.raw(), reason@)),
                                    ..before
                                }));
                            },
                            None => {
                                return Some(photo);
                            },
                        }
                    }
                },
                None => {},
            }
        }
        None
    }

    /// Takes in what became of a photograph. The worker notes where it went; a
    /// failure that displaced a file blocks its old place.
    pub fn moved(
        &mut self,
        worker: &mut IoWorker,
        photo: PhotoPath,
        result: Result<MoveRecord, MoveError>,
    )
        requires
            old(worker).sound(),
        ensures
            final(worker).sound(),
            match result {
                Ok(record) => {
                    &&& final(self)@ == (Outgoing {
                        records: old(self)@.records.push(record@),
                        ..old(self)@
                    })
                    &&& final(worker)@ == old(worker)@.noted(
                        path::tidy(record@.source),
                        moved_to(record@.destination),
                    )
                },
                Err(error) => {
                    &&& final(self)@ == (Outgoing {
                        errors: old(self)@.errors.push((photo.raw(), error@.warning())),
                        ..old(self)@
                    })
                    &&& final(worker)@ == if error.partial {
                        old(worker)@.noted(photo@, error@.warning())
                    } else {
                        old(worker)@
                    }
                },
            },
    {
        broadcast use PhotoPath::lemma_spelling;

        let ghost before = self@;
        match result {
            Ok(record) => {
                let reason = "moved to ".to_owned().concat(record.destination.display().as_str());
                worker.note(&record.source, reason);
                self.records.push(record);
                assert(self@ =~= (Outgoing { records: before.records.push(record@), ..before }));
            },
            Err(error) => {
                let message = move_error(&error);
                if error.partial {
                    worker.note(&photo, message.as_str().to_owned());
                }
                self.errors.push((photo, message));
                assert(self@ =~= (Outgoing {
                    errors: before.errors.push((photo.raw(), error@.warning())),
                    ..before
                }));
            },
        }
    }

    /// What is announced once every photograph was tried.
    pub fn finish(self) -> (out: IoEvent)
        ensures
            out == (IoEvent::MovedDeleted {
                session: self.session,
                op_id: self.op_id,
                records: self.records,
                errors: self.errors,
            }),
    {
        IoEvent::MovedDeleted {
            session: self.session,
            op_id: self.op_id,
            records: self.records,
            errors: self.errors,
        }
    }
}

fn listed(all: &Vec<PhotoPath>, one: &PhotoPath) -> (out: bool)
    ensures
        out == path::keys(all@).contains(one@),
{
    let ghost keys = path::keys(all@);
    let mut i: usize = 0;
    while i < all.len()
        invariant
            i <= all@.len(),
            keys == path::keys(all@),
            forall|k: int| 0 <= k < i ==> keys[k] != one@,
        decreases all@.len() - i,
    {
        assert(keys[i as int] == all@[i as int]@);
        if all[i].same(one) {
            return true;
        }
        i += 1;
    }
    false
}

/// Photographs that are being moved back.
#[derive(Debug)]
pub struct RestoreBatch {
    pub session: u64,
    pub op_id: u64,
    pub restored: Vec<MoveRecord>,
    pub ratings: Vec<(PhotoPath, Result<i8, String>)>,
    pub failed: Vec<(MoveRecord, String)>,
}

impl RestoreBatch {
    pub fn new(session: u64, op_id: u64) -> (out: Self)
        ensures
            out.session == session,
            out.op_id == op_id,
            out.restored@.len() == 0,
            out.ratings@.len() == 0,
            out.failed@.len() == 0,
    {
        RestoreBatch {
            session,
            op_id,
            restored: Vec::new(),
            ratings: Vec::new(),
            failed: Vec::new(),
        }
    }

    /// Takes in what became of a photograph, and the rating that its sidecar
    /// holds. One that is back may be rated and moved again; a failure that
    /// displaced a file blocks its old place.
    pub fn came_back(
        &mut self,
        worker: &mut IoWorker,
        record: MoveRecord,
        result: Result<Result<Option<i8>, String>, MoveError>,
    )
        requires
            old(worker).sound(),
        ensures
            final(worker).sound(),
            final(self).session == old(self).session,
            final(self).op_id == old(self).op_id,
            match result {
                Ok(rating) => {
                    &&& final(self).restored@ == old(self).restored@.push(record)
                    &&& final(self).ratings@.len() == old(self).ratings@.len() + 1
                    &&& final(self).ratings@.drop_last() == old(self).ratings@
                    &&& final(self).ratings@.last().0.raw() == record@.source
                    &&& final(self).ratings@.last().1 == (match rating {
                        Ok(Some(stars)) => Ok(stars),
                        Ok(None) => Ok(0),
                        Err(error) => Err(error),
                    })
                    &&& final(self).failed@ == old(self).failed@
                    &&& final(worker)@ == (Desk {
                        moved: old(worker)@.moved.remove(path::tidy(record@.source)),
                        ..old(worker)@
                    })
                },
                Err(error) => {
                    &&& final(self).restored@ == old(self).restored@
                    &&& final(self).ratings@ == old(self).ratings@
                    &&& final(self).failed@.len() == old(self).failed@.len() + 1
                    &&& final(self).failed@.drop_last() == old(self).failed@
                    &&& final(self).failed@.last().0 == record
                    &&& final(self).failed@.last().1@ == error@.warning()
                    &&& final(worker)@ == if error.partial {
                        old(worker)@.noted(path::tidy(record@.source), error@.warning())
                    } else {
                        old(worker)@
                    }
                },
            },
    {
        broadcast use PhotoPath::lemma_spelling;

        let ghost before = worker@;
        match result {
            Ok(rating) => {
                worker.moved_paths.remove(&record.source);
                assert(worker@ =~= (Desk {
                    moved: before.moved.remove(path::tidy(record@.source)),
                    ..before
                }));
                let stars: Result<i8, String> = match rating {
                    Ok(Some(stars)) => Ok(stars),
                    Ok(None) => Ok(0),
                    Err(error) => Err(error),
                };
                self.ratings.push((record.source.copied(), stars));
                self.restored.push(record);
                assert(self.ratings@.drop_last() =~= old(self).ratings@);
            },
            Err(error) => {
                let message = move_error(&error);
                if error.partial {
                    worker.note(&record.source, message.as_str().to_owned());
                }
                self.failed.push((record, message));
                assert(self.failed@.drop_last() =~= old(self).failed@);
            },
        }
    }

    /// What is announced once every photograph was tried.
    pub fn finish(self) -> (out: IoEvent)
        ensures
            out == (IoEvent::RestoredDeleted {
                session: self.session,
                op_id: self.op_id,
                restored: self.restored,
                ratings: self.ratings,
                failed: self.failed,
            }),
    {
        IoEvent::RestoredDeleted {
            session: self.session,
            op_id: self.op_id,
            restored: self.restored,
            ratings: self.ratings,
            failed: self.failed,
        }
    }
}

/// A rating that was read, where none counts as no stars.
pub open spec fn stars_of(rating: Result<Option<i8>, String>) -> Result<i8, String> {
    match rating {
        Ok(Some(stars)) => Ok(stars),
        Ok(None) => Ok(0),
        Err(error) => Err(error),
    }
}

/// Photographs and their ratings.
pub open spec fn rated(entries: Seq<(PhotoPath, Result<i8, String>)>) -> Seq<
    (Seq<u8>, Result<i8, String>),
> {
    entries.map_values(|e: (PhotoPath, Result<i8, String>)| (e.0.raw(), e.1))
}

impl RatingScan {
    /// Takes in the rating of the next photograph.
    pub fn take_rating(
        &mut self,
        entries: &mut Vec<(PhotoPath, Result<i8, String>)>,
        rating: Result<Option<i8>, String>,
    )
        requires
            old(self).next < old(self).files@.len(),
        ensures
            final(self)@ == (Survey { next: (old(self).next + 1) as usize, ..old(self)@ }),
            rated(final(entries)@) == rated(old(entries)@).push(
                (old(self)@.files[old(self).next as int], stars_of(rating)),
            ),
            final(entries)@.drop_last() == old(entries)@,
    {
        let length: usize = self.files.len();
        assert(self.next < length);
        let photo = self.files[self.next].copied();
        assert(self@.files[self.next as int] == photo.raw());
        let stars: Result<i8, String> = match rating {
            Ok(Some(stars)) => Ok(stars),
            Ok(None) => Ok(0),
            Err(error) => Err(error),
        };
        entries.push((photo, stars));
        assert(rated(entries@) =~= rated(old(entries)@).push((photo.raw(), stars_of(rating))));
        assert(entries@.drop_last() =~= old(entries)@);
        self.next += 1;
    }
}

/// What a chunk of a background scan announces: the photographs from `next` on,
/// with the ratings that were read.
pub open spec fn chunk_of(
    files: Seq<Seq<u8>>,
    next: int,
    ratings: Seq<Result<Option<i8>, String>>,
) -> Seq<(Seq<u8>, Result<i8, String>)> {
    Seq::new(ratings.len(), |i: int| (files[next + i], stars_of(ratings[i])))
}

/// What a background scan announces, chunk by chunk, and whether it is complete.
pub open spec fn reports(
    files: Seq<Seq<u8>>,
    next: int,
    chunks: Seq<Seq<Result<Option<i8>, String>>>,
) -> Seq<(Seq<(Seq<u8>, Result<i8, String>)>, bool)>
    decreases chunks.len(),
{
    if chunks.len() == 0 {
        Seq::empty()
    } else {
        let end = next + chunks[0].len();
        seq![(chunk_of(files, next, chunks[0]), end == files.len())] + reports(
            files,
            end,
            chunks.drop_first(),
        )
    }
}

/// All entries of some reports.
pub open spec fn all_entries(said: Seq<(Seq<(Seq<u8>, Result<i8, String>)>, bool)>) -> Seq<
    (Seq<u8>, Result<i8, String>),
>
    decreases said.len(),
{
    if said.len() == 0 {
        Seq::empty()
    } else {
        said[0].0 + all_entries(said.drop_first())
    }
}

/// A background scan announces every photograph once, in order, with its rating,
/// however it is cut into chunks, and only its last report is complete.
pub proof fn law_rating_scans_cover_their_files(
    files: Seq<Seq<u8>>,
    next: int,
    chunks: Seq<Seq<Result<Option<i8>, String>>>,
)
    requires
        0 <= next,
        chunks.len() > 0,
        next + chunks.flatten().len() == files.len(),
        // The scan ends once it is complete.
        chunks.len() > 1 ==> chunks.last().len() > 0,
    ensures
        ({
            let said = reports(files, next, chunks);
            &&& all_entries(said) == chunk_of(files, next, chunks.flatten())
            &&& said.len() == chunks.len()
            &&& forall|i: int|
                0 <= i < said.len() ==> (#[trigger] said[i].1 <==> i == said.len() - 1)
            &&& forall|i: int| 0 <= i < said.len() ==> #[trigger] said[i].0.len() == chunks[i].len()
        }),
    decreases chunks.len(),
{
    let first = chunks[0];
    let rest = chunks.drop_first();
    let end = next + first.len();
    let said = reports(files, next, chunks);
    assert(chunks.flatten() == first + rest.flatten());
    if chunks.len() == 1 {
        assert(rest =~= Seq::empty());
        assert(rest.flatten() =~= Seq::empty());
        assert(reports(files, end, rest) =~= Seq::empty());
        assert(first + rest.flatten() =~= first);
        assert(said =~= seq![(chunk_of(files, next, first), true)]);
        assert(said.drop_first() =~= Seq::empty());
        assert(all_entries(said.drop_first()) =~= Seq::empty());
        assert(all_entries(said) =~= chunk_of(files, next, chunks.flatten()));
    } else {
        assert(rest.last() == chunks.last());
        lemma_flatten_end(rest);
        law_rating_scans_cover_their_files(files, end, rest);
        let later = reports(files, end, rest);
        assert(said.drop_first() =~= later);
        assert(all_entries(said) =~= chunk_of(files, next, chunks.flatten()));
        assert forall|i: int| 0 <= i < said.len() implies (#[trigger] said[i].1 <==> i == said.len()
            - 1) && said[i].0.len() == chunks[i].len() by {
            if i > 0 {
                assert(said[i] == later[i - 1]);
                assert(chunks[i] == rest[i - 1]);
            }
        }
    }
}

proof fn lemma_flatten_end<T>(s: Seq<Seq<T>>)
    requires
        s.len() > 0,
        s.last().len() > 0,
    ensures
        s.flatten().len() > 0,
    decreases s.len(),
{
    assert(s.flatten() == s[0] + s.drop_first().flatten());
    if s.len() > 1 {
        assert(s.drop_first().last() == s.last());
        lemma_flatten_end(s.drop_first());
    }
}

impl IoWorker {
    /// Whether a background scan reads another sidecar, after `got` of a chunk.
    /// It makes way for anything else that is asked for.
    pub fn scan_goes_on(&self, scan: &RatingScan, got: usize) -> (out: bool)
        ensures
            out == (scan.next < scan.files@.len() && got < SCAN_CHUNK && self@.current(scan@)
                && !self@.urgent()),
    {
        scan.next < scan.files.len() && got < SCAN_CHUNK && scan.serial == self.rating_scan_serial
            && !self.stop && self.mutations.len() == 0 && !self.flush && self.read.is_none()
            && self.batches.len() == 0
    }

    /// Ends a chunk of a background scan, and says what is announced. A scan
    /// that is no longer asked for announces nothing; one that is not complete
    /// goes on later.
    pub fn finish_chunk(&mut self, scan: RatingScan, entries: Vec<(PhotoPath, Result<i8, String>)>) -> (out:
        Option<IoEvent>)
        requires
            old(self).sound(),
        ensures
            final(self).sound(),
            ({
                let complete = scan.next == scan.files@.len();
                if !old(self)@.current(scan@) {
                    out is None && final(self)@ == old(self)@
                } else {
                    &&& final(self)@ == if complete {
                        old(self)@
                    } else {
                        Desk { scan: Some(scan@), ..old(self)@ }
                    }
                    &&& out == if complete || entries@.len() > 0 {
                        Some(
                            IoEvent::Ratings {
                                folder_epoch: scan.folder_epoch,
                                entries,
                                complete,
                            },
                        )
                    } else {
                        None
                    }
                }
            }),
    {
        if scan.serial != self.rating_scan_serial || self.stop {
            return None;
        }
        let complete = scan.next == scan.files.len();
        let folder_epoch: u64 = scan.folder_epoch;
        if !complete {
            self.rating_scan = Some(scan);
        }
        if complete || entries.len() > 0 {
            Some(IoEvent::Ratings { folder_epoch, entries, complete })
        } else {
            None
        }
    }

    /// Why rejected photographs are not collected.
    pub fn collection_blocked(&self) -> (out: Option<String>)
        ensures
            match out {
                Some(reason) => self.failed.keys().len() > 0 && reason@
                    == "Some ratings could not be saved. Retry those saves before moving photos."@,
                None => self.failed.keys().len() == 0,
            },
    {
        if self.failed.len() > 0 {
            Some(
                "Some ratings could not be saved. Retry those saves before moving photos.".to_owned(),
            )
        } else {
            None
        }
    }
}

/// The rejected ones of the first `n` photographs, unless a rating could not be
/// read.
pub open spec fn rejects(
    files: Seq<(Seq<u8>, Result<Option<i8>, Seq<char>>)>,
    n: int,
) -> Result<Seq<Seq<u8>>, Seq<char>>
    decreases n,
{
    if n <= 0 {
        Ok(Seq::empty())
    } else {
        match rejects(files, n - 1) {
            Err(error) => Err(error),
            Ok(found) => match files[n - 1].1 {
                Err(error) => Err(text::lossy_text(files[n - 1].0) + ": "@ + error),
                Ok(rating) => Ok(
                    if rating == Some(-1i8) {
                        found.push(files[n - 1].0)
                    } else {
                        found
                    },
                ),
            },
        }
    }
}

/// What was read of some photographs.
pub open spec fn ratings_read(files: Seq<(PhotoPath, Result<Option<i8>, String>)>) -> Seq<
    (Seq<u8>, Result<Option<i8>, Seq<char>>),
> {
    files.map_values(
        |f: (PhotoPath, Result<Option<i8>, String>)|
            (
                f.0.raw(),
                match f.1 {
                    Ok(rating) => Ok(rating),
                    Err(error) => Err(error@),
                },
            ),
    )
}

/// The photographs that are rated as rejected. The first rating that could not
/// be read ends the collection.
pub fn collect(files: &Vec<(PhotoPath, Result<Option<i8>, String>)>) -> (out: Result<
    Vec<PhotoPath>,
    String,
>)
    ensures
        match rejects(ratings_read(files@), files@.len() as int) {
            Ok(found) => out is Ok && path::spellings(out->Ok_0@) == found,
            Err(error) => out is Err && out->Err_0@ == error,
        },
{
    let ghost all = ratings_read(files@);
    let mut found: Vec<PhotoPath> = Vec::new();
    assert(path::spellings(found@) =~= Seq::empty());
    let mut i: usize = 0;
    while i < files.len()
        invariant
            i <= files@.len(),
            all == ratings_read(files@),
            rejects(all, i as int) == Ok::<Seq<Seq<u8>>, Seq<char>>(path::spellings(found@)),
        decreases files@.len() - i,
    {
        let ghost before = found@;
        assert(all[i as int].0 == files@[i as int].0.raw());
        match &files[i].1 {
            Err(error) => {
                let words = files[i].0.display().concat(": ").concat(error.as_str());
                proof {
                    lemma_rejects_stop(all, i + 1, all.len() as int);
                }
                return Err(words);
            },
            Ok(rating) => {
                if *rating == Some(-1i8) {
                    found.push(files[i].0.copied());
                    assert(path::spellings(found@) =~= path::spellings(before).push(
                        all[i as int].0,
                    ));
                }
            },
        }
        i += 1;
    }
    Ok(found)
}

proof fn lemma_rejects_stop(
    files: Seq<(Seq<u8>, Result<Option<i8>, Seq<char>>)>,
    n: int,
    m: int,
)
    requires
        rejects(files, n) is Err,
        n <= m,
    ensures
        rejects(files, m) == rejects(files, n),
    decreases m - n,
{
    if n < m {
        lemma_rejects_stop(files, n, m - 1);
    }
}

/// Why a photograph must not go to the trash: it is not an ordinary ARW file, or
/// it is no longer rated as rejected.
pub open spec fn kept_back(
    at: Seq<u8>,
    regular: Result<bool, Seq<char>>,
    rating: Result<Option<i8>, Seq<char>>,
) -> Option<Seq<char>> {
    match regular {
        Err(error) => Some(error),
        Ok(regular) => if !regular || !directory::arw(at) {
            Some("not a regular ARW file"@)
        } else {
            match rating {
                Err(error) => Some(error),
                Ok(rating) => if rating != Some(-1i8) {
                    Some("photo is no longer marked rejected"@)
                } else {
                    None
                },
            }
        },
    }
}

/// A result with its words.
pub open spec fn worded<T>(result: Result<T, String>) -> Result<T, Seq<char>> {
    match result {
        Ok(value) => Ok(value),
        Err(error) => Err(error@),
    }
}

/// Why a photograph must not go to the trash. `regular` says whether it is an
/// ordinary file, `rating` how it is rated.
pub fn trash_refusal(
    photo: &PhotoPath,
    regular: &Result<bool, String>,
    rating: &Result<Option<i8>, String>,
) -> (out: Option<String>)
    ensures
        text::same_option(out, kept_back(photo@, worded(*regular), worded(*rating))),
{
    match regular {
        Err(error) => Some(error.as_str().to_owned()),
        Ok(regular) => if !*regular || !directory::is_arw(photo) {
            Some("not a regular ARW file".to_owned())
        } else {
            match rating {
                Err(error) => Some(error.as_str().to_owned()),
                Ok(rating) => if *rating != Some(-1i8) {
                    Some("photo is no longer marked rejected".to_owned())
                } else {
                    None
                },
            }
        },
    }
}

/// How a photograph that did not go to the trash is reported.
pub fn trash_failure(photo: &PhotoPath, error: &str) -> (out: String)
    ensures
        out@ == text::lossy_text(photo.raw()) + ": "@ + error@,
{
    photo.display().concat(": ").concat(error)
}

/// A rating that is asked for is the one that is written, whatever the sidecar said;
/// it can then be undone, and the edits of other photographs as before.
pub proof fn law_assigned_ratings_are_written(
    desk: Desk,
    at: Seq<u8>,
    write: Write,
    rating: i8,
    previous: Option<i8>,
    other: Undo,
)
    requires
        write.operation == Edit::Assign(rating),
        !desk.moved.contains_key(at),
        desk.history.len() < 100,
    ensures
        desk.attempt(at, write) == Ok::<RatingWrite, Seq<char>>(
            RatingWrite { desired: Some(rating), expected: None },
        ),
        desk.written(at, write, Some(previous)).history.contains(
            Undo { edit_id: write.edit_id, path: at, previous, rating },
        ),
        desk.history.contains(other) && other.edit_id != write.edit_id ==> desk.written(
            at,
            write,
            Some(previous),
        ).history.contains(other),
        desk.written(at, write, None).failed.contains_key(at),
        desk.written(at, write, None).failed[at] == write,
        desk.written(at, write, None).history == desk.history,
{
    lemma_others_stay(desk.history, write.edit_id, other);
    let edit = Undo { edit_id: write.edit_id, path: at, previous, rating };
    let rest = forgotten(desk.history, write.edit_id);
    let all = rest.push(edit);
    assert(latest(all, 100) == all);
    assert(all[rest.len() as int] == edit);
    if rest.contains(other) {
        let i = choose|i: int| 0 <= i < rest.len() && rest[i] == other;
        assert(all[i] == other);
    }
}

proof fn lemma_others_stay(edits: Seq<Undo>, edit_id: u64, other: Undo)
    ensures
        forgotten(edits, edit_id).len() <= edits.len(),
        edits.contains(other) && other.edit_id != edit_id ==> forgotten(edits, edit_id).contains(
            other,
        ),
    decreases edits.len(),
{
    if edits.len() > 0 {
        let short = edits.drop_last();
        lemma_others_stay(short, edit_id, other);
        let (few, more) = (forgotten(short, edit_id), forgotten(edits, edit_id));
        if edits.last().edit_id != edit_id {
            assert(more[few.len() as int] == edits.last());
            if few.contains(other) {
                let i = choose|i: int| 0 <= i < few.len() && few[i] == other;
                assert(more[i] == other);
            }
        }
        if edits.contains(other) && edits.last() != other {
            let i = choose|i: int| 0 <= i < edits.len() && edits[i] == other;
            assert(short[i] == other);
        }
    }
}

/// Once there is nothing to change, a photograph that is to be shown is read first,
/// then what was asked for in bulk, and the ratings of the folder last.
pub proof fn law_reading_follows_changing(desk: Desk, failures: int)
    requires
        desk.queue.len() == 0,
        !desk.stop,
        !desk.flush,
    ensures
        desk.read matches Some((session, at)) ==> desk.next(failures).1 == Task::Read(session, at)
            && desk.next(failures).0.read is None,
        desk.read is None && desk.batches.len() > 0 ==> desk.next(failures).1 == Task::Batch(
            desk.batches[0],
        ) && desk.next(failures).0.batches == desk.batches.skip(1),
        desk.read is None && desk.batches.len() == 0 ==> (desk.scan matches Some(scan)
            ==> desk.next(failures).1 == Task::Ratings(scan)),
        desk.read is None && desk.batches.len() == 0 && desk.scan is None ==> desk.next(failures).1
            == Task::Wait,
{
}

} // verus!
