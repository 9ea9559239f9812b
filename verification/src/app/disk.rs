//! What moves do to a disk that nobody else writes to.
//!
//! A disk leads from names to files and folders. Driven by it, an operation gets
//! the replies that the disk gives, and the disk changes as the operation asks.
use crate::app::deleted;
use crate::app::deleted::{FileId, News, Op, Pair, Sight, Step, Want};
use crate::browser::directory;
use crate::path;
use vstd::prelude::*;

verus! {

/// What a name leads to.
pub enum Node {
    File(FileId),
    Folder(FileId),
    Other,
}

/// A disk.
pub struct Disk {
    pub nodes: Map<Seq<u8>, Node>,
    /// Whether names that differ in the case of letters are different.
    pub cased: bool,
    /// What the system says when it refuses something.
    pub words: Seq<char>,
    /// The identity of a folder that is made.
    pub made: FileId,
}

impl Disk {
    /// A name as the disk compares it.
    pub open spec fn fold(self, p: Seq<u8>) -> Seq<u8> {
        if self.cased {
            p
        } else {
            p.map_values(|b: u8| path::lower(b))
        }
    }

    /// What a disk knows a path by, however it is written.
    pub open spec fn key(self, p: Seq<u8>) -> Seq<u8> {
        self.fold(path::tidy(p))
    }

    /// What is at a path.
    pub open spec fn sight(self, p: Seq<u8>) -> Sight {
        if self.nodes.contains_key(self.key(p)) {
            match self.nodes[self.key(p)] {
                Node::File(id) => Sight::File(id),
                Node::Folder(id) => Sight::Folder(id),
                Node::Other => Sight::Other,
            }
        } else {
            Sight::Absent(self.words)
        }
    }

    /// Nothing is at a path.
    pub open spec fn free(self, p: Seq<u8>) -> bool {
        !self.nodes.contains_key(self.key(p))
    }

    /// Whether a file can be renamed: it is there, and its new name is free.
    pub open spec fn can_rename(self, from: Seq<u8>, to: Seq<u8>) -> bool {
        !self.free(from) && self.free(to)
    }

    /// After a rename.
    pub open spec fn renamed(self, from: Seq<u8>, to: Seq<u8>) -> Disk {
        Disk {
            nodes: self.nodes.remove(self.key(from)).insert(
                self.key(to),
                self.nodes[self.key(from)],
            ),
            ..self
        }
    }

    /// What the disk replies to a request.
    pub open spec fn reply(self, want: Want) -> News {
        match want {
            Want::Inspect(paths) => News::Inspected(paths.map_values(|p: Seq<u8>| self.sight(p))),
            Want::CreateFolder(p) => News::Created(
                if self.free(p) {
                    None
                } else {
                    Some((true, self.words))
                },
            ),
            Want::Rename(from, to) => News::Renamed(
                if self.can_rename(from, to) {
                    None
                } else {
                    Some(self.words)
                },
            ),
            Want::Finish => News::Renamed(None),
        }
    }

    /// The disk after a request.
    pub open spec fn after(self, want: Want) -> Disk {
        match want {
            Want::CreateFolder(p) => if self.free(p) {
                Disk { nodes: self.nodes.insert(self.key(p), Node::Folder(self.made)), ..self }
            } else {
                self
            },
            Want::Rename(from, to) => if self.can_rename(from, to) {
                self.renamed(from, to)
            } else {
                self
            },
            _ => self,
        }
    }

    /// A photograph and its sidecar are where they were moved to, with nothing
    /// else beside them under their names.
    pub open spec fn holds(self, pair: Pair) -> bool {
        let names = deleted::trio(pair.destination);
        &&& self.sight(pair.destination) == Sight::File(pair.identity)
        &&& match pair.sidecar {
            Some(s) => {
                &&& s.destination == names[1]
                &&& self.sight(names[1]) == Sight::File(s.identity)
                &&& self.free(names[2]) || self.key(names[2]) == self.key(names[1])
            },
            None => self.free(names[1]) && self.free(names[2]),
        }
    }

    /// Nothing is under the names of a photograph and its sidecar.
    pub open spec fn vacant(self, raw: Seq<u8>) -> bool {
        let names = deleted::trio(raw);
        self.free(names[0]) && self.free(names[1]) && self.free(names[2])
    }

    /// The folders of a photograph and of where it was moved to are on one file
    /// system.
    pub open spec fn housed(self, pair: Pair) -> bool {
        &&& path::parent_of(pair.source) is Some
        &&& path::parent_of(pair.destination) is Some
        &&& self.sight(deleted::folder_of(pair.source)) matches Sight::Folder(here)
            && self.sight(deleted::folder_of(pair.destination)) matches Sight::Folder(there)
            && here.device == there.device
    }

    /// The names of a photograph and its sidecars, before and after a move, are
    /// different names.
    pub open spec fn apart(self, source: Seq<u8>, destination: Seq<u8>) -> bool {
        let a = deleted::trio(source);
        let b = deleted::trio(destination);
        &&& forall|i: int, j: int|
            0 <= i < 3 && 0 <= j < 3 ==> self.key(#[trigger] a[i]) != self.key(#[trigger] b[j])
        &&& self.key(a[0]) != self.key(a[1])
        &&& self.key(a[0]) != self.key(a[2])
        &&& self.key(b[0]) != self.key(b[1])
        &&& self.key(b[0]) != self.key(b[2])
    }
}

/// An operation and the disk that it works on.
pub struct World {
    pub op: Op,
    pub disk: Disk,
}

impl World {
    /// After one more reply. An operation that ended stays as it is.
    pub open spec fn next(self) -> World {
        if self.op.step is Done {
            self
        } else {
            World {
                op: self.op.answered(self.disk.reply(self.op.wanted())),
                disk: self.disk.after(self.op.wanted()),
            }
        }
    }

    /// After `n` more replies.
    pub open spec fn driven(self, n: nat) -> World
        decreases n,
    {
        if n == 0 {
            self
        } else {
            self.driven((n - 1) as nat).next()
        }
    }
}

/// A sidecar has one of the two names beside its photograph.
pub open spec fn beside(pair: Pair) -> bool {
    pair.sidecar matches Some(s) ==> s.source == deleted::trio(pair.source)[1] || s.source
        == deleted::trio(pair.source)[2]
}

/// A disk after a photograph and its sidecar went back.
pub open spec fn put_back(disk: Disk, pair: Pair) -> Disk {
    let aside = match pair.sidecar {
        Some(s) => disk.renamed(s.destination, s.source),
        None => disk,
    };
    aside.renamed(pair.destination, pair.source)
}

/// What a look at a disk shows.
proof fn lemma_look(w: World)
    requires
        w.op.wanted() is Inspect,
        !(w.op.step is Done),
    ensures
        ({
            let paths = w.op.wanted()->Inspect_0;
            let seen = paths.map_values(|p: Seq<u8>| w.disk.sight(p));
            &&& seen.len() == paths.len()
            &&& forall|i: int| 0 <= i < seen.len() ==> #[trigger] seen[i] == w.disk.sight(paths[i])
            &&& w.next().disk == w.disk
            &&& w.next().op == w.op.looked(seen)
        }),
{
}

/// A rename on a disk.
proof fn lemma_renamed(disk: Disk, from: Seq<u8>, to: Seq<u8>)
    requires
        disk.can_rename(from, to),
    ensures
        forall|p: Seq<u8>|
            disk.key(p) != disk.key(from) && disk.key(p) != disk.key(to) ==> #[trigger]
            disk.renamed(from, to).sight(p) == disk.sight(p),
        forall|p: Seq<u8>|
            disk.key(p) == disk.key(to) ==> #[trigger] disk.renamed(from, to).sight(p)
                == disk.sight(from),
        forall|p: Seq<u8>|
            disk.key(p) == disk.key(from) ==> #[trigger] disk.renamed(from, to).free(p),
        forall|p: Seq<u8>|
            disk.key(p) != disk.key(from) && disk.key(p) != disk.key(to) ==> #[trigger]
            disk.renamed(from, to).free(p) == disk.free(p),
        forall|p: Seq<u8>| #[trigger] disk.renamed(from, to).key(p) == disk.key(p),
{
}

/// The undo of a move, up to its first rename.
#[verifier::spinoff_prover]
#[verifier::rlimit(40)]
proof fn lemma_back_checked(undo: Op, disk: Disk)
    requires
        undo.step == Step::Snapshot,
        undo.restoring,
        disk.holds(undo.pair),
        disk.vacant(undo.pair.source),
        disk.housed(undo.pair),
        disk.apart(undo.pair.source, undo.pair.destination),
        beside(undo.pair),
    ensures
        ({
            let start = World { op: undo, disk };
            let two = start.next().next();
            &&& two.disk == disk
            &&& two.op.pair == undo.pair
            &&& two.op.restoring
            &&& disk.sight(deleted::folder_of(undo.pair.destination)) == Sight::Folder(
                two.op.parents.0,
            )
            &&& disk.sight(deleted::folder_of(undo.pair.source)) == Sight::Folder(
                two.op.parents.1,
            )
            &&& two.op.step == if undo.pair.sidecar is Some {
                Step::CheckSidecar
            } else {
                Step::CheckRaw
            }
        }),
{
    let start = World { op: undo, disk };
    let names = deleted::trio(undo.pair.destination);
    lemma_look(start);
    let one = start.next();
    assert(one.op.step == Step::Check);
    assert(one.op.pair.sidecar == undo.pair.sidecar);
    assert(one.op.pair == undo.pair);
    lemma_look(one);
    let paths = one.op.wanted()->Inspect_0;
    assert(paths =~= deleted::trio(undo.pair.destination) + deleted::trio(undo.pair.source)
        + one.op.guards(one.op.side_from()));
    assert(paths[0] == names[0]);
    assert(paths[1] == names[1]);
    assert(paths[2] == names[2]);
    assert(paths[3] == deleted::trio(undo.pair.source)[0]);
    assert(paths[4] == deleted::trio(undo.pair.source)[1]);
    assert(paths[5] == deleted::trio(undo.pair.source)[2]);
    assert(paths[6] == deleted::folder_of(undo.pair.destination));
    assert(paths[7] == deleted::folder_of(undo.pair.source));
    assert(paths[8] == one.op.side_from());
}

/// The look before a rename shows nothing amiss.
proof fn lemma_guarded(w: World, file: Seq<u8>, identity: FileId)
    requires
        w.op.wanted() == Want::Inspect(w.op.guards(file)),
        !(w.op.step is Done),
        w.disk.sight(deleted::folder_of(w.op.from())) == Sight::Folder(w.op.parents.0),
        w.disk.sight(deleted::folder_of(w.op.to())) == Sight::Folder(w.op.parents.1),
        w.disk.sight(file) == Sight::File(identity),
    ensures
        ({
            let seen = w.op.guards(file).map_values(|p: Seq<u8>| w.disk.sight(p));
            w.op.disturbed(seen, file, identity) is None
        }),
{
    lemma_look(w);
    let paths = w.op.guards(file);
    assert(paths[0] == deleted::folder_of(w.op.from()));
    assert(paths[1] == deleted::folder_of(w.op.to()));
    assert(paths[2] == file);
}

/// An operation from the look before the photograph is renamed to its end.
proof fn lemma_raw_ends(w: World)
    requires
        w.op.step == Step::CheckRaw,
        w.disk.sight(deleted::folder_of(w.op.from())) == Sight::Folder(w.op.parents.0),
        w.disk.sight(deleted::folder_of(w.op.to())) == Sight::Folder(w.op.parents.1),
        w.disk.sight(w.op.from()) == Sight::File(w.op.pair.identity),
        w.disk.free(w.op.to()),
        w.op.pair.sidecar matches Some(s) ==> w.disk.sight(w.op.side_to()) == Sight::File(
            s.identity,
        ) && w.disk.key(w.op.side_to()) != w.disk.key(w.op.from()) && w.disk.key(w.op.side_to())
            != w.disk.key(w.op.to()),
    ensures
        ({
            let end = w.next().next().next();
            &&& end.op.step == Step::Done(None)
            &&& end.op.pair == w.op.pair
            &&& end.disk == w.disk.renamed(w.op.from(), w.op.to())
        }),
{
    lemma_guarded(w, w.op.from(), w.op.pair.identity);
    lemma_look(w);
    let a = w.next();
    assert(a.op.step == Step::MoveRaw);
    assert(a.op.wanted() == Want::Rename(w.op.from(), w.op.to()));
    let b = a.next();
    assert(b.op.step == Step::Verify);
    assert(b.disk == w.disk.renamed(w.op.from(), w.op.to()));
    lemma_renamed(w.disk, w.op.from(), w.op.to());
    lemma_look(b);
    let paths = b.op.wanted()->Inspect_0;
    assert(paths[0] == w.op.to());
    assert(paths[1] == w.op.side_to());
    assert(b.disk.sight(w.op.to()) == Sight::File(w.op.pair.identity));
    if let Some(s) = w.op.pair.sidecar {
        assert(b.disk.sight(w.op.side_to()) == Sight::File(s.identity));
    }
}

/// The undo of a move succeeds on a disk on which its files are where they were
/// moved to, their old names are free and their folders are there. Both files are
/// at their old names then, and nothing else changed.
#[verifier::spinoff_prover]
#[verifier::rlimit(40)]
pub proof fn law_undo_succeeds(undo: Op, disk: Disk)
    requires
        undo.step == Step::Snapshot,
        undo.restoring,
        disk.holds(undo.pair),
        disk.vacant(undo.pair.source),
        disk.housed(undo.pair),
        disk.apart(undo.pair.source, undo.pair.destination),
        beside(undo.pair),
    ensures
        ({
            let end = (World { op: undo, disk }).driven(7);
            &&& end.op.step == Step::Done(None)
            &&& end.op.pair == undo.pair
            &&& end.disk == put_back(disk, undo.pair)
            &&& end.disk.sight(undo.pair.source) == Sight::File(undo.pair.identity)
            &&& end.disk.vacant(undo.pair.destination)
            &&& match undo.pair.sidecar {
                Some(s) => end.disk.sight(s.source) == Sight::File(s.identity),
                None => end.disk.free(deleted::trio(undo.pair.source)[1]) && end.disk.free(
                    deleted::trio(undo.pair.source)[2],
                ),
            }
        }),
{
    let start = World { op: undo, disk };
    let (from, to) = (undo.pair.destination, undo.pair.source);
    let old_names = deleted::trio(to);
    let names = deleted::trio(from);
    reveal_with_fuel(World::driven, 8);
    lemma_back_checked(undo, disk);
    let two = start.next().next();
    assert(old_names[0] == to);
    assert(names[0] == from);
    match undo.pair.sidecar {
        None => {
            lemma_raw_ends(two);
            lemma_renamed(disk, from, to);
        },
        Some(s) => {
            assert(disk.key(s.source) != disk.key(s.destination));
            lemma_guarded(two, s.destination, s.identity);
            lemma_look(two);
            let three = two.next();
            assert(three.op.step == Step::MoveSidecar);
            assert(three.op.wanted() == Want::Rename(s.destination, s.source));
            let four = three.next();
            assert(four.op.step == Step::CheckRaw);
            assert(four.disk == disk.renamed(s.destination, s.source));
            lemma_renamed(disk, s.destination, s.source);
            lemma_folder_stays(disk, s.destination, s.source, deleted::folder_of(from));
            lemma_folder_stays(disk, s.destination, s.source, deleted::folder_of(to));
            lemma_raw_ends(four);
            lemma_renamed(four.disk, from, to);
        },
    }
}

/// A folder is not touched by the rename of a file.
proof fn lemma_folder_stays(disk: Disk, from: Seq<u8>, to: Seq<u8>, folder: Seq<u8>)
    requires
        disk.can_rename(from, to),
        disk.sight(from) is File,
        disk.sight(folder) is Folder,
    ensures
        disk.renamed(from, to).sight(folder) == disk.sight(folder),
{
    lemma_renamed(disk, from, to);
}

/// What a disk held is still there.
pub open spec fn grown(before: Disk, after: Disk) -> bool {
    &&& after.cased == before.cased
    &&& after.words == before.words
    &&& forall|k: Seq<u8>| #[trigger]
        before.nodes.contains_key(k) ==> after.nodes.contains_key(k) && after.nodes[k]
            == before.nodes[k]
}

/// A move is prepared: the photograph and its sidecar are known.
pub open spec fn ready(start: World, w: World) -> bool {
    let pair = w.op.pair;
    &&& grown(start.disk, w.disk)
    &&& directory::arw(pair.source)
    &&& deleted::folder_of(pair.source).len() > 0
    &&& start.disk.sight(pair.source) == Sight::File(pair.identity)
    &&& beside(pair)
    &&& pair.sidecar matches Some(s) ==> start.disk.sight(s.source) == Sight::File(s.identity)
}

/// The name of a prepared move is chosen.
pub open spec fn named(start: World, w: World) -> bool {
    let pair = w.op.pair;
    &&& directory::arw(pair.source)
    &&& deleted::folder_of(pair.source).len() > 0
    &&& start.disk.sight(pair.source) == Sight::File(pair.identity)
    &&& beside(pair)
    &&& w.disk.cased == start.disk.cased
    &&& exists|attempt: int|
        0 <= attempt && #[trigger] deleted::candidate(
            pair.source,
            deleted::rejects_of(pair.source),
            attempt,
        ) == Some(pair.destination)
    &&& pair.sidecar matches Some(s) ==> s.destination == deleted::trio(pair.destination)[1]
        && start.disk.sight(s.source) == Sight::File(s.identity)
}

/// The folders are those that were seen.
pub open spec fn watched(w: World) -> bool {
    &&& path::parent_of(w.op.pair.source) is Some
    &&& path::parent_of(w.op.pair.destination) is Some
    &&& w.disk.sight(deleted::folder_of(w.op.pair.source)) == Sight::Folder(w.op.parents.0)
    &&& w.disk.sight(deleted::folder_of(w.op.pair.destination)) == Sight::Folder(w.op.parents.1)
    &&& w.op.parents.0.device == w.op.parents.1.device
}

/// What is known at each step of a move.
pub open spec fn underway(start: World, w: World) -> bool {
    let pair = w.op.pair;
    let names = deleted::trio(pair.destination);
    &&& !w.op.restoring
    &&& pair.source == start.op.pair.source
    &&& match w.op.step {
        Step::Prepare => w.disk == start.disk && pair.sidecar is None,
        Step::MakeFolder | Step::LookFolder | Step::Name(_) => ready(start, w),
        Step::Check => named(start, w) && grown(start.disk, w.disk),
        Step::CheckSidecar | Step::MoveSidecar => {
            &&& named(start, w)
            &&& watched(w)
            &&& pair.sidecar is Some
            &&& w.disk.sight(pair.source) == Sight::File(pair.identity)
            &&& w.disk.sight((pair.sidecar->0).source) == Sight::File((pair.sidecar->0).identity)
            &&& w.disk.vacant(pair.destination)
        },
        Step::CheckRaw | Step::MoveRaw => {
            &&& named(start, w)
            &&& watched(w)
            &&& w.disk.sight(pair.source) == Sight::File(pair.identity)
            &&& w.disk.free(pair.destination)
            &&& match pair.sidecar {
                Some(s) => {
                    &&& w.disk.sight(names[1]) == Sight::File(s.identity)
                    &&& w.disk.free(names[2]) || w.disk.key(names[2]) == w.disk.key(names[1])
                },
                None => w.disk.free(names[1]) && w.disk.free(names[2]),
            }
        },
        Step::Verify | Step::Done(None) => named(start, w) && watched(w) && w.disk.holds(pair),
        Step::Snapshot => false,
        _ => true,
    }
}

/// A move as it begins.
pub open spec fn begins(op: Op) -> bool {
    &&& op.step == Step::Prepare
    &&& !op.restoring
    &&& op.pair.sidecar is None
}

proof fn lemma_underway(start: World, n: nat)
    requires
        begins(start.op),
    ensures
        underway(start, start.driven(n)),
    decreases n,
{
    if n > 0 {
        lemma_underway(start, (n - 1) as nat);
        lemma_step(start, start.driven((n - 1) as nat));
    }
}

proof fn lemma_step(start: World, w: World)
    requires
        begins(start.op),
        underway(start, w),
    ensures
        underway(start, w.next()),
{
    match w.op.step {
        Step::Prepare => lemma_prepared(start, w),
        Step::MakeFolder => lemma_folder_made(start, w),
        Step::LookFolder => lemma_folder_seen(start, w),
        Step::Name(attempt) => lemma_name_tried(start, w, attempt),
        Step::Check => lemma_move_checked(start, w),
        Step::CheckSidecar | Step::CheckRaw => lemma_watched(start, w),
        Step::MoveSidecar => lemma_sidecar_moved(start, w),
        Step::MoveRaw => lemma_raw_moved(start, w),
        Step::Verify => lemma_verified(start, w),
        Step::Done(_) => {},
        _ => lemma_failing(start, w),
    }
}

/// The first look at a photograph.
#[verifier::spinoff_prover]
#[verifier::rlimit(40)]
proof fn lemma_prepared(start: World, w: World)
    requires
        begins(start.op),
        underway(start, w),
        w.op.step == Step::Prepare,
    ensures
        underway(start, w.next()),
{
    let source = w.op.pair.source;
    lemma_look(w);
    let paths = w.op.wanted()->Inspect_0;
    let names = deleted::trio(source);
    assert(paths[0] == names[0]);
    assert(paths[1] == names[1]);
    assert(paths[2] == names[2]);
    assert(paths[3] == deleted::folder_of(source));
}

/// The folder of rejected photographs.
proof fn lemma_folder_made(start: World, w: World)
    requires
        begins(start.op),
        underway(start, w),
        w.op.step == Step::MakeFolder,
    ensures
        underway(start, w.next()),
{
    assert(w.op.wanted() == Want::CreateFolder(deleted::rejects_of(w.op.pair.source)));
    assert(grown(w.disk, w.next().disk));
}

proof fn lemma_folder_seen(start: World, w: World)
    requires
        begins(start.op),
        underway(start, w),
        w.op.step == Step::LookFolder,
    ensures
        underway(start, w.next()),
{
    lemma_look(w);
}

/// A name in the folder of rejected photographs.
proof fn lemma_name_tried(start: World, w: World, attempt: usize)
    requires
        begins(start.op),
        underway(start, w),
        w.op.step == Step::Name(attempt),
    ensures
        underway(start, w.next()),
{
    lemma_look(w);
    let pair = w.op.pair;
    let paths = w.op.wanted()->Inspect_0;
    assert(paths.len() == 3);
    let seen = paths.map_values(|p: Seq<u8>| w.disk.sight(p));
    assert(w.next().op == w.op.tried(attempt, seen[0], seen[1], seen[2]));
    let chosen = deleted::candidate(
        pair.source,
        deleted::rejects_of(pair.source),
        attempt as int,
    );
    if w.next().op.step == Step::Check {
        assert(chosen == Some(w.next().op.pair.destination));
    }
}

/// A look before a rename.
proof fn lemma_watched(start: World, w: World)
    requires
        begins(start.op),
        underway(start, w),
        w.op.step == Step::CheckSidecar || w.op.step == Step::CheckRaw,
    ensures
        underway(start, w.next()),
{
    lemma_look(w);
}

/// The look after both renames.
proof fn lemma_verified(start: World, w: World)
    requires
        begins(start.op),
        underway(start, w),
        w.op.step == Step::Verify,
    ensures
        underway(start, w.next()),
{
    lemma_look(w);
}

/// A move that failed never succeeds.
proof fn lemma_failing(start: World, w: World)
    requires
        begins(start.op),
        underway(start, w),
        w.op.step is CheckBack || w.op.step is MoveBack || w.op.step is Report
            || w.op.step is Locate,
    ensures
        underway(start, w.next()),
{
    if !(w.op.step is MoveBack) {
        lemma_look(w);
    }
}

/// The look before a move shows that it can be made.
#[verifier::spinoff_prover]
#[verifier::rlimit(40)]
proof fn lemma_move_checked(start: World, w: World)
    requires
        begins(start.op),
        underway(start, w),
        w.op.step == Step::Check,
    ensures
        underway(start, w.next()),
{
    let pair = w.op.pair;
    lemma_look(w);
    let paths = w.op.wanted()->Inspect_0;
    let old_names = deleted::trio(pair.source);
    let names = deleted::trio(pair.destination);
    assert(paths =~= old_names + names + w.op.guards(w.op.side_from()));
    assert(paths[0] == old_names[0]);
    assert(paths[1] == old_names[1]);
    assert(paths[2] == old_names[2]);
    assert(paths[3] == names[0]);
    assert(paths[4] == names[1]);
    assert(paths[5] == names[2]);
    assert(paths[6] == deleted::folder_of(pair.source));
    assert(paths[7] == deleted::folder_of(pair.destination));
    assert(paths[8] == w.op.side_from());
    let seen = paths.map_values(|p: Seq<u8>| w.disk.sight(p));
    assert(w.next().op == w.op.looked(seen));
    if w.op.checked(seen) is Ok {
        assert(w.disk.vacant(pair.destination));
    }
}

/// A sidecar that was moved is under its new name.
#[verifier::spinoff_prover]
#[verifier::rlimit(40)]
proof fn lemma_sidecar_moved(start: World, w: World)
    requires
        begins(start.op),
        underway(start, w),
        w.op.step == Step::MoveSidecar,
    ensures
        underway(start, w.next()),
{
    let pair = w.op.pair;
    let s = pair.sidecar->0;
    let names = deleted::trio(pair.destination);
    let old_names = deleted::trio(pair.source);
    assert(names[0] == pair.destination);
    assert(old_names[0] == pair.source);
    lemma_names_apart(start, w);
    assert(w.op.wanted() == Want::Rename(s.source, s.destination));
    assert(w.disk.can_rename(s.source, s.destination));
    lemma_renamed(w.disk, s.source, s.destination);
    lemma_folder_stays(w.disk, s.source, s.destination, deleted::folder_of(pair.source));
    lemma_folder_stays(w.disk, s.source, s.destination, deleted::folder_of(pair.destination));
    let next = w.next();
    assert(next.disk == w.disk.renamed(s.source, s.destination));
    assert(next.op.pair == pair);
    assert(next.disk.sight(pair.source) == Sight::File(pair.identity));
    assert(next.disk.free(pair.destination));
    assert(named(start, next));
}

/// A photograph that was moved is under its new name.
#[verifier::spinoff_prover]
#[verifier::rlimit(40)]
proof fn lemma_raw_moved(start: World, w: World)
    requires
        begins(start.op),
        underway(start, w),
        w.op.step == Step::MoveRaw,
    ensures
        underway(start, w.next()),
{
    let pair = w.op.pair;
    let names = deleted::trio(pair.destination);
    let old_names = deleted::trio(pair.source);
    assert(names[0] == pair.destination);
    assert(old_names[0] == pair.source);
    lemma_names_apart(start, w);
    assert(w.op.wanted() == Want::Rename(pair.source, pair.destination));
    assert(w.disk.can_rename(pair.source, pair.destination));
    lemma_renamed(w.disk, pair.source, pair.destination);
    lemma_folder_stays(w.disk, pair.source, pair.destination, deleted::folder_of(pair.source));
    lemma_folder_stays(w.disk, pair.source, pair.destination, deleted::folder_of(pair.destination));
    let next = w.next();
    assert(next.disk == w.disk.renamed(pair.source, pair.destination));
    assert(next.op.pair == pair);
    assert(next.disk.holds(pair));
    assert(named(start, next));
}

proof fn lemma_names_apart(start: World, w: World)
    requires
        begins(start.op),
        w.op.pair.source == start.op.pair.source,
        named(start, w),
    ensures
        w.disk.apart(w.op.pair.source, w.op.pair.destination),
{
    let pair = w.op.pair;
    let attempt = choose|attempt: int|
        0 <= attempt && #[trigger] deleted::candidate(
            pair.source,
            deleted::rejects_of(pair.source),
            attempt,
        ) == Some(pair.destination);
    lemma_apart(w.disk, pair.source, pair.destination, attempt);
}

/// Equal names differ at most in the case of letters.
proof fn lemma_folded(disk: Disk, p: Seq<u8>, q: Seq<u8>)
    requires
        disk.fold(p) == disk.fold(q),
    ensures
        p.len() == q.len(),
        forall|i: int| 0 <= i < p.len() ==> path::lower(#[trigger] p[i]) == path::lower(q[i]),
{
    assert(disk.fold(p).len() == p.len());
    assert(disk.fold(q).len() == q.len());
    assert forall|i: int| 0 <= i < p.len() implies path::lower(#[trigger] p[i]) == path::lower(
        q[i],
    ) by {
        assert(disk.fold(p)[i] == disk.fold(q)[i]);
        if !disk.cased {
            assert(disk.fold(p)[i] == path::lower(p[i]));
            assert(disk.fold(q)[i] == path::lower(q[i]));
        }
    }
}

/// A name in a folder and one in a folder below it are different names.
proof fn lemma_deeper(disk: Disk, p: Seq<u8>, c: int, q: Seq<u8>, d: int)
    requires
        0 < c < d <= q.len(),
        forall|k: int| c <= k < p.len() ==> p[k] != 0x2f,
        q[d - 1] == 0x2f,
    ensures
        disk.fold(p) != disk.fold(q),
{
    if disk.fold(p) == disk.fold(q) {
        lemma_folded(disk, p, q);
        assert(path::lower(p[d - 1]) == path::lower(q[d - 1]));
    }
}

/// Names whose last letters differ are different names.
proof fn lemma_last_letters(disk: Disk, p: Seq<u8>, q: Seq<u8>)
    requires
        p.len() > 0,
        q.len() > 0,
        path::lower(p.last()) != path::lower(q.last()),
    ensures
        disk.fold(p) != disk.fold(q),
{
    if disk.fold(p) == disk.fold(q) {
        lemma_folded(disk, p, q);
        assert(path::lower(p[p.len() - 1]) == path::lower(q[p.len() - 1]));
    }
}

/// How a photograph is written does not matter: the tidy forms of its names are
/// the names of its tidy form.
#[verifier::spinoff_prover]
#[verifier::rlimit(40)]
proof fn lemma_tidy_move(source: Seq<u8>, destination: Seq<u8>, attempt: int)
    requires
        directory::arw(source),
        deleted::folder_of(source).len() > 0,
        attempt >= 0,
        deleted::candidate(source, deleted::rejects_of(source), attempt) == Some(destination),
    ensures
        ({
            let s = path::tidy(source);
            let d = path::tidy(destination);
            &&& path::tidy(s) == s
            &&& directory::arw(s)
            &&& deleted::folder_of(s).len() > 0
            &&& deleted::rejects_of(s) == path::tidy(deleted::rejects_of(source))
            &&& deleted::candidate(s, deleted::rejects_of(s), attempt) == Some(d)
        }),
{
    let s = path::tidy(source);
    let folder = deleted::folder_of(source);
    let rejects = deleted::rejects_of(source);
    path::law_tidy_forms_name_components(source, source);
    path::lemma_tidy_name(source);
    path::lemma_tidy_parent(source);
    path::lemma_tidy_length(folder);
    deleted::lemma_plain_words();
    deleted::lemma_plain_candidate(source, attempt);
    path::law_tidy_joins(folder, deleted::rejected_folder());
    let number = vstd::utf8::encode_utf8("-"@ + crate::text::decimal(attempt + 1) + "."@);
    let renamed = if attempt == 0 {
        path::file_name_of(source)->0
    } else {
        path::stem_of(source)->0 + number + path::extension_of(source)->0
    };
    assert(destination == path::joined(rejects, renamed));
    path::law_tidy_joins(rejects, renamed);
}

/// The names of a path and of its sidecars, tidied.
proof fn lemma_tidy_trio(p: Seq<u8>)
    ensures
        path::tidy(deleted::trio(p)[0]) == deleted::trio(path::tidy(p))[0],
        path::tidy(deleted::trio(p)[1]) == deleted::trio(path::tidy(p))[1],
        path::tidy(deleted::trio(p)[2]) == deleted::trio(path::tidy(p))[2],
{
    deleted::lemma_plain_words();
    path::law_tidy_extends(p, deleted::lower_xmp());
    path::law_tidy_extends(p, deleted::upper_xmp());
}

/// The new name of a photograph is deeper than its old one, and ends with the same
/// letter.
#[verifier::spinoff_prover]
#[verifier::rlimit(40)]
proof fn lemma_new_name(source: Seq<u8>, destination: Seq<u8>, attempt: int)
    requires
        path::tidy(source) == source,
        directory::arw(source),
        deleted::folder_of(source).len() > 0,
        attempt >= 0,
        deleted::candidate(source, deleted::rejects_of(source), attempt) == Some(destination),
    ensures
        ({
            let c = path::name_start(source);
            let d = path::name_start(destination);
            &&& 0 < c < d < destination.len()
            &&& c < source.len()
            &&& forall|k: int| c <= k < source.len() ==> source[k] != 0x2f
            &&& destination[d - 1] == 0x2f
            &&& path::stem_of(source) is Some
            &&& path::stem_of(destination) is Some
            &&& path::lower(source.last()) == 0x77
            &&& path::lower(destination.last()) == 0x77
        }),
{
    let folder = deleted::folder_of(source);
    let rejects = deleted::rejects_of(source);
    let name = path::file_name_of(source)->0;
    let extension = path::extension_of(source)->0;
    deleted::lemma_plain_words();
    deleted::lemma_plain_candidate(source, attempt);
    path::lemma_tidy_parts(source);
    lemma_rejected_length();
    path::lemma_below(folder, deleted::rejected_folder());
    let number = vstd::utf8::encode_utf8("-"@ + crate::text::decimal(attempt + 1) + "."@);
    let renamed = if attempt == 0 {
        name
    } else {
        path::stem_of(source)->0 + number + extension
    };
    assert(destination == path::joined(rejects, renamed));
    assert(extension.len() == 3);
    path::lemma_name_ends(source);
    assert(renamed.len() >= 3);
    assert(renamed.last() == extension.last());
    path::lemma_below(rejects, renamed);
    assert(path::lower(extension.last()) == 0x77) by {
        assert(path::lower(extension[2]) == path::lower(seq![0x61u8, 0x72u8, 0x77u8][2]));
    }
    let c = path::name_start(source);
    assert(source.skip(c).last() == source.last());
}

proof fn lemma_rejected_length()
    ensures
        deleted::rejected_folder().len() == 9,
        deleted::rejected_folder() != seq![0x2eu8, 0x2eu8],
{
    reveal_strlit("_Rejected");
    assert(vstd::utf8::is_ascii_chars("_Rejected"@));
    vstd::utf8::is_ascii_chars_encode_utf8("_Rejected"@);
}

/// A photograph is known by other names before a move than after it, and its
/// sidecars by other names than itself.
#[verifier::spinoff_prover]
#[verifier::rlimit(40)]
proof fn lemma_apart(disk: Disk, source: Seq<u8>, destination: Seq<u8>, attempt: int)
    requires
        directory::arw(source),
        deleted::folder_of(source).len() > 0,
        attempt >= 0,
        deleted::candidate(source, deleted::rejects_of(source), attempt) == Some(destination),
    ensures
        disk.apart(source, destination),
{
    let (s, t) = (path::tidy(source), path::tidy(destination));
    let a = deleted::trio(source);
    let b = deleted::trio(destination);
    lemma_tidy_move(source, destination, attempt);
    lemma_tidy_trio(source);
    lemma_tidy_trio(destination);
    lemma_names_differ(disk, s, t, attempt);
    assert forall|i: int, j: int| 0 <= i < 3 && 0 <= j < 3 implies disk.key(#[trigger] a[i])
        != disk.key(#[trigger] b[j]) by {
        assert(path::tidy(a[i]) == deleted::trio(s)[i]);
        assert(path::tidy(b[j]) == deleted::trio(t)[j]);
    }
}

/// The same of tidy paths.
#[verifier::spinoff_prover]
#[verifier::rlimit(40)]
proof fn lemma_names_differ(disk: Disk, source: Seq<u8>, destination: Seq<u8>, attempt: int)
    requires
        path::tidy(source) == source,
        directory::arw(source),
        deleted::folder_of(source).len() > 0,
        attempt >= 0,
        deleted::candidate(source, deleted::rejects_of(source), attempt) == Some(destination),
    ensures
        ({
            let a = deleted::trio(source);
            let b = deleted::trio(destination);
            &&& forall|i: int, j: int|
                0 <= i < 3 && 0 <= j < 3 ==> disk.fold(#[trigger] a[i]) != disk.fold(
                    #[trigger] b[j],
                )
            &&& disk.fold(a[0]) != disk.fold(a[1])
            &&& disk.fold(a[0]) != disk.fold(a[2])
            &&& disk.fold(b[0]) != disk.fold(b[1])
            &&& disk.fold(b[0]) != disk.fold(b[2])
        }),
{
    let (small, large) = (deleted::lower_xmp(), deleted::upper_xmp());
    deleted::lemma_plain_words();
    lemma_new_name(source, destination, attempt);
    lemma_xmp_letters();
    path::lemma_extended_shape(source, small);
    path::lemma_extended_shape(source, large);
    path::lemma_extended_shape(destination, small);
    path::lemma_extended_shape(destination, large);
    let c = path::name_start(source);
    let d = path::name_start(destination);
    let a = deleted::trio(source);
    let b = deleted::trio(destination);
    assert forall|i: int, j: int| 0 <= i < 3 && 0 <= j < 3 implies disk.fold(#[trigger] a[i])
        != disk.fold(#[trigger] b[j]) by {
        assert(a[i] == source || a[i] == path::extended(source, small) || a[i] == path::extended(
            source,
            large,
        ));
        assert(b[j] == destination || b[j] == path::extended(destination, small) || b[j]
            == path::extended(destination, large));
        lemma_deeper(disk, a[i], c, b[j], d);
    }
    lemma_last_letters(disk, a[0], a[1]);
    lemma_last_letters(disk, a[0], a[2]);
    lemma_last_letters(disk, b[0], b[1]);
    lemma_last_letters(disk, b[0], b[2]);
}

proof fn lemma_xmp_letters()
    ensures
        deleted::lower_xmp().len() == 3,
        deleted::upper_xmp().len() == 3,
        path::lower(deleted::lower_xmp().last()) == 0x70,
        path::lower(deleted::upper_xmp().last()) == 0x70,
{
    reveal_strlit("xmp");
    reveal_strlit("XMP");
    assert(vstd::utf8::is_ascii_chars("xmp"@));
    assert(vstd::utf8::is_ascii_chars("XMP"@));
    vstd::utf8::is_ascii_chars_encode_utf8("xmp"@);
    vstd::utf8::is_ascii_chars_encode_utf8("XMP"@);
    assert("xmp"@[2] as u8 == deleted::lower_xmp()[2]);
    assert("XMP"@[2] as u8 == deleted::upper_xmp()[2]);
}

/// A move that succeeds leaves both files where its record says they are, with
/// the identities that they had before.
pub proof fn law_move_keeps_files(start: World, n: nat)
    requires
        begins(start.op),
        start.driven(n).op.step == Step::Done(None),
    ensures
        ({
            let end = start.driven(n);
            let pair = end.op.pair;
            &&& pair.source == start.op.pair.source
            &&& start.disk.sight(pair.source) == Sight::File(pair.identity)
            &&& pair.sidecar matches Some(s) ==> start.disk.sight(s.source) == Sight::File(
                s.identity,
            )
            &&& beside(pair)
            &&& end.disk.holds(pair)
            &&& end.disk.housed(pair)
            &&& end.disk.apart(pair.source, pair.destination)
        }),
{
    lemma_underway(start, n);
    lemma_names_apart(start, start.driven(n));
}

/// A disk on which a photograph can be moved under its own name: it is a file in a
/// folder, its sidecar is unambiguous, `_Rejected` can be used, and its name is
/// free there.
pub open spec fn movable(disk: Disk, source: Seq<u8>) -> bool {
    let names = deleted::trio(source);
    let folder = deleted::folder_of(source);
    let rejects = deleted::rejects_of(source);
    &&& directory::arw(source)
    &&& disk.sight(source) is File
    &&& folder.len() > 0
    &&& !deleted::rejected(folder)
    &&& deleted::sidecar_of(source, disk.sight(names[1]), disk.sight(names[2])) is Ok
    &&& disk.sight(folder) matches Sight::Folder(home) && (if disk.free(rejects) {
        disk.made.device == home.device
    } else {
        disk.sight(rejects) matches Sight::Folder(id) && id.device == home.device
    })
    &&& disk.vacant(deleted::candidate(source, rejects, 0)->0)
}

/// The first steps of a move, up to the look at everything it touches.
#[verifier::spinoff_prover]
#[verifier::rlimit(40)]
proof fn lemma_move_named(start: World)
    requires
        begins(start.op),
        movable(start.disk, start.op.pair.source),
    ensures
        ({
            let source = start.op.pair.source;
            let names = deleted::trio(source);
            let w = start.driven(4);
            &&& w.op.step == Step::Check
            &&& w.op.pair.destination == deleted::candidate(
                source,
                deleted::rejects_of(source),
                0,
            )->0
            &&& w.disk.vacant(w.op.pair.destination)
            &&& w.disk.sight(source) == start.disk.sight(source)
            &&& w.disk.sight(names[1]) == start.disk.sight(names[1])
            &&& w.disk.sight(names[2]) == start.disk.sight(names[2])
            &&& w.disk.sight(deleted::folder_of(source)) == start.disk.sight(
                deleted::folder_of(source),
            )
            &&& w.disk.sight(deleted::rejects_of(source)) matches Sight::Folder(id)
                && start.disk.sight(deleted::folder_of(source)) matches Sight::Folder(home)
                && id.device == home.device
            &&& start.disk.sight(source) == Sight::File(w.op.pair.identity)
            &&& deleted::sidecar_of(
                source,
                start.disk.sight(names[1]),
                start.disk.sight(names[2]),
            ) == Ok::<Option<(Seq<u8>, FileId)>, Seq<char>>(
                match w.op.pair.sidecar {
                    Some(s) => Some((s.source, s.identity)),
                    None => None,
                },
            )
        }),
{
    reveal_with_fuel(World::driven, 5);
    let source = start.op.pair.source;
    let disk = start.disk;
    let names = deleted::trio(source);
    let rejects = deleted::rejects_of(source);
    let destination = deleted::candidate(source, rejects, 0)->0;
    let new_names = deleted::trio(destination);
    assert(path::stem_of(source) is Some);
    assert(deleted::candidate(source, rejects, 0) == Some(destination));
    lemma_look(start);
    let paths = start.op.wanted()->Inspect_0;
    assert(paths[0] == names[0]);
    assert(paths[1] == names[1]);
    assert(paths[2] == names[2]);
    assert(paths[3] == deleted::folder_of(source));
    let one = start.next();
    assert(one.op.step == Step::MakeFolder);
    let two = one.next();
    assert(one.op.wanted() == Want::CreateFolder(rejects));
    assert(two.op.step == Step::LookFolder);
    assert(two.disk.sight(rejects) is Folder);
    lemma_created(disk, source);
    lemma_look(two);
    let three = two.next();
    assert(three.op.step == Step::Name(0));
    lemma_look(three);
    let tried = three.op.wanted()->Inspect_0;
    assert(tried =~= new_names);
    assert(new_names[0] == destination);
    let four = three.next();
    assert(four.op == three.op.named(destination));
    assert(start.driven(4) == four);
}

/// The names of a photograph and of its sidecars are not that of `_Rejected`.
#[verifier::spinoff_prover]
#[verifier::rlimit(40)]
proof fn lemma_not_rejects(disk: Disk, rejects: Seq<u8>, p: Seq<u8>)
    requires
        rejects.len() > 0,
        path::lower(rejects.last()) == 0x64,
        p.len() > 0,
        path::lower(p.last()) == 0x77,
        path::stem_of(p) is Some,
        path::name_start(p) > 0,
    ensures
        forall|i: int|
            0 <= i < 3 ==> disk.fold(#[trigger] deleted::trio(p)[i]) != disk.fold(rejects),
{
    let names = deleted::trio(p);
    deleted::lemma_plain_words();
    lemma_xmp_letters();
    path::lemma_extended_shape(p, deleted::lower_xmp());
    path::lemma_extended_shape(p, deleted::upper_xmp());
    lemma_last_letters(disk, names[0], rejects);
    lemma_last_letters(disk, names[1], rejects);
    lemma_last_letters(disk, names[2], rejects);
    assert forall|i: int| 0 <= i < 3 implies disk.fold(#[trigger] names[i]) != disk.fold(
        rejects,
    ) by {
        assert(i == 0 || i == 1 || i == 2);
    }
}

/// `_Rejected` ends with a letter of its own.
proof fn lemma_rejects_letter(source: Seq<u8>)
    requires
        path::tidy(source) == source,
        directory::arw(source),
        deleted::folder_of(source).len() > 0,
    ensures
        deleted::rejects_of(source).len() > 0,
        path::lower(deleted::rejects_of(source).last()) == 0x64,
{
    deleted::lemma_plain_words();
    lemma_rejected_length();
    lemma_rejected_letter();
    path::lemma_tidy_parts(source);
    path::lemma_below(deleted::folder_of(source), deleted::rejected_folder());
}

/// A disk with one more folder shows the same elsewhere.
proof fn lemma_elsewhere(disk: Disk, folder: Seq<u8>)
    requires
        disk.free(folder),
    ensures
        ({
            let after = disk.after(Want::CreateFolder(folder));
            &&& after.sight(folder) is Folder
            &&& forall|p: Seq<u8>|
                disk.key(p) != disk.key(folder) ==> #[trigger] after.sight(p) == disk.sight(p)
            &&& forall|p: Seq<u8>|
                disk.key(p) != disk.key(folder) ==> #[trigger] after.free(p) == disk.free(p)
        }),
{
}

/// That `_Rejected` was made does not show under any name of a move.
#[verifier::spinoff_prover]
#[verifier::rlimit(40)]
proof fn lemma_created(disk: Disk, source: Seq<u8>)
    requires
        movable(disk, source),
    ensures
        ({
            let names = deleted::trio(source);
            let rejects = deleted::rejects_of(source);
            let new_names = deleted::trio(deleted::candidate(source, rejects, 0)->0);
            let after = disk.after(Want::CreateFolder(rejects));
            &&& forall|i: int|
                0 <= i < 3 ==> after.sight(#[trigger] names[i]) == disk.sight(names[i])
            &&& forall|i: int|
                0 <= i < 3 ==> after.free(#[trigger] new_names[i]) == disk.free(new_names[i])
            &&& after.sight(deleted::folder_of(source)) == disk.sight(deleted::folder_of(source))
            &&& after.sight(rejects) is Folder
        }),
{
    let rejects = deleted::rejects_of(source);
    let destination = deleted::candidate(source, rejects, 0)->0;
    if disk.free(rejects) {
        let (s, t, r) = (path::tidy(source), path::tidy(destination), path::tidy(rejects));
        let names = deleted::trio(source);
        let new_names = deleted::trio(destination);
        assert(path::stem_of(source) is Some);
        lemma_tidy_move(source, destination, 0);
        lemma_new_name(s, t, 0);
        lemma_rejects_letter(s);
        lemma_not_rejects(disk, r, s);
        lemma_not_rejects(disk, r, t);
        lemma_tidy_trio(source);
        lemma_tidy_trio(destination);
        lemma_elsewhere(disk, rejects);
        assert(disk.key(deleted::folder_of(source)) != disk.key(rejects));
        assert forall|i: int| 0 <= i < 3 implies disk.key(#[trigger] names[i]) != disk.key(
            rejects,
        ) by {
            assert(path::tidy(names[i]) == deleted::trio(s)[i]);
        }
        assert forall|i: int| 0 <= i < 3 implies disk.key(#[trigger] new_names[i]) != disk.key(
            rejects,
        ) by {
            assert(path::tidy(new_names[i]) == deleted::trio(t)[i]);
        }
    }
}

proof fn lemma_rejected_letter()
    ensures
        deleted::rejected_folder().len() == 9,
        path::lower(deleted::rejected_folder().last()) == 0x64,
{
    reveal_strlit("_Rejected");
    assert(vstd::utf8::is_ascii_chars("_Rejected"@));
    vstd::utf8::is_ascii_chars_encode_utf8("_Rejected"@);
    assert("_Rejected"@[8] as u8 == deleted::rejected_folder()[8]);
}

/// The look at everything that a move touches shows nothing amiss.
#[verifier::spinoff_prover]
#[verifier::rlimit(40)]
proof fn lemma_move_begins(start: World)
    requires
        begins(start.op),
        movable(start.disk, start.op.pair.source),
    ensures
        ({
            let four = start.driven(4);
            let five = four.next();
            &&& five.op.pair == four.op.pair
            &&& five.op.step == if four.op.pair.sidecar is Some {
                Step::CheckSidecar
            } else {
                Step::CheckRaw
            }
        }),
{
    let source = start.op.pair.source;
    let old_names = deleted::trio(source);
    lemma_move_named(start);
    let four = start.driven(4);
    let pair = four.op.pair;
    let names = deleted::trio(pair.destination);
    assert(old_names[0] == source);
    lemma_new_home(source, pair.destination);
    lemma_underway(start, 4);
    lemma_look(four);
    let paths = four.op.wanted()->Inspect_0;
    assert(paths =~= old_names + names + four.op.guards(four.op.side_from()));
    assert(paths[0] == old_names[0]);
    assert(paths[1] == old_names[1]);
    assert(paths[2] == old_names[2]);
    assert(paths[3] == names[0]);
    assert(paths[4] == names[1]);
    assert(paths[5] == names[2]);
    assert(paths[6] == deleted::folder_of(source));
    assert(paths[7] == deleted::folder_of(pair.destination));
    assert(paths[8] == four.op.side_from());
    let seen = paths.map_values(|p: Seq<u8>| four.disk.sight(p));
    if let Some(s) = pair.sidecar {
        assert(four.disk.sight(s.source) == Sight::File(s.identity));
    }
    assert(four.op.checked(seen) is Ok);
}

/// The sidecar of a checked move is moved.
proof fn lemma_sidecar_goes(start: World, five: World)
    requires
        begins(start.op),
        underway(start, five),
        five.op.step == Step::CheckSidecar,
    ensures
        five.next().next().op.step == Step::CheckRaw,
        five.next().next().op.pair == five.op.pair,
        underway(start, five.next().next()),
{
    let s = five.op.pair.sidecar->0;
    lemma_guarded(five, s.source, s.identity);
    lemma_look(five);
    let six = five.next();
    assert(six.op.step == Step::MoveSidecar);
    lemma_step(start, five);
    assert(six.op.wanted() == Want::Rename(s.source, s.destination));
    assert(six.disk.can_rename(s.source, s.destination));
    lemma_step(start, six);
}

/// A photograph that can be moved is moved, under its own name.
pub proof fn law_move_succeeds(start: World)
    requires
        begins(start.op),
        movable(start.disk, start.op.pair.source),
    ensures
        ({
            let source = start.op.pair.source;
            let end = start.driven(10);
            &&& end.op.step == Step::Done(None)
            &&& Some(end.op.pair.destination) == deleted::candidate(
                source,
                deleted::rejects_of(source),
                0,
            )
        }),
{
    lemma_move_named(start);
    lemma_move_begins(start);
    let five = start.driven(5);
    assert(five == start.driven(4).next());
    lemma_underway(start, 5);
    if five.op.pair.sidecar is Some {
        lemma_sidecar_goes(start, five);
        assert(start.driven(6) == five.next());
        let seven = start.driven(7);
        assert(seven == five.next().next());
        lemma_raw_goes(start, seven);
        assert(start.driven(8) == seven.next());
        assert(start.driven(9) == seven.next().next());
        assert(start.driven(10) == seven.next().next().next());
    } else {
        lemma_raw_goes(start, five);
        assert(start.driven(6) == five.next());
        assert(start.driven(7) == five.next().next());
        assert(start.driven(8) == five.next().next().next());
        assert(start.driven(9) == start.driven(8));
        assert(start.driven(10) == start.driven(9));
    }
}

/// The photograph of a checked move is moved.
proof fn lemma_raw_goes(start: World, w: World)
    requires
        begins(start.op),
        underway(start, w),
        w.op.step == Step::CheckRaw,
    ensures
        w.next().next().next().op.step == Step::Done(None),
        w.next().next().next().op.pair == w.op.pair,
{
    let names = deleted::trio(w.op.pair.destination);
    let old_names = deleted::trio(w.op.pair.source);
    assert(names[0] == w.op.pair.destination);
    assert(old_names[0] == w.op.pair.source);
    lemma_names_apart(start, w);
    lemma_raw_ends(w);
}

/// A photograph goes into the folder of rejected photographs beside it.
proof fn lemma_new_home(source: Seq<u8>, destination: Seq<u8>)
    requires
        directory::arw(source),
        deleted::folder_of(source).len() > 0,
        deleted::candidate(source, deleted::rejects_of(source), 0) == Some(destination),
    ensures
        path::parent_of(destination) == Some(deleted::rejects_of(source)),
        path::parent_of(source) is Some,
{
    deleted::lemma_plain_words();
    deleted::lemma_plain_candidate(source, 0);
    lemma_rejected_letter();
    let folder = deleted::folder_of(source);
    let rejects = deleted::rejects_of(source);
    let word = deleted::rejected_folder();
    assert(word.contains(word[0]));
    assert(rejects.last() == word.last());
    path::lemma_parent_of_joined(rejects, path::file_name_of(source)->0);
}

/// What the names and the folders of a moved photograph lead to did not change.
pub open spec fn untouched(before: Disk, after: Disk, pair: Pair) -> bool {
    let names = deleted::trio(pair.destination);
    &&& after.cased == before.cased
    &&& after.words == before.words
    &&& after.sight(names[0]) == before.sight(names[0])
    &&& after.sight(names[1]) == before.sight(names[1])
    &&& after.sight(names[2]) == before.sight(names[2])
    &&& after.sight(deleted::folder_of(pair.source)) == before.sight(
        deleted::folder_of(pair.source),
    )
    &&& after.sight(deleted::folder_of(pair.destination)) == before.sight(
        deleted::folder_of(pair.destination),
    )
}

/// What was moved can be restored. After a move that succeeded, if the moved
/// files and their folders were not touched since and nothing is at the old names,
/// the undo succeeds: the photograph and its sidecar are at their old names again,
/// the same files as before the move; nothing is left at their new names; and no
/// sidecar appears where there was none.
pub proof fn law_undo_restores_what_was_moved(start: World, n: nat, later: Disk, undo: Op)
    requires
        begins(start.op),
        start.driven(n).op.step == Step::Done(None),
        untouched(start.driven(n).disk, later, start.driven(n).op.pair),
        later.vacant(start.op.pair.source),
        undo.step == Step::Snapshot,
        undo.restoring,
        undo.pair == start.driven(n).op.pair,
    ensures
        ({
            let end = (World { op: undo, disk: later }).driven(7);
            &&& end.op.step == Step::Done(None)
            &&& end.disk == put_back(later, undo.pair)
            &&& end.disk.sight(undo.pair.source) == start.disk.sight(undo.pair.source)
            &&& end.disk.sight(undo.pair.source) == Sight::File(undo.pair.identity)
            &&& end.disk.vacant(undo.pair.destination)
            &&& match undo.pair.sidecar {
                Some(s) => {
                    &&& end.disk.sight(s.source) == start.disk.sight(s.source)
                    &&& end.disk.sight(s.source) == Sight::File(s.identity)
                },
                None => end.disk.free(deleted::trio(undo.pair.source)[1]) && end.disk.free(
                    deleted::trio(undo.pair.source)[2],
                ),
            }
        }),
{
    law_move_keeps_files(start, n);
    let moved = start.driven(n).disk;
    let pair = undo.pair;
    let a = deleted::trio(pair.source);
    let b = deleted::trio(pair.destination);
    assert forall|p: Seq<u8>| #[trigger] later.key(p) == moved.key(p) by {}
    assert(b[0] == pair.destination);
    assert(later.holds(pair));
    assert(later.housed(pair));
    assert forall|i: int, j: int| 0 <= i < 3 && 0 <= j < 3 implies later.key(#[trigger] a[i])
        != later.key(#[trigger] b[j]) by {
        assert(moved.key(a[i]) != moved.key(b[j]));
    }
    assert(later.apart(pair.source, pair.destination));
    law_undo_succeeds(undo, later);
}

} // verus!
