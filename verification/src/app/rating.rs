//! Ratings: edits, undos, and what the disk says of them.
use crate::app::browse;
use crate::app::browse::rating_destination;
use crate::app::deleted;
use crate::app::info;
use crate::app::info::PhotoInfo;
use crate::app::io;
use crate::app::path_map::PathMap;
use crate::app::scan::ScanResult;
use crate::app::state;
use crate::app::state::{
    next_number, Act, Action, App, Deed, LedgerModel, ListingModel, Model, PendingMove,
    UndoAction, MAX_UNDO,
};
use crate::app::strip::same_choice;
use crate::metadata::exif::ExifMetadata;
use crate::path;
use crate::path::{Identity, PhotoPath};
use vstd::prelude::*;

verus! {

broadcast use vstd::std_specs::hash::group_hash_axioms;

/// The last actions that can be undone.
pub open spec fn recent(history: Seq<(u64, Deed)>) -> Seq<(u64, Deed)> {
    if history.len() > MAX_UNDO {
        history.skip(history.len() - MAX_UNDO)
    } else {
        history
    }
}

/// The place of an action among others: they stand in the order of their
/// numbers.
pub open spec fn rank(history: Seq<(u64, Deed)>, id: u64, n: int) -> int
    decreases history.len() - n,
{
    if n >= history.len() || n < 0 {
        history.len() as int
    } else if history[n].0 > id {
        n
    } else {
        rank(history, id, n + 1)
    }
}

/// With an action in its place.
#[verifier::opaque]
pub open spec fn recalled(history: Seq<(u64, Deed)>, id: u64, deed: Deed) -> Seq<(u64, Deed)> {
    recent(history.insert(rank(history, id, 0), (id, deed)))
}

/// Without an action.
pub open spec fn dropped(history: Seq<(u64, Deed)>, id: u64) -> Seq<(u64, Deed)>
    decreases history.len(),
{
    if history.len() == 0 {
        Seq::empty()
    } else if history.last().0 == id {
        dropped(history.drop_last(), id)
    } else {
        dropped(history.drop_last(), id).push(history.last())
    }
}

/// The sum of two counts, as a machine adds them.
pub open spec fn plus(a: usize, b: usize) -> usize {
    if a + b > usize::MAX {
        (a + b - usize::MAX - 1) as usize
    } else {
        (a + b) as usize
    }
}

fn sum(a: usize, b: usize) -> (out: usize)
    ensures
        out == plus(a, b),
{
    if b > usize::MAX - a {
        b - (usize::MAX - a) - 1
    } else {
        a + b
    }
}

/// A rating that was read, or not.
pub open spec fn reading<E>(result: Result<i8, E>) -> Option<i8> {
    match result {
        Ok(stars) => Some(stars),
        Err(_) => None,
    }
}

/// What is known after the first `n` of some ratings were read.
pub open spec fn notes_read(
    notes: info::Notes,
    entries: Seq<(PhotoPath, Result<i8, String>)>,
    n: int,
) -> info::Notes
    decreases n,
{
    if n <= 0 {
        notes
    } else {
        let before = notes_read(notes, entries, n - 1);
        let (photo, result) = entries[n - 1];
        before.insert(photo@, info::info_of(before, photo@).indexed(reading(result)))
    }
}

/// How many of the first `n` ratings could not be read, edited photographs
/// aside.
pub open spec fn misread(
    notes: info::Notes,
    entries: Seq<(PhotoPath, Result<i8, String>)>,
    n: int,
) -> int
    decreases n,
{
    if n <= 0 {
        0
    } else {
        let (photo, result) = entries[n - 1];
        let known = info::info_of(notes_read(notes, entries, n - 1), photo@);
        misread(notes, entries, n - 1) + if known.revision == 0 && result is Err {
            1int
        } else {
            0int
        }
    }
}

impl Model {
    /// Whether ratings and files are left alone.
    pub open spec fn barred(self) -> bool {
        self.quitting || self.trash_busy || self.rehearsal
    }

    /// With another action that can be undone.
    #[verifier::opaque]
    pub open spec fn remembered(self, id: u64, deed: Deed) -> Model {
        Model {
            ledger: LedgerModel {
                history: recent(self.ledger.history.push((id, deed))),
                ..self.ledger
            },
            ..self
        }
    }

    /// With an action that can be undone again.
    #[verifier::opaque]
    pub open spec fn reinstated(self, id: u64, deed: Deed) -> Model {
        Model {
            ledger: LedgerModel {
                history: recalled(self.ledger.history, id, deed),
                ..self.ledger
            },
            ..self
        }
    }

    /// Without an action that failed.
    #[verifier::opaque]
    pub open spec fn forgotten(self, id: u64) -> Model {
        Model {
            ledger: LedgerModel { history: dropped(self.ledger.history, id), ..self.ledger },
            ..self
        }
    }

    /// A photograph has an edit that is not saved yet.
    #[verifier::opaque]
    pub open spec fn edited(self, photo: Seq<u8>, rating: Option<i8>) -> Model {
        let revision = state::next(self.ledger.revision_sequence);
        Model {
            info: self.info.insert(photo, info::info_of(self.info, photo).edited(rating, revision)),
            ledger: LedgerModel { revision_sequence: revision, ..self.ledger },
            ..self
        }
    }

    /// The photograph on screen is rated. The next one is chosen before the
    /// filter changes what is visible.
    #[verifier::opaque]
    pub open spec fn rated(self, stars: i8) -> Model {
        if self.barred() || self.current() is None || self.current() != self.screen.displayed {
            self
        } else {
            let photo = self.current()->0;
            let preferred = browse::destination(
                self.listing.files,
                self.selection.index,
                self.settings.auto_advance,
            );
            self.rating_kept(photo, self.current_written()->0, stars).refreshed(preferred)
        }
    }

    /// A rating is noted, saved, and can be undone.
    #[verifier::opaque]
    pub open spec fn rating_kept(self, photo: Seq<u8>, written: Seq<u8>, stars: i8) -> Model {
        let edit = state::next(self.ledger.rating_sequence);
        let s = self.touched().numbered(edit).edited(photo, Some(stars));
        let t = s.posted(
            Act::Save(s.session, written, s.ledger.revision_sequence, stars, edit),
        ).remembered(edit, Deed::Rating(written));
        Model { user_navigated: true, ..t }
    }

    /// With the number of the last edit.
    pub open spec fn numbered(self, edit: u64) -> Model {
        Model { ledger: LedgerModel { rating_sequence: edit, ..self.ledger }, ..self }
    }

    /// The undo of an edit is under way. The photograph is given as it is written.
    #[verifier::opaque]
    pub open spec fn rating_undone(self, edit: u64, photo: Seq<u8>) -> Model {
        let s = self.touched();
        let t = (Model {
            ledger: LedgerModel {
                undos: s.ledger.undos.insert(edit, s.ledger.interaction),
                ..s.ledger
            },
            ..s
        }).edited(path::tidy(photo), None);
        t.posted(Act::Undo(t.session, photo, t.ledger.revision_sequence, edit)).message(
            "Undoing last rating..."@,
        )
    }

    /// The undo of a move is under way.
    #[verifier::opaque]
    pub open spec fn move_undone(self, id: u64, records: Seq<deleted::Pair>) -> Model {
        let s = self.mutation_begun(id);
        s.posted(Act::Restore(s.session, id, records)).message(
            "Restoring photos from _Rejected..."@,
        )
    }

    /// The last action is taken back.
    #[verifier::opaque]
    pub open spec fn undone(self) -> Model {
        if self.barred() || self.ledger.history.len() == 0 {
            self
        } else {
            let (id, deed) = self.ledger.history.last();
            let s = Model {
                ledger: LedgerModel { history: self.ledger.history.drop_last(), ..self.ledger },
                ..self
            };
            match deed {
                Deed::Rating(photo) => s.rating_undone(id, photo),
                Deed::Moved(records) => s.move_undone(id, records),
            }
        }
    }

    /// Files are about to be moved. No listing may bring back a name that goes;
    /// a listing under way is taken up again afterwards. Ratings that were read
    /// stay valid, and a reading under way starts anew.
    #[verifier::opaque]
    pub open spec fn mutation_begun(self, id: u64) -> Model {
        let s = self.touched();
        (Model {
            user_navigated: true,
            pending_move: Some(PendingMove { id, resume_scan: s.listing.scanning }),
            folder_epoch: state::next(s.folder_epoch),
            listing: if s.listing.index_complete {
                ListingModel { scanning: false, complete_only: false, ..s.listing }
            } else {
                ListingModel {
                    scanning: false,
                    complete_only: false,
                    index_started: false,
                    ratings_read: 0,
                    rating_errors: 0,
                    ..s.listing
                }
            },
            trash_busy: true,
            ..s
        }).posted(Act::CancelRatingScan)
    }

    /// Whether a report is on the move under way.
    pub open spec fn awaits(self, id: u64) -> bool {
        self.pending_move is Some && (self.pending_move->0).id == id
    }

    /// Files were moved.
    #[verifier::opaque]
    pub open spec fn mutation_finished(self) -> Model {
        let s = Model { pending_move: None, trash_busy: false, ..self };
        if self.pending_move is Some && (self.pending_move->0).resume_scan
            && s.listing.folder is Some {
            let epoch = state::next(s.folder_epoch);
            (Model {
                folder_epoch: epoch,
                listing: ListingModel { scanning: true, complete_only: true, ..s.listing },
                ..s
            }).posted(Act::Scan(s.listing.folder->0, epoch))
        } else {
            s
        }
    }

    /// After some ratings of the folder were read.
    #[verifier::opaque]
    pub open spec fn indexed(
        self,
        epoch: u64,
        entries: Seq<(PhotoPath, Result<i8, String>)>,
        complete: bool,
    ) -> Model {
        if epoch != self.folder_epoch || !self.listing.index_started {
            self
        } else {
            let n = entries.len() as int;
            (Model {
                info: notes_read(self.info, entries, n),
                listing: ListingModel {
                    ratings_read: plus(self.listing.ratings_read, entries.len() as usize),
                    rating_errors: plus(
                        self.listing.rating_errors,
                        misread(self.info, entries, n) as usize,
                    ),
                    index_complete: complete,
                    ..self.listing
                },
                ..self
            }).rerated()
        }
    }

    /// The window turns a photograph as its metadata say.
    #[verifier::opaque]
    pub open spec fn turned(self, photo: Seq<u8>) -> Model {
        match info::orientation_of(self.info, photo) {
            None => self,
            Some(orientation) => {
                let s = if self.screen.displayed == Some(photo) {
                    self.posted(Act::Orientation(orientation))
                } else {
                    self
                };
                if s.screen.pinned is Some && (s.screen.pinned->0).0 == photo {
                    s.posted(Act::ReferenceOrientation(orientation))
                } else {
                    s
                }
            },
        }
    }

    /// After a photograph was read.
    #[verifier::opaque]
    pub open spec fn photo_read(
        self,
        session: u64,
        photo: Seq<u8>,
        metadata: Option<ExifMetadata>,
        rating: Result<Option<i8>, ()>,
    ) -> Model {
        if session != self.session {
            self
        } else {
            (Model {
                info: self.info.insert(
                    photo,
                    info::info_of(self.info, photo).viewed(metadata, rating),
                ),
                ..self
            }).turned(photo).rerated()
        }
    }
}

/// No more actions are kept than can be undone.
pub proof fn law_history_is_bounded(m: Model, id: u64, deed: Deed)
    ensures
        m.remembered(id, deed).ledger.history.len() <= MAX_UNDO,
        m.remembered(id, deed).ledger.history.last() == (id, deed),
        m.reinstated(id, deed).ledger.history.len() <= MAX_UNDO,
{
    reveal(Model::remembered);
    reveal(Model::reinstated);
    reveal(recalled);
}

/// Nothing is rated or undone while files are moved, in a rehearsal, or on the
/// way out; and only the photograph on screen is rated.
pub proof fn law_only_shown_photographs_are_rated(m: Model, stars: i8)
    requires
        m.barred() || m.current() is None || m.current() != m.screen.displayed,
    ensures
        m.rated(stars) == m,
        m.barred() ==> m.undone() == m,
{
    reveal(Model::rated);
    reveal(Model::undone);
}

/// A rating selects the photograph that was chosen before the filter took effect:
/// the next one where ratings advance, the same one otherwise. None is skipped.
pub proof fn law_ratings_advance_once(m: Model, stars: i8)
    requires
        m.valid(),
        !m.barred(),
        m.current() is Some,
        m.current() == m.screen.displayed,
        ({
            let kept = m.rating_kept(m.current()->0, m.current_written()->0, stars);
            let next = browse::destination(
                m.listing.files,
                m.selection.index,
                m.settings.auto_advance,
            );
            &&& next is Some ==> kept.visible().contains(next->0)
            &&& kept.visible().len() <= usize::MAX
        }),
    ensures
        m.rated(stars).current() == browse::destination(
            m.listing.files,
            m.selection.index,
            m.settings.auto_advance,
        ),
        m.settings.auto_advance && m.selection.index->0 + 1 < m.listing.files.len()
            ==> m.rated(stars).current() == Some(m.listing.files[m.selection.index->0 + 1]),
{
    reveal(Model::rated);
    let kept = m.rating_kept(m.current()->0, m.current_written()->0, stars);
    let next = browse::destination(m.listing.files, m.selection.index, m.settings.auto_advance);
    assert(next is Some);
    assert(kept.valid() && !kept.trash_busy && !kept.quitting) by {
        reveal(Model::rating_kept);
        reveal(Model::edited);
        reveal(Model::remembered);
    }
    browse::law_preferred_photographs_are_selected(kept, next->0);
}

/// A listing or a reading of ratings from before a move is ignored: it has
/// another number.
pub proof fn law_moves_outdate_listings(
    m: Model,
    id: u64,
    entries: Seq<(PhotoPath, Result<i8, String>)>,
    complete: bool,
    result: ScanResult,
)
    requires
        result.session == m.folder_epoch,
    ensures
        m.mutation_begun(id).listed(result) == m.mutation_begun(id),
        m.mutation_begun(id).folder_epoch != m.folder_epoch,
        m.mutation_begun(id).trash_busy,
        m.mutation_begun(id).indexed(m.folder_epoch, entries, complete) == m.mutation_begun(id),
{
    reveal(Model::mutation_begun);
    reveal(Model::indexed);
    reveal(Model::listed);
}

/// The place of an action among others.
fn find_rank(history: &Vec<(u64, UndoAction)>, id: u64) -> (out: usize)
    ensures
        out == rank(state::deeds(history@), id, 0),
        out <= history@.len(),
{
    let ghost all = state::deeds(history@);
    let mut n: usize = 0;
    proof {
        reveal(state::deeds);
    }
    while n < history.len()
        invariant
            n <= history@.len(),
            all == state::deeds(history@),
            all.len() == history@.len(),
            rank(all, id, 0) == rank(all, id, n as int),
        decreases history@.len() - n,
    {
        proof {
            reveal(state::deeds);
        }
        assert(all[n as int].0 == history@[n as int].0);
        if history[n].0 > id {
            return n;
        }
        n += 1;
    }
    n
}

/// Keeps the last actions only.
fn trim_history(history: &mut Vec<(u64, UndoAction)>)
    ensures
        state::deeds(final(history)@) == recent(state::deeds(old(history)@)),
{
    proof {
        reveal(state::deeds);
    }
    let ghost all = state::deeds(history@);
    assert(all.skip(0) =~= all);
    while history.len() > MAX_UNDO
        invariant
            history@.len() <= all.len(),
            state::deeds(history@) == all.skip(all.len() - history@.len()),
            history@.len() >= MAX_UNDO || history@.len() == all.len(),
        decreases history@.len(),
    {
        proof {
            reveal(state::deeds);
        }
        let ghost before = state::deeds(history@);
        let _ = history.remove(0);
        assert(state::deeds(history@) =~= before.skip(1));
        assert(state::deeds(history@) =~= all.skip(all.len() - history@.len()));
    }
}

/// Drops an action.
fn drop_action(history: &mut Vec<(u64, UndoAction)>, id: u64)
    ensures
        state::deeds(final(history)@) == dropped(state::deeds(old(history)@), id),
{
    proof {
        reveal(state::deeds);
    }
    let ghost all = state::deeds(history@);
    let mut n: usize = history.len();
    assert(all.take(n as int) =~= all);
    assert(all.skip(n as int) =~= Seq::<(u64, Deed)>::empty());
    assert(dropped(all, id) + Seq::<(u64, Deed)>::empty() =~= dropped(all, id));
    let ghost mut tail: Seq<(u64, Deed)> = Seq::empty();
    while n > 0
        invariant
            n <= all.len(),
            n <= history@.len(),
            state::deeds(history@) == all.take(n as int) + tail,
            dropped(all, id) == dropped(all.take(n as int), id) + tail,
        decreases n,
    {
        proof {
            reveal(state::deeds);
        }
        let ghost part = all.take(n as int);
        let ghost before = state::deeds(history@);
        assert(part.drop_last() =~= all.take(n - 1));
        assert(before[n - 1] == part.last());
        assert(before[n - 1].0 == history@[n - 1].0);
        if history[n - 1].0 == id {
            let _ = history.remove(n - 1);
            assert(state::deeds(history@) =~= before.remove(n - 1));
            assert(state::deeds(history@) =~= all.take(n - 1) + tail);
        } else {
            proof {
                let longer = seq![part.last()] + tail;
                assert(before =~= all.take(n - 1) + longer);
                assert(dropped(all.take(n - 1), id).push(part.last()) + tail =~= dropped(
                    all.take(n - 1),
                    id,
                ) + longer);
                tail = longer;
            }
        }
        n -= 1;
    }
    assert(all.take(0) =~= Seq::<(u64, Deed)>::empty());
    assert(dropped(all.take(0), id) + tail =~= tail);
    assert(all.take(0) + tail =~= tail);
}

impl App {
    pub(crate) fn is_barred(&self) -> (out: bool)
        ensures
            out == self@.barred(),
    {
        self.quitting || self.trash_busy || self.rehearsal
    }

    fn remember_action(&mut self, id: u64, action: UndoAction)
        requires
            old(self).sound(),
        ensures
            final(self).sound(),
            final(self)@ == old(self)@.remembered(id, action@),
    {
        proof {
            reveal(Model::remembered);
        }
        let ghost before = self@;
        self.ledger.history.push((id, action));
        assert(state::deeds(self.ledger.history@) =~= before.ledger.history.push((id, action@))) by {
            reveal(state::deeds);
        }
        trim_history(&mut self.ledger.history);
        assert(self@ == before.remembered(id, action@));
    }

    pub(crate) fn reinstate_action(&mut self, id: u64, action: UndoAction)
        requires
            old(self).sound(),
        ensures
            final(self).sound(),
            final(self)@ == old(self)@.reinstated(id, action@),
    {
        proof {
            reveal(Model::reinstated);
            reveal(recalled);
        }
        let ghost before = self@;
        let at: usize = find_rank(&self.ledger.history, id);
        proof {
            reveal(state::deeds);
        }
        self.ledger.history.insert(at, (id, action));
        assert(state::deeds(self.ledger.history@) =~= before.ledger.history.insert(
            at as int,
            (id, action@),
        ));
        trim_history(&mut self.ledger.history);
        assert(self@ == before.reinstated(id, action@));
    }

    pub(crate) fn forget_action(&mut self, id: u64)
        requires
            old(self).sound(),
        ensures
            final(self).sound(),
            final(self)@ == old(self)@.forgotten(id),
    {
        proof {
            reveal(Model::forgotten);
        }
        let ghost before = self@;
        drop_action(&mut self.ledger.history, id);
        assert(self@ == before.forgotten(id));
    }

    /// Notes an edit of a photograph. Hands back its revision.
    fn edit_photo(&mut self, photo: &PhotoPath, rating: Option<i8>) -> (out: u64)
        requires
            old(self).sound(),
        ensures
            final(self).sound(),
            final(self)@ == old(self)@.edited(photo@, rating),
            out == final(self)@.ledger.revision_sequence,
    {
        proof {
            reveal(Model::edited);
        }
        let ghost before = self@;
        let revision: u64 = next_number(self.ledger.revision_sequence);
        self.ledger.revision_sequence = revision;
        let mut known = info::take(&mut self.info, photo);
        known.edit(rating, revision);
        info::put(&mut self.info, photo, known);
        assert(self@ == before.edited(photo@, rating));
        revision
    }

    /// Rates the photograph on screen.
    pub fn rating(&mut self, stars: i8)
        requires
            old(self).sound(),
        ensures
            final(self).sound(),
            final(self)@ == old(self)@.rated(stars),
    {
        proof {
            reveal(Model::rated);
        }
        let current = self.current();
        if self.is_barred() || !same_choice(&current, &self.screen.displayed) {
            return;
        }
        match current {
            None => {},
            Some(photo) => {
                let preferred = rating_destination(
                    &self.listing.files,
                    self.navigator.index(),
                    self.settings.auto_advance,
                );
                assert(browse::choice(preferred) == deleted::place(preferred));
                self.keep_rating(photo, stars);
                self.refresh_visible(preferred);
            },
        }
    }

    fn keep_rating(&mut self, photo: PhotoPath, stars: i8)
        requires
            old(self).sound(),
        ensures
            final(self).sound(),
            final(self)@ == old(self)@.rating_kept(photo@, photo.raw(), stars),
    {
        proof {
            reveal(Model::rating_kept);
        }
        let edit: u64 = next_number(self.ledger.rating_sequence);
        self.touch();
        let ghost s = self@;
        self.ledger.rating_sequence = edit;
        assert(self@ == s.numbered(edit));
        let revision: u64 = self.edit_photo(&photo, Some(stars));
        let session: u64 = self.session;
        self.post(Action::Save { session, photo: photo.copied(), revision, rating: stars, edit });
        self.remember_action(edit, UndoAction::Rating(photo));
        let ghost t = self@;
        self.user_navigated = true;
        assert(self@ == (Model { user_navigated: true, ..t }));
    }

    fn undo_edit(&mut self, edit: u64, photo: PhotoPath)
        requires
            old(self).sound(),
        ensures
            final(self).sound(),
            final(self)@ == old(self)@.rating_undone(edit, photo.raw()),
    {
        proof {
            reveal(Model::rating_undone);
            photo.lemma_spelling();
        }
        self.touch();
        let ghost s = self@;
        let interaction: u64 = self.ledger.interaction;
        self.ledger.undos.insert(edit, interaction);
        proof {
            assert(self@ == (Model {
                ledger: LedgerModel {
                    undos: s.ledger.undos.insert(edit, s.ledger.interaction),
                    ..s.ledger
                },
                ..s
            }));
        }
        let revision: u64 = self.edit_photo(&photo, None);
        let session: u64 = self.session;
        self.post(Action::Undo { session, photo, revision, edit });
        self.message("Undoing last rating...");
    }

    fn undo_move(&mut self, id: u64, records: Vec<deleted::MoveRecord>)
        requires
            old(self).sound(),
        ensures
            final(self).sound(),
            final(self)@ == old(self)@.move_undone(id, io::pairs(records@)),
    {
        proof {
            reveal(Model::move_undone);
        }
        self.begin_file_mutation(id);
        let session: u64 = self.session;
        self.post(Action::Restore { session, id, records });
        self.message("Restoring photos from _Rejected...");
    }

    /// Takes back the last action.
    pub fn undo_rating(&mut self)
        requires
            old(self).sound(),
        ensures
            final(self).sound(),
            final(self)@ == old(self)@.undone(),
    {
        proof {
            reveal(Model::undone);
        }
        let ghost before = self@;
        if self.is_barred() {
            return;
        }
        proof {
            reveal(state::deeds);
        }
        match self.ledger.history.pop() {
            None => {},
            Some((id, action)) => {
                assert(state::deeds(self.ledger.history@) =~= before.ledger.history.drop_last());
                proof {
                    assert(self@ == (Model {
                        ledger: LedgerModel {
                            history: before.ledger.history.drop_last(),
                            ..before.ledger
                        },
                        ..before
                    }));
                }
                match action {
                    UndoAction::Rating(photo) => {
                        self.undo_edit(id, photo);
                    },
                    UndoAction::Moved(records) => {
                        self.undo_move(id, records);
                    },
                }
            },
        }
    }

    /// Holds everything else off while files are moved.
    pub fn begin_file_mutation(&mut self, id: u64)
        requires
            old(self).sound(),
        ensures
            final(self).sound(),
            final(self)@ == old(self)@.mutation_begun(id),
    {
        proof {
            reveal(Model::mutation_begun);
        }
        self.touch();
        let ghost s = self@;
        self.user_navigated = true;
        self.pending_move = Some(PendingMove { id, resume_scan: self.listing.scanning });
        self.folder_epoch = next_number(self.folder_epoch);
        self.listing.scanning = false;
        self.listing.complete_only = false;
        if !self.listing.index_complete {
            self.listing.index_started = false;
            self.listing.ratings_read = 0;
            self.listing.rating_errors = 0;
        }
        self.trash_busy = true;
        self.post(Action::CancelRatingScan);
    }

    /// Goes on once files were moved. Says whether the report was on the move
    /// under way.
    pub fn finish_file_mutation(&mut self, id: u64) -> (out: bool)
        requires
            old(self).sound(),
        ensures
            final(self).sound(),
            out == old(self)@.awaits(id),
            final(self)@ == if out {
                old(self)@.mutation_finished()
            } else {
                old(self)@
            },
    {
        proof {
            reveal(Model::mutation_finished);
        }
        let ghost before = self@;
        let pending = match self.pending_move {
            Some(pending) => if pending.id == id {
                pending
            } else {
                return false;
            },
            None => {
                return false;
            },
        };
        self.pending_move = None;
        self.trash_busy = false;
        let ghost s = Model { pending_move: None, trash_busy: false, ..before };
        assert(self@ == s);
        if pending.resume_scan {
            match &self.listing.folder {
                Some(folder) => {
                    let at = folder.copied();
                    let epoch: u64 = next_number(self.folder_epoch);
                    self.folder_epoch = epoch;
                    self.listing.scanning = true;
                    self.listing.complete_only = true;
                    proof {
                        assert(self@ == (Model {
                            folder_epoch: epoch,
                            listing: ListingModel {
                                scanning: true,
                                complete_only: true,
                                ..s.listing
                            },
                            ..s
                        }));
                    }
                    self.post(Action::Scan { at, epoch });
                },
                None => {},
            }
        }
        true
    }

    /// Takes in some ratings of the folder.
    pub fn ratings_read(
        &mut self,
        epoch: u64,
        entries: &Vec<(PhotoPath, Result<i8, String>)>,
        complete: bool,
    )
        requires
            old(self).sound(),
        ensures
            final(self).sound(),
            final(self)@ == old(self)@.indexed(epoch, entries@, complete),
    {
        proof {
            reveal(Model::indexed);
        }
        let ghost before = self@;
        if epoch != self.folder_epoch || !self.listing.index_started {
            return;
        }
        let errors: usize = read_notes(&mut self.info, entries);
        self.listing.ratings_read = sum(self.listing.ratings_read, entries.len());
        self.listing.rating_errors = sum(self.listing.rating_errors, errors);
        self.listing.index_complete = complete;
        proof {
            let n = entries@.len() as int;
            assert(self@ == (Model {
                info: notes_read(before.info, entries@, n),
                listing: ListingModel {
                    ratings_read: plus(before.listing.ratings_read, entries@.len() as usize),
                    rating_errors: plus(
                        before.listing.rating_errors,
                        misread(before.info, entries@, n) as usize,
                    ),
                    index_complete: complete,
                    ..before.listing
                },
                ..before
            }));
        }
        self.ratings_changed();
    }

    /// Turns a photograph as its metadata say.
    fn turn(&mut self, photo: &PhotoPath)
        requires
            old(self).sound(),
        ensures
            final(self).sound(),
            final(self)@ == old(self)@.turned(photo@),
    {
        proof {
            reveal(Model::turned);
        }
        let orientation: u16 = match self.info.get(photo) {
            Some(known) => match &known.metadata {
                Some(metadata) => metadata.orientation,
                None => {
                    return;
                },
            },
            None => {
                return;
            },
        };
        let shown = match &self.screen.displayed {
            Some(displayed) => displayed.same(photo),
            None => false,
        };
        if shown {
            self.post(Action::Orientation(orientation));
        }
        let pinned = match &self.screen.pinned {
            Some((reference, _)) => reference.same(photo),
            None => false,
        };
        if pinned {
            self.post(Action::ReferenceOrientation(orientation));
        }
    }

    /// Takes in what was read of a photograph.
    pub fn metadata_read(
        &mut self,
        session: u64,
        photo: &PhotoPath,
        metadata: Option<ExifMetadata>,
        rating: Result<Option<i8>, ()>,
    )
        requires
            old(self).sound(),
        ensures
            final(self).sound(),
            final(self)@ == old(self)@.photo_read(session, photo@, metadata, rating),
    {
        proof {
            reveal(Model::photo_read);
        }
        let ghost before = self@;
        if session != self.session {
            return;
        }
        let mut known = info::take(&mut self.info, photo);
        known.view_photo(metadata, rating);
        info::put(&mut self.info, photo, known);
        proof {
            assert(self@ == (Model {
                info: before.info.insert(
                    photo@,
                    info::info_of(before.info, photo@).viewed(metadata, rating),
                ),
                ..before
            }));
        }
        self.turn(photo);
        self.ratings_changed();
    }
}

/// Takes in some ratings. Says how many could not be read.
fn read_notes(
    notes: &mut PathMap<PhotoInfo>,
    entries: &Vec<(PhotoPath, Result<i8, String>)>,
) -> (out: usize)
    requires
        old(notes).sound(),
    ensures
        final(notes).sound(),
        final(notes)@ == notes_read(old(notes)@, entries@, entries@.len() as int),
        out == misread(old(notes)@, entries@, entries@.len() as int),
{
    let ghost was = notes@;
    let mut errors: usize = 0;
    let mut i: usize = 0;
    while i < entries.len()
        invariant
            i <= entries@.len(),
            errors <= i,
            notes.sound(),
            notes@ == notes_read(was, entries@, i as int),
            errors == misread(was, entries@, i as int),
        decreases entries@.len() - i,
    {
        let (photo, result) = &entries[i];
        let mut known = info::take(notes, photo);
        let stars: Option<i8> = match result {
            Ok(stars) => Some(*stars),
            Err(_) => None,
        };
        if known.revision == 0 && stars.is_none() {
            errors += 1;
        }
        known.index(stars);
        info::put(notes, photo, known);
        i += 1;
    }
    errors
}

/// The ratings that were read of a folder are known, each of its own photograph, unless
/// that was edited; of other photographs nothing changes.
pub proof fn law_ratings_that_were_read_are_known(
    notes: info::Notes,
    entries: Seq<(PhotoPath, Result<i8, String>)>,
    n: int,
    photo: Seq<u8>,
    i: int,
)
    requires
        0 <= n <= entries.len(),
        i < n,
        i >= 0 ==> entries[i].0@ == photo,
        forall|k: int| 0 <= k < n && k > i ==> (#[trigger] entries[k]).0@ != photo,
    ensures
        ({
            let (was, now) = (
                info::info_of(notes, photo),
                info::info_of(notes_read(notes, entries, n), photo),
            );
            &&& now.revision == was.revision
            &&& i < 0 ==> now == was
            &&& i >= 0 && was.revision == 0 ==> match entries[i].1 {
                Ok(stars) => now.rating == Some(stars) && !now.failed,
                Err(_) => now.rating is None && now.failed,
            }
            &&& was.revision != 0 ==> now.rating == was.rating
        }),
    decreases n,
{
    if n > 0 {
        let k = n - 1;
        if i == k {
            lemma_revisions(notes, entries, k, photo);
        } else {
            law_ratings_that_were_read_are_known(notes, entries, k, photo, i);
            assert(entries[k].0@ != photo);
        }
    }
}

proof fn lemma_revisions(
    notes: info::Notes,
    entries: Seq<(PhotoPath, Result<i8, String>)>,
    n: int,
    photo: Seq<u8>,
)
    ensures
        ({
            let (was, now) = (
                info::info_of(notes, photo),
                info::info_of(notes_read(notes, entries, n), photo),
            );
            &&& now.revision == was.revision
            &&& was.revision != 0 ==> now.rating == was.rating
        }),
    decreases n,
{
    if n > 0 {
        lemma_revisions(notes, entries, n - 1, photo);
    }
}

/// Whether actions stand in the order in which they were done.
pub open spec fn chronological(history: Seq<(u64, Deed)>) -> bool {
    forall|i: int, j: int|
        0 <= i < j < history.len() ==> (#[trigger] history[i]).0 < (#[trigger] history[j]).0
}

proof fn lemma_ranked(history: Seq<(u64, Deed)>, id: u64, n: int)
    requires
        0 <= n <= history.len(),
        chronological(history),
        forall|k: int| 0 <= k < n ==> (#[trigger] history[k]).0 <= id,
    ensures
        n <= rank(history, id, n) <= history.len(),
        forall|k: int| 0 <= k < rank(history, id, n) ==> (#[trigger] history[k]).0 <= id,
        forall|k: int| rank(history, id, n) <= k < history.len() ==> (#[trigger] history[k]).0 > id,
    decreases history.len() - n,
{
    if n < history.len() && history[n].0 <= id {
        lemma_ranked(history, id, n + 1);
    } else if n < history.len() {
        assert forall|k: int| n <= k < history.len() implies (#[trigger] history[k]).0 > id by {
            if k > n {
                assert(history[n].0 < history[k].0);
            }
        }
    }
}

/// An action that can be undone again stands where it stood: the actions stay in the
/// order in which they were done.
pub proof fn law_actions_keep_their_order(history: Seq<(u64, Deed)>, id: u64, deed: Deed)
    requires
        chronological(history),
        history.len() < 100,
        forall|k: int| 0 <= k < history.len() ==> (#[trigger] history[k]).0 != id,
    ensures
        chronological(recalled(history, id, deed)),
        recalled(history, id, deed).contains((id, deed)),
        recalled(history, id, deed).len() == history.len() + 1,
{
    reveal(recalled);
    lemma_ranked(history, id, 0);
    let at = rank(history, id, 0);
    let out = history.insert(at, (id, deed));
    assert(recalled(history, id, deed) == out);
    assert(out[at] == (id, deed));
    assert forall|i: int, j: int| 0 <= i < j < out.len() implies (#[trigger] out[i]).0 < (
    #[trigger] out[j]).0 by {
        let a = if i < at {
            i
        } else {
            i - 1
        };
        let b = if j < at {
            j
        } else {
            j - 1
        };
        if i != at && j != at {
            assert(history[a].0 < history[b].0);
        } else if j == at {
            assert(history[i].0 <= id);
        } else {
            assert(history[j - 1].0 > id);
        }
    }
}

/// An action that failed is forgotten, and no other.
pub proof fn law_failed_actions_are_forgotten(history: Seq<(u64, Deed)>, id: u64, e: (u64, Deed))
    ensures
        dropped(history, id).contains(e) <==> history.contains(e) && e.0 != id,
    decreases history.len(),
{
    if history.len() > 0 {
        let short = history.drop_last();
        law_failed_actions_are_forgotten(short, id, e);
        let (few, more) = (dropped(short, id), dropped(history, id));
        assert(history[history.len() - 1] == history.last());
        if short.contains(e) {
            let i = choose|i: int| 0 <= i < short.len() && short[i] == e;
            assert(history[i] == e);
        }
        if history.contains(e) && history.last() != e {
            let i = choose|i: int| 0 <= i < history.len() && history[i] == e;
            assert(short[i] == e);
        }
        if history.last().0 != id {
            assert(more[few.len() as int] == history.last());
            if few.contains(e) {
                let i = choose|i: int| 0 <= i < few.len() && few[i] == e;
                assert(more[i] == e);
            }
            if more.contains(e) && history.last() != e {
                let i = choose|i: int| 0 <= i < more.len() && more[i] == e;
                assert(few[i] == e);
            }
        }
    }
}

} // verus!
