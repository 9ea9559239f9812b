//! The folder and the list: what is opened, filtered and selected.
use crate::app::deleted;
use crate::app::info;
use crate::app::info::PhotoInfo;
use crate::app::path_map::PathMap;
use crate::app::path_set;
use crate::app::scan;
use crate::app::scan::{selected_index, ScanResult};
use crate::app::state;
use crate::app::state::{
    next_number, Act, Action, App, Due, LedgerModel, ListingModel, Model, ScreenModel, StripModel,
    Todo,
};
use crate::app::strip::same_choice;
use crate::app::textures;
use crate::browser::filter;
use crate::browser::filter::{choose_selection, select_visible, PhotoFilter};
use crate::browser::navigator::{Navigator, Selection};
use crate::path;
use crate::path::{Identity, PhotoPath};
use vstd::prelude::*;

verus! {

/// The photograph to show after a rating: the next one, or the same. It is
/// chosen before the filter changes what is visible, so that no photograph is
/// skipped.
pub open spec fn destination<K>(files: Seq<K>, index: Option<usize>, advance: bool) -> Option<K> {
    match index {
        None => None,
        Some(index) => {
            let target = if advance && index + 1 < files.len() {
                index + 1
            } else if advance {
                files.len() - 1
            } else {
                index as int
            };
            if 0 <= target < files.len() {
                Some(files[target])
            } else {
                None
            }
        },
    }
}

/// The key of an optional photograph.
pub open spec fn choice<P: Identity>(photo: Option<P>) -> Option<P::Key> {
    match photo {
        Some(photo) => Some(photo.key()),
        None => None,
    }
}

/// The photograph to show after a rating.
pub fn rating_destination<P: Identity>(
    files: &Vec<P>,
    index: Option<usize>,
    advance: bool,
) -> (out: Option<P>)
    ensures
        choice(out) == destination(path::keys(files@), index, advance),
{
    match index {
        None => None,
        Some(index) => {
            if files.len() == 0 {
                return None;
            }
            let target: usize = if advance {
                if index < files.len() - 1 {
                    index + 1
                } else {
                    files.len() - 1
                }
            } else {
                index
            };
            if target < files.len() {
                Some(files[target].copied())
            } else {
                None
            }
        },
    }
}

/// The ratings of some photographs.
pub open spec fn ratings_of(notes: info::Notes, all: Seq<Seq<u8>>) -> Seq<Option<i8>> {
    Seq::new(all.len(), |i: int| info::rating_of(notes, all[i]))
}

/// The members of a list.
pub open spec fn members(files: Seq<Seq<u8>>) -> Set<Seq<u8>> {
    Set::new(|k: Seq<u8>| files.contains(k))
}

/// Nothing is listed yet.
pub open spec fn unlisted() -> ListingModel {
    ListingModel {
        all: Seq::empty(),
        files: Seq::empty(),
        all_written: Seq::empty(),
        files_written: Seq::empty(),
        whole: false,
        filter: PhotoFilter::All,
        index_started: false,
        index_complete: false,
        ratings_read: 0,
        rating_errors: 0,
        stale: false,
        folder: None,
        scanning: true,
        complete_only: false,
    }
}

impl Model {
    pub open spec fn with_listing(self, listing: ListingModel) -> Model {
        Model { listing, ..self }
    }

    /// The user did something.
    pub open spec fn touched(self) -> Model {
        Model {
            ledger: LedgerModel { interaction: state::next(self.ledger.interaction), ..self.ledger },
            ..self
        }
    }

    /// The photographs that the filter shows.
    #[verifier::opaque]
    pub open spec fn visible(self) -> Seq<Seq<u8>> {
        if self.listing.filter == PhotoFilter::All {
            self.listing.all
        } else {
            filter::shown(
                self.listing.all,
                ratings_of(self.info, self.listing.all),
                self.listing.filter,
                self.listing.all.len() as int,
            )
        }
    }

    /// What the photographs that the filter shows are written as.
    #[verifier::opaque]
    pub open spec fn visible_written(self) -> Seq<Seq<u8>> {
        if self.listing.filter == PhotoFilter::All {
            self.listing.all_written
        } else {
            filter::shown(
                self.listing.all_written,
                ratings_of(self.info, self.listing.all),
                self.listing.filter,
                self.listing.all.len() as int,
            )
        }
    }

    /// A folder is opened. What is unsaved of the old one is kept.
    #[verifier::opaque]
    pub open spec fn opened(self, at: Seq<u8>) -> Model {
        if self.quitting || self.trash_busy {
            self
        } else {
            let s = self.touched().stopped();
            let t = s.with_strip(
                StripModel {
                    cache: Seq::empty(),
                    unavailable: Set::empty(),
                    window: crate::browser::filmstrip::Strip { start: 0, ..s.strip.window },
                    ..s.strip
                },
            ).pin_cleared().posted(Act::EndPeek);
            let u = Model {
                settings: state::Settings { restore_allowed: false, ..t.settings },
                folder_epoch: state::next(t.folder_epoch),
                generation: state::next(t.generation),
                session: state::next(t.session),
                listing: unlisted(),
                info: t.info.restrict(info::unsaved(t.info)),
                screen: ScreenModel {
                    textures: Seq::empty(),
                    prefetched: Set::empty(),
                    displayed: None,
                    displayed_written: None,
                    pending_upload: None,
                    pending_prefetch: None,
                    attempted_prefetch: None,
                    ..t.screen
                },
                selection: Selection::first(0),
                user_navigated: false,
                notice: Seq::empty(),
                ..t
            };
            u.posted(Act::CancelRatingScan).posted(Act::FilterShown(PhotoFilter::All)).posted(
                Act::SetFiles(u.session),
            ).posted(Act::CancelUploads).posted(Act::Image(None)).posted(
                Act::Caption("Opening folder..."@),
            ).posted(Act::Scan(at, u.folder_epoch)).told()
        }
    }

    /// The ratings of the whole folder are read, once a filter needs them.
    #[verifier::opaque]
    pub open spec fn index_begun(self) -> Model {
        if self.listing.filter != PhotoFilter::All && !self.listing.scanning
            && !self.listing.index_started {
            self.with_listing(ListingModel { index_started: true, ..self.listing }).posted(
                Act::ScanRatings(self.folder_epoch),
            )
        } else {
            self
        }
    }

    /// After a listing of the folder. One of an older folder is ignored, and so
    /// is an early one where only a whole one will do.
    #[verifier::opaque]
    pub open spec fn listed(self, result: ScanResult) -> Model {
        if result.session != self.folder_epoch || (self.listing.complete_only && !result.complete) {
            self
        } else {
            let files = path::keys(result.files@);
            let selected = scan::selected(
                files,
                deleted::place(result.requested),
                self.current(),
                self.user_navigated,
            );
            self.with_listing(
                ListingModel {
                    complete_only: self.listing.complete_only && !result.complete,
                    folder: Some(result.folder.raw()),
                    scanning: !result.complete,
                    all: files,
                    all_written: path::spellings(result.files@),
                    whole: false,
                    ..self.listing
                },
            ).index_begun().refreshed(
                if 0 <= selected < files.len() {
                    Some(files[selected])
                } else {
                    None
                },
            )
        }
    }

    /// The folder could not be listed.
    #[verifier::opaque]
    pub open spec fn unlistable(self, epoch: u64, error: Seq<char>) -> Model {
        if epoch != self.folder_epoch {
            self
        } else {
            self.with_listing(ListingModel { scanning: false, ..self.listing }).posted(
                Act::Caption("Folder unavailable - Cmd+O to choose a folder"@),
            ).message(error)
        }
    }

    /// Another filter.
    #[verifier::opaque]
    pub open spec fn filtered(self, filter: PhotoFilter) -> Model {
        let s = if self.trash_busy || self.quitting {
            self
        } else {
            let t = self.touched();
            t.with_listing(ListingModel { filter, ..t.listing }).index_begun().refreshed(
                self.current(),
            )
        };
        s.posted(Act::FilterShown(s.listing.filter))
    }

    /// What was loaded for another list of visible photographs.
    #[verifier::opaque]
    pub open spec fn sifted(self, visible: Seq<Seq<u8>>) -> Model {
        Model {
            screen: ScreenModel {
                pending_upload: None,
                pending_prefetch: None,
                attempted_prefetch: None,
                first_render: false,
                textures: textures::among(self.screen.textures, visible),
                prefetched: self.screen.prefetched.intersect(members(visible)),
                displayed: if self.vanished(visible) {
                    None
                } else {
                    self.screen.displayed
                },
                displayed_written: if self.vanished(visible) {
                    None
                } else {
                    self.screen.displayed_written
                },
                ..self.screen
            },
            strip: StripModel { cache: textures::among(self.strip.cache, visible), ..self.strip },
            ..self
        }
    }

    /// Whether the photograph on screen is not in a list.
    pub open spec fn vanished(self, visible: Seq<Seq<u8>>) -> bool {
        self.screen.displayed is Some && !visible.contains(self.screen.displayed->0)
    }

    /// Another list of visible photographs. It gets a number of its own: nothing
    /// that was loaded for the old one may be taken for a photograph of the new
    /// one.
    #[verifier::opaque]
    pub open spec fn relisted(
        self,
        visible: Seq<Seq<u8>>,
        written: Seq<Seq<u8>>,
        selected: Option<int>,
    ) -> Model {
        let s = self.stopped();
        let t = s.sifted(visible).renumbered(visible, written, selected).posted(Act::CancelUploads);
        let u = t.posted(Act::SetFiles(t.session));
        if s.vanished(visible) {
            u.posted(Act::Image(None)).gpu_told()
        } else {
            u.gpu_told()
        }
    }

    /// The list itself, with its numbers and the selection.
    #[verifier::opaque]
    pub open spec fn renumbered(
        self,
        visible: Seq<Seq<u8>>,
        written: Seq<Seq<u8>>,
        selected: Option<int>,
    ) -> Model {
        Model {
            generation: state::next(self.generation),
            session: state::next(self.session),
            listing: ListingModel {
                files: visible,
                files_written: written,
                whole: self.listing.filter == PhotoFilter::All,
                ..self.listing
            },
            selection: Selection::first(visible.len() as usize).sought(
                match selected {
                    Some(i) => i,
                    None => 0,
                },
            ),
            ..self
        }
    }

    /// Another photograph of the same list is selected.
    #[verifier::opaque]
    pub open spec fn reselected(self, selected: Option<int>) -> Model {
        let moved = match selected {
            Some(i) => self.selection.sought(i),
            None => self.selection,
        };
        let s = Model { selection: moved, ..self };
        if moved != self.selection {
            s.first(Due::Request)
        } else {
            s
        }
    }

    /// The list is looked through.
    #[verifier::opaque]
    pub open spec fn followed(self, preferred: Option<Seq<u8>>) -> Model {
        let visible = self.visible();
        let selected = filter::selection(visible, preferred, self.selection.index);
        let s = self.first(Due::Refreshed);
        if visible != self.listing.files {
            s.relisted(visible, self.visible_written(), selected).first(Due::Request)
        } else {
            s.reselected(selected)
        }
    }

    /// The list follows the filter and the folder, and a photograph that is
    /// preferred is selected.
    #[verifier::opaque]
    pub open spec fn refreshed(self, preferred: Option<Seq<u8>>) -> Model {
        if self.trash_busy || self.quitting {
            self
        } else {
            let s = self.with_listing(ListingModel { stale: false, ..self.listing });
            if s.listing.filter == PhotoFilter::All && s.listing.whole && preferred == s.current() {
                s.told()
            } else {
                s.followed(preferred)
            }
        }
    }

    /// Why no photograph is visible.
    pub open spec fn excuse(self) -> Seq<char> {
        if self.listing.scanning {
            "Scanning folder..."@
        } else if self.listing.all.len() == 0 {
            "No ARWs in this folder. Cmd+O to open a folder."@
        } else if !self.listing.index_complete {
            "Reading ratings..."@
        } else {
            "No photos match. Cmd+Option+0 shows all photos."@
        }
    }

    /// An empty list is explained.
    #[verifier::opaque]
    pub open spec fn explained(self) -> Model {
        if self.listing.files.len() == 0 {
            self.posted(Act::Image(None)).posted(Act::Caption(self.excuse())).told()
        } else {
            self.told()
        }
    }

    /// After ratings were read. A photograph that is being loaded is not given up
    /// for them: they are taken account of once it is shown.
    #[verifier::opaque]
    pub open spec fn rerated(self) -> Model {
        if !self.listing.index_complete && self.current() is Some && self.current()
            != self.screen.displayed && self.listing.filter.shows(
            info::rating_of(self.info, self.current()->0),
        ) {
            self.with_listing(ListingModel { stale: true, ..self.listing }).told()
        } else {
            self.refreshed(self.current())
        }
    }

    /// The selection moves on by some photographs.
    #[verifier::opaque]
    pub open spec fn navigated(self, delta: int) -> Model {
        let s = self.touched();
        if s.quitting || s.trash_busy || s.selection.advanced(delta).index == s.selection.index {
            s
        } else {
            (Model { selection: s.selection.advanced(delta), user_navigated: true, ..s }).requested()
        }
    }

    /// A photograph is selected by its place.
    #[verifier::opaque]
    pub open spec fn picked(self, index: usize) -> Model {
        if self.quitting || self.trash_busy {
            self
        } else {
            let s = self.touched();
            if index < s.selection.len && s.selection.index != Some(index) {
                (Model {
                    selection: s.selection.sought(index as int),
                    user_navigated: true,
                    ..s
                }).requested()
            } else {
                s
            }
        }
    }

    /// The rehearsal goes to the first photograph, which counts as no navigation
    /// by the user.
    #[verifier::opaque]
    pub open spec fn begun_again(self) -> Model {
        if 0 < self.selection.len && self.selection.index != Some(0usize) {
            (Model { selection: self.selection.sought(0), ..self }).requested()
        } else {
            self
        }
    }
}

/// A list that changes gets a new number, and so does the request: what comes in
/// for the old one is ignored.
pub proof fn law_changed_lists_have_new_numbers(m: Model, preferred: Option<Seq<u8>>)
    requires
        m.refreshed(preferred).listing.files != m.listing.files,
    ensures
        m.refreshed(preferred).session == state::next(m.session),
        m.refreshed(preferred).session != m.session,
        m.refreshed(preferred).generation == state::next(m.generation),
        m.refreshed(preferred).screen.pending_upload is None,
        m.refreshed(preferred).screen.pending_prefetch is None,
{
    reveal(Model::followed);
    reveal(Model::renumbered);
    reveal(Model::visible);
    reveal(Model::reselected);
    reveal(Model::sifted);
    reveal(Model::refreshed);
    reveal(Model::relisted);
    reveal(Model::strip_shown);
}

/// Once the list was looked through, it holds what the filter shows.
pub proof fn law_lists_follow_the_filter(m: Model, preferred: Option<Seq<u8>>)
    requires
        !m.trash_busy,
        !m.quitting,
        m.listing.whole ==> m.listing.files == m.listing.all,
    ensures
        m.refreshed(preferred).listing.files == m.refreshed(preferred).visible(),
        m.refreshed(preferred).listing.all == m.listing.all,
        m.refreshed(preferred).listing.filter == m.listing.filter,
{
    reveal(Model::followed);
    reveal(Model::renumbered);
    reveal(Model::visible);
    reveal(Model::reselected);
    reveal(Model::sifted);
    reveal(Model::refreshed);
    reveal(Model::relisted);
    reveal(Model::strip_shown);
    let s = m.with_listing(ListingModel { stale: false, ..m.listing });
    assert(s.visible() == m.visible());
}

/// A photograph that is preferred and visible is selected.
pub proof fn law_preferred_photographs_are_selected(m: Model, preferred: Seq<u8>)
    requires
        m.valid(),
        !m.trash_busy,
        !m.quitting,
        m.visible().contains(preferred),
        m.visible().len() <= usize::MAX,
    ensures
        m.refreshed(Some(preferred)).current() == Some(preferred),
{
    reveal(Model::followed);
    reveal(Model::renumbered);
    reveal(Model::visible);
    reveal(Model::reselected);
    reveal(Model::sifted);
    reveal(Model::refreshed);
    reveal(Model::relisted);
    reveal(Model::strip_shown);
    let s = m.with_listing(ListingModel { stale: false, ..m.listing });
    let visible = s.visible();
    assert(visible == m.visible());
    path::lemma_first_position(visible, preferred);
    let selected = filter::selection(visible, Some(preferred), s.selection.index);
    assert(selected is Some && visible[selected->0] == preferred);
    let fresh = Selection::first(visible.len() as usize);
    assert(fresh.sought(selected->0).index == Some(selected->0 as usize));
}

/// Nothing is opened, filtered, selected or listed while files are moved.
pub proof fn law_moves_are_undisturbed(
    m: Model,
    at: Seq<u8>,
    filter: PhotoFilter,
    delta: int,
    index: usize,
)
    requires
        m.trash_busy,
    ensures
        m.opened(at) == m,
        m.filtered(filter).listing == m.listing,
        m.navigated(delta).selection == m.selection,
        m.picked(index) == m,
        m.refreshed(m.current()) == m,
{
    reveal(Model::opened);
    reveal(Model::filtered);
    reveal(Model::navigated);
    reveal(Model::picked);
    reveal(Model::refreshed);
}

/// Whether two lists are the same.
fn same_lists(a: &Vec<PhotoPath>, b: &Vec<PhotoPath>) -> (out: bool)
    ensures
        out == (path::keys(a@) == path::keys(b@)),
{
    if a.len() != b.len() {
        assert(path::keys(a@).len() != path::keys(b@).len());
        return false;
    }
    let mut i: usize = 0;
    while i < a.len()
        invariant
            i <= a@.len(),
            a@.len() == b@.len(),
            forall|k: int| 0 <= k < i ==> path::keys(a@)[k] == path::keys(b@)[k],
        decreases a@.len() - i,
    {
        if !a[i].same(&b[i]) {
            assert(path::keys(a@)[i as int] != path::keys(b@)[i as int]);
            return false;
        }
        i += 1;
    }
    assert(path::keys(a@) =~= path::keys(b@));
    true
}

/// The photographs that a filter shows.
fn find_visible(
    all: &Vec<PhotoPath>,
    filter: PhotoFilter,
    notes: &PathMap<PhotoInfo>,
) -> (out: Vec<PhotoPath>)
    requires
        notes.sound(),
    ensures
        path::keys(out@) == if filter == PhotoFilter::All {
            path::keys(all@)
        } else {
            filter::shown(
                path::keys(all@),
                ratings_of(notes@, path::keys(all@)),
                filter,
                all@.len() as int,
            )
        },
        path::spellings(out@) == if filter == PhotoFilter::All {
            path::spellings(all@)
        } else {
            filter::shown(
                path::spellings(all@),
                ratings_of(notes@, path::keys(all@)),
                filter,
                all@.len() as int,
            )
        },
{
    let rating = |p: &PhotoPath| -> (out: Option<i8>)
        requires
            notes.sound(),
        ensures
            out == info::rating_of(notes@, p@),
        { info::find_rating(notes, p) };
    let out = select_visible(all, filter, rating);
    proof {
        if filter != PhotoFilter::All {
            let ratings = choose|ratings: Seq<Option<i8>>| #[trigger]
                filter::answers(rating, all@, ratings) && path::keys(out@) == filter::shown(
                    path::keys(all@),
                    ratings,
                    filter,
                    all@.len() as int,
                ) && path::spellings(out@) == filter::shown(
                    path::spellings(all@),
                    ratings,
                    filter,
                    all@.len() as int,
                );
            assert(ratings =~= ratings_of(notes@, path::keys(all@)));
        }
    }
    out
}

impl App {
    /// Counts something that the user did.
    pub(crate) fn touch(&mut self)
        requires
            old(self).sound(),
        ensures
            final(self).sound(),
            final(self)@ == old(self)@.touched(),
    {
        let ghost before = self@;
        self.ledger.interaction = next_number(self.ledger.interaction);
        assert(self@ == before.touched());
    }

    /// Drops what belongs to the old folder.
    fn leave_folder(&mut self)
        requires
            old(self).sound(),
        ensures
            final(self).sound(),
            final(self)@ == (Model {
                settings: state::Settings { restore_allowed: false, ..old(self)@.settings },
                folder_epoch: state::next(old(self)@.folder_epoch),
                generation: state::next(old(self)@.generation),
                session: state::next(old(self)@.session),
                listing: unlisted(),
                info: old(self)@.info.restrict(info::unsaved(old(self)@.info)),
                screen: ScreenModel {
                    textures: Seq::empty(),
                    prefetched: Set::empty(),
                    displayed: None,
                    displayed_written: None,
                    pending_upload: None,
                    pending_prefetch: None,
                    attempted_prefetch: None,
                    ..old(self)@.screen
                },
                selection: Selection::first(0),
                user_navigated: false,
                notice: Seq::empty(),
                ..old(self)@
            }),
    {
        let ghost t = self@;
        self.settings.restore_allowed = false;
        self.folder_epoch = next_number(self.folder_epoch);
        self.generation = next_number(self.generation);
        self.session = next_number(self.session);
        self.listing = state::Listing {
            all: Vec::new(),
            files: Vec::new(),
            whole: false,
            filter: PhotoFilter::All,
            index_started: false,
            index_complete: false,
            ratings_read: 0,
            rating_errors: 0,
            stale: false,
            folder: None,
            scanning: true,
            complete_only: false,
        };
        assert(path::keys(self.listing.all@) =~= Seq::<Seq<u8>>::empty());
        assert(path::keys(self.listing.files@) =~= Seq::<Seq<u8>>::empty());
        assert(path::spellings(self.listing.all@) =~= Seq::<Seq<u8>>::empty());
        assert(path::spellings(self.listing.files@) =~= Seq::<Seq<u8>>::empty());
        assert(self.listing@ == unlisted());
        info::keep_unsaved(&mut self.info);
        self.screen.textures.clear();
        self.screen.prefetched.clear();
        self.screen.displayed = None;
        self.screen.pending_upload = None;
        self.screen.pending_prefetch = None;
        self.screen.attempted_prefetch = None;
        self.navigator = Navigator::new(0);
        self.user_navigated = false;
        self.notice = String::new();
        proof {
            assert(self@.screen == (ScreenModel {
                textures: Seq::empty(),
                prefetched: Set::empty(),
                displayed: None,
                displayed_written: None,
                pending_upload: None,
                pending_prefetch: None,
                attempted_prefetch: None,
                ..t.screen
            }));
        }
    }

    /// Opens a folder, or the folder of a photograph.
    #[verifier::rlimit(40)]
    pub fn open(&mut self, at: PhotoPath)
        requires
            old(self).sound(),
        ensures
            final(self).sound(),
            final(self)@ == old(self)@.opened(at.raw()),
    {
        proof {
            reveal(Model::opened);
        }
        if self.quitting || self.trash_busy {
            return;
        }
        self.touch();
        self.stop_thumbnail_work();
        let ghost s = self@;
        self.strip.cache.clear();
        self.strip.unavailable.clear();
        let _ = self.strip.window.reset();
        proof {
            assert(self@ == s.with_strip(
                StripModel {
                    cache: Seq::empty(),
                    unavailable: Set::empty(),
                    window: crate::browser::filmstrip::Strip { start: 0, ..s.strip.window },
                    ..s.strip
                },
            ));
        }
        self.clear_pin();
        self.post(Action::EndPeek);
        self.leave_folder();
        self.post(Action::CancelRatingScan);
        self.post(Action::FilterShown(PhotoFilter::All));
        self.post(Action::SetFiles(self.session));
        self.post(Action::CancelUploads);
        self.post(Action::Image(None));
        self.post(Action::Caption("Opening folder...".to_owned()));
        let epoch: u64 = self.folder_epoch;
        self.post(Action::Scan { at, epoch });
        self.status();
    }

    /// Reads the ratings of the whole folder, once a filter needs them.
    pub fn start_rating_index(&mut self)
        requires
            old(self).sound(),
        ensures
            final(self).sound(),
            final(self)@ == old(self)@.index_begun(),
    {
        proof {
            reveal(Model::index_begun);
        }
        let ghost before = self@;
        let filtered = match self.listing.filter {
            PhotoFilter::All => false,
            _ => true,
        };
        if filtered && !self.listing.scanning && !self.listing.index_started {
            self.listing.index_started = true;
            proof {
                assert(self@ == before.with_listing(
                    ListingModel { index_started: true, ..before.listing },
                ));
            }
            self.post(Action::ScanRatings(self.folder_epoch));
        }
    }

    /// Takes in a listing of the folder.
    pub fn scanned(&mut self, result: ScanResult)
        requires
            old(self).sound(),
        ensures
            final(self).sound(),
            final(self)@ == old(self)@.listed(result),
    {
        proof {
            reveal(Model::listed);
        }
        let ghost before = self@;
        if result.session != self.folder_epoch || (self.listing.complete_only && !result.complete) {
            return;
        }
        let previous = self.current();
        let selected: usize = selected_index(
            &result.files,
            result.requested.as_ref(),
            previous.as_ref(),
            self.user_navigated,
        );
        let preferred = if selected < result.files.len() {
            Some(result.files[selected].copied())
        } else {
            None
        };
        if result.complete {
            self.listing.complete_only = false;
        }
        self.listing.folder = Some(result.folder);
        self.listing.scanning = !result.complete;
        self.listing.all = result.files;
        self.listing.whole = false;
        proof {
            assert(self@ == before.with_listing(
                ListingModel {
                    complete_only: before.listing.complete_only && !result.complete,
                    folder: Some(result.folder.raw()),
                    scanning: !result.complete,
                    all: path::keys(result.files@),
                    all_written: path::spellings(result.files@),
                    whole: false,
                    ..before.listing
                },
            ));
        }
        self.start_rating_index();
        self.refresh_visible(preferred);
    }

    /// Takes in that the folder could not be listed.
    pub fn scan_failed(&mut self, epoch: u64, error: &str)
        requires
            old(self).sound(),
        ensures
            final(self).sound(),
            final(self)@ == old(self)@.unlistable(epoch, error@),
    {
        proof {
            reveal(Model::unlistable);
        }
        let ghost before = self@;
        if epoch != self.folder_epoch {
            return;
        }
        self.listing.scanning = false;
        proof {
            assert(self@ == before.with_listing(
                ListingModel { scanning: false, ..before.listing },
            ));
        }
        self.post(Action::Caption("Folder unavailable - Cmd+O to choose a folder".to_owned()));
        self.message(error);
    }

    /// Shows what another filter shows.
    pub fn set_filter(&mut self, filter: PhotoFilter)
        requires
            old(self).sound(),
        ensures
            final(self).sound(),
            final(self)@ == old(self)@.filtered(filter),
    {
        proof {
            reveal(Model::filtered);
        }
        if !self.trash_busy && !self.quitting {
            let previous = self.current();
            self.touch();
            let ghost t = self@;
            self.listing.filter = filter;
            proof {
                assert(self@ == t.with_listing(ListingModel { filter, ..t.listing }));
            }
            self.start_rating_index();
            self.refresh_visible(previous);
        }
        self.post(Action::FilterShown(self.listing.filter));
    }

    /// Keeps what was loaded for another list of visible photographs. Says
    /// whether the photograph on screen is gone.
    fn sift(&mut self, visible: &Vec<PhotoPath>) -> (gone: bool)
        requires
            old(self).sound(),
        ensures
            final(self).sound(),
            final(self)@ == old(self)@.sifted(path::keys(visible@)),
            gone == old(self)@.vanished(path::keys(visible@)),
    {
        proof {
            reveal(Model::sifted);
        }
        let ghost s = self@;
        let ghost keys = path::keys(visible@);
        self.screen.pending_upload = None;
        self.screen.pending_prefetch = None;
        self.screen.attempted_prefetch = None;
        self.screen.first_render = false;
        self.screen.textures.retain(visible);
        self.strip.cache.retain(visible);
        self.screen.prefetched.retain(visible);
        assert(path_set::gathered(visible@) =~= members(keys));
        let gone = match &self.screen.displayed {
            Some(displayed) => {
                proof {
                    path::lemma_first_position(keys, displayed@);
                }
                path::position_of(visible, displayed).is_none()
            },
            None => false,
        };
        if gone {
            self.screen.displayed = None;
        }
        assert(self@ == s.sifted(keys));
        gone
    }

    fn renumber(&mut self, visible: Vec<PhotoPath>, selected: Option<usize>)
        requires
            old(self).sound(),
        ensures
            final(self).sound(),
            final(self)@ == old(self)@.renumbered(
                path::keys(visible@),
                path::spellings(visible@),
                match selected {
                    Some(i) => Some(i as int),
                    None => None,
                },
            ),
    {
        proof {
            reveal(Model::renumbered);
        }
        let ghost s = self@;
        let ghost keys = path::keys(visible@);
        self.generation = next_number(self.generation);
        self.session = next_number(self.session);
        self.listing.whole = match self.listing.filter {
            PhotoFilter::All => true,
            _ => false,
        };
        self.navigator = Navigator::new(visible.len());
        let start: usize = match selected {
            Some(i) => i,
            None => 0,
        };
        let _ = self.navigator.seek(start);
        self.listing.files = visible;
        proof {
            assert(self@.selection == Selection::first(keys.len() as usize).sought(start as int));
            assert(self@.listing == (ListingModel {
                files: keys,
                files_written: path::spellings(visible@),
                whole: s.listing.filter == PhotoFilter::All,
                ..s.listing
            }));
        }
    }

    /// Takes up another list of visible photographs.
    fn relist(&mut self, visible: Vec<PhotoPath>, selected: Option<usize>)
        requires
            old(self).sound(),
        ensures
            final(self).sound(),
            final(self)@ == old(self)@.relisted(
                path::keys(visible@),
                path::spellings(visible@),
                match selected {
                    Some(i) => Some(i as int),
                    None => None,
                },
            ),
    {
        proof {
            reveal(Model::relisted);
        }
        self.stop_thumbnail_work();
        let gone = self.sift(&visible);
        self.renumber(visible, selected);
        self.post(Action::CancelUploads);
        self.post(Action::SetFiles(self.session));
        if gone {
            self.post(Action::Image(None));
        }
        self.sync_gpu_cache();
    }

    /// Whether the visible photographs are those of another list.
    pub(crate) fn lists(&self, other: &Vec<PhotoPath>) -> (out: bool)
        ensures
            out == (self@.listing.files == path::keys(other@)),
    {
        same_lists(other, &self.listing.files)
    }

    /// The photographs that the filter shows.
    pub fn visible_photographs(&self) -> (out: Vec<PhotoPath>)
        requires
            self.sound(),
        ensures
            path::keys(out@) == self@.visible(),
            path::spellings(out@) == self@.visible_written(),
    {
        proof {
            reveal(Model::visible);
            reveal(Model::visible_written);
        }
        find_visible(&self.listing.all, self.listing.filter, &self.info)
    }

    /// Follows the filter and the folder. A photograph that is preferred is
    /// selected.
    pub fn refresh_visible(&mut self, preferred: Option<PhotoPath>)
        requires
            old(self).sound(),
        ensures
            final(self).sound(),
            final(self)@ == old(self)@.refreshed(deleted::place(preferred)),
    {
        proof {
            reveal(Model::refreshed);
        }
        let ghost before = self@;
        if self.trash_busy || self.quitting {
            return;
        }
        self.listing.stale = false;
        let ghost s = before.with_listing(ListingModel { stale: false, ..before.listing });
        assert(self@ == s);
        let everything = match self.listing.filter {
            PhotoFilter::All => true,
            _ => false,
        };
        let current = self.current();
        if everything && self.listing.whole && same_choice(&preferred, &current) {
            self.status();
            return;
        }
        self.follow(preferred);
    }

    /// Looks the list through.
    fn follow(&mut self, preferred: Option<PhotoPath>)
        requires
            old(self).sound(),
        ensures
            final(self).sound(),
            final(self)@ == old(self)@.followed(deleted::place(preferred)),
    {
        proof {
            reveal(Model::followed);
        }
        let ghost s = self@;
        let visible = self.visible_photographs();
        let selected = choose_selection(&visible, preferred.as_ref(), self.navigator.index());
        let same = same_lists(&visible, &self.listing.files);
        assert(same == (s.visible() == s.listing.files));
        self.push(Todo::Refreshed);
        if same {
            self.reselect(selected);
        } else {
            self.relist(visible, selected);
            self.push(Todo::Request);
        }
    }

    fn reselect(&mut self, selected: Option<usize>)
        requires
            old(self).sound(),
        ensures
            final(self).sound(),
            final(self)@ == old(self)@.reselected(
                match selected {
                    Some(i) => Some(i as int),
                    None => None,
                },
            ),
    {
        proof {
            reveal(Model::reselected);
        }
        let ghost s = self@;
        let moved = match selected {
            Some(index) => self.navigator.seek(index),
            None => false,
        };
        proof {
            let selection = match selected {
                Some(i) => s.selection.sought(i as int),
                None => s.selection,
            };
            assert(self@ == (Model { selection, ..s }));
            assert(moved == (selection != s.selection));
        }
        if moved {
            self.push(Todo::Request);
        }
    }

    /// Explains an empty list.
    pub(crate) fn explain(&mut self)
        requires
            old(self).sound(),
        ensures
            final(self).sound(),
            final(self)@ == old(self)@.explained(),
    {
        proof {
            reveal(Model::explained);
        }
        if self.listing.files.len() == 0 {
            let text = if self.listing.scanning {
                "Scanning folder..."
            } else if self.listing.all.len() == 0 {
                "No ARWs in this folder. Cmd+O to open a folder."
            } else if !self.listing.index_complete {
                "Reading ratings..."
            } else {
                "No photos match. Cmd+Option+0 shows all photos."
            };
            self.post(Action::Image(None));
            self.post(Action::Caption(text.to_owned()));
        }
        self.status();
    }

    /// Takes account of ratings that were read.
    pub fn ratings_changed(&mut self)
        requires
            old(self).sound(),
        ensures
            final(self).sound(),
            final(self)@ == old(self)@.rerated(),
    {
        proof {
            reveal(Model::rerated);
        }
        let ghost before = self@;
        let previous = self.current();
        let shown = match &previous {
            Some(photo) => !same_choice(&previous, &self.screen.displayed)
                && self.listing.filter.matches(info::find_rating(&self.info, photo)),
            None => false,
        };
        if !self.listing.index_complete && shown {
            self.listing.stale = true;
            proof {
                assert(self@ == before.with_listing(
                    ListingModel { stale: true, ..before.listing },
                ));
            }
            self.status();
        } else {
            self.refresh_visible(previous);
        }
    }

    /// Moves the selection on by some photographs.
    pub fn navigate(&mut self, delta: isize)
        requires
            old(self).sound(),
        ensures
            final(self).sound(),
            final(self)@ == old(self)@.navigated(delta as int),
    {
        proof {
            reveal(Model::navigated);
        }
        self.touch();
        let ghost s = self@;
        if self.quitting || self.trash_busy {
            return;
        }
        let moved = self.navigator.advance(delta);
        if moved {
            self.user_navigated = true;
            proof {
                assert(self@ == (Model {
                    selection: s.selection.advanced(delta as int),
                    user_navigated: true,
                    ..s
                }));
            }
            self.request_current();
        } else {
            assert(s.selection.advanced(delta as int) == s.selection);
            assert(self@ == s);
        }
    }

    /// Goes to the first photograph, as the rehearsal does.
    pub fn show_first(&mut self)
        requires
            old(self).sound(),
        ensures
            final(self).sound(),
            final(self)@ == old(self)@.begun_again(),
    {
        proof {
            reveal(Model::begun_again);
        }
        let ghost s = self@;
        if self.navigator.seek(0) {
            proof {
                assert(self@ == (Model { selection: s.selection.sought(0), ..s }));
            }
            self.request_current();
        } else {
            assert(self@ == s);
        }
    }

    /// Selects a photograph by its place.
    pub fn pick(&mut self, index: usize)
        requires
            old(self).sound(),
        ensures
            final(self).sound(),
            final(self)@ == old(self)@.picked(index),
    {
        proof {
            reveal(Model::picked);
        }
        if self.quitting || self.trash_busy {
            return;
        }
        self.touch();
        let ghost s = self@;
        let moved = self.navigator.seek(index);
        if moved {
            self.user_navigated = true;
            proof {
                assert(self@ == (Model {
                    selection: s.selection.sought(index as int),
                    user_navigated: true,
                    ..s
                }));
            }
            self.request_current();
        } else {
            assert(self@ == s);
        }
    }
}

} // verus!
