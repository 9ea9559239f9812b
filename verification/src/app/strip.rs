//! The filmstrip on screen: which thumbnails are asked for, and when.
use crate::app::deleted;
use crate::app::filmstrip;
use crate::app::info;
use crate::app::state;
use crate::app::state::{next_number, Act, Action, App, Due, Model, StripModel, Todo};
use crate::app::textures;
use crate::app::textures::Texture;
use crate::app::thumbnails::{ThumbnailEvent, ThumbnailFailure};
use crate::app::upload::ThumbFinished;
use crate::browser::prefetch::Direction;
use crate::path;
use crate::path::{Identity, PhotoPath};
use vstd::prelude::*;

verus! {

/// Tries after which thumbnails are given up.
pub const MAX_RETRIES: u8 = 3;

/// The time after a rest.
pub open spec fn rested(clock: u64) -> u64 {
    if clock + filmstrip::IDLE_GRACE > u64::MAX {
        u64::MAX
    } else {
        (clock + filmstrip::IDLE_GRACE) as u64
    }
}

fn after_rest(clock: u64) -> (out: u64)
    ensures
        out == rested(clock),
{
    if clock > u64::MAX - filmstrip::IDLE_GRACE {
        u64::MAX
    } else {
        clock + filmstrip::IDLE_GRACE
    }
}

/// The cells that a window has room for.
pub open spec fn cells_of(capacity: usize) -> int {
    if capacity < 1 {
        1
    } else if capacity > filmstrip::MAX_CELLS {
        filmstrip::MAX_CELLS as int
    } else {
        capacity as int
    }
}

impl Model {
    /// With another state of the filmstrip.
    pub open spec fn with_strip(self, strip: StripModel) -> Model {
        Model { strip, ..self }
    }

    /// Loads no more thumbnails.
    pub open spec fn stopped(self) -> Model {
        self.with_strip(
            StripModel {
                serial: state::next(self.strip.serial),
                plan_sent: false,
                deadline: None,
                ..self.strip
            },
        ).posted(Act::StopThumbnails)
    }

    /// The filmstrip follows the list and the window.
    pub open spec fn synchronized(self) -> Model {
        self.with_strip(
            StripModel {
                window: self.strip.window.synchronized(
                    self.listing.files.len() as int,
                    cells_of(self.strip.capacity),
                ),
                ..self.strip
            },
        )
    }

    /// The selected photograph is among the cells. Only a request does this: the
    /// filmstrip is scrolled by itself.
    pub open spec fn revealed(self) -> Model {
        let s = self.synchronized();
        match self.selection.index {
            Some(index) => s.with_strip(
                StripModel { window: s.strip.window.revealed(index as int), ..s.strip },
            ),
            None => s,
        }
    }

    /// The cells of the filmstrip are shown. Other cells are given a rest before
    /// their thumbnails are loaded.
    #[verifier::opaque]
    pub open spec fn strip_shown(self) -> Model {
        if !self.strip.visible {
            self
        } else {
            let s = self.synchronized();
            let (start, end) = (s.strip.window.start, s.strip.window.end());
            if start != s.strip.start || end != s.strip.end {
                let t = s.stopped();
                t.with_strip(
                    StripModel {
                        retries: 0,
                        start: start as usize,
                        end: end as usize,
                        cache: filmstrip::refreshed(
                            t.strip.cache,
                            self.listing.files,
                            start,
                            end - start,
                        ),
                        deadline: Some(rested(self.clock)),
                        ..t.strip
                    },
                )
            } else {
                s
            }.posted(Act::Strip)
        }
    }

    /// The filmstrip and the status line are up to date.
    pub open spec fn told(self) -> Model {
        self.strip_shown().posted(Act::Status)
    }

    /// Something is said in the status line.
    pub open spec fn message(self, text: Seq<char>) -> Model {
        (Model { notice: text, ..self }).told()
    }

    /// The photograph behind the selected one, in the direction of the last
    /// step.
    pub open spec fn next_index(self) -> Option<usize> {
        match self.selection.index {
            None => None,
            Some(index) => match self.selection.direction {
                Direction::Forward => if index + 1 < self.listing.files.len() {
                    Some((index + 1) as usize)
                } else {
                    None
                },
                Direction::Backward => if index >= 1 {
                    Some((index - 1) as usize)
                } else {
                    None
                },
            },
        }
    }

    /// The cells that are worth having.
    pub open spec fn warm(self) -> (int, int) {
        filmstrip::warm(
            self.strip.start as int,
            self.strip.end as int,
            self.listing.files.len() as int,
        )
    }

    /// Whether the thumbnail of some cell is missing.
    pub open spec fn lacks_thumbnails(self) -> bool {
        exists|index: int| #[trigger]
            filmstrip::lacking(
                self.listing.files,
                self.strip.cache,
                self.strip.unavailable,
                self.warm(),
                index,
            )
    }

    /// The cell around which thumbnails are loaded: the selected one, or the
    /// middle.
    pub open spec fn anchor(self) -> int {
        match self.selection.index {
            Some(index) if self.strip.start <= index < self.strip.end => index as int,
            _ => if self.strip.start < self.strip.end {
                self.strip.start + (self.strip.end - self.strip.start) / 2
            } else {
                self.strip.start as int
            },
        }
    }

    /// Whether no thumbnails are to be loaded now.
    pub open spec fn at_rest(self) -> bool {
        ||| !self.strip.visible
        ||| self.quitting
        ||| self.strip.plan_sent
        ||| self.strip.retries >= MAX_RETRIES
    }

    /// Thumbnails are loaded, unless photographs are still to be.
    #[verifier::opaque]
    pub open spec fn started(self, grace: bool) -> Model {
        if self.at_rest() {
            self
        } else if self.current() is None || self.current() != self.screen.displayed
            || self.screen.pending_upload is Some {
            if grace {
                self.with_strip(StripModel { deadline: None, ..self.strip })
            } else {
                self
            }
        } else {
            match self.next_index() {
                None => self.thumbnails_asked(grace, true),
                Some(index) => if textures::texture_of(
                    self.screen.textures,
                    self.listing.files[index as int],
                ) is Some {
                    self.thumbnails_asked(grace, true)
                } else {
                    self.first(Due::Thumbnails(index, grace))
                },
            }
        }
    }

    /// Thumbnails are loaded once the next photograph is ready, or after a rest.
    #[verifier::opaque]
    pub open spec fn thumbnails_asked(self, grace: bool, ready: bool) -> Model {
        if self.screen.pending_prefetch is Some || (!ready && !grace) {
            self
        } else {
            let s = self.with_strip(
                StripModel { plan_sent: true, deadline: None, ..self.strip },
            );
            if self.lacks_thumbnails() {
                s.posted(Act::LoadThumbnails(self.session, self.strip.serial))
            } else {
                s
            }
        }
    }

    /// Thumbnails are loaded as soon as nothing else is to be done.
    #[verifier::opaque]
    pub open spec fn armed(self) -> Model {
        if self.at_rest() || self.listing.files.len() == 0 {
            self
        } else {
            self.with_strip(
                StripModel {
                    deadline: if self.strip.deadline is Some {
                        self.strip.deadline
                    } else {
                        Some(rested(self.clock))
                    },
                    ..self.strip
                },
            ).started(false)
        }
    }

    /// Thumbnails are put off. Textures that were drawn may free some memory
    /// soon; there are few tries.
    #[verifier::opaque]
    pub open spec fn deferred(self) -> Model {
        let s = self.stopped();
        let retries = if s.strip.retries == u8::MAX {
            u8::MAX
        } else {
            (s.strip.retries + 1) as u8
        };
        let t = s.with_strip(StripModel { retries, ..s.strip });
        if retries < MAX_RETRIES && self.strip.visible && !self.quitting {
            t.with_strip(StripModel { deadline: Some(rested(self.clock)), ..t.strip }).posted(
                Act::Redraw,
            )
        } else {
            t
        }
    }
}

impl App {
    /// Loads no more thumbnails.
    pub fn stop_thumbnail_work(&mut self)
        requires
            old(self).sound(),
        ensures
            final(self).sound(),
            final(self)@ == old(self)@.stopped(),
    {
        let ghost before = self@;
        self.strip.serial = next_number(self.strip.serial);
        self.strip.plan_sent = false;
        self.strip.deadline = None;
        self.post(Action::StopThumbnails);
        assert(self@ == before.stopped());
    }

    fn synchronize_strip(&mut self)
        requires
            old(self).sound(),
        ensures
            final(self).sound(),
            final(self)@ == old(self)@.synchronized(),
    {
        let ghost before = self@;
        let cells: usize = if self.strip.capacity < 1 {
            1
        } else if self.strip.capacity > filmstrip::MAX_CELLS {
            filmstrip::MAX_CELLS
        } else {
            self.strip.capacity
        };
        let _ = self.strip.window.synchronize(self.listing.files.len(), cells);
        assert(self@ == before.synchronized());
    }

    /// Brings the selected photograph among the cells.
    pub fn reveal_current_thumbnail(&mut self)
        requires
            old(self).sound(),
        ensures
            final(self).sound(),
            final(self)@ == old(self)@.revealed(),
    {
        let ghost before = self@;
        self.synchronize_strip();
        match self.navigator.index() {
            Some(index) => {
                let _ = self.strip.window.reveal_photo(index);
            },
            None => {},
        }
        assert(self@ == before.revealed());
    }

    /// Shows the cells of the filmstrip.
    pub fn refresh_filmstrip(&mut self)
        requires
            old(self).sound(),
        ensures
            final(self).sound(),
            final(self)@ == old(self)@.strip_shown(),
    {
        proof {
            reveal(Model::strip_shown);
        }
        let ghost before = self@;
        if !self.strip.visible {
            return;
        }
        self.synchronize_strip();
        let range = self.strip.window.range();
        if range.start != self.strip.start || range.end != self.strip.end {
            self.stop_thumbnail_work();
            self.strip.retries = 0;
            self.strip.start = range.start;
            self.strip.end = range.end;
            filmstrip::touch_visible(&mut self.strip.cache, &self.listing.files, &range);
            self.strip.deadline = Some(after_rest(self.clock));
        }
        self.post(Action::Strip);
        assert(self@ == before.strip_shown());
    }

    /// Brings the filmstrip and the status line up to date.
    pub fn status(&mut self)
        requires
            old(self).sound(),
        ensures
            final(self).sound(),
            final(self)@ == old(self)@.told(),
    {
        self.refresh_filmstrip();
        self.post(Action::Status);
    }

    /// Says something in the status line.
    pub fn message(&mut self, text: &str)
        requires
            old(self).sound(),
        ensures
            final(self).sound(),
            final(self)@ == old(self)@.message(text@),
    {
        let ghost before = self@;
        self.notice = text.to_owned();
        assert(self@ == (Model { notice: text@, ..before }));
        self.status();
    }

    /// The photograph behind the selected one.
    pub fn next_prefetch_index(&self) -> (out: Option<usize>)
        requires
            self.sound(),
        ensures
            out == self@.next_index(),
            out is Some ==> out->0 < self@.listing.files.len(),
    {
        match self.navigator.index() {
            None => None,
            Some(index) => match self.navigator.direction() {
                Direction::Forward => if index < self.listing.files.len() && index + 1
                    < self.listing.files.len() {
                    Some(index + 1)
                } else {
                    None
                },
                Direction::Backward => if index >= 1 {
                    Some(index - 1)
                } else {
                    None
                },
            },
        }
    }
}

impl Model {
    /// Whether a thumbnail is still wanted.
    pub open spec fn wants(self, session: u64, index: usize, photo: Seq<u8>) -> bool {
        &&& self.strip.visible
        &&& session == self.session
        &&& index < self.listing.files.len()
        &&& self.listing.files[index as int] == photo
        &&& self.warm().0 <= index < self.warm().1
        &&& !self.quitting
    }

    /// With the rating that was read beside a thumbnail. An edit wins.
    #[verifier::opaque]
    pub open spec fn rating_seen(self, photo: Seq<u8>, rating: Result<Option<i8>, String>) -> Model {
        let known = info::info_of(self.info, photo);
        if known.revision == 0 && rating is Ok {
            Model {
                info: self.info.insert(
                    photo,
                    info::PhotoInfo {
                        rating: Some(
                            match rating->Ok_0 {
                                Some(stars) => stars,
                                None => 0,
                            },
                        ),
                        ..known
                    },
                ),
                ..self
            }
        } else {
            self
        }
    }

    /// Whether photographs are to be shown or uploaded first.
    pub open spec fn occupied(self) -> bool {
        ||| self.current() != self.screen.displayed
        ||| self.screen.pending_upload is Some
        ||| self.screen.pending_prefetch is Some
    }

    /// With a thumbnail that was decoded. It is uploaded, unless it is there, or
    /// photographs come first.
    #[verifier::opaque]
    pub open spec fn thumbnail_ready(self, event: ThumbnailEvent<PhotoPath>, image: u64) -> Model {
        let done = Act::Acknowledge(event.serial, event.index);
        let t = self.with_strip(
            StripModel { decodes: state::next(self.strip.decodes), ..self.strip },
        );
        if textures::texture_of(t.strip.cache, event.path@) is Some {
            t.posted(done)
        } else if t.occupied() {
            t.stopped().posted(done).armed()
        } else {
            t.posted(
                Act::UploadThumbnail(
                    event.session,
                    event.serial,
                    event.index,
                    event.path.raw(),
                    image,
                    event.orientation,
                ),
            )
        }
    }

    /// With a photograph that has no thumbnail.
    #[verifier::opaque]
    pub open spec fn thumbnail_missing(self, event: ThumbnailEvent<PhotoPath>) -> Model {
        let t = self.with_strip(
            StripModel { unavailable: self.strip.unavailable.insert(event.path@), ..self.strip },
        ).posted(Act::Acknowledge(event.serial, event.index));
        if t.strip.start <= event.index < t.strip.end {
            t.strip_shown().posted(Act::Redraw)
        } else {
            t
        }
    }

    /// After a thumbnail was decoded, or not.
    #[verifier::opaque]
    pub open spec fn thumbnail_decoded(self, event: ThumbnailEvent<PhotoPath>) -> Model {
        let done = Act::Acknowledge(event.serial, event.index);
        if !self.wants(event.session, event.index, event.path@) {
            self.posted(done)
        } else {
            let s = self.rating_seen(event.path@, event.rating);
            match event.result {
                Ok(image) => s.thumbnail_ready(event, image),
                Err(ThumbnailFailure::Unavailable(_)) => s.thumbnail_missing(event),
                Err(ThumbnailFailure::Deferred) => if event.serial == s.strip.serial {
                    s.posted(done).deferred()
                } else {
                    s.posted(done)
                },
            }
        }
    }

    /// With a thumbnail on the GPU. One that is there is not replaced; those
    /// farthest from the visible cells make room.
    #[verifier::opaque]
    pub open spec fn thumbnail_kept(self, photo: Seq<u8>, texture: Texture) -> Model {
        let t = self.with_strip(
            StripModel { uploads: state::next(self.strip.uploads), retries: 0, ..self.strip },
        );
        if textures::texture_of(t.strip.cache, photo) is Some {
            t
        } else {
            t.with_strip(
                StripModel {
                    cache: filmstrip::thinned(
                        t.strip.cache.push((photo, texture)),
                        t.listing.files,
                        t.warm(),
                        (t.strip.start as int, t.strip.end as int),
                    ),
                    ..t.strip
                },
            )
        }
    }

    /// After a thumbnail was uploaded, or not.
    #[verifier::opaque]
    pub open spec fn thumbnail_arrived(self, event: ThumbFinished<PhotoPath>) -> Model {
        let s = if !self.wants(event.session, event.index, event.path@) {
            self
        } else {
            match event.result {
                Ok(texture) => {
                    let t = self.thumbnail_kept(event.path@, texture);
                    if t.strip.start <= event.index < t.strip.end {
                        t.strip_shown().posted(Act::Redraw)
                    } else {
                        t
                    }
                },
                Err(_) => if event.serial == self.strip.serial {
                    self.deferred()
                } else {
                    self
                },
            }
        };
        s.posted(Act::Acknowledge(event.serial, event.index))
    }

    /// The filmstrip is shown, or hidden.
    #[verifier::opaque]
    pub open spec fn strip_toggled(self) -> Model {
        let visible = !self.strip.visible;
        let s = self.first(
            Due::Tell(
                if visible {
                    "Scroll previews independently; click to open; Tab hides strip"@
                } else {
                    "Tab shows thumbnails"@
                },
            ),
        ).posted(Act::EndPeek);
        let t = s.with_strip(StripModel { visible, retries: 0, ..s.strip }).stopped().posted(
            Act::StripVisible(visible),
        );
        let u = if visible {
            t
        } else {
            t.with_strip(StripModel { cache: Seq::empty(), ..t.strip })
        };
        u.strip_shown().armed()
    }

    /// The filmstrip is scrolled by some cells; the selection stays.
    #[verifier::opaque]
    pub open spec fn strip_scrolled(self, steps: int) -> Model {
        if !self.strip.visible || self.quitting || self.trash_busy {
            self
        } else {
            let s = self.synchronized();
            let t = s.with_strip(
                StripModel { window: s.strip.window.scrolled(steps), ..s.strip },
            );
            if t.strip.window.start != s.strip.window.start {
                t.strip_shown().posted(Act::Redraw).armed()
            } else {
                t
            }
        }
    }

    /// Another number of cells fits.
    pub open spec fn resized(self, capacity: usize) -> Model {
        self.with_strip(
            StripModel { capacity, ..self.strip },
        ).strip_shown().posted(Act::Redraw).armed()
    }

    /// Some time has passed.
    pub open spec fn ticked(self, now: u64) -> Model {
        let s = Model { clock: now, ..self };
        if s.strip.deadline is Some && s.strip.deadline->0 <= now {
            s.with_strip(StripModel { deadline: None, ..s.strip }).started(true)
        } else {
            s
        }
    }
}

/// Scrolling the filmstrip never changes the selection, nor what is shown.
pub proof fn law_scrolling_leaves_the_photograph(m: Model, steps: int)
    ensures
        m.strip_scrolled(steps).selection == m.selection,
        m.strip_scrolled(steps).screen == m.screen,
        m.strip_scrolled(steps).current() == m.current(),
        m.strip_scrolled(steps).generation == m.generation,
{
    reveal(Model::strip_scrolled);
    reveal(Model::strip_shown);
    reveal(Model::armed);
    reveal(Model::started);
    reveal(Model::thumbnails_asked);
}

/// A thumbnail for another list, or for a cell that is no longer near, changes
/// nothing: it is only acknowledged.
pub proof fn law_unwanted_thumbnails_are_only_acknowledged(
    m: Model,
    event: ThumbnailEvent<PhotoPath>,
)
    requires
        !m.wants(event.session, event.index, event.path@),
    ensures
        m.thumbnail_decoded(event) == m.posted(Act::Acknowledge(event.serial, event.index)),
{
    reveal(Model::thumbnail_decoded);
}

/// Thumbnails are not tried again without end: after a few failures in a row
/// nothing is loaded until something was shown or the cells have changed.
pub proof fn law_thumbnails_are_given_up(m: Model)
    requires
        m.strip.retries + 1 >= MAX_RETRIES,
    ensures
        m.deferred().strip.deadline is None,
        m.deferred().at_rest(),
        m.deferred().armed() == m.deferred(),
        m.deferred().started(true) == m.deferred(),
{
    reveal(Model::deferred);
    reveal(Model::armed);
    reveal(Model::started);
}

/// Whether two optional photographs are the same.
pub(crate) fn same_choice(a: &Option<PhotoPath>, b: &Option<PhotoPath>) -> (out: bool)
    ensures
        out == (deleted::place(*a) == deleted::place(*b)),
{
    match (a, b) {
        (Some(a), Some(b)) => a.same(b),
        (None, None) => true,
        _ => false,
    }
}

impl App {
    /// Whether some cell has no thumbnail.
    fn lacks_thumbnails(&self) -> (out: bool)
        ensures
            out == self@.lacks_thumbnails(),
    {
        let plan = self.plan_thumbnails();
        proof {
            let m = self@;
            let keys = filmstrip::plan_keys(plan@);
            if plan@.len() > 0 {
                assert(filmstrip::lacking(
                    m.listing.files,
                    m.strip.cache,
                    m.strip.unavailable,
                    m.warm(),
                    keys[0].0 as int,
                ));
            } else {
                assert forall|index: int| !#[trigger]
                    filmstrip::lacking(
                        m.listing.files,
                        m.strip.cache,
                        m.strip.unavailable,
                        m.warm(),
                        index,
                    ) by {
                    if filmstrip::lacking(
                        m.listing.files,
                        m.strip.cache,
                        m.strip.unavailable,
                        m.warm(),
                        index,
                    ) {
                        let file = m.listing.files[index];
                        let i = choose|i: int| 0 <= i < keys.len() && (#[trigger] keys[i]).0 == index;
                        assert(0 <= i < keys.len());
                    }
                }
            }
        }
        plan.len() > 0
    }

    /// The thumbnails to be loaded, in order.
    pub fn plan_thumbnails(&self) -> (out: Vec<(usize, PhotoPath)>)
        ensures
            filmstrip::plan_of(
                filmstrip::plan_keys(out@),
                self@.listing.files,
                self@.strip.cache,
                self@.strip.unavailable,
                self@.warm(),
                (self@.strip.start as int, self@.strip.end as int),
                self@.anchor(),
                self@.listing.files.len() as int,
            ),
    {
        let range = self.strip.start..self.strip.end;
        let middle: usize = if self.strip.start < self.strip.end {
            self.strip.start + (self.strip.end - self.strip.start) / 2
        } else {
            self.strip.start
        };
        let anchor: usize = match self.navigator.index() {
            Some(index) => if self.strip.start <= index && index < self.strip.end {
                index
            } else {
                middle
            },
            None => middle,
        };
        filmstrip::missing_thumbnails(
            &self.listing.files,
            &self.strip.cache,
            &self.strip.unavailable,
            &range,
            anchor,
        )
    }

    fn is_at_rest(&self) -> (out: bool)
        ensures
            out == self@.at_rest(),
    {
        !self.strip.visible || self.quitting || self.strip.plan_sent || self.strip.retries
            >= MAX_RETRIES
    }

    /// Loads thumbnails, unless photographs are still to be loaded.
    pub fn start_thumbnails(&mut self, grace: bool)
        requires
            old(self).sound(),
        ensures
            final(self).sound(),
            final(self)@ == old(self)@.started(grace),
    {
        proof {
            reveal(Model::started);
        }
        let ghost before = self@;
        if self.is_at_rest() {
            return;
        }
        let current = self.current();
        if current.is_none() || !same_choice(&current, &self.screen.displayed)
            || self.screen.pending_upload.is_some() {
            if grace {
                self.strip.deadline = None;
                assert(self@ == before.started(grace));
            }
            return;
        }
        match self.next_prefetch_index() {
            None => {
                self.ask_thumbnails(grace, true);
            },
            Some(index) => {
                if self.screen.textures.find(&self.listing.files[index]).is_some() {
                    self.ask_thumbnails(grace, true);
                } else {
                    self.push(Todo::Thumbnails { index, grace });
                }
            },
        }
    }

    /// Loads thumbnails once the next photograph is ready, or after a rest.
    pub(crate) fn ask_thumbnails(&mut self, grace: bool, ready: bool)
        requires
            old(self).sound(),
        ensures
            final(self).sound(),
            final(self)@ == old(self)@.thumbnails_asked(grace, ready),
    {
        proof {
            reveal(Model::thumbnails_asked);
        }
        let ghost before = self@;
        if self.screen.pending_prefetch.is_some() || (!ready && !grace) {
            return;
        }
        let lacks = self.lacks_thumbnails();
        self.strip.plan_sent = true;
        self.strip.deadline = None;
        if lacks {
            self.post(
                Action::LoadThumbnails { session: self.session, serial: self.strip.serial },
            );
        }
        assert(self@ == before.thumbnails_asked(grace, ready));
    }

    /// Loads thumbnails as soon as nothing else is to be done.
    pub fn arm_thumbnails(&mut self)
        requires
            old(self).sound(),
        ensures
            final(self).sound(),
            final(self)@ == old(self)@.armed(),
    {
        proof {
            reveal(Model::armed);
        }
        let ghost before = self@;
        if self.is_at_rest() || self.listing.files.len() == 0 {
            return;
        }
        if self.strip.deadline.is_none() {
            self.strip.deadline = Some(after_rest(self.clock));
        }
        proof {
            assert(self@ == before.with_strip(
                StripModel {
                    deadline: if before.strip.deadline is Some {
                        before.strip.deadline
                    } else {
                        Some(rested(before.clock))
                    },
                    ..before.strip
                },
            ));
        }
        self.start_thumbnails(false);
    }

    /// Puts thumbnails off.
    fn defer_thumbnails(&mut self)
        requires
            old(self).sound(),
        ensures
            final(self).sound(),
            final(self)@ == old(self)@.deferred(),
    {
        proof {
            reveal(Model::deferred);
        }
        let ghost before = self@;
        self.stop_thumbnail_work();
        if self.strip.retries < u8::MAX {
            self.strip.retries = self.strip.retries + 1;
        }
        if self.strip.retries < MAX_RETRIES && self.strip.visible && !self.quitting {
            self.strip.deadline = Some(after_rest(self.clock));
            self.post(Action::Redraw);
        }
        assert(self@ == before.deferred());
    }

    fn wants_thumbnail(&self, session: u64, index: usize, photo: &PhotoPath) -> (out: bool)
        ensures
            out == self@.wants(session, index, photo@),
    {
        let range = filmstrip::warm_window(
            self.strip.start..self.strip.end,
            self.listing.files.len(),
        );
        self.strip.visible && session == self.session && index < self.listing.files.len()
            && self.listing.files[index].same(photo) && range.start <= index && index < range.end
            && !self.quitting
    }

    /// Takes in a rating that was read beside a thumbnail.
    fn see_rating(&mut self, photo: &PhotoPath, rating: &Result<Option<i8>, String>)
        requires
            old(self).sound(),
        ensures
            final(self).sound(),
            final(self)@ == old(self)@.rating_seen(photo@, *rating),
    {
        proof {
            reveal(Model::rating_seen);
        }
        let ghost before = self@;
        let revision: u64 = match self.info.get(photo) {
            Some(known) => known.revision,
            None => 0,
        };
        match rating {
            Ok(rating) => {
                if revision == 0 {
                    let mut known = info::take(&mut self.info, photo);
                    let stars: i8 = match rating {
                        Some(stars) => *stars,
                        None => 0,
                    };
                    known.rating = Some(stars);
                    info::put(&mut self.info, photo, known);
                }
            },
            Err(_) => {},
        }
        assert(self@ == before.rating_seen(photo@, *rating));
    }

    fn take_thumbnail(&mut self, event: ThumbnailEvent<PhotoPath>, image: u64)
        requires
            old(self).sound(),
        ensures
            final(self).sound(),
            final(self)@ == old(self)@.thumbnail_ready(event, image),
    {
        proof {
            reveal(Model::thumbnail_ready);
        }
        let ghost before = self@;
        self.strip.decodes = next_number(self.strip.decodes);
        assert(self@ == before.with_strip(
            StripModel { decodes: state::next(before.strip.decodes), ..before.strip },
        ));
        if self.strip.cache.find(&event.path).is_some() {
            self.post(Action::Acknowledge { serial: event.serial, index: event.index });
        } else if self.is_occupied() {
            self.stop_thumbnail_work();
            self.post(Action::Acknowledge { serial: event.serial, index: event.index });
            self.arm_thumbnails();
        } else {
            self.post(
                Action::UploadThumbnail {
                    session: event.session,
                    serial: event.serial,
                    index: event.index,
                    photo: event.path,
                    image,
                    orientation: event.orientation,
                },
            );
        }
    }

    fn miss_thumbnail(&mut self, event: ThumbnailEvent<PhotoPath>)
        requires
            old(self).sound(),
        ensures
            final(self).sound(),
            final(self)@ == old(self)@.thumbnail_missing(event),
    {
        proof {
            reveal(Model::thumbnail_missing);
        }
        let ghost before = self@;
        let index: usize = event.index;
        self.strip.unavailable.insert(event.path);
        assert(self@ == before.with_strip(
            StripModel {
                unavailable: before.strip.unavailable.insert(event.path@),
                ..before.strip
            },
        ));
        self.post(Action::Acknowledge { serial: event.serial, index });
        if self.strip.start <= index && index < self.strip.end {
            self.refresh_filmstrip();
            self.post(Action::Redraw);
        }
    }

    /// Takes in a thumbnail that was decoded, or not.
    pub fn thumbnail_event(&mut self, event: ThumbnailEvent<PhotoPath>)
        requires
            old(self).sound(),
        ensures
            final(self).sound(),
            final(self)@ == old(self)@.thumbnail_decoded(event),
    {
        proof {
            reveal(Model::thumbnail_decoded);
        }
        if !self.wants_thumbnail(event.session, event.index, &event.path) {
            self.post(Action::Acknowledge { serial: event.serial, index: event.index });
            return;
        }
        self.see_rating(&event.path, &event.rating);
        match &event.result {
            Ok(image) => {
                let image: u64 = *image;
                self.take_thumbnail(event, image);
            },
            Err(ThumbnailFailure::Unavailable(_)) => {
                self.miss_thumbnail(event);
            },
            Err(ThumbnailFailure::Deferred) => {
                self.post(Action::Acknowledge { serial: event.serial, index: event.index });
                if event.serial == self.strip.serial {
                    self.defer_thumbnails();
                }
            },
        }
    }

    pub(crate) fn is_occupied(&self) -> (out: bool)
        ensures
            out == self@.occupied(),
    {
        let current = self.current();
        !same_choice(&current, &self.screen.displayed) || self.screen.pending_upload.is_some()
            || self.screen.pending_prefetch.is_some()
    }

    fn keep_thumbnail(&mut self, photo: PhotoPath, texture: Texture)
        requires
            old(self).sound(),
        ensures
            final(self).sound(),
            final(self)@ == old(self)@.thumbnail_kept(photo@, texture),
    {
        proof {
            reveal(Model::thumbnail_kept);
        }
        let ghost before = self@;
        self.strip.uploads = next_number(self.strip.uploads);
        self.strip.retries = 0;
        if self.strip.cache.find(&photo).is_none() {
            let range = self.strip.start..self.strip.end;
            self.strip.cache.push(photo, texture);
            filmstrip::trim_thumbnails(&mut self.strip.cache, &self.listing.files, &range);
        }
        assert(self@ == before.thumbnail_kept(photo@, texture));
    }

    /// Takes in a thumbnail that was uploaded, or not.
    pub fn thumbnail_uploaded(&mut self, event: ThumbFinished<PhotoPath>)
        requires
            old(self).sound(),
        ensures
            final(self).sound(),
            final(self)@ == old(self)@.thumbnail_arrived(event),
    {
        proof {
            reveal(Model::thumbnail_arrived);
        }
        let serial: u64 = event.serial;
        let index: usize = event.index;
        if self.wants_thumbnail(event.session, index, &event.path) {
            match event.result {
                Ok(texture) => {
                    self.keep_thumbnail(event.path, texture);
                    if self.strip.start <= index && index < self.strip.end {
                        self.refresh_filmstrip();
                        self.post(Action::Redraw);
                    }
                },
                Err(_) => {
                    if serial == self.strip.serial {
                        self.defer_thumbnails();
                    }
                },
            }
        }
        self.post(Action::Acknowledge { serial, index });
    }

    /// Shows or hides the filmstrip.
    pub fn toggle_filmstrip(&mut self)
        requires
            old(self).sound(),
        ensures
            final(self).sound(),
            final(self)@ == old(self)@.strip_toggled(),
    {
        proof {
            reveal(Model::strip_toggled);
        }
        let ghost before = self@;
        let visible = !self.strip.visible;
        let text = if visible {
            "Scroll previews independently; click to open; Tab hides strip"
        } else {
            "Tab shows thumbnails"
        };
        self.push(Todo::Tell(text.to_owned()));
        self.post(Action::EndPeek);
        let ghost s = self@;
        self.strip.visible = visible;
        self.strip.retries = 0;
        assert(self@ == s.with_strip(StripModel { visible, retries: 0, ..s.strip }));
        self.stop_thumbnail_work();
        self.post(Action::StripVisible(visible));
        let ghost t = self@;
        if !visible {
            self.strip.cache.clear();
            assert(self@ == t.with_strip(StripModel { cache: Seq::empty(), ..t.strip }));
        }
        self.refresh_filmstrip();
        self.arm_thumbnails();
    }

    /// Scrolls the filmstrip.
    pub fn scroll_strip(&mut self, steps: isize)
        requires
            old(self).sound(),
        ensures
            final(self).sound(),
            final(self)@ == old(self)@.strip_scrolled(steps as int),
    {
        proof {
            reveal(Model::strip_scrolled);
        }
        if !self.strip.visible || self.quitting || self.trash_busy {
            return;
        }
        self.synchronize_strip();
        let ghost s = self@;
        let moved = self.strip.window.scroll(steps);
        assert(self@ == s.with_strip(
            StripModel { window: s.strip.window.scrolled(steps as int), ..s.strip },
        ));
        if moved {
            self.refresh_filmstrip();
            self.post(Action::Redraw);
            self.arm_thumbnails();
        }
    }

    /// Follows the number of cells that fit into the window.
    pub fn resize(&mut self, capacity: usize)
        requires
            old(self).sound(),
        ensures
            final(self).sound(),
            final(self)@ == old(self)@.resized(capacity),
    {
        let ghost before = self@;
        self.strip.capacity = capacity;
        assert(self@ == before.with_strip(StripModel { capacity, ..before.strip }));
        self.refresh_filmstrip();
        self.post(Action::Redraw);
        self.arm_thumbnails();
    }

    /// Takes in the time.
    pub fn tick(&mut self, now: u64)
        requires
            old(self).sound(),
        ensures
            final(self).sound(),
            final(self)@ == old(self)@.ticked(now),
    {
        let ghost before = self@;
        self.clock = now;
        let over = match self.strip.deadline {
            Some(deadline) => deadline <= now,
            None => false,
        };
        if over {
            self.strip.deadline = None;
            proof {
                let s = Model { clock: now, ..before };
                assert(self@ == s.with_strip(StripModel { deadline: None, ..s.strip }));
            }
            self.start_thumbnails(true);
        } else {
            assert(self@ == (Model { clock: now, ..before }));
        }
    }
}

/// A cell of the filmstrip.
#[derive(Debug)]
pub struct Cell {
    pub index: usize,
    pub texture: Option<Texture>,
    pub orientation: u16,
    pub selected: bool,
    pub rating: Option<i8>,
    pub label: String,
}

impl Cell {
    /// Whether a cell shows a photograph as it should.
    pub open spec fn shows(self, m: Model, index: int) -> bool {
        let photo = m.listing.files[index];
        let texture = textures::texture_of(m.strip.cache, photo);
        &&& self.index == index
        &&& self.texture == texture
        &&& self.orientation == info::upright(
            m.info,
            photo,
            match texture {
                Some(texture) => texture.orientation,
                None => 1,
            },
        )
        &&& self.selected == (m.selection.index == Some(index as usize))
        &&& self.rating == info::rating_of(m.info, photo)
        &&& self.label@ == filmstrip::label(photo)
    }
}

impl App {
    /// The visible cells.
    pub fn cells(&self) -> (out: Vec<Cell>)
        requires
            self.sound(),
        ensures
            ({
                let m = self@;
                let start = m.strip.window.start;
                let end = if m.strip.window.end() < m.listing.files.len() {
                    m.strip.window.end()
                } else {
                    m.listing.files.len() as int
                };
                &&& out@.len() == if start < end {
                    end - start
                } else {
                    0
                }
                &&& forall|i: int|
                    0 <= i < out@.len() ==> (#[trigger] out@[i]).shows(m, start + i)
            }),
    {
        let range = self.strip.window.range();
        let mut out: Vec<Cell> = Vec::new();
        let mut index: usize = range.start;
        while index < range.end && index < self.listing.files.len()
            invariant
                self.sound(),
                range.start == self@.strip.window.start,
                range.end == self@.strip.window.end(),
                range.start <= range.end,
                range.start <= index <= range.end,
                index <= self.listing.files@.len() || index == range.start,
                out@.len() == index - range.start,
                forall|i: int|
                    0 <= i < out@.len() ==> (#[trigger] out@[i]).shows(self@, range.start + i),
            decreases range.end - index,
        {
            let photo = &self.listing.files[index];
            assert(photo@ == self@.listing.files[index as int]);
            let texture = self.strip.cache.find(photo);
            let otherwise: u16 = match texture {
                Some(texture) => texture.orientation,
                None => 1,
            };
            let selected = match self.navigator.index() {
                Some(current) => current == index,
                None => false,
            };
            out.push(
                Cell {
                    index,
                    texture,
                    orientation: info::find_orientation(&self.info, photo, otherwise),
                    selected,
                    rating: info::find_rating(&self.info, photo),
                    label: filmstrip::cell_label(photo),
                },
            );
            index += 1;
        }
        out
    }
}

/// Between one and twenty-four cells are shown, as many as there is room for.
pub proof fn law_cells_fill_the_window(capacity: usize)
    ensures
        1 <= capacity <= 24 ==> cells_of(capacity) == capacity,
        capacity > 24 ==> cells_of(capacity) == 24,
        capacity == 0 ==> cells_of(capacity) == 1,
{
}

/// The photograph that is prepared next is the one that the last step leads to.
pub proof fn law_the_next_photograph_is_prepared(m: Model, index: usize)
    requires
        m.selection.index == Some(index),
        index < m.listing.files.len(),
    ensures
        m.selection.direction == Direction::Forward && index + 1 < m.listing.files.len()
            ==> m.next_index() == Some((index + 1) as usize),
        m.selection.direction == Direction::Forward && index + 1 == m.listing.files.len()
            ==> m.next_index() is None,
        m.selection.direction == Direction::Backward && index > 0 ==> m.next_index() == Some(
            (index - 1) as usize,
        ),
        m.selection.direction == Direction::Backward && index == 0 ==> m.next_index() is None,
{
}

/// Thumbnails are loaded after a rest of 150 milliseconds.
pub proof fn law_thumbnails_wait_for_a_rest(clock: u64)
    requires
        clock <= u64::MAX - 150,
    ensures
        rested(clock) == clock + 150,
{
}

/// A thumbnail that arrives for a cell that is worth having is kept, if it fits.
pub proof fn law_thumbnails_that_arrive_are_kept(m: Model, photo: Seq<u8>, texture: Texture)
    requires
        textures::texture_of(m.strip.cache, photo) is None,
        m.strip.cache.len() < 48,
        filmstrip::bytes_of(m.strip.cache.push((photo, texture))) <= 4194304,
    ensures
        m.thumbnail_kept(photo, texture).strip.cache == m.strip.cache.push((photo, texture)),
{
    reveal(Model::thumbnail_kept);
    filmstrip::law_thumbnails_are_kept_while_they_fit(
        m.strip.cache.push((photo, texture)),
        m.listing.files,
        m.warm(),
        (m.strip.start as int, m.strip.end as int),
    );
}

} // verus!
