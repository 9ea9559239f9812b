//! The photograph on screen: what is decoded, uploaded and shown.
use crate::app::info;
use crate::app::state;
use crate::app::state::{
    next_number, Act, Action, App, Due, Model, Picture, ScreenModel, StripModel, Tally, Todo,
};
use crate::app::strip::same_choice;
use crate::app::textures;
use crate::app::textures::Texture;
use crate::app::upload::{Finished, Job, Load};
use crate::image::loader::LoaderEvent;
use crate::path;
use crate::path::{Identity, PhotoPath};
use vstd::prelude::*;

verus! {

/// The places in a list of the first `n` of some photographs.
pub open spec fn seats(owners: Seq<Seq<u8>>, files: Seq<Seq<u8>>, n: int) -> Seq<usize>
    decreases n,
{
    if n <= 0 {
        Seq::empty()
    } else {
        match path::first_position(files, owners[n - 1]) {
            Some(i) => seats(owners, files, n - 1).push(i as usize),
            None => seats(owners, files, n - 1),
        }
    }
}

/// The only members of a list of photographs.
pub open spec fn only(photo: Option<Seq<u8>>) -> Seq<Seq<u8>> {
    match photo {
        Some(photo) => seq![photo],
        None => Seq::empty(),
    }
}

/// A reference is left on screen where it is the photograph shown.
pub open spec fn unpinned(screen: ScreenModel) -> ScreenModel {
    match screen.pinned {
        None => screen,
        Some((photo, _)) => ScreenModel {
            pinned: None,
            textures: if screen.displayed == Some(photo) {
                screen.textures
            } else {
                textures::without(screen.textures, photo)
            },
            ..screen
        },
    }
}

impl Model {
    pub open spec fn with_screen(self, screen: ScreenModel) -> Model {
        Model { screen, ..self }
    }

    /// The photographs on the GPU, by their places.
    #[verifier::opaque]
    pub open spec fn gpu_seats(self) -> Seq<usize> {
        let owners = textures::owners(self.screen.textures);
        let found = seats(owners, self.listing.files, owners.len() as int);
        match self.screen.pinned {
            None => found,
            Some((photo, _)) => match path::first_position(self.listing.files, photo) {
                Some(i) if !found.contains(i as usize) => found.push(i as usize),
                _ => found,
            },
        }
    }

    /// The loader knows what is on the GPU.
    pub open spec fn gpu_told(self) -> Model {
        self.posted(Act::GpuCached(self.gpu_seats()))
    }

    /// Without a reference.
    pub open spec fn pin_cleared(self) -> Model {
        self.with_screen(unpinned(self.screen)).posted(Act::Reference(None))
    }

    /// A photograph is on screen. Ratings that came in while it was loaded are
    /// taken account of now.
    #[verifier::opaque]
    pub open spec fn shown(self, photo: Seq<u8>, written: Seq<u8>, texture: Texture) -> Model {
        let s = self.posted(
            Act::Image(Some((texture, info::upright(self.info, photo, texture.orientation)))),
        ).posted(Act::Caption(""@));
        let t = s.with_screen(
            ScreenModel {
                displayed: Some(photo),
                displayed_written: Some(written),
                prefetched: s.screen.prefetched.remove(photo),
                textures: textures::used(s.screen.textures, photo, texture),
                first_render: true,
                ..s.screen
            },
        ).gpu_told().told();
        if t.listing.stale {
            t.first(Due::Refresh)
        } else {
            t
        }
    }

    /// The selected photograph is asked for.
    #[verifier::opaque]
    pub open spec fn requested(self) -> Model {
        let s = self.stopped();
        let t = s.with_strip(StripModel { retries: 0, ..s.strip }).revealed();
        match t.selection.index {
            None => t,
            Some(index) => {
                let generation = state::next(t.generation);
                (Model {
                    generation,
                    tally: Tally { requests: state::next(t.tally.requests), ..t.tally },
                    screen: ScreenModel {
                        first_render: false,
                        pending_upload: None,
                        pending_prefetch: None,
                        attempted_prefetch: None,
                        ..t.screen
                    },
                    notice: Seq::empty(),
                    ..t
                }).posted(Act::EndPeek).first(
                    Due::Requested(index, t.listing.files_written[index as int], generation),
                )
            },
        }
    }

    /// With the reference among the textures, where it is the photograph asked
    /// for.
    #[verifier::opaque]
    pub open spec fn reference_lent(self, photo: Seq<u8>) -> Model {
        if textures::texture_of(self.screen.textures, photo) is None && self.screen.pinned is Some
            && (self.screen.pinned->0).0 == photo {
            self.with_screen(
                ScreenModel {
                    textures: self.screen.textures.push(self.screen.pinned->0),
                    ..self.screen
                },
            )
        } else {
            self
        }
    }

    /// A photograph that is on the GPU is shown at once.
    #[verifier::opaque]
    pub open spec fn hit(
        self,
        index: usize,
        photo: Seq<u8>,
        written: Seq<u8>,
        generation: u64,
        texture: Texture,
    ) -> Model {
        let s = Model {
            tally: Tally {
                gpu_hits: state::next(self.tally.gpu_hits),
                prefetch_hits: if self.screen.prefetched.contains(photo) {
                    state::next(self.tally.prefetch_hits)
                } else {
                    self.tally.prefetch_hits
                },
                ..self.tally
            },
            screen: ScreenModel {
                prefetched: self.screen.prefetched.remove(photo),
                ..self.screen
            },
            ..self
        };
        s.posted(Act::Load(index, generation, self.selection.direction, true)).first(Due::Arm).first(
            Due::Status,
        ).first(Due::Settle(false)).shown(photo, written, texture)
    }

    /// A photograph that is not on the GPU is decoded. What is on screen stays
    /// there meanwhile, and so does the reference.
    #[verifier::opaque]
    pub open spec fn missed(self, index: usize, photo: Seq<u8>, generation: u64) -> Model {
        let kept = only(self.screen.displayed) + only(
            match self.screen.pinned {
                Some((photo, _)) => Some(photo),
                None => None,
            },
        );
        self.with_screen(
            ScreenModel {
                textures: textures::among(self.screen.textures, kept),
                ..self.screen
            },
        ).gpu_told().posted(Act::Load(index, generation, self.selection.direction, false)).posted(
            Act::Caption("Loading..."@),
        ).told().armed()
    }

    /// The request goes on, once it is known whether an upload of the photograph
    /// is under way.
    #[verifier::opaque]
    pub open spec fn request_placed(
        self,
        index: usize,
        written: Seq<u8>,
        generation: u64,
        retargeted: bool,
    ) -> Model {
        let photo = path::tidy(written);
        let s = if retargeted {
            self.with_screen(
                ScreenModel { pending_upload: Some(generation), ..self.screen },
            )
        } else {
            self
        };
        let t = if info::info_of(s.info, photo).read {
            s
        } else {
            s.posted(Act::Read(s.session, written))
        };
        let u = t.reference_lent(photo);
        match textures::texture_of(u.screen.textures, photo) {
            Some(texture) => u.hit(index, photo, written, generation, texture),
            None => u.missed(index, photo, generation),
        }
    }

    /// The next photograph is uploaded, if nothing else is to be.
    #[verifier::opaque]
    pub open spec fn ahead(self) -> Model {
        if self.quitting || self.occupied() {
            self
        } else {
            match self.next_index() {
                None => self,
                Some(index) => {
                    let photo = self.listing.files[index as int];
                    if self.screen.attempted_prefetch == Some(photo) || textures::texture_of(
                        self.screen.textures,
                        photo,
                    ) is Some {
                        self
                    } else {
                        self.first(Due::Ahead(index, photo))
                    }
                },
            }
        }
    }

    /// Once a photograph is on screen, others are decoded and uploaded.
    #[verifier::opaque]
    pub open spec fn settled(self, discard: bool) -> Model {
        let s = if discard && self.selection.index is Some {
            self.posted(Act::Discard(self.selection.index->0))
        } else {
            self
        };
        s.posted(Act::ResumePrefetch).ahead()
    }

    /// Decoding is held up while the next photograph is uploaded.
    pub open spec fn ahead_found(self, photo: Seq<u8>, picture: Option<Picture>) -> Model {
        match picture {
            Some(picture) => match picture.needed {
                Some(needed) => self.posted(Act::EvictBytes(0)).first(
                    Due::AheadRoom(photo, picture, needed),
                ),
                None => self,
            },
            None => self,
        }
    }

    /// Spare textures make room for the next photograph.
    #[verifier::opaque]
    pub open spec fn ahead_room(
        self,
        photo: Seq<u8>,
        picture: Picture,
        needed: usize,
        available: usize,
    ) -> Model {
        let s = if available < needed {
            self.with_screen(
                ScreenModel {
                    textures: textures::among(self.screen.textures, only(self.screen.displayed)),
                    ..self.screen
                },
            ).gpu_told()
        } else {
            self
        };
        if s.screen.pinned is Some {
            s.first(Due::AheadBeside(photo, picture, needed))
        } else {
            s.ahead_uploaded(photo, picture)
        }
    }

    /// Beside a reference the next photograph is not uploaded without room: it
    /// stays decoded instead.
    pub open spec fn ahead_beside(
        self,
        photo: Seq<u8>,
        picture: Picture,
        needed: usize,
        available: usize,
    ) -> Model {
        if available < needed {
            self.posted(Act::ResumePrefetch)
        } else {
            self.ahead_uploaded(photo, picture)
        }
    }

    pub open spec fn ahead_uploaded(self, photo: Seq<u8>, picture: Picture) -> Model {
        self.with_screen(
            ScreenModel {
                pending_prefetch: Some((self.generation, photo)),
                attempted_prefetch: Some(photo),
                ..self.screen
            },
        ).uploading(photo, self.generation, picture)
    }

    /// A photograph is handed to the upload worker.
    pub open spec fn uploading(self, photo: Seq<u8>, generation: u64, picture: Picture) -> Model {
        self.posted(
            Act::Upload(
                Load {
                    session: self.session,
                    generation,
                    key: photo,
                    image: picture.image,
                    orientation: info::upright(self.info, photo, 1),
                },
            ),
        )
    }

    /// Nothing is on screen.
    pub open spec fn blanked(self) -> Model {
        self.with_screen(
            ScreenModel { displayed: None, displayed_written: None, textures: Seq::empty(), ..self.screen },
        ).posted(Act::Image(None))
    }
}

impl App {
    /// Tells the loader what is on the GPU.
    pub fn sync_gpu_cache(&mut self)
        requires
            old(self).sound(),
        ensures
            final(self).sound(),
            final(self)@ == old(self)@.gpu_told(),
    {
        proof {
            reveal(Model::gpu_seats);
        }
        let ghost m = self@;
        let ghost owners = textures::owners(m.screen.textures);
        let mut found: Vec<usize> = Vec::new();
        let mut i: usize = 0;
        while i < self.screen.textures.entries.len()
            invariant
                i <= self.screen.textures.entries@.len(),
                self@ == m,
                self.sound(),
                owners == textures::owners(m.screen.textures),
                owners.len() == self.screen.textures.entries@.len(),
                found@ == seats(owners, m.listing.files, i as int),
            decreases self.screen.textures.entries@.len() - i,
        {
            assert(owners[i as int] == self.screen.textures.entries@[i as int].0@);
            match path::position_of(&self.listing.files, &self.screen.textures.entries[i].0) {
                Some(at) => {
                    found.push(at);
                },
                None => {},
            }
            i += 1;
        }
        match &self.screen.pinned {
            Some((photo, _)) => {
                match path::position_of(&self.listing.files, photo) {
                    Some(at) => {
                        if !holds(&found, at) {
                            found.push(at);
                        }
                    },
                    None => {},
                }
            },
            None => {},
        }
        assert(found@ == m.gpu_seats());
        self.post(Action::GpuCached(found));
    }

    /// Drops the reference.
    pub fn clear_pin(&mut self)
        requires
            old(self).sound(),
        ensures
            final(self).sound(),
            final(self)@ == old(self)@.pin_cleared(),
    {
        let ghost before = self@;
        let mut pinned: Option<(PhotoPath, Texture)> = None;
        std::mem::swap(&mut pinned, &mut self.screen.pinned);
        match pinned {
            Some((photo, _)) => {
                let shown = match &self.screen.displayed {
                    Some(displayed) => displayed.same(&photo),
                    None => false,
                };
                if !shown {
                    self.screen.textures.forget(&photo);
                }
            },
            None => {},
        }
        assert(self@ == before.with_screen(unpinned(before.screen)));
        self.post(Action::Reference(None));
    }

    /// Shows a photograph.
    pub fn show(&mut self, photo: PhotoPath, texture: Texture)
        requires
            old(self).sound(),
        ensures
            final(self).sound(),
            final(self)@ == old(self)@.shown(photo@, photo.raw(), texture),
    {
        proof {
            reveal(Model::shown);
        }
        let orientation: u16 = info::find_orientation(&self.info, &photo, texture.orientation);
        self.post(Action::Image(Some((texture, orientation))));
        self.post(Action::Caption("".to_owned()));
        let ghost s = self@;
        self.screen.displayed = Some(photo.copied());
        let _ = self.screen.prefetched.remove(&photo);
        self.screen.textures.touch(photo, texture);
        self.screen.first_render = true;
        proof {
            assert(self@ == s.with_screen(
                ScreenModel {
                    displayed: Some(photo@),
                    displayed_written: Some(photo.raw()),
                    prefetched: s.screen.prefetched.remove(photo@),
                    textures: textures::used(s.screen.textures, photo@, texture),
                    first_render: true,
                    ..s.screen
                },
            ));
        }
        self.sync_gpu_cache();
        self.status();
        if self.listing.stale {
            self.push(Todo::Refresh);
        }
    }

    /// Asks for the selected photograph.
    pub fn request_current(&mut self)
        requires
            old(self).sound(),
        ensures
            final(self).sound(),
            final(self)@ == old(self)@.requested(),
    {
        proof {
            reveal(Model::requested);
        }
        self.stop_thumbnail_work();
        let ghost s = self@;
        self.strip.retries = 0;
        assert(self@ == s.with_strip(StripModel { retries: 0, ..s.strip }));
        self.reveal_current_thumbnail();
        let ghost t = self@;
        match self.navigator.index() {
            None => {},
            Some(index) => {
                let photo = self.listing.files[index].copied();
                let generation: u64 = next_number(self.generation);
                self.generation = generation;
                self.tally.requests = next_number(self.tally.requests);
                self.screen.first_render = false;
                self.screen.pending_upload = None;
                self.screen.pending_prefetch = None;
                self.screen.attempted_prefetch = None;
                self.notice = String::new();
                proof {
                    assert(self@ == (Model {
                        generation,
                        tally: Tally { requests: state::next(t.tally.requests), ..t.tally },
                        screen: ScreenModel {
                            first_render: false,
                            pending_upload: None,
                            pending_prefetch: None,
                            attempted_prefetch: None,
                            ..t.screen
                        },
                        notice: Seq::empty(),
                        ..t
                    }));
                }
                self.post(Action::EndPeek);
                self.push(Todo::Requested { index, photo, generation });
            },
        }
    }

    fn lend_reference(&mut self, photo: &PhotoPath)
        requires
            old(self).sound(),
        ensures
            final(self).sound(),
            final(self)@ == old(self)@.reference_lent(photo@),
    {
        proof {
            reveal(Model::reference_lent);
        }
        let ghost before = self@;
        if self.screen.textures.find(photo).is_none() {
            match &self.screen.pinned {
                Some((reference, texture)) => {
                    if reference.same(photo) {
                        let texture = *texture;
                        self.screen.textures.push(photo.copied(), texture);
                    }
                },
                None => {},
            }
        }
        assert(self@ == before.reference_lent(photo@));
    }

    fn take_hit(&mut self, index: usize, photo: PhotoPath, generation: u64, texture: Texture)
        requires
            old(self).sound(),
        ensures
            final(self).sound(),
            final(self)@ == old(self)@.hit(index, photo@, photo.raw(), generation, texture),
    {
        proof {
            reveal(Model::hit);
        }
        let ghost before = self@;
        self.tally.gpu_hits = next_number(self.tally.gpu_hits);
        if self.screen.prefetched.remove(&photo) {
            self.tally.prefetch_hits = next_number(self.tally.prefetch_hits);
        }
        proof {
            assert(self@ == (Model {
                tally: Tally {
                    gpu_hits: state::next(before.tally.gpu_hits),
                    prefetch_hits: if before.screen.prefetched.contains(photo@) {
                        state::next(before.tally.prefetch_hits)
                    } else {
                        before.tally.prefetch_hits
                    },
                    ..before.tally
                },
                screen: ScreenModel {
                    prefetched: before.screen.prefetched.remove(photo@),
                    ..before.screen
                },
                ..before
            }));
        }
        let direction = self.navigator.direction();
        self.post(Action::Load { index, generation, direction, cached: true });
        self.push(Todo::Arm);
        self.push(Todo::Status);
        self.push(Todo::Settle { discard: false });
        self.show(photo, texture);
    }

    fn take_miss(&mut self, index: usize, photo: &PhotoPath, generation: u64)
        requires
            old(self).sound(),
        ensures
            final(self).sound(),
            final(self)@ == old(self)@.missed(index, photo@, generation),
    {
        proof {
            reveal(Model::missed);
        }
        let ghost before = self@;
        let mut kept: Vec<PhotoPath> = Vec::new();
        match &self.screen.displayed {
            Some(displayed) => {
                kept.push(displayed.copied());
            },
            None => {},
        }
        match &self.screen.pinned {
            Some((reference, _)) => {
                kept.push(reference.copied());
            },
            None => {},
        }
        let ghost list = only(before.screen.displayed) + only(
            match before.screen.pinned {
                Some((photo, _)) => Some(photo),
                None => None,
            },
        );
        assert(path::keys(kept@) =~= list);
        self.screen.textures.retain(&kept);
        proof {
            assert(self@ == before.with_screen(
                ScreenModel {
                    textures: textures::among(before.screen.textures, list),
                    ..before.screen
                },
            ));
        }
        self.sync_gpu_cache();
        let direction = self.navigator.direction();
        self.post(Action::Load { index, generation, direction, cached: false });
        self.post(Action::Caption("Loading...".to_owned()));
        self.status();
        self.arm_thumbnails();
    }

    /// Goes on with a request, once it is known whether an upload of the
    /// photograph is under way.
    pub(crate) fn place_request(
        &mut self,
        index: usize,
        photo: PhotoPath,
        generation: u64,
        retargeted: bool,
    )
        requires
            old(self).sound(),
        ensures
            final(self).sound(),
            final(self)@ == old(self)@.request_placed(index, photo.raw(), generation, retargeted),
    {
        proof {
            reveal(Model::request_placed);
            photo.lemma_spelling();
        }
        let ghost before = self@;
        if retargeted {
            self.screen.pending_upload = Some(generation);
            proof {
                assert(self@ == before.with_screen(
                    ScreenModel { pending_upload: Some(generation), ..before.screen },
                ));
            }
        }
        let read = match self.info.get(&photo) {
            Some(known) => known.read,
            None => false,
        };
        if !read {
            self.post(Action::Read { session: self.session, photo: photo.copied() });
        }
        self.lend_reference(&photo);
        match self.screen.textures.find(&photo) {
            Some(texture) => {
                self.take_hit(index, photo, generation, texture);
            },
            None => {
                self.take_miss(index, &photo, generation);
            },
        }
    }

    /// Uploads the next photograph, if nothing else is to be uploaded.
    pub fn prefetch_gpu(&mut self)
        requires
            old(self).sound(),
        ensures
            final(self).sound(),
            final(self)@ == old(self)@.ahead(),
    {
        proof {
            reveal(Model::ahead);
        }
        if self.quitting || self.is_occupied() {
            return;
        }
        match self.next_prefetch_index() {
            None => {},
            Some(index) => {
                let photo = self.listing.files[index].copied();
                let attempted = match &self.screen.attempted_prefetch {
                    Some(attempted) => attempted.same(&photo),
                    None => false,
                };
                if !attempted && self.screen.textures.find(&photo).is_none() {
                    self.push(Todo::Ahead { index, photo });
                }
            },
        }
    }

    /// Lets others be decoded and uploaded, once a photograph is on screen.
    pub(crate) fn settle(&mut self, discard: bool)
        requires
            old(self).sound(),
        ensures
            final(self).sound(),
            final(self)@ == old(self)@.settled(discard),
    {
        proof {
            reveal(Model::settled);
        }
        if discard {
            match self.navigator.index() {
                Some(index) => {
                    self.post(Action::Discard(index));
                },
                None => {},
            }
        }
        self.post(Action::ResumePrefetch);
        self.prefetch_gpu();
    }

    pub(crate) fn find_ahead(&mut self, photo: PhotoPath, picture: Option<Picture>)
        requires
            old(self).sound(),
        ensures
            final(self).sound(),
            final(self)@ == old(self)@.ahead_found(photo@, picture),
    {
        match picture {
            Some(picture) => match picture.needed {
                Some(needed) => {
                    self.post(Action::EvictBytes(0));
                    self.push(Todo::AheadRoom { photo, picture, needed });
                },
                None => {},
            },
            None => {},
        }
    }

    /// Keeps the texture on screen only.
    fn keep_displayed(&mut self)
        requires
            old(self).sound(),
        ensures
            final(self).sound(),
            final(self)@ == old(self)@.with_screen(
                ScreenModel {
                    textures: textures::among(
                        old(self)@.screen.textures,
                        only(old(self)@.screen.displayed),
                    ),
                    ..old(self)@.screen
                },
            ),
    {
        let ghost before = self@;
        let mut kept: Vec<PhotoPath> = Vec::new();
        match &self.screen.displayed {
            Some(displayed) => {
                kept.push(displayed.copied());
            },
            None => {},
        }
        assert(path::keys(kept@) =~= only(before.screen.displayed));
        self.screen.textures.retain(&kept);
        proof {
            assert(self@ == before.with_screen(
                ScreenModel {
                    textures: textures::among(
                        before.screen.textures,
                        only(before.screen.displayed),
                    ),
                    ..before.screen
                },
            ));
        }
    }

    /// Hands a photograph to the upload worker.
    fn upload(&mut self, photo: PhotoPath, generation: u64, picture: Picture)
        requires
            old(self).sound(),
        ensures
            final(self).sound(),
            final(self)@ == old(self)@.uploading(photo@, generation, picture),
    {
        let orientation: u16 = info::find_orientation(&self.info, &photo, 1);
        let job = Job {
            session: self.session,
            generation,
            path: photo,
            image: picture.image,
            orientation,
        };
        self.post(Action::Upload(job));
    }

    fn upload_ahead(&mut self, photo: PhotoPath, picture: Picture)
        requires
            old(self).sound(),
        ensures
            final(self).sound(),
            final(self)@ == old(self)@.ahead_uploaded(photo@, picture),
    {
        let ghost before = self@;
        self.screen.pending_prefetch = Some((self.generation, photo.copied()));
        self.screen.attempted_prefetch = Some(photo.copied());
        proof {
            assert(self@ == before.with_screen(
                ScreenModel {
                    pending_prefetch: Some((before.generation, photo@)),
                    attempted_prefetch: Some(photo@),
                    ..before.screen
                },
            ));
        }
        let generation: u64 = self.generation;
        self.upload(photo, generation, picture);
    }

    pub(crate) fn make_room_ahead(
        &mut self,
        photo: PhotoPath,
        picture: Picture,
        needed: usize,
        available: usize,
    )
        requires
            old(self).sound(),
        ensures
            final(self).sound(),
            final(self)@ == old(self)@.ahead_room(photo@, picture, needed, available),
    {
        proof {
            reveal(Model::ahead_room);
        }
        if available < needed {
            self.keep_displayed();
            self.sync_gpu_cache();
        }
        if self.screen.pinned.is_some() {
            self.push(Todo::AheadBeside { photo, picture, needed });
        } else {
            self.upload_ahead(photo, picture);
        }
    }

    pub(crate) fn upload_beside(
        &mut self,
        photo: PhotoPath,
        picture: Picture,
        needed: usize,
        available: usize,
    )
        requires
            old(self).sound(),
        ensures
            final(self).sound(),
            final(self)@ == old(self)@.ahead_beside(photo@, picture, needed, available),
    {
        if available < needed {
            self.post(Action::ResumePrefetch);
        } else {
            self.upload_ahead(photo, picture);
        }
    }

    /// Shows nothing.
    fn blank(&mut self)
        requires
            old(self).sound(),
        ensures
            final(self).sound(),
            final(self)@ == old(self)@.blanked(),
    {
        let ghost before = self@;
        self.screen.textures.clear();
        self.screen.displayed = None;
        proof {
            assert(self@ == before.with_screen(
                ScreenModel { displayed: None, displayed_written: None, textures: Seq::empty(), ..before.screen },
            ));
        }
        self.post(Action::Image(None));
    }
}

/// Whether a list has a number.
fn holds(list: &Vec<usize>, n: usize) -> (out: bool)
    ensures
        out == list@.contains(n),
{
    let mut i: usize = 0;
    while i < list.len()
        invariant
            i <= list@.len(),
            forall|k: int| 0 <= k < i ==> list@[k] != n,
        decreases list@.len() - i,
    {
        if list[i] == n {
            return true;
        }
        i += 1;
    }
    false
}

impl Model {
    /// Whether a report is on the photograph that was asked for last.
    pub open spec fn asked(self, session: u64, index: usize, generation: u64) -> bool {
        &&& session == self.session
        &&& self.selection.index == Some(index)
        &&& generation == self.generation
    }

    /// The selected photograph cannot be shown.
    pub open spec fn unavailable(self, text: Seq<char>) -> Model {
        self.with_screen(ScreenModel { displayed: None, displayed_written: None, ..self.screen }).posted(
            Act::Image(None),
        ).posted(Act::Caption("Preview unavailable - use arrows to continue"@)).message(text)
    }

    /// After a report of the loader. One on an older request is ignored.
    #[verifier::opaque]
    pub open spec fn load_reported(self, event: LoaderEvent) -> Model {
        match event {
            LoaderEvent::MemoryPressure { session, index, generation, bytes_needed } =>
                if self.asked(session, index, generation) {
                    self.with_screen(
                        ScreenModel {
                            textures: textures::among(
                                self.screen.textures,
                                only(self.screen.displayed),
                            ),
                            ..self.screen
                        },
                    ).first(Due::Pressure(bytes_needed))
                } else {
                    self
                },
            LoaderEvent::Ready { session, index, generation, timings, prefetched } =>
                if self.asked(session, index, generation) && self.screen.pending_upload != Some(
                    generation,
                ) && self.current() != self.screen.displayed {
                    self.first(
                        Due::Decoded(
                            index,
                            self.listing.files[index as int],
                            generation,
                            timings.cache_hit,
                            prefetched,
                        ),
                    )
                } else if session == self.session && generation == self.generation {
                    self.ahead()
                } else {
                    self
                },
            LoaderEvent::Failed { session, index, generation, .. } =>
                if self.asked(session, index, generation) {
                    self.unavailable("Preview unavailable"@)
                } else {
                    self
                },
        }
    }

    /// Textures are released for the selected photograph, the one on screen
    /// only where the others are not enough.
    #[verifier::opaque]
    pub open spec fn pressed(self, needed: usize, available: usize) -> Model {
        let s = if available < needed {
            self.blanked()
        } else {
            self
        };
        if s.screen.pinned is Some {
            s.first(Due::PressureBeside(needed))
        } else {
            s.gpu_told().posted(Act::Redraw)
        }
    }

    /// The reference is released last.
    #[verifier::opaque]
    pub open spec fn pressed_beside(self, needed: usize, available: usize) -> Model {
        let s = if available < needed {
            Model {
                notice: "Comparison closed to free memory for the requested photo"@,
                ..self.pin_cleared()
            }
        } else {
            self
        };
        s.gpu_told().posted(Act::Redraw)
    }

    /// The selected photograph was decoded, and is uploaded.
    #[verifier::opaque]
    pub open spec fn picture_found(
        self,
        photo: Seq<u8>,
        generation: u64,
        hit: bool,
        prefetched: bool,
        picture: Option<Picture>,
    ) -> Model {
        match picture {
            None => self,
            Some(picture) => {
                let s = Model {
                    tally: Tally {
                        cpu_hits: if hit {
                            state::next(self.tally.cpu_hits)
                        } else {
                            self.tally.cpu_hits
                        },
                        prefetch_hits: if prefetched {
                            state::next(self.tally.prefetch_hits)
                        } else {
                            self.tally.prefetch_hits
                        },
                        ..self.tally
                    },
                    screen: ScreenModel { pending_upload: Some(generation), ..self.screen },
                    ..self
                };
                if picture.needed is None || s.screen.pinned is None {
                    s.uploading(photo, generation, picture)
                } else {
                    s.posted(Act::EvictFor(picture.needed->0)).first(
                        Due::Room(photo, generation, picture, picture.needed->0),
                    )
                }
            },
        }
    }

    /// Whether a photograph fits beside the reference at all.
    pub open spec fn fits_beside(self, picture: Picture, needed: usize) -> bool {
        self.screen.pinned is Some ==> picture.width * picture.height * 4 + needed + (
        self.screen.pinned->0).1.byte_size <= self.limit
    }

    /// The outgoing photograph makes room for the selected one, and the
    /// reference where both cannot be held.
    #[verifier::opaque]
    pub open spec fn picture_placed(
        self,
        photo: Seq<u8>,
        generation: u64,
        picture: Picture,
        needed: usize,
        available: usize,
    ) -> Model {
        let s = if available < needed {
            self.blanked().gpu_told().posted(Act::Redraw)
        } else {
            self
        };
        let t = if s.fits_beside(picture, needed) {
            s
        } else {
            s.pin_cleared().gpu_told().message(
                "Comparison closed to free memory for the requested photo"@,
            )
        };
        t.uploading(photo, generation, picture)
    }

    /// A photograph that was uploaded ahead is kept, or not.
    #[verifier::opaque]
    pub open spec fn ahead_arrived(self, photo: Seq<u8>, texture: Option<Texture>) -> Model {
        match texture {
            Some(texture) => self.with_screen(
                ScreenModel {
                    textures: textures::used(self.screen.textures, photo, texture),
                    prefetched: self.screen.prefetched.insert(photo),
                    ..self.screen
                },
            ).gpu_told(),
            None => self,
        }.posted(Act::ResumePrefetch)
    }

    /// The selected photograph was uploaded, or not.
    #[verifier::opaque]
    pub open spec fn current_arrived(
        self,
        photo: Seq<u8>,
        written: Seq<u8>,
        result: Result<Texture, String>,
    ) -> Model {
        let s = self.with_screen(
            ScreenModel { pending_upload: None, pending_prefetch: None, ..self.screen },
        );
        match result {
            Ok(texture) => s.first(Due::Settle(true)).shown(photo, written, texture),
            Err(error) => s.unavailable(error@),
        }
    }

    /// Another photograph was uploaded, or not. It is kept where it was waited
    /// for, and nothing was asked for since.
    #[verifier::opaque]
    pub open spec fn other_arrived(
        self,
        photo: Seq<u8>,
        generation: u64,
        result: Result<Texture, String>,
    ) -> Model {
        if self.screen.pending_prefetch != Some((generation, photo)) {
            self
        } else {
            let s = self.with_screen(ScreenModel { pending_prefetch: None, ..self.screen });
            if generation != s.generation {
                s
            } else {
                s.ahead_arrived(
                    photo,
                    match result {
                        Ok(texture) => Some(texture),
                        Err(_) => None,
                    },
                )
            }
        }
    }

    /// After a photograph was uploaded, or not. An upload for another list is
    /// ignored, and so is a failure that was overtaken.
    #[verifier::opaque]
    pub open spec fn upload_reported(self, event: Finished<PhotoPath>) -> Model {
        if event.session != self.session {
            self
        } else if self.current() == Some(event.path@) {
            if self.current() == self.screen.displayed || (event.result is Err && event.generation
                != self.generation) {
                self
            } else {
                self.current_arrived(event.path@, event.path.raw(), event.result)
            }
        } else {
            self.other_arrived(event.path@, event.generation, event.result)
        }
    }

    /// A photograph is the reference.
    #[verifier::opaque]
    pub open spec fn pinned_as(self, photo: Seq<u8>, texture: Texture) -> Model {
        self.posted(
            Act::Reference(
                Some((texture, info::upright(self.info, photo, texture.orientation))),
            ),
        ).with_screen(
            ScreenModel { pinned: Some((photo, texture)), ..self.screen },
        ).gpu_told().message(
            "Reference on left; arrows and ratings affect the right photo. C closes comparison."@,
        )
    }

    /// The photograph on screen becomes the reference, or the reference is
    /// dropped.
    #[verifier::opaque]
    pub open spec fn pin_changed(self, replace: bool) -> Model {
        let s = self.posted(Act::EndPeek);
        if s.screen.pinned is Some && !replace {
            s.pin_cleared().gpu_told().posted(Act::ResumePrefetch).message("Comparison closed"@)
        } else if s.current() is None || s.current() != s.screen.displayed {
            s
        } else {
            let photo = s.current()->0;
            match textures::texture_of(s.screen.textures, photo) {
                None => s,
                Some(texture) => s.pinned_as(photo, texture),
            }
        }
    }

    /// The photograph was drawn, and is remembered once.
    #[verifier::opaque]
    pub open spec fn drawn(self) -> Model {
        if !self.screen.first_render {
            self
        } else {
            let s = self.with_screen(ScreenModel { first_render: false, ..self.screen });
            match s.screen.displayed_written {
                Some(photo) => s.posted(Act::Remember(photo)),
                None => s,
            }
        }
    }
}

/// A report on an older request, or for another list, changes nothing.
pub proof fn law_late_reports_are_ignored(m: Model, event: LoaderEvent)
    requires
        match event {
            LoaderEvent::Ready { session, generation, .. } => session != m.session || generation
                != m.generation,
            LoaderEvent::Failed { session, generation, .. } => session != m.session || generation
                != m.generation,
            LoaderEvent::MemoryPressure { session, generation, .. } => session != m.session
                || generation != m.generation,
        },
    ensures
        m.load_reported(event) == m,
{
    reveal(Model::load_reported);
}

/// An upload for another list changes nothing; neither does a failure of an
/// older request, nor an upload of a photograph that nobody waits for.
pub proof fn law_late_uploads_are_ignored(m: Model, event: Finished<PhotoPath>)
    requires
        ({
            ||| event.session != m.session
            ||| event.result is Err && event.generation != m.generation && m.current() == Some(
                event.path@,
            )
            ||| m.current() != Some(event.path@) && m.screen.pending_prefetch != Some(
                (event.generation, event.path@),
            )
        }),
    ensures
        m.upload_reported(event) == m,
{
    reveal(Model::upload_reported);
    reveal(Model::other_arrived);
}

/// A photograph whose upload succeeded is on screen, if it is the selected one.
pub proof fn law_uploads_are_shown(m: Model, event: Finished<PhotoPath>)
    requires
        event.session == m.session,
        m.current() == Some(event.path@),
        event.result is Ok,
    ensures
        m.upload_reported(event).screen.displayed == Some(event.path@),
{
    reveal(Model::upload_reported);
    reveal(Model::current_arrived);
    reveal(Model::shown);
    reveal(Model::strip_shown);
}

/// Each request has a number of its own, and nothing from before it counts any
/// more.
pub proof fn law_requests_supersede(m: Model)
    requires
        m.valid(),
        m.selection.index is Some,
    ensures
        m.requested().generation == state::next(m.generation),
        m.requested().generation != m.generation,
        m.requested().screen.pending_upload is None,
        m.requested().screen.pending_prefetch is None,
        m.requested().current() == m.current(),
        m.requested().screen.displayed == m.screen.displayed,
{
    reveal(Model::requested);
}

impl App {
    fn was_asked(&self, session: u64, index: usize, generation: u64) -> (out: bool)
        ensures
            out == self@.asked(session, index, generation),
    {
        let selected = match self.navigator.index() {
            Some(current) => current == index,
            None => false,
        };
        session == self.session && selected && generation == self.generation
    }

    /// Gives up on the selected photograph.
    fn give_up(&mut self, text: &str)
        requires
            old(self).sound(),
        ensures
            final(self).sound(),
            final(self)@ == old(self)@.unavailable(text@),
    {
        let ghost before = self@;
        self.screen.displayed = None;
        proof {
            assert(self@ == before.with_screen(
                ScreenModel { displayed: None, displayed_written: None, ..before.screen },
            ));
        }
        self.post(Action::Image(None));
        self.post(Action::Caption("Preview unavailable - use arrows to continue".to_owned()));
        self.message(text);
    }

    /// Takes in a report of the loader. Thumbnails are looked after behind it.
    pub fn loaded(&mut self, event: LoaderEvent)
        requires
            old(self).sound(),
        ensures
            final(self).sound(),
            final(self)@ == old(self)@.first(Due::Arm).load_reported(event),
    {
        proof {
            reveal(Model::load_reported);
        }
        self.push(Todo::Arm);
        match event {
            LoaderEvent::MemoryPressure { session, index, generation, bytes_needed } => {
                if self.was_asked(session, index, generation) {
                    self.keep_displayed();
                    self.push(Todo::Pressure { needed: bytes_needed });
                }
            },
            LoaderEvent::Ready { session, index, generation, timings, prefetched } => {
                let pending = match self.screen.pending_upload {
                    Some(pending) => pending == generation,
                    None => false,
                };
                let current = self.current();
                if self.was_asked(session, index, generation) && !pending && !same_choice(
                    &current,
                    &self.screen.displayed,
                ) {
                    let photo = self.listing.files[index].copied();
                    self.push(
                        Todo::Decoded {
                            index,
                            photo,
                            generation,
                            hit: timings.cache_hit,
                            prefetched,
                        },
                    );
                } else if session == self.session && generation == self.generation {
                    self.prefetch_gpu();
                }
            },
            LoaderEvent::Failed { session, index, generation, .. } => {
                if self.was_asked(session, index, generation) {
                    self.give_up("Preview unavailable");
                }
            },
        }
    }

    pub(crate) fn relieve(&mut self, needed: usize, available: usize)
        requires
            old(self).sound(),
        ensures
            final(self).sound(),
            final(self)@ == old(self)@.pressed(needed, available),
    {
        proof {
            reveal(Model::pressed);
        }
        if available < needed {
            self.blank();
        }
        if self.screen.pinned.is_some() {
            self.push(Todo::PressureBeside { needed });
        } else {
            self.sync_gpu_cache();
            self.post(Action::Redraw);
        }
    }

    pub(crate) fn relieve_beside(&mut self, needed: usize, available: usize)
        requires
            old(self).sound(),
        ensures
            final(self).sound(),
            final(self)@ == old(self)@.pressed_beside(needed, available),
    {
        proof {
            reveal(Model::pressed_beside);
        }
        if available < needed {
            self.clear_pin();
            let ghost s = self@;
            self.notice = "Comparison closed to free memory for the requested photo".to_owned();
            proof {
                assert(self@ == (Model {
                    notice: "Comparison closed to free memory for the requested photo"@,
                    ..s
                }));
            }
        }
        self.sync_gpu_cache();
        self.post(Action::Redraw);
    }

    pub(crate) fn find_picture(
        &mut self,
        photo: PhotoPath,
        generation: u64,
        hit: bool,
        prefetched: bool,
        picture: Option<Picture>,
    )
        requires
            old(self).sound(),
        ensures
            final(self).sound(),
            final(self)@ == old(self)@.picture_found(photo@, generation, hit, prefetched, picture),
    {
        proof {
            reveal(Model::picture_found);
        }
        let ghost before = self@;
        match picture {
            None => {},
            Some(picture) => {
                if hit {
                    self.tally.cpu_hits = next_number(self.tally.cpu_hits);
                }
                if prefetched {
                    self.tally.prefetch_hits = next_number(self.tally.prefetch_hits);
                }
                self.screen.pending_upload = Some(generation);
                proof {
                    assert(self@ == (Model {
                        tally: Tally {
                            cpu_hits: if hit {
                                state::next(before.tally.cpu_hits)
                            } else {
                                before.tally.cpu_hits
                            },
                            prefetch_hits: if prefetched {
                                state::next(before.tally.prefetch_hits)
                            } else {
                                before.tally.prefetch_hits
                            },
                            ..before.tally
                        },
                        screen: ScreenModel { pending_upload: Some(generation), ..before.screen },
                        ..before
                    }));
                }
                match picture.needed {
                    Some(needed) => {
                        if self.screen.pinned.is_some() {
                            self.post(Action::EvictFor(needed));
                            self.push(Todo::Room { photo, generation, picture, needed });
                        } else {
                            self.upload(photo, generation, picture);
                        }
                    },
                    None => {
                        self.upload(photo, generation, picture);
                    },
                }
            },
        }
    }

    /// Whether a photograph fits beside the reference at all.
    fn has_place_beside(&self, picture: Picture, needed: usize) -> (out: bool)
        ensures
            out == self@.fits_beside(picture, needed),
    {
        match &self.screen.pinned {
            None => true,
            Some((_, reference)) => {
                assert(picture.width * picture.height <= 0xffff_ffff * 0xffff_ffff)
                    by (nonlinear_arith)
                    requires
                        picture.width <= 0xffff_ffff,
                        picture.height <= 0xffff_ffff,
                ;
                let pixels: u128 = picture.width as u128 * picture.height as u128;
                pixels * 4 + needed as u128 + reference.byte_size as u128 <= self.limit as u128
            },
        }
    }

    pub(crate) fn place_picture(
        &mut self,
        photo: PhotoPath,
        generation: u64,
        picture: Picture,
        needed: usize,
        available: usize,
    )
        requires
            old(self).sound(),
        ensures
            final(self).sound(),
            final(self)@ == old(self)@.picture_placed(
                photo@,
                generation,
                picture,
                needed,
                available,
            ),
    {
        proof {
            reveal(Model::picture_placed);
        }
        if available < needed {
            self.blank();
            self.sync_gpu_cache();
            self.post(Action::Redraw);
        }
        if !self.has_place_beside(picture, needed) {
            self.clear_pin();
            self.sync_gpu_cache();
            self.message("Comparison closed to free memory for the requested photo");
        }
        self.upload(photo, generation, picture);
    }

    fn keep_ahead(&mut self, photo: PhotoPath, texture: Option<Texture>)
        requires
            old(self).sound(),
        ensures
            final(self).sound(),
            final(self)@ == old(self)@.ahead_arrived(photo@, texture),
    {
        proof {
            reveal(Model::ahead_arrived);
        }
        let ghost before = self@;
        match texture {
            Some(texture) => {
                self.screen.prefetched.insert(photo.copied());
                self.screen.textures.touch(photo, texture);
                proof {
                    assert(self@ == before.with_screen(
                        ScreenModel {
                            textures: textures::used(before.screen.textures, photo@, texture),
                            prefetched: before.screen.prefetched.insert(photo@),
                            ..before.screen
                        },
                    ));
                }
                self.sync_gpu_cache();
            },
            None => {},
        }
        self.post(Action::ResumePrefetch);
    }

    fn take_current(&mut self, photo: PhotoPath, result: Result<Texture, String>)
        requires
            old(self).sound(),
        ensures
            final(self).sound(),
            final(self)@ == old(self)@.current_arrived(photo@, photo.raw(), result),
    {
        proof {
            reveal(Model::current_arrived);
        }
        let ghost before = self@;
        self.screen.pending_upload = None;
        self.screen.pending_prefetch = None;
        proof {
            assert(self@ == before.with_screen(
                ScreenModel { pending_upload: None, pending_prefetch: None, ..before.screen },
            ));
        }
        match result {
            Ok(texture) => {
                self.push(Todo::Settle { discard: true });
                self.show(photo, texture);
            },
            Err(error) => {
                self.give_up(error.as_str());
            },
        }
    }

    fn take_other(&mut self, photo: PhotoPath, generation: u64, result: Result<Texture, String>)
        requires
            old(self).sound(),
        ensures
            final(self).sound(),
            final(self)@ == old(self)@.other_arrived(photo@, generation, result),
    {
        proof {
            reveal(Model::other_arrived);
        }
        let ghost before = self@;
        let waited = match &self.screen.pending_prefetch {
            Some((waited, other)) => *waited == generation && other.same(&photo),
            None => false,
        };
        if !waited {
            return;
        }
        self.screen.pending_prefetch = None;
        proof {
            assert(self@ == before.with_screen(
                ScreenModel { pending_prefetch: None, ..before.screen },
            ));
        }
        if generation == self.generation {
            let texture = match result {
                Ok(texture) => Some(texture),
                Err(_) => None,
            };
            self.keep_ahead(photo, texture);
        }
    }

    /// Takes in a photograph that was uploaded, or not. Thumbnails are looked
    /// after behind it.
    pub fn uploaded(&mut self, event: Finished<PhotoPath>)
        requires
            old(self).sound(),
        ensures
            final(self).sound(),
            final(self)@ == old(self)@.first(Due::Arm).posted(
                Act::AcknowledgeUpload(event.session, event.path.raw(), event.generation),
            ).upload_reported(event),
    {
        proof {
            reveal(Model::upload_reported);
        }
        self.push(Todo::Arm);
        self.post(
            Action::AcknowledgeUpload {
                session: event.session,
                photo: event.path.copied(),
                generation: event.generation,
            },
        );
        if event.session != self.session {
            return;
        }
        let current = self.current();
        let is_current = match &current {
            Some(current) => current.same(&event.path),
            None => false,
        };
        if is_current {
            if same_choice(&current, &self.screen.displayed) || (event.result.is_err()
                && event.generation != self.generation) {
                return;
            }
            self.take_current(event.path, event.result);
        } else {
            self.take_other(event.path, event.generation, event.result);
        }
    }

    fn pin(&mut self, photo: PhotoPath, texture: Texture)
        requires
            old(self).sound(),
        ensures
            final(self).sound(),
            final(self)@ == old(self)@.pinned_as(photo@, texture),
    {
        proof {
            reveal(Model::pinned_as);
        }
        let orientation: u16 = info::find_orientation(&self.info, &photo, texture.orientation);
        self.post(Action::Reference(Some((texture, orientation))));
        let ghost s = self@;
        self.screen.pinned = Some((photo, texture));
        proof {
            assert(self@ == s.with_screen(
                ScreenModel { pinned: Some((photo@, texture)), ..s.screen },
            ));
        }
        self.sync_gpu_cache();
        self.message(
            "Reference on left; arrows and ratings affect the right photo. C closes comparison.",
        );
    }

    /// Makes the photograph on screen the reference, or drops the reference.
    pub fn pin_current(&mut self, replace: bool)
        requires
            old(self).sound(),
        ensures
            final(self).sound(),
            final(self)@ == old(self)@.pin_changed(replace),
    {
        proof {
            reveal(Model::pin_changed);
        }
        self.post(Action::EndPeek);
        if self.screen.pinned.is_some() && !replace {
            self.clear_pin();
            self.sync_gpu_cache();
            self.post(Action::ResumePrefetch);
            self.message("Comparison closed");
            return;
        }
        let current = self.current();
        if !same_choice(&current, &self.screen.displayed) {
            return;
        }
        match current {
            None => {},
            Some(photo) => {
                match self.screen.textures.find(&photo) {
                    None => {},
                    Some(texture) => {
                        self.pin(photo, texture);
                    },
                }
            },
        }
    }

    /// Takes in that the photograph was drawn.
    pub fn rendered(&mut self)
        requires
            old(self).sound(),
        ensures
            final(self).sound(),
            final(self)@ == old(self)@.drawn(),
    {
        proof {
            reveal(Model::drawn);
        }
        let ghost before = self@;
        if self.screen.first_render {
            self.screen.first_render = false;
            proof {
                assert(self@ == before.with_screen(
                    ScreenModel { first_render: false, ..before.screen },
                ));
            }
            match &self.screen.displayed {
                Some(photo) => {
                    let photo = photo.copied();
                    self.post(Action::Remember(photo));
                },
                None => {},
            }
        }
    }
}

} // verus!
