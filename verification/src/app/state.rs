//! The state of the program, and what it asks of the window and the workers.
//!
//! The state changes by events. A change posts actions, which are performed in
//! order before anything else happens, and puts steps on an agenda, the last
//! one first. A step may need an answer: what a cache holds, or how much memory
//! is free.
use crate::app::deleted;
use crate::app::deleted::MoveRecord;
use crate::app::info;
use crate::app::info::PhotoInfo;
use crate::app::io;
use crate::app::path_map::PathMap;
use crate::app::path_set::PathSet;
use crate::app::textures;
use crate::app::textures::{Shelf, Texture};
use crate::app::upload::{Job, Load};
use crate::browser::filmstrip::{FilmstripWindow, Strip};
use crate::browser::filter::PhotoFilter;
use crate::browser::navigator::{Navigator, Selection};
use crate::browser::prefetch::Direction;
use crate::path;
use crate::path::{Identity, PhotoPath};
use std::collections::HashMap;
use vstd::prelude::*;

verus! {

/// Actions that can be undone.
pub const MAX_UNDO: usize = 100;

/// What an undo takes back.
#[derive(Debug)]
pub enum UndoAction {
    Rating(PhotoPath),
    Moved(Vec<MoveRecord>),
}

/// What an `UndoAction` says.
pub enum Deed {
    Rating(Seq<u8>),
    Moved(Seq<deleted::Pair>),
}

impl View for UndoAction {
    type V = Deed;

    open spec fn view(&self) -> Deed {
        match self {
            UndoAction::Rating(p) => Deed::Rating(p.raw()),
            UndoAction::Moved(records) => Deed::Moved(io::pairs(records@)),
        }
    }
}

/// A move of files that is under way.
#[derive(Clone, Copy, Debug, PartialEq, Eq, Structural)]
pub struct PendingMove {
    pub id: u64,
    pub resume_scan: bool,
}

/// A decoded photograph. The bytes that an upload takes are not known where the
/// photograph is too large for one.
#[derive(Clone, Copy, Debug, PartialEq, Eq, Structural)]
pub struct Picture {
    pub image: u64,
    pub width: u32,
    pub height: u32,
    pub needed: Option<usize>,
}

/// What the window and the workers are to do.
#[derive(Debug)]
pub enum Action {
    /// Show the status line, the title and the state of the menu.
    Status,
    Redraw,
    /// Show the cells of the filmstrip.
    Strip,
    StripVisible(bool),
    BeginPeek,
    EndPeek,
    ToggleFit,
    Zoom { closer: bool },
    Image(Option<(Texture, u16)>),
    Caption(String),
    Reference(Option<(Texture, u16)>),
    Orientation(u16),
    ReferenceOrientation(u16),
    PreserveView(bool),
    Brightness(i8),
    FilterShown(PhotoFilter),
    Fullscreen,
    Fit,
    Fill,
    ActualSize,
    Help,
    PickFolder,
    Alert { title: String, text: String },
    /// Ask whether these go to the trash.
    AskTrash(Vec<PhotoPath>),
    /// Ask whether these go to the rejected ones.
    AskMove(Vec<PhotoPath>),
    /// Ask what to do about ratings that could not be saved.
    AskRetry(usize),
    Exit,
    Scan { at: PhotoPath, epoch: u64 },
    StopThumbnails,
    LoadThumbnails { session: u64, serial: u64 },
    Acknowledge { serial: u64, index: usize },
    UploadThumbnail {
        session: u64,
        serial: u64,
        index: usize,
        photo: PhotoPath,
        image: u64,
        orientation: u16,
    },
    CancelUploads,
    Upload(Job<PhotoPath>),
    AcknowledgeUpload { session: u64, photo: PhotoPath, generation: u64 },
    /// Follow the list of visible photographs.
    SetFiles(u64),
    Load { index: usize, generation: u64, direction: Direction, cached: bool },
    ResumePrefetch,
    GpuCached(Vec<usize>),
    EvictBytes(usize),
    EvictFor(usize),
    Discard(usize),
    Read { session: u64, photo: PhotoPath },
    Save { session: u64, photo: PhotoPath, revision: u64, rating: i8, edit: u64 },
    Undo { session: u64, photo: PhotoPath, revision: u64, edit: u64 },
    Move { session: u64, id: u64, photos: Vec<PhotoPath> },
    Restore { session: u64, id: u64, records: Vec<MoveRecord> },
    /// Read the ratings of the whole folder.
    ScanRatings(u64),
    CancelRatingScan,
    CollectRejected { session: u64, photos: Vec<PhotoPath> },
    Trash { session: u64, photos: Vec<PhotoPath> },
    Flush,
    RetryFailed,
    Preferences { zoom: Option<bool>, auto: Option<bool>, brightness: Option<i8> },
    FlushSession,
    Remember(PhotoPath),
}

/// What an `Action` says.
pub enum Act {
    Status,
    Redraw,
    Strip,
    StripVisible(bool),
    BeginPeek,
    EndPeek,
    ToggleFit,
    Zoom(bool),
    Image(Option<(Texture, u16)>),
    Caption(Seq<char>),
    Reference(Option<(Texture, u16)>),
    Orientation(u16),
    ReferenceOrientation(u16),
    PreserveView(bool),
    Brightness(i8),
    FilterShown(PhotoFilter),
    Fullscreen,
    Fit,
    Fill,
    ActualSize,
    Help,
    PickFolder,
    Alert(Seq<char>, Seq<char>),
    AskTrash(Seq<Seq<u8>>),
    AskMove(Seq<Seq<u8>>),
    AskRetry(usize),
    Exit,
    Scan(Seq<u8>, u64),
    StopThumbnails,
    LoadThumbnails(u64, u64),
    Acknowledge(u64, usize),
    UploadThumbnail(u64, u64, usize, Seq<u8>, u64, u16),
    CancelUploads,
    Upload(Load<Seq<u8>>),
    AcknowledgeUpload(u64, Seq<u8>, u64),
    SetFiles(u64),
    Load(usize, u64, Direction, bool),
    ResumePrefetch,
    GpuCached(Seq<usize>),
    EvictBytes(usize),
    EvictFor(usize),
    Discard(usize),
    Read(u64, Seq<u8>),
    Save(u64, Seq<u8>, u64, i8, u64),
    Undo(u64, Seq<u8>, u64, u64),
    Move(u64, u64, Seq<Seq<u8>>),
    Restore(u64, u64, Seq<deleted::Pair>),
    ScanRatings(u64),
    CancelRatingScan,
    CollectRejected(u64, Seq<Seq<u8>>),
    Trash(u64, Seq<Seq<u8>>),
    Flush,
    RetryFailed,
    Preferences(Option<bool>, Option<bool>, Option<i8>),
    FlushSession,
    Remember(Seq<u8>),
}

impl View for Action {
    type V = Act;

    open spec fn view(&self) -> Act {
        match self {
            Action::Status => Act::Status,
            Action::Redraw => Act::Redraw,
            Action::Strip => Act::Strip,
            Action::StripVisible(visible) => Act::StripVisible(*visible),
            Action::BeginPeek => Act::BeginPeek,
            Action::EndPeek => Act::EndPeek,
            Action::ToggleFit => Act::ToggleFit,
            Action::Zoom { closer } => Act::Zoom(*closer),
            Action::Image(image) => Act::Image(*image),
            Action::Caption(text) => Act::Caption(text@),
            Action::Reference(image) => Act::Reference(*image),
            Action::Orientation(orientation) => Act::Orientation(*orientation),
            Action::ReferenceOrientation(orientation) => Act::ReferenceOrientation(*orientation),
            Action::PreserveView(preserve) => Act::PreserveView(*preserve),
            Action::Brightness(steps) => Act::Brightness(*steps),
            Action::FilterShown(filter) => Act::FilterShown(*filter),
            Action::Fullscreen => Act::Fullscreen,
            Action::Fit => Act::Fit,
            Action::Fill => Act::Fill,
            Action::ActualSize => Act::ActualSize,
            Action::Help => Act::Help,
            Action::PickFolder => Act::PickFolder,
            Action::Alert { title, text } => Act::Alert(title@, text@),
            Action::AskTrash(photos) => Act::AskTrash(path::spellings(photos@)),
            Action::AskMove(photos) => Act::AskMove(path::spellings(photos@)),
            Action::AskRetry(failures) => Act::AskRetry(*failures),
            Action::Exit => Act::Exit,
            Action::Scan { at, epoch } => Act::Scan(at.raw(), *epoch),
            Action::StopThumbnails => Act::StopThumbnails,
            Action::LoadThumbnails { session, serial } => Act::LoadThumbnails(*session, *serial),
            Action::Acknowledge { serial, index } => Act::Acknowledge(*serial, *index),
            Action::UploadThumbnail { session, serial, index, photo, image, orientation } =>
                Act::UploadThumbnail(*session, *serial, *index, photo.raw(), *image, *orientation),
            Action::CancelUploads => Act::CancelUploads,
            Action::Upload(job) => Act::Upload(job@),
            Action::AcknowledgeUpload { session, photo, generation } => Act::AcknowledgeUpload(
                *session,
                photo.raw(),
                *generation,
            ),
            Action::SetFiles(session) => Act::SetFiles(*session),
            Action::Load { index, generation, direction, cached } => Act::Load(
                *index,
                *generation,
                *direction,
                *cached,
            ),
            Action::ResumePrefetch => Act::ResumePrefetch,
            Action::GpuCached(indices) => Act::GpuCached(indices@),
            Action::EvictBytes(bytes) => Act::EvictBytes(*bytes),
            Action::EvictFor(bytes) => Act::EvictFor(*bytes),
            Action::Discard(index) => Act::Discard(*index),
            Action::Read { session, photo } => Act::Read(*session, photo.raw()),
            Action::Save { session, photo, revision, rating, edit } => Act::Save(
                *session,
                photo.raw(),
                *revision,
                *rating,
                *edit,
            ),
            Action::Undo { session, photo, revision, edit } => Act::Undo(
                *session,
                photo.raw(),
                *revision,
                *edit,
            ),
            Action::Move { session, id, photos } => Act::Move(
                *session,
                *id,
                path::spellings(photos@),
            ),
            Action::Restore { session, id, records } => Act::Restore(
                *session,
                *id,
                io::pairs(records@),
            ),
            Action::ScanRatings(epoch) => Act::ScanRatings(*epoch),
            Action::CancelRatingScan => Act::CancelRatingScan,
            Action::CollectRejected { session, photos } => Act::CollectRejected(
                *session,
                path::spellings(photos@),
            ),
            Action::Trash { session, photos } => Act::Trash(*session, path::spellings(photos@)),
            Action::Flush => Act::Flush,
            Action::RetryFailed => Act::RetryFailed,
            Action::Preferences { zoom, auto, brightness } => Act::Preferences(
                *zoom,
                *auto,
                *brightness,
            ),
            Action::FlushSession => Act::FlushSession,
            Action::Remember(photo) => Act::Remember(photo.raw()),
        }
    }
}

/// A step that is due.
#[derive(Debug)]
pub enum Todo {
    /// Ask for the selected photograph.
    Request,
    /// Go on with the request, once it is known whether an upload of the
    /// photograph is under way.
    Requested { index: usize, photo: PhotoPath, generation: u64 },
    /// A photograph was shown: let others be decoded and uploaded.
    Settle { discard: bool },
    /// Upload the next photograph, if it is decoded.
    Ahead { index: usize, photo: PhotoPath },
    /// Upload it, if there is room.
    AheadRoom { photo: PhotoPath, picture: Picture, needed: usize },
    /// Upload it beside a reference, if there is still room.
    AheadBeside { photo: PhotoPath, picture: Picture, needed: usize },
    /// Release what stands in the way of the selected photograph.
    Pressure { needed: usize },
    /// Release the reference too.
    PressureBeside { needed: usize },
    /// Upload the selected photograph, which was decoded.
    Decoded { index: usize, photo: PhotoPath, generation: u64, hit: bool, prefetched: bool },
    /// Upload it beside a reference.
    Room { photo: PhotoPath, generation: u64, picture: Picture, needed: usize },
    /// Follow what the filter shows now.
    Refresh,
    /// The visible photographs were looked through.
    Refreshed,
    Status,
    /// Load thumbnails when nothing else is to be done.
    Arm,
    /// Load thumbnails, unless the next photograph is not ready yet.
    Thumbnails { index: usize, grace: bool },
    Tell(String),
    Warn { title: String, text: String },
}

/// What a `Todo` says.
pub enum Due {
    Request,
    Requested(usize, Seq<u8>, u64),
    Settle(bool),
    Ahead(usize, Seq<u8>),
    AheadRoom(Seq<u8>, Picture, usize),
    AheadBeside(Seq<u8>, Picture, usize),
    Pressure(usize),
    PressureBeside(usize),
    Decoded(usize, Seq<u8>, u64, bool, bool),
    Room(Seq<u8>, u64, Picture, usize),
    Refresh,
    Refreshed,
    Status,
    Arm,
    Thumbnails(usize, bool),
    Tell(Seq<char>),
    Warn(Seq<char>, Seq<char>),
}

impl View for Todo {
    type V = Due;

    open spec fn view(&self) -> Due {
        match self {
            Todo::Request => Due::Request,
            Todo::Requested { index, photo, generation } => Due::Requested(
                *index,
                photo.raw(),
                *generation,
            ),
            Todo::Settle { discard } => Due::Settle(*discard),
            Todo::Ahead { index, photo } => Due::Ahead(*index, photo@),
            Todo::AheadRoom { photo, picture, needed } => Due::AheadRoom(photo@, *picture, *needed),
            Todo::AheadBeside { photo, picture, needed } => Due::AheadBeside(
                photo@,
                *picture,
                *needed,
            ),
            Todo::Pressure { needed } => Due::Pressure(*needed),
            Todo::PressureBeside { needed } => Due::PressureBeside(*needed),
            Todo::Decoded { index, photo, generation, hit, prefetched } => Due::Decoded(
                *index,
                photo@,
                *generation,
                *hit,
                *prefetched,
            ),
            Todo::Room { photo, generation, picture, needed } => Due::Room(
                photo@,
                *generation,
                *picture,
                *needed,
            ),
            Todo::Refresh => Due::Refresh,
            Todo::Refreshed => Due::Refreshed,
            Todo::Status => Due::Status,
            Todo::Arm => Due::Arm,
            Todo::Thumbnails { index, grace } => Due::Thumbnails(*index, *grace),
            Todo::Tell(text) => Due::Tell(text@),
            Todo::Warn { title, text } => Due::Warn(title@, text@),
        }
    }
}

/// The filmstrip.
#[derive(Debug)]
pub struct StripState {
    pub visible: bool,
    pub window: FilmstripWindow,
    pub cache: Shelf<PhotoPath>,
    pub unavailable: PathSet,
    pub serial: u64,
    pub start: usize,
    pub end: usize,
    pub plan_sent: bool,
    /// When thumbnails are loaded though the next photograph is not ready, in
    /// milliseconds.
    pub deadline: Option<u64>,
    pub decodes: u64,
    pub uploads: u64,
    pub retries: u8,
    /// Cells that fit into the window.
    pub capacity: usize,
}

/// What a `StripState` says.
pub struct StripModel {
    pub visible: bool,
    pub window: Strip,
    pub cache: Seq<(Seq<u8>, Texture)>,
    pub unavailable: Set<Seq<u8>>,
    pub serial: u64,
    pub start: usize,
    pub end: usize,
    pub plan_sent: bool,
    pub deadline: Option<u64>,
    pub decodes: u64,
    pub uploads: u64,
    pub retries: u8,
    pub capacity: usize,
}

impl View for StripState {
    type V = StripModel;

    open spec fn view(&self) -> StripModel {
        StripModel {
            visible: self.visible,
            window: self.window@,
            cache: self.cache@,
            unavailable: self.unavailable@,
            serial: self.serial,
            start: self.start,
            end: self.end,
            plan_sent: self.plan_sent,
            deadline: self.deadline,
            decodes: self.decodes,
            uploads: self.uploads,
            retries: self.retries,
            capacity: self.capacity,
        }
    }
}

/// The folder, and which of its photographs are visible.
#[derive(Debug)]
pub struct Listing {
    pub all: Vec<PhotoPath>,
    pub files: Vec<PhotoPath>,
    /// The visible photographs are the whole folder, as it was listed last.
    pub whole: bool,
    pub filter: PhotoFilter,
    pub index_started: bool,
    pub index_complete: bool,
    pub ratings_read: usize,
    pub rating_errors: usize,
    /// Ratings were read that are not taken account of yet.
    pub stale: bool,
    pub folder: Option<PhotoPath>,
    pub scanning: bool,
    pub complete_only: bool,
}

/// What a `Listing` says.
pub struct ListingModel {
    pub all: Seq<Seq<u8>>,
    pub files: Seq<Seq<u8>>,
    /// What the paths are written as.
    pub all_written: Seq<Seq<u8>>,
    pub files_written: Seq<Seq<u8>>,
    pub whole: bool,
    pub filter: PhotoFilter,
    pub index_started: bool,
    pub index_complete: bool,
    pub ratings_read: usize,
    pub rating_errors: usize,
    pub stale: bool,
    pub folder: Option<Seq<u8>>,
    pub scanning: bool,
    pub complete_only: bool,
}

impl View for Listing {
    type V = ListingModel;

    open spec fn view(&self) -> ListingModel {
        ListingModel {
            all: path::keys(self.all@),
            files: path::keys(self.files@),
            all_written: path::spellings(self.all@),
            files_written: path::spellings(self.files@),
            whole: self.whole,
            filter: self.filter,
            index_started: self.index_started,
            index_complete: self.index_complete,
            ratings_read: self.ratings_read,
            rating_errors: self.rating_errors,
            stale: self.stale,
            folder: path::written(self.folder),
            scanning: self.scanning,
            complete_only: self.complete_only,
        }
    }
}

/// The photographs on the GPU.
#[derive(Debug)]
pub struct Screen {
    pub textures: Shelf<PhotoPath>,
    /// Uploaded ahead of need, and not shown yet.
    pub prefetched: PathSet,
    pub displayed: Option<PhotoPath>,
    pub pending_upload: Option<u64>,
    pub pending_prefetch: Option<(u64, PhotoPath)>,
    pub attempted_prefetch: Option<PhotoPath>,
    /// The photograph was not drawn yet.
    pub first_render: bool,
    /// The reference.
    pub pinned: Option<(PhotoPath, Texture)>,
}

/// What a `Screen` says.
pub struct ScreenModel {
    pub textures: Seq<(Seq<u8>, Texture)>,
    pub prefetched: Set<Seq<u8>>,
    pub displayed: Option<Seq<u8>>,
    /// What its path is written as.
    pub displayed_written: Option<Seq<u8>>,
    pub pending_upload: Option<u64>,
    pub pending_prefetch: Option<(u64, Seq<u8>)>,
    pub attempted_prefetch: Option<Seq<u8>>,
    pub first_render: bool,
    pub pinned: Option<(Seq<u8>, Texture)>,
}

impl View for Screen {
    type V = ScreenModel;

    open spec fn view(&self) -> ScreenModel {
        ScreenModel {
            textures: self.textures@,
            prefetched: self.prefetched@,
            displayed: deleted::place(self.displayed),
            displayed_written: path::written(self.displayed),
            pending_upload: self.pending_upload,
            pending_prefetch: match self.pending_prefetch {
                Some((generation, photo)) => Some((generation, photo@)),
                None => None,
            },
            attempted_prefetch: deleted::place(self.attempted_prefetch),
            first_render: self.first_render,
            pinned: match self.pinned {
                Some((photo, texture)) => Some((photo@, texture)),
                None => None,
            },
        }
    }
}

/// What the user prefers, and what they changed since the start.
#[derive(Clone, Copy, Debug, PartialEq, Eq, Structural)]
pub struct Settings {
    pub restore_allowed: bool,
    pub zoom_locked: bool,
    pub auto_advance: bool,
    pub brightness_steps: i8,
    pub zoom_changed: bool,
    pub auto_changed: bool,
    pub brightness_changed: bool,
}

/// What can be undone, and the numbers of edits.
#[derive(Debug)]
pub struct Ledger {
    pub history: Vec<(u64, UndoAction)>,
    pub rating_sequence: u64,
    pub revision_sequence: u64,
    /// Counts what the user did, so that an undo that took long does not move
    /// the selection.
    pub interaction: u64,
    /// The undos under way, and what the user had done when they were begun.
    pub undos: HashMap<u64, u64>,
}

/// What a `Ledger` says.
pub struct LedgerModel {
    pub history: Seq<(u64, Deed)>,
    pub rating_sequence: u64,
    pub revision_sequence: u64,
    pub interaction: u64,
    pub undos: Map<u64, u64>,
}

/// What some undoable actions say.
#[verifier::opaque]
pub open spec fn deeds(history: Seq<(u64, UndoAction)>) -> Seq<(u64, Deed)> {
    history.map_values(|e: (u64, UndoAction)| (e.0, e.1@))
}

impl View for Ledger {
    type V = LedgerModel;

    open spec fn view(&self) -> LedgerModel {
        LedgerModel {
            history: deeds(self.history@),
            rating_sequence: self.rating_sequence,
            revision_sequence: self.revision_sequence,
            interaction: self.interaction,
            undos: self.undos@,
        }
    }
}

/// How requests were met.
#[derive(Clone, Copy, Debug, PartialEq, Eq, Structural)]
pub struct Tally {
    pub requests: u64,
    pub gpu_hits: u64,
    pub cpu_hits: u64,
    pub prefetch_hits: u64,
}

/// The state of the program.
#[derive(Debug)]
pub struct App {
    pub strip: StripState,
    pub listing: Listing,
    pub screen: Screen,
    pub settings: Settings,
    pub ledger: Ledger,
    pub navigator: Navigator,
    pub info: PathMap<PhotoInfo>,
    /// The number of the list of visible photographs.
    pub session: u64,
    /// The number of the last request.
    pub generation: u64,
    /// The number of the folder.
    pub folder_epoch: u64,
    pub user_navigated: bool,
    pub quitting: bool,
    /// Files are being moved, and nothing else may change.
    pub trash_busy: bool,
    pub deleted_batch: bool,
    pub pending_move: Option<PendingMove>,
    pub notice: String,
    pub tally: Tally,
    /// The program runs by itself; ratings and files are left alone.
    pub rehearsal: bool,
    /// Milliseconds since the start.
    pub clock: u64,
    /// Bytes that photographs may take.
    pub limit: usize,
    pub outbox: Vec<Action>,
    pub agenda: Vec<Todo>,
}

/// What an `App` says.
pub struct Model {
    pub strip: StripModel,
    pub listing: ListingModel,
    pub screen: ScreenModel,
    pub settings: Settings,
    pub ledger: LedgerModel,
    pub selection: Selection,
    pub info: info::Notes,
    pub session: u64,
    pub generation: u64,
    pub folder_epoch: u64,
    pub user_navigated: bool,
    pub quitting: bool,
    pub trash_busy: bool,
    pub deleted_batch: bool,
    pub pending_move: Option<PendingMove>,
    pub notice: Seq<char>,
    pub tally: Tally,
    pub rehearsal: bool,
    pub clock: u64,
    pub limit: usize,
    pub outbox: Seq<Act>,
    pub agenda: Seq<Due>,
}

/// What some actions say.
#[verifier::opaque]
pub open spec fn acts(actions: Seq<Action>) -> Seq<Act> {
    actions.map_values(|a: Action| a@)
}

/// What some steps say.
#[verifier::opaque]
pub open spec fn dues(todos: Seq<Todo>) -> Seq<Due> {
    todos.map_values(|t: Todo| t@)
}

impl View for App {
    type V = Model;

    open spec fn view(&self) -> Model {
        Model {
            strip: self.strip@,
            listing: self.listing@,
            screen: self.screen@,
            settings: self.settings,
            ledger: self.ledger@,
            selection: self.navigator@,
            info: self.info@,
            session: self.session,
            generation: self.generation,
            folder_epoch: self.folder_epoch,
            user_navigated: self.user_navigated,
            quitting: self.quitting,
            trash_busy: self.trash_busy,
            deleted_batch: self.deleted_batch,
            pending_move: self.pending_move,
            notice: self.notice@,
            tally: self.tally,
            rehearsal: self.rehearsal,
            clock: self.clock,
            limit: self.limit,
            outbox: acts(self.outbox@),
            agenda: dues(self.agenda@),
        }
    }
}

/// The number behind another.
pub open spec fn next(n: u64) -> u64 {
    if n == u64::MAX {
        0
    } else {
        (n + 1) as u64
    }
}

pub fn next_number(n: u64) -> (out: u64)
    ensures
        out == next(n),
{
    if n == u64::MAX {
        0
    } else {
        n + 1
    }
}

impl Model {
    /// The selection is one of the visible photographs.
    pub open spec fn valid(self) -> bool {
        &&& self.selection.valid()
        &&& self.selection.len == self.listing.files.len()
    }

    /// The selected photograph.
    pub open spec fn current(self) -> Option<Seq<u8>> {
        match self.selection.index {
            Some(index) => if index < self.listing.files.len() {
                Some(self.listing.files[index as int])
            } else {
                None
            },
            None => None,
        }
    }

    /// What the selected photograph is written as.
    pub open spec fn current_written(self) -> Option<Seq<u8>> {
        match self.selection.index {
            Some(index) => if index < self.listing.files_written.len() {
                Some(self.listing.files_written[index as int])
            } else {
                None
            },
            None => None,
        }
    }

    /// With another action.
    pub open spec fn posted(self, act: Act) -> Model {
        Model { outbox: self.outbox.push(act), ..self }
    }

    /// With a step that comes before the others.
    pub open spec fn first(self, due: Due) -> Model {
        Model { agenda: self.agenda.push(due), ..self }
    }
}

impl App {
    /// The state is consistent.
    pub open spec fn sound(&self) -> bool {
        &&& self.info.sound()
        &&& self@.valid()
    }

    pub fn post(&mut self, action: Action)
        requires
            old(self).sound(),
        ensures
            final(self).sound(),
            final(self)@ == old(self)@.posted(action@),
    {
        let ghost before = self@;
        self.outbox.push(action);
        assert(acts(self.outbox@) =~= before.outbox.push(action@)) by {
            reveal(acts);
        }
    }

    pub fn push(&mut self, todo: Todo)
        requires
            old(self).sound(),
        ensures
            final(self).sound(),
            final(self)@ == old(self)@.first(todo@),
    {
        let ghost before = self@;
        self.agenda.push(todo);
        assert(dues(self.agenda@) =~= before.agenda.push(todo@)) by {
            reveal(dues);
        }
    }

    /// The selected photograph.
    pub fn current(&self) -> (out: Option<PhotoPath>)
        ensures
            deleted::place(out) == self@.current(),
            path::written(out) == self@.current_written(),
    {
        match self.navigator.index() {
            Some(index) => if index < self.listing.files.len() {
                Some(self.listing.files[index].copied())
            } else {
                None
            },
            None => None,
        }
    }

    /// Hands out the actions that were posted.
    pub fn take_actions(&mut self) -> (out: Vec<Action>)
        requires
            old(self).sound(),
        ensures
            final(self).sound(),
            acts(out@) == old(self)@.outbox,
            final(self)@ == (Model { outbox: Seq::empty(), ..old(self)@ }),
    {
        let ghost before = self@;
        let mut out: Vec<Action> = Vec::new();
        std::mem::swap(&mut out, &mut self.outbox);
        assert(acts(self.outbox@) =~= Seq::<Act>::empty()) by {
            reveal(acts);
        }
        out
    }
}

} // verus!
