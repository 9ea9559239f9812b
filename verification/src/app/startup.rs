//! How the program begins.
use crate::app::filmstrip;
use crate::app::filmstrip::budget_limits;
use crate::app::path_map::PathMap;
use crate::app::path_set::PathSet;
use crate::app::state;
use crate::app::state::{
    App, LedgerModel, Listing, ListingModel, Model, Screen, ScreenModel, Settings, StripModel,
    StripState, Tally,
};
use crate::app::textures::Shelf;
use crate::browser::filmstrip::{FilmstripWindow, Strip};
use crate::browser::filter::PhotoFilter;
use crate::browser::navigator::{Navigator, Selection};
use crate::image::loader::LoaderConfig;
use crate::path;
use crate::path::PhotoPath;
use std::collections::HashMap;
use vstd::prelude::*;

verus! {

broadcast use vstd::std_specs::hash::group_hash_axioms;

/// Megabytes up to which photographs are decoded at half their size.
pub const SMALL_CACHE: usize = 256;

/// Bytes of a megabyte.
pub const MEGABYTE: usize = 1048576;

/// What the program was asked to do.
#[derive(Debug)]
pub struct Options {
    pub path: Option<PhotoPath>,
    /// Megabytes that photographs and thumbnails may take.
    pub cache_mb: usize,
    /// Where a rehearsal leaves its pictures.
    pub smoke_test: Option<PhotoPath>,
}

/// How the memory is divided, and what is remembered.
#[derive(Debug)]
pub struct Setup {
    pub main_bytes: usize,
    pub thumbnail_bytes: usize,
    pub decode_scale: u32,
    pub cpu_cache_bytes: usize,
    /// The photograph of the last time may be opened.
    pub restore_allowed: bool,
    /// The session is remembered.
    pub remembers: bool,
}

impl Setup {
    /// Whether a setup is the one for some options.
    pub open spec fn suits(self, options: Options) -> bool {
        &&& self.main_bytes > 0
        &&& self.thumbnail_bytes == filmstrip::THUMB_POOL_BYTES
        &&& self.main_bytes + self.thumbnail_bytes == options.cache_mb * MEGABYTE
        &&& self.decode_scale == if options.cache_mb <= SMALL_CACHE {
            2u32
        } else {
            1u32
        }
        &&& self.cpu_cache_bytes == self.main_bytes / 2
        &&& self.restore_allowed == (options.path is None && options.smoke_test is None)
        &&& self.remembers == (options.smoke_test is None)
    }
}

/// Divides the memory. A photograph that is shown takes its size several times
/// over while it is uploaded, so that little memory means smaller photographs.
pub fn configure(options: &Options) -> (out: Result<Setup, String>)
    ensures
        match out {
            Ok(setup) => setup.suits(*options) && options.cache_mb * MEGABYTE <= usize::MAX,
            Err(error) => if options.cache_mb * MEGABYTE > usize::MAX {
                error@ == "image budget overflow"@
            } else {
                options.cache_mb * MEGABYTE <= filmstrip::THUMB_POOL_BYTES && error@
                    == "Image budget must exceed the 8 MiB thumbnail allowance"@
            },
        },
        out is Err <==> options.cache_mb * MEGABYTE > usize::MAX || options.cache_mb * MEGABYTE
            <= filmstrip::THUMB_POOL_BYTES,
{
    let total: usize = match options.cache_mb.checked_mul(MEGABYTE) {
        Some(total) => total,
        None => {
            return Err("image budget overflow".to_owned());
        },
    };
    let (main_bytes, thumbnail_bytes): (usize, usize) = match budget_limits(total) {
        Ok(limits) => limits,
        Err(error) => {
            return Err(error);
        },
    };
    let decode_scale: u32 = if options.cache_mb <= SMALL_CACHE {
        2
    } else {
        1
    };
    Ok(
        Setup {
            main_bytes,
            thumbnail_bytes,
            decode_scale,
            cpu_cache_bytes: main_bytes / 2,
            restore_allowed: options.path.is_none() && options.smoke_test.is_none(),
            remembers: options.smoke_test.is_none(),
        },
    )
}

impl Setup {
    /// How photographs are decoded.
    pub fn loader(&self) -> (out: LoaderConfig)
        ensures
            out.decode_scale == self.decode_scale,
            out.cpu_cache_bytes == self.cpu_cache_bytes,
            out.ahead == 8,
            out.behind == 3,
    {
        let mut config = LoaderConfig::new();
        config.decode_scale = self.decode_scale;
        config.cpu_cache_bytes = self.cpu_cache_bytes;
        config
    }
}

/// The state of the program at first.
pub open spec fn blank(limit: usize, restore_allowed: bool, rehearsal: bool) -> Model {
    Model {
        strip: StripModel {
            visible: false,
            window: Strip { len: 0, capacity: 0, start: 0 },
            cache: Seq::empty(),
            unavailable: Set::empty(),
            serial: 0,
            start: 0,
            end: 0,
            plan_sent: false,
            deadline: None,
            decodes: 0,
            uploads: 0,
            retries: 0,
            capacity: 1,
        },
        listing: ListingModel {
            all: Seq::empty(),
            files: Seq::empty(),
            all_written: Seq::empty(),
            files_written: Seq::empty(),
            whole: false,
            filter: PhotoFilter::All,
            index_started: false,
            index_complete: false,
            ratings_read: 0,
            rating_errors: 0,
            stale: false,
            folder: None,
            scanning: false,
            complete_only: false,
        },
        screen: ScreenModel {
            textures: Seq::empty(),
            prefetched: Set::empty(),
            displayed: None,
            displayed_written: None,
            pending_upload: None,
            pending_prefetch: None,
            attempted_prefetch: None,
            first_render: false,
            pinned: None,
        },
        settings: Settings {
            restore_allowed,
            zoom_locked: true,
            auto_advance: false,
            brightness_steps: 0,
            zoom_changed: false,
            auto_changed: false,
            brightness_changed: false,
        },
        ledger: LedgerModel {
            history: Seq::empty(),
            rating_sequence: 0,
            revision_sequence: 0,
            interaction: 0,
            undos: Map::empty(),
        },
        selection: Selection::first(0),
        info: Map::empty(),
        session: 0,
        generation: 0,
        folder_epoch: 0,
        user_navigated: false,
        quitting: false,
        trash_busy: false,
        deleted_batch: false,
        pending_move: None,
        notice: Seq::empty(),
        tally: Tally { requests: 0, gpu_hits: 0, cpu_hits: 0, prefetch_hits: 0 },
        rehearsal,
        clock: 0,
        limit,
        outbox: Seq::empty(),
        agenda: Seq::empty(),
    }
}

impl App {
    /// The program before anything happened.
    pub fn new(limit: usize, restore_allowed: bool, rehearsal: bool) -> (out: Self)
        ensures
            out.sound(),
            out@ == blank(limit, restore_allowed, rehearsal),
    {
        let out = App {
            strip: StripState {
                visible: false,
                window: FilmstripWindow::default(),
                cache: Shelf::new(),
                unavailable: PathSet::new(),
                serial: 0,
                start: 0,
                end: 0,
                plan_sent: false,
                deadline: None,
                decodes: 0,
                uploads: 0,
                retries: 0,
                capacity: 1,
            },
            listing: Listing {
                all: Vec::new(),
                files: Vec::new(),
                whole: false,
                filter: PhotoFilter::All,
                index_started: false,
                index_complete: false,
                ratings_read: 0,
                rating_errors: 0,
                stale: false,
                folder: None,
                scanning: false,
                complete_only: false,
            },
            screen: Screen {
                textures: Shelf::new(),
                prefetched: PathSet::new(),
                displayed: None,
                pending_upload: None,
                pending_prefetch: None,
                attempted_prefetch: None,
                first_render: false,
                pinned: None,
            },
            settings: Settings {
                restore_allowed,
                zoom_locked: true,
                auto_advance: false,
                brightness_steps: 0,
                zoom_changed: false,
                auto_changed: false,
                brightness_changed: false,
            },
            ledger: state::Ledger {
                history: Vec::new(),
                rating_sequence: 0,
                revision_sequence: 0,
                interaction: 0,
                undos: HashMap::new(),
            },
            navigator: Navigator::new(0),
            info: PathMap::new(),
            session: 0,
            generation: 0,
            folder_epoch: 0,
            user_navigated: false,
            quitting: false,
            trash_busy: false,
            deleted_batch: false,
            pending_move: None,
            notice: String::new(),
            tally: Tally { requests: 0, gpu_hits: 0, cpu_hits: 0, prefetch_hits: 0 },
            rehearsal,
            clock: 0,
            limit,
            outbox: Vec::new(),
            agenda: Vec::new(),
        };
        proof {
            reveal(state::acts);
            reveal(state::dues);
            reveal(state::deeds);
            assert(state::acts(out.outbox@) =~= Seq::<state::Act>::empty());
            assert(state::dues(out.agenda@) =~= Seq::<state::Due>::empty());
            assert(state::deeds(out.ledger.history@) =~= Seq::<(u64, state::Deed)>::empty());
            assert(path::keys(out.listing.all@) =~= Seq::<Seq<u8>>::empty());
            assert(path::keys(out.listing.files@) =~= Seq::<Seq<u8>>::empty());
            assert(path::spellings(out.listing.all@) =~= Seq::<Seq<u8>>::empty());
            assert(path::spellings(out.listing.files@) =~= Seq::<Seq<u8>>::empty());
            assert(out.notice@ =~= Seq::<char>::empty());
            assert(out.strip@ == blank(limit, restore_allowed, rehearsal).strip);
            assert(out.listing@ == blank(limit, restore_allowed, rehearsal).listing);
            assert(out.screen@ == blank(limit, restore_allowed, rehearsal).screen);
            assert(out.ledger@ == blank(limit, restore_allowed, rehearsal).ledger);
        }
        out
    }
}

} // verus!
