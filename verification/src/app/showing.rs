//! Which photographs are listed, selected and shown, in the terms of the user.
use crate::app::browse;
use crate::app::deleted;
use crate::app::display;
use crate::app::info;
use crate::app::info::PhotoInfo;
use crate::app::promises;
use crate::app::scan;
use crate::app::scan::ScanResult;
use crate::app::state;
use crate::app::state::{Act, Due, Model};
use crate::app::textures;
use crate::app::textures::Texture;
use crate::browser::filter;
use crate::browser::filter::PhotoFilter;
use crate::metadata::exif::ExifMetadata;
use crate::path;
use vstd::prelude::*;

verus! {

/// Opening a folder asks for its listing, and shows nothing of the folder before; but
/// what is not saved yet of that one is not forgotten.
pub proof fn law_opened_folders_are_listed(m: Model, at: Seq<u8>, photo: Seq<u8>)
    requires
        !m.quitting,
        !m.trash_busy,
    ensures
        ({
            let n = m.opened(at);
            &&& promises::asks(m, n, Act::Scan(at, n.folder_epoch))
            &&& promises::asks(m, n, Act::Image(None))
            &&& promises::quiet(m, n)
            &&& n.folder_epoch != m.folder_epoch
            &&& n.session != m.session
            &&& n.generation != m.generation
            &&& n.listing.all.len() == 0 && n.listing.files.len() == 0
            &&& n.listing.filter == PhotoFilter::All
            &&& n.current() is None
            &&& n.screen.displayed is None
            &&& n.ledger.history == m.ledger.history
            &&& info::info_of(m.info, photo).dirty() ==> info::info_of(n.info, photo)
                == info::info_of(m.info, photo)
        }),
{
    reveal(Model::opened);
    reveal(Model::strip_shown);
    let n = m.opened(at);
    let i = m.outbox.len() as int;
    assert(n.outbox[i + 7] == Act::Image(None));
    assert(n.outbox[i + 9] == Act::Scan(at, n.folder_epoch));
    if info::info_of(m.info, photo).dirty() {
        assert(m.info.contains_key(photo));
        assert(info::unsaved(m.info).contains(photo));
    }
}

/// A listing of the folder is taken over, and shows the photograph that was asked for
/// or that the user has gone to; one of another folder is not.
pub proof fn law_listings_are_taken_over(m: Model, result: ScanResult, photo: Seq<u8>)
    requires
        m.valid(),
        !m.quitting,
        !m.trash_busy,
        m.listing.filter == PhotoFilter::All,
        !m.listing.complete_only,
        path::keys(result.files@).contains(photo),
    ensures
        ({
            let n = m.listed(result);
            let files = path::keys(result.files@);
            &&& result.session != m.folder_epoch ==> n == m
            &&& result.session == m.folder_epoch ==> {
                &&& n.listing.all == files
                &&& n.listing.files == files
                &&& n.listing.scanning == !result.complete
                &&& promises::quiet(m, n)
                &&& n.info == m.info
                &&& !m.user_navigated && deleted::place(result.requested) == Some(photo)
                    ==> n.current() == Some(photo)
                &&& m.user_navigated && m.current() == Some(photo) ==> n.current() == Some(photo)
                &&& !m.user_navigated && result.requested is None && files[0] == photo
                    ==> n.current() == Some(photo)
            }
        }),
{
    reveal(Model::listed);
    reveal(Model::index_begun);
    if result.session == m.folder_epoch {
        let files = path::keys(result.files@);
        let requested = deleted::place(result.requested);
        let selected = scan::selected(files, requested, m.current(), m.user_navigated);
        scan::law_listings_show_what_was_asked_for(
            files,
            requested,
            m.current(),
            m.user_navigated,
        );
        let s = m.with_listing(
            state::ListingModel {
                complete_only: false,
                folder: Some(result.folder.raw()),
                scanning: !result.complete,
                all: files,
                all_written: path::spellings(result.files@),
                whole: false,
                ..m.listing
            },
        );
        let preferred = files[selected];
        assert(m.listed(result) == s.refreshed(Some(preferred)));
        promises::lemma_refreshed(s, Some(preferred));
        browse::law_lists_follow_the_filter(s, Some(preferred));
        reveal(Model::visible);
        assert(s.visible() == files);
        assert(files[selected] == preferred);
        assert(result.files@.len() <= usize::MAX) by {
            assert(result.files.len() == result.files@.len());
        }
        browse::law_preferred_photographs_are_selected(s, preferred);
        lemma_scanning(s, Some(preferred));
    }
}

proof fn lemma_scanning(m: Model, preferred: Option<Seq<u8>>)
    ensures
        m.refreshed(preferred).listing.scanning == m.listing.scanning,
{
    reveal(Model::refreshed);
    reveal(Model::followed);
    reveal(Model::relisted);
    reveal(Model::sifted);
    reveal(Model::renumbered);
    reveal(Model::reselected);
    reveal(Model::strip_shown);
}

/// After a rating, the next photograph is shown if that is wished for, and there is
/// one; otherwise the same.
pub proof fn law_the_next_photograph_comes_after_a_rating<K>(files: Seq<K>, index: usize)
    requires
        index < files.len(),
    ensures
        index + 1 < files.len() ==> browse::destination(files, Some(index), true) == Some(
            files[index + 1],
        ),
        index + 1 == files.len() ==> browse::destination(files, Some(index), true) == Some(
            files[index as int],
        ),
        browse::destination(files, Some(index), false) == Some(files[index as int]),
{
}

/// When the list changes, the selected photograph stays selected if it is listed;
/// otherwise the one that takes its place is, or the last.
pub proof fn law_the_selection_survives<K>(visible: Seq<K>, previous: K, index: usize)
    requires
        visible.len() > 0,
    ensures
        ({
            let out = filter::selection(visible, Some(previous), Some(index));
            &&& out is Some
            &&& 0 <= out->0 < visible.len()
            &&& visible.contains(previous) ==> visible[out->0] == previous
            &&& !visible.contains(previous) && index < visible.len() ==> out->0 == index
            &&& !visible.contains(previous) && index >= visible.len() ==> out->0 == visible.len()
                - 1
        }),
{
    path::lemma_first_position(visible, previous);
}

/// The selected photograph is asked for next, and what was under way for another is
/// given up.
pub proof fn law_the_selected_photograph_is_requested(m: Model, index: usize)
    requires
        m.selection.index == Some(index),
    ensures
        ({
            let n = m.requested();
            &&& n.agenda == m.agenda.push(
                Due::Requested(index, m.listing.files_written[index as int], n.generation),
            )
            &&& n.generation != m.generation
            &&& n.selection == m.selection
            &&& n.listing == m.listing
            &&& n.screen.displayed == m.screen.displayed
            &&& n.screen.pending_upload is None
            &&& promises::quiet(m, n)
        }),
{
    reveal(Model::requested);
}

proof fn lemma_hit(
    u: Model,
    index: usize,
    photo: Seq<u8>,
    written: Seq<u8>,
    generation: u64,
    texture: Texture,
)
    ensures
        ({
            let n = u.hit(index, photo, written, generation, texture);
            let k = u.outbox.len() as int;
            &&& n.outbox.len() >= k + 2
            &&& forall|j: int| 0 <= j < k ==> #[trigger] n.outbox[j] == u.outbox[j]
            &&& n.outbox[k] == Act::Load(index, generation, u.selection.direction, true)
            &&& n.outbox[k + 1] == Act::Image(
                Some((texture, info::upright(u.info, photo, texture.orientation))),
            )
            &&& n.screen.displayed == Some(photo)
            &&& n.screen.displayed_written == Some(written)
            &&& n.selection == u.selection
        }),
{
    reveal(Model::hit);
    reveal(Model::shown);
    reveal(Model::strip_shown);
}

proof fn lemma_missed(u: Model, index: usize, photo: Seq<u8>, generation: u64)
    ensures
        ({
            let n = u.missed(index, photo, generation);
            let k = u.outbox.len() as int;
            &&& n.outbox.len() >= k + 3
            &&& forall|j: int| 0 <= j < k ==> #[trigger] n.outbox[j] == u.outbox[j]
            &&& n.outbox[k + 1] == Act::Load(index, generation, u.selection.direction, false)
            &&& n.outbox[k + 2] == Act::Caption("Loading..."@)
            &&& n.screen.displayed == u.screen.displayed
            &&& n.selection == u.selection
        }),
{
    reveal(Model::missed);
    let kept = display::only(u.screen.displayed) + display::only(
        match u.screen.pinned {
            Some((photo, _)) => Some(photo),
            None => None,
        },
    );
    let v = u.with_screen(
        state::ScreenModel {
            textures: textures::among(u.screen.textures, kept),
            ..u.screen
        },
    ).gpu_told().posted(Act::Load(index, generation, u.selection.direction, false)).posted(
        Act::Caption("Loading..."@),
    );
    assert(u.missed(index, photo, generation) == v.told().armed());
    lemma_told_armed(v);
}

proof fn lemma_told_armed(v: Model)
    ensures
        ({
            let n = v.told().armed();
            &&& n.outbox.len() >= v.outbox.len()
            &&& forall|j: int| 0 <= j < v.outbox.len() ==> #[trigger] n.outbox[j] == v.outbox[j]
            &&& n.screen == v.screen
            &&& n.selection == v.selection
        }),
{
    reveal(Model::armed);
    reveal(Model::started);
    reveal(Model::thumbnails_asked);
    reveal(Model::strip_shown);
}

/// A photograph that is asked for is shown at once if it is on the GPU; otherwise it
/// is decoded, and what is on screen stays. Its metadata are read unless they were.
pub proof fn law_requested_photographs_are_loaded(
    m: Model,
    index: usize,
    written: Seq<u8>,
    generation: u64,
)
    ensures
        ({
            let n = m.request_placed(index, written, generation, false);
            let photo = path::tidy(written);
            let texture = textures::texture_of(m.screen.textures, photo);
            &&& texture is Some ==> {
                &&& n.screen.displayed == Some(photo)
                &&& n.screen.displayed_written == Some(written)
                &&& promises::asks(m, n, Act::Load(index, generation, m.selection.direction, true))
                &&& promises::asks(
                    m,
                    n,
                    Act::Image(
                        Some(
                            (
                                texture->0,
                                match info::info_of(m.info, photo).metadata {
                                    Some(metadata) => metadata.orientation,
                                    None => (texture->0).orientation,
                                },
                            ),
                        ),
                    ),
                )
            }
            &&& texture is None && m.screen.pinned is None ==> {
                &&& n.screen.displayed == m.screen.displayed
                &&& promises::asks(m, n, Act::Load(index, generation, m.selection.direction, false))
                &&& promises::asks(m, n, Act::Caption("Loading..."@))
            }
            &&& !info::info_of(m.info, photo).read ==> promises::asks(
                m,
                n,
                Act::Read(m.session, written),
            )
            &&& n.selection == m.selection
        }),
{
    reveal(Model::request_placed);
    reveal(Model::reference_lent);
    let photo = path::tidy(written);
    let i = m.outbox.len() as int;
    let read = info::info_of(m.info, photo).read;
    let t = if read {
        m
    } else {
        m.posted(Act::Read(m.session, written))
    };
    let u = t.reference_lent(photo);
    let n = m.request_placed(index, written, generation, false);
    let k = u.outbox.len() as int;
    match textures::texture_of(u.screen.textures, photo) {
        Some(texture) => {
            lemma_hit(u, index, photo, written, generation, texture);
            assert(n.outbox[k] == Act::Load(index, generation, m.selection.direction, true));
            assert(n.outbox[k + 1] == Act::Image(
                Some((texture, info::upright(m.info, photo, texture.orientation))),
            ));
        },
        None => {
            lemma_missed(u, index, photo, generation);
            assert(n.outbox[k + 1] == Act::Load(index, generation, m.selection.direction, false));
            assert(n.outbox[k + 2] == Act::Caption("Loading..."@));
        },
    }
    if !read {
        assert(n.outbox[i] == Act::Read(m.session, written));
    }
}

/// The photograph on screen becomes the reference beside which others are shown; asked
/// for again, the reference is dropped, unless it is to be replaced.
pub proof fn law_references_are_set_and_dropped(m: Model, texture: Texture)
    requires
        m.current() is Some,
        m.current() == m.screen.displayed,
        textures::texture_of(m.screen.textures, m.current()->0) == Some(texture),
    ensures
        ({
            let (once, replaced) = (m.pin_changed(false), m.pin_changed(true));
            let photo = m.current()->0;
            &&& m.screen.pinned is None ==> once.screen.pinned == Some((photo, texture))
            &&& m.screen.pinned is Some ==> once.screen.pinned is None && promises::asks(
                m,
                once,
                Act::Reference(None),
            )
            &&& replaced.screen.pinned == Some((photo, texture))
            &&& promises::asks(
                m,
                replaced,
                Act::Reference(
                    Some((texture, info::upright(m.info, photo, texture.orientation))),
                ),
            )
            &&& once.selection == m.selection && replaced.selection == m.selection
            &&& once.screen.displayed == m.screen.displayed && replaced.screen.displayed
                == m.screen.displayed
        }),
{
    reveal(Model::pin_changed);
    reveal(Model::pinned_as);
    reveal(Model::strip_shown);
    let i = m.outbox.len() as int;
    assert(m.pin_changed(true).outbox[i + 1] == Act::Reference(
        Some((texture, info::upright(m.info, m.current()->0, texture.orientation))),
    ));
    if m.screen.pinned is Some {
        assert(m.pin_changed(false).outbox[i + 1] == Act::Reference(None));
    }
}

/// The loader knows which photographs are on the GPU: those with a texture, and the
/// reference, by their places in the list.
pub proof fn law_the_loader_knows_what_is_on_the_gpu(m: Model, i: int)
    requires
        0 <= i < m.listing.files.len() <= usize::MAX,
        forall|a: int, b: int|
            0 <= a < b < m.listing.files.len() ==> #[trigger] m.listing.files[a]
                != #[trigger] m.listing.files[b],
    ensures
        m.gpu_seats().contains(i as usize) <==> textures::owners(m.screen.textures).contains(
            m.listing.files[i],
        ) || m.screen.pinned is Some && (m.screen.pinned->0).0 == m.listing.files[i],
{
    reveal(Model::gpu_seats);
    let owners = textures::owners(m.screen.textures);
    let files = m.listing.files;
    lemma_seats(owners, files, owners.len() as int, i);
    assert(owners.take(owners.len() as int) =~= owners);
    let found = display::seats(owners, files, owners.len() as int);
    if let Some((photo, texture)) = m.screen.pinned {
        path::lemma_first_position(files, photo);
        if let Some(at) = path::first_position(files, photo) {
            if !found.contains(at as usize) {
                let out = found.push(at as usize);
                assert(out[found.len() as int] == at as usize);
                if found.contains(i as usize) {
                    let k = choose|k: int| 0 <= k < found.len() && found[k] == i as usize;
                    assert(out[k] == i as usize);
                }
                if out.contains(i as usize) && at != i {
                    let k = choose|k: int| 0 <= k < out.len() && out[k] == i as usize;
                    assert(found[k] == i as usize);
                }
            }
            if files[i] == photo && at != i {
                if at < i {
                    assert(files[at] != files[i]);
                } else {
                    assert(files[i] != files[at]);
                }
            }
        } else {
            assert(files.contains(files[i]));
        }
    }
}

proof fn lemma_seats(owners: Seq<Seq<u8>>, files: Seq<Seq<u8>>, n: int, i: int)
    requires
        0 <= i < files.len() <= usize::MAX,
        0 <= n <= owners.len(),
        forall|a: int, b: int|
            0 <= a < b < files.len() ==> #[trigger] files[a] != #[trigger] files[b],
    ensures
        display::seats(owners, files, n).contains(i as usize) <==> owners.take(n).contains(files[i]),
    decreases n,
{
    let now = owners.take(n);
    if n > 0 {
        lemma_seats(owners, files, n - 1, i);
        let before = owners.take(n - 1);
        let few = display::seats(owners, files, n - 1);
        let more = display::seats(owners, files, n);
        let photo = owners[n - 1];
        assert(now =~= before.push(photo));
        assert(now[n - 1] == photo);
        if before.contains(files[i]) {
            let k = choose|k: int| 0 <= k < before.len() && before[k] == files[i];
            assert(now[k] == files[i]);
        }
        if now.contains(files[i]) && photo != files[i] {
            let k = choose|k: int| 0 <= k < now.len() && now[k] == files[i];
            assert(before[k] == files[i]);
        }
        path::lemma_first_position(files, photo);
        if let Some(at) = path::first_position(files, photo) {
            assert(more[few.len() as int] == at as usize);
            if few.contains(i as usize) {
                let k = choose|k: int| 0 <= k < few.len() && few[k] == i as usize;
                assert(more[k] == i as usize);
            }
            if more.contains(i as usize) && at != i {
                let k = choose|k: int| 0 <= k < more.len() && more[k] == i as usize;
                assert(few[k] == i as usize);
            }
            if files[i] == photo && at != i {
                if at < i {
                    assert(files[at] != files[i]);
                } else {
                    assert(files[i] != files[at]);
                }
            }
        } else {
            assert(files.contains(files[i]));
        }
    } else {
        assert(display::seats(owners, files, n).len() == 0);
    }
}

/// The filmstrip scrolls by so many cells where there are as many, and shows the cells
/// that follow.
pub proof fn law_the_filmstrip_scrolls(m: Model, steps: int)
    requires
        m.strip.visible,
        !m.quitting,
        !m.trash_busy,
        m.strip.window.valid(),
        m.strip.window == m.synchronized().strip.window,
        m.strip.window.capacity > 0,
    ensures
        ({
            let (a, b) = (m.strip.window, m.strip_scrolled(steps).strip.window);
            &&& b.len == a.len && b.capacity == a.capacity
            &&& 0 <= a.start + steps && a.start + steps + a.capacity <= a.len ==> b.start == a.start
                + steps
            &&& a.start + steps < 0 ==> b.start == 0
            &&& a.start + steps + a.capacity > a.len ==> b.start + a.capacity == a.len
        }),
{
    reveal(Model::strip_scrolled);
    reveal(Model::strip_shown);
    reveal(Model::armed);
    reveal(Model::started);
    reveal(Model::thumbnails_asked);
}

/// What was read of a photograph is known afterwards, unless it was edited meanwhile;
/// no rating means no stars.
pub proof fn law_what_was_read_is_known(
    known: PhotoInfo,
    metadata: ExifMetadata,
    rating: Option<i8>,
)
    ensures
        ({
            let now = known.viewed(Some(metadata), Ok(rating));
            &&& now.read
            &&& now.metadata == Some(metadata)
            &&& known.revision == 0 && rating is Some ==> now.rating == rating && !now.failed
            &&& known.revision == 0 && rating is None ==> now.rating == Some(0i8) && !now.failed
            &&& known.revision != 0 ==> now.rating == known.rating
            &&& now.revision == known.revision && now.saved_revision == known.saved_revision
        }),
        known.revision == 0 ==> known.viewed(None, Err(())).failed && known.viewed(
            None,
            Err(()),
        ).rating is None,
        known.viewed(None, Err(())).metadata == known.metadata,
{
}

/// An edit is unsaved until a report says that it was saved; a report on an earlier
/// one does not say so.
pub proof fn law_edits_are_unsaved_until_they_are_saved(
    known: PhotoInfo,
    stars: i8,
    revision: u64,
    other: u64,
)
    requires
        revision != known.saved_revision,
        other != revision,
    ensures
        ({
            let edited = known.edited(Some(stars), revision);
            &&& edited.rating == Some(stars)
            &&& edited.dirty()
            &&& edited.saved(other, None, true, false) == edited
            &&& !edited.saved(revision, None, true, false).dirty()
            &&& edited.saved(revision, None, true, false).rating == Some(stars)
            &&& edited.saved(revision, None, false, true).failed
            &&& edited.saved(revision, None, false, true).dirty()
        }),
{
}

/// The program goes on where it was left, unless something was opened or changed since.
pub proof fn law_sessions_are_taken_up(
    m: Model,
    was: crate::app::session::Session,
    at: Seq<u8>,
)
    requires
        !m.quitting,
        !m.trash_busy,
    ensures
        ({
            let n = m.session_restored(was, Some(at));
            &&& m.settings.restore_allowed ==> promises::asks(m, n, Act::Scan(at, n.folder_epoch))
            &&& !m.settings.restore_allowed ==> n.listing == m.listing && n.folder_epoch
                == m.folder_epoch
            &&& !n.settings.restore_allowed
            &&& !m.settings.zoom_changed ==> n.settings.zoom_locked == was.zoom_locked
            &&& m.settings.zoom_changed ==> n.settings.zoom_locked == m.settings.zoom_locked
            &&& !m.settings.auto_changed ==> n.settings.auto_advance == was.auto_advance
            &&& m.settings.auto_changed ==> n.settings.auto_advance == m.settings.auto_advance
            &&& !m.settings.brightness_changed ==> n.settings.brightness_steps
                == was.brightness_steps
            &&& m.settings.brightness_changed ==> n.settings.brightness_steps
                == m.settings.brightness_steps
        }),
{
    let s = m.settings_restored(was);
    lemma_settings(m, was);
    reveal(Model::resumed);
    let t = s.with_settings(state::Settings { restore_allowed: false, ..s.settings });
    let n = m.session_restored(was, Some(at));
    if m.settings.restore_allowed {
        law_opened_folders_are_listed(t, at, at);
        let o = t.opened(at);
        lemma_opened_settings(t, at);
        promises::lemma_told(o);
        let i = choose|i: int|
            t.outbox.len() <= i < o.outbox.len() && #[trigger] o.outbox[i] == Act::Scan(
                at,
                o.folder_epoch,
            );
        assert(n == o.told());
        assert(n.outbox[i] == Act::Scan(at, n.folder_epoch));
    } else {
        promises::lemma_told(s);
    }
}

proof fn lemma_settings(m: Model, was: crate::app::session::Session)
    ensures
        ({
            let n = m.settings_restored(was);
            &&& n.outbox.len() >= m.outbox.len()
            &&& n == (Model { settings: n.settings, outbox: n.outbox, ..m })
            &&& n.settings.restore_allowed == m.settings.restore_allowed
            &&& n.settings.zoom_locked == if m.settings.zoom_changed {
                m.settings.zoom_locked
            } else {
                was.zoom_locked
            }
            &&& n.settings.auto_advance == if m.settings.auto_changed {
                m.settings.auto_advance
            } else {
                was.auto_advance
            }
            &&& n.settings.brightness_steps == if m.settings.brightness_changed {
                m.settings.brightness_steps
            } else {
                was.brightness_steps
            }
        }),
{
    reveal(Model::zoom_restored);
    reveal(Model::advance_restored);
    reveal(Model::brightness_restored);
}

proof fn lemma_opened_settings(m: Model, at: Seq<u8>)
    ensures
        m.opened(at).settings.zoom_locked == m.settings.zoom_locked,
        m.opened(at).settings.auto_advance == m.settings.auto_advance,
        m.opened(at).settings.brightness_steps == m.settings.brightness_steps,
        !m.quitting && !m.trash_busy ==> !m.opened(at).settings.restore_allowed,
{
    reveal(Model::opened);
    reveal(Model::strip_shown);
}

/// The program is left only once everything is saved, or the user says so: first the
/// ratings and the session are saved, and if a rating could not be, the user is asked.
pub proof fn law_ratings_are_saved_before_leaving(m: Model, failures: usize)
    requires
        !m.quitting,
        !m.trash_busy,
    ensures
        ({
            let n = m.leaving();
            &&& n.quitting
            &&& promises::asks(m, n, Act::Flush)
            &&& promises::asks(m, n, Act::FlushSession)
            &&& !promises::asks(m, n, Act::Exit)
            &&& n.flushed(0) == n.posted(Act::Exit)
            &&& failures > 0 ==> n.flushed(failures) == n.posted(Act::AskRetry(failures))
            &&& m.flushed(failures) == m
        }),
{
    reveal(Model::leaving);
    reveal(Model::strip_shown);
    let n = m.leaving();
    let i = m.outbox.len() as int;
    assert(n.outbox[i + 2] == Act::FlushSession);
    assert(n.outbox[i + 3] == Act::Flush);
}

/// A photograph that was decoded for the screen is uploaded, upright, if it is still
/// the one that was asked for.
pub proof fn law_decoded_photographs_are_uploaded(
    m: Model,
    photo: Seq<u8>,
    generation: u64,
    hit: bool,
    prefetched: bool,
    picture: state::Picture,
)
    requires
        picture.needed is None || m.screen.pinned is None,
    ensures
        ({
            let n = m.picture_found(photo, generation, hit, prefetched, Some(picture));
            &&& promises::asks(
                m,
                n,
                Act::Upload(
                    crate::app::upload::Load {
                        session: m.session,
                        generation,
                        key: photo,
                        image: picture.image,
                        orientation: match info::info_of(m.info, photo).metadata {
                            Some(metadata) => metadata.orientation,
                            None => 1,
                        },
                    },
                ),
            )
            &&& n.screen.pending_upload == Some(generation)
            &&& n.screen.displayed == m.screen.displayed
            &&& m.picture_found(photo, generation, hit, prefetched, None) == m
        }),
{
    reveal(Model::picture_found);
    let n = m.picture_found(photo, generation, hit, prefetched, Some(picture));
    assert(n.outbox[m.outbox.len() as int] is Upload);
}

/// The folder of rejected photographs is the one of that name in the folder at hand.
pub proof fn law_rejected_photographs_are_opened(m: Model, folder: Seq<u8>)
    requires
        m.listing.folder == Some(folder),
        !deleted::rejected(folder),
        folder.len() > 0,
        folder.last() != '/' as u8,
    ensures
        m.rejected_opened() == m.opened(
            folder + seq!['/' as u8] + vstd::utf8::encode_utf8("_Rejected"@),
        ),
{
    reveal(Model::rejected_opened);
    deleted::lemma_rejected_name();
}

/// A photograph that was read is known, and turned upright if it is on screen; a
/// report for another list changes nothing.
pub proof fn law_read_photographs_are_turned(
    m: Model,
    session: u64,
    photo: Seq<u8>,
    metadata: ExifMetadata,
    rating: Option<i8>,
)
    ensures
        ({
            let n = m.photo_read(session, photo, Some(metadata), Ok(rating));
            &&& session != m.session ==> n == m
            &&& session == m.session ==> {
                &&& info::info_of(n.info, photo).metadata == Some(metadata)
                &&& info::info_of(n.info, photo).read
                &&& m.screen.displayed == Some(photo) ==> promises::asks(
                    m,
                    n,
                    Act::Orientation(metadata.orientation),
                )
                &&& promises::quiet(m, n)
                &&& forall|other: Seq<u8>|
                    other != photo ==> info::info_of(n.info, other) == #[trigger] info::info_of(
                        m.info,
                        other,
                    )
            }
        }),
{
    reveal(Model::photo_read);
    reveal(Model::turned);
    if session == m.session {
        let s = Model {
            info: m.info.insert(
                photo,
                info::info_of(m.info, photo).viewed(Some(metadata), Ok(rating)),
            ),
            ..m
        };
        let t = s.turned(photo);
        lemma_rerated(t);
        let n = t.rerated();
        if m.screen.displayed == Some(photo) {
            assert(t.outbox[m.outbox.len() as int] == Act::Orientation(metadata.orientation));
            assert(n.outbox[m.outbox.len() as int] == Act::Orientation(metadata.orientation));
        }
    }
}

proof fn lemma_rerated(m: Model)
    ensures
        promises::quiet(m, m.rerated()),
        m.rerated().info == m.info,
{
    reveal(Model::rerated);
    let s = m.with_listing(state::ListingModel { stale: true, ..m.listing });
    promises::lemma_refreshed(m, m.current());
    promises::lemma_message(s, s.notice);
}

proof fn lemma_among<K>(s: Seq<(K, Texture)>, list: Seq<K>, i: int)
    requires
        0 <= i < textures::among(s, list).len(),
    ensures
        list.contains(textures::among(s, list)[i].0),
    decreases s.len(),
{
    if s.len() > 0 {
        let rest = textures::among(s.drop_last(), list);
        if i < rest.len() {
            lemma_among(s.drop_last(), list, i);
        }
    }
}

/// The next photograph is uploaded ahead, upright, beside the one on screen. Where
/// memory is short, spare textures go first, but never that of the photograph on
/// screen; beside a reference it is then left alone.
pub proof fn law_the_next_photograph_is_uploaded_ahead(
    m: Model,
    photo: Seq<u8>,
    picture: state::Picture,
    needed: usize,
    available: usize,
)
    ensures
        ({
            let load = Act::Upload(
                crate::app::upload::Load {
                    session: m.session,
                    generation: m.generation,
                    key: photo,
                    image: picture.image,
                    orientation: match info::info_of(m.info, photo).metadata {
                        Some(metadata) => metadata.orientation,
                        None => 1,
                    },
                },
            );
            let free = m.ahead_room(photo, picture, needed, available);
            let beside = m.ahead_beside(photo, picture, needed, available);
            &&& m.screen.pinned is None ==> {
                &&& promises::asks(m, free, load)
                &&& free.screen.pending_prefetch == Some((m.generation, photo))
            }
            &&& free.screen.displayed == m.screen.displayed
            &&& available >= needed ==> free.screen.textures == m.screen.textures
            &&& available < needed ==> forall|i: int|
                0 <= i < free.screen.textures.len() ==> m.screen.displayed == Some(
                    (#[trigger] free.screen.textures[i]).0,
                )
            &&& available >= needed ==> {
                &&& promises::asks(m, beside, load)
                &&& beside.screen.pending_prefetch == Some((m.generation, photo))
            }
            &&& available < needed ==> beside.screen == m.screen && beside.outbox == m.outbox.push(
                Act::ResumePrefetch,
            )
            &&& beside.screen.textures == m.screen.textures
        }),
{
    reveal(Model::ahead_room);
    let free = m.ahead_room(photo, picture, needed, available);
    let beside = m.ahead_beside(photo, picture, needed, available);
    if available < needed {
        let list = display::only(m.screen.displayed);
        assert(free.screen.textures == textures::among(m.screen.textures, list));
        assert forall|i: int| 0 <= i < free.screen.textures.len() implies m.screen.displayed
            == Some((#[trigger] free.screen.textures[i]).0) by {
            lemma_among(m.screen.textures, list, i);
        }
    }
    if m.screen.pinned is None {
        assert(free.outbox[free.outbox.len() - 1] is Upload);
    }
    if available >= needed {
        assert(beside.outbox[m.outbox.len() as int] is Upload);
    }
}

} // verus!
