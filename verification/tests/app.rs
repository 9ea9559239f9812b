use fastcull::app::agenda::{Answer, Question};
use fastcull::app::browse::rating_destination;
use fastcull::app::control::Choice;
use fastcull::app::deleted::{FileId, MoveRecord};
use fastcull::app::io::IoEvent;
use fastcull::app::menu::{menu_items, menu_names, AppMenu, Command, Item};
use fastcull::app::saving::SaveReport;
use fastcull::app::scan::ScanResult;
use fastcull::app::session::{SessionEvent, SessionState};
use fastcull::app::shortcuts::KeyAction;
use fastcull::app::drills::{
    brightness_end, brightness_keys, check_ignored, check_zoom, mark_zoom, zoom_keys, Calm,
    Exercise, Held, Still,
};
use fastcull::app::smoke::{
    check_click, complain, edge_scrolls, last_cell, other_cell, script, turn, Check, Gate, Look,
    Play, Smoke, LAST_STEP,
};
use fastcull::app::state::{Action, App, Picture};
use fastcull::app::status::Optics;
use fastcull::app::textures::{Shelf, Texture};
use fastcull::app::upload::Finished;
use fastcull::browser::filter::{choose_selection, PhotoFilter};
use fastcull::image::loader::{LoadTimings, LoaderEvent};
use fastcull::path::PhotoPath;

fn path(name: &str) -> PhotoPath {
    PhotoPath::from_text(name)
}

fn texture(id: u64) -> Texture {
    Texture {
        id,
        orientation: 1,
        original_width: 8,
        original_height: 8,
        byte_size: 256,
    }
}

/// A program whose questions are answered, and whose actions are kept.
struct Rig {
    app: App,
    done: Vec<Action>,
    /// Images that are decoded, by their places.
    decoded: Vec<usize>,
    available: usize,
}

impl Rig {
    fn new() -> Self {
        Rig {
            app: App::new(1 << 30, true, false),
            done: Vec::new(),
            decoded: Vec::new(),
            available: 1 << 29,
        }
    }
    fn settle(&mut self) {
        for _ in 0..10_000 {
            self.done.extend(self.app.take_actions());
            let answer = match self.app.question() {
                None => return,
                Some(Question::Ready) => Answer::Ready,
                Some(Question::Retarget { .. }) => Answer::Retargeted(false),
                Some(Question::Cached(index)) => Answer::Cached(if self.decoded.contains(&index) {
                    Some(Picture { image: index as u64, width: 8, height: 8, needed: Some(256) })
                } else {
                    None
                }),
                Some(Question::Available) => Answer::Available(self.available),
            };
            self.app.step(answer);
        }
        panic!("the agenda does not end");
    }
    fn take(&mut self) -> Vec<Action> {
        self.settle();
        std::mem::take(&mut self.done)
    }
    fn open(names: &[&str]) -> Self {
        let mut rig = Rig::new();
        rig.app.open(path("/p"));
        let epoch = rig.app.folder_epoch;
        rig.app.scanned(ScanResult {
            session: epoch,
            folder: path("/p"),
            files: names.iter().map(|name| path(name)).collect(),
            requested: None,
            complete: true,
            elapsed: 3,
        });
        rig.take();
        rig
    }
    fn shown(&self) -> Option<String> {
        self.app.screen.displayed.as_ref().map(|path| path.display())
    }
    fn current(&self) -> Option<String> {
        self.app.current().map(|path| path.display())
    }
    /// The selected photograph is decoded, uploaded and drawn.
    fn display(&mut self) {
        let index = self.app.navigator.index().unwrap();
        let (session, generation) = (self.app.session, self.app.generation);
        self.decoded.push(index);
        self.app.loaded(LoaderEvent::Ready {
            session,
            index,
            generation,
            timings: LoadTimings::default(),
            prefetched: false,
        });
        self.settle();
        let photo = self.app.current().unwrap();
        self.app.uploaded(Finished {
            session,
            generation,
            path: photo,
            result: Ok(texture(1000 + index as u64)),
        });
        self.settle();
        self.app.rendered();
        self.settle();
    }
}

const THREE: [&str; 3] = ["/p/1.ARW", "/p/2.ARW", "/p/3.ARW"];

#[test]
fn auto_advance_selects_once_before_filter_removal_and_stops_at_end() {
    let files = vec![path("1.ARW"), path("2.ARW"), path("3.ARW")];
    let destination = rating_destination(&files, Some(0), true);
    let remaining = vec![path("2.ARW"), path("3.ARW")];
    assert_eq!(
        choose_selection(&remaining, destination.as_ref(), Some(0)),
        Some(0)
    );
    let shown = |photo: Option<PhotoPath>| photo.map(|photo| photo.display());
    assert_eq!(
        shown(rating_destination(&files, Some(2), true)),
        Some("3.ARW".into())
    );
    assert_eq!(
        shown(rating_destination(&files, Some(1), false)),
        Some("2.ARW".into())
    );
    assert_eq!(
        shown(rating_destination(&Vec::<PhotoPath>::new(), None, true)),
        None
    );
}

#[test]
fn opening_a_folder_lists_it_and_asks_for_the_first_photograph() {
    let mut rig = Rig::new();
    rig.app.open(path("/p"));
    let actions = rig.take();
    assert!(actions
        .iter()
        .any(|action| matches!(action, Action::Scan { epoch, .. } if *epoch == rig.app.folder_epoch)));
    let rig = Rig::open(&THREE);
    assert_eq!(rig.current(), Some("/p/1.ARW".into()));
    assert!(!rig.app.listing.scanning);
    assert_eq!(rig.app.listing.files.len(), 3);
}

#[test]
fn a_listing_of_an_older_folder_is_ignored() {
    let mut rig = Rig::open(&THREE);
    let epoch = rig.app.folder_epoch;
    rig.app.open(path("/q"));
    rig.app.scanned(ScanResult {
        session: epoch,
        folder: path("/p"),
        files: vec![path("/p/9.ARW")],
        requested: None,
        complete: true,
        elapsed: 1,
    });
    rig.settle();
    assert!(rig.app.listing.files.is_empty());
    assert!(rig.app.listing.scanning);
}

#[test]
fn a_photograph_is_shown_once_it_is_uploaded() {
    let mut rig = Rig::open(&THREE);
    assert_eq!(rig.shown(), None);
    rig.display();
    assert_eq!(rig.shown(), Some("/p/1.ARW".into()));
    let actions = std::mem::take(&mut rig.done);
    assert!(actions.iter().any(
        |action| matches!(action, Action::Image(Some((shown, _))) if shown.id == 1000)
    ));
    assert!(actions
        .iter()
        .any(|action| matches!(action, Action::ResumePrefetch)));
}

#[test]
fn late_reports_of_other_requests_change_nothing() {
    let mut rig = Rig::open(&THREE);
    let (session, generation) = (rig.app.session, rig.app.generation);
    rig.app.navigate(1);
    rig.take();
    rig.app.loaded(LoaderEvent::Failed {
        session,
        index: 0,
        generation,
        error: "late".to_string(),
    });
    let actions = rig.take();
    assert!(!actions
        .iter()
        .any(|action| matches!(action, Action::Caption(_))));
    assert_eq!(rig.current(), Some("/p/2.ARW".into()));
}

#[test]
fn navigation_stays_inside_the_folder() {
    let mut rig = Rig::open(&THREE);
    rig.app.navigate(-1);
    assert_eq!(rig.current(), Some("/p/1.ARW".into()));
    rig.app.navigate(100);
    rig.settle();
    assert_eq!(rig.current(), Some("/p/3.ARW".into()));
    rig.app.pick(1);
    rig.settle();
    assert_eq!(rig.current(), Some("/p/2.ARW".into()));
    rig.app.pick(7);
    rig.settle();
    assert_eq!(rig.current(), Some("/p/2.ARW".into()));
}

#[test]
fn only_photographs_on_screen_are_rated() {
    let mut rig = Rig::open(&THREE);
    rig.app.key(KeyAction::Rate(4));
    assert!(!rig
        .take()
        .iter()
        .any(|action| matches!(action, Action::Save { .. })));
    rig.display();
    rig.app.key(KeyAction::Rate(4));
    let actions = rig.take();
    let saved = actions.iter().find_map(|action| match action {
        Action::Save { photo, rating, edit, revision, .. } => {
            Some((photo.display(), *rating, *edit, *revision))
        }
        _ => None,
    });
    let (photo, rating, edit, revision) = saved.unwrap();
    assert_eq!((photo.as_str(), rating), ("/p/1.ARW", 4));
    assert_eq!(rig.app.ledger.history.len(), 1);
    rig.app.rating_saved(&SaveReport {
        photo: path("/p/1.ARW"),
        revision,
        edit,
        undo: None,
        unsaved: false,
        well: true,
    });
    rig.settle();
    rig.app.command(Command::UndoRating);
    assert!(rig
        .take()
        .iter()
        .any(|action| matches!(action, Action::Undo { edit: asked, .. } if *asked == edit)));
}

#[test]
fn ratings_advance_when_asked_to() {
    let mut rig = Rig::open(&THREE);
    rig.app.command(Command::AutoAdvance);
    rig.display();
    rig.app.key(KeyAction::Rate(2));
    rig.settle();
    assert_eq!(rig.current(), Some("/p/2.ARW".into()));
}

#[test]
fn filters_show_rated_photographs_only() {
    let mut rig = Rig::open(&THREE);
    rig.app.set_filter(PhotoFilter::Rated);
    assert!(rig
        .take()
        .iter()
        .any(|action| matches!(action, Action::ScanRatings(_))));
    assert!(rig.app.listing.files.is_empty());
    let epoch = rig.app.folder_epoch;
    rig.app.ratings_read(
        epoch,
        &vec![
            (path("/p/1.ARW"), Ok(0)),
            (path("/p/2.ARW"), Ok(5)),
            (path("/p/3.ARW"), Err("broken".to_string())),
        ],
        true,
    );
    rig.settle();
    assert_eq!(rig.app.listing.files.len(), 1);
    assert_eq!(rig.current(), Some("/p/2.ARW".into()));
    rig.app.set_filter(PhotoFilter::All);
    rig.settle();
    assert_eq!(rig.app.listing.files.len(), 3);
    assert_eq!(rig.current(), Some("/p/2.ARW".into()));
}

#[test]
fn a_moved_photograph_leaves_the_list_and_can_come_back() {
    let mut rig = Rig::open(&THREE);
    rig.display();
    rig.app.key(KeyAction::MoveCurrent);
    let actions = rig.take();
    let (session, id) = actions
        .iter()
        .find_map(|action| match action {
            Action::Move { session, id, photos } => {
                assert_eq!(photos.len(), 1);
                Some((*session, *id))
            }
            _ => None,
        })
        .unwrap();
    // Nothing else may change meanwhile.
    rig.app.key(KeyAction::Next);
    rig.settle();
    let record = MoveRecord {
        source: path("/p/1.ARW"),
        destination: path("/p/_Rejected/1.ARW"),
        sidecar: None,
        identity: FileId { device: 1, inode: 1 },
    };
    rig.app.moved_deleted(session, id, vec![record], &vec![]);
    rig.settle();
    assert_eq!(rig.app.listing.files.len(), 2);
    assert_eq!(rig.current(), Some("/p/2.ARW".into()));
    rig.take();
    rig.app.command(Command::UndoRating);
    let actions = rig.take();
    let (session, id, records) = actions
        .into_iter()
        .find_map(|action| match action {
            Action::Restore { session, id, records } => Some((session, id, records)),
            _ => None,
        })
        .unwrap();
    rig.app
        .restored_deleted(session, id, &records, &vec![], Vec::new(), &vec![]);
    rig.settle();
    assert_eq!(rig.app.listing.files.len(), 3);
}

#[test]
fn the_strip_scrolls_without_another_photograph() {
    let names: Vec<String> = (0..40).map(|n| format!("/p/{n}.ARW")).collect();
    let mut rig = Rig::open(&names.iter().map(|name| name.as_str()).collect::<Vec<_>>());
    rig.app.resize(10);
    rig.app.toggle_filmstrip();
    rig.settle();
    assert!(rig.app.strip.visible);
    let before = rig.app.cells();
    assert_eq!(before.len(), 10);
    assert!(before[0].selected);
    rig.app.scroll_strip(5);
    rig.settle();
    let after = rig.app.cells();
    assert_eq!(after[0].index, 5);
    assert_eq!(rig.current(), Some("/p/0.ARW".into()));
    rig.app.key(KeyAction::Run(Command::Filmstrip));
    rig.settle();
    assert!(!rig.app.strip.visible);
}

#[test]
fn brightness_stays_within_three_stops() {
    let mut rig = Rig::open(&THREE);
    for _ in 0..40 {
        rig.app.command(Command::Brighten);
    }
    rig.settle();
    assert_eq!(rig.app.settings.brightness_steps, 9);
    rig.app.command(Command::ResetBrightness);
    rig.settle();
    assert_eq!(rig.app.settings.brightness_steps, 0);
    rig.app.set_brightness(-100);
    assert_eq!(rig.app.settings.brightness_steps, -9);
}

#[test]
fn choices_win_over_the_last_session() {
    let mut rig = Rig::new();
    rig.app.command(Command::AutoAdvance);
    let chosen = rig.app.settings.auto_advance;
    let was = SessionState {
        zoom_locked: false,
        auto_advance: !chosen,
        brightness_steps: 3,
        ..SessionState::default()
    };
    rig.app.session_loaded(&was, Some(path("/p/1.ARW")));
    let actions = rig.take();
    assert_eq!(rig.app.settings.auto_advance, chosen);
    assert_eq!(rig.app.settings.brightness_steps, 3);
    assert!(!rig.app.settings.zoom_locked);
    assert!(actions
        .iter()
        .any(|action| matches!(action, Action::Scan { .. })));
}

#[test]
fn leaving_waits_for_ratings() {
    let mut rig = Rig::open(&THREE);
    rig.app.command(Command::Quit);
    let actions = rig.take();
    assert!(actions.iter().any(|action| matches!(action, Action::Flush)));
    assert!(!actions.iter().any(|action| matches!(action, Action::Exit)));
    rig.app.ratings_flushed(2);
    assert!(rig
        .take()
        .iter()
        .any(|action| matches!(action, Action::AskRetry(2))));
    rig.app.retry_chosen(Choice::Retry);
    assert!(rig
        .take()
        .iter()
        .any(|action| matches!(action, Action::RetryFailed)));
    rig.app.ratings_flushed(0);
    assert!(rig
        .take()
        .iter()
        .any(|action| matches!(action, Action::Exit)));
}

#[test]
fn the_status_line_names_the_photograph() {
    let mut rig = Rig::open(&THREE);
    rig.display();
    let optics = Optics { exposure: None, aperture: None, focal: None };
    let line = rig.app.status_text(&optics);
    assert!(line.contains("1.ARW"), "{line}");
    assert!(rig.app.title().contains("1.ARW"));
    let workflow = rig.app.workflow();
    assert!(workflow.can_pin && !workflow.pinned);
    rig.app.pin_current(false);
    rig.settle();
    assert!(rig.app.workflow().pinned);
    rig.app.clear_pin();
    assert!(!rig.app.workflow().pinned);
}

#[test]
fn menus_run_each_command_once() {
    let mut menu = AppMenu::new();
    let mut id = 0;
    for name in menu_names() {
        for item in menu_items(name) {
            menu.register(id, &item);
            if let Item::Plain { command, .. } | Item::Check { command, .. } = item {
                assert_eq!(menu.command(id), Some(command));
            } else {
                assert_eq!(menu.command(id), None);
            }
            id += 1;
        }
    }
    assert_eq!(menu.command(id), None);
    let chosen = menu.set_filter(PhotoFilter::Rejected);
    assert_eq!(chosen.iter().filter(|checked| **checked).count(), 1);
    let workflow = App::new(1 << 30, false, false).workflow();
    assert!(menu.set_workflow(workflow).is_some());
    assert!(menu.set_workflow(workflow).is_none());
}

#[test]
fn the_rehearsal_goes_through_its_script() {
    for step in 0..=LAST_STEP {
        assert!(script(step).len() < 40, "{step}");
    }
    assert!(!complain(Check::StripOff).is_empty());
    assert!(edge_scrolls(0) < 10_000);
    let mut smoke = Smoke::new(0);
    let rig = Rig::open(&THREE);
    assert_eq!(smoke.gate(&rig.app, 90_001, 0, (0, 0)), Gate::TimedOut);
    smoke.advance(10);
    assert_eq!(smoke.step, 1);
    let look = Look {
        strip_visible: false,
        over_strip: false,
        peeking: false,
        actual_size: false,
        same_view: true,
        same_brightness: true,
    };
    assert!(smoke.check(Check::StripOff, &rig.app, look, (0, 0)).is_ok());
    assert!(smoke.check(Check::StripOn, &rig.app, look, (0, 0)).is_err());
}

#[test]
fn reports_of_the_workers_reach_what_they_are_about() {
    let mut rig = Rig::open(&THREE);
    rig.app.set_filter(PhotoFilter::Rated);
    rig.take();
    let (session, epoch) = (rig.app.session, rig.app.folder_epoch);
    // Ratings of another folder, and metadata for another list.
    rig.app.io_event(IoEvent::Ratings {
        folder_epoch: epoch.wrapping_add(1),
        entries: vec![(path("/p/1.ARW"), Ok(5))],
        complete: true,
    });
    rig.app.io_event(IoEvent::Metadata {
        session: session.wrapping_add(1),
        path: path("/p/1.ARW"),
        metadata: Err("gone".into()),
        rating: Ok(Some(4)),
    });
    assert!(rig.take().is_empty());
    assert!(rig
        .app
        .info
        .get(&path("/p/1.ARW"))
        .map_or(true, |info| info.rating != Some(5) && info.rating != Some(4)));
    rig.app.io_event(IoEvent::Ratings {
        folder_epoch: epoch,
        entries: vec![(path("/p/1.ARW"), Ok(5)), (path("/p/2.ARW"), Err("bad".into()))],
        complete: false,
    });
    rig.settle();
    assert_eq!(rig.app.info.get(&path("/p/1.ARW")).unwrap().rating, Some(5));
    assert_eq!(rig.app.listing.ratings_read, 2);
    assert_eq!(rig.app.listing.rating_errors, 1);
    let session = rig.app.session;
    rig.app.io_event(IoEvent::Metadata {
        session,
        path: path("/p/2.ARW"),
        metadata: Err("unreadable".into()),
        rating: Ok(Some(3)),
    });
    rig.settle();
    let info = rig.app.info.get(&path("/p/2.ARW")).unwrap();
    assert_eq!(info.rating, Some(3));
    assert!(info.metadata.is_none());
    rig.take();
    rig.app.command(Command::Quit);
    rig.take();
    rig.app.io_event(IoEvent::Flushed { failures: 0 });
    assert!(rig
        .take()
        .iter()
        .any(|action| matches!(action, Action::Exit)));
}

#[test]
fn a_photograph_that_cannot_come_back_is_named() {
    let mut rig = Rig::open(&THREE);
    rig.display();
    rig.app.key(KeyAction::MoveCurrent);
    let (session, id) = rig
        .take()
        .iter()
        .find_map(|action| match action {
            Action::Move { session, id, .. } => Some((*session, *id)),
            _ => None,
        })
        .unwrap();
    rig.app.io_event(IoEvent::MovedDeleted {
        session,
        op_id: id,
        records: vec![MoveRecord {
            source: path("/p/1.ARW"),
            destination: path("/p/_Rejected/1.ARW"),
            sidecar: None,
            identity: FileId { device: 1, inode: 1 },
        }],
        errors: Vec::new(),
    });
    rig.take();
    assert_eq!(rig.app.listing.files.len(), 2);
    rig.app.command(Command::UndoRating);
    let (session, id, records) = rig
        .take()
        .into_iter()
        .find_map(|action| match action {
            Action::Restore { session, id, records } => Some((session, id, records)),
            _ => None,
        })
        .unwrap();
    rig.app.io_event(IoEvent::RestoredDeleted {
        session,
        op_id: id,
        restored: Vec::new(),
        ratings: Vec::new(),
        failed: records.into_iter().map(|record| (record, "busy".to_string())).collect(),
    });
    let alert = rig
        .take()
        .into_iter()
        .find_map(|action| match action {
            Action::Alert { text, .. } => Some(text),
            _ => None,
        })
        .unwrap();
    assert!(alert.contains("busy"));
    assert_eq!(rig.app.listing.files.len(), 2);
    // It can be tried again.
    rig.app.command(Command::UndoRating);
    assert!(rig
        .take()
        .iter()
        .any(|action| matches!(action, Action::Restore { .. })));
}

#[test]
fn the_last_session_is_taken_up_or_left_alone() {
    let mut rig = Rig::new();
    rig.app.session_event(SessionEvent::Loaded {
        state: Err("unreadable".into()),
        resume_path: Some(path("/p/1.ARW")),
    });
    assert!(rig.take().is_empty());
    rig.app.session_event(SessionEvent::Loaded {
        state: Ok(SessionState { brightness_steps: -2, ..SessionState::default() }),
        resume_path: Some(path("/p/1.ARW")),
    });
    assert!(rig
        .take()
        .iter()
        .any(|action| matches!(action, Action::Scan { .. })));
    assert_eq!(rig.app.settings.brightness_steps, -2);
    rig.app.session_event(SessionEvent::Saved(Ok(())));
    assert!(rig.take().is_empty());
    rig.app.session_event(SessionEvent::Saved(Err("disk full".into())));
    rig.take();
    assert_eq!(rig.app.notice, "Could not save last-viewed position (see log)");
}

#[test]
fn the_rehearsal_presses_keys_that_disturb_nothing() {
    let mut rig = Rig::open(&THREE);
    assert_eq!(
        Still::new(&rig.app).unwrap_err(),
        "no displayed GPU texture for zoom shortcut check"
    );
    rig.display();
    let still = Still::new(&rig.app).unwrap();
    let keys: Vec<_> = zoom_keys().iter().map(|k| (k.key, k.held, k.scale)).collect();
    assert_eq!(
        keys,
        [("S", false, 12500), ("s", true, 15625), ("D", false, 12500), ("d", true, 10000)]
    );
    assert_eq!(still.check(&rig.app, true), Ok(()));
    assert_eq!(
        still.check(&rig.app, false),
        Err("S/D press or repeat did not apply incremental zoom".to_string())
    );
    let calm = Calm::new(&rig.app);
    for key in brightness_keys() {
        for _ in 0..key.count {
            rig.app.command(match key.key {
                "]" => Command::Brighten,
                "[" => Command::Darken,
                _ => Command::ResetBrightness,
            });
        }
        rig.settle();
        assert_eq!(calm.check(&rig.app, key.steps, true), Ok(()), "{}", key.name);
        assert!(calm.check(&rig.app, key.steps, false).is_err());
        assert!(calm.check(&rig.app, 5, true).is_err());
    }
    assert_eq!(
        check_ignored(&rig.app),
        Err("modified brightness key was not ignored".to_string())
    );
    rig.app.command(Command::ResetBrightness);
    assert_eq!(check_ignored(&rig.app), Ok(()));
    rig.app.navigate(1);
    rig.settle();
    assert_eq!(
        still.check(&rig.app, true),
        Err("S/D changed main selection, loading, or GPU texture".to_string())
    );
    assert_eq!(
        calm.check(&rig.app, 0, true),
        Err("brightness changed selection, load requests, ratings or cached textures".to_string())
    );
}

#[test]
fn the_rehearsal_clicks_on_visible_cells() {
    let names: Vec<String> = (0..40).map(|n| format!("/p/{n}.ARW")).collect();
    let mut rig = Rig::open(&names.iter().map(|name| name.as_str()).collect::<Vec<_>>());
    assert_eq!(last_cell(&rig.app), Err("no visible thumbnail to click".to_string()));
    assert_eq!(other_cell(&rig.app), Err("could not hit a filmstrip cell".to_string()));
    rig.app.resize(10);
    rig.app.toggle_filmstrip();
    rig.settle();
    assert_eq!(turn(&rig.app), 1);
    assert_eq!(other_cell(&rig.app), Ok(1));
    assert_eq!(last_cell(&rig.app), Ok(9));
    let mut smoke = Smoke::new(0);
    assert!(smoke.inside_script().is_empty());
    smoke.mark_cells(&rig.app);
    smoke.mark_main(&rig.app);
    smoke.mark_idle((3, 3));
    smoke.look_again(100);
    assert_eq!((smoke.next, smoke.idle, smoke.cells), (116, Some((3, 3)), Some((0, 10))));
    assert_eq!(smoke.inside_script().len(), 6);
    assert_eq!(smoke.inside_script()[2], Play::Check(Check::InsideKept));
    rig.app.pick(9);
    rig.settle();
    assert_eq!(check_click(&rig.app, 9, true), Ok(()));
    assert_eq!(
        check_click(&rig.app, 8, false),
        Err("filmstrip click did not select the hit photo".to_string())
    );
    let look = Look {
        strip_visible: true,
        over_strip: true,
        peeking: false,
        actual_size: false,
        same_view: true,
        same_brightness: true,
    };
    assert!(smoke.check(Check::CellsKept, &rig.app, look, (0, 0)).is_ok());
    assert!(smoke.check(Check::MainUnchanged, &rig.app, look, (0, 0)).is_err());
    smoke.mark_cells(&rig.app);
    rig.app.navigate(1);
    rig.settle();
    assert!(smoke.check(Check::RevealedOneCell, &rig.app, look, (0, 0)).is_ok());
    rig.app.pick(39);
    rig.settle();
    assert_eq!(turn(&rig.app), -1);
    smoke.mark_cells(&rig.app);
    rig.app.navigate(1);
    rig.settle();
    assert!(smoke.check(Check::RevealedOneCell, &rig.app, look, (0, 0)).is_ok());
    assert!(smoke.check(Check::PhotoChosen, &rig.app, look, (0, 0)).is_ok());
}

#[test]
fn the_rehearsal_compares_views_of_photographs_that_are_shown() {
    let mut rig = Rig::open(&THREE);
    let missing = Err("no displayed smoke photo".to_string());
    assert_eq!(mark_zoom(&rig.app, true), missing);
    assert_eq!(check_zoom(&rig.app, Some(true)), missing);
    assert_eq!(check_zoom(&rig.app, None), Ok(()));
    rig.display();
    let loose = Err("zoom retention is not enabled for navigation check".to_string());
    assert_eq!(mark_zoom(&rig.app, false), loose);
    assert_eq!(mark_zoom(&rig.app, true), Ok(()));
    rig.app.command(Command::ZoomLock);
    rig.settle();
    assert_eq!(mark_zoom(&rig.app, true), loose);
    assert_eq!(check_zoom(&rig.app, Some(true)), Ok(()));
    assert_eq!(
        check_zoom(&rig.app, Some(false)),
        Err("navigation lost zoom/subject position".to_string())
    );
    rig.app.screen.textures = Shelf::new();
    assert_eq!(mark_zoom(&rig.app, true), Err("no displayed smoke texture".to_string()));
}

#[test]
fn the_brightness_drill_ends_one_stop_brighter() {
    let mut rig = Rig::open(&THREE);
    let mut seen = Vec::new();
    for exercise in brightness_end() {
        match exercise {
            Exercise::Reset => rig.app.command(Command::ResetBrightness),
            Exercise::Brighter(held) => seen.push(held),
            Exercise::CheckIgnored => assert_eq!(check_ignored(&rig.app), Ok(())),
            Exercise::Run(command) => rig.app.command(command),
        }
    }
    assert_eq!(seen, [Held::Super, Held::Control, Held::Alt]);
    assert_eq!(rig.app.settings.brightness_steps, 3);
}

#[test]
fn the_first_photograph_is_shown_again() {
    let mut rig = Rig::open(&THREE);
    rig.app.pick(2);
    rig.take();
    rig.app.show_first();
    assert!(!rig.take().is_empty());
    assert_eq!(rig.current().as_deref(), Some("/p/1.ARW"));
    rig.app.show_first();
    assert!(rig.take().is_empty());
}

#[test]
fn thumbnails_that_change_are_noticed_and_the_others_are_counted() {
    let mut rig = Rig::open(&["/p//1.ARW", "/p/2.ARW"]);
    rig.app.resize(10);
    rig.app.toggle_filmstrip();
    rig.settle();
    rig.app.strip.cache.push(path("/p/1.ARW"), texture(7));
    rig.app.strip.cache.push(path("/p/2.ARW"), texture(8));
    let mut smoke = Smoke::new(0);
    assert_eq!(smoke.stable_thumbnails(&rig.app), Ok(()));
    assert_eq!((smoke.stable.len(), smoke.checks), (0, 0));
    smoke.step = 33;
    assert_eq!(smoke.stable_thumbnails(&rig.app), Ok(()));
    assert_eq!((smoke.stable.len(), smoke.checks), (2, 0));
    assert_eq!(smoke.stable_thumbnails(&rig.app), Ok(()));
    assert_eq!((smoke.stable.len(), smoke.checks), (2, 2));
    rig.app.strip.cache = Shelf::new();
    rig.app.strip.cache.push(path("/p/2.ARW"), texture(8));
    assert_eq!(
        smoke.stable_thumbnails(&rig.app),
        Err("visible thumbnail disappeared or changed GPU allocation: /p//1.ARW".to_string())
    );
    assert_eq!((smoke.stable.len(), smoke.checks), (2, 2));
    rig.app.toggle_filmstrip();
    rig.settle();
    assert_eq!(smoke.stable_thumbnails(&rig.app), Ok(()));
    assert_eq!((smoke.stable.len(), smoke.checks), (0, 2));
}

#[test]
fn moves_and_searches_keep_the_spelling_of_their_paths() {
    let written = |photos: &Vec<PhotoPath>| -> Vec<String> {
        photos.iter().map(|photo| photo.display()).collect()
    };
    let mut rig = Rig::open(&["/p//1.ARW", "/p/./2.ARW"]);
    rig.app.collect_deleted();
    let acts = rig.take();
    let sought = acts.iter().find_map(|action| match action {
        Action::CollectRejected { photos, .. } => Some(written(photos)),
        _ => None,
    });
    assert_eq!(sought.unwrap(), ["/p//1.ARW", "/p/./2.ARW"]);
    let session = rig.app.session;
    rig.app.rejects_collected(session, Ok(vec![path("/p/./2.ARW")]));
    let photos = rig
        .take()
        .into_iter()
        .find_map(|action| match action {
            Action::AskMove(photos) => Some(photos),
            _ => None,
        })
        .unwrap();
    assert_eq!(written(&photos), ["/p/./2.ARW"]);
    rig.app.move_confirmed(photos);
    let moved = rig.take().iter().find_map(|action| match action {
        Action::Move { photos, .. } => Some(written(photos)),
        _ => None,
    });
    assert_eq!(moved.unwrap(), ["/p/./2.ARW"]);
    let mut rig = Rig::open(&["/p//1.ARW", "/p/./2.ARW"]);
    rig.display();
    rig.take();
    rig.app.move_current_to_deleted();
    let moved = rig.take().iter().find_map(|action| match action {
        Action::Move { photos, .. } => Some(written(photos)),
        _ => None,
    });
    assert_eq!(moved.unwrap(), ["/p//1.ARW"]);
}

#[test]
fn ratings_and_records_keep_the_spelling_of_their_paths() {
    let mut rig = Rig::open(&["/p//1.ARW", "/p/./2.ARW"]);
    rig.display();
    rig.app.rating(4);
    rig.app.undo_rating();
    rig.settle();
    let seen: Vec<(&str, String)> = rig
        .take()
        .iter()
        .filter_map(|action| match action {
            Action::Remember(photo) => Some(("remember", photo.display())),
            Action::Save { photo, .. } => Some(("save", photo.display())),
            Action::Undo { photo, .. } => Some(("undo", photo.display())),
            _ => None,
        })
        .collect();
    for what in ["remember", "save", "undo"] {
        assert!(seen.contains(&(what, "/p//1.ARW".to_string())), "{what} {seen:?}");
    }
}
