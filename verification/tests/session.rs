use fastcull::app::deleted::{FileId, Seen};
use fastcull::app::scan::{root_of, selected_index, Scanner};
use fastcull::app::session::{
    checked_path, clamp_brightness, decode, encode, find_record, publication_barred, read_record,
    resume_path, Pending, SessionKeeper, SessionState, SessionWorker, MAGIC_LENGTH, MAX_DIRTY_AGE,
    MAX_FILE_BYTES, MAX_PATH_BYTES, SAVE_DELAY,
};
use fastcull::path::PhotoPath;

const LEGACY_MAGIC: &[u8] = b"FASTCULL-SESSION\n1\n";
const VERSION_TWO_MAGIC: &[u8] = b"FASTCULL-SESSION\n2\n";
const MAGIC: &[u8] = b"FASTCULL-SESSION\n3\n";

fn path(name: &str) -> PhotoPath {
    PhotoPath::from_text(name)
}

/// What a session says.
fn said(state: &SessionState) -> (Option<Vec<u8>>, Option<Vec<u8>>, bool, bool, i8) {
    (
        state.photo.as_ref().map(|path| path.as_raw().to_vec()),
        state.folder.as_ref().map(|path| path.as_raw().to_vec()),
        state.zoom_locked,
        state.auto_advance,
        state.brightness_steps,
    )
}

fn with_photo(photo: PhotoPath) -> SessionState {
    SessionState {
        folder: photo.parent(),
        photo: Some(photo),
        ..SessionState::default()
    }
}

fn previous_record(state: &SessionState, magic: &[u8]) -> Vec<u8> {
    let mut bytes = encode(state).unwrap();
    bytes.remove(MAGIC_LENGTH + 1);
    bytes[..MAGIC_LENGTH].copy_from_slice(magic);
    bytes
}

#[test]
fn record_round_trips_non_utf8_paths_and_preferences_with_bounded_validation() {
    let mut state = with_photo(PhotoPath::from_bytes(
        b"/photos/trip/\xff\n.ARW".to_vec(),
    ));
    state.zoom_locked = true;
    state.auto_advance = true;
    state.brightness_steps = 4;
    let bytes = encode(&state).unwrap();
    assert_eq!(said(&decode(&bytes).unwrap()), said(&state));
    for length in 0..bytes.len() {
        assert!(decode(&bytes[..length]).is_err());
    }
    let mut overflow = bytes.clone();
    overflow[MAGIC_LENGTH + 2..MAGIC_LENGTH + 6].copy_from_slice(&u32::MAX.to_le_bytes());
    assert!(decode(&overflow).is_err());
    let mut trailing = bytes;
    trailing.push(0);
    assert!(decode(&trailing).is_err());
    assert!(encode(&with_photo(path("relative.ARW"))).is_err());
    assert!(checked_path(b"/bad\0path").is_err());
    assert!(checked_path(&vec![b'/'; MAX_PATH_BYTES + 1]).is_err());
}

#[test]
fn legacy_preferences_migrate_on_and_version_two_preserves_explicit_off() {
    assert!(SessionState::default().zoom_locked);
    assert_eq!(SessionState::default().brightness_steps, 0);
    let mut state = with_photo(path("/photos/trip/photo.ARW"));
    state.auto_advance = true;
    for old_zoom in [false, true] {
        state.zoom_locked = old_zoom;
        let migrated = decode(&previous_record(&state, LEGACY_MAGIC)).unwrap();
        assert!(migrated.zoom_locked);
        assert_eq!(said(&migrated).0, said(&state).0);
        assert_eq!(said(&migrated).1, said(&state).1);
        assert!(migrated.auto_advance);
        assert_eq!(migrated.brightness_steps, 0);
        let migrated = decode(&previous_record(&state, VERSION_TWO_MAGIC)).unwrap();
        assert_eq!(said(&migrated), said(&state));
    }
    state.zoom_locked = false;
    let current = encode(&state).unwrap();
    assert!(current.starts_with(MAGIC));
    assert_eq!(said(&decode(&current).unwrap()), said(&state));
}

#[test]
fn brightness_round_trips_and_clamps_without_erasing_other_preferences() {
    let mut state = with_photo(path("/photos/trip/photo.ARW"));
    state.auto_advance = true;
    for steps in i8::MIN..=i8::MAX {
        state.brightness_steps = steps;
        let mut bytes = encode(&state).unwrap();
        let mut expected = said(&state);
        expected.4 = steps.clamp(-9, 9);
        assert_eq!(said(&decode(&bytes).unwrap()), expected);
        // A malformed stored value also stays within the UI's safe range.
        bytes[MAGIC_LENGTH + 1] = steps as u8;
        assert_eq!(said(&decode(&bytes).unwrap()), expected);
        assert_eq!(clamp_brightness(steps), steps.clamp(-9, 9));
    }
}

#[test]
fn repeated_navigation_has_a_bounded_flush_deadline() {
    let now = 1_000;
    let pending = Pending {
        first_change: Some(now),
        last_change: Some(now + 10_000),
        ..Pending::new()
    };
    assert_eq!(pending.deadline(), Some(now + MAX_DIRTY_AGE));
    let pending = Pending {
        first_change: Some(now),
        last_change: Some(now),
        ..Pending::new()
    };
    assert_eq!(pending.deadline(), Some(now + SAVE_DELAY));
    assert_eq!(Pending::new().deadline(), None);
}

#[test]
fn partial_preferences_preserve_loaded_values_and_merge_pending_fields() {
    let initial = SessionState {
        zoom_locked: true,
        brightness_steps: -3,
        ..SessionState::default()
    };
    let mut keeper = SessionKeeper::new(Some((initial, false)));
    let mut worker = SessionWorker::new();
    worker.preferences(None, Some(true), None, 1);
    worker.preferences(None, None, None, 2);
    worker.flush();
    keeper.merge(worker.due(2).unwrap());
    assert!(keeper.needs_save);
    keeper.saved(true);
    assert!(keeper.current.zoom_locked && keeper.current.auto_advance);
    assert_eq!(keeper.current.brightness_steps, -3);
    worker.preferences(Some(false), None, None, 3);
    worker.preferences(None, Some(false), None, 4);
    worker.preferences(None, None, Some(127), 5);
    worker.flush();
    keeper.merge(worker.due(5).unwrap());
    keeper.saved(true);
    assert_eq!(said(&keeper.current), (None, None, false, false, 9));
}

#[test]
fn pending_navigation_coalesces_and_drop_flushes_latest_path_and_preferences() {
    let mut keeper = SessionKeeper::new(None);
    let mut worker = SessionWorker::new();
    for n in 0..1000 {
        worker.remember(path(&format!("/p/photo-{n}.ARW")), n);
    }
    for steps in -9..=9 {
        worker.preferences(None, None, Some(steps), 1000);
    }
    worker.preferences(Some(true), Some(true), None, 1000);
    assert!(worker.due(1000).is_none());
    worker.stop = true;
    keeper.merge(worker.due(1000).unwrap());
    assert!(keeper.needs_save);
    assert_eq!(
        said(&keeper.current),
        (
            Some(b"/p/photo-999.ARW".to_vec()),
            Some(b"/p".to_vec()),
            true,
            true,
            9
        )
    );
}

#[test]
fn worker_migrates_legacy_record_atomically_and_saves_later_opt_out() {
    let mut old = with_photo(path("/p/photo.ARW"));
    old.zoom_locked = false;
    old.auto_advance = true;
    let (state, migrated) = read_record(&previous_record(&old, LEGACY_MAGIC)).unwrap();
    assert!(migrated);
    assert!(state.zoom_locked && state.auto_advance);
    let mut keeper = SessionKeeper::new(Some((state, migrated)));
    assert!(keeper.needs_save);
    let bytes = encode(&keeper.current).unwrap();
    assert!(bytes.starts_with(MAGIC));
    keeper.saved(true);
    assert!(!keeper.needs_save);
    let mut worker = SessionWorker::new();
    worker.preferences(Some(false), None, Some(3), 0);
    worker.flush();
    keeper.merge(worker.due(0).unwrap());
    assert!(keeper.needs_save);
    let (saved, again) = read_record(&encode(&keeper.current).unwrap()).unwrap();
    assert!(!again);
    assert!(!saved.zoom_locked);
    assert!(saved.auto_advance);
    assert_eq!(saved.brightness_steps, 3);
}

#[test]
fn failed_atomic_save_preserves_target_and_retries_on_explicit_flush() {
    let id = FileId { device: 1, inode: 2 };
    let folder = Seen::Folder(id);
    let absent = || Seen::Absent("nothing".to_string());
    assert!(find_record(&folder, &Seen::Other, 10).is_err());
    assert!(publication_barred(id, &folder, &Seen::Other).is_some());
    assert!(publication_barred(id, &folder, &absent()).is_none());
    let moved = Seen::Folder(FileId { device: 1, inode: 3 });
    assert_eq!(
        publication_barred(id, &moved, &absent()).unwrap(),
        "session directory changed during save"
    );
    let mut keeper = SessionKeeper::new(None);
    let mut worker = SessionWorker::new();
    worker.remember(path("/p/new.ARW"), 0);
    worker.flush();
    keeper.merge(worker.due(0).unwrap());
    keeper.saved(false);
    assert!(keeper.needs_save);
    worker.flush();
    keeper.merge(worker.due(0).unwrap());
    assert!(keeper.needs_save);
    keeper.saved(true);
    assert!(!keeper.needs_save);
    assert_eq!(said(&keeper.current).0, Some(b"/p/new.ARW".to_vec()));
}

#[test]
fn malformed_oversized_and_symlinked_parent_inputs_are_safe() {
    let id = FileId { device: 1, inode: 2 };
    let folder = Seen::Folder(id);
    let file = Seen::File(id);
    assert_eq!(find_record(&folder, &file, MAX_FILE_BYTES as u64), Ok(true));
    assert!(find_record(&folder, &file, MAX_FILE_BYTES as u64 + 1).is_err());
    assert_eq!(
        find_record(&Seen::Absent("nothing".to_string()), &file, 1),
        Ok(false)
    );
    assert!(find_record(&Seen::Other, &file, 1).is_err());
    assert!(decode(b"bad version").is_err());
    assert!(encode(&with_photo(path("relative.ARW"))).is_err());
}

#[test]
fn restore_falls_back_without_erasing_missing_photo_and_retains_preferences() {
    let state = with_photo(path("/p/photo.ARW"));
    let shown = |photo, folder| resume_path(&state, photo, folder).map(|path| path.display());
    assert_eq!(shown(false, true), Some("/p".into()));
    assert_eq!(shown(true, true), Some("/p/photo.ARW".into()));
    assert_eq!(shown(false, false), None);
    assert!(state.zoom_locked);
}

#[test]
fn final_scan_restores_natural_first_unless_user_navigated() {
    let files = vec![
        path("DSC00001.ARW"),
        path("DSC00002.ARW"),
        path("DSC00003.ARW"),
    ];
    assert_eq!(selected_index(&files, None, Some(&files[2]), false), 0);
    assert_eq!(selected_index(&files, None, Some(&files[2]), true), 2);
    assert_eq!(
        selected_index(&Vec::<PhotoPath>::new(), None, None, false),
        0
    );
}

#[test]
fn explicitly_opened_photo_wins_over_a_provisional_first() {
    let first = path("DSC00001.ARW");
    let requested = path("DSC00993.ARW");
    assert_eq!(
        selected_index(&vec![path("DSC00001.ARW")], Some(&requested), None, false),
        0
    );
    assert_eq!(
        selected_index(
            &vec![path("DSC00001.ARW"), path("DSC00993.ARW")],
            Some(&requested),
            Some(&first),
            false
        ),
        1
    );
}

#[test]
fn a_listing_is_reported_early_once_and_sorted_at_the_end() {
    let root = root_of(&path("/p/DSC2.ARW"), true, false).unwrap();
    assert_eq!(root.folder.display(), "/p");
    let mut scanner = Scanner::new(4, root);
    scanner.add_entry(path("/p/DSC10.ARW"), true);
    scanner.add_entry(path("/p/DSC2.ARW"), true);
    scanner.add_entry(path("/p/note.txt"), true);
    scanner.add_entry(path("/p/folder.ARW"), false);
    assert!(scanner.early(1000).is_none());
    for n in 11..41 {
        scanner.add_entry(path(&format!("/p/DSC{n}.ARW")), true);
    }
    assert!(scanner.early(39).is_none());
    let early = scanner.early(40).unwrap();
    assert_eq!((early.session, early.complete), (4, false));
    assert_eq!(early.files.len(), 32);
    assert!(scanner.early(2000).is_none());
    let whole = scanner.finish(2500);
    assert!(whole.complete);
    assert_eq!(whole.elapsed, 2500);
    let names: Vec<String> = whole.files.iter().map(|file| file.display()).collect();
    assert_eq!(names[..3], ["/p/DSC2.ARW", "/p/DSC10.ARW", "/p/DSC11.ARW"]);
    assert_eq!(names.len(), 32);
    assert_eq!(whole.requested.unwrap().display(), "/p/DSC2.ARW");
    assert!(root_of(&path("/p/x.jpg"), true, false).is_err());
    assert!(root_of(&path("/p"), false, false).is_err());
}

#[test]
fn version_two_migration_merges_brightness_changed_before_restore_completes() {
    let mut old = with_photo(path("/p/photo.ARW"));
    old.zoom_locked = false;
    old.auto_advance = true;
    let mut worker = SessionWorker::new();
    let (state, migrated) = read_record(&previous_record(&old, VERSION_TWO_MAGIC)).unwrap();
    assert_eq!(said(&state), said(&old));
    // The worker is busy with its report while these come in.
    worker.preferences(None, None, Some(3), 0);
    worker.preferences(None, None, Some(-127), 0);
    worker.flush();
    let mut keeper = SessionKeeper::new(Some((state, migrated)));
    keeper.merge(worker.due(0).unwrap());
    assert!(keeper.needs_save);
    let bytes = encode(&keeper.current).unwrap();
    old.brightness_steps = -9;
    assert_eq!(said(&decode(&bytes).unwrap()), said(&old));
    assert!(bytes.starts_with(MAGIC));
}

#[test]
fn a_record_with_something_behind_it_is_refused() {
    let mut bytes = encode(&with_photo(path("/p/1.ARW"))).unwrap();
    assert!(read_record(&bytes).is_ok());
    bytes.push(0);
    assert!(read_record(&bytes).is_err());
}
