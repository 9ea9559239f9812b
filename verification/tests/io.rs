use fastcull::app::deleted::{FileId, MoveError, MoveRecord};
use fastcull::app::io::{
    collect, trash_failure, trash_refusal, Edit, History, IoEvent, IoWorker, MoveBatch, Mutation,
    RestoreBatch, UndoRecord, Work,
};
use fastcull::metadata::exif::ExifMetadata;
use fastcull::metadata::xmp::{new_sidecar, plan_rating, read_rating, replace_rating};
use fastcull::path::PhotoPath;
use std::collections::{BTreeMap, BTreeSet};

fn path(name: &str) -> PhotoPath {
    PhotoPath::from_text(name)
}

/// A worker with photographs and sidecars in memory.
struct Desk {
    io: IoWorker,
    photos: BTreeSet<String>,
    sidecars: BTreeMap<String, Vec<u8>>,
}

impl Desk {
    fn new(photos: &[&str]) -> Self {
        Desk {
            io: IoWorker::new(),
            photos: photos.iter().map(|name| name.to_string()).collect(),
            sidecars: BTreeMap::new(),
        }
    }
    fn rating(&self, photo: &str) -> Result<Option<i8>, String> {
        match self.sidecars.get(photo) {
            Some(sidecar) => read_rating(sidecar),
            None => Ok(None),
        }
    }
    /// Another program writes a rating.
    fn rate(&mut self, photo: &str, rating: i8) {
        let sidecar = match self.sidecars.get(photo) {
            Some(sidecar) => replace_rating(sidecar, Some(rating)).unwrap(),
            None => new_sidecar(rating),
        };
        self.sidecars.insert(photo.to_string(), sidecar);
    }
    /// Another program breaks a sidecar.
    fn spoil(&mut self, photo: &str) {
        self.sidecars.insert(photo.to_string(), b"<broken external sidecar".to_vec());
    }
    /// Does what the worker asks for until something is reported.
    fn next(&mut self) -> Option<IoEvent> {
        loop {
            match self.io.next_work() {
                Work::Wait | Work::Stop => return None,
                Work::Flush(failures) => return Some(IoEvent::Flushed { failures }),
                Work::Read(session, photo) => {
                    let rating = self.rating(&photo.display());
                    return Some(IoEvent::Metadata {
                        session,
                        path: photo,
                        metadata: Ok(ExifMetadata::default()),
                        rating,
                    });
                }
                Work::Batch(batch) => {
                    return Some(match batch {
                        fastcull::app::io::Batch::Rejected(session, files) => {
                            let read = files
                                .into_iter()
                                .map(|file| {
                                    let rating = self.rating(&file.display());
                                    (file, rating)
                                })
                                .collect();
                            IoEvent::Rejected { session, result: collect(&read) }
                        }
                        fastcull::app::io::Batch::Trash(session, files) => IoEvent::Trashed {
                            session,
                            removed: files,
                            errors: Vec::new(),
                        },
                    });
                }
                Work::Ratings(mut scan) => {
                    let mut entries = Vec::new();
                    while self.io.scan_goes_on(&scan, entries.len()) {
                        let rating = self.rating(&scan.files[scan.next].display());
                        scan.take_rating(&mut entries, rating);
                    }
                    if let Some(event) = self.io.finish_chunk(scan, entries) {
                        return Some(event);
                    }
                }
                Work::Mutation(mutation) => return Some(self.change(mutation)),
            }
        }
    }
    fn change(&mut self, mutation: Mutation) -> IoEvent {
        match mutation {
            Mutation::Rating(photo, write) => {
                let name = photo.display();
                let attempt = self.io.begin_rating(&photo, write);
                let (asked, result) = match attempt {
                    Err(error) => (None, Err(error)),
                    Ok(asked) => (
                        Some(asked),
                        plan_rating(self.sidecars.get(&name), asked.desired, asked.expected).map(
                            |(previous, bytes)| {
                                if let Some(bytes) = bytes {
                                    self.sidecars.insert(name, bytes);
                                }
                                previous
                            },
                        ),
                    ),
                };
                self.io.finish_rating(photo, write, asked, result)
            }
            Mutation::MoveDeleted { session, op_id, paths } => {
                let mut batch = MoveBatch::new(session, op_id, paths);
                while let Some(photo) = batch.next(&self.io) {
                    let name = photo.display();
                    let result = if self.photos.remove(&name) {
                        let destination = format!("_Rejected/{name}");
                        self.photos.insert(destination.clone());
                        if let Some(sidecar) = self.sidecars.remove(&name) {
                            self.sidecars.insert(destination.clone(), sidecar);
                        }
                        Ok(MoveRecord {
                            source: path(&name),
                            destination: path(&destination),
                            sidecar: None,
                            identity: FileId { device: 1, inode: 1 },
                        })
                    } else {
                        Err(MoveError {
                            message: "photograph is missing".to_string(),
                            raw_path: None,
                            sidecar_path: None,
                            partial: false,
                        })
                    };
                    batch.moved(&mut self.io, photo, result);
                }
                batch.finish()
            }
            Mutation::RestoreDeleted { session, op_id, records } => {
                let mut batch = RestoreBatch::new(session, op_id);
                for record in records {
                    let from = record.destination.display();
                    let to = record.source.display();
                    let result = if !self.photos.contains(&to) && self.photos.remove(&from) {
                        self.photos.insert(to.clone());
                        if let Some(sidecar) = self.sidecars.remove(&from) {
                            self.sidecars.insert(to.clone(), sidecar);
                        }
                        Ok(self.rating(&to))
                    } else {
                        Err(MoveError {
                            message: "destination is occupied".to_string(),
                            raw_path: Some(path(&from)),
                            sidecar_path: None,
                            partial: false,
                        })
                    };
                    batch.came_back(&mut self.io, record, result);
                }
                batch.finish()
            }
        }
    }
}

#[test]
fn move_is_fifo_after_pending_rating_and_blocks_later_orphan_sidecar_writes() {
    let mut desk = Desk::new(&["synthetic.ARW"]);
    desk.io.save(7, path("synthetic.ARW"), 1, 1, 1);
    assert!(matches!(
        desk.next(),
        Some(IoEvent::Saved { result: Ok(()), .. })
    ));
    desk.io.save(7, path("synthetic.ARW"), 2, 4, 2);
    desk.io.move_deleted(7, 40, vec![path("synthetic.ARW")]);
    // Deliberately violate the edit lock to test the I/O boundary.
    desk.io.save(7, path("synthetic.ARW"), 3, 5, 3);
    desk.io.flush();
    assert!(matches!(
        desk.next(),
        Some(IoEvent::Saved {
            revision: 2,
            result: Ok(()),
            ..
        })
    ));
    let Some(IoEvent::MovedDeleted { op_id: 40, mut records, errors, .. }) = desk.next() else {
        panic!("expected move completion");
    };
    assert!(errors.is_empty());
    let record = records.pop().unwrap();
    assert!(matches!(
        desk.next(),
        Some(IoEvent::Saved {
            revision: 3,
            unsaved: true,
            result: Err(_),
            ..
        })
    ));
    assert!(matches!(
        desk.next(),
        Some(IoEvent::Flushed { failures: 1 })
    ));
    assert!(!desk.photos.contains("synthetic.ARW"));
    assert!(!desk.sidecars.contains_key("synthetic.ARW"));
    assert_eq!(desk.rating("_Rejected/synthetic.ARW"), Ok(Some(4)));

    desk.io.retry_failed();
    assert!(matches!(
        desk.next(),
        Some(IoEvent::Saved {
            revision: 3,
            unsaved: true,
            result: Err(_),
            ..
        })
    ));
    assert!(matches!(
        desk.next(),
        Some(IoEvent::Flushed { failures: 1 })
    ));
    desk.io.restore_deleted(7, 41, vec![record]);
    desk.io.flush();
    let Some(IoEvent::RestoredDeleted { op_id: 41, restored, ratings, failed, .. }) = desk.next()
    else {
        panic!("expected restore completion");
    };
    assert_eq!((restored.len(), failed.len()), (1, 0));
    assert_eq!(ratings[0].0.display(), "synthetic.ARW");
    assert_eq!(ratings[0].1, Ok(4));
    assert!(matches!(
        desk.next(),
        Some(IoEvent::Flushed { failures: 1 })
    ));
    desk.io.retry_failed();
    assert!(matches!(
        desk.next(),
        Some(IoEvent::Saved {
            revision: 3,
            unsaved: false,
            result: Ok(()),
            ..
        })
    ));
    assert!(matches!(
        desk.next(),
        Some(IoEvent::Flushed { failures: 0 })
    ));
    assert_eq!(desk.rating("synthetic.ARW"), Ok(Some(5)));
}

#[test]
fn failed_rating_prevents_move_and_survives_until_explicit_retry() {
    let mut desk = Desk::new(&["synthetic.ARW"]);
    desk.spoil("synthetic.ARW");
    desk.io.save(1, path("synthetic.ARW"), 1, 5, 1);
    desk.io.move_deleted(1, 10, vec![path("synthetic.ARW")]);
    desk.io.flush();
    assert!(matches!(
        desk.next(),
        Some(IoEvent::Saved {
            unsaved: true,
            result: Err(_),
            ..
        })
    ));
    let Some(IoEvent::MovedDeleted { op_id: 10, records, errors, .. }) = desk.next() else {
        panic!("expected a refused move");
    };
    assert!(records.is_empty());
    assert_eq!(errors.len(), 1);
    assert_eq!(errors[0].0.display(), "synthetic.ARW");
    assert!(matches!(
        desk.next(),
        Some(IoEvent::Flushed { failures: 1 })
    ));
    assert!(desk.photos.contains("synthetic.ARW"));
    desk.sidecars.clear();
    desk.rate("synthetic.ARW", 2);
    desk.io.retry_failed();
    desk.io.move_deleted(1, 11, vec![path("synthetic.ARW")]);
    assert!(matches!(
        desk.next(),
        Some(IoEvent::Saved {
            unsaved: false,
            result: Ok(()),
            ..
        })
    ));
    let Some(IoEvent::MovedDeleted { records, errors, .. }) = desk.next() else {
        panic!("expected retried move");
    };
    assert!(errors.is_empty());
    assert_eq!(records.len(), 1);
    assert_eq!(desk.rating("_Rejected/synthetic.ARW"), Ok(Some(5)));
}

#[test]
fn undo_before_metadata_read_restores_existing_rating_and_exact_absence() {
    for before in [Some(3), None] {
        let mut desk = Desk::new(&["a.ARW"]);
        if let Some(rating) = before {
            desk.rate("a.ARW", rating);
        }
        desk.io.save(1, path("a.ARW"), 1, 5, 10);
        desk.io.undo(1, path("a.ARW"), 2, 10);
        assert!(matches!(
            desk.next(),
            Some(IoEvent::Saved { rating: Some(5), result: Ok(()), .. })
        ));
        let Some(IoEvent::Saved { rating, undo: true, result: Ok(()), .. }) = desk.next() else {
            panic!("expected an undo");
        };
        assert_eq!(rating, before);
        assert_eq!(desk.rating("a.ARW"), Ok(before));
    }
}

#[test]
fn rapid_edits_and_undo_remain_fifo_even_when_every_command_is_pending() {
    let mut desk = Desk::new(&["a.ARW"]);
    desk.io.save(1, path("a.ARW"), 1, 1, 10);
    assert!(matches!(
        desk.next(),
        Some(IoEvent::Saved { result: Ok(()), .. })
    ));
    desk.io.save(1, path("a.ARW"), 2, 2, 11);
    desk.io.save(1, path("a.ARW"), 3, -1, 12);
    desk.io.undo(1, path("a.ARW"), 4, 12);
    desk.io.save(1, path("a.ARW"), 5, 5, 13);
    desk.io.undo(1, path("a.ARW"), 6, 13);
    desk.io.undo(1, path("a.ARW"), 7, 11);
    desk.io.undo(1, path("a.ARW"), 8, 10);
    desk.io.flush();
    for (revision, expected) in [
        (2, Some(2)),
        (3, Some(-1)),
        (4, Some(2)),
        (5, Some(5)),
        (6, Some(2)),
        (7, Some(1)),
        (8, None),
    ] {
        assert!(
            matches!(desk.next(), Some(IoEvent::Saved { revision: got, rating, unsaved: false, result: Ok(()), .. }) if got == revision && rating == expected)
        );
    }
    assert!(matches!(
        desk.next(),
        Some(IoEvent::Flushed { failures: 0 })
    ));
    assert_eq!(desk.rating("a.ARW"), Ok(None));
}

#[test]
fn undo_refuses_external_rating_change_but_preserves_unrelated_external_fields() {
    let mut desk = Desk::new(&["a.ARW"]);
    desk.rate("a.ARW", 2);
    desk.io.save(1, path("a.ARW"), 1, 4, 10);
    assert!(matches!(
        desk.next(),
        Some(IoEvent::Saved { result: Ok(()), .. })
    ));
    let external = String::from_utf8(desk.sidecars["a.ARW"].clone()).unwrap().replace(
        "xmp:Rating=\"4\"",
        "xmp:Rating=\"4\" xmlns:dc=\"http://purl.org/dc/elements/1.1/\" dc:format=\"external-kept\"",
    );
    assert!(external.contains("external-kept"));
    desk.sidecars.insert("a.ARW".to_string(), external.clone().into_bytes());
    desk.io.undo(1, path("a.ARW"), 2, 10);
    assert!(matches!(
        desk.next(),
        Some(IoEvent::Saved {
            undo: true,
            rating: Some(2),
            result: Ok(()),
            ..
        })
    ));
    assert_eq!(
        String::from_utf8(desk.sidecars["a.ARW"].clone()).unwrap(),
        external.replace("xmp:Rating=\"4\"", "xmp:Rating=\"2\"")
    );
    desk.io.save(1, path("a.ARW"), 3, 1, 11);
    assert!(matches!(
        desk.next(),
        Some(IoEvent::Saved { result: Ok(()), .. })
    ));
    desk.rate("a.ARW", 5); // Another editor.
    let external = desk.sidecars["a.ARW"].clone();
    desk.io.undo(1, path("a.ARW"), 4, 11);
    desk.io.flush();
    assert!(matches!(
        desk.next(),
        Some(IoEvent::Saved {
            undo: true,
            unsaved: false,
            result: Err(_),
            ..
        })
    ));
    assert!(matches!(
        desk.next(),
        Some(IoEvent::Flushed { failures: 0 })
    ));
    assert_eq!(desk.sidecars["a.ARW"], external);
}

#[test]
fn a_planned_rating_keeps_what_others_wrote() {
    let foreign = String::from_utf8(new_sidecar(4)).unwrap().replace(
        "xmp:Rating=\"4\"",
        "xmp:Rating=\"4\" dc:format=\"kept\"",
    );
    let (previous, bytes) =
        plan_rating(Some(&foreign.clone().into_bytes()), Some(1), Some(Some(4))).unwrap();
    assert_eq!(previous, Some(4));
    assert_eq!(
        String::from_utf8(bytes.unwrap()).unwrap(),
        foreign.replace("xmp:Rating=\"4\"", "xmp:Rating=\"1\"")
    );
    assert_eq!(
        plan_rating(Some(&foreign.into_bytes()), Some(1), Some(Some(3))).unwrap_err(),
        "the rating was changed by another program"
    );
}

#[test]
fn a_rating_scan_reports_each_file_once_with_its_stars() {
    let mut desk = Desk::new(&[]);
    desk.rate("b.ARW", 3);
    desk.rate("d.ARW", -1);
    desk.spoil("c.ARW");
    let files: Vec<PhotoPath> = ["a.ARW", "b.ARW", "c.ARW", "d.ARW"].map(path).into();
    desk.io.scan_ratings(9, files);
    let Some(IoEvent::Ratings { entries, .. }) = desk.next() else {
        panic!("expected ratings");
    };
    let shown: Vec<(String, Result<i8, String>)> =
        entries.into_iter().map(|(file, rating)| (file.display(), rating)).collect();
    assert_eq!(shown.len(), 4);
    assert_eq!(shown[0], ("a.ARW".to_string(), Ok(0)));
    assert_eq!(shown[1], ("b.ARW".to_string(), Ok(3)));
    assert_eq!(shown[2].0, "c.ARW");
    assert!(shown[2].1.is_err());
    assert_eq!(shown[3], ("d.ARW".to_string(), Ok(-1)));
}

#[test]
fn failed_edit_cannot_undo_another_edit_or_hide_unsaved_retry_state() {
    let mut desk = Desk::new(&["a.ARW"]);
    desk.io.save(1, path("a.ARW"), 1, 1, 10);
    desk.next();
    desk.spoil("a.ARW");
    desk.io.save(1, path("a.ARW"), 2, 4, 11);
    desk.io.undo(1, path("a.ARW"), 3, 11);
    desk.io.flush();
    assert!(matches!(
        desk.next(),
        Some(IoEvent::Saved {
            undo: false,
            unsaved: true,
            result: Err(_),
            ..
        })
    ));
    assert!(matches!(
        desk.next(),
        Some(IoEvent::Saved {
            undo: true,
            unsaved: true,
            result: Err(_),
            ..
        })
    ));
    assert!(matches!(
        desk.next(),
        Some(IoEvent::Flushed { failures: 1 })
    ));
}

#[test]
fn pending_edits_preserve_every_logical_revision_before_flush_and_reopen() {
    let mut desk = Desk::new(&["a.ARW"]);
    desk.io.save(7, path("a.ARW"), 1, 1, 1);
    assert!(matches!(
        desk.next(),
        Some(IoEvent::Saved {
            session: 7,
            revision: 1,
            result: Ok(()),
            ..
        })
    ));
    // Both are pending together.
    desk.io.save(7, path("a.ARW"), 2, 2, 2);
    desk.io.save(7, path("a.ARW"), 3, -1, 3);
    desk.io.flush();
    assert!(matches!(
        desk.next(),
        Some(IoEvent::Saved {
            revision: 2,
            rating: Some(2),
            result: Ok(()),
            ..
        })
    ));
    assert_eq!(desk.rating("a.ARW"), Ok(Some(2)));
    assert!(matches!(
        desk.next(),
        Some(IoEvent::Saved {
            session: 7,
            revision: 3,
            result: Ok(()),
            ..
        })
    ));
    assert!(matches!(
        desk.next(),
        Some(IoEvent::Flushed { failures: 0 })
    ));
    desk.io.finish();
    assert!(desk.next().is_none(), "unexpected additional write event");
    assert_eq!(desk.rating("a.ARW"), Ok(Some(-1)));
    assert_eq!(desk.photos.len(), 1);
}

#[test]
fn shutdown_drains_pending_writes() {
    let mut desk = Desk::new(&["a.ARW"]);
    desk.io.save(1, path("a.ARW"), 1, 5, 1);
    desk.io.finish();
    assert!(matches!(
        desk.next(),
        Some(IoEvent::Saved { result: Ok(()), .. })
    ));
    assert!(desk.next().is_none());
    assert_eq!(desk.rating("a.ARW"), Ok(Some(5)));
}

#[test]
fn history_is_bounded_and_rejects_wrong_path_and_out_of_order_undo() {
    let mut history = History::new();
    for edit_id in 0..101 {
        history.record(UndoRecord {
            edit_id,
            path: path("synthetic.ARW"),
            previous: Some(0),
            rating: 1,
        });
    }
    assert_eq!(history.0.len(), 100);
    assert!(history.0.iter().all(|record| record.edit_id != 0));
    assert!(history.target(&path("other.ARW"), 100).is_err());
    assert!(history.target(&path("synthetic.ARW"), 99).is_err());
    assert_eq!(
        history
            .target(&path("synthetic.ARW"), 100)
            .unwrap()
            .edit_id,
        100
    );
    history.remove(100);
    assert_eq!(
        history.target(&path("synthetic.ARW"), 99).unwrap().edit_id,
        99
    );
}

#[test]
fn rating_index_reads_only_sidecars_and_distinguishes_absence_reject_stars_and_errors() {
    let mut desk = Desk::new(&[]);
    desk.rate("zero.ARW", 0);
    desk.rate("rejected.ARW", -1);
    desk.rate("five.ARW", 5);
    desk.spoil("broken.ARW");
    let names = [
        "absent.ARW",
        "zero.ARW",
        "rejected.ARW",
        "five.ARW",
        "broken.ARW",
    ];
    desk.io
        .scan_ratings(42, names.iter().map(|name| path(name)).collect());
    let Some(IoEvent::Ratings { folder_epoch: 42, entries, complete: true }) = desk.next() else {
        panic!("expected rating-index completion");
    };
    assert_eq!(entries.len(), names.len());
    for (index, expected) in [0, 0, -1, 5].into_iter().enumerate() {
        assert_eq!(entries[index].0.display(), names[index]);
        assert_eq!(entries[index].1, Ok(expected));
    }
    assert_eq!(entries[4].0.display(), names[4]);
    assert!(entries[4].1.is_err());
    desk.io.scan_ratings(43, Vec::new());
    assert!(
        matches!(desk.next(), Some(IoEvent::Ratings { folder_epoch: 43, entries, complete: true }) if entries.is_empty())
    );
}

fn many() -> Vec<PhotoPath> {
    (0..65)
        .map(|index| path(&format!("synthetic-{index}.ARW")))
        .collect()
}

#[test]
fn rating_index_yields_chunks_to_saves_current_metadata_and_batches() {
    let mut desk = Desk::new(&["synthetic-40.ARW"]);
    desk.io.scan_ratings(5, many());
    assert!(
        matches!(desk.next(), Some(IoEvent::Ratings { folder_epoch: 5, entries, complete: false }) if entries.len() == 32)
    );
    desk.io.save(7, path("synthetic-40.ARW"), 1, 5, 1);
    desk.io.read(8, path("synthetic-50.ARW"));
    desk.io.collect_rejected(9, Vec::new());
    assert!(matches!(
        desk.next(),
        Some(IoEvent::Saved {
            session: 7,
            result: Ok(()),
            ..
        })
    ));
    assert!(matches!(
        desk.next(),
        Some(IoEvent::Metadata { session: 8, .. })
    ));
    assert!(
        matches!(desk.next(), Some(IoEvent::Rejected { session: 9, result: Ok(paths) }) if paths.is_empty())
    );
    let Some(IoEvent::Ratings { folder_epoch: 5, entries, complete: false }) = desk.next() else {
        panic!("expected second rating-index chunk after higher-priority work");
    };
    assert_eq!(entries.len(), 32);
    assert!(entries
        .iter()
        .any(|(file, rating)| file.display() == "synthetic-40.ARW" && *rating == Ok(5)));
    assert!(
        matches!(desk.next(), Some(IoEvent::Ratings { folder_epoch: 5, entries, complete: true }) if entries.len() == 1)
    );
    assert_eq!(desk.rating("synthetic-40.ARW"), Ok(Some(5)));
}

#[test]
fn rating_index_replacement_cancellation_and_flush_discard_remaining_chunks() {
    let mut desk = Desk::new(&[]);
    desk.io.scan_ratings(1, many());
    assert!(matches!(
        desk.next(),
        Some(IoEvent::Ratings {
            folder_epoch: 1,
            complete: false,
            ..
        })
    ));
    desk.io.scan_ratings(2, many());
    desk.io.scan_ratings(3, many());
    assert!(matches!(
        desk.next(),
        Some(IoEvent::Ratings {
            folder_epoch: 3,
            complete: false,
            ..
        })
    ));
    desk.io.cancel_rating_scan();
    desk.io.scan_ratings(4, many());
    desk.io.flush(); // Flush independently cancels the newly queued fourth scan.
    assert!(matches!(
        desk.next(),
        Some(IoEvent::Flushed { failures: 0 })
    ));
    assert!(
        desk.next().is_none(),
        "canceled or replaced scan published another chunk"
    );
}

#[test]
fn only_rejected_photographs_are_collected_and_trashed() {
    let read = vec![
        (path("a.ARW"), Ok(Some(-1))),
        (path("b.ARW"), Ok(Some(3))),
        (path("c.ARW"), Ok(None)),
    ];
    let found = collect(&read).unwrap();
    assert_eq!(found.len(), 1);
    assert_eq!(found[0].display(), "a.ARW");
    let unread = vec![(path("d.ARW"), Err("malformed XMP".to_string()))];
    assert!(collect(&unread).unwrap_err().contains("malformed XMP"));
    assert!(trash_refusal(&path("a.ARW"), &Ok(true), &Ok(Some(-1))).is_none());
    assert!(trash_refusal(&path("a.ARW"), &Ok(true), &Ok(Some(4))).is_some());
    assert!(trash_refusal(&path("a.ARW"), &Ok(false), &Ok(Some(-1))).is_some());
    assert!(trash_failure(&path("/p/a.ARW"), "denied").contains("denied"));
}

#[test]
fn edits_are_told_apart() {
    assert_ne!(Edit::Assign(3), Edit::Undo);
}

#[test]
fn restore_keeps_rating_history_and_failed_restore_keeps_its_record_retryable() {
    let name = "synthetic.ARW";
    let mut desk = Desk::new(&[name]);
    desk.rate(name, 3);
    desk.io.save(1, path(name), 1, 4, 10);
    desk.io.move_deleted(1, 20, vec![path(name)]);
    assert!(matches!(
        desk.next(),
        Some(IoEvent::Saved { result: Ok(()), .. })
    ));
    let Some(IoEvent::MovedDeleted { op_id: 20, mut records, errors, .. }) = desk.next() else {
        panic!("expected move completion");
    };
    assert!(errors.is_empty());
    assert_eq!(records.len(), 1);
    let record = records.pop().unwrap();
    desk.io.undo(1, path(name), 2, 10);
    assert!(matches!(
        desk.next(),
        Some(IoEvent::Saved {
            undo: true,
            unsaved: false,
            result: Err(_),
            ..
        })
    ));
    assert_eq!(desk.rating(name), Ok(None));

    desk.photos.insert(name.to_string()); // An unrelated replacement.
    desk.io.restore_deleted(1, 21, vec![record]);
    let Some(IoEvent::RestoredDeleted { restored, mut failed, .. }) = desk.next() else {
        panic!("expected failed restore");
    };
    assert!(restored.is_empty());
    assert_eq!(failed.len(), 1);
    let (record, _) = failed.pop().unwrap();
    assert_eq!(desk.rating(&record.destination.display()), Ok(Some(4)));
    desk.photos.remove(name); // Remove only the synthetic collision.
    desk.io.restore_deleted(1, 22, vec![record]);
    desk.io.undo(1, path(name), 3, 10);
    desk.io.flush();
    assert!(
        matches!(desk.next(), Some(IoEvent::RestoredDeleted { op_id: 22, restored, failed, .. }) if restored.len() == 1 && failed.is_empty())
    );
    assert!(matches!(
        desk.next(),
        Some(IoEvent::Saved {
            undo: true,
            rating: Some(3),
            result: Ok(()),
            ..
        })
    ));
    assert!(matches!(desk.next(), Some(IoEvent::Flushed { failures: 0 })));
    assert_eq!(desk.rating(name), Ok(Some(3)));
    assert!(desk.photos.contains(name));
}

#[test]
fn shutdown_drains_an_already_authorized_move_after_its_rating_save() {
    let name = "synthetic.ARW";
    let mut desk = Desk::new(&[name]);
    desk.io.save(1, path(name), 1, 2, 1);
    desk.io.move_deleted(1, 2, vec![path(name)]);
    desk.io.finish();
    assert!(matches!(
        desk.next(),
        Some(IoEvent::Saved { result: Ok(()), .. })
    ));
    let Some(IoEvent::MovedDeleted { op_id: 2, mut records, errors, .. }) = desk.next() else {
        panic!("expected move completion");
    };
    assert!(errors.is_empty(), "move failed: {errors:?}");
    assert_eq!(records.len(), 1);
    let record = records.pop().unwrap();
    assert_eq!(desk.rating(&record.destination.display()), Ok(Some(2)));
    assert!(desk.photos.contains(&record.destination.display()));
    assert!(!desk.photos.contains(name));
    assert_eq!(desk.rating(name), Ok(None));
    assert!(matches!(desk.io.next_work(), Work::Stop));
}

#[test]
fn failed_save_is_reported_by_flush_and_explicit_retry_persists_it() {
    let name = "synthetic.ARW";
    let mut desk = Desk::new(&[name]);
    desk.spoil(name);
    desk.io.save(11, path(name), 9, 4, 9);
    desk.io.flush();
    assert!(matches!(
        desk.next(),
        Some(IoEvent::Saved {
            session: 11,
            revision: 9,
            result: Err(_),
            ..
        })
    ));
    assert!(matches!(desk.next(), Some(IoEvent::Flushed { failures: 1 })));
    assert!(desk.rating(name).is_err());
    desk.sidecars.remove(name); // Repair only this synthetic fixture.
    desk.rate(name, 0);
    desk.io.retry_failed();
    assert!(matches!(
        desk.next(),
        Some(IoEvent::Saved {
            session: 11,
            revision: 9,
            result: Ok(()),
            ..
        })
    ));
    assert!(matches!(desk.next(), Some(IoEvent::Flushed { failures: 0 })));
    assert_eq!(desk.rating(name), Ok(Some(4)));
    assert!(desk.photos.contains(name));
}
