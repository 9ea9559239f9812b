//! What the workers report.
use crate::app::deleted;
use crate::app::deleted::MoveRecord;
use crate::app::io;
use crate::app::io::IoEvent;
use crate::app::saving::SaveReport;
use crate::app::session::SessionEvent;
use crate::app::state::{App, Model};
use crate::path;
use crate::path::{Identity, PhotoPath};
use crate::text;
use vstd::prelude::*;

verus! {

/// What was read, if it was read well.
pub open spec fn good<T>(result: Result<T, String>) -> Option<T> {
    match result {
        Ok(value) => Some(value),
        Err(_) => None,
    }
}

/// A result without the words of its failure.
pub open spec fn mute<T>(result: Result<T, String>) -> Result<T, ()> {
    match result {
        Ok(value) => Ok(value),
        Err(_) => Err(()),
    }
}

/// The records of moves that failed.
pub open spec fn stranded(failed: Seq<(MoveRecord, String)>) -> Seq<deleted::Pair> {
    failed.map_values(|f: (MoveRecord, String)| f.0@)
}

/// Photographs that did not come back, and why.
pub open spec fn obstacles(failed: Seq<(MoveRecord, String)>) -> Seq<(Seq<u8>, Seq<char>)> {
    failed.map_values(|f: (MoveRecord, String)| (f.0@.source, f.1@))
}

impl Model {
    /// After a report of the worker for files.
    pub open spec fn io_reported(self, event: IoEvent) -> Model {
        match event {
            IoEvent::Ratings { folder_epoch, entries, complete } => self.indexed(
                folder_epoch,
                entries@,
                complete,
            ),
            IoEvent::Metadata { session, path, metadata, rating } => self.photo_read(
                session,
                path@,
                good(metadata),
                mute(rating),
            ),
            IoEvent::Saved {
                session,
                path,
                revision,
                edit_id,
                undo,
                rating,
                unsaved,
                result,
            } => self.save_reported(
                SaveReport {
                    photo: path,
                    revision,
                    edit: edit_id,
                    undo: if undo {
                        Some(rating)
                    } else {
                        None
                    },
                    unsaved,
                    well: result is Ok,
                },
            ),
            IoEvent::Rejected { session, result } => self.rejects_found(
                session,
                match result {
                    Ok(photos) => Ok(path::spellings(photos@)),
                    Err(error) => Err(error@),
                },
            ),
            IoEvent::Trashed { session, removed, errors } => self.trash_reported(
                session,
                text::texts(errors@),
            ),
            IoEvent::MovedDeleted { session, op_id, records, errors } => self.move_reported(
                session,
                op_id,
                io::pairs(records@),
                io::remarks(errors@),
            ),
            IoEvent::RestoredDeleted {
                session,
                op_id,
                restored,
                ratings,
                failed,
            } => self.return_reported(
                session,
                op_id,
                io::pairs(restored@),
                ratings@,
                stranded(failed@),
                obstacles(failed@),
            ),
            IoEvent::Flushed { failures } => self.flushed(failures),
        }
    }

    /// After a report of the worker for the session. A session that could not be
    /// read changes nothing.
    pub open spec fn session_reported(self, event: SessionEvent) -> Model {
        match event {
            SessionEvent::Loaded { state: Ok(was), resume_path } => self.session_restored(
                was@,
                path::written(resume_path),
            ),
            SessionEvent::Saved(Err(_)) => self.message(
                "Could not save last-viewed position (see log)"@,
            ),
            _ => self,
        }
    }
}

/// The records of moves that failed, and what is said of their photographs.
fn part(failed: Vec<(MoveRecord, String)>) -> (out: (Vec<MoveRecord>, Vec<(PhotoPath, String)>))
    ensures
        io::pairs((out.0)@) == stranded(failed@),
        io::remarks((out.1)@) == obstacles(failed@),
{
    let ghost all = failed@;
    let mut failed = failed;
    let mut records: Vec<MoveRecord> = Vec::new();
    let mut errors: Vec<(PhotoPath, String)> = Vec::new();
    while failed.len() > 0
        invariant
            failed@ == all.skip(records@.len() as int),
            records@.len() <= all.len(),
            errors@.len() == records@.len(),
            io::pairs(records@) =~= stranded(all).take(records@.len() as int),
            io::remarks(errors@) =~= obstacles(all).take(records@.len() as int),
        decreases failed@.len(),
    {
        let (record, error) = failed.remove(0);
        assert(all[records@.len() as int] == (record, error));
        errors.push((record.source.copied(), error));
        records.push(record);
    }
    assert(records@.len() == all.len());
    assert(io::pairs(records@) =~= stranded(all));
    assert(io::remarks(errors@) =~= obstacles(all));
    (records, errors)
}

impl App {
    /// Takes in what the worker for files reports.
    pub fn io_event(&mut self, event: IoEvent)
        requires
            old(self).sound(),
        ensures
            final(self).sound(),
            final(self)@ == old(self)@.io_reported(event),
    {
        match event {
            IoEvent::Ratings { folder_epoch, entries, complete } => {
                self.ratings_read(folder_epoch, &entries, complete);
            },
            IoEvent::Metadata { session, path, metadata, rating } => {
                let metadata = match metadata {
                    Ok(metadata) => Some(metadata),
                    Err(_) => None,
                };
                let rating = match rating {
                    Ok(rating) => Ok(rating),
                    Err(_) => Err(()),
                };
                self.metadata_read(session, &path, metadata, rating);
            },
            IoEvent::Saved {
                session: _,
                path,
                revision,
                edit_id,
                undo,
                rating,
                unsaved,
                result,
            } => {
                let undo: Option<Option<i8>> = if undo {
                    Some(rating)
                } else {
                    None
                };
                let well = result.is_ok();
                self.rating_saved(
                    &SaveReport { photo: path, revision, edit: edit_id, undo, unsaved, well },
                );
            },
            IoEvent::Rejected { session, result } => {
                self.rejects_collected(session, result);
            },
            IoEvent::Trashed { session, removed: _, errors } => {
                self.trashed(session, &errors);
            },
            IoEvent::MovedDeleted { session, op_id, records, errors } => {
                self.moved_deleted(session, op_id, records, &errors);
            },
            IoEvent::RestoredDeleted { session, op_id, restored, ratings, failed } => {
                let (failed, errors) = part(failed);
                self.restored_deleted(session, op_id, &restored, &ratings, failed, &errors);
            },
            IoEvent::Flushed { failures } => {
                self.ratings_flushed(failures);
            },
        }
    }

    /// Takes in what the worker for the session reports.
    pub fn session_event(&mut self, event: SessionEvent)
        requires
            old(self).sound(),
        ensures
            final(self).sound(),
            final(self)@ == old(self)@.session_reported(event),
    {
        match event {
            SessionEvent::Loaded { state: Ok(was), resume_path } => {
                self.session_loaded(&was, resume_path);
            },
            SessionEvent::Saved(Err(_)) => {
                self.session_unsaved();
            },
            _ => {},
        }
    }
}

/// Reports for other lists of photographs change nothing, except that ratings
/// are saved whatever is listed.
pub proof fn law_reports_for_other_lists_are_ignored(m: Model, event: IoEvent)
    requires
        match event {
            IoEvent::Metadata { session, .. } => session != m.session,
            IoEvent::Rejected { session, .. } => session != m.session,
            IoEvent::Trashed { session, .. } => session != m.session,
            IoEvent::MovedDeleted { session, .. } => session != m.session,
            IoEvent::RestoredDeleted { session, .. } => session != m.session,
            IoEvent::Ratings { folder_epoch, .. } => folder_epoch != m.folder_epoch,
            _ => false,
        },
    ensures
        m.io_reported(event) == m,
{
    reveal(Model::indexed);
    reveal(Model::photo_read);
    reveal(Model::rejects_found);
    reveal(Model::trash_reported);
    reveal(Model::move_reported);
    reveal(Model::return_reported);
}

} // verus!
