//! What became of a rating that was to be saved.
use crate::app::info;
use crate::app::state;
use crate::app::state::{App, Deed, Due, LedgerModel, Model, Todo, UndoAction};
use crate::path;
use crate::path::{Identity, PhotoPath};
use crate::text;
use vstd::prelude::*;

verus! {

broadcast use vstd::std_specs::hash::group_hash_axioms;

/// The name of a photograph, for a reader.
pub open spec fn name_text(p: Seq<u8>) -> Seq<char> {
    text::lossy_text(
        match path::file_name_of(p) {
            Some(name) => name,
            None => Seq::empty(),
        },
    )
}

/// The name of a photograph.
pub fn photo_name(p: &PhotoPath) -> (out: String)
    ensures
        out@ == name_text(p@),
{
    match p.file_name() {
        Some(name) => text::from_utf8_lossy(&name),
        None => {
            let none: Vec<u8> = Vec::new();
            assert(none@ =~= Seq::<u8>::empty());
            text::from_utf8_lossy(&none)
        },
    }
}

/// A report on a rating that was saved, or not.
#[derive(Debug)]
pub struct SaveReport {
    pub photo: PhotoPath,
    pub revision: u64,
    pub edit: u64,
    /// The rating that an undo restored, if the report is on one.
    pub undo: Option<Option<i8>>,
    /// Something stays unsaved.
    pub unsaved: bool,
    pub well: bool,
}

impl Model {
    /// The history after a report. An edit that failed cannot be undone; an undo
    /// that failed can be tried again, in its old place.
    #[verifier::opaque]
    pub open spec fn history_kept(self, report: SaveReport) -> Model {
        let s = if report.undo is Some {
            Model {
                ledger: LedgerModel {
                    undos: self.ledger.undos.remove(report.edit),
                    ..self.ledger
                },
                ..self
            }
        } else {
            self
        };
        if report.well {
            s
        } else if report.undo is None {
            s.forgotten(report.edit)
        } else if !report.unsaved {
            s.reinstated(report.edit, Deed::Rating(report.photo.raw()))
        } else {
            s
        }
    }

    /// What is known of the photograph after a report.
    #[verifier::opaque]
    pub open spec fn save_noted(self, report: SaveReport) -> Model {
        if self.info.contains_key(report.photo@) {
            Model {
                info: self.info.insert(
                    report.photo@,
                    self.info[report.photo@].saved(
                        report.revision,
                        report.undo,
                        report.well,
                        report.unsaved,
                    ),
                ),
                ..self
            }
        } else {
            self
        }
    }

    /// Whether a report is on the last edit of its photograph.
    pub open spec fn applies(self, report: SaveReport) -> bool {
        self.info.contains_key(report.photo@) && self.info[report.photo@].revision
            == report.revision
    }

    /// Whether the user has done nothing since an undo.
    pub open spec fn waits_for(self, report: SaveReport) -> bool {
        report.undo is Some && self.ledger.undos.contains_key(report.edit)
            && self.ledger.undos[report.edit] == self.ledger.interaction
    }

    /// After a rating was saved, or not. An undo brings its photograph back into
    /// view, unless the user went on meanwhile.
    #[verifier::opaque]
    pub open spec fn save_reported(self, report: SaveReport) -> Model {
        let s = self.history_kept(report);
        let t = s.save_noted(report);
        if report.undo is Some && report.well {
            let preferred = if self.waits_for(report) && s.applies(report) && t.listing.all.contains(
                report.photo@,
            ) {
                Some(report.photo@)
            } else {
                t.current()
            };
            t.first(Due::Tell("Restored rating: "@ + name_text(report.photo@))).refreshed(preferred)
        } else if report.undo is Some {
            (Model { notice: "Could not undo rating (see log); Cmd+Z retries"@, ..t }).told()
        } else {
            t.told()
        }
    }
}

/// An undo that failed can be tried again, unless something stays unsaved.
pub proof fn law_failed_undos_can_be_retried(m: Model, report: SaveReport)
    requires
        report.undo is Some,
        !report.well,
        !report.unsaved,
        m.ledger.history.len() < state::MAX_UNDO,
    ensures
        m.save_reported(report).ledger.history.contains(
            (report.edit, Deed::Rating(report.photo.raw())),
        ),
{
    reveal(Model::save_reported);
    reveal(Model::history_kept);
    reveal(Model::reinstated);
    reveal(Model::save_noted);
    reveal(Model::strip_shown);
    reveal(crate::app::rating::recalled);
    let history = m.ledger.history;
    let at = crate::app::rating::rank(history, report.edit, 0);
    lemma_rank(history, report.edit, 0);
    let deed = (report.edit, Deed::Rating(report.photo.raw()));
    assert(history.insert(at, deed)[at] == deed);
    assert(m.save_reported(report).ledger.history == history.insert(at, deed));
}

proof fn lemma_rank(history: Seq<(u64, Deed)>, id: u64, n: int)
    requires
        0 <= n <= history.len(),
    ensures
        n <= crate::app::rating::rank(history, id, n) <= history.len(),
    decreases history.len() - n,
{
    if n < history.len() {
        lemma_rank(history, id, n + 1);
    }
}

impl App {
    fn keep_history(&mut self, report: &SaveReport)
        requires
            old(self).sound(),
        ensures
            final(self).sound(),
            final(self)@ == old(self)@.history_kept(*report),
    {
        proof {
            reveal(Model::history_kept);
        }
        let ghost before = self@;
        if report.undo.is_some() {
            let _ = self.ledger.undos.remove(&report.edit);
            assert(self@ == (Model {
                ledger: LedgerModel {
                    undos: before.ledger.undos.remove(report.edit),
                    ..before.ledger
                },
                ..before
            }));
        }
        if !report.well {
            if report.undo.is_none() {
                self.forget_action(report.edit);
            } else if !report.unsaved {
                self.reinstate_action(report.edit, UndoAction::Rating(report.photo.copied()));
            }
        }
    }

    /// Says whether the report was on the last edit.
    fn note_save(&mut self, report: &SaveReport) -> (out: bool)
        requires
            old(self).sound(),
        ensures
            final(self).sound(),
            final(self)@ == old(self)@.save_noted(*report),
            out == old(self)@.applies(*report),
    {
        proof {
            reveal(Model::save_noted);
        }
        let ghost before = self@;
        if !self.info.contains_key(&report.photo) {
            return false;
        }
        let mut known = info::take(&mut self.info, &report.photo);
        let applied = known.save(report.revision, report.undo, report.well, report.unsaved);
        info::put(&mut self.info, &report.photo, known);
        assert(self@ == before.save_noted(*report));
        applied
    }

    /// Takes in that a rating was saved, or not.
    pub fn rating_saved(&mut self, report: &SaveReport)
        requires
            old(self).sound(),
        ensures
            final(self).sound(),
            final(self)@ == old(self)@.save_reported(*report),
    {
        proof {
            reveal(Model::save_reported);
        }
        let waited = report.undo.is_some() && match self.ledger.undos.get(&report.edit) {
            Some(interaction) => *interaction == self.ledger.interaction,
            None => false,
        };
        assert(waited == self@.waits_for(*report));
        self.keep_history(report);
        let applied = self.note_save(report);
        let ghost t = self@;
        if report.undo.is_some() && report.well {
            proof {
                path::lemma_first_position(t.listing.all, report.photo@);
            }
            let preferred = if waited && applied && path::position_of(
                &self.listing.all,
                &report.photo,
            ).is_some() {
                Some(report.photo.copied())
            } else {
                self.current()
            };
            let name = photo_name(&report.photo);
            let text = "Restored rating: ".to_owned().concat(name.as_str());
            self.push(Todo::Tell(text));
            self.refresh_visible(preferred);
        } else {
            if report.undo.is_some() {
                self.notice = "Could not undo rating (see log); Cmd+Z retries".to_owned();
                assert(self@ == (Model {
                    notice: "Could not undo rating (see log); Cmd+Z retries"@,
                    ..t
                }));
            }
            self.status();
        }
    }
}

} // verus!
