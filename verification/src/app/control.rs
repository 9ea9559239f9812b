//! Commands, keys and settings, and the way out.
use crate::app::deleted;
use crate::app::deleted::is_rejected_folder;
use crate::app::menu::Command;
use crate::app::session;
use crate::app::session::{clamp_brightness, SessionState};
use crate::app::shortcuts::KeyAction;
use crate::app::state::{Act, Action, App, ListingModel, Model, Settings};
use crate::app::strip::same_choice;
use crate::path;
use crate::path::{Identity, PhotoPath};
use crate::text;
use vstd::prelude::*;

verus! {

/// What the user wants done about ratings that could not be saved.
#[derive(Clone, Copy, Debug, PartialEq, Eq, Structural)]
pub enum Choice {
    Retry,
    QuitAnyway,
    Cancel,
}

impl Model {
    pub open spec fn with_settings(self, settings: Settings) -> Model {
        Model { settings, ..self }
    }

    /// What the user changed is saved.
    pub open spec fn preferences_kept(self) -> Model {
        self.posted(
            Act::Preferences(
                if self.settings.zoom_changed {
                    Some(self.settings.zoom_locked)
                } else {
                    None
                },
                if self.settings.auto_changed {
                    Some(self.settings.auto_advance)
                } else {
                    None
                },
                if self.settings.brightness_changed {
                    Some(self.settings.brightness_steps)
                } else {
                    None
                },
            ),
        )
    }

    /// Another brightness, within its range. A reset counts as a change too.
    #[verifier::opaque]
    pub open spec fn brightened(self, steps: i8) -> Model {
        let level = session::dimmed(steps);
        if self.settings.brightness_changed && self.settings.brightness_steps == level {
            self
        } else {
            self.with_settings(
                Settings { brightness_steps: level, brightness_changed: true, ..self.settings },
            ).posted(Act::Brightness(level)).preferences_kept().told()
        }
    }

    #[verifier::opaque]
    pub open spec fn zoom_restored(self, locked: bool) -> Model {
        if self.settings.zoom_changed {
            self
        } else {
            self.with_settings(Settings { zoom_locked: locked, ..self.settings }).posted(
                Act::PreserveView(locked),
            )
        }
    }

    #[verifier::opaque]
    pub open spec fn advance_restored(self, advance: bool) -> Model {
        if self.settings.auto_changed {
            self
        } else {
            self.with_settings(Settings { auto_advance: advance, ..self.settings })
        }
    }

    #[verifier::opaque]
    pub open spec fn brightness_restored(self, steps: i8) -> Model {
        if self.settings.brightness_changed {
            self
        } else {
            self.with_settings(Settings { brightness_steps: steps, ..self.settings }).posted(
                Act::Brightness(steps),
            )
        }
    }

    /// What was remembered of the last time, where the user has not changed it
    /// since.
    pub open spec fn settings_restored(self, was: session::Session) -> Model {
        self.zoom_restored(was.zoom_locked).advance_restored(was.auto_advance).brightness_restored(
            was.brightness_steps,
        )
    }

    /// The photograph of the last time is opened, unless something else was.
    #[verifier::opaque]
    pub open spec fn resumed(self, was: session::Session, resume: Option<Seq<u8>>) -> Model {
        if !self.settings.restore_allowed {
            self
        } else {
            let s = self.with_settings(Settings { restore_allowed: false, ..self.settings });
            match resume {
                Some(at) => s.opened(at),
                None => if was.photo is Some || was.folder is Some {
                    s.message("Previous folder unavailable. Cmd+O opens a folder."@)
                } else {
                    s
                },
            }
        }
    }

    /// The program goes on where it was left.
    pub open spec fn session_restored(
        self,
        was: session::Session,
        resume: Option<Seq<u8>>,
    ) -> Model {
        self.settings_restored(was).resumed(was, resume).told()
    }

    /// The program is left, once everything is saved.
    #[verifier::opaque]
    pub open spec fn leaving(self) -> Model {
        if self.quitting || self.trash_busy {
            self
        } else {
            let s = (Model { quitting: true, ..self }).stopped();
            s.with_settings(Settings { restore_allowed: false, ..s.settings }).posted(
                Act::EndPeek,
            ).posted(Act::FlushSession).posted(Act::Flush).message("Saving ratings..."@)
        }
    }

    /// Everything is saved, or not. What is not saved is left to the user.
    pub open spec fn flushed(self, failures: usize) -> Model {
        if !self.quitting {
            self
        } else if failures == 0 {
            self.posted(Act::Exit)
        } else {
            self.posted(Act::AskRetry(failures))
        }
    }

    /// The user does not want to leave after all.
    #[verifier::opaque]
    pub open spec fn stayed(self) -> Model {
        let s = Model { quitting: false, ..self };
        let t = if s.listing.index_complete {
            s
        } else {
            s.with_listing(
                ListingModel {
                    index_started: false,
                    ratings_read: 0,
                    rating_errors: 0,
                    ..s.listing
                },
            ).index_begun()
        };
        t.message("Unsaved ratings"@)
    }

    pub open spec fn chosen(self, choice: Choice) -> Model {
        match choice {
            Choice::Retry => self.posted(Act::RetryFailed),
            Choice::QuitAnyway => self.posted(Act::Exit),
            Choice::Cancel => self.stayed(),
        }
    }

    /// After photographs went to the trash.
    #[verifier::opaque]
    pub open spec fn trash_reported(self, session: u64, errors: Seq<Seq<char>>) -> Model {
        if session != self.session {
            self
        } else {
            let s = Model { trash_busy: false, ..self };
            let t = if errors.len() > 0 {
                s.posted(
                    Act::Alert("Some photos could not be moved"@, text::joined(errors, "\n"@)),
                )
            } else {
                s
            };
            match t.listing.folder {
                Some(folder) => t.opened(folder),
                None => t,
            }
        }
    }

    /// The view is kept from one photograph to the next, or not.
    #[verifier::opaque]
    pub open spec fn zoom_toggled(self) -> Model {
        let locked = !self.settings.zoom_locked;
        let s = self.posted(Act::EndPeek);
        s.with_settings(
            Settings { zoom_locked: locked, zoom_changed: true, ..s.settings },
        ).posted(Act::PreserveView(locked)).preferences_kept().message(
            if locked {
                "Zoom and position locked across photos"@
            } else {
                "New photos fit to window"@
            },
        )
    }

    /// A rating opens the next photograph, or not.
    #[verifier::opaque]
    pub open spec fn advance_toggled(self) -> Model {
        let advance = !self.settings.auto_advance;
        self.with_settings(
            Settings { auto_advance: advance, auto_changed: true, ..self.settings },
        ).preferences_kept().message(
            if advance {
                "Auto-advance on: assigning a rating opens next photo"@
            } else {
                "Auto-advance off"@
            },
        )
    }

    /// The folder of rejected photographs is opened.
    #[verifier::opaque]
    pub open spec fn rejected_opened(self) -> Model {
        match self.listing.folder {
            None => self,
            Some(folder) => if deleted::rejected(folder) {
                self.message("Already viewing the _Rejected folder"@)
            } else {
                self.opened(path::joined(folder, deleted::rejected_folder()))
            },
        }
    }

    /// Rejected photographs are to go to the trash.
    #[verifier::opaque]
    pub open spec fn trash_sought(self, current: bool) -> Model {
        if self.trash_busy || self.rehearsal {
            self
        } else if current {
            self.rejects_sought(
                false,
                match self.current_written() {
                    Some(photo) => seq![photo],
                    None => Seq::empty(),
                },
            )
        } else {
            self.rejects_sought(false, self.listing.all_written)
        }
    }

    /// A command is carried out.
    #[verifier::opaque]
    pub open spec fn commanded(self, command: Command) -> Model {
        if self.quitting {
            self
        } else {
            match command {
                Command::Open => if self.trash_busy {
                    self
                } else {
                    self.with_settings(
                        Settings { restore_allowed: false, ..self.settings },
                    ).posted(Act::PickFolder)
                },
                Command::Quit => self.leaving(),
                Command::OpenDeleted => if self.trash_busy {
                    self
                } else {
                    self.rejected_opened()
                },
                Command::MoveDeletedCurrent => self.current_moved(),
                Command::MoveDeletedRejected => self.rejects_moved(),
                Command::Filter(filter) => self.filtered(filter),
                Command::Fullscreen => self.posted(Act::Fullscreen),
                Command::Filmstrip => self.strip_toggled(),
                Command::Brighten => self.brightened(brighter(self.settings.brightness_steps)),
                Command::Darken => self.brightened(darker(self.settings.brightness_steps)),
                Command::ResetBrightness => self.brightened(0),
                Command::ZoomLock => self.zoom_toggled(),
                Command::AutoAdvance => self.advance_toggled(),
                Command::UndoRating => self.undone(),
                Command::Pin => self.pin_changed(false),
                Command::ReplacePin => self.pin_changed(true),
                Command::Fit => self.posted(Act::Fit),
                Command::Fill => self.posted(Act::Fill),
                Command::Actual => self.posted(Act::ActualSize),
                Command::TrashCurrent => self.trash_sought(true),
                Command::TrashRejected => self.trash_sought(false),
                Command::Help => self.posted(Act::Help),
            }
        }
    }

    /// A key is obeyed.
    #[verifier::opaque]
    pub open spec fn keyed(self, action: KeyAction) -> Model {
        if self.quitting {
            self
        } else {
            match action {
                KeyAction::Nothing => self,
                KeyAction::MoveCurrent => self.current_moved(),
                KeyAction::Next => self.navigated(1),
                KeyAction::Previous => self.navigated(-1),
                KeyAction::Rate(stars) => self.rated(stars),
                KeyAction::Run(command) => self.commanded(command),
                KeyAction::Fullscreen => self.posted(Act::Fullscreen),
                KeyAction::Peek => if self.current() is Some && self.current()
                    == self.screen.displayed {
                    self.posted(Act::BeginPeek)
                } else {
                    self
                },
                KeyAction::ToggleFitActual => self.posted(Act::ToggleFit),
                KeyAction::ZoomIn => self.posted(Act::Zoom(true)),
                KeyAction::ZoomOut => self.posted(Act::Zoom(false)),
            }
        }
    }
}

/// A third of a stop more.
pub open spec fn brighter(steps: i8) -> i8 {
    if steps == i8::MAX {
        i8::MAX
    } else {
        (steps + 1) as i8
    }
}

/// A third of a stop less.
pub open spec fn darker(steps: i8) -> i8 {
    if steps == i8::MIN {
        i8::MIN
    } else {
        (steps - 1) as i8
    }
}

/// The brightness stays within its range, whatever is asked for, and is saved
/// whenever it changes.
pub proof fn law_brightness_is_bounded(m: Model, steps: i8)
    requires
        !m.settings.brightness_changed || -9 <= m.settings.brightness_steps <= 9,
    ensures
        -9 <= m.brightened(steps).settings.brightness_steps <= 9,
        m.brightened(steps).settings.brightness_changed,
        m.brightened(steps).info == m.info,
        m.brightened(steps).selection == m.selection,
{
    reveal(Model::brightened);
    reveal(Model::strip_shown);
}

/// What the user changed since the start is not overwritten by what was
/// remembered.
pub proof fn law_choices_win_over_the_last_time(m: Model, was: session::Session)
    ensures
        m.settings.zoom_changed ==> m.settings_restored(was).settings.zoom_locked
            == m.settings.zoom_locked,
        m.settings.auto_changed ==> m.settings_restored(was).settings.auto_advance
            == m.settings.auto_advance,
        m.settings.brightness_changed ==> m.settings_restored(was).settings.brightness_steps
            == m.settings.brightness_steps,
        !m.settings.zoom_changed ==> m.settings_restored(was).settings.zoom_locked
            == was.zoom_locked,
        !m.settings.auto_changed ==> m.settings_restored(was).settings.auto_advance
            == was.auto_advance,
        !m.settings.brightness_changed ==> m.settings_restored(was).settings.brightness_steps
            == was.brightness_steps,
{
    reveal(Model::zoom_restored);
    reveal(Model::advance_restored);
    reveal(Model::brightness_restored);
}

/// The program is not left before all ratings were given a chance to be saved,
/// and never while files are moved.
pub proof fn law_leaving_saves_first(m: Model, failures: usize)
    requires
        !m.quitting,
    ensures
        m.trash_busy ==> m.leaving() == m,
        !m.trash_busy ==> m.leaving().quitting && m.leaving().outbox.contains(Act::Flush),
        m.flushed(failures) == m,
        !m.trash_busy && failures > 0 ==> m.leaving().flushed(failures).outbox.last()
            == Act::AskRetry(failures),
{
    reveal(Model::leaving);
    reveal(Model::strip_shown);
    if !m.trash_busy {
        let s = (Model { quitting: true, ..m }).stopped();
        let at = s.outbox.len() + 2;
        let t = s.with_settings(Settings { restore_allowed: false, ..s.settings }).posted(
            Act::EndPeek,
        ).posted(Act::FlushSession).posted(Act::Flush);
        assert(t.outbox[at as int] == Act::Flush);
        assert(m.leaving() == t.message("Saving ratings..."@));
        assert(m.leaving().outbox[at as int] == Act::Flush);
    }
}

impl App {
    fn persist_preferences(&mut self)
        requires
            old(self).sound(),
        ensures
            final(self).sound(),
            final(self)@ == old(self)@.preferences_kept(),
    {
        let zoom = if self.settings.zoom_changed {
            Some(self.settings.zoom_locked)
        } else {
            None
        };
        let auto = if self.settings.auto_changed {
            Some(self.settings.auto_advance)
        } else {
            None
        };
        let brightness: Option<i8> = if self.settings.brightness_changed {
            Some(self.settings.brightness_steps)
        } else {
            None
        };
        self.post(Action::Preferences { zoom, auto, brightness });
    }

    /// Sets the brightness, within its range.
    pub fn set_brightness(&mut self, steps: i8)
        requires
            old(self).sound(),
        ensures
            final(self).sound(),
            final(self)@ == old(self)@.brightened(steps),
    {
        proof {
            reveal(Model::brightened);
        }
        let ghost before = self@;
        let level: i8 = clamp_brightness(steps);
        if self.settings.brightness_changed && self.settings.brightness_steps == level {
            return;
        }
        self.settings.brightness_steps = level;
        self.settings.brightness_changed = true;
        assert(self@ == before.with_settings(
            Settings { brightness_steps: level, brightness_changed: true, ..before.settings },
        ));
        self.post(Action::Brightness(level));
        self.persist_preferences();
        self.status();
    }

    fn restore_zoom(&mut self, locked: bool)
        requires
            old(self).sound(),
        ensures
            final(self).sound(),
            final(self)@ == old(self)@.zoom_restored(locked),
    {
        proof {
            reveal(Model::zoom_restored);
        }
        let ghost before = self@;
        if !self.settings.zoom_changed {
            self.settings.zoom_locked = locked;
            assert(self@ == before.with_settings(
                Settings { zoom_locked: locked, ..before.settings },
            ));
            self.post(Action::PreserveView(locked));
        }
    }

    fn restore_advance(&mut self, advance: bool)
        requires
            old(self).sound(),
        ensures
            final(self).sound(),
            final(self)@ == old(self)@.advance_restored(advance),
    {
        proof {
            reveal(Model::advance_restored);
        }
        let ghost before = self@;
        if !self.settings.auto_changed {
            self.settings.auto_advance = advance;
            assert(self@ == before.with_settings(
                Settings { auto_advance: advance, ..before.settings },
            ));
        }
    }

    fn restore_brightness(&mut self, steps: i8)
        requires
            old(self).sound(),
        ensures
            final(self).sound(),
            final(self)@ == old(self)@.brightness_restored(steps),
    {
        proof {
            reveal(Model::brightness_restored);
        }
        let ghost before = self@;
        if !self.settings.brightness_changed {
            self.settings.brightness_steps = steps;
            assert(self@ == before.with_settings(
                Settings { brightness_steps: steps, ..before.settings },
            ));
            self.post(Action::Brightness(steps));
        }
    }

    fn resume(&mut self, was: &SessionState, at: Option<PhotoPath>)
        requires
            old(self).sound(),
        ensures
            final(self).sound(),
            final(self)@ == old(self)@.resumed(was@, path::written(at)),
    {
        proof {
            reveal(Model::resumed);
        }
        let ghost s = self@;
        if self.settings.restore_allowed {
            self.settings.restore_allowed = false;
            assert(self@ == s.with_settings(Settings { restore_allowed: false, ..s.settings }));
            match at {
                Some(at) => {
                    self.open(at);
                },
                None => {
                    if was.photo.is_some() || was.folder.is_some() {
                        self.message("Previous folder unavailable. Cmd+O opens a folder.");
                    }
                },
            }
        }
    }

    /// Takes in what was remembered of the last time.
    pub fn session_loaded(&mut self, was: &SessionState, resume: Option<PhotoPath>)
        requires
            old(self).sound(),
        ensures
            final(self).sound(),
            final(self)@ == old(self)@.session_restored(was@, path::written(resume)),
    {
        self.restore_zoom(was.zoom_locked);
        self.restore_advance(was.auto_advance);
        self.restore_brightness(was.brightness_steps);
        self.resume(was, resume);
        self.status();
    }

    /// Takes in that the session could not be saved.
    pub fn session_unsaved(&mut self)
        requires
            old(self).sound(),
        ensures
            final(self).sound(),
            final(self)@ == old(self)@.message("Could not save last-viewed position (see log)"@),
    {
        self.message("Could not save last-viewed position (see log)");
    }

    /// Leaves the program, once everything is saved.
    pub fn quit(&mut self)
        requires
            old(self).sound(),
        ensures
            final(self).sound(),
            final(self)@ == old(self)@.leaving(),
    {
        proof {
            reveal(Model::leaving);
        }
        let ghost before = self@;
        if self.quitting || self.trash_busy {
            return;
        }
        self.quitting = true;
        assert(self@ == (Model { quitting: true, ..before }));
        self.stop_thumbnail_work();
        let ghost s = self@;
        self.settings.restore_allowed = false;
        assert(self@ == s.with_settings(Settings { restore_allowed: false, ..s.settings }));
        self.post(Action::EndPeek);
        self.post(Action::FlushSession);
        self.post(Action::Flush);
        self.message("Saving ratings...");
    }

    /// Takes in that everything was saved, or not.
    pub fn ratings_flushed(&mut self, failures: usize)
        requires
            old(self).sound(),
        ensures
            final(self).sound(),
            final(self)@ == old(self)@.flushed(failures),
    {
        if self.quitting {
            if failures == 0 {
                self.post(Action::Exit);
            } else {
                self.post(Action::AskRetry(failures));
            }
        }
    }

    fn stay(&mut self)
        requires
            old(self).sound(),
        ensures
            final(self).sound(),
            final(self)@ == old(self)@.stayed(),
    {
        proof {
            reveal(Model::stayed);
        }
        let ghost before = self@;
        self.quitting = false;
        let ghost s = Model { quitting: false, ..before };
        assert(self@ == s);
        if !self.listing.index_complete {
            self.listing.index_started = false;
            self.listing.ratings_read = 0;
            self.listing.rating_errors = 0;
            assert(self@ == s.with_listing(
                ListingModel {
                    index_started: false,
                    ratings_read: 0,
                    rating_errors: 0,
                    ..s.listing
                },
            ));
            self.start_rating_index();
        }
        self.message("Unsaved ratings");
    }

    /// Does what the user wants about ratings that could not be saved.
    pub fn retry_chosen(&mut self, choice: Choice)
        requires
            old(self).sound(),
        ensures
            final(self).sound(),
            final(self)@ == old(self)@.chosen(choice),
    {
        match choice {
            Choice::Retry => {
                self.post(Action::RetryFailed);
            },
            Choice::QuitAnyway => {
                self.post(Action::Exit);
            },
            Choice::Cancel => {
                self.stay();
            },
        }
    }

    /// Moves rejected photographs to the trash, as the user agreed.
    pub fn trash_confirmed(&mut self, photos: Vec<PhotoPath>)
        requires
            old(self).sound(),
        ensures
            final(self).sound(),
            final(self)@ == old(self)@.posted(
                Act::Trash(old(self)@.session, path::spellings(photos@)),
            ).message("Moving rejected photos to Trash..."@),
    {
        let session: u64 = self.session;
        self.post(Action::Trash { session, photos });
        self.message("Moving rejected photos to Trash...");
    }

    /// Takes in that photographs went to the trash.
    pub fn trashed(&mut self, session: u64, errors: &Vec<String>)
        requires
            old(self).sound(),
        ensures
            final(self).sound(),
            final(self)@ == old(self)@.trash_reported(session, text::texts(errors@)),
    {
        proof {
            reveal(Model::trash_reported);
        }
        let ghost before = self@;
        if session != self.session {
            return;
        }
        self.trash_busy = false;
        assert(self@ == (Model { trash_busy: false, ..before }));
        if errors.len() > 0 {
            self.post(
                Action::Alert {
                    title: "Some photos could not be moved".to_owned(),
                    text: text::join(errors, "\n"),
                },
            );
        }
        let folder = match &self.listing.folder {
            Some(folder) => folder.copied(),
            None => {
                return;
            },
        };
        self.open(folder);
    }

    fn toggle_zoom(&mut self)
        requires
            old(self).sound(),
        ensures
            final(self).sound(),
            final(self)@ == old(self)@.zoom_toggled(),
    {
        proof {
            reveal(Model::zoom_toggled);
        }
        let locked = !self.settings.zoom_locked;
        self.post(Action::EndPeek);
        let ghost s = self@;
        self.settings.zoom_locked = locked;
        self.settings.zoom_changed = true;
        assert(self@ == s.with_settings(
            Settings { zoom_locked: locked, zoom_changed: true, ..s.settings },
        ));
        self.post(Action::PreserveView(locked));
        self.persist_preferences();
        self.message(
            if locked {
                "Zoom and position locked across photos"
            } else {
                "New photos fit to window"
            },
        );
    }

    fn toggle_advance(&mut self)
        requires
            old(self).sound(),
        ensures
            final(self).sound(),
            final(self)@ == old(self)@.advance_toggled(),
    {
        proof {
            reveal(Model::advance_toggled);
        }
        let ghost s = self@;
        let advance = !self.settings.auto_advance;
        self.settings.auto_advance = advance;
        self.settings.auto_changed = true;
        assert(self@ == s.with_settings(
            Settings { auto_advance: advance, auto_changed: true, ..s.settings },
        ));
        self.persist_preferences();
        self.message(
            if advance {
                "Auto-advance on: assigning a rating opens next photo"
            } else {
                "Auto-advance off"
            },
        );
    }

    fn open_rejected(&mut self)
        requires
            old(self).sound(),
        ensures
            final(self).sound(),
            final(self)@ == old(self)@.rejected_opened(),
    {
        proof {
            reveal(Model::rejected_opened);
        }
        let folder = match &self.listing.folder {
            Some(folder) => folder.copied(),
            None => {
                return;
            },
        };
        if is_rejected_folder(&folder) {
            self.message("Already viewing the _Rejected folder");
        } else {
            proof {
                deleted::lemma_plain_words();
            }
            let at = folder.join("_Rejected".as_bytes());
            self.open(at);
        }
    }

    fn seek_trash(&mut self, current: bool)
        requires
            old(self).sound(),
        ensures
            final(self).sound(),
            final(self)@ == old(self)@.trash_sought(current),
    {
        proof {
            reveal(Model::trash_sought);
        }
        if self.trash_busy || self.rehearsal {
            return;
        }
        let photos = if current {
            let mut photos: Vec<PhotoPath> = Vec::new();
            match self.current() {
                Some(photo) => {
                    photos.push(photo);
                },
                None => {},
            }
            proof {
                let want = match self@.current_written() {
                    Some(photo) => seq![photo],
                    None => Seq::empty(),
                };
                assert(path::spellings(photos@) =~= want);
            }
            photos
        } else {
            path::copy_list(&self.listing.all)
        };
        self.seek_rejects(false, photos);
    }

    /// Carries out a command.
    pub fn command(&mut self, command: Command)
        requires
            old(self).sound(),
        ensures
            final(self).sound(),
            final(self)@ == old(self)@.commanded(command),
    {
        proof {
            reveal(Model::commanded);
        }
        let ghost before = self@;
        if self.quitting {
            return;
        }
        match command {
            Command::Open => {
                if !self.trash_busy {
                    self.settings.restore_allowed = false;
                    assert(self@ == before.with_settings(
                        Settings { restore_allowed: false, ..before.settings },
                    ));
                    self.post(Action::PickFolder);
                }
            },
            Command::Quit => self.quit(),
            Command::OpenDeleted => {
                if !self.trash_busy {
                    self.open_rejected();
                }
            },
            Command::MoveDeletedCurrent => self.move_current_to_deleted(),
            Command::MoveDeletedRejected => self.collect_deleted(),
            Command::Filter(filter) => self.set_filter(filter),
            Command::Fullscreen => self.post(Action::Fullscreen),
            Command::Filmstrip => self.toggle_filmstrip(),
            Command::Brighten => {
                let steps: i8 = self.settings.brightness_steps;
                self.set_brightness(
                    if steps == i8::MAX {
                        steps
                    } else {
                        steps + 1
                    },
                );
            },
            Command::Darken => {
                let steps: i8 = self.settings.brightness_steps;
                self.set_brightness(
                    if steps == i8::MIN {
                        steps
                    } else {
                        steps - 1
                    },
                );
            },
            Command::ResetBrightness => self.set_brightness(0),
            Command::ZoomLock => self.toggle_zoom(),
            Command::AutoAdvance => self.toggle_advance(),
            Command::UndoRating => self.undo_rating(),
            Command::Pin => self.pin_current(false),
            Command::ReplacePin => self.pin_current(true),
            Command::Fit => self.post(Action::Fit),
            Command::Fill => self.post(Action::Fill),
            Command::Actual => self.post(Action::ActualSize),
            Command::TrashCurrent => self.seek_trash(true),
            Command::TrashRejected => self.seek_trash(false),
            Command::Help => self.post(Action::Help),
        }
    }

    /// Obeys a key.
    pub fn key(&mut self, action: KeyAction)
        requires
            old(self).sound(),
        ensures
            final(self).sound(),
            final(self)@ == old(self)@.keyed(action),
    {
        proof {
            reveal(Model::keyed);
        }
        if self.quitting {
            return;
        }
        match action {
            KeyAction::Nothing => {},
            KeyAction::MoveCurrent => self.move_current_to_deleted(),
            KeyAction::Next => self.navigate(1),
            KeyAction::Previous => self.navigate(-1),
            KeyAction::Rate(stars) => self.rating(stars),
            KeyAction::Run(command) => self.command(command),
            KeyAction::Fullscreen => self.post(Action::Fullscreen),
            KeyAction::Peek => {
                let current = self.current();
                if current.is_some() && same_choice(&current, &self.screen.displayed) {
                    self.post(Action::BeginPeek);
                }
            },
            KeyAction::ToggleFitActual => self.post(Action::ToggleFit),
            KeyAction::ZoomIn => self.post(Action::Zoom { closer: true }),
            KeyAction::ZoomOut => self.post(Action::Zoom { closer: false }),
        }
    }
}

} // verus!
