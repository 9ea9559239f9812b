//! The steps that are due, one after the other.
use crate::app::state::{Act, Action, App, Due, Model, Picture, Todo};
use crate::path::{Identity, PhotoPath};
use vstd::prelude::*;

verus! {

/// What has to be known before the next step.
#[derive(Debug)]
pub enum Question {
    /// Nothing.
    Ready,
    /// Whether an upload of a photograph is under way, which then counts for a
    /// request.
    Retarget { session: u64, photo: PhotoPath, generation: u64 },
    /// What is decoded of a photograph.
    Cached(usize),
    /// How much memory is free.
    Available,
}

/// What is known.
#[derive(Clone, Copy, Debug, PartialEq, Eq, Structural)]
pub enum Answer {
    Ready,
    Retargeted(bool),
    Cached(Option<Picture>),
    Available(usize),
}

/// What a `Question` says.
pub enum Wanted {
    Ready,
    Retarget(u64, Seq<u8>, u64),
    Cached(usize),
    Available,
}

impl View for Question {
    type V = Wanted;

    open spec fn view(&self) -> Wanted {
        match self {
            Question::Ready => Wanted::Ready,
            Question::Retarget { session, photo, generation } => Wanted::Retarget(
                *session,
                photo.raw(),
                *generation,
            ),
            Question::Cached(index) => Wanted::Cached(*index),
            Question::Available => Wanted::Available,
        }
    }
}

impl Model {
    /// What has to be known before a step.
    pub open spec fn wanted(self, due: Due) -> Wanted {
        match due {
            Due::Requested(_, photo, generation) => Wanted::Retarget(
                self.session,
                photo,
                generation,
            ),
            Due::Ahead(index, _) => Wanted::Cached(index),
            Due::Decoded(index, _, _, _, _) => Wanted::Cached(index),
            Due::Thumbnails(index, _) => Wanted::Cached(index),
            Due::AheadRoom(_, _, _) => Wanted::Available,
            Due::AheadBeside(_, _, _) => Wanted::Available,
            Due::Pressure(_) => Wanted::Available,
            Due::PressureBeside(_) => Wanted::Available,
            Due::Room(_, _, _, _) => Wanted::Available,
            _ => Wanted::Ready,
        }
    }

    /// After a step that needs no answer.
    #[verifier::opaque]
    pub open spec fn advanced(self, due: Due) -> Model {
        match due {
            Due::Request => self.requested(),
            Due::Settle(discard) => self.settled(discard),
            Due::Refresh => self.refreshed(self.current()),
            Due::Refreshed => self.explained(),
            Due::Status => self.told(),
            Due::Arm => self.armed(),
            Due::Tell(text) => self.message(text),
            Due::Warn(title, text) => self.posted(Act::Alert(title, text)),
            _ => self,
        }
    }

    /// After a step that needs to know what is decoded.
    #[verifier::opaque]
    pub open spec fn cache_answered(self, due: Due, picture: Option<Picture>) -> Model {
        match due {
            Due::Ahead(_, photo) => self.ahead_found(photo, picture),
            Due::Decoded(_, photo, generation, hit, prefetched) => self.picture_found(
                photo,
                generation,
                hit,
                prefetched,
                picture,
            ),
            Due::Thumbnails(_, grace) => self.thumbnails_asked(grace, picture is Some),
            _ => self,
        }
    }

    /// After a step that needs to know how much memory is free.
    #[verifier::opaque]
    pub open spec fn memory_answered(self, due: Due, available: usize) -> Model {
        match due {
            Due::AheadRoom(photo, picture, needed) => self.ahead_room(
                photo,
                picture,
                needed,
                available,
            ),
            Due::AheadBeside(photo, picture, needed) => self.ahead_beside(
                photo,
                picture,
                needed,
                available,
            ),
            Due::Pressure(needed) => self.pressed(needed, available),
            Due::PressureBeside(needed) => self.pressed_beside(needed, available),
            Due::Room(photo, generation, picture, needed) => self.picture_placed(
                photo,
                generation,
                picture,
                needed,
                available,
            ),
            _ => self,
        }
    }

    /// After the next step.
    #[verifier::opaque]
    pub open spec fn stepped(self, answer: Answer) -> Model {
        if self.agenda.len() == 0 {
            self
        } else {
            let due = self.agenda.last();
            let s = Model { agenda: self.agenda.drop_last(), ..self };
            match answer {
                Answer::Ready => s.advanced(due),
                Answer::Retargeted(retargeted) => match due {
                    Due::Requested(index, photo, generation) => s.request_placed(
                        index,
                        photo,
                        generation,
                        retargeted,
                    ),
                    _ => s,
                },
                Answer::Cached(picture) => s.cache_answered(due, picture),
                Answer::Available(available) => s.memory_answered(due, available),
            }
        }
    }
}

impl App {
    /// What has to be known before the next step. Nothing is due if there is no
    /// question.
    pub fn question(&self) -> (out: Option<Question>)
        ensures
            match out {
                None => self@.agenda.len() == 0,
                Some(question) => self@.agenda.len() > 0 && question@ == self@.wanted(
                    self@.agenda.last(),
                ),
            },
    {
        proof {
            reveal(crate::app::state::dues);
        }
        let n: usize = self.agenda.len();
        if n == 0 {
            return None;
        }
        assert(self@.agenda.last() == self.agenda@[n - 1]@);
        Some(
            match &self.agenda[n - 1] {
                Todo::Requested { photo, generation, .. } => Question::Retarget {
                    session: self.session,
                    photo: photo.copied(),
                    generation: *generation,
                },
                Todo::Ahead { index, .. } => Question::Cached(*index),
                Todo::Decoded { index, .. } => Question::Cached(*index),
                Todo::Thumbnails { index, .. } => Question::Cached(*index),
                Todo::AheadRoom { .. } => Question::Available,
                Todo::AheadBeside { .. } => Question::Available,
                Todo::Pressure { .. } => Question::Available,
                Todo::PressureBeside { .. } => Question::Available,
                Todo::Room { .. } => Question::Available,
                _ => Question::Ready,
            },
        )
    }

    fn advance(&mut self, todo: Todo)
        requires
            old(self).sound(),
        ensures
            final(self).sound(),
            final(self)@ == old(self)@.advanced(todo@),
    {
        proof {
            reveal(Model::advanced);
        }
        match todo {
            Todo::Request => self.request_current(),
            Todo::Settle { discard } => self.settle(discard),
            Todo::Refresh => {
                let current = self.current();
                self.refresh_visible(current);
            },
            Todo::Refreshed => self.explain(),
            Todo::Status => self.status(),
            Todo::Arm => self.arm_thumbnails(),
            Todo::Tell(text) => self.message(text.as_str()),
            Todo::Warn { title, text } => self.post(Action::Alert { title, text }),
            _ => {},
        }
    }

    fn answer_cache(&mut self, todo: Todo, picture: Option<Picture>)
        requires
            old(self).sound(),
        ensures
            final(self).sound(),
            final(self)@ == old(self)@.cache_answered(todo@, picture),
    {
        proof {
            reveal(Model::cache_answered);
        }
        match todo {
            Todo::Ahead { photo, .. } => self.find_ahead(photo, picture),
            Todo::Decoded { photo, generation, hit, prefetched, .. } => self.find_picture(
                photo,
                generation,
                hit,
                prefetched,
                picture,
            ),
            Todo::Thumbnails { grace, .. } => self.ask_thumbnails(grace, picture.is_some()),
            _ => {},
        }
    }

    fn answer_memory(&mut self, todo: Todo, available: usize)
        requires
            old(self).sound(),
        ensures
            final(self).sound(),
            final(self)@ == old(self)@.memory_answered(todo@, available),
    {
        proof {
            reveal(Model::memory_answered);
        }
        match todo {
            Todo::AheadRoom { photo, picture, needed } => self.make_room_ahead(
                photo,
                picture,
                needed,
                available,
            ),
            Todo::AheadBeside { photo, picture, needed } => self.upload_beside(
                photo,
                picture,
                needed,
                available,
            ),
            Todo::Pressure { needed } => self.relieve(needed, available),
            Todo::PressureBeside { needed } => self.relieve_beside(needed, available),
            Todo::Room { photo, generation, picture, needed } => self.place_picture(
                photo,
                generation,
                picture,
                needed,
                available,
            ),
            _ => {},
        }
    }

    /// Takes the next step, with the answer to its question. An answer to another
    /// question takes the step off the agenda, and nothing more.
    pub fn step(&mut self, answer: Answer)
        requires
            old(self).sound(),
        ensures
            final(self).sound(),
            final(self)@ == old(self)@.stepped(answer),
    {
        proof {
            reveal(Model::stepped);
        }
        let ghost before = self@;
        let todo = match self.agenda.pop() {
            Some(todo) => todo,
            None => {
                assert(before.agenda.len() == 0) by {
                    reveal(crate::app::state::dues);
                }
                return;
            },
        };
        proof {
            reveal(crate::app::state::dues);
            assert(crate::app::state::dues(self.agenda@) =~= before.agenda.drop_last());
            assert(todo@ == before.agenda.last());
            assert(self@ == (Model { agenda: before.agenda.drop_last(), ..before }));
        }
        match answer {
            Answer::Ready => self.advance(todo),
            Answer::Retargeted(retargeted) => match todo {
                Todo::Requested { index, photo, generation } => self.place_request(
                    index,
                    photo,
                    generation,
                    retargeted,
                ),
                _ => {},
            },
            Answer::Cached(picture) => self.answer_cache(todo, picture),
            Answer::Available(available) => self.answer_memory(todo, available),
        }
    }
}

} // verus!
