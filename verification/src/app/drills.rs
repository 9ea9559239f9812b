//! Shortcuts that the rehearsal presses, and what may not change meanwhile.
use crate::app::deleted;
use crate::app::menu::Command;
use crate::app::smoke::Mark;
use crate::app::state::{App, Model};
use crate::app::strip::same_choice;
use crate::app::textures;
use crate::app::textures::{Shelf, Texture};
use crate::path::{Identity, PhotoPath};
use crate::text;
use vstd::prelude::*;

verus! {

/// A key that zooms.
#[derive(Clone, Copy, Debug)]
pub struct ZoomKey {
    pub key: &'static str,
    pub held: bool,
    /// The scale that it leads to from the size of the pixels, in parts of ten
    /// thousand.
    pub scale: u32,
}

/// What is pressed to zoom: large letters and small ones, held or not.
pub open spec fn zooming() -> Seq<(Seq<char>, bool, u32)> {
    seq![
        ("S"@, false, 12500u32),
        ("s"@, true, 15625u32),
        ("D"@, false, 12500u32),
        ("d"@, true, 10000u32),
    ]
}

/// What is pressed to zoom.
pub fn zoom_keys() -> (out: Vec<ZoomKey>)
    ensures
        out@.map_values(|k: ZoomKey| (k.key@, k.held, k.scale)) == zooming(),
{
    let out = vec![
        ZoomKey { key: "S", held: false, scale: 12500 },
        ZoomKey { key: "s", held: true, scale: 15625 },
        ZoomKey { key: "D", held: false, scale: 12500 },
        ZoomKey { key: "d", held: true, scale: 10000 },
    ];
    assert(out@.map_values(|k: ZoomKey| (k.key@, k.held, k.scale)) =~= zooming());
    out
}

/// What zooming leaves alone.
#[derive(Debug)]
pub struct Still {
    pub mark: Mark,
    pub session: u64,
    /// The texture on screen.
    pub texture: u64,
}

/// The texture on screen.
pub open spec fn shown_texture(m: Model) -> Option<Texture> {
    match m.screen.displayed {
        Some(photo) => textures::texture_of(m.screen.textures, photo),
        None => None,
    }
}

fn find_shown(app: &App) -> (out: Option<Texture>)
    ensures
        out == shown_texture(app@),
{
    match &app.screen.displayed {
        Some(photo) => app.screen.textures.find(photo),
        None => None,
    }
}

impl Still {
    /// Whether this is what is on screen.
    pub open spec fn is_of(self, m: Model) -> bool {
        &&& self.mark.marks(m)
        &&& self.session == m.session
        &&& shown_texture(m) is Some && (shown_texture(m)->0).id == self.texture
    }

    /// What is on screen, if anything is.
    pub fn new(app: &App) -> (out: Result<Self, String>)
        ensures
            match shown_texture(app@) {
                Some(_) => out is Ok && (out->Ok_0).is_of(app@),
                None => out is Err && out->Err_0@
                    == "no displayed GPU texture for zoom shortcut check"@,
            },
    {
        match find_shown(app) {
            Some(texture) => Ok(
                Still { mark: Mark::new(app), session: app.session, texture: texture.id },
            ),
            None => Err("no displayed GPU texture for zoom shortcut check".to_owned()),
        }
    }

    /// Makes sure that a key changed the scale, and nothing else.
    pub fn check(&self, app: &App, scaled: bool) -> (out: Result<(), String>)
        ensures
            text::same(
                out,
                if !scaled {
                    Err("S/D press or repeat did not apply incremental zoom"@)
                } else if !self.is_of(app@) {
                    Err("S/D changed main selection, loading, or GPU texture"@)
                } else {
                    Ok(())
                },
            ),
    {
        if !scaled {
            return Err("S/D press or repeat did not apply incremental zoom".to_owned());
        }
        let shown = match find_shown(app) {
            Some(texture) => texture.id == self.texture,
            None => false,
        };
        if shown && self.session == app.session && self.mark.is_on(app) {
            Ok(())
        } else {
            Err("S/D changed main selection, loading, or GPU texture".to_owned())
        }
    }
}

/// A key that changes the brightness, pressed once and then held.
#[derive(Clone, Copy, Debug)]
pub struct BrightnessKey {
    pub key: &'static str,
    pub count: usize,
    /// Thirds of a stop that it leads to.
    pub steps: i8,
    /// The name of the picture that is taken.
    pub name: &'static str,
}

/// What is pressed to change the brightness, beyond its bounds, too.
pub open spec fn brightening() -> Seq<(Seq<char>, usize, i8, Seq<char>)> {
    seq![
        ("\\"@, 1usize, 0i8, "original"@),
        ("]"@, 3usize, 3i8, "bright"@),
        ("["@, 6usize, -3i8, "dim"@),
        ("\\"@, 1usize, 0i8, "reset"@),
        ("]"@, 40usize, 9i8, "upper-limit"@),
        ("["@, 40usize, -9i8, "lower-limit"@),
    ]
}

/// What is pressed to change the brightness.
pub fn brightness_keys() -> (out: Vec<BrightnessKey>)
    ensures
        out@.map_values(|k: BrightnessKey| (k.key@, k.count, k.steps, k.name@)) == brightening(),
{
    let out = vec![
        BrightnessKey { key: "\\", count: 1, steps: 0, name: "original" },
        BrightnessKey { key: "]", count: 3, steps: 3, name: "bright" },
        BrightnessKey { key: "[", count: 6, steps: -3, name: "dim" },
        BrightnessKey { key: "\\", count: 1, steps: 0, name: "reset" },
        BrightnessKey { key: "]", count: 40, steps: 9, name: "upper-limit" },
        BrightnessKey { key: "[", count: 40, steps: -9, name: "lower-limit" },
    ];
    assert(out@.map_values(|k: BrightnessKey| (k.key@, k.count, k.steps, k.name@))
        =~= brightening());
    out
}

/// What the brightness leaves alone.
#[derive(Debug)]
pub struct Calm {
    pub current: Option<PhotoPath>,
    pub displayed: Option<PhotoPath>,
    pub generation: u64,
    pub requests: u64,
    /// The number of the last edit of a rating.
    pub revision: u64,
    pub textures: Vec<(PhotoPath, u64)>,
    pub thumbnails: Vec<(PhotoPath, u64)>,
}

/// Textures by their numbers.
pub open spec fn numbers(s: Seq<(Seq<u8>, Texture)>) -> Seq<(Seq<u8>, u64)> {
    s.map_values(|e: (Seq<u8>, Texture)| (e.0, e.1.id))
}

/// Photographs and numbers.
pub open spec fn held(list: Seq<(PhotoPath, u64)>) -> Seq<(Seq<u8>, u64)> {
    list.map_values(|e: (PhotoPath, u64)| (e.0@, e.1))
}

fn list_numbers(shelf: &Shelf<PhotoPath>) -> (out: Vec<(PhotoPath, u64)>)
    ensures
        held(out@) == numbers(shelf@),
{
    let mut out: Vec<(PhotoPath, u64)> = Vec::new();
    let mut i: usize = 0;
    while i < shelf.entries.len()
        invariant
            i <= shelf.entries@.len(),
            shelf@.len() == shelf.entries@.len(),
            held(out@) =~= numbers(shelf@).take(i as int),
        decreases shelf.entries@.len() - i,
    {
        let (photo, texture) = &shelf.entries[i];
        let ghost before = held(out@);
        assert(shelf@[i as int] == (photo@, *texture));
        out.push((photo.copied(), texture.id));
        assert(held(out@) =~= before.push((photo@, texture.id)));
        i += 1;
    }
    assert(numbers(shelf@).take(i as int) =~= numbers(shelf@));
    out
}

fn same_numbers(list: &Vec<(PhotoPath, u64)>, shelf: &Shelf<PhotoPath>) -> (out: bool)
    ensures
        out == (held(list@) == numbers(shelf@)),
{
    let ghost a = held(list@);
    let ghost b = numbers(shelf@);
    if list.len() != shelf.entries.len() {
        assert(a.len() != b.len());
        return false;
    }
    let mut i: usize = 0;
    while i < list.len()
        invariant
            i <= list@.len(),
            list@.len() == shelf.entries@.len(),
            a == held(list@),
            b == numbers(shelf@),
            a.len() == list@.len(),
            b.len() == list@.len(),
            forall|j: int| 0 <= j < i ==> a[j] == b[j],
        decreases list@.len() - i,
    {
        let (photo, id) = &list[i];
        let (other, texture) = &shelf.entries[i];
        assert(a[i as int] == (photo@, *id));
        assert(b[i as int] == (other@, texture.id));
        if *id != texture.id || !photo.same(other) {
            return false;
        }
        i += 1;
    }
    assert(a =~= b);
    true
}

impl Calm {
    /// Whether this is how things are.
    pub open spec fn is_of(self, m: Model) -> bool {
        &&& deleted::place(self.current) == m.current()
        &&& deleted::place(self.displayed) == m.screen.displayed
        &&& self.generation == m.generation
        &&& self.requests == m.tally.requests
        &&& self.revision == m.ledger.revision_sequence
        &&& held(self.textures@) == numbers(m.screen.textures)
        &&& held(self.thumbnails@) == numbers(m.strip.cache)
    }

    pub fn new(app: &App) -> (out: Self)
        ensures
            out.is_of(app@),
    {
        let displayed = match &app.screen.displayed {
            Some(photo) => Some(photo.copied()),
            None => None,
        };
        Calm {
            current: app.current(),
            displayed,
            generation: app.generation,
            requests: app.tally.requests,
            revision: app.ledger.revision_sequence,
            textures: list_numbers(&app.screen.textures),
            thumbnails: list_numbers(&app.strip.cache),
        }
    }

    fn holds(&self, app: &App) -> (out: bool)
        ensures
            out == self.is_of(app@),
    {
        let current = app.current();
        same_choice(&self.current, &current) && same_choice(&self.displayed, &app.screen.displayed)
            && self.generation == app.generation && self.requests == app.tally.requests
            && self.revision == app.ledger.revision_sequence && same_numbers(
            &self.textures,
            &app.screen.textures,
        ) && same_numbers(&self.thumbnails, &app.strip.cache)
    }

    /// Makes sure that keys changed the brightness, and nothing else. `drawn` is
    /// whether the picture has the brightness that is set.
    pub fn check(&self, app: &App, steps: i8, drawn: bool) -> (out: Result<(), String>)
        ensures
            text::same(
                out,
                if app@.settings.brightness_steps != steps || !drawn {
                    Err("brightness shortcut/repeat/clamp did not reach expected value"@)
                } else if !self.is_of(app@) {
                    Err(
                        "brightness changed selection, load requests, ratings or cached textures"@,
                    )
                } else {
                    Ok(())
                },
            ),
    {
        if app.settings.brightness_steps != steps || !drawn {
            Err("brightness shortcut/repeat/clamp did not reach expected value".to_owned())
        } else if !self.holds(app) {
            Err(
                "brightness changed selection, load requests, ratings or cached textures".to_owned(),
            )
        } else {
            Ok(())
        }
    }
}

/// Makes sure that a key with a modifier left the brightness alone.
pub fn check_ignored(app: &App) -> (out: Result<(), String>)
    ensures
        text::same(
            out,
            if app@.settings.brightness_steps == 0 {
                Ok(())
            } else {
                Err("modified brightness key was not ignored"@)
            },
        ),
{
    if app.settings.brightness_steps == 0 {
        Ok(())
    } else {
        Err("modified brightness key was not ignored".to_owned())
    }
}

/// A key that is held while another one is pressed.
#[derive(Clone, Copy, Debug, PartialEq, Eq, Structural)]
pub enum Held {
    Super,
    Control,
    Alt,
}

/// A part of the end of the brightness drill.
#[derive(Clone, Copy, Debug, PartialEq, Eq, Structural)]
pub enum Exercise {
    /// Press the key for the brightness of the file.
    Reset,
    /// Press the key for more brightness beside another one.
    Brighter(Held),
    /// Make sure that it was ignored.
    CheckIgnored,
    Run(Command),
}

/// How the brightness drill ends: keys beside modifiers are ignored, and what
/// follows is seen one stop brighter.
pub open spec fn exercises() -> Seq<Exercise> {
    seq![
        Exercise::Reset,
        Exercise::Brighter(Held::Super),
        Exercise::CheckIgnored,
        Exercise::Brighter(Held::Control),
        Exercise::CheckIgnored,
        Exercise::Brighter(Held::Alt),
        Exercise::CheckIgnored,
        Exercise::Run(Command::Brighten),
        Exercise::Run(Command::Brighten),
        Exercise::Run(Command::Brighten),
    ]
}

/// How the brightness drill ends.
pub fn brightness_end() -> (out: Vec<Exercise>)
    ensures
        out@ == exercises(),
{
    let out = vec![
        Exercise::Reset,
        Exercise::Brighter(Held::Super),
        Exercise::CheckIgnored,
        Exercise::Brighter(Held::Control),
        Exercise::CheckIgnored,
        Exercise::Brighter(Held::Alt),
        Exercise::CheckIgnored,
        Exercise::Run(Command::Brighten),
        Exercise::Run(Command::Brighten),
        Exercise::Run(Command::Brighten),
    ];
    assert(out@ =~= exercises());
    out
}

/// Why there is no photograph on screen, if there is none.
pub open spec fn nothing_shown(m: Model) -> Option<Seq<char>> {
    match m.screen.displayed {
        None => Some("no displayed smoke photo"@),
        Some(photo) => match textures::texture_of(m.screen.textures, photo) {
            None => Some("no displayed smoke texture"@),
            Some(_) => None,
        },
    }
}

fn not_shown(app: &App) -> (out: Option<String>)
    ensures
        text::same_option(out, nothing_shown(app@)),
{
    match &app.screen.displayed {
        None => Some("no displayed smoke photo".to_owned()),
        Some(photo) => match app.screen.textures.find(photo) {
            None => Some("no displayed smoke texture".to_owned()),
            Some(_) => None,
        },
    }
}

/// Makes sure that the view of a photograph may be compared with that of the next
/// one: zoom is kept, by the program and in the window.
pub fn mark_zoom(app: &App, preserved: bool) -> (out: Result<(), String>)
    ensures
        text::same(
            out,
            match nothing_shown(app@) {
                Some(error) => Err(error),
                None => if app@.settings.zoom_locked && preserved {
                    Ok(())
                } else {
                    Err("zoom retention is not enabled for navigation check"@)
                },
            },
        ),
{
    if let Some(error) = not_shown(app) {
        return Err(error);
    }
    if app.settings.zoom_locked && preserved {
        Ok(())
    } else {
        Err("zoom retention is not enabled for navigation check".to_owned())
    }
}

/// Makes sure that the view of the last photograph was taken over. `same` is
/// whether it was, if one was marked.
pub fn check_zoom(app: &App, same: Option<bool>) -> (out: Result<(), String>)
    ensures
        text::same(
            out,
            match (same, nothing_shown(app@)) {
                (None, _) => Ok(()),
                (Some(_), Some(error)) => Err(error),
                (Some(true), None) => Ok(()),
                (Some(false), None) => Err("navigation lost zoom/subject position"@),
            },
        ),
{
    match same {
        None => Ok(()),
        Some(same) => match not_shown(app) {
            Some(error) => Err(error),
            None => if same {
                Ok(())
            } else {
                Err("navigation lost zoom/subject position".to_owned())
            },
        },
    }
}

} // verus!
