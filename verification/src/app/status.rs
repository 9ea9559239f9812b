//! The words in the status line and in the title.
use crate::app::info;
use crate::app::info::count_unsaved;
use crate::app::menu::Workflow;
use crate::app::saving;
use crate::app::saving::photo_name;
use crate::app::state::{App, Model};
use crate::app::strip::same_choice;
use crate::app::textures;
use crate::browser::filter::PhotoFilter;
use crate::path;
use crate::text;
use vstd::prelude::*;

verus! {

/// What the metadata of a photograph say, written as decimals: `1/250` or `2.0s`
/// for the exposure, `2.8` for the aperture, `50` for the focal length.
#[derive(Debug)]
pub struct Optics {
    pub exposure: Option<String>,
    pub aperture: Option<String>,
    pub focal: Option<String>,
}

/// The text of a part, behind some other text, or nothing.
pub open spec fn with_part(
    line: Seq<char>,
    before: Seq<char>,
    part: Option<String>,
    after: Seq<char>,
) -> Seq<char> {
    match part {
        Some(part) => line + before + part@ + after,
        None => line,
    }
}

/// The words for a rating.
pub open spec fn rating_text(rating: Option<i8>) -> Seq<char> {
    match rating {
        None => "..."@,
        Some(stars) => if stars == -1 {
            "REJECT"@
        } else if stars == 0 {
            "-"@
        } else if stars < 0 {
            ""@
        } else if stars == 1 {
            "*"@
        } else if stars == 2 {
            "**"@
        } else if stars == 3 {
            "***"@
        } else if stars == 4 {
            "****"@
        } else {
            "*****"@
        },
    }
}

fn rating_words(rating: Option<i8>) -> (out: &'static str)
    ensures
        out@ == rating_text(rating),
{
    match rating {
        None => "...",
        Some(stars) => if stars == -1 {
            "REJECT"
        } else if stars == 0 {
            "-"
        } else if stars < 0 {
            ""
        } else if stars == 1 {
            "*"
        } else if stars == 2 {
            "**"
        } else if stars == 3 {
            "***"
        } else if stars == 4 {
            "****"
        } else {
            "*****"
        },
    }
}

/// Thirds of a stop in hundredths of one, rounded to the nearest.
pub open spec fn hundredths(steps: i8) -> int {
    let size = if steps < 0 {
        -(steps as int)
    } else {
        steps as int
    };
    (size * 100 + 1) / 3
}

/// A brightness in stops, with a sign and two decimals.
pub open spec fn stops_text(steps: i8) -> Seq<char> {
    let h = hundredths(steps);
    let sign = if steps < 0 {
        "-"@
    } else {
        "+"@
    };
    sign + text::decimal(h / 100) + "."@ + text::decimal(h % 100 / 10) + text::decimal(h % 10)
}

fn stops_words(steps: i8) -> (out: String)
    ensures
        out@ == stops_text(steps),
{
    let size: u64 = if steps < 0 {
        (-(steps as i64)) as u64
    } else {
        steps as u64
    };
    let h: u64 = (size * 100 + 1) / 3;
    let mut out = if steps < 0 {
        "-".to_owned()
    } else {
        "+".to_owned()
    };
    text::append_number(&mut out, h / 100);
    out.append(".");
    text::append_number(&mut out, h % 100 / 10);
    text::append_number(&mut out, h % 10);
    out
}

impl Model {
    /// What is said of a photograph: its place, rating, name and size, how it was
    /// taken, and whether its rating is saved.
    #[verifier::opaque]
    pub open spec fn photo_line(self, photo: Seq<u8>, optics: Optics) -> Seq<char> {
        let known = info::info_of(self.info, photo);
        let index = match self.selection.index {
            Some(index) => index as int,
            None => 0,
        };
        let a = text::decimal(index + 1) + " / "@ + text::decimal(self.listing.files.len() as int)
            + "    "@ + rating_text(known.rating) + "    "@ + saving::name_text(photo);
        let b = match textures::texture_of(self.screen.textures, photo) {
            Some(texture) => a + "    "@ + text::decimal(texture.original_width as int) + "x"@
                + text::decimal(texture.original_height as int),
            None => a,
        };
        let c = match known.metadata {
            Some(metadata) => {
                let d = with_part(b, "    "@, optics.exposure, ""@);
                let e = with_part(d, "  f/"@, optics.aperture, ""@);
                let f = match metadata.iso {
                    Some(iso) => e + "  ISO "@ + text::decimal(iso as int),
                    None => e,
                };
                with_part(f, "  "@, optics.focal, "mm"@)
            },
            None => b,
        };
        if known.failed {
            c + "    XMP ERROR (see log)"@
        } else if known.dirty() {
            c + "    Saving..."@
        } else {
            c
        }
    }

    /// What is said of the view.
    #[verifier::opaque]
    pub open spec fn view_line(self, line: Seq<char>) -> Seq<char> {
        let a = if self.listing.scanning {
            line + "    Scanning..."@
        } else {
            line
        };
        let b = if self.settings.brightness_steps != 0 {
            "VIEW "@ + stops_text(self.settings.brightness_steps) + " EV    "@ + a
        } else {
            a
        };
        let c = if self.settings.zoom_locked {
            b + "    ZOOM LOCK"@
        } else {
            b
        };
        let d = if self.settings.auto_advance {
            c + "    AUTO NEXT"@
        } else {
            c
        };
        match self.screen.pinned {
            Some((photo, _)) => d + "    LEFT: "@ + saving::name_text(photo)
                + " | RIGHT: current"@,
            None => d,
        }
    }

    /// What is said of the filter.
    #[verifier::opaque]
    pub open spec fn filter_line(self, line: Seq<char>) -> Seq<char> {
        if self.listing.filter == PhotoFilter::All {
            line
        } else {
            let all = self.listing.all.len() as int;
            let a = self.listing.filter.name() + " ("@ + text::decimal(
                self.listing.files.len() as int,
            ) + "/"@ + text::decimal(all) + ")    "@ + line;
            let b = if !self.listing.index_complete && all > 0 {
                a + "    Reading ratings "@ + text::decimal(self.listing.ratings_read as int) + "/"@
                    + text::decimal(all) + "..."@
            } else {
                a
            };
            if self.listing.rating_errors > 0 {
                b + "    "@ + text::decimal(self.listing.rating_errors as int)
                    + " unreadable ratings (see log)"@
            } else {
                b
            }
        }
    }

    /// What is still to be done, and what was said last.
    #[verifier::opaque]
    pub open spec fn rest_line(self, line: Seq<char>) -> Seq<char> {
        let unsaved = info::unsaved(self.info).len();
        let a = if unsaved > 0 {
            line + "    "@ + text::decimal(unsaved as int) + " unsaved rating(s)"@
        } else {
            line
        };
        let b = if self.current() is Some && self.current() != self.screen.displayed {
            a + "    Loading..."@
        } else {
            a
        };
        if self.notice.len() > 0 {
            b + "    "@ + self.notice
        } else {
            b
        }
    }

    /// The status line.
    pub open spec fn status_line(self, optics: Optics) -> Seq<char> {
        let line = match self.current() {
            Some(photo) => self.photo_line(photo, optics),
            None => "ARW Sprint    Cmd+O: open folder"@,
        };
        self.rest_line(self.filter_line(self.view_line(line)))
    }

    /// The title of the window.
    pub open spec fn title(self) -> Seq<char> {
        "ARW Sprint: "@ + match self.current() {
            Some(photo) => match path::file_name_of(photo) {
                Some(name) => text::lossy_text(name),
                None => "Sony ARW viewer"@,
            },
            None => "Sony ARW viewer"@,
        }
    }

    /// What the menu shows.
    pub open spec fn workflow(self) -> Workflow {
        Workflow {
            zoom_locked: self.settings.zoom_locked,
            auto_advance: self.settings.auto_advance,
            pinned: self.screen.pinned is Some,
            can_pin: self.current() is Some && self.current() == self.screen.displayed,
            can_undo: self.ledger.history.len() > 0,
        }
    }
}

fn append_part(line: &mut String, before: &str, part: &Option<String>, after: &str)
    ensures
        final(line)@ == with_part(old(line)@, before@, *part, after@),
{
    match part {
        Some(part) => {
            line.append(before);
            line.append(part.as_str());
            line.append(after);
        },
        None => {},
    }
}

impl App {
    fn photo_words(&self, photo: &path::PhotoPath, optics: &Optics) -> (out: String)
        requires
            self.sound(),
        ensures
            out@ == self@.photo_line(photo@, *optics),
    {
        proof {
            reveal(Model::photo_line);
        }
        let index: u64 = match self.navigator.index() {
            Some(index) => index as u64,
            None => 0,
        };
        let ghost len = self.listing.files@.len();
        assert(index + 1 <= len || index == 0);
        assert(len <= usize::MAX) by {
            let n = self.listing.files.len();
        }
        let mut line = text::number(index + 1);
        line.append(" / ");
        text::append_number(&mut line, self.listing.files.len() as u64);
        line.append("    ");
        line.append(rating_words(info::find_rating(&self.info, photo)));
        line.append("    ");
        line.append(photo_name(photo).as_str());
        match self.screen.textures.find(photo) {
            Some(texture) => {
                line.append("    ");
                text::append_number(&mut line, texture.original_width as u64);
                line.append("x");
                text::append_number(&mut line, texture.original_height as u64);
            },
            None => {},
        }
        match self.info.get(photo) {
            Some(known) => {
                match &known.metadata {
                    Some(metadata) => {
                        append_part(&mut line, "    ", &optics.exposure, "");
                        append_part(&mut line, "  f/", &optics.aperture, "");
                        match metadata.iso {
                            Some(iso) => {
                                line.append("  ISO ");
                                text::append_number(&mut line, iso as u64);
                            },
                            None => {},
                        }
                        append_part(&mut line, "  ", &optics.focal, "mm");
                    },
                    None => {},
                }
                if known.failed {
                    line.append("    XMP ERROR (see log)");
                } else if known.is_dirty() {
                    line.append("    Saving...");
                }
            },
            None => {},
        }
        line
    }

    fn view_words(&self, line: String) -> (out: String)
        ensures
            out@ == self@.view_line(line@),
    {
        proof {
            reveal(Model::view_line);
        }
        let mut line = line;
        if self.listing.scanning {
            line.append("    Scanning...");
        }
        if self.settings.brightness_steps != 0 {
            let mut longer = "VIEW ".to_owned();
            longer.append(stops_words(self.settings.brightness_steps).as_str());
            longer.append(" EV    ");
            longer.append(line.as_str());
            line = longer;
        }
        if self.settings.zoom_locked {
            line.append("    ZOOM LOCK");
        }
        if self.settings.auto_advance {
            line.append("    AUTO NEXT");
        }
        match &self.screen.pinned {
            Some((photo, _)) => {
                line.append("    LEFT: ");
                line.append(photo_name(photo).as_str());
                line.append(" | RIGHT: current");
            },
            None => {},
        }
        line
    }

    fn filter_words(&self, line: String) -> (out: String)
        ensures
            out@ == self@.filter_line(line@),
    {
        proof {
            reveal(Model::filter_line);
        }
        let filtered = match self.listing.filter {
            PhotoFilter::All => false,
            _ => true,
        };
        if !filtered {
            return line;
        }
        let all: u64 = self.listing.all.len() as u64;
        let mut out = self.listing.filter.label().to_owned();
        out.append(" (");
        text::append_number(&mut out, self.listing.files.len() as u64);
        out.append("/");
        text::append_number(&mut out, all);
        out.append(")    ");
        out.append(line.as_str());
        if !self.listing.index_complete && all > 0 {
            out.append("    Reading ratings ");
            text::append_number(&mut out, self.listing.ratings_read as u64);
            out.append("/");
            text::append_number(&mut out, all);
            out.append("...");
        }
        if self.listing.rating_errors > 0 {
            out.append("    ");
            text::append_number(&mut out, self.listing.rating_errors as u64);
            out.append(" unreadable ratings (see log)");
        }
        out
    }

    fn rest_words(&self, line: String) -> (out: String)
        requires
            self.sound(),
        ensures
            out@ == self@.rest_line(line@),
    {
        proof {
            reveal(Model::rest_line);
        }
        let mut line = line;
        let unsaved: usize = count_unsaved(&self.info);
        if unsaved > 0 {
            line.append("    ");
            text::append_number(&mut line, unsaved as u64);
            line.append(" unsaved rating(s)");
        }
        let current = self.current();
        if current.is_some() && !same_choice(&current, &self.screen.displayed) {
            line.append("    Loading...");
        }
        if !self.notice.as_str().is_empty() {
            line.append("    ");
            line.append(self.notice.as_str());
        }
        line
    }

    /// The status line.
    pub fn status_text(&self, optics: &Optics) -> (out: String)
        requires
            self.sound(),
        ensures
            out@ == self@.status_line(*optics),
    {
        let line = match self.current() {
            Some(photo) => self.photo_words(&photo, optics),
            None => "ARW Sprint    Cmd+O: open folder".to_owned(),
        };
        let line = self.view_words(line);
        let line = self.filter_words(line);
        self.rest_words(line)
    }

    /// The title of the window.
    pub fn title(&self) -> (out: String)
        ensures
            out@ == self@.title(),
    {
        let mut out = "ARW Sprint: ".to_owned();
        let name = match self.current() {
            Some(photo) => photo.file_name(),
            None => None,
        };
        match name {
            Some(name) => {
                out.append(text::from_utf8_lossy(&name).as_str());
            },
            None => {
                out.append("Sony ARW viewer");
            },
        }
        out
    }

    /// What the menu shows.
    pub fn workflow(&self) -> (out: Workflow)
        ensures
            out == self@.workflow(),
    {
        proof {
            reveal(crate::app::state::deeds);
        }
        let current = self.current();
        Workflow {
            zoom_locked: self.settings.zoom_locked,
            auto_advance: self.settings.auto_advance,
            pinned: self.screen.pinned.is_some(),
            can_pin: current.is_some() && same_choice(&current, &self.screen.displayed),
            can_undo: self.ledger.history.len() > 0,
        }
    }
}

/// A rating of so many stars is shown as so many asterisks.
pub proof fn law_ratings_are_shown_as_stars(stars: i8)
    requires
        1 <= stars <= 5,
    ensures
        rating_text(Some(stars)) == Seq::new(stars as nat, |i: int| '*'),
        rating_text(Some(0i8)) == "-"@,
        rating_text(Some(-1i8)) == "REJECT"@,
        rating_text(None) == "..."@,
{
    reveal_strlit("*");
    reveal_strlit("**");
    reveal_strlit("***");
    reveal_strlit("****");
    reveal_strlit("*****");
    assert(rating_text(Some(stars)) =~= Seq::new(stars as nat, |i: int| '*'));
}

/// A brightness is shown in stops, a third each, to the nearest hundredth.
pub proof fn law_brightness_is_shown_in_thirds(steps: i8)
    requires
        -9 <= steps <= 9,
    ensures
        ({
            let size = if steps < 0 {
                -(steps as int)
            } else {
                steps as int
            };
            &&& -1 <= 3 * hundredths(steps) - 100 * size <= 1
            &&& stops_text(steps) == (if steps < 0 {
                "-"@
            } else {
                "+"@
            }) + text::decimal(hundredths(steps) / 100) + "."@ + text::decimal(
                hundredths(steps) % 100 / 10,
            ) + text::decimal(hundredths(steps) % 10)
        }),
{
}

proof fn lemma_start(line: Seq<char>, words: Seq<char>, rest: Seq<char>)
    requires
        line == words + rest,
    ensures
        text::mentions(line, words),
{
    text::lemma_mentions_itself(words);
    text::lemma_mentions(Seq::empty(), words, rest, words);
    assert(Seq::<char>::empty() + words + rest =~= line);
}

/// Whether a text begins with another.
spec fn begins(a: Seq<char>, b: Seq<char>) -> bool {
    a.len() <= b.len() && b.take(a.len() as int) =~= a
}

proof fn lemma_begins(a: Seq<char>, b: Seq<char>, c: Seq<char>)
    requires
        begins(a, b),
        begins(b, c),
    ensures
        begins(a, c),
{
    assert(c.take(a.len() as int) =~= c.take(b.len() as int).take(a.len() as int));
}

/// What is said of how a photograph was taken.
spec fn optics_line(
    metadata: Option<crate::metadata::exif::ExifMetadata>,
    line: Seq<char>,
    optics: Optics,
) -> Seq<char> {
    match metadata {
        Some(metadata) => {
            let d = with_part(line, "    "@, optics.exposure, ""@);
            let e = with_part(d, "  f/"@, optics.aperture, ""@);
            let f = match metadata.iso {
                Some(iso) => e + "  ISO "@ + text::decimal(iso as int),
                None => e,
            };
            with_part(f, "  "@, optics.focal, "mm"@)
        },
        None => line,
    }
}

proof fn lemma_part(line: Seq<char>, before: Seq<char>, part: Option<String>, after: Seq<char>)
    ensures
        begins(line, with_part(line, before, part, after)),
{
}

proof fn lemma_optics_line(
    metadata: Option<crate::metadata::exif::ExifMetadata>,
    line: Seq<char>,
    optics: Optics,
)
    ensures
        begins(line, optics_line(metadata, line, optics)),
{
    if let Some(known) = metadata {
        let d = with_part(line, "    "@, optics.exposure, ""@);
        let e = with_part(d, "  f/"@, optics.aperture, ""@);
        let f = match known.iso {
            Some(iso) => e + "  ISO "@ + text::decimal(iso as int),
            None => e,
        };
        lemma_part(line, "    "@, optics.exposure, ""@);
        lemma_part(d, "  f/"@, optics.aperture, ""@);
        lemma_part(f, "  "@, optics.focal, "mm"@);
        lemma_begins(line, d, e);
        assert(begins(e, f));
        lemma_begins(line, e, f);
        lemma_begins(line, f, optics_line(metadata, line, optics));
    }
}

/// What is said of a photograph begins with its place in the list, the length of the
/// list, its rating and its name.
proof fn lemma_photo_line(m: Model, photo: Seq<u8>, optics: Optics)
    ensures
        ({
            let known = info::info_of(m.info, photo);
            let index = match m.selection.index {
                Some(index) => index as int,
                None => 0,
            };
            let line = m.photo_line(photo, optics);
            let words = text::decimal(index + 1) + " / "@ + text::decimal(
                m.listing.files.len() as int,
            ) + "    "@ + rating_text(known.rating) + "    "@ + saving::name_text(photo);
            &&& text::mentions(line, words)
            &&& known.failed ==> text::mentions(line, "XMP ERROR (see log)"@)
            &&& !known.failed && known.dirty() ==> text::mentions(line, "Saving..."@)
        }),
{
    reveal(Model::photo_line);
    let known = info::info_of(m.info, photo);
    let index = match m.selection.index {
        Some(index) => index as int,
        None => 0,
    };
    let line = m.photo_line(photo, optics);
    let words = text::decimal(index + 1) + " / "@ + text::decimal(m.listing.files.len() as int)
        + "    "@ + rating_text(known.rating) + "    "@ + saving::name_text(photo);
    let b = match textures::texture_of(m.screen.textures, photo) {
        Some(texture) => words + ("    "@ + text::decimal(texture.original_width as int) + "x"@
            + text::decimal(texture.original_height as int)),
        None => words,
    };
    let c = optics_line(known.metadata, b, optics);
    lemma_optics_line(known.metadata, b, optics);
    let rest = line.skip(words.len() as int);
    assert(begins(words, b));
    assert(begins(b, c));
    assert(begins(c, line)) by {
        match textures::texture_of(m.screen.textures, photo) {
            Some(texture) => {
                assert(b =~= words + "    "@ + text::decimal(texture.original_width as int) + "x"@
                    + text::decimal(texture.original_height as int));
            },
            None => {},
        }
    }
    assert(line.take(words.len() as int) =~= words) by {
        assert(line.take(c.len() as int) == c);
        assert(c.take(b.len() as int) == b);
        assert(b.take(words.len() as int) == words);
        lemma_begins(words, b, c);
        lemma_begins(words, c, line);
    }
    assert(line =~= words + rest);
    lemma_start(line, words, rest);
    if known.failed {
        reveal_strlit("    XMP ERROR (see log)");
        reveal_strlit("XMP ERROR (see log)");
        let said = "XMP ERROR (see log)"@;
        let k = line.len() - said.len();
        assert(line.subrange(k, k + said.len()) =~= said);
    } else if known.dirty() {
        reveal_strlit("    Saving...");
        reveal_strlit("Saving...");
        let said = "Saving..."@;
        let k = line.len() - said.len();
        assert(line.subrange(k, k + said.len()) =~= said);
    }
}

/// What is said of the view keeps what is said before.
proof fn lemma_view_line(m: Model, line: Seq<char>, words: Seq<char>)
    ensures
        text::mentions(line, words) ==> text::mentions(m.view_line(line), words),
        m.settings.zoom_locked ==> text::mentions(m.view_line(line), "ZOOM LOCK"@),
        m.settings.auto_advance ==> text::mentions(m.view_line(line), "AUTO NEXT"@),
        m.listing.scanning ==> text::mentions(m.view_line(line), "Scanning..."@),
{
    reveal(Model::view_line);
    reveal_strlit("    Scanning...");
    reveal_strlit("Scanning...");
    reveal_strlit("    ZOOM LOCK");
    reveal_strlit("ZOOM LOCK");
    reveal_strlit("    AUTO NEXT");
    reveal_strlit("AUTO NEXT");
    let out = m.view_line(line);
    let a = if m.listing.scanning {
        line + "    Scanning..."@
    } else {
        line
    };
    let front = if m.settings.brightness_steps != 0 {
        "VIEW "@ + stops_text(m.settings.brightness_steps) + " EV    "@
    } else {
        Seq::empty()
    };
    let b = if m.settings.brightness_steps != 0 {
        front + a
    } else {
        a
    };
    assert(b =~= front + a);
    let c = if m.settings.zoom_locked {
        b + "    ZOOM LOCK"@
    } else {
        b
    };
    let d = if m.settings.auto_advance {
        c + "    AUTO NEXT"@
    } else {
        c
    };
    let n = front.len() as int;
    if text::mentions(line, words) {
        let after = out.skip(n + line.len());
        assert(out =~= front + line + after);
        text::lemma_mentions(front, line, after, words);
    }
    if m.listing.scanning {
        let k = n + line.len() + 4;
        assert(out.subrange(k, k + "Scanning..."@.len()) =~= "Scanning..."@);
    }
    if m.settings.zoom_locked {
        let k = b.len() + 4int;
        assert(out.subrange(k, k + "ZOOM LOCK"@.len()) =~= "ZOOM LOCK"@);
    }
    if m.settings.auto_advance {
        let k = c.len() + 4int;
        assert(out.subrange(k, k + "AUTO NEXT"@.len()) =~= "AUTO NEXT"@);
    }
}

proof fn lemma_filter_line(m: Model, line: Seq<char>, words: Seq<char>)
    requires
        text::mentions(line, words),
    ensures
        text::mentions(m.filter_line(line), words),
{
    reveal(Model::filter_line);
    if m.listing.filter != PhotoFilter::All {
        let all = m.listing.all.len() as int;
        let front = m.listing.filter.name() + " ("@ + text::decimal(m.listing.files.len() as int)
            + "/"@ + text::decimal(all) + ")    "@;
        let out = m.filter_line(line);
        let after = out.skip((front.len() + line.len()) as int);
        assert(out =~= front + line + after);
        text::lemma_mentions(front, line, after, words);
    }
}

proof fn lemma_rest_line(m: Model, line: Seq<char>, words: Seq<char>)
    ensures
        text::mentions(line, words) ==> text::mentions(m.rest_line(line), words),
        m.current() is Some && m.current() != m.screen.displayed ==> text::mentions(
            m.rest_line(line),
            "Loading..."@,
        ),
        m.notice.len() > 0 ==> text::mentions(m.rest_line(line), m.notice),
        info::unsaved(m.info).len() > 0 ==> text::mentions(
            m.rest_line(line),
            text::decimal(info::unsaved(m.info).len() as int) + " unsaved rating(s)"@,
        ),
{
    reveal(Model::rest_line);
    reveal_strlit("    ");
    reveal_strlit("    Loading...");
    reveal_strlit("Loading...");
    let out = m.rest_line(line);
    let unsaved = info::unsaved(m.info).len();
    let said = text::decimal(unsaved as int) + " unsaved rating(s)"@;
    let a = if unsaved > 0 {
        line + "    "@ + text::decimal(unsaved as int) + " unsaved rating(s)"@
    } else {
        line
    };
    if text::mentions(line, words) {
        let after = out.skip(line.len() as int);
        assert(out =~= Seq::empty() + line + after);
        text::lemma_mentions(Seq::empty(), line, after, words);
    }
    if unsaved > 0 {
        let k = line.len() + 4int;
        assert(out.subrange(k, k + said.len()) =~= said);
    }
    if m.current() is Some && m.current() != m.screen.displayed {
        let k = a.len() + 4int;
        assert(out.subrange(k, k + "Loading..."@.len()) =~= "Loading..."@);
    }
    if m.notice.len() > 0 {
        let k = out.len() - m.notice.len();
        assert(out.subrange(k, k + m.notice.len()) =~= m.notice);
    }
}

/// The status line says where in the list the photograph is, how it is rated and what
/// it is called, whether its rating is being saved or could not be, how the view is
/// set, how many ratings are not saved, and what was said last.
pub proof fn law_the_status_line_tells(m: Model, optics: Optics)
    requires
        m.current() is Some,
        m.selection.index is Some,
    ensures
        ({
            let photo = m.current()->0;
            let known = info::info_of(m.info, photo);
            let line = m.status_line(optics);
            &&& text::mentions(
                line,
                text::decimal(m.selection.index->0 + 1) + " / "@ + text::decimal(
                    m.listing.files.len() as int,
                ) + "    "@ + rating_text(known.rating) + "    "@ + saving::name_text(photo),
            )
            &&& known.failed ==> text::mentions(line, "XMP ERROR (see log)"@)
            &&& !known.failed && known.dirty() ==> text::mentions(line, "Saving..."@)
            &&& m.settings.zoom_locked ==> text::mentions(line, "ZOOM LOCK"@)
            &&& m.settings.auto_advance ==> text::mentions(line, "AUTO NEXT"@)
            &&& m.listing.scanning ==> text::mentions(line, "Scanning..."@)
            &&& m.current() != m.screen.displayed ==> text::mentions(line, "Loading..."@)
            &&& m.notice.len() > 0 ==> text::mentions(line, m.notice)
            &&& info::unsaved(m.info).len() > 0 ==> text::mentions(
                line,
                text::decimal(info::unsaved(m.info).len() as int) + " unsaved rating(s)"@,
            )
        }),
{
    let photo = m.current()->0;
    let known = info::info_of(m.info, photo);
    let a = m.photo_line(photo, optics);
    let words = text::decimal(m.selection.index->0 + 1) + " / "@ + text::decimal(
        m.listing.files.len() as int,
    ) + "    "@ + rating_text(known.rating) + "    "@ + saving::name_text(photo);
    lemma_photo_line(m, photo, optics);
    lemma_kept(m, a, words);
    lemma_kept(m, a, "XMP ERROR (see log)"@);
    lemma_kept(m, a, "Saving..."@);
    lemma_kept(m, a, "ZOOM LOCK"@);
    lemma_kept(m, a, "AUTO NEXT"@);
    lemma_kept(m, a, "Scanning..."@);
}

proof fn lemma_kept(m: Model, line: Seq<char>, words: Seq<char>)
    ensures
        ({
            let view = m.view_line(line);
            let out = m.rest_line(m.filter_line(view));
            &&& text::mentions(line, words) || text::mentions(view, words) ==> text::mentions(
                out,
                words,
            )
            &&& m.settings.zoom_locked ==> text::mentions(view, "ZOOM LOCK"@)
            &&& m.settings.auto_advance ==> text::mentions(view, "AUTO NEXT"@)
            &&& m.listing.scanning ==> text::mentions(view, "Scanning..."@)
            &&& m.current() is Some && m.current() != m.screen.displayed ==> text::mentions(
                out,
                "Loading..."@,
            )
            &&& m.notice.len() > 0 ==> text::mentions(out, m.notice)
            &&& info::unsaved(m.info).len() > 0 ==> text::mentions(
                out,
                text::decimal(info::unsaved(m.info).len() as int) + " unsaved rating(s)"@,
            )
        }),
{
    let view = m.view_line(line);
    lemma_view_line(m, line, words);
    if text::mentions(view, words) {
        lemma_filter_line(m, view, words);
    }
    lemma_rest_line(m, m.filter_line(view), words);
}

proof fn lemma_within(before: Seq<char>, words: Seq<char>, after: Seq<char>)
    ensures
        text::mentions(before + words + after, words),
{
    text::lemma_mentions_itself(words);
    text::lemma_mentions(before, words, after, words);
}

proof fn lemma_longer(a: Seq<char>, b: Seq<char>, words: Seq<char>)
    requires
        begins(a, b),
        text::mentions(a, words),
    ensures
        text::mentions(b, words),
{
    let after = b.skip(a.len() as int);
    assert(b =~= Seq::empty() + a + after);
    text::lemma_mentions(Seq::empty(), a, after, words);
}

/// How a photograph was taken is said in its line.
proof fn lemma_optics(
    metadata: crate::metadata::exif::ExifMetadata,
    line: Seq<char>,
    optics: Optics,
)
    ensures
        ({
            let out = optics_line(Some(metadata), line, optics);
            &&& optics.exposure matches Some(t) ==> text::mentions(out, t@)
            &&& optics.aperture matches Some(t) ==> text::mentions(out, "f/"@ + t@)
            &&& metadata.iso matches Some(iso) ==> text::mentions(
                out,
                "ISO "@ + text::decimal(iso as int),
            )
            &&& optics.focal matches Some(t) ==> text::mentions(out, t@ + "mm"@)
        }),
{
    reveal_strlit("  f/");
    reveal_strlit("f/");
    reveal_strlit("  ISO ");
    reveal_strlit("ISO ");
    reveal_strlit("  ");
    let d = with_part(line, "    "@, optics.exposure, ""@);
    let e = with_part(d, "  f/"@, optics.aperture, ""@);
    let f = match metadata.iso {
        Some(iso) => e + "  ISO "@ + text::decimal(iso as int),
        None => e,
    };
    let out = with_part(f, "  "@, optics.focal, "mm"@);
    assert(out == optics_line(Some(metadata), line, optics));
    lemma_part(d, "  f/"@, optics.aperture, ""@);
    lemma_part(f, "  "@, optics.focal, "mm"@);
    assert(begins(e, f));
    lemma_begins(e, f, out);
    lemma_begins(d, e, out);
    if let Some(t) = optics.exposure {
        lemma_within(line + "    "@, t@, ""@);
        lemma_longer(d, out, t@);
    }
    if let Some(t) = optics.aperture {
        assert(e =~= (d + "  "@) + ("f/"@ + t@) + ""@);
        lemma_within(d + "  "@, "f/"@ + t@, ""@);
        lemma_longer(e, out, "f/"@ + t@);
    }
    if let Some(iso) = metadata.iso {
        let words = "ISO "@ + text::decimal(iso as int);
        assert(f =~= (e + "  "@) + words + Seq::empty());
        lemma_within(e + "  "@, words, Seq::empty());
        lemma_longer(f, out, words);
    }
    if let Some(t) = optics.focal {
        assert(out =~= (f + "  "@) + (t@ + "mm"@) + Seq::empty());
        lemma_within(f + "  "@, t@ + "mm"@, Seq::empty());
    }
}

/// The size of a photograph on the GPU and how it was taken are said in its line.
proof fn lemma_described(m: Model, photo: Seq<u8>, optics: Optics)
    ensures
        ({
            let line = m.photo_line(photo, optics);
            &&& textures::texture_of(m.screen.textures, photo) matches Some(texture)
                ==> text::mentions(
                line,
                text::decimal(texture.original_width as int) + "x"@ + text::decimal(
                    texture.original_height as int,
                ),
            )
            &&& info::info_of(m.info, photo).metadata matches Some(metadata) ==> {
                &&& optics.exposure matches Some(t) ==> text::mentions(line, t@)
                &&& optics.aperture matches Some(t) ==> text::mentions(line, "f/"@ + t@)
                &&& metadata.iso matches Some(iso) ==> text::mentions(
                    line,
                    "ISO "@ + text::decimal(iso as int),
                )
                &&& optics.focal matches Some(t) ==> text::mentions(line, t@ + "mm"@)
            }
        }),
{
    reveal(Model::photo_line);
    let known = info::info_of(m.info, photo);
    let index = match m.selection.index {
        Some(index) => index as int,
        None => 0,
    };
    let line = m.photo_line(photo, optics);
    let a = text::decimal(index + 1) + " / "@ + text::decimal(m.listing.files.len() as int)
        + "    "@ + rating_text(known.rating) + "    "@ + saving::name_text(photo);
    let b = match textures::texture_of(m.screen.textures, photo) {
        Some(texture) => a + "    "@ + text::decimal(texture.original_width as int) + "x"@
            + text::decimal(texture.original_height as int),
        None => a,
    };
    let c = optics_line(known.metadata, b, optics);
    lemma_optics_line(known.metadata, b, optics);
    assert(begins(c, line));
    if let Some(texture) = textures::texture_of(m.screen.textures, photo) {
        let words = text::decimal(texture.original_width as int) + "x"@ + text::decimal(
            texture.original_height as int,
        );
        assert(b =~= (a + "    "@) + words + Seq::empty());
        lemma_within(a + "    "@, words, Seq::empty());
        lemma_longer(b, c, words);
        lemma_longer(c, line, words);
    }
    if let Some(metadata) = known.metadata {
        lemma_optics(metadata, b, optics);
        if let Some(t) = optics.exposure {
            lemma_longer(c, line, t@);
        }
        if let Some(t) = optics.aperture {
            lemma_longer(c, line, "f/"@ + t@);
        }
        if let Some(iso) = metadata.iso {
            lemma_longer(c, line, "ISO "@ + text::decimal(iso as int));
        }
        if let Some(t) = optics.focal {
            lemma_longer(c, line, t@ + "mm"@);
        }
    }
}

/// The brightness of the view and the reference are said.
proof fn lemma_viewed(m: Model, line: Seq<char>)
    ensures
        m.settings.brightness_steps != 0 ==> text::mentions(
            m.view_line(line),
            "VIEW "@ + stops_text(m.settings.brightness_steps) + " EV"@,
        ),
        m.screen.pinned matches Some((photo, _)) ==> text::mentions(
            m.view_line(line),
            "LEFT: "@ + saving::name_text(photo) + " | RIGHT: current"@,
        ),
{
    reveal(Model::view_line);
    reveal_strlit(" EV    ");
    reveal_strlit(" EV");
    reveal_strlit("    ");
    reveal_strlit("    LEFT: ");
    reveal_strlit("LEFT: ");
    let out = m.view_line(line);
    if m.settings.brightness_steps != 0 {
        let words = "VIEW "@ + stops_text(m.settings.brightness_steps) + " EV"@;
        let after = out.skip(words.len() as int);
        assert(out =~= words + after);
        lemma_start(out, words, after);
    }
    if let Some((photo, _)) = m.screen.pinned {
        let words = "LEFT: "@ + saving::name_text(photo) + " | RIGHT: current"@;
        let before = out.take(out.len() - words.len());
        assert(out =~= before + words + Seq::empty());
        lemma_within(before, words, Seq::empty());
    }
}

/// The status line says how large the photograph is and how it was taken, how much the
/// view is brightened, what it is compared with, and how many photographs a filter
/// shows of how many.
pub proof fn law_the_status_line_describes(m: Model, optics: Optics)
    requires
        m.current() is Some,
    ensures
        ({
            let photo = m.current()->0;
            let line = m.status_line(optics);
            &&& textures::texture_of(m.screen.textures, photo) matches Some(texture)
                ==> text::mentions(
                line,
                text::decimal(texture.original_width as int) + "x"@ + text::decimal(
                    texture.original_height as int,
                ),
            )
            &&& info::info_of(m.info, photo).metadata matches Some(metadata) ==> {
                &&& optics.exposure matches Some(t) ==> text::mentions(line, t@)
                &&& optics.aperture matches Some(t) ==> text::mentions(line, "f/"@ + t@)
                &&& metadata.iso matches Some(iso) ==> text::mentions(
                    line,
                    "ISO "@ + text::decimal(iso as int),
                )
                &&& optics.focal matches Some(t) ==> text::mentions(line, t@ + "mm"@)
            }
            &&& m.settings.brightness_steps != 0 ==> text::mentions(
                line,
                "VIEW "@ + stops_text(m.settings.brightness_steps) + " EV"@,
            )
            &&& m.screen.pinned matches Some((reference, _)) ==> text::mentions(
                line,
                "LEFT: "@ + saving::name_text(reference) + " | RIGHT: current"@,
            )
            &&& m.listing.filter != PhotoFilter::All ==> text::mentions(
                line,
                m.listing.filter.name() + " ("@ + text::decimal(m.listing.files.len() as int)
                    + "/"@ + text::decimal(m.listing.all.len() as int) + ")"@,
            )
        }),
{
    let photo = m.current()->0;
    let a = m.photo_line(photo, optics);
    let view = m.view_line(a);
    lemma_described(m, photo, optics);
    lemma_viewed(m, a);
    if let Some(texture) = textures::texture_of(m.screen.textures, photo) {
        lemma_kept(
            m,
            a,
            text::decimal(texture.original_width as int) + "x"@ + text::decimal(
                texture.original_height as int,
            ),
        );
    }
    if let Some(metadata) = info::info_of(m.info, photo).metadata {
        if let Some(t) = optics.exposure {
            lemma_kept(m, a, t@);
        }
        if let Some(t) = optics.aperture {
            lemma_kept(m, a, "f/"@ + t@);
        }
        if let Some(iso) = metadata.iso {
            lemma_kept(m, a, "ISO "@ + text::decimal(iso as int));
        }
        if let Some(t) = optics.focal {
            lemma_kept(m, a, t@ + "mm"@);
        }
    }
    lemma_kept(m, a, "VIEW "@ + stops_text(m.settings.brightness_steps) + " EV"@);
    if let Some((reference, _)) = m.screen.pinned {
        lemma_kept(m, a, "LEFT: "@ + saving::name_text(reference) + " | RIGHT: current"@);
    }
    if m.listing.filter != PhotoFilter::All {
        let words = m.listing.filter.name() + " ("@ + text::decimal(m.listing.files.len() as int)
            + "/"@ + text::decimal(m.listing.all.len() as int) + ")"@;
        let out = m.filter_line(view);
        assert(text::mentions(out, words)) by {
            reveal(Model::filter_line);
            reveal_strlit(")    ");
            reveal_strlit(")");
            let after = out.skip(words.len() as int);
            assert(out =~= words + after);
            lemma_start(out, words, after);
        }
        lemma_rest_line(m, out, words);
    }
}

} // verus!
