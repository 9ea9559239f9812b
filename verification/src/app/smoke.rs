//! The rehearsal: the program runs by itself, step by step, and checks what it
//! shows.
use crate::app::deleted;
use crate::app::filmstrip;
use crate::app::menu::Command;
use crate::app::state::{next_number, App, Model};
use crate::app::strip::same_choice;
use crate::app::textures;
use crate::browser::filter::PhotoFilter;
use crate::path;
use crate::path::{Identity, PhotoPath};
use crate::text;
use vstd::prelude::*;

verus! {

/// Milliseconds that the rehearsal may take.
pub const TIME_LIMIT: u64 = 90000;

/// Milliseconds between two steps.
pub const STEP_TIME: u64 = 850;

/// Milliseconds before something is looked at again.
pub const LOOK_TIME: u64 = 16;

/// The step from which filters are looked at.
pub const FILTER_STEP: usize = 11;

/// The step from which thumbnails must stay.
pub const STRIP_STEP: usize = 33;

/// The step after which nothing is left to do.
pub const LAST_STEP: usize = 48;

/// What was on screen at some time.
#[derive(Debug)]
pub struct Mark {
    pub index: Option<usize>,
    pub current: Option<PhotoPath>,
    pub displayed: Option<PhotoPath>,
    pub generation: u64,
    pub requests: u64,
}

/// A rehearsal under way. Times are in milliseconds.
#[derive(Debug)]
pub struct Smoke {
    pub step: usize,
    pub started: u64,
    pub next: u64,
    /// The thumbnails that were seen, by their textures.
    pub stable: Vec<(PhotoPath, u64)>,
    pub checks: u64,
    /// What the thumbnail worker had done when the strip was hidden.
    pub idle: Option<(u64, u64)>,
    pub main: Option<Mark>,
    /// Cells that are to be visible.
    pub cells: Option<(usize, usize)>,
    /// What was selected when they were marked.
    pub at: Option<usize>,
}

/// What only the window knows.
#[derive(Clone, Copy, Debug, PartialEq, Eq, Structural)]
pub struct Look {
    pub strip_visible: bool,
    pub over_strip: bool,
    pub peeking: bool,
    /// The photograph is shown at its own size.
    pub actual_size: bool,
    /// The view is the one that was marked.
    pub same_view: bool,
    /// The brightness drawn is the one that is set.
    pub same_brightness: bool,
}

/// What the rehearsal does next.
#[derive(Clone, Copy, Debug, PartialEq, Eq, Structural)]
pub enum Gate {
    TimedOut,
    /// Nothing yet.
    Wait,
    /// Look again soon.
    Again,
    Go,
}

/// Something the rehearsal does.
#[derive(Clone, Copy, Debug, PartialEq, Eq, Structural)]
pub enum Play {
    Navigate(isize),
    /// Back, at the end of the list, or else on.
    Turn,
    /// Select the first photograph.
    First,
    Run(Command),
    Pin { replace: bool },
    /// Closes the comparison, if there is one.
    Unpin,
    Fullscreen,
    Redraw,
    EndPeek,
    PressTab { held: bool },
    PressPeek,
    HoldAdvance,
    Fit,
    ActualSize,
    Half,
    Double,
    Pan(i32, i32),
    PanAt(i32, i32, i32, i32),
    Cursor(i32, i32),
    /// The pointer on the filmstrip.
    CursorOnStrip,
    Resize(u32, u32),
    /// Peek, and let go.
    Glance(i32, i32),
    MarkZoom,
    MarkMain,
    MarkCells,
    MarkIdle,
    ClickOther,
    ClickLast,
    ScrollCell,
    ScrollToEdge { end: bool },
    Stable,
    ZoomShortcuts,
    BrightnessShortcuts,
    Check(Check),
    /// Back among the visible cells and forward again, if there are some.
    StepInside,
    /// The rehearsal is over.
    Finish,
}

/// Something the rehearsal makes sure of.
#[derive(Clone, Copy, Debug, PartialEq, Eq, Structural)]
pub enum Check {
    ZoomRetained,
    ActualSizeKept,
    PeekRestored,
    ReferenceKept,
    PeekActive,
    PeekOver,
    HeldKeyIgnored,
    StripOff,
    StripOn,
    StripStays,
    CellsShown,
    OverStrip,
    MainUnchanged,
    ScrolledOneCell,
    FittingStays,
    StripKept,
    ReferenceBesideStrip,
    StripHidden,
    HiddenIsIdle,
    NoJobsWhileHidden,
    CellsKept,
    InsideKept,
    EdgeKept,
    PhotoChosen,
    RevealedOneCell,
    CellsExpected,
    FinallyHidden,
    FinallyIdle,
    BrightnessKept,
    BrightnessReset,
}

/// What the rehearsal does at a step.
pub open spec fn plays(step: int) -> Seq<Play> {
    if step == 0 {
        seq![Play::Navigate(1)]
    } else if step == 1 {
        seq![Play::Navigate(-1isize)]
    } else if step == 2 {
        seq![Play::Navigate(1)]
    } else if step == 3 {
        Seq::new(10, |i: int| Play::Navigate(1))
    } else if step == 4 {
        seq![Play::Navigate(-1isize)]
    } else if step == 5 {
        seq![Play::ActualSize, Play::Pan(260, -120i32), Play::Redraw]
    } else if step == 6 {
        seq![Play::Fit, Play::Resize(1040, 720), Play::Redraw]
    } else if step == 7 || step == 8 {
        seq![Play::Fullscreen]
    } else if step == 9 {
        seq![Play::First]
    } else if step == 10 {
        seq![Play::Run(Command::Filter(PhotoFilter::Stars(5)))]
    } else if step == 11 {
        seq![Play::Navigate(1)]
    } else if step == 12 {
        seq![Play::Run(Command::Filter(PhotoFilter::Rejected))]
    } else if step == 13 {
        seq![Play::Run(Command::Filter(PhotoFilter::Unrated))]
    } else if step == 14 {
        seq![Play::Run(Command::Filter(PhotoFilter::Stars(3)))]
    } else if step == 15 {
        seq![Play::Run(Command::Filter(PhotoFilter::All))]
    } else if step == 16 {
        seq![Play::Fit, Play::Half, Play::Redraw]
    } else if step == 17 || step == 19 {
        seq![Play::Half, Play::Redraw]
    } else if step == 18 || step == 20 {
        seq![Play::Double, Play::Redraw]
    } else if step == 21 || step == 24 {
        seq![Play::MarkZoom, Play::Navigate(1)]
    } else if step == 22 {
        seq![Play::Fit, Play::Redraw]
    } else if step == 23 {
        seq![
            Play::Check(Check::ZoomRetained),
            Play::First,
            Play::Run(Command::Actual),
            Play::Pan(150, -90i32),
            Play::Redraw,
        ]
    } else {
        late_plays(step)
    }
}

/// What it does at the later steps.
pub open spec fn late_plays(step: int) -> Seq<Play> {
    if step == 25 {
        seq![
            Play::Check(Check::ActualSizeKept),
            Play::Glance(350, 300),
            Play::Check(Check::PeekRestored),
            Play::Run(Command::Fit),
            Play::Pin { replace: false },
        ]
    } else if step == 26 {
        seq![Play::Navigate(1)]
    } else if step == 27 {
        seq![Play::Check(Check::ReferenceKept), Play::Cursor(220, 260), Play::PressPeek]
    } else if step == 28 {
        seq![Play::Check(Check::PeekActive), Play::EndPeek, Play::Navigate(-1isize)]
    } else if step == 29 {
        seq![
            Play::Check(Check::PeekOver),
            Play::Pin { replace: true },
            Play::Run(Command::Actual),
            Play::PanAt(120, -70i32, 200, 200),
            Play::Redraw,
        ]
    } else if step == 30 {
        seq![Play::Pin { replace: false }]
    } else if step == 31 {
        seq![
            Play::Run(Command::ZoomLock),
            Play::Run(Command::Fit),
            Play::Run(Command::AutoAdvance),
            Play::HoldAdvance,
            Play::Check(Check::HeldKeyIgnored),
            Play::Run(Command::AutoAdvance),
            Play::Redraw,
        ]
    } else if step == 32 {
        seq![
            Play::Check(Check::StripOff),
            Play::PressTab { held: false },
            Play::Check(Check::StripOn),
            Play::PressTab { held: true },
            Play::Check(Check::StripStays),
        ]
    } else if step == 33 {
        seq![Play::Check(Check::CellsShown), Play::ClickOther, Play::Stable]
    } else if step == 34 {
        seq![
            Play::CursorOnStrip,
            Play::Check(Check::OverStrip),
            Play::MarkCells,
            Play::MarkMain,
            Play::ScrollCell,
            Play::Check(Check::MainUnchanged),
            Play::Stable,
            Play::Check(Check::ScrolledOneCell),
            Play::Check(Check::FittingStays),
            Play::Resize(1180, 760),
            Play::Redraw,
        ]
    } else if step == 35 {
        Seq::new(
            26,
            |i: int|
                if i % 2 == 1 {
                    Play::Stable
                } else if i < 20 {
                    Play::Navigate(1)
                } else {
                    Play::Navigate(-1isize)
                },
        )
    } else if step == 36 {
        seq![
            Play::Check(Check::StripKept),
            Play::Pin { replace: false },
            Play::Navigate(1),
            Play::Stable,
        ]
    } else {
        last_plays(step)
    }
}

/// What it does at the last steps.
pub open spec fn last_plays(step: int) -> Seq<Play> {
    if step == 37 {
        seq![
            Play::Check(Check::ReferenceBesideStrip),
            Play::PressTab { held: false },
            Play::Check(Check::StripHidden),
        ]
    } else if step == 38 {
        seq![Play::Check(Check::HiddenIsIdle), Play::MarkIdle, Play::Unpin]
    } else if step == 39 {
        seq![
            Play::Check(Check::NoJobsWhileHidden),
            Play::PressTab { held: false },
            Play::ScrollToEdge { end: true },
        ]
    } else if step == 40 {
        seq![Play::Check(Check::MainUnchanged), Play::ScrollToEdge { end: false }]
    } else if step == 41 {
        seq![
            Play::Check(Check::MainUnchanged),
            Play::MarkCells,
            Play::ClickLast,
            Play::Check(Check::CellsKept),
            Play::Stable,
        ]
    } else if step == 42 {
        seq![
            Play::MarkCells,
            Play::Check(Check::PhotoChosen),
            Play::StepInside,
            Play::Navigate(1),
            Play::Stable,
            Play::Check(Check::RevealedOneCell),
            Play::MarkCells,
        ]
    } else if step == 43 {
        seq![
            Play::Check(Check::CellsExpected),
            Play::PressTab { held: false },
            Play::Check(Check::FinallyHidden),
        ]
    } else if step == 44 {
        seq![
            Play::Check(Check::FinallyIdle),
            Play::ZoomShortcuts,
            Play::Run(Command::Fit),
            Play::Run(Command::ResetBrightness),
            Play::Run(Command::Filmstrip),
        ]
    } else if step == 45 {
        seq![Play::BrightnessShortcuts, Play::Turn]
    } else if step == 46 {
        seq![Play::Check(Check::BrightnessKept), Play::Run(Command::Pin)]
    } else if step == 47 {
        seq![Play::Check(Check::BrightnessKept), Play::Run(Command::ResetBrightness)]
    } else {
        seq![Play::Check(Check::BrightnessReset), Play::Finish]
    }
}

/// What the rehearsal does at a step.
#[verifier::rlimit(40)]
pub fn script(step: usize) -> (out: Vec<Play>)
    ensures
        out@ == plays(step as int),
{
    if step == 0 {
        vec![Play::Navigate(1)]
    } else if step == 1 {
        vec![Play::Navigate(-1isize)]
    } else if step == 2 {
        vec![Play::Navigate(1)]
    } else if step == 3 {
        repeated(10)
    } else if step == 4 {
        vec![Play::Navigate(-1isize)]
    } else if step == 5 {
        vec![Play::ActualSize, Play::Pan(260, -120i32), Play::Redraw]
    } else if step == 6 {
        vec![Play::Fit, Play::Resize(1040, 720), Play::Redraw]
    } else if step == 7 || step == 8 {
        vec![Play::Fullscreen]
    } else if step == 9 {
        vec![Play::First]
    } else if step == 10 {
        vec![Play::Run(Command::Filter(PhotoFilter::Stars(5)))]
    } else if step == 11 {
        vec![Play::Navigate(1)]
    } else if step == 12 {
        vec![Play::Run(Command::Filter(PhotoFilter::Rejected))]
    } else if step == 13 {
        vec![Play::Run(Command::Filter(PhotoFilter::Unrated))]
    } else if step == 14 {
        vec![Play::Run(Command::Filter(PhotoFilter::Stars(3)))]
    } else if step == 15 {
        vec![Play::Run(Command::Filter(PhotoFilter::All))]
    } else if step == 16 {
        vec![Play::Fit, Play::Half, Play::Redraw]
    } else if step == 17 || step == 19 {
        vec![Play::Half, Play::Redraw]
    } else if step == 18 || step == 20 {
        vec![Play::Double, Play::Redraw]
    } else if step == 21 || step == 24 {
        vec![Play::MarkZoom, Play::Navigate(1)]
    } else if step == 22 {
        vec![Play::Fit, Play::Redraw]
    } else if step == 23 {
        vec![
            Play::Check(Check::ZoomRetained),
            Play::First,
            Play::Run(Command::Actual),
            Play::Pan(150, -90i32),
            Play::Redraw,
        ]
    } else {
        late_script(step)
    }
}

#[verifier::rlimit(40)]
fn late_script(step: usize) -> (out: Vec<Play>)
    ensures
        out@ == late_plays(step as int),
{
    if step == 25 {
        vec![
            Play::Check(Check::ActualSizeKept),
            Play::Glance(350, 300),
            Play::Check(Check::PeekRestored),
            Play::Run(Command::Fit),
            Play::Pin { replace: false },
        ]
    } else if step == 26 {
        vec![Play::Navigate(1)]
    } else if step == 27 {
        vec![Play::Check(Check::ReferenceKept), Play::Cursor(220, 260), Play::PressPeek]
    } else if step == 28 {
        vec![Play::Check(Check::PeekActive), Play::EndPeek, Play::Navigate(-1isize)]
    } else if step == 29 {
        vec![
            Play::Check(Check::PeekOver),
            Play::Pin { replace: true },
            Play::Run(Command::Actual),
            Play::PanAt(120, -70i32, 200, 200),
            Play::Redraw,
        ]
    } else if step == 30 {
        vec![Play::Pin { replace: false }]
    } else if step == 31 {
        vec![
            Play::Run(Command::ZoomLock),
            Play::Run(Command::Fit),
            Play::Run(Command::AutoAdvance),
            Play::HoldAdvance,
            Play::Check(Check::HeldKeyIgnored),
            Play::Run(Command::AutoAdvance),
            Play::Redraw,
        ]
    } else if step == 32 {
        vec![
            Play::Check(Check::StripOff),
            Play::PressTab { held: false },
            Play::Check(Check::StripOn),
            Play::PressTab { held: true },
            Play::Check(Check::StripStays),
        ]
    } else if step == 33 {
        vec![Play::Check(Check::CellsShown), Play::ClickOther, Play::Stable]
    } else if step == 34 {
        vec![
            Play::CursorOnStrip,
            Play::Check(Check::OverStrip),
            Play::MarkCells,
            Play::MarkMain,
            Play::ScrollCell,
            Play::Check(Check::MainUnchanged),
            Play::Stable,
            Play::Check(Check::ScrolledOneCell),
            Play::Check(Check::FittingStays),
            Play::Resize(1180, 760),
            Play::Redraw,
        ]
    } else if step == 35 {
        back_and_forth()
    } else if step == 36 {
        vec![
            Play::Check(Check::StripKept),
            Play::Pin { replace: false },
            Play::Navigate(1),
            Play::Stable,
        ]
    } else {
        last_script(step)
    }
}

#[verifier::rlimit(40)]
fn last_script(step: usize) -> (out: Vec<Play>)
    ensures
        out@ == last_plays(step as int),
{
    if step == 37 {
        vec![
            Play::Check(Check::ReferenceBesideStrip),
            Play::PressTab { held: false },
            Play::Check(Check::StripHidden),
        ]
    } else if step == 38 {
        vec![Play::Check(Check::HiddenIsIdle), Play::MarkIdle, Play::Unpin]
    } else if step == 39 {
        vec![
            Play::Check(Check::NoJobsWhileHidden),
            Play::PressTab { held: false },
            Play::ScrollToEdge { end: true },
        ]
    } else if step == 40 {
        vec![Play::Check(Check::MainUnchanged), Play::ScrollToEdge { end: false }]
    } else if step == 41 {
        vec![
            Play::Check(Check::MainUnchanged),
            Play::MarkCells,
            Play::ClickLast,
            Play::Check(Check::CellsKept),
            Play::Stable,
        ]
    } else if step == 42 {
        vec![
            Play::MarkCells,
            Play::Check(Check::PhotoChosen),
            Play::StepInside,
            Play::Navigate(1),
            Play::Stable,
            Play::Check(Check::RevealedOneCell),
            Play::MarkCells,
        ]
    } else if step == 43 {
        vec![
            Play::Check(Check::CellsExpected),
            Play::PressTab { held: false },
            Play::Check(Check::FinallyHidden),
        ]
    } else if step == 44 {
        vec![
            Play::Check(Check::FinallyIdle),
            Play::ZoomShortcuts,
            Play::Run(Command::Fit),
            Play::Run(Command::ResetBrightness),
            Play::Run(Command::Filmstrip),
        ]
    } else if step == 45 {
        vec![Play::BrightnessShortcuts, Play::Turn]
    } else if step == 46 {
        vec![Play::Check(Check::BrightnessKept), Play::Run(Command::Pin)]
    } else if step == 47 {
        vec![Play::Check(Check::BrightnessKept), Play::Run(Command::ResetBrightness)]
    } else {
        vec![Play::Check(Check::BrightnessReset), Play::Finish]
    }
}

fn repeated(n: usize) -> (out: Vec<Play>)
    ensures
        out@ == Seq::new(n as nat, |i: int| Play::Navigate(1)),
{
    let mut out: Vec<Play> = Vec::new();
    while out.len() < n
        invariant
            out@.len() <= n,
            forall|i: int| 0 <= i < out@.len() ==> out@[i] == Play::Navigate(1),
        decreases n - out@.len(),
    {
        out.push(Play::Navigate(1));
    }
    assert(out@ =~= Seq::new(n as nat, |i: int| Play::Navigate(1)));
    out
}

fn back_and_forth() -> (out: Vec<Play>)
    ensures
        out@ == late_plays(35),
{
    let ghost want = late_plays(35);
    let mut out: Vec<Play> = Vec::new();
    let mut i: usize = 0;
    while i < 26
        invariant
            i <= 26,
            out@.len() == i,
            want == late_plays(35),
            forall|k: int| 0 <= k < i ==> out@[k] == want[k],
        decreases 26 - i,
    {
        out.push(
            if i % 2 == 1 {
                Play::Stable
            } else if i < 20 {
                Play::Navigate(1)
            } else {
                Play::Navigate(-1isize)
            },
        );
        i += 1;
    }
    assert(out@ =~= want);
    out
}

/// The time since another.
pub open spec fn elapsed(now: u64, since: u64) -> int {
    if now > since {
        now - since
    } else {
        0
    }
}

/// Whether a step waits for the thumbnails of the visible cells.
pub open spec fn awaits_cells(step: int) -> bool {
    step == 33 || step == 35 || step == 36 || step == 37 || step == 40 || step == 41 || step == 42
        || step == 43 || step == 45
}

/// Whether the thumbnail of a visible cell is still to come.
pub open spec fn cells_missing(m: Model) -> bool {
    m.strip.visible && exists|index: int| #[trigger]
        filmstrip::lacking(
            m.listing.files,
            m.strip.cache,
            m.strip.unavailable,
            (m.strip.start as int, m.strip.end as int),
            index,
        )
}

/// Whether the program is still busy with the last step.
pub open spec fn busy(m: Model, step: int) -> bool {
    ||| m.listing.scanning
    ||| step < FILTER_STEP && m.current() is None
    ||| step >= FILTER_STEP && !m.listing.index_complete
    ||| m.current() != m.screen.displayed
    ||| m.screen.first_render
}

impl Smoke {
    /// What the rehearsal does next. A request and a worker are given their
    /// time.
    pub open spec fn passes(
        self,
        m: Model,
        now: u64,
        requested: u64,
        activity: (u64, u64),
    ) -> Gate {
        if elapsed(now, self.started) > TIME_LIMIT {
            Gate::TimedOut
        } else if now < self.next || (self.step == 0 && elapsed(now, requested) < STEP_TIME) || busy(
            m,
            self.step as int,
        ) {
            Gate::Wait
        } else if awaits_cells(self.step as int) && cells_missing(m) {
            Gate::Again
        } else if (self.step == 38 || self.step == 44) && activity.0 != activity.1 {
            Gate::Again
        } else {
            Gate::Go
        }
    }

    /// A rehearsal that begins.
    pub fn new(now: u64) -> (out: Self)
        ensures
            out.step == 0,
            out.started == now,
            out.next == now,
            out.stable@.len() == 0,
            out.checks == 0,
            out.idle is None,
            out.main is None,
            out.cells is None,
            out.at is None,
    {
        Smoke {
            step: 0,
            started: now,
            next: now,
            stable: Vec::new(),
            checks: 0,
            idle: None,
            main: None,
            cells: None,
            at: None,
        }
    }

    /// What the rehearsal does next.
    pub fn gate(&self, app: &App, now: u64, requested: u64, activity: (u64, u64)) -> (out: Gate)
        requires
            app.sound(),
        ensures
            out == self.passes(app@, now, requested, activity),
    {
        let run: u64 = now.saturating_sub(self.started);
        if run > TIME_LIMIT {
            return Gate::TimedOut;
        }
        let waited: u64 = now.saturating_sub(requested);
        let current = app.current();
        if now < self.next || (self.step == 0 && waited < STEP_TIME) || app.listing.scanning || (
        self.step < FILTER_STEP && current.is_none()) || (self.step >= FILTER_STEP
            && !app.listing.index_complete) || !same_choice(&current, &app.screen.displayed)
            || app.screen.first_render {
            return Gate::Wait;
        }
        let step: usize = self.step;
        let awaits = step == 33 || step == 35 || step == 36 || step == 37 || step == 40 || step == 41
            || step == 42 || step == 43 || step == 45;
        if awaits && lacks_cells(app) {
            return Gate::Again;
        }
        if (step == 38 || step == 44) && activity.0 != activity.1 {
            return Gate::Again;
        }
        Gate::Go
    }

    /// Goes on to the next step.
    pub fn advance(&mut self, now: u64)
        requires
            old(self).step < usize::MAX,
        ensures
            *final(self) == (Smoke {
                step: (old(self).step + 1) as usize,
                next: final(self).next,
                ..*old(self)
            }),
            final(self).next == if now + STEP_TIME > u64::MAX {
                u64::MAX as int
            } else {
                now + STEP_TIME
            },
    {
        self.step = self.step + 1;
        self.next = now.saturating_add(STEP_TIME);
    }

    /// Puts the step off for a moment.
    pub fn look_again(&mut self, now: u64)
        ensures
            *final(self) == (Smoke { next: final(self).next, ..*old(self) }),
            final(self).next == if now + LOOK_TIME > u64::MAX {
                u64::MAX as int
            } else {
                now + LOOK_TIME
            },
    {
        self.next = now.saturating_add(LOOK_TIME);
    }

    /// Remembers what is on screen.
    pub fn mark_main(&mut self, app: &App)
        ensures
            *final(self) == (Smoke { main: final(self).main, ..*old(self) }),
            final(self).main is Some && (final(self).main->0).marks(app@),
    {
        self.main = Some(Mark::new(app));
    }

    /// Remembers which cells are visible.
    pub fn mark_cells(&mut self, app: &App)
        ensures
            *final(self) == (Smoke {
                cells: Some((app@.strip.start, app@.strip.end)),
                at: app@.selection.index,
                ..*old(self)
            }),
    {
        self.cells = Some((app.strip.start, app.strip.end));
        self.at = app.navigator.index();
    }

    /// Remembers what the thumbnail worker has done.
    pub fn mark_idle(&mut self, activity: (u64, u64))
        ensures
            *final(self) == (Smoke { idle: Some(activity), ..*old(self) }),
    {
        self.idle = Some(activity);
    }

    /// A step to another visible cell and back, where there is one.
    pub open spec fn inside(self) -> Seq<Play> {
        if self.cells is Some && (self.cells->0).1 - (self.cells->0).0 > 1 {
            seq![
                Play::Navigate(-1isize),
                Play::Stable,
                Play::Check(Check::InsideKept),
                Play::Navigate(1),
                Play::Stable,
                Play::Check(Check::EdgeKept),
            ]
        } else {
            Seq::empty()
        }
    }

    /// A step to another visible cell and back, where there is one.
    pub fn inside_script(&self) -> (out: Vec<Play>)
        ensures
            out@ == self.inside(),
    {
        if let Some((start, end)) = self.cells {
            if end > start && end - start > 1 {
                return vec![
                    Play::Navigate(-1isize),
                    Play::Stable,
                    Play::Check(Check::InsideKept),
                    Play::Navigate(1),
                    Play::Stable,
                    Play::Check(Check::EdgeKept),
                ];
            }
        }
        Vec::new()
    }
}

/// The direction in which there is another photograph.
pub open spec fn turning(m: Model) -> int {
    let index = match m.selection.index {
        Some(index) => index as int,
        None => 0,
    };
    if index + 1 < m.listing.files.len() {
        1
    } else {
        -1
    }
}

/// The direction in which there is another photograph.
pub fn turn(app: &App) -> (out: isize)
    ensures
        out == turning(app@),
{
    let index: usize = match app.navigator.index() {
        Some(index) => index,
        None => 0,
    };
    let len: usize = app.listing.files.len();
    if index < len && index < len - 1 {
        1
    } else {
        -1
    }
}

/// The first visible cell from `i` on that is not the selected one. The only
/// photograph will do.
pub open spec fn other_from(m: Model, i: int) -> Option<int>
    decreases m.strip.end - i,
{
    if i >= m.strip.end || i >= m.listing.files.len() {
        None
    } else if m.selection.index != Some(i as usize) || m.listing.files.len() == 1 {
        Some(i)
    } else {
        other_from(m, i + 1)
    }
}

/// A visible cell to click on.
pub fn other_cell(app: &App) -> (out: Result<usize, String>)
    ensures
        match other_from(app@, app@.strip.start as int) {
            Some(i) => out is Ok && out->Ok_0 == i,
            None => out is Err && out->Err_0@ == "could not hit a filmstrip cell"@,
        },
{
    let ghost m = app@;
    let len: usize = app.listing.files.len();
    let mut i: usize = app.strip.start;
    while i < app.strip.end && i < len
        invariant
            m == app@,
            len == m.listing.files.len(),
            other_from(m, m.strip.start as int) == other_from(m, i as int),
        decreases m.strip.end - i,
    {
        let selected = match app.navigator.index() {
            Some(index) => index == i,
            None => false,
        };
        if !selected || len == 1 {
            return Ok(i);
        }
        i += 1;
    }
    Err("could not hit a filmstrip cell".to_owned())
}

/// The last visible cell, to click on.
pub fn last_cell(app: &App) -> (out: Result<usize, String>)
    ensures
        ({
            let m = app@;
            if m.strip.end == 0 {
                out is Err && out->Err_0@ == "no visible thumbnail to click"@
            } else if m.strip.start < m.strip.end <= m.listing.files.len() {
                out is Ok && out->Ok_0 == m.strip.end - 1
            } else {
                out is Err && out->Err_0@ == "could not hit the last visible thumbnail"@
            }
        }),
{
    if app.strip.end == 0 {
        Err("no visible thumbnail to click".to_owned())
    } else if app.strip.start < app.strip.end && app.strip.end <= app.listing.files.len() {
        Ok(app.strip.end - 1)
    } else {
        Err("could not hit the last visible thumbnail".to_owned())
    }
}

/// What is said where a click did not select its photograph.
pub open spec fn missed(last: bool) -> Seq<char> {
    if last {
        "filmstrip click did not change the main selection"@
    } else {
        "filmstrip click did not select the hit photo"@
    }
}

/// Makes sure that a click selected its photograph.
pub fn check_click(app: &App, index: usize, last: bool) -> (out: Result<(), String>)
    ensures
        text::same(
            out,
            if app@.selection.index == Some(index) {
                Ok(())
            } else {
                Err(missed(last))
            },
        ),
{
    match app.navigator.index() {
        Some(selected) if selected == index => Ok(()),
        _ => if last {
            Err("filmstrip click did not change the main selection".to_owned())
        } else {
            Err("filmstrip click did not select the hit photo".to_owned())
        },
    }
}

/// Whether the thumbnail of a visible cell is still to come.
fn lacks_cells(app: &App) -> (out: bool)
    ensures
        out == cells_missing(app@),
{
    let ghost m = app@;
    if !app.strip.visible {
        return false;
    }
    let mut index: usize = app.strip.start;
    while index < app.strip.end && index < app.listing.files.len()
        invariant
            m == app@,
            app.strip.visible,
            app.strip.start <= index,
            forall|i: int|
                i < index ==> !#[trigger] filmstrip::lacking(
                    m.listing.files,
                    m.strip.cache,
                    m.strip.unavailable,
                    (m.strip.start as int, m.strip.end as int),
                    i,
                ),
        decreases app.listing.files@.len() - index,
    {
        let photo = &app.listing.files[index];
        assert(m.listing.files[index as int] == photo@);
        if app.strip.cache.find(photo).is_none() && !app.strip.unavailable.contains(photo) {
            assert(filmstrip::lacking(
                m.listing.files,
                m.strip.cache,
                m.strip.unavailable,
                (m.strip.start as int, m.strip.end as int),
                index as int,
            ));
            return true;
        }
        index += 1;
    }
    false
}

/// The list shows what the ratings say.
pub open spec fn filter_obeyed(m: Model) -> bool {
    m.listing.files == m.visible() && !(m.listing.files.len() == 0 && m.screen.displayed is Some)
}

/// Makes sure that the list shows what the ratings say.
pub fn check_filter(app: &App) -> (out: Result<(), String>)
    requires
        app.sound(),
    ensures
        text::same(
            out,
            if filter_obeyed(app@) {
                Ok(())
            } else {
                Err("filtered navigation does not match indexed ratings"@)
            },
        ),
{
    let visible = app.visible_photographs();
    if !app.lists(&visible) || (app.listing.files.len() == 0 && app.screen.displayed.is_some()) {
        return Err("filtered navigation does not match indexed ratings".to_owned());
    }
    Ok(())
}

/// The cells at an edge of the list.
pub open spec fn edge(len: int, count: int, end: bool) -> (int, int) {
    if !end {
        (0, count)
    } else if count <= len {
        (len - count, len)
    } else {
        (0, len)
    }
}

/// Makes sure that the filmstrip was scrolled to an edge.
pub fn check_edge(app: &App, end: bool) -> (out: Result<(), String>)
    requires
        app.sound(),
    ensures
        ({
            let m = app@;
            let count = if m.strip.start < m.strip.end {
                m.strip.end - m.strip.start
            } else {
                0
            };
            let want = edge(m.listing.files.len() as int, count, end);
            text::same(
                out,
                if m.strip.start == want.0 && m.strip.end == want.1 && m.strip.window.start
                    == want.0 && m.strip.window.end() == want.1 {
                    Ok(())
                } else {
                    Err("filmstrip wheel did not reach the requested range edge"@)
                },
            )
        }),
{
    let len: usize = app.listing.files.len();
    let count: usize = app.strip.end.saturating_sub(app.strip.start);
    let (start, stop): (usize, usize) = if !end {
        (0, count)
    } else {
        (len.saturating_sub(count), len)
    };
    let range = app.strip.window.range();
    if app.strip.start != start || app.strip.end != stop || range.start != start || range.end != stop {
        return Err("filmstrip wheel did not reach the requested range edge".to_owned());
    }
    Ok(())
}

/// Scrolls after which an edge is reached.
pub fn edge_scrolls(len: usize) -> (out: usize)
    ensures
        out == len / 8 + 2,
{
    len / 8 + 2
}

impl Mark {
    /// What is on screen.
    pub open spec fn marks(self, m: Model) -> bool {
        &&& self.index == m.selection.index
        &&& deleted::place(self.current) == m.current()
        &&& deleted::place(self.displayed) == m.screen.displayed
        &&& self.generation == m.generation
        &&& self.requests == m.tally.requests
    }

    pub fn new(app: &App) -> (out: Self)
        ensures
            out.marks(app@),
    {
        let displayed = match &app.screen.displayed {
            Some(photo) => Some(photo.copied()),
            None => None,
        };
        Mark {
            index: app.navigator.index(),
            current: app.current(),
            displayed,
            generation: app.generation,
            requests: app.tally.requests,
        }
    }

    pub(crate) fn is_on(&self, app: &App) -> (out: bool)
        ensures
            out == self.marks(app@),
    {
        let current = app.current();
        let index = app.navigator.index();
        let same = match (self.index, index) {
            (Some(a), Some(b)) => a == b,
            (None, None) => true,
            _ => false,
        };
        same && same_choice(&self.current, &current) && same_choice(
            &self.displayed,
            &app.screen.displayed,
        ) && self.generation == app.generation && self.requests == app.tally.requests
    }
}

/// Whether no thumbnail is shown, kept or waited for.
pub open spec fn strip_gone(m: Model, look: Look) -> bool {
    &&& !m.strip.visible
    &&& !look.strip_visible
    &&& m.strip.cache.len() == 0
    &&& !m.strip.plan_sent
    &&& m.strip.deadline is None
}

/// Whether the cells moved by one, where there was room.
pub open spec fn moved_one(m: Model, was: (usize, usize)) -> bool {
    let len = m.listing.files.len();
    len > was.1 - was.0 && was.1 < len ==> m.strip.start == was.0 + 1 && m.strip.end == was.1 + 1
}

/// Whether the cells stayed, where all photographs are visible.
pub open spec fn stayed_fitting(m: Model, was: (usize, usize)) -> bool {
    m.listing.files.len() <= was.1 - was.0 ==> m.strip.start == was.0 && m.strip.end == was.1
}

/// Whether a step from a photograph at the edge moved the cells by one.
pub open spec fn revealed_one(m: Model, was: (usize, usize), at: usize) -> bool {
    if at + 1 < m.listing.files.len() {
        m.strip.start == was.0 + 1 && m.strip.end == was.1 + 1
    } else {
        m.strip.start == was.0 && m.strip.end == was.1
    }
}

impl Smoke {
    /// Whether something holds that the rehearsal makes sure of.
    pub open spec fn holds(
        self,
        check: Check,
        m: Model,
        look: Look,
        activity: (u64, u64),
    ) -> bool {
        match check {
            Check::ZoomRetained => m.settings.zoom_locked,
            Check::ActualSizeKept => look.actual_size,
            Check::PeekRestored => look.same_view,
            Check::ReferenceKept => m.screen.pinned is Some,
            Check::PeekActive => look.peeking,
            Check::PeekOver => !look.peeking,
            Check::HeldKeyIgnored => m.settings.auto_advance,
            Check::StripOff => !m.strip.visible,
            Check::StripOn => m.strip.visible,
            Check::StripStays => m.strip.visible,
            Check::CellsShown => look.strip_visible && m.strip.start < m.strip.end,
            Check::OverStrip => look.over_strip,
            Check::MainUnchanged => self.main is Some && (self.main->0).marks(m) && look.same_view,
            Check::ScrolledOneCell => self.cells is Some && moved_one(m, self.cells->0),
            Check::FittingStays => self.cells is Some && stayed_fitting(m, self.cells->0),
            Check::StripKept => m.strip.visible,
            Check::ReferenceBesideStrip => m.screen.pinned is Some && look.strip_visible,
            Check::StripHidden => !m.strip.visible,
            Check::HiddenIsIdle => strip_gone(m, look),
            Check::NoJobsWhileHidden => self.idle == Some(activity) && activity.0 == activity.1
                && !m.strip.visible && !m.strip.plan_sent && m.strip.deadline is None,
            Check::CellsKept => self.cells == Some((m.strip.start, m.strip.end)),
            Check::InsideKept => self.cells == Some((m.strip.start, m.strip.end)),
            Check::EdgeKept => self.cells == Some((m.strip.start, m.strip.end)),
            Check::PhotoChosen => self.at is Some,
            Check::RevealedOneCell => self.cells is Some && self.at is Some && revealed_one(
                m,
                self.cells->0,
                self.at->0,
            ),
            Check::CellsExpected => self.cells == Some((m.strip.start, m.strip.end)),
            Check::FinallyHidden => !m.strip.visible,
            Check::FinallyIdle => strip_gone(m, look) && activity.0 == activity.1,
            Check::BrightnessKept => m.settings.brightness_steps == 3 && look.same_brightness,
            Check::BrightnessReset => m.settings.brightness_steps == 0 && look.same_brightness,
        }
    }
}

/// What is said where something does not hold.
pub open spec fn complaint(check: Check) -> Seq<char> {
    match check {
        Check::ZoomRetained => "zoom retention was not enabled by default"@,
        Check::ActualSizeKept => "zoom lock was lost while navigating"@,
        Check::PeekRestored => "peek did not restore viewport"@,
        Check::ReferenceKept => "reference did not survive navigation"@,
        Check::PeekActive => "held focus peek was not active"@,
        Check::PeekOver => "focus peek survived release/navigation"@,
        Check::HeldKeyIgnored => "repeated A toggled auto-advance"@,
        Check::StripOff => "filmstrip unexpectedly enabled before Tab smoke stage"@,
        Check::StripOn => "Tab did not show the filmstrip"@,
        Check::StripStays => "repeated Tab hid the filmstrip"@,
        Check::CellsShown => "visible filmstrip has no displayed cells"@,
        Check::OverStrip => "wheel smoke pointer missed the filmstrip"@,
        Check::MainUnchanged => "scrolling the filmstrip changed main selection/loading/viewport"@,
        Check::ScrolledOneCell => "filmstrip wheel did not move only the visible range"@,
        Check::FittingStays => "filmstrip scrolled despite every photo fitting"@,
        Check::StripKept => "rapid navigation hid the filmstrip"@,
        Check::ReferenceBesideStrip => "reference comparison and filmstrip did not coexist"@,
        Check::StripHidden => "Tab did not hide the filmstrip"@,
        Check::HiddenIsIdle => "hidden filmstrip retained cache or scheduled work"@,
        Check::NoJobsWhileHidden => "thumbnail jobs continued while the strip was hidden"@,
        Check::CellsKept => "clicking an already-visible thumbnail recentered the strip"@,
        Check::InsideKept => "arrow navigation inside the strip moved its range"@,
        Check::EdgeKept => "returning to the visible edge recentered the strip"@,
        Check::PhotoChosen => "no main photo for arrow reveal"@,
        Check::RevealedOneCell => "arrow reveal did not shift by exactly one edge cell"@,
        Check::CellsExpected => "thumbnail completion moved the strip after arrow reveal"@,
        Check::FinallyHidden => "final Tab failed to hide strip"@,
        Check::FinallyIdle => "final hidden filmstrip retained cache or work"@,
        Check::BrightnessKept => "navigation/comparison reset viewing brightness"@,
        Check::BrightnessReset => "viewing brightness reset failed after comparison"@,
    }
}

/// What is said where something does not hold.
pub fn complain(check: Check) -> (out: &'static str)
    ensures
        out@ == complaint(check),
{
    match check {
        Check::ZoomRetained => "zoom retention was not enabled by default",
        Check::ActualSizeKept => "zoom lock was lost while navigating",
        Check::PeekRestored => "peek did not restore viewport",
        Check::ReferenceKept => "reference did not survive navigation",
        Check::PeekActive => "held focus peek was not active",
        Check::PeekOver => "focus peek survived release/navigation",
        Check::HeldKeyIgnored => "repeated A toggled auto-advance",
        Check::StripOff => "filmstrip unexpectedly enabled before Tab smoke stage",
        Check::StripOn => "Tab did not show the filmstrip",
        Check::StripStays => "repeated Tab hid the filmstrip",
        Check::CellsShown => "visible filmstrip has no displayed cells",
        Check::OverStrip => "wheel smoke pointer missed the filmstrip",
        Check::MainUnchanged => "scrolling the filmstrip changed main selection/loading/viewport",
        Check::ScrolledOneCell => "filmstrip wheel did not move only the visible range",
        Check::FittingStays => "filmstrip scrolled despite every photo fitting",
        Check::StripKept => "rapid navigation hid the filmstrip",
        Check::ReferenceBesideStrip => "reference comparison and filmstrip did not coexist",
        Check::StripHidden => "Tab did not hide the filmstrip",
        Check::HiddenIsIdle => "hidden filmstrip retained cache or scheduled work",
        Check::NoJobsWhileHidden => "thumbnail jobs continued while the strip was hidden",
        Check::CellsKept => "clicking an already-visible thumbnail recentered the strip",
        Check::InsideKept => "arrow navigation inside the strip moved its range",
        Check::EdgeKept => "returning to the visible edge recentered the strip",
        Check::PhotoChosen => "no main photo for arrow reveal",
        Check::RevealedOneCell => "arrow reveal did not shift by exactly one edge cell",
        Check::CellsExpected => "thumbnail completion moved the strip after arrow reveal",
        Check::FinallyHidden => "final Tab failed to hide strip",
        Check::FinallyIdle => "final hidden filmstrip retained cache or work",
        Check::BrightnessKept => "navigation/comparison reset viewing brightness",
        Check::BrightnessReset => "viewing brightness reset failed after comparison",
    }
}

fn is_gone(app: &App, look: Look) -> (out: bool)
    ensures
        out == strip_gone(app@, look),
{
    !app.strip.visible && !look.strip_visible && app.strip.cache.len() == 0
        && !app.strip.plan_sent && app.strip.deadline.is_none()
}

fn has_moved_one(app: &App, was: (usize, usize)) -> (out: bool)
    ensures
        out == moved_one(app@, was),
{
    let len: usize = app.listing.files.len();
    let (start, end): (usize, usize) = was;
    if (end < start || len > end - start) && end < len {
        start < app.strip.start && app.strip.start - start == 1 && end < app.strip.end
            && app.strip.end - end == 1
    } else {
        true
    }
}

fn has_stayed_fitting(app: &App, was: (usize, usize)) -> (out: bool)
    ensures
        out == stayed_fitting(app@, was),
{
    let len: usize = app.listing.files.len();
    let (start, end): (usize, usize) = was;
    end < start || len > end - start || (app.strip.start == start && app.strip.end == end)
}

fn has_revealed_one(app: &App, was: (usize, usize), at: usize) -> (out: bool)
    ensures
        out == revealed_one(app@, was, at),
{
    let (start, end): (usize, usize) = was;
    let len: usize = app.listing.files.len();
    if at < len && at < len - 1 {
        start < app.strip.start && app.strip.start - start == 1 && end < app.strip.end
            && app.strip.end - end == 1
    } else {
        app.strip.start == start && app.strip.end == end
    }
}

impl Smoke {
    fn is_marked(&self, app: &App) -> (out: bool)
        ensures
            out == (self.main is Some && (self.main->0).marks(app@)),
    {
        match &self.main {
            Some(mark) => mark.is_on(app),
            None => false,
        }
    }

    fn has_cells(&self, app: &App) -> (out: bool)
        ensures
            out == (self.cells == Some((app@.strip.start, app@.strip.end))),
    {
        match self.cells {
            Some((start, end)) => start == app.strip.start && end == app.strip.end,
            None => false,
        }
    }

    fn was_idle(&self, activity: (u64, u64)) -> (out: bool)
        ensures
            out == (self.idle == Some(activity) && activity.0 == activity.1),
    {
        match self.idle {
            Some((started, completed)) => started == activity.0 && completed == activity.1
                && activity.0 == activity.1,
            None => false,
        }
    }

    /// Makes sure of something.
    pub fn check(&self, check: Check, app: &App, look: Look, activity: (u64, u64)) -> (out: Result<
        (),
        String,
    >)
        ensures
            text::same(
                out,
                if self.holds(check, app@, look, activity) {
                    Ok(())
                } else {
                    Err(complaint(check))
                },
            ),
    {
        let well = match check {
            Check::ZoomRetained => app.settings.zoom_locked,
            Check::ActualSizeKept => look.actual_size,
            Check::PeekRestored => look.same_view,
            Check::ReferenceKept => app.screen.pinned.is_some(),
            Check::PeekActive => look.peeking,
            Check::PeekOver => !look.peeking,
            Check::HeldKeyIgnored => app.settings.auto_advance,
            Check::StripOff => !app.strip.visible,
            Check::StripOn => app.strip.visible,
            Check::StripStays => app.strip.visible,
            Check::CellsShown => look.strip_visible && app.strip.start < app.strip.end,
            Check::OverStrip => look.over_strip,
            Check::MainUnchanged => self.is_marked(app) && look.same_view,
            Check::ScrolledOneCell => match self.cells {
                Some(was) => has_moved_one(app, was),
                None => false,
            },
            Check::FittingStays => match self.cells {
                Some(was) => has_stayed_fitting(app, was),
                None => false,
            },
            Check::StripKept => app.strip.visible,
            Check::ReferenceBesideStrip => app.screen.pinned.is_some() && look.strip_visible,
            Check::StripHidden => !app.strip.visible,
            Check::HiddenIsIdle => is_gone(app, look),
            Check::NoJobsWhileHidden => self.was_idle(activity) && !app.strip.visible
                && !app.strip.plan_sent && app.strip.deadline.is_none(),
            Check::CellsKept => self.has_cells(app),
            Check::InsideKept => self.has_cells(app),
            Check::EdgeKept => self.has_cells(app),
            Check::PhotoChosen => self.at.is_some(),
            Check::RevealedOneCell => match (self.cells, self.at) {
                (Some(was), Some(at)) => has_revealed_one(app, was, at),
                _ => false,
            },
            Check::CellsExpected => self.has_cells(app),
            Check::FinallyHidden => !app.strip.visible,
            Check::FinallyIdle => is_gone(app, look) && activity.0 == activity.1,
            Check::BrightnessKept => app.settings.brightness_steps == 3 && look.same_brightness,
            Check::BrightnessReset => app.settings.brightness_steps == 0 && look.same_brightness,
        };
        if well {
            Ok(())
        } else {
            Err(complain(check).to_owned())
        }
    }
}

/// The visible photographs, from a cell on.
pub open spec fn cells_from(m: Model, i: int) -> Seq<Seq<u8>>
    decreases m.strip.end - i,
{
    if i >= m.strip.end || i < 0 {
        Seq::empty()
    } else if i < m.listing.files.len() {
        seq![m.listing.files[i]] + cells_from(m, i + 1)
    } else {
        cells_from(m, i + 1)
    }
}

/// The visible photographs from the one at `i` to the one at `end`, as written.
pub open spec fn spelled_from(files: Seq<PhotoPath>, i: int, end: int) -> Seq<Seq<u8>>
    decreases end - i,
{
    if i >= end || i < 0 {
        Seq::empty()
    } else if i < files.len() {
        seq![files[i].raw()] + spelled_from(files, i + 1, end)
    } else {
        spelled_from(files, i + 1, end)
    }
}

/// The thumbnails that were seen, by their textures. Paths are as written.
pub open spec fn seen(stable: Seq<(PhotoPath, u64)>) -> Seq<(Seq<u8>, u64)> {
    stable.map_values(|e: (PhotoPath, u64)| (e.0.raw(), e.1))
}

/// Those of the first `n` thumbnails whose cells are visible.
pub open spec fn seen_among(s: Seq<(Seq<u8>, u64)>, cells: Seq<Seq<u8>>, n: int) -> Seq<(Seq<u8>, u64)>
    decreases n,
{
    if n <= 0 {
        Seq::empty()
    } else if path::tidied(cells).contains(path::tidy(s[n - 1].0)) {
        seen_among(s, cells, n - 1).push(s[n - 1])
    } else {
        seen_among(s, cells, n - 1)
    }
}

/// Whether a thumbnail is still the one that was seen.
pub open spec fn unchanged(m: Model, e: (Seq<u8>, u64)) -> bool {
    match textures::texture_of(m.strip.cache, path::tidy(e.0)) {
        Some(texture) => texture.id == e.1,
        None => false,
    }
}

/// With the thumbnails of the first `n` cells that were not seen before.
pub open spec fn seen_with(
    m: Model,
    s: Seq<(Seq<u8>, u64)>,
    cells: Seq<Seq<u8>>,
    n: int,
) -> Seq<(Seq<u8>, u64)>
    decreases n,
{
    if n <= 0 {
        s
    } else {
        let before = seen_with(m, s, cells, n - 1);
        let photo = cells[n - 1];
        match textures::texture_of(m.strip.cache, path::tidy(photo)) {
            Some(texture) => if before.map_values(|e: (Seq<u8>, u64)| path::tidy(e.0)).contains(
                path::tidy(photo),
            ) {
                before
            } else {
                before.push((photo, texture.id))
            },
            None => before,
        }
    }
}

/// A number after it was counted up `n` times.
pub open spec fn counted(number: u64, n: int) -> u64
    decreases n,
{
    if n <= 0 {
        number
    } else {
        crate::app::state::next(counted(number, n - 1))
    }
}

/// The visible photographs.
fn visible_cells(app: &App) -> (out: Vec<PhotoPath>)
    ensures
        path::spellings(out@) == spelled_from(
            app.listing.files@,
            app.strip.start as int,
            app.strip.end as int,
        ),
{
    let ghost files = app.listing.files@;
    let ghost start = app.strip.start as int;
    let ghost end = app.strip.end as int;
    let mut out: Vec<PhotoPath> = Vec::new();
    let mut index: usize = app.strip.start;
    assert(path::spellings(out@) + spelled_from(files, start, end) =~= spelled_from(
        files,
        start,
        end,
    ));
    while index < app.strip.end
        invariant
            files == app.listing.files@,
            end == app.strip.end,
            path::spellings(out@) + spelled_from(files, index as int, end) == spelled_from(
                files,
                start,
                end,
            ),
        decreases app.strip.end - index,
    {
        if index < app.listing.files.len() {
            let ghost before = path::spellings(out@);
            let photo = app.listing.files[index].copied();
            out.push(photo);
            assert(path::spellings(out@) =~= before.push(photo.raw()));
            assert(before + (seq![photo.raw()] + spelled_from(files, index + 1, end))
                =~= path::spellings(out@) + spelled_from(files, index + 1, end));
        }
        index += 1;
    }
    assert(path::spellings(out@) + Seq::<Seq<u8>>::empty() =~= path::spellings(out@));
    out
}

impl Smoke {
    /// Makes sure that no visible thumbnail disappeared or was replaced. Only the
    /// numbers of textures are kept, which keep none of them alive.
    pub fn stable_thumbnails(&mut self, app: &App) -> (out: Result<(), String>)
        ensures
            final(self).step == old(self).step,
            final(self).started == old(self).started,
            final(self).next == old(self).next,
            final(self).idle == old(self).idle,
            final(self).main == old(self).main,
            final(self).cells == old(self).cells,
            final(self).at == old(self).at,
            ({
                let m = app@;
                let was = seen(old(self).stable@);
                let cells = spelled_from(
                    app.listing.files@,
                    app.strip.start as int,
                    app.strip.end as int,
                );
                let kept = seen_among(was, cells, was.len() as int);
                if !m.strip.visible {
                    &&& out is Ok
                    &&& seen(final(self).stable@) == Seq::<(Seq<u8>, u64)>::empty()
                    &&& final(self).checks == old(self).checks
                } else if old(self).step < STRIP_STEP {
                    &&& out is Ok
                    &&& seen(final(self).stable@) == was
                    &&& final(self).checks == old(self).checks
                } else if forall|i: int| 0 <= i < kept.len() ==> unchanged(m, #[trigger] kept[i]) {
                    &&& out is Ok
                    &&& seen(final(self).stable@) == seen_with(m, kept, cells, cells.len() as int)
                    &&& final(self).checks == counted(old(self).checks, kept.len() as int)
                } else {
                    out is Err && seen(final(self).stable@) == kept && exists|i: int|
                        #![trigger kept[i]]
                        0 <= i < kept.len() && !unchanged(m, kept[i]) && (forall|j: int|
                            0 <= j < i ==> unchanged(m, #[trigger] kept[j])) && final(self).checks
                            == counted(old(self).checks, i) && out->Err_0@ == "visible thumbnail disappeared or changed GPU allocation: "@
                            + text::lossy_text(kept[i].0)
                }
            }),
    {
        let ghost m = app@;
        let ghost was = seen(self.stable@);
        if !app.strip.visible {
            self.stable.clear();
            assert(seen(self.stable@) =~= Seq::<(Seq<u8>, u64)>::empty());
            return Ok(());
        }
        if self.step < STRIP_STEP {
            return Ok(());
        }
        let cells = visible_cells(app);
        let ghost names = path::spellings(cells@);
        self.keep_visible(&cells);
        let ghost kept = seen(self.stable@);
        let mut i: usize = 0;
        while i < self.stable.len()
            invariant
                m == app@,
                i <= self.stable@.len(),
                kept == seen(self.stable@),
                self.step == old(self).step,
                self.started == old(self).started,
                self.next == old(self).next,
                self.idle == old(self).idle,
                self.main == old(self).main,
                self.cells == old(self).cells,
                self.at == old(self).at,
                m.strip.visible,
                old(self).step >= STRIP_STEP,
                was == seen(old(self).stable@),
                names == spelled_from(
                    app.listing.files@,
                    app.strip.start as int,
                    app.strip.end as int,
                ),
                kept == seen_among(was, names, was.len() as int),
                forall|j: int| 0 <= j < i ==> unchanged(m, #[trigger] kept[j]),
                self.checks == counted(old(self).checks, i as int),
            decreases self.stable@.len() - i,
        {
            let (photo, id) = &self.stable[i];
            assert(kept[i as int] == (photo.raw(), *id));
            proof {
                photo.lemma_spelling();
            }
            let same = match app.strip.cache.find(photo) {
                Some(texture) => texture.id == *id,
                None => false,
            };
            if !same {
                let mut error = "visible thumbnail disappeared or changed GPU allocation: ".to_owned();
                error.append(photo.display().as_str());
                assert(!unchanged(m, kept[i as int]));
                return Err(error);
            }
            self.checks = next_number(self.checks);
            i += 1;
        }
        self.see_visible(app, &cells);
        Ok(())
    }

    fn keep_visible(&mut self, cells: &Vec<PhotoPath>)
        ensures
            *final(self) == (Smoke { stable: final(self).stable, ..*old(self) }),
            seen(final(self).stable@) == seen_among(
                seen(old(self).stable@),
                path::spellings(cells@),
                old(self).stable@.len() as int,
            ),
    {
        let ghost was = seen(self.stable@);
        let ghost names = path::spellings(cells@);
        let mut kept: Vec<(PhotoPath, u64)> = Vec::new();
        let mut i: usize = 0;
        assert(seen(kept@) =~= Seq::<(Seq<u8>, u64)>::empty());
        while i < self.stable.len()
            invariant
                i <= self.stable@.len(),
                *self == *old(self),
                was == seen(self.stable@),
                names == path::spellings(cells@),
                seen(kept@) == seen_among(was, names, i as int),
            decreases self.stable@.len() - i,
        {
            let (photo, id) = &self.stable[i];
            assert(was[i as int] == (photo.raw(), *id));
            proof {
                photo.lemma_spelling();
                path::lemma_tidied(cells@);
                path::lemma_first_position(path::keys(cells@), photo@);
            }
            if path::position_of(cells, photo).is_some() {
                let ghost before = seen(kept@);
                kept.push((photo.copied(), *id));
                assert(seen(kept@) =~= before.push(was[i as int]));
            }
            i += 1;
        }
        self.stable = kept;
    }

    fn see_visible(&mut self, app: &App, cells: &Vec<PhotoPath>)
        ensures
            *final(self) == (Smoke { stable: final(self).stable, ..*old(self) }),
            seen(final(self).stable@) == seen_with(
                app@,
                seen(old(self).stable@),
                path::spellings(cells@),
                cells@.len() as int,
            ),
    {
        let ghost m = app@;
        let ghost kept = seen(self.stable@);
        let ghost names = path::spellings(cells@);
        let mut i: usize = 0;
        while i < cells.len()
            invariant
                m == app@,
                i <= cells@.len(),
                names == path::spellings(cells@),
                *self == (Smoke { stable: self.stable, ..*old(self) }),
                seen(self.stable@) == seen_with(m, kept, names, i as int),
            decreases cells@.len() - i,
        {
            let photo = &cells[i];
            assert(names[i as int] == photo.raw());
            proof {
                photo.lemma_spelling();
            }
            let ghost before = seen(self.stable@);
            let known = self.has_seen(photo);
            match app.strip.cache.find(photo) {
                Some(texture) => {
                    if !known {
                        self.stable.push((photo.copied(), texture.id));
                        assert(seen(self.stable@) =~= before.push((photo.raw(), texture.id)));
                    }
                },
                None => {},
            }
            i += 1;
        }
    }

    fn has_seen(&self, photo: &PhotoPath) -> (out: bool)
        ensures
            out == seen(self.stable@).map_values(|e: (Seq<u8>, u64)| path::tidy(e.0)).contains(photo@),
    {
        let ghost all = seen(self.stable@).map_values(|e: (Seq<u8>, u64)| path::tidy(e.0));
        let mut i: usize = 0;
        while i < self.stable.len()
            invariant
                i <= self.stable@.len(),
                all.len() == self.stable@.len(),
                all == seen(self.stable@).map_values(|e: (Seq<u8>, u64)| path::tidy(e.0)),
                forall|j: int| 0 <= j < i ==> all[j] != photo@,
            decreases self.stable@.len() - i,
        {
            proof {
                self.stable[i as int].0.lemma_spelling();
            }
            assert(all[i as int] == self.stable@[i as int].0@);
            if self.stable[i].0.same(photo) {
                return true;
            }
            i += 1;
        }
        false
    }
}

} // verus!
