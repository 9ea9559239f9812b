//! The tool that measures thumbnails beside photographs.
use crate::arw::parser::EmbeddedPreview;
use crate::bench::args;
use crate::bench::args::{parse_unsigned, Argument, Stage, Word};
use crate::bench::order;
use crate::bench::pipeline;
use crate::bench::pipeline::parse_bounded;
use crate::image::decoder::same_text;
use crate::path::PhotoPath;
use crate::text;
use vstd::prelude::*;
use vstd::string::StrSliceExecFns;

verus! {

/// Bytes of thumbnails that are kept.
pub const THUMB_CACHE_BYTES: usize = 16777216;

/// Measurements that are kept.
pub const MAX_ROWS: usize = 200000;

pub const MAX_FILES: usize = 10000;

pub const MAX_ROUNDS: usize = 8;

/// Pixels on the longer side of a preview that is large enough for a window.
pub const MEDIUM_EDGE: u32 = 1600;

/// Which embedded preview a thumbnail is made of.
#[derive(Clone, Copy, Debug, PartialEq, Eq, Structural)]
pub enum Strategy {
    Tiny,
    Medium,
    MediumEighth,
    Large,
}

impl Strategy {
    pub open spec fn title(self) -> Seq<char> {
        match self {
            Strategy::Tiny => "tiny"@,
            Strategy::Medium => "medium"@,
            Strategy::MediumEighth => "medium-eighth"@,
            Strategy::Large => "large"@,
        }
    }

    pub fn name(self) -> (out: &'static str)
        ensures
            out@ == self.title(),
    {
        match self {
            Strategy::Tiny => "tiny",
            Strategy::Medium => "medium",
            Strategy::MediumEighth => "medium-eighth",
            Strategy::Large => "large",
        }
    }

    pub open spec fn reduction(self) -> u32 {
        match self {
            Strategy::Tiny => 1,
            Strategy::Medium => 4,
            Strategy::MediumEighth => 8,
            Strategy::Large => 8,
        }
    }

    /// The scale at which the preview is decoded.
    pub fn scale(self) -> (out: u32)
        ensures
            out == self.reduction(),
    {
        match self {
            Strategy::Tiny => 1,
            Strategy::Medium => 4,
            Strategy::MediumEighth => 8,
            Strategy::Large => 8,
        }
    }

    pub fn parse(value: &str) -> (out: Result<Self, String>)
        ensures
            match named_strategy(value@) {
                Some(strategy) => out == Ok::<Strategy, String>(strategy),
                None => out is Err && out->Err_0@ == unknown_strategy(value@),
            },
    {
        if same_text(value, "tiny") {
            Ok(Strategy::Tiny)
        } else if same_text(value, "medium") {
            Ok(Strategy::Medium)
        } else if same_text(value, "medium-eighth") {
            Ok(Strategy::MediumEighth)
        } else if same_text(value, "large") {
            Ok(Strategy::Large)
        } else {
            let mut error = "unknown strategy ".to_owned();
            error.append(text::quoted(value).as_str());
            Err(error)
        }
    }
}

pub open spec fn named_strategy(value: Seq<char>) -> Option<Strategy> {
    if value == "tiny"@ {
        Some(Strategy::Tiny)
    } else if value == "medium"@ {
        Some(Strategy::Medium)
    } else if value == "medium-eighth"@ {
        Some(Strategy::MediumEighth)
    } else if value == "large"@ {
        Some(Strategy::Large)
    } else {
        None
    }
}

pub open spec fn unknown_strategy(value: Seq<char>) -> Seq<char> {
    "unknown strategy "@ + text::quoted_text(value)
}

/// The pixels of a preview. One whose size is not known has none.
pub open spec fn area(p: EmbeddedPreview) -> int {
    if p.width is Some && p.height is Some {
        p.width->0 * p.height->0
    } else {
        0
    }
}

/// The longer side of a preview.
pub open spec fn longer(p: EmbeddedPreview) -> int {
    let w = if p.width is Some {
        p.width->0 as int
    } else {
        0
    };
    let h = if p.height is Some {
        p.height->0 as int
    } else {
        0
    };
    if w > h {
        w
    } else {
        h
    }
}

/// Whether a preview is smaller than another: fewer pixels, or as many in fewer
/// bytes.
pub open spec fn smaller(a: EmbeddedPreview, b: EmbeddedPreview) -> bool {
    area(a) < area(b) || (area(a) == area(b) && a.length < b.length)
}

/// Whether a preview may be used by a strategy.
pub open spec fn eligible(p: EmbeddedPreview, strategy: Strategy) -> bool {
    match strategy {
        Strategy::Medium => longer(p) >= MEDIUM_EDGE,
        Strategy::MediumEighth => longer(p) >= MEDIUM_EDGE,
        _ => area(p) > 0,
    }
}

/// The first of the smallest previews of a strategy is at `i`.
pub open spec fn least(previews: Seq<EmbeddedPreview>, strategy: Strategy, i: int) -> bool {
    &&& 0 <= i < previews.len()
    &&& eligible(previews[i], strategy)
    &&& forall|k: int|
        0 <= k < previews.len() && eligible(previews[k], strategy) ==> !smaller(
            #[trigger] previews[k],
            previews[i],
        )
    &&& forall|k: int|
        0 <= k < i && eligible(previews[k], strategy) ==> smaller(previews[i], #[trigger] previews[k])
}

/// The last of the largest previews is at `i`.
pub open spec fn greatest(previews: Seq<EmbeddedPreview>, i: int) -> bool {
    &&& 0 <= i < previews.len()
    &&& area(previews[i]) > 0
    &&& forall|k: int|
        0 <= k < previews.len() && area(previews[k]) > 0 ==> !smaller(
            previews[i],
            #[trigger] previews[k],
        )
    &&& forall|k: int|
        i < k < previews.len() && area(previews[k]) > 0 ==> smaller(
            #[trigger] previews[k],
            previews[i],
        )
}

fn pixels(p: &EmbeddedPreview) -> (out: u64)
    ensures
        out == area(*p),
{
    match (p.width, p.height) {
        (Some(w), Some(h)) => {
            assert(0 <= w * h <= 0xffff_ffff * 0xffff_ffff) by (nonlinear_arith)
                requires
                    0 <= w <= 0xffff_ffff,
                    0 <= h <= 0xffff_ffff,
            ;
            w as u64 * h as u64
        },
        _ => 0,
    }
}

fn longest(p: &EmbeddedPreview) -> (out: u32)
    ensures
        out == longer(*p),
{
    let w: u32 = match p.width {
        Some(w) => w,
        None => 0,
    };
    let h: u32 = match p.height {
        Some(h) => h,
        None => 0,
    };
    if w > h {
        w
    } else {
        h
    }
}

fn is_smaller(a: &EmbeddedPreview, b: &EmbeddedPreview) -> (out: bool)
    ensures
        out == smaller(*a, *b),
{
    let x: u64 = pixels(a);
    let y: u64 = pixels(b);
    x < y || (x == y && a.length < b.length)
}

fn is_eligible(p: &EmbeddedPreview, strategy: Strategy) -> (out: bool)
    ensures
        out == eligible(*p, strategy),
{
    match strategy {
        Strategy::Medium => longest(p) >= MEDIUM_EDGE,
        Strategy::MediumEighth => longest(p) >= MEDIUM_EDGE,
        _ => pixels(p) > 0,
    }
}

fn find_least(previews: &Vec<EmbeddedPreview>, strategy: Strategy) -> (out: Option<usize>)
    ensures
        match out {
            Some(i) => least(previews@, strategy, i as int),
            None => forall|k: int|
                0 <= k < previews@.len() ==> !eligible(#[trigger] previews@[k], strategy),
        },
{
    let mut best: Option<usize> = None;
    let mut i: usize = 0;
    while i < previews.len()
        invariant
            i <= previews@.len(),
            match best {
                Some(b) => {
                    &&& b < i
                    &&& eligible(previews@[b as int], strategy)
                    &&& forall|k: int|
                        0 <= k < i && eligible(previews@[k], strategy) ==> !smaller(
                            #[trigger] previews@[k],
                            previews@[b as int],
                        )
                    &&& forall|k: int|
                        0 <= k < b && eligible(previews@[k], strategy) ==> smaller(
                            previews@[b as int],
                            #[trigger] previews@[k],
                        )
                },
                None => forall|k: int|
                    0 <= k < i ==> !eligible(#[trigger] previews@[k], strategy),
            },
        decreases previews@.len() - i,
    {
        if is_eligible(&previews[i], strategy) {
            let better = match best {
                Some(b) => is_smaller(&previews[i], &previews[b]),
                None => true,
            };
            if better {
                best = Some(i);
            }
        }
        i += 1;
    }
    best
}

fn find_greatest(previews: &Vec<EmbeddedPreview>) -> (out: Option<usize>)
    ensures
        match out {
            Some(i) => greatest(previews@, i as int),
            None => forall|k: int|
                0 <= k < previews@.len() ==> area(#[trigger] previews@[k]) <= 0,
        },
{
    let mut best: Option<usize> = None;
    let mut i: usize = 0;
    while i < previews.len()
        invariant
            i <= previews@.len(),
            match best {
                Some(b) => {
                    &&& b < i
                    &&& area(previews@[b as int]) > 0
                    &&& forall|k: int|
                        0 <= k < i && area(previews@[k]) > 0 ==> !smaller(
                            previews@[b as int],
                            #[trigger] previews@[k],
                        )
                    &&& forall|k: int|
                        b < k < i && area(previews@[k]) > 0 ==> smaller(
                            #[trigger] previews@[k],
                            previews@[b as int],
                        )
                },
                None => forall|k: int| 0 <= k < i ==> area(#[trigger] previews@[k]) <= 0,
            },
        decreases previews@.len() - i,
    {
        if pixels(&previews[i]) > 0 {
            let better = match best {
                Some(b) => !is_smaller(&previews[i], &previews[b]),
                None => true,
            };
            if better {
                best = Some(i);
            }
        }
        i += 1;
    }
    best
}

/// The preview that a strategy uses: the smallest, the smallest that is large
/// enough, or the largest, which also stands in where none is large enough.
pub fn select_preview(previews: &Vec<EmbeddedPreview>, strategy: Strategy) -> (out: Result<
    EmbeddedPreview,
    String,
>)
    ensures
        match out {
            Ok(p) => {
                ||| strategy != Strategy::Large && exists|i: int| #[trigger]
                    least(previews@, strategy, i) && p == previews@[i]
                ||| (strategy == Strategy::Large || forall|k: int|
                    0 <= k < previews@.len() ==> !eligible(#[trigger] previews@[k], strategy))
                    && exists|i: int| #[trigger] greatest(previews@, i) && p == previews@[i]
            },
            Err(error) => {
                &&& error@ == "no dimension-verified embedded JPEG"@
                &&& forall|k: int| 0 <= k < previews@.len() ==> area(#[trigger] previews@[k]) <= 0
            },
        },
{
    let largest: usize = match find_greatest(previews) {
        Some(largest) => largest,
        None => {
            return Err("no dimension-verified embedded JPEG".to_owned());
        },
    };
    assert(greatest(previews@, largest as int));
    match strategy {
        Strategy::Large => Ok(previews[largest]),
        _ => match find_least(previews, strategy) {
            Some(i) => {
                assert(least(previews@, strategy, i as int));
                Ok(previews[i])
            },
            None => Ok(previews[largest]),
        },
    }
}

/// Whether passes with thumbnails come first or last in a round.
pub open spec fn pattern(round: int) -> Seq<bool> {
    if round % 2 == 1 {
        seq![false, true, true, false]
    } else {
        seq![true, false, false, true]
    }
}

/// The passes of a round: without thumbnails, or with them. Rounds alternate, so
/// that neither profits from being first.
pub fn conditions(round: usize) -> (out: Vec<bool>)
    ensures
        out@ == pattern(round as int),
{
    if round % 2 == 1 {
        vec![false, true, true, false]
    } else {
        vec![true, false, false, true]
    }
}

/// The thumbnails of a pass, by their places and sizes.
#[derive(Debug)]
pub struct ThumbCache {
    pub entries: Vec<(usize, usize)>,
}

/// The bytes of some thumbnails.
pub open spec fn total(entries: Seq<(usize, usize)>) -> int
    decreases entries.len(),
{
    if entries.len() == 0 {
        0
    } else {
        total(entries.drop_last()) + entries.last().1
    }
}

/// Those of the first `n` thumbnails that are visible.
pub open spec fn among(entries: Seq<(usize, usize)>, window: Seq<usize>, n: int) -> Seq<
    (usize, usize),
>
    decreases n,
{
    if n <= 0 {
        Seq::empty()
    } else if window.contains(entries[n - 1].0) {
        among(entries, window, n - 1).push(entries[n - 1])
    } else {
        among(entries, window, n - 1)
    }
}

/// Whether there is a thumbnail at a place.
pub open spec fn shows(entries: Seq<(usize, usize)>, index: usize) -> bool {
    exists|i: int| 0 <= i < entries.len() && (#[trigger] entries[i]).0 == index
}

proof fn lemma_among(entries: Seq<(usize, usize)>, window: Seq<usize>, n: int)
    requires
        0 <= n <= entries.len(),
    ensures
        0 <= total(among(entries, window, n)) <= total(entries.take(n)),
    decreases n,
{
    if n > 0 {
        lemma_among(entries, window, n - 1);
        assert(entries.take(n).drop_last() =~= entries.take(n - 1));
        let kept = among(entries, window, n - 1);
        assert(kept.push(entries[n - 1]).drop_last() =~= kept);
    }
}

impl ThumbCache {
    /// No more is kept than fits.
    pub open spec fn sound(self) -> bool {
        total(self.entries@) <= THUMB_CACHE_BYTES
    }

    pub fn new() -> (out: Self)
        ensures
            out.sound(),
            out.entries@.len() == 0,
    {
        ThumbCache { entries: Vec::new() }
    }

    /// Whether a thumbnail is kept.
    pub fn holds(&self, index: usize) -> (out: bool)
        ensures
            out == shows(self.entries@, index),
    {
        let mut i: usize = 0;
        while i < self.entries.len()
            invariant
                i <= self.entries@.len(),
                forall|k: int| 0 <= k < i ==> (#[trigger] self.entries@[k]).0 != index,
            decreases self.entries@.len() - i,
        {
            if self.entries[i].0 == index {
                return true;
            }
            i += 1;
        }
        false
    }

    /// Keeps visible thumbnails only.
    pub fn follow(&mut self, window: &Vec<usize>)
        requires
            old(self).sound(),
        ensures
            final(self).sound(),
            final(self).entries@ == among(
                old(self).entries@,
                window@,
                old(self).entries@.len() as int,
            ),
    {
        let ghost was = self.entries@;
        let mut kept: Vec<(usize, usize)> = Vec::new();
        let mut i: usize = 0;
        while i < self.entries.len()
            invariant
                i <= self.entries@.len(),
                self.entries@ == was,
                kept@ == among(was, window@, i as int),
            decreases self.entries@.len() - i,
        {
            if contains(window, self.entries[i].0) {
                kept.push(self.entries[i]);
            }
            i += 1;
        }
        proof {
            lemma_among(was, window@, was.len() as int);
            assert(was.take(was.len() as int) =~= was);
        }
        self.entries = kept;
    }

    /// The bytes of the thumbnails.
    pub fn bytes(&self) -> (out: usize)
        requires
            self.sound(),
        ensures
            out == total(self.entries@),
    {
        let mut sum: usize = 0;
        let mut i: usize = 0;
        let ghost all = self.entries@;
        assert(all.take(0) =~= Seq::<(usize, usize)>::empty());
        while i < self.entries.len()
            invariant
                i <= all.len(),
                all == self.entries@,
                total(all) <= THUMB_CACHE_BYTES,
                sum == total(all.take(i as int)),
            decreases all.len() - i,
        {
            proof {
                assert(all.take(i + 1).drop_last() =~= all.take(i as int));
                lemma_total(all, i + 1);
            }
            sum += self.entries[i].1;
            i += 1;
        }
        assert(all.take(i as int) =~= all);
        sum
    }

    /// Keeps another thumbnail, if there is room. Says whether there was.
    pub fn keep(&mut self, index: usize, size: usize) -> (out: bool)
        requires
            old(self).sound(),
        ensures
            final(self).sound(),
            out == (total(old(self).entries@) + size <= THUMB_CACHE_BYTES),
            final(self).entries@ == if out {
                old(self).entries@.push((index, size))
            } else {
                old(self).entries@
            },
    {
        let used: usize = self.bytes();
        if size > THUMB_CACHE_BYTES - used {
            return false;
        }
        let ghost was = self.entries@;
        self.entries.push((index, size));
        assert(self.entries@.drop_last() =~= was);
        true
    }

    /// Whether all visible thumbnails are there.
    pub fn is_ready(&self, window: &Vec<usize>) -> (out: bool)
        ensures
            out == forall|k: int|
                0 <= k < window@.len() ==> shows(self.entries@, #[trigger] window@[k]),
    {
        let mut k: usize = 0;
        while k < window.len()
            invariant
                k <= window@.len(),
                forall|j: int| 0 <= j < k ==> shows(self.entries@, #[trigger] window@[j]),
            decreases window@.len() - k,
        {
            if !self.holds(window[k]) {
                return false;
            }
            k += 1;
        }
        true
    }
}

proof fn lemma_total(entries: Seq<(usize, usize)>, n: int)
    requires
        0 <= n <= entries.len(),
    ensures
        0 <= total(entries.take(n)) <= total(entries),
    decreases entries.len() - n,
{
    if n == entries.len() {
        assert(entries.take(n) =~= entries);
        lemma_sum(entries);
    } else {
        lemma_total(entries, n + 1);
        assert(entries.take(n + 1).drop_last() =~= entries.take(n));
        lemma_sum(entries.take(n));
    }
}

proof fn lemma_sum(entries: Seq<(usize, usize)>)
    ensures
        total(entries) >= 0,
    decreases entries.len(),
{
    if entries.len() > 0 {
        lemma_sum(entries.drop_last());
    }
}

fn contains(list: &Vec<usize>, n: usize) -> (out: bool)
    ensures
        out == list@.contains(n),
{
    let mut i: usize = 0;
    while i < list.len()
        invariant
            i <= list@.len(),
            forall|k: int| 0 <= k < i ==> list@[k] != n,
        decreases list@.len() - i,
    {
        if list[i] == n {
            return true;
        }
        i += 1;
    }
    false
}

/// What is measured.
#[derive(Clone, Copy, Debug, PartialEq, Eq, Structural)]
pub enum Mode {
    Micro,
    Contention,
    Both,
}

/// What the tool is asked to do.
#[derive(Debug)]
pub struct Args {
    pub path: PhotoPath,
    pub mode: Mode,
    pub strategies: Vec<Strategy>,
    pub random: bool,
    pub limit: usize,
    pub rounds: usize,
    pub seed: u64,
    pub spread: bool,
}

/// What was read so far.
pub struct Wish {
    pub path: Option<Seq<u8>>,
    pub mode: Mode,
    pub strategies: Seq<Strategy>,
    pub random: bool,
    pub limit: usize,
    pub rounds: usize,
    pub seed: u64,
    pub spread: bool,
    /// Only paths come any more.
    pub positional: bool,
}

/// All strategies.
pub open spec fn every_strategy() -> Seq<Strategy> {
    seq![Strategy::Tiny, Strategy::Medium, Strategy::MediumEighth, Strategy::Large]
}

/// What is done unless something else is asked for.
pub open spec fn defaults() -> Wish {
    Wish {
        path: None,
        mode: Mode::Micro,
        strategies: every_strategy(),
        random: false,
        limit: 64,
        rounds: 1,
        seed: 24301,
        spread: false,
        positional: false,
    }
}

/// The first comma of a text from a place on, or its end.
pub open spec fn comma(t: Seq<char>, i: int) -> int
    decreases t.len() - i,
{
    if i >= t.len() || t[i] == ',' {
        i
    } else {
        comma(t, i + 1)
    }
}

/// The strategies of a list from a place on, behind those found so far. A
/// strategy that stands twice in a row counts once.
pub open spec fn listed(t: Seq<char>, start: int, found: Seq<Strategy>) -> Result<
    Seq<Strategy>,
    Seq<char>,
>
    decreases t.len() - start,
{
    let end = comma(t, start);
    let name = t.subrange(start, end);
    match named_strategy(name) {
        None => Err(unknown_strategy(name)),
        Some(strategy) => {
            let more = if found.len() > 0 && found.last() == strategy {
                found
            } else {
                found.push(strategy)
            };
            if end >= t.len() || end < start {
                Ok(more)
            } else {
                listed(t, end + 1, more)
            }
        },
    }
}

pub open spec fn named_mode(value: Seq<char>) -> Option<Mode> {
    if value == "micro"@ {
        Some(Mode::Micro)
    } else if value == "contention"@ {
        Some(Mode::Contention)
    } else if value == "both"@ {
        Some(Mode::Both)
    } else {
        None
    }
}

/// Whether an option has a value.
pub open spec fn takes_value(t: Seq<char>) -> bool {
    t == "--mode"@ || t == "--strategy"@ || t == "--order"@ || t == "--limit"@ || t == "--rounds"@
        || t == "--seed"@
}

pub open spec fn invalid(value: Seq<char>, option: Seq<char>) -> Seq<char> {
    "invalid value "@ + text::quoted_text(value) + " for "@ + option
}

/// The measurements of one file, at worst.
pub open spec fn rows_per_file(mode: Mode) -> int {
    match mode {
        Mode::Micro => 1,
        Mode::Contention => 26,
        Mode::Both => 27,
    }
}

impl Wish {
    pub open spec fn with_path(self, i: int, word: Word) -> Stage<Wish> {
        if self.path is Some {
            Stage::Fail("provide exactly one input path"@)
        } else {
            Stage::Next(i + 1, Wish { path: Some(word.place()), ..self })
        }
    }

    /// After an option and its value.
    pub open spec fn with_value(self, value: Seq<char>, option: Seq<char>, n: int) -> Stage<Wish> {
        if option == "--mode"@ {
            match named_mode(value) {
                Some(mode) => Stage::Next(n, Wish { mode, ..self }),
                None => Stage::Fail(invalid(value, option)),
            }
        } else if option == "--order"@ {
            if value == "sequential"@ {
                Stage::Next(n, Wish { random: false, ..self })
            } else if value == "random"@ {
                Stage::Next(n, Wish { random: true, ..self })
            } else {
                Stage::Fail(invalid(value, option))
            }
        } else if option == "--strategy"@ {
            if value == "all"@ {
                Stage::Next(n, self)
            } else {
                match listed(value, 0, Seq::empty()) {
                    Ok(strategies) => Stage::Next(n, Wish { strategies, ..self }),
                    Err(error) => Stage::Fail(error),
                }
            }
        } else if option == "--limit"@ {
            match pipeline::bounded(value, option, MAX_FILES as int) {
                Ok(limit) => Stage::Next(n, Wish { limit: limit as usize, ..self }),
                Err(error) => Stage::Fail(error),
            }
        } else if option == "--rounds"@ {
            match pipeline::bounded(value, option, MAX_ROUNDS as int) {
                Ok(rounds) => Stage::Next(n, Wish { rounds: rounds as usize, ..self }),
                Err(error) => Stage::Fail(error),
            }
        } else {
            match args::unsigned(value) {
                Some(seed) => Stage::Next(n, Wish { seed: seed as u64, ..self }),
                None => Stage::Fail("--seed must be u64"@),
            }
        }
    }

    /// After an option.
    pub open spec fn with_option(self, words: Seq<Word>, i: int, option: Seq<char>) -> Stage<Wish> {
        if !takes_value(option) {
            Stage::Fail("unknown option "@ + text::quoted_text(option))
        } else if i + 1 >= words.len() {
            Stage::Fail("missing value for "@ + option)
        } else {
            match words[i + 1] {
                Word::Raw(_) => Stage::Fail(option + " value must be UTF-8"@),
                Word::Text(value) => self.with_value(value, option, i + 2),
            }
        }
    }

    /// After a word.
    pub open spec fn with_word(self, words: Seq<Word>, i: int) -> Stage<Wish> {
        let word = words[i];
        if self.positional {
            self.with_path(i, word)
        } else if word.is("--"@) {
            Stage::Next(i + 1, Wish { positional: true, ..self })
        } else if word.is("-h"@) || word.is("--help"@) {
            Stage::Help
        } else if word.is("--spread"@) {
            Stage::Next(i + 1, Wish { spread: true, ..self })
        } else if word.dashed() {
            match word {
                Word::Text(t) => self.with_option(words, i, t),
                Word::Raw(_) => Stage::Fail("option must be UTF-8"@),
            }
        } else {
            self.with_path(i, word)
        }
    }

    /// The measurements, at worst.
    pub open spec fn rows(self) -> int {
        self.limit * self.rounds * self.strategies.len() * rows_per_file(self.mode)
    }

    /// Whether the measurements cannot be counted.
    pub open spec fn overflows(self) -> bool {
        ||| self.limit * self.rounds > usize::MAX
        ||| self.limit * self.rounds * self.strategies.len() > usize::MAX
        ||| self.rows() > usize::MAX
    }

    /// What is asked for, if it is a bounded amount of work.
    pub open spec fn checked(self) -> Result<Option<Wish>, Seq<char>> {
        if self.path is None {
            Err("missing input path; use --help"@)
        } else if self.overflows() {
            Err("sample count overflow"@)
        } else if self.rows() > MAX_ROWS {
            Err(
                "worst-case samples "@ + text::decimal(self.rows()) + " exceed "@ + text::decimal(
                    MAX_ROWS as int,
                ) + "; reduce limit/rounds/strategies"@,
            )
        } else {
            Ok(Some(self))
        }
    }

    /// What is asked for, from a word on. Nothing is done where usage is asked
    /// for.
    pub open spec fn read(self, words: Seq<Word>, i: int) -> Result<Option<Wish>, Seq<char>>
        decreases words.len() - i,
    {
        if i >= words.len() || i < 0 {
            self.checked()
        } else {
            match self.with_word(words, i) {
                Stage::Help => Ok(None),
                Stage::Fail(error) => Err(error),
                Stage::Next(n, wish) => if n > i {
                    wish.read(words, n)
                } else {
                    Ok(None)
                },
            }
        }
    }
}

/// What was read so far.
struct Draft {
    path: Option<PhotoPath>,
    mode: Mode,
    strategies: Vec<Strategy>,
    random: bool,
    limit: usize,
    rounds: usize,
    seed: u64,
    spread: bool,
    positional: bool,
}

impl View for Draft {
    type V = Wish;

    closed spec fn view(&self) -> Wish {
        Wish {
            path: crate::path::written(self.path),
            mode: self.mode,
            strategies: self.strategies@,
            random: self.random,
            limit: self.limit,
            rounds: self.rounds,
            seed: self.seed,
            spread: self.spread,
            positional: self.positional,
        }
    }
}

proof fn lemma_comma(t: Seq<char>, i: int)
    requires
        0 <= i <= t.len(),
    ensures
        i <= comma(t, i) <= t.len(),
    decreases t.len() - i,
{
    if i < t.len() && t[i] != ',' {
        lemma_comma(t, i + 1);
    }
}

/// Reads a list of strategies.
fn parse_strategies(value: &str) -> (out: Result<Vec<Strategy>, String>)
    ensures
        match listed(value@, 0, Seq::empty()) {
            Ok(strategies) => out is Ok && out->Ok_0@ == strategies,
            Err(error) => out is Err && out->Err_0@ == error,
        },
{
    let n: usize = value.unicode_len();
    let ghost want = listed(value@, 0, Seq::empty());
    let mut found: Vec<Strategy> = Vec::new();
    let mut start: usize = 0;
    loop
        invariant
            n == value@.len(),
            start <= n,
            want == listed(value@, 0, Seq::empty()),
            want == listed(value@, start as int, found@),
        decreases n - start,
    {
        let mut end: usize = start;
        while end < n && value.get_char(end) != ','
            invariant
                n == value@.len(),
                start <= end <= n,
                comma(value@, start as int) == comma(value@, end as int),
            decreases n - end,
        {
            end += 1;
        }
        let strategy = match Strategy::parse(value.substring_char(start, end)) {
            Ok(strategy) => strategy,
            Err(error) => {
                return Err(error);
            },
        };
        let again = found.len() > 0 && found[found.len() - 1] == strategy;
        if !again {
            found.push(strategy);
        }
        if end == n {
            return Ok(found);
        }
        start = end + 1;
    }
}

fn append_invalid(value: &str, option: &str) -> (out: String)
    ensures
        out@ == invalid(value@, option@),
{
    let mut error = "invalid value ".to_owned();
    error.append(text::quoted(value).as_str());
    error.append(" for ");
    error.append(option);
    error
}

fn is_valued(t: &str) -> (out: bool)
    ensures
        out == takes_value(t@),
{
    same_text(t, "--mode") || same_text(t, "--strategy") || same_text(t, "--order") || same_text(
        t,
        "--limit",
    ) || same_text(t, "--rounds") || same_text(t, "--seed")
}

impl Draft {
    fn set_path(&mut self, argument: &Argument) -> (out: Result<(), String>)
        ensures
            match old(self)@.with_path(0, argument@) {
                Stage::Next(_, wish) => out is Ok && final(self)@ == wish,
                Stage::Fail(error) => out is Err && out->Err_0@ == error,
                Stage::Help => false,
            },
    {
        if self.path.is_some() {
            return Err("provide exactly one input path".to_owned());
        }
        self.path = Some(argument.path());
        Ok(())
    }

    fn set_value(&mut self, value: &str, option: &str) -> (out: Result<(), String>)
        requires
            takes_value(option@),
        ensures
            match old(self)@.with_value(value@, option@, 0) {
                Stage::Next(_, wish) => out is Ok && final(self)@ == wish,
                Stage::Fail(error) => out is Err && out->Err_0@ == error,
                Stage::Help => false,
            },
    {
        if same_text(option, "--mode") {
            if same_text(value, "micro") {
                self.mode = Mode::Micro;
            } else if same_text(value, "contention") {
                self.mode = Mode::Contention;
            } else if same_text(value, "both") {
                self.mode = Mode::Both;
            } else {
                return Err(append_invalid(value, option));
            }
        } else if same_text(option, "--order") {
            if same_text(value, "sequential") {
                self.random = false;
            } else if same_text(value, "random") {
                self.random = true;
            } else {
                return Err(append_invalid(value, option));
            }
        } else if same_text(option, "--strategy") {
            if !same_text(value, "all") {
                match parse_strategies(value) {
                    Ok(strategies) => {
                        self.strategies = strategies;
                    },
                    Err(error) => {
                        return Err(error);
                    },
                }
            }
        } else if same_text(option, "--limit") {
            match parse_bounded(value, option, MAX_FILES) {
                Ok(n) => {
                    self.limit = n;
                },
                Err(error) => {
                    return Err(error);
                },
            }
        } else if same_text(option, "--rounds") {
            match parse_bounded(value, option, MAX_ROUNDS) {
                Ok(n) => {
                    self.rounds = n;
                },
                Err(error) => {
                    return Err(error);
                },
            }
        } else {
            match parse_unsigned(value) {
                Some(n) => {
                    self.seed = n;
                },
                None => {
                    return Err("--seed must be u64".to_owned());
                },
            }
        }
        Ok(())
    }

    fn set_option(&mut self, arguments: &Vec<Argument>, i: usize, option: &str) -> (out: Result<
        (),
        String,
    >)
        requires
            i < arguments@.len(),
        ensures
            match old(self)@.with_option(args::said(arguments@), i as int, option@) {
                Stage::Next(n, wish) => out is Ok && final(self)@ == wish && n == i + 2 && i + 1
                    < arguments@.len(),
                Stage::Fail(error) => out is Err && out->Err_0@ == error,
                Stage::Help => false,
            },
    {
        if !is_valued(option) {
            return Err("unknown option ".to_owned().concat(text::quoted(option).as_str()));
        }
        let n: usize = arguments.len();
        if i >= n - 1 {
            return Err("missing value for ".to_owned().concat(option));
        }
        assert(args::said(arguments@)[i + 1] == arguments@[i + 1]@);
        match &arguments[i + 1] {
            Argument::Text(value) => self.set_value(value.as_str(), option),
            Argument::Raw(_) => Err(option.to_owned().concat(" value must be UTF-8")),
        }
    }

    /// The measurements, at worst, if they can be counted.
    fn rows(&self) -> (out: Option<usize>)
        ensures
            match out {
                Some(rows) => rows == self@.rows(),
                None => self@.overflows(),
            },
            match out {
                Some(_) => !self@.overflows(),
                None => true,
            },
    {
        let each: usize = match self.mode {
            Mode::Micro => 1,
            Mode::Contention => 26,
            Mode::Both => 27,
        };
        let n: usize = match self.limit.checked_mul(self.rounds) {
            Some(n) => n,
            None => {
                return None;
            },
        };
        let n: usize = match n.checked_mul(self.strategies.len()) {
            Some(n) => n,
            None => {
                return None;
            },
        };
        n.checked_mul(each)
    }
}

/// Whether arguments are what was wished for.
pub open spec fn grants(given: Args, wish: Wish) -> bool {
    &&& wish.path == Some(given.path.raw())
    &&& given.mode == wish.mode
    &&& given.strategies@ == wish.strategies
    &&& given.random == wish.random
    &&& given.limit == wish.limit
    &&& given.rounds == wish.rounds
    &&& given.seed == wish.seed
    &&& given.spread == wish.spread
}

impl Args {
    /// Reads the command line. There is nothing to do where usage is asked for.
    pub fn parse(arguments: &Vec<Argument>) -> (out: Result<Option<Self>, String>)
        ensures
            match defaults().read(args::said(arguments@), 0) {
                Ok(Some(wish)) => out matches Ok(Some(given)) && grants(given, wish),
                Ok(None) => out is Ok && out->Ok_0 is None,
                Err(error) => out is Err && out->Err_0@ == error,
            },
    {
        let ghost words = args::said(arguments@);
        let ghost want = defaults().read(words, 0);
        let mut draft = Draft {
            path: None,
            mode: Mode::Micro,
            strategies: vec![
                Strategy::Tiny,
                Strategy::Medium,
                Strategy::MediumEighth,
                Strategy::Large,
            ],
            random: false,
            limit: 64,
            rounds: 1,
            seed: 24301,
            spread: false,
            positional: false,
        };
        assert(draft@.strategies =~= every_strategy());
        let mut i: usize = 0;
        while i < arguments.len()
            invariant
                i <= arguments@.len(),
                words == args::said(arguments@),
                want == defaults().read(words, 0),
                want == draft@.read(words, i as int),
            decreases arguments@.len() - i,
        {
            let argument = &arguments[i];
            assert(words[i as int] == argument@);
            if !draft.positional {
                if argument.is("--") {
                    draft.positional = true;
                    i += 1;
                    continue;
                }
                if argument.is("-h") || argument.is("--help") {
                    return Ok(None);
                }
                if argument.is("--spread") {
                    draft.spread = true;
                    i += 1;
                    continue;
                }
                if argument.is_dashed() {
                    match argument {
                        Argument::Text(t) => match draft.set_option(arguments, i, t.as_str()) {
                            Ok(()) => {},
                            Err(error) => {
                                return Err(error);
                            },
                        },
                        Argument::Raw(_) => {
                            return Err("option must be UTF-8".to_owned());
                        },
                    }
                    i += 2;
                    continue;
                }
            }
            match draft.set_path(argument) {
                Ok(()) => {},
                Err(error) => {
                    return Err(error);
                },
            }
            i += 1;
        }
        if draft.path.is_none() {
            return Err("missing input path; use --help".to_owned());
        }
        let rows: usize = match draft.rows() {
            Some(rows) => rows,
            None => {
                return Err("sample count overflow".to_owned());
            },
        };
        if rows > MAX_ROWS {
            let mut error = "worst-case samples ".to_owned();
            text::append_number(&mut error, rows as u64);
            error.append(" exceed ");
            text::append_number(&mut error, MAX_ROWS as u64);
            error.append("; reduce limit/rounds/strategies");
            return Err(error);
        }
        match draft.path {
            Some(path) => Ok(
                Some(
                    Args {
                        path,
                        mode: draft.mode,
                        strategies: draft.strategies,
                        random: draft.random,
                        limit: draft.limit,
                        rounds: draft.rounds,
                        seed: draft.seed,
                        spread: draft.spread,
                    },
                ),
            ),
            None => Err("missing input path; use --help".to_owned()),
        }
    }
}

/// A text in which no character breaks a table.
pub open spec fn escape(t: Seq<char>) -> Seq<char>
    decreases t.len(),
{
    if t.len() == 0 {
        Seq::empty()
    } else {
        escape(t.drop_last()) + escape_char(t.last())
    }
}

pub open spec fn escape_char(c: char) -> Seq<char> {
    if c == '\\' {
        "\\\\"@
    } else if c == '\t' {
        "\\t"@
    } else if c == '\n' {
        "\\n"@
    } else if c == '\r' {
        "\\r"@
    } else {
        seq![c]
    }
}

/// The name of a file in a table.
pub fn escaped(path: &PhotoPath) -> (out: String)
    ensures
        out@ == escape(text::lossy_text(path.raw())),
{
    let lossy = text::from_utf8_lossy(path.as_raw());
    let t = lossy.as_str();
    let n: usize = t.unicode_len();
    let mut out = "".to_owned();
    let mut i: usize = 0;
    proof {
        reveal_strlit("");
    }
    assert(t@.take(0) =~= Seq::<char>::empty());
    while i < n
        invariant
            i <= n,
            n == t@.len(),
            out@ == escape(t@.take(i as int)),
        decreases n - i,
    {
        let c: char = t.get_char(i);
        assert(t@.take(i + 1).drop_last() =~= t@.take(i as int));
        assert(t@.take(i + 1).last() == c);
        if c == '\\' {
            out.append("\\\\");
        } else if c == '\t' {
            out.append("\\t");
        } else if c == '\n' {
            out.append("\\n");
        } else if c == '\r' {
            out.append("\\r");
        } else {
            out.append(t.substring_char(i, i + 1));
            assert(t@.subrange(i as int, i + 1) =~= seq![c]);
        }
        i += 1;
    }
    assert(t@.take(i as int) =~= t@);
    out
}

/// How the work on thumbnails goes.
#[derive(Debug)]
pub struct Follower {
    pub cache: ThumbCache,
    /// The request that was followed last.
    pub version: u64,
    pub windows: usize,
    pub cache_hits: usize,
    pub ready_windows: usize,
    pub budget_skips: usize,
    pub peak_cache_bytes: usize,
    /// With the image under way.
    pub peak_rgba_bytes: usize,
    pub peak_jpeg_capacity: usize,
}

/// One more, as far as can be counted.
pub open spec fn counted(n: usize) -> usize {
    if n == usize::MAX {
        n
    } else {
        (n + 1) as usize
    }
}

/// The larger one of a number that was seen and one that may be too large.
pub open spec fn peak(n: usize, seen: int) -> int {
    if seen > usize::MAX {
        usize::MAX as int
    } else if seen > n {
        seen
    } else {
        n as int
    }
}

fn count(n: usize) -> (out: usize)
    ensures
        out == counted(n),
{
    if n == usize::MAX {
        n
    } else {
        n + 1
    }
}

fn raise(n: usize, seen: usize) -> (out: usize)
    ensures
        out == peak(n, seen as int),
{
    if seen > n {
        seen
    } else {
        n
    }
}

impl Follower {
    pub open spec fn sound(self) -> bool {
        self.cache.sound()
    }

    pub fn new() -> (out: Self)
        ensures
            out.sound(),
            out.cache.entries@.len() == 0,
            out.version == 0 && out.windows == 0 && out.cache_hits == 0 && out.ready_windows == 0,
            out.budget_skips == 0 && out.peak_cache_bytes == 0 && out.peak_rgba_bytes == 0
                && out.peak_jpeg_capacity == 0,
    {
        Follower {
            cache: ThumbCache::new(),
            version: 0,
            windows: 0,
            cache_hits: 0,
            ready_windows: 0,
            budget_skips: 0,
            peak_cache_bytes: 0,
            peak_rgba_bytes: 0,
            peak_jpeg_capacity: 0,
        }
    }

    /// Turns to what is visible for a request, if it is a new one.
    pub fn begin(&mut self, version: u64, index: usize, len: usize) -> (out: Option<Vec<usize>>)
        requires
            old(self).sound(),
        ensures
            final(self).sound(),
            match out {
                Some(window) => {
                    &&& version != old(self).version
                    &&& window@ == order::around(index as int, len as int, order::VISIBLE_RADIUS as int)
                    &&& *final(self) == (Follower {
                        cache: final(self).cache,
                        version,
                        windows: counted(old(self).windows),
                        ..*old(self)
                    })
                    &&& final(self).cache.entries@ == among(
                        old(self).cache.entries@,
                        window@,
                        old(self).cache.entries@.len() as int,
                    )
                },
                None => version == old(self).version && *final(self) == *old(self),
            },
    {
        if version == self.version {
            return None;
        }
        self.version = version;
        self.windows = count(self.windows);
        let window = order::visible_window(index, len);
        self.cache.follow(&window);
        Some(window)
    }

    /// Whether a thumbnail is there already.
    pub fn skips(&mut self, index: usize) -> (out: bool)
        ensures
            out == shows(old(self).cache.entries@, index),
            *final(self) == if out {
                Follower { cache_hits: counted(old(self).cache_hits), ..*old(self) }
            } else {
                *old(self)
            },
    {
        if self.cache.holds(index) {
            self.cache_hits = count(self.cache_hits);
            true
        } else {
            false
        }
    }

    /// Takes in a thumbnail that was decoded. One that comes late is dropped; one
    /// that does not fit ends the work on what is visible, so that nearer ones
    /// stay. Says whether the work goes on.
    pub fn record(&mut self, index: usize, size: usize, jpeg: usize, late: bool) -> (out: bool)
        requires
            old(self).sound(),
        ensures
            final(self).sound(),
            ({
                let was = *old(self);
                let now = *final(self);
                let used = total(was.cache.entries@);
                let fits = used + size <= THUMB_CACHE_BYTES;
                &&& out == (late || fits)
                &&& now.version == was.version && now.windows == was.windows
                &&& now.cache_hits == was.cache_hits && now.ready_windows == was.ready_windows
                &&& now.peak_rgba_bytes == peak(was.peak_rgba_bytes, used + size)
                &&& now.peak_jpeg_capacity == peak(was.peak_jpeg_capacity, jpeg as int)
                &&& now.cache.entries@ == if !late && fits {
                    was.cache.entries@.push((index, size))
                } else {
                    was.cache.entries@
                }
                &&& now.peak_cache_bytes == if !late && fits {
                    peak(was.peak_cache_bytes, used + size)
                } else {
                    was.peak_cache_bytes as int
                }
                &&& now.budget_skips == if !late && !fits {
                    counted(was.budget_skips)
                } else {
                    was.budget_skips
                }
            }),
    {
        let used: usize = self.cache.bytes();
        proof {
            lemma_sum(self.cache.entries@);
        }
        self.peak_rgba_bytes = raise(self.peak_rgba_bytes, used.saturating_add(size));
        self.peak_jpeg_capacity = raise(self.peak_jpeg_capacity, jpeg);
        if late {
            return true;
        }
        if self.cache.keep(index, size) {
            self.peak_cache_bytes = raise(self.peak_cache_bytes, used + size);
            true
        } else {
            self.budget_skips = count(self.budget_skips);
            false
        }
    }

    /// Ends the work on what is visible.
    pub fn finish(&mut self, window: &Vec<usize>, late: bool)
        ensures
            *final(self) == if !late && (forall|k: int|
                0 <= k < window@.len() ==> shows(old(self).cache.entries@, #[trigger] window@[k])) {
                Follower { ready_windows: counted(old(self).ready_windows), ..*old(self) }
            } else {
                *old(self)
            },
    {
        if !late && self.cache.is_ready(window) {
            self.ready_windows = count(self.ready_windows);
        }
    }
}

} // verus!
