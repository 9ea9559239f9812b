//! The tool that measures how photographs are opened.
use crate::bench::args;
use crate::bench::args::{parse_unsigned, Argument, Stage, Word};
use crate::image::decoder::{same_text, Backend};
use crate::path::PhotoPath;
use crate::text;
use vstd::prelude::*;

verus! {

pub const DEFAULT_LIMIT: usize = 500;

pub const MAX_LIMIT: usize = 100000;

pub const MAX_PASSES: usize = 100;

pub const MAX_SAMPLES: usize = 1000000;

/// The orders in which files are opened.
#[derive(Clone, Copy, Debug, PartialEq, Eq, Structural)]
pub enum Order {
    Sequential,
    Random,
    Both,
}

impl Order {
    pub open spec fn title(self) -> Seq<char> {
        match self {
            Order::Sequential => "Sequential"@,
            Order::Random => "Random"@,
            Order::Both => "Both"@,
        }
    }

    pub fn name(self) -> (out: &'static str)
        ensures
            out@ == self.title(),
    {
        match self {
            Order::Sequential => "Sequential",
            Order::Random => "Random",
            Order::Both => "Both",
        }
    }

    /// The orders one after the other.
    pub fn list(self) -> (out: Vec<Order>)
        ensures
            out@ == match self {
                Order::Both => seq![Order::Sequential, Order::Random],
                _ => seq![self],
            },
    {
        match self {
            Order::Both => vec![Order::Sequential, Order::Random],
            _ => vec![self],
        }
    }
}

/// Which decoders are measured.
#[derive(Clone, Copy, Debug, PartialEq, Eq, Structural)]
pub enum Decoders {
    Nothing,
    Turbo,
    Zune,
    Both,
}

impl Decoders {
    pub open spec fn title(self) -> Seq<char> {
        match self {
            Decoders::Nothing => "none"@,
            Decoders::Turbo => "turbo"@,
            Decoders::Zune => "zune"@,
            Decoders::Both => "both"@,
        }
    }

    pub fn name(self) -> (out: &'static str)
        ensures
            out@ == self.title(),
    {
        match self {
            Decoders::Nothing => "none",
            Decoders::Turbo => "turbo",
            Decoders::Zune => "zune",
            Decoders::Both => "both",
        }
    }
}

/// What the tool is asked to do.
#[derive(Debug)]
pub struct Args {
    pub path: PhotoPath,
    pub limit: usize,
    pub passes: usize,
    pub order: Order,
    pub decoder: Decoders,
    pub scale: u32,
    pub seed: u64,
}

/// What was read so far.
pub struct Wish {
    pub path: Option<Seq<u8>>,
    pub limit: usize,
    pub passes: usize,
    pub order: Order,
    pub decoder: Decoders,
    pub scale: u32,
    pub seed: u64,
    /// Only paths come any more.
    pub positional: bool,
}

/// What is done unless something else is asked for.
pub open spec fn defaults() -> Wish {
    Wish {
        path: None,
        limit: DEFAULT_LIMIT,
        passes: 1,
        order: Order::Both,
        decoder: Decoders::Nothing,
        scale: 1,
        seed: 24301,
        positional: false,
    }
}

/// The value of an option: the word behind it.
pub open spec fn option_value(words: Seq<Word>, i: int, option: Seq<char>) -> Result<
    Seq<char>,
    Seq<char>,
> {
    if i + 1 >= words.len() {
        Err(option + " requires a value"@)
    } else {
        match words[i + 1] {
            Word::Text(t) => Ok(t),
            Word::Raw(_) => Err(option + " requires a UTF-8 value"@),
        }
    }
}

/// A number within bounds.
pub open spec fn bounded(value: Seq<char>, option: Seq<char>, maximum: int) -> Result<
    int,
    Seq<char>,
> {
    match args::unsigned(value) {
        Some(n) => if 1 <= n <= maximum {
            Ok(n)
        } else {
            Err(option + " must be between 1 and "@ + text::decimal(maximum))
        },
        None => Err(option + " must be between 1 and "@ + text::decimal(maximum)),
    }
}

pub open spec fn named_order(value: Seq<char>) -> Option<Order> {
    if value == "sequential"@ {
        Some(Order::Sequential)
    } else if value == "random"@ {
        Some(Order::Random)
    } else if value == "both"@ {
        Some(Order::Both)
    } else {
        None
    }
}

pub open spec fn named_decoders(value: Seq<char>) -> Option<Decoders> {
    if value == "none"@ {
        Some(Decoders::Nothing)
    } else if value == "turbo"@ {
        Some(Decoders::Turbo)
    } else if value == "zune"@ {
        Some(Decoders::Zune)
    } else if value == "both"@ {
        Some(Decoders::Both)
    } else {
        None
    }
}

/// A scale that a decoder knows.
pub open spec fn named_scale(value: Seq<char>) -> Option<u32> {
    match args::unsigned(value) {
        Some(n) => if n == 1 || n == 2 || n == 4 || n == 8 {
            Some(n as u32)
        } else {
            None
        },
        None => None,
    }
}

impl Wish {
    pub open spec fn with_path(self, i: int, word: Word) -> Stage<Wish> {
        if self.path is Some {
            Stage::Fail("provide exactly one folder or ARW file"@)
        } else {
            Stage::Next(i + 1, Wish { path: Some(word.place()), ..self })
        }
    }

    /// After an option with a value.
    pub open spec fn with_option(self, words: Seq<Word>, i: int, option: Seq<char>) -> Stage<Wish> {
        match option_value(words, i, option) {
            Err(error) => Stage::Fail(error),
            Ok(value) => if option == "--limit"@ {
                match bounded(value, option, MAX_LIMIT as int) {
                    Ok(n) => Stage::Next(i + 2, Wish { limit: n as usize, ..self }),
                    Err(error) => Stage::Fail(error),
                }
            } else if option == "--passes"@ {
                match bounded(value, option, MAX_PASSES as int) {
                    Ok(n) => Stage::Next(i + 2, Wish { passes: n as usize, ..self }),
                    Err(error) => Stage::Fail(error),
                }
            } else if option == "--seed"@ {
                match args::unsigned(value) {
                    Some(n) => Stage::Next(i + 2, Wish { seed: n as u64, ..self }),
                    None => Stage::Fail("--seed must be an unsigned decimal integer"@),
                }
            } else if option == "--order"@ {
                match named_order(value) {
                    Some(order) => Stage::Next(i + 2, Wish { order, ..self }),
                    None => Stage::Fail("--order must be sequential, random, or both"@),
                }
            } else if option == "--decoder"@ {
                match named_decoders(value) {
                    Some(decoder) => Stage::Next(i + 2, Wish { decoder, ..self }),
                    None => Stage::Fail("--decoder must be none, turbo, zune, or both"@),
                }
            } else {
                match named_scale(value) {
                    Some(scale) => Stage::Next(i + 2, Wish { scale, ..self }),
                    None => Stage::Fail("--scale must be 1, 2, 4, or 8"@),
                }
            },
        }
    }

    /// After a word.
    pub open spec fn with_word(self, words: Seq<Word>, i: int) -> Stage<Wish> {
        let word = words[i];
        if self.positional {
            self.with_path(i, word)
        } else {
            match word {
                Word::Text(t) => if t == "--"@ {
                    Stage::Next(i + 1, Wish { positional: true, ..self })
                } else if t == "-h"@ || t == "--help"@ {
                    Stage::Help
                } else if takes_value(t) {
                    self.with_option(words, i, t)
                } else if word.dashed() {
                    Stage::Fail("unknown option: "@ + t)
                } else {
                    self.with_path(i, word)
                },
                Word::Raw(_) => self.with_path(i, word),
            }
        }
    }

    /// What is asked for, from a word on. Nothing is done where usage is asked
    /// for.
    pub open spec fn read(self, words: Seq<Word>, i: int) -> Result<Option<Wish>, Seq<char>>
        decreases words.len() - i,
    {
        if i >= words.len() || i < 0 {
            if self.scale != 1 && self.decoder != Decoders::Turbo {
                Err("--scale greater than 1 requires --decoder turbo"@)
            } else if self.path is None {
                Err("provide a folder or ARW file; use --help for usage"@)
            } else {
                Ok(Some(self))
            }
        } else {
            match self.with_word(words, i) {
                Stage::Help => Ok(None),
                Stage::Fail(error) => Err(error),
                Stage::Next(n, wish) => if n > i {
                    wish.read(words, n)
                } else {
                    Ok(None)
                },
            }
        }
    }
}

/// Whether an option has a value.
pub open spec fn takes_value(t: Seq<char>) -> bool {
    t == "--limit"@ || t == "--passes"@ || t == "--seed"@ || t == "--order"@ || t == "--decoder"@
        || t == "--scale"@
}

/// What was read so far.
struct Draft {
    path: Option<PhotoPath>,
    limit: usize,
    passes: usize,
    order: Order,
    decoder: Decoders,
    scale: u32,
    seed: u64,
    positional: bool,
}

impl View for Draft {
    type V = Wish;

    closed spec fn view(&self) -> Wish {
        Wish {
            path: crate::path::written(self.path),
            limit: self.limit,
            passes: self.passes,
            order: self.order,
            decoder: self.decoder,
            scale: self.scale,
            seed: self.seed,
            positional: self.positional,
        }
    }
}

/// The text of an option and what is said about it.
fn about(option: &str, words: &str) -> (out: String)
    ensures
        out@ == option@ + words@,
{
    option.to_owned().concat(words)
}

/// The value of an option.
pub fn next_value<'a>(arguments: &'a Vec<Argument>, i: usize, option: &str) -> (out: Result<
    &'a String,
    String,
>)
    requires
        i < arguments@.len(),
    ensures
        match option_value(args::said(arguments@), i as int, option@) {
            Ok(value) => out is Ok && out->Ok_0@ == value && i + 1 < arguments@.len(),
            Err(error) => out is Err && out->Err_0@ == error,
        },
{
    let n: usize = arguments.len();
    if i >= n - 1 {
        return Err(about(option, " requires a value"));
    }
    assert(args::said(arguments@)[i + 1] == arguments@[i + 1]@);
    match &arguments[i + 1] {
        Argument::Text(t) => Ok(t),
        Argument::Raw(_) => Err(about(option, " requires a UTF-8 value")),
    }
}

/// A number within bounds.
pub fn parse_bounded(value: &str, option: &str, maximum: usize) -> (out: Result<usize, String>)
    ensures
        match bounded(value@, option@, maximum as int) {
            Ok(n) => out is Ok && out->Ok_0 == n,
            Err(error) => out is Err && out->Err_0@ == error,
        },
{
    match parse_unsigned(value) {
        Some(n) => if 1 <= n && n <= maximum as u64 {
            return Ok(n as usize);
        },
        None => {},
    }
    let mut error = about(option, " must be between 1 and ");
    text::append_number(&mut error, maximum as u64);
    Err(error)
}

impl Draft {
    fn set_path(&mut self, argument: &Argument) -> (out: Result<(), String>)
        ensures
            match old(self)@.with_path(0, argument@) {
                Stage::Next(_, wish) => out is Ok && final(self)@ == wish,
                Stage::Fail(error) => out is Err && out->Err_0@ == error,
                Stage::Help => false,
            },
    {
        if self.path.is_some() {
            return Err("provide exactly one folder or ARW file".to_owned());
        }
        self.path = Some(argument.path());
        Ok(())
    }

    fn set_option(&mut self, arguments: &Vec<Argument>, i: usize, option: &str) -> (out: Result<
        (),
        String,
    >)
        requires
            i < arguments@.len(),
            takes_value(option@),
        ensures
            match old(self)@.with_option(args::said(arguments@), i as int, option@) {
                Stage::Next(n, wish) => out is Ok && final(self)@ == wish && n == i + 2 && i + 1
                    < arguments@.len(),
                Stage::Fail(error) => out is Err && out->Err_0@ == error,
                Stage::Help => false,
            },
    {
        let value = match next_value(arguments, i, option) {
            Ok(value) => value.as_str(),
            Err(error) => {
                return Err(error);
            },
        };
        if same_text(option, "--limit") {
            match parse_bounded(value, option, MAX_LIMIT) {
                Ok(n) => {
                    self.limit = n;
                },
                Err(error) => {
                    return Err(error);
                },
            }
        } else if same_text(option, "--passes") {
            match parse_bounded(value, option, MAX_PASSES) {
                Ok(n) => {
                    self.passes = n;
                },
                Err(error) => {
                    return Err(error);
                },
            }
        } else if same_text(option, "--seed") {
            match parse_unsigned(value) {
                Some(n) => {
                    self.seed = n;
                },
                None => {
                    return Err("--seed must be an unsigned decimal integer".to_owned());
                },
            }
        } else if same_text(option, "--order") {
            if same_text(value, "sequential") {
                self.order = Order::Sequential;
            } else if same_text(value, "random") {
                self.order = Order::Random;
            } else if same_text(value, "both") {
                self.order = Order::Both;
            } else {
                return Err("--order must be sequential, random, or both".to_owned());
            }
        } else if same_text(option, "--decoder") {
            if same_text(value, "none") {
                self.decoder = Decoders::Nothing;
            } else if same_text(value, "turbo") {
                self.decoder = Decoders::Turbo;
            } else if same_text(value, "zune") {
                self.decoder = Decoders::Zune;
            } else if same_text(value, "both") {
                self.decoder = Decoders::Both;
            } else {
                return Err("--decoder must be none, turbo, zune, or both".to_owned());
            }
        } else {
            let scale: u64 = match parse_unsigned(value) {
                Some(n) => n,
                None => 0,
            };
            if scale == 1 || scale == 2 || scale == 4 || scale == 8 {
                self.scale = scale as u32;
            } else {
                return Err("--scale must be 1, 2, 4, or 8".to_owned());
            }
        }
        Ok(())
    }
}

/// Whether an option has a value.
fn is_valued(t: &str) -> (out: bool)
    ensures
        out == takes_value(t@),
{
    same_text(t, "--limit") || same_text(t, "--passes") || same_text(t, "--seed") || same_text(
        t,
        "--order",
    ) || same_text(t, "--decoder") || same_text(t, "--scale")
}

/// Whether arguments are what was wished for.
pub open spec fn grants(given: Args, wish: Wish) -> bool {
    &&& wish.path == Some(given.path.raw())
    &&& given.limit == wish.limit
    &&& given.passes == wish.passes
    &&& given.order == wish.order
    &&& given.decoder == wish.decoder
    &&& given.scale == wish.scale
    &&& given.seed == wish.seed
}

impl Args {
    /// Reads the command line. There is nothing to do where usage is asked for.
    pub fn parse(arguments: &Vec<Argument>) -> (out: Result<Option<Self>, String>)
        ensures
            match defaults().read(args::said(arguments@), 0) {
                Ok(Some(wish)) => out matches Ok(Some(given)) && grants(given, wish),
                Ok(None) => out is Ok && out->Ok_0 is None,
                Err(error) => out is Err && out->Err_0@ == error,
            },
    {
        let ghost words = args::said(arguments@);
        let ghost want = defaults().read(words, 0);
        let mut draft = Draft {
            path: None,
            limit: DEFAULT_LIMIT,
            passes: 1,
            order: Order::Both,
            decoder: Decoders::Nothing,
            scale: 1,
            seed: 24301,
            positional: false,
        };
        let mut i: usize = 0;
        while i < arguments.len()
            invariant
                i <= arguments@.len(),
                words == args::said(arguments@),
                want == defaults().read(words, 0),
                want == draft@.read(words, i as int),
            decreases arguments@.len() - i,
        {
            let argument = &arguments[i];
            assert(words[i as int] == argument@);
            if draft.positional {
                match draft.set_path(argument) {
                    Ok(()) => {},
                    Err(error) => {
                        return Err(error);
                    },
                }
                i += 1;
                continue;
            }
            match argument {
                Argument::Text(t) => {
                    if same_text(t.as_str(), "--") {
                        draft.positional = true;
                        i += 1;
                        continue;
                    }
                    if same_text(t.as_str(), "-h") || same_text(t.as_str(), "--help") {
                        return Ok(None);
                    }
                    if is_valued(t.as_str()) {
                        match draft.set_option(arguments, i, t.as_str()) {
                            Ok(()) => {},
                            Err(error) => {
                                return Err(error);
                            },
                        }
                        i += 2;
                        continue;
                    }
                    if argument.is_dashed() {
                        return Err("unknown option: ".to_owned().concat(t.as_str()));
                    }
                },
                Argument::Raw(_) => {},
            }
            match draft.set_path(argument) {
                Ok(()) => {},
                Err(error) => {
                    return Err(error);
                },
            }
            i += 1;
        }
        let turbo = match draft.decoder {
            Decoders::Turbo => true,
            _ => false,
        };
        if draft.scale != 1 && !turbo {
            return Err("--scale greater than 1 requires --decoder turbo".to_owned());
        }
        match draft.path {
            Some(path) => Ok(
                Some(
                    Args {
                        path,
                        limit: draft.limit,
                        passes: draft.passes,
                        order: draft.order,
                        decoder: draft.decoder,
                        scale: draft.scale,
                        seed: draft.seed,
                    },
                ),
            ),
            None => Err("provide a folder or ARW file; use --help for usage".to_owned()),
        }
    }

    /// The decoders that are measured, one after the other.
    pub fn backends(&self) -> (out: Vec<Option<Backend>>)
        ensures
            out@ == match self.decoder {
                Decoders::Nothing => seq![None::<Backend>],
                Decoders::Turbo => seq![Some(Backend::Turbo)],
                Decoders::Zune => seq![Some(Backend::Zune)],
                Decoders::Both => seq![Some(Backend::Turbo), Some(Backend::Zune)],
            },
    {
        match self.decoder {
            Decoders::Nothing => vec![None],
            Decoders::Turbo => vec![Some(Backend::Turbo)],
            Decoders::Zune => vec![Some(Backend::Zune)],
            Decoders::Both => vec![Some(Backend::Turbo), Some(Backend::Zune)],
        }
    }

    /// The attempts of one order, if all attempts together are not too many.
    pub fn plan(&self, files: usize) -> (out: Result<usize, String>)
        ensures
            ({
                let orders = if self.order is Both {
                    2int
                } else {
                    1int
                };
                let decoders = if self.decoder is Both {
                    2int
                } else {
                    1int
                };
                let each = files * self.passes;
                let all = each * orders * decoders;
                match out {
                    Ok(n) => n == each && all <= MAX_SAMPLES,
                    Err(error) => if each > usize::MAX || each * orders > usize::MAX || all
                        > usize::MAX {
                        error@ == "attempt count overflow"@
                    } else {
                        all > MAX_SAMPLES && error@ == text::decimal(all)
                            + " planned attempts exceeds "@ + text::decimal(MAX_SAMPLES as int)
                            + "; lower --limit or --passes"@
                    },
                }
            }),
    {
        let orders: usize = match self.order {
            Order::Both => 2,
            _ => 1,
        };
        let decoders: usize = match self.decoder {
            Decoders::Both => 2,
            _ => 1,
        };
        let each: usize = match files.checked_mul(self.passes) {
            Some(each) => each,
            None => {
                return Err("attempt count overflow".to_owned());
            },
        };
        let ordered: usize = match each.checked_mul(orders) {
            Some(ordered) => ordered,
            None => {
                return Err("attempt count overflow".to_owned());
            },
        };
        let all: usize = match ordered.checked_mul(decoders) {
            Some(all) => all,
            None => {
                return Err("attempt count overflow".to_owned());
            },
        };
        if all > MAX_SAMPLES {
            let mut error = text::number(all as u64);
            error.append(" planned attempts exceeds ");
            text::append_number(&mut error, MAX_SAMPLES as u64);
            error.append("; lower --limit or --passes");
            return Err(error);
        }
        Ok(each)
    }
}

/// What went wrong with the previews of a photograph, one after the other.
#[derive(Debug)]
pub struct Tries {
    pub errors: Vec<String>,
}

impl Tries {
    pub fn new() -> (out: Self)
        ensures
            out.errors@.len() == 0,
    {
        Tries { errors: Vec::new() }
    }

    /// Takes in that a preview could not be read.
    pub fn failed(&mut self, offset: u64, error: &str)
        ensures
            text::texts(final(self).errors@) == text::texts(old(self).errors@).push(
                "candidate at "@ + text::decimal(offset as int) + ": "@ + error@,
            ),
    {
        let ghost before = text::texts(self.errors@);
        let mut line = "candidate at ".to_owned();
        text::append_number(&mut line, offset);
        line.append(": ");
        line.append(error);
        self.errors.push(line);
        assert(text::texts(self.errors@) =~= before.push(line@));
    }

    /// What is said where no preview could be read.
    pub fn conclude(&self) -> (out: String)
        ensures
            out@ == "JPEG read: all "@ + text::decimal(self.errors@.len() as int)
                + " candidates failed; "@ + (if self.errors@.len() > 0 {
                self.errors@.last()@
            } else {
                "no candidates"@
            }),
    {
        let mut out = "JPEG read: all ".to_owned();
        text::append_number(&mut out, self.errors.len() as u64);
        out.append(" candidates failed; ");
        if self.errors.len() > 0 {
            out.append(self.errors[self.errors.len() - 1].as_str());
        } else {
            out.append("no candidates");
        }
        out
    }
}

/// Bytes and calls that were asked of files.
#[derive(Clone, Copy, Debug, PartialEq, Eq, Structural)]
pub struct IoTotals {
    pub bytes: u64,
    pub calls: u64,
}

impl IoTotals {
    /// Adds what was asked of a file.
    pub fn count(&mut self, bytes: u64, calls: u64)
        ensures
            final(self).bytes == if old(self).bytes + bytes > u64::MAX {
                u64::MAX as int
            } else {
                old(self).bytes + bytes
            },
            final(self).calls == if old(self).calls + calls > u64::MAX {
                u64::MAX as int
            } else {
                old(self).calls + calls
            },
    {
        self.bytes = self.bytes.saturating_add(bytes);
        self.calls = self.calls.saturating_add(calls);
    }
}

} // verus!
