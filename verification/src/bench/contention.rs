//! The tool that measures how uploads disturb what is shown.
use crate::bench::args;
use crate::bench::args::{parse_unsigned, Stage};
use crate::image::decoder::same_text;
use crate::text;
use vstd::prelude::*;

verus! {

/// Bytes of pixels that are made up.
pub const MAX_PIXEL_BYTES: u64 = 268435456;

/// Rows of copies begin at multiples of this.
pub const ROW_ALIGNMENT: u32 = 256;

/// How an upload waits for its end.
#[derive(Clone, Copy, Debug, PartialEq, Eq, Structural)]
pub enum Mode {
    Legacy,
    Poll,
    Mapped,
}

impl Mode {
    pub open spec fn title(self) -> Seq<char> {
        match self {
            Mode::Legacy => "legacy_wait"@,
            Mode::Poll => "worker_poll"@,
            Mode::Mapped => "mapped_staging_poll"@,
        }
    }

    pub fn label(self) -> (out: &'static str)
        ensures
            out@ == self.title(),
    {
        match self {
            Mode::Legacy => "legacy_wait",
            Mode::Poll => "worker_poll",
            Mode::Mapped => "mapped_staging_poll",
        }
    }
}

/// The modes of a round, in order.
pub open spec fn order_of(round: int) -> Seq<Mode> {
    let n = round % 6;
    if n == 0 {
        seq![Mode::Legacy, Mode::Poll, Mode::Mapped]
    } else if n == 1 {
        seq![Mode::Poll, Mode::Mapped, Mode::Legacy]
    } else if n == 2 {
        seq![Mode::Mapped, Mode::Legacy, Mode::Poll]
    } else if n == 3 {
        seq![Mode::Mapped, Mode::Poll, Mode::Legacy]
    } else if n == 4 {
        seq![Mode::Poll, Mode::Legacy, Mode::Mapped]
    } else {
        seq![Mode::Legacy, Mode::Mapped, Mode::Poll]
    }
}

/// The modes of a round. Six rounds go through all orders.
pub fn trial_order(round: usize) -> (out: [Mode; 3])
    ensures
        out@ == order_of(round as int),
{
    let n: usize = round % 6;
    let out = if n == 0 {
        [Mode::Legacy, Mode::Poll, Mode::Mapped]
    } else if n == 1 {
        [Mode::Poll, Mode::Mapped, Mode::Legacy]
    } else if n == 2 {
        [Mode::Mapped, Mode::Legacy, Mode::Poll]
    } else if n == 3 {
        [Mode::Mapped, Mode::Poll, Mode::Legacy]
    } else if n == 4 {
        [Mode::Poll, Mode::Legacy, Mode::Mapped]
    } else {
        [Mode::Legacy, Mode::Mapped, Mode::Poll]
    };
    assert(out@ =~= order_of(round as int));
    out
}

/// Whether a mode stands at a place of a round: once or never.
pub open spec fn stands(mode: Mode, round: int, place: int) -> int {
    if order_of(round)[place] == mode {
        1
    } else {
        0
    }
}

/// In six rounds each mode stands twice at each place of a round.
pub proof fn law_orders_are_balanced(mode: Mode, place: int)
    requires
        0 <= place < 3,
    ensures
        stands(mode, 0, place) + stands(mode, 1, place) + stands(mode, 2, place) + stands(
            mode,
            3,
            place,
        ) + stands(mode, 4, place) + stands(mode, 5, place) == 2,
{
}

/// The name of a phase of an upload.
pub fn phase_name(phase: u8) -> (out: &'static str)
    ensures
        out@ == match phase {
            0u8 => "preparing"@,
            1u8 => "staging_allocate_copy"@,
            2u8 => "completion"@,
            4u8 => "queue_submit"@,
            5u8 => "mapped_fill_encode"@,
            _ => "done"@,
        },
{
    match phase {
        0 => "preparing",
        1 => "staging_allocate_copy",
        2 => "completion",
        4 => "queue_submit",
        5 => "mapped_fill_encode",
        _ => "done",
    }
}

/// What the tool is asked to do.
#[derive(Clone, Copy, Debug, PartialEq, Eq, Structural)]
pub struct Args {
    /// Rounds of three modes.
    pub pairs: usize,
    pub warmup: usize,
    pub width: u32,
    pub height: u32,
}

/// What is done unless something else is asked for.
pub open spec fn defaults() -> Args {
    Args { pairs: 24, warmup: 6, width: 7008, height: 4672 }
}

/// The next multiple of six.
pub open spec fn in_sixes(n: int) -> int {
    (n + 5) / 6 * 6
}

impl Args {
    /// After an option and its value.
    pub open spec fn with_value(self, option: Seq<char>, value: int, n: int) -> Stage<Args> {
        if (option == "--pairs"@ || option == "--rounds"@) && 1 <= value <= 1000 {
            Stage::Next(n, Args { pairs: value as usize, ..self })
        } else if option == "--warmup"@ && value <= 100 {
            Stage::Next(n, Args { warmup: value as usize, ..self })
        } else if option == "--width"@ && 1 <= value <= 16384 {
            Stage::Next(n, Args { width: value as u32, ..self })
        } else if option == "--height"@ && 1 <= value <= 16384 {
            Stage::Next(n, Args { height: value as u32, ..self })
        } else {
            Stage::Fail(
                "unsupported option or value: "@ + option + " "@ + text::decimal(value),
            )
        }
    }

    /// After a word.
    pub open spec fn with_word(self, words: Seq<Seq<char>>, i: int) -> Stage<Args> {
        let option = words[i];
        if option == "-h"@ || option == "--help"@ {
            Stage::Help
        } else if i + 1 >= words.len() {
            Stage::Fail("missing value for "@ + option)
        } else {
            match args::unsigned(words[i + 1]) {
                Some(value) => if value <= u32::MAX {
                    self.with_value(option, value, i + 2)
                } else {
                    Stage::Fail("invalid value for "@ + option)
                },
                None => Stage::Fail("invalid value for "@ + option),
            }
        }
    }

    /// What is asked for, from a word on. Nothing is done where usage is asked
    /// for.
    pub open spec fn read(self, words: Seq<Seq<char>>, i: int) -> Result<Option<Args>, Seq<char>>
        decreases words.len() - i,
    {
        if i >= words.len() || i < 0 {
            if self.width * self.height * 4 > MAX_PIXEL_BYTES {
                Err("synthetic pixels must fit in 256 MiB"@)
            } else {
                Ok(Some(Args { warmup: in_sixes(self.warmup as int) as usize, ..self }))
            }
        } else {
            match self.with_word(words, i) {
                Stage::Help => Ok(None),
                Stage::Fail(error) => Err(error),
                Stage::Next(n, wish) => if n > i {
                    wish.read(words, n)
                } else {
                    Ok(None)
                },
            }
        }
    }

    /// The bytes of a padded row, or why a device cannot take the pixels.
    pub open spec fn row_for(self, max_dimension: u32, max_buffer: u64) -> Result<int, Seq<char>> {
        let row = (self.width * 4 + (ROW_ALIGNMENT - 1)) / (ROW_ALIGNMENT as int)
            * ROW_ALIGNMENT;
        if self.width > max_dimension || self.height > max_dimension {
            Err("requested dimensions exceed adapter limit"@)
        } else if row * self.height > max_buffer {
            Err("padded staging exceeds device buffer limit"@)
        } else {
            Ok(row)
        }
    }

    fn set_value(&mut self, option: &str, value: u32) -> (out: Result<(), String>)
        requires
            old(self).warmup <= 100,
        ensures
            final(self).warmup <= 100,
            match old(self).with_value(option@, value as int, 0) {
                Stage::Next(_, wish) => out is Ok && *final(self) == wish,
                Stage::Fail(error) => out is Err && out->Err_0@ == error,
                Stage::Help => false,
            },
    {
        if (same_text(option, "--pairs") || same_text(option, "--rounds")) && 1 <= value && value
            <= 1000 {
            self.pairs = value as usize;
        } else if same_text(option, "--warmup") && value <= 100 {
            self.warmup = value as usize;
        } else if same_text(option, "--width") && 1 <= value && value <= 16384 {
            self.width = value;
        } else if same_text(option, "--height") && 1 <= value && value <= 16384 {
            self.height = value;
        } else {
            let mut error = "unsupported option or value: ".to_owned();
            error.append(option);
            error.append(" ");
            text::append_number(&mut error, value as u64);
            return Err(error);
        }
        Ok(())
    }

    /// The bytes of a row of pixels, padded as copies demand it, if a device can
    /// take such pixels.
    pub fn padded_row(&self, max_dimension: u32, max_buffer: u64) -> (out: Result<u32, String>)
        requires
            self.width <= 16384,
            self.height <= 16384,
        ensures
            match self.row_for(max_dimension, max_buffer) {
                Ok(row) => out is Ok && out->Ok_0 == row,
                Err(error) => out is Err && out->Err_0@ == error,
            },
    {
        if self.width > max_dimension || self.height > max_dimension {
            return Err("requested dimensions exceed adapter limit".to_owned());
        }
        let row: u32 = (self.width * 4 + (ROW_ALIGNMENT - 1)) / ROW_ALIGNMENT * ROW_ALIGNMENT;
        proof {
            let (r, h) = (row as int, self.height as int);
            assert(0 <= r * h <= 0x20000 * 0x4000) by (nonlinear_arith)
                requires
                    0 <= r <= 0x20000,
                    0 <= h <= 0x4000,
            ;
        }
        if row as u64 * self.height as u64 > max_buffer {
            return Err("padded staging exceeds device buffer limit".to_owned());
        }
        Ok(row)
    }

    /// Reads the command line. There is nothing to do where usage is asked for.
    pub fn parse(arguments: &Vec<String>) -> (out: Result<Option<Self>, String>)
        ensures
            match defaults().read(text::texts(arguments@), 0) {
                Ok(Some(wish)) => out is Ok && out->Ok_0 == Some(wish),
                Ok(None) => out is Ok && out->Ok_0 is None,
                Err(error) => out is Err && out->Err_0@ == error,
            },
    {
        let ghost words = text::texts(arguments@);
        let ghost want = defaults().read(words, 0);
        let mut wish = Args { pairs: 24, warmup: 6, width: 7008, height: 4672 };
        let mut i: usize = 0;
        let n: usize = arguments.len();
        while i < n
            invariant
                i <= n,
                n == arguments@.len(),
                words == text::texts(arguments@),
                want == defaults().read(words, 0),
                want == wish.read(words, i as int),
                wish.warmup <= 100,
            decreases n - i,
        {
            let option = arguments[i].as_str();
            assert(words[i as int] == option@);
            if same_text(option, "-h") || same_text(option, "--help") {
                return Ok(None);
            }
            if i >= n - 1 {
                return Err("missing value for ".to_owned().concat(option));
            }
            assert(words[i + 1] == arguments@[i + 1]@);
            let value: u64 = match parse_unsigned(arguments[i + 1].as_str()) {
                Some(value) => value,
                None => {
                    return Err("invalid value for ".to_owned().concat(option));
                },
            };
            if value > u32::MAX as u64 {
                return Err("invalid value for ".to_owned().concat(option));
            }
            match wish.set_value(option, value as u32) {
                Ok(()) => {},
                Err(error) => {
                    return Err(error);
                },
            }
            i += 2;
        }
        proof {
            let w = wish.width as int;
            let h = wish.height as int;
            assert(0 <= w * h <= 0xffff_ffff * 0xffff_ffff) by (nonlinear_arith)
                requires
                    0 <= w <= 0xffff_ffff,
                    0 <= h <= 0xffff_ffff,
            ;
        }
        let area: u64 = wish.width as u64 * wish.height as u64;
        if area > MAX_PIXEL_BYTES / 4 {
            return Err("synthetic pixels must fit in 256 MiB".to_owned());
        }
        wish.warmup = (wish.warmup + 5) / 6 * 6;
        Ok(Some(wish))
    }
}

/// Warming up takes whole rounds of six, as few as are enough.
pub proof fn law_warm_up_is_in_sixes(n: int)
    requires
        n >= 0,
    ensures
        in_sixes(n) % 6 == 0,
        n <= in_sixes(n) < n + 6,
{
}

/// Rows are padded to a multiple of 256 bytes, by less than that.
pub proof fn law_rows_are_padded(given: Args, max_dimension: u32, max_buffer: u64)
    ensures
        given.row_for(max_dimension, max_buffer) matches Ok(row) ==> row % 256 == 0 && 4
            * given.width <= row < 4 * given.width + 256 && given.width <= max_dimension
            && given.height <= max_dimension && row * given.height <= max_buffer,
{
}

} // verus!
