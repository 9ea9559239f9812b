//! What the program is asked to do on the command line.
use crate::app::startup::Options;
use crate::bench::args;
use crate::bench::args::{parse_unsigned, Argument, Stage, Word};
use crate::image::decoder::same_text;
use vstd::prelude::*;
use vstd::string::StrSliceExecFns;

verus! {

/// What was read so far.
pub struct Wish {
    pub path: Option<Seq<u8>>,
    pub cache_mb: usize,
    pub smoke_test: Option<Seq<u8>>,
}

/// What is done unless something else is asked for.
pub open spec fn defaults() -> Wish {
    Wish { path: None, cache_mb: 512, smoke_test: None }
}

/// Whether a text begins with another one.
pub open spec fn begins(t: Seq<char>, prefix: Seq<char>) -> bool {
    t.len() >= prefix.len() && t.take(prefix.len() as int) == prefix
}

/// The size of a cache that a word names.
pub open spec fn cache_size(word: Word) -> Option<int> {
    match word {
        Word::Text(t) => match args::unsigned(t) {
            Some(n) => if n == 256 || n == 512 || n == 1024 || n == 2048 {
                Some(n)
            } else {
                None
            },
            None => None,
        },
        Word::Raw(_) => None,
    }
}

impl Wish {
    pub open spec fn with_path(self, i: int, word: Word) -> Stage<Wish> {
        if self.path is None {
            Stage::Next(i + 1, Wish { path: Some(word.place()), ..self })
        } else {
            Stage::Fail("provide one folder or ARW path"@)
        }
    }

    /// After a word.
    pub open spec fn with_word(self, words: Seq<Word>, i: int) -> Stage<Wish> {
        let word = words[i];
        match word {
            Word::Raw(_) => self.with_path(i, word),
            Word::Text(t) => if t == "--help"@ || t == "-h"@ {
                Stage::Help
            } else if t == "--cache-mb"@ {
                if i + 1 < words.len() && cache_size(words[i + 1]) is Some {
                    Stage::Next(
                        i + 2,
                        Wish { cache_mb: cache_size(words[i + 1])->0 as usize, ..self },
                    )
                } else {
                    Stage::Fail("--cache-mb needs 256, 512, 1024, or 2048"@)
                }
            } else if t == "--smoke-test"@ {
                if i + 1 < words.len() {
                    Stage::Next(i + 2, Wish { smoke_test: Some(words[i + 1].place()), ..self })
                } else {
                    Stage::Fail("--smoke-test needs a new output directory"@)
                }
            } else if begins(t, "-psn_"@) {
                Stage::Next(i + 1, self)
            } else if word.dashed() {
                Stage::Fail("unknown option: "@ + t)
            } else {
                self.with_path(i, word)
            },
        }
    }

    /// What is asked for, from a word on. Nothing is done where usage is asked
    /// for.
    pub open spec fn read(self, words: Seq<Word>, i: int) -> Result<Option<Wish>, Seq<char>>
        decreases words.len() - i,
    {
        if i >= words.len() || i < 0 {
            if self.smoke_test is Some && self.path is None {
                Err("--smoke-test requires a folder or ARW path"@)
            } else {
                Ok(Some(self))
            }
        } else {
            match self.with_word(words, i) {
                Stage::Help => Ok(None),
                Stage::Fail(error) => Err(error),
                Stage::Next(n, wish) => if n > i {
                    wish.read(words, n)
                } else {
                    Ok(None)
                },
            }
        }
    }
}

impl View for Options {
    type V = Wish;

    open spec fn view(&self) -> Wish {
        Wish {
            path: crate::path::written(self.path),
            cache_mb: self.cache_mb,
            smoke_test: crate::path::written(self.smoke_test),
        }
    }
}

/// Whether a text begins with another one.
fn starts_with(t: &str, prefix: &str) -> (out: bool)
    ensures
        out == begins(t@, prefix@),
{
    let n: usize = prefix.unicode_len();
    if t.unicode_len() < n {
        return false;
    }
    assert(t@.subrange(0, n as int) =~= t@.take(n as int));
    same_text(t.substring_char(0, n), prefix)
}

/// The size of a cache that a word names.
fn parse_cache(argument: &Argument) -> (out: Option<usize>)
    ensures
        match out {
            Some(n) => cache_size(argument@) == Some(n as int),
            None => cache_size(argument@) is None,
        },
{
    match argument {
        Argument::Text(t) => match parse_unsigned(t.as_str()) {
            Some(n) => if n == 256 || n == 512 || n == 1024 || n == 2048 {
                Some(n as usize)
            } else {
                None
            },
            None => None,
        },
        Argument::Raw(_) => None,
    }
}

impl Options {
    fn set_path(&mut self, argument: &Argument) -> (out: Result<(), String>)
        ensures
            match old(self)@.with_path(0, argument@) {
                Stage::Next(_, wish) => out is Ok && final(self)@ == wish,
                Stage::Fail(error) => out is Err && out->Err_0@ == error,
                Stage::Help => false,
            },
    {
        if self.path.is_some() {
            return Err("provide one folder or ARW path".to_owned());
        }
        self.path = Some(argument.path());
        Ok(())
    }

    /// Reads the command line. There is nothing to do where usage is asked for.
    pub fn parse(arguments: &Vec<Argument>) -> (out: Result<Option<Self>, String>)
        ensures
            match defaults().read(args::said(arguments@), 0) {
                Ok(Some(wish)) => out matches Ok(Some(given)) && given@ == wish,
                Ok(None) => out is Ok && out->Ok_0 is None,
                Err(error) => out is Err && out->Err_0@ == error,
            },
    {
        let ghost words = args::said(arguments@);
        let ghost want = defaults().read(words, 0);
        let mut options = Options { path: None, cache_mb: 512, smoke_test: None };
        let mut i: usize = 0;
        let n: usize = arguments.len();
        while i < n
            invariant
                i <= n,
                n == arguments@.len(),
                words == args::said(arguments@),
                want == defaults().read(words, 0),
                want == options@.read(words, i as int),
            decreases n - i,
        {
            let argument = &arguments[i];
            assert(words[i as int] == argument@);
            assert(i + 1 < n ==> words[i + 1] == arguments@[i + 1]@);
            if argument.is("--help") || argument.is("-h") {
                return Ok(None);
            }
            if argument.is("--cache-mb") {
                let size: Option<usize> = if i < n - 1 {
                    parse_cache(&arguments[i + 1])
                } else {
                    None
                };
                match size {
                    Some(size) => {
                        options.cache_mb = size;
                    },
                    None => {
                        return Err("--cache-mb needs 256, 512, 1024, or 2048".to_owned());
                    },
                }
                i += 2;
                continue;
            }
            if argument.is("--smoke-test") {
                if i >= n - 1 {
                    return Err("--smoke-test needs a new output directory".to_owned());
                }
                options.smoke_test = Some(arguments[i + 1].path());
                i += 2;
                continue;
            }
            match argument {
                Argument::Text(t) => {
                    if starts_with(t.as_str(), "-psn_") {
                        i += 1;
                        continue;
                    }
                    if argument.is_dashed() {
                        return Err("unknown option: ".to_owned().concat(t.as_str()));
                    }
                },
                Argument::Raw(_) => {},
            }
            match options.set_path(argument) {
                Ok(()) => {},
                Err(error) => {
                    return Err(error);
                },
            }
            i += 1;
        }
        if options.smoke_test.is_some() && options.path.is_none() {
            return Err("--smoke-test requires a folder or ARW path".to_owned());
        }
        Ok(Some(options))
    }
}

/// A path alone is opened, with everything else as usual.
pub proof fn law_paths_are_opened(t: Seq<char>)
    requires
        t.len() > 0,
        t[0] != '-',
    ensures
        defaults().read(seq![Word::Text(t)], 0) == Ok::<Option<Wish>, Seq<char>>(
            Some(
                Wish {
                    path: Some(vstd::utf8::encode_utf8(t)),
                    cache_mb: 512,
                    smoke_test: None,
                },
            ),
        ),
{
    reveal_strlit("--help");
    reveal_strlit("-h");
    reveal_strlit("--cache-mb");
    reveal_strlit("--smoke-test");
    reveal_strlit("-psn_");
    let words = seq![Word::Text(t)];
    assert("--help"@[0] == '-' && "-h"@[0] == '-' && "--cache-mb"@[0] == '-' && "--smoke-test"@[0]
        == '-' && "-psn_"@[0] == '-');
    assert(!begins(t, "-psn_"@)) by {
        if begins(t, "-psn_"@) {
            assert(t.take(5)[0] == t[0]);
        }
    }
    let next = Wish { path: Some(vstd::utf8::encode_utf8(t)), ..defaults() };
    assert(defaults().with_word(words, 0) == Stage::Next(1, next));
    assert(next.read(words, 1) == Ok::<Option<Wish>, Seq<char>>(Some(next)));
}

/// The size of the cache can be one of four, and is set whatever else is asked for.
pub proof fn law_cache_sizes_are_set(wish: Wish, words: Seq<Word>, i: int, n: int)
    requires
        0 <= i,
        i + 1 < words.len(),
        words[i] == Word::Text("--cache-mb"@),
        words[i + 1] == Word::Text(crate::text::decimal(n)),
        0 <= n <= u64::MAX,
    ensures
        n == 256 || n == 512 || n == 1024 || n == 2048 ==> wish.read(words, i) == (Wish {
            cache_mb: n as usize,
            ..wish
        }).read(words, i + 2),
        !(n == 256 || n == 512 || n == 1024 || n == 2048) ==> wish.read(words, i) is Err,
{
    reveal_strlit("--help");
    reveal_strlit("-h");
    reveal_strlit("--cache-mb");
    assert("--help"@.len() != "--cache-mb"@.len() && "-h"@.len() != "--cache-mb"@.len());
    args::law_written_numbers_are_read(n);
}

} // verus!
