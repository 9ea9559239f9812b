//! What the tools are asked to do on the command line.
use crate::image::decoder::same_text;
use crate::path::PhotoPath;
use crate::text;
use vstd::prelude::*;
use vstd::string::StrSliceExecFns;

verus! {

/// A word on the command line.
#[derive(Debug)]
pub enum Argument {
    Text(String),
    /// A word that is no text.
    Raw(PhotoPath),
}

/// What an `Argument` says.
pub enum Word {
    Text(Seq<char>),
    Raw(Seq<u8>),
}

impl View for Argument {
    type V = Word;

    open spec fn view(&self) -> Word {
        match self {
            Argument::Text(text) => Word::Text(text@),
            Argument::Raw(bytes) => Word::Raw(bytes.raw()),
        }
    }
}

/// What some arguments say.
pub open spec fn said(arguments: Seq<Argument>) -> Seq<Word> {
    arguments.map_values(|a: Argument| a@)
}

impl Word {
    /// Whether a word is a text.
    pub open spec fn is(self, text: Seq<char>) -> bool {
        self matches Word::Text(t) && t == text
    }

    /// Whether a word is an option.
    pub open spec fn dashed(self) -> bool {
        match self {
            Word::Text(t) => t.len() > 0 && t[0] == '-',
            Word::Raw(b) => b.len() > 0 && b[0] == 0x2d,
        }
    }

    /// The path that a word names.
    pub open spec fn place(self) -> Seq<u8> {
        match self {
            Word::Text(t) => vstd::utf8::encode_utf8(t),
            Word::Raw(b) => b,
        }
    }
}

impl Argument {
    /// Whether a word is a text.
    pub fn is(&self, text: &str) -> (out: bool)
        ensures
            out == self@.is(text@),
    {
        match self {
            Argument::Text(t) => same_text(t.as_str(), text),
            Argument::Raw(_) => false,
        }
    }

    /// Whether a word is an option.
    pub fn is_dashed(&self) -> (out: bool)
        ensures
            out == self@.dashed(),
    {
        match self {
            Argument::Text(t) => t.as_str().unicode_len() > 0 && t.as_str().get_char(0) == '-',
            Argument::Raw(b) => b.as_raw().len() > 0 && b.as_raw()[0] == 0x2d,
        }
    }

    /// The path that a word names.
    pub fn path(&self) -> (out: PhotoPath)
        ensures
            out.raw() == self@.place(),
    {
        match self {
            Argument::Text(t) => PhotoPath::from_text(t.as_str()),
            Argument::Raw(b) => PhotoPath::from_bytes(crate::path::copy_bytes(b.as_raw())),
        }
    }
}

/// The value of some digits.
pub open spec fn value_of(digits: Seq<char>) -> Option<int>
    decreases digits.len(),
{
    if digits.len() == 0 {
        Some(0)
    } else {
        match value_of(digits.drop_last()) {
            Some(v) => if '0' <= digits.last() <= '9' {
                Some(v * 10 + (digits.last() as int - '0' as int))
            } else {
                None
            },
            None => None,
        }
    }
}

/// A number without a sign, or with a plus.
pub open spec fn unsigned(t: Seq<char>) -> Option<int> {
    let digits = if t.len() > 0 && t[0] == '+' {
        t.skip(1)
    } else {
        t
    };
    if digits.len() == 0 {
        None
    } else {
        match value_of(digits) {
            Some(v) => if v <= u64::MAX {
                Some(v)
            } else {
                None
            },
            None => None,
        }
    }
}

fn digit_of(c: char) -> (out: Option<u64>)
    ensures
        match out {
            Some(d) => '0' <= c <= '9' && d == c as int - '0' as int,
            None => !('0' <= c <= '9'),
        },
{
    if c >= '0' && c <= '9' {
        Some((c as u32 - '0' as u32) as u64)
    } else {
        None
    }
}

proof fn lemma_value(digits: Seq<char>, n: int)
    requires
        0 <= n <= digits.len(),
    ensures
        value_of(digits) is Some ==> value_of(digits.take(n)) is Some && 0 <= value_of(
            digits.take(n),
        )->0 <= value_of(digits)->0,
    decreases digits.len() - n,
{
    if n == digits.len() {
        assert(digits.take(n) =~= digits);
        lemma_positive(digits);
    } else {
        lemma_value(digits, n + 1);
        assert(digits.take(n + 1).drop_last() =~= digits.take(n));
        lemma_positive(digits.take(n));
    }
}

proof fn lemma_positive(digits: Seq<char>)
    ensures
        value_of(digits) is Some ==> value_of(digits)->0 >= 0,
    decreases digits.len(),
{
    if digits.len() > 0 {
        lemma_positive(digits.drop_last());
    }
}

/// Reads a number.
pub fn parse_unsigned(t: &str) -> (out: Option<u64>)
    ensures
        match out {
            Some(n) => unsigned(t@) == Some(n as int),
            None => unsigned(t@) is None,
        },
{
    let n: usize = t.unicode_len();
    let start: usize = if n > 0 && t.get_char(0) == '+' {
        1
    } else {
        0
    };
    if start == n {
        return None;
    }
    let ghost digits = t@.skip(start as int);
    assert(t@.skip(0) =~= t@);
    let mut value: u64 = 0;
    let mut i: usize = start;
    assert(digits.take(0) =~= Seq::<char>::empty());
    while i < n
        invariant
            start <= i <= n,
            n == t@.len(),
            start <= 1,
            digits == t@.skip(start as int),
            digits == if t@.len() > 0 && t@[0] == '+' {
                t@.skip(1)
            } else {
                t@
            },
            digits.len() > 0,
            value_of(digits.take(i - start)) == Some(value as int),
        decreases n - i,
    {
        let ghost k = i - start;
        let c: char = t.get_char(i);
        assert(digits.take(k + 1).drop_last() =~= digits.take(k));
        assert(digits.take(k + 1).last() == c);
        proof {
            lemma_value(digits, k + 1);
        }
        let d: u64 = match digit_of(c) {
            Some(d) => d,
            None => {
                return None;
            },
        };
        let ten: u64 = match value.checked_mul(10) {
            Some(ten) => ten,
            None => {
                return None;
            },
        };
        value = match ten.checked_add(d) {
            Some(value) => value,
            None => {
                return None;
            },
        };
        i += 1;
    }
    assert(digits.take(n - start) =~= digits);
    Some(value)
}

/// Where the reading of options has come to.
pub enum Stage<T> {
    /// Usage is asked for.
    Help,
    Fail(Seq<char>),
    /// Go on at a word.
    Next(int, T),
}

/// A number that is written in decimal is read as that number.
pub proof fn law_written_numbers_are_read(n: int)
    requires
        0 <= n <= u64::MAX,
    ensures
        unsigned(crate::text::decimal(n)) == Some(n),
{
    let t = crate::text::decimal(n);
    crate::text::law_decimals_are_read_back(n);
    lemma_read_as(t);
    assert('0' as int <= t[0] as int <= '9' as int);
}

proof fn lemma_read_as(t: Seq<char>)
    requires
        forall|i: int| 0 <= i < t.len() ==> '0' as int <= (#[trigger] t[i]) as int <= '9' as int,
    ensures
        value_of(t) == Some(crate::text::read_as(t)),
    decreases t.len(),
{
    if t.len() > 0 {
        let short = t.drop_last();
        assert forall|i: int| 0 <= i < short.len() implies '0' as int <= (#[trigger] short[i]) as int
            <= '9' as int by {
            assert(short[i] == t[i]);
        }
        lemma_read_as(short);
        assert('0' as int <= t[t.len() - 1] as int <= '9' as int);
    }
}

} // verus!
