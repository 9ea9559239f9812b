//! Numbers in words that are shown.
use vstd::prelude::*;

verus! {

/// The character of a digit.
pub open spec fn digit(n: int) -> char {
    (48 + n) as char
}

/// A number in decimal.
pub open spec fn decimal(n: int) -> Seq<char>
    decreases n,
{
    if n < 10 {
        seq![digit(n)]
    } else {
        decimal(n / 10).push(digit(n % 10))
    }
}

fn digit_text(n: u64) -> (out: &'static str)
    requires
        n < 10,
    ensures
        out@ == seq![digit(n as int)],
{
    proof {
        reveal_strlit("0");
        reveal_strlit("1");
        reveal_strlit("2");
        reveal_strlit("3");
        reveal_strlit("4");
        reveal_strlit("5");
        reveal_strlit("6");
        reveal_strlit("7");
        reveal_strlit("8");
        reveal_strlit("9");
    }
    let out = if n == 0 {
        "0"
    } else if n == 1 {
        "1"
    } else if n == 2 {
        "2"
    } else if n == 3 {
        "3"
    } else if n == 4 {
        "4"
    } else if n == 5 {
        "5"
    } else if n == 6 {
        "6"
    } else if n == 7 {
        "7"
    } else if n == 8 {
        "8"
    } else {
        "9"
    };
    assert(out@ =~= seq![digit(n as int)]);
    out
}

/// Writes a number in decimal.
pub fn number(n: u64) -> (out: String)
    ensures
        out@ == decimal(n as int),
    decreases n,
{
    if n < 10 {
        return digit_text(n).to_owned();
    }
    let mut out = number(n / 10);
    out.append(digit_text(n % 10));
    assert(out@ =~= decimal(n as int));
    out
}

/// Writes a number behind some text.
pub fn append_number(text: &mut String, n: u64)
    ensures
        final(text)@ == old(text)@ + decimal(n as int),
{
    text.append(number(n).as_str());
}

/// Text in quotation marks, as the standard library prints it for debugging.
pub uninterp spec fn quoted_text(text: Seq<char>) -> Seq<char>;

/// Calls the `Debug` formatting of `str`, which puts the text in quotation marks
/// and escapes quotation marks, backslashes and characters that do not print.
#[verifier::external_body]
pub(crate) fn quoted(text: &str) -> (out: String)
    ensures
        out@ == quoted_text(text@),
{
    format!("{text:?}")
}

/// The texts of some strings.
pub open spec fn texts(strings: Seq<String>) -> Seq<Seq<char>> {
    strings.map_values(|s: String| s@)
}

/// Texts one after the other, with a separator between them.
pub open spec fn joined(parts: Seq<Seq<char>>, separator: Seq<char>) -> Seq<char>
    decreases parts.len(),
{
    if parts.len() == 0 {
        Seq::empty()
    } else if parts.len() == 1 {
        parts[0]
    } else {
        joined(parts.drop_last(), separator) + separator + parts.last()
    }
}

/// Joins strings, with a separator between them.
pub fn join(parts: &Vec<String>, separator: &str) -> (out: String)
    ensures
        out@ == joined(texts(parts@), separator@),
{
    proof {
        reveal_strlit("");
    }
    let mut out = "".to_owned();
    let mut i: usize = 0;
    let ghost all = texts(parts@);
    assert(all.take(0) =~= Seq::<Seq<char>>::empty());
    assert(out@ =~= joined(all.take(0), separator@));
    while i < parts.len()
        invariant
            i <= parts@.len(),
            all == texts(parts@),
            out@ == joined(all.take(i as int), separator@),
        decreases parts@.len() - i,
    {
        assert(all.take(i + 1).drop_last() =~= all.take(i as int));
        if i > 0 {
            out.append(separator);
            out.append(parts[i].as_str());
        } else {
            out = parts[i].as_str().to_owned();
        }
        i += 1;
    }
    assert(all.take(i as int) =~= all);
    out
}

/// The text that some bytes hold, invalid sequences replaced.
pub uninterp spec fn lossy_text(bytes: Seq<u8>) -> Seq<char>;

/// Calls `String::from_utf8_lossy`. Valid UTF-8 gives the text that it encodes;
/// what stands for an invalid sequence is left to the standard library.
#[verifier::external_body]
pub(crate) fn from_utf8_lossy(bytes: &[u8]) -> (out: String)
    ensures
        out@ == lossy_text(bytes@),
        vstd::utf8::valid_utf8(bytes@) ==> out@ == vstd::utf8::decode_utf8(bytes@),
{
    String::from_utf8_lossy(bytes).into_owned()
}

/// Whether a result is the expected one, failures taken by what they say.
pub open spec fn same<T>(out: Result<T, String>, want: Result<T, Seq<char>>) -> bool {
    match out {
        Ok(value) => want == Ok::<T, Seq<char>>(value),
        Err(error) => want == Err::<T, Seq<char>>(error@),
    }
}

/// Whether an optional text is the expected one.
pub open spec fn same_option(out: Option<String>, want: Option<Seq<char>>) -> bool {
    match out {
        Some(said) => want == Some(said@),
        None => want is None,
    }
}

/// The number that some digits are read as.
pub open spec fn read_as(digits: Seq<char>) -> int
    decreases digits.len(),
{
    if digits.len() == 0 {
        0
    } else {
        10 * read_as(digits.drop_last()) + (digits.last() as int - '0' as int)
    }
}

/// A number in decimal is read as that number. It has digits only, and none in front
/// that is zero, but for zero itself.
pub proof fn law_decimals_are_read_back(n: int)
    requires
        n >= 0,
    ensures
        read_as(decimal(n)) == n,
        decimal(n).len() >= 1,
        forall|i: int|
            0 <= i < decimal(n).len() ==> '0' as int <= (#[trigger] decimal(n)[i]) as int <= '9' as int,
        decimal(n)[0] == '0' ==> n == 0,
        n == 0 ==> decimal(n).len() == 1,
    decreases n,
{
    if n < 10 {
        assert(decimal(n).drop_last() =~= Seq::empty());
        assert(read_as(Seq::empty()) == 0);
    } else {
        law_decimals_are_read_back(n / 10);
        assert(decimal(n).drop_last() =~= decimal(n / 10));
    }
}

/// Whether some words stand in a text.
pub open spec fn mentions(text: Seq<char>, words: Seq<char>) -> bool {
    exists|k: int|
        0 <= k <= text.len() - words.len() && #[trigger] text.subrange(k, k + words.len()) == words
}

/// Words that stand in a part of a text stand in the text.
pub proof fn lemma_mentions(before: Seq<char>, text: Seq<char>, after: Seq<char>, words: Seq<char>)
    requires
        mentions(text, words),
    ensures
        mentions(before + text + after, words),
{
    let k = choose|k: int|
        0 <= k <= text.len() - words.len() && #[trigger] text.subrange(k, k + words.len()) == words;
    let all = before + text + after;
    let j = before.len() + k;
    assert(all.subrange(j, j + words.len()) =~= words);
}

/// A text mentions itself.
pub proof fn lemma_mentions_itself(words: Seq<char>)
    ensures
        mentions(words, words),
{
    assert(words.subrange(0, 0int + words.len()) =~= words);
}

} // verus!
