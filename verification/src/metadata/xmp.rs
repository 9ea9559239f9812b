//! Ratings in XMP sidecars.
use crate::path;
use vstd::prelude::*;

verus! {

/// Ratings are from here, for a reject, ..
pub const LOWEST: i8 = -1;

/// .. to here.
pub const HIGHEST: i8 = 5;

/// The element that describes the photograph.
pub open spec fn element() -> Seq<u8> {
    vstd::utf8::encode_utf8("<rdf:Description"@)
}

/// The name of the rating.
pub open spec fn rating_name() -> Seq<u8> {
    vstd::utf8::encode_utf8("xmp:Rating"@)
}

/// Declares the name space of the rating.
pub open spec fn name_space() -> Seq<u8> {
    vstd::utf8::encode_utf8(" xmlns:xmp=\"http://ns.adobe.com/xap/1.0/\""@)
}

/// How a name space is declared, whatever it is.
pub open spec fn declaration() -> Seq<u8> {
    vstd::utf8::encode_utf8("xmlns:xmp="@)
}

/// A sidecar that says nothing.
pub open spec fn blank() -> Seq<u8> {
    vstd::utf8::encode_utf8(
        "<x:xmpmeta xmlns:x=\"adobe:ns:meta/\"><rdf:RDF xmlns:rdf=\"http://www.w3.org/1999/02/22-rdf-syntax-ns#\"><rdf:Description rdf:about=\"\"/></rdf:RDF></x:xmpmeta>\n"@,
    )
}

/// Whether a part stands at a place.
pub open spec fn stands(s: Seq<u8>, part: Seq<u8>, i: int) -> bool {
    0 <= i && i + part.len() <= s.len() && s.subrange(i, i + part.len()) == part
}

/// The first place of a part, from `i` on.
pub open spec fn place(s: Seq<u8>, part: Seq<u8>, i: int) -> Option<int>
    decreases s.len() + 1 - i,
{
    if i < 0 || i + part.len() > s.len() {
        None
    } else if stands(s, part, i) {
        Some(i)
    } else {
        place(s, part, i + 1)
    }
}

/// Blanks in XML.
pub open spec fn is_blank(b: u8) -> bool {
    b == 0x20 || b == 0x09 || b == 0x0a || b == 0x0d
}

/// The first place from `i` on that is not blank.
pub open spec fn after_blanks(s: Seq<u8>, i: int) -> int
    decreases s.len() - i,
{
    if 0 <= i < s.len() && is_blank(s[i]) {
        after_blanks(s, i + 1)
    } else {
        i
    }
}

/// Where the blanks before `i` start.
pub open spec fn before_blanks(s: Seq<u8>, i: int) -> int
    decreases i,
{
    if 0 < i <= s.len() && is_blank(s[i - 1]) {
        before_blanks(s, i - 1)
    } else {
        i
    }
}

/// Where the value of a rating stands.
#[derive(Clone, Copy, Debug, PartialEq, Eq, Structural)]
pub struct Value {
    /// Where its name starts.
    pub name: usize,
    pub start: usize,
    pub end: usize,
    /// Whether it is an attribute, or else an element.
    pub attribute: bool,
}

/// A value that starts at `start` and ends at a byte.
pub open spec fn ending(s: Seq<u8>, name: int, start: int, end: u8, attribute: bool) -> Result<
    Option<Value>,
    Seq<char>,
> {
    match place(s, seq![end], start) {
        Some(e) => Ok(
            Some(
                Value {
                    name: name as usize,
                    start: start as usize,
                    end: e as usize,
                    attribute,
                },
            ),
        ),
        None => Err("malformed rating in XMP"@),
    }
}

/// The rating that a sidecar holds, if any.
pub open spec fn value_in(s: Seq<u8>) -> Result<Option<Value>, Seq<char>> {
    match place(s, element(), 0) {
        None => Err("malformed XMP"@),
        Some(described) => match place(s, rating_name(), 0) {
            None => Ok(None),
            Some(name) => {
                let after = name + rating_name().len();
                let sign = after_blanks(s, after);
                let quote = after_blanks(s, sign + 1);
                if name < described + element().len() {
                    Err("malformed XMP"@)
                } else if sign < s.len() && s[sign] == 0x3d {
                    if quote < s.len() && (s[quote] == 0x22 || s[quote] == 0x27) {
                        ending(s, name, quote + 1, s[quote], true)
                    } else {
                        Err("malformed rating in XMP"@)
                    }
                } else if after < s.len() && s[after] == 0x3e {
                    ending(s, name, after + 1, 0x3c, false)
                } else {
                    Err("malformed rating in XMP"@)
                }
            },
        },
    }
}

/// A rating in digits.
pub open spec fn digits(rating: i8) -> Seq<u8> {
    if rating < 0 {
        seq![0x2du8, 0x31u8]
    } else {
        seq![(0x30 + rating) as u8]
    }
}

/// The rating that digits say, if it is one.
pub open spec fn said(s: Seq<u8>) -> Option<i8> {
    if s.len() == 1 && 0x30 <= s[0] <= 0x30 + HIGHEST {
        Some((s[0] - 0x30) as i8)
    } else if s == digits(LOWEST) {
        Some(LOWEST)
    } else {
        None
    }
}

/// Digits without the blanks around them.
pub open spec fn bare(s: Seq<u8>) -> Seq<u8> {
    let start = after_blanks(s, 0);
    let end = before_blanks(s, s.len() as int);
    if start < end {
        s.subrange(start, end)
    } else {
        Seq::empty()
    }
}

/// What a sidecar says.
pub open spec fn rating_in(s: Seq<u8>) -> Result<Option<i8>, Seq<char>> {
    match value_in(s) {
        Err(error) => Err(error),
        Ok(None) => Ok(None),
        Ok(Some(value)) => {
            match said(bare(s.subrange(value.start as int, value.end as int))) {
                Some(rating) => Ok(Some(rating)),
                None => Err("rating in XMP is out of range"@),
            }
        },
    }
}

/// A rating as an attribute.
pub open spec fn attribute(rating: i8) -> Seq<u8> {
    seq![0x20u8] + rating_name() + seq![0x3du8, 0x22u8] + digits(rating) + seq![0x22u8]
}

/// With a rating where there was none.
pub open spec fn with_attribute(s: Seq<u8>, at: int, rating: i8) -> Seq<u8> {
    s.take(at) + attribute(rating) + if place(s, declaration(), 0) is Some {
        Seq::empty()
    } else {
        name_space()
    } + s.skip(at)
}

/// What closes the element of a rating.
pub open spec fn closing() -> Seq<u8> {
    seq![0x3cu8, 0x2fu8] + rating_name() + seq![0x3eu8]
}

/// Without its rating.
pub open spec fn without(s: Seq<u8>, value: Value) -> Result<Seq<u8>, Seq<char>> {
    if value.attribute {
        Ok(s.take(before_blanks(s, value.name as int)) + s.skip(value.end + 1))
    } else if value.name > 0 && s[value.name - 1] == 0x3c && stands(
        s,
        closing(),
        value.end as int,
    ) {
        Ok(s.take(value.name - 1) + s.skip(value.end + closing().len()))
    } else {
        Err("malformed rating in XMP"@)
    }
}

/// A sidecar with another rating, or with none.
pub open spec fn rewritten(s: Seq<u8>, rating: Option<i8>) -> Result<Seq<u8>, Seq<char>> {
    match value_in(s) {
        Err(error) => Err(error),
        Ok(None) => match rating {
            None => Ok(s),
            Some(rating) => Ok(
                with_attribute(s, place(s, element(), 0)->0 + element().len(), rating),
            ),
        },
        Ok(Some(value)) => match rating {
            None => without(s, value),
            Some(rating) => Ok(
                s.take(value.start as int) + digits(rating) + s.skip(value.end as int),
            ),
        },
    }
}

proof fn lemma_place(s: Seq<u8>, part: Seq<u8>, i: int)
    requires
        0 <= i,
    ensures
        match place(s, part, i) {
            Some(k) => i <= k && stands(s, part, k) && forall|j: int|
                i <= j < k ==> !#[trigger] stands(s, part, j),
            None => forall|j: int| i <= j ==> !#[trigger] stands(s, part, j),
        },
    decreases s.len() + 1 - i,
{
    if i + part.len() <= s.len() && !stands(s, part, i) {
        lemma_place(s, part, i + 1);
    }
}

/// A place is the first one where a part stands.
proof fn lemma_first(s: Seq<u8>, part: Seq<u8>, i: int, k: int)
    requires
        0 <= i <= k,
        stands(s, part, k),
        forall|j: int| i <= j < k ==> !#[trigger] stands(s, part, j),
    ensures
        place(s, part, i) == Some(k),
{
    lemma_place(s, part, i);
    match place(s, part, i) {
        Some(found) => {
            if found < k {
                assert(!stands(s, part, found));
            } else if found > k {
                assert(!stands(s, part, k));
            }
        },
        None => {
            assert(!stands(s, part, k));
        },
    }
}

proof fn lemma_after_blanks(s: Seq<u8>, i: int)
    requires
        0 <= i <= s.len(),
    ensures
        i <= after_blanks(s, i) <= s.len(),
        forall|j: int| i <= j < after_blanks(s, i) ==> is_blank(#[trigger] s[j]),
        after_blanks(s, i) < s.len() ==> !is_blank(s[after_blanks(s, i)]),
    decreases s.len() - i,
{
    if i < s.len() && is_blank(s[i]) {
        lemma_after_blanks(s, i + 1);
    }
}

/// Blanks end at the first byte that is none.
proof fn lemma_blanks_end(s: Seq<u8>, i: int, k: int)
    requires
        0 <= i <= k < s.len(),
        forall|j: int| i <= j < k ==> is_blank(#[trigger] s[j]),
        !is_blank(s[k]),
    ensures
        after_blanks(s, i) == k,
    decreases k - i,
{
    if i < k {
        assert(is_blank(s[i]));
        lemma_blanks_end(s, i + 1, k);
    }
}

proof fn lemma_before_blanks(s: Seq<u8>, i: int)
    requires
        0 <= i <= s.len(),
    ensures
        0 <= before_blanks(s, i) <= i,
    decreases i,
{
    if 0 < i && is_blank(s[i - 1]) {
        lemma_before_blanks(s, i - 1);
    }
}

/// The first place of a part.
fn find(s: &[u8], part: &[u8], from: usize) -> (out: Option<usize>)
    ensures
        match place(s@, part@, from as int) {
            Some(k) => out == Some(k as usize) && from <= k && k + part@.len() <= s@.len(),
            None => out is None,
        },
{
    proof {
        lemma_place(s@, part@, from as int);
    }
    if part.len() > s.len() {
        return None;
    }
    let last: usize = s.len() - part.len();
    let mut i: usize = from;
    while i <= last
        invariant
            from <= i,
            last == s@.len() - part@.len(),
            place(s@, part@, from as int) == place(s@, part@, i as int),
            match place(s@, part@, from as int) {
                Some(k) => stands(s@, part@, k) && from <= k,
                None => true,
            },
        decreases last + 1 - i,
    {
        if has(s, part, i) {
            return Some(i);
        }
        if i == last {
            assert(place(s@, part@, i + 1) is None);
            return None;
        }
        i += 1;
    }
    None
}

/// Whether a part stands at a place.
fn has(s: &[u8], part: &[u8], at: usize) -> (out: bool)
    ensures
        out == stands(s@, part@, at as int),
{
    if part.len() > s.len() || at > s.len() - part.len() {
        return false;
    }
    let n: usize = s.len();
    let mut k: usize = 0;
    while k < part.len()
        invariant
            k <= part@.len(),
            n == s@.len(),
            at + part@.len() <= n,
            forall|j: int| 0 <= j < k ==> s@[at + j] == #[trigger] part@[j],
        decreases part@.len() - k,
    {
        if s[at + k] != part[k] {
            assert(s@.subrange(at as int, at + part@.len())[k as int] != part@[k as int]);
            return false;
        }
        k += 1;
    }
    assert(s@.subrange(at as int, at + part@.len()) =~= part@);
    true
}

fn blank_byte(b: u8) -> (out: bool)
    ensures
        out == is_blank(b),
{
    b == 0x20 || b == 0x09 || b == 0x0a || b == 0x0d
}

fn skip_blanks(s: &[u8], from: usize) -> (out: usize)
    requires
        from <= s@.len(),
    ensures
        out == after_blanks(s@, from as int),
        from <= out <= s@.len(),
{
    let mut i: usize = from;
    while i < s.len() && blank_byte(s[i])
        invariant
            from <= i <= s@.len(),
            after_blanks(s@, from as int) == after_blanks(s@, i as int),
        decreases s@.len() - i,
    {
        i += 1;
    }
    i
}

fn blanks_before(s: &[u8], from: usize) -> (out: usize)
    requires
        from <= s@.len(),
    ensures
        out == before_blanks(s@, from as int),
        out <= from,
{
    let mut i: usize = from;
    while i > 0 && blank_byte(s[i - 1])
        invariant
            i <= from <= s@.len(),
            before_blanks(s@, from as int) == before_blanks(s@, i as int),
        decreases i,
    {
        i -= 1;
    }
    i
}

/// Where a value ends.
fn find_end(s: &[u8], name: usize, start: usize, end: u8, attribute: bool) -> (out: Result<
    Option<Value>,
    String,
>)
    requires
        name < start <= s@.len(),
    ensures
        crate::text::same(out, ending(s@, name as int, start as int, end, attribute)),
        out matches Ok(Some(value)) ==> value.name == name && value.start == start && start
            <= value.end < s@.len(),
{
    let n: usize = s.len();
    let mut mark: Vec<u8> = Vec::new();
    mark.push(end);
    assert(mark@ =~= seq![end]);
    match find(s, mark.as_slice(), start) {
        Some(at) => Ok(Some(Value { name, start, end: at, attribute })),
        None => Err("malformed rating in XMP".to_owned()),
    }
}

/// The rating that a sidecar holds, if any.
fn find_value(s: &[u8]) -> (out: Result<Option<Value>, String>)
    ensures
        crate::text::same(out, value_in(s@)),
        out matches Ok(Some(value)) ==> value.name < value.start <= value.end < s@.len(),
{
    let n: usize = s.len();
    let element = "<rdf:Description".as_bytes();
    let name = "xmp:Rating".as_bytes();
    let described: usize = match find(s, element, 0) {
        Some(at) => at,
        None => return Err("malformed XMP".to_owned()),
    };
    let at: usize = match find(s, name, 0) {
        Some(at) => at,
        None => return Ok(None),
    };
    let after: usize = at + name.len();
    proof {
        lemma_names();
    }
    if at < described + element.len() {
        return Err("malformed XMP".to_owned());
    }
    let sign: usize = skip_blanks(s, after);
    if sign < s.len() && s[sign] == 0x3d {
        let quote: usize = skip_blanks(s, sign + 1);
        if quote < s.len() && (s[quote] == 0x22 || s[quote] == 0x27) {
            find_end(s, at, quote + 1, s[quote], true)
        } else {
            Err("malformed rating in XMP".to_owned())
        }
    } else if after < s.len() && s[after] == 0x3e {
        find_end(s, at, after + 1, 0x3c, false)
    } else {
        Err("malformed rating in XMP".to_owned())
    }
}

/// What is known of the names.
proof fn lemma_names()
    ensures
        element().len() == 16,
        !is_blank(element()[15]),
        rating_name().len() == 10,
        forall|i: int|
            0 <= i < 10 ==> #[trigger] rating_name()[i] != 0x20 && rating_name()[i] != 0x22,
{
    reveal_strlit("<rdf:Description");
    reveal_strlit("xmp:Rating");
    assert(vstd::utf8::is_ascii_chars("<rdf:Description"@));
    assert(vstd::utf8::is_ascii_chars("xmp:Rating"@));
    vstd::utf8::is_ascii_chars_encode_utf8("<rdf:Description"@);
    vstd::utf8::is_ascii_chars_encode_utf8("xmp:Rating"@);
    assert("<rdf:Description"@[15] == 'n');
    assert forall|i: int| 0 <= i < 10 implies #[trigger] rating_name()[i] != 0x20
        && rating_name()[i] != 0x22 by {
        assert("xmp:Rating"@[i] != ' ' && "xmp:Rating"@[i] != '"');
    }
}

/// The rating that digits say, blanks aside.
fn parse(s: &[u8]) -> (out: Option<i8>)
    ensures
        out == said(bare(s@)),
{
    let start: usize = skip_blanks(s, 0);
    let end: usize = blanks_before(s, s.len());
    if start >= end {
        return None;
    }
    let ghost t = bare(s@);
    assert(t[0] == s@[start as int]);
    if end - start == 1 && s[start] >= 0x30 && s[start] <= 0x35 {
        Some((s[start] - 0x30) as i8)
    } else if end - start == 2 && s[start] == 0x2d && s[start + 1] == 0x31 {
        assert(t =~= digits(LOWEST));
        Some(LOWEST)
    } else {
        assert(t == digits(LOWEST) ==> t[1] == s@[start + 1]);
        None
    }
}

/// What a sidecar says of the rating of its photograph.
pub fn read_rating(s: &[u8]) -> (out: Result<Option<i8>, String>)
    ensures
        crate::text::same(out, rating_in(s@)),
{
    match find_value(s) {
        Err(error) => Err(error),
        Ok(None) => Ok(None),
        Ok(Some(value)) => {
            let text = vstd::slice::slice_subrange(s, value.start, value.end);
            match parse(text) {
                Some(rating) => Ok(Some(rating)),
                None => Err("rating in XMP is out of range".to_owned()),
            }
        },
    }
}

fn append_digits(to: &mut Vec<u8>, rating: i8)
    requires
        LOWEST <= rating <= HIGHEST,
    ensures
        final(to)@ == old(to)@ + digits(rating),
{
    if rating < 0 {
        to.push(0x2d);
        to.push(0x31);
    } else {
        to.push(0x30 + rating as u8);
    }
    assert(to@ =~= old(to)@ + digits(rating));
}

/// Appends what stands between two places.
fn append_part(to: &mut Vec<u8>, s: &[u8], start: usize, end: usize)
    requires
        start <= end <= s@.len(),
    ensures
        final(to)@ == old(to)@ + s@.subrange(start as int, end as int),
{
    path::append_bytes(to, vstd::slice::slice_subrange(s, start, end));
}

/// A sidecar with another rating, or with none. Everything else stays as it is.
pub fn replace_rating(s: &[u8], rating: Option<i8>) -> (out: Result<Vec<u8>, String>)
    requires
        rating matches Some(stars) ==> LOWEST <= stars <= HIGHEST,
    ensures
        match rewritten(s@, rating) {
            Ok(bytes) => out is Ok && out->Ok_0@ == bytes,
            Err(error) => out is Err && out->Err_0@ == error,
        },
{
    let n: usize = s.len();
    let mut out: Vec<u8> = Vec::new();
    match find_value(s) {
        Err(error) => return Err(error),
        Ok(None) => match rating {
            None => {
                append_part(&mut out, s, 0, n);
                assert(out@ =~= s@);
            },
            Some(stars) => {
                let element = "<rdf:Description".as_bytes();
                let at: usize = match find(s, element, 0) {
                    Some(at) => at + element.len(),
                    None => return Err("malformed XMP".to_owned()),
                };
                append_part(&mut out, s, 0, at);
                out.push(0x20);
                path::append_bytes(&mut out, "xmp:Rating".as_bytes());
                out.push(0x3d);
                out.push(0x22);
                append_digits(&mut out, stars);
                out.push(0x22);
                assert(out@ =~= s@.take(at as int) + attribute(stars));
                if find(s, "xmlns:xmp=".as_bytes(), 0).is_none() {
                    path::append_bytes(
                        &mut out,
                        " xmlns:xmp=\"http://ns.adobe.com/xap/1.0/\"".as_bytes(),
                    );
                }
                append_part(&mut out, s, at, n);
                assert(out@ =~= with_attribute(s@, at as int, stars));
            },
        },
        Ok(Some(value)) => match rating {
            None => {
                if value.attribute {
                    let start: usize = blanks_before(s, value.name);
                    append_part(&mut out, s, 0, start);
                    append_part(&mut out, s, value.end + 1, n);
                    assert(out@ =~= s@.take(start as int) + s@.skip(value.end + 1));
                } else {
                    let mut closing: Vec<u8> = Vec::new();
                    closing.push(0x3c);
                    closing.push(0x2f);
                    path::append_bytes(&mut closing, "xmp:Rating".as_bytes());
                    closing.push(0x3e);
                    assert(closing@ =~= self::closing());
                    if value.name > 0 && s[value.name - 1] == 0x3c && has(
                        s,
                        closing.as_slice(),
                        value.end,
                    ) {
                        append_part(&mut out, s, 0, value.name - 1);
                        append_part(&mut out, s, value.end + closing.len(), n);
                        assert(out@ =~= s@.take(value.name - 1) + s@.skip(
                            value.end + self::closing().len(),
                        ));
                    } else {
                        return Err("malformed rating in XMP".to_owned());
                    }
                }
            },
            Some(stars) => {
                append_part(&mut out, s, 0, value.start);
                append_digits(&mut out, stars);
                append_part(&mut out, s, value.end, n);
                assert(out@ =~= s@.take(value.start as int) + digits(stars) + s@.skip(
                    value.end as int,
                ));
            },
        },
    }
    Ok(out)
}

/// No name that ends in `mp:` among the first `n` characters.
spec fn unnamed(s: Seq<char>, n: int) -> bool
    decreases n,
{
    n < 3 || (!(s[n - 1] == ':' && s[n - 2] == 'p' && s[n - 3] == 'm') && unnamed(s, n - 1))
}

proof fn lemma_unnamed(s: Seq<char>, n: int, k: int)
    requires
        unnamed(s, n),
        2 <= k < n,
    ensures
        !(s[k] == ':' && s[k - 1] == 'p' && s[k - 2] == 'm'),
    decreases n,
{
    if k < n - 1 {
        lemma_unnamed(s, n - 1, k);
    }
}

/// A sidecar that says nothing can take a rating.
proof fn lemma_blank()
    ensures
        blank().len() == 155,
        value_in(blank()) == Ok::<Option<Value>, Seq<char>>(None),
{
    let text = "<x:xmpmeta xmlns:x=\"adobe:ns:meta/\"><rdf:RDF xmlns:rdf=\"http://www.w3.org/1999/02/22-rdf-syntax-ns#\"><rdf:Description rdf:about=\"\"/></rdf:RDF></x:xmpmeta>\n"@;
    reveal_strlit(
        "<x:xmpmeta xmlns:x=\"adobe:ns:meta/\"><rdf:RDF xmlns:rdf=\"http://www.w3.org/1999/02/22-rdf-syntax-ns#\"><rdf:Description rdf:about=\"\"/></rdf:RDF></x:xmpmeta>\n",
    );
    reveal_strlit("<rdf:Description");
    reveal_strlit("xmp:Rating");
    assert(vstd::utf8::is_ascii_chars(text));
    vstd::utf8::is_ascii_chars_encode_utf8(text);
    vstd::utf8::is_ascii_chars_encode_utf8("<rdf:Description"@);
    vstd::utf8::is_ascii_chars_encode_utf8("xmp:Rating"@);
    let s = blank();
    lemma_place(s, element(), 0);
    lemma_place(s, rating_name(), 0);
    assert(s.subrange(101, 117) =~= element()) by {
        assert forall|i: int| 0 <= i < 16 implies s.subrange(101, 117)[i] == #[trigger] element()[i] by {
            assert(text[101 + i] == "<rdf:Description"@[i]);
        }
    }
    assert(stands(s, element(), 101));
    assert(unnamed(text, 155)) by {
        reveal_with_fuel(unnamed, 32);
        assert(unnamed(text, 31));
        assert(unnamed(text, 62));
        assert(unnamed(text, 93));
        assert(unnamed(text, 124));
    }
    assert forall|j: int| 0 <= j implies !#[trigger] stands(s, rating_name(), j) by {
        if stands(s, rating_name(), j) {
            let part = s.subrange(j, j + 10);
            assert(part[1] == rating_name()[1] && part[2] == rating_name()[2] && part[3]
                == rating_name()[3]);
            assert("xmp:Rating"@[1] == 'm' && "xmp:Rating"@[2] == 'p' && "xmp:Rating"@[3] == ':');
            assert(text[j + 1] as u8 == s[j + 1]);
            assert(text[j + 2] as u8 == s[j + 2]);
            assert(text[j + 3] as u8 == s[j + 3]);
            lemma_unnamed(text, 155, j + 3);
        }
    }
}

/// A sidecar that says nothing but a rating.
pub fn new_sidecar(rating: i8) -> (out: Vec<u8>)
    requires
        LOWEST <= rating <= HIGHEST,
    ensures
        rewritten(blank(), Some(rating)) == Ok::<Seq<u8>, Seq<char>>(out@),
{
    proof {
        lemma_blank();
    }
    match replace_rating(
        "<x:xmpmeta xmlns:x=\"adobe:ns:meta/\"><rdf:RDF xmlns:rdf=\"http://www.w3.org/1999/02/22-rdf-syntax-ns#\"><rdf:Description rdf:about=\"\"/></rdf:RDF></x:xmpmeta>\n".as_bytes(),
        Some(rating),
    ) {
        Ok(bytes) => bytes,
        Err(_) => Vec::new(),
    }
}

/// What a sidecar says, if there is one.
pub open spec fn saved_rating(sidecar: Option<Seq<u8>>) -> Result<Option<i8>, Seq<char>> {
    match sidecar {
        Some(s) => rating_in(s),
        None => Ok(None),
    }
}

/// What the sidecar said before, and what is written in its place, if anything.
/// A rating that is not the expected one stays.
pub open spec fn planned(
    sidecar: Option<Seq<u8>>,
    rating: Option<i8>,
    expected: Option<Option<i8>>,
) -> Result<(Option<i8>, Option<Seq<u8>>), Seq<char>> {
    match saved_rating(sidecar) {
        Err(error) => Err(error),
        Ok(previous) => if expected is Some && expected->0 != previous {
            Err("the rating was changed by another program"@)
        } else {
            match sidecar {
                Some(s) => match rewritten(s, rating) {
                    Ok(bytes) => Ok((previous, Some(bytes))),
                    Err(error) => Err(error),
                },
                None => match rating {
                    Some(stars) => Ok((previous, Some(rewritten(blank(), Some(stars))->Ok_0))),
                    None => Ok((previous, None)),
                },
            }
        },
    }
}

fn same_rating(a: Option<i8>, b: Option<i8>) -> (out: bool)
    ensures
        out == (a == b),
{
    match (a, b) {
        (Some(a), Some(b)) => a == b,
        (None, None) => true,
        _ => false,
    }
}

/// Decides what a sidecar becomes.
pub fn plan_rating(
    sidecar: Option<&Vec<u8>>,
    rating: Option<i8>,
    expected: Option<Option<i8>>,
) -> (out: Result<(Option<i8>, Option<Vec<u8>>), String>)
    requires
        rating matches Some(stars) ==> LOWEST <= stars <= HIGHEST,
    ensures
        match planned(
            match sidecar {
                Some(bytes) => Some(bytes@),
                None => None,
            },
            rating,
            expected,
        ) {
            Ok((previous, bytes)) => match out {
                Ok((was, Some(now))) => was == previous && bytes == Some(now@),
                Ok((was, None)) => was == previous && bytes is None,
                Err(_) => false,
            },
            Err(error) => out is Err && out->Err_0@ == error,
        },
{
    let previous: Option<i8> = match sidecar {
        Some(bytes) => match read_rating(bytes.as_slice()) {
            Ok(rating) => rating,
            Err(error) => return Err(error),
        },
        None => None,
    };
    if let Some(wanted) = expected {
        if !same_rating(wanted, previous) {
            return Err("the rating was changed by another program".to_owned());
        }
    }
    match sidecar {
        Some(bytes) => match replace_rating(bytes.as_slice(), rating) {
            Ok(bytes) => Ok((previous, Some(bytes))),
            Err(error) => Err(error),
        },
        None => match rating {
            Some(stars) => Ok((previous, Some(new_sidecar(stars)))),
            None => Ok((previous, None)),
        },
    }
}

/// Where a part stands does not depend on what comes behind it.
proof fn lemma_prefix(s: Seq<u8>, t: Seq<u8>, part: Seq<u8>, k: int, n: int)
    requires
        n <= s.len(),
        n <= t.len(),
        forall|j: int| 0 <= j < n ==> s[j] == #[trigger] t[j],
        place(s, part, 0) == Some(k),
        k + part.len() <= n,
    ensures
        place(t, part, 0) == Some(k),
{
    lemma_place(s, part, 0);
    assert(t.subrange(k, k + part.len()) =~= s.subrange(k, k + part.len()));
    assert forall|j: int| 0 <= j < k implies !#[trigger] stands(t, part, j) by {
        assert(t.subrange(j, j + part.len()) =~= s.subrange(j, j + part.len()));
        assert(!stands(s, part, j));
    }
    lemma_first(t, part, 0, k);
}

/// Digits end where they are followed by something else.
proof fn lemma_digits_end(t: Seq<u8>, start: int, end: u8, rating: i8)
    requires
        LOWEST <= rating <= HIGHEST,
        0 <= start,
        start + digits(rating).len() < t.len(),
        t.subrange(start, start + digits(rating).len()) == digits(rating),
        t[start + digits(rating).len()] == end,
        end == 0x22 || end == 0x27 || end == 0x3c,
    ensures
        place(t, seq![end], start) == Some(start + digits(rating).len()),
{
    let k = start + digits(rating).len();
    assert(t.subrange(k, k + 1) =~= seq![end]);
    assert forall|j: int| start <= j < k implies !#[trigger] stands(t, seq![end], j) by {
        assert(t.subrange(start, k)[j - start] == digits(rating)[j - start]);
        assert(t.subrange(j, j + 1)[0] == t[j]);
        assert(seq![end][0] == end);
    }
    lemma_first(t, seq![end], start, k);
}

/// Digits say their rating.
proof fn lemma_says(t: Seq<u8>, value: Value, rating: i8)
    requires
        LOWEST <= rating <= HIGHEST,
        value_in(t) == Ok::<Option<Value>, Seq<char>>(Some(value)),
        t.subrange(value.start as int, value.end as int) == digits(rating),
    ensures
        rating_in(t) == Ok::<Option<i8>, Seq<char>>(Some(rating)),
{
    let d = digits(rating);
    assert(!is_blank(d[0]) && !is_blank(d[d.len() - 1]));
    assert(bare(d) =~= d);
}

/// Where an added rating stands.
proof fn lemma_added(s: Seq<u8>, rating: i8)
    requires
        LOWEST <= rating <= HIGHEST,
        value_in(s) == Ok::<Option<Value>, Seq<char>>(None),
        rewritten(s, Some(rating))->Ok_0.len() <= usize::MAX,
    ensures
        ({
            let at = place(s, element(), 0)->0 + element().len();
            let t = rewritten(s, Some(rating))->Ok_0;
            &&& t == with_attribute(s, at, rating)
            &&& element().len() <= at <= s.len()
            &&& value_in(t) == Ok::<Option<Value>, Seq<char>>(
                Some(
                    Value {
                        name: (at + 1) as usize,
                        start: (at + 13) as usize,
                        end: (at + 13 + digits(rating).len()) as usize,
                        attribute: true,
                    },
                ),
            )
        }),
{
    lemma_names();
    lemma_place(s, element(), 0);
    lemma_place(s, rating_name(), 0);
    let e = place(s, element(), 0)->0;
    let at = e + element().len();
    let t = rewritten(s, Some(rating))->Ok_0;
    let d = digits(rating);
    let name = rating_name();
    let more = if place(s, declaration(), 0) is Some {
        Seq::<u8>::empty()
    } else {
        name_space()
    };
    assert(t =~= s.take(at) + attribute(rating) + more + s.skip(at));
    assert forall|j: int| 0 <= j < at implies s[j] == #[trigger] t[j] by {}
    lemma_prefix(s, t, element(), e, at);
    assert(attribute(rating).len() == 14 + d.len());
    assert(forall|j: int|
        0 <= j < 14 + d.len() ==> #[trigger] t[at + j] == attribute(rating)[j]);
    assert(t.subrange(at + 1, at + 11) =~= name) by {
        assert forall|j: int| 0 <= j < 10 implies t.subrange(at + 1, at + 11)[j] == #[trigger] name[j] by {
            assert(t[at + (1 + j)] == attribute(rating)[1 + j]);
        }
    }
    assert(t[at + 0] == 0x20);
    assert(t[at + 11] == 0x3d);
    assert(t[at + 12] == 0x22);
    assert forall|j: int| 0 <= j < at + 1 implies !#[trigger] stands(t, name, j) by {
        if stands(t, name, j) {
            if j + 10 <= at {
                assert(s.subrange(j, j + 10) =~= t.subrange(j, j + 10));
                assert(stands(s, name, j));
            } else {
                assert(t.subrange(j, j + 10)[at - j] == 0x20);
                assert(name[at - j] != 0x20);
            }
        }
    }
    lemma_first(t, name, 0, at + 1);
    lemma_blanks_end(t, at + 11, at + 11);
    lemma_blanks_end(t, at + 12, at + 12);
    assert(t.subrange(at + 13, at + 13 + d.len()) =~= d) by {
        assert forall|j: int| 0 <= j < d.len() implies t.subrange(at + 13, at + 13 + d.len())[j]
            == #[trigger] d[j] by {
            assert(t[at + (13 + j)] == attribute(rating)[13 + j]);
        }
    }
    assert(t[at + (13 + d.len())] == 0x22);
    lemma_digits_end(t, at + 13, 0x22, rating);
}

/// A rating that was saved is the one that is read.
pub proof fn law_saved_ratings_are_read(s: Seq<u8>, rating: i8)
    requires
        LOWEST <= rating <= HIGHEST,
        s.len() <= usize::MAX,
        rewritten(s, Some(rating)) is Ok,
        rewritten(s, Some(rating))->Ok_0.len() <= usize::MAX,
    ensures
        rating_in(rewritten(s, Some(rating))->Ok_0) == Ok::<Option<i8>, Seq<char>>(Some(rating)),
{
    let t = rewritten(s, Some(rating))->Ok_0;
    let d = digits(rating);
    match value_in(s)->Ok_0 {
        None => {
            lemma_added(s, rating);
            let at = place(s, element(), 0)->0 + element().len();
            lemma_names();
            assert(t.subrange(at + 13, at + 13 + d.len()) =~= d) by {
                assert forall|j: int| 0 <= j < d.len() implies t.subrange(
                    at + 13,
                    at + 13 + d.len(),
                )[j] == #[trigger] d[j] by {
                    assert(t[at + (13 + j)] == attribute(rating)[13 + j]);
                }
            }
            lemma_says(t, value_in(t)->Ok_0->0, rating);
        },
        Some(value) => {
            lemma_names();
            let (e, name) = (place(s, element(), 0)->0, place(s, rating_name(), 0)->0);
            lemma_place(s, element(), 0);
            lemma_place(s, rating_name(), 0);
            let after = name + rating_name().len();
            let sign = after_blanks(s, after);
            lemma_after_blanks(s, after);
            let quoted = sign < s.len() && s[sign] == 0x3d;
            let quote = after_blanks(s, sign + 1);
            if quoted {
                lemma_after_blanks(s, sign + 1);
            }
            let end: u8 = if quoted {
                s[quote]
            } else {
                0x3c
            };
            let start = if quoted {
                quote + 1
            } else {
                after + 1
            };
            lemma_place(s, seq![end], start);
            let stop = place(s, seq![end], start)->0;
            assert(s.subrange(stop, stop + 1)[0] == end);
            assert(value.start == start && value.end == stop && value.name == name);
            assert(t =~= s.take(start) + d + s.skip(stop));
            assert forall|j: int| 0 <= j < start implies s[j] == #[trigger] t[j] by {}
            lemma_prefix(s, t, element(), e, start);
            lemma_prefix(s, t, rating_name(), name, start);
            if quoted {
                lemma_blanks_end(t, after, sign);
                lemma_blanks_end(t, sign + 1, quote);
            } else {
                lemma_blanks_end(t, after, after);
            }
            assert(t.subrange(start, start + d.len()) =~= d);
            assert(t[start + d.len()] == s[stop]);
            lemma_digits_end(t, start, end, rating);
            assert(value_in(t) == ending(t, name, start, end, value.attribute));
            lemma_says(t, value_in(t)->Ok_0->0, rating);
        },
    }
}

/// Taking back a rating that was added leaves the sidecar as it was, where the
/// name of ratings was declared before.
pub proof fn law_added_ratings_can_be_taken_back(s: Seq<u8>, rating: i8)
    requires
        LOWEST <= rating <= HIGHEST,
        value_in(s) == Ok::<Option<Value>, Seq<char>>(None),
        place(s, declaration(), 0) is Some,
        rewritten(s, Some(rating))->Ok_0.len() <= usize::MAX,
    ensures
        rewritten(rewritten(s, Some(rating))->Ok_0, None) == Ok::<Seq<u8>, Seq<char>>(s),
{
    lemma_added(s, rating);
    lemma_names();
    lemma_place(s, element(), 0);
    let at = place(s, element(), 0)->0 + element().len();
    let t = rewritten(s, Some(rating))->Ok_0;
    let d = digits(rating);
    assert(t =~= s.take(at) + attribute(rating) + s.skip(at));
    assert(attribute(rating).len() == 14 + d.len());
    assert(t[at] == attribute(rating)[0]);
    assert(s.subrange(at - 16, at)[15] == s[at - 1]);
    assert(before_blanks(t, at) == at);
    assert(before_blanks(t, at + 1) == at);
    assert(t.take(at) + t.skip(at + 14 + d.len()) =~= s);
}

/// What was planned is what is read afterwards, whatever the sidecar was.
pub proof fn law_planned_ratings_are_read(
    sidecar: Option<Seq<u8>>,
    stars: i8,
    expected: Option<Option<i8>>,
)
    requires
        LOWEST <= stars <= HIGHEST,
        sidecar matches Some(s) ==> s.len() <= usize::MAX,
        planned(sidecar, Some(stars), expected) is Ok,
        ((planned(sidecar, Some(stars), expected)->Ok_0).1->0).len() <= usize::MAX,
    ensures
        saved_rating((planned(sidecar, Some(stars), expected)->Ok_0).1) == Ok::<
            Option<i8>,
            Seq<char>,
        >(Some(stars)),
{
    match sidecar {
        Some(s) => law_saved_ratings_are_read(s, stars),
        None => {
            lemma_blank();
            law_saved_ratings_are_read(blank(), stars);
        },
    }
}

/// A declaration of the name space holds no rating.
proof fn lemma_declared(s: Seq<u8>, at: int)
    requires
        0 <= at <= s.len(),
        place(s, rating_name(), 0) is None,
    ensures
        place(s.take(at) + name_space() + s.skip(at), rating_name(), 0) is None,
{
    let text = " xmlns:xmp=\"http://ns.adobe.com/xap/1.0/\""@;
    reveal_strlit(" xmlns:xmp=\"http://ns.adobe.com/xap/1.0/\"");
    reveal_strlit("xmp:Rating");
    assert(vstd::utf8::is_ascii_chars(text));
    vstd::utf8::is_ascii_chars_encode_utf8(text);
    vstd::utf8::is_ascii_chars_encode_utf8("xmp:Rating"@);
    lemma_names();
    lemma_place(s, rating_name(), 0);
    let name = rating_name();
    let u = s.take(at) + name_space() + s.skip(at);
    lemma_place(u, name, 0);
    assert(unnamed(text, 41)) by {
        reveal_with_fuel(unnamed, 42);
    }
    assert(text[0] == ' ' && text[40] == '"');
    assert forall|j: int| 0 <= j implies !#[trigger] stands(u, name, j) by {
        if stands(u, name, j) {
            let part = u.subrange(j, j + 10);
            if j + 10 <= at {
                assert(s.subrange(j, j + 10) =~= part);
                assert(stands(s, name, j));
            } else if j >= at + 41 {
                assert(s.subrange(j - 41, j - 41 + 10) =~= part);
                assert(stands(s, name, j - 41));
            } else if j <= at {
                assert(part[at - j] == 0x20);
                assert(name[at - j] != 0x20);
            } else if j + 10 > at + 40 {
                assert(part[at + 40 - j] == 0x22);
                assert(name[at + 40 - j] != 0x22);
            } else {
                let k = j - at;
                assert(part[1] == name[1] && part[2] == name[2] && part[3] == name[3]);
                assert("xmp:Rating"@[1] == 'm' && "xmp:Rating"@[2] == 'p' && "xmp:Rating"@[3]
                    == ':');
                assert(text[k + 1] as u8 == name_space()[k + 1]);
                assert(text[k + 2] as u8 == name_space()[k + 2]);
                assert(text[k + 3] as u8 == name_space()[k + 3]);
                lemma_unnamed(text, 41, k + 3);
            }
        }
    }
}

/// Without a rating that was added, a sidecar says nothing again.
proof fn lemma_taken_back(s: Seq<u8>, rating: i8)
    requires
        LOWEST <= rating <= HIGHEST,
        value_in(s) == Ok::<Option<Value>, Seq<char>>(None),
        rewritten(s, Some(rating))->Ok_0.len() <= usize::MAX,
    ensures
        ({
            let t = rewritten(s, Some(rating))->Ok_0;
            &&& rewritten(t, None) is Ok
            &&& value_in(rewritten(t, None)->Ok_0) == Ok::<Option<Value>, Seq<char>>(None)
        }),
{
    lemma_added(s, rating);
    lemma_names();
    lemma_place(s, element(), 0);
    let e = place(s, element(), 0)->0;
    let at = e + element().len();
    let t = rewritten(s, Some(rating))->Ok_0;
    let d = digits(rating);
    let more = if place(s, declaration(), 0) is Some {
        Seq::<u8>::empty()
    } else {
        name_space()
    };
    assert(t =~= s.take(at) + attribute(rating) + more + s.skip(at));
    assert(attribute(rating).len() == 14 + d.len());
    assert(t[at] == attribute(rating)[0]);
    assert(s.subrange(at - 16, at)[15] == s[at - 1]);
    assert(before_blanks(t, at) == at);
    assert(before_blanks(t, at + 1) == at);
    let u = s.take(at) + more + s.skip(at);
    assert(t.take(at) + t.skip(at + 14 + d.len()) =~= u);
    if place(s, declaration(), 0) is Some {
        assert(u =~= s);
    } else {
        lemma_declared(s, at);
        assert forall|j: int| 0 <= j < at implies s[j] == #[trigger] u[j] by {}
        lemma_prefix(s, u, element(), e, at);
    }
}

/// Where the value of a rating can stand.
proof fn lemma_value(s: Seq<u8>)
    requires
        s.len() <= usize::MAX,
        value_in(s) is Ok,
        value_in(s)->Ok_0 is Some,
    ensures
        ({
            let value = value_in(s)->Ok_0->0;
            value.name < value.start <= value.end < s.len()
        }),
{
    lemma_names();
    let name = place(s, rating_name(), 0)->0;
    lemma_place(s, rating_name(), 0);
    let after = name + rating_name().len();
    let sign = after_blanks(s, after);
    lemma_after_blanks(s, after);
    if sign < s.len() && s[sign] == 0x3d {
        let quote = after_blanks(s, sign + 1);
        lemma_after_blanks(s, sign + 1);
        lemma_place(s, seq![s[quote]], quote + 1);
    } else {
        lemma_place(s, seq![0x3cu8], after + 1);
    }
}

/// A rating can be put in place of another.
proof fn lemma_replaced(t: Seq<u8>, stars: i8, before: i8)
    requires
        LOWEST <= before <= HIGHEST,
        t.len() < usize::MAX,
        rating_in(t) == Ok::<Option<i8>, Seq<char>>(Some(stars)),
    ensures
        rewritten(t, Some(before)) is Ok,
        rating_in(rewritten(t, Some(before))->Ok_0) == Ok::<Option<i8>, Seq<char>>(Some(before)),
{
    lemma_value(t);
    let value = value_in(t)->Ok_0->0;
    let text = t.subrange(value.start as int, value.end as int);
    let u = rewritten(t, Some(before))->Ok_0;
    assert(bare(text).len() >= 1);
    lemma_after_blanks(text, 0);
    lemma_before_blanks(text, text.len() as int);
    assert(text.len() >= 1);
    assert(u.len() <= t.len() + 1);
    law_saved_ratings_are_read(t, before);
}

/// What a sidecar says is a rating.
proof fn lemma_said(s: Seq<u8>)
    requires
        rating_in(s) is Ok,
        rating_in(s)->Ok_0 is Some,
    ensures
        LOWEST <= rating_in(s)->Ok_0->0 <= HIGHEST,
{
}

/// Undoing an edit brings back what the sidecar said before it.
pub proof fn law_undone_ratings_are_as_before(
    sidecar: Option<Seq<u8>>,
    stars: i8,
    expected: Option<Option<i8>>,
)
    requires
        LOWEST <= stars <= HIGHEST,
        sidecar matches Some(s) ==> s.len() <= usize::MAX,
        planned(sidecar, Some(stars), expected) is Ok,
        ((planned(sidecar, Some(stars), expected)->Ok_0).1->0).len() < usize::MAX,
    ensures
        ({
            let (previous, bytes) = planned(sidecar, Some(stars), expected)->Ok_0;
            let undone = planned(bytes, previous, Some(Some(stars)));
            undone is Ok && saved_rating((undone->Ok_0).1) == Ok::<Option<i8>, Seq<char>>(previous)
        }),
{
    law_planned_ratings_are_read(sidecar, stars, expected);
    let (previous, bytes) = planned(sidecar, Some(stars), expected)->Ok_0;
    let t = bytes->0;
    assert(bytes == Some(t));
    assert(rating_in(t) == Ok::<Option<i8>, Seq<char>>(Some(stars)));
    match previous {
        Some(before) => {
            lemma_said(sidecar->0);
            lemma_replaced(t, stars, before);
        },
        None => {
            let s = match sidecar {
                Some(s) => s,
                None => blank(),
            };
            if sidecar is None {
                lemma_blank();
            }
            lemma_taken_back(s, stars);
        },
    }
}

/// A rating of so many stars is the digit of that number, and a reject is minus one.
pub proof fn law_ratings_are_digits(stars: i8)
    requires
        0 <= stars <= 5,
    ensures
        said(seq![('0' as int + stars) as u8]) == Some(stars),
        digits(stars) == seq![('0' as int + stars) as u8],
        said(seq!['-' as u8, '1' as u8]) == Some(-1i8),
        digits(-1i8) == seq!['-' as u8, '1' as u8],
{
    assert(digits(-1i8) =~= seq!['-' as u8, '1' as u8]);
}

/// The rating of a sidecar is what its attribute, or its element, says: the first of
/// that name behind a description.
pub proof fn law_ratings_are_read_where_they_stand(
    s: Seq<u8>,
    described: int,
    name: int,
    quote: u8,
    stars: i8,
)
    requires
        -1 <= stars <= 5,
        s.len() <= usize::MAX,
        stands(s, vstd::utf8::encode_utf8("<rdf:Description"@), described),
        stands(s, vstd::utf8::encode_utf8("xmp:Rating"@), name),
        forall|j: int|
            0 <= j < name ==> !#[trigger] stands(s, vstd::utf8::encode_utf8("xmp:Rating"@), j),
        described + 16 <= name,
        ({
            let written = if stars < 0 {
                seq!['-' as u8, '1' as u8]
            } else {
                seq![('0' as int + stars) as u8]
            };
            ||| quote != '<' as u8 && (quote == '"' as u8 || quote == 0x27) && s[name + 10]
                == '=' as u8 && s[name + 11] == quote && stands(s, written.push(quote), name + 12)
            ||| quote == '<' as u8 && s[name + 10] == '>' as u8 && stands(
                s,
                written.push(quote),
                name + 11,
            )
        }),
    ensures
        rating_in(s) == Ok::<Option<i8>, Seq<char>>(Some(stars)),
{
    lemma_names();
    lemma_place(s, element(), 0);
    assert(stands(s, element(), described));
    lemma_first(s, rating_name(), 0, name);
    let d = digits(stars);
    let written = if stars < 0 {
        seq!['-' as u8, '1' as u8]
    } else {
        seq![('0' as int + stars) as u8]
    };
    assert(d =~= written);
    let start = if quote == '<' as u8 {
        name + 11
    } else {
        name + 12
    };
    let whole = written.push(quote);
    let part = s.subrange(start, start + whole.len());
    assert(part == whole);
    assert(s.subrange(start, start + d.len()) =~= d) by {
        assert forall|j: int| 0 <= j < d.len() implies s.subrange(start, start + d.len())[j]
            == #[trigger] d[j] by {
            assert(part[j] == whole[j]);
        }
    }
    assert(s[start + d.len()] == quote) by {
        assert(part[d.len() as int] == whole[d.len() as int]);
    }
    lemma_digits_end(s, start, quote, stars);
    let value = Value {
        name: name as usize,
        start: start as usize,
        end: (start + d.len()) as usize,
        attribute: quote != '<' as u8,
    };
    assert(after_blanks(s, name + 10) == name + 10);
    if quote != '<' as u8 {
        assert(after_blanks(s, name + 11) == name + 11);
    }
    assert(value_in(s) == Ok::<Option<Value>, Seq<char>>(Some(value)));
    lemma_says(s, value, stars);
}

/// Saving a rating changes nothing else of a sidecar: what stands before and behind
/// the rating stays.
pub proof fn law_only_the_rating_changes(s: Seq<u8>, stars: i8) -> (cut: (Seq<u8>, Seq<u8>, Seq<u8>))
    requires
        -1 <= stars <= 5,
        s.len() <= usize::MAX,
        rewritten(s, Some(stars)) is Ok,
    ensures
        s == cut.0 + cut.1 + cut.2,
        rating_in(s) == Ok::<Option<i8>, Seq<char>>(None) ==> cut.1.len() == 0,
        rating_in(s) is Ok && rating_in(s)->Ok_0 is Some ==> rewritten(s, Some(stars)) == Ok::<
            Seq<u8>,
            Seq<char>,
        >(
            cut.0 + (if stars < 0 {
                seq!['-' as u8, '1' as u8]
            } else {
                seq![('0' as int + stars) as u8]
            }) + cut.2,
        ),
        exists|middle: Seq<u8>|
            rewritten(s, Some(stars)) == Ok::<Seq<u8>, Seq<char>>(
                #[trigger] (cut.0 + middle + cut.2),
            ),
{
    match value_in(s)->Ok_0 {
        None => {
            lemma_names();
            lemma_place(s, element(), 0);
            let at = place(s, element(), 0)->0 + element().len();
            let cut = (s.take(at), Seq::<u8>::empty(), s.skip(at));
            assert(s =~= cut.0 + cut.1 + cut.2);
            let middle = attribute(stars) + if place(s, declaration(), 0) is Some {
                Seq::empty()
            } else {
                name_space()
            };
            assert(with_attribute(s, at, stars) =~= cut.0 + middle + cut.2);
            cut
        },
        Some(value) => {
            lemma_value(s);
            let cut = (
                s.take(value.start as int),
                s.subrange(value.start as int, value.end as int),
                s.skip(value.end as int),
            );
            assert(s =~= cut.0 + cut.1 + cut.2);
            assert(digits(stars) =~= if stars < 0 {
                seq!['-' as u8, '1' as u8]
            } else {
                seq![('0' as int + stars) as u8]
            });
            cut
        },
    }
}

} // verus!
