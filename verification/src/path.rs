//! Names of photographs.
//!
//! A path is a sequence of bytes. Two paths that name the same components are
//! equal, so repeated separators and `/.` do not count: the view of a path is its
//! tidy form, and its raw bytes are kept for those who open or show it. Lists of
//! photographs only ever compare and copy their members, so they are generic
//! over [`Identity`]: a program may list paths or small numbers that stand for
//! paths.
use crate::text;
use vstd::prelude::*;

verus! {

/// Something that can be compared and copied.
pub trait Identity: Sized {
    /// What two equal members have in common.
    type Key;

    spec fn key(&self) -> Self::Key;

    /// What a member is written as.
    type Form;

    spec fn form(&self) -> Self::Form;

    fn same(&self, other: &Self) -> (out: bool)
        ensures
            out == (self.key() == other.key()),
    ;

    fn copied(&self) -> (out: Self)
        ensures
            out.key() == self.key(),
            out.form() == self.form(),
    ;
}

impl Identity for u64 {
    type Key = u64;

    open spec fn key(&self) -> u64 {
        *self
    }

    type Form = u64;

    open spec fn form(&self) -> u64 {
        *self
    }

    fn same(&self, other: &Self) -> (out: bool) {
        *self == *other
    }

    fn copied(&self) -> (out: Self) {
        *self
    }
}

/// Whether two byte sequences are equal.
pub fn same_bytes(a: &[u8], b: &[u8]) -> (out: bool)
    ensures
        out == (a@ == b@),
{
    if a.len() != b.len() {
        return false;
    }
    let mut i: usize = 0;
    while i < a.len()
        invariant
            i <= a@.len(),
            a@.len() == b@.len(),
            forall|k: int| 0 <= k < i ==> a@[k] == b@[k],
        decreases a@.len() - i,
    {
        if a[i] != b[i] {
            return false;
        }
        i += 1;
    }
    assert(a@ =~= b@);
    true
}

/// A copy of a byte sequence.
pub fn copy_bytes(a: &[u8]) -> (out: Vec<u8>)
    ensures
        out@ == a@,
{
    vstd::slice::slice_to_vec(a)
}

/// The keys of a list, in its order.
pub open spec fn keys<P: Identity>(files: Seq<P>) -> Seq<P::Key> {
    Seq::new(files.len(), |i: int| files[i].key())
}

/// What the members of a list are written as, in its order.
pub open spec fn spellings<P: Identity>(files: Seq<P>) -> Seq<P::Form> {
    Seq::new(files.len(), |i: int| files[i].form())
}

/// The position of the first member with a key, if there is one.
pub open spec fn first_position<K>(s: Seq<K>, k: K) -> Option<int> {
    if exists|i: int| is_first(s, k, i) {
        Some(choose|i: int| is_first(s, k, i))
    } else {
        None
    }
}

/// `i` is the first position of `k`.
pub open spec fn is_first<K>(s: Seq<K>, k: K, i: int) -> bool {
    0 <= i < s.len() && s[i] == k && forall|j: int| 0 <= j < i ==> s[j] != k
}

/// The first position is the only first position, and there is one exactly if
/// the member occurs.
pub proof fn lemma_first_position<K>(s: Seq<K>, k: K)
    ensures
        first_position(s, k) is Some <==> s.contains(k),
        first_position(s, k) is Some ==> is_first(s, k, first_position(s, k)->0),
        forall|i: int| #[trigger] is_first(s, k, i) ==> first_position(s, k) == Some(i),
{
    if s.contains(k) {
        lemma_some_first(s, k, s.len() as int);
    }
    if exists|i: int| is_first(s, k, i) {
        let c = choose|i: int| is_first(s, k, i);
        assert forall|i: int| #[trigger] is_first(s, k, i) implies i == c by {
            if i < c {
                assert(s[i] != k);
            }
            if c < i {
                assert(s[c] != k);
            }
        }
    }
}

proof fn lemma_some_first<K>(s: Seq<K>, k: K, n: int)
    requires
        0 <= n <= s.len(),
        exists|i: int| 0 <= i < n && s[i] == k,
    ensures
        exists|i: int| is_first(s, k, i),
    decreases n,
{
    if exists|i: int| 0 <= i < n - 1 && s[i] == k {
        lemma_some_first(s, k, n - 1);
    } else {
        assert(is_first(s, k, n - 1));
    }
}

/// Finds the first member that equals `wanted`.
pub fn position_of<P: Identity>(files: &Vec<P>, wanted: &P) -> (out: Option<usize>)
    ensures
        match first_position(keys(files@), wanted.key()) {
            Some(i) => out is Some && out->0 == i && i < files@.len(),
            None => out is None,
        },
{
    proof {
        lemma_first_position(keys(files@), wanted.key());
    }
    let mut i: usize = 0;
    while i < files.len()
        invariant
            i <= files@.len(),
            forall|k: int| 0 <= k < i ==> keys(files@)[k] != wanted.key(),
        decreases files@.len() - i,
    {
        if files[i].same(wanted) {
            assert(is_first(keys(files@), wanted.key(), i as int));
            proof {
                lemma_first_position(keys(files@), wanted.key());
            }
            return Some(i);
        }
        i += 1;
    }
    proof {
        lemma_first_position(keys(files@), wanted.key());
    }
    None
}

/// A list with the same members.
pub fn copy_list<P: Identity>(files: &Vec<P>) -> (out: Vec<P>)
    ensures
        keys(out@) == keys(files@),
        spellings(out@) == spellings(files@),
{
    let mut out: Vec<P> = Vec::new();
    let mut i: usize = 0;
    while i < files.len()
        invariant
            i <= files@.len(),
            keys(out@) =~= keys(files@).take(i as int),
            spellings(out@) =~= spellings(files@).take(i as int),
        decreases files@.len() - i,
    {
        let ghost before = out@;
        out.push(files[i].copied());
        assert(keys(out@) =~= keys(before).push(files@[i as int].key()));
        assert(spellings(out@) =~= spellings(before).push(files@[i as int].form()));
        i += 1;
    }
    assert(keys(files@).take(i as int) =~= keys(files@));
    assert(spellings(files@).take(i as int) =~= spellings(files@));
    out
}

/// A path of the file system.
#[derive(Debug)]
pub struct PhotoPath {
    /// What was written.
    raw: Vec<u8>,
    /// Its tidy form.
    bytes: Vec<u8>,
}

impl View for PhotoPath {
    type V = Seq<u8>;

    closed spec fn view(&self) -> Seq<u8> {
        tidy(self.raw@)
    }
}

impl Identity for PhotoPath {
    type Key = Seq<u8>;

    open spec fn key(&self) -> Seq<u8> {
        self@
    }

    type Form = Seq<u8>;

    open spec fn form(&self) -> Seq<u8> {
        self.raw()
    }

    fn same(&self, other: &Self) -> (out: bool) {
        proof {
            use_type_invariant(self);
            use_type_invariant(other);
        }
        same_bytes(&self.bytes, &other.bytes)
    }

    fn copied(&self) -> (out: Self) {
        proof {
            use_type_invariant(self);
        }
        PhotoPath { raw: copy_bytes(&self.raw), bytes: copy_bytes(&self.bytes) }
    }
}

/// The tidy forms of some paths.
pub open spec fn tidied(names: Seq<Seq<u8>>) -> Seq<Seq<u8>> {
    names.map_values(|p: Seq<u8>| tidy(p))
}

/// The tidy forms of paths are their keys.
pub proof fn lemma_tidied(files: Seq<PhotoPath>)
    ensures
        tidied(spellings(files)) == keys(files),
{
    broadcast use PhotoPath::lemma_spelling;

    assert(tidied(spellings(files)) =~= keys(files));
}

/// What an optional path was written as.
pub open spec fn written(p: Option<PhotoPath>) -> Option<Seq<u8>> {
    match p {
        Some(p) => Some(p.raw()),
        None => None,
    }
}

/// The end of a path without trailing separators and `/.` components.
pub open spec fn trimmed_end(s: Seq<u8>, n: int) -> int
    decreases n,
{
    if n <= 0 {
        0
    } else if s[n - 1] == 0x2f {
        trimmed_end(s, n - 1)
    } else if n >= 2 && s[n - 1] == 0x2e && s[n - 2] == 0x2f {
        trimmed_end(s, n - 1)
    } else {
        n
    }
}

/// The start of the component that ends at `n`.
pub open spec fn component_start(s: Seq<u8>, n: int) -> int
    decreases n,
{
    if n <= 0 || s[n - 1] == 0x2f {
        n
    } else {
        component_start(s, n - 1)
    }
}

/// The last component of a path, unless it is the root, `.` or `..`.
pub open spec fn file_name_of(s: Seq<u8>) -> Option<Seq<u8>> {
    let end = trimmed_end(s, s.len() as int);
    let name = s.subrange(component_start(s, end), end);
    if name.len() == 0 || name == seq![0x2eu8] || name == seq![0x2eu8, 0x2eu8] {
        None
    } else {
        Some(name)
    }
}

/// The position of the last dot behind the first byte of a name.
pub open spec fn last_dot(name: Seq<u8>, n: int) -> Option<int>
    decreases n,
{
    if n <= 1 {
        None
    } else if name[n - 1] == 0x2e {
        Some(n - 1)
    } else {
        last_dot(name, n - 1)
    }
}

/// The extension of a file name: what follows its last dot, unless the name
/// starts there.
pub open spec fn extension_of(s: Seq<u8>) -> Option<Seq<u8>> {
    match file_name_of(s) {
        None => None,
        Some(name) => match last_dot(name, name.len() as int) {
            None => None,
            Some(dot) => Some(name.skip(dot + 1)),
        },
    }
}

/// A file name without its extension.
pub open spec fn stem_of(s: Seq<u8>) -> Option<Seq<u8>> {
    match file_name_of(s) {
        None => None,
        Some(name) => match last_dot(name, name.len() as int) {
            None => Some(name),
            Some(dot) => Some(name.take(dot)),
        },
    }
}

/// ASCII letters in lower case.
pub open spec fn lower(b: u8) -> u8 {
    if 0x41 <= b <= 0x5a {
        (b + 32) as u8
    } else {
        b
    }
}

/// Equal but for the case of ASCII letters.
pub open spec fn same_but_case(a: Seq<u8>, b: Seq<u8>) -> bool {
    a.len() == b.len() && forall|i: int| 0 <= i < a.len() ==> lower(#[trigger] a[i]) == lower(b[i])
}

pub fn lower_case(b: u8) -> (out: u8)
    ensures
        out == lower(b),
{
    if 0x41 <= b && b <= 0x5a {
        b + 32
    } else {
        b
    }
}

pub fn same_ignoring_case(a: &[u8], b: &[u8]) -> (out: bool)
    ensures
        out == same_but_case(a@, b@),
{
    if a.len() != b.len() {
        return false;
    }
    let mut i: usize = 0;
    while i < a.len()
        invariant
            i <= a@.len(),
            a@.len() == b@.len(),
            forall|k: int| 0 <= k < i ==> lower(#[trigger] a@[k]) == lower(b@[k]),
        decreases a@.len() - i,
    {
        if lower_case(a[i]) != lower_case(b[i]) {
            return false;
        }
        i += 1;
    }
    true
}

proof fn lemma_bounds(s: Seq<u8>, n: int)
    requires
        0 <= n <= s.len(),
    ensures
        0 <= trimmed_end(s, n) <= n,
        0 <= component_start(s, n) <= n,
    decreases n,
{
    if n > 0 {
        lemma_bounds(s, n - 1);
    }
}

impl PhotoPath {
    #[verifier::type_invariant]
    spec fn neat(self) -> bool {
        self.bytes@ == tidy(self.raw@)
    }

    /// The bytes that were written.
    pub closed spec fn raw(&self) -> Seq<u8> {
        self.raw@
    }

    /// The view is the tidy form of what was written.
    pub broadcast proof fn lemma_spelling(&self)
        ensures
            self@ == tidy(#[trigger] self.raw()),
    {
    }

    /// A path from its bytes.
    pub fn from_bytes(raw: Vec<u8>) -> (out: Self)
        ensures
            out@ == tidy(raw@),
            out.raw() == raw@,
    {
        let bytes = tidy_prefix(&raw, raw.len());
        PhotoPath { raw, bytes }
    }

    /// A path from text.
    pub fn from_text(text: &str) -> (out: Self)
        ensures
            out@ == tidy(vstd::utf8::encode_utf8(text@)),
            out.raw() == vstd::utf8::encode_utf8(text@),
    {
        PhotoPath::from_bytes(copy_bytes(text.as_bytes()))
    }

    /// The bytes that were written.
    pub fn as_raw(&self) -> (out: &[u8])
        ensures
            out@ == self.raw(),
    {
        self.raw.as_slice()
    }

    /// The tidy form.
    pub fn as_bytes(&self) -> (out: &[u8])
        ensures
            out@ == self@,
    {
        proof {
            use_type_invariant(self);
        }
        self.bytes.as_slice()
    }

    /// The last component, unless it is the root, `.` or `..`.
    pub fn file_name(&self) -> (out: Option<Vec<u8>>)
        ensures
            match file_name_of(self@) {
                Some(name) => out is Some && out->0@ == name,
                None => out is None,
            },
            file_name_of(self.raw()) == file_name_of(self@),
    {
        proof {
            use_type_invariant(self);
            lemma_tidy_name(self.raw());
        }
        let end: usize = end_before(&self.bytes, self.bytes.len());
        let start: usize = start_before(&self.bytes, end);
        let name = vstd::slice::slice_subrange(self.bytes.as_slice(), start, end);
        assert(name@ == self@.subrange(start as int, end as int));
        let length: usize = name.len();
        if length == 0 {
            return None;
        }
        if length == 1 && name[0] == 0x2e {
            assert(name@ =~= seq![0x2eu8]);
            return None;
        }
        if length == 2 && name[0] == 0x2e && name[1] == 0x2e {
            assert(name@ =~= seq![0x2eu8, 0x2eu8]);
            return None;
        }
        Some(copy_bytes(name))
    }

    /// What follows the last dot of the file name.
    pub fn extension(&self) -> (out: Option<Vec<u8>>)
        ensures
            match extension_of(self@) {
                Some(extension) => out is Some && out->0@ == extension,
                None => out is None,
            },
            extension_of(self.raw()) == extension_of(self@),
    {
        match self.file_name() {
            None => None,
            Some(name) => match find_dot(&name) {
                None => None,
                Some(dot) => {
                    let rest = vstd::slice::slice_subrange(name.as_slice(), dot + 1, name.len());
                    assert(rest@ =~= name@.skip(dot + 1));
                    Some(copy_bytes(rest))
                },
            },
        }
    }

    /// The file name without its extension.
    pub fn file_stem(&self) -> (out: Option<Vec<u8>>)
        ensures
            match stem_of(self@) {
                Some(stem) => out is Some && out->0@ == stem,
                None => out is None,
            },
            stem_of(self.raw()) == stem_of(self@),
    {
        match self.file_name() {
            None => None,
            Some(name) => match find_dot(&name) {
                None => Some(name),
                Some(dot) => {
                    let rest = vstd::slice::slice_subrange(name.as_slice(), 0, dot);
                    assert(rest@ =~= name@.take(dot as int));
                    Some(copy_bytes(rest))
                },
            },
        }
    }
}

fn find_dot(name: &Vec<u8>) -> (out: Option<usize>)
    ensures
        match last_dot(name@, name@.len() as int) {
            Some(dot) => out is Some && out->0 == dot && dot < name.len(),
            None => out is None,
        },
{
    let mut n: usize = name.len();
    while n > 1
        invariant
            n <= name@.len(),
            last_dot(name@, name@.len() as int) == last_dot(name@, n as int),
        decreases n,
    {
        if name[n - 1] == 0x2e {
            return Some(n - 1);
        }
        n -= 1;
    }
    None
}

/// Where the last component of a path starts.
pub open spec fn name_start(s: Seq<u8>) -> int {
    component_start(s, trimmed_end(s, s.len() as int))
}

/// A path without its last component. The root and the empty path have none.
pub open spec fn parent_of(s: Seq<u8>) -> Option<Seq<u8>> {
    if trimmed_end(s, s.len() as int) == 0 {
        None
    } else {
        let end = trimmed_end(s, name_start(s));
        if end == 0 && name_start(s) > 0 {
            Some(s.take(1))
        } else {
            Some(s.take(end))
        }
    }
}

/// A path below a folder. An absolute path stays what it is.
pub open spec fn joined(folder: Seq<u8>, name: Seq<u8>) -> Seq<u8> {
    if (name.len() > 0 && name[0] == 0x2f) || folder.len() == 0 {
        name
    } else if folder.last() == 0x2f {
        folder + name
    } else {
        folder + seq![0x2fu8] + name
    }
}

/// A path with another extension. A path without a file name stays what it is.
pub open spec fn extended(s: Seq<u8>, extension: Seq<u8>) -> Seq<u8> {
    match stem_of(s) {
        None => s,
        Some(stem) => {
            let base = s.take(name_start(s) + stem.len());
            if extension.len() == 0 {
                base
            } else {
                base + seq![0x2eu8] + extension
            }
        },
    }
}

pub(crate) fn append_bytes(to: &mut Vec<u8>, from: &[u8])
    ensures
        final(to)@ == old(to)@ + from@,
{
    let mut i: usize = 0;
    while i < from.len()
        invariant
            i <= from@.len(),
            to@ =~= old(to)@ + from@.take(i as int),
        decreases from@.len() - i,
    {
        to.push(from[i]);
        i += 1;
    }
    assert(from@.take(i as int) =~= from@);
}

/// The end of a path without trailing separators and `/.` components, looking at
/// its first `n` bytes.
fn end_before(bytes: &Vec<u8>, n: usize) -> (out: usize)
    requires
        n <= bytes.len(),
    ensures
        out == trimmed_end(bytes@, n as int),
        out <= n,
{
    let ghost s = bytes@;
    let mut end: usize = n;
    while end > 0 && (bytes[end - 1] == 0x2f || (end >= 2 && bytes[end - 1] == 0x2e && bytes[end
        - 2] == 0x2f))
        invariant
            end <= n <= bytes@.len(),
            s == bytes@,
            trimmed_end(s, n as int) == trimmed_end(s, end as int),
        decreases end,
    {
        end -= 1;
    }
    end
}

/// Where the component that ends at `end` starts.
fn start_before(bytes: &Vec<u8>, end: usize) -> (out: usize)
    requires
        end <= bytes.len(),
    ensures
        out == component_start(bytes@, end as int),
        out <= end,
{
    let ghost s = bytes@;
    let mut start: usize = end;
    while start > 0 && bytes[start - 1] != 0x2f
        invariant
            start <= end <= bytes@.len(),
            s == bytes@,
            component_start(s, end as int) == component_start(s, start as int),
        decreases start,
    {
        start -= 1;
    }
    start
}

/// The tidy form of the first `n` bytes of a path.
fn tidy_prefix(bytes: &Vec<u8>, n: usize) -> (out: Vec<u8>)
    requires
        n <= bytes.len(),
    ensures
        out@ == tidy_to(bytes@, n as int),
    decreases n,
{
    let end: usize = end_before(bytes, n);
    if end == 0 {
        let mut out: Vec<u8> = Vec::new();
        if n > 0 {
            out.push(0x2f);
        }
        assert(out@ =~= tidy_to(bytes@, n as int));
        return out;
    }
    proof {
        lemma_component(bytes@, n as int);
        lemma_component_bytes(bytes@, end as int);
    }
    let start: usize = start_before(bytes, end);
    let mut out = tidy_prefix(bytes, start);
    let ghost folder = out@;
    let length: usize = out.len();
    if length > 0 && out[length - 1] != 0x2f {
        out.push(0x2f);
    }
    append_bytes(&mut out, vstd::slice::slice_subrange(bytes.as_slice(), start, end));
    assert(out@ =~= joined(folder, bytes@.subrange(start as int, end as int)));
    out
}

impl PhotoPath {
    /// The path without its last component. The root and the empty path have
    /// none.
    pub fn parent(&self) -> (out: Option<PhotoPath>)
        ensures
            match parent_of(self@) {
                Some(parent) => out is Some && out->0@ == parent,
                None => out is None,
            },
            match parent_of(self.raw()) {
                Some(parent) => out is Some && out->0.raw() == parent,
                None => out is None,
            },
    {
        proof {
            use_type_invariant(self);
            lemma_tidy_parent(self.raw());
        }
        let last: usize = end_before(&self.raw, self.raw.len());
        if last == 0 {
            return None;
        }
        let start: usize = start_before(&self.raw, last);
        let end: usize = end_before(&self.raw, start);
        let keep: usize = if end == 0 && start > 0 {
            1
        } else {
            end
        };
        let parent = vstd::slice::slice_subrange(self.raw.as_slice(), 0, keep);
        assert(parent@ =~= self.raw@.take(keep as int));
        Some(PhotoPath::from_bytes(copy_bytes(parent)))
    }

    /// What was written as text, with replacement characters for what is not
    /// text.
    pub fn display(&self) -> (out: String)
        ensures
            out@ == text::lossy_text(self.raw()),
    {
        text::from_utf8_lossy(&self.raw)
    }

    /// The path of `name` below this folder.
    pub fn join(&self, name: &[u8]) -> (out: PhotoPath)
        requires
            plain(name@),
        ensures
            out@ == joined(self@, name@),
            out.raw() == joined(self.raw(), name@),
    {
        proof {
            law_tidy_joins(self.raw(), name@);
        }
        assert(name@.contains(name@[0]));
        let mut raw = copy_bytes(&self.raw);
        let length: usize = raw.len();
        if length > 0 && raw[length - 1] != 0x2f {
            raw.push(0x2f);
        }
        append_bytes(&mut raw, name);
        assert(raw@ =~= joined(self.raw(), name@));
        PhotoPath::from_bytes(raw)
    }

    /// The path with another extension.
    pub fn with_extension(&self, extension: &[u8]) -> (out: PhotoPath)
        requires
            plain(extension@),
        ensures
            out@ == extended(self@, extension@),
            out.raw() == extended(self.raw(), extension@),
    {
        proof {
            law_tidy_extends(self.raw(), extension@);
            lemma_tidy_name(self.raw());
        }
        match self.file_stem() {
            None => self.copied(),
            Some(stem) => {
                let end: usize = end_before(&self.raw, self.raw.len());
                let start: usize = start_before(&self.raw, end);
                proof {
                    lemma_stem(self.raw());
                }
                let length: usize = self.raw.len();
                assert(start + stem.len() <= length);
                let base = vstd::slice::slice_subrange(self.raw.as_slice(), 0, start + stem.len());
                let mut raw = copy_bytes(base);
                assert(raw@ =~= self.raw().take(start + stem@.len()));
                raw.push(0x2e);
                append_bytes(&mut raw, extension);
                assert(raw@ =~= extended(self.raw(), extension@));
                PhotoPath::from_bytes(raw)
            },
        }
    }
}

/// The stem of a file name is the start of the last component.
proof fn lemma_stem(s: Seq<u8>)
    requires
        stem_of(s) is Some,
    ensures
        0 <= name_start(s) <= trimmed_end(s, s.len() as int) <= s.len(),
        name_start(s) + (stem_of(s)->0).len() <= trimmed_end(s, s.len() as int),
{
    lemma_bounds(s, s.len() as int);
    let end = trimmed_end(s, s.len() as int);
    lemma_bounds(s, end);
    let name = s.subrange(component_start(s, end), end);
    lemma_dot(name, name.len() as int);
}

proof fn lemma_dot(name: Seq<u8>, n: int)
    requires
        0 <= n <= name.len(),
    ensures
        match last_dot(name, n) {
            Some(dot) => 0 < dot < n,
            None => true,
        },
    decreases n,
{
    if n > 1 {
        lemma_dot(name, n - 1);
    }
}

/// Whether the first `n` bytes of one path and the first `m` of another name the
/// same components. Repeated separators and `/.` do not count.
pub open spec fn same_place(a: Seq<u8>, n: int, b: Seq<u8>, m: int) -> bool
    decreases n,
{
    let e = trimmed_end(a, n);
    let f = trimmed_end(b, m);
    if e <= 0 || f <= 0 {
        e <= 0 && f <= 0 && (n > 0 <==> m > 0)
    } else {
        let i = component_start(a, e);
        let j = component_start(b, f);
        &&& a.subrange(i, e) == b.subrange(j, f)
        &&& 0 <= i < n
        &&& same_place(a, i, b, j)
    }
}

/// Whether two paths name the same components.
pub open spec fn same_path(a: Seq<u8>, b: Seq<u8>) -> bool {
    same_place(a, a.len() as int, b, b.len() as int)
}

proof fn lemma_component(s: Seq<u8>, n: int)
    requires
        0 <= n <= s.len(),
        trimmed_end(s, n) > 0,
    ensures
        0 <= component_start(s, trimmed_end(s, n)) < trimmed_end(s, n) <= n,
    decreases n,
{
    lemma_bounds(s, n);
    let e = trimmed_end(s, n);
    lemma_bounds(s, e);
    lemma_bounds(s, e - 1);
    lemma_trimmed(s, n);
}

proof fn lemma_trimmed(s: Seq<u8>, n: int)
    requires
        0 <= n <= s.len(),
    ensures
        trimmed_end(s, n) > 0 ==> s[trimmed_end(s, n) - 1] != 0x2f,
    decreases n,
{
    if n > 0 {
        lemma_trimmed(s, n - 1);
    }
}

/// A name that is one component: not empty, without separators, and not `.`.
pub open spec fn plain(name: Seq<u8>) -> bool {
    &&& name.len() > 0
    &&& name != seq![0x2eu8]
    &&& !name.contains(0x2fu8)
}

/// The components of the first `n` bytes of a path, each behind one separator.
pub open spec fn tidy_to(s: Seq<u8>, n: int) -> Seq<u8>
    decreases n,
{
    let e = trimmed_end(s, n);
    let c = component_start(s, e);
    if e <= 0 {
        if n > 0 {
            seq![0x2fu8]
        } else {
            Seq::empty()
        }
    } else if 0 <= c < n {
        joined(tidy_to(s, c), s.subrange(c, e))
    } else {
        s
    }
}

/// The tidy form of a path.
pub open spec fn tidy(s: Seq<u8>) -> Seq<u8> {
    tidy_to(s, s.len() as int)
}

/// A component holds no separator.
proof fn lemma_component_bytes(s: Seq<u8>, n: int)
    requires
        0 <= n <= s.len(),
    ensures
        0 <= component_start(s, n) <= n,
        forall|k: int| component_start(s, n) <= k < n ==> s[k] != 0x2f,
        component_start(s, n) > 0 ==> s[component_start(s, n) - 1] == 0x2f,
    decreases n,
{
    if n > 0 {
        lemma_component_bytes(s, n - 1);
    }
}

/// Where a component ends and starts depends on nothing behind it.
proof fn lemma_prefix(s: Seq<u8>, t: Seq<u8>, n: int)
    requires
        0 <= n <= s.len(),
        n <= t.len(),
        forall|k: int| 0 <= k < n ==> s[k] == t[k],
    ensures
        trimmed_end(s, n) == trimmed_end(t, n),
        component_start(s, n) == component_start(t, n),
        tidy_to(s, n) == tidy_to(t, n),
    decreases n,
{
    lemma_bounds(s, n);
    lemma_ends_prefix(s, t, n);
    let e = trimmed_end(s, n);
    if e > 0 {
        lemma_component(s, n);
        lemma_ends_prefix(s, t, e);
        let c = component_start(s, e);
        lemma_prefix(s, t, c);
        assert(s.subrange(c, e) =~= t.subrange(c, e));
    }
}

proof fn lemma_ends_prefix(s: Seq<u8>, t: Seq<u8>, n: int)
    requires
        0 <= n <= s.len(),
        n <= t.len(),
        forall|k: int| 0 <= k < n ==> s[k] == t[k],
    ensures
        trimmed_end(s, n) == trimmed_end(t, n),
        component_start(s, n) == component_start(t, n),
    decreases n,
{
    if n > 0 {
        lemma_ends_prefix(s, t, n - 1);
    }
}

/// A component behind its folder is found again.
proof fn lemma_last(q: Seq<u8>, c: int, n: int)
    requires
        0 <= c <= n <= q.len(),
        c > 0 ==> q[c - 1] == 0x2f,
        forall|k: int| c <= k < n ==> q[k] != 0x2f,
    ensures
        component_start(q, n) == c,
    decreases n,
{
    if c < n {
        lemma_last(q, c, n - 1);
    }
}

/// A tidy path is the root, or ends with a component.
proof fn lemma_tidy_end(p: Seq<u8>)
    requires
        tidy(p) == p,
    ensures
        p.len() == 0 || p == seq![0x2fu8] || trimmed_end(p, p.len() as int) == p.len(),
        p.len() > 0 && p.last() == 0x2f ==> p == seq![0x2fu8],
{
    let n = p.len() as int;
    let e = trimmed_end(p, n);
    lemma_bounds(p, n);
    if e > 0 {
        lemma_component(p, n);
        lemma_component_bytes(p, e);
        let c = component_start(p, e);
        let f = tidy_to(p, c);
        let name = p.subrange(c, e);
        assert(p == joined(f, name));
        assert(name.last() == p[e - 1]);
        assert(p.last() == name.last());
        lemma_name(p, n);
        if e < n {
            lemma_trimmed_dot(p, n);
            let k = name.len() - 2;
            if k >= 0 {
                assert(name[k] == p[n - 2]);
                assert(name.contains(name[k]));
            } else {
                assert(name =~= seq![0x2eu8]);
            }
        }
    }
}

/// What is trimmed from a path ends with a separator or `/.`.
proof fn lemma_trimmed_dot(p: Seq<u8>, n: int)
    requires
        0 < n <= p.len(),
        trimmed_end(p, n) < n,
    ensures
        p[n - 1] == 0x2f || (n >= 2 && p[n - 1] == 0x2e && p[n - 2] == 0x2f),
{
}

/// A component below a tidy folder: the path is tidy, and both are found again.
proof fn lemma_tidy_append(p: Seq<u8>, name: Seq<u8>)
    requires
        tidy(p) == p,
        name.len() > 0,
        !name.contains(0x2fu8),
        p.len() > 0 ==> name != seq![0x2eu8],
    ensures
        tidy(joined(p, name)) == joined(p, name),
        trimmed_end(joined(p, name), joined(p, name).len() as int) == joined(p, name).len(),
        name_start(joined(p, name)) == joined(p, name).len() - name.len(),
        tidy_to(joined(p, name), name_start(joined(p, name))) == p,
        joined(p, name).skip(name_start(joined(p, name))) == name,
        joined(p, name).last() != 0x2f,
        parent_of(joined(p, name)) == Some(p),
{
    let q = joined(p, name);
    let n = q.len() as int;
    let c = n - name.len();
    assert(name[0] != 0x2f);
    assert forall|k: int| c <= k < n implies q[k] == name[k - c] && q[k] != 0x2f by {
        assert(name.contains(name[k - c]));
    }
    if name.len() == 1 && name[0] == 0x2e {
        assert(name =~= seq![0x2eu8]);
    }
    assert(trimmed_end(q, n) == n);
    lemma_tidy_end(p);
    lemma_last(q, c, n);
    assert(q.subrange(c, n) =~= name);
    assert(q.skip(c) =~= name);
    if p.len() == 0 {
        assert(c == 0);
        assert(p =~= Seq::empty());
        assert(q.take(0) =~= p);
    } else if p.last() == 0x2f {
        assert(c == 1);
        assert(trimmed_end(q, 0) == 0);
        assert(trimmed_end(q, 1) == 0);
        assert(tidy_to(q, 1) =~= p);
        assert(q.take(1) =~= p);
    } else {
        assert(c == p.len() + 1);
        lemma_prefix(q, p, c - 1);
        assert(trimmed_end(q, c) == trimmed_end(q, c - 1));
        assert(tidy_to(q, c) == tidy_to(q, c - 1));
        assert(q.take(c - 1) =~= p);
    }
    assert(tidy_to(q, c) == p);
    assert(tidy_to(q, n) == joined(tidy_to(q, c), q.subrange(c, n)));
}

/// A tidy form is tidy.
proof fn lemma_tidy_twice(s: Seq<u8>, n: int)
    requires
        0 <= n <= s.len(),
    ensures
        tidy(tidy_to(s, n)) == tidy_to(s, n),
    decreases n,
{
    let e = trimmed_end(s, n);
    let t = tidy_to(s, n);
    if e <= 0 {
        reveal_with_fuel(trimmed_end, 3);
        assert(t.len() <= 1);
    } else {
        lemma_component(s, n);
        lemma_component_bytes(s, e);
        let c = component_start(s, e);
        lemma_tidy_twice(s, c);
        let name = s.subrange(c, e);
        lemma_name(s, n);
        lemma_tidy_append(tidy_to(s, c), name);
    }
}

/// The last component has bytes, none of them a separator, and is `.` only at the
/// start of a path.
proof fn lemma_name(s: Seq<u8>, n: int)
    requires
        0 <= n <= s.len(),
        trimmed_end(s, n) > 0,
    ensures
        ({
            let e = trimmed_end(s, n);
            let c = component_start(s, e);
            let name = s.subrange(c, e);
            &&& 0 <= c < e <= n
            &&& name.len() > 0
            &&& !name.contains(0x2fu8)
            &&& tidy_to(s, c).len() > 0 ==> name != seq![0x2eu8]
        }),
{
    let e = trimmed_end(s, n);
    lemma_component(s, n);
    lemma_component_bytes(s, e);
    let c = component_start(s, e);
    let name = s.subrange(c, e);
    if name.contains(0x2fu8) {
        let k = choose|k: int| 0 <= k < name.len() && name[k] == 0x2f;
        assert(s[c + k] == 0x2f);
    }
    if name == seq![0x2eu8] {
        assert(name[0] == s[c]);
        assert(e == c + 1);
        if c > 0 {
            lemma_trimmed_stays(s, n);
        }
        assert(c == 0);
        assert(trimmed_end(s, 0) == 0);
    }
}

/// What is left of a trimmed path has nothing to trim.
proof fn lemma_trimmed_stays(s: Seq<u8>, n: int)
    requires
        0 <= n <= s.len(),
        trimmed_end(s, n) > 0,
    ensures
        ({
            let e = trimmed_end(s, n);
            !(e >= 2 && s[e - 1] == 0x2e && s[e - 2] == 0x2f)
        }),
    decreases n,
{
    if n > 0 {
        lemma_bounds(s, n - 1);
        if trimmed_end(s, n) < n {
            lemma_trimmed_stays(s, n - 1);
        }
    }
}

/// The parent of a tidy form is the tidy form of the parent.
pub proof fn lemma_tidy_parent(s: Seq<u8>)
    ensures
        match parent_of(s) {
            Some(parent) => parent_of(tidy(s)) == Some(tidy(parent)),
            None => parent_of(tidy(s)) is None,
        },
{
    let n = s.len() as int;
    let e = trimmed_end(s, n);
    lemma_bounds(s, n);
    if e > 0 {
        lemma_name(s, n);
        let c = name_start(s);
        lemma_tidy_twice(s, c);
        lemma_tidy_append(tidy_to(s, c), s.subrange(c, e));
        lemma_bounds(s, c);
        let end = trimmed_end(s, c);
        if end == 0 && c > 0 {
            lemma_all_trimmed(s, c);
            let root = s.take(1);
            assert(root[0] == 0x2f);
            assert(trimmed_end(root, 0) == 0);
            assert(trimmed_end(root, 1) == 0);
            assert(tidy(root) == tidy_to(s, c));
        } else {
            let folder = s.take(end);
            lemma_prefix(folder, s, end);
            lemma_trimmed_once(s, c);
        }
    } else {
        reveal_with_fuel(trimmed_end, 3);
    }
}

/// A path of which nothing is left begins at the root.
proof fn lemma_all_trimmed(s: Seq<u8>, n: int)
    requires
        0 < n <= s.len(),
        trimmed_end(s, n) == 0,
    ensures
        s[0] == 0x2f,
    decreases n,
{
    if n > 1 {
        lemma_all_trimmed(s, n - 1);
    }
}

/// To trim twice is to trim once.
proof fn lemma_trimmed_once(s: Seq<u8>, n: int)
    requires
        0 <= n <= s.len(),
    ensures
        trimmed_end(s, trimmed_end(s, n)) == trimmed_end(s, n),
    decreases n,
{
    if n > 0 {
        lemma_trimmed_once(s, n - 1);
    }
}

/// The file name of a tidy form is that of the path.
pub proof fn lemma_tidy_name(s: Seq<u8>)
    ensures
        file_name_of(tidy(s)) == file_name_of(s),
{
    let n = s.len() as int;
    let e = trimmed_end(s, n);
    lemma_bounds(s, n);
    if e > 0 {
        lemma_name(s, n);
        let c = name_start(s);
        lemma_tidy_twice(s, c);
        let name = s.subrange(c, e);
        lemma_tidy_append(tidy_to(s, c), name);
        let t = tidy(s);
        assert(t.subrange(name_start(t), t.len() as int) =~= t.skip(name_start(t)));
    } else {
        reveal_with_fuel(trimmed_end, 3);
        let t = tidy(s);
        assert(trimmed_end(t, t.len() as int) == 0);
        assert(component_start(t, 0) == 0);
        assert(component_start(s, 0) == 0);
        assert(t.subrange(0, 0).len() == 0);
        assert(s.subrange(0, 0).len() == 0);
    }
}

/// A name below the tidy form of a folder is the tidy form of the name below it.
pub proof fn law_tidy_joins(s: Seq<u8>, name: Seq<u8>)
    requires
        plain(name),
    ensures
        tidy(joined(s, name)) == joined(tidy(s), name),
{
    let q = joined(s, name);
    let n = q.len() as int;
    let c = n - name.len();
    let m = s.len() as int;
    lemma_tidy_twice(s, m);
    assert(name.contains(name[0]));
    assert forall|k: int| c <= k < n implies q[k] == name[k - c] && q[k] != 0x2f by {
        assert(name.contains(name[k - c]));
    }
    if name.len() == 1 && name[0] == 0x2e {
        assert(name =~= seq![0x2eu8]);
    }
    assert(trimmed_end(q, n) == n);
    lemma_last(q, c, n);
    assert(q.subrange(c, n) =~= name);
    if m == 0 {
        assert(trimmed_end(s, 0) == 0);
        assert(trimmed_end(q, 0) == 0);
        assert(tidy_to(q, 0) =~= tidy(s));
    } else if s.last() == 0x2f {
        lemma_prefix(q, s, m);
    } else {
        lemma_prefix(q, s, m);
        assert(q[c - 1] == 0x2f);
        lemma_bounds(q, m);
        assert(trimmed_end(q, c) == trimmed_end(q, c - 1));
        let e = trimmed_end(q, m);
        if e > 0 {
            lemma_component(q, m);
        }
        assert(tidy_to(q, c) == tidy_to(q, m));
    }
    assert(tidy_to(q, n) == joined(tidy_to(q, c), q.subrange(c, n)));
}

/// The start of a component with an extension holds no separator.
proof fn lemma_renamed(name: Seq<u8>, k: int, extension: Seq<u8>)
    requires
        0 <= k <= name.len(),
        !name.contains(0x2fu8),
        !extension.contains(0x2fu8),
    ensures
        !(name.take(k) + seq![0x2eu8] + extension).contains(0x2fu8),
{
    let renamed = name.take(k) + seq![0x2eu8] + extension;
    assert forall|i: int| 0 <= i < renamed.len() implies renamed[i] != 0x2f by {
        if i < k {
            assert(name.contains(name[i]));
        } else if i > k {
            assert(extension.contains(extension[i - k - 1]));
        }
    }
}

/// A tidy path with another extension.
#[verifier::spinoff_prover]
#[verifier::rlimit(80)]
proof fn lemma_tidy_extended(folder: Seq<u8>, name: Seq<u8>, extension: Seq<u8>)
    requires
        tidy(folder) == folder,
        name.len() > 0,
        !name.contains(0x2fu8),
        folder.len() > 0 ==> name != seq![0x2eu8],
        stem_of(joined(folder, name)) is Some,
        plain(extension),
    ensures
        extended(joined(folder, name), extension) == joined(
            folder,
            stem_of(joined(folder, name))->0 + seq![0x2eu8] + extension,
        ),
{
    let s = joined(folder, name);
    lemma_stem(s);
    lemma_tidy_append(folder, name);
    let c = name_start(s);
    assert(s.subrange(c, s.len() as int) =~= s.skip(c));
    let stem = stem_of(s)->0;
    lemma_dot(name, name.len() as int);
    assert(stem =~= name.take(stem.len() as int));
    let renamed = stem + seq![0x2eu8] + extension;
    assert(name[0] != 0x2f) by {
        assert(name.contains(name[0]));
    }
    assert(renamed[0] == name[0]);
    assert(s.take(c + stem.len()) + seq![0x2eu8] + extension =~= joined(folder, renamed));
}

/// The tidy form of a path with another extension is the tidy form of the path
/// with that extension.
#[verifier::rlimit(40)]
pub proof fn law_tidy_extends(s: Seq<u8>, extension: Seq<u8>)
    requires
        plain(extension),
    ensures
        tidy(extended(s, extension)) == extended(tidy(s), extension),
{
    lemma_tidy_name(s);
    if stem_of(s) is Some {
        let n = s.len() as int;
        lemma_bounds(s, n);
        lemma_stem(s);
        lemma_name(s, n);
        let e = trimmed_end(s, n);
        let c = name_start(s);
        let folder = tidy_to(s, c);
        let name = s.subrange(c, e);
        lemma_tidy_twice(s, c);
        assert(tidy(s) == joined(folder, name));
        lemma_tidy_extended(folder, name, extension);
        let stem = stem_of(s)->0;
        lemma_dot(name, name.len() as int);
        assert(stem =~= name.take(stem.len() as int));
        let renamed = stem + seq![0x2eu8] + extension;
        lemma_renamed(name, stem.len() as int, extension);
        let t = extended(s, extension);
        let m = t.len() as int;
        assert forall|k: int| c <= k < m implies t[k] == renamed[k - c] && t[k] != 0x2f by {
            if k < c + stem.len() {
                assert(t[k] == s[k]);
            }
            assert(renamed.contains(renamed[k - c]));
        }
        assert(renamed.len() >= 3);
        assert(trimmed_end(t, m) == m);
        lemma_component_bytes(s, e);
        lemma_last(t, c, m);
        assert(t.subrange(c, m) =~= renamed);
        lemma_prefix(t, s, c);
        assert(tidy_to(t, m) == joined(tidy_to(t, c), t.subrange(c, m)));
    }
}

/// The parts of a file name: the name is one component, and neither its stem nor
/// its extension holds a separator.
pub proof fn lemma_name_parts(s: Seq<u8>)
    ensures
        match (file_name_of(s), stem_of(s)) {
            (Some(name), Some(stem)) => plain(name) && stem.len() > 0 && !stem.contains(0x2fu8),
            _ => true,
        },
        match extension_of(s) {
            Some(extension) => !extension.contains(0x2fu8),
            None => true,
        },
{
    let n = s.len() as int;
    lemma_bounds(s, n);
    if file_name_of(s) is Some {
        let e = trimmed_end(s, n);
        lemma_bounds(s, e);
        lemma_component_bytes(s, e);
        let name = file_name_of(s)->0;
        assert forall|k: int| 0 <= k < name.len() implies name[k] != 0x2f by {
            assert(name[k] == s[component_start(s, e) + k]);
        }
        lemma_dot(name, name.len() as int);
    }
}

/// The parts of a tidy path: what follows its last separator is its file name.
pub proof fn lemma_tidy_parts(s: Seq<u8>)
    requires
        tidy(s) == s,
        file_name_of(s) is Some,
        parent_of(s) is Some,
        (parent_of(s)->0).len() > 0,
    ensures
        ({
            let folder = parent_of(s)->0;
            let c = name_start(s);
            &&& tidy(folder) == folder
            &&& 0 < c < s.len()
            &&& c <= folder.len() + 1
            &&& s[c - 1] == 0x2f
            &&& forall|k: int| c <= k < s.len() ==> s[k] != 0x2f
            &&& s.skip(c) == file_name_of(s)->0
        }),
{
    let n = s.len() as int;
    let e = trimmed_end(s, n);
    lemma_bounds(s, n);
    lemma_name(s, n);
    let c = name_start(s);
    lemma_tidy_twice(s, c);
    lemma_tidy_append(tidy_to(s, c), s.subrange(c, e));
    lemma_component_bytes(s, e);
}

/// A name below a tidy folder is its file name.
pub proof fn lemma_below(folder: Seq<u8>, name: Seq<u8>)
    requires
        tidy(folder) == folder,
        folder.len() > 0,
        plain(name),
        name != seq![0x2eu8, 0x2eu8],
    ensures
        ({
            let s = joined(folder, name);
            let c = name_start(s);
            &&& tidy(s) == s
            &&& s.len() >= folder.len() + name.len()
            &&& c == s.len() - name.len()
            &&& file_name_of(s) == Some(name)
            &&& parent_of(s) == Some(folder)
            &&& 0 < c < s.len()
            &&& s[c - 1] == 0x2f
            &&& forall|k: int| c <= k < s.len() ==> s[k] != 0x2f
            &&& s.last() == name.last()
        }),
{
    lemma_tidy_append(folder, name);
    let s = joined(folder, name);
    let c = name_start(s);
    lemma_component_bytes(s, s.len() as int);
    assert(s.subrange(c, s.len() as int) =~= s.skip(c));
    assert(name.contains(name[0]));
    assert(s.last() == s.skip(c).last());
}

/// A path that is not empty has a tidy form that is not.
pub proof fn lemma_tidy_length(s: Seq<u8>)
    ensures
        s.len() > 0 ==> tidy(s).len() > 0,
{
    let n = s.len() as int;
    lemma_bounds(s, n);
    if trimmed_end(s, n) > 0 {
        lemma_name(s, n);
    }
}

/// The parent of a name below a folder is that folder.
pub proof fn lemma_parent_of_joined(folder: Seq<u8>, name: Seq<u8>)
    requires
        folder.len() > 0,
        folder.last() != 0x2f,
        folder.last() != 0x2e,
        plain(name),
    ensures
        parent_of(joined(folder, name)) == Some(folder),
{
    let q = joined(folder, name);
    let n = q.len() as int;
    let c = n - name.len();
    assert(name.contains(name[0]));
    assert forall|k: int| c <= k < n implies q[k] == name[k - c] && q[k] != 0x2f by {
        assert(name.contains(name[k - c]));
    }
    if name.len() == 1 && name[0] == 0x2e {
        assert(name =~= seq![0x2eu8]);
    }
    assert(trimmed_end(q, n) == n);
    lemma_last(q, c, n);
    assert(q[c - 2] == folder.last());
    assert(trimmed_end(q, c - 1) == c - 1);
    assert(trimmed_end(q, c) == c - 1);
    assert(q.take(c - 1) =~= folder);
}

/// A file name ends with its extension.
pub proof fn lemma_name_ends(s: Seq<u8>)
    requires
        extension_of(s) is Some,
        (extension_of(s)->0).len() > 0,
    ensures
        (file_name_of(s)->0).last() == (extension_of(s)->0).last(),
        (file_name_of(s)->0).len() > (extension_of(s)->0).len(),
{
    let name = file_name_of(s)->0;
    lemma_dot(name, name.len() as int);
}

/// Another extension leaves the folder, and ends the path.
pub proof fn lemma_extended_shape(s: Seq<u8>, extension: Seq<u8>)
    requires
        stem_of(s) is Some,
        plain(extension),
        0 < name_start(s),
    ensures
        ({
            let c = name_start(s);
            let t = extended(s, extension);
            &&& c < t.len()
            &&& t[c - 1] == s[c - 1]
            &&& forall|k: int| c <= k < t.len() ==> t[k] != 0x2f
            &&& t.last() == extension.last()
        }),
{
    lemma_stem(s);
    let e = trimmed_end(s, s.len() as int);
    let c = name_start(s);
    lemma_component_bytes(s, e);
    let stem = stem_of(s)->0;
    let t = extended(s, extension);
    assert forall|k: int| c <= k < t.len() implies t[k] != 0x2f by {
        if k < c + stem.len() {
            assert(t[k] == s[k]);
        } else if k > c + stem.len() {
            let i = k - c - stem.len() - 1;
            assert(t[k] == extension[i]);
            assert(extension.contains(extension[i]));
        }
    }
}

/// Two paths have the same tidy form exactly if they name the same components.
pub proof fn law_tidy_forms_name_components(a: Seq<u8>, b: Seq<u8>)
    ensures
        tidy(a) == tidy(b) <==> same_path(a, b),
        tidy(tidy(a)) == tidy(a),
{
    lemma_same_tidy(a, a.len() as int, b, b.len() as int);
    lemma_tidy_twice(a, a.len() as int);
}

proof fn lemma_same_tidy(a: Seq<u8>, n: int, b: Seq<u8>, m: int)
    requires
        0 <= n <= a.len(),
        0 <= m <= b.len(),
    ensures
        tidy_to(a, n) == tidy_to(b, m) <==> same_place(a, n, b, m),
    decreases n,
{
    let e = trimmed_end(a, n);
    let f = trimmed_end(b, m);
    lemma_bounds(a, n);
    lemma_bounds(b, m);
    if e > 0 {
        lemma_name(a, n);
        lemma_tidy_twice(a, component_start(a, e));
        lemma_tidy_append(
            tidy_to(a, component_start(a, e)),
            a.subrange(component_start(a, e), e),
        );
    }
    if f > 0 {
        lemma_name(b, m);
        lemma_tidy_twice(b, component_start(b, f));
        lemma_tidy_append(
            tidy_to(b, component_start(b, f)),
            b.subrange(component_start(b, f), f),
        );
    }
    if e > 0 && f > 0 {
        lemma_same_tidy(a, component_start(a, e), b, component_start(b, f));
    } else if e > 0 {
        assert(tidy_to(b, m).len() == 0 || tidy_to(b, m).last() == 0x2f);
        assert(tidy_to(a, n).len() > 0);
    } else if f > 0 {
        assert(tidy_to(a, n).len() == 0 || tidy_to(a, n).last() == 0x2f);
        assert(tidy_to(b, m).len() > 0);
    } else if n > 0 {
        assert(tidy_to(a, n).len() == 1);
    }
}

impl PhotoPath {
    /// Whether two paths name the same components.
    pub fn same_path(&self, other: &PhotoPath) -> (out: bool)
        ensures
            out == same_path(self@, other@),
            out == same_path(self.raw(), other.raw()),
            out == same_path(self@, other.raw()),
            out == (self@ == other@),
    {
        proof {
            use_type_invariant(self);
            use_type_invariant(other);
            law_tidy_forms_name_components(self.raw(), other.raw());
            law_tidy_forms_name_components(self@, other@);
            law_tidy_forms_name_components(self@, other.raw());
            law_tidy_forms_name_components(other.raw(), self.raw());
        }
        same_bytes(&self.bytes, &other.bytes)
    }
}

/// A name without separators is one component.
proof fn lemma_named(s: Seq<u8>, from: int, n: int)
    requires
        0 < from <= n <= s.len(),
        s[from - 1] == 0x2f,
        forall|k: int| from <= k < n ==> s[k] != 0x2f,
    ensures
        component_start(s, n) == from,
    decreases n,
{
    if n > from {
        lemma_named(s, from, n - 1);
    }
}

proof fn lemma_dotted(name: Seq<u8>, dot: int, n: int)
    requires
        0 < dot < n <= name.len(),
        name[dot] == 0x2e,
        forall|k: int| dot < k < n ==> name[k] != 0x2e,
    ensures
        last_dot(name, n) == Some(dot),
    decreases n,
{
    if n > dot + 1 {
        lemma_dotted(name, dot, n - 1);
    }
}

/// The file name of a path in a folder is what follows the folder; its parent is the
/// folder.
pub proof fn law_paths_have_a_folder_and_a_name(folder: Seq<u8>, name: Seq<u8>)
    requires
        folder.len() > 0,
        folder.last() != '/' as u8,
        folder.len() >= 2 ==> !(folder.last() == '.' as u8 && folder[folder.len() - 2] == '/' as u8),
        name.len() > 0,
        forall|k: int| 0 <= k < name.len() ==> #[trigger] name[k] != '/' as u8,
        name != seq!['.' as u8],
        name != seq!['.' as u8, '.' as u8],
    ensures
        joined(folder, name) == folder + seq!['/' as u8] + name,
        file_name_of(folder + seq!['/' as u8] + name) == Some(name),
        parent_of(folder + seq!['/' as u8] + name) == Some(folder),
{
    let s = folder + seq!['/' as u8] + name;
    let n = s.len() as int;
    let from = folder.len() + 1;
    assert(name[0] != 0x2f);
    assert(s[n - 1] == name[name.len() - 1]);
    assert(s[from - 1] == 0x2f);
    if name.len() == 1 && name[0] == 0x2e {
        assert(name =~= seq![0x2eu8]);
    }
    if name.len() >= 2 {
        assert(s[n - 2] == name[name.len() - 2]);
    }
    assert(trimmed_end(s, n) == n);
    assert forall|k: int| from <= k < n implies s[k] != 0x2f by {
        assert(s[k] == name[k - from]);
    }
    lemma_named(s, from as int, n);
    assert(s.subrange(from as int, n) =~= name);
    let m = folder.len() as int;
    assert(s[m - 1] == folder.last());
    if m >= 2 {
        assert(s[m - 2] == folder[m - 2]);
    }
    assert(trimmed_end(s, m) == m);
    assert(trimmed_end(s, m + 1) == m);
    assert(s.take(m) =~= folder);
}

/// A name has its extension behind its last dot, its stem in front of it; and a path
/// can be given another extension.
pub proof fn law_names_have_an_extension(
    folder: Seq<u8>,
    stem: Seq<u8>,
    extension: Seq<u8>,
    other: Seq<u8>,
)
    requires
        folder.len() > 0,
        folder.last() != '/' as u8,
        folder.len() >= 2 ==> !(folder.last() == '.' as u8 && folder[folder.len() - 2] == '/' as u8),
        stem.len() > 0,
        extension.len() > 0,
        other.len() > 0,
        forall|k: int| 0 <= k < stem.len() ==> #[trigger] stem[k] != '/' as u8,
        forall|k: int|
            0 <= k < extension.len() ==> #[trigger] extension[k] != '/' as u8 && extension[k]
                != '.' as u8,
    ensures
        ({
            let s = folder + seq!['/' as u8] + (stem + seq!['.' as u8] + extension);
            &&& extension_of(s) == Some(extension)
            &&& stem_of(s) == Some(stem)
            &&& extended(s, other) == folder + seq!['/' as u8] + (stem + seq!['.' as u8] + other)
        }),
{
    let name = stem + seq!['.' as u8] + extension;
    let s = folder + seq!['/' as u8] + name;
    let dot = stem.len() as int;
    assert(name.last() == extension.last());
    assert(extension.last() == extension[extension.len() - 1]);
    assert(name[name.len() - 1] != 0x2e);
    assert(name != seq!['.' as u8, '.' as u8]) by {
        if name == seq!['.' as u8, '.' as u8] {
            assert(name[name.len() - 1] == 0x2e);
        }
    }
    law_paths_have_a_folder_and_a_name(folder, name);
    assert(name[dot] == 0x2e);
    assert forall|k: int| dot < k < name.len() implies name[k] != 0x2e by {
        assert(name[k] == extension[k - dot - 1]);
    }
    lemma_dotted(name, dot, name.len() as int);
    assert(name.skip(dot + 1) =~= extension);
    assert(name.take(dot) =~= stem);
    let n = s.len() as int;
    let from = folder.len() + 1;
    assert(s[n - 1] == name[name.len() - 1]);
    assert(trimmed_end(s, n) == n);
    assert forall|k: int| from <= k < n implies s[k] != 0x2f by {
        assert(s[k] == name[k - from]);
    }
    lemma_named(s, from as int, n);
    assert(s.take(from + dot) + seq![0x2eu8] + other =~= folder + seq!['/' as u8] + (stem
        + seq!['.' as u8] + other));
}

} // verus!
