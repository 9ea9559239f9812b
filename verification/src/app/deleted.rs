//! Reversible moves into the `_Rejected` folder beside a photograph.
//!
//! A move takes a photograph and its sidecar. The sidecar goes first, and back
//! again if the photograph cannot follow; nothing is ever overwritten. An undo
//! checks that the photograph is still the one that was moved, and takes along
//! the sidecar that it has by then.
//!
//! The program looks at files and renames them; [`Transfer`] says which, and
//! what the answers mean.
use crate::browser::directory;
use crate::browser::directory::is_arw;
use crate::path;
use crate::path::{Identity, PhotoPath};
use crate::text;
use vstd::prelude::*;

verus! {

/// Names that are tried in `_Rejected` before giving up.
pub const MAX_NAMES: usize = 10000;

/// What tells one file from another.
#[derive(Clone, Copy, Debug, PartialEq, Eq, Structural)]
pub struct FileId {
    pub device: u64,
    pub inode: u64,
}

/// What a look at a path showed. Links are not followed.
#[derive(Debug)]
pub enum Seen {
    /// Nothing; the system's words for it.
    Absent(String),
    File(FileId),
    Folder(FileId),
    /// A link or a special file.
    Other,
    /// The look failed.
    Failed(String),
}

/// What a `Seen` says.
pub enum Sight {
    Absent(Seq<char>),
    File(FileId),
    Folder(FileId),
    Other,
    Failed(Seq<char>),
}

impl View for Seen {
    type V = Sight;

    open spec fn view(&self) -> Sight {
        match self {
            Seen::Absent(error) => Sight::Absent(error@),
            Seen::File(id) => Sight::File(*id),
            Seen::Folder(id) => Sight::Folder(*id),
            Seen::Other => Sight::Other,
            Seen::Failed(error) => Sight::Failed(error@),
        }
    }
}

/// What some looks showed.
pub open spec fn sights(seen: Seq<Seen>) -> Seq<Sight> {
    seen.map_values(|s: Seen| s@)
}

/// A sidecar that moves along.
#[derive(Debug)]
pub struct SidecarMove {
    pub source: PhotoPath,
    pub destination: PhotoPath,
    pub identity: FileId,
}

/// A photograph that was moved, and how to move it back.
#[derive(Debug)]
pub struct MoveRecord {
    pub source: PhotoPath,
    pub destination: PhotoPath,
    pub sidecar: Option<SidecarMove>,
    pub identity: FileId,
}

/// Why a move or an undo failed, and where the files are.
#[derive(Debug)]
pub struct MoveError {
    pub message: String,
    /// Where the photograph is, unless it was taken away or replaced.
    pub raw_path: Option<PhotoPath>,
    pub sidecar_path: Option<PhotoPath>,
    /// The files are not arranged as they were.
    pub partial: bool,
}

/// What a `SidecarMove` says.
pub struct Side {
    pub source: Seq<u8>,
    pub destination: Seq<u8>,
    pub identity: FileId,
}

/// What a `MoveRecord` says.
pub struct Pair {
    pub source: Seq<u8>,
    pub destination: Seq<u8>,
    pub sidecar: Option<Side>,
    pub identity: FileId,
}

/// What a `MoveError` says.
pub struct Trouble {
    pub message: Seq<char>,
    pub raw: Option<Seq<u8>>,
    pub sidecar: Option<Seq<u8>>,
    pub partial: bool,
}

impl View for SidecarMove {
    type V = Side;

    open spec fn view(&self) -> Side {
        Side {
            source: self.source.raw(),
            destination: self.destination.raw(),
            identity: self.identity,
        }
    }
}

/// What an optional sidecar says.
pub open spec fn side(sidecar: Option<SidecarMove>) -> Option<Side> {
    match sidecar {
        Some(s) => Some(s@),
        None => None,
    }
}

/// What an optional path says.
pub open spec fn place(at: Option<PhotoPath>) -> Option<Seq<u8>> {
    match at {
        Some(p) => Some(p@),
        None => None,
    }
}

impl View for MoveRecord {
    type V = Pair;

    open spec fn view(&self) -> Pair {
        Pair {
            source: self.source.raw(),
            destination: self.destination.raw(),
            sidecar: side(self.sidecar),
            identity: self.identity,
        }
    }
}

impl View for MoveError {
    type V = Trouble;

    open spec fn view(&self) -> Trouble {
        Trouble {
            message: self.message@,
            raw: path::written(self.raw_path),
            sidecar: path::written(self.sidecar_path),
            partial: self.partial,
        }
    }
}

impl Trouble {
    /// The sentence shown to a user.
    pub open spec fn text(self) -> Seq<char> {
        if !self.partial {
            self.message
        } else {
            self.message + "; RAW location: "@ + match self.raw {
                Some(p) => text::lossy_text(p),
                None => "unknown (file changed externally)"@,
            } + match self.sidecar {
                Some(p) => "; XMP location: "@ + text::lossy_text(p),
                None => Seq::empty(),
            }
        }
    }
}

impl MoveError {
    /// The sentence shown to a user.
    pub fn message(&self) -> (out: String)
        ensures
            out@ == self@.text(),
    {
        let mut out = self.message.as_str().to_owned();
        if self.partial {
            out = out.concat("; RAW location: ");
            match &self.raw_path {
                Some(p) => {
                    out = out.concat(p.display().as_str());
                },
                None => {
                    out = out.concat("unknown (file changed externally)");
                },
            }
            match &self.sidecar_path {
                Some(p) => {
                    let place = "; XMP location: ".to_owned().concat(p.display().as_str());
                    out = out.concat(place.as_str());
                },
                None => {},
            }
        }
        assert(out@ =~= self@.text());
        out
    }
}

impl MoveRecord {
    /// The same record again.
    pub fn copied(&self) -> (out: Self)
        ensures
            out@ == self@,
    {
        MoveRecord {
            source: self.source.copied(),
            destination: self.destination.copied(),
            sidecar: match &self.sidecar {
                Some(s) => Some(
                    SidecarMove {
                        source: s.source.copied(),
                        destination: s.destination.copied(),
                        identity: s.identity,
                    },
                ),
                None => None,
            },
            identity: self.identity,
        }
    }
}

/// The folder beside the photographs that takes the rejected ones.
pub open spec fn rejected_folder() -> Seq<u8> {
    vstd::utf8::encode_utf8("_Rejected"@)
}

pub open spec fn lower_xmp() -> Seq<u8> {
    vstd::utf8::encode_utf8("xmp"@)
}

pub open spec fn upper_xmp() -> Seq<u8> {
    vstd::utf8::encode_utf8("XMP"@)
}

/// Whether a path is that of a folder of rejected photographs.
pub open spec fn rejected(p: Seq<u8>) -> bool {
    match path::file_name_of(p) {
        Some(name) => path::same_but_case(name, rejected_folder()),
        None => false,
    }
}

/// Whether a path is that of a folder of rejected photographs.
pub fn is_rejected_folder(p: &PhotoPath) -> (out: bool)
    ensures
        out == rejected(p.raw()),
{
    match p.file_name() {
        Some(name) => path::same_ignoring_case(&name, "_Rejected".as_bytes()),
        None => false,
    }
}

/// A sentence about a path.
pub open spec fn about(p: Seq<u8>, words: Seq<char>) -> Seq<char> {
    text::lossy_text(p) + words
}

fn say(p: &PhotoPath, words: &str) -> (out: String)
    ensures
        out@ == about(p.raw(), words@),
{
    p.display().concat(words)
}

/// The identity of what should be an ordinary file.
pub open spec fn file_seen(p: Seq<u8>, s: Sight) -> Result<FileId, Seq<char>> {
    match s {
        Sight::File(id) => Ok(id),
        Sight::Absent(error) => Err(error),
        Sight::Failed(error) => Err(error),
        _ => Err(about(p, " must be a regular file, not a symlink or directory"@)),
    }
}

/// The identity of what should be a folder.
pub open spec fn folder_seen(p: Seq<u8>, s: Sight) -> Result<FileId, Seq<char>> {
    match s {
        Sight::Folder(id) => Ok(id),
        Sight::Absent(error) => Err(error),
        Sight::Failed(error) => Err(error),
        _ => Err(about(p, " must be a directory, not a symlink"@)),
    }
}

/// Why a path does not hold the file that it held.
pub open spec fn change(p: Seq<u8>, s: Sight, identity: FileId) -> Option<Seq<char>> {
    match file_seen(p, s) {
        Err(error) => Some(error),
        Ok(id) => if id != identity {
            Some(about(p, " changed since this operation was prepared"@))
        } else {
            None
        },
    }
}

/// Why a path cannot be taken, and whether that is because it is taken.
pub open spec fn occupied(p: Seq<u8>, s: Sight) -> Option<(bool, Seq<char>)> {
    match s {
        Sight::Absent(_) => None,
        Sight::Failed(error) => Some((false, error)),
        _ => Some((true, about(p, " already exists; nothing will be overwritten"@))),
    }
}

/// Why a photograph and its sidecar cannot be put at a path.
pub open spec fn pair_occupied(p: Seq<u8>, raw: Sight, lower: Sight, upper: Sight) -> Option<
    (bool, Seq<char>),
> {
    if occupied(p, raw) is Some {
        occupied(p, raw)
    } else if occupied(path::extended(p, lower_xmp()), lower) is Some {
        occupied(path::extended(p, lower_xmp()), lower)
    } else {
        occupied(path::extended(p, upper_xmp()), upper)
    }
}

/// One of the two names that a sidecar can have.
pub open spec fn sidecar_seen(p: Seq<u8>, s: Sight) -> Result<Option<FileId>, Seq<char>> {
    match s {
        Sight::Absent(_) => Ok(None),
        Sight::Failed(error) => Err(error),
        Sight::File(id) => Ok(Some(id)),
        _ => Err(about(p, " must be a regular sidecar, not a symlink or directory"@)),
    }
}

/// The sidecar of a photograph. Both names may be those of one file.
pub open spec fn sidecar_of(raw: Seq<u8>, lower: Sight, upper: Sight) -> Result<
    Option<(Seq<u8>, FileId)>,
    Seq<char>,
> {
    let small = path::extended(raw, lower_xmp());
    let large = path::extended(raw, upper_xmp());
    match (sidecar_seen(small, lower), sidecar_seen(large, upper)) {
        (Err(error), _) => Err(error),
        (_, Err(error)) => Err(error),
        (Ok(Some(a)), Ok(Some(b))) => if a != b {
            Err("Both .xmp and .XMP sidecars exist; move is ambiguous"@)
        } else {
            Ok(Some((small, a)))
        },
        (Ok(Some(a)), Ok(None)) => Ok(Some((small, a))),
        (Ok(None), Ok(Some(b))) => Ok(Some((large, b))),
        (Ok(None), Ok(None)) => Ok(None),
    }
}

fn regular_file(p: &PhotoPath, s: &Seen) -> (out: Result<FileId, String>)
    ensures
        text::same(out, file_seen(p.raw(), s@)),
{
    match s {
        Seen::File(id) => Ok(*id),
        Seen::Absent(error) => Err(error.as_str().to_owned()),
        Seen::Failed(error) => Err(error.as_str().to_owned()),
        _ => Err(say(p, " must be a regular file, not a symlink or directory")),
    }
}

fn folder(p: &PhotoPath, s: &Seen) -> (out: Result<FileId, String>)
    ensures
        text::same(out, folder_seen(p.raw(), s@)),
{
    match s {
        Seen::Folder(id) => Ok(*id),
        Seen::Absent(error) => Err(error.as_str().to_owned()),
        Seen::Failed(error) => Err(error.as_str().to_owned()),
        _ => Err(say(p, " must be a directory, not a symlink")),
    }
}

fn unchanged_file(p: &PhotoPath, s: &Seen, identity: FileId) -> (out: Option<String>)
    ensures
        text::same_option(out, change(p.raw(), s@, identity)),
{
    match regular_file(p, s) {
        Err(error) => Some(error),
        Ok(id) => if id != identity {
            Some(say(p, " changed since this operation was prepared"))
        } else {
            None
        },
    }
}

fn taken(p: &PhotoPath, s: &Seen) -> (out: Option<(bool, String)>)
    ensures
        match occupied(p.raw(), s@) {
            Some((exists, reason)) => out is Some && (out->0).0 == exists && (out->0).1@ == reason,
            None => out is None,
        },
{
    match s {
        Seen::Absent(_) => None,
        Seen::Failed(error) => Some((false, error.as_str().to_owned())),
        _ => Some((true, say(p, " already exists; nothing will be overwritten"))),
    }
}

fn pair_taken(p: &PhotoPath, raw: &Seen, lower: &Seen, upper: &Seen) -> (out: Option<
    (bool, String),
>)
    ensures
        match pair_occupied(p.raw(), raw@, lower@, upper@) {
            Some((exists, reason)) => out is Some && (out->0).0 == exists && (out->0).1@ == reason,
            None => out is None,
        },
{
    proof {
        lemma_plain_words();
    }
    match taken(p, raw) {
        Some(reason) => {
            return Some(reason);
        },
        None => {},
    }
    match taken(&p.with_extension("xmp".as_bytes()), lower) {
        Some(reason) => {
            return Some(reason);
        },
        None => {},
    }
    taken(&p.with_extension("XMP".as_bytes()), upper)
}

fn sidecar_file(p: &PhotoPath, s: &Seen) -> (out: Result<Option<FileId>, String>)
    ensures
        text::same(out, sidecar_seen(p.raw(), s@)),
{
    match s {
        Seen::Absent(_) => Ok(None),
        Seen::Failed(error) => Err(error.as_str().to_owned()),
        Seen::File(id) => Ok(Some(*id)),
        _ => Err(say(p, " must be a regular sidecar, not a symlink or directory")),
    }
}

fn matching_sidecar(raw: &PhotoPath, lower: &Seen, upper: &Seen) -> (out: Result<
    Option<(PhotoPath, FileId)>,
    String,
>)
    ensures
        match sidecar_of(raw.raw(), lower@, upper@) {
            Err(error) => out is Err && out->Err_0@ == error,
            Ok(None) => out is Ok && out->Ok_0 is None,
            Ok(Some((at, id))) => out is Ok && out->Ok_0 is Some && (out->Ok_0->0).0.raw() == at && (
            out->Ok_0->0).1 == id,
        },
{
    proof {
        lemma_plain_words();
    }
    let small = raw.with_extension("xmp".as_bytes());
    let large = raw.with_extension("XMP".as_bytes());
    let a = match sidecar_file(&small, lower) {
        Ok(a) => a,
        Err(error) => {
            return Err(error);
        },
    };
    let b = match sidecar_file(&large, upper) {
        Ok(b) => b,
        Err(error) => {
            return Err(error);
        },
    };
    match (a, b) {
        (Some(a), Some(b)) => if a != b {
            Err("Both .xmp and .XMP sidecars exist; move is ambiguous".to_owned())
        } else {
            Ok(Some((small, a)))
        },
        (Some(a), None) => Ok(Some((small, a))),
        (None, Some(b)) => Ok(Some((large, b))),
        (None, None) => Ok(None),
    }
}

/// Whether two optional paths are the same path.
pub open spec fn same_spot(a: Option<Seq<u8>>, b: Option<Seq<u8>>) -> bool {
    match (a, b) {
        (Some(a), Some(b)) => path::tidy(a) == path::tidy(b),
        (None, None) => true,
        _ => false,
    }
}

/// Where a file with some identity is, of two places.
pub open spec fn found_at(identity: FileId, first: Seq<u8>, a: Sight, second: Seq<u8>, b: Sight) -> Option<
    Seq<u8>,
> {
    if a == Sight::File(identity) {
        Some(first)
    } else if b == Sight::File(identity) {
        Some(second)
    } else {
        None
    }
}

fn is_file(s: &Seen, identity: FileId) -> (out: bool)
    ensures
        out == (s@ == Sight::File(identity)),
{
    match s {
        Seen::File(id) => *id == identity,
        _ => false,
    }
}

fn locate(identity: FileId, first: &PhotoPath, a: &Seen, second: &PhotoPath, b: &Seen) -> (out:
    Option<PhotoPath>)
    ensures
        path::written(out) == found_at(identity, first.raw(), a@, second.raw(), b@),
{
    if is_file(a, identity) {
        Some(first.copied())
    } else if is_file(b, identity) {
        Some(second.copied())
    } else {
        None
    }
}

/// The words that names are made of hold no separator.
pub(crate) proof fn lemma_plain_words()
    ensures
        path::plain(rejected_folder()),
        path::plain(lower_xmp()),
        path::plain(upper_xmp()),
{
    reveal_strlit("_Rejected");
    reveal_strlit("xmp");
    reveal_strlit("XMP");
    lemma_plain_text("_Rejected"@);
    lemma_plain_text("xmp"@);
    lemma_plain_text("XMP"@);
}

/// The bytes of an ASCII text without separators hold none.
proof fn lemma_plain_text(t: Seq<char>)
    requires
        vstd::utf8::is_ascii_chars(t),
        forall|i: int| 0 <= i < t.len() ==> #[trigger] t[i] != '/',
    ensures
        vstd::utf8::encode_utf8(t).len() == t.len(),
        !vstd::utf8::encode_utf8(t).contains(0x2fu8),
{
    vstd::utf8::is_ascii_chars_encode_utf8(t);
    let bytes = vstd::utf8::encode_utf8(t);
    assert forall|i: int| 0 <= i < bytes.len() implies bytes[i] != 0x2f by {
        assert(t[i] as u8 == bytes[i]);
    }
}

proof fn lemma_digits(n: int)
    requires
        n >= 0,
    ensures
        vstd::utf8::is_ascii_chars(text::decimal(n)),
        forall|i: int| 0 <= i < text::decimal(n).len() ==> #[trigger] text::decimal(n)[i] != '/',
    decreases n,
{
    if n >= 10 {
        lemma_digits(n / 10);
        assert(text::decimal(n) == text::decimal(n / 10).push(text::digit(n % 10)));
    }
}

/// The name of every attempt is one component.
pub(crate) proof fn lemma_plain_candidate(raw: Seq<u8>, attempt: int)
    requires
        attempt >= 0,
        path::file_name_of(raw) is Some,
        path::extension_of(raw) is Some,
    ensures
        path::plain(path::file_name_of(raw)->0),
        path::plain(
            path::stem_of(raw)->0 + vstd::utf8::encode_utf8(
                "-"@ + text::decimal(attempt + 1) + "."@,
            ) + path::extension_of(raw)->0,
        ),
{
    path::lemma_name_parts(raw);
    lemma_digits(attempt + 1);
    reveal_strlit("-");
    reveal_strlit(".");
    let middle = "-"@ + text::decimal(attempt + 1) + "."@;
    lemma_plain_text(middle);
    let stem = path::stem_of(raw)->0;
    let extension = path::extension_of(raw)->0;
    let number = vstd::utf8::encode_utf8(middle);
    let name = stem + number + extension;
    assert forall|i: int| 0 <= i < name.len() implies name[i] != 0x2f by {
        if i < stem.len() {
            assert(stem.contains(stem[i]));
        } else if i < stem.len() + number.len() {
            assert(number.contains(number[i - stem.len()]));
        } else {
            assert(extension.contains(extension[i - stem.len() - number.len()]));
        }
    }
    assert(name.len() >= 2);
}

/// The name that a rejected photograph gets at some attempt.
pub open spec fn candidate(raw: Seq<u8>, folder: Seq<u8>, attempt: int) -> Option<Seq<u8>> {
    match (path::file_name_of(raw), path::stem_of(raw), path::extension_of(raw)) {
        (Some(name), Some(stem), Some(extension)) => Some(
            path::joined(
                folder,
                if attempt == 0 {
                    name
                } else {
                    stem + vstd::utf8::encode_utf8("-"@ + text::decimal(attempt + 1) + "."@)
                        + extension
                },
            ),
        ),
        _ => None,
    }
}

/// The name that a rejected photograph gets at some attempt. A photograph has a
/// name, a stem and an extension.
fn candidate_name(raw: &PhotoPath, folder: &PhotoPath, attempt: usize) -> (out: Option<PhotoPath>)
    requires
        attempt < MAX_NAMES,
    ensures
        path::written(out) == candidate(raw.raw(), folder.raw(), attempt as int),
{
    match (raw.file_name(), raw.file_stem(), raw.extension()) {
        (Some(name), Some(stem), Some(extension)) => {
            proof {
                lemma_plain_candidate(raw.raw(), attempt as int);
            }
            if attempt == 0 {
                return Some(folder.join(&name));
            }
            let number = "-".to_owned().concat(text::number(attempt as u64 + 1).as_str());
            let number = number.concat(".");
            let mut name = stem;
            path::append_bytes(&mut name, number.as_str().as_bytes());
            path::append_bytes(&mut name, &extension);
            Some(folder.join(&name))
        },
        _ => None,
    }
}

/// What an operation waits for.
#[derive(Debug)]
pub enum Stage {
    /// A look at the photograph, its folder and its sidecar.
    Prepare,
    /// The folder of rejected photographs.
    MakeFolder,
    /// A look at that folder.
    LookFolder,
    /// A look at the name of some attempt.
    Name(usize),
    /// A look at a rejected photograph and its sidecar.
    Snapshot,
    /// A look at everything that a move touches.
    Check,
    CheckSidecar,
    MoveSidecar,
    CheckRaw,
    MoveRaw,
    /// A look before the sidecar goes back, and why it does.
    CheckBack(String),
    MoveBack(String),
    /// A look at what was moved.
    Verify,
    /// A look at what was not moved, and why not.
    Report(String),
    /// A look at where the files are, and why.
    Locate(String),
    /// Nothing: the operation ended.
    Done(Option<MoveError>),
}

/// What a `Stage` says.
pub enum Step {
    Prepare,
    MakeFolder,
    LookFolder,
    Name(usize),
    Snapshot,
    Check,
    CheckSidecar,
    MoveSidecar,
    CheckRaw,
    MoveRaw,
    CheckBack(Seq<char>),
    MoveBack(Seq<char>),
    Verify,
    Report(Seq<char>),
    Locate(Seq<char>),
    Done(Option<Trouble>),
}

impl View for Stage {
    type V = Step;

    open spec fn view(&self) -> Step {
        match self {
            Stage::Prepare => Step::Prepare,
            Stage::MakeFolder => Step::MakeFolder,
            Stage::LookFolder => Step::LookFolder,
            Stage::Name(attempt) => Step::Name(*attempt),
            Stage::Snapshot => Step::Snapshot,
            Stage::Check => Step::Check,
            Stage::CheckSidecar => Step::CheckSidecar,
            Stage::MoveSidecar => Step::MoveSidecar,
            Stage::CheckRaw => Step::CheckRaw,
            Stage::MoveRaw => Step::MoveRaw,
            Stage::CheckBack(reason) => Step::CheckBack(reason@),
            Stage::MoveBack(reason) => Step::MoveBack(reason@),
            Stage::Verify => Step::Verify,
            Stage::Report(reason) => Step::Report(reason@),
            Stage::Locate(reason) => Step::Locate(reason@),
            Stage::Done(None) => Step::Done(None),
            Stage::Done(Some(error)) => Step::Done(Some(error@)),
        }
    }
}

/// A move into `_Rejected`, or back.
#[derive(Debug)]
pub struct Transfer {
    pub stage: Stage,
    pub restoring: bool,
    pub record: MoveRecord,
    /// The folder that the photograph comes from, and the one that it goes to.
    pub parents: (FileId, FileId),
}

/// What a `Transfer` says.
pub struct Op {
    pub step: Step,
    pub restoring: bool,
    pub pair: Pair,
    pub parents: (FileId, FileId),
}

impl View for Transfer {
    type V = Op;

    open spec fn view(&self) -> Op {
        Op {
            step: self.stage@,
            restoring: self.restoring,
            pair: self.record@,
            parents: self.parents,
        }
    }
}

/// What the program is to do for an operation.
#[derive(Debug)]
pub enum Request {
    /// Look at paths.
    Inspect(Vec<PhotoPath>),
    CreateFolder(PhotoPath),
    /// Rename a file, but onto nothing.
    Rename(PhotoPath, PhotoPath),
    /// Take the outcome.
    Finish,
}

/// What a `Request` says.
pub enum Want {
    Inspect(Seq<Seq<u8>>),
    CreateFolder(Seq<u8>),
    Rename(Seq<u8>, Seq<u8>),
    Finish,
}

impl View for Request {
    type V = Want;

    open spec fn view(&self) -> Want {
        match self {
            Request::Inspect(paths) => Want::Inspect(path::spellings(paths@)),
            Request::CreateFolder(p) => Want::CreateFolder(p.raw()),
            Request::Rename(from, to) => Want::Rename(from.raw(), to.raw()),
            Request::Finish => Want::Finish,
        }
    }
}

/// What the program found out for an operation.
#[derive(Debug)]
pub enum Reply {
    Inspected(Vec<Seen>),
    /// Whether the folder could be made; if not, whether it was there, and the
    /// system's words.
    Created(Option<(bool, String)>),
    /// Whether the file was renamed; if not, the system's words.
    Renamed(Option<String>),
}

/// What a `Reply` says.
pub enum News {
    Inspected(Seq<Sight>),
    Created(Option<(bool, Seq<char>)>),
    Renamed(Option<Seq<char>>),
}

impl View for Reply {
    type V = News;

    open spec fn view(&self) -> News {
        match self {
            Reply::Inspected(seen) => News::Inspected(sights(seen@)),
            Reply::Created(None) => News::Created(None),
            Reply::Created(Some((exists, error))) => News::Created(Some((*exists, error@))),
            Reply::Renamed(None) => News::Renamed(None),
            Reply::Renamed(Some(error)) => News::Renamed(Some(error@)),
        }
    }
}

impl Pair {
    /// Where the photograph comes from.
    pub open spec fn from(self, restoring: bool) -> Seq<u8> {
        if restoring {
            self.destination
        } else {
            self.source
        }
    }

    /// Where the photograph goes.
    pub open spec fn to(self, restoring: bool) -> Seq<u8> {
        if restoring {
            self.source
        } else {
            self.destination
        }
    }
}

impl Side {
    pub open spec fn from(self, restoring: bool) -> Seq<u8> {
        if restoring {
            self.destination
        } else {
            self.source
        }
    }

    pub open spec fn to(self, restoring: bool) -> Seq<u8> {
        if restoring {
            self.source
        } else {
            self.destination
        }
    }
}

/// The folder of a path, or nothing.
pub open spec fn folder_of(p: Seq<u8>) -> Seq<u8> {
    match path::parent_of(p) {
        Some(parent) => parent,
        None => Seq::empty(),
    }
}

/// The folder of rejected photographs beside a photograph.
pub open spec fn rejects_of(raw: Seq<u8>) -> Seq<u8> {
    path::joined(folder_of(raw), rejected_folder())
}

/// A path and its two sidecar names.
pub open spec fn trio(p: Seq<u8>) -> Seq<Seq<u8>> {
    seq![p, path::extended(p, lower_xmp()), path::extended(p, upper_xmp())]
}

/// A path, or nothing.
pub open spec fn or_nothing(p: Option<Seq<u8>>) -> Seq<u8> {
    match p {
        Some(p) => p,
        None => Seq::empty(),
    }
}

impl Op {
    pub open spec fn from(self) -> Seq<u8> {
        self.pair.from(self.restoring)
    }

    pub open spec fn to(self) -> Seq<u8> {
        self.pair.to(self.restoring)
    }

    pub open spec fn side_from(self) -> Seq<u8> {
        match self.pair.sidecar {
            Some(s) => s.from(self.restoring),
            None => Seq::empty(),
        }
    }

    pub open spec fn side_to(self) -> Seq<u8> {
        match self.pair.sidecar {
            Some(s) => s.to(self.restoring),
            None => Seq::empty(),
        }
    }

    /// Both folders and one file.
    pub open spec fn guards(self, file: Seq<u8>) -> Seq<Seq<u8>> {
        seq![folder_of(self.from()), folder_of(self.to()), file]
    }

    /// What the program is to do next. Looks come before every rename; the
    /// sidecar goes first.
    pub open spec fn wanted(self) -> Want {
        match self.step {
            Step::Prepare => Want::Inspect(trio(self.pair.source).push(folder_of(self.pair.source))),
            Step::MakeFolder => Want::CreateFolder(rejects_of(self.pair.source)),
            Step::LookFolder => Want::Inspect(seq![rejects_of(self.pair.source)]),
            Step::Name(attempt) => Want::Inspect(
                trio(
                    or_nothing(
                        candidate(
                            self.pair.source,
                            rejects_of(self.pair.source),
                            attempt as int,
                        ),
                    ),
                ),
            ),
            Step::Snapshot => Want::Inspect(trio(self.pair.destination)),
            Step::Check => Want::Inspect(
                trio(self.from()) + trio(self.to()) + self.guards(self.side_from()),
            ),
            Step::CheckSidecar => Want::Inspect(self.guards(self.side_from())),
            Step::MoveSidecar => Want::Rename(self.side_from(), self.side_to()),
            Step::CheckRaw => Want::Inspect(self.guards(self.from())),
            Step::MoveRaw => Want::Rename(self.from(), self.to()),
            Step::CheckBack(_) => Want::Inspect(self.guards(self.side_to())),
            Step::MoveBack(_) => Want::Rename(self.side_to(), self.side_from()),
            Step::Verify => Want::Inspect(seq![self.to(), self.side_to()]),
            Step::Report(_) => Want::Inspect(trio(self.pair.source)),
            Step::Locate(_) => Want::Inspect(
                seq![
                    self.pair.source,
                    self.pair.destination,
                    match self.pair.sidecar {
                        Some(s) => s.source,
                        None => Seq::empty(),
                    },
                    match self.pair.sidecar {
                        Some(s) => s.destination,
                        None => Seq::empty(),
                    },
                ],
            ),
            Step::Done(_) => Want::Finish,
        }
    }

    pub open spec fn at(self, step: Step) -> Op {
        Op { step, ..self }
    }

    /// The move of a photograph is prepared: it is an ARW file in a folder of
    /// its own that is not itself one of rejected photographs.
    pub open spec fn prepared(self, raw: Sight, lower: Sight, upper: Sight, parent: Sight) -> Result<
        Op,
        Seq<char>,
    > {
        let source = self.pair.source;
        if !directory::arw(source) {
            Err("Only an ARW photograph can be moved to _Rejected"@)
        } else {
            match file_seen(source, raw) {
                Err(error) => Err(error),
                Ok(identity) => if folder_of(source).len() == 0 {
                    Err("photo needs a parent directory"@)
                } else if rejected(folder_of(source)) {
                    Err("This photograph is already in _Rejected; use Undo to restore it"@)
                } else {
                    match folder_seen(folder_of(source), parent) {
                        Err(error) => Err(error),
                        Ok(home) => match sidecar_of(source, lower, upper) {
                            Err(error) => Err(error),
                            Ok(found) => Ok(
                                Op {
                                    step: Step::MakeFolder,
                                    pair: Pair {
                                        identity,
                                        sidecar: match found {
                                            Some((at, id)) => Some(
                                                Side {
                                                    source: at,
                                                    destination: Seq::empty(),
                                                    identity: id,
                                                },
                                            ),
                                            None => None,
                                        },
                                        ..self.pair
                                    },
                                    parents: (home, home),
                                    ..self
                                },
                            ),
                        },
                    }
                },
            }
        }
    }

    /// A name in `_Rejected` is free for the photograph and its sidecar.
    pub open spec fn named(self, destination: Seq<u8>) -> Op {
        Op {
            step: Step::Check,
            pair: Pair {
                destination,
                sidecar: match self.pair.sidecar {
                    Some(s) => Some(
                        Side { destination: path::extended(destination, lower_xmp()), ..s },
                    ),
                    None => None,
                },
                ..self.pair
            },
            ..self
        }
    }

    /// A name in `_Rejected` was tried.
    pub open spec fn tried(self, attempt: usize, raw: Sight, lower: Sight, upper: Sight) -> Op {
        match candidate(self.pair.source, rejects_of(self.pair.source), attempt as int) {
            None => self.at(Step::Report("photo has no filename"@)),
            Some(p) => match pair_occupied(p, raw, lower, upper) {
                None => self.named(p),
                Some((exists, error)) => if !exists {
                    self.at(Step::Report(error))
                } else if attempt + 1 < MAX_NAMES {
                    self.at(Step::Name((attempt + 1) as usize))
                } else {
                    self.at(
                        Step::Report(
                            "No unused RAW/XMP filename pair is available in _Rejected"@,
                        ),
                    )
                },
            },
        }
    }

    /// The undo of a move takes along the sidecar that the photograph has.
    pub open spec fn snapshot(self, raw: Sight, lower: Sight, upper: Sight) -> Op {
        let at = self.pair.destination;
        match change(at, raw, self.pair.identity) {
            Some(error) => self.at(Step::Locate(error)),
            None => match sidecar_of(at, lower, upper) {
                Err(error) => self.at(Step::Locate(error)),
                Ok(None) => if self.pair.sidecar is Some {
                    self.at(
                        Step::Locate(
                            "The moved photo's XMP is missing; restore was left untouched"@,
                        ),
                    )
                } else {
                    self.at(Step::Check)
                },
                Ok(Some((destination, identity))) => Op {
                    step: Step::Check,
                    pair: Pair {
                        sidecar: Some(
                            Side {
                                source: match self.pair.sidecar {
                                    Some(s) => s.source,
                                    None => path::extended(self.pair.source, lower_xmp()),
                                },
                                destination,
                                identity,
                            },
                        ),
                        ..self.pair
                    },
                    ..self
                },
            },
        }
    }

    /// Why a move cannot begin, or its two folders.
    pub open spec fn checked(self, seen: Seq<Sight>) -> Result<(FileId, FileId), Seq<char>> {
        let carried = match self.pair.sidecar {
            Some(s) => Some(s.identity),
            None => None,
        };
        if change(self.from(), seen[0], self.pair.identity) is Some {
            Err(change(self.from(), seen[0], self.pair.identity)->0)
        } else if path::parent_of(self.from()) is None {
            Err("source parent is missing"@)
        } else if path::parent_of(self.to()) is None {
            Err("destination parent is missing"@)
        } else {
            match (
                folder_seen(folder_of(self.from()), seen[6]),
                folder_seen(folder_of(self.to()), seen[7]),
            ) {
                (Err(error), _) => Err(error),
                (_, Err(error)) => Err(error),
                (Ok(here), Ok(there)) => if here.device != there.device {
                    Err("Source and destination must be on the same filesystem"@)
                } else if pair_occupied(self.to(), seen[3], seen[4], seen[5]) is Some {
                    Err((pair_occupied(self.to(), seen[3], seen[4], seen[5])->0).1)
                } else if carried is Some && change(self.side_from(), seen[8], carried->0) is Some {
                    Err(change(self.side_from(), seen[8], carried->0)->0)
                } else {
                    match sidecar_of(self.from(), seen[1], seen[2]) {
                        Err(error) => Err(error),
                        Ok(found) => if carried != (match found {
                            Some((_, id)) => Some(id),
                            None => None,
                        }) {
                            Err(
                                "The matching XMP sidecar changed since this operation was prepared"@,
                            )
                        } else {
                            Ok((here, there))
                        },
                    }
                },
            }
        }
    }

    /// Why a rename cannot be made now: a folder or the file is another one.
    pub open spec fn disturbed(self, seen: Seq<Sight>, file: Seq<u8>, identity: FileId) -> Option<
        Seq<char>,
    > {
        match (
            folder_seen(folder_of(self.from()), seen[0]),
            folder_seen(folder_of(self.to()), seen[1]),
        ) {
            (Err(error), _) => Some(error),
            (Ok(here), there) => if here != self.parents.0 {
                Some("A photo directory changed while moving files"@)
            } else {
                match there {
                    Err(error) => Some(error),
                    Ok(there) => if there != self.parents.1 {
                        Some("A photo directory changed while moving files"@)
                    } else {
                        change(file, seen[2], identity)
                    },
                }
            },
        }
    }

    /// The photograph could not be moved: its sidecar goes back.
    pub open spec fn stuck(self, error: Seq<char>) -> Op {
        let reason = "Could not move RAW: "@ + error;
        self.at(
            match self.pair.sidecar {
                Some(_) => Step::CheckBack(reason),
                None => Step::Locate(reason),
            },
        )
    }

    /// Why the files are not where they were moved to.
    pub open spec fn astray(self, seen: Seq<Sight>) -> Option<Seq<char>> {
        match change(self.to(), seen[0], self.pair.identity) {
            Some(error) => Some("Files changed after the move: "@ + error),
            None => match self.pair.sidecar {
                None => None,
                Some(s) => match change(self.side_to(), seen[1], s.identity) {
                    Some(error) => Some("Files changed after the move: "@ + error),
                    None => None,
                },
            },
        }
    }

    /// Where the files are once an operation failed. It is partial if one is not
    /// where it was before.
    pub open spec fn located(self, message: Seq<char>, seen: Seq<Sight>) -> Trouble {
        let raw = found_at(
            self.pair.identity,
            self.pair.source,
            seen[0],
            self.pair.destination,
            seen[1],
        );
        let sidecar = match self.pair.sidecar {
            Some(s) => found_at(s.identity, s.source, seen[2], s.destination, seen[3]),
            None => None,
        };
        let home = match self.pair.sidecar {
            Some(s) => Some(s.from(self.restoring)),
            None => None,
        };
        Trouble {
            message,
            raw,
            sidecar,
            partial: !same_spot(raw, Some(self.from())) || !same_spot(sidecar, home),
        }
    }

    /// A move that never began leaves everything as it is.
    pub open spec fn reported(self, message: Seq<char>, seen: Seq<Sight>) -> Trouble {
        Trouble {
            message,
            raw: if file_seen(self.pair.source, seen[0]) is Ok {
                Some(self.pair.source)
            } else {
                None
            },
            sidecar: match sidecar_of(self.pair.source, seen[1], seen[2]) {
                Ok(Some((at, _))) => Some(at),
                _ => None,
            },
            partial: false,
        }
    }

    /// What the paths showed that were asked for.
    pub open spec fn looked(self, seen: Seq<Sight>) -> Op {
        match self.step {
            Step::Prepare => match self.prepared(seen[0], seen[1], seen[2], seen[3]) {
                Ok(next) => next,
                Err(error) => self.at(Step::Report(error)),
            },
            Step::LookFolder => match folder_seen(rejects_of(self.pair.source), seen[0]) {
                Err(error) => self.at(Step::Report(error)),
                Ok(id) => if id.device != self.parents.0.device {
                    self.at(
                        Step::Report(
                            "_Rejected must be on the same filesystem as its photographs"@,
                        ),
                    )
                } else {
                    self.at(Step::Name(0))
                },
            },
            Step::Name(attempt) => self.tried(attempt, seen[0], seen[1], seen[2]),
            Step::Snapshot => self.snapshot(seen[0], seen[1], seen[2]),
            Step::Check => match self.checked(seen) {
                Err(error) => self.at(Step::Locate(error)),
                Ok(parents) => Op {
                    step: if self.pair.sidecar is Some {
                        Step::CheckSidecar
                    } else {
                        Step::CheckRaw
                    },
                    parents,
                    ..self
                },
            },
            Step::CheckSidecar => match self.pair.sidecar {
                None => self,
                Some(s) => match self.disturbed(seen, self.side_from(), s.identity) {
                    Some(error) => self.at(Step::Locate("Could not move XMP: "@ + error)),
                    None => self.at(Step::MoveSidecar),
                },
            },
            Step::CheckRaw => match self.disturbed(seen, self.from(), self.pair.identity) {
                Some(error) => self.stuck(error),
                None => self.at(Step::MoveRaw),
            },
            Step::CheckBack(reason) => match self.pair.sidecar {
                None => self,
                Some(s) => match self.disturbed(seen, self.side_to(), s.identity) {
                    Some(error) => self.at(
                        Step::Locate(reason + "; XMP rollback also failed: "@ + error),
                    ),
                    None => self.at(Step::MoveBack(reason)),
                },
            },
            Step::Verify => match self.astray(seen) {
                Some(error) => self.at(Step::Locate(error)),
                None => self.at(Step::Done(None)),
            },
            Step::Report(message) => self.at(Step::Done(Some(self.reported(message, seen)))),
            Step::Locate(message) => self.at(Step::Done(Some(self.located(message, seen)))),
            _ => self,
        }
    }

    /// What became of a request. A reply that does not fit it is ignored.
    pub open spec fn answered(self, news: News) -> Op {
        match (self.wanted(), news) {
            (Want::Inspect(paths), News::Inspected(seen)) => if paths.len() == seen.len() {
                self.looked(seen)
            } else {
                self
            },
            (Want::CreateFolder(_), News::Created(result)) => match result {
                Some((false, error)) => self.at(Step::Report(error)),
                _ => self.at(Step::LookFolder),
            },
            (Want::Rename(_, _), News::Renamed(result)) => match (self.step, result) {
                (Step::MoveSidecar, None) => self.at(Step::CheckRaw),
                (Step::MoveSidecar, Some(error)) => self.at(
                    Step::Locate("Could not move XMP: "@ + error),
                ),
                (Step::MoveRaw, None) => self.at(Step::Verify),
                (Step::MoveRaw, Some(error)) => self.stuck(error),
                (Step::MoveBack(reason), None) => self.at(Step::Locate(reason)),
                (Step::MoveBack(reason), Some(error)) => self.at(
                    Step::Locate(reason + "; XMP rollback also failed: "@ + error),
                ),
                _ => self,
            },
            _ => self,
        }
    }
}

fn folder_path(p: &PhotoPath) -> (out: PhotoPath)
    ensures
        out.raw() == folder_of(p.raw()),
{
    match p.parent() {
        Some(parent) => parent,
        None => nothing(),
    }
}

fn nothing() -> (out: PhotoPath)
    ensures
        out.raw() == Seq::<u8>::empty(),
{
    PhotoPath::from_bytes(Vec::new())
}

fn trio_paths(p: &PhotoPath) -> (out: Vec<PhotoPath>)
    ensures
        path::spellings(out@) == trio(p.raw()),
{
    proof {
        lemma_plain_words();
    }
    let mut out: Vec<PhotoPath> = Vec::new();
    out.push(p.copied());
    out.push(p.with_extension("xmp".as_bytes()));
    out.push(p.with_extension("XMP".as_bytes()));
    assert(path::spellings(out@) =~= trio(p.raw()));
    out
}

/// Begins the move of a photograph and its sidecar into `_Rejected`.
pub fn move_photo(photo: &PhotoPath) -> (out: Transfer)
    ensures
        out@.step == Step::Prepare,
        !out@.restoring,
        out@.pair.source == photo.raw(),
        out@.pair.sidecar is None,
{
    let none = FileId { device: 0, inode: 0 };
    Transfer {
        stage: Stage::Prepare,
        restoring: false,
        record: MoveRecord {
            source: photo.copied(),
            destination: nothing(),
            sidecar: None,
            identity: none,
        },
        parents: (none, none),
    }
}

/// Begins the undo of a move.
pub fn restore_photo(record: MoveRecord) -> (out: Transfer)
    ensures
        out@.step == Step::Snapshot,
        out@.restoring,
        out@.pair == record@,
{
    let none = FileId { device: 0, inode: 0 };
    Transfer { stage: Stage::Snapshot, restoring: true, record, parents: (none, none) }
}

impl Transfer {
    fn from(&self) -> (out: &PhotoPath)
        ensures
            out.raw() == self@.from(),
    {
        if self.restoring {
            &self.record.destination
        } else {
            &self.record.source
        }
    }

    fn to(&self) -> (out: &PhotoPath)
        ensures
            out.raw() == self@.to(),
    {
        if self.restoring {
            &self.record.source
        } else {
            &self.record.destination
        }
    }

    fn side_from(&self) -> (out: PhotoPath)
        ensures
            out.raw() == self@.side_from(),
    {
        match &self.record.sidecar {
            Some(s) => if self.restoring {
                s.destination.copied()
            } else {
                s.source.copied()
            },
            None => nothing(),
        }
    }

    fn side_to(&self) -> (out: PhotoPath)
        ensures
            out.raw() == self@.side_to(),
    {
        match &self.record.sidecar {
            Some(s) => if self.restoring {
                s.source.copied()
            } else {
                s.destination.copied()
            },
            None => nothing(),
        }
    }

    fn guards(&self, file: PhotoPath) -> (out: Vec<PhotoPath>)
        ensures
            path::spellings(out@) == self@.guards(file.raw()),
    {
        let mut out: Vec<PhotoPath> = Vec::new();
        out.push(folder_path(self.from()));
        out.push(folder_path(self.to()));
        out.push(file);
        assert(path::spellings(out@) =~= self@.guards(file.raw()));
        out
    }

    fn rejects(&self) -> (out: PhotoPath)
        ensures
            out.raw() == rejects_of(self@.pair.source),
    {
        proof {
            lemma_plain_words();
        }
        folder_path(&self.record.source).join("_Rejected".as_bytes())
    }

    fn name(&self, attempt: usize) -> (out: PhotoPath)
        requires
            attempt < MAX_NAMES,
        ensures
            out.raw() == or_nothing(
                candidate(self@.pair.source, rejects_of(self@.pair.source), attempt as int),
            ),
    {
        match candidate_name(&self.record.source, &self.rejects(), attempt) {
            Some(p) => p,
            None => nothing(),
        }
    }

    fn known(&self) -> (out: Vec<PhotoPath>)
        ensures
            Want::Inspect(path::spellings(out@)) == self@.at(Step::Locate(Seq::empty())).wanted(),
    {
        let mut out: Vec<PhotoPath> = Vec::new();
        out.push(self.record.source.copied());
        out.push(self.record.destination.copied());
        match &self.record.sidecar {
            Some(s) => {
                out.push(s.source.copied());
                out.push(s.destination.copied());
            },
            None => {
                out.push(nothing());
                out.push(nothing());
            },
        }
        proof {
            let want = self@.at(Step::Locate(Seq::empty())).wanted();
            assert(want is Inspect);
            assert(path::spellings(out@) =~= want->Inspect_0);
        }
        out
    }

    /// The names that were tried are within bounds.
    pub open spec fn sound(&self) -> bool {
        self.stage matches Stage::Name(attempt) ==> attempt < MAX_NAMES
    }

    /// What the program is to do next.
    pub fn request(&self) -> (out: Request)
        requires
            self.sound(),
        ensures
            out@ == self@.wanted(),
    {
        let ghost want = self@.wanted();
        match &self.stage {
            Stage::Prepare => {
                let mut paths = trio_paths(&self.record.source);
                let ghost before = path::spellings(paths@);
                paths.push(folder_path(&self.record.source));
                assert(path::spellings(paths@) =~= before.push(folder_of(self@.pair.source)));
                Request::Inspect(paths)
            },
            Stage::MakeFolder => Request::CreateFolder(self.rejects()),
            Stage::LookFolder => {
                let mut paths: Vec<PhotoPath> = Vec::new();
                paths.push(self.rejects());
                assert(path::spellings(paths@) =~= seq![rejects_of(self@.pair.source)]);
                Request::Inspect(paths)
            },
            Stage::Name(attempt) => Request::Inspect(trio_paths(&self.name(*attempt))),
            Stage::Snapshot => Request::Inspect(trio_paths(&self.record.destination)),
            Stage::Check => {
                let mut paths = trio_paths(self.from());
                let ghost first = paths@;
                let mut there = trio_paths(self.to());
                let ghost second = there@;
                let mut around = self.guards(self.side_from());
                let ghost third = around@;
                paths.append(&mut there);
                paths.append(&mut around);
                assert(path::spellings(paths@) =~= path::spellings(first) + path::spellings(second) + path::spellings(third));
                Request::Inspect(paths)
            },
            Stage::CheckSidecar => Request::Inspect(self.guards(self.side_from())),
            Stage::MoveSidecar => Request::Rename(self.side_from(), self.side_to()),
            Stage::CheckRaw => Request::Inspect(self.guards(self.from().copied())),
            Stage::MoveRaw => Request::Rename(self.from().copied(), self.to().copied()),
            Stage::CheckBack(_) => Request::Inspect(self.guards(self.side_to())),
            Stage::MoveBack(_) => Request::Rename(self.side_to(), self.side_from()),
            Stage::Verify => {
                let mut paths: Vec<PhotoPath> = Vec::new();
                paths.push(self.to().copied());
                paths.push(self.side_to());
                assert(path::spellings(paths@) =~= seq![self@.to(), self@.side_to()]);
                Request::Inspect(paths)
            },
            Stage::Report(_) => Request::Inspect(trio_paths(&self.record.source)),
            Stage::Locate(_) => Request::Inspect(self.known()),
            Stage::Done(_) => Request::Finish,
        }
    }

    /// How the operation ended, once it has.
    pub fn outcome(self) -> (out: Option<Result<MoveRecord, MoveError>>)
        ensures
            match self@.step {
                Step::Done(None) => out matches Some(Ok(record)) && record@ == self@.pair,
                Step::Done(Some(trouble)) => out matches Some(Err(error)) && error@ == trouble,
                _ => out is None,
            },
    {
        match self.stage {
            Stage::Done(None) => Some(Ok(self.record)),
            Stage::Done(Some(error)) => Some(Err(error)),
            _ => None,
        }
    }
}

/// What some looks showed, one by one.
proof fn lemma_sights(seen: Seq<Seen>)
    ensures
        sights(seen).len() == seen.len(),
        forall|i: int| 0 <= i < seen.len() ==> #[trigger] sights(seen)[i] == seen[i]@,
{
}

impl Transfer {
    fn prepare(&mut self, seen: &Vec<Seen>)
        requires
            old(self)@.step == Step::Prepare,
            seen.len() == 4,
        ensures
            final(self)@ == old(self)@.looked(sights(seen@)),
            final(self).sound(),
    {
        proof {
            lemma_sights(seen@);
        }
        let ghost op = self@;
        let checked: Result<(FileId, FileId, Option<(PhotoPath, FileId)>), String> = {
            let source = &self.record.source;
            let home = folder_path(source);
            if !is_arw(source) {
                Err("Only an ARW photograph can be moved to _Rejected".to_owned())
            } else {
                match regular_file(source, &seen[0]) {
                    Err(error) => Err(error),
                    Ok(identity) => if home.as_raw().len() == 0 {
                        Err("photo needs a parent directory".to_owned())
                    } else if is_rejected_folder(&home) {
                        Err(
                            "This photograph is already in _Rejected; use Undo to restore it".to_owned(),
                        )
                    } else {
                        match folder(&home, &seen[3]) {
                            Err(error) => Err(error),
                            Ok(parent) => match matching_sidecar(source, &seen[1], &seen[2]) {
                                Err(error) => Err(error),
                                Ok(found) => Ok((identity, parent, found)),
                            },
                        }
                    },
                }
            }
        };
        match checked {
            Err(error) => {
                self.stage = Stage::Report(error);
            },
            Ok((identity, parent, found)) => {
                self.record.identity = identity;
                self.record.sidecar = match found {
                    Some((at, id)) => Some(
                        SidecarMove { source: at, destination: nothing(), identity: id },
                    ),
                    None => None,
                };
                self.parents = (parent, parent);
                self.stage = Stage::MakeFolder;
            },
        }
        assert(self@ == op.looked(sights(seen@)));
    }

    fn look_folder(&mut self, seen: &Vec<Seen>)
        requires
            old(self)@.step == Step::LookFolder,
            seen.len() == 1,
        ensures
            final(self)@ == old(self)@.looked(sights(seen@)),
            final(self).sound(),
    {
        proof {
            lemma_sights(seen@);
        }
        self.stage = match folder(&self.rejects(), &seen[0]) {
            Err(error) => Stage::Report(error),
            Ok(id) => if id.device != self.parents.0.device {
                Stage::Report(
                    "_Rejected must be on the same filesystem as its photographs".to_owned(),
                )
            } else {
                Stage::Name(0)
            },
        };
    }

    fn try_name(&mut self, attempt: usize, seen: &Vec<Seen>)
        requires
            old(self)@.step == Step::Name(attempt),
            attempt < MAX_NAMES,
            seen.len() == 3,
        ensures
            final(self)@ == old(self)@.looked(sights(seen@)),
            final(self).sound(),
    {
        proof {
            lemma_sights(seen@);
        }
        proof {
            lemma_plain_words();
        }
        match candidate_name(&self.record.source, &self.rejects(), attempt) {
            None => {
                self.stage = Stage::Report("photo has no filename".to_owned());
            },
            Some(p) => match pair_taken(&p, &seen[0], &seen[1], &seen[2]) {
                None => {
                    let sidecar = self.record.sidecar.take();
                    self.record.sidecar = match sidecar {
                        Some(s) => Some(
                            SidecarMove { destination: p.with_extension("xmp".as_bytes()), ..s },
                        ),
                        None => None,
                    };
                    self.record.destination = p;
                    self.stage = Stage::Check;
                },
                Some((exists, error)) => {
                    self.stage = if !exists {
                        Stage::Report(error)
                    } else if attempt + 1 < MAX_NAMES {
                        Stage::Name(attempt + 1)
                    } else {
                        Stage::Report(
                            "No unused RAW/XMP filename pair is available in _Rejected".to_owned(),
                        )
                    };
                },
            },
        }
    }

    fn take_snapshot(&mut self, seen: &Vec<Seen>)
        requires
            old(self)@.step == Step::Snapshot,
            seen.len() == 3,
        ensures
            final(self)@ == old(self)@.looked(sights(seen@)),
            final(self).sound(),
    {
        proof {
            lemma_sights(seen@);
        }
        match unchanged_file(&self.record.destination, &seen[0], self.record.identity) {
            Some(error) => {
                self.stage = Stage::Locate(error);
                return ;
            },
            None => {},
        }
        match matching_sidecar(&self.record.destination, &seen[1], &seen[2]) {
            Err(error) => {
                self.stage = Stage::Locate(error);
            },
            Ok(None) => {
                self.stage = if self.record.sidecar.is_some() {
                    Stage::Locate(
                        "The moved photo's XMP is missing; restore was left untouched".to_owned(),
                    )
                } else {
                    Stage::Check
                };
            },
            Ok(Some((destination, identity))) => {
                let sidecar = self.record.sidecar.take();
                proof {
                    lemma_plain_words();
                }
                let source = match sidecar {
                    Some(s) => s.source,
                    None => self.record.source.with_extension("xmp".as_bytes()),
                };
                self.record.sidecar = Some(SidecarMove { source, destination, identity });
                self.stage = Stage::Check;
            },
        }
    }

    fn check(&self, seen: &Vec<Seen>) -> (out: Result<(FileId, FileId), String>)
        requires
            seen.len() == 9,
        ensures
            text::same(out, self@.checked(sights(seen@))),
    {
        proof {
            lemma_sights(seen@);
        }
        let from = self.from();
        let to = self.to();
        match unchanged_file(from, &seen[0], self.record.identity) {
            Some(error) => {
                return Err(error);
            },
            None => {},
        }
        if from.parent().is_none() {
            return Err("source parent is missing".to_owned());
        }
        if to.parent().is_none() {
            return Err("destination parent is missing".to_owned());
        }
        let here = match folder(&folder_path(from), &seen[6]) {
            Ok(id) => id,
            Err(error) => {
                return Err(error);
            },
        };
        let there = match folder(&folder_path(to), &seen[7]) {
            Ok(id) => id,
            Err(error) => {
                return Err(error);
            },
        };
        if here.device != there.device {
            return Err("Source and destination must be on the same filesystem".to_owned());
        }
        match pair_taken(to, &seen[3], &seen[4], &seen[5]) {
            Some((_, error)) => {
                return Err(error);
            },
            None => {},
        }
        let carried: Option<FileId> = match &self.record.sidecar {
            Some(s) => Some(s.identity),
            None => None,
        };
        match carried {
            Some(identity) => match unchanged_file(&self.side_from(), &seen[8], identity) {
                Some(error) => {
                    return Err(error);
                },
                None => {},
            },
            None => {},
        }
        match matching_sidecar(from, &seen[1], &seen[2]) {
            Err(error) => Err(error),
            Ok(found) => {
                let same = match (found, carried) {
                    (Some((_, a)), Some(b)) => a == b,
                    (None, None) => true,
                    _ => false,
                };
                if !same {
                    Err(
                        "The matching XMP sidecar changed since this operation was prepared".to_owned(),
                    )
                } else {
                    Ok((here, there))
                }
            },
        }
    }

    fn disturbance(&self, seen: &Vec<Seen>, file: &PhotoPath, identity: FileId) -> (out: Option<
        String,
    >)
        requires
            seen.len() == 3,
        ensures
            text::same_option(out, self@.disturbed(sights(seen@), file.raw(), identity)),
    {
        proof {
            lemma_sights(seen@);
        }
        match folder(&folder_path(self.from()), &seen[0]) {
            Err(error) => Some(error),
            Ok(here) => if here != self.parents.0 {
                Some("A photo directory changed while moving files".to_owned())
            } else {
                match folder(&folder_path(self.to()), &seen[1]) {
                    Err(error) => Some(error),
                    Ok(there) => if there != self.parents.1 {
                        Some("A photo directory changed while moving files".to_owned())
                    } else {
                        unchanged_file(file, &seen[2], identity)
                    },
                }
            },
        }
    }

    fn stick(&mut self, error: &str)
        ensures
            final(self)@ == old(self)@.stuck(error@),
            final(self).sound(),
    {
        let reason = "Could not move RAW: ".to_owned().concat(error);
        self.stage = if self.record.sidecar.is_some() {
            Stage::CheckBack(reason)
        } else {
            Stage::Locate(reason)
        };
    }

    fn strays(&self, seen: &Vec<Seen>) -> (out: Option<String>)
        requires
            seen.len() == 2,
        ensures
            text::same_option(out, self@.astray(sights(seen@))),
    {
        proof {
            lemma_sights(seen@);
        }
        let mut changed = unchanged_file(self.to(), &seen[0], self.record.identity);
        if changed.is_none() {
            match &self.record.sidecar {
                Some(s) => {
                    changed = unchanged_file(&self.side_to(), &seen[1], s.identity);
                },
                None => {},
            }
        }
        match changed {
            Some(error) => Some(
                "Files changed after the move: ".to_owned().concat(error.as_str()),
            ),
            None => None,
        }
    }

    fn trouble(&self, message: String, seen: &Vec<Seen>) -> (out: MoveError)
        requires
            seen.len() == 4,
        ensures
            out@ == self@.located(message@, sights(seen@)),
    {
        broadcast use PhotoPath::lemma_spelling;

        proof {
            lemma_sights(seen@);
        }
        let raw_path = locate(
            self.record.identity,
            &self.record.source,
            &seen[0],
            &self.record.destination,
            &seen[1],
        );
        let raw_home = match &raw_path {
            Some(p) => p.same(self.from()),
            None => false,
        };
        let sidecar_path = match &self.record.sidecar {
            Some(s) => locate(s.identity, &s.source, &seen[2], &s.destination, &seen[3]),
            None => None,
        };
        let sidecar_home = match (&sidecar_path, &self.record.sidecar) {
            (Some(p), Some(_)) => p.same(&self.side_from()),
            (None, None) => true,
            _ => false,
        };
        MoveError { message, raw_path, sidecar_path, partial: !raw_home || !sidecar_home }
    }

    fn report(&self, message: String, seen: &Vec<Seen>) -> (out: MoveError)
        requires
            seen.len() == 3,
        ensures
            out@ == self@.reported(message@, sights(seen@)),
    {
        proof {
            lemma_sights(seen@);
        }
        let raw_path = if regular_file(&self.record.source, &seen[0]).is_ok() {
            Some(self.record.source.copied())
        } else {
            None
        };
        let sidecar_path = match matching_sidecar(&self.record.source, &seen[1], &seen[2]) {
            Ok(Some((at, _))) => Some(at),
            _ => None,
        };
        MoveError { message, raw_path, sidecar_path, partial: false }
    }

    fn check_all(&mut self, seen: &Vec<Seen>)
        requires
            old(self)@.step == Step::Check,
            seen.len() == 9,
        ensures
            final(self)@ == old(self)@.looked(sights(seen@)),
            final(self).sound(),
    {
        match self.check(seen) {
            Err(error) => {
                self.stage = Stage::Locate(error);
            },
            Ok(parents) => {
                self.parents = parents;
                self.stage = if self.record.sidecar.is_some() {
                    Stage::CheckSidecar
                } else {
                    Stage::CheckRaw
                };
            },
        }
    }

    fn sidecar_identity(&self) -> (out: Option<FileId>)
        ensures
            out == match self@.pair.sidecar {
                Some(s) => Some(s.identity),
                None => None,
            },
    {
        match &self.record.sidecar {
            Some(s) => Some(s.identity),
            None => None,
        }
    }

    fn check_sidecar(&mut self, seen: &Vec<Seen>)
        requires
            old(self)@.step == Step::CheckSidecar,
            seen.len() == 3,
        ensures
            final(self)@ == old(self)@.looked(sights(seen@)),
            final(self).sound(),
    {
        match self.sidecar_identity() {
            None => {},
            Some(identity) => {
                self.stage = match self.disturbance(seen, &self.side_from(), identity) {
                    Some(error) => Stage::Locate(
                        "Could not move XMP: ".to_owned().concat(error.as_str()),
                    ),
                    None => Stage::MoveSidecar,
                };
            },
        }
    }

    fn check_raw(&mut self, seen: &Vec<Seen>)
        requires
            old(self)@.step == Step::CheckRaw,
            seen.len() == 3,
        ensures
            final(self)@ == old(self)@.looked(sights(seen@)),
            final(self).sound(),
    {
        match self.disturbance(seen, self.from(), self.record.identity) {
            Some(error) => {
                self.stick(error.as_str());
            },
            None => {
                self.stage = Stage::MoveRaw;
            },
        }
    }

    fn check_back(&mut self, reason: &str, seen: &Vec<Seen>)
        requires
            old(self)@.step == Step::CheckBack(reason@),
            seen.len() == 3,
        ensures
            final(self)@ == old(self)@.looked(sights(seen@)),
            final(self).sound(),
    {
        match self.sidecar_identity() {
            None => {},
            Some(identity) => {
                self.stage = match self.disturbance(seen, &self.side_to(), identity) {
                    Some(error) => Stage::Locate(
                        reason.to_owned().concat("; XMP rollback also failed: ").concat(
                            error.as_str(),
                        ),
                    ),
                    None => Stage::MoveBack(reason.to_owned()),
                };
            },
        }
    }

    fn verify(&mut self, seen: &Vec<Seen>)
        requires
            old(self)@.step == Step::Verify,
            seen.len() == 2,
        ensures
            final(self)@ == old(self)@.looked(sights(seen@)),
            final(self).sound(),
    {
        self.stage = match self.strays(seen) {
            Some(error) => Stage::Locate(error),
            None => Stage::Done(None),
        };
    }

    /// Takes in what the paths showed.
    #[verifier::rlimit(60)]
    #[verifier::spinoff_prover]
    fn inspected(&mut self, seen: &Vec<Seen>)
        requires
            old(self).sound(),
            old(self)@.wanted() matches Want::Inspect(paths) && paths.len() == seen.len(),
        ensures
            final(self).sound(),
            final(self)@ == old(self)@.looked(sights(seen@)),
    {
        match &self.stage {
            Stage::Prepare => self.prepare(seen),
            Stage::LookFolder => self.look_folder(seen),
            Stage::Name(attempt) => {
                let attempt: usize = *attempt;
                self.try_name(attempt, seen);
            },
            Stage::Snapshot => self.take_snapshot(seen),
            Stage::Check => self.check_all(seen),
            Stage::CheckSidecar => self.check_sidecar(seen),
            Stage::CheckRaw => self.check_raw(seen),
            Stage::CheckBack(reason) => {
                let reason = reason.as_str().to_owned();
                self.check_back(reason.as_str(), seen);
            },
            Stage::Verify => self.verify(seen),
            Stage::Report(message) => {
                let message = message.as_str().to_owned();
                self.stage = Stage::Done(Some(self.report(message, seen)));
            },
            Stage::Locate(message) => {
                let message = message.as_str().to_owned();
                self.stage = Stage::Done(Some(self.trouble(message, seen)));
            },
            _ => {},
        }
    }

    /// Takes in what became of a request. A reply that does not fit the request
    /// is ignored.
    pub fn answer(&mut self, reply: Reply)
        requires
            old(self).sound(),
        ensures
            final(self).sound(),
            final(self)@ == old(self)@.answered(reply@),
    {
        let ghost op = self@;
        match (self.request(), reply) {
            (Request::Inspect(paths), Reply::Inspected(seen)) => {
                proof {
                    lemma_sights(seen@);
                }
                if paths.len() == seen.len() {
                    self.inspected(&seen);
                }
            },
            (Request::CreateFolder(_), Reply::Created(result)) => {
                self.stage = match result {
                    Some((false, error)) => Stage::Report(error),
                    _ => Stage::LookFolder,
                };
            },
            (Request::Rename(_, _), Reply::Renamed(result)) => {
                let mut stage = Stage::Done(None);
                std::mem::swap(&mut stage, &mut self.stage);
                match (stage, result) {
                    (Stage::MoveSidecar, None) => {
                        self.stage = Stage::CheckRaw;
                    },
                    (Stage::MoveSidecar, Some(error)) => {
                        self.stage = Stage::Locate(
                            "Could not move XMP: ".to_owned().concat(error.as_str()),
                        );
                    },
                    (Stage::MoveRaw, None) => {
                        self.stage = Stage::Verify;
                    },
                    (Stage::MoveRaw, Some(error)) => {
                        self.stick(error.as_str());
                    },
                    (Stage::MoveBack(reason), None) => {
                        self.stage = Stage::Locate(reason);
                    },
                    (Stage::MoveBack(reason), Some(error)) => {
                        self.stage = Stage::Locate(
                            reason.concat("; XMP rollback also failed: ").concat(error.as_str()),
                        );
                    },
                    (other, _) => {
                        self.stage = other;
                    },
                }
            },
            _ => {},
        }
    }
}

/// An operation and what it has moved so far.
pub struct Run {
    pub op: Op,
    pub sidecar_moved: bool,
    pub raw_moved: bool,
}

/// An operation after some replies.
pub open spec fn ran(start: Op, news: Seq<News>) -> Run
    decreases news.len(),
{
    if news.len() == 0 {
        Run { op: start, sidecar_moved: false, raw_moved: false }
    } else {
        let before = ran(start, news.drop_last());
        let renamed = news.last() == News::Renamed(None);
        Run {
            op: before.op.answered(news.last()),
            sidecar_moved: match before.op.step {
                Step::MoveSidecar => before.sidecar_moved || renamed,
                Step::MoveBack(_) => before.sidecar_moved && !renamed,
                _ => before.sidecar_moved,
            },
            raw_moved: before.raw_moved || (before.op.step == Step::MoveRaw && renamed),
        }
    }
}

impl Run {
    /// What a stage says about the files.
    pub open spec fn consistent(self) -> bool {
        let has = self.op.pair.sidecar is Some;
        match self.op.step {
            Step::CheckSidecar | Step::MoveSidecar => !self.sidecar_moved && !self.raw_moved && has,
            Step::CheckRaw | Step::MoveRaw => self.sidecar_moved == has && !self.raw_moved,
            Step::CheckBack(_) | Step::MoveBack(_) => self.sidecar_moved && has && !self.raw_moved,
            Step::Verify | Step::Done(None) => self.sidecar_moved == has && self.raw_moved,
            Step::Locate(_) | Step::Done(Some(_)) => {
                &&& self.sidecar_moved ==> has
                &&& self.raw_moved ==> self.sidecar_moved == has
            },
            _ => !self.sidecar_moved && !self.raw_moved,
        }
    }

    /// A last look shows the files where they are, and nowhere else.
    pub open spec fn shown(self, seen: Seq<Sight>) -> bool {
        let raw_home = self.raw_moved == self.op.restoring;
        &&& seen[0] == Sight::File(self.op.pair.identity) <==> raw_home
        &&& seen[1] == Sight::File(self.op.pair.identity) <==> !raw_home
        &&& self.op.pair.sidecar matches Some(s) ==> {
            let home = self.sidecar_moved == self.op.restoring;
            &&& seen[2] == Sight::File(s.identity) <==> home
            &&& seen[3] == Sight::File(s.identity) <==> !home
        }
    }
}

/// A move or an undo as it begins.
pub open spec fn fresh(op: Op) -> bool {
    op.step == Step::Prepare || op.step == Step::Snapshot
}

/// At every stage of every operation, whatever the replies are, it is known
/// which files were moved.
#[verifier::spinoff_prover]
#[verifier::rlimit(60)]
pub proof fn law_stages_tell_what_moved(start: Op, news: Seq<News>)
    requires
        fresh(start),
    ensures
        ran(start, news).consistent(),
    decreases news.len(),
{
    if news.len() > 0 {
        law_stages_tell_what_moved(start, news.drop_last());
    }
}

/// An operation that succeeds has moved the photograph, and its sidecar if it
/// has one.
pub proof fn law_success_moves_both(start: Op, news: Seq<News>)
    requires
        fresh(start),
        ran(start, news).op.step == Step::Done(None),
    ensures
        ran(start, news).raw_moved,
        ran(start, news).sidecar_moved == (ran(start, news).op.pair.sidecar is Some),
{
    law_stages_tell_what_moved(start, news);
}

proof fn lemma_keeps_its_record(start: Op, news: Seq<News>)
    requires
        start.restoring,
        start.step == Step::Snapshot,
    ensures
        ({
            let op = ran(start, news).op;
            &&& op.restoring
            &&& op.pair.source == start.pair.source
            &&& op.pair.destination == start.pair.destination
            &&& op.pair.identity == start.pair.identity
            &&& start.pair.sidecar is Some ==> op.pair.sidecar is Some && (op.pair.sidecar->0).source
                == (start.pair.sidecar->0).source
            &&& !(op.step is Prepare || op.step is MakeFolder || op.step is LookFolder
                || op.step is Name)
        }),
    decreases news.len(),
{
    if news.len() > 0 {
        lemma_keeps_its_record(start, news.drop_last());
    }
}

proof fn lemma_keeps_its_direction(start: Op, news: Seq<News>)
    ensures
        ran(start, news).op.restoring == start.restoring,
    decreases news.len(),
{
    if news.len() > 0 {
        lemma_keeps_its_direction(start, news.drop_last());
    }
}

/// Undoing a move takes the photograph back along the way that it came, and its
/// sidecar to its old name, also if it was rewritten meanwhile.
pub proof fn law_undo_takes_files_back(
    start: Op,
    moved: Seq<News>,
    undo: Op,
    restored: Seq<News>,
)
    requires
        fresh(start),
        !start.restoring,
        ran(start, moved).op.step == Step::Done(None),
        undo.step == Step::Snapshot,
        undo.restoring,
        undo.pair == ran(start, moved).op.pair,
    ensures
        ({
            let there = ran(start, moved);
            let back = ran(undo, restored);
            &&& back.op.from() == there.op.to()
            &&& back.op.to() == there.op.from()
            &&& back.op.pair.identity == there.op.pair.identity
            &&& there.op.pair.sidecar is Some ==> back.op.side_to() == there.op.side_from()
            &&& back.op.step == Step::Done(None) ==> back.raw_moved && (there.sidecar_moved
                ==> back.sidecar_moved)
        }),
{
    lemma_keeps_its_direction(start, moved);
    lemma_keeps_its_record(undo, restored);
    law_success_moves_both(start, moved);
    if ran(undo, restored).op.step == Step::Done(None) {
        law_success_moves_both(undo, restored);
    }
}

/// The photograph is renamed only once its sidecar has been, and the sidecar
/// goes back only while the photograph is in its place. Nothing else is renamed.
pub proof fn law_sidecar_goes_first(start: Op, news: Seq<News>)
    requires
        fresh(start),
    ensures
        ({
            let run = ran(start, news);
            let op = run.op;
            op.wanted() matches Want::Rename(a, b) ==> {
                ||| a == op.side_from() && b == op.side_to() && !run.sidecar_moved
                    && !run.raw_moved
                ||| a == op.from() && b == op.to() && run.sidecar_moved == (
                op.pair.sidecar is Some) && !run.raw_moved
                ||| a == op.side_to() && b == op.side_from() && run.sidecar_moved && !run.raw_moved
            }
        }),
{
    law_stages_tell_what_moved(start, news);
}

/// A failure is called partial exactly if a file is not where it was before,
/// given that the last look shows where the files are.
pub proof fn law_partial_means_displaced(start: Op, news: Seq<News>, seen: Seq<Sight>)
    requires
        fresh(start),
        ran(start, news).op.step is Locate,
        seen.len() == 4,
        ran(start, news).shown(seen),
        path::tidy(ran(start, news).op.pair.source) != path::tidy(
            ran(start, news).op.pair.destination,
        ),
        ran(start, news).op.pair.sidecar matches Some(s) ==> path::tidy(s.source) != path::tidy(
            s.destination,
        ),
    ensures
        ran(start, news.push(News::Inspected(seen))).op.step matches Step::Done(Some(trouble))
            && trouble.partial == (ran(start, news).raw_moved || ran(start, news).sidecar_moved),
{
    law_stages_tell_what_moved(start, news);
    assert(news.push(News::Inspected(seen)).drop_last() =~= news);
    let op = ran(start, news).op;
    assert(op.wanted()->Inspect_0.len() == 4);
}

impl Trouble {
    /// The sentence shown to a user, with where the files of a partial operation
    /// are.
    pub open spec fn warning(self) -> Seq<char> {
        if !self.partial {
            self.text()
        } else {
            self.message + "; partial operation; RAW location: "@ + match self.raw {
                Some(p) => text::lossy_text(p),
                None => "unknown or missing"@,
            } + "; XMP location: "@ + match self.sidecar {
                Some(p) => text::lossy_text(p),
                None => "unknown or absent"@,
            } + ". Rating writes at the original path are blocked for safety."@
        }
    }
}

/// The sentence shown to a user about a move that failed.
pub fn move_error(error: &MoveError) -> (out: String)
    ensures
        out@ == error@.warning(),
{
    if !error.partial {
        return error.message();
    }
    let raw = match &error.raw_path {
        Some(p) => p.display(),
        None => "unknown or missing".to_owned(),
    };
    let sidecar = match &error.sidecar_path {
        Some(p) => p.display(),
        None => "unknown or absent".to_owned(),
    };
    let out = error.message.as_str().to_owned().concat("; partial operation; RAW location: ");
    let out = out.concat(raw.as_str()).concat("; XMP location: ").concat(sidecar.as_str());
    out.concat(". Rating writes at the original path are blocked for safety.")
}

/// A rejected photograph goes to the folder `_Rejected` beside it, under its own name;
/// if that is taken, under its name with a number, from two on.
pub proof fn law_rejected_photographs_keep_their_names(
    folder: Seq<u8>,
    stem: Seq<u8>,
    extension: Seq<u8>,
    attempt: int,
)
    requires
        folder.len() > 0,
        folder.last() != '/' as u8,
        folder.len() >= 2 ==> !(folder.last() == '.' as u8 && folder[folder.len() - 2] == '/' as u8),
        stem.len() > 0,
        extension.len() > 0,
        forall|k: int| 0 <= k < stem.len() ==> #[trigger] stem[k] != '/' as u8,
        forall|k: int|
            0 <= k < extension.len() ==> #[trigger] extension[k] != '/' as u8 && extension[k]
                != '.' as u8,
        attempt >= 0,
    ensures
        ({
            let name = stem + seq!['.' as u8] + extension;
            let raw = folder + seq!['/' as u8] + name;
            let rejects = folder + seq!['/' as u8] + vstd::utf8::encode_utf8("_Rejected"@);
            &&& rejects_of(raw) == rejects
            &&& candidate(raw, rejects, 0) == Some(rejects + seq!['/' as u8] + name)
            &&& attempt > 0 ==> candidate(raw, rejects, attempt) == Some(
                rejects + seq!['/' as u8] + (stem + vstd::utf8::encode_utf8(
                    "-"@ + text::decimal(attempt + 1) + "."@,
                ) + extension),
            )
        }),
{
    let name = stem + seq!['.' as u8] + extension;
    let raw = folder + seq!['/' as u8] + name;
    path::law_names_have_an_extension(folder, stem, extension, extension);
    assert(name != seq!['.' as u8]) by {
        if name == seq!['.' as u8] {
            assert(name.len() == 1);
        }
    }
    assert(name != seq!['.' as u8, '.' as u8]) by {
        if name == seq!['.' as u8, '.' as u8] {
            assert(name[1] == '.' as u8);
            assert(name.last() == extension.last());
            assert(extension[extension.len() - 1] != '.' as u8);
        }
    }
    assert forall|k: int| 0 <= k < name.len() implies #[trigger] name[k] != '/' as u8 by {
        if k < stem.len() {
            assert(name[k] == stem[k]);
        } else if k > stem.len() {
            assert(name[k] == extension[k - stem.len() - 1]);
        }
    }
    path::law_paths_have_a_folder_and_a_name(folder, name);
    lemma_rejected_name();
    let last = rejected_folder();
    assert(path::joined(folder, last) == folder + seq!['/' as u8] + last);
    let rejects = folder + seq!['/' as u8] + last;
    assert(rejects.last() == last.last());
    assert(path::joined(rejects, name) == rejects + seq!['/' as u8] + name);
    let other = stem + vstd::utf8::encode_utf8("-"@ + text::decimal(attempt + 1) + "."@)
        + extension;
    assert(other[0] == stem[0]);
    assert(path::joined(rejects, other) == rejects + seq!['/' as u8] + other);
}

pub proof fn lemma_rejected_name()
    ensures
        rejected_folder().len() == 9,
        rejected_folder()[0] != '/' as u8,
        rejected_folder().last() != '/' as u8,
{
    reveal_strlit("_Rejected");
    assert(vstd::utf8::is_ascii_chars("_Rejected"@));
    vstd::utf8::is_ascii_chars_encode_utf8("_Rejected"@);
    assert("_Rejected"@[0] == '_');
    assert("_Rejected"@[8] == 'd');
}

/// A photograph moves with its sidecar, whichever of its two names that has; it is not
/// moved if there are two.
pub proof fn law_sidecars_are_found(raw: Seq<u8>, lower: Sight, upper: Sight, a: FileId, b: FileId)
    ensures
        ({
            let small = path::extended(raw, vstd::utf8::encode_utf8("xmp"@));
            let large = path::extended(raw, vstd::utf8::encode_utf8("XMP"@));
            let out = sidecar_of(raw, lower, upper);
            &&& lower == Sight::File(a) && upper is Absent ==> out == Ok::<
                Option<(Seq<u8>, FileId)>,
                Seq<char>,
            >(Some((small, a)))
            &&& lower is Absent && upper == Sight::File(b) ==> out == Ok::<
                Option<(Seq<u8>, FileId)>,
                Seq<char>,
            >(Some((large, b)))
            &&& lower is Absent && upper is Absent ==> out == Ok::<
                Option<(Seq<u8>, FileId)>,
                Seq<char>,
            >(None)
            &&& lower == Sight::File(a) && upper == Sight::File(b) && a != b ==> out is Err
            &&& lower == Sight::File(a) && upper == Sight::File(a) ==> out == Ok::<
                Option<(Seq<u8>, FileId)>,
                Seq<char>,
            >(Some((small, a)))
        }),
{
}

} // verus!
