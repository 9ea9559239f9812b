//! What is remembered from one run to the next.
//!
//! A record holds the last photograph and a few preferences. Three versions of
//! it can be read; the latest is written.
use crate::app::deleted::{FileId, Seen, Sight};
use crate::arw::tiff::Endian;
use crate::path;
use crate::path::{Identity, PhotoPath};
use crate::text;
use vstd::prelude::*;

verus! {

pub const MAX_PATH_BYTES: usize = 16384;

pub const MAX_FILE_BYTES: usize = 65536;

/// Milliseconds between the last change and a save.
pub const SAVE_DELAY: u64 = 500;

/// Milliseconds that a change may wait at most.
pub const MAX_DIRTY_AGE: u64 = 2000;

/// The length of the words that begin a record.
pub const MAGIC_LENGTH: usize = 19;

#[derive(Debug)]
pub struct SessionState {
    pub photo: Option<PhotoPath>,
    pub folder: Option<PhotoPath>,
    pub zoom_locked: bool,
    pub auto_advance: bool,
    /// Brightness in thirds of a stop.
    pub brightness_steps: i8,
}

/// What a `SessionState` says.
pub struct Session {
    pub photo: Option<Seq<u8>>,
    pub folder: Option<Seq<u8>>,
    pub zoom_locked: bool,
    pub auto_advance: bool,
    pub brightness_steps: i8,
}

impl View for SessionState {
    type V = Session;

    open spec fn view(&self) -> Session {
        Session {
            photo: path::written(self.photo),
            folder: path::written(self.folder),
            zoom_locked: self.zoom_locked,
            auto_advance: self.auto_advance,
            brightness_steps: self.brightness_steps,
        }
    }
}

/// What is known before anything was remembered.
pub open spec fn fresh() -> Session {
    Session {
        photo: None,
        folder: None,
        zoom_locked: true,
        auto_advance: false,
        brightness_steps: 0,
    }
}

impl Default for SessionState {
    fn default() -> (out: Self)
        ensures
            out@ == fresh(),
    {
        SessionState {
            photo: None,
            folder: None,
            zoom_locked: true,
            auto_advance: false,
            brightness_steps: 0,
        }
    }
}

/// A setting within the range of brightness.
pub open spec fn dimmed(steps: i8) -> i8 {
    if steps < -9 {
        -9i8
    } else if steps > 9 {
        9
    } else {
        steps
    }
}

/// A setting within the range of brightness.
pub fn clamp_brightness(steps: i8) -> (out: i8)
    ensures
        out == dimmed(steps),
{
    if steps < -9 {
        -9
    } else if steps > 9 {
        9
    } else {
        steps
    }
}

/// The words that begin a record of some version.
pub open spec fn magic(version: u8) -> Seq<u8> {
    seq![
        0x46u8, 0x41u8, 0x53u8, 0x54u8, 0x43u8, 0x55u8, 0x4cu8, 0x4cu8, 0x2du8, 0x53u8, 0x45u8,
        0x53u8, 0x53u8, 0x49u8, 0x4fu8, 0x4eu8, 0x0au8, version, 0x0au8,
    ]
}

fn magic_bytes(version: u8) -> (out: Vec<u8>)
    ensures
        out@ == magic(version),
        out@.len() == MAGIC_LENGTH,
{
    let out: Vec<u8> = vec![
        0x46u8, 0x41u8, 0x53u8, 0x54u8, 0x43u8, 0x55u8, 0x4cu8, 0x4cu8, 0x2du8, 0x53u8, 0x45u8,
        0x53u8, 0x53u8, 0x49u8, 0x4fu8, 0x4eu8, 0x0au8, version, 0x0au8,
    ];
    assert(out@ =~= magic(version));
    out
}

/// Whether some bytes begin with others.
pub open spec fn begins(b: Seq<u8>, with: Seq<u8>) -> bool {
    b.len() >= with.len() && b.take(with.len() as int) == with
}

fn begins_with(b: &[u8], with: &Vec<u8>) -> (out: bool)
    ensures
        out == begins(b@, with@),
{
    if b.len() < with.len() {
        return false;
    }
    let head = vstd::slice::slice_subrange(b, 0, with.len());
    assert(head@ =~= b@.take(with@.len() as int));
    path::same_bytes(head, with.as_slice())
}

/// The version of a record: 1, 2 or 3.
pub open spec fn version_of(b: Seq<u8>) -> Option<int> {
    if begins(b, magic(0x33)) {
        Some(3)
    } else if begins(b, magic(0x32)) {
        Some(2)
    } else if begins(b, magic(0x31)) {
        Some(1)
    } else {
        None
    }
}

fn find_version(b: &[u8]) -> (out: Option<u8>)
    ensures
        match version_of(b@) {
            Some(version) => out is Some && out->0 == version,
            None => out is None,
        },
{
    if begins_with(b, &magic_bytes(0x33)) {
        Some(3)
    } else if begins_with(b, &magic_bytes(0x32)) {
        Some(2)
    } else if begins_with(b, &magic_bytes(0x31)) {
        Some(1)
    } else {
        None
    }
}

/// The path that some bytes of a record hold. No bytes hold no path.
pub open spec fn stored(b: Seq<u8>) -> Result<Option<Seq<u8>>, Seq<char>> {
    if b.len() == 0 {
        Ok(None)
    } else if b.len() > MAX_PATH_BYTES || b.contains(0) {
        Err("session path is too long or contains NUL"@)
    } else if b[0] != 0x2f {
        Err("session paths must be absolute"@)
    } else {
        Ok(Some(b))
    }
}

/// The path that some bytes of a record hold.
pub fn checked_path(b: &[u8]) -> (out: Result<Option<PhotoPath>, String>)
    ensures
        match stored(b@) {
            Ok(p) => out is Ok && path::written(out->Ok_0) == p,
            Err(reason) => out is Err && out->Err_0@ == reason,
        },
{
    if b.len() == 0 {
        return Ok(None);
    }
    let mut null = false;
    let mut i: usize = 0;
    while i < b.len()
        invariant
            i <= b@.len(),
            null <==> exists|k: int| 0 <= k < i && b@[k] == 0,
        decreases b@.len() - i,
    {
        if b[i] == 0 {
            null = true;
        }
        i += 1;
    }
    if b.len() > MAX_PATH_BYTES || null {
        return Err("session path is too long or contains NUL".to_owned());
    }
    if b[0] != 0x2f {
        return Err("session paths must be absolute".to_owned());
    }
    Ok(Some(PhotoPath::from_bytes(path::copy_bytes(b))))
}

/// The bytes of a path, or none.
pub open spec fn raw(p: Option<Seq<u8>>) -> Seq<u8> {
    match p {
        Some(p) => p,
        None => Seq::empty(),
    }
}

fn raw_bytes(p: &Option<PhotoPath>) -> (out: Vec<u8>)
    ensures
        out@ == raw(path::written(*p)),
{
    match p {
        Some(p) => path::copy_bytes(p.as_raw()),
        None => Vec::new(),
    }
}

/// Whether a folder is that of a photograph.
pub open spec fn houses(folder: Option<Seq<u8>>, photo: Option<Seq<u8>>) -> bool {
    match photo {
        None => true,
        Some(p) => path::file_name_of(p) is Some && match (path::parent_of(p), folder) {
            (Some(parent), Some(folder)) => path::same_path(parent, folder),
            (None, None) => true,
            _ => false,
        },
    }
}

/// Why a session cannot be recorded.
pub open spec fn objection(s: Session) -> Option<Seq<char>> {
    if stored(raw(s.photo)) is Err {
        Some(stored(raw(s.photo))->Err_0)
    } else if stored(raw(s.folder)) is Err {
        Some(stored(raw(s.folder))->Err_0)
    } else if !houses(s.folder, s.photo) {
        Some("session folder must be the photo's parent"@)
    } else {
        None
    }
}

fn object(s: &SessionState) -> (out: Option<String>)
    ensures
        text::same_option(out, objection(s@)),
{
    match checked_path(&raw_bytes(&s.photo)) {
        Err(reason) => {
            return Some(reason);
        },
        Ok(_) => {},
    }
    match checked_path(&raw_bytes(&s.folder)) {
        Err(reason) => {
            return Some(reason);
        },
        Ok(_) => {},
    }
    match &s.photo {
        None => {},
        Some(p) => {
            let fits = match (p.parent(), &s.folder) {
                (Some(parent), Some(folder)) => parent.same_path(folder),
                (None, None) => true,
                _ => false,
            };
            if p.file_name().is_none() || !fits {
                return Some("session folder must be the photo's parent".to_owned());
            }
        },
    }
    None
}

/// A number in four bytes, lowest first.
pub open spec fn le32(n: int) -> Seq<u8> {
    seq![
        (n % 256) as u8,
        (n / 256 % 256) as u8,
        (n / 65536 % 256) as u8,
        (n / 16777216 % 256) as u8,
    ]
}

/// The preferences that a record holds in one byte.
pub open spec fn flags_of(s: Session) -> u8 {
    match (s.zoom_locked, s.auto_advance) {
        (false, false) => 0,
        (true, false) => 1,
        (false, true) => 2,
        (true, true) => 3,
    }
}

/// A setting of brightness in one byte.
pub open spec fn brightness_byte(steps: i8) -> u8 {
    if steps < 0 {
        (256 + steps) as u8
    } else {
        steps as u8
    }
}

/// The setting of brightness that a byte holds.
pub open spec fn brightness_of(b: u8) -> i8 {
    if b >= 128 {
        dimmed((b - 256) as i8)
    } else {
        dimmed(b as i8)
    }
}

/// A session as a record.
pub open spec fn encoded(s: Session) -> Result<Seq<u8>, Seq<char>> {
    match objection(s) {
        Some(reason) => Err(reason),
        None => Ok(
            magic(0x33) + seq![flags_of(s), brightness_byte(dimmed(s.brightness_steps))] + le32(
                raw(s.photo).len() as int,
            ) + le32(raw(s.folder).len() as int) + raw(s.photo) + raw(s.folder),
        ),
    }
}

/// The length of what comes before the paths of a record.
pub open spec fn header(version: int) -> int {
    if version == 3 {
        MAGIC_LENGTH + 10
    } else {
        MAGIC_LENGTH + 9
    }
}

/// The session that a record holds. The first version did not tell a choice of
/// an unlocked zoom from the default of its time.
pub open spec fn decoded(b: Seq<u8>) -> Result<Session, Seq<char>> {
    match version_of(b) {
        None => Err("invalid, oversized, or unsupported session file"@),
        Some(version) => {
            let start = header(version);
            let flags = b[MAGIC_LENGTH as int];
            let photo = Endian::Little.at32(b, start - 8) as int;
            let folder = Endian::Little.at32(b, start - 4) as int;
            if b.len() > MAX_FILE_BYTES || b.len() < start {
                Err("invalid, oversized, or unsupported session file"@)
            } else if flags > 3 {
                Err("unknown session preferences"@)
            } else if photo > MAX_PATH_BYTES || folder > MAX_PATH_BYTES || start + photo + folder
                != b.len() {
                Err("invalid session path lengths"@)
            } else {
                match (
                    stored(b.subrange(start, start + photo)),
                    stored(b.skip(start + photo)),
                ) {
                    (Err(reason), _) => Err(reason),
                    (_, Err(reason)) => Err(reason),
                    (Ok(photo), Ok(folder)) => {
                        let s = Session {
                            photo,
                            folder,
                            zoom_locked: version == 1 || flags % 2 == 1,
                            auto_advance: flags >= 2,
                            brightness_steps: if version == 3 {
                                brightness_of(b[MAGIC_LENGTH + 1])
                            } else {
                                0
                            },
                        };
                        match objection(s) {
                            Some(reason) => Err(reason),
                            None => Ok(s),
                        }
                    },
                }
            }
        },
    }
}

fn append_le32(to: &mut Vec<u8>, n: usize)
    requires
        n <= 0xffff_ffff,
    ensures
        final(to)@ == old(to)@ + le32(n as int),
{
    to.push((n % 256) as u8);
    to.push((n / 256 % 256) as u8);
    to.push((n / 65536 % 256) as u8);
    to.push((n / 16777216 % 256) as u8);
    assert(to@ =~= old(to)@ + le32(n as int));
}

/// Writes a session as a record.
pub fn encode(s: &SessionState) -> (out: Result<Vec<u8>, String>)
    ensures
        match encoded(s@) {
            Ok(bytes) => out is Ok && out->Ok_0@ == bytes,
            Err(reason) => out is Err && out->Err_0@ == reason,
        },
{
    match object(s) {
        Some(reason) => {
            return Err(reason);
        },
        None => {},
    }
    let photo = raw_bytes(&s.photo);
    let folder = raw_bytes(&s.folder);
    let flags: u8 = match (s.zoom_locked, s.auto_advance) {
        (false, false) => 0,
        (true, false) => 1,
        (false, true) => 2,
        (true, true) => 3,
    };
    let steps: i8 = clamp_brightness(s.brightness_steps);
    let brightness: u8 = if steps < 0 {
        (256 + steps as i16) as u8
    } else {
        steps as u8
    };
    let mut bytes = magic_bytes(0x33);
    bytes.push(flags);
    bytes.push(brightness);
    assert(bytes@ =~= magic(0x33) + seq![
        flags_of(s@),
        brightness_byte(dimmed(s@.brightness_steps)),
    ]);
    append_le32(&mut bytes, photo.len());
    append_le32(&mut bytes, folder.len());
    path::append_bytes(&mut bytes, photo.as_slice());
    path::append_bytes(&mut bytes, folder.as_slice());
    Ok(bytes)
}

/// Reads a session from a record.
pub fn decode(b: &[u8]) -> (out: Result<SessionState, String>)
    ensures
        match decoded(b@) {
            Ok(s) => out is Ok && out->Ok_0@ == s,
            Err(reason) => out is Err && out->Err_0@ == reason,
        },
{
    let version: u8 = match find_version(b) {
        Some(version) => version,
        None => {
            return Err("invalid, oversized, or unsupported session file".to_owned());
        },
    };
    let start: usize = if version == 3 {
        MAGIC_LENGTH + 10
    } else {
        MAGIC_LENGTH + 9
    };
    if b.len() > MAX_FILE_BYTES || b.len() < start {
        return Err("invalid, oversized, or unsupported session file".to_owned());
    }
    let flags: u8 = b[MAGIC_LENGTH];
    if flags > 3 {
        return Err("unknown session preferences".to_owned());
    }
    let photo_len: u32 = Endian::Little.read32(b, start - 8);
    let folder_len: u32 = Endian::Little.read32(b, start - 4);
    if photo_len > MAX_PATH_BYTES as u32 || folder_len > MAX_PATH_BYTES as u32 || start as u32
        + photo_len + folder_len != b.len() as u32 {
        return Err("invalid session path lengths".to_owned());
    }
    let middle: usize = start + photo_len as usize;
    let photo_part = vstd::slice::slice_subrange(b, start, middle);
    let folder_part = vstd::slice::slice_subrange(b, middle, b.len());
    assert(folder_part@ =~= b@.skip(middle as int));
    let photo = match checked_path(photo_part) {
        Ok(photo) => photo,
        Err(reason) => {
            return Err(reason);
        },
    };
    let folder = match checked_path(folder_part) {
        Ok(folder) => folder,
        Err(reason) => {
            return Err(reason);
        },
    };
    let brightness_steps: i8 = if version == 3 {
        let byte: u8 = b[MAGIC_LENGTH + 1];
        if byte >= 128 {
            clamp_brightness((byte as i16 - 256) as i8)
        } else {
            clamp_brightness(byte as i8)
        }
    } else {
        0
    };
    let s = SessionState {
        photo,
        folder,
        zoom_locked: version == 1 || flags % 2 == 1,
        auto_advance: flags >= 2,
        brightness_steps,
    };
    match object(&s) {
        Some(reason) => Err(reason),
        None => Ok(s),
    }
}

/// A session with its brightness within range.
pub open spec fn settled(s: Session) -> Session {
    Session { brightness_steps: dimmed(s.brightness_steps), ..s }
}

/// What was recorded is what is read back.
pub proof fn law_record_round_trip(s: Session)
    requires
        encoded(s) is Ok,
        s.folder matches Some(p) ==> p.len() > 0,
    ensures
        decoded(encoded(s)->Ok_0) == Ok::<Session, Seq<char>>(settled(s)),
{
    let b = encoded(s)->Ok_0;
    let photo = raw(s.photo);
    let folder = raw(s.folder);
    if let Some(p) = s.photo {
        if p.len() == 0 {
            assert(path::trimmed_end(p, 0) == 0);
            assert(path::file_name_of(p) is None);
        }
    }
    lemma_layout(s);
    assert(objection(settled(s)) is None);
    let byte = brightness_byte(dimmed(s.brightness_steps));
    assert(brightness_of(byte) == dimmed(s.brightness_steps));
}

/// Where the parts of a record stand.
proof fn lemma_layout(s: Session)
    requires
        encoded(s) is Ok,
    ensures
        ({
            let b = encoded(s)->Ok_0;
            let photo = raw(s.photo);
            let folder = raw(s.folder);
            let n = photo.len() as int;
            &&& version_of(b) == Some(3int)
            &&& b.len() == 29 + n + folder.len()
            &&& b.len() <= MAX_FILE_BYTES
            &&& b[19] == flags_of(s)
            &&& b[20] == brightness_byte(dimmed(s.brightness_steps))
            &&& Endian::Little.at32(b, 21) == n
            &&& Endian::Little.at32(b, 25) == folder.len()
            &&& b.subrange(29, 29 + n) == photo
            &&& b.skip(29 + n) == folder
        }),
{
    let b = encoded(s)->Ok_0;
    let photo = raw(s.photo);
    let folder = raw(s.folder);
    assert(b.take(19) =~= magic(0x33));
    let n = photo.len() as int;
    assert(b.subrange(21, 25) =~= le32(n));
    assert(b.subrange(25, 29) =~= le32(folder.len() as int));
    lemma_le32(b, 21, photo.len() as int);
    lemma_le32(b, 25, folder.len() as int);
    assert(b.subrange(29, 29 + n) =~= photo);
    assert(b.skip(29 + n) =~= folder);
}

proof fn lemma_le32(b: Seq<u8>, at: int, n: int)
    requires
        0 <= n <= MAX_PATH_BYTES,
        0 <= at,
        at + 4 <= b.len(),
        b.subrange(at, at + 4) == le32(n),
    ensures
        Endian::Little.at32(b, at) == n,
{
    let four = b.subrange(at, at + 4);
    assert(four[0] == b[at] && four[1] == b[at + 1] && four[2] == b[at + 2] && four[3] == b[at + 3]);
}

/// A record that was cut short is rejected.
pub proof fn law_truncated_record_is_rejected(s: Session, n: int)
    requires
        encoded(s) is Ok,
        0 <= n < (encoded(s)->Ok_0).len(),
    ensures
        decoded((encoded(s)->Ok_0).take(n)) is Err,
{
    let b = encoded(s)->Ok_0;
    let cut = b.take(n);
    let photo = raw(s.photo);
    let folder = raw(s.folder);
    if n >= 19 {
        assert(cut.take(19) =~= magic(0x33));
        assert(version_of(cut) == Some(3int));
        if n >= 29 {
            assert(cut.subrange(21, 25) =~= le32(photo.len() as int));
            assert(cut.subrange(25, 29) =~= le32(folder.len() as int));
            lemma_le32(cut, 21, photo.len() as int);
            lemma_le32(cut, 25, folder.len() as int);
        }
    }
}

/// A record with something behind it is rejected.
pub proof fn law_longer_record_is_rejected(s: Session, more: Seq<u8>)
    requires
        encoded(s) is Ok,
        more.len() > 0,
    ensures
        decoded(encoded(s)->Ok_0 + more) is Err,
{
    let b = encoded(s)->Ok_0;
    let long = b + more;
    let photo = raw(s.photo);
    let folder = raw(s.folder);
    lemma_layout(s);
    assert(long.take(19) =~= magic(0x33));
    assert(version_of(long) == Some(3int));
    assert(long.subrange(21, 25) =~= le32(photo.len() as int));
    assert(long.subrange(25, 29) =~= le32(folder.len() as int));
    lemma_le32(long, 21, photo.len() as int);
    lemma_le32(long, 25, folder.len() as int);
}

/// Changes that are not saved yet. Times are in milliseconds.
#[derive(Debug)]
pub struct Pending {
    pub photo: Option<PhotoPath>,
    pub zoom_locked: Option<bool>,
    pub auto_advance: Option<bool>,
    pub brightness_steps: Option<i8>,
    pub first_change: Option<u64>,
    pub last_change: Option<u64>,
}

/// What a `Pending` says.
pub struct Changes {
    pub photo: Option<Seq<u8>>,
    pub zoom_locked: Option<bool>,
    pub auto_advance: Option<bool>,
    pub brightness_steps: Option<i8>,
    pub first_change: Option<u64>,
    pub last_change: Option<u64>,
}

impl View for Pending {
    type V = Changes;

    open spec fn view(&self) -> Changes {
        Changes {
            photo: path::written(self.photo),
            zoom_locked: self.zoom_locked,
            auto_advance: self.auto_advance,
            brightness_steps: self.brightness_steps,
            first_change: self.first_change,
            last_change: self.last_change,
        }
    }
}

/// No changes.
pub open spec fn unchanged() -> Changes {
    Changes {
        photo: None,
        zoom_locked: None,
        auto_advance: None,
        brightness_steps: None,
        first_change: None,
        last_change: None,
    }
}

/// A later time; the clock ends somewhere.
pub open spec fn after(time: u64, delay: int) -> u64 {
    if time + delay > u64::MAX {
        u64::MAX
    } else {
        (time + delay) as u64
    }
}

impl Changes {
    /// With a change at some time.
    pub open spec fn stamped(self, now: u64) -> Changes {
        Changes {
            first_change: match self.first_change {
                Some(first) => Some(first),
                None => Some(now),
            },
            last_change: Some(now),
            ..self
        }
    }

    /// When the changes are due: a while after the last one, and not long after
    /// the first.
    pub open spec fn deadline(self) -> Option<u64> {
        match (self.first_change, self.last_change) {
            (Some(first), Some(last)) => {
                let soon = after(last, SAVE_DELAY as int);
                let latest = after(first, MAX_DIRTY_AGE as int);
                Some(
                    if soon < latest {
                        soon
                    } else {
                        latest
                    },
                )
            },
            _ => None,
        }
    }

    /// A session with the changes made.
    pub open spec fn merged(self, s: Session) -> Session {
        Session {
            photo: match self.photo {
                Some(p) => Some(p),
                None => s.photo,
            },
            folder: match self.photo {
                Some(p) => path::parent_of(p),
                None => s.folder,
            },
            zoom_locked: match self.zoom_locked {
                Some(value) => value,
                None => s.zoom_locked,
            },
            auto_advance: match self.auto_advance {
                Some(value) => value,
                None => s.auto_advance,
            },
            brightness_steps: match self.brightness_steps {
                Some(value) => value,
                None => s.brightness_steps,
            },
        }
    }
}

/// However often changes follow one another, they are due in bounded time.
pub proof fn law_saves_are_not_put_off_forever(changes: Changes, now: u64)
    requires
        changes.first_change is Some,
    ensures
        changes.stamped(now).deadline() matches Some(due) && due <= after(
            changes.first_change->0,
            MAX_DIRTY_AGE as int,
        ),
{
}

impl Pending {
    pub fn new() -> (out: Self)
        ensures
            out@ == unchanged(),
    {
        Pending {
            photo: None,
            zoom_locked: None,
            auto_advance: None,
            brightness_steps: None,
            first_change: None,
            last_change: None,
        }
    }

    fn changed(&mut self, now: u64)
        ensures
            final(self)@ == old(self)@.stamped(now),
    {
        if self.first_change.is_none() {
            self.first_change = Some(now);
        }
        self.last_change = Some(now);
    }

    /// When the changes are due.
    pub fn deadline(&self) -> (out: Option<u64>)
        ensures
            out == self@.deadline(),
    {
        match (self.first_change, self.last_change) {
            (Some(first), Some(last)) => {
                let soon: u64 = last.saturating_add(SAVE_DELAY);
                let latest: u64 = first.saturating_add(MAX_DIRTY_AGE);
                Some(
                    if soon < latest {
                        soon
                    } else {
                        latest
                    },
                )
            },
            _ => None,
        }
    }
}

/// What is to be saved, and when.
#[derive(Debug)]
pub struct SessionWorker {
    pub pending: Pending,
    pub flush: bool,
    pub stop: bool,
}

impl SessionWorker {
    pub fn new() -> (out: Self)
        ensures
            out.pending@ == unchanged(),
            !out.flush,
            !out.stop,
    {
        SessionWorker { pending: Pending::new(), flush: false, stop: false }
    }

    /// Remembers a photograph that is on screen.
    pub fn remember(&mut self, photo: PhotoPath, now: u64)
        ensures
            final(self).pending@ == (Changes { photo: Some(photo.raw()), ..old(self).pending@ }).stamped(
                now,
            ),
            final(self).flush == old(self).flush,
            final(self).stop == old(self).stop,
    {
        self.pending.photo = Some(photo);
        self.pending.changed(now);
    }

    /// Remembers the preferences that were changed, and leaves the others.
    pub fn preferences(
        &mut self,
        zoom_locked: Option<bool>,
        auto_advance: Option<bool>,
        brightness_steps: Option<i8>,
        now: u64,
    )
        ensures
            ({
                let before = old(self).pending@;
                final(self).pending@ == if zoom_locked is None && auto_advance is None
                    && brightness_steps is None {
                    before
                } else {
                    (Changes {
                        zoom_locked: if zoom_locked is Some {
                            zoom_locked
                        } else {
                            before.zoom_locked
                        },
                        auto_advance: if auto_advance is Some {
                            auto_advance
                        } else {
                            before.auto_advance
                        },
                        brightness_steps: match brightness_steps {
                            Some(steps) => Some(dimmed(steps)),
                            None => before.brightness_steps,
                        },
                        ..before
                    }).stamped(now)
                }
            }),
            final(self).flush == old(self).flush,
            final(self).stop == old(self).stop,
    {
        if zoom_locked.is_none() && auto_advance.is_none() && brightness_steps.is_none() {
            return ;
        }
        if zoom_locked.is_some() {
            self.pending.zoom_locked = zoom_locked;
        }
        if auto_advance.is_some() {
            self.pending.auto_advance = auto_advance;
        }
        match brightness_steps {
            Some(steps) => {
                self.pending.brightness_steps = Some(clamp_brightness(steps));
            },
            None => {},
        }
        self.pending.changed(now);
    }

    /// Asks for a save at once. It is answered even if nothing changed.
    pub fn flush(&mut self)
        ensures
            final(self).flush,
            final(self).pending == old(self).pending,
            final(self).stop == old(self).stop,
    {
        self.flush = true;
    }

    /// The changes to be saved now, if it is time.
    pub fn due(&mut self, now: u64) -> (out: Option<Pending>)
        ensures
            final(self).stop == old(self).stop,
            ({
                let time = old(self).stop || old(self).flush || (
                old(self).pending@.deadline() matches Some(due) && due <= now);
                match out {
                    Some(pending) => time && pending@ == old(self).pending@
                        && final(self).pending@ == unchanged() && !final(self).flush,
                    None => !time && *final(self) == *old(self),
                }
            }),
    {
        let late = match self.pending.deadline() {
            Some(due) => due <= now,
            None => false,
        };
        if self.stop || self.flush || late {
            self.flush = false;
            let mut pending = Pending::new();
            std::mem::swap(&mut pending, &mut self.pending);
            Some(pending)
        } else {
            None
        }
    }
}

/// The session as it is, and whether it must be saved.
#[derive(Debug)]
pub struct SessionKeeper {
    pub current: SessionState,
    pub needs_save: bool,
}

fn same_choice(a: &Option<PhotoPath>, b: &Option<PhotoPath>) -> (out: bool)
    ensures
        out == (match (path::written(*a), path::written(*b)) {
            (Some(a), Some(b)) => path::same_path(a, b),
            (None, None) => true,
            _ => false,
        }),
{
    match (a, b) {
        (Some(a), Some(b)) => a.same_path(b),
        (None, None) => true,
        _ => false,
    }
}

/// Whether two optional paths name the same place.
pub open spec fn same_choices(a: Option<Seq<u8>>, b: Option<Seq<u8>>) -> bool {
    match (a, b) {
        (Some(a), Some(b)) => path::same_path(a, b),
        (None, None) => true,
        _ => false,
    }
}

/// Whether two sessions say the same.
pub open spec fn equivalent(a: Session, b: Session) -> bool {
    &&& same_choices(a.photo, b.photo)
    &&& same_choices(a.folder, b.folder)
    &&& a.zoom_locked == b.zoom_locked
    &&& a.auto_advance == b.auto_advance
    &&& a.brightness_steps == b.brightness_steps
}

impl SessionKeeper {
    /// Begins with what was read, if anything was. An older record is written
    /// anew with the next save.
    pub fn new(loaded: Option<(SessionState, bool)>) -> (out: Self)
        ensures
            match loaded {
                Some((s, outdated)) => out.current@ == s@ && out.needs_save == outdated,
                None => out.current@ == fresh() && !out.needs_save,
            },
    {
        match loaded {
            Some((current, needs_save)) => SessionKeeper { current, needs_save },
            None => SessionKeeper { current: SessionState::default(), needs_save: false },
        }
    }

    /// Takes in changes.
    pub fn merge(&mut self, pending: Pending)
        ensures
            final(self).current@ == pending@.merged(old(self).current@),
            final(self).needs_save == (old(self).needs_save || !equivalent(
                pending@.merged(old(self).current@),
                old(self).current@,
            )),
    {
        let photo = match &pending.photo {
            Some(p) => Some(p.copied()),
            None => match &self.current.photo {
                Some(p) => Some(p.copied()),
                None => None,
            },
        };
        let folder = match &pending.photo {
            Some(p) => p.parent(),
            None => match &self.current.folder {
                Some(p) => Some(p.copied()),
                None => None,
            },
        };
        let zoom_locked = match pending.zoom_locked {
            Some(value) => value,
            None => self.current.zoom_locked,
        };
        let auto_advance = match pending.auto_advance {
            Some(value) => value,
            None => self.current.auto_advance,
        };
        let brightness_steps: i8 = match pending.brightness_steps {
            Some(value) => value,
            None => self.current.brightness_steps,
        };
        let same = same_choice(&photo, &self.current.photo) && same_choice(
            &folder,
            &self.current.folder,
        ) && zoom_locked == self.current.zoom_locked && auto_advance == self.current.auto_advance
            && brightness_steps == self.current.brightness_steps;
        self.needs_save = self.needs_save || !same;
        self.current = SessionState { photo, folder, zoom_locked, auto_advance, brightness_steps };
        assert(self.current@.photo == pending@.merged(old(self).current@).photo);
        assert(self.current@.folder == pending@.merged(old(self).current@).folder);
    }

    /// Takes in whether a save went well. A save that failed is tried again.
    pub fn saved(&mut self, well: bool)
        ensures
            final(self).current == old(self).current,
            final(self).needs_save == (old(self).needs_save && !well),
    {
        if well {
            self.needs_save = false;
        }
    }
}

/// Where a session is taken up again: at its photograph, or in its folder.
pub fn resume_path(s: &SessionState, photo_there: bool, folder_there: bool) -> (out: Option<PhotoPath>)
    ensures
        path::written(out) == if s@.photo is Some && photo_there {
            s@.photo
        } else if s@.folder is Some && folder_there {
            s@.folder
        } else {
            None
        },
{
    match &s.photo {
        Some(p) => if photo_there {
            return Some(p.copied());
        },
        None => {},
    }
    match &s.folder {
        Some(p) => if folder_there {
            Some(p.copied())
        } else {
            None
        },
        None => None,
    }
}

/// Whether there is a record to be read, of a look at its folder and at itself.
pub open spec fn recorded(parent: Sight, file: Sight, length: int) -> Result<bool, Seq<char>> {
    match parent {
        Sight::Absent(_) => Ok(false),
        Sight::Failed(error) => Err(error),
        Sight::Folder(_) => match file {
            Sight::Absent(_) => Ok(false),
            Sight::Failed(error) => Err(error),
            Sight::File(_) => if length > MAX_FILE_BYTES {
                Err("session file exceeds 64 KiB"@)
            } else {
                Ok(true)
            },
            _ => Err("session file must be a regular file, not a symlink"@),
        },
        _ => Err("session parent must be a directory, not a symlink"@),
    }
}

/// Whether there is a record to be read.
pub fn find_record(parent: &Seen, file: &Seen, length: u64) -> (out: Result<bool, String>)
    ensures
        text::same(out, recorded(parent@, file@, length as int)),
{
    match parent {
        Seen::Absent(_) => Ok(false),
        Seen::Failed(error) => Err(error.as_str().to_owned()),
        Seen::Folder(_) => match file {
            Seen::Absent(_) => Ok(false),
            Seen::Failed(error) => Err(error.as_str().to_owned()),
            Seen::File(_) => if length > MAX_FILE_BYTES as u64 {
                Err("session file exceeds 64 KiB".to_owned())
            } else {
                Ok(true)
            },
            _ => Err("session file must be a regular file, not a symlink".to_owned()),
        },
        _ => Err("session parent must be a directory, not a symlink".to_owned()),
    }
}

/// Reads a record, and says whether it is an older one.
pub fn read_record(b: &[u8]) -> (out: Result<(SessionState, bool), String>)
    ensures
        match decoded(b@) {
            Ok(s) => out is Ok && (out->Ok_0).0@ == s && (out->Ok_0).1 == (version_of(b@) != Some(
                3int,
            )),
            Err(reason) => out is Err && out->Err_0@ == reason,
        },
{
    let outdated = !begins_with(b, &magic_bytes(0x33));
    match decode(b) {
        Ok(s) => Ok((s, outdated)),
        Err(reason) => Err(reason),
    }
}

/// Why a record that was written aside must not take its place: the folder is
/// another one, or something else is in the way.
pub open spec fn barred(before: FileId, parent: Sight, file: Sight) -> Option<Seq<char>> {
    match parent {
        Sight::Absent(_) => Some("session directory disappeared"@),
        Sight::Failed(error) => Some(error),
        Sight::Folder(id) => if id != before {
            Some("session directory changed during save"@)
        } else {
            match file {
                Sight::Absent(_) | Sight::File(_) => None,
                Sight::Failed(error) => Some(error),
                _ => Some("session file must be a regular file, not a symlink"@),
            }
        },
        _ => Some("session parent must be a directory, not a symlink"@),
    }
}

/// Why a record that was written aside must not take its place.
pub fn publication_barred(before: FileId, parent: &Seen, file: &Seen) -> (out: Option<String>)
    ensures
        text::same_option(out, barred(before, parent@, file@)),
{
    match parent {
        Seen::Absent(_) => Some("session directory disappeared".to_owned()),
        Seen::Failed(error) => Some(error.as_str().to_owned()),
        Seen::Folder(id) => if *id != before {
            Some("session directory changed during save".to_owned())
        } else {
            match file {
                Seen::Absent(_) => None,
                Seen::File(_) => None,
                Seen::Failed(error) => Some(error.as_str().to_owned()),
                _ => Some("session file must be a regular file, not a symlink".to_owned()),
            }
        },
        _ => Some("session parent must be a directory, not a symlink".to_owned()),
    }
}

#[derive(Debug)]
pub enum SessionEvent {
    Loaded { state: Result<SessionState, String>, resume_path: Option<PhotoPath> },
    Saved(Result<(), String>),
}

/// Changes are due half a second after the last, and two seconds after the first at
/// the latest.
pub proof fn law_changes_are_saved_soon(changes: Changes, first: u64, last: u64)
    requires
        changes.first_change == Some(first),
        changes.last_change == Some(last),
        first <= last,
        last <= u64::MAX - 2000,
    ensures
        last - first <= 1500 ==> changes.deadline() == Some((last + 500) as u64),
        last - first > 1500 ==> changes.deadline() == Some((first + 2000) as u64),
{
}

/// What was chosen last is kept, and everything else stays as it was.
pub proof fn law_the_last_choice_is_kept(changes: Changes, s: Session, p: Seq<u8>)
    ensures
        changes.photo == Some(p) ==> changes.merged(s).photo == Some(p) && changes.merged(s).folder
            == path::parent_of(p),
        changes.photo is None ==> changes.merged(s).photo == s.photo && changes.merged(s).folder
            == s.folder,
        changes.zoom_locked is None ==> changes.merged(s).zoom_locked == s.zoom_locked,
        changes.zoom_locked matches Some(value) ==> changes.merged(s).zoom_locked == value,
        changes.auto_advance is None ==> changes.merged(s).auto_advance == s.auto_advance,
        changes.auto_advance matches Some(value) ==> changes.merged(s).auto_advance == value,
        changes.brightness_steps is None ==> changes.merged(s).brightness_steps
            == s.brightness_steps,
        changes.brightness_steps matches Some(value) ==> changes.merged(s).brightness_steps == value,
        unchanged().merged(s) == s,
{
}

/// Whether a photograph of some name can be remembered with its folder.
pub open spec fn memorable(folder: Seq<u8>, name: Seq<u8>) -> bool {
    &&& folder.len() >= 2
    &&& folder[0] == '/' as u8
    &&& folder.last() != '/' as u8
    &&& !(folder.last() == '.' as u8 && folder[folder.len() - 2] == '/' as u8)
    &&& name.len() > 0
    &&& forall|k: int| 0 <= k < name.len() ==> #[trigger] name[k] != '/' as u8
    &&& name != seq!['.' as u8]
    &&& name != seq!['.' as u8, '.' as u8]
    &&& folder.len() + 1 + name.len() <= 16384
    &&& !folder.contains(0)
    &&& !name.contains(0)
}

proof fn lemma_memorable(s: Session, folder: Seq<u8>, name: Seq<u8>)
    requires
        memorable(folder, name),
        s.photo == Some(folder + seq!['/' as u8] + name),
        s.folder == Some(folder),
    ensures
        objection(s) is None,
        stored(folder + seq!['/' as u8] + name) == Ok::<Option<Seq<u8>>, Seq<char>>(s.photo),
        stored(folder) == Ok::<Option<Seq<u8>>, Seq<char>>(s.folder),
{
    let photo = folder + seq!['/' as u8] + name;
    path::law_paths_have_a_folder_and_a_name(folder, name);
    path::law_tidy_forms_name_components(folder, folder);
    assert(!photo.contains(0)) by {
        if photo.contains(0) {
            let k = photo.index_of(0);
            if k < folder.len() {
                assert(folder[k] == 0);
            } else if k > folder.len() {
                assert(name[k - folder.len() - 1] == 0);
            }
        }
    }
    assert(photo[0] == folder[0]);
}

/// Every photograph with an absolute path of a sensible length is remembered, and so
/// are the preferences: what was recorded is what is read back.
pub proof fn law_sessions_are_remembered(
    folder: Seq<u8>,
    name: Seq<u8>,
    zoom_locked: bool,
    auto_advance: bool,
    steps: i8,
)
    requires
        memorable(folder, name),
        -9 <= steps <= 9,
    ensures
        ({
            let s = Session {
                photo: Some(folder + seq!['/' as u8] + name),
                folder: Some(folder),
                zoom_locked,
                auto_advance,
                brightness_steps: steps,
            };
            &&& encoded(s) is Ok
            &&& decoded(encoded(s)->Ok_0) == Ok::<Session, Seq<char>>(s)
        }),
{
    let s = Session {
        photo: Some(folder + seq!['/' as u8] + name),
        folder: Some(folder),
        zoom_locked,
        auto_advance,
        brightness_steps: steps,
    };
    lemma_memorable(s, folder, name);
    law_record_round_trip(s);
}

/// The bytes that begin every record.
pub open spec fn heading() -> Seq<u8> {
    seq![
        'F' as u8, 'A' as u8, 'S' as u8, 'T' as u8, 'C' as u8, 'U' as u8, 'L' as u8, 'L' as u8,
        '-' as u8, 'S' as u8, 'E' as u8, 'S' as u8, 'S' as u8, 'I' as u8, 'O' as u8, 'N' as u8,
        '\n' as u8,
    ]
}

/// Whether four bytes hold a number, the lowest byte first.
pub open spec fn spells(four: Seq<u8>, n: int) -> bool {
    four.len() == 4 && four[0] + 256 * four[1] + 65536 * four[2] + 16777216 * four[3] == n
}

/// Records of all versions are read. The lowest bit of the flags locks the zoom, which
/// the first version always does; the next one advances after a rating. Only the third
/// version knows the brightness, and no version knows other flags.
#[verifier::rlimit(40)]
pub proof fn law_records_of_all_versions_are_read(
    version: u8,
    flags: u8,
    brightness: Seq<u8>,
    first: Seq<u8>,
    second: Seq<u8>,
    folder: Seq<u8>,
    name: Seq<u8>,
)
    requires
        memorable(folder, name),
        version == '1' as u8 || version == '2' as u8 || version == '3' as u8,
        brightness.len() == if version == '3' as u8 { 1int } else { 0int },
        spells(first, folder.len() + 1int + name.len()),
        spells(second, folder.len() as int),
    ensures
        ({
            let photo = folder + seq!['/' as u8] + name;
            let b = heading() + seq![version, '\n' as u8, flags] + brightness + first + second
                + photo + folder;
            &&& flags > 3 ==> decoded(b) is Err
            &&& flags <= 3 ==> {
                &&& decoded(b) is Ok
                &&& (decoded(b)->Ok_0).photo == Some(photo)
                &&& (decoded(b)->Ok_0).folder == Some(folder)
                &&& (decoded(b)->Ok_0).zoom_locked == (version == '1' as u8 || flags == 1 || flags
                    == 3)
                &&& (decoded(b)->Ok_0).auto_advance == (flags == 2 || flags == 3)
                &&& version != '3' as u8 ==> (decoded(b)->Ok_0).brightness_steps == 0
                &&& version == '3' as u8 && brightness[0] <= 9 ==> (
                decoded(b)->Ok_0).brightness_steps == brightness[0]
                &&& version == '3' as u8 && brightness[0] >= 247 ==> (
                decoded(b)->Ok_0).brightness_steps == brightness[0] - 256
            }
        }),
{
    let photo = folder + seq!['/' as u8] + name;
    let b = heading() + seq![version, '\n' as u8, flags] + brightness + first + second + photo
        + folder;
    let start = if version == '3' as u8 {
        29int
    } else {
        28int
    };
    assert(b.take(19) =~= magic(version));
    assert(b.take(19)[17] == version);
    assert(magic(0x33)[17] == 0x33 && magic(0x32)[17] == 0x32);
    assert(b[19] == flags);
    if version == '3' as u8 {
        assert(b[20] == brightness[0]);
    }
    assert(b.len() == start + photo.len() + folder.len());
    assert(b[start - 8] == first[0] && b[start - 7] == first[1] && b[start - 6] == first[2] && b[start
        - 5] == first[3]);
    assert(b[start - 4] == second[0] && b[start - 3] == second[1] && b[start - 2] == second[2] && b[start
        - 1] == second[3]);
    assert(Endian::Little.at32(b, start - 8) == photo.len());
    assert(Endian::Little.at32(b, start - 4) == folder.len());
    assert(b.subrange(start, start + photo.len()) =~= photo);
    assert(b.skip(start + photo.len()) =~= folder);
    let s = Session {
        photo: Some(photo),
        folder: Some(folder),
        zoom_locked: version == '1' as u8 || flags % 2 == 1,
        auto_advance: flags >= 2,
        brightness_steps: if version == '3' as u8 {
            brightness_of(b[20])
        } else {
            0
        },
    };
    lemma_memorable(s, folder, name);
}

} // verus!
