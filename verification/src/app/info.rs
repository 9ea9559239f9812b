//! What is known of the photographs.
use crate::app::path_map::PathMap;
use crate::metadata::exif::ExifMetadata;
use crate::path::{Identity, PhotoPath};
use vstd::prelude::*;

verus! {

/// What is known of a photograph. An edit has a revision; it is saved once its
/// revision is the saved one.
#[derive(Debug)]
pub struct PhotoInfo {
    pub metadata: Option<ExifMetadata>,
    pub rating: Option<i8>,
    pub read: bool,
    pub revision: u64,
    pub saved_revision: u64,
    /// The rating could not be read or saved.
    pub failed: bool,
}

/// What is known of a photograph at first.
pub open spec fn unseen() -> PhotoInfo {
    PhotoInfo {
        metadata: None,
        rating: None,
        read: false,
        revision: 0,
        saved_revision: 0,
        failed: false,
    }
}

impl Default for PhotoInfo {
    fn default() -> (out: Self)
        ensures
            out == unseen(),
    {
        PhotoInfo {
            metadata: None,
            rating: None,
            read: false,
            revision: 0,
            saved_revision: 0,
            failed: false,
        }
    }
}

/// What is known of some photographs.
pub type Notes = Map<Seq<u8>, PhotoInfo>;

/// What is known of a photograph.
pub open spec fn info_of(notes: Notes, k: Seq<u8>) -> PhotoInfo {
    if notes.contains_key(k) {
        notes[k]
    } else {
        unseen()
    }
}

/// The rating of a photograph.
pub open spec fn rating_of(notes: Notes, k: Seq<u8>) -> Option<i8> {
    info_of(notes, k).rating
}

/// The orientation that the metadata of a photograph give.
pub open spec fn orientation_of(notes: Notes, k: Seq<u8>) -> Option<u16> {
    match info_of(notes, k).metadata {
        Some(metadata) => Some(metadata.orientation),
        None => None,
    }
}

/// The orientation of a photograph, or another where it is not known.
pub open spec fn upright(notes: Notes, k: Seq<u8>, otherwise: u16) -> u16 {
    match orientation_of(notes, k) {
        Some(orientation) => orientation,
        None => otherwise,
    }
}

impl PhotoInfo {
    /// Whether an edit is not saved yet.
    pub open spec fn dirty(self) -> bool {
        self.revision != self.saved_revision
    }

    /// After a rating was read in passing. An edit wins over what was read.
    pub open spec fn indexed(self, rating: Option<i8>) -> PhotoInfo {
        if self.revision != 0 {
            self
        } else {
            PhotoInfo { rating, failed: rating is None, ..self }
        }
    }

    /// After the photograph was read. Metadata that could not be read leave
    /// those that are known; a sidecar without a rating means no stars.
    pub open spec fn viewed(
        self,
        metadata: Option<ExifMetadata>,
        rating: Result<Option<i8>, ()>,
    ) -> PhotoInfo {
        let kept = PhotoInfo {
            read: true,
            metadata: if metadata is Some {
                metadata
            } else {
                self.metadata
            },
            ..self
        };
        kept.indexed(
            match rating {
                Ok(Some(stars)) => Some(stars),
                Ok(None) => Some(0),
                Err(_) => None,
            },
        )
    }

    /// With an edit that is not saved yet.
    pub open spec fn edited(self, rating: Option<i8>, revision: u64) -> PhotoInfo {
        PhotoInfo {
            rating: if rating is Some {
                rating
            } else {
                self.rating
            },
            revision,
            failed: false,
            ..self
        }
    }

    /// After an edit was saved, or not. A report on an older edit changes
    /// nothing. An undo brings back the rating it restored; one that failed and
    /// left nothing unsaved is done with.
    pub open spec fn saved(self, revision: u64, undo: Option<Option<i8>>, well: bool, unsaved: bool) -> PhotoInfo {
        if self.revision != revision {
            self
        } else if well {
            PhotoInfo {
                saved_revision: revision,
                failed: false,
                rating: match undo {
                    Some(Some(stars)) => Some(stars),
                    Some(None) => Some(0),
                    None => self.rating,
                },
                ..self
            }
        } else {
            PhotoInfo {
                failed: true,
                saved_revision: if undo is Some && !unsaved {
                    revision
                } else {
                    self.saved_revision
                },
                ..self
            }
        }
    }

    /// After the photograph came back from the rejected ones.
    pub open spec fn returned(self, rating: Option<i8>) -> PhotoInfo {
        PhotoInfo {
            revision: 0,
            saved_revision: 0,
            read: false,
            rating,
            failed: rating is None,
            ..self
        }
    }

    pub fn is_dirty(&self) -> (out: bool)
        ensures
            out == self.dirty(),
    {
        self.revision != self.saved_revision
    }

    pub fn index(&mut self, rating: Option<i8>)
        ensures
            *final(self) == old(self).indexed(rating),
    {
        if self.revision == 0 {
            self.rating = rating;
            self.failed = rating.is_none();
        }
    }

    pub fn view_photo(&mut self, metadata: Option<ExifMetadata>, rating: Result<Option<i8>, ()>)
        ensures
            *final(self) == old(self).viewed(metadata, rating),
    {
        self.read = true;
        if metadata.is_some() {
            self.metadata = metadata;
        }
        let stars: Option<i8> = match rating {
            Ok(Some(stars)) => Some(stars),
            Ok(None) => Some(0),
            Err(_) => None,
        };
        self.index(stars);
    }

    pub fn edit(&mut self, rating: Option<i8>, revision: u64)
        ensures
            *final(self) == old(self).edited(rating, revision),
    {
        if rating.is_some() {
            self.rating = rating;
        }
        self.revision = revision;
        self.failed = false;
    }

    /// Says whether the report was on the last edit.
    pub fn save(
        &mut self,
        revision: u64,
        undo: Option<Option<i8>>,
        well: bool,
        unsaved: bool,
    ) -> (out: bool)
        ensures
            *final(self) == old(self).saved(revision, undo, well, unsaved),
            out == (old(self).revision == revision),
    {
        if self.revision != revision {
            return false;
        }
        if well {
            self.saved_revision = revision;
            self.failed = false;
            match undo {
                Some(Some(stars)) => {
                    self.rating = Some(stars);
                },
                Some(None) => {
                    self.rating = Some(0);
                },
                None => {},
            }
        } else {
            self.failed = true;
            if undo.is_some() && !unsaved {
                self.saved_revision = revision;
            }
        }
        true
    }

    pub fn come_back(&mut self, rating: Option<i8>)
        ensures
            *final(self) == old(self).returned(rating),
    {
        self.revision = 0;
        self.saved_revision = 0;
        self.read = false;
        self.rating = rating;
        self.failed = rating.is_none();
    }
}

/// An edit is never overwritten by a rating that was read from disk.
pub proof fn law_edits_win_over_what_was_read(
    info: PhotoInfo,
    stars: i8,
    revision: u64,
    metadata: Option<ExifMetadata>,
    read: Result<Option<i8>, ()>,
    indexed: Option<i8>,
)
    requires
        revision != 0,
    ensures
        info.edited(Some(stars), revision).indexed(indexed).rating == Some(stars),
        info.edited(Some(stars), revision).viewed(metadata, read).rating == Some(stars),
{
}

/// A report on an older edit never marks a newer one as saved.
pub proof fn law_newer_edits_stay_unsaved(
    info: PhotoInfo,
    stars: i8,
    revision: u64,
    older: u64,
    undo: Option<Option<i8>>,
    well: bool,
    unsaved: bool,
)
    requires
        older != revision,
        info.saved_revision != revision,
    ensures
        info.edited(Some(stars), revision).saved(older, undo, well, unsaved).dirty(),
        info.edited(Some(stars), revision).saved(older, undo, well, unsaved).rating == Some(stars),
{
}

/// A rating that was taken back on disk is shown again, no stars where there was none.
/// What could not be saved is told, and the rating that was chosen stays.
pub proof fn law_reports_settle_edits(info: PhotoInfo, stars: i8, unsaved: bool)
    ensures
        info.saved(info.revision, Some(Some(stars)), true, unsaved).rating == Some(stars),
        info.saved(info.revision, Some(None), true, unsaved).rating == Some(0i8),
        info.saved(info.revision, None, true, unsaved).rating == info.rating,
        forall|undo: Option<Option<i8>>|
            {
                let after = #[trigger] info.saved(info.revision, undo, true, unsaved);
                !after.dirty() && !after.failed && after.metadata == info.metadata && after.read
                    == info.read
            },
        forall|undo: Option<Option<i8>>|
            {
                let after = #[trigger] info.saved(info.revision, undo, false, unsaved);
                after.failed && after.rating == info.rating && (undo is None || unsaved
                    ==> after.dirty() == info.dirty()) && after.metadata == info.metadata
            },
        info.saved(info.revision, Some(Some(stars)), false, false).dirty() == false,
{
}

/// The rating of a photograph.
pub fn find_rating(notes: &PathMap<PhotoInfo>, p: &PhotoPath) -> (out: Option<i8>)
    requires
        notes.sound(),
    ensures
        out == rating_of(notes@, p@),
{
    match notes.get(p) {
        Some(info) => info.rating,
        None => None,
    }
}

/// The orientation of a photograph, or another where it is not known.
pub fn find_orientation(notes: &PathMap<PhotoInfo>, p: &PhotoPath, otherwise: u16) -> (out: u16)
    requires
        notes.sound(),
    ensures
        out == upright(notes@, p@, otherwise),
{
    match notes.get(p) {
        Some(info) => match &info.metadata {
            Some(metadata) => metadata.orientation,
            None => otherwise,
        },
        None => otherwise,
    }
}

/// Takes out what is known of a photograph.
pub fn take(notes: &mut PathMap<PhotoInfo>, p: &PhotoPath) -> (out: PhotoInfo)
    requires
        old(notes).sound(),
    ensures
        final(notes).sound(),
        final(notes)@ == old(notes)@.remove(p@),
        out == info_of(old(notes)@, p@),
{
    match notes.remove(p) {
        Some(info) => info,
        None => PhotoInfo::default(),
    }
}

/// Puts back what is known of a photograph.
pub fn put(notes: &mut PathMap<PhotoInfo>, p: &PhotoPath, info: PhotoInfo)
    requires
        old(notes).sound(),
    ensures
        final(notes).sound(),
        final(notes)@ == old(notes)@.insert(p@, info),
        forall|before: Notes|
            #![trigger before.remove(p@)]
            old(notes)@ == before.remove(p@) ==> final(notes)@ == before.insert(p@, info),
{
    let ghost was = notes@;
    notes.insert(p.copied(), info);
    proof {
        assert forall|before: Notes|
            #![trigger before.remove(p@)]
            was == before.remove(p@) implies notes@ == before.insert(p@, info) by {
            assert(notes@ =~= before.insert(p@, info));
        }
    }
}

/// The photographs with unsaved edits.
pub open spec fn unsaved(notes: Notes) -> Set<Seq<u8>> {
    Set::new(|k: Seq<u8>| notes.contains_key(k) && notes[k].dirty())
}

/// The number of photographs with unsaved edits.
pub fn count_unsaved(notes: &PathMap<PhotoInfo>) -> (out: usize)
    requires
        notes.sound(),
    ensures
        unsaved(notes@).finite(),
        out == unsaved(notes@).len(),
{
    let ghost mut found: Set<Seq<u8>> = Set::empty();
    let mut n: usize = 0;
    let mut i: usize = 0;
    while i < notes.entries.len()
        invariant
            notes.sound(),
            i <= notes.entries@.len(),
            n <= i,
            found.finite(),
            n == found.len(),
            forall|k: Seq<u8>| #[trigger]
                found.contains(k) <==> exists|j: int|
                    0 <= j < i && #[trigger] notes.keys()[j] == k && notes.entries@[j].1.dirty(),
        decreases notes.entries@.len() - i,
    {
        let ghost before = found;
        let ghost key = notes.keys()[i as int];
        proof {
            notes.lemma_lookup(i as int);
        }
        if notes.entries[i].1.is_dirty() {
            proof {
                if before.contains(key) {
                    let j = choose|j: int|
                        0 <= j < i && #[trigger] notes.keys()[j] == key && notes.entries@[j].1.dirty();
                    notes.lemma_once(i as int, j);
                }
                found = before.insert(key);
            }
            n += 1;
        }
        proof {
            assert forall|k: Seq<u8>| #[trigger]
                found.contains(k) <==> exists|j: int|
                    0 <= j < i + 1 && #[trigger] notes.keys()[j] == k && notes.entries@[j].1.dirty() by {
                if before.contains(k) {
                    let j = choose|j: int|
                        0 <= j < i && #[trigger] notes.keys()[j] == k && notes.entries@[j].1.dirty();
                    assert(notes.keys()[j] == k);
                }
            }
        }
        i += 1;
    }
    proof {
        assert forall|k: Seq<u8>| found.contains(k) <==> unsaved(notes@).contains(k) by {
            if found.contains(k) {
                let j = choose|j: int|
                    0 <= j < i && #[trigger] notes.keys()[j] == k && notes.entries@[j].1.dirty();
                notes.lemma_lookup(j);
            }
            if unsaved(notes@).contains(k) {
                let j = choose|j: int| 0 <= j < notes.keys().len() && notes.keys()[j] == k;
                notes.lemma_lookup(j);
                assert(notes.keys()[j] == k);
            }
        }
        assert(found =~= unsaved(notes@));
    }
    n
}

/// Forgets all but the unsaved edits.
pub fn keep_unsaved(notes: &mut PathMap<PhotoInfo>)
    requires
        old(notes).sound(),
    ensures
        final(notes).sound(),
        final(notes)@ == old(notes)@.restrict(unsaved(old(notes)@)),
{
    let ghost was = *notes;
    let mut i: usize = 0;
    let ghost mut gone: Set<Seq<u8>> = Set::empty();
    assert(notes@ =~= was@.remove_keys(gone));
    while i < notes.entries.len()
        invariant
            was.sound(),
            notes.sound(),
            i <= notes.entries@.len(),
            notes@ == was@.remove_keys(gone),
            forall|k: Seq<u8>| #[trigger] gone.contains(k) ==> was@.contains_key(k) && !was@[k].dirty(),
            forall|j: int| 0 <= j < i ==> (#[trigger] notes.entries@[j]).1.dirty(),
        decreases notes.entries@.len() - i,
    {
        proof {
            notes.lemma_lookup(i as int);
        }
        if notes.entries[i].1.is_dirty() {
            i += 1;
        } else {
            let ghost before = *notes;
            let k = notes.entries[i].0.copied();
            let _ = notes.remove_at(i);
            proof {
                assert(was@.remove_keys(gone).remove(k@) =~= was@.remove_keys(gone.insert(k@)));
                gone = gone.insert(k@);
                assert forall|j: int| 0 <= j < i implies (#[trigger] notes.entries@[j]).1.dirty() by {
                    assert(notes.entries@[j] == before.entries@[j]);
                }
            }
        }
    }
    proof {
        let want = was@.restrict(unsaved(was@));
        assert forall|k: Seq<u8>| #[trigger] notes@.contains_key(k) <==> want.contains_key(k) by {
            if notes@.contains_key(k) {
                let j = choose|j: int| 0 <= j < notes.keys().len() && notes.keys()[j] == k;
                notes.lemma_lookup(j);
                assert(notes.entries@[j].1.dirty());
            }
        }
        assert(notes@ =~= want);
    }
}

} // verus!
