//! Listing a folder.
use crate::browser::directory;
use crate::browser::directory::is_arw;
use crate::path;
use crate::path::{Identity, PhotoPath};
use vstd::prelude::*;

verus! {

/// Photographs after which an early listing is worth showing.
pub const EARLY_COUNT: usize = 32;

/// Milliseconds after which an early listing is worth showing.
pub const EARLY_TIME: u64 = 40;

/// A listing of a folder.
#[derive(Debug)]
pub struct ScanResult {
    pub session: u64,
    pub folder: PhotoPath,
    pub files: Vec<PhotoPath>,
    pub requested: Option<PhotoPath>,
    pub complete: bool,
    /// Milliseconds that the listing took.
    pub elapsed: u64,
}

/// The key of an optional member.
pub open spec fn key_of<P: Identity>(p: Option<&P>) -> Option<P::Key> {
    match p {
        Some(p) => Some(p.key()),
        None => None,
    }
}

/// The photograph to show of a listing: the one that was asked for, or, once the
/// user has moved on, the one on screen.
pub open spec fn selected<K>(
    files: Seq<K>,
    requested: Option<K>,
    previous: Option<K>,
    user_navigated: bool,
) -> int {
    let preferred = if user_navigated && previous is Some {
        previous
    } else {
        requested
    };
    match preferred {
        Some(k) => match path::first_position(files, k) {
            Some(i) => i,
            None => 0,
        },
        None => 0,
    }
}

/// The photograph to show of a listing. An early listing must not replace the
/// first photograph of the whole one, nor the one that was opened.
pub fn selected_index<P: Identity>(
    files: &Vec<P>,
    requested: Option<&P>,
    previous: Option<&P>,
    user_navigated: bool,
) -> (out: usize)
    ensures
        out == selected(path::keys(files@), key_of(requested), key_of(previous), user_navigated),
{
    let preferred = if user_navigated && previous.is_some() {
        previous
    } else {
        requested
    };
    match preferred {
        Some(p) => match path::position_of(files, p) {
            Some(i) => i,
            None => 0,
        },
        None => 0,
    }
}

/// What is to be listed: a folder, and the photograph that was asked for.
#[derive(Debug)]
pub struct Root {
    pub folder: PhotoPath,
    pub requested: Option<PhotoPath>,
}

/// What is to be listed for a path that is a file or a folder.
pub fn root_of(at: &PhotoPath, is_file: bool, is_folder: bool) -> (out: Result<Root, String>)
    ensures
        if is_file && directory::arw(at@) {
            match path::parent_of(at.raw()) {
                Some(parent) => {
                    &&& out is Ok
                    &&& out->Ok_0.folder.raw() == parent
                    &&& out->Ok_0.requested is Some
                    &&& (out->Ok_0.requested->0).raw() == at.raw()
                },
                None => out is Err && out->Err_0@ == "file has no parent folder"@,
            }
        } else if is_folder {
            out is Ok && out->Ok_0.folder.raw() == at.raw() && out->Ok_0.requested is None
        } else {
            out is Err && out->Err_0@ == "Open a folder or a Sony .ARW photograph."@
        },
{
    if is_file && is_arw(at) {
        match at.parent() {
            Some(folder) => Ok(Root { folder, requested: Some(at.copied()) }),
            None => Err("file has no parent folder".to_owned()),
        }
    } else if is_folder {
        Ok(Root { folder: at.copied(), requested: None })
    } else {
        Err("Open a folder or a Sony .ARW photograph.".to_owned())
    }
}

/// A folder that is being listed.
#[derive(Debug)]
pub struct Scanner {
    pub session: u64,
    pub root: Root,
    pub files: Vec<PhotoPath>,
    pub early_sent: bool,
}

fn copy_of(p: &Option<PhotoPath>) -> (out: Option<PhotoPath>)
    ensures
        out is Some == p is Some,
        path::written(out) == path::written(*p),
{
    match p {
        Some(p) => Some(p.copied()),
        None => None,
    }
}

/// Whether a listing is an orderly one of some files.
pub open spec fn lists(files: Seq<PhotoPath>, of: Seq<PhotoPath>) -> bool {
    &&& directory::listed(path::keys(files))
    &&& path::spellings(files).to_multiset() == path::spellings(of).to_multiset()
}

impl Scanner {
    pub fn new(session: u64, root: Root) -> (out: Self)
        ensures
            out.session == session,
            out.root == root,
            out.files@.len() == 0,
            !out.early_sent,
    {
        Scanner { session, root, files: Vec::new(), early_sent: false }
    }

    /// Takes in an entry of the folder. Only ordinary ARW files are listed.
    pub fn add_entry(&mut self, at: PhotoPath, is_file: bool)
        ensures
            final(self).session == old(self).session,
            final(self).root == old(self).root,
            final(self).early_sent == old(self).early_sent,
            final(self).files@ == if directory::arw(at@) && is_file {
                old(self).files@.push(at)
            } else {
                old(self).files@
            },
    {
        if is_file && is_arw(&at) {
            self.files.push(at);
        }
    }

    /// An early listing, once it is worth one.
    pub fn early(&mut self, elapsed: u64) -> (out: Option<ScanResult>)
        ensures
            final(self).session == old(self).session,
            final(self).root == old(self).root,
            final(self).files == old(self).files,
            ({
                let worth = !old(self).early_sent && old(self).files@.len() >= EARLY_COUNT
                    && elapsed >= EARLY_TIME;
                &&& final(self).early_sent == (old(self).early_sent || worth)
                &&& out is Some == worth
                &&& out matches Some(result) ==> {
                    &&& result.session == old(self).session
                    &&& result.folder.raw() == old(self).root.folder.raw()
                    &&& path::written(result.requested) == path::written(
                        old(self).root.requested,
                    )
                    &&& !result.complete
                    &&& result.elapsed == elapsed
                    &&& lists(result.files@, old(self).files@)
                }
            }),
    {
        if self.early_sent || self.files.len() < EARLY_COUNT || elapsed < EARLY_TIME {
            return None;
        }
        self.early_sent = true;
        let files = directory::sort(path::copy_list(&self.files));
        Some(
            ScanResult {
                session: self.session,
                folder: self.root.folder.copied(),
                files,
                requested: copy_of(&self.root.requested),
                complete: false,
                elapsed,
            },
        )
    }

    /// The whole listing.
    pub fn finish(self, elapsed: u64) -> (out: ScanResult)
        ensures
            out.session == self.session,
            out.folder == self.root.folder,
            out.requested == self.root.requested,
            out.complete,
            out.elapsed == elapsed,
            lists(out.files@, self.files@),
    {
        ScanResult {
            session: self.session,
            folder: self.root.folder,
            files: directory::sort(self.files),
            requested: self.root.requested,
            complete: true,
            elapsed,
        }
    }
}

/// Of a listing, the photograph that was asked for is shown; once the user has moved
/// on, the one on screen; and if that is not listed, the first.
pub proof fn law_listings_show_what_was_asked_for<K>(
    files: Seq<K>,
    requested: Option<K>,
    previous: Option<K>,
    user_navigated: bool,
)
    requires
        files.len() > 0,
    ensures
        ({
            let i = selected(files, requested, previous, user_navigated);
            &&& 0 <= i < files.len()
            &&& user_navigated && previous is Some && files.contains(previous->0) ==> files[i]
                == previous->0
            &&& (!user_navigated || previous is None) && requested is Some && files.contains(
                requested->0,
            ) ==> files[i] == requested->0
            &&& user_navigated && previous is Some && !files.contains(previous->0) ==> i == 0
            &&& !user_navigated && requested is None ==> i == 0
        }),
{
    if let Some(k) = requested {
        path::lemma_first_position(files, k);
    }
    if let Some(k) = previous {
        path::lemma_first_position(files, k);
    }
}

} // verus!
