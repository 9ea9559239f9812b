//! Photographs that are moved away, and back.
use crate::app::deleted;
use crate::app::deleted::MoveRecord;
use crate::app::info;
use crate::app::info::PhotoInfo;
use crate::app::io;
use crate::app::path_map::PathMap;
use crate::app::path_set::PathSet;
use crate::app::rating;
use crate::app::state;
use crate::app::state::{
    next_number, Act, Action, App, Deed, Due, ListingModel, Model, Todo, UndoAction,
};
use crate::app::strip::same_choice;
use crate::browser::directory;
use crate::path;
use crate::path::{Identity, PhotoPath};
use crate::text;
use vstd::prelude::*;

verus! {

/// The first photograph from a place on that stays.
pub open spec fn ahead_of(files: Seq<Seq<u8>>, gone: Set<Seq<u8>>, i: int) -> Option<Seq<u8>>
    decreases files.len() - i,
{
    if i < 0 || i >= files.len() {
        None
    } else if !gone.contains(files[i]) {
        Some(files[i])
    } else {
        ahead_of(files, gone, i + 1)
    }
}

/// The last photograph before a place that stays.
pub open spec fn behind(files: Seq<Seq<u8>>, gone: Set<Seq<u8>>, i: int) -> Option<Seq<u8>>
    decreases i,
{
    if i <= 0 || i > files.len() {
        None
    } else if !gone.contains(files[i - 1]) {
        Some(files[i - 1])
    } else {
        behind(files, gone, i - 1)
    }
}

/// The photograph to show once some are gone: the selected one if it stays, or
/// the next, or the one before.
pub open spec fn survivor(
    files: Seq<Seq<u8>>,
    index: Option<usize>,
    gone: Set<Seq<u8>>,
) -> Option<Seq<u8>> {
    match index {
        None => None,
        Some(index) => {
            let i = if index < files.len() {
                index as int
            } else {
                files.len() as int
            };
            match ahead_of(files, gone, i) {
                Some(photo) => Some(photo),
                None => behind(files, gone, i),
            }
        },
    }
}

/// Those of the first `n` photographs that stay.
pub open spec fn remaining(files: Seq<Seq<u8>>, gone: Set<Seq<u8>>, n: int) -> Seq<Seq<u8>>
    decreases n,
{
    if n <= 0 {
        Seq::empty()
    } else if gone.contains(files[n - 1]) {
        remaining(files, gone, n - 1)
    } else {
        remaining(files, gone, n - 1).push(files[n - 1])
    }
}

/// What those of the first `n` photographs that are not gone are written as.
pub open spec fn remaining_written(names: Seq<Seq<u8>>, gone: Set<Seq<u8>>, n: int) -> Seq<Seq<u8>>
    decreases n,
{
    if n <= 0 {
        Seq::empty()
    } else if gone.contains(path::tidy(names[n - 1])) {
        remaining_written(names, gone, n - 1)
    } else {
        remaining_written(names, gone, n - 1).push(names[n - 1])
    }
}

/// The photographs that come next are those that stay, and no others.
pub proof fn law_survivors_stay(files: Seq<Seq<u8>>, index: usize, gone: Set<Seq<u8>>)
    requires
        index < files.len(),
    ensures
        ({
            let next = survivor(files, Some(index), gone);
            &&& next is Some ==> files.contains(next->0) && !gone.contains(next->0)
            &&& next is None ==> forall|i: int|
                0 <= i < files.len() ==> gone.contains(#[trigger] files[i])
            &&& !gone.contains(files[index as int]) ==> next == Some(files[index as int])
        }),
{
    lemma_ahead_of(files, gone, index as int);
    lemma_behind(files, gone, index as int);
}

proof fn lemma_ahead_of(files: Seq<Seq<u8>>, gone: Set<Seq<u8>>, i: int)
    requires
        0 <= i <= files.len(),
    ensures
        ({
            let next = ahead_of(files, gone, i);
            &&& next is Some ==> files.contains(next->0) && !gone.contains(next->0)
            &&& next is None ==> forall|j: int|
                i <= j < files.len() ==> gone.contains(#[trigger] files[j])
        }),
    decreases files.len() - i,
{
    if i < files.len() {
        lemma_ahead_of(files, gone, i + 1);
    }
}

proof fn lemma_behind(files: Seq<Seq<u8>>, gone: Set<Seq<u8>>, i: int)
    requires
        0 <= i <= files.len(),
    ensures
        ({
            let next = behind(files, gone, i);
            &&& next is Some ==> files.contains(next->0) && !gone.contains(next->0)
            &&& next is None ==> forall|j: int| 0 <= j < i ==> gone.contains(#[trigger] files[j])
        }),
    decreases i,
{
    if i > 0 {
        lemma_behind(files, gone, i - 1);
    }
}

/// The photograph to show once some are gone.
pub fn next_survivor(
    files: &Vec<PhotoPath>,
    index: Option<usize>,
    gone: &PathSet,
) -> (out: Option<PhotoPath>)
    ensures
        deleted::place(out) == survivor(path::keys(files@), index, gone@),
{
    let ghost keys = path::keys(files@);
    let start: usize = match index {
        None => {
            return None;
        },
        Some(index) => if index < files.len() {
            index
        } else {
            files.len()
        },
    };
    let mut i: usize = start;
    while i < files.len()
        invariant
            start <= i <= files@.len(),
            keys == path::keys(files@),
            index is Some,
            start == if index->0 < files@.len() {
                index->0 as int
            } else {
                files@.len() as int
            },
            ahead_of(keys, gone@, start as int) == ahead_of(keys, gone@, i as int),
        decreases files@.len() - i,
    {
        assert(keys[i as int] == files@[i as int]@);
        if !gone.contains(&files[i]) {
            return Some(files[i].copied());
        }
        i += 1;
    }
    assert(ahead_of(keys, gone@, start as int) is None);
    let mut i: usize = start;
    while i > 0
        invariant
            i <= start <= files@.len(),
            keys == path::keys(files@),
            index is Some,
            start == if index->0 < files@.len() {
                index->0 as int
            } else {
                files@.len() as int
            },
            ahead_of(keys, gone@, start as int) is None,
            behind(keys, gone@, start as int) == behind(keys, gone@, i as int),
        decreases i,
    {
        assert(keys[i - 1] == files@[i - 1]@);
        if !gone.contains(&files[i - 1]) {
            return Some(files[i - 1].copied());
        }
        i -= 1;
    }
    None
}

/// Leaves out photographs that are gone.
fn without_gone(files: &Vec<PhotoPath>, gone: &PathSet) -> (out: Vec<PhotoPath>)
    ensures
        path::keys(out@) == remaining(path::keys(files@), gone@, files@.len() as int),
        path::spellings(out@) == remaining_written(
            path::spellings(files@),
            gone@,
            files@.len() as int,
        ),
{
    let ghost keys = path::keys(files@);
    let ghost names = path::spellings(files@);
    let mut out: Vec<PhotoPath> = Vec::new();
    assert(path::keys(out@) =~= Seq::<Seq<u8>>::empty());
    assert(path::spellings(out@) =~= Seq::<Seq<u8>>::empty());
    let mut i: usize = 0;
    while i < files.len()
        invariant
            i <= files@.len(),
            keys == path::keys(files@),
            path::keys(out@) == remaining(keys, gone@, i as int),
            names == path::spellings(files@),
            path::spellings(out@) == remaining_written(names, gone@, i as int),
        decreases files@.len() - i,
    {
        assert(keys[i as int] == files@[i as int]@);
        proof {
            files[i as int].lemma_spelling();
        }
        if !gone.contains(&files[i]) {
            let ghost before = path::keys(out@);
            let ghost written = path::spellings(out@);
            out.push(files[i].copied());
            assert(path::keys(out@) =~= before.push(keys[i as int]));
            assert(path::spellings(out@) =~= written.push(names[i as int]));
        }
        i += 1;
    }
    out
}

/// With a photograph, unless it is there.
pub open spec fn including(files: Seq<Seq<u8>>, photo: Seq<u8>) -> Seq<Seq<u8>> {
    if files.contains(photo) {
        files
    } else {
        files.push(photo)
    }
}

/// Those of the first `n` photographs that were not moved away again, each once.
pub open spec fn still_there(files: Seq<Seq<u8>>, gone: Set<Seq<u8>>, n: int) -> Seq<Seq<u8>>
    decreases n,
{
    if n <= 0 {
        Seq::empty()
    } else if gone.contains(files[n - 1]) {
        still_there(files, gone, n - 1)
    } else {
        including(still_there(files, gone, n - 1), files[n - 1])
    }
}

/// Whether a photograph lies in a folder.
pub open spec fn lies_in(photo: Seq<u8>, folder: Option<Seq<u8>>) -> bool {
    match (path::parent_of(photo), folder) {
        (Some(parent), Some(folder)) => path::same_path(parent, folder),
        (None, None) => true,
        _ => false,
    }
}

/// With the first `n` photographs that came back into a folder.
pub open spec fn come_back(
    files: Seq<Seq<u8>>,
    folder: Option<Seq<u8>>,
    records: Seq<deleted::Pair>,
    n: int,
) -> Seq<Seq<u8>>
    decreases n,
{
    if n <= 0 {
        files
    } else {
        let before = come_back(files, folder, records, n - 1);
        if lies_in(path::tidy(records[n - 1].source), folder) {
            including(before, path::tidy(records[n - 1].source))
        } else {
            before
        }
    }
}

/// Where some photographs were before, or after, they were moved.
pub open spec fn origins(records: Seq<deleted::Pair>) -> Set<Seq<u8>> {
    Set::new(
        |k: Seq<u8>|
            exists|i: int| 0 <= i < records.len() && path::tidy((#[trigger] records[i]).source) == k,
    )
}

pub open spec fn goals(records: Seq<deleted::Pair>) -> Set<Seq<u8>> {
    Set::new(
        |k: Seq<u8>|
            exists|i: int|
                0 <= i < records.len() && path::tidy((#[trigger] records[i]).destination) == k,
    )
}

/// The photographs of a folder, once some were moved back.
pub open spec fn with_returned(
    files: Seq<Seq<u8>>,
    folder: Option<Seq<u8>>,
    records: Seq<deleted::Pair>,
) -> Seq<Seq<u8>> {
    come_back(
        still_there(files, goals(records), files.len() as int),
        folder,
        records,
        records.len() as int,
    )
}

/// The listing of a folder, once some photographs were moved back: in order, each
/// once.
#[verifier::opaque]
pub open spec fn restored_listing(
    files: Seq<Seq<u8>>,
    folder: Option<Seq<u8>>,
    records: Seq<deleted::Pair>,
) -> Seq<Seq<u8>> {
    choose|out: Seq<Seq<u8>>|
        directory::listed(out) && #[trigger] out.to_multiset() == with_returned(
            files,
            folder,
            records,
        ).to_multiset()
}

/// With a photograph, unless it is there, as they are written.
pub open spec fn including_written(names: Seq<Seq<u8>>, photo: Seq<u8>) -> Seq<Seq<u8>> {
    if path::tidied(names).contains(path::tidy(photo)) {
        names
    } else {
        names.push(photo)
    }
}

/// What those of the first `n` photographs that were not moved away again are
/// written as.
pub open spec fn there_written(names: Seq<Seq<u8>>, gone: Set<Seq<u8>>, n: int) -> Seq<Seq<u8>>
    decreases n,
{
    if n <= 0 {
        Seq::empty()
    } else if gone.contains(path::tidy(names[n - 1])) {
        there_written(names, gone, n - 1)
    } else {
        including_written(there_written(names, gone, n - 1), names[n - 1])
    }
}

/// With what the first `n` photographs that came back into a folder are written as.
pub open spec fn back_written(
    names: Seq<Seq<u8>>,
    folder: Option<Seq<u8>>,
    records: Seq<deleted::Pair>,
    n: int,
) -> Seq<Seq<u8>>
    decreases n,
{
    if n <= 0 {
        names
    } else {
        let before = back_written(names, folder, records, n - 1);
        if lies_in(path::tidy(records[n - 1].source), folder) {
            including_written(before, records[n - 1].source)
        } else {
            before
        }
    }
}

/// What the photographs of a folder are written as, once some were moved back.
pub open spec fn returned_written(
    names: Seq<Seq<u8>>,
    folder: Option<Seq<u8>>,
    records: Seq<deleted::Pair>,
) -> Seq<Seq<u8>> {
    back_written(
        there_written(names, goals(records), names.len() as int),
        folder,
        records,
        records.len() as int,
    )
}

/// What the listing of a folder is written as, once some photographs were moved
/// back: in order, each once.
#[verifier::opaque]
pub open spec fn restored_written(
    names: Seq<Seq<u8>>,
    folder: Option<Seq<u8>>,
    records: Seq<deleted::Pair>,
) -> Seq<Seq<u8>> {
    choose|out: Seq<Seq<u8>>|
        directory::listed(path::tidied(out)) && #[trigger] out.to_multiset() == returned_written(
            names,
            folder,
            records,
        ).to_multiset()
}

proof fn lemma_including_written(names: Seq<Seq<u8>>, photo: Seq<u8>)
    requires
        path::tidied(names).no_duplicates(),
    ensures
        path::tidied(including_written(names, photo)).no_duplicates(),
{
    assert(path::tidied(names.push(photo)) =~= path::tidied(names).push(path::tidy(photo)));
}

proof fn lemma_there_written(names: Seq<Seq<u8>>, gone: Set<Seq<u8>>, n: int)
    ensures
        path::tidied(there_written(names, gone, n)).no_duplicates(),
    decreases n,
{
    if n > 0 {
        lemma_there_written(names, gone, n - 1);
        lemma_including_written(there_written(names, gone, n - 1), names[n - 1]);
    }
}

proof fn lemma_back_written(
    names: Seq<Seq<u8>>,
    folder: Option<Seq<u8>>,
    records: Seq<deleted::Pair>,
    n: int,
)
    requires
        path::tidied(names).no_duplicates(),
    ensures
        path::tidied(back_written(names, folder, records, n)).no_duplicates(),
    decreases n,
{
    if n > 0 {
        lemma_back_written(names, folder, records, n - 1);
        lemma_including_written(
            back_written(names, folder, records, n - 1),
            records[n - 1].source,
        );
    }
}

/// The listing of a folder, once some photographs were moved back, is written in
/// one way only.
pub proof fn law_restored_listings_are_written_in_one_way(
    names: Seq<Seq<u8>>,
    folder: Option<Seq<u8>>,
    records: Seq<deleted::Pair>,
    a: Seq<Seq<u8>>,
    b: Seq<Seq<u8>>,
)
    requires
        directory::listed(path::tidied(a)),
        directory::listed(path::tidied(b)),
        a.to_multiset() == returned_written(names, folder, records).to_multiset(),
        b.to_multiset() == returned_written(names, folder, records).to_multiset(),
    ensures
        a == b,
{
    let all = returned_written(names, folder, records);
    let f = |p: Seq<u8>| path::tidy(p);
    lemma_there_written(names, goals(records), names.len() as int);
    lemma_back_written(
        there_written(names, goals(records), names.len() as int),
        folder,
        records,
        records.len() as int,
    );
    directory::lemma_replaced(a, b, f);
    directory::lemma_replaced(b, all, f);
    directory::law_listing_is_unique(path::tidied(a), path::tidied(b));
    path::tidied(all).lemma_multiset_has_no_duplicates();
    path::tidied(b).lemma_multiset_has_no_duplicates_conv();
    a.to_multiset_ensures();
    b.to_multiset_ensures();
    assert forall|i: int| 0 <= i < a.len() implies a[i] == b[i] by {
        assert(a.contains(a[i]));
        vstd::seq_lib::to_multiset_contains(a, a[i]);
        vstd::seq_lib::to_multiset_contains(b, a[i]);
        let j = choose|j: int| 0 <= j < b.len() && b[j] == a[i];
        assert(path::tidied(b)[j] == path::tidied(a)[i]);
        assert(path::tidied(b)[i] == path::tidied(a)[i]);
    }
    assert(a =~= b);
}

fn source_set(records: &Vec<MoveRecord>) -> (out: PathSet)
    ensures
        out@ == origins(io::pairs(records@)),
{
    let ghost pairs = io::pairs(records@);
    let mut out = PathSet::new();
    let mut i: usize = 0;
    assert(origins(pairs.take(0)) =~= Set::empty());
    while i < records.len()
        invariant
            i <= records@.len(),
            pairs == io::pairs(records@),
            out@ == origins(pairs.take(i as int)),
        decreases records@.len() - i,
    {
        let ghost before = pairs.take(i as int);
        let ghost now = pairs.take(i + 1);
        out.insert(records[i].source.copied());
        proof {
            records[i as int].source.lemma_spelling();
            assert(now =~= before.push(pairs[i as int]));
            assert forall|k: Seq<u8>| #[trigger] origins(now).contains(k) <==> origins(before).contains(
                k,
            ) || k == path::tidy(pairs[i as int].source) by {
                if origins(before).contains(k) {
                    let j = choose|j: int| 0 <= j < before.len() && path::tidy((#[trigger] before[j]).source) == k;
                    assert(path::tidy(now[j].source) == k);
                }
                assert(now[i as int].source == pairs[i as int].source);
                if origins(now).contains(k) {
                    let j = choose|j: int| 0 <= j < now.len() && path::tidy((#[trigger] now[j]).source) == k;
                    if j < i {
                        assert(path::tidy(before[j].source) == k);
                    }
                }
            }
            assert(origins(now) =~= origins(before).insert(path::tidy(pairs[i as int].source)));
        }
        i += 1;
    }
    assert(pairs.take(i as int) =~= pairs);
    out
}

fn destination_set(records: &Vec<MoveRecord>) -> (out: PathSet)
    ensures
        out@ == goals(io::pairs(records@)),
{
    let ghost pairs = io::pairs(records@);
    let mut out = PathSet::new();
    let mut i: usize = 0;
    assert(goals(pairs.take(0)) =~= Set::empty());
    while i < records.len()
        invariant
            i <= records@.len(),
            pairs == io::pairs(records@),
            out@ == goals(pairs.take(i as int)),
        decreases records@.len() - i,
    {
        let ghost before = pairs.take(i as int);
        let ghost now = pairs.take(i + 1);
        out.insert(records[i].destination.copied());
        proof {
            records[i as int].destination.lemma_spelling();
            assert(now =~= before.push(pairs[i as int]));
            assert forall|k: Seq<u8>| #[trigger] goals(now).contains(k) <==> goals(before).contains(k)
                || k == path::tidy(pairs[i as int].destination) by {
                if goals(before).contains(k) {
                    let j = choose|j: int|
                        0 <= j < before.len() && path::tidy((#[trigger] before[j]).destination) == k;
                    assert(path::tidy(now[j].destination) == k);
                }
                assert(now[i as int].destination == pairs[i as int].destination);
                if goals(now).contains(k) {
                    let j = choose|j: int| 0 <= j < now.len() && path::tidy((#[trigger] now[j]).destination) == k;
                    if j < i {
                        assert(path::tidy(before[j].destination) == k);
                    }
                }
            }
            assert(goals(now) =~= goals(before).insert(path::tidy(pairs[i as int].destination)));
        }
        i += 1;
    }
    assert(pairs.take(i as int) =~= pairs);
    out
}

fn take_in(files: &mut Vec<PhotoPath>, photo: &PhotoPath)
    ensures
        path::keys(final(files)@) == including(path::keys(old(files)@), photo@),
        path::spellings(final(files)@) == including_written(
            path::spellings(old(files)@),
            photo.raw(),
        ),
{
    let ghost before = path::keys(files@);
    let ghost written = path::spellings(files@);
    proof {
        path::lemma_first_position(before, photo@);
        path::lemma_tidied(files@);
        photo.lemma_spelling();
    }
    if path::position_of(files, photo).is_none() {
        files.push(photo.copied());
        assert(path::keys(files@) =~= before.push(photo@));
        assert(path::spellings(files@) =~= written.push(photo.raw()));
    }
}

/// Whether a photograph lies in a folder.
fn is_in(photo: &PhotoPath, folder: &Option<PhotoPath>) -> (out: bool)
    ensures
        out == lies_in(photo@, path::written(*folder)),
{
    match (photo.parent(), folder) {
        (Some(parent), Some(folder)) => parent.same_path(folder),
        (None, None) => true,
        _ => false,
    }
}

/// The listing of a folder, once some photographs were moved back. Where they
/// are now is left out.
pub fn restore_listing(
    files: &Vec<PhotoPath>,
    folder: &Option<PhotoPath>,
    records: &Vec<MoveRecord>,
) -> (out: Vec<PhotoPath>)
    ensures
        path::keys(out@) == restored_listing(
            path::keys(files@),
            path::written(*folder),
            io::pairs(records@),
        ),
        directory::listed(path::keys(out@)),
        path::keys(out@).to_multiset() == with_returned(
            path::keys(files@),
            path::written(*folder),
            io::pairs(records@),
        ).to_multiset(),
        path::spellings(out@) == restored_written(
            path::spellings(files@),
            path::written(*folder),
            io::pairs(records@),
        ),
        path::spellings(out@).to_multiset() == returned_written(
            path::spellings(files@),
            path::written(*folder),
            io::pairs(records@),
        ).to_multiset(),
{
    let ghost keys = path::keys(files@);
    let ghost names = path::spellings(files@);
    let ghost place = path::written(*folder);
    let ghost pairs = io::pairs(records@);
    let gone = destination_set(records);
    let mut list: Vec<PhotoPath> = Vec::new();
    assert(path::keys(list@) =~= Seq::<Seq<u8>>::empty());
    assert(path::spellings(list@) =~= Seq::<Seq<u8>>::empty());
    let mut i: usize = 0;
    while i < files.len()
        invariant
            i <= files@.len(),
            keys == path::keys(files@),
            names == path::spellings(files@),
            path::keys(list@) == still_there(keys, gone@, i as int),
            path::spellings(list@) == there_written(names, gone@, i as int),
        decreases files@.len() - i,
    {
        proof {
            files[i as int].lemma_spelling();
        }
        assert(names[i as int] == files@[i as int].raw());
        assert(keys[i as int] == files@[i as int]@);
        if !gone.contains(&files[i]) {
            take_in(&mut list, &files[i]);
        }
        i += 1;
    }
    let ghost there = path::keys(list@);
    let ghost there_names = path::spellings(list@);
    let mut i: usize = 0;
    while i < records.len()
        invariant
            i <= records@.len(),
            pairs == io::pairs(records@),
            place == path::written(*folder),
            path::keys(list@) == come_back(there, place, pairs, i as int),
            path::spellings(list@) == back_written(there_names, place, pairs, i as int),
        decreases records@.len() - i,
    {
        proof {
            records[i as int].source.lemma_spelling();
        }
        assert(path::tidy(pairs[i as int].source) == records@[i as int].source@);
        if is_in(&records[i].source, folder) {
            take_in(&mut list, &records[i].source);
        }
        i += 1;
    }
    let out = directory::sort(list);
    proof {
        reveal(restored_listing);
        let want = with_returned(keys, place, pairs);
        let chosen = restored_listing(keys, place, pairs);
        assert(directory::listed(path::keys(out@)) && path::keys(out@).to_multiset()
            == want.to_multiset());
        directory::law_listing_is_unique(path::keys(out@), chosen);
        reveal(restored_written);
        let written = path::spellings(out@);
        path::lemma_tidied(out@);
        assert(directory::listed(path::tidied(written)) && written.to_multiset()
            == returned_written(names, place, pairs).to_multiset());
        law_restored_listings_are_written_in_one_way(
            names,
            place,
            pairs,
            written,
            restored_written(names, place, pairs),
        );
    }
    out
}

/// What went wrong with some photographs.
pub open spec fn complaints(errors: Seq<(Seq<u8>, Seq<char>)>) -> Seq<Seq<char>> {
    errors.map_values(|e: (Seq<u8>, Seq<char>)| text::lossy_text(e.0) + ": "@ + e.1)
}

/// What went wrong, a line for each photograph.
pub open spec fn details(errors: Seq<(Seq<u8>, Seq<char>)>) -> Seq<char> {
    text::joined(complaints(errors), "\n"@)
}

/// What is known after the first `n` photographs came back.
pub open spec fn notes_returned(
    notes: info::Notes,
    ratings: Seq<(PhotoPath, Result<i8, String>)>,
    n: int,
) -> info::Notes
    decreases n,
{
    if n <= 0 {
        notes
    } else {
        let before = notes_returned(notes, ratings, n - 1);
        let (photo, result) = ratings[n - 1];
        before.insert(photo@, info::info_of(before, photo@).returned(rating::reading(result)))
    }
}

/// The first of some photographs that lies in a folder.
pub open spec fn first_in(
    records: Seq<deleted::Pair>,
    folder: Option<Seq<u8>>,
    i: int,
) -> Option<Seq<u8>>
    decreases records.len() - i,
{
    if i < 0 || i >= records.len() {
        None
    } else if lies_in(path::tidy(records[i].source), folder) {
        Some(path::tidy(records[i].source))
    } else {
        first_in(records, folder, i + 1)
    }
}

impl Model {
    /// Photographs are about to be moved away.
    #[verifier::opaque]
    pub open spec fn moving(self, photos: Seq<Seq<u8>>) -> Model {
        if photos.len() == 0 {
            self
        } else {
            let id = state::next(self.ledger.rating_sequence);
            let s = self.numbered(id).mutation_begun(id);
            s.posted(Act::Move(s.session, id, photos)).message("Moving to _Rejected..."@)
        }
    }

    /// The photograph on screen is moved away.
    #[verifier::opaque]
    pub open spec fn current_moved(self) -> Model {
        if self.barred() || self.current() is None || self.current() != self.screen.displayed {
            self
        } else {
            self.moving(seq![self.current_written()->0])
        }
    }

    /// The rejected photographs of the folder are looked for.
    #[verifier::opaque]
    pub open spec fn rejects_sought(self, batch: bool, photos: Seq<Seq<u8>>) -> Model {
        let s = Model { deleted_batch: batch, trash_busy: true, ..self };
        s.posted(Act::CollectRejected(s.session, photos)).message("Checking saved rejects..."@)
    }

    /// The rejected photographs of a folder are to be moved away.
    #[verifier::opaque]
    pub open spec fn rejects_moved(self) -> Model {
        if self.barred() {
            self
        } else if self.listing.scanning {
            self.message(
                "Folder is still being listed; try moving saved rejects when it finishes"@,
            )
        } else {
            self.rejects_sought(true, self.listing.all_written)
        }
    }

    /// Rejected photographs are left where they are.
    #[verifier::opaque]
    pub open spec fn rejects_left(self) -> Model {
        let s = Model { trash_busy: false, ..self };
        if s.deleted_batch {
            let t = Model { deleted_batch: false, notice: Seq::empty(), ..s };
            t.refreshed(t.current())
        } else {
            let t = s.message(Seq::empty());
            t.refreshed(t.current())
        }
    }

    /// After the rejected photographs were looked for. The user is asked before
    /// they go.
    #[verifier::opaque]
    pub open spec fn rejects_found(
        self,
        session: u64,
        found: Result<Seq<Seq<u8>>, Seq<char>>,
    ) -> Model {
        if session != self.session {
            self
        } else {
            match found {
                Ok(photos) => if photos.len() > 0 {
                    if self.deleted_batch {
                        self.posted(Act::AskMove(photos))
                    } else {
                        self.posted(Act::AskTrash(photos))
                    }
                } else {
                    self.posted(
                        Act::Alert(
                            "No rejected photos"@,
                            if self.deleted_batch {
                                "No saved rejected photographs were found in this folder."@
                            } else {
                                "No saved rejected photographs were found in this selection."@
                            },
                        ),
                    ).rejects_left()
                },
                Err(error) => self.posted(
                    Act::Alert("Could not collect rejected photos"@, error),
                ).rejects_left(),
            }
        }
    }

    /// Photographs are gone from the listing.
    #[verifier::opaque]
    pub open spec fn listing_cut(self, gone: Set<Seq<u8>>) -> Model {
        let s = if self.screen.pinned is Some && gone.contains((self.screen.pinned->0).0) {
            self.pin_cleared()
        } else {
            self
        };
        let t = if gone == Set::<Seq<u8>>::empty() {
            s
        } else {
            s.with_listing(
                ListingModel {
                    all: remaining(s.listing.all, gone, s.listing.all.len() as int),
                    all_written: remaining_written(
                        s.listing.all_written,
                        gone,
                        s.listing.all_written.len() as int,
                    ),
                    whole: false,
                    ..s.listing
                },
            )
        };
        t.index_counted()
    }

    /// Once all ratings were read, the count follows the listing.
    pub open spec fn index_counted(self) -> Model {
        if self.listing.index_complete {
            self.with_listing(
                ListingModel { ratings_read: self.listing.all.len() as usize, ..self.listing },
            )
        } else {
            self
        }
    }

    /// A move can be undone.
    #[verifier::opaque]
    pub open spec fn move_remembered(self, id: u64, records: Seq<deleted::Pair>) -> Model {
        if records.len() == 0 {
            self
        } else {
            self.reinstated(id, Deed::Moved(records))
        }
    }

    /// What is said about photographs that were moved away.
    #[verifier::opaque]
    pub open spec fn move_told(self, count: int, errors: Seq<(Seq<u8>, Seq<char>)>) -> Model {
        let s = if errors.len() > 0 {
            self.first(Due::Warn("Some photos could not be moved"@, details(errors))).first(
                Due::Tell(
                    "Moved "@ + text::decimal(count) + "; "@ + text::decimal(errors.len() as int)
                        + " photo(s) could not be moved"@,
                ),
            )
        } else {
            self
        };
        s.first(
            Due::Tell(
                "Moved "@ + text::decimal(count) + " photo(s) to _Rejected. Cmd+Z restores"@,
            ),
        )
    }

    /// After photographs were moved away.
    #[verifier::opaque]
    pub open spec fn move_reported(
        self,
        session: u64,
        id: u64,
        records: Seq<deleted::Pair>,
        errors: Seq<(Seq<u8>, Seq<char>)>,
    ) -> Model {
        if session != self.session || !self.awaits(id) {
            self
        } else {
            let s = self.mutation_finished();
            let gone = origins(records);
            let preferred = survivor(s.listing.files, s.selection.index, gone);
            s.listing_cut(gone).move_remembered(id, records).index_begun().move_told(
                records.len() as int,
                errors,
            ).refreshed(preferred)
        }
    }

    /// Photographs are back in the listing.
    #[verifier::opaque]
    pub open spec fn listing_grown(self, records: Seq<deleted::Pair>) -> Model {
        let gone = goals(records);
        let s = if self.screen.pinned is Some && gone.contains((self.screen.pinned->0).0) {
            self.pin_cleared()
        } else {
            self
        };
        let t = if records.len() == 0 {
            s
        } else {
            s.with_listing(
                ListingModel {
                    all: restored_listing(s.listing.all, s.listing.folder, records),
                    all_written: restored_written(
                        s.listing.all_written,
                        s.listing.folder,
                        records,
                    ),
                    whole: false,
                    ..s.listing
                },
            )
        };
        t.index_counted()
    }

    /// The photograph to show once some came back.
    pub open spec fn returning(self, records: Seq<deleted::Pair>) -> Option<Seq<u8>> {
        match first_in(records, self.listing.folder, 0) {
            Some(photo) => Some(photo),
            None => survivor(self.listing.files, self.selection.index, goals(records)),
        }
    }

    /// What is said about photographs that came back.
    #[verifier::opaque]
    pub open spec fn return_told(self, count: int, errors: Seq<(Seq<u8>, Seq<char>)>) -> Model {
        let s = if errors.len() > 0 {
            self.first(Due::Warn("Some photos could not be restored"@, details(errors))).first(
                Due::Tell("Some photos could not be restored; Cmd+Z retries"@),
            )
        } else {
            self
        };
        s.first(
            Due::Tell("Restored "@ + text::decimal(count) + " photo(s) from _Rejected"@),
        )
    }

    /// The ratings of photographs that came back were read anew.
    #[verifier::opaque]
    pub open spec fn ratings_returned(
        self,
        ratings: Seq<(PhotoPath, Result<i8, String>)>,
    ) -> Model {
        Model { info: notes_returned(self.info, ratings, ratings.len() as int), ..self }
    }

    /// After photographs were moved back. Their ratings were read anew; those
    /// that could not be moved can be tried again.
    #[verifier::opaque]
    pub open spec fn return_reported(
        self,
        session: u64,
        id: u64,
        restored: Seq<deleted::Pair>,
        ratings: Seq<(PhotoPath, Result<i8, String>)>,
        failed: Seq<deleted::Pair>,
        errors: Seq<(Seq<u8>, Seq<char>)>,
    ) -> Model {
        if session != self.session || !self.awaits(id) {
            self
        } else {
            let t = self.mutation_finished().ratings_returned(ratings);
            t.listing_grown(restored).move_remembered(id, failed).index_begun().return_told(
                restored.len() as int,
                errors,
            ).refreshed(t.returning(restored))
        }
    }
}

/// A report on another move than the one under way changes nothing.
pub proof fn law_other_moves_are_ignored(
    m: Model,
    session: u64,
    id: u64,
    records: Seq<deleted::Pair>,
    errors: Seq<(Seq<u8>, Seq<char>)>,
    ratings: Seq<(PhotoPath, Result<i8, String>)>,
)
    requires
        session != m.session || !m.awaits(id),
    ensures
        m.move_reported(session, id, records, errors) == m,
        m.return_reported(session, id, records, ratings, records, errors) == m,
{
    reveal(Model::move_reported);
    reveal(Model::return_reported);
}

/// No photograph that was moved away stays in the listing.
pub proof fn law_moved_photographs_are_unlisted(m: Model, gone: Set<Seq<u8>>, photo: Seq<u8>)
    requires
        gone.contains(photo),
    ensures
        !m.listing_cut(gone).listing.all.contains(photo),
{
    reveal(Model::listing_cut);
    lemma_remaining(m.listing.all, gone, m.listing.all.len() as int);
    assert(gone != Set::<Seq<u8>>::empty());
}

proof fn lemma_remaining(files: Seq<Seq<u8>>, gone: Set<Seq<u8>>, n: int)
    requires
        n <= files.len(),
    ensures
        forall|i: int|
            0 <= i < remaining(files, gone, n).len() ==> !gone.contains(
                #[trigger] remaining(files, gone, n)[i],
            ),
    decreases n,
{
    if n > 0 {
        lemma_remaining(files, gone, n - 1);
        let before = remaining(files, gone, n - 1);
        let now = remaining(files, gone, n);
        assert forall|i: int| 0 <= i < now.len() implies !gone.contains(#[trigger] now[i]) by {
            if i < before.len() {
                assert(now[i] == before[i]);
            }
        }
    }
}

impl App {
    fn move_paths_to_deleted(&mut self, photos: Vec<PhotoPath>)
        requires
            old(self).sound(),
        ensures
            final(self).sound(),
            final(self)@ == old(self)@.moving(path::spellings(photos@)),
    {
        proof {
            reveal(Model::moving);
        }
        let ghost before = self@;
        if photos.len() == 0 {
            return;
        }
        let id: u64 = next_number(self.ledger.rating_sequence);
        self.ledger.rating_sequence = id;
        assert(self@ == before.numbered(id));
        self.begin_file_mutation(id);
        let session: u64 = self.session;
        self.post(Action::Move { session, id, photos });
        self.message("Moving to _Rejected...");
    }

    /// Moves the photograph on screen away.
    pub fn move_current_to_deleted(&mut self)
        requires
            old(self).sound(),
        ensures
            final(self).sound(),
            final(self)@ == old(self)@.current_moved(),
    {
        proof {
            reveal(Model::current_moved);
        }
        let current = self.current();
        if self.is_barred() || !same_choice(&current, &self.screen.displayed) {
            return;
        }
        match current {
            Some(photo) => {
                let ghost name = photo.raw();
                let mut photos: Vec<PhotoPath> = Vec::new();
                photos.push(photo);
                assert(path::spellings(photos@) =~= seq![name]);
                self.move_paths_to_deleted(photos);
            },
            None => {},
        }
    }

    /// Looks for rejected photographs.
    pub(crate) fn seek_rejects(&mut self, batch: bool, photos: Vec<PhotoPath>)
        requires
            old(self).sound(),
        ensures
            final(self).sound(),
            final(self)@ == old(self)@.rejects_sought(batch, path::spellings(photos@)),
    {
        proof {
            reveal(Model::rejects_sought);
        }
        let ghost before = self@;
        self.deleted_batch = batch;
        self.trash_busy = true;
        assert(self@ == (Model { deleted_batch: batch, trash_busy: true, ..before }));
        let session: u64 = self.session;
        self.post(Action::CollectRejected { session, photos });
        self.message("Checking saved rejects...");
    }

    /// Looks for the rejected photographs of the folder, to move them away.
    pub fn collect_deleted(&mut self)
        requires
            old(self).sound(),
        ensures
            final(self).sound(),
            final(self)@ == old(self)@.rejects_moved(),
    {
        proof {
            reveal(Model::rejects_moved);
        }
        if self.is_barred() {
            return;
        }
        if self.listing.scanning {
            self.message("Folder is still being listed; try moving saved rejects when it finishes");
            return;
        }
        let photos = path::copy_list(&self.listing.all);
        self.seek_rejects(true, photos);
    }

    /// Leaves rejected photographs where they are.
    pub fn leave_rejects(&mut self)
        requires
            old(self).sound(),
        ensures
            final(self).sound(),
            final(self)@ == old(self)@.rejects_left(),
    {
        proof {
            reveal(Model::rejects_left);
        }
        let ghost before = self@;
        self.trash_busy = false;
        let ghost s = Model { trash_busy: false, ..before };
        assert(self@ == s);
        if self.deleted_batch {
            self.deleted_batch = false;
            self.notice = String::new();
            assert(self@ == (Model { deleted_batch: false, notice: Seq::empty(), ..s }));
        } else {
            proof {
                reveal_strlit("");
                assert(""@ =~= Seq::<char>::empty());
            }
            self.message("");
        }
        let current = self.current();
        self.refresh_visible(current);
    }

    /// Takes in which photographs are rejected. The user is asked before they
    /// go.
    pub fn rejects_collected(&mut self, session: u64, found: Result<Vec<PhotoPath>, String>)
        requires
            old(self).sound(),
        ensures
            final(self).sound(),
            final(self)@ == old(self)@.rejects_found(
                session,
                match found {
                    Ok(photos) => Ok(path::spellings(photos@)),
                    Err(error) => Err(error@),
                },
            ),
    {
        proof {
            reveal(Model::rejects_found);
        }
        if session != self.session {
            return;
        }
        match found {
            Ok(photos) => {
                if photos.len() > 0 {
                    if self.deleted_batch {
                        self.post(Action::AskMove(photos));
                    } else {
                        self.post(Action::AskTrash(photos));
                    }
                } else {
                    let text = if self.deleted_batch {
                        "No saved rejected photographs were found in this folder."
                    } else {
                        "No saved rejected photographs were found in this selection."
                    };
                    self.post(
                        Action::Alert {
                            title: "No rejected photos".to_owned(),
                            text: text.to_owned(),
                        },
                    );
                    self.leave_rejects();
                }
            },
            Err(error) => {
                self.post(
                    Action::Alert {
                        title: "Could not collect rejected photos".to_owned(),
                        text: error,
                    },
                );
                self.leave_rejects();
            },
        }
    }

    /// Moves rejected photographs away, as the user agreed.
    pub fn move_confirmed(&mut self, photos: Vec<PhotoPath>)
        requires
            old(self).sound(),
        ensures
            final(self).sound(),
            final(self)@ == (Model { deleted_batch: false, ..old(self)@ }).moving(
                path::spellings(photos@),
            ),
    {
        let ghost before = self@;
        self.deleted_batch = false;
        assert(self@ == (Model { deleted_batch: false, ..before }));
        self.move_paths_to_deleted(photos);
    }

    fn drops_reference(&self, gone: &PathSet) -> (out: bool)
        ensures
            out == (self@.screen.pinned is Some && gone@.contains((self@.screen.pinned->0).0)),
    {
        match &self.screen.pinned {
            Some((photo, _)) => gone.contains(photo),
            None => false,
        }
    }

    fn count_index(&mut self)
        requires
            old(self).sound(),
        ensures
            final(self).sound(),
            final(self)@ == old(self)@.index_counted(),
    {
        let ghost before = self@;
        if self.listing.index_complete {
            self.listing.ratings_read = self.listing.all.len();
        }
        assert(self@ == before.index_counted());
    }

    fn cut_listing(&mut self, gone: &PathSet)
        requires
            old(self).sound(),
        ensures
            final(self).sound(),
            final(self)@ == old(self)@.listing_cut(gone@),
    {
        proof {
            reveal(Model::listing_cut);
        }
        if self.drops_reference(gone) {
            self.clear_pin();
        }
        let ghost s = self@;
        if !gone.is_empty() {
            self.listing.all = without_gone(&self.listing.all, gone);
            self.listing.whole = false;
            assert(self@ == s.with_listing(
                ListingModel {
                    all: remaining(s.listing.all, gone@, s.listing.all.len() as int),
                    all_written: remaining_written(
                        s.listing.all_written,
                        gone@,
                        s.listing.all_written.len() as int,
                    ),
                    whole: false,
                    ..s.listing
                },
            ));
        }
        self.count_index();
    }

    fn remember_move(&mut self, id: u64, records: Vec<MoveRecord>)
        requires
            old(self).sound(),
        ensures
            final(self).sound(),
            final(self)@ == old(self)@.move_remembered(id, io::pairs(records@)),
    {
        proof {
            reveal(Model::move_remembered);
        }
        if records.len() > 0 {
            self.reinstate_action(id, UndoAction::Moved(records));
        }
    }

    fn tell_move(&mut self, count: usize, errors: &Vec<(PhotoPath, String)>)
        requires
            old(self).sound(),
        ensures
            final(self).sound(),
            final(self)@ == old(self)@.move_told(count as int, io::remarks(errors@)),
    {
        proof {
            reveal(Model::move_told);
        }
        if errors.len() > 0 {
            self.push(
                Todo::Warn {
                    title: "Some photos could not be moved".to_owned(),
                    text: list_details(errors),
                },
            );
            let mut text = "Moved ".to_owned();
            text::append_number(&mut text, count as u64);
            text.append("; ");
            text::append_number(&mut text, errors.len() as u64);
            text.append(" photo(s) could not be moved");
            self.push(Todo::Tell(text));
        }
        let mut text = "Moved ".to_owned();
        text::append_number(&mut text, count as u64);
        text.append(" photo(s) to _Rejected. Cmd+Z restores");
        self.push(Todo::Tell(text));
    }

    /// Takes in that photographs were moved away.
    pub fn moved_deleted(
        &mut self,
        session: u64,
        id: u64,
        records: Vec<MoveRecord>,
        errors: &Vec<(PhotoPath, String)>,
    )
        requires
            old(self).sound(),
        ensures
            final(self).sound(),
            final(self)@ == old(self)@.move_reported(session, id, io::pairs(records@), io::remarks(errors@)),
    {
        proof {
            reveal(Model::move_reported);
        }
        if session != self.session || !self.finish_file_mutation(id) {
            return;
        }
        let gone = source_set(&records);
        let preferred = next_survivor(&self.listing.files, self.navigator.index(), &gone);
        let count: usize = records.len();
        self.cut_listing(&gone);
        self.remember_move(id, records);
        self.start_rating_index();
        self.tell_move(count, errors);
        self.refresh_visible(preferred);
    }

    fn grow_listing(&mut self, records: &Vec<MoveRecord>)
        requires
            old(self).sound(),
        ensures
            final(self).sound(),
            final(self)@ == old(self)@.listing_grown(io::pairs(records@)),
    {
        proof {
            reveal(Model::listing_grown);
        }
        let gone = destination_set(records);
        if self.drops_reference(&gone) {
            self.clear_pin();
        }
        let ghost s = self@;
        if records.len() > 0 {
            self.listing.all = restore_listing(&self.listing.all, &self.listing.folder, records);
            self.listing.whole = false;
            assert(self@ == s.with_listing(
                ListingModel {
                    all: restored_listing(s.listing.all, s.listing.folder, io::pairs(records@)),
                    all_written: restored_written(
                        s.listing.all_written,
                        s.listing.folder,
                        io::pairs(records@),
                    ),
                    whole: false,
                    ..s.listing
                },
            ));
        }
        self.count_index();
    }

    fn find_returning(&self, records: &Vec<MoveRecord>) -> (out: Option<PhotoPath>)
        requires
            self.sound(),
        ensures
            deleted::place(out) == self@.returning(io::pairs(records@)),
    {
            let ghost pairs = io::pairs(records@);
        let ghost folder = self@.listing.folder;
        let mut i: usize = 0;
        while i < records.len()
            invariant
                i <= records@.len(),
                pairs == io::pairs(records@),
                folder == path::written(self.listing.folder),
                first_in(pairs, folder, 0) == first_in(pairs, folder, i as int),
            decreases records@.len() - i,
        {
            proof {
                records[i as int].source.lemma_spelling();
            }
            assert(path::tidy(pairs[i as int].source) == records@[i as int].source@);
            if is_in(&records[i].source, &self.listing.folder) {
                return Some(records[i].source.copied());
            }
            i += 1;
        }
        let gone = destination_set(records);
        next_survivor(&self.listing.files, self.navigator.index(), &gone)
    }

    fn tell_return(&mut self, count: usize, errors: &Vec<(PhotoPath, String)>)
        requires
            old(self).sound(),
        ensures
            final(self).sound(),
            final(self)@ == old(self)@.return_told(count as int, io::remarks(errors@)),
    {
        proof {
            reveal(Model::return_told);
        }
        if errors.len() > 0 {
            self.push(
                Todo::Warn {
                    title: "Some photos could not be restored".to_owned(),
                    text: list_details(errors),
                },
            );
            self.push(Todo::Tell("Some photos could not be restored; Cmd+Z retries".to_owned()));
        }
        let mut text = "Restored ".to_owned();
        text::append_number(&mut text, count as u64);
        text.append(" photo(s) from _Rejected");
        self.push(Todo::Tell(text));
    }

    fn return_ratings(&mut self, ratings: &Vec<(PhotoPath, Result<i8, String>)>)
        requires
            old(self).sound(),
        ensures
            final(self).sound(),
            final(self)@ == old(self)@.ratings_returned(ratings@),
    {
        proof {
            reveal(Model::ratings_returned);
        }
        let ghost before = self@;
        return_notes(&mut self.info, ratings);
        assert(self@ == before.ratings_returned(ratings@));
    }

    /// Takes in that photographs were moved back. Each error stands beside the
    /// record that failed.
    pub fn restored_deleted(
        &mut self,
        session: u64,
        id: u64,
        restored: &Vec<MoveRecord>,
        ratings: &Vec<(PhotoPath, Result<i8, String>)>,
        failed: Vec<MoveRecord>,
        errors: &Vec<(PhotoPath, String)>,
    )
        requires
            old(self).sound(),
        ensures
            final(self).sound(),
            final(self)@ == old(self)@.return_reported(
                session,
                id,
                io::pairs(restored@),
                ratings@,
                io::pairs(failed@),
                io::remarks(errors@),
            ),
    {
        proof {
            reveal(Model::return_reported);
        }
        if session != self.session || !self.finish_file_mutation(id) {
            return;
        }
        self.return_ratings(ratings);
        let preferred = self.find_returning(restored);
        self.grow_listing(restored);
        self.remember_move(id, failed);
        self.start_rating_index();
        self.tell_return(restored.len(), errors);
        self.refresh_visible(preferred);
    }
}

/// Takes in the ratings of photographs that came back.
fn return_notes(notes: &mut PathMap<PhotoInfo>, ratings: &Vec<(PhotoPath, Result<i8, String>)>)
    requires
        old(notes).sound(),
    ensures
        final(notes).sound(),
        final(notes)@ == notes_returned(old(notes)@, ratings@, ratings@.len() as int),
{
    let ghost was = notes@;
    let mut i: usize = 0;
    while i < ratings.len()
        invariant
            i <= ratings@.len(),
            notes.sound(),
            notes@ == notes_returned(was, ratings@, i as int),
        decreases ratings@.len() - i,
    {
        let (photo, result) = &ratings[i];
        let mut known = info::take(notes, photo);
        let stars: Option<i8> = match result {
            Ok(stars) => Some(*stars),
            Err(_) => None,
        };
        known.come_back(stars);
        info::put(notes, photo, known);
        i += 1;
    }
}

/// What went wrong, a line for each photograph.
fn list_details(errors: &Vec<(PhotoPath, String)>) -> (out: String)
    ensures
        out@ == details(io::remarks(errors@)),
{
    let mut lines: Vec<String> = Vec::new();
    let mut i: usize = 0;
    assert(text::texts(lines@) =~= complaints(io::remarks(errors@)).take(0));
    while i < errors.len()
        invariant
            i <= errors@.len(),
            text::texts(lines@) == complaints(io::remarks(errors@)).take(i as int),
        decreases errors@.len() - i,
    {
        let (photo, error) = &errors[i];
        let mut line = photo.display();
        line.append(": ");
        line.append(error.as_str());
        let ghost before = text::texts(lines@);
        lines.push(line);
        assert(complaints(io::remarks(errors@))[i as int] == line@);
        assert(text::texts(lines@) =~= before.push(line@));
        assert(text::texts(lines@) =~= complaints(io::remarks(errors@)).take(i + 1));
        i += 1;
    }
    assert(complaints(io::remarks(errors@)).take(i as int) =~= complaints(io::remarks(errors@)));
    text::join(&lines, "\n")
}

/// When photographs are gone, the first that is left from the selected one on is shown
/// next; if none is, the nearest before it.
pub proof fn law_the_nearest_photograph_is_next(
    files: Seq<Seq<u8>>,
    index: usize,
    gone: Set<Seq<u8>>,
    j: int,
)
    requires
        index < files.len(),
        0 <= j < files.len(),
        !gone.contains(files[j]),
        j >= index ==> forall|i: int| index <= i < j ==> gone.contains(#[trigger] files[i]),
        j < index ==> forall|i: int| j < i < files.len() ==> gone.contains(#[trigger] files[i]),
    ensures
        survivor(files, Some(index), gone) == Some(files[j]),
{
    if j >= index {
        lemma_first_ahead(files, gone, index as int, j);
    } else {
        lemma_ahead_of(files, gone, index as int);
        let next = ahead_of(files, gone, index as int);
        lemma_none_ahead(files, gone, index as int);
        lemma_first_behind(files, gone, index as int, j);
    }
}

proof fn lemma_first_ahead(files: Seq<Seq<u8>>, gone: Set<Seq<u8>>, i: int, j: int)
    requires
        0 <= i <= j < files.len(),
        !gone.contains(files[j]),
        forall|k: int| i <= k < j ==> gone.contains(#[trigger] files[k]),
    ensures
        ahead_of(files, gone, i) == Some(files[j]),
    decreases j - i,
{
    if i < j {
        assert(gone.contains(files[i]));
        lemma_first_ahead(files, gone, i + 1, j);
    }
}

proof fn lemma_none_ahead(files: Seq<Seq<u8>>, gone: Set<Seq<u8>>, i: int)
    requires
        0 <= i <= files.len(),
        forall|k: int| i <= k < files.len() ==> gone.contains(#[trigger] files[k]),
    ensures
        ahead_of(files, gone, i) is None,
    decreases files.len() - i,
{
    if i < files.len() {
        assert(gone.contains(files[i]));
        lemma_none_ahead(files, gone, i + 1);
    }
}

proof fn lemma_first_behind(files: Seq<Seq<u8>>, gone: Set<Seq<u8>>, i: int, j: int)
    requires
        0 <= j < i <= files.len(),
        !gone.contains(files[j]),
        forall|k: int| j < k < i ==> gone.contains(#[trigger] files[k]),
    ensures
        behind(files, gone, i) == Some(files[j]),
    decreases i - j,
{
    if i - 1 > j {
        assert(gone.contains(files[i - 1]));
        lemma_first_behind(files, gone, i - 1, j);
    }
}

/// Once photographs are gone, those that are left are listed, and no others.
pub proof fn law_the_others_are_left(files: Seq<Seq<u8>>, gone: Set<Seq<u8>>, n: int, photo: Seq<u8>)
    requires
        0 <= n <= files.len(),
    ensures
        remaining(files, gone, n).contains(photo) <==> files.take(n).contains(photo)
            && !gone.contains(photo),
    decreases n,
{
    let now = files.take(n);
    if n > 0 {
        law_the_others_are_left(files, gone, n - 1, photo);
        let before = files.take(n - 1);
        let (few, more) = (remaining(files, gone, n - 1), remaining(files, gone, n));
        assert(now =~= before.push(files[n - 1]));
        assert(now[n - 1] == files[n - 1]);
        if before.contains(photo) {
            let i = choose|i: int| 0 <= i < before.len() && before[i] == photo;
            assert(now[i] == photo);
        }
        if now.contains(photo) && files[n - 1] != photo {
            let i = choose|i: int| 0 <= i < now.len() && now[i] == photo;
            assert(before[i] == photo);
        }
        if !gone.contains(files[n - 1]) {
            assert(more[few.len() as int] == files[n - 1]);
            if few.contains(photo) {
                let i = choose|i: int| 0 <= i < few.len() && few[i] == photo;
                assert(more[i] == photo);
            }
            if more.contains(photo) && files[n - 1] != photo {
                let i = choose|i: int| 0 <= i < more.len() && more[i] == photo;
                assert(few[i] == photo);
            }
        }
    }
}

/// After photographs came back, the folder holds what it held, without the places they
/// came back from, and those of them that belong to it.
pub proof fn law_returned_photographs_are_listed(
    files: Seq<Seq<u8>>,
    folder: Option<Seq<u8>>,
    records: Seq<deleted::Pair>,
    photo: Seq<u8>,
)
    ensures
        with_returned(files, folder, records).contains(photo) <==> files.contains(photo)
            && !goals(records).contains(photo) || exists|i: int|
            0 <= i < records.len() && path::tidy((#[trigger] records[i]).source) == photo && lies_in(
                photo,
                folder,
            ),
{
    let there = still_there(files, goals(records), files.len() as int);
    lemma_there(files, goals(records), files.len() as int, photo);
    assert(files.take(files.len() as int) =~= files);
    lemma_back(there, folder, records, records.len() as int, photo);
}

proof fn lemma_including(files: Seq<Seq<u8>>, new: Seq<u8>, photo: Seq<u8>)
    ensures
        including(files, new).contains(photo) <==> files.contains(photo) || photo == new,
{
    if !files.contains(new) {
        let more = files.push(new);
        assert(more[files.len() as int] == new);
        if files.contains(photo) {
            let i = choose|i: int| 0 <= i < files.len() && files[i] == photo;
            assert(more[i] == photo);
        }
        if more.contains(photo) && photo != new {
            let i = choose|i: int| 0 <= i < more.len() && more[i] == photo;
            assert(files[i] == photo);
        }
    }
}

proof fn lemma_there(files: Seq<Seq<u8>>, gone: Set<Seq<u8>>, n: int, photo: Seq<u8>)
    requires
        0 <= n <= files.len(),
    ensures
        still_there(files, gone, n).contains(photo) <==> files.take(n).contains(photo)
            && !gone.contains(photo),
    decreases n,
{
    let now = files.take(n);
    if n > 0 {
        lemma_there(files, gone, n - 1, photo);
        let before = files.take(n - 1);
        assert(now =~= before.push(files[n - 1]));
        assert(now[n - 1] == files[n - 1]);
        if before.contains(photo) {
            let i = choose|i: int| 0 <= i < before.len() && before[i] == photo;
            assert(now[i] == photo);
        }
        if now.contains(photo) && files[n - 1] != photo {
            let i = choose|i: int| 0 <= i < now.len() && now[i] == photo;
            assert(before[i] == photo);
        }
        lemma_including(still_there(files, gone, n - 1), files[n - 1], photo);
    }
}

proof fn lemma_back(
    files: Seq<Seq<u8>>,
    folder: Option<Seq<u8>>,
    records: Seq<deleted::Pair>,
    n: int,
    photo: Seq<u8>,
)
    requires
        0 <= n <= records.len(),
    ensures
        come_back(files, folder, records, n).contains(photo) <==> files.contains(photo)
            || exists|i: int|
            0 <= i < n && path::tidy((#[trigger] records[i]).source) == photo && lies_in(
                photo,
                folder,
            ),
    decreases n,
{
    if n > 0 {
        lemma_back(files, folder, records, n - 1, photo);
        let source = path::tidy(records[n - 1].source);
        lemma_including(come_back(files, folder, records, n - 1), source, photo);
        if exists|i: int|
            0 <= i < n && path::tidy((#[trigger] records[i]).source) == photo && lies_in(
                photo,
                folder,
            ) {
            let i = choose|i: int|
                0 <= i < n && path::tidy((#[trigger] records[i]).source) == photo && lies_in(
                    photo,
                    folder,
                );
            assert(path::tidy(records[i].source) == photo);
        }
    }
}

} // verus!
