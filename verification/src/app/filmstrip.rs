//! The thumbnails of the filmstrip: which are kept, and which are missing.
use crate::app::path_set::PathSet;
use crate::app::textures;
use crate::app::textures::{Shelf, Texture};
use crate::path;
use crate::path::{Identity, PhotoPath};
use crate::text;
use std::ops::Range;
use vstd::prelude::*;
use vstd::string::StrSliceExecFns;

verus! {

/// Memory of the thumbnails that are kept.
pub const THUMB_CACHE_BYTES: usize = 4194304;

/// Thumbnails that are kept.
pub const THUMB_CACHE_COUNT: usize = 48;

/// Memory that is set aside for thumbnails.
pub const THUMB_POOL_BYTES: usize = 8388608;

/// Cells beside the visible ones that are worth having.
pub const PREFETCH_HALO: usize = 12;

/// Milliseconds of rest before thumbnails are loaded.
pub const IDLE_GRACE: u64 = 150;

/// Cells that can be visible.
pub const MAX_CELLS: usize = 24;

/// Characters of a cell's label.
pub const MAX_LABEL: usize = 24;

/// The memory for photographs and the memory for thumbnails, of a total. An
/// upload of a photograph cannot take what the filmstrip needs.
pub fn budget_limits(total: usize) -> (out: Result<(usize, usize), String>)
    ensures
        match out {
            Ok((main, thumbs)) => total > THUMB_POOL_BYTES && thumbs == THUMB_POOL_BYTES && main
                + thumbs == total,
            Err(error) => total <= THUMB_POOL_BYTES && error@
                == "Image budget must exceed the 8 MiB thumbnail allowance"@,
        },
{
    if total > THUMB_POOL_BYTES {
        Ok((total - THUMB_POOL_BYTES, THUMB_POOL_BYTES))
    } else {
        Err("Image budget must exceed the 8 MiB thumbnail allowance".to_owned())
    }
}

/// The cells that are worth having around the visible ones.
pub open spec fn warm(start: int, end: int, length: int) -> (int, int) {
    if start >= end {
        (0, 0)
    } else {
        (
            if start < PREFETCH_HALO {
                0
            } else {
                start - PREFETCH_HALO
            },
            if end + PREFETCH_HALO < length {
                end + PREFETCH_HALO
            } else {
                length
            },
        )
    }
}

/// The cells that are worth having around the visible ones.
pub fn warm_window(visible: Range<usize>, length: usize) -> (out: Range<usize>)
    ensures
        (out.start as int, out.end as int) == warm(
            visible.start as int,
            visible.end as int,
            length as int,
        ),
{
    if visible.start >= visible.end {
        return 0..0;
    }
    let start: usize = visible.start.saturating_sub(PREFETCH_HALO);
    let end: usize = visible.end.saturating_add(PREFETCH_HALO);
    if end < length {
        start..end
    } else {
        start..length
    }
}

/// The visible cells are worth having, with a bounded number of others.
pub proof fn law_visible_cells_stay_warm(start: int, end: int, length: int)
    requires
        0 <= start <= end <= length,
    ensures
        ({
            let (first, last) = warm(start, end, length);
            &&& start < end ==> 0 <= first <= start && end <= last <= length
            &&& last - first <= end - start + 2 * PREFETCH_HALO
        }),
{
}

/// How many cells a photograph is away from the visible ones.
pub open spec fn away(index: int, start: int, end: int) -> int {
    if index < start {
        start - index
    } else if index >= end {
        index - end + 1
    } else {
        0
    }
}

/// How many cells a photograph is away from the visible ones.
pub fn distance_from_window(index: usize, visible: &Range<usize>) -> (out: usize)
    ensures
        out == if away(index as int, visible.start as int, visible.end as int) > usize::MAX {
            usize::MAX as int
        } else {
            away(index as int, visible.start as int, visible.end as int)
        },
{
    if index < visible.start {
        visible.start - index
    } else if index >= visible.end {
        (index - visible.end).saturating_add(1)
    } else {
        0
    }
}

/// Memory of some textures.
pub open spec fn bytes_of<K>(s: Seq<(K, Texture)>) -> int
    decreases s.len(),
{
    if s.len() == 0 {
        0
    } else {
        bytes_of(s.drop_last()) + s.last().1.byte_size
    }
}

/// Whether a photograph is one of those at the positions `from` to `to`.
pub open spec fn seated<K>(files: Seq<K>, from: int, to: int, k: K) -> bool {
    exists|i: int| from <= i < to && 0 <= i < files.len() && #[trigger] files[i] == k
}

/// The first position from `from` on, before `to`, of a photograph.
pub open spec fn seat<K>(files: Seq<K>, from: int, to: int, k: K) -> Option<int>
    decreases to - from,
{
    if from >= to || from < 0 || from >= files.len() {
        None
    } else if files[from] == k {
        Some(from)
    } else {
        seat(files, from + 1, to, k)
    }
}

proof fn lemma_seat<K>(files: Seq<K>, from: int, to: int, k: K)
    requires
        0 <= from,
    ensures
        seat(files, from, to, k) is Some <==> seated(files, from, to, k),
        seat(files, from, to, k) matches Some(i) ==> from <= i < to && i < files.len() && files[i]
            == k,
    decreases to - from,
{
    if from < to && from < files.len() {
        lemma_seat(files, from + 1, to, k);
        if files[from] != k && seated(files, from, to, k) {
            let i = choose|i: int|
                from <= i < to && 0 <= i < files.len() && #[trigger] files[i] == k;
            assert(files[i] == k);
        }
        if seated(files, from + 1, to, k) {
            let i = choose|i: int|
                from + 1 <= i < to && 0 <= i < files.len() && #[trigger] files[i] == k;
            assert(files[i] == k);
        }
    }
}

fn find_seat<P: Identity>(files: &Vec<P>, range: &Range<usize>, p: &P) -> (out: Option<usize>)
    ensures
        match seat(path::keys(files@), range.start as int, range.end as int, p.key()) {
            Some(i) => out is Some && out->0 == i,
            None => out is None,
        },
{
    let ghost keys = path::keys(files@);
    let mut i: usize = range.start;
    while i < range.end && i < files.len()
        invariant
            keys == path::keys(files@),
            seat(keys, range.start as int, range.end as int, p.key()) == seat(
                keys,
                i as int,
                range.end as int,
                p.key(),
            ),
        decreases files@.len() - i,
    {
        if files[i].same(p) {
            return Some(i);
        }
        i += 1;
    }
    None
}

/// The thumbnail at a position is of a photograph that is not worth having.
pub open spec fn outside<K>(s: Seq<(K, Texture)>, files: Seq<K>, range: (int, int), i: int) -> bool {
    &&& 0 <= i < s.len()
    &&& seat(files, range.0, range.1, s[i].0) is None
}

/// How far the photograph of a thumbnail is from the visible cells.
pub open spec fn remote<K>(s: Seq<(K, Texture)>, files: Seq<K>, range: (int, int), visible: (int, int), i: int) -> int {
    match seat(files, range.0, range.1, s[i].0) {
        Some(index) => away(index, visible.0, visible.1),
        None => 0,
    }
}

/// The thumbnail to drop: the oldest of a photograph that is not worth having;
/// else the one farthest from the visible cells, the oldest of several; else the
/// oldest.
pub open spec fn dispensable<K>(
    s: Seq<(K, Texture)>,
    files: Seq<K>,
    range: (int, int),
    visible: (int, int),
    i: int,
) -> bool {
    if exists|j: int| outside(s, files, range, j) {
        outside(s, files, range, i) && forall|j: int| #[trigger]
            outside(s, files, range, j) ==> i <= j
    } else if exists|j: int| 0 <= j < s.len() && #[trigger] remote(s, files, range, visible, j) > 0 {
        &&& 0 <= i < s.len()
        &&& remote(s, files, range, visible, i) > 0
        &&& forall|j: int|
            0 <= j < s.len() ==> {
                &&& #[trigger] remote(s, files, range, visible, j) <= remote(
                    s,
                    files,
                    range,
                    visible,
                    i,
                )
                &&& j < i ==> remote(s, files, range, visible, j) < remote(
                    s,
                    files,
                    range,
                    visible,
                    i,
                )
            }
    } else {
        i == 0
    }
}

/// Whether too many thumbnails are kept.
pub open spec fn crowded<K>(s: Seq<(K, Texture)>) -> bool {
    s.len() > THUMB_CACHE_COUNT || bytes_of(s) > THUMB_CACHE_BYTES
}

/// The thumbnails that stay, one dispensable one after the other dropped.
pub open spec fn thinned<K>(
    s: Seq<(K, Texture)>,
    files: Seq<K>,
    range: (int, int),
    visible: (int, int),
) -> Seq<(K, Texture)>
    decreases s.len(),
{
    if s.len() == 0 || !crowded(s) {
        s
    } else {
        let i = choose|i: int| dispensable(s, files, range, visible, i);
        if 0 <= i < s.len() {
            thinned(s.remove(i), files, range, visible)
        } else {
            s
        }
    }
}

proof fn lemma_dispensable<K>(
    s: Seq<(K, Texture)>,
    files: Seq<K>,
    range: (int, int),
    visible: (int, int),
    i: int,
    j: int,
)
    requires
        dispensable(s, files, range, visible, i),
        dispensable(s, files, range, visible, j),
    ensures
        i == j,
{
    if !(exists|j: int| outside(s, files, range, j)) && exists|j: int|
        0 <= j < s.len() && #[trigger] remote(s, files, range, visible, j) > 0 {
        assert(remote(s, files, range, visible, i) <= remote(s, files, range, visible, j));
        assert(remote(s, files, range, visible, j) <= remote(s, files, range, visible, i));
    }
}

/// The thumbnail to drop.
fn find_dispensable<P: Identity>(
    shelf: &Shelf<P>,
    files: &Vec<P>,
    range: &Range<usize>,
    visible: &Range<usize>,
) -> (out: usize)
    requires
        shelf@.len() > 0,
    ensures
        out < shelf@.len(),
        dispensable(
            shelf@,
            path::keys(files@),
            (range.start as int, range.end as int),
            (visible.start as int, visible.end as int),
            out as int,
        ),
{
    let ghost s = shelf@;
    let ghost keys = path::keys(files@);
    let ghost span = (range.start as int, range.end as int);
    let ghost seen = (visible.start as int, visible.end as int);
    let mut best: Option<(usize, usize)> = None;
    let mut i: usize = 0;
    while i < shelf.entries.len()
        invariant
            i <= s.len(),
            s == shelf@,
            s.len() == shelf.entries@.len(),
            keys == path::keys(files@),
            span == (range.start as int, range.end as int),
            seen == (visible.start as int, visible.end as int),
            forall|j: int| 0 <= j < i ==> !#[trigger] outside(s, keys, span, j),
            match best {
                Some((at, distance)) => {
                    &&& at < i
                    &&& distance == remote(s, keys, span, seen, at as int)
                    &&& distance > 0
                    &&& forall|j: int|
                        0 <= j < i ==> #[trigger] remote(s, keys, span, seen, j) <= distance && (j
                            < at ==> remote(s, keys, span, seen, j) < distance)
                },
                None => forall|j: int| 0 <= j < i ==> #[trigger] remote(s, keys, span, seen, j) <= 0,
            },
        decreases s.len() - i,
    {
        assert(s[i as int].0 == shelf.entries@[i as int].0.key());
        proof {
            lemma_seat(keys, span.0, span.1, s[i as int].0);
        }
        match find_seat(files, range, &shelf.entries[i].0) {
            None => {
                assert(outside(s, keys, span, i as int));
                return i;
            },
            Some(index) => {
                let distance: usize = distance_from_window(index, visible);
                assert(distance == remote(s, keys, span, seen, i as int));
                let farther = match best {
                    Some((_, most)) => distance > most,
                    None => distance > 0,
                };
                if farther {
                    best = Some((i, distance));
                }
            },
        }
        i += 1;
    }
    assert forall|j: int| !outside(s, keys, span, j) by {}
    match best {
        Some((at, _)) => {
            assert(remote(s, keys, span, seen, at as int) > 0);
            at
        },
        None => 0,
    }
}

fn is_crowded<P: Identity>(shelf: &Shelf<P>) -> (out: bool)
    ensures
        out == crowded(shelf@),
{
    if shelf.entries.len() > THUMB_CACHE_COUNT {
        return true;
    }
    let ghost s = shelf@;
    let mut total: u128 = 0;
    let mut i: usize = 0;
    assert(s.take(0) =~= Seq::empty());
    while i < shelf.entries.len()
        invariant
            i <= s.len() <= THUMB_CACHE_COUNT,
            s == shelf@,
            s.len() == shelf.entries@.len(),
            total == bytes_of(s.take(i as int)),
            total <= i * 0xffff_ffff_ffff_ffff,
        decreases s.len() - i,
    {
        assert(s.take(i + 1).drop_last() =~= s.take(i as int));
        assert(s[i as int].1 == shelf.entries@[i as int].1);
        total = total + shelf.entries[i].1.byte_size as u128;
        i += 1;
    }
    assert(s.take(i as int) =~= s);
    total > THUMB_CACHE_BYTES as u128
}

/// Drops thumbnails until they fit. Visible ones go last.
pub fn trim_thumbnails<P: Identity>(shelf: &mut Shelf<P>, files: &Vec<P>, visible: &Range<usize>)
    ensures
        final(shelf)@ == thinned(
            old(shelf)@,
            path::keys(files@),
            warm(visible.start as int, visible.end as int, files@.len() as int),
            (visible.start as int, visible.end as int),
        ),
        !crowded(final(shelf)@),
{
    let range = warm_window(visible.start..visible.end, files.len());
    let ghost keys = path::keys(files@);
    let ghost span = (range.start as int, range.end as int);
    let ghost seen = (visible.start as int, visible.end as int);
    let ghost want = thinned(shelf@, keys, span, seen);
    while is_crowded(shelf)
        invariant
            keys == path::keys(files@),
            span == (range.start as int, range.end as int),
            seen == (visible.start as int, visible.end as int),
            want == thinned(shelf@, keys, span, seen),
        decreases shelf@.len(),
    {
        let ghost s = shelf@;
        assert(s.len() > 0);
        let i: usize = find_dispensable(shelf, files, &range, visible);
        proof {
            let c = choose|i: int| dispensable(s, keys, span, seen, i);
            lemma_dispensable(s, keys, span, seen, c, i as int);
        }
        let _ = shelf.remove(i);
    }
}

/// With the thumbnails of the first `n` visible cells as the ones used last.
pub open spec fn refreshed<K>(s: Seq<(K, Texture)>, files: Seq<K>, start: int, n: int) -> Seq<(K, Texture)>
    decreases n,
{
    if n <= 0 {
        s
    } else {
        let before = refreshed(s, files, start, n - 1);
        let at = start + n - 1;
        if 0 <= at < files.len() {
            match path::first_position(textures::owners(before), files[at]) {
                Some(i) => before.remove(i).push(before[i]),
                None => before,
            }
        } else {
            before
        }
    }
}

/// Makes the visible thumbnails the ones used last.
pub fn touch_visible<P: Identity>(shelf: &mut Shelf<P>, files: &Vec<P>, visible: &Range<usize>)
    ensures
        final(shelf)@ == refreshed(
            old(shelf)@,
            path::keys(files@),
            visible.start as int,
            visible.end - visible.start,
        ),
{
    let ghost keys = path::keys(files@);
    let mut index: usize = visible.start;
    while index < visible.end
        invariant
            visible.start <= index,
            index == visible.start || index <= visible.end,
            keys == path::keys(files@),
            shelf@ == refreshed(old(shelf)@, keys, visible.start as int, index - visible.start),
        decreases visible.end - index,
    {
        if index < files.len() {
            match shelf.position(&files[index]) {
                Some(i) => {
                    let (p, texture) = shelf.remove(i);
                    shelf.push(p, texture);
                },
                None => {},
            }
        }
        index += 1;
    }
}

/// Whether the thumbnail of a cell is missing.
pub open spec fn lacking<K>(
    files: Seq<K>,
    shelf: Seq<(K, Texture)>,
    unavailable: Set<K>,
    range: (int, int),
    index: int,
) -> bool {
    &&& range.0 <= index < range.1
    &&& 0 <= index < files.len()
    &&& textures::texture_of(shelf, files[index]) is None
    &&& !unavailable.contains(files[index])
}

/// Which of two missing thumbnails is loaded first: a visible one, the one
/// nearer to the anchor, the earlier one.
pub open spec fn sooner(visible: (int, int), anchor: int, i: int, j: int) -> bool {
    let a = !(visible.0 <= i < visible.1);
    let b = !(visible.0 <= j < visible.1);
    let x = if i < anchor {
        anchor - i
    } else {
        i - anchor
    };
    let y = if j < anchor {
        anchor - j
    } else {
        j - anchor
    };
    if a != b {
        b
    } else {
        x < y || (x == y && i < j)
    }
}

/// A plan names the missing thumbnails, each once, the first to be loaded first.
pub open spec fn plan_of<K>(
    plan: Seq<(usize, K)>,
    files: Seq<K>,
    shelf: Seq<(K, Texture)>,
    unavailable: Set<K>,
    range: (int, int),
    visible: (int, int),
    anchor: int,
    to: int,
) -> bool {
    &&& forall|i: int|
        0 <= i < plan.len() ==> {
            let (index, k) = #[trigger] plan[i];
            &&& lacking(files, shelf, unavailable, range, index as int)
            &&& index < to
            &&& k == files[index as int]
        }
    &&& forall|i: int, j: int|
        0 <= i < j < plan.len() ==> sooner(
            visible,
            anchor,
            (#[trigger] plan[i]).0 as int,
            (#[trigger] plan[j]).0 as int,
        )
    &&& forall|index: int|
        #![trigger files[index]]
        index < to && lacking(files, shelf, unavailable, range, index) ==> exists|i: int|
            0 <= i < plan.len() && (#[trigger] plan[i]).0 == index
}

/// The members of a plan by their keys.
pub open spec fn plan_keys<P: Identity>(plan: Seq<(usize, P)>) -> Seq<(usize, P::Key)> {
    plan.map_values(|e: (usize, P)| (e.0, e.1.key()))
}

fn loads_sooner(visible: &Range<usize>, anchor: usize, i: usize, j: usize) -> (out: bool)
    ensures
        out == sooner(
            (visible.start as int, visible.end as int),
            anchor as int,
            i as int,
            j as int,
        ),
{
    let a = !(visible.start <= i && i < visible.end);
    let b = !(visible.start <= j && j < visible.end);
    let x: usize = if i < anchor {
        anchor - i
    } else {
        i - anchor
    };
    let y: usize = if j < anchor {
        anchor - j
    } else {
        j - anchor
    };
    if a != b {
        b
    } else {
        x < y || (x == y && i < j)
    }
}

proof fn lemma_sooner(visible: (int, int), anchor: int, i: int, j: int, k: int)
    ensures
        sooner(visible, anchor, i, j) && sooner(visible, anchor, j, k) ==> sooner(
            visible,
            anchor,
            i,
            k,
        ),
        i != j ==> sooner(visible, anchor, i, j) || sooner(visible, anchor, j, i),
{
}

/// The missing thumbnails, the first to be loaded first.
pub fn missing_thumbnails(
    files: &Vec<PhotoPath>,
    shelf: &Shelf<PhotoPath>,
    unavailable: &PathSet,
    visible: &Range<usize>,
    anchor: usize,
) -> (out: Vec<(usize, PhotoPath)>)
    ensures
        plan_of(
            plan_keys(out@),
            path::keys(files@),
            shelf@,
            unavailable@,
            warm(visible.start as int, visible.end as int, files@.len() as int),
            (visible.start as int, visible.end as int),
            anchor as int,
            files@.len() as int,
        ),
{
    let range = warm_window(visible.start..visible.end, files.len());
    let ghost keys = path::keys(files@);
    let ghost gone = unavailable@;
    let ghost span = (range.start as int, range.end as int);
    let ghost seen = (visible.start as int, visible.end as int);
    let mut out: Vec<(usize, PhotoPath)> = Vec::new();
    let mut index: usize = range.start;
    while index < range.end && index < files.len()
        invariant
            range.start <= index,
            keys == path::keys(files@),
            gone == unavailable@,
            span == (range.start as int, range.end as int),
            seen == (visible.start as int, visible.end as int),
            plan_of(
                plan_keys(out@),
                keys,
                shelf@,
                gone,
                span,
                seen,
                anchor as int,
                index as int,
            ),
        decreases files@.len() - index,
    {
        let lacks = shelf.find(&files[index]).is_none() && !unavailable.contains(&files[index]);
        assert(lacks == lacking(keys, shelf@, gone, span, index as int));
        if lacks {
            let ghost before = plan_keys(out@);
            let mut at: usize = out.len();
            while at > 0 && loads_sooner(visible, anchor, index, out[at - 1].0)
                invariant
                    at <= out@.len(),
                    before == plan_keys(out@),
                    seen == (visible.start as int, visible.end as int),
                    forall|i: int|
                        at <= i < before.len() ==> sooner(
                            seen,
                            anchor as int,
                            index as int,
                            (#[trigger] before[i]).0 as int,
                        ),
                decreases at,
            {
                assert(before[at - 1].0 == out@[at - 1].0);
                at -= 1;
            }
            out.insert(at, (index, files[index].copied()));
            proof {
                lemma_planned(
                    before,
                    keys,
                    shelf@,
                    gone,
                    span,
                    seen,
                    anchor as int,
                    index,
                    at as int,
                );
                assert(plan_keys(out@) =~= before.insert(at as int, (index, keys[index as int])));
            }
        } else {
            proof {
                lemma_not_planned(
                    plan_keys(out@),
                    keys,
                    shelf@,
                    gone,
                    span,
                    seen,
                    anchor as int,
                    index as int,
                );
            }
        }
        index += 1;
    }
    proof {
        let plan = plan_keys(out@);
        assert forall|other: int|
            #![trigger keys[other]]
            other < keys.len() && lacking(keys, shelf@, gone, span, other) implies exists|i: int|
            0 <= i < plan.len() && (#[trigger] plan[i]).0 == other by {
            assert(other < index);
        }
    }
    out
}

proof fn lemma_not_planned<K>(
    plan: Seq<(usize, K)>,
    files: Seq<K>,
    shelf: Seq<(K, Texture)>,
    unavailable: Set<K>,
    range: (int, int),
    visible: (int, int),
    anchor: int,
    index: int,
)
    requires
        plan_of(plan, files, shelf, unavailable, range, visible, anchor, index),
        !lacking(files, shelf, unavailable, range, index),
    ensures
        plan_of(plan, files, shelf, unavailable, range, visible, anchor, index + 1),
{
}

proof fn lemma_planned<K>(
    before: Seq<(usize, K)>,
    files: Seq<K>,
    shelf: Seq<(K, Texture)>,
    unavailable: Set<K>,
    range: (int, int),
    visible: (int, int),
    anchor: int,
    index: usize,
    at: int,
)
    requires
        plan_of(before, files, shelf, unavailable, range, visible, anchor, index as int),
        lacking(files, shelf, unavailable, range, index as int),
        0 <= at <= before.len(),
        forall|i: int|
            at <= i < before.len() ==> sooner(
                visible,
                anchor,
                index as int,
                (#[trigger] before[i]).0 as int,
            ),
        at > 0 ==> !sooner(visible, anchor, index as int, before[at - 1].0 as int),
    ensures
        plan_of(
            before.insert(at, (index, files[index as int])),
            files,
            shelf,
            unavailable,
            range,
            visible,
            anchor,
            index + 1,
        ),
{
    let now = before.insert(at, (index, files[index as int]));
    assert forall|i: int, j: int| 0 <= i < j < now.len() implies sooner(
        visible,
        anchor,
        (#[trigger] now[i]).0 as int,
        (#[trigger] now[j]).0 as int,
    ) by {
        if j == at {
            let last = before[at - 1].0 as int;
            lemma_sooner(visible, anchor, last, index as int, index as int);
            assert(sooner(visible, anchor, last, index as int));
            if i < at - 1 {
                assert(sooner(visible, anchor, before[i].0 as int, before[at - 1].0 as int));
                lemma_sooner(visible, anchor, before[i].0 as int, last, index as int);
            }
        } else if i == at {
            assert(now[j] == before[j - 1]);
        } else {
            let a = if i < at {
                i
            } else {
                i - 1
            };
            let b = if j < at {
                j
            } else {
                j - 1
            };
            assert(sooner(visible, anchor, before[a].0 as int, before[b].0 as int));
        }
    }
    assert forall|other: int|
        #![trigger files[other]]
        other < index + 1 && lacking(files, shelf, unavailable, range, other) implies exists|i: int|
        0 <= i < now.len() && (#[trigger] now[i]).0 == other by {
        if other == index {
            assert(now[at].0 == other);
        } else {
            let i = choose|i: int| 0 <= i < before.len() && (#[trigger] before[i]).0 == other;
            let k = if i < at {
                i
            } else {
                i + 1
            };
            assert(now[k].0 == other);
        }
    }
}

/// The label of a cell: the name of its photograph, cut short.
pub open spec fn label(p: Seq<u8>) -> Seq<char> {
    let name = match path::stem_of(p) {
        Some(stem) => text::lossy_text(stem),
        None => text::lossy_text(Seq::empty()),
    };
    if name.len() > MAX_LABEL {
        name.take(MAX_LABEL as int)
    } else {
        name
    }
}

/// The label of a cell.
pub fn cell_label(p: &PhotoPath) -> (out: String)
    ensures
        out@ == label(p@),
{
    let name = match p.file_stem() {
        Some(stem) => text::from_utf8_lossy(&stem),
        None => {
            let none: Vec<u8> = Vec::new();
            assert(none@ =~= Seq::<u8>::empty());
            text::from_utf8_lossy(&none)
        },
    };
    if name.as_str().unicode_len() > MAX_LABEL {
        let out = name.as_str().substring_char(0, MAX_LABEL);
        assert(out@ =~= name@.take(MAX_LABEL as int));
        out.to_owned()
    } else {
        name
    }
}

/// Twelve cells on either side of the visible ones are worth having, as far as there
/// are photographs.
pub proof fn law_twelve_cells_on_either_side_are_warm(start: int, end: int, length: int, index: int)
    requires
        0 <= start < end <= length,
        0 <= index < length,
    ensures
        ({
            let (first, last) = warm(start, end, length);
            first <= index < last <==> start - 12 <= index < end + 12
        }),
{
}

/// Thumbnails of visible cells are loaded before others; of two that are both visible,
/// or both not, the one nearer to the selected photograph.
pub proof fn law_visible_thumbnails_come_first(visible: (int, int), anchor: int, i: int, j: int)
    requires
        i != j,
    ensures
        ({
            let seen = |k: int| visible.0 <= k < visible.1;
            &&& seen(i) && !seen(j) ==> sooner(visible, anchor, i, j) && !sooner(
                visible,
                anchor,
                j,
                i,
            )
            &&& seen(i) == seen(j) && anchor <= i < j ==> sooner(visible, anchor, i, j)
            &&& seen(i) == seen(j) && j < i <= anchor ==> sooner(visible, anchor, i, j)
            &&& sooner(visible, anchor, i, j) != sooner(visible, anchor, j, i)
        }),
{
}

/// A cell is labelled with the first twenty-four characters of its photograph's name.
pub proof fn law_labels_are_names(p: Seq<u8>)
    requires
        path::stem_of(p) is Some,
    ensures
        ({
            let name = text::lossy_text(path::stem_of(p)->0);
            &&& name.len() <= 24 ==> label(p) == name
            &&& name.len() > 24 ==> label(p) == name.subrange(0, 24)
        }),
{
    let name = text::lossy_text(path::stem_of(p)->0);
    if name.len() > 24 {
        assert(name.take(24) =~= name.subrange(0, 24));
    }
}

/// Forty-eight thumbnails of four megabytes altogether are kept, whatever they are of.
pub proof fn law_thumbnails_are_kept_while_they_fit<K>(
    s: Seq<(K, Texture)>,
    files: Seq<K>,
    range: (int, int),
    visible: (int, int),
)
    ensures
        s.len() <= 48 && bytes_of(s) <= 4194304 ==> thinned(s, files, range, visible) == s,
{
}

} // verus!
