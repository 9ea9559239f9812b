//! Which photographs of a folder are shown.
use crate::path;
use crate::path::Identity;
use vstd::prelude::*;

verus! {

/// Unknown ratings stay out of filtered views until their sidecars are read. A
/// failed read is unknown, not an implicit zero.
#[derive(Clone, Copy, Debug, PartialEq, Eq, Structural)]
pub enum PhotoFilter {
    All,
    Stars(u8),
    Rated,
    Unrated,
    Rejected,
    NotRejected,
}

impl Default for PhotoFilter {
    fn default() -> (out: Self)
        ensures
            out == PhotoFilter::All,
    {
        PhotoFilter::All
    }
}

impl PhotoFilter {
    /// Whether a photograph with this rating is shown.
    pub open spec fn shows(self, rating: Option<i8>) -> bool {
        match self {
            PhotoFilter::All => true,
            PhotoFilter::Stars(stars) => 1 <= stars <= 5 && rating is Some && rating->0 == stars,
            PhotoFilter::Rated => rating is Some && 1 <= rating->0 <= 5,
            PhotoFilter::Unrated => rating == Some(0i8),
            PhotoFilter::Rejected => rating == Some(-1i8),
            PhotoFilter::NotRejected => rating is Some && 0 <= rating->0 <= 5,
        }
    }

    /// The name of the filter in the menu and in the status line.
    pub open spec fn name(self) -> Seq<char> {
        match self {
            PhotoFilter::All => "All photos"@,
            PhotoFilter::Stars(stars) => if stars == 1 {
                "1 star only"@
            } else if stars == 2 {
                "2 stars only"@
            } else if stars == 3 {
                "3 stars only"@
            } else if stars == 4 {
                "4 stars only"@
            } else if stars == 5 {
                "5 stars only"@
            } else {
                "Invalid star filter"@
            },
            PhotoFilter::Rated => "Rated photos"@,
            PhotoFilter::Unrated => "Unrated photos"@,
            PhotoFilter::Rejected => "Rejected photos"@,
            PhotoFilter::NotRejected => "Not rejected"@,
        }
    }

    pub fn matches(self, rating: Option<i8>) -> (out: bool)
        ensures
            out == self.shows(rating),
    {
        match self {
            PhotoFilter::All => true,
            PhotoFilter::Stars(stars) => match rating {
                Some(rating) => 1 <= stars && stars <= 5 && rating == stars as i8,
                None => false,
            },
            PhotoFilter::Rated => match rating {
                Some(rating) => 1 <= rating && rating <= 5,
                None => false,
            },
            PhotoFilter::Unrated => match rating {
                Some(rating) => rating == 0,
                None => false,
            },
            PhotoFilter::Rejected => match rating {
                Some(rating) => rating == -1,
                None => false,
            },
            PhotoFilter::NotRejected => match rating {
                Some(rating) => 0 <= rating && rating <= 5,
                None => false,
            },
        }
    }

    pub fn label(self) -> (out: &'static str)
        ensures
            out@ == self.name(),
    {
        match self {
            PhotoFilter::All => "All photos",
            PhotoFilter::Stars(stars) => if stars == 1 {
                "1 star only"
            } else if stars == 2 {
                "2 stars only"
            } else if stars == 3 {
                "3 stars only"
            } else if stars == 4 {
                "4 stars only"
            } else if stars == 5 {
                "5 stars only"
            } else {
                "Invalid star filter"
            },
            PhotoFilter::Rated => "Rated photos",
            PhotoFilter::Unrated => "Unrated photos",
            PhotoFilter::Rejected => "Rejected photos",
            PhotoFilter::NotRejected => "Not rejected",
        }
    }
}

/// Those of the first `n` photographs that a filter shows, in order.
pub open spec fn shown<K>(all: Seq<K>, ratings: Seq<Option<i8>>, filter: PhotoFilter, n: int) -> Seq<
    K,
>
    decreases n,
{
    if n <= 0 {
        Seq::empty()
    } else if filter.shows(ratings[n - 1]) {
        shown(all, ratings, filter, n - 1).push(all[n - 1])
    } else {
        shown(all, ratings, filter, n - 1)
    }
}

/// Some answers that a lookup of ratings may give for a list.
pub open spec fn answers<P, F: Fn(&P) -> Option<i8>>(
    rating: F,
    all: Seq<P>,
    ratings: Seq<Option<i8>>,
) -> bool {
    &&& ratings.len() == all.len()
    &&& forall|i: int|
        #![trigger ratings[i]]
        0 <= i < all.len() ==> rating.ensures((&all[i],), ratings[i])
}

/// The photographs that a filter shows, in the order of the folder. Showing all
/// of them needs no ratings.
pub fn select_visible<P: Identity, F: Fn(&P) -> Option<i8>>(
    all: &Vec<P>,
    filter: PhotoFilter,
    rating: F,
) -> (out: Vec<P>)
    requires
        forall|i: int|
            #![trigger all@[i]]
            0 <= i < all@.len() && filter != PhotoFilter::All ==> rating.requires((&all@[i],)),
    ensures
        filter == PhotoFilter::All ==> path::keys(out@) == path::keys(all@) && path::spellings(out@)
            == path::spellings(all@),
        filter != PhotoFilter::All ==> exists|ratings: Seq<Option<i8>>| #[trigger]
            answers(rating, all@, ratings) && path::keys(out@) == shown(
                path::keys(all@),
                ratings,
                filter,
                all@.len() as int,
            ) && path::spellings(out@) == shown(
                path::spellings(all@),
                ratings,
                filter,
                all@.len() as int,
            ),
{
    let everything = match filter {
        PhotoFilter::All => true,
        _ => false,
    };
    let mut out: Vec<P> = Vec::new();
    let ghost mut ratings: Seq<Option<i8>> = Seq::empty();
    let mut i: usize = 0;
    while i < all.len()
        invariant
            i <= all@.len(),
            everything == (filter == PhotoFilter::All),
            forall|i: int|
                #![trigger all@[i]]
                0 <= i < all@.len() && filter != PhotoFilter::All ==> rating.requires((&all@[i],)),
            ratings.len() == i,
            !everything ==> forall|k: int|
                #![trigger ratings[k]]
                0 <= k < i ==> rating.ensures((&all@[k],), ratings[k]),
            path::keys(out@) == shown(path::keys(all@), ratings, filter, i as int),
            path::spellings(out@) == shown(path::spellings(all@), ratings, filter, i as int),
            everything ==> path::keys(out@) == path::keys(all@).take(i as int),
            everything ==> path::spellings(out@) == path::spellings(all@).take(i as int),
        decreases all@.len() - i,
    {
        let ghost before = ratings;
        let ghost so_far = path::keys(out@);
        let ghost written = path::spellings(out@);
        proof {
            lemma_shown_agrees(path::keys(all@), before, before.push(None), filter, i as int);
            lemma_shown_agrees(path::spellings(all@), before, before.push(None), filter, i as int);
        }
        if everything {
            out.push(all[i].copied());
            proof {
                ratings = before.push(None);
            }
            assert(path::keys(out@) =~= so_far.push(path::keys(all@)[i as int]));
            assert(path::keys(out@) =~= path::keys(all@).take(i + 1));
            assert(path::spellings(out@) =~= written.push(path::spellings(all@)[i as int]));
            assert(path::spellings(out@) =~= path::spellings(all@).take(i + 1));
        } else {
            let known: Option<i8> = rating(&all[i]);
            proof {
                ratings = before.push(known);
                lemma_shown_agrees(path::keys(all@), before, ratings, filter, i as int);
                lemma_shown_agrees(path::spellings(all@), before, ratings, filter, i as int);
            }
            if filter.matches(known) {
                out.push(all[i].copied());
                assert(path::keys(out@) =~= so_far.push(path::keys(all@)[i as int]));
                assert(path::spellings(out@) =~= written.push(path::spellings(all@)[i as int]));
            }
        }
        i += 1;
    }
    proof {
        if everything {
            assert(path::keys(all@).take(i as int) =~= path::keys(all@));
            assert(path::spellings(all@).take(i as int) =~= path::spellings(all@));
        } else {
            assert(answers(rating, all@, ratings));
        }
    }
    out
}

/// Only the ratings of the first `n` photographs matter for them.
proof fn lemma_shown_agrees<K>(
    all: Seq<K>,
    a: Seq<Option<i8>>,
    b: Seq<Option<i8>>,
    filter: PhotoFilter,
    n: int,
)
    requires
        n <= a.len(),
        n <= b.len(),
        forall|i: int| 0 <= i < n ==> a[i] == b[i],
    ensures
        shown(all, a, filter, n) == shown(all, b, filter, n),
    decreases n,
{
    if n > 0 {
        lemma_shown_agrees(all, a, b, filter, n - 1);
    }
}

/// The photographs that are shown are those that the filter shows, and they keep
/// the order of the folder: they stand at ascending positions of it.
pub proof fn law_filtering_preserves_order<K>(
    all: Seq<K>,
    ratings: Seq<Option<i8>>,
    filter: PhotoFilter,
    n: int,
) -> (positions: Seq<int>)
    requires
        0 <= n <= all.len(),
        ratings.len() == all.len(),
    ensures
        positions.len() == shown(all, ratings, filter, n).len(),
        forall|i: int|
            #![trigger positions[i]]
            0 <= i < positions.len() ==> {
                &&& 0 <= positions[i] < n
                &&& filter.shows(ratings[positions[i]])
                &&& shown(all, ratings, filter, n)[i] == all[positions[i]]
            },
        forall|i: int, j: int|
            0 <= i < j < positions.len() ==> #[trigger] positions[i] < #[trigger] positions[j],
        forall|k: int|
            #![trigger ratings[k]]
            0 <= k < n && filter.shows(ratings[k]) ==> positions.contains(k),
    decreases n,
{
    if n <= 0 {
        Seq::empty()
    } else {
        let before = law_filtering_preserves_order(all, ratings, filter, n - 1);
        if filter.shows(ratings[n - 1]) {
            let out = before.push(n - 1);
            assert forall|k: int|
                #![trigger ratings[k]]
                0 <= k < n && filter.shows(ratings[k]) implies out.contains(k) by {
                if k < n - 1 {
                    let w = choose|w: int| 0 <= w < before.len() && before[w] == k;
                    assert(out[w] == k);
                } else {
                    assert(out[before.len() as int] == k);
                }
            }
            out
        } else {
            before
        }
    }
}

/// The selection after a list changed: the photograph that was selected, or else
/// the one at its old position, or the last.
pub open spec fn selection<K>(
    visible: Seq<K>,
    previous: Option<K>,
    old_visible_index: Option<usize>,
) -> Option<int> {
    if visible.len() == 0 {
        None
    } else if previous is Some && path::first_position(visible, previous->0) is Some {
        path::first_position(visible, previous->0)
    } else {
        let index = match old_visible_index {
            Some(index) => index as int,
            None => 0,
        };
        Some(
            if index < visible.len() {
                index
            } else {
                visible.len() - 1
            },
        )
    }
}

/// Keeps the selected photograph across filtering. If it disappears, the one
/// that slides into its old position becomes current, clamped at the end.
pub fn choose_selection<P: Identity>(
    visible: &Vec<P>,
    previous: Option<&P>,
    old_visible_index: Option<usize>,
) -> (out: Option<usize>)
    ensures
        match selection(
            path::keys(visible@),
            match previous {
                Some(p) => Some(p.key()),
                None => None,
            },
            old_visible_index,
        ) {
            Some(i) => out is Some && out->0 == i && i < visible@.len(),
            None => out is None,
        },
{
    if visible.len() == 0 {
        return None;
    }
    if let Some(previous) = previous {
        if let Some(index) = path::position_of(visible, previous) {
            return Some(index);
        }
    }
    let index: usize = match old_visible_index {
        Some(index) => index,
        None => 0,
    };
    if index < visible.len() {
        Some(index)
    } else {
        Some(visible.len() - 1)
    }
}

/// A photograph is shown exactly if it occurs in the folder with a rating that the
/// filter shows.
pub proof fn law_filters_keep_what_they_show<K>(
    all: Seq<K>,
    ratings: Seq<Option<i8>>,
    filter: PhotoFilter,
    n: int,
    photo: K,
)
    requires
        0 <= n <= all.len(),
        ratings.len() == all.len(),
    ensures
        shown(all, ratings, filter, n).contains(photo) <==> exists|i: int|
            0 <= i < n && all[i] == photo && filter.shows(#[trigger] ratings[i]),
    decreases n,
{
    if n > 0 {
        law_filters_keep_what_they_show(all, ratings, filter, n - 1, photo);
        let before = shown(all, ratings, filter, n - 1);
        let now = shown(all, ratings, filter, n);
        if before.contains(photo) {
            let k = choose|k: int| 0 <= k < before.len() && before[k] == photo;
            assert(now[k] == photo);
        }
        if filter.shows(ratings[n - 1]) {
            assert(now[before.len() as int] == all[n - 1]);
            if now.contains(photo) && !before.contains(photo) {
                let k = choose|k: int| 0 <= k < now.len() && now[k] == photo;
                if k < before.len() {
                    assert(before[k] == photo);
                }
            }
        }
    }
}

/// Every known rating is shown by exactly one of the filters for rejected, unrated
/// and rated photographs; a star filter shows its own rating only; and unknown
/// ratings are shown by no filter but the one for all photographs.
pub proof fn law_filters_divide_ratings(rating: i8, stars: u8)
    requires
        -1 <= rating <= 5,
        1 <= stars <= 5,
    ensures
        PhotoFilter::All.shows(Some(rating)) && PhotoFilter::All.shows(None),
        PhotoFilter::Rejected.shows(Some(rating)) <==> rating == -1,
        PhotoFilter::Unrated.shows(Some(rating)) <==> rating == 0,
        PhotoFilter::Rated.shows(Some(rating)) <==> rating > 0,
        PhotoFilter::NotRejected.shows(Some(rating)) <==> !PhotoFilter::Rejected.shows(
            Some(rating),
        ),
        PhotoFilter::Stars(stars).shows(Some(rating)) <==> rating as int == stars as int,
        !PhotoFilter::Rejected.shows(None) && !PhotoFilter::Unrated.shows(None)
            && !PhotoFilter::Rated.shows(None) && !PhotoFilter::NotRejected.shows(None)
            && !PhotoFilter::Stars(stars).shows(None),
{
}

} // verus!
