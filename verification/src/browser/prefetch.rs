//! Which photographs to decode ahead of need.
use vstd::prelude::*;

verus! {

#[derive(Clone, Copy, Debug, PartialEq, Eq, Structural)]
pub enum Direction {
    Forward,
    Backward,
}

impl Default for Direction {
    fn default() -> (out: Self)
        ensures
            out == Direction::Forward,
    {
        Direction::Forward
    }
}

/// At most 64 photographs on either side are loaded ahead.
pub open spec fn bounded(count: usize) -> int {
    if count < 64 {
        count as int
    } else {
        64
    }
}

/// How many photographs there are on one side, up to `count`.
pub open spec fn reach(index: usize, len: usize, forward: bool, count: int) -> int {
    let there = if forward {
        len - 1 - index
    } else {
        index as int
    };
    if there < count {
        there
    } else {
        count
    }
}

/// The photographs at distances 1 to `n` on one side, nearest first.
pub open spec fn side(index: usize, forward: bool, n: int) -> Seq<usize> {
    Seq::new(
        n as nat,
        |i: int|
            if forward {
                (index + 1 + i) as usize
            } else {
                (index - 1 - i) as usize
            },
    )
}

/// The photographs to load: those ahead, then those behind, nearest first.
pub open spec fn planned(
    index: usize,
    len: usize,
    direction: Direction,
    ahead: usize,
    behind: usize,
) -> Seq<usize> {
    if index >= len {
        Seq::empty()
    } else {
        let forward = direction == Direction::Forward;
        side(index, forward, reach(index, len, forward, bounded(ahead))) + side(
            index,
            !forward,
            reach(index, len, !forward, bounded(behind)),
        )
    }
}

/// Appends the photographs on one side, nearest first.
fn extend(result: &mut Vec<usize>, index: usize, len: usize, forward: bool, count: usize)
    requires
        index < len,
    ensures
        final(result)@ == old(result)@ + side(
            index,
            forward,
            reach(index, len, forward, bounded(count)),
        ),
{
    let limit: usize = if count < 64 {
        count
    } else {
        64
    };
    let there: usize = if forward {
        len - 1 - index
    } else {
        index
    };
    let n: usize = if there < limit {
        there
    } else {
        limit
    };
    let mut i: usize = 0;
    while i < n
        invariant
            i <= n,
            n <= there,
            there == (if forward {
                len - 1 - index
            } else {
                index as int
            }),
            result@ == old(result)@ + side(index, forward, i as int),
        decreases n - i,
    {
        result.push(
            if forward {
                index + 1 + i
            } else {
                index - 1 - i
            },
        );
        i += 1;
        assert(result@ =~= old(result)@ + side(index, forward, i as int));
    }
    assert(result@ =~= old(result)@ + side(index, forward, n as int));
}

/// Ordered speculation, nearest in the current direction first. Arithmetic is
/// bounded even for the longest list.
pub fn plan(
    index: usize,
    len: usize,
    direction: Direction,
    ahead: usize,
    behind: usize,
) -> (out: Vec<usize>)
    ensures
        out@ == planned(index, len, direction, ahead, behind),
{
    let mut result: Vec<usize> = Vec::new();
    assert(result@ =~= Seq::<usize>::empty());
    if index >= len {
        return result;
    }
    let forward = match direction {
        Direction::Forward => true,
        Direction::Backward => false,
    };
    extend(&mut result, index, len, forward, ahead);
    extend(&mut result, index, len, !forward, behind);
    assert(result@ =~= planned(index, len, direction, ahead, behind));
    result
}

/// A plan names photographs of the list, each once, and never the current one.
/// It never names more than 128.
pub proof fn law_plan_is_bounded(
    index: usize,
    len: usize,
    direction: Direction,
    ahead: usize,
    behind: usize,
)
    ensures
        ({
            let s = planned(index, len, direction, ahead, behind);
            &&& s.len() <= 128
            &&& s.no_duplicates()
            &&& forall|i: int| 0 <= i < s.len() ==> #[trigger] s[i] < len && s[i] != index
        }),
{
}

/// In the direction of the last step, and then in the other, the nearest photographs
/// come first; as many as are asked for, but never more than sixty-four on a side.
pub proof fn law_plans_begin_with_what_comes_next(
    index: usize,
    len: usize,
    direction: Direction,
    ahead: usize,
    behind: usize,
    k: int,
)
    requires
        index < len,
        k >= 1,
    ensures
        ({
            let s = planned(index, len, direction, ahead, behind);
            let step = if direction == Direction::Forward {
                1int
            } else {
                -1
            };
            let before = if direction == Direction::Forward {
                len - 1 - index
            } else {
                index as int
            };
            let after = len - 1 - before;
            let first = if before < ahead && before < 64 {
                before
            } else if ahead < 64 {
                ahead as int
            } else {
                64
            };
            &&& k <= ahead && k <= 64 && 0 <= index + step * k < len ==> s[k - 1] == index + step * k
            &&& k <= behind && k <= 64 && 0 <= index - step * k < len ==> s[first + k - 1] == index
                - step * k
            &&& first <= s.len() <= first + behind
            &&& s.len() <= first + after
        }),
{
    let forward = direction == Direction::Forward;
    assert(1 * k == k);
    assert((-1) * k == -k);
}

} // verus!
