//! Orders of files: shuffled, spread out, and around a selected one.
use vstd::prelude::*;

verus! {

/// The number of values of a word.
pub open spec fn words() -> int {
    0x1_0000_0000_0000_0000
}

/// What the state of the generator grows by.
pub const STRIDE: u64 = 0x9e3779b97f4a7c15;

/// The next state of the generator.
pub open spec fn stirred(state: u64) -> u64 {
    ((state + STRIDE) % words()) as u64
}

/// The product of two words.
pub open spec fn product(a: u64, b: u64) -> u64 {
    ((a * b) % words()) as u64
}

/// The number that belongs to a state.
#[verifier::opaque]
pub open spec fn mixed(state: u64) -> u64 {
    let a = product(state ^ (state >> 30u64), 0xbf58476d1ce4e5b9);
    let b = product(a ^ (a >> 27u64), 0x94d049bb133111eb);
    b ^ (b >> 31u64)
}

/// The state whose number is the greatest.
pub const PEAK: u64 = 0xcf9a04affa6badc0;

/// The steps after the next one until the state is the peak.
#[verifier::opaque]
pub open spec fn steps_left(state: u64) -> nat {
    (((PEAK - state - STRIDE) * 0xf1de83e19937733d) % words()) as nat
}

pub proof fn lemma_peak()
    ensures
        mixed(PEAK) == u64::MAX,
{
    reveal(mixed);
    let s: u64 = 0xcf9a04affa6badc0;
    assert(s ^ (s >> 30u64) == 0xcf9a04acc403bf7fu64) by (bit_vector)
        requires
            s == 0xcf9a04affa6badc0u64,
    ;
    let a: u64 = 0xf027aa8c721dfdc7;
    assert(product(0xcf9a04acc403bf7f, 0xbf58476d1ce4e5b9) == a) by {
        assert((0xcf9a04acc403bf7fint * 0xbf58476d1ce4e5b9int) % 0x1_0000_0000_0000_0000int
            == 0xf027aa8c721dfdc7int);
    }
    assert(a ^ (a >> 27u64) == 0xf027aa9276e8ac49u64) by (bit_vector)
        requires
            a == 0xf027aa8c721dfdc7u64,
    ;
    let b: u64 = 0xfffffffe00000003;
    assert(product(0xf027aa9276e8ac49, 0x94d049bb133111eb) == b) by {
        assert((0xf027aa9276e8ac49int * 0x94d049bb133111ebint) % 0x1_0000_0000_0000_0000int
            == 0xfffffffe00000003int);
    }
    assert(b ^ (b >> 31u64) == 0xffff_ffff_ffff_ffffu64) by (bit_vector)
        requires
            b == 0xfffffffe00000003u64,
    ;
}

/// The generator comes to its peak: each step brings it nearer, and in the end
/// it is there.
pub proof fn lemma_steps(state: u64)
    ensures
        steps_left(state) > 0 ==> steps_left(stirred(state)) == steps_left(state) - 1,
        steps_left(state) == 0 ==> stirred(state) == PEAK,
{
    reveal(steps_left);
    let m = words();
    let g = STRIDE as int;
    let inverse = 0xf1de83e19937733dint;
    let q = 10771413168148108919int;
    assert(g * inverse == 1 + q * m);
    let x = PEAK - state - g;
    let y = x * inverse;
    let r = y % m;
    let k = y / m;
    vstd::arithmetic::div_mod::lemma_fundamental_div_mod(y, m);
    let over = if state + g >= m {
        1int
    } else {
        0int
    };
    vstd::arithmetic::div_mod::lemma_fundamental_div_mod_converse(state + g, m, over, state + g - over * m);
    assert(stirred(state) == state + g - over * m);
    if r > 0 {
        let next = PEAK - stirred(state) - g;
        assert(next == x - g + over * m);
        assert(next * inverse == m * (k - q + over * inverse) + (r - 1)) by (nonlinear_arith)
            requires
                next == x - g + over * m,
                y == x * inverse,
                y == m * k + r,
                g * inverse == 1 + q * m,
        ;
        vstd::arithmetic::div_mod::lemma_fundamental_div_mod_converse(next * inverse, m, k - q + over * inverse, r - 1);
    } else {
        let w = k * g - x * q;
        assert(x == m * w) by (nonlinear_arith)
            requires
                y == x * inverse,
                y == m * k,
                g * inverse == 1 + q * m,
                w == k * g - x * q,
        ;
        assert(-2 * m < x < m);
        assert(w == 0 || w == -1) by (nonlinear_arith)
            requires
                x == m * w,
                -2 * m < x < m,
                m > 0,
        ;
        assert(x == 0 || x == -m) by (nonlinear_arith)
            requires
                x == m * w,
                w == 0 || w == -1,
        ;
    }
}

/// Numbers below this would make some results more likely than others.
pub open spec fn threshold(bound: u64) -> int {
    (words() - bound) % bound as int
}

/// A number below a bound, and the state of the generator behind it.
pub open spec fn drawn(state: u64, bound: u64) -> (int, u64)
    decreases steps_left(state),
{
    let next = stirred(state);
    let value = mixed(next);
    if value >= threshold(bound) || steps_left(state) == 0 {
        (value as int % bound as int, next)
    } else {
        proof {
            lemma_steps(state);
        }
        drawn(next, bound)
    }
}

proof fn lemma_draw(state: u64, bound: u64)
    requires
        bound > 0,
    ensures
        mixed(stirred(state)) >= threshold(bound) ==> drawn(state, bound) == (
            mixed(stirred(state)) as int % bound as int,
            stirred(state),
        ),
        mixed(stirred(state)) < threshold(bound) ==> drawn(state, bound) == drawn(
            stirred(state),
            bound,
        ) && steps_left(stirred(state)) < steps_left(state),
{
    lemma_steps(state);
    lemma_peak();
    assert(threshold(bound) < bound);
}

/// A generator of numbers that can be repeated. It keeps no secrets.
#[derive(Clone, Copy, Debug, PartialEq, Eq, Structural)]
pub struct ShuffleRng(pub u64);

impl ShuffleRng {
    /// The next number.
    pub fn next(&mut self) -> (out: u64)
        ensures
            final(self).0 == stirred(old(self).0),
            out == mixed(stirred(old(self).0)),
    {
        proof {
            reveal(mixed);
        }
        self.0 = self.0.wrapping_add(STRIDE);
        assert(self.0 == stirred(old(self).0));
        let mut value: u64 = self.0;
        value = (value ^ (value >> 30u64)).wrapping_mul(0xbf58476d1ce4e5b9);
        value = (value ^ (value >> 27u64)).wrapping_mul(0x94d049bb133111eb);
        value ^ (value >> 31u64)
    }

    /// A number below a bound, each as likely as the others.
    pub fn below(&mut self, bound: u64) -> (out: u64)
        requires
            bound > 0,
        ensures
            (out as int, final(self).0) == drawn(old(self).0, bound),
            out < bound,
    {
        let ghost start = self.0;
        let limit: u64 = ((0x1_0000_0000_0000_0000u128 - bound as u128) % bound as u128) as u64;
        loop
            invariant
                bound > 0,
                start == old(self).0,
                limit == threshold(bound),
                limit < bound,
                drawn(start, bound) == drawn(self.0, bound),
            decreases steps_left(self.0),
        {
            let ghost state = self.0;
            let value: u64 = self.next();
            proof {
                lemma_draw(state, bound);
            }
            if value >= limit {
                return value % bound;
            }
        }
    }
}

/// A list, two of whose members have changed places.
pub open spec fn swapped<T>(s: Seq<T>, i: int, j: int) -> Seq<T> {
    s.update(i, s[j]).update(j, s[i])
}

/// A list that is shuffled from some place down, and the state of the generator
/// behind it.
pub open spec fn shuffled(s: Seq<usize>, state: u64, current: int) -> (Seq<usize>, u64)
    decreases current,
{
    if current <= 0 {
        (s, state)
    } else {
        let (other, next) = drawn(state, (current + 1) as u64);
        shuffled(swapped(s, current, other), next, current - 1)
    }
}

proof fn lemma_drawn(state: u64, bound: u64)
    requires
        bound > 0,
    ensures
        0 <= drawn(state, bound).0 < bound,
    decreases steps_left(state),
{
    let next = stirred(state);
    if !(mixed(next) >= threshold(bound) || steps_left(state) == 0) {
        lemma_steps(state);
        lemma_drawn(next, bound);
    }
}

proof fn lemma_swapped<T>(s: Seq<T>, i: int, j: int)
    requires
        0 <= i < s.len(),
        0 <= j < s.len(),
    ensures
        swapped(s, i, j).to_multiset() == s.to_multiset(),
        swapped(s, i, j).len() == s.len(),
{
    s.to_multiset_ensures();
    let once = s.update(i, s[j]);
    once.to_multiset_ensures();
    vstd::seq_lib::to_multiset_update(s, i, s[j]);
    vstd::seq_lib::to_multiset_update(once, j, s[i]);
    if i == j {
        assert(swapped(s, i, j) =~= s);
    } else {
        assert(once[j] == s[j]);
        assert(swapped(s, i, j).to_multiset() =~= s.to_multiset());
    }
}

/// A shuffled list holds what the list held, each as often.
pub proof fn law_shuffling_keeps_everything(s: Seq<usize>, state: u64, current: int)
    requires
        current < s.len(),
        s.len() <= u64::MAX,
    ensures
        shuffled(s, state, current).0.to_multiset() == s.to_multiset(),
        shuffled(s, state, current).0.len() == s.len(),
    decreases current,
{
    if current > 0 {
        let (other, next) = drawn(state, (current + 1) as u64);
        lemma_drawn(state, (current + 1) as u64);
        lemma_swapped(s, current, other);
        law_shuffling_keeps_everything(swapped(s, current, other), next, current - 1);
    }
}

/// Shuffles a list. The same generator gives the same order.
pub fn shuffle(indices: &mut Vec<usize>, rng: &mut ShuffleRng)
    ensures
        (final(indices)@, final(rng).0) == shuffled(
            old(indices)@,
            old(rng).0,
            old(indices)@.len() - 1,
        ),
        final(indices)@.to_multiset() == old(indices)@.to_multiset(),
        final(indices)@.len() == old(indices)@.len(),
{
    let n: usize = indices.len();
    let ghost start = indices@;
    let ghost state = rng.0;
    if n == 0 {
        return;
    }
    let mut current: usize = n - 1;
    while current > 0
        invariant
            current < n,
            n == indices@.len(),
            n == start.len(),
            shuffled(start, state, n - 1) == shuffled(indices@, rng.0, current as int),
            indices@.to_multiset() == start.to_multiset(),
        decreases current,
    {
        let bound: u64 = current as u64 + 1;
        let ghost before = indices@;
        let other: usize = rng.below(bound) as usize;
        let here: usize = indices[current];
        let there: usize = indices[other];
        indices.set(current, there);
        indices.set(other, here);
        proof {
            assert(indices@ =~= swapped(before, current as int, other as int));
            lemma_swapped(before, current as int, other as int);
        }
        current -= 1;
    }
}

/// The first `n` numbers.
pub open spec fn counted(n: int) -> Seq<usize> {
    Seq::new(n as nat, |i: int| i as usize)
}

/// The first `len` numbers in an order that a seed gives.
pub fn shuffled_order(len: usize, seed: u64) -> (out: Vec<usize>)
    ensures
        out@ == shuffled(counted(len as int), seed, len - 1).0,
        out@.to_multiset() == counted(len as int).to_multiset(),
        out@.len() == len,
{
    let mut out: Vec<usize> = Vec::new();
    while out.len() < len
        invariant
            out@.len() <= len,
            forall|i: int| 0 <= i < out@.len() ==> out@[i] == i,
        decreases len - out@.len(),
    {
        let next: usize = out.len();
        out.push(next);
    }
    assert(out@ =~= counted(len as int));
    let mut rng = ShuffleRng(seed);
    shuffle(&mut out, &mut rng);
    out
}

/// Files on either side of the selected one that are visible.
pub const VISIBLE_RADIUS: usize = 5;

/// The files up to some distance around a selected one, the nearest first.
pub open spec fn around(index: int, len: int, distance: int) -> Seq<usize>
    decreases distance,
{
    if distance <= 0 {
        seq![index as usize]
    } else {
        let nearer = around(index, len, distance - 1);
        let one = if index + distance < len {
            nearer.push((index + distance) as usize)
        } else {
            nearer
        };
        if index >= distance {
            one.push((index - distance) as usize)
        } else {
            one
        }
    }
}

/// The visible files, the nearest first.
pub fn visible_window(index: usize, len: usize) -> (out: Vec<usize>)
    ensures
        out@ == around(index as int, len as int, VISIBLE_RADIUS as int),
{
    let mut out: Vec<usize> = Vec::new();
    out.push(index);
    assert(out@ =~= around(index as int, len as int, 0));
    let mut distance: usize = 0;
    while distance < VISIBLE_RADIUS
        invariant
            distance <= VISIBLE_RADIUS,
            out@ == around(index as int, len as int, distance as int),
        decreases VISIBLE_RADIUS - distance,
    {
        distance += 1;
        if index < len && len - index > distance {
            out.push(index + distance);
        }
        if index >= distance {
            out.push(index - distance);
        }
    }
    out
}

/// Places spread evenly over a list, from its first member to its last.
pub open spec fn spread(len: int, limit: int) -> Seq<usize> {
    let count = if limit < len {
        limit
    } else {
        len
    };
    if count <= 0 {
        Seq::empty()
    } else if count == 1 {
        seq![0usize]
    } else {
        Seq::new(count as nat, |i: int| (i * (len - 1) / (count - 1)) as usize)
    }
}

/// Places spread evenly over a list.
pub fn spread_indices(len: usize, limit: usize) -> (out: Vec<usize>)
    ensures
        out@ == spread(len as int, limit as int),
{
    let count: usize = if limit < len {
        limit
    } else {
        len
    };
    let mut out: Vec<usize> = Vec::new();
    if count == 0 {
        return out;
    }
    if count == 1 {
        out.push(0);
        assert(out@ =~= seq![0usize]);
        return out;
    }
    let mut i: usize = 0;
    while i < count
        invariant
            i <= count,
            2 <= count <= len,
            out@.len() == i,
            forall|k: int|
                0 <= k < i ==> out@[k] == (k * (len - 1) / (count - 1)) as usize,
        decreases count - i,
    {
        assert(i * (len - 1) <= (count - 1) * (len - 1)) by (nonlinear_arith)
            requires
                0 <= i <= count - 1,
                len >= 1,
        ;
        assert((count - 1) * (len - 1) <= 0xffff_ffff_ffff_ffff * 0xffff_ffff_ffff_ffff)
            by (nonlinear_arith)
            requires
                0 <= count - 1 <= 0xffff_ffff_ffff_ffff,
                0 <= len - 1 <= 0xffff_ffff_ffff_ffff,
        ;
        let at: u128 = i as u128 * (len - 1) as u128 / (count - 1) as u128;
        proof {
            lemma_place(i as int, len as int, count as int);
        }
        out.push(at as usize);
        i += 1;
    }
    assert(out@ =~= spread(len as int, limit as int));
    out
}

proof fn lemma_place(i: int, len: int, count: int)
    requires
        2 <= count <= len,
        0 <= i < count,
    ensures
        0 <= i * (len - 1) / (count - 1) <= len - 1,
        i == count - 1 ==> i * (len - 1) / (count - 1) == len - 1,
        i + 1 < count ==> i * (len - 1) / (count - 1) < (i + 1) * (len - 1) / (count - 1),
{
    let n = len - 1;
    let d = count - 1;
    let y = i * n;
    vstd::arithmetic::div_mod::lemma_fundamental_div_mod(y, d);
    let k = y / d;
    let r = y % d;
    assert(0 <= k <= n) by (nonlinear_arith)
        requires
            y == d * k + r,
            0 <= r < d,
            0 <= y,
            y == i * n,
            i <= d,
            n >= 0,
            d >= 1,
    ;
    if i == d {
        assert(y == n * d) by (nonlinear_arith)
            requires
                y == i * n,
                i == d,
        ;
        vstd::arithmetic::div_mod::lemma_fundamental_div_mod_converse(y, d, n, 0);
    }
    if i + 1 < count {
        let z = (i + 1) * n;
        vstd::arithmetic::div_mod::lemma_fundamental_div_mod(z, d);
        let l = z / d;
        let t = z % d;
        assert(z == y + n) by (nonlinear_arith)
            requires
                z == (i + 1) * n,
                y == i * n,
        ;
        assert(l > k) by (nonlinear_arith)
            requires
                y == d * k + r,
                z == d * l + t,
                z == y + n,
                n >= d,
                0 <= r < d,
                0 <= t < d,
                d >= 1,
        ;
    }
}

/// Places that are spread out begin at the first member, end at the last, and
/// none comes twice.
pub proof fn law_spread_has_both_ends(len: int, limit: int)
    requires
        2 <= limit,
        2 <= len <= usize::MAX,
    ensures
        ({
            let s = spread(len, limit);
            &&& s.len() == if limit < len {
                limit
            } else {
                len
            }
            &&& s[0] == 0
            &&& s.last() == len - 1
            &&& forall|i: int, j: int|
                0 <= i < j < s.len() ==> #[trigger] s[i] < #[trigger] s[j]
        }),
{
    let s = spread(len, limit);
    let count = s.len() as int;
    lemma_place(0, len, count);
    lemma_place(count - 1, len, count);
    assert(s[0] == 0) by {
        vstd::arithmetic::div_mod::lemma_fundamental_div_mod_converse(0, count - 1, 0, 0);
    }
    assert forall|i: int, j: int| 0 <= i < j < s.len() implies #[trigger] s[i] < #[trigger] s[j] by {
        lemma_ascending(len, count, i, j);
    }
}

proof fn lemma_ascending(len: int, count: int, i: int, j: int)
    requires
        2 <= count <= len <= usize::MAX,
        0 <= i < j < count,
    ensures
        i * (len - 1) / (count - 1) < j * (len - 1) / (count - 1),
        0 <= i * (len - 1) / (count - 1),
        j * (len - 1) / (count - 1) <= len - 1,
    decreases j - i,
{
    lemma_place(i, len, count);
    lemma_place(j, len, count);
    if i + 1 < j {
        lemma_ascending(len, count, i + 1, j);
    }
}

/// The place of a percentile among sorted measurements, by the nearest rank.
pub open spec fn rank(len: int, percent: int) -> Option<int> {
    if len <= 0 {
        None
    } else {
        let p = if percent > 100 {
            100
        } else {
            percent
        };
        let product = if len * p > usize::MAX {
            usize::MAX as int
        } else {
            len * p
        };
        let at = (product + 99) / 100;
        Some(
            if at > 0 {
                at - 1
            } else {
                0
            },
        )
    }
}

/// The place of a percentile among sorted measurements.
pub fn percentile_index(len: usize, percent: usize) -> (out: Option<usize>)
    ensures
        match out {
            Some(i) => rank(len as int, percent as int) == Some(i as int),
            None => rank(len as int, percent as int) is None,
        },
{
    if len == 0 {
        return None;
    }
    let p: usize = if percent > 100 {
        100
    } else {
        percent
    };
    let product: usize = match len.checked_mul(p) {
        Some(product) => product,
        None => usize::MAX,
    };
    let at: usize = product / 100 + if product % 100 > 0 {
        1
    } else {
        0
    };
    Some(
        if at > 0 {
            at - 1
        } else {
            0
        },
    )
}

/// A percentile is the first of the sorted measurements that at least so many in a
/// hundred are not above.
pub proof fn law_percentiles_are_of_the_nearest_rank(len: int, percent: int)
    requires
        0 < len,
        1 <= percent <= 100,
        100 * len <= usize::MAX,
    ensures
        ({
            let at = rank(len, percent);
            &&& at is Some
            &&& 0 <= at->0 < len
            &&& 100 * (at->0 + 1) >= len * percent
            &&& 100 * (at->0) < len * percent
        }),
{
    assert(1 <= len * percent <= 100 * len) by (nonlinear_arith)
        requires
            1 <= len,
            1 <= percent <= 100,
    ;
}

/// The files around a selected one are those no further away than a distance.
pub proof fn law_near_files_are_around(index: int, len: int, distance: int, i: usize)
    requires
        0 <= index < len <= usize::MAX,
        0 <= distance,
    ensures
        around(index, len, distance).contains(i) <==> i < len && index - distance <= i <= index
            + distance,
        around(index, len, distance)[0] == index,
        around(index, len, distance).len() >= 1,
    decreases distance,
{
    let now = around(index, len, distance);
    if distance > 0 {
        law_near_files_are_around(index, len, distance - 1, i);
        let nearer = around(index, len, distance - 1);
        assert(forall|k: int| 0 <= k < nearer.len() ==> now[k] == nearer[k]);
        if nearer.contains(i) {
            let k = choose|k: int| 0 <= k < nearer.len() && nearer[k] == i;
            assert(now[k] == i);
        }
        let n = nearer.len() as int;
        if index + distance < len {
            assert(now[n] == index + distance);
        }
        if index >= distance {
            assert(now[now.len() - 1] == index - distance);
        }
        if now.contains(i) {
            let k = choose|k: int| 0 <= k < now.len() && now[k] == i;
            if k < n {
                assert(nearer[k] == i);
            }
        }
    } else {
        assert(now[0] == index);
    }
}

} // verus!
