//! Folder listings in natural order.
use crate::path;
use crate::path::{Identity, PhotoPath};
use std::cmp::Ordering;
use std::collections::VecDeque;
use vstd::prelude::*;
use vstd::std_specs::vecdeque::VecDequeAdditionalSpecFns;

verus! {

/// The outcome of a comparison.
#[derive(Clone, Copy, Debug, PartialEq, Eq, Structural)]
pub enum Order {
    Less,
    Equal,
    Greater,
}

impl Order {
    /// The order of two numbers.
    pub open spec fn of(a: int, b: int) -> Order {
        if a < b {
            Order::Less
        } else if a == b {
            Order::Equal
        } else {
            Order::Greater
        }
    }

    /// Falls back on another order.
    pub open spec fn or(self, other: Order) -> Order {
        if self == Order::Equal {
            other
        } else {
            self
        }
    }

    pub open spec fn reversed(self) -> Order {
        match self {
            Order::Less => Order::Greater,
            Order::Equal => Order::Equal,
            Order::Greater => Order::Less,
        }
    }
}

fn order_of(a: usize, b: usize) -> (out: Order)
    ensures
        out == Order::of(a as int, b as int),
{
    if a < b {
        Order::Less
    } else if a == b {
        Order::Equal
    } else {
        Order::Greater
    }
}

pub open spec fn digit(b: u8) -> bool {
    0x30 <= b <= 0x39
}

fn is_digit(b: u8) -> (out: bool)
    ensures
        out == digit(b),
{
    0x30 <= b && b <= 0x39
}

/// The end of the run of digits at `i`.
pub open spec fn run_end(s: Seq<u8>, i: int) -> int
    decreases s.len() - i,
{
    if i >= s.len() || !digit(s[i]) {
        i
    } else {
        run_end(s, i + 1)
    }
}

/// The first position from `i` to `n` that does not hold the digit zero.
pub open spec fn zeros_end(s: Seq<u8>, i: int, n: int) -> int
    decreases n - i,
{
    if i >= n || s[i] != 0x30 {
        i
    } else {
        zeros_end(s, i + 1, n)
    }
}

/// The order of two byte sequences from `i` on.
pub open spec fn bytes_order(a: Seq<u8>, b: Seq<u8>, i: int) -> Order
    decreases a.len() - i,
{
    if i >= a.len() || i >= b.len() {
        Order::of(a.len() as int, b.len() as int)
    } else if a[i] != b[i] {
        Order::of(a[i] as int, b[i] as int)
    } else {
        bytes_order(a, b, i + 1)
    }
}

/// The digits of a run that count: those behind its leading zeros.
pub open spec fn significant(s: Seq<u8>, i: int) -> Seq<u8> {
    s.subrange(zeros_end(s, i, run_end(s, i)), run_end(s, i))
}

/// Two runs of digits compare by magnitude, then by their length.
pub open spec fn runs_order(a: Seq<u8>, i: int, b: Seq<u8>, j: int) -> Order {
    let x = significant(a, i);
    let y = significant(b, j);
    Order::of(x.len() as int, y.len() as int).or(bytes_order(x, y, 0)).or(
        Order::of(run_end(a, i) - i, run_end(b, j) - j),
    )
}

/// The order of what stands at `i` and at `j`: runs of digits, or else letters
/// without their case.
pub open spec fn part_order(a: Seq<u8>, i: int, b: Seq<u8>, j: int) -> Order {
    if digit(a[i]) && digit(b[j]) {
        runs_order(a, i, b, j)
    } else {
        Order::of(path::lower(a[i]) as int, path::lower(b[j]) as int)
    }
}

/// Where the next part starts.
pub open spec fn part_end(s: Seq<u8>, i: int) -> int {
    if digit(s[i]) {
        run_end(s, i)
    } else {
        i + 1
    }
}

/// The order of two names from `i` and `j` on, part by part.
pub open spec fn parts_order(a: Seq<u8>, i: int, b: Seq<u8>, j: int) -> Order
    decreases a.len() - i,
{
    if i >= a.len() || j >= b.len() {
        Order::of(a.len() - i, b.len() - j)
    } else if part_order(a, i, b, j) != Order::Equal {
        part_order(a, i, b, j)
    } else {
        proof {
            lemma_part_end(a, i);
        }
        parts_order(a, part_end(a, i), b, part_end(b, j))
    }
}

/// The natural order of names: part by part, then byte by byte.
pub open spec fn natural(a: Seq<u8>, b: Seq<u8>) -> Order {
    parts_order(a, 0, b, 0).or(bytes_order(a, b, 0))
}

pub proof fn lemma_run_end(s: Seq<u8>, i: int)
    requires
        i <= s.len(),
    ensures
        i <= run_end(s, i) <= s.len(),
        i < s.len() && digit(s[i]) ==> i < run_end(s, i),
        forall|k: int| i <= k < run_end(s, i) ==> digit(#[trigger] s[k]),
        run_end(s, i) < s.len() ==> !digit(s[run_end(s, i)]),
    decreases s.len() - i,
{
    if i < s.len() && digit(s[i]) {
        lemma_run_end(s, i + 1);
    }
}

pub proof fn lemma_part_end(s: Seq<u8>, i: int)
    requires
        i < s.len(),
    ensures
        i < part_end(s, i) <= s.len(),
{
    lemma_run_end(s, i);
}

proof fn lemma_zeros_end(s: Seq<u8>, i: int, n: int)
    requires
        i <= n,
    ensures
        i <= zeros_end(s, i, n) <= n,
    decreases n - i,
{
    if i < n && s[i] == 0x30 {
        lemma_zeros_end(s, i + 1, n);
    }
}

/// Compares two byte sequences.
fn compare_bytes(a: &[u8], b: &[u8]) -> (out: Order)
    ensures
        out == bytes_order(a@, b@, 0),
{
    let mut i: usize = 0;
    while i < a.len() && i < b.len()
        invariant
            i <= a@.len(),
            i <= b@.len(),
            bytes_order(a@, b@, 0) == bytes_order(a@, b@, i as int),
        decreases a@.len() - i,
    {
        if a[i] < b[i] {
            return Order::Less;
        }
        if a[i] > b[i] {
            return Order::Greater;
        }
        i += 1;
    }
    order_of(a.len(), b.len())
}

/// The end of a run of digits.
fn find_run_end(s: &[u8], i: usize) -> (out: usize)
    requires
        i <= s@.len(),
    ensures
        out == run_end(s@, i as int),
        i <= out <= s@.len(),
{
    let mut n: usize = i;
    while n < s.len() && is_digit(s[n])
        invariant
            i <= n <= s@.len(),
            run_end(s@, i as int) == run_end(s@, n as int),
        decreases s@.len() - n,
    {
        n += 1;
    }
    n
}

/// The digits of a run that count.
fn significant_digits(s: &[u8], i: usize, n: usize) -> (out: &[u8])
    requires
        i <= n <= s@.len(),
        n == run_end(s@, i as int),
    ensures
        out@ == significant(s@, i as int),
{
    let mut first: usize = i;
    while first < n && s[first] == 0x30
        invariant
            i <= first <= n <= s@.len(),
            zeros_end(s@, i as int, n as int) == zeros_end(s@, first as int, n as int),
        decreases n - first,
    {
        first += 1;
    }
    vstd::slice::slice_subrange(s, first, n)
}

/// Compares two names in natural order.
fn natural_order(left: &[u8], right: &[u8]) -> (out: Order)
    ensures
        out == natural(left@, right@),
{
    let mut a: usize = 0;
    let mut b: usize = 0;
    while a < left.len() && b < right.len()
        invariant
            a <= left@.len(),
            b <= right@.len(),
            parts_order(left@, 0, right@, 0) == parts_order(left@, a as int, right@, b as int),
        decreases left@.len() - a,
    {
        proof {
            lemma_part_end(left@, a as int);
            lemma_part_end(right@, b as int);
        }
        if is_digit(left[a]) && is_digit(right[b]) {
            let a_end: usize = find_run_end(left, a);
            let b_end: usize = find_run_end(right, b);
            let x = significant_digits(left, a, a_end);
            let y = significant_digits(right, b, b_end);
            let by_length = order_of(x.len(), y.len());
            let order = match by_length {
                Order::Equal => match compare_bytes(x, y) {
                    Order::Equal => order_of(a_end - a, b_end - b),
                    other => other,
                },
                other => other,
            };
            match order {
                Order::Equal => {},
                _ => {
                    return order;
                },
            }
            a = a_end;
            b = b_end;
        } else {
            let x: u8 = path::lower_case(left[a]);
            let y: u8 = path::lower_case(right[b]);
            if x < y {
                return Order::Less;
            }
            if x > y {
                return Order::Greater;
            }
            assert(!digit(left@[a as int]) && !digit(right@[b as int]));
            a += 1;
            b += 1;
        }
    }
    match order_of(left.len() - a, right.len() - b) {
        Order::Equal => compare_bytes(left, right),
        other => other,
    }
}

/// The standard library's name for an order.
pub open spec fn standard(order: Order) -> Ordering {
    match order {
        Order::Less => Ordering::Less,
        Order::Equal => Ordering::Equal,
        Order::Greater => Ordering::Greater,
    }
}

/// Compares runs of digits by magnitude, without parsing them into a number, and
/// ASCII letters without case. Any bytes may stand in a name.
pub fn natural_filename_cmp(left: &[u8], right: &[u8]) -> (out: Ordering)
    ensures
        out == standard(natural(left@, right@)),
{
    match natural_order(left, right) {
        Order::Less => Ordering::Less,
        Order::Equal => Ordering::Equal,
        Order::Greater => Ordering::Greater,
    }
}

/// Whether a path names a Sony RAW file.
pub open spec fn arw(s: Seq<u8>) -> bool {
    match path::extension_of(s) {
        Some(extension) => path::same_but_case(extension, seq![0x61u8, 0x72u8, 0x77u8]),
        None => false,
    }
}

pub fn is_arw(photo: &PhotoPath) -> (out: bool)
    ensures
        out == arw(photo@),
        out == arw(photo.raw()),
{
    let wanted: [u8; 3] = [0x61, 0x72, 0x77];
    assert(wanted@ =~= seq![0x61u8, 0x72u8, 0x77u8]);
    match photo.extension() {
        Some(extension) => path::same_ignoring_case(&extension, &wanted),
        None => false,
    }
}

/// How the orders of `a` to `b`, of `b` to `c` and of `a` to `c` fit together.
pub open spec fn chained(ab: Order, bc: Order, ac: Order) -> bool {
    ab != Order::Greater && bc != Order::Greater ==> ac == (if ab == Order::Less || bc
        == Order::Less {
        Order::Less
    } else {
        Order::Equal
    })
}

proof fn lemma_bytes_flip(a: Seq<u8>, b: Seq<u8>, i: int)
    requires
        0 <= i,
        forall|k: int| 0 <= k < i && k < a.len() && k < b.len() ==> a[k] == b[k],
    ensures
        bytes_order(b, a, i) == bytes_order(a, b, i).reversed(),
        bytes_order(a, b, i) == Order::Equal ==> a == b,
        a == b ==> bytes_order(a, b, i) == Order::Equal,
    decreases a.len() - i,
{
    if i < a.len() && i < b.len() && a[i] == b[i] {
        lemma_bytes_flip(a, b, i + 1);
    } else if bytes_order(a, b, i) == Order::Equal {
        assert(a =~= b);
    }
}

proof fn lemma_bytes_chain(a: Seq<u8>, b: Seq<u8>, c: Seq<u8>, i: int)
    requires
        0 <= i,
    ensures
        chained(bytes_order(a, b, i), bytes_order(b, c, i), bytes_order(a, c, i)),
    decreases a.len() - i,
{
    if i < a.len() && i < b.len() && i < c.len() && a[i] == b[i] && b[i] == c[i] {
        lemma_bytes_chain(a, b, c, i + 1);
    }
}

proof fn lemma_runs_flip(a: Seq<u8>, i: int, b: Seq<u8>, j: int)
    ensures
        runs_order(b, j, a, i) == runs_order(a, i, b, j).reversed(),
{
    lemma_bytes_flip(significant(a, i), significant(b, j), 0);
}

proof fn lemma_runs_chain(a: Seq<u8>, i: int, b: Seq<u8>, j: int, c: Seq<u8>, k: int)
    ensures
        chained(runs_order(a, i, b, j), runs_order(b, j, c, k), runs_order(a, i, c, k)),
{
    let (x, y, z) = (significant(a, i), significant(b, j), significant(c, k));
    lemma_bytes_chain(x, y, z, 0);
    lemma_bytes_flip(x, y, 0);
    lemma_bytes_flip(y, z, 0);
}

proof fn lemma_parts_flip(a: Seq<u8>, i: int, b: Seq<u8>, j: int)
    requires
        0 <= i <= a.len(),
        0 <= j <= b.len(),
    ensures
        parts_order(b, j, a, i) == parts_order(a, i, b, j).reversed(),
    decreases a.len() - i,
{
    if i < a.len() && j < b.len() {
        lemma_runs_flip(a, i, b, j);
        if part_order(a, i, b, j) == Order::Equal {
            lemma_part_end(a, i);
            lemma_part_end(b, j);
            lemma_parts_flip(a, part_end(a, i), b, part_end(b, j));
        }
    }
}

proof fn lemma_parts_chain(a: Seq<u8>, i: int, b: Seq<u8>, j: int, c: Seq<u8>, k: int)
    requires
        0 <= i <= a.len(),
        0 <= j <= b.len(),
        0 <= k <= c.len(),
    ensures
        chained(parts_order(a, i, b, j), parts_order(b, j, c, k), parts_order(a, i, c, k)),
    decreases a.len() - i,
{
    if i < a.len() && j < b.len() && k < c.len() {
        lemma_runs_chain(a, i, b, j, c, k);
        assert(chained(
            part_order(a, i, b, j),
            part_order(b, j, c, k),
            part_order(a, i, c, k),
        ));
        if part_order(a, i, b, j) == Order::Equal && part_order(b, j, c, k) == Order::Equal {
            lemma_part_end(a, i);
            lemma_part_end(b, j);
            lemma_part_end(c, k);
            lemma_parts_chain(a, part_end(a, i), b, part_end(b, j), c, part_end(c, k));
        }
    }
}

/// Swapping two names reverses their order.
pub proof fn law_natural_is_antisymmetric(a: Seq<u8>, b: Seq<u8>)
    ensures
        natural(b, a) == natural(a, b).reversed(),
{
    lemma_parts_flip(a, 0, b, 0);
    lemma_bytes_flip(a, b, 0);
}

/// Only identical names are equal.
pub proof fn law_natural_tells_names_apart(a: Seq<u8>, b: Seq<u8>)
    ensures
        natural(a, b) == Order::Equal <==> a == b,
{
    lemma_bytes_flip(a, b, 0);
    if a == b {
        lemma_parts_flip(a, 0, a, 0);
    }
}

/// The order is transitive.
pub proof fn law_natural_is_transitive(a: Seq<u8>, b: Seq<u8>, c: Seq<u8>)
    ensures
        chained(natural(a, b), natural(b, c), natural(a, c)),
{
    lemma_parts_chain(a, 0, b, 0, c, 0);
    lemma_bytes_chain(a, b, c, 0);
    lemma_parts_flip(a, 0, b, 0);
    lemma_parts_flip(b, 0, c, 0);
}

/// Only digits.
pub open spec fn all_digits(run: Seq<u8>) -> bool {
    forall|i: int| 0 <= i < run.len() ==> 0x30 <= #[trigger] run[i] <= 0x39
}

/// The number that some digits stand for.
pub open spec fn number(run: Seq<u8>) -> nat
    decreases run.len(),
{
    if run.len() == 0 {
        0
    } else {
        10 * number(run.drop_last()) + (run.last() - 0x30) as nat
    }
}

/// Ten to the power of `n`.
pub open spec fn power(n: nat) -> nat
    decreases n,
{
    if n == 0 {
        1
    } else {
        10 * power((n - 1) as nat)
    }
}

/// A letter without its case, and any other byte as it is.
pub open spec fn uncased(b: u8) -> u8 {
    if 0x41 <= b <= 0x5a {
        (b + 32) as u8
    } else {
        b
    }
}

/// Whether a run of digits does not go on where two parts of a name meet.
pub open spec fn apart(p: Seq<u8>, t: Seq<u8>) -> bool {
    p.len() == 0 || t.len() == 0 || !(0x30 <= p.last() <= 0x39) || !(0x30 <= t[0] <= 0x39)
}

proof fn lemma_power(m: nat, n: nat)
    ensures
        power(m) >= 1,
        m <= n ==> power(m) <= power(n),
    decreases m + n,
{
    if m > 0 {
        lemma_power((m - 1) as nat, n);
    }
    if m < n {
        lemma_power(m, (n - 1) as nat);
    }
    if 0 < m <= n {
        lemma_power((m - 1) as nat, (n - 1) as nat);
    }
}

proof fn lemma_number_bounds(run: Seq<u8>)
    requires
        all_digits(run),
    ensures
        number(run) < power(run.len()),
        run.len() > 0 && run[0] != 0x30 ==> number(run) >= power((run.len() - 1) as nat),
    decreases run.len(),
{
    if run.len() > 0 {
        let rest = run.drop_last();
        assert(all_digits(rest)) by {
            assert forall|i: int| 0 <= i < rest.len() implies 0x30 <= #[trigger] rest[i] <= 0x39 by {
                assert(rest[i] == run[i]);
            }
        }
        assert(0x30 <= run[run.len() - 1] <= 0x39);
        lemma_number_bounds(rest);
        if rest.len() > 0 {
            assert(rest[0] == run[0]);
        }
    }
}

/// Leading zeros do not count.
proof fn lemma_number_skips_zero(run: Seq<u8>)
    requires
        run.len() > 0,
        run[0] == 0x30,
    ensures
        number(run) == number(run.skip(1)),
    decreases run.len(),
{
    if run.len() > 1 {
        lemma_number_skips_zero(run.drop_last());
        assert(run.drop_last().skip(1) =~= run.skip(1).drop_last());
        assert(run.skip(1).last() == run.last());
    } else {
        assert(run.skip(1) =~= Seq::<u8>::empty());
        assert(run.drop_last() =~= Seq::<u8>::empty());
    }
}

/// Of two runs of equally many digits, the one that is not earlier byte by byte has
/// a number that is not smaller.
proof fn lemma_number_order(x: Seq<u8>, y: Seq<u8>, n: int)
    requires
        all_digits(x),
        all_digits(y),
        x.len() == y.len(),
        0 <= n <= x.len(),
        forall|k: int| 0 <= k < x.len() - n ==> x[k] == y[k],
    ensures
        bytes_order(x, y, x.len() - n) == Order::Less ==> number(x) < number(y),
        bytes_order(x, y, x.len() - n) == Order::Equal ==> number(x) == number(y),
        bytes_order(x, y, x.len() - n) == Order::Greater ==> number(x) > number(y),
    decreases n,
{
    let i = x.len() - n;
    if n == 0 {
        assert(x =~= y);
    } else if x[i] == y[i] {
        lemma_number_order(x, y, n - 1);
    } else {
        lemma_number_split(x, i);
        lemma_number_split(y, i);
        assert(x.take(i) =~= y.take(i));
        let p = power((n - 1) as nat);
        let (c, d) = (x[i] - 0x30, y[i] - 0x30);
        lemma_number_bounds(x.skip(i + 1));
        lemma_number_bounds(y.skip(i + 1));
        if c < d {
            assert(c * p + p <= d * p) by (nonlinear_arith)
                requires
                    c + 1 <= d,
                    p >= 0,
            ;
        } else {
            assert(d * p + p <= c * p) by (nonlinear_arith)
                requires
                    d + 1 <= c,
                    p >= 0,
            ;
        }
    }
}

/// A number by one of its digits.
proof fn lemma_number_split(x: Seq<u8>, i: int)
    requires
        all_digits(x),
        0 <= i < x.len(),
    ensures
        all_digits(x.skip(i + 1)),
        number(x) == number(x.take(i)) * power((x.len() - i) as nat) + (x[i] - 0x30) * power(
            (x.len() - i - 1) as nat,
        ) + number(x.skip(i + 1)),
    decreases x.len() - i,
{
    assert forall|k: int| 0 <= k < x.skip(i + 1).len() implies 0x30 <= #[trigger] x.skip(i + 1)[k]
        <= 0x39 by {
        assert(x.skip(i + 1)[k] == x[k + i + 1]);
    }
    if i + 1 == x.len() {
        assert(x.take(i) =~= x.drop_last());
        assert(x.skip(i + 1) =~= Seq::<u8>::empty());
        assert(power(0) == 1 && power(1) == 10) by {
            reveal_with_fuel(power, 2);
        }
        assert(0x30 <= x[x.len() - 1] <= 0x39);
        let (a, d) = (number(x.take(i)) as int, x[i] - 0x30);
        assert(a * 10 + d * 1 == 10 * a + d);
        assert((x.len() - i) as nat == 1 && (x.len() - i - 1) as nat == 0);
        assert(number(x.skip(i + 1)) == 0);
    } else {
        let y = x.drop_last();
        assert(all_digits(y)) by {
            assert forall|k: int| 0 <= k < y.len() implies 0x30 <= #[trigger] y[k] <= 0x39 by {
                assert(y[k] == x[k]);
            }
        }
        lemma_number_split(y, i);
        assert(y.take(i) =~= x.take(i));
        assert(y.skip(i + 1) =~= x.skip(i + 1).drop_last());
        assert(x.skip(i + 1).last() == x.last());
        let (a, b, c) = (
            number(x.take(i)) as int,
            power((x.len() - i - 1) as nat) as int,
            power((x.len() - i - 2) as nat) as int,
        );
        let d = x[i] - 0x30;
        assert(0x30 <= x[x.len() - 1] <= 0x39);
        assert(power((x.len() - i) as nat) == 10 * b);
        assert(b == 10 * c);
        assert(10 * (a * b + d * c) == a * (10 * b) + d * (10 * c)) by (nonlinear_arith);
    }
}

/// A common start does not decide, unless it splits a run of digits.
proof fn lemma_common_start(a: Seq<u8>, b: Seq<u8>, i: int, n: int)
    requires
        0 <= i <= n,
        n <= a.len(),
        n <= b.len(),
        forall|k: int| 0 <= k < n ==> a[k] == b[k],
        n == 0 || !digit(a[n - 1]) || ((n == a.len() || !digit(a[n])) && (n == b.len() || !digit(
            b[n],
        ))),
    ensures
        parts_order(a, i, b, i) == parts_order(a, n, b, n),
    decreases n - i,
{
    if i < n {
        if digit(a[i]) {
            lemma_same_run(a, b, i, n);
            lemma_run_end(a, i);
            lemma_run_end(b, i);
            lemma_zeros_agree(a, b, i, run_end(a, i));
            assert(significant(a, i) =~= significant(b, i)) by {
                lemma_zeros_end(a, i, run_end(a, i));
            }
            lemma_bytes_flip(significant(a, i), significant(b, i), 0);
            lemma_common_start(a, b, run_end(a, i), n);
        } else {
            lemma_common_start(a, b, i + 1, n);
        }
    }
}

proof fn lemma_same_run(a: Seq<u8>, b: Seq<u8>, i: int, n: int)
    requires
        0 <= i <= n,
        n <= a.len(),
        n <= b.len(),
        forall|k: int| 0 <= k < n ==> a[k] == b[k],
        (i < n && !digit(a[n - 1])) || ((n == a.len() || !digit(a[n])) && (n == b.len() || !digit(
            b[n],
        ))),
    ensures
        run_end(a, i) == run_end(b, i),
        run_end(a, i) <= n,
    decreases n - i,
{
    if i < n && digit(a[i]) {
        lemma_same_run(a, b, i + 1, n);
    }
}

proof fn lemma_zeros_agree(a: Seq<u8>, b: Seq<u8>, i: int, n: int)
    requires
        0 <= i <= n,
        forall|k: int| i <= k < n ==> a[k] == b[k],
    ensures
        zeros_end(a, i, n) == zeros_end(b, i, n),
    decreases n - i,
{
    if i < n && a[i] == 0x30 {
        lemma_zeros_agree(a, b, i + 1, n);
    }
}

/// A run of digits inside a name.
proof fn lemma_run(p: Seq<u8>, r: Seq<u8>, t: Seq<u8>)
    requires
        all_digits(r),
        r.len() > 0,
        t.len() == 0 || !digit(t[0]),
    ensures
        ({
            let a = p + r + t;
            &&& run_end(a, p.len() as int) == p.len() + r.len()
            &&& all_digits(significant(a, p.len() as int))
            &&& number(significant(a, p.len() as int)) == number(r)
            &&& significant(a, p.len() as int).len() > 0 ==> significant(a, p.len() as int)[0]
                != 0x30
        }),
{
    let a = p + r + t;
    lemma_run_reaches(a, p.len() as int, (p.len() + r.len()) as int);
    lemma_significant(a, p.len() as int, (p.len() + r.len()) as int);
    assert(a.subrange(p.len() as int, (p.len() + r.len()) as int) =~= r);
}

proof fn lemma_run_reaches(a: Seq<u8>, i: int, n: int)
    requires
        0 <= i <= n <= a.len(),
        forall|k: int| i <= k < n ==> digit(#[trigger] a[k]),
        n == a.len() || !digit(a[n]),
    ensures
        run_end(a, i) == n,
    decreases n - i,
{
    if i < n {
        lemma_run_reaches(a, i + 1, n);
    }
}

proof fn lemma_significant(a: Seq<u8>, i: int, n: int)
    requires
        0 <= i <= n <= a.len(),
        forall|k: int| i <= k < n ==> digit(#[trigger] a[k]),
    ensures
        ({
            let x = a.subrange(zeros_end(a, i, n), n);
            &&& i <= zeros_end(a, i, n) <= n
            &&& all_digits(x)
            &&& number(x) == number(a.subrange(i, n))
            &&& x.len() > 0 ==> x[0] != 0x30
        }),
    decreases n - i,
{
    if i < n && a[i] == 0x30 {
        lemma_significant(a, i + 1, n);
        lemma_number_skips_zero(a.subrange(i, n));
        assert(a.subrange(i, n).skip(1) =~= a.subrange(i + 1, n));
    } else {
        let x = a.subrange(i, n);
        assert forall|k: int| 0 <= k < x.len() implies 0x30 <= #[trigger] x[k] <= 0x39 by {
            assert(digit(a[i + k]));
        }
    }
}

/// Where two names first differ in a run of digits, the smaller number comes first,
/// and of equal numbers the one with fewer leading zeros.
pub proof fn law_numbers_are_ordered_by_value(
    p: Seq<u8>,
    r: Seq<u8>,
    t: Seq<u8>,
    q: Seq<u8>,
    u: Seq<u8>,
)
    requires
        all_digits(r),
        all_digits(q),
        r.len() > 0,
        q.len() > 0,
        p.len() > 0 ==> !(0x30 <= p.last() <= 0x39),
        t.len() > 0 ==> !(0x30 <= t[0] <= 0x39),
        u.len() > 0 ==> !(0x30 <= u[0] <= 0x39),
    ensures
        number(r) < number(q) ==> natural(p + r + t, p + q + u) == Order::Less,
        number(r) > number(q) ==> natural(p + r + t, p + q + u) == Order::Greater,
        number(r) == number(q) && r.len() < q.len() ==> natural(p + r + t, p + q + u)
            == Order::Less,
{
    let (a, b) = (p + r + t, p + q + u);
    let n = p.len() as int;
    lemma_run(p, r, t);
    lemma_run(p, q, u);
    if n > 0 {
        assert(a[n - 1] == p.last());
    }
    lemma_common_start(a, b, 0, n);
    assert(a[n] == r[0] && b[n] == q[0]);
    let (x, y) = (significant(a, n), significant(b, n));
    lemma_number_bounds(x);
    lemma_number_bounds(y);
    if x.len() < y.len() {
        lemma_power(x.len(), (y.len() - 1) as nat);
    } else if x.len() > y.len() {
        lemma_power(y.len(), (x.len() - 1) as nat);
    } else {
        lemma_number_order(x, y, x.len() as int);
    }
}

/// Where two names first differ in something else than digits, the smaller byte
/// comes first; letters count without their case.
pub proof fn law_letters_are_ordered_without_case(
    p: Seq<u8>,
    c: u8,
    t: Seq<u8>,
    d: u8,
    u: Seq<u8>,
)
    requires
        !(0x30 <= c <= 0x39) || !(0x30 <= d <= 0x39),
        p.len() > 0 && 0x30 <= p.last() <= 0x39 ==> !(0x30 <= c <= 0x39) && !(0x30 <= d <= 0x39),
        uncased(c) < uncased(d),
    ensures
        natural(p.push(c) + t, p.push(d) + u) == Order::Less,
        natural(p.push(d) + u, p.push(c) + t) == Order::Greater,
{
    let (a, b) = (p.push(c) + t, p.push(d) + u);
    let n = p.len() as int;
    if n > 0 {
        assert(a[n - 1] == p.last());
    }
    lemma_common_start(a, b, 0, n);
    assert(a[n] == c && b[n] == d);
    law_natural_is_antisymmetric(a, b);
}

/// A name comes before a longer one that starts with it.
pub proof fn law_shorter_names_come_first(p: Seq<u8>, t: Seq<u8>)
    requires
        t.len() > 0,
        apart(p, t),
    ensures
        natural(p, p + t) == Order::Less,
{
    let b = p + t;
    let n = p.len() as int;
    if n > 0 {
        assert(b[n - 1] == p.last());
    }
    lemma_common_start(p, b, 0, n);
}

/// Names that differ in nothing but the case of letters are ordered by their bytes.
pub proof fn law_case_decides_last(a: Seq<u8>, b: Seq<u8>, k: int)
    requires
        a.len() == b.len(),
        forall|i: int| 0 <= i < a.len() ==> uncased(#[trigger] a[i]) == uncased(b[i]),
        0 <= k < a.len(),
        forall|i: int| 0 <= i < k ==> a[i] == b[i],
        a[k] < b[k],
    ensures
        natural(a, b) == Order::Less,
{
    lemma_uncased_parts(a, b, 0);
    lemma_bytes_at(a, b, 0, k);
}

proof fn lemma_bytes_at(a: Seq<u8>, b: Seq<u8>, i: int, k: int)
    requires
        0 <= i <= k < a.len(),
        k < b.len(),
        forall|j: int| 0 <= j < k ==> a[j] == b[j],
        a[k] < b[k],
    ensures
        bytes_order(a, b, i) == Order::Less,
    decreases k - i,
{
    if i < k {
        lemma_bytes_at(a, b, i + 1, k);
    }
}

proof fn lemma_uncased_parts(a: Seq<u8>, b: Seq<u8>, i: int)
    requires
        a.len() == b.len(),
        forall|i: int| 0 <= i < a.len() ==> uncased(#[trigger] a[i]) == uncased(b[i]),
        0 <= i <= a.len(),
    ensures
        parts_order(a, i, b, i) == Order::Equal,
    decreases a.len() - i,
{
    if i < a.len() {
        assert(uncased(a[i]) == uncased(b[i]));
        if digit(a[i]) {
            lemma_uncased_run(a, b, i);
            lemma_run_end(a, i);
            let n = run_end(a, i);
            assert forall|k: int| i <= k < n implies a[k] == b[k] by {
                assert(digit(a[k]));
                assert(uncased(a[k]) == uncased(b[k]));
            }
            lemma_zeros_agree(a, b, i, n);
            lemma_zeros_end(a, i, n);
            assert(significant(a, i) =~= significant(b, i));
            lemma_bytes_flip(significant(a, i), significant(b, i), 0);
            lemma_uncased_parts(a, b, n);
        } else {
            lemma_uncased_parts(a, b, i + 1);
        }
    }
}

proof fn lemma_uncased_run(a: Seq<u8>, b: Seq<u8>, i: int)
    requires
        a.len() == b.len(),
        forall|i: int| 0 <= i < a.len() ==> uncased(#[trigger] a[i]) == uncased(b[i]),
        0 <= i <= a.len(),
    ensures
        run_end(a, i) == run_end(b, i),
    decreases a.len() - i,
{
    if i < a.len() {
        assert(uncased(a[i]) == uncased(b[i]));
        if digit(a[i]) {
            lemma_uncased_run(a, b, i + 1);
        }
    }
}

/// The name that a path is listed by: its last component, or all of it.
pub open spec fn listed_name(s: Seq<u8>) -> Seq<u8> {
    match path::file_name_of(s) {
        Some(name) => name,
        None => s,
    }
}

/// Whether position `i` of a path is the edge of a component: its end, or a
/// separator.
pub open spec fn edge(s: Seq<u8>, i: int) -> bool {
    i < 0 || i >= s.len() || s[i] == 0x2f
}

/// Whether position `i` of a path is in a component `.` or `..`.
pub open spec fn dotted(s: Seq<u8>, i: int) -> bool {
    &&& s[i] == 0x2e
    &&& {
        ||| edge(s, i - 1) && edge(s, i + 1)
        ||| edge(s, i - 1) && s[i + 1] == 0x2e && edge(s, i + 2)
        ||| edge(s, i - 2) && s[i - 1] == 0x2e && edge(s, i + 1)
    }
}

/// The rank of a position of a path: separators come first, then the dots of the
/// components `.` and `..`, then all other bytes.
pub open spec fn rank_of(s: Seq<u8>, i: int) -> int {
    if s[i] == 0x2f {
        0
    } else if dotted(s, i) {
        1
    } else {
        s[i] + 2
    }
}

/// The ranks of a path: comparing them compares paths component by component, the
/// root before `.`, that before `..`, and that before any name.
pub open spec fn components(s: Seq<u8>) -> Seq<int> {
    Seq::new(s.len(), |i: int| rank_of(s, i))
}

/// The order of two rank sequences from `i` on.
pub open spec fn ranks_order(a: Seq<int>, b: Seq<int>, i: int) -> Order
    decreases a.len() - i,
{
    if i >= a.len() || i >= b.len() {
        Order::of(a.len() as int, b.len() as int)
    } else if a[i] != b[i] {
        Order::of(a[i], b[i])
    } else {
        ranks_order(a, b, i + 1)
    }
}

proof fn lemma_ranks_flip(a: Seq<int>, b: Seq<int>, i: int)
    requires
        0 <= i,
        forall|k: int| 0 <= k < i && k < a.len() && k < b.len() ==> a[k] == b[k],
    ensures
        ranks_order(b, a, i) == ranks_order(a, b, i).reversed(),
        ranks_order(a, b, i) == Order::Equal ==> a == b,
        a == b ==> ranks_order(a, b, i) == Order::Equal,
    decreases a.len() - i,
{
    if i < a.len() && i < b.len() && a[i] == b[i] {
        lemma_ranks_flip(a, b, i + 1);
    } else if ranks_order(a, b, i) == Order::Equal {
        assert(a =~= b);
    }
}

proof fn lemma_ranks_chain(a: Seq<int>, b: Seq<int>, c: Seq<int>, i: int)
    requires
        0 <= i,
    ensures
        chained(ranks_order(a, b, i), ranks_order(b, c, i), ranks_order(a, c, i)),
    decreases a.len() - i,
{
    if i < a.len() && i < b.len() && i < c.len() && a[i] == b[i] && b[i] == c[i] {
        lemma_ranks_chain(a, b, c, i + 1);
    }
}

/// The order of two paths, component by component.
pub open spec fn path_order(a: Seq<u8>, b: Seq<u8>) -> Order {
    ranks_order(components(a), components(b), 0)
}

/// The order of a listing: by name, then by path.
pub open spec fn listing(a: Seq<u8>, b: Seq<u8>) -> Order {
    natural(listed_name(a), listed_name(b)).or(path_order(a, b))
}

proof fn lemma_components(a: Seq<u8>, b: Seq<u8>)
    ensures
        components(a) == components(b) <==> a == b,
{
    if components(a) == components(b) {
        assert(components(a).len() == components(b).len());
        assert forall|i: int| 0 <= i < a.len() implies a[i] == b[i] by {
            assert(components(a)[i] == rank_of(a, i));
            assert(components(b)[i] == rank_of(b, i));
        }
        assert(a =~= b);
    }
}

/// Paths can be put in order.
pub proof fn lemma_path_order(a: Seq<u8>, b: Seq<u8>, c: Seq<u8>)
    ensures
        chained(path_order(a, b), path_order(b, c), path_order(a, c)),
        path_order(b, a) == path_order(a, b).reversed(),
        path_order(a, b) == Order::Equal <==> a == b,
{
    lemma_components(a, b);
    lemma_ranks_chain(components(a), components(b), components(c), 0);
    lemma_ranks_flip(components(a), components(b), 0);
}

/// A listing in order.
pub open spec fn listed(s: Seq<Seq<u8>>) -> bool {
    forall|i: int, j: int|
        0 <= i < j < s.len() ==> listing(#[trigger] s[i], #[trigger] s[j]) != Order::Greater
}

proof fn lemma_listing_chain(a: Seq<u8>, b: Seq<u8>, c: Seq<u8>)
    ensures
        chained(listing(a, b), listing(b, c), listing(a, c)),
        listing(b, a) == listing(a, b).reversed(),
        listing(a, b) == Order::Equal <==> a == b,
{
    let (x, y, z) = (listed_name(a), listed_name(b), listed_name(c));
    law_natural_is_transitive(x, y, z);
    law_natural_is_antisymmetric(x, y);
    law_natural_tells_names_apart(x, y);
    law_natural_tells_names_apart(y, z);
    lemma_components(a, b);
    lemma_components(b, c);
    lemma_ranks_chain(components(a), components(b), components(c), 0);
    lemma_ranks_flip(components(a), components(b), 0);
    lemma_ranks_flip(components(b), components(c), 0);
}

/// A listing is in the natural order of its names, whatever folders they are in.
pub proof fn law_listings_are_in_natural_order(s: Seq<Seq<u8>>, i: int, j: int)
    requires
        listed(s),
        0 <= i < j < s.len(),
    ensures
        natural(listed_name(s[i]), listed_name(s[j])) != Order::Greater,
{
    assert(listing(s[i], s[j]) != Order::Greater);
}

/// Two orderly listings of the same files are the same listing.
pub proof fn law_listing_is_unique(a: Seq<Seq<u8>>, b: Seq<Seq<u8>>)
    requires
        listed(a),
        listed(b),
        a.to_multiset() == b.to_multiset(),
    ensures
        a == b,
{
    let leq = |x: Seq<u8>, y: Seq<u8>| listing(x, y) != Order::Greater;
    assert(vstd::relations::total_ordering(leq)) by {
        assert forall|x: Seq<u8>| #[trigger] leq(x, x) by {
            lemma_listing_chain(x, x, x);
        }
        assert forall|x: Seq<u8>, y: Seq<u8>| #[trigger] leq(x, y) && #[trigger] leq(
            y,
            x,
        ) implies x == y by {
            lemma_listing_chain(x, y, x);
        }
        assert forall|x: Seq<u8>, y: Seq<u8>, z: Seq<u8>| #[trigger] leq(x, y) && #[trigger] leq(
            y,
            z,
        ) implies leq(x, z) by {
            lemma_listing_chain(x, y, z);
        }
        assert forall|x: Seq<u8>, y: Seq<u8>| #[trigger] leq(x, y) || #[trigger] leq(y, x) by {
            lemma_listing_chain(x, y, x);
        }
    }
    assert(vstd::relations::sorted_by(a, leq));
    assert(vstd::relations::sorted_by(b, leq));
    vstd::seq_lib::lemma_sorted_unique(a, b, leq);
}

fn is_edge(s: &[u8], i: usize) -> (out: bool)
    ensures
        out == edge(s@, i as int),
{
    i >= s.len() || s[i] == 0x2f
}

/// The rank of a position of a path.
fn rank_at(s: &[u8], i: usize) -> (out: u16)
    requires
        i < s@.len(),
    ensures
        out == rank_of(s@, i as int),
{
    let b: u8 = s[i];
    if b == 0x2f {
        return 0;
    }
    let length: usize = s.len();
    let begins = i == 0 || is_edge(s, i - 1);
    let ends = i + 1 >= length || is_edge(s, i + 1);
    let first_of_two = begins && i + 1 < length && s[i + 1] == 0x2e && (i + 2 >= length || is_edge(
        s,
        i + 2,
    ));
    let last_of_two = ends && i > 0 && s[i - 1] == 0x2e && (i == 1 || is_edge(s, i - 2));
    if b == 0x2e && (begins && ends || first_of_two || last_of_two) {
        1
    } else {
        b as u16 + 2
    }
}

/// The order of two paths, component by component.
pub fn compare_paths(a: &PhotoPath, b: &PhotoPath) -> (out: Order)
    ensures
        out == path_order(a@, b@),
{
    let s = a.as_bytes();
    let t = b.as_bytes();
    let mut i: usize = 0;
    while i < s.len() && i < t.len()
        invariant
            s@ == a@,
            t@ == b@,
            i <= s@.len(),
            i <= t@.len(),
            path_order(a@, b@) == ranks_order(components(a@), components(b@), i as int),
        decreases s@.len() - i,
    {
        let x: u16 = rank_at(s, i);
        let y: u16 = rank_at(t, i);
        assert(components(a@)[i as int] == x);
        assert(components(b@)[i as int] == y);
        if x < y {
            return Order::Less;
        }
        if x > y {
            return Order::Greater;
        }
        i += 1;
    }
    order_of(s.len(), t.len())
}

/// Whether one path is listed no later than another.
fn listed_first(a: &PhotoPath, b: &PhotoPath) -> (out: bool)
    ensures
        out == (listing(a@, b@) != Order::Greater),
{
    let x = match a.file_name() {
        Some(name) => name,
        None => path::copy_bytes(a.as_bytes()),
    };
    let y = match b.file_name() {
        Some(name) => name,
        None => path::copy_bytes(b.as_bytes()),
    };
    match natural_order(&x, &y) {
        Order::Less => true,
        Order::Greater => false,
        Order::Equal => match compare_paths(a, b) {
            Order::Greater => false,
            _ => true,
        },
    }
}

/// No path of `a` is listed behind a path of `b`.
spec fn precede(a: Seq<Seq<u8>>, b: Seq<Seq<u8>>) -> bool {
    forall|i: int, j: int|
        0 <= i < a.len() && 0 <= j < b.len() ==> listing(#[trigger] a[i], #[trigger] b[j])
            != Order::Greater
}

/// Moves the first path of `from` behind `out`.
proof fn lemma_move(out: Seq<PhotoPath>, from: Seq<PhotoPath>)
    requires
        from.len() > 0,
    ensures
        path::keys(out.push(from[0])) == path::keys(out).push(path::keys(from)[0]),
        path::keys(from.skip(1)) == path::keys(from).skip(1),
        out.push(from[0]).to_multiset().add(from.skip(1).to_multiset())
            == out.to_multiset().add(from.to_multiset()),
{
    broadcast use vstd::seq_lib::group_to_multiset_ensures;

    let k = path::keys(from);
    assert(path::keys(out.push(from[0])) =~= path::keys(out).push(k[0]));
    assert(path::keys(from.skip(1)) =~= k.skip(1));
    assert(from =~= seq![from[0]] + from.skip(1));
    vstd::seq_lib::lemma_multiset_commutative(seq![from[0]], from.skip(1));
    assert(seq![from[0]] =~= Seq::<PhotoPath>::empty().push(from[0]));
    assert(out.push(from[0]).to_multiset().add(from.skip(1).to_multiset())
        =~= out.to_multiset().add(from.to_multiset()));
}

/// Moving the earlier head keeps a merge in order.
proof fn lemma_merge_step(out: Seq<Seq<u8>>, xs: Seq<Seq<u8>>, ys: Seq<Seq<u8>>)
    requires
        listed(out),
        listed(xs),
        listed(ys),
        precede(out, xs),
        precede(out, ys),
        xs.len() > 0,
        ys.len() > 0 ==> listing(xs[0], ys[0]) != Order::Greater,
    ensures
        listed(out.push(xs[0])),
        listed(xs.skip(1)),
        precede(out.push(xs[0]), xs.skip(1)),
        precede(out.push(xs[0]), ys),
{
    let next = out.push(xs[0]);
    assert forall|i: int, j: int| 0 <= i < next.len() && 0 <= j < ys.len() implies listing(
        #[trigger] next[i],
        #[trigger] ys[j],
    ) != Order::Greater by {
        if i < out.len() {
            assert(listing(out[i], ys[j]) != Order::Greater);
        } else {
            lemma_listing_chain(xs[0], ys[0], ys[j]);
            lemma_listing_chain(ys[j], ys[j], ys[j]);
        }
    }
    assert forall|i: int, j: int| 0 <= i < next.len() && 0 <= j < xs.skip(1).len() implies listing(
        #[trigger] next[i],
        #[trigger] xs.skip(1)[j],
    ) != Order::Greater by {
        if i < out.len() {
            assert(listing(out[i], xs[j + 1]) != Order::Greater);
        }
    }
}

/// Merges two orderly listings.
fn merge(x: VecDeque<PhotoPath>, y: VecDeque<PhotoPath>) -> (out: VecDeque<PhotoPath>)
    requires
        listed(path::keys(x@)),
        listed(path::keys(y@)),
    ensures
        listed(path::keys(out@)),
        out@.to_multiset() == x@.to_multiset().add(
            y@.to_multiset(),
        ),
{
    let ghost total = x@.to_multiset().add(y@.to_multiset());
    let mut x = x;
    let mut y = y;
    let mut out: VecDeque<PhotoPath> = VecDeque::new();
    assert(path::keys(out@) =~= Seq::<Seq<u8>>::empty());
    assert(out@.to_multiset() =~= vstd::multiset::Multiset::empty()) by {
        broadcast use vstd::seq_lib::group_to_multiset_ensures;

        out@.to_multiset_ensures();
    }
    assert(out@.to_multiset().add(x@.to_multiset()).add(
        y@.to_multiset(),
    ) =~= total);
    loop
        invariant
            listed(path::keys(out@)),
            listed(path::keys(x@)),
            listed(path::keys(y@)),
            precede(path::keys(out@), path::keys(x@)),
            precede(path::keys(out@), path::keys(y@)),
            out@.to_multiset().add(x@.to_multiset()).add(
                y@.to_multiset(),
            ) == total,
        ensures
            x@.len() == 0,
            y@.len() == 0,
        decreases x@.len() + y@.len(),
    {
        if x.len() == 0 && y.len() == 0 {
            break;
        }
        let from_x = if x.len() == 0 {
            false
        } else if y.len() == 0 {
            true
        } else {
            listed_first(&x[0], &y[0])
        };
        let ghost (before, xs, ys) = (out@, x@, y@);
        proof {
            if from_x {
                lemma_merge_step(path::keys(before), path::keys(xs), path::keys(ys));
            } else {
                if xs.len() > 0 {
                    lemma_listing_chain(path::keys(xs)[0], path::keys(ys)[0], path::keys(xs)[0]);
                }
                lemma_merge_step(path::keys(before), path::keys(ys), path::keys(xs));
            }
        }
        if from_x {
            if let Some(first) = x.pop_front() {
                out.push_back(first);
                proof {
                    lemma_move(before, xs);
                    assert(x@ =~= xs.skip(1));
                    assert(out@ =~= before.push(xs[0]));
                    assert(out@.to_multiset().add(x@.to_multiset()).add(
                        y@.to_multiset(),
                    ) =~= total);
                }
            }
        } else {
            if let Some(first) = y.pop_front() {
                out.push_back(first);
                proof {
                    lemma_move(before, ys);
                    assert(y@ =~= ys.skip(1));
                    assert(out@ =~= before.push(ys[0]));
                    let (o, a, b) = (
                        before.to_multiset(),
                        xs.to_multiset(),
                        ys.to_multiset(),
                    );
                    assert(out@.to_multiset().add(x@.to_multiset()).add(
                        y@.to_multiset(),
                    ) =~= out@.to_multiset().add(y@.to_multiset()).add(a));
                    assert(o.add(b).add(a) =~= o.add(a).add(b));
                }
            }
        }
    }
    proof {
        assert(x@ =~= Seq::<PhotoPath>::empty());
        assert(y@ =~= Seq::<PhotoPath>::empty());
        x@.to_multiset_ensures();
        assert(x@.to_multiset() =~= vstd::multiset::Multiset::empty());
        assert(out@.to_multiset() =~= total);
    }
    out
}

/// Brings paths into the order of a listing.
fn sorted(files: VecDeque<PhotoPath>) -> (out: VecDeque<PhotoPath>)
    ensures
        listed(path::keys(out@)),
        out@.to_multiset() == files@.to_multiset(),
    decreases files@.len(),
{
    let n: usize = files.len();
    if n < 2 {
        return files;
    }
    let ghost all = files@;
    let mut rest = files;
    let mut half: VecDeque<PhotoPath> = VecDeque::new();
    assert(half@.to_multiset().add(rest@.to_multiset()) =~= all.to_multiset()) by {
        half@.to_multiset_ensures();
        assert(half@ =~= Seq::<PhotoPath>::empty());
        assert(half@.to_multiset() =~= vstd::multiset::Multiset::empty());
    }
    let mut i: usize = 0;
    while i < n / 2
        invariant
            i <= n / 2,
            n == all.len(),
            n >= 2,
            half@.len() == i,
            rest@.len() == n - i,
            half@.to_multiset().add(rest@.to_multiset()) == all.to_multiset(),
        decreases n / 2 - i,
    {
        let ghost (before, from) = (half@, rest@);
        if let Some(first) = rest.pop_front() {
            half.push_back(first);
            proof {
                lemma_move(before, from);
                assert(rest@ =~= from.skip(1));
                assert(half@ =~= before.push(from[0]));
            }
        }
        i += 1;
    }
    merge(sorted(half), sorted(rest))
}

/// Lists with the same members have the same members after each is replaced.
pub proof fn lemma_replaced<A, B>(a: Seq<A>, b: Seq<A>, f: spec_fn(A) -> B)
    requires
        a.to_multiset() == b.to_multiset(),
    ensures
        a.map_values(f).to_multiset() == b.map_values(f).to_multiset(),
    decreases a.len(),
{
    broadcast use vstd::seq_lib::group_to_multiset_ensures;

    a.to_multiset_ensures();
    b.to_multiset_ensures();
    assert(a.len() == b.len());
    if a.len() == 0 {
        assert(a.map_values(f) =~= b.map_values(f));
    } else {
        let n = a.len() - 1;
        let x = a[n];
        assert(a.contains(x));
        vstd::seq_lib::to_multiset_contains(a, x);
        vstd::seq_lib::to_multiset_contains(b, x);
        let i = choose|i: int| 0 <= i < b.len() && b[i] == x;
        lemma_replaced(a.remove(n), b.remove(i), f);
        let (fa, fb) = (a.map_values(f), b.map_values(f));
        assert(fa.remove(n) =~= a.remove(n).map_values(f));
        assert(fb.remove(i) =~= b.remove(i).map_values(f));
        fa.to_multiset_ensures();
        fb.to_multiset_ensures();
        assert(fa.to_multiset() =~= fa.remove(n).to_multiset().insert(f(x)));
        assert(fb.to_multiset() =~= fb.remove(i).to_multiset().insert(f(x)));
    }
}

proof fn lemma_same_members(a: Seq<PhotoPath>, b: Seq<PhotoPath>)
    requires
        a.to_multiset() == b.to_multiset(),
    ensures
        path::keys(a).to_multiset() == path::keys(b).to_multiset(),
        path::spellings(a).to_multiset() == path::spellings(b).to_multiset(),
{
    let (key, form) = (|p: PhotoPath| p.key(), |p: PhotoPath| p.form());
    lemma_replaced(a, b, key);
    lemma_replaced(a, b, form);
    assert(path::keys(a) =~= a.map_values(key));
    assert(path::keys(b) =~= b.map_values(key));
    assert(path::spellings(a) =~= a.map_values(form));
    assert(path::spellings(b) =~= b.map_values(form));
}

/// Brings the paths of a scan into natural order of their names.
pub fn sort(files: Vec<PhotoPath>) -> (out: Vec<PhotoPath>)
    ensures
        listed(path::keys(out@)),
        out@.to_multiset() == files@.to_multiset(),
        path::keys(out@).to_multiset() == path::keys(files@).to_multiset(),
        path::spellings(out@).to_multiset() == path::spellings(files@).to_multiset(),
{
    let ghost all = files@;
    let mut rest = files;
    let mut queue: VecDeque<PhotoPath> = VecDeque::new();
    assert(rest@ + queue@ =~= all);
    loop
        invariant
            rest@ + queue@ == all,
        ensures
            rest@.len() == 0,
        decreases rest@.len(),
    {
        let ghost (before, behind) = (rest@, queue@);
        match rest.pop() {
            Some(last) => {
                queue.push_front(last);
                assert(rest@ + queue@ =~= before + behind);
            },
            None => {
                break;
            },
        }
    }
    assert(queue@ =~= all);
    let mut list = sorted(queue);
    let ghost order = list@;
    let mut out: Vec<PhotoPath> = Vec::new();
    assert(out@ + list@ =~= order);
    loop
        invariant
            out@ + list@ == order,
        ensures
            list@.len() == 0,
        decreases list@.len(),
    {
        let ghost (before, from) = (out@, list@);
        match list.pop_front() {
            Some(first) => {
                out.push(first);
                assert(out@ + list@ =~= before + from);
            },
            None => {
                break;
            },
        }
    }
    assert(out@ =~= order);
    proof {
        lemma_same_members(out@, all);
    }
    out
}

/// What a path leads to, links followed.
#[derive(Clone, Copy, Debug, PartialEq, Eq, Structural)]
pub enum Kind {
    File,
    Folder,
    Other,
}

/// What a folder lists: names as written, and whether each is a file.
pub open spec fn entries_of(entries: Seq<(PhotoPath, bool)>) -> Seq<(Seq<u8>, bool)> {
    Seq::new(entries.len(), |i: int| (entries[i].0.raw(), entries[i].1))
}

/// The files among some entries that are photographs by their name.
pub open spec fn photographs(entries: Seq<(Seq<u8>, bool)>) -> Seq<Seq<u8>>
    decreases entries.len(),
{
    if entries.len() == 0 {
        Seq::empty()
    } else if entries.last().1 && arw(entries.last().0) {
        photographs(entries.drop_last()).push(entries.last().0)
    } else {
        photographs(entries.drop_last())
    }
}

/// Lists the photographs of a folder without its subfolders, or the photograph
/// that a path leads to. `entries` are those of the folder, and none of a file.
pub fn scan_arw_paths(at: &PhotoPath, kind: Kind, entries: Vec<(PhotoPath, bool)>) -> (out: Result<
    Vec<PhotoPath>,
    String,
>)
    ensures
        match kind {
            Kind::File => if arw(at@) {
                out is Ok && path::spellings(out->Ok_0@) == seq![at.raw()]
            } else {
                out is Err && out->Err_0@ == "input file must have an .ARW extension"@
            },
            Kind::Folder => {
                &&& out is Ok
                &&& listed(path::keys(out->Ok_0@))
                &&& path::spellings(out->Ok_0@).to_multiset() == photographs(
                    entries_of(entries@),
                ).to_multiset()
            },
            Kind::Other => out is Err && out->Err_0@ == "input must be an ARW file or directory"@,
        },
{
    match kind {
        Kind::File => {
            if !is_arw(at) {
                return Err("input file must have an .ARW extension".to_owned());
            }
            let mut files: Vec<PhotoPath> = Vec::new();
            files.push(at.copied());
            assert(path::spellings(files@) =~= seq![at.raw()]);
            Ok(files)
        },
        Kind::Other => Err("input must be an ARW file or directory".to_owned()),
        Kind::Folder => {
            let ghost all = entries_of(entries@);
            let mut files: Vec<PhotoPath> = Vec::new();
            let mut i: usize = 0;
            assert(path::spellings(files@) =~= photographs(all.take(0)));
            while i < entries.len()
                invariant
                    i <= entries@.len(),
                    all == entries_of(entries@),
                    path::spellings(files@) == photographs(all.take(i as int)),
                decreases entries@.len() - i,
            {
                let ghost before = files@;
                assert(all.take(i + 1).drop_last() =~= all.take(i as int));
                if is_arw(&entries[i].0) && entries[i].1 {
                    files.push(entries[i].0.copied());
                    assert(path::spellings(files@) =~= path::spellings(before).push(all[i as int].0));
                }
                i += 1;
            }
            assert(all.take(i as int) =~= all);
            Ok(sort(files))
        },
    }
}

/// A file is a photograph if its extension is ARW, in capitals or not, and only then.
pub proof fn law_photographs_are_named_arw(folder: Seq<u8>, stem: Seq<u8>, extension: Seq<u8>)
    requires
        folder.len() > 0,
        folder.last() != '/' as u8,
        folder.len() >= 2 ==> !(folder.last() == '.' as u8 && folder[folder.len() - 2] == '/' as u8),
        stem.len() > 0,
        extension.len() > 0,
        forall|k: int| 0 <= k < stem.len() ==> #[trigger] stem[k] != '/' as u8,
        forall|k: int|
            0 <= k < extension.len() ==> #[trigger] extension[k] != '/' as u8 && extension[k]
                != '.' as u8,
    ensures
        arw(folder + seq!['/' as u8] + (stem + seq!['.' as u8] + extension)) <==> extension.len()
            == 3 && (extension[0] == 'a' as u8 || extension[0] == 'A' as u8) && (extension[1]
            == 'r' as u8 || extension[1] == 'R' as u8) && (extension[2] == 'w' as u8 || extension[2]
            == 'W' as u8),
{
    path::law_names_have_an_extension(folder, stem, extension, extension);
    let wanted = seq![0x61u8, 0x72u8, 0x77u8];
    if path::same_but_case(extension, wanted) {
        assert(path::lower(extension[0]) == path::lower(wanted[0]));
        assert(path::lower(extension[1]) == path::lower(wanted[1]));
        assert(path::lower(extension[2]) == path::lower(wanted[2]));
    }
}

/// The photographs of a folder are its files that are named so, and nothing else.
pub proof fn law_all_photographs_of_a_folder_are_listed(
    entries: Seq<(Seq<u8>, bool)>,
    photo: Seq<u8>,
)
    ensures
        photographs(entries).contains(photo) <==> entries.contains((photo, true)) && arw(photo),
    decreases entries.len(),
{
    if entries.len() > 0 {
        let short = entries.drop_last();
        law_all_photographs_of_a_folder_are_listed(short, photo);
        let (few, more) = (photographs(short), photographs(entries));
        let e = (photo, true);
        assert(entries[entries.len() - 1] == entries.last());
        if short.contains(e) {
            let i = choose|i: int| 0 <= i < short.len() && short[i] == e;
            assert(entries[i] == e);
        }
        if entries.contains(e) && entries.last() != e {
            let i = choose|i: int| 0 <= i < entries.len() && entries[i] == e;
            assert(short[i] == e);
        }
        if entries.last().1 && arw(entries.last().0) {
            assert(more[few.len() as int] == entries.last().0);
            if few.contains(photo) {
                let i = choose|i: int| 0 <= i < few.len() && few[i] == photo;
                assert(more[i] == photo);
            }
            if more.contains(photo) && entries.last().0 != photo {
                let i = choose|i: int| 0 <= i < more.len() && more[i] == photo;
                assert(few[i] == photo);
            }
        }
    }
}

} // verus!
