use vstd::prelude::*;

verus! {

/// The error of a Fenwick tree operation: an index out of range, or a target
/// sum that exceeds the total.
#[derive(Debug, Clone, Copy)]
pub struct GenericError;

/// Sum of the first `k` weights of `s`.
pub open spec fn prefix(s: Seq<u64>, k: int) -> int
    decreases k,
{
    if k <= 0 || k > s.len() {
        0
    } else {
        prefix(s, k - 1) + s[k - 1]
    }
}

/// The first index through which the weights of `s` add up to at least `x`
/// (the length of `s` where they never do).
pub open spec fn lower_index(s: Seq<u64>, x: int) -> int {
    lower_from(s, x, 0)
}

pub open spec fn lower_from(s: Seq<u64>, x: int, i: int) -> int
    decreases s.len() - i,
{
    if i >= s.len() || prefix(s, i + 1) >= x {
        i
    } else {
        lower_from(s, x, i + 1)
    }
}

/// An index before which the sum falls short of `x`, and through which it
/// reaches `x`, is the first such index.
pub proof fn lemma_lower_index_unique(s: Seq<u64>, x: int, idx: int)
    requires
        0 <= idx < s.len(),
        prefix(s, idx) < x <= prefix(s, idx + 1),
    ensures
        lower_index(s, x) == idx,
{
    lemma_lower_from(s, x, 0, idx);
}

proof fn lemma_lower_from(s: Seq<u64>, x: int, i: int, idx: int)
    requires
        0 <= i <= idx < s.len(),
        prefix(s, idx) < x <= prefix(s, idx + 1),
    ensures
        lower_from(s, x, i) == idx,
    decreases idx - i,
{
    if i < idx {
        lemma_prefix_monotone(s, i + 1, idx);
        lemma_lower_from(s, x, i + 1, idx);
    }
}

/// A target between one and the total is reached at an index in range,
/// whose weight is positive.
pub proof fn lemma_lower_index_in_range(s: Seq<u64>, x: int)
    requires
        1 <= x <= prefix(s, s.len() as int),
    ensures
        0 <= lower_index(s, x) < s.len(),
        prefix(s, lower_index(s, x)) < x <= prefix(s, lower_index(s, x) + 1),
        s[lower_index(s, x)] > 0,
{
    lemma_lower_from_in_range(s, x, 0);
}

proof fn lemma_lower_from_in_range(s: Seq<u64>, x: int, i: int)
    requires
        0 <= i <= s.len(),
        prefix(s, i) < x <= prefix(s, s.len() as int),
    ensures
        i <= lower_from(s, x, i) < s.len(),
        prefix(s, lower_from(s, x, i)) < x <= prefix(s, lower_from(s, x, i) + 1),
    decreases s.len() - i,
{
    if i < s.len() && prefix(s, i + 1) < x {
        lemma_lower_from_in_range(s, x, i + 1);
    }
}

/// Searching for one more than the sum before a positive weight finds that
/// weight's index.
pub proof fn lemma_lower_index_of_prefix(s: Seq<u64>, i: int)
    requires
        0 <= i < s.len(),
        s[i] > 0,
    ensures
        lower_index(s, prefix(s, i) + 1) == i,
{
    lemma_lower_index_unique(s, prefix(s, i) + 1, i);
}

/// The sum through the last index is the total.
pub proof fn lemma_last_prefix_is_total(s: Seq<u64>)
    requires
        s.len() > 0,
    ensures
        prefix(s, (s.len() - 1) + 1) == prefix(s, s.len() as int),
{
}

/// Setting a weight to zero and then to `v` leaves `v` there, and the other
/// weights as they were.
pub proof fn lemma_set_zero_then_value(s: Seq<u64>, i: int, v: u64)
    requires
        0 <= i < s.len(),
    ensures
        s.update(i, 0).update(i, v)[i] == v,
        s.update(i, 0).update(i, v) == s.update(i, v),
{
    assert(s.update(i, 0).update(i, v) =~= s.update(i, v));
}

/// Weights bounded by `b` add up to at most `b` for each of them.
pub proof fn lemma_prefix_bounded(s: Seq<u64>, k: int, b: int)
    requires
        0 <= k <= s.len(),
        forall|j: int| 0 <= j < s.len() ==> s[j] <= b,
    ensures
        prefix(s, k) <= k * b,
    decreases k,
{
    if k > 0 {
        lemma_prefix_bounded(s, k - 1, b);
        assert((k - 1) * b + b == k * b) by (nonlinear_arith);
    } else {
        assert(k * b == 0) by (nonlinear_arith)
            requires
                k == 0,
        ;
    }
}

/// All weights are zero exactly when the total is zero.
pub proof fn lemma_total_zero(s: Seq<u64>)
    ensures
        prefix(s, s.len() as int) == 0 <==> forall|j: int| 0 <= j < s.len() ==> s[j] == 0,
{
    if prefix(s, s.len() as int) == 0 {
        assert forall|j: int| 0 <= j < s.len() implies s[j] == 0 by {
            lemma_prefix_monotone(s, 0, j);
            lemma_prefix_monotone(s, j + 1, s.len() as int);
        }
    }
    if forall|j: int| 0 <= j < s.len() ==> s[j] == 0 {
        lemma_prefix_zero(s, s.len() as int);
    }
}

/// The largest power of two that divides `k` (zero for zero).
pub open spec fn lowbit(k: nat) -> nat
    decreases k,
{
    if k == 0 {
        0
    } else if k % 2 == 1 {
        1
    } else {
        2 * lowbit(k / 2)
    }
}

pub open spec fn is_pow2(m: nat) -> bool {
    m > 0 && lowbit(m) == m
}

/// Prefix sums never decrease.
pub proof fn lemma_prefix_monotone(s: Seq<u64>, a: int, b: int)
    requires
        0 <= a <= b <= s.len(),
    ensures
        prefix(s, a) <= prefix(s, b),
    decreases b - a,
{
    if a < b {
        lemma_prefix_monotone(s, a, b - 1);
    }
}

/// Changing the weight at `p` shifts every prefix that includes `p` by the
/// difference.
pub proof fn lemma_prefix_update(s: Seq<u64>, p: int, v: u64, k: int)
    requires
        0 <= p < s.len(),
        0 <= k <= s.len(),
    ensures
        prefix(s.update(p, v), k) == prefix(s, k) + if k > p {
            v - s[p]
        } else {
            0
        },
    decreases k,
{
    if k > 0 {
        lemma_prefix_update(s, p, v, k - 1);
    }
}

proof fn lemma_lowbit_basics(k: nat)
    requires
        k > 0,
    ensures
        0 < lowbit(k) <= k,
        is_pow2(lowbit(k)),
        k % 2 == 0 ==> lowbit(k) >= 2,
    decreases k,
{
    if k % 2 == 0 {
        lemma_lowbit_basics(k / 2);
        let h = lowbit(k / 2);
        assert(lowbit(2 * h) == 2 * lowbit(h)) by {
            assert((2 * h) % 2 == 0);
            assert((2 * h) / 2 == h);
        }
    }
}

/// Adding less than `lowbit(c)` to `c` leaves the low bits of the addend.
proof fn lemma_lowbit_add_small(c: nat, d: nat)
    requires
        c > 0,
        0 < d < lowbit(c),
    ensures
        lowbit(c + d) == lowbit(d),
    decreases c,
{
    lemma_lowbit_basics(c);
    if d % 2 == 1 {
        assert(c % 2 == 0);
    } else {
        assert(c % 2 == 0);
        assert((c + d) / 2 == c / 2 + d / 2);
        lemma_lowbit_add_small(c / 2, d / 2);
    }
}

/// Stepping to the next node covers at least the range of the current one.
proof fn lemma_lowbit_next(c: nat)
    requires
        c > 0,
    ensures
        c + lowbit(c) - lowbit(c + lowbit(c)) <= c - lowbit(c),
    decreases c,
{
    lemma_lowbit_basics(c);
    if c % 2 == 1 {
        lemma_lowbit_basics(c + 1);
    } else {
        let h = c / 2;
        lemma_lowbit_next(h);
        lemma_lowbit_basics(h);
        assert(c + lowbit(c) == 2 * (h + lowbit(h)));
        let g = h + lowbit(h);
        assert(lowbit(2 * g) == 2 * lowbit(g)) by {
            assert((2 * g) % 2 == 0);
            assert((2 * g) / 2 == g);
        }
    }
}

/// A power of two added to a multiple of its double is the new low bit.
proof fn lemma_lowbit_aligned(idx: nat, m: nat)
    requires
        is_pow2(m),
        idx % (2 * m) == 0,
    ensures
        lowbit(idx + m) == m,
    decreases m,
{
    if m == 1 {
        assert((idx + 1) % 2 == 1);
    } else {
        assert(m % 2 == 0) by {
            if m % 2 == 1 {
                assert(lowbit(m) == 1);
            }
        }
        let h = m / 2;
        assert(lowbit(h) == h);
        let q = idx as int / (2 * m as int);
        vstd::arithmetic::div_mod::lemma_fundamental_div_mod(idx as int, 2 * m as int);
        assert(idx as int == 2 * ((2 * h as int) * q)) by (nonlinear_arith)
            requires
                idx as int == (2 * m as int) * q,
                m == 2 * h,
        ;
        vstd::arithmetic::div_mod::lemma_mod_multiples_basic((2 * h as int) * q, 2);
        vstd::arithmetic::div_mod::lemma_div_multiples_vanish((2 * h as int) * q, 2);
        assert((2 * h as int) * q == q * (2 * h as int)) by (nonlinear_arith);
        vstd::arithmetic::div_mod::lemma_mod_multiples_basic(q, 2 * h as int);
        lemma_lowbit_aligned(idx / 2, h);
        assert((idx + m) / 2 == idx / 2 + h);
    }
}

proof fn lemma_bit_step(x: usize)
    by (bit_vector)
    requires
        x > 0,
    ensures
        x & 1 == 1 ==> x & ((!x + 1) as usize) == 1,
        x & 1 == 0 ==> x & ((!x + 1) as usize) == ((x >> 1) & ((!(x >> 1) + 1) as usize)) * 2,
        x & 1 == 0 ==> x >> 1 > 0,
{
}

proof fn lemma_bit_lowbit(x: usize)
    requires
        x > 0,
    ensures
        x & ((!x + 1) as usize) == lowbit(x as nat),
    decreases x,
{
    lemma_bit_step(x);
    assert(x & 1 == x % 2) by (bit_vector);
    assert(x >> 1 == x / 2) by (bit_vector);
    if x % 2 == 0 {
        lemma_bit_lowbit(x >> 1);
    }
}

// Next node whose range covers `i`
fn next(i: usize) -> (r: usize)
    requires
        i > 0,
        i + lowbit(i as nat) <= usize::MAX,
    ensures
        r == i + lowbit(i as nat),
{
    proof {
        lemma_bit_lowbit(i);
        assert((!i + 1) as usize == !i + 1) by (bit_vector)
            requires
                i > 0,
        ;
    }
    i + (i & (!i + 1))
}

// Node that holds the sums just before the range of `i`
fn parent(i: usize) -> (r: usize)
    requires
        i > 0,
    ensures
        r == i - lowbit(i as nat),
{
    proof {
        lemma_bit_lowbit(i);
        lemma_lowbit_basics(i as nat);
        assert((!i + 1) as usize == !i + 1) by (bit_vector)
            requires
                i > 0,
        ;
    }
    i - (i & (!i + 1))
}

/// A prefix-sum index over non-negative weights.
///
/// Weights are numbered from 0; the tree itself is numbered from 1, and node
/// `k` holds the sum of the weights `k - lowbit(k) .. k`.
#[derive(Debug)]
pub struct FenwickTree {
    values: Vec<u64>,
    tree: Vec<u64>,
    final_sum: u64,
}

impl View for FenwickTree {
    type V = Seq<u64>;

    closed spec fn view(&self) -> Seq<u64> {
        self.values@
    }
}

impl FenwickTree {
    /// The tree's internal invariant.
    pub closed spec fn wf(&self) -> bool {
        &&& self.tree@.len() == self.values@.len() + 1
        &&& self.values@.len() < usize::MAX / 2
        &&& self.final_sum == prefix(self.values@, self.values@.len() as int)
        &&& forall|k: int|
            1 <= k <= self.values@.len() ==> #[trigger] self.tree@[k] == prefix(self.values@, k)
                - prefix(self.values@, k - lowbit(k as nat))
    }

    /// Sum of all weights.
    pub open spec fn total(&self) -> int {
        prefix(self@, self@.len() as int)
    }

    /// A tree of `len` weights, all zero.
    pub fn with_len(len: usize) -> (r: Self)
        requires
            len < usize::MAX / 2,
        ensures
            r.wf(),
            r@ == Seq::new(len as nat, |i: int| 0u64),
    {
        let values: Vec<u64> = vec![0; len];
        let tree: Vec<u64> = vec![0; len + 1];
        let r = FenwickTree { values, tree, final_sum: 0 };
        proof {
            assert forall|k: int| 0 <= k <= len implies #[trigger] prefix(r.values@, k) == 0 by {
                lemma_prefix_zero(r.values@, k);
            }
            assert forall|k: int| 1 <= k <= len implies #[trigger] r.tree@[k] == prefix(
                r.values@,
                k,
            ) - prefix(r.values@, k - lowbit(k as nat)) by {
                lemma_lowbit_basics(k as nat);
            }
        }
        assert(r@ =~= Seq::new(len as nat, |i: int| 0u64));
        r
    }

    /// Length of the backing storage: one more than the number of weights.
    pub fn len(&self) -> (r: usize)
        requires
            self.wf(),
        ensures
            r == self@.len() + 1,
    {
        self.tree.len()
    }

    /// Sets the weight at `i` to `value`; fails when `i` is out of range.
    pub fn set(&mut self, i: usize, value: u64) -> (r: Result<(), GenericError>)
        requires
            old(self).wf(),
            i < old(self)@.len() ==> old(self).total() - old(self)@[i as int] + value
                <= u64::MAX,
        ensures
            final(self).wf(),
            r.is_ok() <==> i < old(self)@.len(),
            r.is_ok() ==> final(self)@ == old(self)@.update(i as int, value),
            r.is_err() ==> final(self)@ == old(self)@,
    {
        let size = self.tree.len();
        if i >= self.values.len() {
            return Err(GenericError);
        }
        let ghost old_vals = self.values@;
        let ghost p = i as int;
        let old_value = self.values[i];
        self.values.set(i, value);
        let ghost new_vals = self.values@;
        proof {
            assert forall|k: int| 0 <= k <= old_vals.len() implies #[trigger] prefix(new_vals, k)
                == prefix(old_vals, k) + if k > p {
                value - old_value
            } else {
                0
            } by {
                lemma_prefix_update(old_vals, p, value, k);
            }
            lemma_prefix_monotone(new_vals, 0, new_vals.len() as int);
            lemma_lowbit_basics((i + 1) as nat);
        }
        let mut k: usize = i + 1;
        while k < size
            invariant
                size == self.tree@.len(),
                size == old_vals.len() + 1,
                old_vals.len() < usize::MAX / 2,
                self.values@ == new_vals,
                self.final_sum == prefix(old_vals, old_vals.len() as int),
                0 <= p < k,
                k <= 2 * size,
                k < size ==> k - lowbit(k as nat) <= p,
                old_value == old_vals[p],
                new_vals == old_vals.update(p, value),
                prefix(old_vals, old_vals.len() as int) - old_value + value <= u64::MAX,
                forall|j: int| 0 <= j <= old_vals.len() ==> #[trigger] prefix(new_vals, j)
                    == prefix(old_vals, j) + if j > p {
                    value - old_value
                } else {
                    0
                },
                forall|j: int|
                    1 <= j < k && j < size ==> #[trigger] self.tree@[j] == prefix(new_vals, j)
                        - prefix(new_vals, j - lowbit(j as nat)),
                forall|j: int|
                    k <= j < size ==> #[trigger] self.tree@[j] == prefix(old_vals, j)
                        - prefix(old_vals, j - lowbit(j as nat)),
            decreases 2 * size - k,
        {
            proof {
                lemma_lowbit_basics(k as nat);
                lemma_prefix_monotone(new_vals, k - lowbit(k as nat), k as int);
                lemma_prefix_monotone(new_vals, k as int, new_vals.len() as int);
                lemma_prefix_monotone(new_vals, 0, k - lowbit(k as nat));
            }
            let t = self.tree[k];
            if value >= old_value {
                self.tree.set(k, t + (value - old_value));
            } else {
                self.tree.set(k, t - (old_value - value));
            }
            let ghost prev = k;
            k = next(k);
            proof {
                lemma_lowbit_next(prev as nat);
                assert forall|j: int| prev < j < k implies j - #[trigger] lowbit(j as nat) >= prev by {
                    lemma_lowbit_add_small(prev as nat, (j - prev) as nat);
                    lemma_lowbit_basics((j - prev) as nat);
                }
            }
        }
        if value >= old_value {
            self.final_sum = self.final_sum + (value - old_value);
        } else {
            self.final_sum = self.final_sum - (old_value - value);
        }
        proof {
            assert forall|j: int| 1 <= j <= new_vals.len() implies #[trigger] self.tree@[j]
                == prefix(new_vals, j) - prefix(new_vals, j - lowbit(j as nat)) by {
                lemma_lowbit_basics(j as nat);
            }
        }
        Ok(())
    }

    /// The weight at `i`; fails when `i` is out of range.
    pub fn get_value(&self, i: usize) -> (r: Result<u64, GenericError>)
        requires
            self.wf(),
        ensures
            r.is_ok() <==> i < self@.len(),
            r.is_ok() ==> r == Ok::<u64, GenericError>(self@[i as int]),
    {
        if i >= self.values.len() {
            return Err(GenericError);
        }
        Ok(self.values[i])
    }

    /// Sum of all weights.
    pub fn get_final_sum(&self) -> (r: u64)
        requires
            self.wf(),
        ensures
            r == self.total(),
    {
        self.final_sum
    }

    /// Sum of the weights `0..=i`; fails when `i` is out of range.
    pub fn get_sum(&self, i: usize) -> (r: Result<u64, GenericError>)
        requires
            self.wf(),
        ensures
            r.is_ok() <==> i < self@.len(),
            r.is_ok() ==> r.unwrap() == prefix(self@, i + 1),
    {
        if i >= self.values.len() {
            return Err(GenericError);
        }
        let ghost vals = self.values@;
        proof {
            lemma_prefix_monotone(vals, i + 1, vals.len() as int);
        }
        let mut res: u64 = 0;
        let mut k: usize = i + 1;
        while k > 0
            invariant
                self.wf(),
                vals == self.values@,
                k <= i + 1,
                i + 1 <= vals.len(),
                res + prefix(vals, k as int) == prefix(vals, i + 1),
                prefix(vals, i + 1) <= u64::MAX,
            decreases k,
        {
            proof {
                lemma_lowbit_basics(k as nat);
                lemma_prefix_monotone(vals, k - lowbit(k as nat), k as int);
                lemma_prefix_monotone(vals, 0, k - lowbit(k as nat));
            }
            res = res + self.tree[k];
            k = parent(k);
        }
        Ok(res)
    }

    /// The smallest index whose prefix sum (through that index) reaches `sum`;
    /// zero for a zero `sum`. Fails when `sum` exceeds the total.
    pub fn get_lower(&self, sum: u64) -> (r: Result<usize, GenericError>)
        requires
            self.wf(),
        ensures
            r.is_ok() <==> sum <= self.total(),
            r.is_ok() && sum == 0 ==> r == Ok::<usize, GenericError>(0),
            r.is_ok() && sum > 0 ==> ({
                let idx = r.unwrap() as int;
                &&& idx < self@.len()
                &&& prefix(self@, idx) < sum <= prefix(self@, idx + 1)
                &&& idx == lower_index(self@, sum as int)
            }),
    {
        let size = self.tree.len();
        if self.final_sum < sum {
            return Err(GenericError);
        }
        let ghost vals = self.values@;
        let ghost n = vals.len() as int;
        let mut mask: usize = 1;
        while mask <= size / 2
            invariant
                is_pow2(mask as nat),
                mask <= size,
                size == n + 1,
                n < usize::MAX / 2,
            decreases size - mask,
        {
            proof {
                lemma_pow2_double(mask as nat);
            }
            mask = mask * 2;
        }
        let mut rest = sum;
        let mut index: usize = 0;
        let ghost w: int = 2 * mask;
        while mask > 0
            invariant
                self.wf(),
                vals == self.values@,
                size == n + 1,
                n == vals.len(),
                sum <= prefix(vals, n),
                mask <= size,
                mask > 0 ==> is_pow2(mask as nat) && (index as int) % (2 * mask as int) == 0
                    && w == 2 * mask,
                mask == 0 ==> w == 1,
                index <= n,
                sum == 0 ==> index == 0 && rest == 0,
                sum > 0 ==> prefix(vals, index as int) < sum,
                rest == sum - prefix(vals, index as int),
                index + w <= n ==> prefix(vals, index + w) >= sum,
            decreases mask,
        {
            let candidate = index + mask;
            let ghost before = index;
            proof {
                if candidate <= n {
                    lemma_lowbit_aligned(index as nat, mask as nat);
                    lemma_prefix_monotone(vals, index as int, candidate as int);
                }
            }
            if candidate < size && self.tree[candidate] < rest {
                rest = rest - self.tree[candidate];
                index = candidate;
            }
            proof {
                if mask > 1 {
                    assert(mask % 2 == 0) by {
                        if mask % 2 == 1 {
                            assert(lowbit(mask as nat) == 1);
                        }
                    }
                    assert(lowbit((mask / 2) as nat) == mask / 2);
                    lemma_aligned_half(before as int, mask as int);
                }
                w = mask as int;
            }
            mask = mask / 2;
        }
        proof {
            if sum > 0 {
                if index == n {
                    assert(false);
                }
                lemma_lower_index_unique(vals, sum as int, index as int);
            }
        }
        Ok(index)
    }

    /// The prefix sums through each index.
    pub fn get_sums(&self) -> (r: Result<Vec<u64>, GenericError>)
        requires
            self.wf(),
        ensures
            r.is_ok(),
            r.is_ok() ==> ({
                let v = r.unwrap()@;
                &&& v.len() == self@.len()
                &&& forall|i: int| 0 <= i < v.len() ==> v[i] == prefix(self@, i + 1)
            }),
    {
        let n = self.values.len();
        let mut res: Vec<u64> = Vec::new();
        let mut i: usize = 0;
        while i < n
            invariant
                self.wf(),
                n == self@.len(),
                i <= n,
                res@.len() == i,
                forall|j: int| 0 <= j < i ==> res@[j] == prefix(self@, j + 1),
            decreases n - i,
        {
            proof {
                lemma_prefix_monotone(self@, i + 1, n as int);
            }
            let s = self.get_sum(i);
            match s {
                Ok(v) => res.push(v),
                Err(e) => return Err(e),
            }
            i = i + 1;
        }
        Ok(res)
    }
}

pub proof fn lemma_prefix_zero(s: Seq<u64>, k: int)
    requires
        0 <= k <= s.len(),
        forall|j: int| 0 <= j < s.len() ==> s[j] == 0,
    ensures
        prefix(s, k) == 0,
    decreases k,
{
    if k > 0 {
        lemma_prefix_zero(s, k - 1);
    }
}

proof fn lemma_aligned_half(b: int, m: int)
    requires
        m > 0,
        b >= 0,
        b % (2 * m) == 0,
    ensures
        b % m == 0,
        (b + m) % m == 0,
{
    let q = b / (2 * m);
    vstd::arithmetic::div_mod::lemma_fundamental_div_mod(b, 2 * m);
    assert(b == (2 * q) * m) by (nonlinear_arith)
        requires
            b == (2 * m) * q,
    ;
    vstd::arithmetic::div_mod::lemma_mod_multiples_basic(2 * q, m);
    assert(b + m == (2 * q + 1) * m) by (nonlinear_arith)
        requires
            b == (2 * q) * m,
    ;
    vstd::arithmetic::div_mod::lemma_mod_multiples_basic(2 * q + 1, m);
}

proof fn lemma_pow2_double(m: nat)
    requires
        is_pow2(m),
    ensures
        is_pow2(2 * m),
{
    assert((2 * m) % 2 == 0);
    assert((2 * m) / 2 == m);
}

} // verus!
