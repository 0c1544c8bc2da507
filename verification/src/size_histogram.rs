//! Bucketed counter of frame sizes.
//!
//! Sizes are grouped by their order of magnitude in base two. The histogram
//! only ever grows: nothing is evicted and nothing decays.

use vstd::arithmetic::power2::{
    lemma2_to64, lemma_pow2_pos, lemma_pow2_strictly_increases, lemma_pow2_unfold, pow2,
};
use vstd::prelude::*;
use vstd::string::StringExecFns;

verus! {

/// Number of buckets: one for size 0 and one for each bit length from 1 to 64.
pub const BUCKETS: usize = 65;

/// The bucket a size falls into: bucket 0 holds only size 0, and bucket `k`
/// for `k >= 1` holds the sizes that are `k` bits long, that is the sizes from
/// `2^(k-1)` up to `2^k - 1`.
pub open spec fn bucket_of(size: nat) -> nat
    decreases size,
{
    if size == 0 {
        0
    } else {
        1 + bucket_of(size / 2)
    }
}

/// Smallest size of bucket `k`.
pub open spec fn bucket_low(k: nat) -> nat {
    if k == 0 {
        0
    } else {
        pow2((k - 1) as nat)
    }
}

/// Largest size of bucket `k`.
pub open spec fn bucket_high(k: nat) -> nat {
    if k == 0 {
        0
    } else {
        (pow2(k) - 1) as nat
    }
}

/// The counts after one more observation of `size`: the count of the
/// size's bucket is one higher, the others are as they were.
pub open spec fn recorded(counts: Seq<nat>, size: nat) -> Seq<nat> {
    counts.update(bucket_of(size) as int, counts[bucket_of(size) as int] + 1)
}

/// The counts after observations of `sizes`, one after the other.
pub open spec fn recorded_all(counts: Seq<nat>, sizes: Seq<nat>) -> Seq<nat>
    decreases sizes.len(),
{
    if sizes.len() == 0 {
        counts
    } else {
        recorded_all(recorded(counts, sizes.first()), sizes.drop_first())
    }
}

/// Sum of all counts.
pub open spec fn sum(counts: Seq<nat>) -> nat
    decreases counts.len(),
{
    if counts.len() == 0 {
        0
    } else {
        sum(counts.drop_last()) + counts.last()
    }
}

/// The decimal digit `d` as a one-character string.
pub open spec fn digit(d: nat) -> Seq<char> {
    if d == 0 {
        "0"@
    } else if d == 1 {
        "1"@
    } else if d == 2 {
        "2"@
    } else if d == 3 {
        "3"@
    } else if d == 4 {
        "4"@
    } else if d == 5 {
        "5"@
    } else if d == 6 {
        "6"@
    } else if d == 7 {
        "7"@
    } else if d == 8 {
        "8"@
    } else {
        "9"@
    }
}

/// Decimal notation of `n`, without leading zeros.
pub open spec fn decimal(n: nat) -> Seq<char>
    decreases n,
{
    if n < 10 {
        digit(n)
    } else {
        decimal(n / 10) + digit(n % 10)
    }
}

/// The summary line of bucket `k` holding `count` sizes:
/// the bucket's range, a colon and the count, ended by a newline.
pub open spec fn summary_line(k: nat, count: nat) -> Seq<char> {
    decimal(bucket_low(k)) + "..="@ + decimal(bucket_high(k)) + ": "@ + decimal(count) + "\n"@
}

/// The summary lines of the first `n` buckets, in ascending order. Empty
/// buckets have no line.
pub open spec fn summary_text(counts: Seq<nat>, n: nat) -> Seq<char>
    decreases n,
{
    if n == 0 {
        Seq::empty()
    } else {
        let k = (n - 1) as nat;
        if counts[k as int] > 0 {
            summary_text(counts, k) + summary_line(k, counts[k as int])
        } else {
            summary_text(counts, k)
        }
    }
}

/// A size below `2^b` falls into bucket `b` or a lower one.
pub proof fn lemma_bucket_bound(size: nat, b: nat)
    requires
        size < pow2(b),
    ensures
        bucket_of(size) <= b,
    decreases size,
{
    if size > 0 {
        if b == 0 {
            lemma2_to64();
        } else {
            lemma_pow2_unfold(b);
            lemma_bucket_bound(size / 2, (b - 1) as nat);
        }
    }
}

/// Every size lies within the range of its bucket, and in no other bucket's:
/// `bucket_of(size) == k` exactly when `bucket_low(k) <= size <= bucket_high(k)`.
pub proof fn lemma_bucket_range(size: nat, k: nat)
    ensures
        bucket_of(size) == k <==> bucket_low(k) <= size <= bucket_high(k),
    decreases size,
{
    lemma2_to64();
    if k > 0 {
        lemma_pow2_unfold(k);
        lemma_pow2_pos((k - 1) as nat);
    }
    if size == 0 {
    } else if k == 0 {
    } else if k == 1 {
        assert(bucket_of(size / 2) == 0 <==> size / 2 == 0);
    } else {
        let half_low = bucket_low((k - 1) as nat);
        let half_high = bucket_high((k - 1) as nat);
        lemma_bucket_range(size / 2, (k - 1) as nat);
        lemma_pow2_unfold((k - 1) as nat);
        assert(bucket_low(k) == 2 * half_low);
        assert(bucket_high(k) == 2 * half_high + 1);
    }
}

proof fn lemma_sum_update(counts: Seq<nat>, i: int, v: nat)
    requires
        0 <= i < counts.len(),
    ensures
        sum(counts.update(i, v)) + counts[i] == sum(counts) + v,
        counts[i] <= sum(counts),
    decreases counts.len(),
{
    let updated = counts.update(i, v);
    if i == counts.len() - 1 {
        assert(updated.drop_last() =~= counts.drop_last());
    } else {
        assert(updated.drop_last() =~= counts.drop_last().update(i, v));
        lemma_sum_update(counts.drop_last(), i, v);
    }
}

proof fn lemma_sum_zeros(counts: Seq<nat>)
    requires
        forall|i: int| 0 <= i < counts.len() ==> counts[i] == 0,
    ensures
        sum(counts) == 0,
    decreases counts.len(),
{
    if counts.len() > 0 {
        lemma_sum_zeros(counts.drop_last());
    }
}

/// Computes the bucket of `size`.
pub fn bucket_index(size: usize) -> (k: usize)
    ensures
        k == bucket_of(size as nat),
        k < BUCKETS,
{
    proof {
        lemma2_to64();
        lemma_bucket_bound(size as nat, 64);
    }
    let mut rest: usize = size;
    let mut k: usize = 0;
    while rest != 0
        invariant
            k + bucket_of(rest as nat) == bucket_of(size as nat),
            bucket_of(size as nat) <= 64,
        decreases rest,
    {
        rest = rest / 2;
        k = k + 1;
    }
    k
}

fn digit_str(d: u64) -> (s: &'static str)
    requires
        d < 10,
    ensures
        s@ == digit(d as nat),
{
    if d == 0 {
        "0"
    } else if d == 1 {
        "1"
    } else if d == 2 {
        "2"
    } else if d == 3 {
        "3"
    } else if d == 4 {
        "4"
    } else if d == 5 {
        "5"
    } else if d == 6 {
        "6"
    } else if d == 7 {
        "7"
    } else if d == 8 {
        "8"
    } else {
        "9"
    }
}

/// Appends the decimal notation of `n` to `out`.
pub fn push_decimal(out: &mut String, n: u64)
    ensures
        final(out)@ == old(out)@ + decimal(n as nat),
    decreases n,
{
    if n >= 10 {
        push_decimal(out, n / 10);
    }
    out.append(digit_str(n % 10));
}

/// How the bounds of a bucket relate to each other and to those of the next
/// bucket: each bucket but the first begins where the one before it ended,
/// and is twice as wide.
pub proof fn lemma_bucket_bounds(k: nat)
    requires
        k < BUCKETS,
    ensures
        bucket_low(0) == 0 && bucket_high(0) == 0 && bucket_low(1) == 1,
        bucket_high(k) <= u64::MAX,
        k > 0 ==> 1 <= bucket_low(k) <= 0x8000_0000_0000_0000 && bucket_high(k) == bucket_low(k)
            - 1 + bucket_low(k),
        0 < k < 64 ==> bucket_low(k + 1) == 2 * bucket_low(k) && bucket_low(k)
            <= 0x4000_0000_0000_0000,
{
    lemma2_to64();
    lemma_pow2_unfold(64);
    lemma_pow2_unfold(63);
    lemma_pow2_unfold(k + 1);
    if k > 0 {
        lemma_pow2_unfold(k);
        lemma_pow2_pos((k - 1) as nat);
        if k < 63 {
            lemma_pow2_strictly_increases((k - 1) as nat, 62);
        }
    }
}

/// Appends the summary line of the bucket from `low` to `high` that holds
/// `count` sizes.
fn push_summary_line(text: &mut String, low: u64, high: u64, count: u64)
    ensures
        final(text)@ == old(text)@ + (decimal(low as nat) + "..="@ + decimal(high as nat) + ": "@
            + decimal(count as nat) + "\n"@),
{
    push_decimal(text, low);
    text.append("..=");
    push_decimal(text, high);
    text.append(": ");
    push_decimal(text, count);
    text.append("\n");
    assert(text@ =~= old(text)@ + (decimal(low as nat) + "..="@ + decimal(high as nat) + ": "@
        + decimal(count as nat) + "\n"@));
}

/// Counts of observed sizes, one count per bucket, and their total.
pub struct SizeHistogram {
    counts: Vec<usize>,
    total: usize,
}

impl View for SizeHistogram {
    type V = Seq<nat>;

    /// The count of each bucket, by bucket number.
    closed spec fn view(&self) -> Seq<nat> {
        Seq::new(self.counts@.len(), |k: int| self.counts@[k] as nat)
    }
}

impl SizeHistogram {
    /// Validity: there is one count for each bucket, and the total is the sum
    /// of the counts.
    pub closed spec fn wf(&self) -> bool {
        &&& self.counts@.len() == BUCKETS
        &&& sum(self@) == self.total
    }

    /// Number of sizes recorded so far.
    pub closed spec fn total(&self) -> nat {
        self.total as nat
    }

    /// A valid histogram has one count per bucket, and the counts add up to
    /// the total.
    pub proof fn lemma_total_is_sum(&self)
        requires
            self.wf(),
        ensures
            self@.len() == BUCKETS,
            sum(self@) == self.total(),
    {
    }

    /// An empty histogram.
    pub fn new() -> (h: SizeHistogram)
        ensures
            h.wf(),
            h.total() == 0,
            h@ == Seq::new(BUCKETS as nat, |k: int| 0nat),
    {
        let mut counts: Vec<usize> = Vec::new();
        while counts.len() < BUCKETS
            invariant
                counts@.len() <= BUCKETS,
                forall|i: int| 0 <= i < counts@.len() ==> counts@[i] == 0,
            decreases BUCKETS - counts@.len(),
        {
            counts.push(0);
        }
        let h = SizeHistogram { counts, total: 0 };
        proof {
            lemma_sum_zeros(h@);
            assert(h@ =~= Seq::new(BUCKETS as nat, |k: int| 0nat));
        }
        h
    }

    /// Records one observation of `size`: the count of its bucket and the
    /// total each grow by one, and no other count changes.
    pub fn incr(&mut self, size: usize)
        requires
            old(self).wf(),
            old(self).total() < usize::MAX,
        ensures
            final(self).wf(),
            final(self).total() == old(self).total() + 1,
            final(self)@ == recorded(old(self)@, size as nat),
    {
        let k: usize = bucket_index(size);
        let ghost before = self@;
        proof {
            lemma_sum_update(before, k as int, before[k as int] + 1);
        }
        let count: usize = self.counts[k];
        self.counts.set(k, count + 1);
        self.total = self.total + 1;
        proof {
            assert(self@ =~= before.update(k as int, before[k as int] + 1));
        }
    }

    /// Number of sizes recorded so far.
    pub fn len(&self) -> (n: usize)
        ensures
            n == self.total(),
    {
        self.total
    }

    /// The count of bucket `k`.
    pub fn count(&self, k: usize) -> (n: usize)
        requires
            self.wf(),
            k < BUCKETS,
        ensures
            n == self@[k as int],
    {
        self.counts[k]
    }

    /// Renders the non-empty buckets in ascending order, one line each.
    pub fn summary(&self) -> (text: String)
        requires
            self.wf(),
        ensures
            text@ == summary_text(self@, BUCKETS as nat),
    {
        let mut text: String = String::new();
        let mut k: usize = 0;
        let mut low: u64 = 0;
        while k < BUCKETS
            invariant
                self.wf(),
                k <= BUCKETS,
                k < BUCKETS ==> low == bucket_low(k as nat),
                text@ == summary_text(self@, k as nat),
            decreases BUCKETS - k,
        {
            proof {
                lemma_bucket_bounds(k as nat);
            }
            let count: usize = self.counts[k];
            if count > 0 {
                let high: u64 = if k == 0 {
                    0
                } else {
                    low - 1 + low
                };
                push_summary_line(&mut text, low, high, count as u64);
            }
            if k == 0 {
                low = 1;
            } else if k < 64 {
                low = low + low;
            }
            k = k + 1;
        }
        text
    }
}

} // verus!
