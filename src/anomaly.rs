use vstd::prelude::*;

verus! {

/// Groups with at most this many purchases are never flagged.
pub const PURCHASES_REQUIRED: u32 = 4;

/// The z-score threshold 2.5, as numerator over denominator.
pub const ZSCORE_THRESH_NUM: u8 = 5;

pub const ZSCORE_THRESH_DEN: u8 = 2;

pub open spec fn sum_of(s: Seq<i32>) -> int
    decreases s.len(),
{
    if s.len() == 0 {
        0
    } else {
        sum_of(s.drop_last()) + s.last()
    }
}

pub open spec fn sum_sq_of(s: Seq<i32>) -> int
    decreases s.len(),
{
    if s.len() == 0 {
        0
    } else {
        sum_sq_of(s.drop_last()) + s.last() * s.last()
    }
}

/// Whether `x` lies more than `num / den` population standard deviations from
/// the mean of a group of `n` samples with sum `sum` and sum of squares `sq`,
/// the group having more than `min_count` samples. With mean `sum / n` and
/// variance `(n * sq - sum * sum) / n^2`, `|x - mean| / std > num / den` reads
/// `den^2 * (n * x - sum)^2 > num^2 * (n * sq - sum^2)`. A group whose
/// deviation is zero has no z-score and flags nothing.
pub open spec fn outlier(n: int, sum: int, sq: int, x: int, min_count: int, num: int, den: int) -> bool {
    &&& n > min_count
    &&& n * sq - sum * sum > 0
    &&& den * den * ((n * x - sum) * (n * x - sum)) > num * num * (n * sq - sum * sum)
}

/// Whether sample `x` of group `s` is an outlier.
pub open spec fn outlier_in(s: Seq<i32>, x: int, min_count: int, num: int, den: int) -> bool {
    outlier(s.len() as int, sum_of(s), sum_sq_of(s), x, min_count, num, den)
}

/// Largest group the exact arithmetic below handles.
pub const MAX_GROUP: usize = 1048576;

proof fn lemma_mul_bound(a: int, b: int, amax: int, bmax: int)
    requires
        0 <= a <= amax,
        -bmax <= b <= bmax,
    ensures
        -(amax * bmax) <= a * b <= amax * bmax,
{
    assert(-(amax * bmax) <= a * b <= amax * bmax) by (nonlinear_arith)
        requires
            0 <= a <= amax,
            -bmax <= b <= bmax,
    ;
}

proof fn lemma_square_bound(a: int)
    requires
        -2147483648 <= a <= 2147483647,
    ensures
        0 <= a * a <= 0x4000_0000_0000_0000,
{
    assert(0 <= a * a <= 0x4000_0000_0000_0000) by (nonlinear_arith)
        requires
            -2147483648 <= a <= 2147483647,
    ;
}

/// For each sample of one account-and-merchant group, whether it is an outlier.
/// Amounts are whole numbers of the currency's smallest unit (a `Decimal` at a
/// common scale).
pub fn flag_outliers(amounts: &Vec<i32>, min_count: u32, num: u8, den: u8) -> (r: Vec<bool>)
    requires
        amounts@.len() <= MAX_GROUP,
    ensures
        r@.len() == amounts@.len(),
        forall|i: int|
            0 <= i < r@.len() ==> #[trigger] r@[i] == outlier_in(
                amounts@,
                amounts@[i] as int,
                min_count as int,
                num as int,
                den as int,
            ),
{
    let mut sum: i128 = 0;
    let mut sq: i128 = 0;
    let mut i: usize = 0;
    while i < amounts.len()
        invariant
            0 <= i <= amounts@.len() <= MAX_GROUP,
            sum == sum_of(amounts@.take(i as int)),
            sq == sum_sq_of(amounts@.take(i as int)),
            -(i as int) * 0x8000_0000 <= sum <= (i as int) * 0x8000_0000,
            0 <= sq <= (i as int) * 0x4000_0000_0000_0000,
        decreases amounts.len() - i,
    {
        let a = amounts[i];
        proof {
            assert(amounts@.take(i as int + 1).drop_last() =~= amounts@.take(i as int));
            lemma_square_bound(a as int);
            assert((i as int + 1) * 0x8000_0000 == (i as int) * 0x8000_0000 + 0x8000_0000);
            assert((i as int + 1) * 0x4000_0000_0000_0000 == (i as int) * 0x4000_0000_0000_0000
                + 0x4000_0000_0000_0000);
        }
        sum = sum + a as i128;
        sq = sq + (a as i128) * (a as i128);
        i = i + 1;
    }
    assert(amounts@.take(i as int) =~= amounts@);
    let n = amounts.len() as i128;
    let mut out: Vec<bool> = Vec::new();
    if amounts.len() <= min_count as usize {
        while out.len() < amounts.len()
            invariant
                out@.len() <= amounts@.len(),
                amounts@.len() <= min_count,
                forall|j: int| 0 <= j < out@.len() ==> #[trigger] out@[j] == false,
            decreases amounts.len() - out.len(),
        {
            out.push(false);
        }
        return out;
    }
    proof {
        assert(n * sq <= 0x10_0000 * (0x10_0000 * 0x4000_0000_0000_0000)) by (nonlinear_arith)
            requires
                0 <= n <= 0x10_0000,
                0 <= sq <= n * 0x4000_0000_0000_0000,
        ;
        assert(sum * sum <= 0x10_0000 * 0x8000_0000 * 0x10_0000 * 0x8000_0000) by (nonlinear_arith)
            requires
                -n * 0x8000_0000 <= sum <= n * 0x8000_0000,
                0 <= n <= 0x10_0000,
        ;
        assert(sum * sum >= 0) by (nonlinear_arith);
        assert(n * sq >= 0) by (nonlinear_arith)
            requires
                n >= 0,
                sq >= 0,
        ;
    }
    let var = n * sq - sum * sum;
    proof {
        assert(var <= 0x10_0000 * (0x10_0000 * 0x4000_0000_0000_0000));
        assert(var >= -(0x10_0000 * 0x8000_0000 * 0x10_0000 * 0x8000_0000));
    }
    proof {
        assert(0 <= (num as int) * (num as int) <= 255 * 255 && 0 <= (den as int) * (den as int)
            <= 255 * 255) by (nonlinear_arith)
            requires
                0 <= num <= 255,
                0 <= den <= 255,
        ;
    }
    let num2: i128 = (num as i128) * (num as i128);
    let den2: i128 = (den as i128) * (den as i128);
    proof {
        assert(0 <= num2 <= 255 * 255 && 0 <= den2 <= 255 * 255) by (nonlinear_arith)
            requires
                num2 == (num as int) * (num as int),
                den2 == (den as int) * (den as int),
                0 <= num <= 255,
                0 <= den <= 255,
        ;
        assert(-0x4000_0000_0000_0000_0000_0000_0000 <= var <= 0x4000_0000_0000_0000_0000_0000_0000);
        lemma_mul_bound(num2 as int, var as int, 65025, 0x4000_0000_0000_0000_0000_0000_0000);
    }
    let limit = num2 * var;
    let mut j: usize = 0;
    while j < amounts.len()
        invariant
            0 <= j <= amounts@.len() <= MAX_GROUP,
            out@.len() == j,
            n == amounts@.len(),
            n > min_count,
            sum == sum_of(amounts@),
            sq == sum_sq_of(amounts@),
            var == n * sq - sum * sum,
            limit == (num as int) * (num as int) * var,
            den2 == (den as int) * (den as int),
            0 <= den2 <= 255 * 255,
            -n * 0x8000_0000 <= sum <= n * 0x8000_0000,
            forall|k: int|
                0 <= k < j ==> #[trigger] out@[k] == outlier_in(
                    amounts@,
                    amounts@[k] as int,
                    min_count as int,
                    num as int,
                    den as int,
                ),
        decreases amounts.len() - j,
    {
        let x = amounts[j] as i128;
        proof {
            assert(-0x10_0000 * 0x8000_0000 <= n * x <= 0x10_0000 * 0x8000_0000) by (nonlinear_arith)
                requires
                    0 <= n <= 0x10_0000,
                    -0x8000_0000 <= x < 0x8000_0000,
            ;
        }
        let d = n * x - sum;
        proof {
            assert(0 <= d * d <= 0x20_0000 * 0x8000_0000 * 0x20_0000 * 0x8000_0000) by (nonlinear_arith)
                requires
                    -0x20_0000 * 0x8000_0000 <= d <= 0x20_0000 * 0x8000_0000,
            ;
            assert(0 <= den2 * (d * d) <= 255 * 255 * (0x20_0000 * 0x8000_0000 * 0x20_0000
                * 0x8000_0000)) by (nonlinear_arith)
                requires
                    0 <= d * d <= 0x20_0000 * 0x8000_0000 * 0x20_0000 * 0x8000_0000,
                    0 <= den2 <= 255 * 255,
            ;
            assert(den2 * (d * d) == (den as int) * (den as int) * ((n * x - sum) * (n * x - sum)));
        }
        let flag = var > 0 && den2 * (d * d) > limit;
        out.push(flag);
        j = j + 1;
    }
    out
}

} // verus!
