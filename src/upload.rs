use vstd::prelude::*;
use crate::number::Decimal;
use crate::purchase::Purchase;

verus! {

/// Number of chunks that `len` records take, `size` to a chunk.
pub open spec fn chunk_count(len: int, size: int) -> int {
    (len + size - 1) / size
}

/// Start and end (exclusive) of chunk `k`.
pub open spec fn chunk_bounds(len: int, size: int, k: int) -> (int, int) {
    (k * size, if (k + 1) * size < len { (k + 1) * size } else { len })
}

/// Records per bulk statement for a given parameter ceiling and record width.
pub fn chunk_size(max_bound_parameters: usize, fields_per_record: usize) -> (r: usize)
    requires
        fields_per_record > 0,
    ensures
        r == max_bound_parameters / fields_per_record,
{
    max_bound_parameters / fields_per_record
}

/// Splits `0..len` into consecutive ranges of `size` records, the last one
/// possibly shorter.
pub fn chunk_ranges(len: usize, size: usize) -> (r: Vec<(usize, usize)>)
    requires
        size > 0,
    ensures
        r@.len() == chunk_count(len as int, size as int),
        forall|k: int|
            0 <= k < r@.len() ==> (#[trigger] r@[k]).0 == chunk_bounds(len as int, size as int, k).0
                && r@[k].1 == chunk_bounds(len as int, size as int, k).1,
{
    let mut out: Vec<(usize, usize)> = Vec::new();
    let mut start: usize = 0;
    assert(out@.len() * size == 0);
    while start < len
        invariant
            size > 0,
            start <= len,
            out@.len() == 0 || (out@.len() - 1) * size < len,
            start < len ==> start == out@.len() * size,
            start == len ==> out@.len() * size >= len,
            forall|k: int|
                0 <= k < out@.len() ==> (#[trigger] out@[k]).0 == chunk_bounds(
                    len as int,
                    size as int,
                    k,
                ).0 && out@[k].1 == chunk_bounds(len as int, size as int, k).1,
        decreases len - start,
    {
        let ghost k = out@.len() as int;
        let end: usize = if len - start > size { start + size } else { len };
        proof {
            assert((k + 1) * size == k * size + size) by (nonlinear_arith);
        }
        out.push((start, end));
        start = end;
    }
    proof {
        let n = out@.len() as int;
        let l = len as int;
        let s = size as int;
        if n == 0 {
            assert(l == 0);
            assert((l + s - 1) / s == 0) by (nonlinear_arith)
                requires
                    l == 0,
                    s > 0,
            ;
        } else {
            assert((n - 1) * s < l && l <= n * s);
            assert((l + s - 1) / s == n) by (nonlinear_arith)
                requires
                    (n - 1) * s < l,
                    l <= n * s,
                    s > 0,
            ;
        }
    }
    out
}

/// Chunks cover `0..len` in order: each record falls in exactly one chunk,
/// chunks follow one another without gap, and each holds between one and
/// `size` records.
pub proof fn lemma_chunks_partition(len: int, size: int, i: int)
    requires
        size > 0,
        0 <= i < len,
    ensures
        0 <= i / size < chunk_count(len, size),
        chunk_bounds(len, size, i / size).0 <= i < chunk_bounds(len, size, i / size).1,
        forall|k: int|
            0 <= k < chunk_count(len, size) && #[trigger] chunk_bounds(len, size, k).0 <= i
                < chunk_bounds(len, size, k).1 ==> k == i / size,
        forall|k: int|
            0 <= k < chunk_count(len, size) ==> 1 <= #[trigger] chunk_bounds(len, size, k).1
                - chunk_bounds(len, size, k).0 <= size,
        forall|k: int|
            0 <= k < chunk_count(len, size) - 1 ==> #[trigger] chunk_bounds(len, size, k).1
                == chunk_bounds(len, size, k + 1).0,
        chunk_bounds(len, size, 0).0 == 0,
        chunk_bounds(len, size, chunk_count(len, size) - 1).1 == len,
{
    let q = i / size;
    let n = chunk_count(len, size);
    assert(q * size <= i < (q + 1) * size) by (nonlinear_arith)
        requires
            q == i / size,
            size > 0,
            i >= 0,
    ;
    assert(0 <= q < n) by (nonlinear_arith)
        requires
            q == i / size,
            n == (len + size - 1) / size,
            size > 0,
            0 <= i < len,
    ;
    assert forall|k: int|
        0 <= k < n && #[trigger] chunk_bounds(len, size, k).0 <= i < chunk_bounds(
            len,
            size,
            k,
        ).1 implies k == q by {
        assert(k * size <= i < (k + 1) * size);
        assert(k == q) by (nonlinear_arith)
            requires
                k * size <= i < (k + 1) * size,
                q * size <= i < (q + 1) * size,
                size > 0,
        ;
    }
    assert forall|k: int| 0 <= k < n implies 1 <= #[trigger] chunk_bounds(len, size, k).1
        - chunk_bounds(len, size, k).0 <= size by {
        assert(k * size < len) by (nonlinear_arith)
            requires
                0 <= k < n,
                n == (len + size - 1) / size,
                size > 0,
        ;
        assert((k + 1) * size == k * size + size) by (nonlinear_arith);
    }
    assert forall|k: int| 0 <= k < n - 1 implies #[trigger] chunk_bounds(len, size, k).1
        == chunk_bounds(len, size, k + 1).0 by {
        assert((k + 2) * size <= len + size - 1 + size) by (nonlinear_arith)
            requires
                0 <= k < n - 1,
                n == (len + size - 1) / size,
                size > 0,
        ;
        assert((k + 1) * size < len) by (nonlinear_arith)
            requires
                0 <= k < n - 1,
                n == (len + size - 1) / size,
                size > 0,
        ;
    }
    assert(len <= n * size) by (nonlinear_arith)
        requires
            n == (len + size - 1) / size,
            size > 0,
            len > 0,
    ;
    assert((n - 1 + 1) * size == n * size);
}

/// One value bound into a bulk statement.
#[derive(Clone, Debug)]
pub enum BindValue {
    Int(i64),
    Amount(Decimal),
    Text(String),
}

/// The values a purchase binds, in the column order account_number,
/// purchase_datetime, purchase_amount, post_date, purchase_number,
/// merchant_number, merchant_name, merchant_state, merchant_category_code.
pub fn bind_values(p: &Purchase) -> (r: Vec<BindValue>)
    ensures
        r@.len() == 9,
        r@[0] == BindValue::Int(p.account_number as i64),
        r@[1] matches BindValue::Text(t) && t@ == p.transaction_datetime@,
        r@[2] == BindValue::Amount(p.transaction_amount),
        r@[3] matches BindValue::Text(t) && t@ == p.post_date@,
        r@[4] == BindValue::Int(p.transaction_number as i64),
        r@[5] matches BindValue::Text(t) && t@ == p.merchant_number@,
        r@[6] matches BindValue::Text(t) && t@ == p.merchant_description.merchant_name@,
        r@[7] matches BindValue::Text(t) && t@ == p.merchant_description.merchant_state@,
        r@[8] == BindValue::Int(p.merchant_category_code as i64),
{
    let mut v: Vec<BindValue> = Vec::new();
    v.push(BindValue::Int(p.account_number as i64));
    v.push(BindValue::Text(p.transaction_datetime.clone()));
    v.push(BindValue::Amount(p.transaction_amount));
    v.push(BindValue::Text(p.post_date.clone()));
    v.push(BindValue::Int(p.transaction_number as i64));
    v.push(BindValue::Text(p.merchant_number.clone()));
    v.push(BindValue::Text(p.merchant_description.merchant_name.clone()));
    v.push(BindValue::Text(p.merchant_description.merchant_state.clone()));
    v.push(BindValue::Int(p.merchant_category_code as i64));
    v
}

/// A chunk's statement failed; `chunk` is its place among the outcomes.
#[derive(Clone, Debug)]
pub struct UploadError {
    pub chunk: usize,
    pub message: String,
}

/// Joins the outcomes of all chunks: success when every chunk succeeded,
/// else the first failure in the order given. Nothing is undone.
pub fn first_failure(outcomes: &Vec<Result<u64, String>>) -> (r: Result<(), UploadError>)
    ensures
        r is Ok <==> forall|k: int| 0 <= k < outcomes@.len() ==> (#[trigger] outcomes@[k]) is Ok,
        r matches Err(e) ==> {
            &&& e.chunk < outcomes@.len()
            &&& outcomes@[e.chunk as int] is Err
            &&& outcomes@[e.chunk as int]->Err_0@ == e.message@
            &&& forall|k: int| 0 <= k < e.chunk ==> (#[trigger] outcomes@[k]) is Ok
        },
{
    let mut i: usize = 0;
    while i < outcomes.len()
        invariant
            0 <= i <= outcomes@.len(),
            forall|k: int| 0 <= k < i ==> (#[trigger] outcomes@[k]) is Ok,
        decreases outcomes.len() - i,
    {
        match &outcomes[i] {
            Ok(_) => {},
            Err(m) => {
                return Err(UploadError { chunk: i, message: m.clone() });
            },
        }
        i = i + 1;
    }
    Ok(())
}

} // verus!
