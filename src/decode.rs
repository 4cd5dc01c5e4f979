use vstd::prelude::*;
use crate::number::{Decimal, decimal_of, integer_of, parse_decimal, parse_signed};
use crate::text::{alphabetic, chars_of, is_alpha, is_space, string_of, white_space};

verus! {

/// Why a field could not be decoded.
#[derive(Clone, Copy, Debug, PartialEq, Eq)]
pub enum DecodeError {
    DateFormat,
    DatetimeFormat,
    AmountFormat,
    MerchantDescription,
    IntegerFormat,
    MissingColumn,
}

/// The integer read from `s` when it lies in `lo..=hi`.
pub open spec fn integer_in(s: Seq<char>, lo: int, hi: int) -> Option<int> {
    match integer_of(s) {
        Some(v) => if lo <= v <= hi { Some(v) } else { None },
        None => None,
    }
}

/// Reads an integer field (decimal, or hexadecimal after `0x`) whose magnitude
/// fits in 63 bits.
fn parse_integer(s: &[char]) -> (r: Option<i64>)
    ensures
        r is Some ==> integer_of(s@) == Some(r->0 as int),
        r is None ==> integer_in(s@, -(i64::MAX as int), i64::MAX as int) is None,
{
    if s.len() >= 2 && s[0] == '0' && s[1] == 'x' {
        let digits = &s[2..s.len()];
        assert(digits@ =~= s@.subrange(2, s@.len() as int));
        parse_signed(digits, 16)
    } else {
        parse_signed(s, 10)
    }
}

pub open spec fn i32_of(s: Seq<char>) -> Result<i32, DecodeError> {
    match integer_in(s, i32::MIN as int, i32::MAX as int) {
        Some(v) => Ok(v as i32),
        None => Err(DecodeError::IntegerFormat),
    }
}

pub open spec fn i16_of(s: Seq<char>) -> Result<i16, DecodeError> {
    match integer_in(s, i16::MIN as int, i16::MAX as int) {
        Some(v) => Ok(v as i16),
        None => Err(DecodeError::IntegerFormat),
    }
}

/// Reads a 32-bit integer field.
pub fn decode_i32(s: &str) -> (r: Result<i32, DecodeError>)
    ensures
        r == i32_of(s@),
{
    let v = chars_of(s);
    match parse_integer(v.as_slice()) {
        Some(n) => {
            if i32::MIN as i64 <= n && n <= i32::MAX as i64 {
                Ok(n as i32)
            } else {
                Err(DecodeError::IntegerFormat)
            }
        },
        None => Err(DecodeError::IntegerFormat),
    }
}

/// Reads a 16-bit integer field.
pub fn decode_i16(s: &str) -> (r: Result<i16, DecodeError>)
    ensures
        r == i16_of(s@),
{
    let v = chars_of(s);
    match parse_integer(v.as_slice()) {
        Some(n) => {
            if i16::MIN as i64 <= n && n <= i16::MAX as i64 {
                Ok(n as i16)
            } else {
                Err(DecodeError::IntegerFormat)
            }
        },
        None => Err(DecodeError::IntegerFormat),
    }
}

/// A signed amount: the magnitude followed by a trailing `-`, read as negative.
pub open spec fn signed_amount_of(s: Seq<char>) -> Result<Decimal, DecodeError> {
    if s.len() == 0 || s.last() != '-' {
        Err(DecodeError::AmountFormat)
    } else {
        match decimal_of(s.drop_last()) {
            Some(d) => Ok(Decimal { units: (-d.units) as i64, scale: d.scale }),
            None => Err(DecodeError::AmountFormat),
        }
    }
}

/// Decodes an amount whose sign is given by a trailing marker; only `-` is known.
pub fn decode_signed_amount(raw: &str) -> (r: Result<Decimal, DecodeError>)
    ensures
        r == signed_amount_of(raw@),
{
    let v = chars_of(raw);
    let n = v.len();
    if n == 0 || v[n - 1] != '-' {
        return Err(DecodeError::AmountFormat);
    }
    let magnitude = &v.as_slice()[0..n - 1];
    assert(magnitude@ =~= raw@.drop_last());
    match parse_decimal(magnitude) {
        Some(d) => Ok(Decimal { units: -d.units, scale: d.scale }),
        None => Err(DecodeError::AmountFormat),
    }
}

/// End of the last run of non-white-space characters (0 when there is none).
pub open spec fn token_end(s: Seq<char>) -> int
    decreases s.len(),
{
    if s.len() == 0 {
        0
    } else if white_space(s.last()) {
        token_end(s.drop_last())
    } else {
        s.len() as int
    }
}

/// Start of the run of non-white-space characters that ends `s`.
pub open spec fn token_start(s: Seq<char>) -> int
    decreases s.len(),
{
    if s.len() == 0 {
        0
    } else if white_space(s.last()) {
        s.len() as int
    } else {
        token_start(s.drop_last())
    }
}

/// Name and state of a merchant description. The state is the first two
/// characters of the last white-space separated token; the name is all that
/// stands before that token, without the white space that separates them.
/// There must be a last token, of two characters or more.
pub open spec fn merchant_of(s: Seq<char>) -> Result<(Seq<char>, Seq<char>), DecodeError> {
    let e = token_end(s);
    let st = token_start(s.take(e));
    if e == 0 || e - st < 2 {
        Err(DecodeError::MerchantDescription)
    } else {
        Ok((s.take(token_end(s.take(st))), s.subrange(st, st + 2)))
    }
}

/// A merchant's name and two-letter state.
#[derive(Clone, Debug)]
pub struct MerchantDescription {
    pub merchant_name: String,
    pub merchant_state: String,
}

impl View for MerchantDescription {
    type V = (Seq<char>, Seq<char>);

    open spec fn view(&self) -> (Seq<char>, Seq<char>) {
        (self.merchant_name@, self.merchant_state@)
    }
}

pub open spec fn merchant_view(r: Result<MerchantDescription, DecodeError>) -> Result<
    (Seq<char>, Seq<char>),
    DecodeError,
> {
    match r {
        Ok(m) => Ok(m@),
        Err(e) => Err(e),
    }
}

proof fn lemma_take_drop_last(s: Seq<char>, k: int)
    requires
        0 < k <= s.len(),
    ensures
        s.take(k).drop_last() == s.take(k - 1),
        s.take(k).last() == s[k - 1],
{
    assert(s.take(k).drop_last() =~= s.take(k - 1));
}

/// Splits a merchant description into name and state.
pub fn decode_merchant_description(raw: &str) -> (r: Result<MerchantDescription, DecodeError>)
    ensures
        match merchant_of(raw@) {
            Ok(m) => r is Ok && r->Ok_0@ == m,
            Err(e) => r is Err && r->Err_0 == e,
        },
        merchant_view(r) == merchant_of(raw@),
{
    let v = chars_of(raw);
    let ghost s = raw@;
    let mut e: usize = v.len();
    assert(s.take(e as int) =~= s);
    while e > 0 && is_space(v[e - 1])
        invariant
            v@ == s,
            0 <= e <= s.len(),
            token_end(s) == token_end(s.take(e as int)),
        decreases e,
    {
        proof {
            lemma_take_drop_last(s, e as int);
        }
        e = e - 1;
    }
    if e == 0 {
        return Err(DecodeError::MerchantDescription);
    }
    proof {
        lemma_take_drop_last(s, e as int);
    }
    assert(token_end(s) == e);
    let ghost t = s.take(e as int);
    let mut st: usize = e;
    assert(t.take(e as int) =~= t);
    while st > 0 && !is_space(v[st - 1])
        invariant
            v@ == s,
            t == s.take(e as int),
            0 <= st <= e <= s.len(),
            token_start(t) == token_start(t.take(st as int)),
        decreases st,
    {
        proof {
            lemma_take_drop_last(t, st as int);
        }
        st = st - 1;
    }
    proof {
        if st > 0 {
            lemma_take_drop_last(t, st as int);
        }
    }
    assert(token_start(t) == st);
    if e - st < 2 {
        return Err(DecodeError::MerchantDescription);
    }
    let ghost u = s.take(st as int);
    let mut k: usize = st;
    assert(u.take(k as int) =~= u);
    while k > 0 && is_space(v[k - 1])
        invariant
            v@ == s,
            u == s.take(st as int),
            0 <= k <= st <= s.len(),
            token_end(u) == token_end(u.take(k as int)),
        decreases k,
    {
        proof {
            lemma_take_drop_last(u, k as int);
        }
        k = k - 1;
    }
    proof {
        if k > 0 {
            lemma_take_drop_last(u, k as int);
        }
    }
    assert(token_end(u) == k);
    let state_chars = &v.as_slice()[st..st + 2];
    let name_chars = &v.as_slice()[0..k];
    assert(state_chars@ =~= s.subrange(st as int, st + 2));
    assert(name_chars@ =~= s.take(k as int));
    Ok(MerchantDescription { merchant_name: string_of(name_chars), merchant_state: string_of(state_chars) })
}

proof fn lemma_token_start(s: Seq<char>, k: int, m: int)
    requires
        0 <= k < m <= s.len(),
        white_space(s[k]),
        forall|j: int| k < j < s.len() ==> !white_space(#[trigger] s[j]),
    ensures
        token_start(s.take(m)) == k + 1,
    decreases m,
{
    lemma_take_drop_last(s, m);
    if m > k + 1 {
        lemma_token_start(s, k, m - 1);
    }
}

proof fn lemma_token_end(s: Seq<char>, m: int, j: int)
    requires
        0 <= m <= j <= s.len(),
        m == 0 || !white_space(s[m - 1]),
        forall|i: int| m <= i < j ==> white_space(#[trigger] s[i]),
    ensures
        token_end(s.take(j)) == m,
    decreases j,
{
    if j > m {
        lemma_take_drop_last(s, j);
        lemma_token_end(s, m, j - 1);
    } else if m > 0 {
        lemma_take_drop_last(s, m);
    } else {
        assert(s.take(0).len() == 0);
    }
}

/// A description whose last token (two characters or more) follows the white
/// space `s[m..=k]` splits there: the state is the token's first two
/// characters, the name is the text with the token and that white space removed.
pub proof fn lemma_merchant_split(s: Seq<char>, m: int, k: int)
    requires
        0 <= m <= k && k + 2 < s.len(),
        m == 0 || !white_space(s[m - 1]),
        forall|j: int| m <= j <= k ==> white_space(#[trigger] s[j]),
        forall|j: int| k < j < s.len() ==> !white_space(#[trigger] s[j]),
    ensures
        merchant_of(s) == Ok::<(Seq<char>, Seq<char>), DecodeError>(
            (s.take(m), s.subrange(k + 1, k + 3)),
        ),
{
    assert(s.take(s.len() as int) =~= s);
    assert(!white_space(s[s.len() - 1]));
    assert(token_end(s) == s.len());
    lemma_token_start(s, k, s.len() as int);
    assert(s.take(k + 1).take(k + 1) =~= s.take(k + 1));
    lemma_token_end(s, m, k + 1);
}

/// Whether every character of `s` is alphabetic (true for the empty text).
pub open spec fn word(s: Seq<char>) -> bool {
    forall|i: int| 0 <= i < s.len() ==> #[trigger] alphabetic(s[i])
}

/// Whether the text is made of alphabetic characters only.
pub fn is_word(s: &String) -> (r: bool)
    ensures
        r == word(s@),
{
    let v = chars_of(s.as_str());
    let mut i: usize = 0;
    while i < v.len()
        invariant
            v@ == s@,
            0 <= i <= v@.len(),
            forall|j: int| 0 <= j < i ==> #[trigger] alphabetic(v@[j]),
        decreases v.len() - i,
    {
        if !is_alpha(v[i]) {
            return false;
        }
        i = i + 1;
    }
    true
}

} // verus!
