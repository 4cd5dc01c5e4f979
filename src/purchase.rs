use vstd::prelude::*;
use crate::date::{date_of, datetime_of, deserialize_date, deserialize_datetime};
use crate::decode::{
    DecodeError, MerchantDescription, decode_i16, decode_i32, decode_merchant_description,
    decode_signed_amount, i16_of, i32_of, is_word, merchant_of, signed_amount_of,
    word,
};
use crate::number::Decimal;

verus! {

/// One purchase, with its fields decoded and normalised.
#[derive(Clone, Debug)]
pub struct Purchase {
    pub account_number: i32,
    pub transaction_datetime: String,
    pub transaction_amount: Decimal,
    pub post_date: String,
    pub transaction_number: i32,
    pub merchant_number: String,
    pub merchant_description: MerchantDescription,
    pub merchant_category_code: i16,
}

/// A purchase as plain values.
pub struct PurchaseView {
    pub account_number: i32,
    pub transaction_datetime: Seq<char>,
    pub transaction_amount: Decimal,
    pub post_date: Seq<char>,
    pub transaction_number: i32,
    pub merchant_number: Seq<char>,
    pub merchant_description: (Seq<char>, Seq<char>),
    pub merchant_category_code: i16,
}

impl View for Purchase {
    type V = PurchaseView;

    open spec fn view(&self) -> PurchaseView {
        PurchaseView {
            account_number: self.account_number,
            transaction_datetime: self.transaction_datetime@,
            transaction_amount: self.transaction_amount,
            post_date: self.post_date@,
            transaction_number: self.transaction_number,
            merchant_number: self.merchant_number@,
            merchant_description: self.merchant_description@,
            merchant_category_code: self.merchant_category_code,
        }
    }
}

/// The texts of a row of strings.
pub open spec fn texts(s: Seq<String>) -> Seq<Seq<char>> {
    s.map_values(|x: String| x@)
}

/// Index of the first header equal to `name`.
pub open spec fn column_of(headers: Seq<Seq<char>>, name: Seq<char>) -> Option<int>
    decreases headers.len(),
{
    if headers.len() == 0 {
        None
    } else {
        match column_of(headers.drop_last(), name) {
            Some(i) => Some(i),
            None => if headers.last() == name {
                Some(headers.len() - 1)
            } else {
                None
            },
        }
    }
}

/// The cell of `row` under the column named `name`.
pub open spec fn field_of(headers: Seq<Seq<char>>, row: Seq<Seq<char>>, name: Seq<char>) -> Result<
    Seq<char>,
    DecodeError,
> {
    match column_of(headers, name) {
        Some(i) => if i < row.len() {
            Ok(row[i])
        } else {
            Err(DecodeError::MissingColumn)
        },
        None => Err(DecodeError::MissingColumn),
    }
}

/// Looks up the cell of `row` under the column named `name`.
pub fn field<'a>(headers: &Vec<String>, row: &'a Vec<String>, name: &str) -> (r: Result<
    &'a String,
    DecodeError,
>)
    ensures
        match field_of(texts(headers@), texts(row@), name@) {
            Ok(t) => r is Ok && r->Ok_0@ == t,
            Err(e) => r == Err::<&String, DecodeError>(e),
        },
{
    let key: String = name.to_owned();
    let ghost hs = texts(headers@);
    let mut i: usize = 0;
    while i < headers.len()
        invariant
            0 <= i <= headers@.len(),
            hs == texts(headers@),
            key@ == name@,
            column_of(hs.take(i as int), name@) is None,
        decreases headers.len() - i,
    {
        proof {
            assert(hs.take(i as int + 1).drop_last() =~= hs.take(i as int));
        }
        if headers[i] == key {
            assert(column_of(hs.take(i as int + 1), name@) == Some(i as int));
            proof {
                lemma_column_prefix(hs, name@, i as int + 1);
            }
            if i < row.len() {
                return Ok(&row[i]);
            } else {
                return Err(DecodeError::MissingColumn);
            }
        }
        i = i + 1;
    }
    assert(hs.take(i as int) =~= hs);
    Err(DecodeError::MissingColumn)
}

proof fn lemma_column_prefix(hs: Seq<Seq<char>>, name: Seq<char>, k: int)
    requires
        0 <= k <= hs.len(),
        column_of(hs.take(k), name) is Some,
    ensures
        column_of(hs, name) == column_of(hs.take(k), name),
    decreases hs.len(),
{
    if k < hs.len() {
        assert(hs.drop_last().take(k) =~= hs.take(k));
        lemma_column_prefix(hs.drop_last(), name, k);
    } else {
        assert(hs.take(k) =~= hs);
    }
}

/// What decoding one row gives, field by field in the record's order; the
/// first field that fails gives the error.
pub open spec fn purchase_of(
    h: Seq<Seq<char>>,
    row: Seq<Seq<char>>,
    datetime_format: Seq<char>,
    date_format: Seq<char>,
) -> Result<PurchaseView, DecodeError> {
    let f_account = field_of(h, row, "account_number"@);
    let f_datetime = field_of(h, row, "transaction_datetime"@);
    let f_amount = field_of(h, row, "transaction_amount"@);
    let f_post = field_of(h, row, "post_date"@);
    let f_number = field_of(h, row, "transaction_number"@);
    let f_merchant = field_of(h, row, "merchant_number"@);
    let f_description = field_of(h, row, "merchant_description"@);
    let f_category = field_of(h, row, "merchant_category_code"@);
    if f_account is Err {
        Err(f_account->Err_0)
    } else if i32_of(f_account->Ok_0) is Err {
        Err(i32_of(f_account->Ok_0)->Err_0)
    } else if f_datetime is Err {
        Err(f_datetime->Err_0)
    } else if datetime_of(f_datetime->Ok_0, datetime_format) is Err {
        Err(datetime_of(f_datetime->Ok_0, datetime_format)->Err_0)
    } else if f_amount is Err {
        Err(f_amount->Err_0)
    } else if signed_amount_of(f_amount->Ok_0) is Err {
        Err(signed_amount_of(f_amount->Ok_0)->Err_0)
    } else if f_post is Err {
        Err(f_post->Err_0)
    } else if date_of(f_post->Ok_0, date_format) is Err {
        Err(date_of(f_post->Ok_0, date_format)->Err_0)
    } else if f_number is Err {
        Err(f_number->Err_0)
    } else if i32_of(f_number->Ok_0) is Err {
        Err(i32_of(f_number->Ok_0)->Err_0)
    } else if f_merchant is Err {
        Err(f_merchant->Err_0)
    } else if f_description is Err {
        Err(f_description->Err_0)
    } else if merchant_of(f_description->Ok_0) is Err {
        Err(merchant_of(f_description->Ok_0)->Err_0)
    } else if f_category is Err {
        Err(f_category->Err_0)
    } else if i16_of(f_category->Ok_0) is Err {
        Err(i16_of(f_category->Ok_0)->Err_0)
    } else {
        Ok(
            PurchaseView {
                account_number: i32_of(f_account->Ok_0)->Ok_0,
                transaction_datetime: datetime_of(f_datetime->Ok_0, datetime_format)->Ok_0,
                transaction_amount: signed_amount_of(f_amount->Ok_0)->Ok_0,
                post_date: date_of(f_post->Ok_0, date_format)->Ok_0,
                transaction_number: i32_of(f_number->Ok_0)->Ok_0,
                merchant_number: f_merchant->Ok_0,
                merchant_description: merchant_of(f_description->Ok_0)->Ok_0,
                merchant_category_code: i16_of(f_category->Ok_0)->Ok_0,
            },
        )
    }
}

pub open spec fn purchase_view(r: Result<Purchase, DecodeError>) -> Result<PurchaseView, DecodeError> {
    match r {
        Ok(p) => Ok(p@),
        Err(e) => Err(e),
    }
}

/// Decodes one row, its cells found by the names in `headers`.
pub fn decode_purchase(
    headers: &Vec<String>,
    row: &Vec<String>,
    datetime_format: &str,
    date_format: &str,
) -> (r: Result<Purchase, DecodeError>)
    ensures
        purchase_view(r) == purchase_of(texts(headers@), texts(row@), datetime_format@, date_format@),
{
    let account_number = match field(headers, row, "account_number") {
        Ok(t) => match decode_i32(t.as_str()) {
            Ok(v) => v,
            Err(e) => return Err(e),
        },
        Err(e) => return Err(e),
    };
    let transaction_datetime = match field(headers, row, "transaction_datetime") {
        Ok(t) => match deserialize_datetime(t.as_str(), datetime_format) {
            Ok(v) => v,
            Err(e) => return Err(e),
        },
        Err(e) => return Err(e),
    };
    let transaction_amount = match field(headers, row, "transaction_amount") {
        Ok(t) => match decode_signed_amount(t.as_str()) {
            Ok(v) => v,
            Err(e) => return Err(e),
        },
        Err(e) => return Err(e),
    };
    let post_date = match field(headers, row, "post_date") {
        Ok(t) => match deserialize_date(t.as_str(), date_format) {
            Ok(v) => v,
            Err(e) => return Err(e),
        },
        Err(e) => return Err(e),
    };
    let transaction_number = match field(headers, row, "transaction_number") {
        Ok(t) => match decode_i32(t.as_str()) {
            Ok(v) => v,
            Err(e) => return Err(e),
        },
        Err(e) => return Err(e),
    };
    let merchant_number = match field(headers, row, "merchant_number") {
        Ok(t) => t.clone(),
        Err(e) => return Err(e),
    };
    let merchant_description = match field(headers, row, "merchant_description") {
        Ok(t) => match decode_merchant_description(t.as_str()) {
            Ok(v) => v,
            Err(e) => return Err(e),
        },
        Err(e) => return Err(e),
    };
    let merchant_category_code = match field(headers, row, "merchant_category_code") {
        Ok(t) => match decode_i16(t.as_str()) {
            Ok(v) => v,
            Err(e) => return Err(e),
        },
        Err(e) => return Err(e),
    };
    Ok(
        Purchase {
            account_number,
            transaction_datetime,
            transaction_amount,
            post_date,
            transaction_number,
            merchant_number,
            merchant_description,
            merchant_category_code,
        },
    )
}

/// The legacy correction: a merchant number made only of letters is the
/// merchant's name, and replaces the decoded one.
pub open spec fn corrected(p: PurchaseView) -> PurchaseView {
    if word(p.merchant_number) {
        PurchaseView {
            merchant_description: (p.merchant_number, p.merchant_description.1),
            ..p
        }
    } else {
        p
    }
}

/// After the correction, a purchase whose merchant number is all letters
/// carries that number as its merchant name; the state and every other field
/// are kept.
pub proof fn lemma_legacy_name(p: PurchaseView)
    requires
        word(p.merchant_number),
    ensures
        corrected(p).merchant_description.0 == p.merchant_number,
        corrected(p).merchant_description.1 == p.merchant_description.1,
        corrected(p).merchant_number == p.merchant_number,
        corrected(p).account_number == p.account_number,
        corrected(p).transaction_amount == p.transaction_amount,
{
}

/// Applies the legacy correction to a decoded purchase.
pub fn fix_legacy_merchant_name(purchase: &mut Purchase)
    ensures
        final(purchase)@ == corrected(old(purchase)@),
{
    if is_word(&purchase.merchant_number) {
        purchase.merchant_description.merchant_name = purchase.merchant_number.clone();
    }
}

/// The row at which parsing stopped, and why.
#[derive(Clone, Copy, Debug, PartialEq, Eq)]
pub struct ParseError {
    pub row: usize,
    pub error: DecodeError,
}

/// Decodes every row and corrects each purchase; stops at the first row that
/// fails and returns its error alone.
pub fn parse(
    headers: &Vec<String>,
    rows: &Vec<Vec<String>>,
    datetime_format: &str,
    date_format: &str,
) -> (r: Result<Vec<Purchase>, ParseError>)
    ensures
        r is Ok <==> forall|k: int| 0 <= k < rows@.len() ==> (#[trigger] purchase_of(texts(headers@), texts(rows@[k]@), datetime_format@, date_format@)) is Ok,
        r matches Ok(ps) ==> ps@.len() == rows@.len() && forall|k: int| 0 <= k < rows@.len() ==> (#[trigger] ps@[k])@ == corrected(purchase_of(texts(headers@), texts(rows@[k]@), datetime_format@, date_format@)->Ok_0),
        r matches Err(e) ==> e.row < rows@.len() && purchase_of(texts(headers@), texts(rows@[e.row as int]@), datetime_format@, date_format@) == Err::<PurchaseView, DecodeError>(e.error) && forall|k: int| 0 <= k < e.row ==> (#[trigger] purchase_of(texts(headers@), texts(rows@[k]@), datetime_format@, date_format@)) is Ok,
{
    let ghost h = texts(headers@);
    let mut out: Vec<Purchase> = Vec::new();
    let mut i: usize = 0;
    while i < rows.len()
        invariant
            0 <= i <= rows@.len(),
            h == texts(headers@),
            out@.len() == i,
            forall|k: int| 0 <= k < i ==> (#[trigger] purchase_of(h, texts(rows@[k]@), datetime_format@, date_format@)) is Ok,
            forall|k: int| 0 <= k < i ==> (#[trigger] out@[k])@ == corrected(purchase_of(h, texts(rows@[k]@), datetime_format@, date_format@)->Ok_0),
        decreases rows.len() - i,
    {
        match decode_purchase(headers, &rows[i], datetime_format, date_format) {
            Ok(p) => {
                let mut p = p;
                fix_legacy_merchant_name(&mut p);
                out.push(p);
            },
            Err(e) => {
                return Err(ParseError { row: i, error: e });
            },
        }
        i = i + 1;
    }
    Ok(out)
}

} // verus!
