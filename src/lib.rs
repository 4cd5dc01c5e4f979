use vstd::prelude::*;

pub mod anomaly;
pub mod date;
pub mod decode;
pub mod number;
pub mod purchase;
pub mod text;
pub mod upload;

verus! {

/// Most parameters one statement may bind (the wire protocol counts them in 16 bits).
pub const BIND_LIMIT: usize = 65535;

/// Number of columns bound for one purchase record.
pub const PURCHASE_ARGS: usize = 9;

/// Purchases per bulk statement.
pub const PURCHASE_CHUNK: usize = BIND_LIMIT / PURCHASE_ARGS;

/// Source format of a purchase's transaction time.
pub const PURCHASE_DATETIME_FORMAT: &'static str = "%m%d%Y %H:%M:%S";

/// Source format of a purchase's post date.
pub const POST_DATE_FORMAT: &'static str = "%m%d%Y";

/// Storage format of dates.
pub const MYSQL_DATE_FORMAT: &'static str = "%Y-%m-%d";

/// Storage format of datetimes.
pub const MYSQL_DATETIME_FORMAT: &'static str = "%Y-%m-%d %H:%M:%S";

} // verus!
