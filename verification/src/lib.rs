//! Token usage of Grok sessions, computed from local logs, and the profiles of Grok accounts.
//!
//! Everything here works on values that have been read: the lines of the logs, JSON values and the
//! contents of a few files. What is to be written or printed is handed back as values too.

pub mod account_laws;
pub mod account_report;
pub mod accounts;
pub mod bucket;
pub mod clock;
pub mod clock_laws;
pub mod daily;
pub mod daily_laws;
pub mod double;
pub mod format;
pub mod identity;
pub mod identity_laws;
pub mod json;
pub mod limit;
pub mod limit_laws;
pub mod names;
pub mod number_laws;
pub mod order;
pub mod overview;
pub mod parse;
pub mod place_laws;
pub mod places;
pub mod pricing;
pub mod refusal_laws;
pub mod report;
pub mod report_laws;
pub mod row_laws;
pub mod rows;
pub mod select;
pub mod session;
pub mod session_laws;
pub mod store;
pub mod store_laws;
pub mod table_laws;
pub mod text;
pub mod text_laws;
pub mod usage;
pub mod usage_laws;
pub mod value_laws;
