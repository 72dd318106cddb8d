//! Verified core of a coding-activity log: a date-keyed summary store with
//! insert-or-update ingestion, schema normalization with explicit defaults,
//! and ranking queries aggregated over a date range.

pub mod ascii;
pub mod date;
pub mod fetch;
pub mod pipeline;
pub mod rank;
pub mod schema;
pub mod store;
pub mod url_encode;

pub use date::Date;
pub use fetch::{auth_header, summaries_request_url};
pub use pipeline::{archive_file_name, project_names, register_wakatime};
pub use rank::{rank, ItemType, QueryError, RankingItem};
pub use schema::{RangeData, Summaries, SummariesAll, SummariesData, SummariesDetail};
pub use store::{Store, StoredRow};
pub use url_encode::encode;
