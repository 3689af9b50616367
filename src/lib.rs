//! Retrieval of order-history records over a date range.
//!
//! The library holds the logic: dates and ranges, the year planner, the parsing of
//! line items into purchase records, and the state machine that walks a paginated,
//! newest-first listing. Driving a browser is left to the caller, who performs the
//! steps that the state machine asks for and reports what it saw.
pub mod date;
pub mod error;
pub mod record;
pub mod text;
pub mod utils;
pub mod walker;

pub use date::{parse_date, parse_iso_date, Date, DateRange, ISO_DATE_FORMAT};
pub use error::{Field, ScrapeError};
pub use record::{records_of_group, records_of_item, LineItem, Log};
pub use text::{
    earliest_year, parse_price, parse_quantity, product_id, to_year_num_from_str, year_of_label,
};
pub use utils::{to_default, to_naive_date, to_option, to_year};
pub use walker::{Event, Extraction, NextControl, Phase, Step, LISTING_DATE_FORMAT};
