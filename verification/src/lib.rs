//! Invoice registration lookup: T-number validation, reading the registry's
//! detail page, Japanese-era and sheet dates, and the check of a history
//! sheet against the registry.

pub mod csv;
pub mod date;
pub mod date_parse;
pub mod entity;
pub mod history;
pub mod page;
pub mod sheet;
pub mod text;
pub mod tnumber;

pub use csv::parse_csv_line;
pub use date::SimpleDate;
pub use entity::{HistoryRow, InvoiceRegistration, RegistrationStatus};
pub use history::{CheckHistoryResult, HistoryPlan, HistorySummary};
pub use page::{invoice_from_items, parse_invoice_html, InvoiceInfo};
pub use sheet::{annotate_sheet, collect_sheet_numbers};
pub use tnumber::{
    detail_url, normalize_tnum, parse_number_list, parse_t_number, registered_label,
    InvoiceLookupError,
};
