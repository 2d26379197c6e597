//! CSL-JSON data model: items, names, dates and citations, together with the
//! date grammar used by CSL-JSON `raw` dates.

pub mod date;
pub mod item;
pub mod scan;
pub mod text;

pub use date::{DateValue, FixedDate, FixedDateRange, InvalidNumber, VecDate, VecDateRange};
pub use item::{
    Citation, CitationItem, CitationProperties, Item, Kind, LiteralName, NameItem, NameValue,
    NumberOrString, Value,
};
