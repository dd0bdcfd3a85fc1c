pub mod canonical;
pub mod copy;
pub mod data;
pub mod encode;
pub mod laws;
pub mod parsed;
pub mod parsed_schema;
pub mod property;
pub mod row;
pub mod row_laws;
pub mod schema;
pub mod sizes;
pub mod value;

pub use crate::text::TableString;
pub use data::{TableData, TableDataList, TableStruct};
pub use property::{TableDataType, TableHeaderProperty};
pub use row::{ChSparseTableElement, ChTableElement};
pub use schema::{SleType, StructHeader, StructHeaderProperty};
