//! A small in-memory table engine: a header of named columns over a grid of
//! typed cells, with operators to select, filter, rename, drop, map and
//! join, each with a proved contract.

pub mod cell;
pub mod error;
pub mod frame;
pub mod grid;
pub mod laws;
pub mod order;
pub mod row;
pub mod table;

pub use cell::CellError;
pub use cell::CellValue;
pub use cell::Shown;
pub use error::FrameError;
pub use frame::DataFrame;
pub use grid::Grid;
pub use row::Row;
