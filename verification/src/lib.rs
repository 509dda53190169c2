//! A growable table of equal-length rows kept in one contiguous row-major
//! buffer, and a borrowed read-only window onto such a buffer.

pub mod bound;
pub mod laws;
pub mod layout;
pub mod row_slice;
pub mod row_vec;

pub use bound::RowBound;
pub use row_slice::RowSlice;
pub use row_vec::RowVec;
