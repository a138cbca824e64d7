//! Pure helpers of the dashboard tabs: table sorting and counting, and
//! the padding and truncation of table cells.

pub mod gpu;
pub mod insights;
pub mod memory;
pub mod power;
pub mod procs;
pub mod services;
pub mod timeline;
