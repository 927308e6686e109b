//! Timecard arithmetic: parsing date markers and clock ranges out of
//! free-form text, accumulating worked minutes per day, and rendering
//! minute counts as fixed-point hour strings.

pub mod scan;
pub mod numfmt;
pub mod model;
pub mod parse;
pub mod report;
