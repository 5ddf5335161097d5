//! Safety rules for reports of levels.
//!
//! A report is a sequence of signed integer levels. It is *safe* when its
//! levels move in one direction only and every step between neighbours is
//! between one and three. A report is *safe with dampening* when taking
//! out one of its levels leaves a safe report.
//!
//! Reports are written one to a line, as numbers in base ten with
//! whitespace between them. A text is read line by line up to the first
//! line that is no report; what follows that line is ignored.

pub mod count;
pub mod direction;
pub mod laws;
pub mod level;
pub mod parse;
pub mod render;
pub mod report;
pub mod run;
pub mod text;

pub use count::{count_dampened_safe_reports, count_safe_reports, parse_reports};
pub use direction::{Direction, Level};
pub use level::LevelError;
pub use parse::ReportErr;
pub use report::{Dampening, Report, MAX_DIFF, MIN_DIFF};
