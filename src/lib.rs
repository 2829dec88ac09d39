//! Line-oriented whitespace normalisation: line endings (LF / CRLF) and
//! leading indentation (tabs / spaces), one line at a time.

pub mod chars;
pub mod decimal;
pub mod driver;
pub mod error;
pub mod indentation;
pub mod new_line;

pub use driver::LineDriver;
pub use error::ConfigError;
pub use indentation::Indentation;
pub use new_line::{to_crlf, to_lf, NewLine};
