//! Check-digit validation for ISBN-10, ISBN-13, EAN-13 and UPC-A codes.

pub mod dispatch;
pub mod formulas;
pub mod isbn10;
pub mod kinds;
pub mod laws;
pub mod mod10;
pub mod text;

pub use dispatch::{check, compute};
pub use isbn10::check_isbn10;
pub use kinds::{BarcodeKind, CheckError};
pub use mod10::{check_ean13, check_isbn13, check_upca};
pub use text::clean;
