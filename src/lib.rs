//! Check digit algorithms over arbitrary symbol sets.

pub mod prelude;
pub use prelude::{CheckDigitAlgo, Error, ErrorView};

pub mod algo;
pub use algo::ref_luhn::{ref_luhn, RefLuhn};

pub mod util;

mod key;
