//! Solar (Gregorian) calendar dates: validated construction, parsing of the
//! Chinese written form and rendering to Chinese and `yyyy-mm-dd` text.
use vstd::prelude::*;

pub mod laws;
pub mod numerals;
pub mod solar_date;
pub mod text;

verus! {

} // verus!
