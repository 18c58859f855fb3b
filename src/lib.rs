pub mod text;
pub mod numeral;
pub mod units;
pub mod measurements;
pub mod render;
pub mod recipe;
