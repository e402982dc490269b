pub mod color;
pub mod grapheme_chad;
pub mod strings;
pub mod primes;
