//! A registry of uniquely identified courses: each course carries a 16-byte
//! DNA, a year, a credit count, an owner and an optional asking price. Courses
//! are minted, priced, transferred, bought and bred through a `Pallet`, whose
//! three stores (the courses, their counter and the per-account ownership
//! index) stay consistent after every operation, successful or not.
pub mod types;
pub mod hashing;
pub mod currency;
pub mod pallet;
pub mod genesis;
