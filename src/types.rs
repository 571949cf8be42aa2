use vstd::prelude::*;

verus! {

/// An account, as handed over by the layer that authenticates callers.
pub type AccountId = u64;

/// An amount of currency.
pub type Balance = u128;

/// The identifier of a course: a 256-bit hash of its content.
pub type CourseId = [u8; 32];

/// The genetic fingerprint of a course.
pub type Dna = [u8; 16];

/// The credits that a course starts with when none are given.
pub const BASE_CREDITS: u8 = 0;

/// The year (tier) of a course.
#[derive(Clone, Copy, Debug, PartialEq, Eq, Structural)]
pub enum CourseYear {
    First,
    Second,
    Third,
    Fourth,
}

/// A course: its immutable content (`dna`, `course_year`, `credits`) and its
/// mutable `owner` and asking `price` (`None`: not for sale).
#[derive(Clone, Copy, Debug, PartialEq, Eq)]
pub struct Course {
    pub dna: Dna,
    pub price: Option<Balance>,
    pub course_year: CourseYear,
    pub credits: u8,
    pub owner: AccountId,
}

/// Why an operation failed. A failed operation changes nothing.
#[derive(Clone, Copy, Debug, PartialEq, Eq, Structural)]
pub enum Error {
    /// The course counter would overflow.
    CountForCoursesOverflow,
    /// An account cannot own more courses than the configured maximum.
    ExceedMaxCourseOwned,
    /// The buyer already owns the course.
    BuyerIsCourseOwner,
    /// A course cannot be transferred to its owner.
    TransferToSelf,
    /// A course with the same identifier already exists.
    CourseExists,
    /// No course has the given identifier.
    CourseNotExist,
    /// The caller does not own the course.
    NotCourseOwner,
    /// The course has no asking price.
    CourseNotForSale,
    /// The bid is below the asking price.
    CourseBidPriceTooLow,
    /// The buyer's free balance is below the bid.
    NotEnoughBalance,
    /// The currency refused to move the payment.
    Currency(CurrencyError),
}

/// Why the currency refused a transfer.
#[derive(Clone, Copy, Debug, PartialEq, Eq, Structural)]
pub enum CurrencyError {
    /// The sender holds less than the amount.
    InsufficientBalance,
    /// The sender would be left below the minimum balance it must keep.
    KeepAlive,
    /// The recipient's balance would overflow.
    Overflow,
}

/// A notification of a completed operation.
#[derive(Clone, Copy, Debug, PartialEq, Eq)]
pub enum Event {
    /// A course was created: `(owner, course_id)`.
    Created(AccountId, CourseId),
    /// A price was set: `(owner, course_id, new_price)`.
    PriceSet(AccountId, CourseId, Option<Balance>),
    /// A course was transferred: `(from, to, course_id)`.
    Transferred(AccountId, AccountId, CourseId),
    /// A course was bought: `(buyer, seller, course_id, bid_price)`.
    Bought(AccountId, AccountId, CourseId, Balance),
}

/// What the host supplies about the step in which an operation runs: the
/// output of its randomness source for the subject `b"dna"`, the index of the
/// current extrinsic (if any) and the current block number.
#[derive(Clone, Copy, Debug, PartialEq, Eq)]
pub struct ExecContext {
    pub random_seed: [u8; 32],
    pub extrinsic_index: Option<u32>,
    pub block_number: u64,
}

} // verus!
