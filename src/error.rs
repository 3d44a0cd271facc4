use vstd::prelude::*;

verus! {

/// Why an operation on a circle was refused. A refused operation changes nothing.
#[derive(Clone, Copy, Debug, PartialEq, Eq, Structural)]
pub enum CircleError {
    /// No circle is stored under the identifier.
    NotFound,
    /// The identity is not in the circle's member list.
    NotAMember,
    /// The member has already deposited in the current cycle.
    AlreadyDeposited,
    /// The current cycle names no member: the circle has more cycles than members.
    RecipientIndexOutOfRange,
    /// The final cycle has been settled; the circle takes no more deposits or settlements.
    CircleCompleted,
    /// A circle needs at least one member, a positive amount whose full pool
    /// fits in an `i128`, and at least one cycle.
    InvalidParameters,
}

} // verus!
