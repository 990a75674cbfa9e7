use vstd::prelude::*;

verus! {

/// The global identity of one end user.
#[derive(Clone, Copy, PartialEq, Eq, Structural, Debug, Hash)]
pub struct UserId {
    pub id: u64,
}

/// The pseudonym under which a global identity appears to one domain.
#[derive(Clone, Copy, PartialEq, Eq, Structural, Debug, Hash)]
pub struct AppUserId {
    pub id: u64,
}

/// A consented attribute or claim scope.
#[derive(Clone, Copy, PartialEq, Eq, Structural, Debug, Hash)]
pub struct AttributeId {
    pub id: u64,
}

} // verus!
