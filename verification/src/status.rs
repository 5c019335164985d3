use vstd::prelude::*;

verus! {

/// Outcome byte that a serving peer writes at the head of its reply.
#[derive(Debug, Clone, Copy, PartialEq, Eq, Structural)]
pub enum Status {
    Denied,
    Allowed,
    FileNotFound,
    ResourceNotFound,
    UnknownError,
}

/// The byte that stands for a status on the wire.
pub open spec fn status_code(s: Status) -> u8 {
    match s {
        Status::Denied => 0,
        Status::Allowed => 1,
        Status::FileNotFound => 2,
        Status::ResourceNotFound => 3,
        Status::UnknownError => 4,
    }
}

/// The status that a received byte is read as; bytes past the known codes
/// are read as `UnknownError`.
pub open spec fn status_of_code(b: u8) -> Status {
    if b == 0 {
        Status::Denied
    } else if b == 1 {
        Status::Allowed
    } else if b == 2 {
        Status::FileNotFound
    } else if b == 3 {
        Status::ResourceNotFound
    } else {
        Status::UnknownError
    }
}

impl Status {
    /// The wire byte of this status.
    pub fn code(&self) -> (b: u8)
        ensures
            b == status_code(*self),
    {
        match self {
            Status::Denied => 0,
            Status::Allowed => 1,
            Status::FileNotFound => 2,
            Status::ResourceNotFound => 3,
            Status::UnknownError => 4,
        }
    }

    /// Reads a wire byte as a status.
    pub fn from_code(b: u8) -> (s: Status)
        ensures
            s == status_of_code(b),
    {
        if b == 0 {
            Status::Denied
        } else if b == 1 {
            Status::Allowed
        } else if b == 2 {
            Status::FileNotFound
        } else if b == 3 {
            Status::ResourceNotFound
        } else {
            Status::UnknownError
        }
    }
}

impl TryFrom<u8> for Status {
    type Error = ();

    fn try_from(value: u8) -> (r: Result<Self, Self::Error>) {
        Ok(Status::from_code(value))
    }
}

impl vstd::std_specs::convert::TryFromSpecImpl<u8> for Status {
    open spec fn obeys_try_from_spec() -> bool {
        true
    }

    open spec fn try_from_spec(v: u8) -> Result<Self, Self::Error> {
        Ok(status_of_code(v))
    }
}

/// Every status survives being written as its byte and read back.
pub proof fn lemma_status_code_round_trip(s: Status)
    ensures
        status_of_code(status_code(s)) == s,
{
}

/// Every byte read as a status and written again gives the same byte, up to
/// the last known code; bytes past it come back as the `UnknownError` byte.
pub proof fn lemma_status_byte_round_trip(b: u8)
    ensures
        b <= 4 ==> status_code(status_of_code(b)) == b,
        b > 4 ==> status_of_code(b) == Status::UnknownError,
{
}

} // verus!
