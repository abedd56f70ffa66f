//! The closed set of failures and their projection onto transport status
//! codes.

use vstd::prelude::*;

verus! {

/// Every failure the store reports.
#[derive(Debug, Clone, Copy, PartialEq, Eq, Structural)]
pub enum StoreError {
    KeyspaceNotFound,
    KeyspaceAlreadyExists,
    KeyNotFound,
    InvalidArgument,
    Internal,
}

/// The status codes of the transport that the store uses.
#[derive(Debug, Clone, Copy, PartialEq, Eq, Structural)]
pub enum Code {
    NotFound,
    AlreadyExists,
    InvalidArgument,
    Internal,
}

/// A failed call as the transport reports it: a code and a short text.
#[derive(Debug)]
pub struct Status {
    pub code: Code,
    pub message: String,
}

/// The code that reports `e`.
pub open spec fn code_of(e: StoreError) -> Code {
    match e {
        StoreError::KeyspaceNotFound => Code::NotFound,
        StoreError::KeyspaceAlreadyExists => Code::AlreadyExists,
        StoreError::KeyNotFound => Code::NotFound,
        StoreError::InvalidArgument => Code::InvalidArgument,
        StoreError::Internal => Code::Internal,
    }
}

/// The text that reports `e`.
pub open spec fn message_of(e: StoreError) -> Seq<char> {
    match e {
        StoreError::KeyspaceNotFound => "Keyspace not found"@,
        StoreError::KeyspaceAlreadyExists => "Keyspace already exists"@,
        StoreError::KeyNotFound => "Key not found"@,
        StoreError::InvalidArgument => "Invalid argument"@,
        StoreError::Internal => "Internal Error"@,
    }
}

/// Whether `s` is the status that reports `e`.
pub open spec fn reports(s: Status, e: StoreError) -> bool {
    s.code == code_of(e) && s.message@ == message_of(e)
}

impl Status {
    /// The status that reports `err`.
    pub fn from_error(err: StoreError) -> (s: Status)
        ensures
            reports(s, err),
    {
        match err {
            StoreError::KeyspaceNotFound => Status {
                code: Code::NotFound,
                message: String::from_str("Keyspace not found"),
            },
            StoreError::KeyspaceAlreadyExists => Status {
                code: Code::AlreadyExists,
                message: String::from_str("Keyspace already exists"),
            },
            StoreError::KeyNotFound => Status {
                code: Code::NotFound,
                message: String::from_str("Key not found"),
            },
            StoreError::InvalidArgument => Status {
                code: Code::InvalidArgument,
                message: String::from_str("Invalid argument"),
            },
            StoreError::Internal => Status {
                code: Code::Internal,
                message: String::from_str("Internal Error"),
            },
        }
    }

    pub fn code(&self) -> (c: Code)
        ensures
            c == self.code,
    {
        self.code
    }
}

impl StoreError {
    /// The failure that a status reports, read from its code: a not-found
    /// status is about a keyspace where its text says so and about a key
    /// otherwise; any code that the store does not use reads as `Internal`.
    pub fn from_status(status: &Status) -> (e: StoreError)
        ensures
            forall|k: StoreError| reports(*status, k) ==> e == k,
            e == match status.code {
                Code::NotFound => if status.message@ == "Keyspace not found"@ {
                    StoreError::KeyspaceNotFound
                } else {
                    StoreError::KeyNotFound
                },
                Code::AlreadyExists => StoreError::KeyspaceAlreadyExists,
                Code::InvalidArgument => StoreError::InvalidArgument,
                Code::Internal => StoreError::Internal,
            },
    {
        proof {
            reveal_strlit("Keyspace not found");
            reveal_strlit("Key not found");
            assert("Key not found"@.len() != "Keyspace not found"@.len());
        }
        match status.code {
            Code::NotFound => {
                if status.message == String::from_str("Keyspace not found") {
                    StoreError::KeyspaceNotFound
                } else {
                    StoreError::KeyNotFound
                }
            },
            Code::AlreadyExists => StoreError::KeyspaceAlreadyExists,
            Code::InvalidArgument => StoreError::InvalidArgument,
            _ => StoreError::Internal,
        }
    }
}

/// Any engine failure is an internal one.
impl From<sled::Error> for StoreError {
    fn from(_err: sled::Error) -> (e: StoreError)
        ensures
            e == StoreError::Internal,
    {
        StoreError::Internal
    }
}

impl vstd::std_specs::convert::FromSpecImpl<sled::Error> for StoreError {
    open spec fn obeys_from_spec() -> bool {
        true
    }

    open spec fn from_spec(v: sled::Error) -> StoreError {
        StoreError::Internal
    }
}

} // verus!
