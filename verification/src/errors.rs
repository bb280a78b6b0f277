//! The closed error taxonomy of the tool.
//!
//! Every operation returns success or exactly one of these values, so calling
//! layers can branch on the kind without string matching.

use vstd::prelude::*;

verus! {

/// Marker for a lookup of a key that a map does not hold.
#[derive(Clone, Copy, Debug, PartialEq, Eq, Structural)]
pub struct AbsentHashMapKeyError;

impl AbsentHashMapKeyError {
    /// A one-line description of the failure.
    pub fn message(&self) -> (r: String)
        ensures
            r@ == "No such key in a hashmap."@,
    {
        String::from_str("No such key in a hashmap.")
    }
}

/// Everything that can go wrong in one invocation of the tool.
#[derive(Clone, Copy, Debug, PartialEq, Eq, Structural)]
pub enum JokerError {
    /// The configuration file is absent.
    ConfigNotFound,
    /// The configuration file's bytes do not decode into a registry.
    ConfigMalformed,
    /// Writing the configuration file back failed.
    ConfigWriteFailure,
    /// A daemon name that `daemons` does not hold.
    UnknownDaemon,
    /// The daemon's address was unreachable or refused the connection.
    ConnectFailure,
    /// A read or write failed mid-frame; the request is abandoned.
    IOFailure,
    /// A container path with no final segment.
    BadPath,
    /// Response bytes that are not valid UTF-8.
    Utf8DecodeFailure,
    /// An IP address or port that does not parse.
    AddressParseFailure,
}

/// The description text of each error kind.
pub open spec fn message_text(e: JokerError) -> Seq<char> {
    match e {
        JokerError::ConfigNotFound => "Configuration file not found."@,
        JokerError::ConfigMalformed => "Configuration file is malformed."@,
        JokerError::ConfigWriteFailure => "Could not write the configuration file."@,
        JokerError::UnknownDaemon => "No such daemon in the registry."@,
        JokerError::ConnectFailure => "Could not connect to the daemon."@,
        JokerError::IOFailure => "A read or write on the connection failed."@,
        JokerError::BadPath => "Bad file path: no final segment."@,
        JokerError::Utf8DecodeFailure => "Response bytes are not valid UTF-8."@,
        JokerError::AddressParseFailure => "Could not parse the socket address."@,
    }
}

impl JokerError {
    /// A one-line description, for the invoking layer to print.
    pub fn message(&self) -> (r: String)
        ensures
            r@ == message_text(*self),
    {
        match self {
            JokerError::ConfigNotFound => String::from_str("Configuration file not found."),
            JokerError::ConfigMalformed => String::from_str("Configuration file is malformed."),
            JokerError::ConfigWriteFailure => String::from_str("Could not write the configuration file."),
            JokerError::UnknownDaemon => String::from_str("No such daemon in the registry."),
            JokerError::ConnectFailure => String::from_str("Could not connect to the daemon."),
            JokerError::IOFailure => String::from_str("A read or write on the connection failed."),
            JokerError::BadPath => String::from_str("Bad file path: no final segment."),
            JokerError::Utf8DecodeFailure => String::from_str("Response bytes are not valid UTF-8."),
            JokerError::AddressParseFailure => String::from_str("Could not parse the socket address."),
        }
    }
}

impl From<AbsentHashMapKeyError> for JokerError {
    /// An absent key means an unknown daemon name.
    fn from(_e: AbsentHashMapKeyError) -> (r: Self) {
        JokerError::UnknownDaemon
    }
}

impl vstd::std_specs::convert::FromSpecImpl<AbsentHashMapKeyError> for JokerError {
    open spec fn obeys_from_spec() -> bool {
        true
    }

    open spec fn from_spec(_e: AbsentHashMapKeyError) -> Self {
        JokerError::UnknownDaemon
    }
}

} // verus!
