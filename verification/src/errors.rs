use vstd::prelude::*;
use vstd::string::StringExecFns;

use crate::address::{numeral, push_numeral, IpAddr};

verus! {

/// What can go wrong while bytes are read from or written to a message buffer.
#[derive(Debug, Clone, Copy, PartialEq, Eq)]
pub enum PacketError {
    /// A read would pass the end of the buffer.
    BufferUnderrun,
    /// A write would pass the end of the buffer.
    BufferOverrun,
    /// A compression pointer targets a position outside the buffer.
    PointerOutOfBounds,
    /// A compression pointer does not point strictly backwards, or a chain of
    /// pointers is longer than any chain without a cycle can be.
    PointerCycle,
    /// A label is longer than 63 bytes.
    LabelTooLong,
    /// The response code of a header is not one of the known codes.
    InvalidResponseCode,
    /// The class code is not one of the known classes.
    UnknownClass,
    /// The type code of a record is not one of the known record types.
    UnknownRecordType,
    /// The declared length of a record's data contradicts its type.
    InvalidRecord,
    /// The bytes of a text record are not UTF-8.
    InvalidText,
    /// An answer holds no record data.
    NoRecordData,
}

/// Why a server could not be set up.
#[derive(Debug, Clone, Copy, PartialEq, Eq)]
pub enum ConfigError {
    NoResolverEspecified,
    NoPortSpecified,
    FailedToCreateServer,
}

impl ConfigError {
    /// The text that tells an operator what went wrong.
    pub open spec fn spec_message(self) -> Seq<char> {
        match self {
            ConfigError::NoResolverEspecified => "No resolver specified"@,
            ConfigError::NoPortSpecified => "No port specified"@,
            ConfigError::FailedToCreateServer => "Error creating server"@,
        }
    }

    /// The text that tells an operator what went wrong.
    pub fn message(&self) -> (r: &'static str)
        ensures
            r@ == self.spec_message(),
    {
        match self {
            ConfigError::NoResolverEspecified => "No resolver specified",
            ConfigError::NoPortSpecified => "No port specified",
            ConfigError::FailedToCreateServer => "Error creating server",
        }
    }
}

/// Why a server could not start.
#[derive(Debug, Clone, Copy, PartialEq, Eq)]
pub enum ServerError {
    FailedToBindSocket,
}

impl ServerError {
    /// The text that tells an operator what went wrong.
    pub open spec fn spec_message(self) -> Seq<char> {
        "Failed to bind socket, maybe the port is already in use or you don't have permission to bind it."@
    }

    /// The text that tells an operator what went wrong.
    pub fn message(&self) -> (r: &'static str)
        ensures
            r@ == self.spec_message(),
    {
        match self {
            ServerError::FailedToBindSocket => "Failed to bind socket, maybe the port is already in use or you don't have permission to bind it.",
        }
    }
}

/// At which stage the handling of one datagram failed.
#[derive(Debug, Clone, Copy, PartialEq, Eq)]
pub enum QueryError {
    FailedToSerializeQuery,
    FailetToResolveQuery,
    FailedToDeserializeResponse,
    FailedToSerializeResponse,
}

impl QueryError {
    /// The text that tells an operator what went wrong.
    pub open spec fn spec_message(self) -> Seq<char> {
        match self {
            QueryError::FailedToSerializeQuery => "Failed to serialize query"@,
            QueryError::FailedToDeserializeResponse => "Failed to deserialize response"@,
            QueryError::FailedToSerializeResponse => "Failed to serialize response"@,
            QueryError::FailetToResolveQuery => "Failed to resolve query"@,
        }
    }

    /// The text that tells an operator what went wrong.
    pub fn message(&self) -> (r: &'static str)
        ensures
            r@ == self.spec_message(),
    {
        match self {
            QueryError::FailedToSerializeQuery => "Failed to serialize query",
            QueryError::FailedToDeserializeResponse => "Failed to deserialize response",
            QueryError::FailedToSerializeResponse => "Failed to serialize response",
            QueryError::FailetToResolveQuery => "Failed to resolve query",
        }
    }
}

/// Why the mirror server could not be asked. Where the operating system
/// gave a reason, the error holds it as text.
#[derive(Debug, Clone, PartialEq, Eq)]
pub enum LookupError {
    FailedToBindSocket(String),
    FailedToConnectSocket { ip: IpAddr, port: u16 },
    FailedToSetReadTimeout,
    FailedToSendQuery,
    FailedToReceiveResponse(String),
    Timeout,
}

/// What a lookup error holds.
pub enum LookupErrorView {
    FailedToBindSocket(Seq<char>),
    FailedToConnectSocket { ip: IpAddr, port: u16 },
    FailedToSetReadTimeout,
    FailedToSendQuery,
    FailedToReceiveResponse(Seq<char>),
    Timeout,
}

impl View for LookupError {
    type V = LookupErrorView;

    open spec fn view(&self) -> LookupErrorView {
        match self {
            LookupError::FailedToBindSocket(reason) => LookupErrorView::FailedToBindSocket(reason@),
            LookupError::FailedToConnectSocket { ip, port } => {
                LookupErrorView::FailedToConnectSocket { ip: *ip, port: *port }
            },
            LookupError::FailedToSetReadTimeout => LookupErrorView::FailedToSetReadTimeout,
            LookupError::FailedToSendQuery => LookupErrorView::FailedToSendQuery,
            LookupError::FailedToReceiveResponse(reason) => {
                LookupErrorView::FailedToReceiveResponse(reason@)
            },
            LookupError::Timeout => LookupErrorView::Timeout,
        }
    }
}

impl LookupErrorView {
    /// The text that tells an operator what went wrong.
    pub open spec fn message(self) -> Seq<char> {
        match self {
            LookupErrorView::FailedToBindSocket(reason) => "Failed to bind socket: "@ + reason,
            LookupErrorView::FailedToConnectSocket { ip, port } => "Failed to connect to socket "@
                + ip.spec_text() + seq![':'] + numeral(port as nat, 10),
            LookupErrorView::FailedToSetReadTimeout => "Failed to set read timeout"@,
            LookupErrorView::FailedToSendQuery => "Failed to send query"@,
            LookupErrorView::FailedToReceiveResponse(reason) => "Failed to receive response: "@
                + reason,
            LookupErrorView::Timeout => "Timeout, no response received"@,
        }
    }
}

impl LookupError {
    /// The text that tells an operator what went wrong.
    pub fn message(&self) -> (r: String)
        ensures
            r@ == self@.message(),
    {
        match self {
            LookupError::FailedToBindSocket(reason) => {
                String::from_str("Failed to bind socket: ").concat(reason.as_str())
            },
            LookupError::FailedToConnectSocket { ip, port } => {
                let mut s = String::from_str("Failed to connect to socket ");
                ip.push_text(&mut s);
                s.push(':');
                push_numeral(&mut s, *port, 10);
                proof {
                    assert(s@ =~= self@.message());
                }
                s
            },
            LookupError::FailedToSetReadTimeout => String::from_str("Failed to set read timeout"),
            LookupError::FailedToSendQuery => String::from_str("Failed to send query"),
            LookupError::FailedToReceiveResponse(reason) => {
                String::from_str("Failed to receive response: ").concat(reason.as_str())
            },
            LookupError::Timeout => String::from_str("Timeout, no response received"),
        }
    }
}

/// Which part of a message could not be read.
#[derive(Debug, Clone, Copy, PartialEq, Eq)]
pub enum DeserializeError {
    InvalidHeader,
    InvalidQuestion,
    InvalidAnswer,
    InvalidAuthority,
    InvalidAdditional,
    InvalidRecord,
}

impl DeserializeError {
    /// The text that tells an operator what went wrong.
    pub open spec fn spec_message(self) -> Seq<char> {
        match self {
            DeserializeError::InvalidHeader => "Failed to deserialize header"@,
            DeserializeError::InvalidQuestion => "Failed to deserialize question"@,
            DeserializeError::InvalidAnswer => "Failed to deserialize answer"@,
            DeserializeError::InvalidAuthority => "Failed to deserialize authority"@,
            DeserializeError::InvalidAdditional => "Failed to deserialize additional"@,
            DeserializeError::InvalidRecord => "Failed to deserialize record"@,
        }
    }

    /// The text that tells an operator what went wrong.
    pub fn message(&self) -> (r: &'static str)
        ensures
            r@ == self.spec_message(),
    {
        match self {
            DeserializeError::InvalidHeader => "Failed to deserialize header",
            DeserializeError::InvalidQuestion => "Failed to deserialize question",
            DeserializeError::InvalidAnswer => "Failed to deserialize answer",
            DeserializeError::InvalidAuthority => "Failed to deserialize authority",
            DeserializeError::InvalidAdditional => "Failed to deserialize additional",
            DeserializeError::InvalidRecord => "Failed to deserialize record",
        }
    }
}

/// Which part of a message could not be written.
#[derive(Debug, Clone, Copy, PartialEq, Eq)]
pub enum SerializeError {
    InvalidHeader,
    InvalidQuestion,
    InvalidAnswer,
    InvalidAuthority,
    InvalidAdditional,
    InvalidRecord,
}

impl SerializeError {
    /// The text that tells an operator what went wrong.
    pub open spec fn spec_message(self) -> Seq<char> {
        match self {
            SerializeError::InvalidHeader => "Failed to serialize header"@,
            SerializeError::InvalidQuestion => "Failed to serialize question"@,
            SerializeError::InvalidAnswer => "Failed to serialize answer"@,
            SerializeError::InvalidAuthority => "Failed to serialize authority"@,
            SerializeError::InvalidAdditional => "Failed to serialize additional"@,
            SerializeError::InvalidRecord => "Failed to serialize record"@,
        }
    }

    /// The text that tells an operator what went wrong.
    pub fn message(&self) -> (r: &'static str)
        ensures
            r@ == self.spec_message(),
    {
        match self {
            SerializeError::InvalidHeader => "Failed to serialize header",
            SerializeError::InvalidQuestion => "Failed to serialize question",
            SerializeError::InvalidAnswer => "Failed to serialize answer",
            SerializeError::InvalidAuthority => "Failed to serialize authority",
            SerializeError::InvalidAdditional => "Failed to serialize additional",
            SerializeError::InvalidRecord => "Failed to serialize record",
        }
    }
}

} // verus!
