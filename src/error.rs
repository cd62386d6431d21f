//! The errors of the store and the text and status each is reported with.
use vstd::prelude::*;
use vstd::string::StringExecFns;

use crate::pb::{
    CommandResponse, ResponseView, STATUS_BAD_REQUEST, STATUS_INTERNAL_SERVER_ERROR,
    STATUS_NOT_FOUND,
};

verus! {

/// Every failure the store knows of.
#[derive(Clone, Debug, PartialEq)]
pub enum KvError {
    NotFound(String, String),
    NotSubscription(String),
    InvalidCommand(String),
    ConvertError(String, String),
    StorageError(String, String, String, String),
    EncodeError,
    DecodeError,
    Internal(String),
    SledError(String),
    FrameError,
    IoError,
    TlsError(String),
    CertifcateParseError(String, String),
    ConfigError,
}

impl KvError {
    /// The human-readable text of an error.
    pub open spec fn spec_message(&self) -> Seq<char> {
        match self {
            KvError::NotFound(t, k) => "Not found for table: "@ + t@ + ", key: "@ + k@,
            KvError::NotSubscription(s) => "Not found: "@ + s@,
            KvError::InvalidCommand(s) => "Cannot parse command: `"@ + s@ + "`"@,
            KvError::ConvertError(v, ty) => "Cannot convert value \""@ + v@ + "\" to "@ + ty@,
            KvError::StorageError(op, t, k, e) => "Cannot process command "@ + op@
                + " with table: "@ + t@ + ", key: "@ + k@ + ". Error: "@ + e@,
            KvError::EncodeError => "Failed to encode protobuf message"@,
            KvError::DecodeError => "Failed to decode protobuf message"@,
            KvError::Internal(s) => "Internal error: "@ + s@,
            KvError::SledError(s) => "Sled error: "@ + s@,
            KvError::FrameError => "Frame error"@,
            KvError::IoError => "Io error"@,
            KvError::TlsError(s) => "TLS error: "@ + s@,
            KvError::CertifcateParseError(a, b) => "TLS error: "@ + a@ + " "@ + b@,
            KvError::ConfigError => "Parse config error"@,
        }
    }

    /// The status a response carries for this error.
    pub open spec fn spec_status(&self) -> u32 {
        match self {
            KvError::NotFound(_, _) => STATUS_NOT_FOUND,
            KvError::InvalidCommand(_) => STATUS_BAD_REQUEST,
            _ => STATUS_INTERNAL_SERVER_ERROR,
        }
    }

    /// The response that reports this error.
    pub open spec fn spec_response(&self) -> ResponseView {
        ResponseView {
            status: self.spec_status(),
            message: self.spec_message(),
            values: Seq::empty(),
            pairs: Seq::empty(),
        }
    }

    pub fn message(&self) -> (r: String)
        ensures
            r@ == self.spec_message(),
    {
        match self {
            KvError::NotFound(t, k) => {
                let mut m = String::from_str("Not found for table: ");
                m.append(t.as_str());
                m.append(", key: ");
                m.append(k.as_str());
                m
            },
            KvError::NotSubscription(s) => {
                let mut m = String::from_str("Not found: ");
                m.append(s.as_str());
                m
            },
            KvError::InvalidCommand(s) => {
                let mut m = String::from_str("Cannot parse command: `");
                m.append(s.as_str());
                m.append("`");
                m
            },
            KvError::ConvertError(v, ty) => {
                let mut m = String::from_str("Cannot convert value \"");
                m.append(v.as_str());
                m.append("\" to ");
                m.append(ty.as_str());
                m
            },
            KvError::StorageError(op, t, k, e) => {
                let mut m = String::from_str("Cannot process command ");
                m.append(op.as_str());
                m.append(" with table: ");
                m.append(t.as_str());
                m.append(", key: ");
                m.append(k.as_str());
                m.append(". Error: ");
                m.append(e.as_str());
                m
            },
            KvError::EncodeError => String::from_str("Failed to encode protobuf message"),
            KvError::DecodeError => String::from_str("Failed to decode protobuf message"),
            KvError::Internal(s) => {
                let mut m = String::from_str("Internal error: ");
                m.append(s.as_str());
                m
            },
            KvError::SledError(s) => {
                let mut m = String::from_str("Sled error: ");
                m.append(s.as_str());
                m
            },
            KvError::FrameError => String::from_str("Frame error"),
            KvError::IoError => String::from_str("Io error"),
            KvError::TlsError(s) => {
                let mut m = String::from_str("TLS error: ");
                m.append(s.as_str());
                m
            },
            KvError::CertifcateParseError(a, b) => {
                let mut m = String::from_str("TLS error: ");
                m.append(a.as_str());
                m.append(" ");
                m.append(b.as_str());
                m
            },
            KvError::ConfigError => String::from_str("Parse config error"),
        }
    }
}

impl CommandResponse {
    /// Reports an error: 404 for a missing key, 400 for an invalid command, 500 otherwise,
    /// with the error's text as the message.
    pub fn from_error(e: KvError) -> (r: Self)
        ensures
            r@ == e.spec_response(),
    {
        let status: u32 = match e {
            KvError::NotFound(_, _) => STATUS_NOT_FOUND,
            KvError::InvalidCommand(_) => STATUS_BAD_REQUEST,
            _ => STATUS_INTERNAL_SERVER_ERROR,
        };
        let r = CommandResponse { status, message: e.message(), values: Vec::new(), pairs: Vec::new() };
        assert(r@.values =~= Seq::<crate::pb::ValueView>::empty());
        assert(r@.pairs =~= Seq::<(Seq<char>, crate::pb::ValueView)>::empty());
        r
    }
}

} // verus!
