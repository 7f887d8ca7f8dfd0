use vstd::prelude::*;

verus! {

use crate::exchanges::formatter::Exchange;
use vstd::string::StringExecFns;

/// The error taxonomy. Transport failures are recoverable by reconnect;
/// decode failures are fatal to the handler iteration that saw them;
/// sequence violations are recovered by clearing local state and awaiting
/// a fresh snapshot; metadata failures concern the one-shot listing fetch.
#[derive(Clone, Copy, Debug, PartialEq, Eq, Structural)]
pub enum FeedErrorKind {
    Connection,
    Decode,
    ProtocolSequence,
    MetadataFetch,
}

/// One tagged error type with a venue field, so supervisory code does not
/// need per-venue branches.
#[derive(Debug, Clone)]
pub struct FeedError {
    pub venue: Exchange,
    pub kind: FeedErrorKind,
    pub detail: String,
}

/// The per-venue socket error surface: transport failures and JSON decode
/// failures, each carrying the underlying error's description.
#[derive(Debug, Clone)]
pub enum SocketError {
    BinanceConnectionError(String),
    BinanceSerdeJsonError(String),
    BybitConnectionError(String),
    BybitSerdeJsonError(String),
    OkxConnectionError(String),
    OkxSerdeJsonError(String),
}

impl SocketError {
    /// The line this error displays as: its variant label, then the
    /// underlying description.
    pub fn describe(&self) -> (r: String)
        ensures
            self matches SocketError::BinanceConnectionError(d) ==> r@ == "BinanceConnectionError: "@
                + d@,
            self matches SocketError::BinanceSerdeJsonError(d) ==> r@ == "BinanceSerdeJsonError: "@
                + d@,
            self matches SocketError::BybitConnectionError(d) ==> r@ == "BybitConnectionError: "@
                + d@,
            self matches SocketError::BybitSerdeJsonError(d) ==> r@ == "BybitSerdeJsonError: "@
                + d@,
            self matches SocketError::OkxConnectionError(d) ==> r@ == "OkxConnectionError: "@ + d@,
            self matches SocketError::OkxSerdeJsonError(d) ==> r@ == "OkxSerdeJsonError: "@ + d@,
    {
        match self {
            SocketError::BinanceConnectionError(d) => {
                let mut r = "BinanceConnectionError: ".to_owned();
                r.append(d.as_str());
                r
            },
            SocketError::BinanceSerdeJsonError(d) => {
                let mut r = "BinanceSerdeJsonError: ".to_owned();
                r.append(d.as_str());
                r
            },
            SocketError::BybitConnectionError(d) => {
                let mut r = "BybitConnectionError: ".to_owned();
                r.append(d.as_str());
                r
            },
            SocketError::BybitSerdeJsonError(d) => {
                let mut r = "BybitSerdeJsonError: ".to_owned();
                r.append(d.as_str());
                r
            },
            SocketError::OkxConnectionError(d) => {
                let mut r = "OkxConnectionError: ".to_owned();
                r.append(d.as_str());
                r
            },
            SocketError::OkxSerdeJsonError(d) => {
                let mut r = "OkxSerdeJsonError: ".to_owned();
                r.append(d.as_str());
                r
            },
        }
    }
}

/// The metadata-fetch error surface: a transport failure's description,
/// or a non-success status from the listing endpoint.
#[derive(Debug, Clone)]
pub enum HttpError {
    BinanceApiError(String),
    BinanceSymbolError,
}

impl HttpError {
    /// The line this error displays as.
    pub fn describe(&self) -> (r: String)
        ensures
            self matches HttpError::BinanceApiError(d) ==> r@ == "BinanceApiError: "@ + d@,
            self matches HttpError::BinanceSymbolError ==> r@ == "BinanceSymbolError"@,
    {
        match self {
            HttpError::BinanceApiError(d) => {
                let mut r = "BinanceApiError: ".to_owned();
                r.append(d.as_str());
                r
            },
            HttpError::BinanceSymbolError => "BinanceSymbolError".to_owned(),
        }
    }
}

} // verus!
