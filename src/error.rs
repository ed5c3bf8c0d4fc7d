use crate::network::Response;
use vstd::prelude::*;

verus! {

#[verifier::external_type_specification]
#[verifier::external_body]
pub struct ExReqwestError(reqwest::Error);

#[verifier::external_type_specification]
#[verifier::external_body]
pub struct ExJsonError(serde_json::Error);

#[verifier::external_type_specification]
#[verifier::external_body]
pub struct ExUrlParseError(url::ParseError);

#[verifier::external_type_specification]
#[verifier::external_body]
pub struct ExHttpError(http::Error);

#[verifier::external_type_specification]
#[verifier::external_body]
pub struct ExIoError(std::io::Error);

/// Every failure of the transport and the operations built on it.
#[derive(Debug)]
pub enum SDKError {
    /// The connection or the exchange failed.
    Network(reqwest::Error),
    /// No credential could be had before the request was built.
    Auth,
    /// A response body did not have the expected shape.
    Deserialize(serde_json::Error),
    /// A target URL, or the API root it was resolved against, is malformed.
    InvalidURL(url::ParseError),
    /// A header name or value is not allowed on the wire.
    InvalidHeader(http::Error),
    /// A local file could not be read or written.
    FileIO(std::io::Error),
    /// The remote answered with a status outside 2xx; the response is kept.
    APIError { response: Response },
}

impl SDKError {
    /// A short description of the failure, for a message to the user.
    pub fn kind(&self) -> (r: &'static str)
        ensures
            self is Network ==> r@ == "network error"@,
            self is Auth ==> r@ == "authentication error"@,
            self is Deserialize ==> r@ == "deserialization error"@,
            self is InvalidURL ==> r@ == "invalid url"@,
            self is InvalidHeader ==> r@ == "invalid header"@,
            self is FileIO ==> r@ == "error reading file"@,
            self is APIError ==> r@ == "api error"@,
    {
        match self {
            SDKError::Network(_) => "network error",
            SDKError::Auth => "authentication error",
            SDKError::Deserialize(_) => "deserialization error",
            SDKError::InvalidURL(_) => "invalid url",
            SDKError::InvalidHeader(_) => "invalid header",
            SDKError::FileIO(_) => "error reading file",
            SDKError::APIError { .. } => "api error",
        }
    }
}

impl From<reqwest::Error> for SDKError {
    fn from(e: reqwest::Error) -> (r: SDKError) {
        SDKError::Network(e)
    }
}

impl vstd::std_specs::convert::FromSpecImpl<reqwest::Error> for SDKError {
    open spec fn obeys_from_spec() -> bool {
        true
    }

    open spec fn from_spec(e: reqwest::Error) -> SDKError {
        SDKError::Network(e)
    }
}

impl From<serde_json::Error> for SDKError {
    fn from(e: serde_json::Error) -> (r: SDKError) {
        SDKError::Deserialize(e)
    }
}

impl vstd::std_specs::convert::FromSpecImpl<serde_json::Error> for SDKError {
    open spec fn obeys_from_spec() -> bool {
        true
    }

    open spec fn from_spec(e: serde_json::Error) -> SDKError {
        SDKError::Deserialize(e)
    }
}

impl From<url::ParseError> for SDKError {
    fn from(e: url::ParseError) -> (r: SDKError) {
        SDKError::InvalidURL(e)
    }
}

impl vstd::std_specs::convert::FromSpecImpl<url::ParseError> for SDKError {
    open spec fn obeys_from_spec() -> bool {
        true
    }

    open spec fn from_spec(e: url::ParseError) -> SDKError {
        SDKError::InvalidURL(e)
    }
}

impl From<http::Error> for SDKError {
    fn from(e: http::Error) -> (r: SDKError) {
        SDKError::InvalidHeader(e)
    }
}

impl vstd::std_specs::convert::FromSpecImpl<http::Error> for SDKError {
    open spec fn obeys_from_spec() -> bool {
        true
    }

    open spec fn from_spec(e: http::Error) -> SDKError {
        SDKError::InvalidHeader(e)
    }
}

impl From<std::io::Error> for SDKError {
    fn from(e: std::io::Error) -> (r: SDKError) {
        SDKError::FileIO(e)
    }
}

impl vstd::std_specs::convert::FromSpecImpl<std::io::Error> for SDKError {
    open spec fn obeys_from_spec() -> bool {
        true
    }

    open spec fn from_spec(e: std::io::Error) -> SDKError {
        SDKError::FileIO(e)
    }
}

} // verus!
