//! The error taxonomy of the generator, with a verified rendering of each
//! error as human-readable message bytes.

use vstd::prelude::*;

verus! {

use vstd::utf8::encode_utf8;

/// Why a generation attempt failed. Every failure of the adapter is reported
/// as one of these values; none of them aborts the host process.
#[derive(Debug, PartialEq, Eq)]
pub enum GenerateError {
    /// The API credential was not present in the configuration.
    ConfigurationMissing,
    /// The API credential cannot be carried as an HTTP header value.
    CredentialFormatInvalid,
    /// The network call itself failed; carries the transport's description.
    TransportFailure(Vec<u8>),
    /// The provider answered with a non-success status; carries the status
    /// code and the response body text.
    RemoteError(u16, Vec<u8>),
    /// The provider answered with a success status but a body that is not
    /// valid JSON of the expected shape.
    ResponseParseFailure,
    /// The provider answered with a well-formed body holding zero choices.
    EmptyResult,
}

/// The decimal digits of `n`, as ASCII bytes, most significant first.
pub open spec fn spec_decimal_digits(n: nat) -> Seq<u8>
    decreases n,
{
    if n < 10 {
        seq![(48 + n) as u8]
    } else {
        spec_decimal_digits(n / 10).push((48 + n % 10) as u8)
    }
}

/// Renders `n` in decimal, most significant digit first.
pub fn decimal_digits(n: u32) -> (r: Vec<u8>)
    ensures
        r@ == spec_decimal_digits(n as nat),
    decreases n,
{
    if n < 10 {
        let mut v: Vec<u8> = Vec::new();
        v.push(48 + n as u8);
        proof {
            assert(v@ =~= spec_decimal_digits(n as nat));
        }
        v
    } else {
        let mut v = decimal_digits(n / 10);
        v.push(48 + (n % 10) as u8);
        v
    }
}

/// Copies the UTF-8 bytes of `s` into a fresh vector.
fn bytes_of(s: &str) -> (r: Vec<u8>)
    ensures
        r@ == encode_utf8(s@),
{
    let mut v: Vec<u8> = Vec::new();
    v.extend_from_slice(s.as_bytes());
    v
}

impl GenerateError {
    /// The message bytes that `describe` returns for this error.
    pub open spec fn spec_message(self) -> Seq<u8> {
        match self {
            GenerateError::ConfigurationMissing => encode_utf8(
                "DeepSeek API key is not configured; set DEEPSEEK_API_KEY in the environment"@,
            ),
            GenerateError::CredentialFormatInvalid => encode_utf8(
                "the configured API key cannot be used as an HTTP header value"@,
            ),
            GenerateError::TransportFailure(detail) => encode_utf8("DeepSeek API call failed: "@)
                + detail@,
            GenerateError::RemoteError(status, body) => encode_utf8(
                "API request failed with status "@,
            ) + spec_decimal_digits(status as nat) + encode_utf8(": "@) + body@,
            GenerateError::ResponseParseFailure => encode_utf8(
                "failed to parse the API response"@,
            ),
            GenerateError::EmptyResult => encode_utf8(
                "the API response contained no generated content"@,
            ),
        }
    }

    /// One human-readable line describing the failure, as UTF-8 bytes.
    pub fn describe(&self) -> (r: Vec<u8>)
        ensures
            r@ == self.spec_message(),
    {
        match self {
            GenerateError::ConfigurationMissing => bytes_of(
                "DeepSeek API key is not configured; set DEEPSEEK_API_KEY in the environment",
            ),
            GenerateError::CredentialFormatInvalid => bytes_of(
                "the configured API key cannot be used as an HTTP header value",
            ),
            GenerateError::TransportFailure(detail) => {
                let mut v = bytes_of("DeepSeek API call failed: ");
                v.extend_from_slice(detail.as_slice());
                v
            },
            GenerateError::RemoteError(status, body) => {
                let mut v = bytes_of("API request failed with status ");
                let digits = decimal_digits(*status as u32);
                v.extend_from_slice(digits.as_slice());
                let sep = bytes_of(": ");
                v.extend_from_slice(sep.as_slice());
                v.extend_from_slice(body.as_slice());
                proof {
                    assert(v@ =~= self.spec_message());
                }
                v
            },
            GenerateError::ResponseParseFailure => bytes_of("failed to parse the API response"),
            GenerateError::EmptyResult => bytes_of(
                "the API response contained no generated content",
            ),
        }
    }
}

} // verus!
