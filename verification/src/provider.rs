//! Provider identities and the error taxonomy of the proxy.

use vstd::prelude::*;
use vstd::string::StringExecFns;

verus! {

/// The upstream provider families the proxy can talk to. The GPT-style and
/// Mistral-style providers share one wire format; the Gemini-style provider
/// has its own event schema and carries the key in the URL instead of a
/// bearer header.
#[derive(Clone, Copy, PartialEq, Eq, Structural, Debug)]
pub enum ProviderKind {
    Gemini,
    Mistral,
    Gpt,
}

/// How a provider path treats a `data:` line that cannot be decoded as one
/// well-formed event: abort the whole stream, or keep the line in the buffer
/// and retry once more bytes have arrived.
#[derive(Clone, Copy, PartialEq, Eq, Structural, Debug)]
pub enum ParsePolicy {
    FatalAbort,
    BufferRetry,
}

impl ProviderKind {
    /// The policy each provider family ships with: the Gemini-style path
    /// aborts on an undecodable line, the bearer-header paths buffer it and
    /// wait for the rest of the frame.
    pub open spec fn spec_default_policy(self) -> ParsePolicy {
        match self {
            ProviderKind::Gemini => ParsePolicy::FatalAbort,
            ProviderKind::Mistral => ParsePolicy::BufferRetry,
            ProviderKind::Gpt => ParsePolicy::BufferRetry,
        }
    }

    pub fn default_policy(self) -> (p: ParsePolicy)
        ensures
            p == self.spec_default_policy(),
    {
        match self {
            ProviderKind::Gemini => ParsePolicy::FatalAbort,
            ProviderKind::Mistral => ParsePolicy::BufferRetry,
            ProviderKind::Gpt => ParsePolicy::BufferRetry,
        }
    }
}

/// Why a caller-supplied credential was rejected: the string did not have the
/// `<hex-iv>:<hex-ciphertext>` shape, or it did and the cipher or the UTF-8
/// check refused it.
#[derive(Clone, Copy, PartialEq, Eq, Structural, Debug)]
pub enum CredentialError {
    MalformedCredential,
    DecryptionFailure,
}

/// Everything that can go wrong in a proxied request. The first three arise
/// before any output byte and are answered with a status code; the last two
/// can only surface as abrupt stream termination.
#[derive(Clone, Copy, PartialEq, Eq, Structural, Debug)]
pub enum ProxyError {
    Configuration,
    Credential(CredentialError),
    UpstreamUnreachable,
    StreamParseFailure,
    TransportError,
}

impl ProxyError {
    /// The HTTP status for an error that occurs before streaming begins: a
    /// bad credential is the client's fault, everything else the server's.
    pub fn status_code(&self) -> (s: u16)
        ensures
            s == 400 <==> self is Credential,
            self is Credential || s == 500,
    {
        match self {
            ProxyError::Credential(_) => 400,
            ProxyError::Configuration => 500,
            ProxyError::UpstreamUnreachable => 500,
            ProxyError::StreamParseFailure => 500,
            ProxyError::TransportError => 500,
        }
    }

    /// The response body, or log line, each error carries.
    pub open spec fn spec_message(self) -> Seq<char> {
        match self {
            ProxyError::Configuration => "DECRYPTION_KEY must be set"@,
            ProxyError::Credential(_) => "Invalid API key"@,
            ProxyError::UpstreamUnreachable => "Failed to reach upstream API"@,
            ProxyError::StreamParseFailure => "Parsing error"@,
            ProxyError::TransportError => "Stream read error"@,
        }
    }

    pub fn message(&self) -> (m: String)
        ensures
            m@ == self.spec_message(),
    {
        match self {
            ProxyError::Configuration => String::from_str("DECRYPTION_KEY must be set"),
            ProxyError::Credential(_) => String::from_str("Invalid API key"),
            ProxyError::UpstreamUnreachable => String::from_str("Failed to reach upstream API"),
            ProxyError::StreamParseFailure => String::from_str("Parsing error"),
            ProxyError::TransportError => String::from_str("Stream read error"),
        }
    }
}


/// Screens an upstream response status before any byte is relayed: only a
/// success status admits streaming; anything else is `UpstreamUnreachable`,
/// reported with no partial stream ever started.
pub fn check_upstream_status(status: u16) -> (r: Result<(), ProxyError>)
    ensures
        r is Ok <==> 200 <= status < 300,
        !(200 <= status < 300) ==> (r matches Err(e) && e is UpstreamUnreachable),
{
    if 200 <= status && status < 300 {
        Ok(())
    } else {
        Err(ProxyError::UpstreamUnreachable)
    }
}

} // verus!
