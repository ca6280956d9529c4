//! A streaming inference proxy core: a credential codec that recovers a
//! provider API key from an encrypted caller credential, request builders for
//! three upstream chat-completion providers, and a normalizer that turns each
//! provider's server-sent-event byte stream into one line-delimited JSON
//! message stream.

pub mod credential;
pub mod jsontext;
pub mod payload;
pub mod provider;
pub mod sse;
pub mod store;

pub use provider::CredentialError;
pub use provider::ProviderKind;
pub use provider::ProxyError;
