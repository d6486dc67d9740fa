//! Provider clients: request planning, response streaming and error reporting.

pub mod stream;
pub mod think;
pub mod ollama;
pub mod openai;
pub mod separation;

pub use ollama::{OllamaClient, OllamaError};
pub use openai::OpenAiClient;
pub use stream::{decode_utf8_chunk, think_tag_prefix_len};

use vstd::prelude::*;

use crate::client::stream::{utf8_error_text, Utf8DecodeError};
use crate::text::{decimal, decimal_string, prefixed};

verus! {

/// Errors from any provider. Failures of the transport, of parsing and of I/O carry the
/// description of the underlying error.
#[derive(Debug)]
pub enum ClientError {
    Unreachable { provider: String, host: String, hint: String, source: Option<String> },
    AuthError { provider: String, message: String },
    ApiError { provider: String, status: u16, message: String },
    ParseError(String),
    NetworkError(String),
    IoError(String),
    Utf8Error(String),
    DataError(Utf8DecodeError),
}

/// The hint given when a local Ollama server cannot be reached.
pub open spec fn ollama_hint() -> Seq<char> {
    "Please make sure Ollama is installed and running (https://ollama.com)."@
}

/// `r` is the provider-independent form of the Ollama error `err`: an unreachable server
/// becomes `Unreachable` with the Ollama hint, an API error becomes an HTTP 500 API error
/// of provider "Ollama", and the other kinds keep their description.
pub open spec fn converted_from_ollama(err: OllamaError, r: ClientError) -> bool {
    match err {
        OllamaError::NotRunning { host, source } => r matches ClientError::Unreachable {
            provider,
            host: h,
            hint,
            source: Some(src),
        } && provider@ == "Ollama"@ && h@ == host@ && hint@ == ollama_hint() && src@ == source@,
        OllamaError::ApiError(m) => r matches ClientError::ApiError { provider, status, message }
            && provider@ == "Ollama"@ && status == 500 && message@ == m@,
        OllamaError::ParseError(e) => r matches ClientError::ParseError(x) && x@ == e@,
        OllamaError::NetworkError(e) => r matches ClientError::NetworkError(x) && x@ == e@,
        OllamaError::IoError(e) => r matches ClientError::IoError(x) && x@ == e@,
        OllamaError::Utf8Error(e) => r matches ClientError::Utf8Error(x) && x@ == e@,
        OllamaError::DataError(e) => r == ClientError::DataError(e),
    }
}

/// The conversion's contract is stated on `from` itself (`converted_from_ollama`): the
/// result holds new text, so it is described through views rather than as one spec value.
impl vstd::std_specs::convert::FromSpecImpl<OllamaError> for ClientError {
    open spec fn obeys_from_spec() -> bool {
        false
    }

    open spec fn from_spec(v: OllamaError) -> Self {
        ClientError::DataError(Utf8DecodeError { valid_up_to: 0, error_len: None })
    }
}

impl From<OllamaError> for ClientError {
    fn from(err: OllamaError) -> (r: Self)
        ensures
            converted_from_ollama(err, r),
    {
        match err {
            OllamaError::NotRunning { host, source } => ClientError::Unreachable {
                provider: String::from_str("Ollama"),
                host,
                hint: String::from_str(
                    "Please make sure Ollama is installed and running (https://ollama.com).",
                ),
                source: Some(source),
            },
            OllamaError::ApiError(msg) => ClientError::ApiError {
                provider: String::from_str("Ollama"),
                status: 500,
                message: msg,
            },
            OllamaError::ParseError(e) => ClientError::ParseError(e),
            OllamaError::NetworkError(e) => ClientError::NetworkError(e),
            OllamaError::IoError(e) => ClientError::IoError(e),
            OllamaError::Utf8Error(e) => ClientError::Utf8Error(e),
            OllamaError::DataError(e) => ClientError::DataError(e),
        }
    }
}

} // verus!

verus! {

/// The standard reason phrase that `http::StatusCode::canonical_reason` gives for a
/// status code, if it knows one.
pub uninterp spec fn status_reason_phrase(code: u16) -> Option<Seq<char>>;

/// `reqwest::StatusCode::canonical_reason`, for a status code given as a number.
/// The contract claims only that the result is the phrase named by
/// `status_reason_phrase` for that code (none for numbers that are not status codes).
#[verifier::external_body]
fn canonical_reason(code: u16) -> (r: Option<String>)
    ensures
        r matches Some(s) ==> status_reason_phrase(code) == Some(s@),
        r is None ==> status_reason_phrase(code) is None,
{
    match reqwest::StatusCode::from_u16(code) {
        Ok(status) => status.canonical_reason().map(|p| p.to_string()),
        Err(_) => None,
    }
}

/// A status code as `http::StatusCode` displays it: the number and its reason phrase.
pub open spec fn status_text(code: u16) -> Seq<char> {
    decimal(code as nat) + " "@ + match status_reason_phrase(code) {
        Some(p) => p,
        None => "<unknown status code>"@,
    }
}

/// Formats a status code with its reason phrase, e.g. `404 Not Found`.
pub fn status_code_text(code: u16) -> (s: String)
    ensures
        s@ == status_text(code),
{
    let mut s = decimal_string(code as u64);
    s.append(" ");
    match canonical_reason(code) {
        Some(p) => s.append(p.as_str()),
        None => s.append("<unknown status code>"),
    }
    s
}

/// The description of a client error, as it is shown to the user.
pub open spec fn client_error_text(e: ClientError) -> Seq<char> {
    match e {
        ClientError::Unreachable { provider, host, hint, .. } => provider@
            + " is not running or unreachable at "@ + host@ + ". "@ + hint@,
        ClientError::AuthError { provider, message } => "Authentication failed for "@ + provider@
            + ": "@ + message@,
        ClientError::ApiError { provider, status, message } => provider@ + " API error ("@
            + status_text(status) + "): "@ + message@,
        ClientError::ParseError(m) => "Failed to parse response: "@ + m@,
        ClientError::NetworkError(m) => "Network error: "@ + m@,
        ClientError::IoError(m) => "IO error: "@ + m@,
        ClientError::Utf8Error(m) => "Encoding error: "@ + m@,
        ClientError::DataError(d) => "Data conversion error: "@ + utf8_error_text(d),
    }
}

impl ClientError {
    /// The description of the error.
    pub fn message(&self) -> (s: String)
        ensures
            s@ == client_error_text(*self),
    {
        match self {
            ClientError::Unreachable { provider, host, hint, .. } => {
                let mut s = String::from_str(provider.as_str());
                s.append(" is not running or unreachable at ");
                s.append(host.as_str());
                s.append(". ");
                s.append(hint.as_str());
                s
            },
            ClientError::AuthError { provider, message } => {
                let mut s = String::from_str("Authentication failed for ");
                s.append(provider.as_str());
                s.append(": ");
                s.append(message.as_str());
                s
            },
            ClientError::ApiError { provider, status, message } => {
                let mut s = String::from_str(provider.as_str());
                s.append(" API error (");
                s.append(status_code_text(*status).as_str());
                s.append("): ");
                s.append(message.as_str());
                s
            },
            ClientError::ParseError(m) => prefixed("Failed to parse response: ", m.as_str()),
            ClientError::NetworkError(m) => prefixed("Network error: ", m.as_str()),
            ClientError::IoError(m) => prefixed("IO error: ", m.as_str()),
            ClientError::Utf8Error(m) => prefixed("Encoding error: ", m.as_str()),
            ClientError::DataError(d) => {
                let text = d.message();
                prefixed("Data conversion error: ", text.as_str())
            },
        }
    }
}

} // verus!

verus! {

/// The client of the active provider.
pub enum LlmClient {
    Ollama(OllamaClient),
    OpenAi(OpenAiClient),
}

impl LlmClient {
    /// The provider's display name: `Ollama` for the local server, else the configured name.
    pub fn provider_name(&self) -> (n: &str)
        ensures
            n@ == match self {
                LlmClient::Ollama(_) => "Ollama"@,
                LlmClient::OpenAi(c) => c.provider_name@,
            },
    {
        match self {
            LlmClient::Ollama(_) => "Ollama",
            LlmClient::OpenAi(c) => c.provider_name.as_str(),
        }
    }

    /// The model that answers.
    pub fn model(&self) -> (m: &str)
        ensures
            m@ == match self {
                LlmClient::Ollama(c) => c.model@,
                LlmClient::OpenAi(c) => c.model@,
            },
    {
        match self {
            LlmClient::Ollama(c) => c.model.as_str(),
            LlmClient::OpenAi(c) => c.model.as_str(),
        }
    }

    /// The server address: the Ollama host or the API base URL.
    pub fn host(&self) -> (h: &str)
        ensures
            h@ == match self {
                LlmClient::Ollama(c) => c.host@,
                LlmClient::OpenAi(c) => c.base_url@,
            },
    {
        match self {
            LlmClient::Ollama(c) => c.host.as_str(),
            LlmClient::OpenAi(c) => c.base_url.as_str(),
        }
    }
}

} // verus!
