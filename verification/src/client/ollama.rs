//! The Ollama provider: request planning, status handling and the streaming engine.

use vstd::prelude::*;

use crate::client::stream::{utf8_error_text, Utf8DecodeError};
use crate::client::{status_code_text, status_text};
use crate::client::stream::{
    can_extend_to_valid_utf8, decode_utf8_chunk, longest_valid_prefix_len, utf8_error_length,
};
use crate::client::think::{
    answer_text, pieces, think_finish, think_push, StreamOutput, ThinkFilter, ThinkState,
};
use crate::text::{
    after_last_line, complete_lines, drop_empty_lines, nonempty_lines, prefixed, take_lines, trim,
};
use vstd::utf8::decode_utf8;

verus! {

/// Errors from talking to a local Ollama server. Failures of the transport, of parsing
/// and of I/O carry the description of the underlying error.
#[derive(Debug)]
pub enum OllamaError {
    NotRunning { host: String, source: String },
    ApiError(String),
    ParseError(String),
    NetworkError(String),
    IoError(String),
    Utf8Error(String),
    DataError(Utf8DecodeError),
}

} // verus!

verus! {

/// The description of an Ollama error, as it is shown to the user.
pub open spec fn ollama_error_text(e: OllamaError) -> Seq<char> {
    match e {
        OllamaError::NotRunning { host, .. } => "Ollama is not running or unreachable at "@ + host@
            + ". Please make sure Ollama is installed and running (https://ollama.com)."@,
        OllamaError::ApiError(m) => "Ollama API error: "@ + m@,
        OllamaError::ParseError(m) => "Failed to parse response from Ollama: "@ + m@,
        OllamaError::NetworkError(m) => "Network error communicating with Ollama: "@ + m@,
        OllamaError::IoError(m) => "IO error: "@ + m@,
        OllamaError::Utf8Error(m) => "Encoding error: "@ + m@,
        OllamaError::DataError(d) => "Data conversion error: "@ + utf8_error_text(d),
    }
}

impl OllamaError {
    /// The description of the error.
    pub fn message(&self) -> (s: String)
        ensures
            s@ == ollama_error_text(*self),
    {
        match self {
            OllamaError::NotRunning { host, .. } => {
                let mut s = String::from_str("Ollama is not running or unreachable at ");
                s.append(host.as_str());
                s.append(
                    ". Please make sure Ollama is installed and running (https://ollama.com).",
                );
                s
            },
            OllamaError::ApiError(m) => prefixed("Ollama API error: ", m.as_str()),
            OllamaError::ParseError(m) => prefixed(
                "Failed to parse response from Ollama: ",
                m.as_str(),
            ),
            OllamaError::NetworkError(m) => prefixed(
                "Network error communicating with Ollama: ",
                m.as_str(),
            ),
            OllamaError::IoError(m) => prefixed("IO error: ", m.as_str()),
            OllamaError::Utf8Error(m) => prefixed("Encoding error: ", m.as_str()),
            OllamaError::DataError(d) => {
                let text = d.message();
                prefixed("Data conversion error: ", text.as_str())
            },
        }
    }
}

} // verus!

verus! {

/// A client for a local Ollama server: where it runs and which model answers.
pub struct OllamaClient {
    pub host: String,
    pub model: String,
}

/// The message for a model the server does not have.
pub open spec fn model_not_found_text(model: Seq<char>) -> Seq<char> {
    "Model '"@ + model + "' not found. You may need to pull it first using 'ollama pull "@ + model
        + "'"@
}

/// The error for an HTTP response status from Ollama when asking with `model`: none for
/// a success (2xx), a hint to pull the model for 404, and the status itself otherwise.
pub open spec fn ollama_status_outcome(model: Seq<char>, status: u16) -> Option<Seq<char>> {
    if 200 <= status < 300 {
        None
    } else if status == 404 {
        Some(model_not_found_text(model))
    } else {
        Some(status_text(status))
    }
}

/// Turns an HTTP response status from Ollama, for a request that asked for `model`, into
/// the error it means (`None` for a success).
pub fn response_error(model: &str, status: u16) -> (r: Option<OllamaError>)
    ensures
        ollama_status_outcome(model@, status) is None <==> r is None,
        ollama_status_outcome(model@, status) matches Some(m) ==> (r matches Some(
            OllamaError::ApiError(x),
        ) && x@ == m),
{
    if 200 <= status && status < 300 {
        None
    } else if status == 404 {
        let mut m = String::from_str("Model '");
        m.append(model);
        m.append("' not found. You may need to pull it first using 'ollama pull ");
        m.append(model);
        m.append("'");
        Some(OllamaError::ApiError(m))
    } else {
        Some(OllamaError::ApiError(status_code_text(status)))
    }
}

impl OllamaClient {
    /// A client for the server at `host` that asks `model`.
    pub fn new(host: String, model: String) -> (c: Self)
        ensures
            c.host == host,
            c.model == model,
    {
        OllamaClient { host, model }
    }

    /// The URL of the streaming generation endpoint.
    pub fn generate_url(&self) -> (u: String)
        ensures
            u@ == self.host@ + "/api/generate"@,
    {
        let mut u = String::from_str(self.host.as_str());
        u.append("/api/generate");
        u
    }

    /// The URL of the embeddings endpoint.
    pub fn embeddings_url(&self) -> (u: String)
        ensures
            u@ == self.host@ + "/api/embeddings"@,
    {
        let mut u = String::from_str(self.host.as_str());
        u.append("/api/embeddings");
        u
    }

    /// The error for a request that could not be sent: a failure to connect or a
    /// timeout means the server is not running; anything else is a network error.
    pub fn send_error(&self, unreachable: bool, detail: String) -> (e: OllamaError)
        ensures
            unreachable ==> (e matches OllamaError::NotRunning { host, source } && host@
                == self.host@ && source == detail),
            !unreachable ==> e == OllamaError::NetworkError(detail),
    {
        if unreachable {
            OllamaError::NotRunning { host: self.host.clone(), source: detail }
        } else {
            OllamaError::NetworkError(detail)
        }
    }
}

} // verus!

verus! {

/// The state of an Ollama response being streamed: bytes of an unfinished character,
/// text of an unfinished line, and the reasoning filter.
pub struct OllamaStreamState {
    pub raw: Seq<u8>,
    pub text: Seq<char>,
    pub filter: ThinkState,
}

/// The streaming engine for one Ollama response (newline-delimited JSON objects whose
/// `response` field carries the next piece of the answer).
pub struct OllamaStream {
    raw: Vec<u8>,
    text: String,
    filter: ThinkFilter,
}

impl View for OllamaStream {
    type V = OllamaStreamState;

    closed spec fn view(&self) -> OllamaStreamState {
        OllamaStreamState { raw: self.raw@, text: self.text@, filter: self.filter@ }
    }
}

impl OllamaStream {
    /// The engine at the start of a response.
    pub fn new() -> (s: Self)
        ensures
            s@.raw.len() == 0,
            s@.text.len() == 0,
            s@.filter == (ThinkState {
                in_think: false,
                buffer: Seq::empty(),
                response: Seq::empty(),
                closed_block: false,
            }),
    {
        OllamaStream { raw: Vec::new(), text: String::new(), filter: ThinkFilter::new() }
    }

    /// Takes the next chunk of the response body and returns the complete, non-empty
    /// lines it finishes, each one JSON object to parse. Fails when the bytes cannot be
    /// UTF-8 whatever follows.
    pub fn push_bytes(&mut self, chunk: &[u8]) -> (r: Result<Vec<String>, OllamaError>)
        ensures
            ({
                let bytes = old(self)@.raw + chunk@;
                let k = longest_valid_prefix_len(bytes);
                let text = old(self)@.text + decode_utf8(bytes.take(k));
                &&& final(self)@.raw == bytes.skip(k)
                &&& final(self)@.filter == old(self)@.filter
                &&& (r is Ok <==> can_extend_to_valid_utf8(bytes))
                &&& (r matches Ok(lines) ==> lines@.map_values(|l: String| l@) == nonempty_lines(
                    complete_lines(text),
                ) && final(self)@.text == after_last_line(text))
                &&& (r matches Err(e) ==> final(self)@.text == text && (e matches OllamaError::DataError(d)
                    && d.valid_up_to == 0 && d.error_len is Some && d.error_len == utf8_error_length(
                    final(self)@.raw)))
            }),
    {
        match decode_utf8_chunk(&mut self.raw, chunk, &mut self.text) {
            Ok(()) => {
                let lines = take_lines(&mut self.text);
                Ok(drop_empty_lines(&lines))
            },
            Err(e) => Err(OllamaError::DataError(e)),
        }
    }

    /// Takes the `response` field of the next JSON object and returns what to show.
    pub fn push_content(&mut self, content: &str) -> (outs: Vec<StreamOutput>)
        ensures
            (final(self)@.filter, pieces(outs@)) == think_push(old(self)@.filter, content@),
            final(self)@.filter.response == old(self)@.filter.response + answer_text(
                pieces(outs@),
            ),
            final(self)@.raw == old(self)@.raw,
            final(self)@.text == old(self)@.text,
    {
        self.filter.push_content(content)
    }

    /// Ends the response: returns what is left to show and the answer, trimmed.
    pub fn finish(&mut self) -> (r: (Vec<StreamOutput>, String))
        ensures
            (final(self)@.filter, pieces(r.0@)) == think_finish(old(self)@.filter),
            r.1@ == trim(final(self)@.filter.response),
    {
        self.filter.finish()
    }
}

} // verus!

verus! {

/// Law: only a success status (2xx) from Ollama lets a response through. A missing model
/// (404) is reported with the model's name and the command that pulls it; any other
/// failure is reported as the status with its reason phrase.
pub proof fn lemma_ollama_status_errors(model: Seq<char>, status: u16)
    ensures
        ollama_status_outcome(model, status) is None <==> 200 <= status < 300,
        status == 404 ==> ollama_status_outcome(model, status) == Some(
            "Model '"@ + model + "' not found. You may need to pull it first using 'ollama pull "@
                + model + "'"@,
        ),
        !(200 <= status < 300) && status != 404 ==> ollama_status_outcome(model, status) == Some(
            status_text(status),
        ),
{
}

} // verus!
