//! OpenAI-compatible providers (OpenAI, OpenRouter): request planning, status handling and
//! the server-sent-events streaming engine.

use vstd::prelude::*;

use crate::client::stream::{
    can_extend_to_valid_utf8, decode_utf8_chunk, longest_valid_prefix_len, utf8_error_length,
};
use crate::client::think::{
    append_outputs, emit, lemma_texts_concat,
    answer_text, pieces, think_finish, think_push, Piece, StreamOutput, ThinkFilter, ThinkState,
};
use crate::client::{status_code_text, status_text, ClientError};
use crate::client::separation::{
    joined, lacks, lemma_reasoning_block_separated, think_run, think_shown, think_start,
};
use crate::client::stream::think_open_tag;
use crate::client::think::think_close_tag;
use vstd::utf8::decode_utf8;
use vstd::slice::slice_subrange;

use crate::text::{
    after_last_line, chars_of, chars_start_with, complete_lines, starts_with, str_eq, string_of,
    take_lines, trim_chars,
    contains, lowercase, str_contains, strip_trailing, to_lowercase, trim, trim_end_char, trim_str,
};

verus! {

/// A client for an OpenAI-compatible chat completions API.
pub struct OpenAiClient {
    pub provider_name: String,
    pub base_url: String,
    pub model: String,
    pub api_key: Option<String>,
}

/// A header of an HTTP request: name and value.
pub type Header = (String, String);

/// The provider is OpenRouter: its base URL is on `openrouter.ai` or its name mentions
/// OpenRouter in any letter case.
pub open spec fn is_openrouter(provider_name: Seq<char>, base_url: Seq<char>) -> bool {
    contains(base_url, "openrouter.ai"@) || contains(lowercase(provider_name), "openrouter"@)
}

/// The headers of a chat request, as (name, value) pairs: a bearer token when an API key
/// with some non-whitespace is set (the key trimmed), then, for OpenRouter, the
/// attribution headers.
pub open spec fn request_headers_spec(
    provider_name: Seq<char>,
    base_url: Seq<char>,
    api_key: Option<Seq<char>>,
) -> Seq<(Seq<char>, Seq<char>)> {
    let auth = match api_key {
        Some(k) => if trim(k).len() > 0 {
            seq![("Authorization"@, "Bearer "@ + trim(k))]
        } else {
            Seq::empty()
        },
        None => Seq::empty(),
    };
    let attribution = if is_openrouter(provider_name, base_url) {
        seq![("HTTP-Referer"@, "https://github.com/veskuh/ask"@), ("X-Title"@, "ask"@)]
    } else {
        Seq::empty()
    };
    auth + attribution
}

/// The environment variable that should hold the API key for a provider.
pub open spec fn api_key_variable(provider_name: Seq<char>) -> Seq<char> {
    if contains(lowercase(provider_name), "openrouter"@) {
        "OPENROUTER_API_KEY"@
    } else {
        "OPENAI_API_KEY"@
    }
}

/// The view of a list of headers.
pub open spec fn headers_view(hs: Seq<Header>) -> Seq<(Seq<char>, Seq<char>)> {
    hs.map_values(|h: Header| (h.0@, h.1@))
}

impl OpenAiClient {
    /// A client for `provider_name` at `base_url`, asking `model`, with an optional API key.
    pub fn new(provider_name: String, base_url: String, model: String, api_key: Option<String>) -> (c:
        Self)
        ensures
            c.provider_name == provider_name,
            c.base_url == base_url,
            c.model == model,
            c.api_key == api_key,
    {
        OpenAiClient { provider_name, base_url, model, api_key }
    }

    /// The URL of the chat completions endpoint: the base URL without trailing slashes,
    /// then `/chat/completions`.
    pub fn chat_url(&self) -> (u: String)
        ensures
            u@ == strip_trailing(self.base_url@, '/') + "/chat/completions"@,
    {
        let mut u = trim_end_char(self.base_url.as_str(), '/');
        u.append("/chat/completions");
        u
    }

    /// Whether the provider is OpenRouter.
    pub fn is_openrouter(&self) -> (b: bool)
        ensures
            b == is_openrouter(self.provider_name@, self.base_url@),
    {
        if str_contains(self.base_url.as_str(), "openrouter.ai") {
            return true;
        }
        let lower = to_lowercase(self.provider_name.as_str());
        str_contains(lower.as_str(), "openrouter")
    }

    /// The headers to send with a chat request.
    pub fn request_headers(&self) -> (hs: Vec<Header>)
        ensures
            headers_view(hs@) == request_headers_spec(
                self.provider_name@,
                self.base_url@,
                match self.api_key {
                    Some(k) => Some(k@),
                    None => None,
                },
            ),
    {
        let mut hs: Vec<Header> = Vec::new();
        match &self.api_key {
            Some(k) => {
                let key = trim_str(k.as_str());
                if !key.as_str().is_empty() {
                    let mut value = String::from_str("Bearer ");
                    value.append(key.as_str());
                    hs.push((String::from_str("Authorization"), value));
                }
            },
            None => {},
        }
        let ghost auth = headers_view(hs@);
        if self.is_openrouter() {
            hs.push((String::from_str("HTTP-Referer"), String::from_str("https://github.com/veskuh/ask")));
            hs.push((String::from_str("X-Title"), String::from_str("ask")));
        }
        assert(headers_view(hs@) =~= request_headers_spec(
            self.provider_name@,
            self.base_url@,
            match self.api_key {
                Some(k) => Some(k@),
                None => None,
            },
        ));
        hs
    }

    /// The environment variable that should hold this provider's API key.
    pub fn api_key_variable(&self) -> (v: String)
        ensures
            v@ == api_key_variable(self.provider_name@),
    {
        let lower = to_lowercase(self.provider_name.as_str());
        if str_contains(lower.as_str(), "openrouter") {
            String::from_str("OPENROUTER_API_KEY")
        } else {
            String::from_str("OPENAI_API_KEY")
        }
    }
}

} // verus!

verus! {

/// `r` is the error that the chat endpoint's status `status` and body `body` mean for
/// client `c`: none for a success (2xx); for 401 and 403 an authentication error that
/// names the variable to set; for 404 an API error naming the model and base URL;
/// otherwise an API error carrying the body.
pub open spec fn is_chat_status_error(c: OpenAiClient, status: u16, body: Seq<char>, r: Option<
    ClientError,
>) -> bool {
    if 200 <= status < 300 {
        r is None
    } else if status == 401 || status == 403 {
        r matches Some(ClientError::AuthError { provider, message }) && provider@
            == c.provider_name@ && message@ == "Invalid or missing API key (HTTP "@ + status_text(
            status,
        ) + "): "@ + body + ". Set "@ + api_key_variable(c.provider_name@)
            + " or use 'ask config --set-api-key <key>'."@
    } else if status == 404 {
        r matches Some(ClientError::ApiError { provider, status: st, message }) && provider@
            == c.provider_name@ && st == status && message@ == "Endpoint or model '"@ + c.model@
            + "' not found at "@ + c.base_url@ + ". Response: "@ + body
    } else {
        r matches Some(ClientError::ApiError { provider, status: st, message }) && provider@
            == c.provider_name@ && st == status && message@ == body
    }
}

impl OpenAiClient {
    /// Turns an HTTP response status and body from the chat endpoint into the error it
    /// means (`None` for a success).
    pub fn status_error(&self, status: u16, body: &str) -> (r: Option<ClientError>)
        ensures
            is_chat_status_error(*self, status, body@, r),
    {
        if 200 <= status && status < 300 {
            None
        } else if status == 401 || status == 403 {
            let mut m = String::from_str("Invalid or missing API key (HTTP ");
            m.append(status_code_text(status).as_str());
            m.append("): ");
            m.append(body);
            m.append(". Set ");
            m.append(self.api_key_variable().as_str());
            m.append(" or use 'ask config --set-api-key <key>'.");
            Some(ClientError::AuthError { provider: self.provider_name.clone(), message: m })
        } else if status == 404 {
            let mut m = String::from_str("Endpoint or model '");
            m.append(self.model.as_str());
            m.append("' not found at ");
            m.append(self.base_url.as_str());
            m.append(". Response: ");
            m.append(body);
            Some(
                ClientError::ApiError {
                    provider: self.provider_name.clone(),
                    status,
                    message: m,
                },
            )
        } else {
            Some(
                ClientError::ApiError {
                    provider: self.provider_name.clone(),
                    status,
                    message: String::from_str(body),
                },
            )
        }
    }

    /// The error for a request that could not be sent: a failure to connect or a timeout
    /// makes the provider unreachable (with a hint to check the network and URL);
    /// anything else is a network error.
    pub fn send_error(&self, unreachable: bool, detail: String) -> (e: ClientError)
        ensures
            unreachable ==> (e matches ClientError::Unreachable { provider, host, hint, source: Some(s) }
                && provider@ == self.provider_name@ && host@ == self.base_url@ && hint@
                == "Could not connect to "@ + self.provider_name@
                + ". Please check your network connection and URL."@ && s == detail),
            !unreachable ==> e == ClientError::NetworkError(detail),
    {
        if unreachable {
            let mut hint = String::from_str("Could not connect to ");
            hint.append(self.provider_name.as_str());
            hint.append(". Please check your network connection and URL.");
            ClientError::Unreachable {
                provider: self.provider_name.clone(),
                host: self.base_url.clone(),
                hint,
                source: Some(detail),
            }
        } else {
            ClientError::NetworkError(detail)
        }
    }
}

} // verus!

verus! {

/// One line of a server-sent-events stream, as far as a chat completion is concerned.
#[derive(Debug, PartialEq, Eq)]
pub enum SseLine {
    /// Blank lines, comments and fields other than `data:`.
    Ignored,
    /// The `data: [DONE]` marker that ends the stream.
    Done,
    /// The payload of a `data:` line, trimmed.
    Data(String),
}

/// The payload of an SSE line: after removing trailing carriage returns and surrounding
/// whitespace, a line that starts with `data:` carries the rest, trimmed.
pub open spec fn sse_payload(line: Seq<char>) -> Option<Seq<char>> {
    let t = trim(strip_trailing(line, '\r'));
    if starts_with(t, "data:"@) {
        Some(trim(t.skip(5)))
    } else {
        None
    }
}

/// Classifies one line of the event stream.
pub fn classify_sse_line(line: &str) -> (r: SseLine)
    ensures
        sse_payload(line@) is None ==> r == SseLine::Ignored,
        sse_payload(line@) matches Some(d) ==> (if d == "[DONE]"@ {
            r == SseLine::Done
        } else {
            r matches SseLine::Data(x) && x@ == d
        }),
{
    let stripped = trim_end_char(line, '\r');
    let t = trim_str(stripped.as_str());
    let tc = chars_of(t.as_str());
    let prefix: Vec<char> = vec!['d', 'a', 't', 'a', ':'];
    proof {
        reveal_strlit("data:");
    }
    assert(prefix@ == "data:"@);
    if !chars_start_with(tc.as_slice(), prefix.as_slice()) {
        return SseLine::Ignored;
    }
    let rest = slice_subrange(tc.as_slice(), 5, tc.len());
    let d = trim_chars(rest);
    let data = string_of(d.as_slice());
    if str_eq(data.as_str(), "[DONE]") {
        SseLine::Done
    } else {
        SseLine::Data(data)
    }
}

} // verus!

verus! {

/// The new content of one choice in a streamed chat chunk: answer text, and reasoning
/// text under either of the two field names that providers use.
pub struct ChatDelta {
    pub content: Option<String>,
    pub reasoning_content: Option<String>,
    pub reasoning: Option<String>,
}

/// An error reported inside the event stream: its message and, when present, its code
/// as the JSON text of the code's value.
pub struct StreamError {
    pub message: String,
    pub code: Option<String>,
}

/// One parsed `data:` payload of a chat completion stream.
pub struct ChatChunk {
    pub choices: Vec<ChatDelta>,
    pub error: Option<StreamError>,
}

/// The state of a chat response being streamed.
pub struct OpenAiStreamState {
    pub provider: Seq<char>,
    pub raw: Seq<u8>,
    pub text: Seq<char>,
    pub filter: ThinkState,
    pub in_reasoning: bool,
    pub separator_printed: bool,
}

/// Non-empty text of an optional string.
pub open spec fn nonempty_text(o: Option<String>) -> Option<Seq<char>> {
    match o {
        Some(s) => if s@.len() > 0 {
            Some(s@)
        } else {
            None
        },
        None => None,
    }
}

/// The reasoning of a delta: `reasoning_content` when present, else `reasoning`; shown
/// only when not empty.
pub open spec fn delta_reasoning(d: ChatDelta) -> Option<Seq<char>> {
    if d.reasoning_content is Some {
        nonempty_text(d.reasoning_content)
    } else {
        nonempty_text(d.reasoning)
    }
}

/// One choice arriving: its reasoning is shown dimmed and opens a reasoning section; its
/// answer content first closes an open reasoning section with the separator and a line
/// break, then goes through the `<think>` filter.
pub open spec fn choice_step(st: OpenAiStreamState, d: ChatDelta) -> (OpenAiStreamState, Seq<
    Piece,
>) {
    let (st1, o1) = match delta_reasoning(d) {
        Some(t) => (OpenAiStreamState { in_reasoning: true, ..st }, seq![Piece::Thought(t)]),
        None => (st, Seq::empty()),
    };
    match nonempty_text(d.content) {
        Some(c) => {
            let (st2, o2) = if st1.in_reasoning {
                (
                    OpenAiStreamState { in_reasoning: false, separator_printed: true, ..st1 },
                    seq![Piece::Separator, Piece::LineBreak],
                )
            } else {
                (st1, Seq::empty())
            };
            let (f3, o3) = think_push(st2.filter, c);
            (OpenAiStreamState { filter: f3, ..st2 }, o1 + o2 + o3)
        },
        None => (st1, o1),
    }
}

/// The choices of a chunk arriving in order.
pub open spec fn choices_step(st: OpenAiStreamState, ds: Seq<ChatDelta>) -> (OpenAiStreamState, Seq<
    Piece,
>)
    decreases ds.len(),
{
    if ds.len() == 0 {
        (st, Seq::empty())
    } else {
        let (s1, o1) = choices_step(st, ds.drop_last());
        let (s2, o2) = choice_step(s1, ds.last());
        (s2, o1 + o2)
    }
}

/// The message of an error reported in the stream: `code: message` when it has a code.
pub open spec fn stream_error_text(e: StreamError) -> Seq<char> {
    match e.code {
        Some(c) => c@ + ": "@ + e.message@,
        None => e.message@,
    }
}

/// The pieces shown when a chat stream ends: the separator if reasoning was shown and no
/// separator has followed it, then what the `<think>` filter still holds.
pub open spec fn openai_finish(st: OpenAiStreamState) -> (OpenAiStreamState, Seq<Piece>) {
    let o1 = if st.in_reasoning && !(st.separator_printed || st.filter.closed_block) {
        seq![Piece::Separator, Piece::LineBreak]
    } else {
        Seq::empty()
    };
    let (f2, o2) = think_finish(st.filter);
    (OpenAiStreamState { filter: f2, ..st }, o1 + o2)
}

/// The streaming engine for one chat completion response.
pub struct OpenAiStream {
    provider: String,
    raw: Vec<u8>,
    text: String,
    filter: ThinkFilter,
    in_reasoning: bool,
    separator_printed: bool,
}

impl View for OpenAiStream {
    type V = OpenAiStreamState;

    closed spec fn view(&self) -> OpenAiStreamState {
        OpenAiStreamState {
            provider: self.provider@,
            raw: self.raw@,
            text: self.text@,
            filter: self.filter@,
            in_reasoning: self.in_reasoning,
            separator_printed: self.separator_printed,
        }
    }
}

impl OpenAiStream {
    /// The engine at the start of a response from `provider`.
    pub fn new(provider: &str) -> (s: Self)
        ensures
            s@ == (OpenAiStreamState {
                provider: provider@,
                raw: Seq::empty(),
                text: Seq::empty(),
                filter: ThinkState {
                    in_think: false,
                    buffer: Seq::empty(),
                    response: Seq::empty(),
                    closed_block: false,
                },
                in_reasoning: false,
                separator_printed: false,
            }),
    {
        let s = OpenAiStream {
            provider: String::from_str(provider),
            raw: Vec::new(),
            text: String::new(),
            filter: ThinkFilter::new(),
            in_reasoning: false,
            separator_printed: false,
        };
        assert(s.raw@ =~= Seq::<u8>::empty());
        s
    }

    /// Takes the next chunk of the response body and returns the complete lines it
    /// finishes. Fails when the bytes cannot be UTF-8 whatever follows.
    pub fn push_bytes(&mut self, chunk: &[u8]) -> (r: Result<Vec<String>, ClientError>)
        ensures
            ({
                let bytes = old(self)@.raw + chunk@;
                let k = longest_valid_prefix_len(bytes);
                let text = old(self)@.text + decode_utf8(bytes.take(k));
                &&& final(self)@ == OpenAiStreamState {
                    raw: bytes.skip(k),
                    text: final(self)@.text,
                    ..old(self)@
                }
                &&& (r is Ok <==> can_extend_to_valid_utf8(bytes))
                &&& (r matches Ok(lines) ==> lines@.map_values(|l: String| l@) == complete_lines(
                    text,
                ) && final(self)@.text == after_last_line(text))
                &&& (r matches Err(e) ==> final(self)@.text == text && (e matches ClientError::DataError(d)
                    && d.valid_up_to == 0 && d.error_len is Some && d.error_len == utf8_error_length(
                    final(self)@.raw)))
            }),
    {
        match decode_utf8_chunk(&mut self.raw, chunk, &mut self.text) {
            Ok(()) => Ok(take_lines(&mut self.text)),
            Err(e) => Err(ClientError::DataError(e)),
        }
    }
}

} // verus!

verus! {

impl OpenAiStream {
    /// Takes one parsed `data:` payload. An error inside the stream is returned as an API
    /// error (HTTP 400) of the provider and changes nothing; otherwise the choices are
    /// taken in order and what to show is returned. The answer text shown is exactly what
    /// is added to the response.
    pub fn on_chunk(&mut self, chunk: &ChatChunk) -> (r: Result<Vec<StreamOutput>, ClientError>)
        ensures
            chunk.error matches Some(e) ==> (r matches Err(ClientError::ApiError { provider, status, message })
                && provider@ == old(self)@.provider && status == 400 && message@
                == stream_error_text(e) && final(self)@ == old(self)@),
            chunk.error is None ==> (r matches Ok(outs) && (final(self)@, pieces(outs@))
                == choices_step(old(self)@, chunk.choices@) && final(self)@.filter.response
                == old(self)@.filter.response + answer_text(pieces(outs@))),
    {
        match &chunk.error {
            Some(e) => {
                let message = match &e.code {
                    Some(c) => {
                        let mut m = String::from_str(c.as_str());
                        m.append(": ");
                        m.append(e.message.as_str());
                        m
                    },
                    None => e.message.clone(),
                };
                return Err(
                    ClientError::ApiError { provider: self.provider.clone(), status: 400, message },
                );
            },
            None => {},
        }
        let mut outs: Vec<StreamOutput> = Vec::new();
        let mut i: usize = 0;
        assert(chunk.choices@.take(0) =~= Seq::<ChatDelta>::empty());
        assert(pieces(outs@) =~= Seq::<Piece>::empty());
        while i < chunk.choices.len()
            invariant
                i <= chunk.choices@.len(),
                (self@, pieces(outs@)) == choices_step(old(self)@, chunk.choices@.take(i as int)),
                self@.filter.response == old(self)@.filter.response + answer_text(pieces(outs@)),
            decreases chunk.choices@.len() - i,
        {
            let ghost p0 = pieces(outs@);
            let d = &chunk.choices[i];
            assert(chunk.choices@.take(i + 1).drop_last() =~= chunk.choices@.take(i as int));
            assert(chunk.choices@.take(i + 1).last() == *d);
            let more = self.on_choice(d);
            append_outputs(&mut outs, more);
            proof {
                lemma_texts_concat(p0, pieces(more@));
            }
            i = i + 1;
        }
        assert(chunk.choices@.take(chunk.choices@.len() as int) =~= chunk.choices@);
        Ok(outs)
    }

    /// Takes one choice of a chunk and returns what to show.
    fn on_choice(&mut self, d: &ChatDelta) -> (outs: Vec<StreamOutput>)
        ensures
            (final(self)@, pieces(outs@)) == choice_step(old(self)@, *d),
            final(self)@.filter.response == old(self)@.filter.response + answer_text(pieces(outs@)),
    {
        let mut outs: Vec<StreamOutput> = Vec::new();
        assert(pieces(outs@) =~= Seq::<Piece>::empty());
        let reasoning = match &d.reasoning_content {
            Some(t) => Some(t),
            None => match &d.reasoning {
                Some(t) => Some(t),
                None => None,
            },
        };
        match reasoning {
            Some(t) => {
                if !t.as_str().is_empty() {
                    self.in_reasoning = true;
                    emit(&mut outs, StreamOutput::Thought(t.clone()));
                }
            },
            None => {},
        }
        let ghost p1 = pieces(outs@);
        assert(answer_text(p1) =~= Seq::<char>::empty()) by {
            reveal_with_fuel(answer_text, 2);
        }
        match &d.content {
            Some(c) => {
                if !c.as_str().is_empty() {
                    if self.in_reasoning {
                        emit(&mut outs, StreamOutput::Separator);
                        emit(&mut outs, StreamOutput::LineBreak);
                        self.in_reasoning = false;
                        self.separator_printed = true;
                    }
                    let ghost p2 = pieces(outs@);
                    assert(answer_text(p2) =~= Seq::<char>::empty()) by {
                        reveal_with_fuel(answer_text, 4);
                    }
                    let more = self.filter.push_content(c.as_str());
                    append_outputs(&mut outs, more);
                    proof {
                        lemma_texts_concat(p2, pieces(more@));
                    }
                }
            },
            None => {},
        }
        outs
    }

    /// Ends the response: returns what is left to show and the answer, trimmed.
    pub fn finish(&mut self) -> (r: (Vec<StreamOutput>, String))
        ensures
            (final(self)@, pieces(r.0@)) == openai_finish(old(self)@),
            r.1@ == trim(final(self)@.filter.response),
    {
        let mut outs: Vec<StreamOutput> = Vec::new();
        if self.in_reasoning && !(self.separator_printed || self.filter.closed_block()) {
            emit(&mut outs, StreamOutput::Separator);
            emit(&mut outs, StreamOutput::LineBreak);
        }
        let (more, answer) = self.filter.finish();
        let ghost p1 = pieces(outs@);
        append_outputs(&mut outs, more);
        assert(pieces(Seq::<StreamOutput>::empty()) =~= Seq::<Piece>::empty());
        (outs, answer)
    }
}

} // verus!

verus! {

/// The non-empty answer contents among choices, in order: what reaches the `<think>`
/// filter.
pub open spec fn content_chunks(ds: Seq<ChatDelta>) -> Seq<Seq<char>>
    decreases ds.len(),
{
    if ds.len() == 0 {
        Seq::empty()
    } else {
        content_chunks(ds.drop_last()) + match nonempty_text(ds.last().content) {
            Some(c) => seq![c],
            None => Seq::empty(),
        }
    }
}

/// Choices arriving in two runs have the effect of all of them arriving in one.
pub proof fn lemma_choices_step_concat(st: OpenAiStreamState, a: Seq<ChatDelta>, b: Seq<ChatDelta>)
    ensures
        choices_step(st, a + b).0 == choices_step(choices_step(st, a).0, b).0,
        choices_step(st, a + b).1 == choices_step(st, a).1 + choices_step(choices_step(st, a).0, b).1,
    decreases b.len(),
{
    if b.len() == 0 {
        assert(a + b =~= a);
        assert(choices_step(st, a).1 + Seq::<Piece>::empty() =~= choices_step(st, a).1);
    } else {
        lemma_choices_step_concat(st, a, b.drop_last());
        assert((a + b).drop_last() =~= a + b.drop_last());
        assert((a + b).last() == b.last());
        let s1 = choices_step(st, a);
        let s2 = choices_step(s1.0, b.drop_last());
        let s3 = choice_step(s2.0, b.last());
        assert(s1.1 + (s2.1 + s3.1) =~= (s1.1 + s2.1) + s3.1);
    }
}

/// Law: reasoning fields never reach the answer. After any choices, the `<think>` filter
/// stands where the non-empty answer contents alone would have brought it, and the answer
/// text shown is exactly the answer text that the filter shows for those contents.
pub proof fn lemma_reasoning_fields_stay_out_of_answer(st: OpenAiStreamState, ds: Seq<ChatDelta>)
    ensures
        choices_step(st, ds).0.filter == think_run(st.filter, content_chunks(ds)).0,
        answer_text(choices_step(st, ds).1) == answer_text(
            think_run(st.filter, content_chunks(ds)).1,
        ),
    decreases ds.len(),
{
    reveal_with_fuel(answer_text, 3);
    if ds.len() == 0 {
        assert(content_chunks(ds) =~= Seq::<Seq<char>>::empty());
    } else {
        let init = ds.drop_last();
        let d = ds.last();
        lemma_reasoning_fields_stay_out_of_answer(st, init);
        let (s1, o1) = choices_step(st, init);
        let (s2, o2) = choice_step(s1, d);
        lemma_texts_concat(o1, o2);
        let cc = content_chunks(init);
        let (r1, p1) = think_run(st.filter, cc);
        let oa: Seq<Piece> = match delta_reasoning(d) {
            Some(t) => seq![Piece::Thought(t)],
            None => Seq::empty(),
        };
        assert(answer_text(oa) =~= Seq::<char>::empty());
        match nonempty_text(d.content) {
            Some(c) => {
                assert(content_chunks(ds) =~= cc.push(c));
                assert(cc.push(c).drop_last() =~= cc);
                let st1 = if delta_reasoning(d) is Some {
                    OpenAiStreamState { in_reasoning: true, ..s1 }
                } else {
                    s1
                };
                let ob: Seq<Piece> = if st1.in_reasoning {
                    seq![Piece::Separator, Piece::LineBreak]
                } else {
                    Seq::empty()
                };
                assert(answer_text(ob) =~= Seq::<char>::empty());
                let o3 = think_push(s1.filter, c).1;
                assert(o2 == oa + ob + o3);
                lemma_texts_concat(oa, ob);
                lemma_texts_concat(oa + ob, o3);
                lemma_texts_concat(p1, o3);
                assert(answer_text(oa + ob) =~= Seq::<char>::empty());
                assert(answer_text(o2) =~= answer_text(o3));
            },
            None => {
                assert(content_chunks(ds) =~= cc);
                assert(o2 == oa);
            },
        }
    }
}

/// The chat engine at the start of a response from `provider`.
pub open spec fn openai_start(provider: Seq<char>) -> OpenAiStreamState {
    OpenAiStreamState {
        provider,
        raw: Seq::empty(),
        text: Seq::empty(),
        filter: think_start(),
        in_reasoning: false,
        separator_printed: false,
    }
}

/// Law: the answer of a chat response whose answer contents hold one reasoning block
/// `<think>thought</think>` between `pre` and `post` is `pre` followed by `post`, however
/// the contents are cut into choices and whatever reasoning fields come with them; the
/// response kept is the same. It holds when `pre` and `post` hold no `<think>` and
/// `thought` holds no `</think>`.
pub proof fn lemma_chat_answer_separated(
    provider: Seq<char>,
    ds: Seq<ChatDelta>,
    pre: Seq<char>,
    thought: Seq<char>,
    post: Seq<char>,
)
    requires
        joined(content_chunks(ds)) == pre + think_open_tag() + thought + think_close_tag() + post,
        lacks(pre, think_open_tag()),
        lacks(thought, think_close_tag()),
        lacks(post, think_open_tag()),
    ensures
        ({
            let (st1, o1) = choices_step(openai_start(provider), ds);
            let (st2, o2) = openai_finish(st1);
            &&& answer_text(o1 + o2) == pre + post
            &&& st2.filter.response == pre + post
        }),
{
    let st = openai_start(provider);
    lemma_reasoning_fields_stay_out_of_answer(st, ds);
    lemma_reasoning_block_separated(content_chunks(ds), pre, thought, post);
    let (st1, o1) = choices_step(st, ds);
    let (st2, o2) = openai_finish(st1);
    let cc = content_chunks(ds);
    let (r1, p1) = think_run(think_start(), cc);
    let (r2, p2) = think_finish(r1);
    assert(think_shown(cc) == (r2, p1 + p2));
    lemma_texts_concat(p1, p2);
    let oa: Seq<Piece> = if st1.in_reasoning && !(st1.separator_printed || st1.filter.closed_block) {
        seq![Piece::Separator, Piece::LineBreak]
    } else {
        Seq::empty()
    };
    reveal_with_fuel(answer_text, 3);
    assert(answer_text(oa) =~= Seq::<char>::empty());
    assert(o2 == oa + p2);
    lemma_texts_concat(oa, p2);
    lemma_texts_concat(o1, o2);
}

} // verus!

verus! {

/// Law: a chat request carries the API key whenever there is one. With a key that has
/// non-whitespace text, the first header is `Authorization: Bearer <key trimmed>`, for
/// every provider; for OpenRouter (its base URL on `openrouter.ai`, or its name mentioning
/// OpenRouter in any letter case) the two attribution headers follow it, and for others
/// nothing else is sent. Without such a key no `Authorization` header is sent.
pub proof fn lemma_bearer_key_always_sent(
    provider_name: Seq<char>,
    base_url: Seq<char>,
    api_key: Option<Seq<char>>,
)
    ensures
        ({
            let hs = request_headers_spec(provider_name, base_url, api_key);
            let openrouter = contains(base_url, "openrouter.ai"@) || contains(
                lowercase(provider_name),
                "openrouter"@,
            );
            let keyed = api_key is Some && trim(api_key->0).len() > 0;
            let n: int = if keyed {
                1
            } else {
                0
            };
            &&& hs.len() == n + if openrouter {
                2int
            } else {
                0int
            }
            &&& keyed ==> hs[0] == ("Authorization"@, "Bearer "@ + trim(api_key->0))
            &&& openrouter ==> hs[n] == ("HTTP-Referer"@, "https://github.com/veskuh/ask"@)
                && hs[n + 1] == ("X-Title"@, "ask"@)
            &&& !keyed ==> forall|i: int| 0 <= i < hs.len() ==> (#[trigger] hs[i]).0
                != "Authorization"@
        }),
{
    reveal_strlit("Authorization");
    reveal_strlit("HTTP-Referer");
    reveal_strlit("X-Title");
    assert("Authorization"@.len() != "HTTP-Referer"@.len());
    assert("Authorization"@.len() != "X-Title"@.len());
}

} // verus!

verus! {

/// Law: only a success status (2xx) lets a chat response through; every other status is
/// an error of the client's provider. A rejected key (401, 403) is an authentication
/// error that names the variable to set and repeats the server's body; any other failure
/// is an API error that keeps the status, and carries the body (after a hint naming the
/// model and address for 404).
pub proof fn lemma_chat_status_errors(c: OpenAiClient, status: u16, body: Seq<char>, r: Option<
    ClientError,
>)
    requires
        is_chat_status_error(c, status, body, r),
    ensures
        r is None <==> 200 <= status < 300,
        r matches Some(e) ==> match e {
            ClientError::AuthError { provider, message } => provider@ == c.provider_name@ && (
            status == 401 || status == 403) && contains(message@, body) && contains(
                message@,
                api_key_variable(c.provider_name@),
            ),
            ClientError::ApiError { provider, status: s, message } => provider@
                == c.provider_name@ && s == status && status != 401 && status != 403 && crate::text::ends_with(
                message@,
                body,
            ),
            _ => false,
        },
{
    if let Some(e) = r {
        match e {
            ClientError::AuthError { provider, message } => {
                let pre = "Invalid or missing API key (HTTP "@ + status_text(status) + "): "@;
                let v = api_key_variable(c.provider_name@);
                let m = message@;
                assert(m =~= pre + body + (". Set "@ + v + " or use 'ask config --set-api-key <key>'."@));
                assert(m.subrange(pre.len() as int, (pre.len() + body.len()) as int) =~= body);
                let at: int = (pre.len() + body.len() + ". Set "@.len()) as int;
                assert(m.subrange(at, at + v.len()) =~= v);
                assert(crate::text::occurs_at(m, body, pre.len() as int));
                assert(crate::text::occurs_at(m, v, at));
                crate::text::lemma_find(m, body);
                crate::text::lemma_find(m, v);
            },
            ClientError::ApiError { message, .. } => {
                assert(message@.subrange(message@.len() - body.len(), message@.len() as int)
                    =~= body);
            },
            _ => {},
        }
    }
}

} // verus!
