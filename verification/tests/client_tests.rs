use ask::client::openai::{ChatChunk, ChatDelta, OpenAiStream, SseLine, StreamError, classify_sse_line};
use ask::client::ollama::{response_error, OllamaStream};
use ask::client::think::{StreamOutput, ThinkFilter};
use ask::client::status_code_text;
use ask::{ClientError, LlmClient, OllamaClient, OllamaError, OpenAiClient};

/// What a terminal without colours shows for the outputs.
fn render(outs: &[StreamOutput]) -> String {
    let mut s = String::new();
    for o in outs {
        match o {
            StreamOutput::Text(t) | StreamOutput::Thought(t) => s.push_str(t),
            StreamOutput::Separator => s.push_str("\n---"),
            StreamOutput::LineBreak => s.push('\n'),
        }
    }
    s
}

fn thoughts(outs: &[StreamOutput]) -> String {
    let mut s = String::new();
    for o in outs {
        if let StreamOutput::Thought(t) = o {
            s.push_str(t);
        }
    }
    s
}

fn answer(outs: &[StreamOutput]) -> String {
    let mut s = String::new();
    for o in outs {
        if let StreamOutput::Text(t) = o {
            s.push_str(t);
        }
    }
    s
}

/// Streams an Ollama body through the engine, cut into chunks of `size` bytes.
fn run_ollama(body: &str, size: usize) -> (Vec<StreamOutput>, String) {
    let mut stream = OllamaStream::new();
    let mut outs = Vec::new();
    for chunk in body.as_bytes().chunks(size) {
        let lines = stream.push_bytes(chunk).unwrap();
        for line in lines {
            let v: serde_json::Value = serde_json::from_str(&line).unwrap();
            let content = v["response"].as_str().unwrap().to_string();
            outs.extend(stream.push_content(&content));
        }
    }
    let (more, result) = stream.finish();
    outs.extend(more);
    (outs, result)
}

fn delta(content: Option<&str>, reasoning_content: Option<&str>) -> ChatDelta {
    ChatDelta {
        content: content.map(String::from),
        reasoning_content: reasoning_content.map(String::from),
        reasoning: None,
    }
}

/// Streams an SSE body through the chat engine, cut into chunks of `size` bytes.
fn run_openai(provider: &str, body: &str, size: usize) -> Result<(Vec<StreamOutput>, String), ClientError> {
    let mut stream = OpenAiStream::new(provider);
    let mut outs = Vec::new();
    'stream: for chunk in body.as_bytes().chunks(size) {
        for line in stream.push_bytes(chunk)? {
            match classify_sse_line(&line) {
                SseLine::Ignored => {}
                SseLine::Done => break 'stream,
                SseLine::Data(data) => {
                    let v: serde_json::Value = match serde_json::from_str(&data) {
                        Ok(v) => v,
                        Err(_) => continue,
                    };
                    let error = v.get("error").filter(|e| !e.is_null()).map(|e| StreamError {
                        message: e["message"].as_str().unwrap_or("").to_string(),
                        code: e.get("code").filter(|c| !c.is_null()).map(|c| c.to_string()),
                    });
                    let mut choices = Vec::new();
                    if let Some(cs) = v["choices"].as_array() {
                        for c in cs {
                            let d = &c["delta"];
                            choices.push(ChatDelta {
                                content: d["content"].as_str().map(String::from),
                                reasoning_content: d["reasoning_content"].as_str().map(String::from),
                                reasoning: d["reasoning"].as_str().map(String::from),
                            });
                        }
                    }
                    outs.extend(stream.on_chunk(&ChatChunk { choices, error })?);
                }
            }
        }
    }
    let (more, result) = stream.finish();
    outs.extend(more);
    Ok((outs, result))
}

#[test]
fn client_test_ollama_error_conversions() {
    let err_not_running = OllamaError::NotRunning {
        host: "http://localhost:11434".to_string(),
        source: "builder error for url (not a valid url)".to_string(),
    };
    let client_err: ClientError = err_not_running.into();
    assert!(client_err.message().contains("Ollama"));

    let err_api = OllamaError::ApiError("model not found".to_string());
    let client_err: ClientError = err_api.into();
    assert!(client_err.message().contains("model not found"));

    let err_parse = OllamaError::ParseError(
        serde_json::from_str::<String>("not json").unwrap_err().to_string(),
    );
    let client_err: ClientError = err_parse.into();
    assert!(matches!(client_err, ClientError::ParseError(_)));

    let err_io = OllamaError::IoError(std::io::Error::other("io error").to_string());
    let client_err: ClientError = err_io.into();
    assert!(matches!(client_err, ClientError::IoError(_)));
}

#[test]
fn mod_test_ollama_error_conversions() {
    let client_err: ClientError = OllamaError::NotRunning {
        host: "http://localhost:11434".to_string(),
        source: "connection refused".to_string(),
    }
    .into();
    assert_eq!(
        client_err.message(),
        "Ollama is not running or unreachable at http://localhost:11434. Please make sure Ollama is installed and running (https://ollama.com)."
    );
    let client_err: ClientError = OllamaError::ApiError("model not found".to_string()).into();
    assert_eq!(
        client_err.message(),
        "Ollama API error (500 Internal Server Error): model not found"
    );
    let client_err: ClientError = OllamaError::ParseError("bad".to_string()).into();
    assert_eq!(client_err.message(), "Failed to parse response: bad");
    let client_err: ClientError = OllamaError::IoError("io error".to_string()).into();
    assert_eq!(client_err.message(), "IO error: io error");
}

#[test]
fn status_codes_with_reason_phrases() {
    assert_eq!(status_code_text(404), "404 Not Found");
    assert_eq!(status_code_text(401), "401 Unauthorized");
    assert_eq!(status_code_text(599), "599 <unknown status code>");
    assert_eq!(status_code_text(404), reqwest::StatusCode::NOT_FOUND.to_string());
}

#[test]
fn ollama_error_messages() {
    let e = OllamaError::NotRunning { host: "http://h:1".to_string(), source: "x".to_string() };
    assert_eq!(
        e.message(),
        "Ollama is not running or unreachable at http://h:1. Please make sure Ollama is installed and running (https://ollama.com)."
    );
    assert_eq!(OllamaError::ApiError("boom".to_string()).message(), "Ollama API error: boom");
}

#[test]
fn ollama_test_client_creation() {
    let client = OllamaClient::new("http://localhost:11434".to_string(), "test-model".to_string());
    assert_eq!(client.host, "http://localhost:11434");
    assert_eq!(client.model, "test-model");
    assert_eq!(client.generate_url(), "http://localhost:11434/api/generate");
    assert_eq!(client.embeddings_url(), "http://localhost:11434/api/embeddings");
}

#[test]
fn ollama_response_status_errors() {
    assert!(response_error("m", 200).is_none());
    match response_error("test-model", 404) {
        Some(OllamaError::ApiError(m)) => assert_eq!(
            m,
            "Model 'test-model' not found. You may need to pull it first using 'ollama pull test-model'"
        ),
        other => panic!("unexpected: {:?}", other),
    }
    match response_error("test-model", 500) {
        Some(OllamaError::ApiError(m)) => assert_eq!(m, "500 Internal Server Error"),
        other => panic!("unexpected: {:?}", other),
    }
}

#[test]
fn ollama_send_errors() {
    let client = OllamaClient::new("http://h".to_string(), "m".to_string());
    assert!(matches!(client.send_error(true, "refused".to_string()), OllamaError::NotRunning { .. }));
    assert!(matches!(client.send_error(false, "tls".to_string()), OllamaError::NetworkError(_)));
}

#[test]
fn ollama_stream_plain_answer() {
    let body = "{\"response\": \"ls\", \"done\": false}\n{\"response\": \" -la\", \"done\": true}\n";
    for size in [1, 3, 7, body.len()] {
        let (outs, result) = run_ollama(body, size);
        assert_eq!(result, "ls -la");
        assert_eq!(render(&outs).trim(), "ls -la");
    }
}

#[test]
fn ollama_stream_with_think_block() {
    let body = "{\"response\": \"<think>\", \"done\": false}\n\
                {\"response\": \"I should use ls\", \"done\": false}\n\
                {\"response\": \"</think>\", \"done\": false}\n\
                {\"response\": \"ls -la\", \"done\": true}\n";
    for size in [1, 2, 5, body.len()] {
        let (outs, result) = run_ollama(body, size);
        assert_eq!(result, "ls -la");
        let shown = render(&outs);
        assert!(shown.contains("I should use ls"));
        assert!(shown.contains("---"));
        assert!(shown.contains("ls -la"));
        assert_eq!(thoughts(&outs), "I should use ls");
    }
}

#[test]
fn ollama_stream_fix_answer_keeps_lines() {
    let body = "{\"response\": \"Explanation: wrong flag\\nCommand: ls\", \"done\": true}\n";
    let (_, result) = run_ollama(body, 4);
    assert_eq!(result, "Explanation: wrong flag\nCommand: ls");
}

#[test]
fn ollama_stream_empty_final_piece() {
    let body = "{\"response\":\"echo 1\",\"done\":false}\n{\"response\":\"\",\"done\":true}\n";
    let (_, result) = run_ollama(body, 9);
    assert_eq!(result, "echo 1");
}

#[test]
fn ollama_stream_rejects_invalid_utf8() {
    let mut stream = OllamaStream::new();
    match stream.push_bytes(&[b'{', 0xff]) {
        Err(OllamaError::DataError(e)) => assert_eq!(e.valid_up_to, 0),
        other => panic!("unexpected: {:?}", other),
    }
}

#[test]
fn think_filter_split_tags_any_cut() {
    let text = "pre <think>deep thought</think> post";
    for size in 1..text.len() {
        let mut f = ThinkFilter::new();
        let mut outs = Vec::new();
        let chars: Vec<char> = text.chars().collect();
        for piece in chars.chunks(size) {
            let s: String = piece.iter().collect();
            outs.extend(f.push_content(&s));
        }
        let (more, result) = f.finish();
        outs.extend(more);
        assert_eq!(answer(&outs), "pre  post");
        assert_eq!(thoughts(&outs), "deep thought");
        assert_eq!(result, "pre  post");
    }
}

#[test]
fn think_filter_plain_text_passes_through() {
    let mut f = ThinkFilter::new();
    let outs = f.push_content("hello world");
    assert_eq!(outs, vec![StreamOutput::Text("hello world".to_string())]);
    let outs = f.push_content(" a <th");
    assert_eq!(outs, vec![StreamOutput::Text(" a ".to_string())]);
    let outs = f.push_content("ere");
    assert_eq!(outs, vec![StreamOutput::Text("<there".to_string())]);
    let (outs, result) = f.finish();
    assert_eq!(outs, vec![StreamOutput::LineBreak]);
    assert_eq!(result, "hello world a <there");
}

#[test]
fn think_filter_unclosed_block_is_reasoning() {
    let mut f = ThinkFilter::new();
    let mut outs = f.push_content("<think>still thinking é");
    assert!(f.in_think());
    let (more, result) = f.finish();
    outs.extend(more);
    assert_eq!(thoughts(&outs), "still thinking é");
    assert_eq!(result, "");
    assert!(!f.closed_block());
}

#[test]
fn openai_test_openai_stream_raw_success() {
    let body = "data: {\"choices\":[{\"delta\":{\"content\":\"git status\"}}]}\n\ndata: [DONE]\n\n";
    let (outs, result) = run_openai("OpenRouter", body, 5).unwrap();
    assert_eq!(result, "git status");
    assert_eq!(render(&outs).trim(), "git status");
}

#[test]
fn openai_stream_with_reasoning_content() {
    let body = "data: {\"choices\":[{\"delta\":{\"reasoning_content\":\"I should check git status\"}}]}\n\n\
                data: {\"choices\":[{\"delta\":{\"content\":\"git status\"}}]}\n\n\
                data: [DONE]\n\n";
    let (outs, result) = run_openai("OpenRouter", body, 3).unwrap();
    assert_eq!(result, "git status");
    let shown = render(&outs);
    assert!(shown.contains("I should check git status"));
    assert!(shown.contains("---"));
    assert!(shown.contains("git status"));
}

#[test]
fn openai_stream_with_think_tag() {
    let body = "data: {\"choices\":[{\"delta\":{\"content\":\"<think>thinking about docker</think>docker ps\"}}]}\n\ndata: [DONE]\n\n";
    let (outs, result) = run_openai("OpenAI", body, 64).unwrap();
    assert_eq!(result, "docker ps");
    assert_eq!(thoughts(&outs), "thinking about docker");
    assert!(render(&outs).contains("---"));
}

#[test]
fn openai_stream_split_think_tag() {
    let body = "data: {\"choices\":[{\"delta\":{\"content\":\"<thi\"}}]}\n\n\
                data: {\"choices\":[{\"delta\":{\"content\":\"nk>reasoning here</th\"}}]}\n\n\
                data: {\"choices\":[{\"delta\":{\"content\":\"ink>ls -la\"}}]}\n\n\
                data: [DONE]\n\n";
    let (outs, result) = run_openai("OpenAI", body, 11).unwrap();
    assert_eq!(result, "ls -la");
    assert_eq!(thoughts(&outs), "reasoning here");
    assert!(render(&outs).contains("---"));
}

#[test]
fn openai_stream_multibyte_in_think() {
    let body = "data: {\"choices\":[{\"delta\":{\"content\":\"<think>ééééééé日本語🦀</think>echo hi\"}}]}\n\ndata: [DONE]\n\n";
    for size in [1, 2, 3, 7] {
        let (outs, result) = run_openai("OpenAI", body, size).unwrap();
        assert_eq!(result, "echo hi");
        assert_eq!(thoughts(&outs), "ééééééé日本語🦀");
    }
}

#[test]
fn openai_stream_error_in_sse() {
    let body = "data: {\"error\":{\"message\":\"Insufficient credits\",\"code\":402}}\n\n";
    match run_openai("OpenRouter", body, 10) {
        Err(ClientError::ApiError { provider, status, message }) => {
            assert_eq!(provider, "OpenRouter");
            assert_eq!(status, 400);
            assert_eq!(message, "402: Insufficient credits");
        }
        other => panic!("unexpected: {:?}", other.map(|r| r.1)),
    }
}

#[test]
fn openai_stream_skips_comments_and_bad_json() {
    let body = ": keep-alive\r\n\r\nevent: x\ndata: not json\ndata: {\"choices\":[{\"delta\":{\"content\":\"ok\"}}]}\r\ndata: [DONE]\ndata: {\"choices\":[{\"delta\":{\"content\":\"late\"}}]}\n";
    let (_, result) = run_openai("OpenAI", body, 6).unwrap();
    assert_eq!(result, "ok");
}

#[test]
fn classify_sse_lines() {
    assert_eq!(classify_sse_line(""), SseLine::Ignored);
    assert_eq!(classify_sse_line(": comment"), SseLine::Ignored);
    assert_eq!(classify_sse_line("event: message"), SseLine::Ignored);
    assert_eq!(classify_sse_line("data: [DONE]\r"), SseLine::Done);
    assert_eq!(classify_sse_line("  data:  {\"a\":1}  "), SseLine::Data("{\"a\":1}".to_string()));
}

#[test]
fn openai_reasoning_without_content_gets_separator_at_end() {
    let mut stream = OpenAiStream::new("OpenAI");
    let outs = stream
        .on_chunk(&ChatChunk { choices: vec![delta(None, Some("hmm"))], error: None })
        .unwrap();
    assert_eq!(outs, vec![StreamOutput::Thought("hmm".to_string())]);
    let (more, result) = stream.finish();
    assert_eq!(more, vec![StreamOutput::Separator, StreamOutput::LineBreak, StreamOutput::LineBreak]);
    assert_eq!(result, "");
}

#[test]
fn openai_test_openai_auth_error_hints() {
    let client = OpenAiClient::new(
        "OpenAI".to_string(),
        "http://x".to_string(),
        "gpt-4o-mini".to_string(),
        None,
    );
    match client.status_error(401, "{\"error\": \"Unauthorized\"}") {
        Some(ClientError::AuthError { provider, message }) => {
            assert_eq!(provider, "OpenAI");
            assert!(message.contains("OPENAI_API_KEY"));
            assert_eq!(
                message,
                "Invalid or missing API key (HTTP 401 Unauthorized): {\"error\": \"Unauthorized\"}. Set OPENAI_API_KEY or use 'ask config --set-api-key <key>'."
            );
        }
        other => panic!("unexpected: {:?}", other),
    }
    let client = OpenAiClient::new(
        "OpenRouter".to_string(),
        "http://x".to_string(),
        "deepseek/deepseek-v4-flash".to_string(),
        None,
    );
    let e = client.status_error(401, "{\"error\": \"Unauthorized\"}").unwrap();
    assert!(e.message().contains("OPENROUTER_API_KEY"));
}

#[test]
fn openai_status_errors() {
    let client = OpenAiClient::new(
        "OpenAI".to_string(),
        "http://host/v1/".to_string(),
        "m".to_string(),
        Some(" k ".to_string()),
    );
    assert!(client.status_error(200, "").is_none());
    match client.status_error(404, "nope") {
        Some(ClientError::ApiError { status, message, .. }) => {
            assert_eq!(status, 404);
            assert_eq!(message, "Endpoint or model 'm' not found at http://host/v1/. Response: nope");
        }
        other => panic!("unexpected: {:?}", other),
    }
    match client.status_error(500, "down") {
        Some(ClientError::ApiError { status, message, .. }) => {
            assert_eq!(status, 500);
            assert_eq!(message, "down");
        }
        other => panic!("unexpected: {:?}", other),
    }
    assert_eq!(client.chat_url(), "http://host/v1/chat/completions");
    assert_eq!(
        client.request_headers(),
        vec![("Authorization".to_string(), "Bearer k".to_string())]
    );
    assert!(!client.is_openrouter());
    let e = client.send_error(true, "refused".to_string());
    assert_eq!(
        e.message(),
        "OpenAI is not running or unreachable at http://host/v1/. Could not connect to OpenAI. Please check your network connection and URL."
    );
}

#[test]
fn openrouter_headers() {
    let client = OpenAiClient::new(
        "OPENROUTER".to_string(),
        "https://example.com".to_string(),
        "m".to_string(),
        Some("   ".to_string()),
    );
    assert!(client.is_openrouter());
    assert_eq!(
        client.request_headers(),
        vec![
            ("HTTP-Referer".to_string(), "https://github.com/veskuh/ask".to_string()),
            ("X-Title".to_string(), "ask".to_string()),
        ]
    );
    assert_eq!(client.api_key_variable(), "OPENROUTER_API_KEY");
}

#[test]
fn mod_test_openai_methods_and_llm_client_dispatch() {
    let url = "http://127.0.0.1:1234".to_string();
    let openai_client = OpenAiClient::new(
        "OpenRouter".to_string(),
        url.clone(),
        "test-model".to_string(),
        Some("key".to_string()),
    );
    let body = "data: {\"choices\":[{\"delta\":{\"content\":\"echo 42\"}}]}\n\ndata: [DONE]\n\n";
    let (_, cmd) = run_openai(&openai_client.provider_name, body, 8).unwrap();
    assert_eq!(cmd, "echo 42");

    let llm = LlmClient::OpenAi(openai_client);
    assert_eq!(llm.provider_name(), "OpenRouter");
    assert_eq!(llm.model(), "test-model");
    assert_eq!(llm.host(), url);

    let ollama = LlmClient::Ollama(OllamaClient::new(
        "http://localhost:11434".to_string(),
        "ollama-model".to_string(),
    ));
    assert_eq!(ollama.provider_name(), "Ollama");
    assert_eq!(ollama.model(), "ollama-model");
    assert_eq!(ollama.host(), "http://localhost:11434");
}

#[test]
fn openai_reasoning_fields_and_think_block_together() {
    let body = "data: {\"choices\":[{\"delta\":{\"reasoning\":\"plan\",\"content\":\"pre <th\"}}]}\n\n\
                data: {\"choices\":[{\"delta\":{\"reasoning_content\":\"more\"}},{\"delta\":{\"content\":\"ink>inner</thi\"}}]}\n\n\
                data: {\"choices\":[{\"delta\":{\"content\":\"nk> post\"}}]}\n\n\
                data: [DONE]\n\n";
    for size in [1, 4, 13, body.len()] {
        let (outs, result) = run_openai("OpenRouter", body, size).unwrap();
        assert_eq!(answer(&outs), "pre  post");
        assert_eq!(result, "pre  post");
        assert_eq!(thoughts(&outs), "planmoreinner");
    }
}
