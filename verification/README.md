# ask

A command-line helper that turns natural-language questions into shell commands with
the help of a language model (a local Ollama server, OpenRouter, or an
OpenAI-compatible API).

The logic of the tool is a library verified with Verus:

- `src/client/stream.rs`: incremental UTF-8 decoding of a byte stream, and detection of
  a `<think>` tag that is still arriving.
- `src/client/think.rs`: the streaming filter that separates a model's reasoning
  (`<think>…</think>`) from its answer; `src/client/separation.rs` proves that the
  separation is exact however the response is cut into chunks.
- `src/client/ollama.rs`, `src/client/openai.rs`: the two providers' request planning,
  status handling and streaming engines (newline-delimited JSON and server-sent events).
- `src/config.rs`: settings, their validation and API-key resolution.
- `src/cli.rs`: choosing the client, falling back to OpenRouter, and `ask config`.
- `src/prompt.rs`, `src/ui.rs`: prompts, OS detection from `/etc/os-release`, and
  reading commands out of an answer.
- `src/text.rs`: character-level string utilities with their mathematical models.

`app/` is the executable around it: argument parsing, configuration files, HTTP,
terminal output, the clipboard, and the semantic cache (whose similarity measure is
floating point).
