use ask::config::{
    default_auto_copy, default_embedding_model, default_host, default_model,
    default_openai_base_url, default_openai_model, default_openrouter_base_url,
    default_openrouter_model, default_provider, ApiKeyEnv, ConfigError, State,
};
use ask::Config;

fn no_env() -> ApiKeyEnv {
    ApiKeyEnv { openrouter_api_key: None, openai_api_key: None, ask_api_key: None }
}

#[test]
fn default_settings() {
    assert_eq!(default_provider(), "ollama");
    assert_eq!(default_model(), "gemma4:e4b");
    assert_eq!(default_host(), "http://localhost:11434");
    assert!(default_auto_copy());
    assert_eq!(default_embedding_model(), "nomic-embed-text");
    assert_eq!(default_openrouter_base_url(), "https://openrouter.ai/api/v1");
    assert_eq!(default_openrouter_model(), "deepseek/deepseek-v4-flash");
    assert_eq!(default_openai_base_url(), "https://api.openai.com/v1");
    assert_eq!(default_openai_model(), "gpt-4o-mini");
    let cfg = Config::default();
    assert_eq!(cfg.provider, "ollama");
    assert_eq!(cfg.openrouter.base_url, "https://openrouter.ai/api/v1");
    assert!(cfg.openrouter.api_key.is_empty());
    assert!(cfg.openai.api_key.is_empty());
    assert!(cfg.validate().is_ok());
}

#[test]
fn test_openrouter_config() {
    let mut cfg = Config::default();
    cfg.provider = "openrouter".to_string();
    cfg.openrouter.base_url = "https://openrouter.ai/api/v1".to_string();
    cfg.openrouter.model = "deepseek/deepseek-v4-flash".to_string();
    cfg.openrouter.api_key = "test-key".to_string();
    assert_eq!(cfg.provider, "openrouter");
    assert_eq!(cfg.openrouter.api_key, "test-key");
    assert!(cfg.validate().is_ok());

    // CLI override always takes highest precedence
    let cli_override = cfg.resolve_api_key("openrouter", Some("cli-key"), &no_env());
    assert_eq!(cli_override, Some("cli-key".to_string()));

    // Resolve without CLI override returns Some key (from env if set, else config)
    let resolved = cfg.resolve_api_key("openrouter", None, &no_env());
    assert!(resolved.is_some());
}

#[test]
fn test_invalid_provider() {
    let cfg = Config { provider: "unsupported".to_string(), ..Default::default() };
    assert!(cfg.validate().is_err());
}

#[test]
fn test_config_validation_branches() {
    // Invalid Ollama host URL
    let cfg = Config { host: "invalid host: //".to_string(), ..Default::default() };
    assert!(cfg.validate().is_err());

    // Empty Ollama model
    let cfg = Config { model: "   ".to_string(), ..Default::default() };
    assert!(cfg.validate().is_err());

    // Invalid OpenRouter URL
    let mut cfg = Config { provider: "openrouter".to_string(), ..Default::default() };
    cfg.openrouter.base_url = "not a valid url".to_string();
    assert!(cfg.validate().is_err());

    // Empty OpenRouter model
    let mut cfg = Config { provider: "openrouter".to_string(), ..Default::default() };
    cfg.openrouter.model = "".to_string();
    assert!(cfg.validate().is_err());

    // Valid OpenAI provider
    let cfg = Config { provider: "openai".to_string(), ..Default::default() };
    assert!(cfg.validate().is_ok());

    // Invalid OpenAI URL
    let mut cfg = Config { provider: "openai".to_string(), ..Default::default() };
    cfg.openai.base_url = "bad-url".to_string();
    assert!(cfg.validate().is_err());

    // Empty OpenAI model
    let mut cfg = Config { provider: "openai".to_string(), ..Default::default() };
    cfg.openai.model = "".to_string();
    assert!(cfg.validate().is_err());
}

#[test]
fn validation_errors_and_messages() {
    let cfg = Config { host: "invalid host: //".to_string(), ..Default::default() };
    let e = cfg.validate().unwrap_err();
    assert!(matches!(e, ConfigError::InvalidOllamaHost(_)));
    assert_eq!(e.message(), "Invalid Ollama host URL in configuration");

    let cfg = Config { model: " \t ".to_string(), ..Default::default() };
    let e = cfg.validate().unwrap_err();
    assert!(matches!(e, ConfigError::EmptyOllamaModel));
    assert_eq!(e.message(), "Ollama model name cannot be empty in configuration");

    let mut cfg = Config { provider: "OpenRouter".to_string(), ..Default::default() };
    cfg.openrouter.base_url = "not a valid url".to_string();
    cfg.openrouter.model = String::new();
    let e = cfg.validate().unwrap_err();
    assert!(matches!(e, ConfigError::InvalidOpenRouterBaseUrl(_)));
    assert_eq!(e.message(), "Invalid OpenRouter base URL in configuration");

    let mut cfg = Config { provider: "openrouter".to_string(), ..Default::default() };
    cfg.openrouter.model = String::new();
    let e = cfg.validate().unwrap_err();
    assert!(matches!(e, ConfigError::EmptyOpenRouterModel));
    assert_eq!(e.message(), "OpenRouter model name cannot be empty in configuration");

    let mut cfg = Config { provider: "OPENAI".to_string(), ..Default::default() };
    cfg.openai.base_url = "bad-url".to_string();
    let e = cfg.validate().unwrap_err();
    assert!(matches!(e, ConfigError::InvalidOpenAiBaseUrl(_)));
    assert_eq!(e.message(), "Invalid OpenAI base URL in configuration");

    let mut cfg = Config { provider: "openai".to_string(), ..Default::default() };
    cfg.openai.model = "  ".to_string();
    let e = cfg.validate().unwrap_err();
    assert!(matches!(e, ConfigError::EmptyOpenAiModel));
    assert_eq!(e.message(), "OpenAI model name cannot be empty in configuration");

    let cfg = Config { provider: "Mistral".to_string(), ..Default::default() };
    let e = cfg.validate().unwrap_err();
    assert!(matches!(&e, ConfigError::UnknownProvider(p) if p == "mistral"));
    assert_eq!(
        e.message(),
        "Unknown provider 'mistral'. Supported providers: ollama, openrouter, openai"
    );
}

#[test]
fn validation_carries_the_url_error() {
    let cfg = Config { host: "not a url".to_string(), ..Default::default() };
    match cfg.validate() {
        Err(ConfigError::InvalidOllamaHost(cause)) => {
            assert_eq!(cause, url::Url::parse("not a url").unwrap_err());
        }
        other => panic!("unexpected result: {:?}", other),
    }
}

#[test]
fn provider_names_are_case_insensitive() {
    let cfg = Config { provider: "Ollama".to_string(), ..Default::default() };
    assert!(cfg.validate().is_ok());
    let cfg = Config { provider: "OpenAI".to_string(), ..Default::default() };
    assert!(cfg.validate().is_ok());
}

#[test]
fn test_resolve_api_key_fallbacks() {
    let mut cfg = Config::default();
    cfg.openai.api_key = "openai-stored-key".to_string();
    cfg.openrouter.api_key = "openrouter-stored-key".to_string();

    // Empty CLI key is ignored and falls back to config or env
    let resolved = cfg.resolve_api_key("openai", Some("   "), &no_env());
    assert!(resolved.is_some());

    // Unknown provider returns None
    assert!(cfg.resolve_api_key("unknown-provider", None, &no_env()).is_none());
}

#[test]
fn resolve_api_key_order() {
    let mut cfg = Config::default();
    cfg.openai.api_key = "  stored-openai  ".to_string();
    cfg.openrouter.api_key = "stored-or".to_string();
    let env = ApiKeyEnv {
        openrouter_api_key: Some(" env-or ".to_string()),
        openai_api_key: Some("   ".to_string()),
        ask_api_key: Some("env-ask".to_string()),
    };
    assert_eq!(cfg.resolve_api_key("openrouter", Some(" cli "), &env), Some("cli".to_string()));
    assert_eq!(cfg.resolve_api_key("OpenRouter", None, &env), Some("env-or".to_string()));
    // A blank provider variable falls through to ASK_API_KEY.
    assert_eq!(cfg.resolve_api_key("openai", None, &env), Some("env-ask".to_string()));
    let env = ApiKeyEnv { openrouter_api_key: None, openai_api_key: None, ask_api_key: None };
    assert_eq!(cfg.resolve_api_key("openai", None, &env), Some("stored-openai".to_string()));
    assert_eq!(cfg.resolve_api_key("ollama", None, &env), None);
    assert_eq!(cfg.resolve_api_key("ollama", Some("k"), &env), Some("k".to_string()));
    cfg.openrouter.api_key = " ".to_string();
    assert_eq!(cfg.resolve_api_key("openrouter", Some(""), &env), None);
}

#[test]
fn test_state_struct() {
    let default_state = State::default();
    assert_eq!(default_state.last_command, "");

    let state = State { last_command: "git status".to_string() };
    assert_eq!(state.last_command, "git status");
}
