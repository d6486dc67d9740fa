use ask::cli::{apply_config_changes, resolve_client, try_get_fallback, CommandError};
use ask::config::ApiKeyEnv;
use ask::{ClientError, Config, LlmClient, OllamaClient};

fn no_env() -> ApiKeyEnv {
    ApiKeyEnv { openrouter_api_key: None, openai_api_key: None, ask_api_key: None }
}

#[test]
fn resolve_client_defaults_to_ollama() {
    let cfg = Config::default();
    match resolve_client(&cfg, None, None, None, None, &no_env()) {
        Ok(LlmClient::Ollama(c)) => {
            assert_eq!(c.host, "http://localhost:11434");
            assert_eq!(c.model, "gemma4:e4b");
        }
        _ => panic!("expected an Ollama client"),
    }
    match resolve_client(&cfg, Some("OLLAMA"), Some("http://h:1"), Some("m"), None, &no_env()) {
        Ok(LlmClient::Ollama(c)) => {
            assert_eq!(c.host, "http://h:1");
            assert_eq!(c.model, "m");
        }
        _ => panic!("expected an Ollama client"),
    }
}

#[test]
fn resolve_client_openrouter_needs_key() {
    let cfg = Config::default();
    match resolve_client(&cfg, Some("openrouter"), None, None, None, &no_env()) {
        Err(e) => {
            assert!(matches!(e, CommandError::MissingOpenRouterKey));
            assert_eq!(
                e.message(),
                "OpenRouter requires an API key. Set OPENROUTER_API_KEY environment variable or run 'ask config --set-api-key <KEY>'."
            );
        }
        Ok(_) => panic!("expected a refusal"),
    }
    let env = ApiKeyEnv { openrouter_api_key: Some("sk-or".to_string()), ..no_env() };
    match resolve_client(&cfg, Some("OpenRouter"), None, Some("x/y"), None, &env) {
        Ok(LlmClient::OpenAi(c)) => {
            assert_eq!(c.provider_name, "OpenRouter");
            assert_eq!(c.base_url, "https://openrouter.ai/api/v1");
            assert_eq!(c.model, "x/y");
            assert_eq!(c.api_key, Some("sk-or".to_string()));
        }
        _ => panic!("expected an OpenRouter client"),
    }
}

#[test]
fn resolve_client_openai_key_optional() {
    let mut cfg = Config::default();
    cfg.provider = "openai".to_string();
    match resolve_client(&cfg, None, Some("http://local/v1"), None, None, &no_env()) {
        Ok(LlmClient::OpenAi(c)) => {
            assert_eq!(c.provider_name, "OpenAI");
            assert_eq!(c.base_url, "http://local/v1");
            assert_eq!(c.model, "gpt-4o-mini");
            assert_eq!(c.api_key, None);
        }
        _ => panic!("expected an OpenAI client"),
    }
    match resolve_client(&cfg, None, None, None, Some(" sk "), &no_env()) {
        Ok(LlmClient::OpenAi(c)) => assert_eq!(c.api_key, Some("sk".to_string())),
        _ => panic!("expected an OpenAI client"),
    }
}

#[test]
fn resolve_client_unknown_provider() {
    let cfg = Config::default();
    match resolve_client(&cfg, Some("Cohere"), None, None, None, &no_env()) {
        Err(e) => {
            assert!(matches!(&e, CommandError::UnknownProvider(p) if p == "cohere"));
            assert_eq!(
                e.message(),
                "Unknown provider 'cohere'. Supported providers: ollama, openrouter, openai"
            );
        }
        Ok(_) => panic!("expected a refusal"),
    }
}

#[test]
fn fallback_to_openrouter_when_ollama_unreachable() {
    let cfg = Config::default();
    let client = LlmClient::Ollama(OllamaClient::new(cfg.host.clone(), cfg.model.clone()));
    let unreachable = ClientError::Unreachable {
        provider: "Ollama".to_string(),
        host: cfg.host.clone(),
        hint: String::new(),
        source: None,
    };
    assert!(try_get_fallback(&client, &cfg, None, &no_env(), &unreachable).is_none());
    let env = ApiKeyEnv { ask_api_key: Some("k".to_string()), ..no_env() };
    match try_get_fallback(&client, &cfg, None, &env, &unreachable) {
        Some(LlmClient::OpenAi(c)) => {
            assert_eq!(c.provider_name, "OpenRouter");
            assert_eq!(c.model, "deepseek/deepseek-v4-flash");
            assert_eq!(c.api_key, Some("k".to_string()));
        }
        _ => panic!("expected an OpenRouter fallback"),
    }
    let other = ClientError::NetworkError("reset".to_string());
    assert!(try_get_fallback(&client, &cfg, Some("k"), &env, &other).is_none());
}

#[test]
fn no_fallback_for_cloud_clients() {
    let cfg = Config::default();
    let env = ApiKeyEnv { openrouter_api_key: Some("k".to_string()), ..no_env() };
    let client = resolve_client(&cfg, Some("openrouter"), None, None, None, &env).unwrap();
    let unreachable = ClientError::Unreachable {
        provider: "OpenRouter".to_string(),
        host: String::new(),
        hint: String::new(),
        source: None,
    };
    assert!(try_get_fallback(&client, &cfg, None, &env, &unreachable).is_none());
}

#[test]
fn config_changes_for_active_provider() {
    let mut cfg = Config::default();
    let r = apply_config_changes(
        &mut cfg,
        None,
        Some("OpenRouter"),
        Some("sk-or".to_string()),
        Some("m1".to_string()),
        Some("https://or.example/api".to_string()),
    );
    assert!(matches!(r, Ok(true)));
    assert_eq!(cfg.provider, "openrouter");
    assert_eq!(cfg.openrouter.api_key, "sk-or");
    assert_eq!(cfg.openrouter.model, "m1");
    assert_eq!(cfg.openrouter.base_url, "https://or.example/api");
    assert_eq!(cfg.model, "gemma4:e4b");
    assert_eq!(cfg.host, "http://localhost:11434");
}

#[test]
fn config_changes_for_target_provider() {
    let mut cfg = Config::default();
    let r = apply_config_changes(
        &mut cfg,
        Some("OpenAI"),
        None,
        Some("sk-oa".to_string()),
        Some("gpt-x".to_string()),
        None,
    );
    assert!(matches!(r, Ok(true)));
    assert_eq!(cfg.provider, "ollama");
    assert_eq!(cfg.openai.api_key, "sk-oa");
    assert_eq!(cfg.openai.model, "gpt-x");
    assert_eq!(cfg.model, "gemma4:e4b");

    let r = apply_config_changes(&mut cfg, None, None, None, Some("llama3".to_string()), Some("http://h:2".to_string()));
    assert!(matches!(r, Ok(true)));
    assert_eq!(cfg.model, "llama3");
    assert_eq!(cfg.host, "http://h:2");

    // An API key for the active Ollama provider is stored for OpenRouter.
    let r = apply_config_changes(&mut cfg, None, None, Some("sk-2".to_string()), None, None);
    assert!(matches!(r, Ok(true)));
    assert_eq!(cfg.openrouter.api_key, "sk-2");

    let r = apply_config_changes(&mut cfg, None, None, None, None, None);
    assert!(matches!(r, Ok(false)));
}

#[test]
fn config_changes_refused() {
    let mut cfg = Config::default();
    match apply_config_changes(&mut cfg, None, Some("Mistral"), None, Some("x".to_string()), None) {
        Err(e) => assert_eq!(
            e.message(),
            "Invalid provider 'Mistral'. Supported providers: ollama, openrouter, openai"
        ),
        Ok(_) => panic!("expected a refusal"),
    }
    match apply_config_changes(&mut cfg, Some("Nowhere"), Some("openai"), None, None, None) {
        Err(e) => assert_eq!(
            e.message(),
            "Invalid target provider 'Nowhere'. Supported providers: ollama, openrouter, openai"
        ),
        Ok(_) => panic!("expected a refusal"),
    }
    match apply_config_changes(&mut cfg, Some("ollama"), Some("openai"), Some("k".to_string()), None, None) {
        Err(e) => {
            assert!(matches!(e, CommandError::OllamaApiKey));
            assert_eq!(
                e.message(),
                "Ollama does not use an API key. Target 'openrouter' or 'openai' with -p/--provider."
            );
        }
        Ok(_) => panic!("expected a refusal"),
    }
    // Nothing was changed by the refused requests.
    assert_eq!(cfg.provider, "ollama");
    assert_eq!(cfg.model, "gemma4:e4b");
    assert!(cfg.openrouter.api_key.is_empty());
}
