//! The decisions of the command-line tool: which client answers, when to fall back to
//! OpenRouter, and how `ask config` changes the settings.

use vstd::prelude::*;

use crate::client::ollama::OllamaClient;
use crate::client::openai::OpenAiClient;
use crate::client::{ClientError, LlmClient};
use crate::config::{opt_text, resolved_api_key, ApiKeyEnv, Config};
use crate::text::{lowercase, str_eq, to_lowercase};

verus! {

/// Why the tool refuses a request before asking any provider.
#[derive(Debug)]
pub enum CommandError {
    /// The provider, lowercased.
    UnknownProvider(String),
    MissingOpenRouterKey,
    /// The provider as it was given.
    InvalidProvider(String),
    /// The provider as it was given.
    InvalidTargetProvider(String),
    OllamaApiKey,
}

/// The description of a refusal, as it is shown to the user.
pub open spec fn command_error_text(e: CommandError) -> Seq<char> {
    match e {
        CommandError::UnknownProvider(p) => "Unknown provider '"@ + p@
            + "'. Supported providers: ollama, openrouter, openai"@,
        CommandError::MissingOpenRouterKey =>
            "OpenRouter requires an API key. Set OPENROUTER_API_KEY environment variable or run 'ask config --set-api-key <KEY>'."@,
        CommandError::InvalidProvider(p) => "Invalid provider '"@ + p@
            + "'. Supported providers: ollama, openrouter, openai"@,
        CommandError::InvalidTargetProvider(p) => "Invalid target provider '"@ + p@
            + "'. Supported providers: ollama, openrouter, openai"@,
        CommandError::OllamaApiKey =>
            "Ollama does not use an API key. Target 'openrouter' or 'openai' with -p/--provider."@,
    }
}

/// `prefix`, then `p`, then the list of supported providers.
fn provider_message(prefix: &str, p: &str) -> (s: String)
    ensures
        s@ == prefix@ + p@ + "'. Supported providers: ollama, openrouter, openai"@,
{
    let mut s = String::from_str(prefix);
    s.append(p);
    s.append("'. Supported providers: ollama, openrouter, openai");
    s
}

impl CommandError {
    /// The description of the refusal.
    pub fn message(&self) -> (s: String)
        ensures
            s@ == command_error_text(*self),
    {
        match self {
            CommandError::UnknownProvider(p) => provider_message("Unknown provider '", p.as_str()),
            CommandError::MissingOpenRouterKey => String::from_str(
                "OpenRouter requires an API key. Set OPENROUTER_API_KEY environment variable or run 'ask config --set-api-key <KEY>'.",
            ),
            CommandError::InvalidProvider(p) => provider_message("Invalid provider '", p.as_str()),
            CommandError::InvalidTargetProvider(p) => provider_message(
                "Invalid target provider '",
                p.as_str(),
            ),
            CommandError::OllamaApiKey => String::from_str(
                "Ollama does not use an API key. Target 'openrouter' or 'openai' with -p/--provider.",
            ),
        }
    }
}

/// The text of an optional string slice.
pub open spec fn opt_str(o: Option<&str>) -> Option<Seq<char>> {
    match o {
        Some(s) => Some(s@),
        None => None,
    }
}

/// The value given, else the default.
pub open spec fn given_or(o: Option<Seq<char>>, default: Seq<char>) -> Seq<char> {
    match o {
        Some(v) => v,
        None => default,
    }
}

/// The provider that answers: the one given on the command line, else the configured
/// one, lowercased.
pub open spec fn active_provider(cfg: Config, cli_provider: Option<Seq<char>>) -> Seq<char> {
    lowercase(given_or(cli_provider, cfg.provider@))
}

/// `r` is the client for the request: for Ollama the host and model given on the command
/// line or configured; for OpenRouter the same with its base URL, and refused without an
/// API key; for OpenAI the same with an optional key; any other provider is refused.
pub open spec fn client_for(
    cfg: Config,
    cli_provider: Option<Seq<char>>,
    cli_host: Option<Seq<char>>,
    cli_model: Option<Seq<char>>,
    cli_api_key: Option<Seq<char>>,
    env: ApiKeyEnv,
    r: Result<LlmClient, CommandError>,
) -> bool {
    let p = active_provider(cfg, cli_provider);
    if p == "ollama"@ {
        r matches Ok(LlmClient::Ollama(c)) && c.host@ == given_or(cli_host, cfg.host@) && c.model@
            == given_or(cli_model, cfg.model@)
    } else if p == "openrouter"@ {
        let key = resolved_api_key(cfg, "openrouter"@, cli_api_key, env);
        if key is None {
            r matches Err(CommandError::MissingOpenRouterKey)
        } else {
            r matches Ok(LlmClient::OpenAi(c)) && c.provider_name@ == "OpenRouter"@ && c.base_url@
                == given_or(cli_host, cfg.openrouter.base_url@) && c.model@ == given_or(
                cli_model,
                cfg.openrouter.model@,
            ) && opt_text(c.api_key) == key
        }
    } else if p == "openai"@ {
        r matches Ok(LlmClient::OpenAi(c)) && c.provider_name@ == "OpenAI"@ && c.base_url@
            == given_or(cli_host, cfg.openai.base_url@) && c.model@ == given_or(
            cli_model,
            cfg.openai.model@,
        ) && opt_text(c.api_key) == resolved_api_key(cfg, "openai"@, cli_api_key, env)
    } else {
        r matches Err(CommandError::UnknownProvider(q)) && q@ == p
    }
}

/// The value given, else a copy of the default.
fn given_or_clone(o: Option<&str>, default: &String) -> (s: String)
    ensures
        s@ == given_or(opt_str(o), default@),
{
    match o {
        Some(v) => String::from_str(v),
        None => default.clone(),
    }
}

/// Builds the client for a request from the settings and the command-line overrides.
pub fn resolve_client(
    cfg: &Config,
    cli_provider: Option<&str>,
    cli_host: Option<&str>,
    cli_model: Option<&str>,
    cli_api_key: Option<&str>,
    env: &ApiKeyEnv,
) -> (r: Result<LlmClient, CommandError>)
    ensures
        client_for(
            *cfg,
            opt_str(cli_provider),
            opt_str(cli_host),
            opt_str(cli_model),
            opt_str(cli_api_key),
            *env,
            r,
        ),
{
    let provider = match cli_provider {
        Some(p) => to_lowercase(p),
        None => to_lowercase(cfg.provider.as_str()),
    };
    if str_eq(provider.as_str(), "ollama") {
        let host = given_or_clone(cli_host, &cfg.host);
        let model = given_or_clone(cli_model, &cfg.model);
        Ok(LlmClient::Ollama(OllamaClient::new(host, model)))
    } else if str_eq(provider.as_str(), "openrouter") {
        let base_url = given_or_clone(cli_host, &cfg.openrouter.base_url);
        let model = given_or_clone(cli_model, &cfg.openrouter.model);
        let api_key = cfg.resolve_api_key("openrouter", cli_api_key, env);
        if api_key.is_none() {
            return Err(CommandError::MissingOpenRouterKey);
        }
        Ok(
            LlmClient::OpenAi(
                OpenAiClient::new(String::from_str("OpenRouter"), base_url, model, api_key),
            ),
        )
    } else if str_eq(provider.as_str(), "openai") {
        let base_url = given_or_clone(cli_host, &cfg.openai.base_url);
        let model = given_or_clone(cli_model, &cfg.openai.model);
        let api_key = cfg.resolve_api_key("openai", cli_api_key, env);
        Ok(
            LlmClient::OpenAi(
                OpenAiClient::new(String::from_str("OpenAI"), base_url, model, api_key),
            ),
        )
    } else {
        Err(CommandError::UnknownProvider(provider))
    }
}

/// `r` is the fallback after `error` from `client`: when Ollama was unreachable and an
/// OpenRouter key can be found, the configured OpenRouter model with that key; else none.
pub open spec fn fallback_for(
    client: LlmClient,
    cfg: Config,
    cli_api_key: Option<Seq<char>>,
    env: ApiKeyEnv,
    error: ClientError,
    r: Option<LlmClient>,
) -> bool {
    let key = resolved_api_key(cfg, "openrouter"@, cli_api_key, env);
    let name = match client {
        LlmClient::Ollama(_) => "Ollama"@,
        LlmClient::OpenAi(c) => c.provider_name@,
    };
    if name == "Ollama"@ && error is Unreachable && key is Some {
        r matches Some(LlmClient::OpenAi(c)) && c.provider_name@ == "OpenRouter"@ && c.base_url@
            == cfg.openrouter.base_url@ && c.model@ == cfg.openrouter.model@ && opt_text(c.api_key)
            == key
    } else {
        r is None
    }
}

/// The client to try after `error` from `client`: OpenRouter stands in for an Ollama
/// server that cannot be reached, when an OpenRouter key is available.
pub fn try_get_fallback(
    client: &LlmClient,
    cfg: &Config,
    cli_api_key: Option<&str>,
    env: &ApiKeyEnv,
    error: &ClientError,
) -> (r: Option<LlmClient>)
    ensures
        fallback_for(*client, *cfg, opt_str(cli_api_key), *env, *error, r),
{
    if !str_eq(client.provider_name(), "Ollama") {
        return None;
    }
    match error {
        ClientError::Unreachable { .. } => {},
        _ => return None,
    }
    match cfg.resolve_api_key("openrouter", cli_api_key, env) {
        Some(key) => Some(
            LlmClient::OpenAi(
                OpenAiClient::new(
                    String::from_str("OpenRouter"),
                    cfg.openrouter.base_url.clone(),
                    cfg.openrouter.model.clone(),
                    Some(key),
                ),
            ),
        ),
        None => None,
    }
}

/// Whether `p` names a supported provider.
pub open spec fn is_known_provider(p: Seq<char>) -> bool {
    p == "ollama"@ || p == "openrouter"@ || p == "openai"@
}

/// The provider after `ask config`: the one set, lowercased, else the configured one.
pub open spec fn provider_after(cfg: Config, set_provider: Option<Seq<char>>) -> Seq<char> {
    match set_provider {
        Some(p) => lowercase(p),
        None => cfg.provider@,
    }
}

/// The provider whose settings `ask config` changes: the target given, lowercased, else
/// the provider after the change.
pub open spec fn config_target(
    cfg: Config,
    target: Option<Seq<char>>,
    set_provider: Option<Seq<char>>,
) -> Seq<char> {
    match target {
        Some(t) => lowercase(t),
        None => provider_after(cfg, set_provider),
    }
}

/// Whether `ask config` refuses the request: an unknown provider to set, an unknown
/// target, or an API key for Ollama named as the target.
pub open spec fn config_change_refused(
    target: Option<Seq<char>>,
    set_provider: Option<Seq<char>>,
    sets_key: bool,
) -> bool {
    ||| (set_provider matches Some(p) && !is_known_provider(lowercase(p)))
    ||| (target matches Some(t) && !is_known_provider(lowercase(t)))
    ||| (sets_key && (target matches Some(t) && lowercase(t) == "ollama"@))
}

/// The refusal that `ask config` reports, the checks taken in that order.
pub open spec fn config_change_error(
    target: Option<Seq<char>>,
    set_provider: Option<Seq<char>>,
    e: CommandError,
) -> bool {
    match set_provider {
        Some(p) if !is_known_provider(lowercase(p)) => e matches CommandError::InvalidProvider(q)
            && q@ == p,
        _ => match target {
            Some(t) if !is_known_provider(lowercase(t)) => e matches CommandError::InvalidTargetProvider(q)
                && q@ == t,
            _ => e is OllamaApiKey,
        },
    }
}

/// `new` is `old` after `ask config`: the provider set; the API key stored for OpenAI when
/// it is the target, else for OpenRouter (Ollama has none, and its key goes to
/// OpenRouter); the model and the address set for OpenRouter or OpenAI when one is the
/// target, else for Ollama; everything else unchanged.
pub open spec fn config_changed(
    old: Config,
    new: Config,
    target: Option<Seq<char>>,
    set_provider: Option<Seq<char>>,
    set_api_key: Option<Seq<char>>,
    set_model: Option<Seq<char>>,
    set_host: Option<Seq<char>>,
) -> bool {
    let t = config_target(old, target, set_provider);
    &&& new.provider@ == provider_after(old, set_provider)
    &&& new.auto_copy == old.auto_copy
    &&& new.embedding_model@ == old.embedding_model@
    &&& new.openai.api_key@ == if t == "openai"@ {
        given_or(set_api_key, old.openai.api_key@)
    } else {
        old.openai.api_key@
    }
    &&& new.openrouter.api_key@ == if t != "openai"@ {
        given_or(set_api_key, old.openrouter.api_key@)
    } else {
        old.openrouter.api_key@
    }
    &&& new.openrouter.model@ == if t == "openrouter"@ {
        given_or(set_model, old.openrouter.model@)
    } else {
        old.openrouter.model@
    }
    &&& new.openai.model@ == if t == "openai"@ {
        given_or(set_model, old.openai.model@)
    } else {
        old.openai.model@
    }
    &&& new.model@ == if t != "openrouter"@ && t != "openai"@ {
        given_or(set_model, old.model@)
    } else {
        old.model@
    }
    &&& new.openrouter.base_url@ == if t == "openrouter"@ {
        given_or(set_host, old.openrouter.base_url@)
    } else {
        old.openrouter.base_url@
    }
    &&& new.openai.base_url@ == if t == "openai"@ {
        given_or(set_host, old.openai.base_url@)
    } else {
        old.openai.base_url@
    }
    &&& new.host@ == if t != "openrouter"@ && t != "openai"@ {
        given_or(set_host, old.host@)
    } else {
        old.host@
    }
}

/// Checks a provider name: its lowercase form if it is supported.
fn known_provider(p: &str) -> (r: Option<String>)
    ensures
        is_known_provider(lowercase(p@)) <==> r is Some,
        r matches Some(l) ==> l@ == lowercase(p@),
{
    let l = to_lowercase(p);
    if str_eq(l.as_str(), "ollama") || str_eq(l.as_str(), "openrouter") || str_eq(
        l.as_str(),
        "openai",
    ) {
        Some(l)
    } else {
        None
    }
}

/// Applies the changes of `ask config` to the settings: the provider to use, then an API
/// key, a model and an address for the targeted provider (by default the active one).
/// Returns whether anything was set. A refused request leaves the settings as they were.
pub fn apply_config_changes(
    cfg: &mut Config,
    target_provider: Option<&str>,
    set_provider: Option<&str>,
    set_api_key: Option<String>,
    set_model: Option<String>,
    set_host: Option<String>,
) -> (r: Result<bool, CommandError>)
    requires
        set_api_key is Some && target_provider is None && set_provider is None
            ==> is_known_provider(old(cfg).provider@),
    ensures
        r is Err <==> config_change_refused(
            opt_str(target_provider),
            opt_str(set_provider),
            set_api_key is Some,
        ),
        r matches Err(e) ==> config_change_error(opt_str(target_provider), opt_str(set_provider), e)
            && *final(cfg) == *old(cfg),
        r matches Ok(modified) ==> modified == (set_provider is Some || set_api_key is Some
            || set_model is Some || set_host is Some) && config_changed(
            *old(cfg),
            *final(cfg),
            opt_str(target_provider),
            opt_str(set_provider),
            opt_text(set_api_key),
            opt_text(set_model),
            opt_text(set_host),
        ),
{
    let new_provider = match set_provider {
        Some(p) => match known_provider(p) {
            Some(l) => Some(l),
            None => return Err(CommandError::InvalidProvider(String::from_str(p))),
        },
        None => None,
    };
    let target = match target_provider {
        Some(p) => match known_provider(p) {
            Some(l) => Some(l),
            None => return Err(CommandError::InvalidTargetProvider(String::from_str(p))),
        },
        None => None,
    };
    let effective = match &target {
        Some(t) => t.clone(),
        None => match &new_provider {
            Some(p) => p.clone(),
            None => cfg.provider.clone(),
        },
    };
    let ghost t = config_target(*cfg, opt_str(target_provider), opt_str(set_provider));
    assert(effective@ == t);
    if set_api_key.is_some() && target.is_some() && str_eq(effective.as_str(), "ollama") {
        return Err(CommandError::OllamaApiKey);
    }
    let ghost api_key = opt_text(set_api_key);
    let ghost model = opt_text(set_model);
    let ghost host = opt_text(set_host);
    let mut modified = false;
    match new_provider {
        Some(p) => {
            cfg.provider = p;
            modified = true;
        },
        None => {},
    }
    proof {
        reveal_strlit("openai");
        reveal_strlit("openrouter");
    }
    let to_openai = str_eq(effective.as_str(), "openai");
    let to_openrouter = str_eq(effective.as_str(), "openrouter");
    match set_api_key {
        Some(k) => {
            if to_openai {
                cfg.openai.api_key = k;
            } else {
                cfg.openrouter.api_key = k;
            }
            modified = true;
        },
        None => {},
    }
    match set_model {
        Some(m) => {
            if to_openrouter {
                cfg.openrouter.model = m;
            } else if to_openai {
                cfg.openai.model = m;
            } else {
                cfg.model = m;
            }
            modified = true;
        },
        None => {},
    }
    match set_host {
        Some(h) => {
            if to_openrouter {
                cfg.openrouter.base_url = h;
            } else if to_openai {
                cfg.openai.base_url = h;
            } else {
                cfg.host = h;
            }
            modified = true;
        },
        None => {},
    }
    Ok(modified)
}

} // verus!

verus! {

/// The model that a client asks.
pub open spec fn client_model(c: LlmClient) -> Seq<char> {
    match c {
        LlmClient::Ollama(o) => o.model@,
        LlmClient::OpenAi(o) => o.model@,
    }
}

/// The server address that a client talks to.
pub open spec fn client_host(c: LlmClient) -> Seq<char> {
    match c {
        LlmClient::Ollama(o) => o.host@,
        LlmClient::OpenAi(o) => o.base_url@,
    }
}

/// Law: the command-line overrides reach the client, whatever the provider. A model given
/// on the command line is the model asked and a host given is the address used; without
/// them, the model and address configured for the chosen provider (the one given on the
/// command line, else the configured one, in any letter case) are used. Ollama, OpenAI
/// and (with a key) OpenRouter give a client of that provider; any other name is refused.
pub proof fn lemma_overrides_reach_client(
    cfg: Config,
    cli_provider: Option<Seq<char>>,
    cli_host: Option<Seq<char>>,
    cli_model: Option<Seq<char>>,
    cli_api_key: Option<Seq<char>>,
    env: ApiKeyEnv,
    r: Result<LlmClient, CommandError>,
)
    requires
        client_for(cfg, cli_provider, cli_host, cli_model, cli_api_key, env, r),
    ensures
        ({
            let p = lowercase(
                match cli_provider {
                    Some(x) => x,
                    None => cfg.provider@,
                },
            );
            let configured_model = if p == "ollama"@ {
                cfg.model@
            } else if p == "openrouter"@ {
                cfg.openrouter.model@
            } else {
                cfg.openai.model@
            };
            let configured_host = if p == "ollama"@ {
                cfg.host@
            } else if p == "openrouter"@ {
                cfg.openrouter.base_url@
            } else {
                cfg.openai.base_url@
            };
            &&& r matches Ok(c) ==> (cli_model matches Some(m) ==> client_model(c) == m)
            &&& r matches Ok(c) ==> (cli_model is None ==> client_model(c) == configured_model)
            &&& r matches Ok(c) ==> (cli_host matches Some(h) ==> client_host(c) == h)
            &&& r matches Ok(c) ==> (cli_host is None ==> client_host(c) == configured_host)
            &&& p == "ollama"@ ==> (r matches Ok(LlmClient::Ollama(_)))
            &&& p == "openai"@ ==> match r {
                Ok(LlmClient::OpenAi(c)) => c.provider_name@ == "OpenAI"@,
                _ => false,
            }
            &&& p == "openrouter"@ ==> (r is Ok <==> resolved_api_key(
                cfg,
                "openrouter"@,
                cli_api_key,
                env,
            ) is Some)
            &&& p == "openrouter"@ && r is Ok ==> match r {
                Ok(LlmClient::OpenAi(c)) => c.provider_name@ == "OpenRouter"@,
                _ => false,
            }
            &&& !(p == "ollama"@ || p == "openai"@ || p == "openrouter"@) ==> r is Err
        }),
{
    reveal_strlit("ollama");
    reveal_strlit("openrouter");
    reveal_strlit("openai");
    assert("openai"@[1] != "ollama"@[1]);
    assert("openai"@.len() != "openrouter"@.len());
    assert("ollama"@.len() != "openrouter"@.len());
}

} // verus!

verus! {

/// Law: `ask config` changes only the settings of the provider it targets. The target is
/// the provider named with `-p` (lowercased), else the provider being set (lowercased),
/// else the configured one. A host set is stored as the target's address (the OpenAI or
/// OpenRouter base URL, else the Ollama host) and the other two addresses stay as they
/// were; a model set goes likewise to the target's model only; an API key set is stored
/// for OpenAI when it is the target and for OpenRouter otherwise, the other key staying
/// as it was; without a value, each setting keeps its old value. The provider becomes the
/// one set, lowercased, else stays.
pub proof fn lemma_config_changes_land_on_target(
    old: Config,
    new: Config,
    target: Option<Seq<char>>,
    set_provider: Option<Seq<char>>,
    set_api_key: Option<Seq<char>>,
    set_model: Option<Seq<char>>,
    set_host: Option<Seq<char>>,
)
    requires
        config_changed(old, new, target, set_provider, set_api_key, set_model, set_host),
    ensures
        ({
            let t = match target {
                Some(x) => lowercase(x),
                None => match set_provider {
                    Some(x) => lowercase(x),
                    None => old.provider@,
                },
            };
            let to_openai = t == "openai"@;
            let to_openrouter = t == "openrouter"@;
            &&& new.provider@ == match set_provider {
                Some(x) => lowercase(x),
                None => old.provider@,
            }
            &&& set_host is None ==> new.host@ == old.host@ && new.openai.base_url@
                == old.openai.base_url@ && new.openrouter.base_url@ == old.openrouter.base_url@
            &&& set_host is Some && to_openai ==> new.openai.base_url@ == set_host->0 && new.host@
                == old.host@ && new.openrouter.base_url@ == old.openrouter.base_url@
            &&& set_host is Some && to_openrouter ==> new.openrouter.base_url@ == set_host->0
                && new.host@ == old.host@ && new.openai.base_url@ == old.openai.base_url@
            &&& set_host is Some && !to_openai && !to_openrouter ==> new.host@ == set_host->0
                && new.openai.base_url@ == old.openai.base_url@ && new.openrouter.base_url@
                == old.openrouter.base_url@
            &&& set_model is None ==> new.model@ == old.model@ && new.openai.model@
                == old.openai.model@ && new.openrouter.model@ == old.openrouter.model@
            &&& set_model is Some && to_openai ==> new.openai.model@ == set_model->0 && new.model@
                == old.model@ && new.openrouter.model@ == old.openrouter.model@
            &&& set_model is Some && to_openrouter ==> new.openrouter.model@ == set_model->0
                && new.model@ == old.model@ && new.openai.model@ == old.openai.model@
            &&& set_model is Some && !to_openai && !to_openrouter ==> new.model@ == set_model->0
                && new.openai.model@ == old.openai.model@ && new.openrouter.model@
                == old.openrouter.model@
            &&& set_api_key is None ==> new.openai.api_key@ == old.openai.api_key@
                && new.openrouter.api_key@ == old.openrouter.api_key@
            &&& set_api_key is Some && to_openai ==> new.openai.api_key@ == set_api_key->0
                && new.openrouter.api_key@ == old.openrouter.api_key@
            &&& set_api_key is Some && !to_openai ==> new.openrouter.api_key@ == set_api_key->0
                && new.openai.api_key@ == old.openai.api_key@
        }),
{
    reveal_strlit("openrouter");
    reveal_strlit("openai");
    assert("openai"@.len() != "openrouter"@.len());
}

} // verus!

verus! {

/// Law: falling back happens only for an Ollama client (one named `Ollama`) that could not
/// reach its server, and only when an OpenRouter key is available; the fallback then asks
/// the configured OpenRouter model at the configured OpenRouter address with that key.
/// Any other error, any other client, or no key gives no fallback.
pub proof fn lemma_fallback_only_for_unreachable_ollama(
    client: LlmClient,
    cfg: Config,
    cli_api_key: Option<Seq<char>>,
    env: ApiKeyEnv,
    error: ClientError,
    r: Option<LlmClient>,
)
    requires
        fallback_for(client, cfg, cli_api_key, env, error, r),
    ensures
        !(error is Unreachable) ==> r is None,
        (client matches LlmClient::OpenAi(c) && c.provider_name@ != "Ollama"@) ==> r is None,
        resolved_api_key(cfg, "openrouter"@, cli_api_key, env) is None ==> r is None,
        (client is Ollama && error is Unreachable && resolved_api_key(
            cfg,
            "openrouter"@,
            cli_api_key,
            env,
        ) is Some) ==> r is Some,
        r matches Some(f) ==> client_model(f) == cfg.openrouter.model@ && client_host(f)
            == cfg.openrouter.base_url@,
        r matches Some(LlmClient::OpenAi(c)) ==> c.provider_name@ == "OpenRouter"@ && opt_text(
            c.api_key,
        ) == resolved_api_key(cfg, "openrouter"@, cli_api_key, env),
        r matches Some(f) ==> f is OpenAi,
{
}

} // verus!
