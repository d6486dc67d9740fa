//! Settings: providers, models, hosts and API keys, with their defaults and checks.
//! The semantic-cache similarity threshold is a floating-point setting and is checked by
//! the application around this library.

use vstd::prelude::*;

use crate::text::{lowercase, str_eq, to_lowercase, trim, trim_str};

use url::ParseError;

verus! {

/// The provider used by default.
pub fn default_provider() -> (s: String)
    ensures
        s@ == "ollama"@,
{
    String::from_str("ollama")
}

/// The Ollama model used by default.
pub fn default_model() -> (s: String)
    ensures
        s@ == "gemma4:e4b"@,
{
    String::from_str("gemma4:e4b")
}

/// The Ollama server used by default.
pub fn default_host() -> (s: String)
    ensures
        s@ == "http://localhost:11434"@,
{
    String::from_str("http://localhost:11434")
}

/// Commands are copied to the clipboard by default.
pub fn default_auto_copy() -> (b: bool)
    ensures
        b,
{
    true
}

/// The embedding model used for the semantic cache by default.
pub fn default_embedding_model() -> (s: String)
    ensures
        s@ == "nomic-embed-text"@,
{
    String::from_str("nomic-embed-text")
}

/// The OpenRouter API base URL used by default.
pub fn default_openrouter_base_url() -> (s: String)
    ensures
        s@ == "https://openrouter.ai/api/v1"@,
{
    String::from_str("https://openrouter.ai/api/v1")
}

/// The OpenRouter model used by default.
pub fn default_openrouter_model() -> (s: String)
    ensures
        s@ == "deepseek/deepseek-v4-flash"@,
{
    String::from_str("deepseek/deepseek-v4-flash")
}

/// The OpenAI API base URL used by default.
pub fn default_openai_base_url() -> (s: String)
    ensures
        s@ == "https://api.openai.com/v1"@,
{
    String::from_str("https://api.openai.com/v1")
}

/// The OpenAI model used by default.
pub fn default_openai_model() -> (s: String)
    ensures
        s@ == "gpt-4o-mini"@,
{
    String::from_str("gpt-4o-mini")
}

/// Settings for OpenRouter.
pub struct OpenRouterConfig {
    pub base_url: String,
    pub model: String,
    pub api_key: String,
}

impl Default for OpenRouterConfig {
    fn default() -> (c: Self)
        ensures
            c.base_url@ == "https://openrouter.ai/api/v1"@,
            c.model@ == "deepseek/deepseek-v4-flash"@,
            c.api_key@ == Seq::<char>::empty(),
    {
        OpenRouterConfig {
            base_url: default_openrouter_base_url(),
            model: default_openrouter_model(),
            api_key: String::new(),
        }
    }
}

/// Settings for an OpenAI-compatible API.
pub struct OpenAiConfig {
    pub base_url: String,
    pub model: String,
    pub api_key: String,
}

impl Default for OpenAiConfig {
    fn default() -> (c: Self)
        ensures
            c.base_url@ == "https://api.openai.com/v1"@,
            c.model@ == "gpt-4o-mini"@,
            c.api_key@ == Seq::<char>::empty(),
    {
        OpenAiConfig {
            base_url: default_openai_base_url(),
            model: default_openai_model(),
            api_key: String::new(),
        }
    }
}

/// The settings of the tool: the active provider, the Ollama server and models, whether
/// to copy commands to the clipboard, and the settings of the cloud providers.
pub struct Config {
    pub provider: String,
    pub model: String,
    pub host: String,
    pub auto_copy: bool,
    pub embedding_model: String,
    pub openrouter: OpenRouterConfig,
    pub openai: OpenAiConfig,
}

impl Default for Config {
    fn default() -> (c: Self)
        ensures
            c.provider@ == "ollama"@,
            c.model@ == "gemma4:e4b"@,
            c.host@ == "http://localhost:11434"@,
            c.auto_copy,
            c.embedding_model@ == "nomic-embed-text"@,
            c.openrouter.base_url@ == "https://openrouter.ai/api/v1"@,
            c.openrouter.model@ == "deepseek/deepseek-v4-flash"@,
            c.openrouter.api_key@ == Seq::<char>::empty(),
            c.openai.base_url@ == "https://api.openai.com/v1"@,
            c.openai.model@ == "gpt-4o-mini"@,
            c.openai.api_key@ == Seq::<char>::empty(),
    {
        Config {
            provider: default_provider(),
            model: default_model(),
            host: default_host(),
            auto_copy: default_auto_copy(),
            embedding_model: default_embedding_model(),
            openrouter: OpenRouterConfig::default(),
            openai: OpenAiConfig::default(),
        }
    }
}

/// What is remembered between runs: the last command chosen.
pub struct State {
    pub last_command: String,
}

impl Default for State {
    fn default() -> (s: Self)
        ensures
            s.last_command@ == Seq::<char>::empty(),
    {
        State { last_command: String::new() }
    }
}

/// `url::ParseError`, the reason a URL is refused; carried through unread.
#[verifier::external_type_specification]
#[verifier::external_body]
pub struct ExUrlParseError(url::ParseError);

/// Whether `url::Url::parse` accepts the text as an absolute URL.
pub uninterp spec fn url_parses(s: Seq<char>) -> bool;

/// `url::Url::parse`, keeping only whether it succeeds. The contract claims that it
/// succeeds exactly when `url_parses` holds of the text; which `ParseError` comes back
/// otherwise is not stated.
#[verifier::external_body]
fn check_url(s: &str) -> (r: Result<(), ParseError>)
    ensures
        r is Ok <==> url_parses(s@),
{
    match url::Url::parse(s) {
        Ok(_) => Ok(()),
        Err(e) => Err(e),
    }
}

/// Why a configuration is refused.
#[derive(Debug)]
pub enum ConfigError {
    InvalidOllamaHost(ParseError),
    InvalidOpenRouterBaseUrl(ParseError),
    InvalidOpenAiBaseUrl(ParseError),
    EmptyOllamaModel,
    EmptyOpenRouterModel,
    EmptyOpenAiModel,
    /// The provider, lowercased.
    UnknownProvider(String),
}

/// The description of a configuration error, as it is shown to the user.
pub open spec fn config_error_text(e: ConfigError) -> Seq<char> {
    match e {
        ConfigError::InvalidOllamaHost(_) => "Invalid Ollama host URL in configuration"@,
        ConfigError::InvalidOpenRouterBaseUrl(_) => "Invalid OpenRouter base URL in configuration"@,
        ConfigError::InvalidOpenAiBaseUrl(_) => "Invalid OpenAI base URL in configuration"@,
        ConfigError::EmptyOllamaModel => "Ollama model name cannot be empty in configuration"@,
        ConfigError::EmptyOpenRouterModel => "OpenRouter model name cannot be empty in configuration"@,
        ConfigError::EmptyOpenAiModel => "OpenAI model name cannot be empty in configuration"@,
        ConfigError::UnknownProvider(p) => "Unknown provider '"@ + p@
            + "'. Supported providers: ollama, openrouter, openai"@,
    }
}

impl ConfigError {
    /// The description of the error.
    pub fn message(&self) -> (s: String)
        ensures
            s@ == config_error_text(*self),
    {
        match self {
            ConfigError::InvalidOllamaHost(_) => String::from_str(
                "Invalid Ollama host URL in configuration",
            ),
            ConfigError::InvalidOpenRouterBaseUrl(_) => String::from_str(
                "Invalid OpenRouter base URL in configuration",
            ),
            ConfigError::InvalidOpenAiBaseUrl(_) => String::from_str(
                "Invalid OpenAI base URL in configuration",
            ),
            ConfigError::EmptyOllamaModel => String::from_str(
                "Ollama model name cannot be empty in configuration",
            ),
            ConfigError::EmptyOpenRouterModel => String::from_str(
                "OpenRouter model name cannot be empty in configuration",
            ),
            ConfigError::EmptyOpenAiModel => String::from_str(
                "OpenAI model name cannot be empty in configuration",
            ),
            ConfigError::UnknownProvider(p) => {
                let mut s = String::from_str("Unknown provider '");
                s.append(p.as_str());
                s.append("'. Supported providers: ollama, openrouter, openai");
                s
            },
        }
    }
}

/// Whether a model name has something besides whitespace.
pub open spec fn names_model(m: Seq<char>) -> bool {
    trim(m).len() > 0
}

/// Whether the settings of the active provider are usable: the provider is known (in any
/// case), its server address parses as a URL and its model is not blank.
pub open spec fn config_is_valid(c: Config) -> bool {
    let p = lowercase(c.provider@);
    if p == "ollama"@ {
        url_parses(c.host@) && names_model(c.model@)
    } else if p == "openrouter"@ {
        url_parses(c.openrouter.base_url@) && names_model(c.openrouter.model@)
    } else if p == "openai"@ {
        url_parses(c.openai.base_url@) && names_model(c.openai.model@)
    } else {
        false
    }
}

/// The error reported for a refused configuration: for a known provider the address is
/// checked before the model; an unknown provider is reported lowercased.
pub open spec fn config_error_for(c: Config, e: ConfigError) -> bool {
    let p = lowercase(c.provider@);
    if p == "ollama"@ {
        if !url_parses(c.host@) {
            e is InvalidOllamaHost
        } else {
            e is EmptyOllamaModel
        }
    } else if p == "openrouter"@ {
        if !url_parses(c.openrouter.base_url@) {
            e is InvalidOpenRouterBaseUrl
        } else {
            e is EmptyOpenRouterModel
        }
    } else if p == "openai"@ {
        if !url_parses(c.openai.base_url@) {
            e is InvalidOpenAiBaseUrl
        } else {
            e is EmptyOpenAiModel
        }
    } else {
        e matches ConfigError::UnknownProvider(q) && q@ == p
    }
}

/// Whether a string has something besides whitespace.
fn is_blank(s: &str) -> (b: bool)
    ensures
        b == !names_model(s@),
{
    let t = trim_str(s);
    t.as_str().is_empty()
}

impl Config {
    /// Checks the settings of the active provider.
    pub fn validate(&self) -> (r: Result<(), ConfigError>)
        ensures
            r is Ok <==> config_is_valid(*self),
            r matches Err(e) ==> config_error_for(*self, e),
    {
        let p = to_lowercase(self.provider.as_str());
        if str_eq(p.as_str(), "ollama") {
            match check_url(self.host.as_str()) {
                Err(e) => return Err(ConfigError::InvalidOllamaHost(e)),
                Ok(()) => {},
            }
            if is_blank(self.model.as_str()) {
                return Err(ConfigError::EmptyOllamaModel);
            }
        } else if str_eq(p.as_str(), "openrouter") {
            match check_url(self.openrouter.base_url.as_str()) {
                Err(e) => return Err(ConfigError::InvalidOpenRouterBaseUrl(e)),
                Ok(()) => {},
            }
            if is_blank(self.openrouter.model.as_str()) {
                return Err(ConfigError::EmptyOpenRouterModel);
            }
        } else if str_eq(p.as_str(), "openai") {
            match check_url(self.openai.base_url.as_str()) {
                Err(e) => return Err(ConfigError::InvalidOpenAiBaseUrl(e)),
                Ok(()) => {},
            }
            if is_blank(self.openai.model.as_str()) {
                return Err(ConfigError::EmptyOpenAiModel);
            }
        } else {
            return Err(ConfigError::UnknownProvider(p));
        }
        Ok(())
    }
}

/// The API keys found in the environment: `OPENROUTER_API_KEY`, `OPENAI_API_KEY` and
/// `ASK_API_KEY`, each absent where the variable is unset or not Unicode.
pub struct ApiKeyEnv {
    pub openrouter_api_key: Option<String>,
    pub openai_api_key: Option<String>,
    pub ask_api_key: Option<String>,
}

/// The text of an optional string.
pub open spec fn opt_text(o: Option<String>) -> Option<Seq<char>> {
    match o {
        Some(s) => Some(s@),
        None => None,
    }
}

/// A candidate key, trimmed, if it has something besides whitespace.
pub open spec fn usable_key(o: Option<Seq<char>>) -> Option<Seq<char>> {
    match o {
        Some(k) => if trim(k).len() > 0 {
            Some(trim(k))
        } else {
            None
        },
        None => None,
    }
}

/// The first of two optional values that is present.
pub open spec fn or_else(a: Option<Seq<char>>, b: Option<Seq<char>>) -> Option<Seq<char>> {
    match a {
        Some(x) => Some(x),
        None => b,
    }
}

/// The key to use for a provider: the one given on the command line, then the provider's
/// environment variable, then `ASK_API_KEY`, then the stored one; each trimmed, and
/// skipped where it is blank. Only OpenRouter and OpenAI (in any case) have keys.
pub open spec fn resolved_api_key(
    c: Config,
    provider: Seq<char>,
    cli: Option<Seq<char>>,
    env: ApiKeyEnv,
) -> Option<Seq<char>> {
    let p = lowercase(provider);
    or_else(
        usable_key(cli),
        if p == "openrouter"@ {
            or_else(
                usable_key(opt_text(env.openrouter_api_key)),
                or_else(
                    usable_key(opt_text(env.ask_api_key)),
                    usable_key(Some(c.openrouter.api_key@)),
                ),
            )
        } else if p == "openai"@ {
            or_else(
                usable_key(opt_text(env.openai_api_key)),
                or_else(
                    usable_key(opt_text(env.ask_api_key)),
                    usable_key(Some(c.openai.api_key@)),
                ),
            )
        } else {
            None
        },
    )
}

/// A candidate key, trimmed, if it has something besides whitespace.
fn usable(o: Option<&str>) -> (r: Option<String>)
    ensures
        opt_text(r) == usable_key(
            match o {
                Some(k) => Some(k@),
                None => None,
            },
        ),
{
    match o {
        Some(k) => {
            let t = trim_str(k);
            if t.as_str().is_empty() {
                None
            } else {
                Some(t)
            }
        },
        None => None,
    }
}

/// The text of an optional string, borrowed.
fn as_text(o: &Option<String>) -> (r: Option<&str>)
    ensures
        match r {
            Some(k) => opt_text(*o) == Some(k@),
            None => opt_text(*o) is None,
        },
{
    match o {
        Some(s) => Some(s.as_str()),
        None => None,
    }
}

impl Config {
    /// The API key for a provider: the command-line key, then the environment, then the
    /// stored setting.
    pub fn resolve_api_key(&self, provider: &str, cli_api_key: Option<&str>, env: &ApiKeyEnv) -> (r:
        Option<String>)
        ensures
            opt_text(r) == resolved_api_key(
                *self,
                provider@,
                match cli_api_key {
                    Some(k) => Some(k@),
                    None => None,
                },
                *env,
            ),
    {
        let from_cli = usable(cli_api_key);
        if from_cli.is_some() {
            return from_cli;
        }
        let p = to_lowercase(provider);
        if str_eq(p.as_str(), "openrouter") {
            let k = usable(as_text(&env.openrouter_api_key));
            if k.is_some() {
                return k;
            }
            let k = usable(as_text(&env.ask_api_key));
            if k.is_some() {
                return k;
            }
            usable(Some(self.openrouter.api_key.as_str()))
        } else if str_eq(p.as_str(), "openai") {
            let k = usable(as_text(&env.openai_api_key));
            if k.is_some() {
                return k;
            }
            let k = usable(as_text(&env.ask_api_key));
            if k.is_some() {
                return k;
            }
            usable(Some(self.openai.api_key.as_str()))
        } else {
            None
        }
    }
}

/// Law: a key given on the command line that is not blank is always the one used,
/// trimmed, whatever the provider, the environment and the stored keys.
pub proof fn lemma_cli_key_takes_precedence(
    c: Config,
    provider: Seq<char>,
    cli: Seq<char>,
    env: ApiKeyEnv,
)
    requires
        trim(cli).len() > 0,
    ensures
        resolved_api_key(c, provider, Some(cli), env) == Some(trim(cli)),
{
}

} // verus!

verus! {

/// Law: where the key of a cloud provider comes from, when the command line gives none
/// (or a blank one). For OpenAI (in any letter case) a non-blank `OPENAI_API_KEY` is the
/// key, trimmed, whatever else is set; when it is missing or blank, a non-blank
/// `ASK_API_KEY`; then a non-blank stored OpenAI key; else none. OpenRouter goes the same
/// way with `OPENROUTER_API_KEY` and its own stored key. Each provider's variable and
/// stored key are never used for the other, and other providers have no key.
pub proof fn lemma_api_key_sources(c: Config, provider: Seq<char>, cli: Option<Seq<char>>, env: ApiKeyEnv)
    requires
        cli matches Some(k) ==> trim(k).len() == 0,
    ensures
        ({
            let p = lowercase(provider);
            let r = resolved_api_key(c, provider, cli, env);
            let own_var = if p == "openai"@ {
                env.openai_api_key
            } else {
                env.openrouter_api_key
            };
            let stored = if p == "openai"@ {
                c.openai.api_key@
            } else {
                c.openrouter.api_key@
            };
            let v = opt_text(own_var);
            let a = opt_text(env.ask_api_key);
            let v_usable = v is Some && trim(v->0).len() > 0;
            let a_usable = a is Some && trim(a->0).len() > 0;
            &&& (p == "openai"@ || p == "openrouter"@) && v_usable ==> r == Some(trim(v->0))
            &&& (p == "openai"@ || p == "openrouter"@) && !v_usable && a_usable ==> r == Some(
                trim(a->0),
            )
            &&& (p == "openai"@ || p == "openrouter"@) && !v_usable && !a_usable ==> r == (if trim(
                stored,
            ).len() > 0 {
                Some(trim(stored))
            } else {
                None
            })
            &&& !(p == "openai"@ || p == "openrouter"@) ==> r is None
        }),
{
    reveal_strlit("openrouter");
    reveal_strlit("openai");
    assert("openai"@.len() != "openrouter"@.len());
}

} // verus!

verus! {

/// Law: what validation accepts and what it reports. The settings are valid exactly when
/// the provider, in any letter case, is Ollama, OpenRouter or OpenAI, the address of that
/// provider parses as a URL and its model has non-whitespace text; the settings of the
/// other providers play no part. A refusal names an unknown provider in lower case, an
/// address that does not parse before a blank model, and always concerns the active
/// provider.
pub proof fn lemma_validation_checks_active_provider(c: Config, e: ConfigError)
    ensures
        ({
            let p = lowercase(c.provider@);
            let (addr, model) = if p == "ollama"@ {
                (c.host@, c.model@)
            } else if p == "openrouter"@ {
                (c.openrouter.base_url@, c.openrouter.model@)
            } else {
                (c.openai.base_url@, c.openai.model@)
            };
            let known = p == "ollama"@ || p == "openrouter"@ || p == "openai"@;
            &&& config_is_valid(c) <==> known && url_parses(addr) && trim(model).len() > 0
            &&& config_error_for(c, e) && !known ==> (e matches ConfigError::UnknownProvider(q)
                && q@ == p)
            &&& config_error_for(c, e) && known && !url_parses(addr) ==> (e is InvalidOllamaHost
                || e is InvalidOpenRouterBaseUrl || e is InvalidOpenAiBaseUrl)
            &&& config_error_for(c, e) && known && url_parses(addr) ==> (e is EmptyOllamaModel
                || e is EmptyOpenRouterModel || e is EmptyOpenAiModel)
            &&& config_error_for(c, e) && p == "ollama"@ ==> (e is InvalidOllamaHost
                || e is EmptyOllamaModel)
            &&& config_error_for(c, e) && p == "openrouter"@ ==> (e is InvalidOpenRouterBaseUrl
                || e is EmptyOpenRouterModel)
            &&& config_error_for(c, e) && p == "openai"@ ==> (e is InvalidOpenAiBaseUrl
                || e is EmptyOpenAiModel)
        }),
{
    reveal_strlit("ollama");
    reveal_strlit("openrouter");
    reveal_strlit("openai");
    assert("openai"@[1] != "ollama"@[1]);
    assert("openai"@.len() != "openrouter"@.len());
    assert("ollama"@.len() != "openrouter"@.len());
}

} // verus!
