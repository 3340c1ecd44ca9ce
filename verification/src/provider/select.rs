//! Which provider a model string names, and how it is to be called.
use crate::json::{Json, JsonView};
use crate::provider::anthropic::{
    AnthropicProvider, answer_blocks, role_message, tool_result_json, user_blocks_json,
};
use crate::provider::openai_compat::{
    OpenAiCompatProvider, answer_json, labeled, tool_json, user_json,
};
use crate::provider::openai_responses::OpenAiResponsesProvider;
use crate::provider::params::{fill_placeholders, filled, params_view, resolve_params, resolved_params};
use crate::text::{
    after, find, find_text, option_str, option_text, owned, part, same, texts, without_trailing,
};
use crate::types::{ContentBlock, blocks_view, call_views};
use vstd::prelude::*;
use vstd::string::*;

verus! {

/// What the configuration says of a model.
#[derive(Debug)]
pub struct ModelDef {
    /// The id under which the provider knows the model, where it differs.
    pub model_id: Option<String>,
    /// The size of the context window, in tokens.
    pub context_window: Option<u64>,
    /// Whether the model takes images.
    pub supports_images: Option<bool>,
    /// Extra parameters for requests.
    pub params: Option<Json>,
    /// The name under which the client presents itself.
    pub user_agent: Option<String>,
    /// How long cache entries live: `5m` or `1h`.
    pub cache_ttl: Option<String>,
}

/// What the configuration says of a provider.
#[derive(Debug)]
pub struct ProviderDef {
    /// The kind of its API.
    pub provider_type: String,
    /// The address of its API.
    pub base_url: Option<String>,
    /// The key.
    pub api_key: Option<String>,
    /// The environment variable that holds the key.
    pub api_key_env: Option<String>,
    /// The size of the context window, in tokens.
    pub context_window: Option<u64>,
    /// Whether its models take images.
    pub supports_images: Option<bool>,
    /// Extra parameters for requests.
    pub params: Option<Json>,
    /// The name under which the client presents itself.
    pub user_agent: Option<String>,
    /// How long cache entries live: `5m` or `1h`.
    pub cache_ttl: Option<String>,
    /// Its models, by name.
    pub models: Vec<(String, ModelDef)>,
}

/// What a [`ModelDef`] holds.
#[verifier::ext_equal]
pub struct ModelView {
    /// The id under which the provider knows the model, where it differs.
    pub model_id: Option<Seq<char>>,
    /// The size of the context window, in tokens.
    pub context_window: Option<u64>,
    /// Whether the model takes images.
    pub supports_images: Option<bool>,
    /// Extra parameters for requests.
    pub params: Option<JsonView>,
    /// The name under which the client presents itself.
    pub user_agent: Option<Seq<char>>,
    /// How long cache entries live.
    pub cache_ttl: Option<Seq<char>>,
}

/// What a [`ProviderDef`] holds.
#[verifier::ext_equal]
pub struct ProviderDefView {
    /// The kind of its API.
    pub provider_type: Seq<char>,
    /// The address of its API.
    pub base_url: Option<Seq<char>>,
    /// The key.
    pub api_key: Option<Seq<char>>,
    /// The environment variable that holds the key.
    pub api_key_env: Option<Seq<char>>,
    /// The size of the context window, in tokens.
    pub context_window: Option<u64>,
    /// Whether its models take images.
    pub supports_images: Option<bool>,
    /// Extra parameters for requests.
    pub params: Option<JsonView>,
    /// The name under which the client presents itself.
    pub user_agent: Option<Seq<char>>,
    /// How long cache entries live.
    pub cache_ttl: Option<Seq<char>>,
    /// Its models, by name.
    pub models: Seq<(Seq<char>, ModelView)>,
}

impl View for ModelDef {
    type V = ModelView;

    open spec fn view(&self) -> ModelView {
        ModelView {
            model_id: option_text(self.model_id),
            context_window: self.context_window,
            supports_images: self.supports_images,
            params: params_view(self.params),
            user_agent: option_text(self.user_agent),
            cache_ttl: option_text(self.cache_ttl),
        }
    }
}

/// What a list of models holds.
pub open spec fn models_view(models: Seq<(String, ModelDef)>) -> Seq<(Seq<char>, ModelView)> {
    models.map_values(|entry: (String, ModelDef)| (entry.0@, entry.1@))
}

impl View for ProviderDef {
    type V = ProviderDefView;

    open spec fn view(&self) -> ProviderDefView {
        ProviderDefView {
            provider_type: self.provider_type@,
            base_url: option_text(self.base_url),
            api_key: option_text(self.api_key),
            api_key_env: option_text(self.api_key_env),
            context_window: self.context_window,
            supports_images: self.supports_images,
            params: params_view(self.params),
            user_agent: option_text(self.user_agent),
            cache_ttl: option_text(self.cache_ttl),
            models: models_view(self.models@),
        }
    }
}

/// What a list of providers holds.
pub open spec fn providers_view(providers: Seq<(String, ProviderDef)>) -> Seq<
    (Seq<char>, ProviderDefView),
> {
    providers.map_values(|entry: (String, ProviderDef)| (entry.0@, entry.1@))
}

/// The first entry of the name.
pub open spec fn lookup<T>(entries: Seq<(Seq<char>, T)>, name: Seq<char>) -> Option<T>
    decreases entries.len(),
{
    if entries.len() == 0 {
        None
    } else if entries[0].0 == name {
        Some(entries[0].1)
    } else {
        lookup(entries.drop_first(), name)
    }
}

/// The first entry of the name is what a lookup gives.
pub proof fn lemma_lookup_at<T>(entries: Seq<(Seq<char>, T)>, name: Seq<char>, i: int)
    requires
        0 <= i <= entries.len(),
        forall|j: int| 0 <= j < i ==> #[trigger] entries[j].0 != name,
    ensures
        i < entries.len() && entries[i].0 == name ==> lookup(entries, name) == Some(entries[i].1),
        i == entries.len() ==> lookup(entries, name) is None,
    decreases i,
{
    if i > 0 {
        let rest = entries.drop_first();
        assert(entries[0].0 != name);
        assert forall|j: int| 0 <= j < i - 1 implies #[trigger] rest[j].0 != name by {
            assert(entries[j + 1].0 != name);
        }
        lemma_lookup_at(rest, name, i - 1);
        if i < entries.len() {
            assert(rest[i - 1] == entries[i]);
        }
    }
}

/// The two parts of `provider/model`, cut at the first slash.
pub open spec fn split_model(model: Seq<char>) -> Option<(Seq<char>, Seq<char>)> {
    match find(model, "/"@) {
        Some(i) => Some((model.take(i), after(model, i + 1))),
        None => None,
    }
}

/// The first of the two that is there.
pub open spec fn first_of<T>(a: Option<T>, b: Option<T>) -> Option<T> {
    match a {
        Some(_) => a,
        None => b,
    }
}

/// How a provider is to be called.
#[verifier::ext_equal]
pub struct CallPlan {
    /// The kind of its API.
    pub kind: ApiKind,
    /// The address of its API.
    pub base_url: Seq<char>,
    /// The model's id.
    pub model: Seq<char>,
    /// The key.
    pub api_key: Option<Seq<char>>,
    /// Extra parameters for the request.
    pub params: Option<JsonView>,
    /// Whether the model takes images.
    pub supports_images: bool,
    /// The name under which the client presents itself.
    pub user_agent: Option<Seq<char>>,
    /// Whether cache entries are asked to live an hour.
    pub cache_ttl_1h: bool,
}

/// The kind of a provider's API.
#[derive(Debug, Clone, Copy, PartialEq, Eq, Structural)]
pub enum ApiKind {
    /// Anthropic's Messages API.
    Anthropic,
    /// A Chat Completions API.
    OpenAiCompat,
    /// The Responses API.
    OpenAiResponses,
}

/// Why no provider can be called.
#[derive(Debug, PartialEq, Eq)]
pub enum SelectError {
    /// The model string has no slash.
    InvalidModel {
        /// The model string.
        model: String,
    },
    /// No provider of that name is configured.
    UnknownProvider {
        /// The name.
        provider: String,
        /// The names that are configured.
        available: Vec<String>,
    },
    /// The lifetime of cache entries is neither `5m` nor `1h`.
    InvalidCacheTtl {
        /// The lifetime.
        value: String,
        /// The provider's name.
        provider: String,
    },
    /// The provider needs an address and has none.
    MissingBaseUrl {
        /// The provider's name.
        provider: String,
        /// The kind of its API.
        kind: ApiKind,
    },
    /// The kind of API is not known.
    UnknownType {
        /// The kind.
        value: String,
        /// The provider's name.
        provider: String,
    },
}

/// What a [`SelectError`] holds.
#[verifier::ext_equal]
pub enum SelectErrorView {
    /// The model string has no slash.
    InvalidModel {
        /// The model string.
        model: Seq<char>,
    },
    /// No provider of that name is configured.
    UnknownProvider {
        /// The name.
        provider: Seq<char>,
        /// The names that are configured.
        available: Seq<Seq<char>>,
    },
    /// The lifetime of cache entries is neither `5m` nor `1h`.
    InvalidCacheTtl {
        /// The lifetime.
        value: Seq<char>,
        /// The provider's name.
        provider: Seq<char>,
    },
    /// The provider needs an address and has none.
    MissingBaseUrl {
        /// The provider's name.
        provider: Seq<char>,
        /// The kind of its API.
        kind: ApiKind,
    },
    /// The kind of API is not known.
    UnknownType {
        /// The kind.
        value: Seq<char>,
        /// The provider's name.
        provider: Seq<char>,
    },
}

impl View for SelectError {
    type V = SelectErrorView;

    open spec fn view(&self) -> SelectErrorView {
        match *self {
            SelectError::InvalidModel { model } => SelectErrorView::InvalidModel { model: model@ },
            SelectError::UnknownProvider { provider, available } => SelectErrorView::UnknownProvider {
                provider: provider@,
                available: texts(available@),
            },
            SelectError::InvalidCacheTtl { value, provider } => SelectErrorView::InvalidCacheTtl {
                value: value@,
                provider: provider@,
            },
            SelectError::MissingBaseUrl { provider, kind } => SelectErrorView::MissingBaseUrl {
                provider: provider@,
                kind,
            },
            SelectError::UnknownType { value, provider } => SelectErrorView::UnknownType {
                value: value@,
                provider: provider@,
            },
        }
    }
}

/// A field of a model's entry, where the model has an entry and the field.
pub open spec fn of_model<T>(model: Option<ModelView>, field: spec_fn(ModelView) -> Option<T>) -> Option<
    T,
> {
    match model {
        Some(model) => field(model),
        None => None,
    }
}

/// The key: the environment's, where a variable is configured and set; else
/// the configured one.
pub open spec fn resolved_key(def: ProviderDefView, env_value: Option<Seq<char>>) -> Option<
    Seq<char>,
> {
    if def.api_key_env is Some && env_value is Some {
        env_value
    } else {
        def.api_key
    }
}

/// The lifetime of cache entries: the model's, else the provider's.
pub open spec fn chosen_ttl(def: ProviderDefView, model: Option<ModelView>) -> Option<Seq<char>> {
    first_of(of_model(model, |m: ModelView| m.cache_ttl), def.cache_ttl)
}

/// How the model `id` of the provider `def` is to be called at `base_url`.
pub open spec fn plan_at(
    def: ProviderDefView,
    id: Seq<char>,
    env_value: Option<Seq<char>>,
    kind: ApiKind,
    base_url: Seq<char>,
    cache_ttl_1h: bool,
) -> CallPlan {
    let model = lookup(def.models, id);
    CallPlan {
        kind,
        base_url: without_trailing(base_url, '/'),
        model: match of_model(model, |m: ModelView| m.model_id) {
            Some(wire_id) => wire_id,
            None => id,
        },
        api_key: resolved_key(def, env_value),
        params: resolved_params(def.params, of_model(model, |m: ModelView| m.params)),
        supports_images: match first_of(
            of_model(model, |m: ModelView| m.supports_images),
            def.supports_images,
        ) {
            Some(b) => b,
            None => false,
        },
        user_agent: first_of(of_model(model, |m: ModelView| m.user_agent), def.user_agent),
        cache_ttl_1h,
    }
}

/// How the model `id` of the provider `def`, of the name `provider`, is to be
/// called.
pub open spec fn plan_for(
    def: ProviderDefView,
    provider: Seq<char>,
    id: Seq<char>,
    env_value: Option<Seq<char>>,
) -> Result<CallPlan, SelectErrorView> {
    if def.provider_type == "anthropic"@ {
        let base_url = match def.base_url {
            Some(base_url) => base_url,
            None => "https://api.anthropic.com/v1"@,
        };
        match chosen_ttl(def, lookup(def.models, id)) {
            None => Ok(plan_at(def, id, env_value, ApiKind::Anthropic, base_url, false)),
            Some(ttl) => if ttl == "5m"@ {
                Ok(plan_at(def, id, env_value, ApiKind::Anthropic, base_url, false))
            } else if ttl == "1h"@ {
                Ok(plan_at(def, id, env_value, ApiKind::Anthropic, base_url, true))
            } else {
                Err(SelectErrorView::InvalidCacheTtl { value: ttl, provider })
            },
        }
    } else if def.provider_type == "openai-compatible"@ || def.provider_type == "openai"@ {
        match def.base_url {
            Some(base_url) => Ok(
                plan_at(def, id, env_value, ApiKind::OpenAiCompat, base_url, false),
            ),
            None => Err(SelectErrorView::MissingBaseUrl { provider, kind: ApiKind::OpenAiCompat }),
        }
    } else if def.provider_type == "openai-responses"@ {
        match def.base_url {
            Some(base_url) => Ok(
                plan_at(def, id, env_value, ApiKind::OpenAiResponses, base_url, false),
            ),
            None => Err(
                SelectErrorView::MissingBaseUrl { provider, kind: ApiKind::OpenAiResponses },
            ),
        }
    } else {
        Err(SelectErrorView::UnknownType { value: def.provider_type, provider })
    }
}

/// How the model that the string names is to be called.
pub open spec fn selection(
    model: Seq<char>,
    providers: Seq<(Seq<char>, ProviderDefView)>,
    env_value: Option<Seq<char>>,
) -> Result<CallPlan, SelectErrorView> {
    match split_model(model) {
        None => Err(SelectErrorView::InvalidModel { model }),
        Some((provider, id)) => match lookup(providers, provider) {
            None => Err(
                SelectErrorView::UnknownProvider {
                    provider,
                    available: providers.map_values(
                        |entry: (Seq<char>, ProviderDefView)| entry.0,
                    ),
                },
            ),
            Some(def) => plan_for(def, provider, id, env_value),
        },
    }
}

/// A provider, as it is to be called.
#[derive(Debug)]
pub enum AnyProvider {
    /// Anthropic's Messages API.
    Anthropic(AnthropicProvider),
    /// A Chat Completions API.
    OpenAiCompat(OpenAiCompatProvider),
    /// The Responses API.
    OpenAiResponses(OpenAiResponsesProvider),
}

impl View for AnyProvider {
    type V = CallPlan;

    open spec fn view(&self) -> CallPlan {
        match *self {
            AnyProvider::Anthropic(p) => CallPlan {
                kind: ApiKind::Anthropic,
                base_url: p.base_url@,
                model: p.model@,
                api_key: option_text(p.api_key),
                params: params_view(p.params),
                supports_images: p.supports_images,
                user_agent: option_text(p.user_agent),
                cache_ttl_1h: p.cache_ttl_1h,
            },
            AnyProvider::OpenAiCompat(p) => CallPlan {
                kind: ApiKind::OpenAiCompat,
                base_url: p.base_url@,
                model: p.model@,
                api_key: option_text(p.api_key),
                params: params_view(p.params),
                supports_images: p.supports_images,
                user_agent: option_text(p.user_agent),
                cache_ttl_1h: false,
            },
            AnyProvider::OpenAiResponses(p) => CallPlan {
                kind: ApiKind::OpenAiResponses,
                base_url: p.base_url@,
                model: p.model@,
                api_key: option_text(p.api_key),
                params: params_view(p.params),
                supports_images: p.supports_images,
                user_agent: option_text(p.user_agent),
                cache_ttl_1h: false,
            },
        }
    }
}

/// What the outcome of a selection holds.
pub open spec fn outcome_view(r: Result<AnyProvider, SelectError>) -> Result<
    CallPlan,
    SelectErrorView,
> {
    match r {
        Ok(provider) => Ok(provider@),
        Err(error) => Err(error@),
    }
}

/// The first model of the name.
pub fn find_model<'a>(models: &'a Vec<(String, ModelDef)>, name: &str) -> (r: Option<&'a ModelDef>)
    ensures
        match r {
            Some(model) => lookup(models_view(models@), name@) == Some(model@),
            None => lookup(models_view(models@), name@) is None,
        },
{
    let ghost views = models_view(models@);
    let mut i: usize = 0;
    while i < models.len()
        invariant
            views == models_view(models@),
            i <= models@.len(),
            forall|j: int| 0 <= j < i ==> #[trigger] views[j].0 != name@,
        decreases models@.len() - i,
    {
        assert(views[i as int] == (models@[i as int].0@, models@[i as int].1@));
        if same(models[i].0.as_str(), name) {
            proof {
                lemma_lookup_at(views, name@, i as int);
            }
            return Some(&models[i].1);
        }
        i += 1;
    }
    proof {
        lemma_lookup_at(views, name@, i as int);
    }
    None
}

/// The first provider of the name.
pub fn find_provider<'a>(providers: &'a [(String, ProviderDef)], name: &str) -> (r: Option<
    &'a ProviderDef,
>)
    ensures
        match r {
            Some(def) => lookup(providers_view(providers@), name@) == Some(def@),
            None => lookup(providers_view(providers@), name@) is None,
        },
{
    let ghost views = providers_view(providers@);
    let mut i: usize = 0;
    while i < providers.len()
        invariant
            views == providers_view(providers@),
            i <= providers@.len(),
            forall|j: int| 0 <= j < i ==> #[trigger] views[j].0 != name@,
        decreases providers@.len() - i,
    {
        assert(views[i as int] == (providers@[i as int].0@, providers@[i as int].1@));
        if same(providers[i].0.as_str(), name) {
            proof {
                lemma_lookup_at(views, name@, i as int);
            }
            return Some(&providers[i].1);
        }
        i += 1;
    }
    proof {
        lemma_lookup_at(views, name@, i as int);
    }
    None
}

/// The two parts of `provider/model`, cut at the first slash.
pub fn split_model_name(model: &str) -> (r: Option<(String, String)>)
    ensures
        match r {
            Some((provider, id)) => split_model(model@) == Some((provider@, id@)),
            None => split_model(model@) is None,
        },
{
    proof {
        crate::text::lemma_find_from(model@, "/"@, 0);
        reveal_strlit("/");
    }
    let n: usize = model.unicode_len();
    match find_text(model, "/") {
        Some(i) => {
            let provider = part(model, 0, i);
            assert(provider@ =~= model@.take(i as int));
            Some((provider, part(model, i + 1, n)))
        },
        None => None,
    }
}

/// The optional string as a text.
fn as_text(s: &Option<String>) -> (r: Option<&str>)
    ensures
        option_str(r) == option_text(*s),
{
    match s {
        Some(s) => Some(s.as_str()),
        None => None,
    }
}

/// The environment variable that holds the key of the provider that the model
/// string names.
pub fn key_variable(model: &str, providers: &[(String, ProviderDef)]) -> (r: Option<String>)
    ensures
        option_text(r) == match split_model(model@) {
            Some((provider, id)) => match lookup(providers_view(providers@), provider) {
                Some(def) => def.api_key_env,
                None => None,
            },
            None => None,
        },
{
    match split_model_name(model) {
        Some((provider, _)) => match find_provider(providers, provider.as_str()) {
            Some(def) => owned(as_text(&def.api_key_env)),
            None => None,
        },
        None => None,
    }
}

/// The provider that the model string names, as it is to be called.
/// `env_value` is what the environment variable of the key holds.
pub fn create_provider(
    model: &str,
    providers: &[(String, ProviderDef)],
    env_value: Option<&str>,
) -> (r: Result<AnyProvider, SelectError>)
    ensures
        outcome_view(r) == selection(model@, providers_view(providers@), option_str(env_value)),
{
    let (provider, id): (String, String) = match split_model_name(model) {
        Some(parts) => parts,
        None => {
            return Err(SelectError::InvalidModel { model: model.to_owned() });
        },
    };
    let def = match find_provider(providers, provider.as_str()) {
        Some(def) => def,
        None => {
            let mut available: Vec<String> = Vec::new();
            let mut i: usize = 0;
            while i < providers.len()
                invariant
                    i <= providers@.len(),
                    available@.len() == i,
                    forall|k: int| 0 <= k < i ==> #[trigger] available@[k]@ == providers@[k].0@,
                decreases providers@.len() - i,
            {
                available.push(providers[i].0.clone());
                i += 1;
            }
            assert(texts(available@) =~= providers_view(providers@).map_values(
                |entry: (Seq<char>, ProviderDefView)| entry.0,
            ));
            return Err(SelectError::UnknownProvider { provider, available });
        },
    };
    let entry = find_model(&def.models, id.as_str());
    let api_key: Option<&str> = if def.api_key_env.is_some() && env_value.is_some() {
        env_value
    } else {
        as_text(&def.api_key)
    };
    let wire_id: &str = match entry {
        Some(m) => match &m.model_id {
            Some(wire_id) => wire_id.as_str(),
            None => id.as_str(),
        },
        None => id.as_str(),
    };
    let params = resolve_params(
        def.params.as_ref(),
        match entry {
            Some(m) => m.params.as_ref(),
            None => None,
        },
    );
    let model_images: Option<bool> = match entry {
        Some(m) => m.supports_images,
        None => None,
    };
    let supports_images: bool = match model_images {
        Some(b) => b,
        None => match def.supports_images {
            Some(b) => b,
            None => false,
        },
    };
    let model_agent: Option<&str> = match entry {
        Some(m) => as_text(&m.user_agent),
        None => None,
    };
    let user_agent: Option<&str> = match model_agent {
        Some(name) => Some(name),
        None => as_text(&def.user_agent),
    };
    let kind: &str = def.provider_type.as_str();
    if same(kind, "anthropic") {
        let base_url: &str = match &def.base_url {
            Some(base_url) => base_url.as_str(),
            None => "https://api.anthropic.com/v1",
        };
        let model_ttl: Option<&str> = match entry {
            Some(m) => as_text(&m.cache_ttl),
            None => None,
        };
        let ttl: Option<&str> = match model_ttl {
            Some(ttl) => Some(ttl),
            None => as_text(&def.cache_ttl),
        };
        let cache_ttl_1h: bool = match ttl {
            None => false,
            Some(ttl) => if same(ttl, "5m") {
                false
            } else if same(ttl, "1h") {
                true
            } else {
                return Err(SelectError::InvalidCacheTtl { value: ttl.to_owned(), provider });
            },
        };
        Ok(
            AnyProvider::Anthropic(
                AnthropicProvider::new(
                    base_url,
                    wire_id,
                    api_key,
                    params,
                    supports_images,
                    user_agent,
                    cache_ttl_1h,
                ),
            ),
        )
    } else if same(kind, "openai-compatible") || same(kind, "openai") {
        match &def.base_url {
            Some(base_url) => Ok(
                AnyProvider::OpenAiCompat(
                    OpenAiCompatProvider::new(
                        base_url.as_str(),
                        wire_id,
                        api_key,
                        params,
                        supports_images,
                        user_agent,
                    ),
                ),
            ),
            None => Err(SelectError::MissingBaseUrl { provider, kind: ApiKind::OpenAiCompat }),
        }
    } else if same(kind, "openai-responses") {
        match &def.base_url {
            Some(base_url) => Ok(
                AnyProvider::OpenAiResponses(
                    OpenAiResponsesProvider::new(
                        base_url.as_str(),
                        wire_id,
                        api_key,
                        params,
                        supports_images,
                        user_agent,
                    ),
                ),
            ),
            None => Err(SelectError::MissingBaseUrl { provider, kind: ApiKind::OpenAiResponses }),
        }
    } else {
        Err(SelectError::UnknownType { value: kind.to_owned(), provider })
    }
}

impl AnyProvider {
    /// The kind of the provider's API, by name.
    pub fn name(&self) -> (r: &str)
        ensures
            r@ == match self@.kind {
                ApiKind::Anthropic => "anthropic"@,
                ApiKind::OpenAiCompat => "openai-compatible"@,
                ApiKind::OpenAiResponses => "openai-responses"@,
            },
    {
        match self {
            AnyProvider::Anthropic(_) => "anthropic",
            AnyProvider::OpenAiCompat(_) => "openai-compatible",
            AnyProvider::OpenAiResponses(_) => "openai-responses",
        }
    }

    /// The model's id.
    pub fn model(&self) -> (r: &str)
        ensures
            r@ == self@.model,
    {
        match self {
            AnyProvider::Anthropic(p) => p.model.as_str(),
            AnyProvider::OpenAiCompat(p) => p.model.as_str(),
            AnyProvider::OpenAiResponses(p) => p.model.as_str(),
        }
    }

    /// Whether the model takes images.
    pub fn supports_images(&self) -> (r: bool)
        ensures
            r == self@.supports_images,
    {
        match self {
            AnyProvider::Anthropic(p) => p.supports_images,
            AnyProvider::OpenAiCompat(p) => p.supports_images,
            AnyProvider::OpenAiResponses(p) => p.supports_images,
        }
    }

    /// A message of the user, as it is kept in a conversation.
    pub fn format_user_message(&self, blocks: &[ContentBlock]) -> (r: Json)
        ensures
            r@ == match self@.kind {
                ApiKind::Anthropic => role_message("user"@, user_blocks_json(blocks_view(blocks@))),
                _ => user_json(blocks_view(blocks@)),
            },
    {
        match self {
            AnyProvider::Anthropic(p) => p.format_user_message(blocks),
            AnyProvider::OpenAiCompat(p) => p.format_user_message(blocks),
            AnyProvider::OpenAiResponses(p) => p.format_user_message(blocks),
        }
    }

    /// A tool's answer, as it is kept in a conversation.
    pub fn format_tool_result(&self, tool_call_id: &str, content: &str, is_error: bool) -> (r: Json)
        ensures
            r@ == match self@.kind {
                ApiKind::Anthropic => role_message(
                    "user"@,
                    seq![tool_result_json(tool_call_id@, content@, is_error)],
                ),
                _ => tool_json(tool_call_id@, labeled(content@, is_error)),
            },
    {
        match self {
            AnyProvider::Anthropic(p) => p.format_tool_result(tool_call_id, content, is_error),
            AnyProvider::OpenAiCompat(p) => p.format_tool_result(tool_call_id, content, is_error),
            AnyProvider::OpenAiResponses(p) => p.format_tool_result(tool_call_id, content, is_error),
        }
    }

    /// An answer of the model, as it is kept in a conversation.
    pub fn build_raw_assistant_message(
        &self,
        text: &str,
        reasoning: &str,
        tool_calls: &[(String, String, String)],
    ) -> (r: Json)
        ensures
            r@ == match self@.kind {
                ApiKind::Anthropic => role_message(
                    "assistant"@,
                    answer_blocks(text@, call_views(tool_calls@)),
                ),
                _ => answer_json(text@, reasoning@, call_views(tool_calls@)),
            },
    {
        match self {
            AnyProvider::Anthropic(p) => p.build_raw_assistant_message(text, reasoning, tool_calls),
            AnyProvider::OpenAiCompat(p) => p.build_raw_assistant_message(
                text,
                reasoning,
                tool_calls,
            ),
            AnyProvider::OpenAiResponses(p) => p.build_raw_assistant_message(
                text,
                reasoning,
                tool_calls,
            ),
        }
    }
}

/// Parameters with their placeholders filled in.
pub open spec fn filled_params(
    params: Option<JsonView>,
    channel: Seq<char>,
    topic: Seq<char>,
) -> Option<JsonView> {
    match params {
        Some(params) => Some(filled(params, channel, topic)),
        None => None,
    }
}

/// A provider with the placeholders filled in in its parameters and in those
/// of its models.
pub open spec fn filled_provider(def: ProviderDefView, channel: Seq<char>, topic: Seq<char>) -> ProviderDefView {
    ProviderDefView {
        params: filled_params(def.params, channel, topic),
        models: def.models.map_values(
            |entry: (Seq<char>, ModelView)|
                (
                    entry.0,
                    ModelView { params: filled_params(entry.1.params, channel, topic), ..entry.1 },
                ),
        ),
        ..def
    }
}

/// The parameters with their placeholders filled in.
fn fill_params(params: &Option<Json>, channel: &str, topic: &str) -> (r: Option<Json>)
    ensures
        params_view(r) == filled_params(params_view(*params), channel@, topic@),
{
    match params {
        Some(params) => Some(fill_placeholders(params, channel, topic)),
        None => None,
    }
}

/// The provider with the placeholders filled in.
fn fill_provider(def: ProviderDef, channel: &str, topic: &str) -> (r: ProviderDef)
    ensures
        r@ == filled_provider(def@, channel@, topic@),
{
    let ghost views = models_view(def.models@);
    let ghost all = def.models@;
    let params = fill_params(&def.params, channel, topic);
    let mut models: Vec<(String, ModelDef)> = Vec::new();
    for entry in it: def.models
        invariant
            it.seq() == all,
            views == models_view(all),
            models@.len() == it.index(),
            forall|k: int|
                0 <= k < models@.len() ==> (#[trigger] models@[k]).0@ == views[k].0 && models@[k].1@
                    == (ModelView {
                    params: filled_params(views[k].1.params, channel@, topic@),
                    ..views[k].1
                }),
    {
        let (name, model) = entry;
        assert(views[it.index()] == (name@, model@));
        let filled_model = fill_params(&model.params, channel, topic);
        models.push(
            (
                name,
                ModelDef {
                    model_id: model.model_id,
                    context_window: model.context_window,
                    supports_images: model.supports_images,
                    params: filled_model,
                    user_agent: model.user_agent,
                    cache_ttl: model.cache_ttl,
                },
            ),
        );
    }
    let r = ProviderDef {
        provider_type: def.provider_type,
        base_url: def.base_url,
        api_key: def.api_key,
        api_key_env: def.api_key_env,
        context_window: def.context_window,
        supports_images: def.supports_images,
        params,
        user_agent: def.user_agent,
        cache_ttl: def.cache_ttl,
        models,
    };
    assert(r@.models =~= filled_provider(def@, channel@, topic@).models);
    r
}

/// Fills in the placeholders `{channel}` and `{topic}` in the parameters of
/// every provider and every model.
pub fn expand_params_placeholders(
    providers: &mut Vec<(String, ProviderDef)>,
    channel: &str,
    topic: &str,
)
    ensures
        providers_view(final(providers)@) == providers_view(old(providers)@).map_values(
            |entry: (Seq<char>, ProviderDefView)|
                (entry.0, filled_provider(entry.1, channel@, topic@)),
        ),
{
    let ghost views = providers_view(providers@);
    let mut taken: Vec<(String, ProviderDef)> = Vec::new();
    std::mem::swap(providers, &mut taken);
    let ghost all = taken@;
    let mut out: Vec<(String, ProviderDef)> = Vec::new();
    for entry in it: taken
        invariant
            it.seq() == all,
            views == providers_view(all),
            out@.len() == it.index(),
            forall|k: int|
                0 <= k < out@.len() ==> (#[trigger] out@[k]).0@ == views[k].0 && out@[k].1@
                    == filled_provider(views[k].1, channel@, topic@),
    {
        let (name, def) = entry;
        assert(views[it.index()] == (name@, def@));
        out.push((name, fill_provider(def, channel, topic)));
    }
    *providers = out;
    assert(providers_view(providers@) =~= views.map_values(
        |entry: (Seq<char>, ProviderDefView)|
            (entry.0, filled_provider(entry.1, channel@, topic@)),
    ));
}

/// Entries of one provider that name the same id at the provider are called by
/// that id: only their settings differ.
pub proof fn law_aliases_share_the_wire_id(
    def: ProviderDefView,
    provider: Seq<char>,
    a: Seq<char>,
    b: Seq<char>,
    wire_id: Seq<char>,
    env_value: Option<Seq<char>>,
)
    requires
        lookup(def.models, a) matches Some(m) && m.model_id == Some(wire_id),
        lookup(def.models, b) matches Some(m) && m.model_id == Some(wire_id),
        plan_for(def, provider, a, env_value) is Ok,
        plan_for(def, provider, b, env_value) is Ok,
    ensures
        plan_for(def, provider, a, env_value)->Ok_0.model == wire_id,
        plan_for(def, provider, b, env_value)->Ok_0.model == wire_id,
{
}

/// The key in the environment counts before the configured one, where a variable
/// is configured and set.
pub proof fn law_environment_key_wins(
    def: ProviderDefView,
    provider: Seq<char>,
    id: Seq<char>,
    env_value: Seq<char>,
)
    requires
        def.api_key_env is Some,
    ensures
        plan_for(def, provider, id, Some(env_value)) matches Ok(plan) ==> plan.api_key == Some(
            env_value,
        ),
        plan_for(def, provider, id, None) matches Ok(plan) ==> plan.api_key == def.api_key,
{
}

/// What is said of a model counts before what is said of its provider.
pub proof fn law_model_settings_win(
    def: ProviderDefView,
    provider: Seq<char>,
    id: Seq<char>,
    env_value: Option<Seq<char>>,
    model: ModelView,
)
    requires
        lookup(def.models, id) == Some(model),
    ensures
        plan_for(def, provider, id, env_value) matches Ok(plan) ==> {
            &&& model.supports_images is Some ==> plan.supports_images
                == model.supports_images->0
            &&& model.user_agent is Some ==> plan.user_agent == model.user_agent
            &&& model.params is Some ==> plan.params == resolved_params(def.params, model.params)
            &&& model.cache_ttl is Some && plan.kind == ApiKind::Anthropic ==> plan.cache_ttl_1h
                == (model.cache_ttl->0 == "1h"@)
        },
{
    reveal_strlit("5m");
    reveal_strlit("1h");
    assert("5m"@[0] != "1h"@[0]);
}

/// A model string is cut at its first slash, and one without a slash names
/// nothing.
pub proof fn law_model_string_is_cut(provider: Seq<char>, id: Seq<char>)
    requires
        forall|i: int| 0 <= i < provider.len() ==> #[trigger] provider[i] != '/',
    ensures
        split_model(provider + "/"@ + id) == Some((provider, id)),
        split_model(provider) is None,
{
    reveal_strlit("/");
    let all = provider + "/"@ + id;
    let n = provider.len() as int;
    assert(all.subrange(n, n + 1) =~= "/"@);
    assert(crate::text::occurs_at(all, "/"@, n));
    assert forall|j: int| 0 <= j < n implies !#[trigger] crate::text::occurs_at(all, "/"@, j) by {
        if crate::text::occurs_at(all, "/"@, j) {
            assert(all.subrange(j, j + 1)[0] == all[j]);
            assert(all[j] == provider[j]);
        }
    }
    crate::text::lemma_find_is(all, "/"@, 0, n);
    assert(all.take(n) =~= provider);
    assert(after(all, n + 1) =~= id);
    assert forall|j: int| 0 <= j implies !#[trigger] crate::text::occurs_at(provider, "/"@, j) by {
        if crate::text::occurs_at(provider, "/"@, j) {
            assert(provider.subrange(j, j + 1)[0] == provider[j]);
        }
    }
    crate::text::lemma_find_none(provider, "/"@, 0);
}

/// A model of a configured provider is called by the kind of that provider's
/// API, at its address without a slash at its end; every kind but Anthropic's
/// needs an address. A kind that is not known is an error, and so is a lifetime
/// of cache entries that Anthropic does not know.
pub proof fn law_kind_decides_the_call(
    def: ProviderDefView,
    provider: Seq<char>,
    id: Seq<char>,
    env_value: Option<Seq<char>>,
)
    ensures
        ({
            let plan = plan_for(def, provider, id, env_value);
            let kind = def.provider_type;
            let chat = kind == "openai-compatible"@ || kind == "openai"@;
            &&& chat && def.base_url is Some ==> plan is Ok && plan->Ok_0.kind
                == ApiKind::OpenAiCompat && plan->Ok_0.base_url == without_trailing(
                def.base_url->0,
                '/',
            )
            &&& chat && def.base_url is None ==> plan == Err::<CallPlan, SelectErrorView>(
                SelectErrorView::MissingBaseUrl { provider, kind: ApiKind::OpenAiCompat },
            )
            &&& kind == "openai-responses"@ && def.base_url is Some ==> plan is Ok
                && plan->Ok_0.kind == ApiKind::OpenAiResponses && plan->Ok_0.base_url
                == without_trailing(def.base_url->0, '/')
            &&& kind == "openai-responses"@ && def.base_url is None ==> plan == Err::<
                CallPlan,
                SelectErrorView,
            >(SelectErrorView::MissingBaseUrl { provider, kind: ApiKind::OpenAiResponses })
            &&& kind == "anthropic"@ && plan is Ok ==> plan->Ok_0.kind == ApiKind::Anthropic
                && plan->Ok_0.base_url == without_trailing(
                if def.base_url is Some {
                    def.base_url->0
                } else {
                    "https://api.anthropic.com/v1"@
                },
                '/',
            )
            &&& !chat && kind != "openai-responses"@ && kind != "anthropic"@ ==> plan == Err::<
                CallPlan,
                SelectErrorView,
            >(SelectErrorView::UnknownType { value: kind, provider })
            &&& plan is Ok && plan->Ok_0.kind != ApiKind::Anthropic ==> !plan->Ok_0.cache_ttl_1h
        }),
        ({
            let plan = plan_for(def, provider, id, env_value);
            let ttl = match lookup(def.models, id) {
                Some(model) => if model.cache_ttl is Some {
                    model.cache_ttl
                } else {
                    def.cache_ttl
                },
                None => def.cache_ttl,
            };
            def.provider_type == "anthropic"@ ==> {
                &&& ttl is None || ttl == Some("5m"@) ==> plan is Ok && !plan->Ok_0.cache_ttl_1h
                &&& ttl == Some("1h"@) ==> plan is Ok && plan->Ok_0.cache_ttl_1h
                &&& ttl is Some && ttl != Some("5m"@) && ttl != Some("1h"@) ==> plan == Err::<
                    CallPlan,
                    SelectErrorView,
                >(SelectErrorView::InvalidCacheTtl { value: ttl->0, provider })
            }
        }),
{
    reveal_strlit("anthropic");
    reveal_strlit("openai");
    reveal_strlit("openai-compatible");
    reveal_strlit("openai-responses");
    reveal_strlit("5m");
    reveal_strlit("1h");
    assert("anthropic"@.len() == 9 && "openai"@.len() == 6);
    assert("openai-compatible"@.len() == 17 && "openai-responses"@.len() == 16);
    assert("5m"@[0] != "1h"@[0]);
}

/// A model of which nothing is said is called by its name, with what is said of
/// its provider; images are taken only where that is said.
pub proof fn law_provider_settings_stand_in(
    def: ProviderDefView,
    provider: Seq<char>,
    id: Seq<char>,
    env_value: Option<Seq<char>>,
)
    requires
        lookup(def.models, id) is None,
    ensures
        plan_for(def, provider, id, env_value) matches Ok(plan) ==> {
            &&& plan.model == id
            &&& plan.params == def.params
            &&& plan.supports_images == (def.supports_images == Some(true))
            &&& plan.user_agent == def.user_agent
        },
{
}

/// What a model's entry leaves unsaid is taken from its provider, and what
/// neither says is not set.
pub proof fn law_unsaid_is_the_providers(
    def: ProviderDefView,
    provider: Seq<char>,
    id: Seq<char>,
    env_value: Option<Seq<char>>,
    model: ModelView,
)
    requires
        lookup(def.models, id) == Some(model),
    ensures
        plan_for(def, provider, id, env_value) matches Ok(plan) ==> {
            &&& plan.model == if model.model_id is Some {
                model.model_id->0
            } else {
                id
            }
            &&& model.params is None ==> plan.params == def.params
            &&& model.supports_images is None ==> plan.supports_images == (def.supports_images
                == Some(true))
            &&& model.user_agent is None ==> plan.user_agent == def.user_agent
            &&& def.api_key_env is None ==> plan.api_key == def.api_key
        },
{
}

/// A model string leads to the provider that it names, the first of that name. A
/// string without a slash is an error that tells it, and a provider that is not
/// configured is one that tells its name and all names that are.
pub proof fn law_named_provider_is_called(
    provider: Seq<char>,
    id: Seq<char>,
    providers: Seq<(Seq<char>, ProviderDefView)>,
    env_value: Option<Seq<char>>,
    i: int,
)
    requires
        forall|k: int| 0 <= k < provider.len() ==> #[trigger] provider[k] != '/',
    ensures
        selection(provider, providers, env_value) == Err::<CallPlan, SelectErrorView>(
            SelectErrorView::InvalidModel { model: provider },
        ),
        0 <= i < providers.len() && providers[i].0 == provider && (forall|k: int|
            0 <= k < i ==> (#[trigger] providers[k]).0 != provider) ==> selection(
            provider + "/"@ + id,
            providers,
            env_value,
        ) == plan_for(providers[i].1, provider, id, env_value),
        (forall|k: int| 0 <= k < providers.len() ==> (#[trigger] providers[k]).0 != provider) ==> (
        selection(provider + "/"@ + id, providers, env_value) matches Err(
            SelectErrorView::UnknownProvider { provider: told, available },
        ) && told == provider && available.len() == providers.len() && forall|k: int|
            0 <= k < providers.len() ==> available[k] == (#[trigger] providers[k]).0),
{
    law_model_string_is_cut(provider, id);
    if 0 <= i < providers.len() && providers[i].0 == provider && (forall|k: int|
        0 <= k < i ==> (#[trigger] providers[k]).0 != provider) {
        lemma_lookup_at(providers, provider, i);
    }
    if forall|k: int| 0 <= k < providers.len() ==> (#[trigger] providers[k]).0 != provider {
        lemma_lookup_at(providers, provider, providers.len() as int);
    }
}

/// Filling in placeholders changes nothing of a provider but its parameters and
/// those of its models, and each of those as a whole.
pub proof fn law_only_params_are_filled(
    def: ProviderDefView,
    channel: Seq<char>,
    topic: Seq<char>,
    i: int,
)
    ensures
        ({
            let out = filled_provider(def, channel, topic);
            &&& out.provider_type == def.provider_type && out.base_url == def.base_url
            &&& out.api_key == def.api_key && out.api_key_env == def.api_key_env
            &&& out.context_window == def.context_window
            &&& out.supports_images == def.supports_images && out.user_agent == def.user_agent
            &&& out.cache_ttl == def.cache_ttl
            &&& out.params == match def.params {
                Some(params) => Some(filled(params, channel, topic)),
                None => None,
            }
            &&& out.models.len() == def.models.len()
            &&& 0 <= i < def.models.len() ==> {
                let model = def.models[i].1;
                let after = out.models[i].1;
                &&& out.models[i].0 == def.models[i].0
                &&& after.model_id == model.model_id
                &&& after.context_window == model.context_window
                &&& after.supports_images == model.supports_images
                &&& after.user_agent == model.user_agent
                &&& after.cache_ttl == model.cache_ttl
                &&& after.params == match model.params {
                    Some(params) => Some(filled(params, channel, topic)),
                    None => None,
                }
            }
        }),
{
}

/// Of the entries of one name the first counts, and a name without an entry has
/// none.
pub proof fn law_first_entry_counts<T>(
    before: Seq<(Seq<char>, T)>,
    name: Seq<char>,
    entry: T,
    rest: Seq<(Seq<char>, T)>,
)
    requires
        forall|i: int| 0 <= i < before.len() ==> (#[trigger] before[i]).0 != name,
    ensures
        lookup(before.push((name, entry)) + rest, name) == Some(entry),
        lookup(before, name) is None,
    decreases before.len(),
{
    let all = before.push((name, entry)) + rest;
    if before.len() > 0 {
        let later = before.drop_first();
        assert(before[0].0 != name);
        assert forall|i: int| 0 <= i < later.len() implies (#[trigger] later[i]).0 != name by {
            assert(later[i] == before[i + 1]);
        }
        law_first_entry_counts(later, name, entry, rest);
        assert(all.drop_first() =~= later.push((name, entry)) + rest);
    }
}

} // verus!
