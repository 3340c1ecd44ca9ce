use jyc_agent::json::{parse_json, Json};
use jyc_agent::provider::params::{merge_params, resolve_params};
use jyc_agent::provider::select::{
    create_provider, expand_params_placeholders, key_variable, AnyProvider, ModelDef, ProviderDef,
    SelectError,
};

fn json(text: &str) -> Json {
    parse_json(text).unwrap()
}

fn model_config(model_id: Option<&str>) -> ModelDef {
    ModelDef {
        model_id: model_id.map(|s| s.to_string()),
        context_window: None,
        supports_images: None,
        params: None,
        user_agent: None,
        cache_ttl: None,
    }
}

fn provider_config(kind: &str, base_url: Option<&str>, models: Vec<(String, ModelDef)>) -> ProviderDef {
    ProviderDef {
        provider_type: kind.to_string(),
        base_url: base_url.map(|s| s.to_string()),
        api_key: None,
        api_key_env: None,
        context_window: None,
        supports_images: None,
        params: None,
        user_agent: None,
        cache_ttl: None,
        models,
    }
}

fn providers_with(models: Vec<(String, ModelDef)>) -> Vec<(String, ProviderDef)> {
    vec![(
        "kimi".to_string(),
        provider_config("openai-compatible", Some("https://api.moonshot.cn/v1"), models),
    )]
}

#[test]
fn model_id_override_is_sent_to_wire() {
    let providers = providers_with(vec![("k3-high".to_string(), model_config(Some("k3")))]);
    let provider = create_provider("kimi/k3-high", &providers, None).unwrap();
    assert_eq!(provider.model(), "k3");
}

#[test]
fn missing_model_id_falls_back_to_map_key() {
    let providers = providers_with(vec![("k3".to_string(), model_config(None))]);
    let provider = create_provider("kimi/k3", &providers, None).unwrap();
    assert_eq!(provider.model(), "k3");
}

#[test]
fn model_without_config_entry_falls_back_to_map_key() {
    let provider = create_provider("kimi/k3", &providers_with(vec![]), None).unwrap();
    assert_eq!(provider.model(), "k3");
}

#[test]
fn multiple_aliases_share_one_wire_id() {
    let providers = providers_with(vec![
        ("k3-high".to_string(), model_config(Some("k3"))),
        ("k3-low".to_string(), model_config(Some("k3"))),
    ]);
    let high = create_provider("kimi/k3-high", &providers, None).unwrap();
    let low = create_provider("kimi/k3-low", &providers, None).unwrap();
    assert_eq!(high.model(), "k3");
    assert_eq!(low.model(), "k3");
}

fn providers() -> Vec<(String, ProviderDef)> {
    let mut model = model_config(None);
    model.params = Some(json(r#"{"prompt_cache_key": "model-{topic}"}"#));
    let mut def = provider_config("openai-compatible", None, vec![("gpt-5.6-sol".to_string(), model)]);
    def.params = Some(json(
        r#"{
            "prompt_cache_key": "jyc-{channel}-{topic}",
            "prompt_cache_options": { "mode": "implicit", "ttl": "30m" },
            "tags": ["{channel}", "static"],
            "untouched": 42
        }"#,
    ));
    vec![("openai".to_string(), def)]
}

#[test]
fn placeholders_expand_recursively_in_provider_and_model_params() {
    let mut providers = providers();
    expand_params_placeholders(&mut providers, "feishu_work", "proj-a");

    let def = &providers[0].1;
    let params = def.params.as_ref().unwrap();
    assert_eq!(params.get_str("prompt_cache_key"), Some("jyc-feishu_work-proj-a"));
    assert_eq!(
        params.get("prompt_cache_options").unwrap().to_text(),
        r#"{"mode":"implicit","ttl":"30m"}"#
    );
    assert_eq!(params.get("tags").unwrap().to_text(), r#"["feishu_work","static"]"#);
    assert_eq!(params.get_u64("untouched"), Some(42));
    assert_eq!(
        def.models[0].1.params.as_ref().unwrap().get_str("prompt_cache_key"),
        Some("model-proj-a")
    );
}

#[test]
fn strings_without_placeholders_are_untouched() {
    let mut providers = providers();
    let params = providers[0].1.params.take().unwrap();
    providers[0].1.params = Some(params.with("prompt_cache_key", Json::text("no-placeholders")));
    expand_params_placeholders(&mut providers, "feishu_work", "proj-a");
    assert_eq!(
        providers[0].1.params.as_ref().unwrap().get_str("prompt_cache_key"),
        Some("no-placeholders")
    );
}

#[test]
fn the_kind_of_a_provider_is_chosen_by_its_type() {
    let anthropic = vec![("a".to_string(), provider_config("anthropic", None, vec![]))];
    let p = create_provider("a/m", &anthropic, Some("key")).unwrap();
    assert_eq!(p.name(), "anthropic");
    assert!(matches!(p, AnyProvider::Anthropic(_)));
    let responses = vec![(
        "r".to_string(),
        provider_config("openai-responses", Some("https://r"), vec![]),
    )];
    assert_eq!(create_provider("r/m/x", &responses, None).unwrap().model(), "m/x");
}

#[test]
fn what_is_wrong_with_a_model_string_is_told() {
    let providers = providers_with(vec![]);
    assert!(matches!(
        create_provider("no-slash", &providers, None),
        Err(SelectError::InvalidModel { .. })
    ));
    assert!(matches!(
        create_provider("other/m", &providers, None),
        Err(SelectError::UnknownProvider { .. })
    ));
    let odd = vec![("o".to_string(), provider_config("telepathy", None, vec![]))];
    assert!(matches!(
        create_provider("o/m", &odd, None),
        Err(SelectError::UnknownType { .. })
    ));
    let lost = vec![("l".to_string(), provider_config("openai-compatible", None, vec![]))];
    assert!(matches!(
        create_provider("l/m", &lost, None),
        Err(SelectError::MissingBaseUrl { .. })
    ));
}

#[test]
fn the_variable_of_the_key_is_known() {
    let mut def = provider_config("anthropic", None, vec![]);
    def.api_key_env = Some("MY_KEY".to_string());
    let providers = vec![("a".to_string(), def)];
    assert_eq!(key_variable("a/m", &providers), Some("MY_KEY".to_string()));
    assert_eq!(key_variable("b/m", &providers), None);
}

#[test]
fn parameters_override_the_request() {
    let mut body = json(r#"{"model": "m", "max_tokens": 1}"#);
    merge_params(&mut body, &Some(json(r#"{"max_tokens": 2, "extra": true}"#)));
    assert_eq!(body.to_text(), r#"{"extra":true,"max_tokens":2,"model":"m"}"#);
    let once = body.to_text();
    merge_params(&mut body, &Some(json(r#"{"max_tokens": 2, "extra": true}"#)));
    assert_eq!(body.to_text(), once);
}

#[test]
fn parameters_of_a_model_override_those_of_its_provider() {
    let merged = resolve_params(
        Some(&json(r#"{"a": 1, "b": 1}"#)),
        Some(&json(r#"{"b": 2}"#)),
    );
    assert_eq!(merged.unwrap().to_text(), r#"{"a":1,"b":2}"#);
}

#[test]
fn the_key_in_the_environment_counts_first() {
    let mut def = provider_config("openai-compatible", Some("https://o"), vec![]);
    def.api_key = Some("configured".to_string());
    def.api_key_env = Some("KEY".to_string());
    let providers = vec![("o".to_string(), def)];
    let key = |env: Option<&str>| match create_provider("o/m", &providers, env).unwrap() {
        AnyProvider::OpenAiCompat(p) => p.api_key,
        other => panic!("unexpected: {other:?}"),
    };
    assert_eq!(key(Some("from-env")).as_deref(), Some("from-env"));
    assert_eq!(key(None).as_deref(), Some("configured"));
}

#[test]
fn what_is_said_of_a_model_counts_first() {
    let mut model = model_config(None);
    model.supports_images = Some(true);
    model.user_agent = Some("model/1".to_string());
    model.cache_ttl = Some("1h".to_string());
    let mut def = provider_config("anthropic", None, vec![("m".to_string(), model)]);
    def.supports_images = Some(false);
    def.user_agent = Some("provider/1".to_string());
    def.cache_ttl = Some("5m".to_string());
    let mut providers = vec![("a".to_string(), def)];
    match create_provider("a/m", &providers, None).unwrap() {
        AnyProvider::Anthropic(p) => {
            assert!(p.supports_images);
            assert_eq!(p.user_agent.as_deref(), Some("model/1"));
            assert!(p.cache_ttl_1h);
        }
        other => panic!("unexpected: {other:?}"),
    }
    match create_provider("a/other", &providers, None).unwrap() {
        AnyProvider::Anthropic(p) => {
            assert!(!p.supports_images);
            assert_eq!(p.user_agent.as_deref(), Some("provider/1"));
            assert!(!p.cache_ttl_1h);
        }
        other => panic!("unexpected: {other:?}"),
    }
    providers[0].1.cache_ttl = Some("2h".to_string());
    assert!(matches!(
        create_provider("a/other", &providers, None),
        Err(SelectError::InvalidCacheTtl { .. })
    ));
}
