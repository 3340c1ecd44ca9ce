//! What the configuration says of a channel's messages, and which of its layers
//! counts.
use crate::provider::select::{
    find_model, find_provider, first_of, lemma_lookup_at, lookup, providers_view, split_model,
    split_model_name, ProviderDef, ProviderDefView,
};
use crate::text::{option_str, option_text, owned, same, trim, trimmed};
use vstd::prelude::*;
use vstd::string::*;

verus! {

/// The models that one layer of the configuration names.
#[derive(Debug)]
pub struct ModelNames {
    /// The model for any mode.
    pub model: Option<String>,
    /// The model for planning.
    pub plan_model: Option<String>,
    /// The model for building.
    pub build_model: Option<String>,
    /// The model for side tasks.
    pub small_model: Option<String>,
}

/// What [`ModelNames`] hold.
#[verifier::ext_equal]
pub struct ModelNamesView {
    /// The model for any mode.
    pub model: Option<Seq<char>>,
    /// The model for planning.
    pub plan_model: Option<Seq<char>>,
    /// The model for building.
    pub build_model: Option<Seq<char>>,
    /// The model for side tasks.
    pub small_model: Option<Seq<char>>,
}

impl View for ModelNames {
    type V = ModelNamesView;

    open spec fn view(&self) -> ModelNamesView {
        ModelNamesView {
            model: option_text(self.model),
            plan_model: option_text(self.plan_model),
            build_model: option_text(self.build_model),
            small_model: option_text(self.small_model),
        }
    }
}

/// No model named.
pub open spec fn no_models() -> ModelNamesView {
    ModelNamesView { model: None, plan_model: None, build_model: None, small_model: None }
}

impl Default for ModelNames {
    /// No model named.
    fn default() -> (r: Self)
        ensures
            r@ == no_models(),
    {
        ModelNames { model: None, plan_model: None, build_model: None, small_model: None }
    }
}

/// What a layer of the configuration holds, where there is one.
pub open spec fn option_models(names: Option<&ModelNames>) -> Option<ModelNamesView> {
    match names {
        Some(names) => Some(names@),
        None => None,
    }
}

/// Which messages are treated alike, and how.
#[derive(Debug)]
pub struct ChannelPattern {
    /// The pattern's name.
    pub name: String,
    /// The mode.
    pub mode: Option<String>,
    /// The models.
    pub models: ModelNames,
    /// The only skills that are offered.
    pub skills: Option<Vec<String>>,
    /// Skills that are not offered.
    pub disabled_skills: Option<Vec<String>>,
    /// The only tool servers that are used.
    pub mcps: Option<Vec<String>>,
    /// Tool servers that are not used.
    pub disabled_mcp_servers: Option<Vec<String>>,
    /// Tools that are not offered.
    pub disabled_tools: Option<Vec<String>>,
    /// Tools that are not offered, under an older name of the setting.
    pub disabled_builtin_tools: Option<Vec<String>>,
    /// Whether images that come with a message are shown to the model.
    pub inject_inbound_images: bool,
    /// Paths that may be read.
    pub read_paths: Vec<String>,
    /// Paths that may be written.
    pub write_paths: Vec<String>,
}

impl Default for ChannelPattern {
    /// A pattern that sets nothing.
    fn default() -> (r: Self)
        ensures
            r.name@.len() == 0,
            r.mode is None,
            r.models@ == no_models(),
            r.skills is None,
            r.disabled_skills is None,
            r.mcps is None,
            r.disabled_mcp_servers is None,
            r.disabled_tools is None,
            r.disabled_builtin_tools is None,
            !r.inject_inbound_images,
            r.read_paths@.len() == 0,
            r.write_paths@.len() == 0,
    {
        ChannelPattern {
            name: String::new(),
            mode: None,
            models: ModelNames::default(),
            skills: None,
            disabled_skills: None,
            mcps: None,
            disabled_mcp_servers: None,
            disabled_tools: None,
            disabled_builtin_tools: None,
            inject_inbound_images: false,
            read_paths: Vec::new(),
            write_paths: Vec::new(),
        }
    }
}

/// The first pattern of the name that a message has matched.
pub fn find_pattern<'a>(patterns: &'a [ChannelPattern], name: Option<&str>) -> (r: Option<
    &'a ChannelPattern,
>)
    ensures
        match r {
            Some(pattern) => name is Some && exists|i: int|
                {
                    &&& 0 <= i < patterns@.len()
                    &&& #[trigger] patterns@[i] == *pattern
                    &&& pattern.name@ == name->0@
                    &&& forall|k: int| 0 <= k < i ==> (#[trigger] patterns@[k]).name@ != name->0@
                },
            None => name is Some ==> forall|k: int|
                0 <= k < patterns@.len() ==> (#[trigger] patterns@[k]).name@ != name->0@,
        },
{
    let wanted = match name {
        Some(wanted) => wanted,
        None => {
            return None;
        },
    };
    let mut i: usize = 0;
    while i < patterns.len()
        invariant
            name == Some(wanted),
            i <= patterns@.len(),
            forall|k: int| 0 <= k < i ==> (#[trigger] patterns@[k]).name@ != wanted@,
        decreases patterns@.len() - i,
    {
        if same(patterns[i].name.as_str(), wanted) {
            let found = &patterns[i];
            assert(patterns@[i as int] == *found);
            return Some(found);
        }
        i += 1;
    }
    None
}

/// The mode: the one that was set for the topic, or the pattern's.
pub fn resolve_mode(topic_mode: Option<&str>, pattern_mode: Option<&str>) -> (r: Option<String>)
    ensures
        option_text(r) == first_of(option_str(topic_mode), option_str(pattern_mode)),
{
    match topic_mode {
        Some(mode) => Some(mode.to_owned()),
        None => owned(pattern_mode),
    }
}

/// Whether the mode is that of planning; any other is that of building.
pub open spec fn plans(mode: Option<Seq<char>>) -> bool {
    mode == Some("plan"@)
}

/// Whether the mode is that of planning.
pub fn is_plan(mode: Option<&str>) -> (r: bool)
    ensures
        r == plans(option_str(mode)),
{
    match mode {
        Some(mode) => same(mode, "plan"),
        None => false,
    }
}

/// The file that names the model for the mode.
pub fn override_file(mode: Option<&str>) -> (r: String)
    ensures
        r@ == if plans(option_str(mode)) {
            "plan-model-override"@
        } else {
            "build-model-override"@
        },
{
    if is_plan(mode) {
        "plan-model-override".to_owned()
    } else {
        "build-model-override".to_owned()
    }
}

/// What a file that exists says; `None` where it could not be read.
pub open spec fn said_in(content: Option<Seq<char>>) -> Option<Seq<char>> {
    match content {
        Some(text) => if trim(text).len() > 0 {
            Some(trim(text))
        } else {
            None
        },
        None => None,
    }
}

/// The model that a file names: the one of the mode counts where it exists, and
/// the one for all modes where that one does not.
pub open spec fn model_in_files(
    for_mode: Option<Option<Seq<char>>>,
    for_all: Option<Option<Seq<char>>>,
) -> Option<Seq<char>> {
    match for_mode {
        Some(content) => said_in(content),
        None => match for_all {
            Some(content) => said_in(content),
            None => None,
        },
    }
}

/// What a file holds, where it exists, and where it could be read.
pub open spec fn file_view(content: Option<Option<String>>) -> Option<Option<Seq<char>>> {
    match content {
        Some(content) => Some(option_text(content)),
        None => None,
    }
}

/// The text without the white space around it, where anything is left.
fn said(content: Option<String>) -> (r: Option<String>)
    ensures
        option_text(r) == said_in(option_text(content)),
{
    match content {
        Some(text) => {
            let text = trimmed(text.as_str());
            if text.as_str().is_empty() {
                None
            } else {
                Some(text)
            }
        },
        None => None,
    }
}

/// The model that a file names. For each of the two files: nothing where it
/// does not exist, and otherwise what it holds, as far as it could be read.
pub fn model_override_from_files(
    for_mode: Option<Option<String>>,
    for_all: Option<Option<String>>,
) -> (r: Option<String>)
    ensures
        option_text(r) == model_in_files(file_view(for_mode), file_view(for_all)),
{
    match for_mode {
        Some(content) => said(content),
        None => match for_all {
            Some(content) => said(content),
            None => None,
        },
    }
}

/// The model that a layer names for the mode.
pub open spec fn model_of(names: ModelNamesView, mode: Option<Seq<char>>) -> Option<Seq<char>> {
    first_of(
        if plans(mode) {
            names.plan_model
        } else {
            names.build_model
        },
        names.model,
    )
}

/// The model that a layer names for the mode, where there is such a layer.
pub open spec fn model_in(names: Option<ModelNamesView>, mode: Option<Seq<char>>) -> Option<
    Seq<char>,
> {
    match names {
        Some(names) => model_of(names, mode),
        None => None,
    }
}

/// The model: what a file names counts first, then the topic's configuration,
/// the pattern's and the channel's.
pub open spec fn chosen_model(
    in_file: Option<Seq<char>>,
    topic: Option<ModelNamesView>,
    pattern: Option<ModelNamesView>,
    config: ModelNamesView,
    mode: Option<Seq<char>>,
) -> Option<Seq<char>> {
    first_of(
        in_file,
        first_of(model_in(topic, mode), first_of(model_in(pattern, mode), model_of(config, mode))),
    )
}

/// A copy of the text, where there is one.
fn copy_text(s: &Option<String>) -> (r: Option<String>)
    ensures
        option_text(r) == option_text(*s),
{
    match s {
        Some(s) => Some(s.clone()),
        None => None,
    }
}

/// The model that a layer names for the mode.
fn layer_model(names: &ModelNames, mode: Option<&str>) -> (r: Option<String>)
    ensures
        option_text(r) == model_of(names@, option_str(mode)),
{
    let special = if is_plan(mode) {
        copy_text(&names.plan_model)
    } else {
        copy_text(&names.build_model)
    };
    match special {
        Some(model) => Some(model),
        None => copy_text(&names.model),
    }
}

/// The model that a layer names for the mode, where there is such a layer.
fn option_layer_model(names: Option<&ModelNames>, mode: Option<&str>) -> (r: Option<String>)
    ensures
        option_text(r) == model_in(option_models(names), option_str(mode)),
{
    match names {
        Some(names) => layer_model(names, mode),
        None => None,
    }
}

/// The model that a message is answered with.
pub fn resolve_model(
    in_file: Option<String>,
    topic: Option<&ModelNames>,
    pattern: Option<&ModelNames>,
    config: &ModelNames,
    mode: Option<&str>,
) -> (r: Option<String>)
    ensures
        option_text(r) == chosen_model(
            option_text(in_file),
            option_models(topic),
            option_models(pattern),
            config@,
            option_str(mode),
        ),
{
    if in_file.is_some() {
        return in_file;
    }
    let model = option_layer_model(topic, mode);
    if model.is_some() {
        return model;
    }
    let model = option_layer_model(pattern, mode);
    if model.is_some() {
        return model;
    }
    layer_model(config, mode)
}

/// The model for side tasks that a layer names, where there is such a layer.
pub open spec fn small_in(names: Option<ModelNamesView>) -> Option<Seq<char>> {
    match names {
        Some(names) => names.small_model,
        None => None,
    }
}

/// The model for side tasks.
pub fn resolve_small_model(
    topic: Option<&ModelNames>,
    pattern: Option<&ModelNames>,
    config: &ModelNames,
) -> (r: Option<String>)
    ensures
        option_text(r) == first_of(
            small_in(option_models(topic)),
            first_of(small_in(option_models(pattern)), config@.small_model),
        ),
{
    if let Some(names) = topic {
        if names.small_model.is_some() {
            return copy_text(&names.small_model);
        }
    }
    if let Some(names) = pattern {
        if names.small_model.is_some() {
            return copy_text(&names.small_model);
        }
    }
    copy_text(&config.small_model)
}

/// The size of the context window of the model: what is said of the model
/// counts, then what is said of the provider, then the default.
pub open spec fn window_of(
    model: Seq<char>,
    providers: Seq<(Seq<char>, ProviderDefView)>,
    default: u64,
) -> u64 {
    let known = match split_model(model) {
        Some((provider, id)) => match lookup(providers, provider) {
            Some(def) => first_of(
                match lookup(def.models, id) {
                    Some(entry) => entry.context_window,
                    None => None,
                },
                def.context_window,
            ),
            None => None,
        },
        None => None,
    };
    match known {
        Some(size) => size,
        None => default,
    }
}

/// The size of the context window of the model, in tokens.
pub fn resolve_context_window(
    model: &str,
    providers: &[(String, ProviderDef)],
    default: u64,
) -> (r: u64)
    ensures
        r == window_of(model@, providers_view(providers@), default),
{
    let (provider, id) = match split_model_name(model) {
        Some(parts) => parts,
        None => {
            return default;
        },
    };
    let def = match find_provider(providers, provider.as_str()) {
        Some(def) => def,
        None => {
            return default;
        },
    };
    if let Some(entry) = find_model(&def.models, id.as_str()) {
        if let Some(size) = entry.context_window {
            return size;
        }
    }
    match def.context_window {
        Some(size) => size,
        None => default,
    }
}

/// The models of a channel, where its configuration names its own.
pub open spec fn channel_models(
    config: ModelNamesView,
    channels: Seq<(Seq<char>, ModelNamesView)>,
    channel: Seq<char>,
) -> ModelNamesView {
    match lookup(channels, channel) {
        Some(own) => ModelNamesView {
            model: first_of(own.model, config.model),
            small_model: first_of(own.small_model, config.small_model),
            ..config
        },
        None => config,
    }
}

/// What the channels of a configuration name.
pub open spec fn channels_view(channels: Seq<(String, ModelNames)>) -> Seq<
    (Seq<char>, ModelNamesView),
> {
    channels.map_values(|entry: (String, ModelNames)| (entry.0@, entry.1@))
}

/// The models of a channel: its own, where its configuration names a model or a
/// model for side tasks, and those of all channels otherwise.
pub fn derive_agent_config(
    config: &ModelNames,
    channels: &[(String, ModelNames)],
    channel: &str,
) -> (r: ModelNames)
    ensures
        r@ == channel_models(config@, channels_view(channels@), channel@),
{
    let ghost views = channels_view(channels@);
    let mut r = ModelNames {
        model: copy_text(&config.model),
        plan_model: copy_text(&config.plan_model),
        build_model: copy_text(&config.build_model),
        small_model: copy_text(&config.small_model),
    };
    let mut i: usize = 0;
    while i < channels.len()
        invariant
            views == channels_view(channels@),
            i <= channels@.len(),
            r@ == config@,
            forall|k: int| 0 <= k < i ==> (#[trigger] views[k]).0 != channel@,
        decreases channels@.len() - i,
    {
        assert(views[i as int].0 == channels@[i as int].0@);
        if same(channels[i].0.as_str(), channel) {
            proof {
                lemma_lookup_at(views, channel@, i as int);
            }
            let own = &channels[i].1;
            if own.model.is_some() {
                r.model = copy_text(&own.model);
            }
            if own.small_model.is_some() {
                r.small_model = copy_text(&own.small_model);
            }
            return r;
        }
        i += 1;
    }
    proof {
        lemma_lookup_at(views, channel@, views.len() as int);
    }
    r
}

/// What is closer to the message counts: a file of the topic, then the topic's
/// configuration, then the pattern's, and that of the channel where none of them
/// names a model.
pub proof fn law_closest_model_counts(
    in_file: Option<Seq<char>>,
    topic: Option<ModelNamesView>,
    pattern: Option<ModelNamesView>,
    config: ModelNamesView,
    mode: Option<Seq<char>>,
)
    ensures
        ({
            let chosen = chosen_model(in_file, topic, pattern, config, mode);
            &&& in_file is Some ==> chosen == in_file
            &&& in_file is None && model_in(topic, mode) is Some ==> chosen == model_in(topic, mode)
            &&& in_file is None && model_in(topic, mode) is None && model_in(pattern, mode) is Some
                ==> chosen == model_in(pattern, mode)
            &&& in_file is None && model_in(topic, mode) is None && model_in(pattern, mode) is None
                ==> chosen == model_of(config, mode)
        }),
{
}

/// The model for building does not matter while planning, nor that for planning
/// while building.
pub proof fn law_other_mode_does_not_matter(
    names: ModelNamesView,
    other: Option<Seq<char>>,
    mode: Option<Seq<char>>,
)
    ensures
        plans(mode) ==> model_of(ModelNamesView { build_model: other, ..names }, mode) == model_of(
            names,
            mode,
        ),
        !plans(mode) ==> model_of(ModelNamesView { plan_model: other, ..names }, mode) == model_of(
            names,
            mode,
        ),
{
}

/// A channel can name a model and a model for side tasks of its own; all else is
/// that of all channels.
pub proof fn law_channels_override_two_models(
    config: ModelNamesView,
    channels: Seq<(Seq<char>, ModelNamesView)>,
    channel: Seq<char>,
)
    ensures
        ({
            let models = channel_models(config, channels, channel);
            &&& models.plan_model == config.plan_model
            &&& models.build_model == config.build_model
            &&& lookup(channels, channel) is None ==> models == config
            &&& lookup(channels, channel) matches Some(own) ==> {
                &&& own.model is Some ==> models.model == own.model
                &&& own.model is None ==> models.model == config.model
                &&& own.small_model is Some ==> models.small_model == own.small_model
                &&& own.small_model is None ==> models.small_model == config.small_model
            }
        }),
{
}

/// While planning the model for planning counts, and otherwise the model for
/// building; where the one that counts is not named, the model for all modes.
/// Only the word for it means planning.
pub proof fn law_mode_has_its_model(names: ModelNamesView, mode: Option<Seq<char>>)
    ensures
        mode == Some("plan"@) && names.plan_model is Some ==> model_of(names, mode)
            == names.plan_model,
        mode != Some("plan"@) && names.build_model is Some ==> model_of(names, mode)
            == names.build_model,
        mode == Some("plan"@) && names.plan_model is None ==> model_of(names, mode) == names.model,
        mode != Some("plan"@) && names.build_model is None ==> model_of(names, mode) == names.model,
        model_in(None, mode) is None,
        model_in(Some(names), mode) == model_of(names, mode),
{
}

/// The file for the mode counts wherever it exists, even where it says nothing;
/// the file for all modes counts only where that one does not exist. What a file
/// says is its text without the white space around it.
pub proof fn law_file_of_the_mode_counts(
    for_mode: Option<Option<Seq<char>>>,
    for_all: Option<Option<Seq<char>>>,
    text: Seq<char>,
)
    ensures
        for_mode is Some ==> model_in_files(for_mode, for_all) == model_in_files(for_mode, None),
        for_mode is None ==> model_in_files(for_mode, for_all) == model_in_files(for_all, None),
        for_mode is None && for_all is None ==> model_in_files(for_mode, for_all) is None,
        for_mode == Some(None::<Seq<char>>) ==> model_in_files(for_mode, for_all) is None,
        for_mode == Some(Some(text)) && crate::text::all_white(text) ==> model_in_files(
            for_mode,
            for_all,
        ) is None,
        for_mode == Some(Some(text)) && !crate::text::all_white(text) ==> model_in_files(
            for_mode,
            for_all,
        ) == Some(trim(text)),
{
    crate::text::law_trim_takes_white_space_alone(text);
}

/// The window of a model is what its own entry says, else what its provider
/// says, else the default; so is that of a model that is not configured.
pub proof fn law_closest_window_counts(
    provider: Seq<char>,
    id: Seq<char>,
    providers: Seq<(Seq<char>, ProviderDefView)>,
    default: u64,
)
    requires
        forall|k: int| 0 <= k < provider.len() ==> #[trigger] provider[k] != '/',
    ensures
        window_of(provider, providers, default) == default,
        ({
            let size = window_of(provider + "/"@ + id, providers, default);
            match lookup(providers, provider) {
                None => size == default,
                Some(def) => match lookup(def.models, id) {
                    Some(entry) => if entry.context_window is Some {
                        size == entry.context_window->0
                    } else if def.context_window is Some {
                        size == def.context_window->0
                    } else {
                        size == default
                    },
                    None => if def.context_window is Some {
                        size == def.context_window->0
                    } else {
                        size == default
                    },
                },
            }
        }),
{
    crate::provider::select::law_model_string_is_cut(provider, id);
}

/// The model for side tasks is the closest that is named: the topic's, else the
/// pattern's, else that of the configuration.
pub proof fn law_closest_small_model_counts(
    topic: Option<ModelNamesView>,
    pattern: Option<ModelNamesView>,
    config: ModelNamesView,
)
    ensures
        ({
            let small = first_of(small_in(topic), first_of(small_in(pattern), config.small_model));
            &&& topic is Some && topic->0.small_model is Some ==> small == topic->0.small_model
            &&& (topic is None || topic->0.small_model is None) && pattern is Some
                && pattern->0.small_model is Some ==> small == pattern->0.small_model
            &&& (topic is None || topic->0.small_model is None) && (pattern is None
                || pattern->0.small_model is None) ==> small == config.small_model
        }),
{
}

} // verus!
