//! Which tool servers and which tools a message is answered with.
use crate::text::{
    add_new, after, contains, find, find_text, is_listed, lemma_find_from, mentions, names_or_none,
    option_names, option_str, part, same, texts, with_new,
};
use vstd::prelude::*;
use vstd::string::*;

verus! {

/// Two lists in one: the channel's names as they are, and the pattern's that
/// are not among them.
pub fn merge_names(channel: Option<&Vec<String>>, pattern: Option<&Vec<String>>) -> (r: Vec<String>)
    ensures
        texts(r@) == with_new(
            names_or_none(option_names(channel)),
            names_or_none(option_names(pattern)),
        ),
{
    let mut names: Vec<String> = Vec::new();
    if let Some(all) = channel {
        let mut i: usize = 0;
        while i < all.len()
            invariant
                i <= all@.len(),
                names@.len() == i,
                forall|k: int| 0 <= k < i ==> #[trigger] names@[k]@ == all@[k]@,
            decreases all@.len() - i,
        {
            names.push(all[i].clone());
            i += 1;
        }
        assert(texts(names@) =~= texts(all@));
    } else {
        assert(texts(names@) =~= Seq::empty());
    }
    add_new(&mut names, pattern);
    names
}

/// The tools that are not offered: those of the channel, and those that the
/// pattern names under either setting.
pub fn disabled_tool_names(
    channel: Option<&Vec<String>>,
    pattern: Option<&Vec<String>>,
    pattern_builtin: Option<&Vec<String>>,
) -> (r: Vec<String>)
    ensures
        texts(r@) == with_new(
            with_new(
                names_or_none(option_names(channel)),
                names_or_none(option_names(pattern)),
            ),
            names_or_none(option_names(pattern_builtin)),
        ),
{
    let mut names = merge_names(channel, pattern);
    add_new(&mut names, pattern_builtin);
    names
}

/// Where a tool server was configured.
#[derive(Debug, Clone, Copy, PartialEq, Eq, Structural)]
pub enum McpLayer {
    /// For all channels.
    Global,
    /// For the channel.
    Channel,
    /// For the pattern.
    Pattern,
    /// For the topic, beside the others.
    TopicOverride,
    /// For the topic, in place of the others.
    TopicReplace,
}

/// Which layer's tool servers are used, before the topic's are added.
pub open spec fn base_layer_of(pattern_has: bool, channel_has: bool) -> McpLayer {
    if pattern_has {
        McpLayer::Pattern
    } else if channel_has {
        McpLayer::Channel
    } else {
        McpLayer::Global
    }
}

/// Which layer's tool servers are used, before the topic's are added: the
/// pattern's, where it names any, then the channel's, then those of all
/// channels.
pub fn base_layer(pattern_has: bool, channel_has: bool) -> (r: McpLayer)
    ensures
        r == base_layer_of(pattern_has, channel_has),
{
    if pattern_has {
        McpLayer::Pattern
    } else if channel_has {
        McpLayer::Channel
    } else {
        McpLayer::Global
    }
}

/// Where a tool server in use was configured.
pub open spec fn layer_of(
    name: Seq<char>,
    base_names: Seq<Seq<char>>,
    base: McpLayer,
    replaces: bool,
) -> McpLayer {
    if replaces {
        McpLayer::TopicReplace
    } else if base_names.contains(name) {
        base
    } else {
        McpLayer::TopicOverride
    }
}

/// The tool servers in use, of those that apply: the ones that are not barred,
/// each with where it was configured.
pub open spec fn servers_in_use(
    names: Seq<Seq<char>>,
    base_names: Seq<Seq<char>>,
    base: McpLayer,
    replaces: bool,
    barred: Seq<Seq<char>>,
) -> Seq<(Seq<char>, McpLayer)>
    decreases names.len(),
{
    if names.len() == 0 {
        Seq::empty()
    } else {
        let before = servers_in_use(names.drop_last(), base_names, base, replaces, barred);
        if barred.contains(names.last()) {
            before
        } else {
            before.push((names.last(), layer_of(names.last(), base_names, base, replaces)))
        }
    }
}

/// What a list of tool servers holds.
pub open spec fn servers_view(servers: Seq<(String, McpLayer)>) -> Seq<(Seq<char>, McpLayer)> {
    servers.map_values(|server: (String, McpLayer)| (server.0@, server.1))
}

/// The tool servers in use. `effective` names those that apply once the topic's
/// are added to those of the base layer, or have taken their place, where
/// `replaces` is set.
pub fn resolve_servers(
    effective: &Vec<String>,
    base_names: &Vec<String>,
    base: McpLayer,
    replaces: bool,
    disabled: &Vec<String>,
) -> (r: Vec<(String, McpLayer)>)
    ensures
        servers_view(r@) == servers_in_use(
            texts(effective@),
            texts(base_names@),
            base,
            replaces,
            texts(disabled@),
        ),
{
    let ghost views = texts(effective@);
    let ghost bases = texts(base_names@);
    let ghost barred = texts(disabled@);
    let mut out: Vec<(String, McpLayer)> = Vec::new();
    let mut i: usize = 0;
    assert(servers_view(out@) =~= Seq::empty());
    while i < effective.len()
        invariant
            views == texts(effective@),
            bases == texts(base_names@),
            barred == texts(disabled@),
            i <= effective@.len(),
            servers_view(out@) == servers_in_use(
                views.take(i as int),
                bases,
                base,
                replaces,
                barred,
            ),
        decreases effective@.len() - i,
    {
        proof {
            assert(views.take(i + 1).drop_last() =~= views.take(i as int));
            assert(views.take(i + 1).last() == effective@[i as int]@);
        }
        let name = effective[i].as_str();
        if !is_listed(disabled, name) {
            let layer = if replaces {
                McpLayer::TopicReplace
            } else if is_listed(base_names, name) {
                base
            } else {
                McpLayer::TopicOverride
            };
            let ghost before = servers_view(out@);
            out.push((name.to_owned(), layer));
            assert(servers_view(out@) =~= before.push((name@, layer)));
        }
        i += 1;
    }
    assert(views.take(effective@.len() as int) =~= views);
    out
}

/// A tool server and where it was configured, for the log.
pub fn server_label(name: &str, layer: McpLayer) -> (r: String)
    ensures
        r@ == name@ + match layer {
            McpLayer::Global => ":global"@,
            McpLayer::Channel => ":channel"@,
            McpLayer::Pattern => ":pattern"@,
            McpLayer::TopicOverride => ":topic"@,
            McpLayer::TopicReplace => ":topic-replace"@,
        },
{
    let suffix = match layer {
        McpLayer::Global => ":global",
        McpLayer::Channel => ":channel",
        McpLayer::Pattern => ":pattern",
        McpLayer::TopicOverride => ":topic",
        McpLayer::TopicReplace => ":topic-replace",
    };
    name.to_owned().concat(suffix)
}

/// Whether a name is that of one server's tool, as `server/tool`.
pub open spec fn is_server_tool(name: Seq<char>) -> bool {
    mentions(name, "/"@)
}

/// The names of servers' tools, or the others.
pub open spec fn tools_with_server(names: Seq<Seq<char>>, with_server: bool) -> Seq<Seq<char>>
    decreases names.len(),
{
    if names.len() == 0 {
        Seq::empty()
    } else {
        let before = tools_with_server(names.drop_last(), with_server);
        if is_server_tool(names.last()) == with_server {
            before.push(names.last())
        } else {
            before
        }
    }
}

/// The names of servers' tools, and the others, each in their order.
pub fn partition_tools(names: &Vec<String>) -> (r: (Vec<String>, Vec<String>))
    ensures
        texts(r.0@) == tools_with_server(texts(names@), true),
        texts(r.1@) == tools_with_server(texts(names@), false),
{
    let ghost views = texts(names@);
    let mut server_tools: Vec<String> = Vec::new();
    let mut plain_tools: Vec<String> = Vec::new();
    let mut i: usize = 0;
    assert(texts(server_tools@) =~= Seq::empty());
    assert(texts(plain_tools@) =~= Seq::empty());
    while i < names.len()
        invariant
            views == texts(names@),
            i <= names@.len(),
            texts(server_tools@) == tools_with_server(views.take(i as int), true),
            texts(plain_tools@) == tools_with_server(views.take(i as int), false),
        decreases names@.len() - i,
    {
        proof {
            assert(views.take(i + 1).drop_last() =~= views.take(i as int));
            assert(views.take(i + 1).last() == names@[i as int]@);
        }
        let name = names[i].clone();
        if contains(name.as_str(), "/") {
            let ghost before = texts(server_tools@);
            server_tools.push(name);
            assert(texts(server_tools@) =~= before.push(name@));
        } else {
            let ghost before = texts(plain_tools@);
            plain_tools.push(name);
            assert(texts(plain_tools@) =~= before.push(name@));
        }
        i += 1;
    }
    assert(views.take(names@.len() as int) =~= views);
    (server_tools, plain_tools)
}

/// Whether `entry` names the tool `name` of the server `source`.
pub open spec fn names_tool(entry: Seq<char>, source: Option<Seq<char>>, name: Seq<char>) -> bool {
    match find(entry, "/"@) {
        Some(i) => source == Some(entry.take(i)) && name == after(entry, i + 1),
        None => false,
    }
}

/// Whether one of the entries names the tool `name` of the server `source`.
pub open spec fn is_barred(
    entries: Seq<Seq<char>>,
    source: Option<Seq<char>>,
    name: Seq<char>,
) -> bool {
    exists|i: int| 0 <= i < entries.len() && names_tool(#[trigger] entries[i], source, name)
}

/// Whether `entry` names the tool `name` of the server `source`.
fn entry_names_tool(entry: &str, source: Option<&str>, name: &str) -> (r: bool)
    ensures
        r == names_tool(entry@, option_str(source), name@),
{
    proof {
        reveal_strlit("/");
        lemma_find_from(entry@, "/"@, 0);
    }
    let n: usize = entry.unicode_len();
    match find_text(entry, "/") {
        Some(i) => {
            let server = part(entry, 0, i);
            assert(server@ =~= entry@.take(i as int));
            let tool = part(entry, i + 1, n);
            match source {
                Some(source) => same(source, server.as_str()) && same(name, tool.as_str()),
                None => false,
            }
        },
        None => false,
    }
}

/// Whether the tool `name` of the server `source` is not to be offered, by the
/// entries that name a server's tool.
pub fn should_skip(server_tools: &Vec<String>, source: Option<&str>, name: &str) -> (r: bool)
    ensures
        r == is_barred(texts(server_tools@), option_str(source), name@),
{
    let ghost views = texts(server_tools@);
    let mut i: usize = 0;
    while i < server_tools.len()
        invariant
            views == texts(server_tools@),
            i <= server_tools@.len(),
            forall|k: int|
                0 <= k < i ==> !names_tool(#[trigger] views[k], option_str(source), name@),
        decreases server_tools@.len() - i,
    {
        assert(views[i as int] == server_tools@[i as int]@);
        if entry_names_tool(server_tools[i].as_str(), source, name) {
            return true;
        }
        i += 1;
    }
    false
}

/// Whether a tool is offered: no entry bars it, by its name or as the tool of
/// its server.
pub open spec fn is_offered_tool(
    disabled: Seq<Seq<char>>,
    source: Option<Seq<char>>,
    name: Seq<char>,
) -> bool {
    &&& !is_barred(tools_with_server(disabled, true), source, name)
    &&& !tools_with_server(disabled, false).contains(name)
}

/// Whether a tool is offered. `source` is the tool server that it comes from;
/// the tools of the agent itself come from none.
pub fn offers_tool(disabled: &Vec<String>, source: Option<&str>, name: &str) -> (r: bool)
    ensures
        r == is_offered_tool(texts(disabled@), option_str(source), name@),
{
    let (server_tools, plain_tools) = partition_tools(disabled);
    !should_skip(&server_tools, source, name) && !is_listed(&plain_tools, name)
}

/// The model that is to be called, or the error where none is configured.
pub fn model_to_call(model_override: Option<&str>, config_model: Option<&str>) -> (r: Result<
    String,
    String,
>)
    ensures
        match r {
            Ok(model) => crate::provider::select::first_of(
                option_str(model_override),
                option_str(config_model),
            ) == Some(model@),
            Err(text) => model_override is None && config_model is None && text@
                == "No model configured. Set [agent].model in config.toml"@,
        },
{
    match model_override {
        Some(model) => Ok(model.to_owned()),
        None => match config_model {
            Some(model) => Ok(model.to_owned()),
            None => Err("No model configured. Set [agent].model in config.toml".to_owned()),
        },
    }
}

/// What either list names, the merged list names, and nothing else.
pub proof fn law_merged_names_are_those_of_both(
    names: Seq<Seq<char>>,
    more: Seq<Seq<char>>,
    name: Seq<char>,
)
    ensures
        with_new(names, more).contains(name) <==> names.contains(name) || more.contains(name),
    decreases more.len(),
{
    if more.len() > 0 {
        let before = with_new(names, more.drop_last());
        law_merged_names_are_those_of_both(names, more.drop_last(), name);
        let after = with_new(names, more);
        if more.drop_last().contains(name) {
            let i = choose|i: int| 0 <= i < more.drop_last().len() && more.drop_last()[i] == name;
            assert(more[i] == name);
        }
        if more.contains(name) {
            let i = choose|i: int| 0 <= i < more.len() && more[i] == name;
            if i < more.len() - 1 {
                assert(more.drop_last()[i] == name);
            }
        }
        if !before.contains(more.last()) {
            assert(after == before.push(more.last()));
            assert(after[after.len() - 1] == more.last());
            if before.contains(name) {
                let i = choose|i: int| 0 <= i < before.len() && before[i] == name;
                assert(after[i] == name);
            }
            if after.contains(name) {
                let i = choose|i: int| 0 <= i < after.len() && after[i] == name;
                if i < before.len() {
                    assert(before[i] == name);
                } else {
                    assert(more[more.len() - 1] == name);
                }
            }
        } else {
            assert(more[more.len() - 1] == more.last());
        }
    }
}

/// Merging adds no name twice.
pub proof fn law_merging_adds_no_name_twice(names: Seq<Seq<char>>, more: Seq<Seq<char>>)
    requires
        names.no_duplicates(),
    ensures
        with_new(names, more).no_duplicates(),
    decreases more.len(),
{
    if more.len() > 0 {
        law_merging_adds_no_name_twice(names, more.drop_last());
        let before = with_new(names, more.drop_last());
        if !before.contains(more.last()) {
            let after = before.push(more.last());
            assert forall|i: int, j: int|
                0 <= i < after.len() && 0 <= j < after.len() && i != j implies after[i] != after[j] by {
                if i == before.len() {
                    assert(before.contains(before[j]));
                } else if j == before.len() {
                    assert(before.contains(before[i]));
                }
            }
        }
    }
}

/// No barred tool server is in use.
pub proof fn law_barred_servers_are_not_used(
    names: Seq<Seq<char>>,
    base_names: Seq<Seq<char>>,
    base: McpLayer,
    replaces: bool,
    barred: Seq<Seq<char>>,
    k: int,
)
    requires
        0 <= k < servers_in_use(names, base_names, base, replaces, barred).len(),
    ensures
        !barred.contains(servers_in_use(names, base_names, base, replaces, barred)[k].0),
    decreases names.len(),
{
    if names.len() > 0 {
        let before = servers_in_use(names.drop_last(), base_names, base, replaces, barred);
        if k < before.len() {
            law_barred_servers_are_not_used(
                names.drop_last(),
                base_names,
                base,
                replaces,
                barred,
                k,
            );
        }
    }
}

/// An entry that names a server bars that server's tool alone: the tool of the
/// same name that comes from elsewhere stays.
pub proof fn law_server_entries_spare_other_tools(
    disabled: Seq<Seq<char>>,
    source: Option<Seq<char>>,
    name: Seq<char>,
)
    requires
        forall|i: int| 0 <= i < disabled.len() ==> is_server_tool(#[trigger] disabled[i]),
        source is None,
    ensures
        is_offered_tool(disabled, source, name),
{
    assert(tools_with_server(disabled, false) =~= Seq::empty()) by {
        lemma_no_plain_tools(disabled);
    }
}

proof fn lemma_no_plain_tools(disabled: Seq<Seq<char>>)
    requires
        forall|i: int| 0 <= i < disabled.len() ==> is_server_tool(#[trigger] disabled[i]),
    ensures
        tools_with_server(disabled, false).len() == 0,
    decreases disabled.len(),
{
    if disabled.len() > 0 {
        assert(is_server_tool(disabled[disabled.len() - 1]));
        assert forall|i: int| 0 <= i < disabled.drop_last().len() implies is_server_tool(
            #[trigger] disabled.drop_last()[i],
        ) by {
            assert(disabled.drop_last()[i] == disabled[i]);
        }
        lemma_no_plain_tools(disabled.drop_last());
    }
}

/// The tool servers in use are all that apply and are not barred, in their
/// order, each with the layer that it was configured in: the topic's where the
/// topic's take the place of the others, else that of the base where the base
/// names it, else the topic's.
pub proof fn law_servers_that_apply_are_used(
    names: Seq<Seq<char>>,
    base_names: Seq<Seq<char>>,
    base: McpLayer,
    replaces: bool,
    barred: Seq<Seq<char>>,
)
    ensures
        servers_in_use(names, base_names, base, replaces, barred) == names.filter(
            |name: Seq<char>| !barred.contains(name),
        ).map_values(
            |name: Seq<char>|
                (
                    name,
                    if replaces {
                        McpLayer::TopicReplace
                    } else if base_names.contains(name) {
                        base
                    } else {
                        McpLayer::TopicOverride
                    },
                ),
        ),
        base_layer_of(true, true) == McpLayer::Pattern,
        base_layer_of(true, false) == McpLayer::Pattern,
        base_layer_of(false, true) == McpLayer::Channel,
        base_layer_of(false, false) == McpLayer::Global,
    decreases names.len(),
{
    reveal(Seq::filter);
    let free = |name: Seq<char>| !barred.contains(name);
    let placed = |name: Seq<char>|
        (
            name,
            if replaces {
                McpLayer::TopicReplace
            } else if base_names.contains(name) {
                base
            } else {
                McpLayer::TopicOverride
            },
        );
    if names.len() > 0 {
        let rest = names.drop_last();
        let last = names.last();
        law_servers_that_apply_are_used(rest, base_names, base, replaces, barred);
        if free(last) {
            assert(rest.filter(free).push(last).map_values(placed) =~= rest.filter(
                free,
            ).map_values(placed).push(placed(last)));
        }
    } else {
        assert(servers_in_use(names, base_names, base, replaces, barred) =~= names.filter(
            free,
        ).map_values(placed));
    }
}

/// Whether the text holds a slash.
pub open spec fn has_slash(name: Seq<char>) -> bool {
    exists|i: int| 0 <= i < name.len() && #[trigger] name[i] == '/'
}

proof fn lemma_has_slash(name: Seq<char>)
    ensures
        is_server_tool(name) == has_slash(name),
{
    reveal_strlit("/");
    lemma_find_from(name, "/"@, 0);
    if let Some(i) = find(name, "/"@) {
        assert(name.subrange(i, i + 1)[0] == name[i]);
        assert(name[i] == '/');
    }
    if has_slash(name) {
        let i = choose|i: int| 0 <= i < name.len() && #[trigger] name[i] == '/';
        assert(name.subrange(i, i + 1) =~= "/"@);
        assert(crate::text::occurs_at(name, "/"@, i));
    }
}

/// Names with a slash are those of servers' tools, the others are plain; both
/// keep their order, and none is lost.
pub proof fn law_names_are_told_apart(names: Seq<Seq<char>>)
    ensures
        tools_with_server(names, true) == names.filter(|name: Seq<char>| has_slash(name)),
        tools_with_server(names, false) == names.filter(|name: Seq<char>| !has_slash(name)),
    decreases names.len(),
{
    reveal(Seq::filter);
    if names.len() > 0 {
        law_names_are_told_apart(names.drop_last());
        lemma_has_slash(names.last());
    } else {
        assert(tools_with_server(names, true) =~= names.filter(|name: Seq<char>| has_slash(name)));
        assert(tools_with_server(names, false) =~= names.filter(
            |name: Seq<char>| !has_slash(name),
        ));
    }
}

/// An entry with a slash names the tool behind its first slash, of the server
/// before it, and no other tool.
pub proof fn law_entry_names_one_tool(
    server: Seq<char>,
    tool: Seq<char>,
    source: Option<Seq<char>>,
    name: Seq<char>,
)
    requires
        !has_slash(server),
    ensures
        names_tool(server + "/"@ + tool, source, name) <==> source == Some(server) && name == tool,
        !names_tool(server, source, name),
{
    crate::provider::select::law_model_string_is_cut(server, tool);
    lemma_has_slash(server);
}

/// A tool is offered exactly where no entry is its name, and none names it as
/// the tool of the server that it comes from.
pub proof fn law_tool_is_offered_unless_named(
    disabled: Seq<Seq<char>>,
    source: Option<Seq<char>>,
    name: Seq<char>,
)
    ensures
        is_offered_tool(disabled, source, name) <==> forall|i: int|
            0 <= i < disabled.len() ==> !(!has_slash(#[trigger] disabled[i]) && disabled[i] == name)
                && !(has_slash(disabled[i]) && names_tool(disabled[i], source, name)),
{
    law_names_are_told_apart(disabled);
    let slashed = |name: Seq<char>| has_slash(name);
    let plain = |name: Seq<char>| !has_slash(name);
    let servers = disabled.filter(slashed);
    let others = disabled.filter(plain);
    if is_offered_tool(disabled, source, name) {
        assert forall|i: int| 0 <= i < disabled.len() implies !(!has_slash(#[trigger] disabled[i])
            && disabled[i] == name) && !(has_slash(disabled[i]) && names_tool(
            disabled[i],
            source,
            name,
        )) by {
            if has_slash(disabled[i]) {
                disabled.lemma_filter_contains(slashed, i);
                let k = choose|k: int| 0 <= k < servers.len() && servers[k] == disabled[i];
                assert(!names_tool(servers[k], source, name));
            } else {
                disabled.lemma_filter_contains(plain, i);
            }
        }
    } else {
        if is_barred(servers, source, name) {
            let k = choose|k: int| 0 <= k < servers.len() && names_tool(
                #[trigger] servers[k],
                source,
                name,
            );
            disabled.lemma_filter_pred(slashed, k);
            disabled.lemma_filter_contains_rev(slashed, servers[k]);
            let i = choose|i: int| 0 <= i < disabled.len() && disabled[i] == servers[k];
            assert(has_slash(disabled[i]) && names_tool(disabled[i], source, name));
        } else {
            let k = choose|k: int| 0 <= k < others.len() && others[k] == name;
            disabled.lemma_filter_pred(plain, k);
            disabled.lemma_filter_contains_rev(plain, others[k]);
            let i = choose|i: int| 0 <= i < disabled.len() && disabled[i] == others[k];
            assert(!has_slash(disabled[i]) && disabled[i] == name);
        }
    }
}

} // verus!
