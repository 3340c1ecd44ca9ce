//! Whether a message of a chat is handed on, and to where.
use crate::bridge::config::{route_of, routes_view, BridgeConfig, RouteView};
use crate::json::{items_view, Json, JsonView};
use crate::message::{InboundMessage, InboundView};
use crate::text::{
    all_ascii, is_listed, lemma_lower, lower, option_text, same, same_letters, texts, to_lower,
};
use vstd::prelude::*;
use vstd::string::*;

verus! {

/// A message that is handed on.
#[derive(Debug)]
pub struct Forward {
    /// The channel.
    pub channel: String,
    /// The thread.
    pub thread: String,
    /// Whom the reply goes to.
    pub receive_id: String,
    /// What kind of id that is: `chat_id` or `open_id`.
    pub receive_id_type: String,
    /// The text.
    pub text: String,
    /// Who sent it.
    pub sender: Option<String>,
    /// The sender's address.
    pub sender_address: Option<String>,
}

/// What a [`Forward`] holds.
#[verifier::ext_equal]
pub struct ForwardView {
    /// The channel.
    pub channel: Seq<char>,
    /// The thread.
    pub thread: Seq<char>,
    /// Whom the reply goes to.
    pub receive_id: Seq<char>,
    /// What kind of id that is.
    pub receive_id_type: Seq<char>,
    /// The text.
    pub text: Seq<char>,
    /// Who sent it.
    pub sender: Option<Seq<char>>,
    /// The sender's address.
    pub sender_address: Option<Seq<char>>,
}

impl View for Forward {
    type V = ForwardView;

    open spec fn view(&self) -> ForwardView {
        ForwardView {
            channel: self.channel@,
            thread: self.thread@,
            receive_id: self.receive_id@,
            receive_id_type: self.receive_id_type@,
            text: self.text@,
            sender: option_text(self.sender),
            sender_address: option_text(self.sender_address),
        }
    }
}

/// What the metadata says under `key`; nothing where it says no text.
pub open spec fn said_under(metadata: JsonView, key: Seq<char>) -> Seq<char> {
    match metadata.text_field(key) {
        Some(text) => text,
        None => Seq::empty(),
    }
}

/// What the metadata says under `key`; nothing where it says no text.
fn metadata_str(metadata: &Json, key: &str) -> (r: String)
    ensures
        r@ == said_under(metadata@, key@),
{
    match metadata.get_str(key) {
        Some(text) => text.to_owned(),
        None => String::new(),
    }
}

/// The optional text at the end of the texts.
pub open spec fn and_text(all: Seq<Seq<char>>, text: Option<Seq<char>>) -> Seq<Seq<char>> {
    match text {
        Some(text) => all.push(text),
        None => all,
    }
}

/// Who is mentioned: by name and by id, or by a text alone.
pub open spec fn mentioned_in(items: Seq<JsonView>) -> Seq<Seq<char>>
    decreases items.len(),
{
    if items.len() == 0 {
        Seq::empty()
    } else {
        let before = mentioned_in(items.drop_last());
        match items.last().text() {
            Some(text) => before.push(text),
            None => and_text(
                and_text(before, items.last().text_field("name"@)),
                items.last().text_field("id"@),
            ),
        }
    }
}

/// Who is mentioned in a message.
pub open spec fn mentioned(metadata: JsonView) -> Seq<Seq<char>> {
    match metadata.array_field("mentions"@) {
        Some(items) => mentioned_in(items),
        None => Seq::empty(),
    }
}

/// Who is mentioned in a message.
fn list_mentioned(metadata: &Json) -> (r: Vec<String>)
    ensures
        texts(r@) == mentioned(metadata@),
{
    let mut out: Vec<String> = Vec::new();
    assert(texts(out@) =~= Seq::empty());
    if let Some(items) = metadata.get_array("mentions") {
        let ghost views = items_view(items@);
        let mut i: usize = 0;
        while i < items.len()
            invariant
                views == items_view(items@),
                i <= items@.len(),
                texts(out@) == mentioned_in(views.take(i as int)),
            decreases items@.len() - i,
        {
            proof {
                assert(views.take(i + 1).drop_last() =~= views.take(i as int));
                assert(views.take(i + 1).last() == items@[i as int]@);
            }
            let item = &items[i];
            match item.as_str() {
                Some(text) => {
                    let ghost before = texts(out@);
                    out.push(text.to_owned());
                    assert(texts(out@) =~= before.push(text@));
                },
                None => {
                    if let Some(name) = item.get_str("name") {
                        let ghost before = texts(out@);
                        out.push(name.to_owned());
                        assert(texts(out@) =~= before.push(name@));
                    }
                    if let Some(id) = item.get_str("id") {
                        let ghost before = texts(out@);
                        out.push(id.to_owned());
                        assert(texts(out@) =~= before.push(id@));
                    }
                },
            }
            i += 1;
        }
        assert(views.take(items@.len() as int) =~= views);
    }
    out
}

/// The texts in lower case.
pub open spec fn all_lower(names: Seq<Seq<char>>) -> Seq<Seq<char>> {
    names.map_values(|name: Seq<char>| lower(name))
}

/// The texts in lower case.
fn lower_all(names: &Vec<String>) -> (r: Vec<String>)
    ensures
        texts(r@) == all_lower(texts(names@)),
{
    let mut out: Vec<String> = Vec::new();
    let mut i: usize = 0;
    while i < names.len()
        invariant
            i <= names@.len(),
            out@.len() == i,
            forall|k: int| 0 <= k < i ==> #[trigger] out@[k]@ == lower(names@[k]@),
        decreases names@.len() - i,
    {
        out.push(to_lower(names[i].as_str()));
        i += 1;
    }
    assert(texts(out@) =~= all_lower(texts(names@)));
    out
}

/// Whether a list holds one of the wanted texts.
pub open spec fn holds_any(wanted: Seq<Seq<char>>, list: Seq<Seq<char>>) -> bool {
    exists|i: int| 0 <= i < wanted.len() && list.contains(#[trigger] wanted[i])
}

/// Whether a list holds one of the wanted texts.
pub fn any_listed(wanted: &Vec<String>, list: &Vec<String>) -> (r: bool)
    ensures
        r == holds_any(texts(wanted@), texts(list@)),
{
    let ghost views = texts(wanted@);
    let mut i: usize = 0;
    while i < wanted.len()
        invariant
            views == texts(wanted@),
            i <= wanted@.len(),
            forall|k: int| 0 <= k < i ==> !texts(list@).contains(#[trigger] views[k]),
        decreases wanted@.len() - i,
    {
        assert(views[i as int] == wanted@[i as int]@);
        if is_listed(list, wanted[i].as_str()) {
            return true;
        }
        i += 1;
    }
    false
}

/// Whether a message meets what a route asks for: that one of those whom it
/// names, here in lower case, is mentioned.
pub open spec fn is_called(required: Option<Seq<Seq<char>>>, mentioned: Seq<Seq<char>>) -> bool {
    match required {
        Some(required) => holds_any(required, mentioned),
        None => true,
    }
}

/// What is handed on along a route.
pub open spec fn forwarded(
    default_channel: Seq<char>,
    route: RouteView,
    message: InboundView,
) -> ForwardView {
    ForwardView {
        channel: match route.channel {
            Some(channel) => channel,
            None => default_channel,
        },
        thread: route.thread,
        receive_id: said_under(message.metadata, "chat_id"@),
        receive_id_type: if said_under(message.metadata, "chat_type"@) == "p2p"@ {
            "open_id"@
        } else {
            "chat_id"@
        },
        text: match message.text {
            Some(text) => text,
            None => Seq::empty(),
        },
        sender: Some(message.sender),
        sender_address: Some(message.sender_address),
    }
}

/// The route that a message takes.
pub open spec fn message_route(routes: Seq<RouteView>, message: InboundView) -> Option<int> {
    route_of(
        routes,
        said_under(message.metadata, "chat_name"@),
        said_under(message.metadata, "chat_id"@),
    )
}

/// What a route asks for, in lower case.
pub open spec fn required_lower(route: RouteView) -> Option<Seq<Seq<char>>> {
    match route.mentions {
        Some(names) => Some(all_lower(names)),
        None => None,
    }
}

/// Whether and how a message is handed on: along the first route that its chat
/// takes, where it mentions one of those whom the route names.
pub open spec fn forward_of(
    default_channel: Seq<char>,
    routes: Seq<RouteView>,
    message: InboundView,
) -> Option<ForwardView> {
    match message_route(routes, message) {
        Some(i) => if is_called(
            required_lower(routes[i]),
            all_lower(mentioned(message.metadata)),
        ) {
            Some(forwarded(default_channel, routes[i], message))
        } else {
            None
        },
        None => None,
    }
}

/// What an optional message that is handed on holds.
pub open spec fn option_forward(forward: Option<Forward>) -> Option<ForwardView> {
    match forward {
        Some(forward) => Some(forward@),
        None => None,
    }
}

/// Whether and how a message is handed on.
pub fn forward_for(cfg: &BridgeConfig, message: &InboundMessage) -> (r: Option<Forward>)
    ensures
        option_forward(r) == forward_of(cfg.channel@, routes_view(cfg.routes@), message@),
{
    let chat_name = metadata_str(&message.metadata, "chat_name");
    let chat_id = metadata_str(&message.metadata, "chat_id");
    let chat_type = metadata_str(&message.metadata, "chat_type");
    let route = match cfg.route(chat_name.as_str(), chat_id.as_str()) {
        Some(route) => route,
        None => {
            return None;
        },
    };
    let ghost i = message_route(routes_view(cfg.routes@), message@).unwrap();
    assert(routes_view(cfg.routes@)[i] == route@);
    if let Some(names) = &route.mentions {
        let required = lower_all(names);
        let present = lower_all(&list_mentioned(&message.metadata));
        if !any_listed(&required, &present) {
            return None;
        }
    }
    let channel = match &route.channel {
        Some(channel) => channel.clone(),
        None => cfg.channel.clone(),
    };
    let receive_id_type = if same(chat_type.as_str(), "p2p") {
        "open_id".to_owned()
    } else {
        "chat_id".to_owned()
    };
    let text = match &message.text {
        Some(text) => text.clone(),
        None => String::new(),
    };
    Some(
        Forward {
            channel,
            thread: route.thread.clone(),
            receive_id: chat_id,
            receive_id_type,
            text,
            sender: Some(message.sender.clone()),
            sender_address: Some(message.sender_address.clone()),
        },
    )
}

/// What is handed on goes to a channel that the bridge serves.
pub proof fn law_forwards_stay_in_served_channels(
    default_channel: Seq<char>,
    routes: Seq<RouteView>,
    message: InboundView,
)
    ensures
        forward_of(default_channel, routes, message) matches Some(forward)
            ==> crate::bridge::config::served_channels(default_channel, routes).contains(
            forward.channel,
        ),
{
    if let Some(i) = message_route(routes, message) {
        crate::bridge::config::law_first_route_counts(
            routes,
            said_under(message.metadata, "chat_name"@),
            said_under(message.metadata, "chat_id"@),
        );
        let channel = forwarded(default_channel, routes[i], message).channel;
        crate::bridge::config::law_channels_are_those_named(default_channel, routes, channel);
        if let Some(named) = routes[i].channel {
            lemma_channel_is_named(routes, i);
        }
    }
}

proof fn lemma_channel_is_named(routes: Seq<RouteView>, i: int)
    requires
        0 <= i < routes.len(),
        routes[i].channel is Some,
    ensures
        crate::bridge::config::named_channels(routes).contains(routes[i].channel->0),
    decreases routes.len(),
{
    let named = crate::bridge::config::named_channels(routes);
    let before = crate::bridge::config::named_channels(routes.drop_last());
    if i == routes.len() - 1 {
        assert(named[named.len() - 1] == routes[i].channel->0);
    } else {
        lemma_channel_is_named(routes.drop_last(), i);
        let k = choose|k: int| 0 <= k < before.len() && before[k] == routes[i].channel->0;
        assert(named[k] == before[k]);
    }
}

/// Whether one of the texts is one of the others but for the case of letters.
pub open spec fn any_same(wanted: Seq<Seq<char>>, list: Seq<Seq<char>>) -> bool {
    exists|i: int, j: int|
        0 <= i < wanted.len() && 0 <= j < list.len() && same_letters(
            #[trigger] wanted[i],
            #[trigger] list[j],
        )
}

/// The case of the letters in ASCII names does not matter: a message is handed
/// on where one of those is mentioned whom the route names, in whatever case.
pub proof fn law_case_of_mentions_does_not_matter(
    wanted: Seq<Seq<char>>,
    mentioned: Seq<Seq<char>>,
)
    requires
        forall|i: int| 0 <= i < wanted.len() ==> all_ascii(#[trigger] wanted[i]),
        forall|i: int| 0 <= i < mentioned.len() ==> all_ascii(#[trigger] mentioned[i]),
    ensures
        is_called(Some(all_lower(wanted)), all_lower(mentioned)) == any_same(wanted, mentioned),
{
    let a = all_lower(wanted);
    let b = all_lower(mentioned);
    if holds_any(a, b) {
        let i = choose|i: int| 0 <= i < a.len() && b.contains(#[trigger] a[i]);
        let j = choose|j: int| 0 <= j < b.len() && b[j] == a[i];
        lemma_lower(wanted[i], mentioned[j]);
    }
    if any_same(wanted, mentioned) {
        let (i, j) = choose|i: int, j: int|
            0 <= i < wanted.len() && 0 <= j < mentioned.len() && same_letters(
                #[trigger] wanted[i],
                #[trigger] mentioned[j],
            );
        lemma_lower(wanted[i], mentioned[j]);
        assert(b[j] == a[i]);
    }
}

/// The text that a field of the metadata holds, where there is one.
pub open spec fn noted(message: InboundView, key: Seq<char>) -> Option<Seq<char>> {
    match message.metadata {
        JsonView::Object(fields) => if fields.dom().contains(key) {
            match fields[key] {
                JsonView::Text(text) => Some(text),
                _ => None,
            }
        } else {
            None
        },
        _ => None,
    }
}

/// The text, or nothing where there is none.
pub open spec fn or_nothing(text: Option<Seq<char>>) -> Seq<char> {
    match text {
        Some(text) => text,
        None => Seq::empty(),
    }
}

/// Whatever is handed on carries the message: its text, nothing where it has
/// none, and who sent it. It goes to the chat that the message came from, by
/// the kind of id that the chat has, and along the first route that takes that
/// chat, by its name in any case or by its id.
pub proof fn law_forwards_carry_the_message(
    default_channel: Seq<char>,
    routes: Seq<RouteView>,
    message: InboundView,
)
    ensures
        forward_of(default_channel, routes, message) matches Some(forward) ==> {
            &&& forward.text == or_nothing(message.text)
            &&& forward.sender == Some(message.sender)
            &&& forward.sender_address == Some(message.sender_address)
            &&& forward.receive_id == or_nothing(noted(message, "chat_id"@))
            &&& forward.receive_id_type == if noted(message, "chat_type"@) == Some("p2p"@) {
                "open_id"@
            } else {
                "chat_id"@
            }
            &&& exists|i: int| #[trigger] goes_along(default_channel, routes, message, forward, i)
        },
{
    crate::bridge::config::law_first_route_counts(
        routes,
        said_under(message.metadata, "chat_name"@),
        said_under(message.metadata, "chat_id"@),
    );
    if let Some(forward) = forward_of(default_channel, routes, message) {
        assert("p2p"@.len() == 3) by {
            reveal_strlit("p2p");
        }
        assert(said_under(message.metadata, "chat_id"@) == or_nothing(noted(message, "chat_id"@)));
        let kind = said_under(message.metadata, "chat_type"@);
        assert(kind == or_nothing(noted(message, "chat_type"@)));
        let i = message_route(routes, message)->0;
        assert(goes_along(default_channel, routes, message, forward, i));
    }
}

/// Whether the route is one for the chat that the message came from.
pub open spec fn is_for(route: RouteView, message: InboundView) -> bool {
    same_letters(route.chat_name, or_nothing(noted(message, "chat_name"@))) || route.chat_id
        == Some(or_nothing(noted(message, "chat_id"@)))
}

/// Whether the message is handed on along the route `i`, the first that is for
/// its chat.
pub open spec fn goes_along(
    default_channel: Seq<char>,
    routes: Seq<RouteView>,
    message: InboundView,
    forward: ForwardView,
    i: int,
) -> bool {
    &&& 0 <= i < routes.len()
    &&& is_for(routes[i], message)
    &&& forall|k: int| 0 <= k < i ==> !is_for(#[trigger] routes[k], message)
    &&& forward.thread == routes[i].thread
    &&& routes[i].channel is Some ==> Some(forward.channel) == routes[i].channel
    &&& routes[i].channel is None ==> forward.channel == default_channel
}

/// Two messages that differ in their texts alone are both handed on or neither
/// is, and what is handed on differs in the same way.
pub proof fn law_only_the_text_differs(
    default_channel: Seq<char>,
    routes: Seq<RouteView>,
    message: InboundView,
    text: Option<Seq<char>>,
    markdown: Option<Seq<char>>,
)
    ensures
        ({
            let other = InboundView { text, markdown, ..message };
            match forward_of(default_channel, routes, message) {
                Some(forward) => forward_of(default_channel, routes, other) == Some(
                    ForwardView { text: or_nothing(text), ..forward },
                ),
                None => forward_of(default_channel, routes, other) is None,
            }
        }),
{
}

/// Whether the item names the text as one who is mentioned: as the item itself,
/// or as its name or its id.
pub open spec fn names(item: JsonView, text: Seq<char>) -> bool {
    match item {
        JsonView::Text(name) => name == text,
        JsonView::Object(fields) => {
            ||| fields.dom().contains("name"@) && fields["name"@] == JsonView::Text(text)
            ||| fields.dom().contains("id"@) && fields["id"@] == JsonView::Text(text)
        },
        _ => false,
    }
}

/// Whether one of the items names the text.
pub open spec fn one_names(items: Seq<JsonView>, text: Seq<char>) -> bool {
    exists|i: int| 0 <= i < items.len() && names(#[trigger] items[i], text)
}

/// Those who are mentioned are those whom the items of the list name, by name,
/// by id or as a text alone, and no others.
pub proof fn law_mentioned_are_those_named(metadata: JsonView, text: Seq<char>)
    ensures
        mentioned(metadata).contains(text) <==> match metadata.field("mentions"@) {
            Some(JsonView::Array(items)) => one_names(items, text),
            _ => false,
        },
{
    if let Some(JsonView::Array(items)) = metadata.field("mentions"@) {
        lemma_mentioned_in(items, text);
    }
}

proof fn lemma_mentioned_in(items: Seq<JsonView>, text: Seq<char>)
    ensures
        mentioned_in(items).contains(text) <==> one_names(items, text),
    decreases items.len(),
{
    if items.len() > 0 {
        let rest = items.drop_last();
        let last = items.last();
        lemma_mentioned_in(rest, text);
        assert(items[items.len() - 1] == last);
        if one_names(rest, text) {
            let i = choose|i: int| 0 <= i < rest.len() && names(#[trigger] rest[i], text);
            assert(items[i] == rest[i]);
        }
        if one_names(items, text) && !names(last, text) {
            let i = choose|i: int| 0 <= i < items.len() && names(#[trigger] items[i], text);
            assert(rest[i] == items[i]);
        }
        let before = mentioned_in(rest);
        let all = mentioned_in(items);
        if let Some(name) = last.text() {
            lemma_push_contains(before, name, text);
        } else {
            let middle = and_text(before, last.text_field("name"@));
            if let Some(name) = last.text_field("name"@) {
                lemma_push_contains(before, name, text);
            }
            if let Some(id) = last.text_field("id"@) {
                lemma_push_contains(middle, id, text);
            }
        }
    }
}

proof fn lemma_push_contains(all: Seq<Seq<char>>, more: Seq<char>, text: Seq<char>)
    ensures
        all.push(more).contains(text) <==> all.contains(text) || more == text,
{
    let longer = all.push(more);
    if all.contains(text) {
        let i = choose|i: int| 0 <= i < all.len() && all[i] == text;
        assert(longer[i] == text);
    }
    assert(longer[all.len() as int] == more);
    if longer.contains(text) && more != text {
        let i = choose|i: int| 0 <= i < longer.len() && longer[i] == text;
        assert(all[i] == text);
    }
}

/// A message is handed on wherever a route takes its chat and either asks for
/// no mention, or names one, in any case, whom the message mentions; it is not
/// handed on otherwise. Names are in ASCII here.
pub proof fn law_handed_on_where_called(
    default_channel: Seq<char>,
    routes: Seq<RouteView>,
    message: InboundView,
    i: int,
)
    requires
        0 <= i < routes.len(),
        is_for(routes[i], message),
        forall|k: int| 0 <= k < i ==> !is_for(#[trigger] routes[k], message),
        routes[i].mentions matches Some(wanted) ==> forall|k: int|
            0 <= k < wanted.len() ==> all_ascii(#[trigger] wanted[k]),
        forall|k: int|
            0 <= k < mentioned(message.metadata).len() ==> all_ascii(
                #[trigger] mentioned(message.metadata)[k],
            ),
    ensures
        forward_of(default_channel, routes, message) is Some <==> match routes[i].mentions {
            Some(wanted) => any_same(wanted, mentioned(message.metadata)),
            None => true,
        },
{
    crate::bridge::config::law_first_route_counts(
        routes,
        said_under(message.metadata, "chat_name"@),
        said_under(message.metadata, "chat_id"@),
    );
    assert(message_route(routes, message) == Some(i));
    if let Some(wanted) = routes[i].mentions {
        law_case_of_mentions_does_not_matter(wanted, mentioned(message.metadata));
    }
}

/// A message of a chat that no route is for is not handed on.
pub proof fn law_other_chats_are_left_alone(
    default_channel: Seq<char>,
    routes: Seq<RouteView>,
    message: InboundView,
)
    requires
        forall|k: int| 0 <= k < routes.len() ==> !is_for(#[trigger] routes[k], message),
    ensures
        forward_of(default_channel, routes, message) is None,
{
    crate::bridge::config::law_first_route_counts(
        routes,
        said_under(message.metadata, "chat_name"@),
        said_under(message.metadata, "chat_id"@),
    );
}

} // verus!
