//! What the bridge's configuration says, and which of its routes a chat takes.
use crate::text::{
    chars_of, is_listed, lower_ascii, option_text, same, same_letters, texts, with_new,
};
use vstd::prelude::*;
use vstd::string::*;

verus! {

/// Which thread a chat leads to.
#[derive(Debug)]
pub struct Route {
    /// The chat's name, in any case.
    pub chat_name: String,
    /// The chat's id, which counts where its name is not known.
    pub chat_id: Option<String>,
    /// The channel, where it is not the bridge's.
    pub channel: Option<String>,
    /// The thread.
    pub thread: String,
    /// Of whom one must be mentioned for a message to be handed on.
    pub mentions: Option<Vec<String>>,
}

/// What a [`Route`] holds.
#[verifier::ext_equal]
pub struct RouteView {
    /// The chat's name, in any case.
    pub chat_name: Seq<char>,
    /// The chat's id.
    pub chat_id: Option<Seq<char>>,
    /// The channel.
    pub channel: Option<Seq<char>>,
    /// The thread.
    pub thread: Seq<char>,
    /// Of whom one must be mentioned.
    pub mentions: Option<Seq<Seq<char>>>,
}

impl View for Route {
    type V = RouteView;

    open spec fn view(&self) -> RouteView {
        RouteView {
            chat_name: self.chat_name@,
            chat_id: option_text(self.chat_id),
            channel: option_text(self.channel),
            thread: self.thread@,
            mentions: match self.mentions {
                Some(names) => Some(texts(names@)),
                None => None,
            },
        }
    }
}

/// What a list of routes holds.
pub open spec fn routes_view(routes: Seq<Route>) -> Seq<RouteView> {
    routes.map_values(|route: Route| route@)
}

/// What the bridge's configuration says.
#[derive(Debug)]
pub struct BridgeConfig {
    /// The bridge's name.
    pub name: String,
    /// The channel of the routes that name none.
    pub channel: String,
    /// How the bridge is started.
    pub command: Option<Vec<String>>,
    /// The address of the agent.
    pub jyc_url: Option<String>,
    /// The platform's id of the bridge.
    pub app_id: String,
    /// The platform's secret for the bridge.
    pub app_secret: String,
    /// The platform's address.
    pub base_url: String,
    /// The chats that are served.
    pub routes: Vec<Route>,
}

/// The platform's address, where nothing else is set.
pub fn default_base_url() -> (r: String)
    ensures
        r@ == "https://open.feishu.cn"@,
{
    "https://open.feishu.cn".to_owned()
}

/// The lower-case letter of an upper-case letter from `A` to `Z`.
fn to_lower_ascii(c: char) -> (r: char)
    ensures
        r == lower_ascii(c),
{
    if 'A' <= c && c <= 'Z' {
        ((c as u8) + 32u8) as char
    } else {
        c
    }
}

/// Whether the texts differ in the case of the letters from A to Z alone.
pub fn equal_ignoring_case(a: &str, b: &str) -> (r: bool)
    ensures
        r == same_letters(a@, b@),
{
    let x = chars_of(a);
    let y = chars_of(b);
    if x.len() != y.len() {
        return false;
    }
    let mut i: usize = 0;
    while i < x.len()
        invariant
            x@ == a@,
            y@ == b@,
            x@.len() == y@.len(),
            i <= x@.len(),
            forall|k: int| 0 <= k < i ==> lower_ascii(#[trigger] a@[k]) == lower_ascii(b@[k]),
        decreases x@.len() - i,
    {
        if to_lower_ascii(x[i]) != to_lower_ascii(y[i]) {
            assert(lower_ascii(a@[i as int]) != lower_ascii(b@[i as int]));
            return false;
        }
        i += 1;
    }
    true
}

/// Whether the chat takes the route: by its name, or by its id.
pub open spec fn takes(route: RouteView, chat_name: Seq<char>, chat_id: Seq<char>) -> bool {
    same_letters(route.chat_name, chat_name) || route.chat_id == Some(chat_id)
}

/// The first route that the chat takes.
pub open spec fn route_of(
    routes: Seq<RouteView>,
    chat_name: Seq<char>,
    chat_id: Seq<char>,
) -> Option<int>
    decreases routes.len(),
{
    if routes.len() == 0 {
        None
    } else {
        match route_of(routes.drop_last(), chat_name, chat_id) {
            Some(i) => Some(i),
            None => if takes(routes.last(), chat_name, chat_id) {
                Some(routes.len() - 1)
            } else {
                None
            },
        }
    }
}

/// The channels that the routes name.
pub open spec fn named_channels(routes: Seq<RouteView>) -> Seq<Seq<char>>
    decreases routes.len(),
{
    if routes.len() == 0 {
        Seq::empty()
    } else {
        match routes.last().channel {
            Some(channel) => named_channels(routes.drop_last()).push(channel),
            None => named_channels(routes.drop_last()),
        }
    }
}

/// The channels that the bridge serves.
pub open spec fn served_channels(channel: Seq<char>, routes: Seq<RouteView>) -> Seq<Seq<char>> {
    with_new(seq![channel], named_channels(routes))
}

impl BridgeConfig {
    /// A configuration that sets what must be set, and nothing else.
    pub fn new(name: &str, app_id: &str, app_secret: &str) -> (r: BridgeConfig)
        ensures
            r.name@ == name@,
            r.channel@.len() == 0,
            r.command is None,
            r.jyc_url is None,
            r.app_id@ == app_id@,
            r.app_secret@ == app_secret@,
            r.base_url@ == "https://open.feishu.cn"@,
            r.routes@.len() == 0,
    {
        BridgeConfig {
            name: name.to_owned(),
            channel: String::new(),
            command: None,
            jyc_url: None,
            app_id: app_id.to_owned(),
            app_secret: app_secret.to_owned(),
            base_url: default_base_url(),
            routes: Vec::new(),
        }
    }

    /// The first route that the chat takes: by its name, in any case, or by its
    /// id.
    pub fn route(&self, chat_name: &str, chat_id: &str) -> (r: Option<&Route>)
        ensures
            match r {
                Some(route) => match route_of(routes_view(self.routes@), chat_name@, chat_id@) {
                    Some(i) => 0 <= i < self.routes@.len() && *route == self.routes@[i],
                    None => false,
                },
                None => route_of(routes_view(self.routes@), chat_name@, chat_id@) is None,
            },
    {
        let ghost views = routes_view(self.routes@);
        let mut i: usize = 0;
        while i < self.routes.len()
            invariant
                views == routes_view(self.routes@),
                i <= self.routes@.len(),
                route_of(views.take(i as int), chat_name@, chat_id@) is None,
            decreases self.routes@.len() - i,
        {
            proof {
                assert(views.take(i + 1).drop_last() =~= views.take(i as int));
                assert(views.take(i + 1).last() == self.routes@[i as int]@);
            }
            let route = &self.routes[i];
            let by_id: bool = match &route.chat_id {
                Some(id) => same(id.as_str(), chat_id),
                None => false,
            };
            if equal_ignoring_case(route.chat_name.as_str(), chat_name) || by_id {
                proof {
                    lemma_first_stays(views, i + 1, chat_name@, chat_id@);
                }
                return Some(route);
            }
            i += 1;
        }
        assert(views.take(self.routes@.len() as int) =~= views);
        None
    }

    /// The channels that the bridge serves: its own, and those that its routes
    /// name, each once.
    pub fn channels(&self) -> (r: Vec<String>)
        ensures
            texts(r@) == served_channels(self.channel@, routes_view(self.routes@)),
    {
        let ghost views = routes_view(self.routes@);
        let mut out: Vec<String> = Vec::new();
        out.push(self.channel.clone());
        assert(texts(out@) =~= seq![self.channel@]);
        let mut i: usize = 0;
        while i < self.routes.len()
            invariant
                views == routes_view(self.routes@),
                i <= self.routes@.len(),
                texts(out@) == served_channels(self.channel@, views.take(i as int)),
            decreases self.routes@.len() - i,
        {
            let ghost named = named_channels(views.take(i as int));
            proof {
                assert(views.take(i + 1).drop_last() =~= views.take(i as int));
                assert(views.take(i + 1).last() == self.routes@[i as int]@);
            }
            if let Some(channel) = &self.routes[i].channel {
                assert(named.push(channel@).drop_last() =~= named);
                if !is_listed(&out, channel.as_str()) {
                    let ghost before = texts(out@);
                    out.push(channel.clone());
                    assert(texts(out@) =~= before.push(channel@));
                }
            }
            i += 1;
        }
        assert(views.take(self.routes@.len() as int) =~= views);
        out
    }
}

/// What is found among the first routes is what is found among all.
proof fn lemma_first_stays(
    routes: Seq<RouteView>,
    n: int,
    chat_name: Seq<char>,
    chat_id: Seq<char>,
)
    requires
        0 <= n <= routes.len(),
        route_of(routes.take(n), chat_name, chat_id) is Some,
    ensures
        route_of(routes, chat_name, chat_id) == route_of(routes.take(n), chat_name, chat_id),
    decreases routes.len(),
{
    if n == routes.len() {
        assert(routes.take(n) =~= routes);
    } else {
        assert(routes.drop_last().take(n) =~= routes.take(n));
        lemma_first_stays(routes.drop_last(), n, chat_name, chat_id);
    }
}

/// The route that a chat takes is one that it takes, and no earlier one is.
pub proof fn law_first_route_counts(
    routes: Seq<RouteView>,
    chat_name: Seq<char>,
    chat_id: Seq<char>,
)
    ensures
        match route_of(routes, chat_name, chat_id) {
            Some(i) => {
                &&& 0 <= i < routes.len()
                &&& takes(routes[i], chat_name, chat_id)
                &&& forall|k: int| 0 <= k < i ==> !takes(#[trigger] routes[k], chat_name, chat_id)
            },
            None => forall|k: int|
                0 <= k < routes.len() ==> !takes(#[trigger] routes[k], chat_name, chat_id),
        },
    decreases routes.len(),
{
    if routes.len() > 0 {
        law_first_route_counts(routes.drop_last(), chat_name, chat_id);
        assert(forall|k: int|
            0 <= k < routes.len() - 1 ==> #[trigger] routes[k] == routes.drop_last()[k]);
    }
}

/// The case of the letters from A to Z in a chat's name does not matter.
pub proof fn law_case_does_not_matter(
    routes: Seq<RouteView>,
    a: Seq<char>,
    b: Seq<char>,
    chat_id: Seq<char>,
)
    requires
        same_letters(a, b),
    ensures
        route_of(routes, a, chat_id) == route_of(routes, b, chat_id),
    decreases routes.len(),
{
    if routes.len() > 0 {
        law_case_does_not_matter(routes.drop_last(), a, b, chat_id);
        let name = routes.last().chat_name;
        assert(same_letters(name, a) == same_letters(name, b)) by {
            if same_letters(name, a) {
                assert forall|i: int| 0 <= i < name.len() implies lower_ascii(#[trigger] name[i])
                    == lower_ascii(b[i]) by {
                    assert(lower_ascii(a[i]) == lower_ascii(b[i]));
                }
            }
            if same_letters(name, b) {
                assert forall|i: int| 0 <= i < name.len() implies lower_ascii(#[trigger] name[i])
                    == lower_ascii(a[i]) by {
                    assert(lower_ascii(a[i]) == lower_ascii(b[i]));
                }
            }
        }
    }
}

/// The bridge serves its own channel and those that its routes name, no other,
/// and none twice.
pub proof fn law_channels_are_those_named(
    channel: Seq<char>,
    routes: Seq<RouteView>,
    name: Seq<char>,
)
    ensures
        served_channels(channel, routes).contains(name) <==> name == channel || named_channels(
            routes,
        ).contains(name),
        served_channels(channel, routes).no_duplicates(),
{
    crate::service::tools::law_merged_names_are_those_of_both(
        seq![channel],
        named_channels(routes),
        name,
    );
    crate::service::tools::law_merging_adds_no_name_twice(seq![channel], named_channels(routes));
    assert(seq![channel][0] == channel);
}

/// The channels that the routes name are those of the routes that name one, in
/// the order of the routes.
pub proof fn law_routes_name_their_channels(routes: Seq<RouteView>)
    ensures
        named_channels(routes) == routes.filter_map(|route: RouteView| route.channel),
    decreases routes.len(),
{
    let named = |route: RouteView| route.channel;
    if routes.len() > 0 {
        let rest = routes.drop_last();
        law_routes_name_their_channels(rest);
        if let Some(channel) = routes.last().channel {
            assert(rest.filter_map(named).push(channel) =~= rest.filter_map(named) + seq![channel]);
        }
    } else {
        assert(named_channels(routes) =~= routes.filter_map(named));
    }
}

/// A chat takes a route by its name, in any case of the letters from A to Z, or
/// by its id, letter for letter, and by nothing else.
pub proof fn law_chats_take_routes_by_name_or_id(
    route: RouteView,
    chat_name: Seq<char>,
    chat_id: Seq<char>,
)
    ensures
        route.chat_name == chat_name ==> takes(route, chat_name, chat_id),
        route.chat_id == Some(chat_id) ==> takes(route, chat_name, chat_id),
        route.chat_name.len() != chat_name.len() && route.chat_id != Some(chat_id) ==> !takes(
            route,
            chat_name,
            chat_id,
        ),
        takes(route, chat_name, chat_id) && route.chat_id != Some(chat_id) ==> forall|i: int|
            0 <= i < chat_name.len() ==> crate::text::same_letter(
                route.chat_name[i],
                #[trigger] chat_name[i],
            ),
{
    if takes(route, chat_name, chat_id) && route.chat_id != Some(chat_id) {
        crate::text::law_letters_in_any_case(route.chat_name, chat_name);
    }
}

} // verus!
