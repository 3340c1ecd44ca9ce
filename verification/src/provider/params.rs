//! Extra request parameters out of the configuration.
use crate::json::{
    Json, JsonView, fields_map, fields_view, items_view, lemma_array_view, lemma_object_view,
    option_view,
};
use crate::text::{
    after, lemma_find_is, lemma_find_none, mentions, occurs_at, replace_all, replaced,
};
use vstd::prelude::*;
use vstd::string::*;

verus! {

/// The object `base` with every field of the object `overlay` set in it; `base`
/// as it is where one of the two is no object.
pub open spec fn overlaid(base: JsonView, overlay: JsonView) -> JsonView {
    match (base, overlay) {
        (JsonView::Object(lower), JsonView::Object(upper)) => JsonView::Object(
            lower.union_prefer_right(upper),
        ),
        _ => base,
    }
}

/// The object `base` with every field of the object `overlay` set in it.
fn overlay_fields(base: Json, overlay: &Json) -> (r: Json)
    ensures
        r@ == overlaid(base@, overlay@),
{
    broadcast use lemma_object_view;
    match overlay {
        Json::Object(fields) => {
            let ghost views = fields_view(fields@);
            let ghost start = base@;
            let mut out = base;
            let mut i: usize = fields.len();
            proof {
                assert(views.subrange(i as int, views.len() as int) =~= Seq::empty());
                if let JsonView::Object(lower) = start {
                    assert(lower.union_prefer_right(Map::empty()) =~= lower);
                }
            }
            while i > 0
                invariant
                    views == fields_view(fields@),
                    i <= fields@.len(),
                    out@ == overlaid(
                        start,
                        JsonView::Object(fields_map(views.subrange(i as int, views.len() as int))),
                    ),
                decreases i,
            {
                let ghost rest = views.subrange(i as int, views.len() as int);
                i -= 1;
                let ghost longer = views.subrange(i as int, views.len() as int);
                proof {
                    assert(longer.drop_first() =~= rest);
                    assert(longer[0] == views[i as int]);
                    if let JsonView::Object(lower) = start {
                        assert(lower.union_prefer_right(fields_map(longer))
                            =~= lower.union_prefer_right(fields_map(rest)).insert(
                            longer[0].0,
                            longer[0].1,
                        ));
                    }
                }
                out = out.with(fields[i].0.as_str(), fields[i].1.clone());
            }
            assert(views.subrange(0, views.len() as int) =~= views);
            out
        },
        _ => base,
    }
}

/// Sets the extra parameters in a request body; they override what is there.
pub fn merge_params(body: &mut Json, params: &Option<Json>)
    ensures
        final(body)@ == match *params {
            Some(params) => overlaid(old(body)@, params@),
            None => old(body)@,
        },
{
    if let Some(params) = params {
        let mut base = Json::Null;
        std::mem::swap(body, &mut base);
        *body = overlay_fields(base, params);
    }
}

/// The parameters of a provider with those of a model set in them.
pub open spec fn resolved_params(provider: Option<JsonView>, model: Option<JsonView>) -> Option<
    JsonView,
> {
    match (provider, model) {
        (Some(provider), Some(model)) => Some(overlaid(provider, model)),
        (Some(provider), None) => Some(provider),
        (None, model) => model,
    }
}

/// What an optional document holds.
pub open spec fn params_view(params: Option<Json>) -> Option<JsonView> {
    match params {
        Some(params) => Some(params@),
        None => None,
    }
}

/// The parameters of a provider with those of a model set in them.
pub fn resolve_params(provider_params: Option<&Json>, model_params: Option<&Json>) -> (r: Option<
    Json,
>)
    ensures
        params_view(r) == resolved_params(option_view(provider_params), option_view(model_params)),
{
    match (provider_params, model_params) {
        (None, None) => None,
        (Some(provider), None) => Some(provider.clone()),
        (None, Some(model)) => Some(model.clone()),
        (Some(provider), Some(model)) => Some(overlay_fields(provider.clone(), model)),
    }
}

/// A text with its placeholders `{channel}` and `{topic}` filled in.
pub open spec fn filled_text(s: Seq<char>, channel: Seq<char>, topic: Seq<char>) -> Seq<char> {
    replaced(replaced(s, "{channel}"@, channel), "{topic}"@, topic)
}

/// A document with the placeholders filled in in every string of it. The names
/// of fields stay as they are.
pub open spec fn filled(json: JsonView, channel: Seq<char>, topic: Seq<char>) -> JsonView
    decreases json,
{
    match json {
        JsonView::Text(s) => JsonView::Text(filled_text(s, channel, topic)),
        JsonView::Array(items) => JsonView::Array(
            Seq::new(
                items.len(),
                |i: int|
                    if 0 <= i < items.len() {
                        filled(items[i], channel, topic)
                    } else {
                        JsonView::Null
                    },
            ),
        ),
        JsonView::Object(fields) => JsonView::Object(
            Map::new(
                |name: Seq<char>| fields.dom().contains(name),
                |name: Seq<char>|
                    if fields.dom().contains(name) {
                        filled(fields[name], channel, topic)
                    } else {
                        JsonView::Null
                    },
            ),
        ),
        other => other,
    }
}

/// The fields with the placeholders filled in in their values.
pub open spec fn filled_fields(
    fields: Seq<(Seq<char>, JsonView)>,
    channel: Seq<char>,
    topic: Seq<char>,
) -> Seq<(Seq<char>, JsonView)> {
    fields.map_values(|field: (Seq<char>, JsonView)| (field.0, filled(field.1, channel, topic)))
}

proof fn lemma_filled_fields(
    fields: Seq<(Seq<char>, JsonView)>,
    channel: Seq<char>,
    topic: Seq<char>,
)
    ensures
        filled(JsonView::Object(fields_map(fields)), channel, topic) == JsonView::Object(
            fields_map(filled_fields(fields, channel, topic)),
        ),
    decreases fields.len(),
{
    let whole = filled(JsonView::Object(fields_map(fields)), channel, topic)->Object_0;
    if fields.len() == 0 {
        assert(whole =~= Map::empty());
        assert(filled_fields(fields, channel, topic) =~= Seq::empty());
    } else {
        let rest = fields.drop_first();
        lemma_filled_fields(rest, channel, topic);
        let part = filled(JsonView::Object(fields_map(rest)), channel, topic)->Object_0;
        assert(filled_fields(fields, channel, topic).drop_first() =~= filled_fields(
            rest,
            channel,
            topic,
        ));
        assert(whole =~= part.insert(fields[0].0, filled(fields[0].1, channel, topic)));
    }
}

/// The document with the placeholders filled in.
pub fn fill_placeholders(json: &Json, channel: &str, topic: &str) -> (r: Json)
    ensures
        r@ == filled(json@, channel@, topic@),
    decreases json,
{
    broadcast use {lemma_array_view, lemma_object_view};
    match json {
        Json::Text(s) => {
            proof {
                reveal_strlit("{channel}");
                reveal_strlit("{topic}");
            }
            Json::Text(
                replace_all(
                    replace_all(s.as_str(), "{channel}", channel).as_str(),
                    "{topic}",
                    topic,
                ),
            )
        },
        Json::Array(items) => {
            let ghost views = items_view(items@);
            let mut out: Vec<Json> = Vec::new();
            let mut i: usize = 0;
            while i < items.len()
                invariant
                    *json == Json::Array(*items),
                    views == items_view(items@),
                    i <= items@.len(),
                    out@.len() == i,
                    forall|k: int|
                        0 <= k < out@.len() ==> #[trigger] out@[k]@ == filled(
                            views[k],
                            channel@,
                            topic@,
                        ),
                decreases items@.len() - i,
            {
                assert(decreases_to!(*json => json->Array_0));
                assert(decreases_to!(items@ => items@[i as int]));
                out.push(fill_placeholders(&items[i], channel, topic));
                i += 1;
            }
            assert(items_view(out@) =~= filled(json@, channel@, topic@)->Array_0);
            Json::Array(out)
        },
        Json::Object(fields) => {
            let ghost views = fields_view(fields@);
            let mut out: Vec<(String, Json)> = Vec::new();
            let mut i: usize = 0;
            while i < fields.len()
                invariant
                    *json == Json::Object(*fields),
                    views == fields_view(fields@),
                    i <= fields@.len(),
                    out@.len() == i,
                    forall|k: int|
                        0 <= k < out@.len() ==> (#[trigger] out@[k]).0@ == views[k].0 && out@[k].1@
                            == filled(views[k].1, channel@, topic@),
                decreases fields@.len() - i,
            {
                assert(decreases_to!(*json => json->Object_0));
                assert(decreases_to!(fields@ => fields@[i as int]));
                assert(decreases_to!(fields@[i as int] => fields@[i as int].1));
                let inner = fill_placeholders(&fields[i].1, channel, topic);
                out.push((fields[i].0.clone(), inner));
                i += 1;
            }
            proof {
                assert(fields_view(out@) =~= filled_fields(views, channel@, topic@));
                lemma_filled_fields(views, channel@, topic@);
            }
            Json::Object(out)
        },
        other => other.clone(),
    }
}

/// The extra parameters win over what the body holds, and every other field of
/// the body stays.
pub proof fn law_params_override(
    body: Map<Seq<char>, JsonView>,
    params: Map<Seq<char>, JsonView>,
    name: Seq<char>,
)
    ensures
        overlaid(JsonView::Object(body), JsonView::Object(params)).field(name) == if params.dom().contains(
            name,
        ) {
            Some(params[name])
        } else {
            JsonView::Object(body).field(name)
        },
{
}

/// Setting the same parameters twice is the same as setting them once.
pub proof fn law_params_idempotent(body: JsonView, params: JsonView)
    ensures
        overlaid(overlaid(body, params), params) == overlaid(body, params),
{
    if let (JsonView::Object(lower), JsonView::Object(upper)) = (body, params) {
        assert(lower.union_prefer_right(upper).union_prefer_right(upper)
            =~= lower.union_prefer_right(upper));
    }
}

/// Whether no string of the document holds a placeholder.
pub open spec fn has_no_placeholder(json: JsonView) -> bool
    decreases json,
{
    match json {
        JsonView::Text(s) => !mentions(s, "{channel}"@) && !mentions(s, "{topic}"@),
        JsonView::Array(items) => forall|i: int|
            0 <= i < items.len() ==> has_no_placeholder(#[trigger] items[i]),
        JsonView::Object(fields) => forall|name: Seq<char>|
            fields.dom().contains(name) ==> has_no_placeholder(#[trigger] fields[name]),
        _ => true,
    }
}

/// A document without placeholders stays as it is.
pub proof fn law_plain_params_stay(json: JsonView, channel: Seq<char>, topic: Seq<char>)
    requires
        has_no_placeholder(json),
    ensures
        filled(json, channel, topic) == json,
    decreases json,
{
    match json {
        JsonView::Array(items) => {
            assert forall|i: int| 0 <= i < items.len() implies filled(
                #[trigger] items[i],
                channel,
                topic,
            ) == items[i] by {
                law_plain_params_stay(items[i], channel, topic);
            }
            assert(filled(json, channel, topic)->Array_0 =~= items);
        },
        JsonView::Object(fields) => {
            assert forall|name: Seq<char>| fields.dom().contains(name) implies filled(
                #[trigger] fields[name],
                channel,
                topic,
            ) == fields[name] by {
                law_plain_params_stay(fields[name], channel, topic);
            }
            assert(filled(json, channel, topic)->Object_0 =~= fields);
        },
        _ => {},
    }
}

/// What is set for a model wins over what is set for its provider, field by
/// field; where only one of both sets anything, that counts as it is.
pub proof fn law_model_params_win(provider: JsonView, model: JsonView, name: Seq<char>)
    ensures
        resolved_params(None, None) is None,
        resolved_params(Some(provider), None) == Some(provider),
        resolved_params(None, Some(model)) == Some(model),
        provider is Object && model is Object ==> (resolved_params(Some(provider), Some(model))
            matches Some(params) && params.field(name) == if model.field(name) is Some {
            model.field(name)
        } else {
            provider.field(name)
        }),
{
}

/// Placeholders are filled in wherever a text holds them, and in texts alone:
/// numbers, truth values and the names of fields stay, and nothing is added or
/// left out.
pub proof fn law_placeholders_are_filled_in(
    json: JsonView,
    channel: Seq<char>,
    topic: Seq<char>,
    name: Seq<char>,
    i: int,
)
    ensures
        json is Null || json is Bool || json is Number ==> filled(json, channel, topic) == json,
        json matches JsonView::Text(text) ==> filled(json, channel, topic) == JsonView::Text(
            filled_text(text, channel, topic),
        ),
        json matches JsonView::Array(items) ==> (filled(json, channel, topic) matches
            JsonView::Array(out) && out.len() == items.len() && (0 <= i < items.len() ==> out[i]
            == filled(items[i], channel, topic))),
        json is Object ==> filled(json, channel, topic).field(name) == match json.field(name) {
            Some(value) => Some(filled(value, channel, topic)),
            None => None,
        },
{
}

/// The placeholder of the channel becomes the channel and that of the topic the
/// topic, each where it stands, with the text around it as it was. The texts
/// here hold no brace.
pub proof fn law_placeholder_becomes_its_value(
    before: Seq<char>,
    behind: Seq<char>,
    channel: Seq<char>,
    topic: Seq<char>,
)
    requires
        forall|i: int| 0 <= i < before.len() ==> #[trigger] before[i] != '{',
        forall|i: int| 0 <= i < behind.len() ==> #[trigger] behind[i] != '{',
        forall|i: int| 0 <= i < channel.len() ==> #[trigger] channel[i] != '{',
    ensures
        filled_text(before + "{channel}"@ + behind, channel, topic) == before + channel + behind,
        filled_text(before + "{topic}"@ + behind, channel, topic) == before + topic + behind,
{
    reveal_strlit("{channel}");
    reveal_strlit("{topic}");
    let c = "{channel}"@;
    let t = "{topic}"@;
    lemma_one_placeholder(before, c, behind, channel);
    let out = before + channel + behind;
    assert forall|i: int| 0 <= i < out.len() implies #[trigger] out[i] != '{' by {
        let head = before + channel;
        if i < before.len() {
            assert(out[i] == before[i]);
        } else if i < head.len() {
            assert(out[i] == channel[i - before.len()]);
        } else {
            assert(out[i] == behind[i - head.len()]);
        }
    }
    lemma_no_placeholder(out, t, topic);
    let named = before + t + behind;
    assert forall|j: int| 0 <= j implies !#[trigger] occurs_at(named, c, j) by {
        if occurs_at(named, c, j) {
            let found = named.subrange(j, j + c.len());
            assert(found[0] == named[j] && found[1] == named[j + 1]);
            if j < before.len() {
                assert(named[j] == before[j]);
            } else if j < before.len() + t.len() {
                assert(named[j] == t[j - before.len()]);
                assert(j == before.len());
                assert(named[j + 1] == t[1]);
            } else {
                assert(named[j] == behind[j - before.len() - t.len()]);
            }
        }
    }
    lemma_find_none(named, c, 0);
    lemma_one_placeholder(before, t, behind, topic);
}

proof fn lemma_no_placeholder(text: Seq<char>, mark: Seq<char>, value: Seq<char>)
    requires
        mark.len() > 0,
        mark[0] == '{',
        forall|i: int| 0 <= i < text.len() ==> #[trigger] text[i] != '{',
    ensures
        replaced(text, mark, value) == text,
{
    assert forall|j: int| 0 <= j implies !#[trigger] occurs_at(text, mark, j) by {
        if occurs_at(text, mark, j) {
            assert(text.subrange(j, j + mark.len())[0] == text[j]);
        }
    }
    lemma_find_none(text, mark, 0);
}

proof fn lemma_one_placeholder(
    before: Seq<char>,
    mark: Seq<char>,
    behind: Seq<char>,
    value: Seq<char>,
)
    requires
        mark.len() > 0,
        mark[0] == '{',
        forall|i: int| 0 <= i < before.len() ==> #[trigger] before[i] != '{',
        forall|i: int| 0 <= i < behind.len() ==> #[trigger] behind[i] != '{',
    ensures
        replaced(before + mark + behind, mark, value) == before + value + behind,
{
    let all = before + mark + behind;
    let n = before.len() as int;
    assert(all.subrange(n, n + mark.len()) =~= mark);
    assert(occurs_at(all, mark, n));
    assert forall|j: int| 0 <= j < n implies !#[trigger] occurs_at(all, mark, j) by {
        if occurs_at(all, mark, j) {
            assert(all.subrange(j, j + mark.len())[0] == all[j]);
            assert(all[j] == before[j]);
        }
    }
    lemma_find_is(all, mark, 0, n);
    assert(all.take(n) =~= before);
    assert(after(all, n + mark.len()) =~= behind);
    lemma_no_placeholder(behind, mark, value);
}

} // verus!
