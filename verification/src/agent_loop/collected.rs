//! What the events of a stream come to as an answer, and which answers are
//! taken.
use crate::agent_loop::response::{
    after_event, all_empty, all_more, answer_message, closed_call, has_nameless_call, is_broken,
    is_empty_call, leaks_beside_calls, leaks_call, nothing_collected, times, told_from,
    CollectorView, ResponseView, ToolCallView,
};
use crate::json::{text_as_json, JsonView};
use crate::provider::anthropic_events::{calls_begun, input_of};
use crate::provider::openai_compat::{reasoning_of, text_of};
use crate::text::{
    after, all_white, begins, find, is_white, lemma_find_from, mentions, occurs_at, trim,
    trim_start,
};
use crate::types::{BlockView, EventView, Role};
use vstd::prelude::*;
use vstd::string::*;

verus! {

/// What has come in once the events have, one after the other.
pub open spec fn collected(events: Seq<EventView>, state: CollectorView) -> CollectorView
    decreases events.len(),
{
    if events.len() == 0 {
        state
    } else {
        after_event(collected(events.drop_last(), state), events.last())
    }
}

/// The events among the items.
pub open spec fn events_in(items: Seq<Result<EventView, Seq<char>>>) -> Seq<EventView> {
    items.map_values(|item: Result<EventView, Seq<char>>| item->Ok_0)
}

/// The ids and names of tool calls.
pub open spec fn heads(calls: Seq<ToolCallView>) -> Seq<(Seq<char>, Seq<char>)> {
    calls.map_values(|call: ToolCallView| (call.id, call.name))
}

/// The answer tokens that the events count.
pub open spec fn output_counted(events: Seq<EventView>) -> nat
    decreases events.len(),
{
    if events.len() == 0 {
        0
    } else {
        output_counted(events.drop_last()) + match events.last() {
            EventView::Usage { output_tokens, .. } => output_tokens as nat,
            _ => 0,
        }
    }
}

/// The reasoning tokens that the events count.
pub open spec fn reasoning_counted(events: Seq<EventView>) -> nat
    decreases events.len(),
{
    if events.len() == 0 {
        0
    } else {
        reasoning_counted(events.drop_last()) + match events.last() {
            EventView::Usage { reasoning_tokens, .. } => reasoning_tokens as nat,
            _ => 0,
        }
    }
}

proof fn lemma_collected(events: Seq<EventView>)
    ensures
        ({
            let state = collected(events, nothing_collected());
            &&& state.response.text == text_of(events)
            &&& state.response.reasoning == reasoning_of(events)
            &&& heads(closed_call(state).response.calls) == calls_begun(events)
            &&& state.response.output_tokens == output_counted(events)
            &&& state.response.reasoning_tokens == reasoning_counted(events)
        }),
    decreases events.len(),
{
    let started = |event: EventView|
        match event {
            EventView::ToolUseStart { id, name } => Some((id, name)),
            _ => None,
        };
    let state = collected(events, nothing_collected());
    if events.len() == 0 {
        assert(heads(closed_call(state).response.calls) =~= calls_begun(events));
    } else {
        let rest = events.drop_last();
        lemma_collected(rest);
        let before = collected(rest, nothing_collected());
        let none = Seq::<char>::empty();
        assert(before.response.text + none =~= before.response.text);
        assert(before.response.reasoning + none =~= before.response.reasoning);
        let closed = closed_call(before).response.calls;
        match events.last() {
            EventView::ToolUseStart { id, name } => {
                let call = ToolCallView { id, name, arguments: state.arguments };
                assert(closed_call(state).response.calls =~= closed.push(call));
                assert(heads(closed.push(call)) =~= heads(closed) + seq![(id, name)]);
            },
            EventView::ToolInputDelta(text) => {
                if let Some((id, name)) = before.open_call {
                    let old_call = ToolCallView { id, name, arguments: before.arguments };
                    let call = ToolCallView { id, name, arguments: state.arguments };
                    assert(heads(before.response.calls.push(call)) =~= heads(
                        before.response.calls,
                    ).push((id, name)));
                    assert(heads(before.response.calls.push(old_call)) =~= heads(
                        before.response.calls,
                    ).push((id, name)));
                }
            },
            _ => {},
        }
    }
}

proof fn lemma_told_from(
    items: Seq<Result<EventView, Seq<char>>>,
    i: int,
    n: int,
)
    requires
        0 <= i <= n < items.len(),
        all_more(items, n),
        items[n] == Ok::<EventView, Seq<char>>(EventView::Done),
    ensures
        told_from(items, i, collected(events_in(items.take(i)), nothing_collected())) == Ok::<
            ResponseView,
            Seq<char>,
        >(closed_call(collected(events_in(items.take(n)), nothing_collected())).response),
    decreases n - i,
{
    if i < n {
        lemma_told_from(items, i + 1, n);
        let next = events_in(items.take(i + 1));
        assert(items[i] is Ok);
        assert(next.drop_last() =~= events_in(items.take(i)));
        assert(next.last() == items[i]->Ok_0);
        assert(items[i] == Ok::<EventView, Seq<char>>(items[i]->Ok_0));
    }
}

/// The answer of a stream that completes is all that the stream has told before:
/// the joined texts, the joined reasoning, a tool call for each that began, in
/// order and under its id and name, and the sums of the tokens of the answer.
pub proof fn law_answer_is_all_that_was_told(items: Seq<Result<EventView, Seq<char>>>, n: int)
    requires
        0 <= n < items.len(),
        all_more(items, n),
        items[n] == Ok::<EventView, Seq<char>>(EventView::Done),
    ensures
        ({
            let events = events_in(items.take(n));
            match told_from(items, 0, nothing_collected()) {
                Ok(response) => {
                    &&& response.text == text_of(events)
                    &&& response.reasoning == reasoning_of(events)
                    &&& heads(response.calls) == calls_begun(events)
                    &&& response.output_tokens == output_counted(events)
                    &&& response.reasoning_tokens == reasoning_counted(events)
                },
                Err(_) => false,
            }
        }),
{
    lemma_told_from(items, 0, n);
    assert(events_in(items.take(0)) =~= Seq::<EventView>::empty());
    lemma_collected(events_in(items.take(n)));
}

/// The first error in a stream is the answer's error, whatever came before it:
/// that of the stream in its own words, that of the provider named as such.
pub proof fn law_first_error_is_told(
    items: Seq<Result<EventView, Seq<char>>>,
    n: int,
    state: CollectorView,
)
    requires
        0 <= n < items.len(),
        all_more(items, n),
        items[n] matches Ok(event) ==> event is Error,
    ensures
        told_from(items, 0, state) == Err::<ResponseView, Seq<char>>(
            match items[n] {
                Ok(event) => "LLM error: "@ + event->Error_0,
                Err(text) => text,
            },
        ),
{
    lemma_first_error(items, 0, n, state);
}

proof fn lemma_first_error(
    items: Seq<Result<EventView, Seq<char>>>,
    i: int,
    n: int,
    state: CollectorView,
)
    requires
        0 <= i <= n < items.len(),
        all_more(items, n),
        items[n] matches Ok(event) ==> event is Error,
    ensures
        told_from(items, i, state) == Err::<ResponseView, Seq<char>>(
            match items[n] {
                Ok(event) => "LLM error: "@ + event->Error_0,
                Err(text) => text,
            },
        ),
    decreases n - i,
{
    if i < n {
        assert(items[i] is Ok);
        lemma_first_error(items, i + 1, n, after_event(state, items[i]->Ok_0));
    }
}

/// Whether no tool call begins or ends with the events.
pub open spec fn within_call(events: Seq<EventView>) -> bool {
    forall|i: int|
        0 <= i < events.len() ==> !((#[trigger] events[i]) is ToolUseStart)
            && !(events[i] is ToolUseEnd)
}

proof fn lemma_within_call(events: Seq<EventView>, state: CollectorView)
    requires
        within_call(events),
    ensures
        ({
            let end = collected(events, state);
            &&& end.arguments == state.arguments + input_of(events)
            &&& end.open_call == state.open_call
            &&& end.response.calls == state.response.calls
        }),
    decreases events.len(),
{
    let none = Seq::<char>::empty();
    if events.len() == 0 {
        assert(state.arguments + none =~= state.arguments);
    } else {
        let rest = events.drop_last();
        assert(forall|i: int| 0 <= i < rest.len() ==> rest[i] == events[i]);
        lemma_within_call(rest, state);
        let last = events.last();
        assert(events[events.len() - 1] == last);
        assert(state.arguments + input_of(rest) + none =~= state.arguments + input_of(rest));
        assert(input_of(rest) + none =~= input_of(rest));
        if let EventView::ToolInputDelta(text) = last {
            assert(state.arguments + input_of(rest) + text =~= state.arguments + (input_of(rest)
                + text));
        }
    }
}

/// A tool call has the id and the name with which it began, and for arguments
/// all pieces of them that came from there to its end, joined: whatever else
/// came between, and whether it is ended by its own end, by the next call or by
/// the end of the answer.
pub proof fn law_call_has_its_arguments(
    state: CollectorView,
    id: Seq<char>,
    name: Seq<char>,
    events: Seq<EventView>,
    next_id: Seq<char>,
    next_name: Seq<char>,
)
    requires
        state.open_call is None,
        state.arguments.len() == 0,
        within_call(events),
    ensures
        ({
            let open = collected(events, after_event(state, EventView::ToolUseStart { id, name }));
            let call = ToolCallView { id, name, arguments: input_of(events) };
            let calls = state.response.calls.push(call);
            &&& after_event(open, EventView::ToolUseEnd).response.calls == calls
            &&& after_event(open, EventView::ToolUseEnd).open_call is None
            &&& after_event(open, EventView::ToolUseEnd).arguments.len() == 0
            &&& after_event(
                open,
                EventView::ToolUseStart { id: next_id, name: next_name },
            ).response.calls == calls
            &&& after_event(
                open,
                EventView::ToolUseStart { id: next_id, name: next_name },
            ).arguments.len() == 0
            &&& closed_call(open).response.calls == calls
        }),
{
    let begun = after_event(state, EventView::ToolUseStart { id, name });
    lemma_within_call(events, begun);
    assert(begun.arguments =~= Seq::<char>::empty());
    assert(begun.arguments + input_of(events) =~= input_of(events));
}

/// The counts of the prompt are those that were told last.
pub proof fn law_last_counts_are_kept(events: Seq<EventView>, usage: EventView, more: Seq<EventView>)
    requires
        usage is Usage,
        forall|i: int| 0 <= i < more.len() ==> !((#[trigger] more[i]) is Usage),
    ensures
        ({
            let response = collected(events.push(usage) + more, nothing_collected()).response;
            usage matches EventView::Usage {
                input_tokens,
                cache_hit_tokens,
                cache_creation_tokens,
                ..
            } ==> {
                &&& response.input_tokens == input_tokens
                &&& response.cache_hit_tokens == cache_hit_tokens
                &&& response.cache_creation_tokens == cache_creation_tokens
            }
        }),
    decreases more.len(),
{
    let all = events.push(usage) + more;
    if more.len() == 0 {
        assert(all =~= events.push(usage));
        assert(all.drop_last() =~= events);
        assert(all.last() == usage);
    } else {
        let rest = more.drop_last();
        assert(forall|i: int| 0 <= i < rest.len() ==> rest[i] == more[i]);
        law_last_counts_are_kept(events, usage, rest);
        assert(all.drop_last() =~= events.push(usage) + rest);
        assert(all.last() == more[more.len() - 1]);
    }
}

/// An answer as a message is the model's, with its text first, where there is
/// any, and behind it every tool call, in order, with its arguments read.
pub proof fn law_answer_becomes_a_message(response: ResponseView)
    ensures
        ({
            let message = answer_message(response);
            let first: int = if response.text.len() > 0 {
                1
            } else {
                0
            };
            &&& message.role == Role::Assistant
            &&& message.content.len() == first + response.calls.len()
            &&& first == 1 ==> message.content[0] == (BlockView::Text { text: response.text })
            &&& forall|i: int|
                #![trigger response.calls[i]]
                0 <= i < response.calls.len() ==> message.content[first + i]
                    == (BlockView::ToolUse {
                    id: response.calls[i].id,
                    name: response.calls[i].name,
                    input: match text_as_json(response.calls[i].arguments) {
                        Some(input) => input,
                        None => JsonView::Object(Map::empty()),
                    },
                })
        }),
{
}

/// An answer without tool calls is refused where its text begins with the
/// syntax of a call, white space aside, and only there: not where the syntax is
/// quoted further on.
pub proof fn law_written_out_call_is_refused(white: Seq<char>, text: Seq<char>)
    requires
        all_white(white),
    ensures
        leaks_call(white + text) == leaks_call(text),
        text.len() > 0 && text[0] != '<' && !is_white(text[0]) ==> !leaks_call(text),
        leaks_call("<call tool="@ + text),
        leaks_call("<parameter name="@ + text),
        leaks_call("<argument key="@ + text),
        leaks_call("</call>"@ + text),
        leaks_call("<tool_call>"@ + text),
        leaks_call("<invoke"@ + text),
        leaks_call("<response tools="@ + text),
{
    lemma_white_before(white, text);
    lemma_begins_with("<call tool="@, text);
    lemma_begins_with("<parameter name="@, text);
    lemma_begins_with("<argument key="@, text);
    lemma_begins_with("</call>"@, text);
    lemma_begins_with("<tool_call>"@, text);
    lemma_begins_with("<invoke"@, text);
    lemma_begins_with("<response tools="@, text);
    reveal_strlit("<call tool=");
    reveal_strlit("<parameter name=");
    reveal_strlit("<argument key=");
    reveal_strlit("</call>");
    reveal_strlit("<tool_call>");
    reveal_strlit("<invoke");
    reveal_strlit("<response tools=");
    if text.len() > 0 && text[0] != '<' && !is_white(text[0]) {
        assert(trim_start(text) == text);
        lemma_first_character(text, "<call tool="@);
        lemma_first_character(text, "<parameter name="@);
        lemma_first_character(text, "<argument key="@);
        lemma_first_character(text, "</call>"@);
        lemma_first_character(text, "<tool_call>"@);
        lemma_first_character(text, "<invoke"@);
        lemma_first_character(text, "<response tools="@);
    }
}

proof fn lemma_first_character(text: Seq<char>, mark: Seq<char>)
    requires
        mark.len() > 0,
    ensures
        begins(text, mark) ==> text[0] == mark[0],
{
    if begins(text, mark) {
        assert(text.subrange(0, mark.len() as int)[0] == text[0]);
    }
}

proof fn lemma_white_before(white: Seq<char>, text: Seq<char>)
    requires
        all_white(white),
    ensures
        trim_start(white + text) == trim_start(text),
    decreases white.len(),
{
    if white.len() == 0 {
        assert(white + text =~= text);
    } else {
        let rest = white.drop_first();
        assert(forall|i: int| 0 <= i < rest.len() ==> rest[i] == white[i + 1]);
        lemma_white_before(rest, text);
        assert((white + text)[0] == white[0]);
        assert((white + text).drop_first() =~= rest + text);
    }
}

proof fn lemma_begins_with(mark: Seq<char>, text: Seq<char>)
    ensures
        mark.len() > 0 && mark[0] == '<' ==> begins(trim_start(mark + text), mark),
{
    let all = mark + text;
    if mark.len() > 0 && mark[0] == '<' {
        assert(all[0] == '<');
        assert(trim_start(all) == all);
        assert(all.subrange(0, mark.len() as int) =~= mark);
    }
}

proof fn lemma_stands_in(before: Seq<char>, mark: Seq<char>, behind: Seq<char>)
    ensures
        mentions(before + mark + behind, mark),
{
    let all = before + mark + behind;
    let n = before.len() as int;
    assert(all.subrange(n, n + mark.len()) =~= mark);
    assert(occurs_at(all, mark, before.len() as int));
    lemma_find_from(all, mark, 0);
}

/// An answer with tool calls is refused where the end of a written-out call
/// stands anywhere in its text. Text without an angle is never refused, with
/// calls or without.
pub proof fn law_rest_of_a_call_is_refused(before: Seq<char>, behind: Seq<char>)
    ensures
        leaks_beside_calls(before + "</call>"@ + behind),
        leaks_beside_calls(before + "</parameter>"@ + behind),
        leaks_beside_calls(before + "</argument>"@ + behind),
        leaks_beside_calls(before + "</tool_call>"@ + behind),
        leaks_beside_calls(before + "</invoke>"@ + behind),
        leaks_beside_calls(before + "</response_tools>"@ + behind),
        (forall|i: int| 0 <= i < before.len() ==> #[trigger] before[i] != '<')
            ==> !leaks_beside_calls(before) && !leaks_call(before),
{
    lemma_stands_in(before, "</call>"@, behind);
    lemma_stands_in(before, "</parameter>"@, behind);
    lemma_stands_in(before, "</argument>"@, behind);
    lemma_stands_in(before, "</tool_call>"@, behind);
    lemma_stands_in(before, "</invoke>"@, behind);
    lemma_stands_in(before, "</response_tools>"@, behind);
    if forall|i: int| 0 <= i < before.len() ==> #[trigger] before[i] != '<' {
        reveal_strlit("</call>");
        reveal_strlit("</parameter>");
        reveal_strlit("</argument>");
        reveal_strlit("</tool_call>");
        reveal_strlit("</invoke>");
        reveal_strlit("</response_tools>");
        reveal_strlit("<call tool=");
        reveal_strlit("<parameter name=");
        reveal_strlit("<argument key=");
        reveal_strlit("<tool_call>");
        reveal_strlit("<invoke");
        reveal_strlit("<response tools=");
        reveal_strlit("<response_tools>");
        lemma_no_angle(before, "</call>"@);
        lemma_no_angle(before, "</parameter>"@);
        lemma_no_angle(before, "</argument>"@);
        lemma_no_angle(before, "</tool_call>"@);
        lemma_no_angle(before, "</invoke>"@);
        lemma_no_angle(before, "</response_tools>"@);
        lemma_no_angle(before, "<call tool="@);
        lemma_no_angle(before, "<parameter name="@);
        lemma_no_angle(before, "<argument key="@);
        lemma_no_angle(before, "<tool_call>"@);
        lemma_no_angle(before, "<invoke"@);
        lemma_no_angle(before, "<response tools="@);
        lemma_no_angle(before, "<response_tools>"@);
        let start = trim_start(before);
        lemma_trim_start_part(before);
        lemma_no_angle(start, "</call>"@);
        lemma_no_angle(start, "<call tool="@);
        lemma_no_angle(start, "<parameter name="@);
        lemma_no_angle(start, "<argument key="@);
        lemma_no_angle(start, "<tool_call>"@);
        lemma_no_angle(start, "<invoke"@);
        lemma_no_angle(start, "<response tools="@);
    }
}

proof fn lemma_trim_start_part(s: Seq<char>)
    requires
        forall|i: int| 0 <= i < s.len() ==> #[trigger] s[i] != '<',
    ensures
        forall|i: int| 0 <= i < trim_start(s).len() ==> #[trigger] trim_start(s)[i] != '<',
    decreases s.len(),
{
    if s.len() > 0 && is_white(s[0]) {
        let rest = s.drop_first();
        assert forall|i: int| 0 <= i < rest.len() implies #[trigger] rest[i] != '<' by {
            assert(rest[i] == s[i + 1]);
        }
        lemma_trim_start_part(rest);
        assert(trim_start(s) == trim_start(rest));
    } else {
        assert(trim_start(s) == s);
    }
}

proof fn lemma_no_angle(s: Seq<char>, mark: Seq<char>)
    requires
        mark.len() > 0,
        mark[0] == '<',
        forall|i: int| 0 <= i < s.len() ==> #[trigger] s[i] != '<',
    ensures
        !mentions(s, mark),
        times(s, mark) == 0,
        !begins(s, mark),
{
    lemma_find_from(s, mark, 0);
    assert forall|j: int| 0 <= j implies !#[trigger] occurs_at(s, mark, j) by {
        if occurs_at(s, mark, j) {
            assert(s.subrange(j, j + mark.len())[0] == s[j]);
        }
    }
}

/// Openings of one kind count as often as they stand in the text, each behind
/// the one before: three of them are refused, and text between does not matter.
pub proof fn law_openings_are_counted(before: Seq<char>, mark: Seq<char>, behind: Seq<char>)
    requires
        mark.len() > 0,
        mark[0] == '<',
        forall|i: int| 0 < i < mark.len() ==> #[trigger] mark[i] != '<',
        forall|i: int| 0 <= i < before.len() ==> #[trigger] before[i] != '<',
    ensures
        times(before + mark + behind, mark) == 1 + times(behind, mark),
        times(before, mark) == 0,
{
    lemma_no_angle(before, mark);
    let all = before + mark + behind;
    let n = before.len() as int;
    assert(all.subrange(n, n + mark.len()) =~= mark);
    assert(occurs_at(all, mark, n));
    assert forall|j: int| 0 <= j < n implies !#[trigger] occurs_at(all, mark, j) by {
        if occurs_at(all, mark, j) {
            assert(all.subrange(j, j + mark.len())[0] == all[j]);
            assert(all[j] == before[j]);
        }
    }
    crate::text::lemma_find_is(all, mark, 0, n);
    assert(after(all, n + mark.len()) =~= behind);
}

/// An answer is refused where one of its tool calls has no name, and not for
/// its names otherwise.
pub proof fn law_nameless_calls_are_refused(response: ResponseView, i: int)
    ensures
        0 <= i < response.calls.len() && all_white(response.calls[i].name) ==> is_broken(response),
        response.calls.len() == 0 && !leaks_call(response.text) ==> !is_broken(response),
        response.calls.len() > 0 && !leaks_beside_calls(response.text) && (forall|k: int|
            0 <= k < response.calls.len() ==> !all_white((#[trigger] response.calls[k]).name))
            ==> !is_broken(response),
        response.calls.len() == 0 && leaks_call(response.text) ==> is_broken(response),
        response.calls.len() > 0 && leaks_beside_calls(response.text) ==> is_broken(response),
{
    if 0 <= i < response.calls.len() {
        crate::text::law_trim_takes_white_space_alone(response.calls[i].name);
        if all_white(response.calls[i].name) {
            assert(trim(response.calls[i].name).len() == 0);
        }
    }
    if has_nameless_call(response.calls) {
        let k = choose|k: int|
            0 <= k < response.calls.len() && trim((#[trigger] response.calls[k]).name).len() == 0;
        crate::text::law_trim_takes_white_space_alone(response.calls[k].name);
    }
}

/// A tool call has no arguments exactly where their text is white space, or an
/// empty object with white space around it. A round is empty where it calls
/// tools and none of the calls has arguments.
pub proof fn law_empty_calls(
    call: ToolCallView,
    before: Seq<char>,
    behind: Seq<char>,
    calls: Seq<ToolCallView>,
    i: int,
)
    requires
        all_white(before),
        all_white(behind),
    ensures
        all_white(call.arguments) ==> is_empty_call(call),
        call.arguments == before + "{}"@ + behind ==> is_empty_call(call),
        is_empty_call(call) ==> all_white(call.arguments) || trim(call.arguments) == "{}"@,
        0 <= i < calls.len() && !is_empty_call(calls[i]) ==> !all_empty(calls),
        calls.len() == 0 ==> !all_empty(calls),
{
    crate::text::law_trim_takes_white_space_alone(call.arguments);
    if call.arguments == before + "{}"@ + behind {
        reveal_strlit("{}");
        let inner = "{}"@ + behind;
        assert(call.arguments =~= before + inner);
        lemma_white_before(before, inner);
        assert(inner[0] == '{');
        assert(trim_start(inner) == inner);
        lemma_white_behind("{}"@, behind);
    }
}

proof fn lemma_white_behind(text: Seq<char>, white: Seq<char>)
    requires
        all_white(white),
        text.len() > 0,
        !is_white(text.last()),
    ensures
        crate::text::trim_end(text + white) == text,
    decreases white.len(),
{
    let all = text + white;
    if white.len() == 0 {
        assert(all =~= text);
    } else {
        let rest = white.drop_last();
        assert(forall|i: int| 0 <= i < rest.len() ==> rest[i] == white[i]);
        lemma_white_behind(text, rest);
        assert(all.last() == white[white.len() - 1]);
        assert(all.drop_last() =~= text + rest);
    }
}

/// What a written-out call begins with, at the beginning of a text.
pub open spec fn first_words() -> Seq<Seq<char>> {
    seq![
        "<call tool="@,
        "<parameter name="@,
        "<argument key="@,
        "</call>"@,
        "<tool_call>"@,
        "<invoke"@,
        "<response tools="@,
    ]
}

/// What a written-out call begins with, anywhere in a text.
pub open spec fn openings() -> Seq<Seq<char>> {
    seq![
        "<call tool="@,
        "<parameter name="@,
        "<argument key="@,
        "<tool_call>"@,
        "<invoke"@,
        "<response tools="@,
        "<response_tools>"@,
    ]
}

/// What a written-out call ends with.
pub open spec fn closings() -> Seq<Seq<char>> {
    seq![
        "</call>"@,
        "</parameter>"@,
        "</argument>"@,
        "</tool_call>"@,
        "</invoke>"@,
        "</response_tools>"@,
    ]
}

/// Whether the mark stands at three places of the text, none of which reaches
/// into the next.
pub open spec fn stands_thrice(text: Seq<char>, mark: Seq<char>) -> bool {
    exists|i: int, j: int, k: int|
        0 <= i && i + mark.len() <= j && j + mark.len() <= k && #[trigger] occurs_at(text, mark, i)
            && #[trigger] occurs_at(text, mark, j) && #[trigger] occurs_at(text, mark, k)
}

proof fn lemma_places_are_counted(text: Seq<char>, mark: Seq<char>, at: Seq<int>)
    requires
        mark.len() > 0,
        forall|k: int| 0 <= k < at.len() ==> 0 <= at[k] && #[trigger] occurs_at(text, mark, at[k]),
        forall|k: int, m: int|
            0 <= k < m < at.len() ==> #[trigger] at[k] + mark.len() <= #[trigger] at[m],
    ensures
        times(text, mark) >= at.len(),
    decreases at.len(),
{
    if at.len() > 0 {
        lemma_find_from(text, mark, 0);
        assert(occurs_at(text, mark, at[0]));
        let i = find(text, mark)->0;
        assert(i <= at[0]);
        let cut = i + mark.len() as int;
        let rest = after(text, cut);
        let later = Seq::new((at.len() - 1) as nat, |k: int| at[k + 1] - cut);
        assert forall|k: int| 0 <= k < later.len() implies 0 <= later[k] && #[trigger] occurs_at(
            rest,
            mark,
            later[k],
        ) by {
            assert(at[0] + mark.len() <= at[k + 1]);
            assert(occurs_at(text, mark, at[k + 1]));
            let p = at[k + 1];
            assert(rest.subrange(p - cut, p - cut + mark.len()) =~= text.subrange(
                p,
                p + mark.len(),
            ));
        }
        assert forall|k: int, m: int| 0 <= k < m < later.len() implies #[trigger] later[k]
            + mark.len() <= #[trigger] later[m] by {
            assert(at[k + 1] + mark.len() <= at[m + 1]);
        }
        lemma_places_are_counted(rest, mark, later);
    }
}

proof fn lemma_counted_are_places(text: Seq<char>, mark: Seq<char>, from: int, n: nat) -> (at: Seq<int>)
    requires
        mark.len() > 0,
        0 <= from <= text.len(),
        times(after(text, from), mark) >= n,
    ensures
        at.len() == n,
        forall|k: int| 0 <= k < at.len() ==> from <= #[trigger] at[k] && occurs_at(text, mark, at[k]),
        forall|k: int, m: int|
            0 <= k < m < at.len() ==> #[trigger] at[k] + mark.len() <= #[trigger] at[m],
    decreases n,
{
    if n == 0 {
        Seq::empty()
    } else {
        let rest = after(text, from);
        lemma_find_from(rest, mark, 0);
        let i = find(rest, mark)->0;
        let p = from + i;
        assert(rest.subrange(i, i + mark.len()) =~= text.subrange(p, p + mark.len()));
        assert(occurs_at(text, mark, p));
        let next = p + mark.len() as int;
        assert(after(rest, i + mark.len()) =~= after(text, next));
        let later = lemma_counted_are_places(text, mark, next, (n - 1) as nat);
        let at = seq![p] + later;
        assert forall|k: int| 0 <= k < at.len() implies from <= #[trigger] at[k] && occurs_at(
            text,
            mark,
            at[k],
        ) by {
            if k > 0 {
                assert(at[k] == later[k - 1]);
                assert(occurs_at(text, mark, later[k - 1]));
            } else {
                assert(at[k] == p);
            }
        }
        assert forall|k: int, m: int| 0 <= k < m < at.len() implies #[trigger] at[k] + mark.len()
            <= #[trigger] at[m] by {
            assert(at[m] == later[m - 1]);
            assert(occurs_at(text, mark, later[m - 1]));
            if k > 0 {
                assert(at[k] == later[k - 1]);
            }
        }
        at
    }
}

proof fn lemma_thrice(text: Seq<char>, mark: Seq<char>)
    requires
        mark.len() > 0,
    ensures
        times(text, mark) >= 3 <==> stands_thrice(text, mark),
{
    if stands_thrice(text, mark) {
        let (i, j, k) = choose|i: int, j: int, k: int|
            0 <= i && i + mark.len() <= j && j + mark.len() <= k && #[trigger] occurs_at(
                text,
                mark,
                i,
            ) && #[trigger] occurs_at(text, mark, j) && #[trigger] occurs_at(text, mark, k);
        let at = seq![i, j, k];
        assert forall|m: int| 0 <= m < at.len() implies 0 <= at[m] && #[trigger] occurs_at(
            text,
            mark,
            at[m],
        ) by {
            assert(m == 0 || m == 1 || m == 2);
        }
        lemma_places_are_counted(text, mark, at);
    }
    if times(text, mark) >= 3 {
        assert(after(text, 0) =~= text);
        let at = lemma_counted_are_places(text, mark, 0, 3);
        assert(occurs_at(text, mark, at[0]));
        assert(occurs_at(text, mark, at[1]));
        assert(occurs_at(text, mark, at[2]));
        assert(at[0] + mark.len() <= at[1]);
        assert(at[1] + mark.len() <= at[2]);
    }
}

/// An answer with tool calls is refused for its text exactly where the end of a
/// written-out call stands in it, or where the beginning of one stands in it at
/// three places.
pub proof fn law_storms_are_refused(text: Seq<char>)
    ensures
        leaks_beside_calls(text) <==> (exists|k: int|
            0 <= k < closings().len() && mentions(text, #[trigger] closings()[k])) || (exists|k: int|
            0 <= k < openings().len() && stands_thrice(text, #[trigger] openings()[k])),
{
    let ends = closings();
    let starts = openings();
    reveal_strlit("<call tool=");
    reveal_strlit("<parameter name=");
    reveal_strlit("<argument key=");
    reveal_strlit("<tool_call>");
    reveal_strlit("<invoke");
    reveal_strlit("<response tools=");
    reveal_strlit("<response_tools>");
    lemma_thrice(text, starts[0]);
    lemma_thrice(text, starts[1]);
    lemma_thrice(text, starts[2]);
    lemma_thrice(text, starts[3]);
    lemma_thrice(text, starts[4]);
    lemma_thrice(text, starts[5]);
    lemma_thrice(text, starts[6]);
    if leaks_beside_calls(text) {
        assert(mentions(text, ends[0]) || mentions(text, ends[1]) || mentions(text, ends[2])
            || mentions(text, ends[3]) || mentions(text, ends[4]) || mentions(text, ends[5])
            || stands_thrice(text, starts[0]) || stands_thrice(text, starts[1]) || stands_thrice(
            text,
            starts[2],
        ) || stands_thrice(text, starts[3]) || stands_thrice(text, starts[4]) || stands_thrice(
            text,
            starts[5],
        ) || stands_thrice(text, starts[6]));
    }
}

/// An answer without tool calls is refused only where its text begins with one of
/// the words that written-out calls begin with, white space aside.
pub proof fn law_only_written_out_calls_are_refused(text: Seq<char>)
    ensures
        leaks_call(text) <==> exists|k: int, i: int|
            0 <= k < first_words().len() && #[trigger] occurs_at(text, first_words()[k], i)
                && all_white(text.take(i)),
{
    let words = first_words();
    let start = trim_start(text);
    reveal_strlit("<call tool=");
    reveal_strlit("<parameter name=");
    reveal_strlit("<argument key=");
    reveal_strlit("</call>");
    reveal_strlit("<tool_call>");
    reveal_strlit("<invoke");
    reveal_strlit("<response tools=");
    if leaks_call(text) {
        let k: int = if begins(start, words[0]) {
            0
        } else if begins(start, words[1]) {
            1
        } else if begins(start, words[2]) {
            2
        } else if begins(start, words[3]) {
            3
        } else if begins(start, words[4]) {
            4
        } else if begins(start, words[5]) {
            5
        } else {
            6
        };
        let i = crate::text::lemma_trim_start(text);
        assert(begins(start, words[k]));
        assert(text.subrange(i, i + words[k].len()) =~= start.subrange(0, words[k].len() as int));
        assert(occurs_at(text, words[k], i));
    }
    if exists|k: int, i: int|
        0 <= k < words.len() && #[trigger] occurs_at(text, words[k], i) && all_white(text.take(i)) {
        let (k, i) = choose|k: int, i: int|
            0 <= k < words.len() && #[trigger] occurs_at(text, words[k], i) && all_white(
                text.take(i),
            );
        assert(k == 0 || k == 1 || k == 2 || k == 3 || k == 4 || k == 5 || k == 6);
        let rest = after(text, i);
        assert(text =~= text.take(i) + rest);
        lemma_white_before(text.take(i), rest);
        assert(rest.subrange(0, words[k].len() as int) =~= words[k]);
        assert(rest[0] == words[k][0]);
        assert(trim_start(rest) == rest);
        assert(begins(start, words[k]));
    }
}

} // verus!
