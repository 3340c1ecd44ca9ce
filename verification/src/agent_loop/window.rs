//! What of the earlier turns of a conversation is sent with the current one.
use crate::agent_loop::context::{
    all_capped, all_cleaned, boundary, cap_of, capped, only_text, raw_user, sent, sent_prior,
    sent_regions, verbatim_turns, without_notes, ContextStrategy, ContextStrategyConfig,
};
use crate::agent_loop::response::raw_answer;
use crate::json::JsonView;
use crate::provider::messages::says;
use crate::provider::select::ApiKind;
use crate::session::{
    answer_of, call_notes, calls_made, counts, is_note, is_turn, kept_messages, last_of,
    last_turns_start, lemma_joined_says, lemma_plain_message, lemma_turns_in, message_text,
    plain_message, read_on, reading_of, starts_turn, turn_messages, turns_in, turns_over, Reading,
    TurnView,
};
use crate::text::joined;
use crate::types::BlockView;
use vstd::prelude::*;
use vstd::string::*;

verus! {

/// What of a turn can be seen in what is sent of it: what was said, what was
/// answered, and how many notes and calls it has.
pub open spec fn told(turn: TurnView) -> (Seq<char>, Seq<Seq<char>>, nat, nat) {
    (turn.said, turn.texts, turn.notes.len(), turn.calls.len())
}

/// What can be seen of each of the turns.
pub open spec fn all_told(turns: Seq<TurnView>) -> Seq<(Seq<char>, Seq<Seq<char>>, nat, nat)> {
    turns.map_values(|turn: TurnView| told(turn))
}

/// Whether as much can be seen of the one reading as of the other.
pub open spec fn alike(a: Reading, b: Reading) -> bool {
    &&& all_told(a.turns) == all_told(b.turns)
    &&& match (a.open, b.open) {
        (Some(x), Some(y)) => told(x) == told(y),
        (None, None) => true,
        _ => false,
    }
}

proof fn lemma_over_alike(a: Reading, b: Reading)
    requires
        alike(a, b),
    ensures
        all_told(turns_over(a)) == all_told(turns_over(b)),
{
    if let Some(x) = a.open {
        let y = b.open->0;
        if counts(x) {
            assert(all_told(a.turns.push(x)) =~= all_told(a.turns).push(told(x)));
            assert(all_told(b.turns.push(y)) =~= all_told(b.turns).push(told(y)));
        }
    }
}

/// Reading on keeps readings alike, as long as the messages are the same.
proof fn lemma_read_on_alike(
    a: Seq<JsonView>,
    i: int,
    x: Reading,
    b: Seq<JsonView>,
    j: int,
    y: Reading,
)
    requires
        alike(x, y),
        a[i] == b[j],
    ensures
        alike(read_on(a, i, x), read_on(b, j, y)),
{
    lemma_over_alike(x, y);
    assert(call_notes(a, i).len() == calls_made(a[i]).len());
    assert(call_notes(b, j).len() == calls_made(b[j]).len());
}

proof fn lemma_prefix_reads_alike(messages: Seq<JsonView>, k: int, n: int)
    requires
        0 <= n <= k <= messages.len(),
    ensures
        alike(reading_of(messages.take(k), n), reading_of(messages, n)),
    decreases n,
{
    if n > 0 {
        lemma_prefix_reads_alike(messages, k, n - 1);
        lemma_read_on_alike(
            messages.take(k),
            n - 1,
            reading_of(messages.take(k), n - 1),
            messages,
            n - 1,
            reading_of(messages, n - 1),
        );
    }
}

/// The turns before, and those behind.
pub open spec fn behind(before: Seq<TurnView>, reading: Reading) -> Reading {
    Reading { turns: before + reading.turns, open: reading.open }
}

proof fn lemma_rest_reads_alike(messages: Seq<JsonView>, s: int, m: int)
    requires
        0 <= s,
        0 < m,
        s + m <= messages.len(),
        starts_turn(messages[s]),
    ensures
        alike(
            reading_of(messages, s + m),
            behind(turns_over(reading_of(messages, s)), reading_of(messages.skip(s), m)),
        ),
    decreases m,
{
    let rest = messages.skip(s);
    let before = turns_over(reading_of(messages, s));
    assert(rest[m - 1] == messages[s + m - 1]);
    if m == 1 {
        assert(reading_of(rest, 0) == (Reading { turns: Seq::empty(), open: None }));
        assert(before + Seq::<TurnView>::empty() =~= before);
        assert(reading_of(rest, 1).turns =~= Seq::<TurnView>::empty());
    } else {
        lemma_rest_reads_alike(messages, s, m - 1);
        let inner = reading_of(rest, m - 1);
        lemma_read_on_alike(
            messages,
            s + m - 1,
            reading_of(messages, s + m - 1),
            rest,
            m - 1,
            behind(before, inner),
        );
        assert(read_on(rest, m - 1, behind(before, inner)) == behind(
            before,
            read_on(rest, m - 1, inner),
        )) by {
            assert(turns_over(behind(before, inner)) =~= before + turns_over(inner));
        }
    }
}

/// A conversation is read turn by turn: cut where a turn begins, its turns are
/// those of its first part and behind them those of its second part.
pub proof fn law_turns_are_read_apart(messages: Seq<JsonView>, s: int)
    requires
        0 <= s <= messages.len(),
        s == 0 || s == messages.len() || starts_turn(messages[s]),
    ensures
        all_told(turns_in(messages)) == all_told(turns_in(messages.take(s))) + all_told(
            turns_in(messages.skip(s)),
        ),
{
    let n = messages.len() as int;
    let head = messages.take(s);
    let rest = messages.skip(s);
    if s == n {
        assert(head =~= messages);
        assert(all_told(turns_in(messages)) =~= all_told(turns_in(head)) + all_told(
            turns_in(rest),
        ));
    } else if s == 0 {
        assert(rest =~= messages);
        assert(all_told(turns_in(messages)) =~= all_told(turns_in(head)) + all_told(
            turns_in(rest),
        ));
    } else {
        lemma_prefix_reads_alike(messages, s, s);
        lemma_over_alike(reading_of(head, s), reading_of(messages, s));
        lemma_rest_reads_alike(messages, s, n - s);
        let before = turns_over(reading_of(messages, s));
        let inner = reading_of(rest, n - s);
        lemma_over_alike(reading_of(messages, n), behind(before, inner));
        assert(turns_over(behind(before, inner)) =~= before + turns_over(inner));
        assert(all_told(before + turns_over(inner)) =~= all_told(before) + all_told(
            turns_over(inner),
        ));
    }
}

/// The messages of the model that say something.
pub open spec fn answers_in(messages: Seq<JsonView>) -> Seq<JsonView> {
    messages.filter(
        |message: JsonView|
            message.field("role"@) == Some(JsonView::Text("assistant"@)) && message_text(
                message,
            ).len() > 0,
    )
}

/// What each of the messages says.
pub open spec fn what_they_say(messages: Seq<JsonView>) -> Seq<Seq<char>> {
    messages.map_values(|message: JsonView| message_text(message))
}

/// A turn is what the user says in one message and what the model answers from
/// there to the next such message: every text of it, in order, and no other.
/// It is read as a turn wherever the model has said something.
pub proof fn law_turn_holds_its_answers(messages: Seq<JsonView>)
    requires
        messages.len() > 0,
        starts_turn(messages[0]),
        forall|i: int| 0 < i < messages.len() ==> !starts_turn(#[trigger] messages[i]),
    ensures
        ({
            let turns = turns_in(messages);
            let texts = what_they_say(answers_in(messages));
            &&& turns.len() <= 1
            &&& texts.len() > 0 ==> turns.len() == 1
            &&& turns.len() == 1 ==> turns[0].said == message_text(messages[0]) && turns[0].texts
                == texts
        }),
{
    lemma_turn_so_far(messages, messages.len() as int);
    assert(messages.take(messages.len() as int) =~= messages);
}

proof fn lemma_turn_so_far(messages: Seq<JsonView>, n: int)
    requires
        0 < n <= messages.len(),
        starts_turn(messages[0]),
        forall|i: int| 0 < i < messages.len() ==> !starts_turn(#[trigger] messages[i]),
    ensures
        ({
            let reading = reading_of(messages, n);
            &&& reading.turns.len() == 0
            &&& reading.open is Some
            &&& (reading.open->0).said == message_text(messages[0])
            &&& (reading.open->0).texts == what_they_say(answers_in(messages.take(n)))
        }),
    decreases n,
{
    reveal(Seq::filter);
    reveal_strlit("assistant");
    reveal_strlit("user");
    assert("assistant"@.len() == 9 && "user"@.len() == 4);
    let head = messages.take(n);
    let message = messages[n - 1];
    assert(head.drop_last() =~= messages.take(n - 1));
    assert(head.last() == message);
    if n == 1 {
        assert(reading_of(messages, 0) == (Reading { turns: Seq::empty(), open: None }));
        assert(head.drop_last().len() == 0);
        assert(says(message, "role"@, "user"@));
        assert(message.field("role"@) == Some(JsonView::Text("user"@)));
        assert(answers_in(head.drop_last()).len() == 0);
        assert(answers_in(head).len() == 0);
        assert(what_they_say(answers_in(head)) =~= Seq::<Seq<char>>::empty());
    } else {
        lemma_turn_so_far(messages, n - 1);
        let before = answers_in(messages.take(n - 1));
        let turn = reading_of(messages, n - 1).open->0;
        if message.field("role"@) == Some(JsonView::Text("assistant"@)) {
            assert(says(message, "role"@, "assistant"@));
            assert(!says(message, "role"@, "user"@));
            assert(!is_note(message));
            if message_text(message).len() > 0 {
                assert(what_they_say(before.push(message)) =~= what_they_say(before).push(
                    message_text(message),
                ));
                assert(turn.texts + seq![message_text(message)] =~= turn.texts.push(
                    message_text(message),
                ));
            } else {
                assert(turn.texts + Seq::<Seq<char>>::empty() =~= turn.texts);
            }
        } else {
            assert(!says(message, "role"@, "assistant"@));
        }
    }
}

/// How many of the messages begin a turn.
pub open spec fn turns_begun(messages: Seq<JsonView>) -> nat {
    messages.filter(|message: JsonView| starts_turn(message)).len()
}

proof fn lemma_last_turns(messages: Seq<JsonView>, i: int, n: nat)
    requires
        0 <= i <= messages.len(),
    ensures
        ({
            let start = last_turns_start(messages, i, n);
            let all = turns_begun(messages.take(i));
            &&& 0 <= start <= i
            &&& start == 0 || start == i || starts_turn(messages[start])
            &&& turns_begun(messages.subrange(start, i)) == if n <= all {
                n
            } else {
                all
            }
            &&& start == 0 || n <= all
            &&& n == 0 ==> start == i
        }),
    decreases i,
{
    reveal(Seq::filter);
    let begins = |message: JsonView| starts_turn(message);
    let start = last_turns_start(messages, i, n);
    if i > 0 && n > 0 {
        let head = messages.take(i);
        assert(head.drop_last() =~= messages.take(i - 1));
        assert(head.last() == messages[i - 1]);
        if starts_turn(messages[i - 1]) {
            if n == 1 {
                let one = messages.subrange(i - 1, i);
                assert(one.drop_last().len() == 0);
                assert(one.last() == messages[i - 1]);
                assert(one.drop_last().filter(begins).len() == 0);
            } else {
                lemma_last_turns(messages, i - 1, (n - 1) as nat);
                let part = messages.subrange(start, i);
                assert(part.drop_last() =~= messages.subrange(start, i - 1));
                assert(part.last() == messages[i - 1]);
                if start == i - 1 {
                    assert(starts_turn(messages[start]));
                }
            }
        } else {
            lemma_last_turns(messages, i - 1, n);
            let part = messages.subrange(start, i);
            if start == i - 1 {
                assert(messages.subrange(start, i - 1).len() == 0);
                assert(messages.subrange(start, i - 1).filter(begins).len() == 0);
                if start > 0 && !starts_turn(messages[start]) {
                    assert(n <= turns_begun(messages.take(i - 1)));
                    assert(false);
                }
            }
            assert(part.drop_last() =~= messages.subrange(start, i - 1));
            assert(part.last() == messages[i - 1]);
        }
    } else {
        assert(messages.subrange(start, i).len() == 0);
        assert(messages.subrange(start, i).filter(begins).len() == 0);
        if i <= 0 {
            assert(messages.take(i).len() == 0);
        }
    }
}

/// The turn in plain text, as the provider takes it: what the user said, and
/// what the model answered.
pub open spec fn plain_turn(kind: ApiKind, turn: TurnView) -> Seq<JsonView> {
    let said = raw_user(kind, seq![BlockView::Text { text: turn.said }]);
    if turn.texts.len() > 0 {
        seq![said, raw_answer(kind, only_text(joined(turn.texts, "\n"@)))]
    } else {
        seq![said]
    }
}

/// The turns in plain text, one after the other.
pub open spec fn plain_turns(kind: ApiKind, turns: Seq<TurnView>) -> Seq<JsonView> {
    turns.map_values(|turn: TurnView| plain_turn(kind, turn)).flatten_alt()
}

proof fn lemma_cleaned_turns(kind: ApiKind, turns: Seq<TurnView>)
    requires
        forall|i: int| 0 <= i < turns.len() ==> is_turn(#[trigger] turns[i]),
    ensures
        all_cleaned(kind, kept_messages(turns, 0)) == plain_turns(kind, turns),
    decreases turns.len(),
{
    let plain = |turn: TurnView| plain_turn(kind, turn);
    if turns.len() > 0 {
        let rest = turns.drop_last();
        let turn = turns.last();
        assert(is_turn(turns[turns.len() - 1]));
        assert(forall|i: int| 0 <= i < rest.len() ==> rest[i] == turns[i]);
        lemma_cleaned_turns(kind, rest);
        lemma_cleaned_turn(kind, turn);
        lemma_cleaned_concat(kind, kept_messages(rest, 0), turn_messages(turn, false));
        assert(turns.map_values(plain).drop_last() =~= rest.map_values(plain));
        assert(turns.map_values(plain).last() == plain_turn(kind, turn));
    }
}

proof fn lemma_cleaned_concat(kind: ApiKind, a: Seq<JsonView>, b: Seq<JsonView>)
    ensures
        all_cleaned(kind, a + b) == all_cleaned(kind, a) + all_cleaned(kind, b),
    decreases b.len(),
{
    if b.len() == 0 {
        assert(a + b =~= a);
        assert(all_cleaned(kind, a) + all_cleaned(kind, b) =~= all_cleaned(kind, a));
    } else {
        lemma_cleaned_concat(kind, a, b.drop_last());
        assert((a + b).drop_last() =~= a + b.drop_last());
        assert((a + b).last() == b.last());
        assert(all_cleaned(kind, a + b) =~= all_cleaned(kind, a) + all_cleaned(kind, b));
    }
}

proof fn lemma_cleaned_turn(kind: ApiKind, turn: TurnView)
    requires
        is_turn(turn),
    ensures
        all_cleaned(kind, turn_messages(turn, false)) == plain_turn(kind, turn),
{
    reveal_with_fuel(all_cleaned, 3);
    reveal_strlit("assistant");
    reveal_strlit("user");
    assert("assistant"@.len() == 9 && "user"@.len() == 4);
    let said = plain_message("user"@, turn.said);
    lemma_plain_message("user"@, turn.said);
    assert(!says(said, "role"@, "assistant"@));
    if turn.texts.len() > 0 {
        assert(turn.texts[turn.texts.len() - 1].len() > 0);
        lemma_joined_says(turn.texts, "\n"@);
        let answer = plain_message("assistant"@, answer_of(turn));
        lemma_plain_message("assistant"@, answer_of(turn));
        assert(turn_messages(turn, false) =~= seq![said, answer]);
        assert(seq![said, answer].drop_last() =~= seq![said]);
        assert(seq![said].drop_last() =~= Seq::<JsonView>::empty());
        assert(all_cleaned(kind, seq![said, answer]) =~= plain_turn(kind, turn));
    } else {
        assert(turn_messages(turn, false) =~= seq![said]);
        assert(seq![said].drop_last() =~= Seq::<JsonView>::empty());
        assert(all_cleaned(kind, seq![said]) =~= plain_turn(kind, turn));
    }
}

proof fn lemma_plain_of_told(kind: ApiKind, a: Seq<TurnView>, b: Seq<TurnView>)
    requires
        all_told(a) == all_told(b),
    ensures
        plain_turns(kind, a) == plain_turns(kind, b),
{
    let plain = |turn: TurnView| plain_turn(kind, turn);
    assert(all_told(a).len() == a.len() && all_told(b).len() == b.len());
    assert forall|i: int| 0 <= i < a.len() implies plain_turn(kind, #[trigger] a[i]) == plain_turn(
        kind,
        b[i],
    ) by {
        assert(all_told(a)[i] == told(a[i]));
        assert(all_told(b)[i] == told(b[i]));
    }
    assert(a.map_values(plain) =~= b.map_values(plain));
}

/// The messages that are sent as they are: all but the notes on earlier calls,
/// with the answers of tools as long as they may be.
pub open spec fn as_they_are(messages: Seq<JsonView>, cap: nat) -> Seq<JsonView> {
    messages.filter(|message: JsonView| !is_note(message)).map_values(
        |message: JsonView| capped(message, cap),
    )
}

proof fn lemma_without_notes(messages: Seq<JsonView>, cap: nat)
    ensures
        without_notes(messages, cap) == as_they_are(messages, cap),
    decreases messages.len(),
{
    reveal(Seq::filter);
    let own = |message: JsonView| !is_note(message);
    let cut = |message: JsonView| capped(message, cap);
    if messages.len() > 0 {
        let rest = messages.drop_last();
        lemma_without_notes(rest, cap);
        if !is_note(messages.last()) {
            assert(rest.filter(own).push(messages.last()).map_values(cut) =~= rest.filter(
                own,
            ).map_values(cut).push(capped(messages.last(), cap)));
        }
    } else {
        assert(as_they_are(messages, cap) =~= Seq::<JsonView>::empty());
    }
}

/// Whether the earlier turns `prior` are sent as `front`: those that begin
/// before `start` in plain text, as many as the window has left, the others as
/// they are.
pub open spec fn fills_the_window(
    kind: ApiKind,
    prior: Seq<JsonView>,
    strategy: ContextStrategyConfig,
    front: Seq<JsonView>,
    start: int,
) -> bool {
    let turns = turns_in(prior);
    let whole = turns_in(prior.skip(start)).len();
    let first: int = if turns.len() > strategy.window {
        turns.len() - strategy.window
    } else {
        0
    };
    &&& 0 <= start <= prior.len()
    &&& start == 0 || start == prior.len() || starts_turn(prior[start])
    &&& match strategy.note_window {
        Some(n) => turns_begun(prior.skip(start)) == if n <= turns_begun(prior) {
            n as nat
        } else {
            turns_begun(prior)
        },
        None => prior.len() <= usize::MAX ==> start == 0,
    }
    &&& whole <= turns.len()
    &&& whole <= strategy.window ==> {
        &&& first <= turns.len() - whole
        &&& front == plain_turns(kind, turns.subrange(first, turns.len() - whole)) + as_they_are(
            prior.skip(start),
            cap_of(strategy),
        )
    }
    &&& whole > strategy.window ==> front == as_they_are(prior.skip(start), cap_of(strategy))
}

/// Whether what is sent is the current turn, with the earlier turns `prior`
/// before it as far as they fill the window.
pub open spec fn window_before(
    kind: ApiKind,
    prior: Seq<JsonView>,
    strategy: ContextStrategyConfig,
    all: Seq<JsonView>,
    current: Seq<JsonView>,
) -> bool {
    exists|front: Seq<JsonView>, start: int|
        #[trigger] fills_the_window(kind, prior, strategy, front, start) && all == front + current
}

/// In a sliding window no earlier turn within the last `window` turns is left
/// out: wherever the turns that are sent as they are do not exceed the window,
/// the turns that are sent, in plain text and as they are together, are the last
/// ones, as many as the window holds or as there are. Those sent as they are are
/// the latest, as many as are asked for, and the current turn comes behind them.
pub proof fn law_window_is_filled(
    kind: ApiKind,
    raw: Seq<JsonView>,
    prior_len: nat,
    strategy: ContextStrategyConfig,
)
    requires
        strategy.mode == ContextStrategy::SlidingWindow,
    ensures
        ({
            let cut: int = if prior_len <= raw.len() {
                prior_len as int
            } else {
                raw.len() as int
            };
            window_before(
                kind,
                raw.take(cut),
                strategy,
                sent(kind, raw, prior_len, strategy),
                raw.skip(cut).map_values(|message: JsonView| capped(message, cap_of(strategy))),
            )
        }),
{
    let cut = boundary(raw, prior_len);
    let prior = raw.take(cut);
    let parts = sent_prior(kind, prior, strategy);
    let front = parts.compacted + parts.verbatim;
    let n = verbatim_turns(strategy);
    let start = last_turns_start(prior, prior.len() as int, n);
    lemma_last_turns(prior, prior.len() as int, n);
    assert(prior.take(prior.len() as int) =~= prior);
    assert(prior.subrange(start, prior.len() as int) =~= prior.skip(start));
    if strategy.note_window is None && prior.len() <= usize::MAX {
        prior.lemma_filter_len(|message: JsonView| starts_turn(message));
        if start != 0 {
            assert(turns_begun(prior) == usize::MAX);
            lemma_all_begin(prior);
            assert(turns_begun(prior.skip(start)) <= prior.skip(start).len()) by {
                prior.skip(start).lemma_filter_len(|message: JsonView| starts_turn(message));
            }
        }
    }
    let turns = turns_in(prior);
    let head = turns_in(prior.take(start));
    let tail = turns_in(prior.skip(start));
    law_turns_are_read_apart(prior, start);
    assert(all_told(turns).len() == turns.len());
    assert(all_told(head).len() == head.len());
    assert(all_told(tail).len() == tail.len());
    let whole = tail.len();
    lemma_without_notes(prior.skip(start), cap_of(strategy));
    let keep: nat = if whole <= strategy.window {
        (strategy.window - whole) as nat
    } else {
        0
    };
    let kept = last_of(head, keep);
    assert forall|i: int| 0 <= i < kept.len() implies is_turn(#[trigger] kept[i]) by {
        let k = if head.len() <= keep {
            i
        } else {
            i + head.len() - keep
        };
        lemma_turns_in(prior.take(start), k);
    }
    lemma_cleaned_turns(kind, kept);
    assert(parts.compacted == plain_turns(kind, kept));
    if whole <= strategy.window {
        let first: int = if turns.len() > strategy.window {
            turns.len() - strategy.window
        } else {
            0
        };
        let wanted = turns.subrange(first, turns.len() - whole);
        assert(all_told(wanted) =~= all_told(kept)) by {
            assert forall|i: int| 0 <= i < kept.len() implies all_told(wanted)[i] == all_told(
                kept,
            )[i] by {
                assert(all_told(turns)[first + i] == told(turns[first + i]));
                assert(all_told(head)[first + i] == told(head[first + i]));
                assert(all_told(turns)[first + i] == all_told(head)[first + i]);
            }
        }
        lemma_plain_of_told(kind, wanted, kept);
    } else {
        assert(kept.len() == 0);
        assert(plain_turns(kind, kept) =~= Seq::<JsonView>::empty());
        assert(front =~= parts.verbatim);
    }
    assert(fills_the_window(kind, prior, strategy, front, start));
    assert(sent(kind, raw, prior_len, strategy) =~= front + raw.skip(cut).map_values(
        |message: JsonView| capped(message, cap_of(strategy)),
    ));
}

proof fn lemma_all_begin(messages: Seq<JsonView>)
    ensures
        turns_begun(messages) <= messages.len(),
{
    messages.lemma_filter_len(|message: JsonView| starts_turn(message));
}

/// Where a window is sent, what is labelled as the current turn is what stands
/// behind the earlier turns, and nothing else; before it stands what is sent of
/// the earlier turns as it is, and before that what is sent as plain text.
pub proof fn law_labels_tell_where_from(
    kind: ApiKind,
    raw: Seq<JsonView>,
    prior_len: nat,
    strategy: ContextStrategyConfig,
    i: int,
)
    requires
        strategy.mode == ContextStrategy::SlidingWindow,
        0 <= i < sent(kind, raw, prior_len, strategy).len(),
    ensures
        ({
            let all = sent(kind, raw, prior_len, strategy);
            let labels = sent_regions(kind, raw, prior_len, strategy);
            let from = all.len() - (raw.len() - boundary(raw, prior_len));
            let prior = sent_prior(kind, raw.take(boundary(raw, prior_len)), strategy);
            &&& labels.len() == all.len()
            &&& labels[i] == 3 <==> i >= from
            &&& labels[i] == 3 ==> all[i] == capped(
                raw[boundary(raw, prior_len) + i - from],
                cap_of(strategy),
            )
            &&& labels[i] == 2 ==> prior.verbatim.contains(all[i])
            &&& labels[i] == 1 ==> prior.compacted.contains(all[i])
            &&& 1 <= labels[i] <= 3
            &&& i > 0 ==> labels[i - 1] <= labels[i]
        }),
{
    let b = boundary(raw, prior_len);
    let current = raw.skip(b);
    lemma_all_capped(current, cap_of(strategy));
    let prior = sent_prior(kind, raw.take(b), strategy);
    let n = prior.compacted.len() as int;
    let m = n + prior.verbatim.len();
    let all = sent(kind, raw, prior_len, strategy);
    if i < n {
        assert(all[i] == prior.compacted[i]);
    } else if i < m {
        assert(all[i] == prior.verbatim[i - n]);
    } else {
        assert(all[i] == all_capped(current, cap_of(strategy))[i - m]);
    }
}

proof fn lemma_all_capped(messages: Seq<JsonView>, cap: nat)
    ensures
        all_capped(messages, cap).len() == messages.len(),
        forall|i: int|
            0 <= i < messages.len() ==> #[trigger] all_capped(messages, cap)[i] == capped(
                messages[i],
                cap,
            ),
    decreases messages.len(),
{
    if messages.len() > 0 {
        lemma_all_capped(messages.drop_last(), cap);
    }
}

} // verus!
