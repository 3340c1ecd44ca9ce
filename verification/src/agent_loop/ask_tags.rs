//! What holds of the questions that a model writes into its text.
use crate::agent_loop::embedded_ask::{
    asked_timeout, at_commas, attribute, found_tag, inner_asks, items_of, lemma_removed_is_shorter,
    name_ends, next_quoted, option_items, quoted_list, removed, tag_end, tag_start,
    without_malformed, without_tags, Asked, FoundTag,
};
use crate::numbers::{decimal_text, law_decimal_reads_back};
use crate::text::{
    after, all_white, find, joined, law_trim_takes_white_space_alone, lemma_find_from, lemma_find_is,
    lemma_joined_first, occurs_at, trim, trim_end, trim_start,
};
use vstd::prelude::*;
use vstd::string::*;

verus! {

/// Whether a tag begins at position `i`: its name stands there, and ends.
pub open spec fn begins_tag(s: Seq<char>, i: int) -> bool {
    occurs_at(s, "<ask_user"@, i) && name_ends(s, i + 9)
}

/// Whether position `k` lies in double quotes, of those from position `i` on.
pub open spec fn in_quotes(s: Seq<char>, i: int, k: int) -> bool {
    s.subrange(i, k).filter(|c: char| c == '"').len() % 2 == 1
}

/// Whether the text holds no double quote.
pub open spec fn quoteless(s: Seq<char>) -> bool {
    forall|i: int| 0 <= i < s.len() ==> #[trigger] s[i] != '"'
}

proof fn lemma_first_tag(s: Seq<char>, from: int, i: int)
    requires
        0 <= from <= i,
        begins_tag(s, i),
        forall|j: int| from <= j < i ==> !#[trigger] begins_tag(s, j),
    ensures
        tag_start(s, from) == Some(i),
    decreases i - from,
{
    reveal_strlit("<ask_user");
    let needle = "<ask_user"@;
    lemma_find_from(s, needle, from);
    let k = crate::text::find_from(s, needle, from)->0;
    assert(occurs_at(s, needle, k) && k <= i);
    if k < i {
        assert(!begins_tag(s, k));
        if i < k + 9 {
            assert(s.subrange(i, i + 9)[0] == s[i]);
            assert(s.subrange(k, k + 9)[i - k] == s[i]);
            assert(needle[0] == '<');
            assert(needle[i - k] == '<');
            assert(false);
        }
        lemma_first_tag(s, k + 9, i);
    }
}

proof fn lemma_first_end(s: Seq<char>, from: int, k: int, end: int)
    requires
        0 <= from <= k <= end < s.len(),
        s[end] == '>',
        !in_quotes(s, from, end),
        forall|j: int|
            k <= j < end ==> !(#[trigger] s[j] == '>' && !in_quotes(s, from, j)),
    ensures
        tag_end(s, k, in_quotes(s, from, k)) == Some(end),
    decreases end - k,
{
    if k < end {
        reveal(Seq::filter);
        let longer = s.subrange(from, k + 1);
        assert(longer.drop_last() =~= s.subrange(from, k));
        assert(longer.last() == s[k]);
        assert(in_quotes(s, from, k + 1) == (in_quotes(s, from, k) != (s[k] == '"')));
        assert(!(s[k] == '>' && !in_quotes(s, from, k)));
        lemma_first_end(s, from, k + 1, end);
    }
}

/// The tag that is found is the first that begins in the text, up to and with
/// the first `>` that lies in no quotes; what stands between is what it asks.
pub proof fn law_first_tag_is_found(s: Seq<char>, start: int, end: int)
    requires
        begins_tag(s, start),
        forall|j: int| 0 <= j < start ==> !#[trigger] begins_tag(s, j),
        start + 9 <= end < s.len(),
        s[end] == '>',
        !in_quotes(s, start + 9, end),
        forall|j: int|
            start + 9 <= j < end ==> !(#[trigger] s[j] == '>' && !in_quotes(s, start + 9, j)),
    ensures
        found_tag(s) == Some(
            FoundTag { start, end: end + 1, asked: inner_asks(s.subrange(start + 1, end)) },
        ),
{
    lemma_first_tag(s, 0, start);
    reveal(Seq::filter);
    assert(s.subrange(start + 9, start + 9) =~= Seq::empty());
    lemma_first_end(s, start + 9, start + 9, end);
}

/// An attribute has the value that stands in the quotes behind the first place
/// where its name stands with a space before it and an opening quote behind.
pub proof fn law_attribute_is_read(
    head: Seq<char>,
    key: Seq<char>,
    value: Seq<char>,
    tail: Seq<char>,
)
    requires
        quoteless(value),
        forall|j: int|
            0 <= j < head.len() ==> !#[trigger] occurs_at(
                head + (" "@ + key + "=\""@) + value + "\""@ + tail,
                " "@ + key + "=\""@,
                j,
            ),
    ensures
        attribute(head + (" "@ + key + "=\""@) + value + "\""@ + tail, key) == Some(value),
{
    reveal_strlit("\"");
    let needle = " "@ + key + "=\""@;
    let inner = head + needle + value + "\""@ + tail;
    let n = head.len() as int;
    assert(inner.subrange(n, n + needle.len()) =~= needle);
    lemma_find_is(inner, needle, 0, n);
    let rest = after(inner, n + needle.len());
    assert(rest =~= value + "\""@ + tail);
    lemma_closing_quote(value, tail);
    assert(rest.take(value.len() as int) =~= value);
}

proof fn lemma_closing_quote(value: Seq<char>, tail: Seq<char>)
    requires
        quoteless(value),
    ensures
        find(value + "\""@ + tail, "\""@) == Some(value.len() as int),
{
    reveal_strlit("\"");
    let rest = value + "\""@ + tail;
    let m = value.len() as int;
    assert(rest.subrange(m, m + 1) =~= "\""@);
    assert forall|j: int| 0 <= j < m implies !#[trigger] occurs_at(rest, "\""@, j) by {
        if occurs_at(rest, "\""@, j) {
            assert(rest.subrange(j, j + 1)[0] == rest[j]);
            assert(rest[j] == value[j]);
        }
    }
    lemma_find_is(rest, "\""@, 0, m);
}

/// A tag waits as long as it says, in decimal digits, and white space around
/// them does not matter; where nothing is said under the longer name, what is
/// said under the shorter counts.
pub proof fn law_time_to_wait_is_read(inner: Seq<char>, n: nat)
    requires
        n <= u64::MAX,
    ensures
        attribute(inner, "timeout_seconds"@) is Some && trim(
            attribute(inner, "timeout_seconds"@)->0,
        ) == decimal_text(n) ==> asked_timeout(inner) == Some(n),
        attribute(inner, "timeout_seconds"@) is None && attribute(inner, "timeout"@) is Some && trim(
            attribute(inner, "timeout"@)->0,
        ) == decimal_text(n) ==> asked_timeout(inner) == Some(n),
        attribute(inner, "timeout_seconds"@) is None && attribute(inner, "timeout"@) is None
            ==> asked_timeout(inner) is None,
{
    law_decimal_reads_back(n);
}

/// The parts of a text between its commas are those that it was put together
/// from with commas.
pub proof fn law_commas_part(parts: Seq<Seq<char>>)
    requires
        parts.len() > 0,
        forall|i: int, k: int|
            0 <= i < parts.len() && 0 <= k < parts[i].len() ==> #[trigger] parts[i][k] != ',',
    ensures
        at_commas(joined(parts, ","@)) == parts,
    decreases parts.len(),
{
    reveal_strlit(",");
    let all = joined(parts, ","@);
    let first = parts[0];
    let m = first.len() as int;
    if parts.len() == 1 {
        lemma_find_from(all, ","@, 0);
        if let Some(j) = find(all, ","@) {
            assert(all.subrange(j, j + 1)[0] == all[j]);
            assert(parts[0][j] == ',');
        }
        assert(at_commas(all) =~= parts);
    } else {
        let rest = parts.drop_first();
        lemma_joined_first(parts, ","@);
        assert(all.subrange(m, m + 1) =~= ","@);
        assert forall|j: int| 0 <= j < m implies !#[trigger] occurs_at(all, ","@, j) by {
            if occurs_at(all, ","@, j) {
                assert(all.subrange(j, j + 1)[0] == all[j]);
                assert(all[j] == parts[0][j]);
            }
        }
        lemma_find_is(all, ","@, 0, m);
        assert(all.take(m) =~= first);
        assert(after(all, m + 1) =~= joined(rest, ","@));
        assert forall|i: int, k: int|
            0 <= i < rest.len() && 0 <= k < rest[i].len() implies #[trigger] rest[i][k] != ',' by {
            assert(rest[i][k] == parts[i + 1][k]);
        }
        law_commas_part(rest);
        assert(at_commas(all) =~= parts);
    }
}

/// The items of a list are its parts without the white space around them, but
/// for those of which nothing is left.
pub proof fn law_items_are_trimmed(parts: Seq<Seq<char>>)
    ensures
        items_of(parts) == parts.map_values(|part: Seq<char>| trim(part)).filter(
            |part: Seq<char>| part.len() > 0,
        ),
    decreases parts.len(),
{
    reveal(Seq::filter);
    let cut = |part: Seq<char>| trim(part);
    let filled = |part: Seq<char>| part.len() > 0;
    if parts.len() > 0 {
        law_items_are_trimmed(parts.drop_last());
        assert(parts.map_values(cut).drop_last() =~= parts.drop_last().map_values(cut));
        assert(parts.map_values(cut).last() == trim(parts.last()));
    } else {
        assert(items_of(parts) =~= parts.map_values(cut).filter(filled));
    }
}

/// The options of a tag are the items between the commas of the quoted text
/// behind the first place where their name stands, where no other quoted text
/// follows with a comma before it; there are none where nothing is left of any.
pub proof fn law_options_are_read(head: Seq<char>, parts: Seq<Seq<char>>, tail: Seq<char>)
    requires
        parts.len() > 0,
        forall|i: int, k: int|
            0 <= i < parts.len() && 0 <= k < parts[i].len() ==> #[trigger] parts[i][k] != ',',
        quoteless(joined(parts, ","@)),
        next_quoted(tail) is None,
        forall|j: int|
            0 <= j < head.len() ==> !#[trigger] occurs_at(
                head + " options=\""@ + joined(parts, ","@) + "\""@ + tail,
                " options=\""@,
                j,
            ),
    ensures
        ({
            let inner = head + " options=\""@ + joined(parts, ","@) + "\""@ + tail;
            let items = parts.map_values(|part: Seq<char>| trim(part)).filter(
                |part: Seq<char>| part.len() > 0,
            );
            if items.len() > 0 {
                option_items(inner) == Some(items)
            } else {
                option_items(inner) is None
            }
        }),
{
    let value = joined(parts, ","@);
    lemma_options_found(head, value, tail);
    law_commas_part(parts);
    law_items_are_trimmed(parts);
}

proof fn lemma_options_found(head: Seq<char>, value: Seq<char>, tail: Seq<char>)
    requires
        quoteless(value),
        forall|j: int|
            0 <= j < head.len() ==> !#[trigger] occurs_at(
                head + " options=\""@ + value + "\""@ + tail,
                " options=\""@,
                j,
            ),
    ensures
        ({
            let inner = head + " options=\""@ + value + "\""@ + tail;
            let region = value + "\""@ + tail;
            &&& find(inner, " options=\""@) == Some(head.len() as int)
            &&& after(inner, head.len() as int + 10) == region
            &&& find(region, "\""@) == Some(value.len() as int)
            &&& region.take(value.len() as int) == value
            &&& after(region, value.len() as int + 1) == tail
        }),
{
    reveal_strlit(" options=\"");
    reveal_strlit("\"");
    let needle = " options=\""@;
    assert(needle.len() == 10);
    let inner = head + needle + value + "\""@ + tail;
    let region = value + "\""@ + tail;
    let n = head.len() as int;
    assert(inner.subrange(n, n + 10) =~= needle);
    lemma_find_is(inner, needle, 0, n);
    assert(after(inner, n + 10) =~= region);
    lemma_closing_quote(value, tail);
    assert(region.take(value.len() as int) =~= value);
    assert(after(region, value.len() as int + 1) =~= tail);
}

/// A quoted text with a comma before it is read up to its closing quote, white
/// space before the comma and before the quote aside; the others follow.
pub proof fn law_quoted_texts_are_read(
    space: Seq<char>,
    more_space: Seq<char>,
    item: Seq<char>,
    rest: Seq<char>,
)
    requires
        all_white(space),
        all_white(more_space),
        quoteless(item),
    ensures
        quoted_list(space + seq![','] + more_space + seq!['"'] + item + "\""@ + rest) == seq![item]
            + quoted_list(rest),
        next_quoted(space + seq![','] + more_space + seq!['"'] + item + "\""@ + rest) is Some,
{
    reveal_strlit("\"");
    let s = space + seq![','] + more_space + seq!['"'] + item + "\""@ + rest;
    let t = more_space + seq!['"'] + item + "\""@ + rest;
    let u = item + "\""@ + rest;
    assert(s =~= space + (seq![','] + t));
    lemma_space_is_cut(space, seq![','] + t);
    assert((seq![','] + t).drop_first() =~= t);
    assert(t =~= more_space + (seq!['"'] + u));
    lemma_space_is_cut(more_space, seq!['"'] + u);
    assert((seq!['"'] + u).drop_first() =~= u);
    lemma_closing_quote(item, rest);
    assert(u.take(item.len() as int) =~= item);
    assert(after(u, item.len() as int + 1) =~= rest);
    assert(next_quoted(s) == Some((item, rest)));
}

proof fn lemma_space_is_cut(space: Seq<char>, s: Seq<char>)
    requires
        all_white(space),
        s.len() > 0,
        !crate::text::is_white(s[0]),
    ensures
        trim_start(space + s) == s,
    decreases space.len(),
{
    let all = space + s;
    if space.len() > 0 {
        let rest = space.drop_first();
        assert(crate::text::is_white(space[0]));
        assert forall|i: int| 0 <= i < rest.len() implies crate::text::is_white(
            #[trigger] rest[i],
        ) by {
            assert(rest[i] == space[i + 1]);
        }
        assert(all.drop_first() =~= rest + s);
        lemma_space_is_cut(rest, s);
    } else {
        assert(all =~= s);
    }
}

/// Options in quotes of their own are all of them, the first with the others
/// that follow it.
pub proof fn law_quoted_options_are_read(head: Seq<char>, first: Seq<char>, tail: Seq<char>)
    requires
        quoteless(first),
        next_quoted(tail) is Some,
        forall|j: int|
            0 <= j < head.len() ==> !#[trigger] occurs_at(
                head + " options=\""@ + first + "\""@ + tail,
                " options=\""@,
                j,
            ),
    ensures
        ({
            let inner = head + " options=\""@ + first + "\""@ + tail;
            let items = (seq![first] + quoted_list(tail)).map_values(
                |part: Seq<char>| trim(part),
            ).filter(|part: Seq<char>| part.len() > 0);
            items.len() > 0 ==> option_items(inner) == Some(items)
        }),
{
    lemma_options_found(head, first, tail);
    law_items_are_trimmed(seq![first] + quoted_list(tail));
}

/// A tag asks exactly where it has a question that says something and at least
/// one option, and it asks that question, without the white space around it,
/// with those options and for that long.
pub proof fn law_tag_asks_its_question(inner: Seq<char>, question: Seq<char>)
    requires
        attribute(inner, "question"@) == Some(question),
    ensures
        !all_white(question) && option_items(inner) is Some ==> inner_asks(inner) == Some(
            Asked {
                question: trim(question),
                options: option_items(inner)->0,
                timeout_secs: asked_timeout(inner),
            },
        ),
        all_white(question) ==> inner_asks(inner) is None,
        option_items(inner) is None ==> inner_asks(inner) is None,
{
    law_trim_takes_white_space_alone(question);
}

/// What stands around a tag stays, in its order, but for white space at the end
/// of it all.
pub proof fn law_text_around_a_tag_stays(before: Seq<char>, tag: Seq<char>, rest: Seq<char>)
    requires
        found_tag(before + tag + rest) is Some,
        found_tag(before + tag + rest)->0.start == before.len(),
        found_tag(before + tag + rest)->0.end == before.len() + tag.len(),
    ensures
        without_tags(before + tag + rest) == without_tags(trim_end(before + rest)),
        found_tag(before + tag + rest)->0.asked is None ==> without_malformed(before + tag + rest)
            == without_malformed(trim_end(before + rest)),
        found_tag(before + tag + rest)->0.asked is Some ==> without_malformed(before + tag + rest)
            == before + tag + rest,
        found_tag(trim_end(before + rest)) is None ==> without_tags(before + tag + rest)
            == trim_end(before + rest),
{
    let s = before + tag + rest;
    lemma_removed_is_shorter(s);
    let n = before.len() as int;
    let m = n + tag.len();
    assert(s.take(n) =~= before);
    assert(after(s, m) =~= rest);
    assert(removed(s, n, m) == trim_end(before + rest));
}

/// A tag's name ends at white space, at its `>` or with the text: a longer name
/// is that of another tag and asks nothing.
pub proof fn law_longer_names_are_no_tags(s: Seq<char>, i: int)
    requires
        occurs_at(s, "<ask_user"@, i),
        forall|j: int| j != i ==> !#[trigger] occurs_at(s, "<ask_user"@, j),
    ensures
        i + 9 < s.len() && s[i + 9] != '>' && !crate::text::is_white(s[i + 9]) ==> found_tag(s)
            is None,
        i + 9 == s.len() || s[i + 9] == '>' || crate::text::is_white(s[i + 9]) ==> found_tag(s)
            is Some && found_tag(s)->0.start == i,
{
    reveal_strlit("<ask_user");
    let needle = "<ask_user"@;
    lemma_find_from(s, needle, 0);
    lemma_find_is(s, needle, 0, i);
    lemma_find_from(s, needle, i + 9);
    assert(tag_start(s, i + 9) is None);
    assert(tag_start(s, 0) == if name_ends(s, i + 9) {
        Some(i)
    } else {
        tag_start(s, i + 9)
    });
}

/// Options whose quotes are never closed are all that follows, parted at its
/// commas.
pub proof fn law_open_options_are_read(head: Seq<char>, parts: Seq<Seq<char>>)
    requires
        parts.len() > 0,
        forall|i: int, k: int|
            0 <= i < parts.len() && 0 <= k < parts[i].len() ==> #[trigger] parts[i][k] != ',',
        quoteless(joined(parts, ","@)),
        forall|j: int|
            0 <= j < head.len() ==> !#[trigger] occurs_at(
                head + " options=\""@ + joined(parts, ","@),
                " options=\""@,
                j,
            ),
    ensures
        ({
            let inner = head + " options=\""@ + joined(parts, ","@);
            let items = parts.map_values(|part: Seq<char>| trim(part)).filter(
                |part: Seq<char>| part.len() > 0,
            );
            items.len() > 0 ==> option_items(inner) == Some(items)
        }),
{
    reveal_strlit(" options=\"");
    reveal_strlit("\"");
    let needle = " options=\""@;
    assert(needle.len() == 10);
    let value = joined(parts, ","@);
    let inner = head + needle + value;
    let n = head.len() as int;
    assert(inner.subrange(n, n + 10) =~= needle);
    lemma_find_is(inner, needle, 0, n);
    assert(after(inner, n + 10) =~= value);
    lemma_find_from(value, "\""@, 0);
    if let Some(j) = find(value, "\""@) {
        assert(value.subrange(j, j + 1)[0] == value[j]);
    }
    law_commas_part(parts);
    law_items_are_trimmed(parts);
}

} // verus!
