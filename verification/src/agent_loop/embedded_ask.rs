//! Questions that a model wrote into its text, as an `<ask_user ...>` tag,
//! where it should have called the tool of that name.
use crate::numbers::{parse_u64, parse_uint};
use crate::text::{
    after, begins, byte_len, byte_offset, char_is_white, chars_before, chars_of, find, find_from,
    find_text, is_at_byte, is_white, join2, lemma_byte_len_grows, lemma_find_from, lemma_find_is,
    occurs_at, part, search, texts, trim, trim_end, trim_start, trimmed, trimmed_end, trimmed_start,
};
use std::ops::Range;
use vstd::prelude::*;
use vstd::string::*;

verus! {

/// A question in a text.
#[derive(Debug)]
pub enum EmbeddedAsk {
    /// A tag that can be read.
    WellFormed {
        /// Where the tag stands, in bytes.
        span: Range<usize>,
        /// The question.
        question: String,
        /// The answers to choose from.
        options: Vec<String>,
        /// How long to wait for the answer, in seconds.
        timeout_secs: Option<u64>,
    },
    /// A tag that cannot be read.
    Malformed {
        /// Where the tag stands, in bytes.
        span: Range<usize>,
    },
}

/// What a tag asks.
#[verifier::ext_equal]
pub struct Asked {
    /// The question.
    pub question: Seq<char>,
    /// The answers to choose from.
    pub options: Seq<Seq<char>>,
    /// How long to wait for the answer, in seconds.
    pub timeout_secs: Option<nat>,
}

/// Whether a tag's name ends at position `i`: at white space, at `>` or at the
/// end of the text.
pub open spec fn name_ends(s: Seq<char>, i: int) -> bool {
    i >= s.len() || is_white(s[i]) || s[i] == '>'
}

/// Where the first tag from position `from` on begins.
pub open spec fn tag_start(s: Seq<char>, from: int) -> Option<int>
    decreases s.len() - from,
{
    match find_from(s, "<ask_user"@, from) {
        Some(i) => if name_ends(s, i + 9) {
            Some(i)
        } else {
            proof {
                reveal_strlit("<ask_user");
                if 0 <= from {
                    lemma_find_from(s, "<ask_user"@, from);
                }
            }
            tag_start(s, i + 9)
        },
        None => None,
    }
}

/// The first `>` outside double quotes from position `i` on.
pub open spec fn tag_end(s: Seq<char>, i: int, in_quote: bool) -> Option<int>
    decreases s.len() - i,
{
    if i < 0 || i >= s.len() {
        None
    } else if s[i] == '>' && !in_quote {
        Some(i)
    } else {
        tag_end(s, i + 1, in_quote != (s[i] == '"'))
    }
}

/// What stands before the first double quote of a text.
pub open spec fn unquoted(s: Seq<char>) -> Option<Seq<char>> {
    match find(s, "\""@) {
        Some(i) => Some(s.take(i)),
        None => None,
    }
}

/// The value of the attribute `key`: what stands in the quotes after
/// ` key=`.
pub open spec fn attribute(inner: Seq<char>, key: Seq<char>) -> Option<Seq<char>> {
    let needle = " "@ + key + "=\""@;
    match find(inner, needle) {
        Some(i) => unquoted(after(inner, i + needle.len())),
        None => None,
    }
}

/// The texts without the white space around them, as far as anything is left.
pub open spec fn items_of(parts: Seq<Seq<char>>) -> Seq<Seq<char>>
    decreases parts.len(),
{
    if parts.len() == 0 {
        Seq::empty()
    } else {
        let rest = items_of(parts.drop_last());
        if trim(parts.last()).len() > 0 {
            rest.push(trim(parts.last()))
        } else {
            rest
        }
    }
}

/// The parts of a text between its commas.
pub open spec fn at_commas(s: Seq<char>) -> Seq<Seq<char>>
    decreases s.len(),
{
    match find(s, ","@) {
        Some(i) => {
            proof {
                reveal_strlit(",");
                lemma_find_from(s, ","@, 0);
            }
            seq![s.take(i)] + at_commas(after(s, i + 1))
        },
        None => seq![s],
    }
}

/// What follows the first character, where that is `c`, white space before
/// it aside.
pub open spec fn past(s: Seq<char>, c: char) -> Option<Seq<char>> {
    let t = trim_start(s);
    if t.len() > 0 && t[0] == c {
        Some(t.drop_first())
    } else {
        None
    }
}

/// The quoted text after a comma that `s` begins with, and what follows it.
pub open spec fn next_quoted(s: Seq<char>) -> Option<(Seq<char>, Seq<char>)> {
    match past(s, ',') {
        Some(t) => match past(t, '"') {
            Some(u) => match find(u, "\""@) {
                Some(i) => Some((u.take(i), after(u, i + 1))),
                None => None,
            },
            None => None,
        },
        None => None,
    }
}

proof fn lemma_trim_start_len(s: Seq<char>)
    ensures
        trim_start(s).len() <= s.len(),
    decreases s.len(),
{
    if s.len() > 0 && is_white(s[0]) {
        lemma_trim_start_len(s.drop_first());
    }
}

/// What is left after a quoted text is shorter.
pub proof fn lemma_next_quoted(s: Seq<char>)
    ensures
        next_quoted(s) matches Some((item, rest)) ==> rest.len() < s.len(),
{
    reveal_strlit("\"");
    lemma_trim_start_len(s);
    if let Some(t) = past(s, ',') {
        lemma_trim_start_len(t);
        if let Some(u) = past(t, '"') {
            lemma_find_from(u, "\""@, 0);
        }
    }
}

/// The quoted texts that follow, each after a comma.
pub open spec fn quoted_list(s: Seq<char>) -> Seq<Seq<char>>
    decreases s.len(),
{
    match next_quoted(s) {
        Some((item, rest)) => {
            proof {
                lemma_next_quoted(s);
            }
            seq![item] + quoted_list(rest)
        },
        None => Seq::empty(),
    }
}

/// The options of a tag: the parts between the commas of one quoted text, or
/// quoted texts of their own with commas between them.
pub open spec fn option_items(inner: Seq<char>) -> Option<Seq<Seq<char>>> {
    match find(inner, " options=\""@) {
        Some(i) => {
            let region = after(inner, i + 10);
            let items = match find(region, "\""@) {
                Some(end) => {
                    let rest = after(region, end + 1);
                    if next_quoted(rest) is Some {
                        items_of(seq![region.take(end)] + quoted_list(rest))
                    } else {
                        items_of(at_commas(region.take(end)))
                    }
                },
                None => items_of(at_commas(region)),
            };
            if items.len() > 0 {
                Some(items)
            } else {
                None
            }
        },
        None => None,
    }
}

/// The seconds that a tag asks to wait.
pub open spec fn asked_timeout(inner: Seq<char>) -> Option<nat> {
    let value = match attribute(inner, "timeout_seconds"@) {
        Some(value) => Some(value),
        None => attribute(inner, "timeout"@),
    };
    match value {
        Some(value) => parse_uint(trim(value), u64::MAX as nat),
        None => None,
    }
}

/// What the inside of a tag asks, where it has a question and options.
pub open spec fn inner_asks(inner: Seq<char>) -> Option<Asked> {
    match attribute(inner, "question"@) {
        Some(question) => if trim(question).len() == 0 {
            None
        } else {
            match option_items(inner) {
                Some(options) => Some(
                    Asked {
                        question: trim(question),
                        options,
                        timeout_secs: asked_timeout(inner),
                    },
                ),
                None => None,
            }
        },
        None => None,
    }
}

/// A tag in a text: its first character, the character after its last, and what
/// it asks, where it can be read.
#[verifier::ext_equal]
pub struct FoundTag {
    /// The first character.
    pub start: int,
    /// The character after the last.
    pub end: int,
    /// What it asks.
    pub asked: Option<Asked>,
}

/// The first tag in a text. One that does not end takes in the rest of the
/// text.
pub open spec fn found_tag(s: Seq<char>) -> Option<FoundTag> {
    match tag_start(s, 0) {
        Some(start) => match tag_end(s, start + 9, false) {
            Some(end) => Some(
                FoundTag { start, end: end + 1, asked: inner_asks(s.subrange(start + 1, end)) },
            ),
            None => Some(FoundTag { start, end: s.len() as int, asked: None }),
        },
        None => None,
    }
}

/// The text without the characters from `start` to `end`, and without white
/// space at its end.
pub open spec fn removed(s: Seq<char>, start: int, end: int) -> Seq<char> {
    trim_end(s.take(start) + after(s, end))
}

/// A tag takes in at least its beginning, and lies in the text.
pub proof fn lemma_tag_start(s: Seq<char>, from: int)
    requires
        0 <= from,
    ensures
        tag_start(s, from) matches Some(i) ==> {
            &&& from <= i
            &&& i + 9 <= s.len()
            &&& begins(after(s, i), "<ask_user"@)
            &&& name_ends(s, i + 9)
        },
    decreases s.len() - from,
{
    reveal_strlit("<ask_user");
    lemma_find_from(s, "<ask_user"@, from);
    match find_from(s, "<ask_user"@, from) {
        Some(i) => if name_ends(s, i + 9) {
            assert(after(s, i).subrange(0, 9) =~= s.subrange(i, i + 9));
        } else {
            lemma_tag_start(s, i + 9);
        },
        None => {},
    }
}

proof fn lemma_tag_end(s: Seq<char>, i: int, in_quote: bool)
    requires
        0 <= i,
    ensures
        tag_end(s, i, in_quote) matches Some(j) ==> i <= j < s.len() && s[j] == '>',
    decreases s.len() - i,
{
    if i < s.len() && !(s[i] == '>' && !in_quote) {
        lemma_tag_end(s, i + 1, in_quote != (s[i] == '"'));
    }
}

/// A tag takes in at least its beginning, and lies in the text.
pub proof fn lemma_found_tag(s: Seq<char>)
    ensures
        found_tag(s) matches Some(tag) ==> 0 <= tag.start && tag.start + 9 <= tag.end <= s.len(),
{
    lemma_tag_start(s, 0);
    if let Some(start) = tag_start(s, 0) {
        lemma_tag_end(s, start + 9, false);
    }
}

proof fn lemma_trim_end_len(s: Seq<char>)
    ensures
        trim_end(s).len() <= s.len(),
    decreases s.len(),
{
    if s.len() > 0 && is_white(s.last()) {
        lemma_trim_end_len(s.drop_last());
    }
}

/// A text is shorter without one of its tags.
pub proof fn lemma_removed_is_shorter(s: Seq<char>)
    ensures
        found_tag(s) matches Some(tag) ==> removed(s, tag.start, tag.end).len() < s.len(),
{
    lemma_found_tag(s);
    if let Some(tag) = found_tag(s) {
        lemma_trim_end_len(s.take(tag.start) + after(s, tag.end));
    }
}

/// The text without its first tag, as often as that tag cannot be read.
pub open spec fn without_malformed(s: Seq<char>) -> Seq<char>
    decreases s.len(),
{
    match found_tag(s) {
        Some(tag) => if tag.asked is None {
            proof {
                lemma_removed_is_shorter(s);
            }
            without_malformed(removed(s, tag.start, tag.end))
        } else {
            s
        },
        None => s,
    }
}

/// The text without its tags, whether they can be read or not.
pub open spec fn without_tags(s: Seq<char>) -> Seq<char>
    decreases s.len(),
{
    match found_tag(s) {
        Some(tag) => {
            proof {
                lemma_removed_is_shorter(s);
            }
            without_tags(removed(s, tag.start, tag.end))
        },
        None => s,
    }
}

/// Where the first tag begins.
fn find_tag_start(text: &str) -> (r: Option<usize>)
    ensures
        match r {
            Some(i) => tag_start(text@, 0) == Some(i as int),
            None => tag_start(text@, 0) is None,
        },
{
    let chars = chars_of(text);
    let tag = chars_of("<ask_user");
    proof {
        reveal_strlit("<ask_user");
    }
    let n: usize = chars.len();
    let mut from: usize = 0;
    loop
        invariant
            chars@ == text@,
            tag@ == "<ask_user"@,
            tag@.len() == 9,
            from <= chars@.len() == n,
            tag_start(text@, from as int) == tag_start(text@, 0),
        decreases n - from,
    {
        proof {
            lemma_find_from(text@, "<ask_user"@, from as int);
        }
        match search(chars.as_slice(), tag.as_slice(), from) {
            Some(i) => {
                let next: usize = i + 9;
                if next == n || char_is_white(chars[next]) || chars[next] == '>' {
                    return Some(i);
                }
                from = next;
            },
            None => {
                return None;
            },
        }
    }
}

/// The first `>` outside double quotes from position `from` on.
fn find_tag_end(text: &str, from: usize) -> (r: Option<usize>)
    ensures
        match r {
            Some(i) => tag_end(text@, from as int, false) == Some(i as int),
            None => tag_end(text@, from as int, false) is None,
        },
{
    let chars = chars_of(text);
    let mut in_quote: bool = false;
    let mut i: usize = from;
    while i < chars.len()
        invariant
            chars@ == text@,
            tag_end(text@, i as int, in_quote) == tag_end(text@, from as int, false),
        decreases chars@.len() - i,
    {
        let c: char = chars[i];
        if c == '"' {
            in_quote = !in_quote;
        } else if c == '>' && !in_quote {
            return Some(i);
        }
        i += 1;
    }
    None
}

/// What stands before the first double quote of a text, and what stands after
/// it.
fn split_at_quote(s: &str) -> (r: Option<(String, String)>)
    ensures
        match r {
            Some((head, rest)) => match find(s@, "\""@) {
                Some(i) => head@ == s@.take(i) && rest@ == after(s@, i + 1),
                None => false,
            },
            None => find(s@, "\""@) is None,
        },
{
    proof {
        reveal_strlit("\"");
        lemma_find_from(s@, "\""@, 0);
    }
    let n: usize = s.unicode_len();
    match find_text(s, "\"") {
        Some(i) => {
            let head = part(s, 0, i);
            assert(head@ =~= s@.take(i as int));
            Some((head, part(s, i + 1, n)))
        },
        None => None,
    }
}

/// The value of the attribute `key`.
fn extract_attr(text: &str, key: &str) -> (r: Option<String>)
    ensures
        match r {
            Some(value) => attribute(text@, key@) == Some(value@),
            None => attribute(text@, key@) is None,
        },
{
    let needle = " ".to_owned().concat(key).concat("=\"");
    proof {
        lemma_find_from(text@, needle@, 0);
    }
    let n: usize = text.unicode_len();
    match find_text(text, needle.as_str()) {
        Some(i) => {
            let rest = part(text, i + needle.as_str().unicode_len(), n);
            match split_at_quote(rest.as_str()) {
                Some((value, _)) => Some(value),
                None => None,
            }
        },
        None => None,
    }
}

/// Adds the text to the items, without the white space around it, where
/// anything is left.
fn push_item(items: &mut Vec<String>, text: &str)
    ensures
        forall|parts: Seq<Seq<char>>|
            texts(old(items)@) == items_of(parts) ==> texts(final(items)@) == items_of(
                #[trigger] parts.push(text@),
            ),
{
    let ghost before = items@;
    let item = trimmed(text);
    assert(forall|parts: Seq<Seq<char>>| (#[trigger] parts.push(text@)).drop_last() =~= parts);
    if !item.as_str().is_empty() {
        items.push(item);
        assert(texts(items@) =~= texts(before).push(item@));
    }
}

/// The parts of a text between its commas, without the white space around
/// them, as far as anything is left.
fn split_items(s: &str) -> (r: Vec<String>)
    ensures
        texts(r@) == items_of(at_commas(s@)),
{
    let ghost mut parts: Seq<Seq<char>> = Seq::empty();
    let mut items: Vec<String> = Vec::new();
    let mut rest = s.to_owned();
    proof {
        reveal_strlit(",");
        assert(texts(items@) =~= items_of(parts));
        assert(parts + at_commas(rest@) =~= at_commas(s@));
    }
    loop
        invariant
            ","@.len() == 1,
            texts(items@) == items_of(parts),
            parts + at_commas(rest@) == at_commas(s@),
        decreases rest@.len(),
    {
        proof {
            lemma_find_from(rest@, ","@, 0);
        }
        let n: usize = rest.as_str().unicode_len();
        match find_text(rest.as_str(), ",") {
            Some(i) => {
                let head = part(rest.as_str(), 0, i);
                assert(head@ =~= rest@.take(i as int));
                push_item(&mut items, head.as_str());
                let tail = part(rest.as_str(), i + 1, n);
                proof {
                    assert(parts.push(head@) + at_commas(tail@) =~= parts + (seq![head@] + at_commas(
                        tail@,
                    )));
                    parts = parts.push(head@);
                }
                rest = tail;
            },
            None => {
                push_item(&mut items, rest.as_str());
                assert(parts.push(rest@) =~= parts + seq![rest@]);
                return items;
            },
        }
    }
}

/// What follows the first character, where that is `c`, white space before it
/// aside.
fn text_past(s: &str, c: char) -> (r: Option<String>)
    ensures
        match r {
            Some(rest) => past(s@, c) == Some(rest@),
            None => past(s@, c) is None,
        },
{
    let t = trimmed_start(s);
    let n: usize = t.as_str().unicode_len();
    if n > 0 && t.as_str().get_char(0) == c {
        let rest = part(t.as_str(), 1, n);
        assert(rest@ =~= t@.drop_first());
        Some(rest)
    } else {
        None
    }
}

/// The quoted text after a comma that `s` begins with, and what follows it.
fn take_quoted(s: &str) -> (r: Option<(String, String)>)
    ensures
        match r {
            Some((item, rest)) => next_quoted(s@) == Some((item@, rest@)),
            None => next_quoted(s@) is None,
        },
{
    match text_past(s, ',') {
        Some(t) => match text_past(t.as_str(), '"') {
            Some(u) => split_at_quote(u.as_str()),
            None => None,
        },
        None => None,
    }
}

/// The options of a tag.
fn extract_options(inner: &str) -> (r: Option<Vec<String>>)
    ensures
        match r {
            Some(options) => option_items(inner@) == Some(texts(options@)),
            None => option_items(inner@) is None,
        },
{
    proof {
        reveal_strlit(" options=\"");
        lemma_find_from(inner@, " options=\""@, 0);
    }
    let n: usize = inner.unicode_len();
    let region = match find_text(inner, " options=\"") {
        Some(i) => part(inner, i + 10, n),
        None => {
            return None;
        },
    };
    let items: Vec<String> = match split_at_quote(region.as_str()) {
        Some((first, rest)) => {
            let ghost list = quoted_list(rest@);
            if take_quoted(rest.as_str()).is_some() {
                let mut items: Vec<String> = Vec::new();
                let ghost mut parts: Seq<Seq<char>> = Seq::empty();
                assert(texts(items@) =~= items_of(parts));
                push_item(&mut items, first.as_str());
                proof {
                    parts = parts.push(first@);
                    assert(parts =~= seq![first@]);
                }
                let mut rest = rest;
                loop
                    invariant
                        texts(items@) == items_of(parts),
                        parts + quoted_list(rest@) == seq![first@] + list,
                    ensures
                        texts(items@) == items_of(seq![first@] + list),
                    decreases rest@.len(),
                {
                    proof {
                        lemma_next_quoted(rest@);
                    }
                    match take_quoted(rest.as_str()) {
                        Some((item, tail)) => {
                            push_item(&mut items, item.as_str());
                            proof {
                                assert(parts.push(item@) + quoted_list(tail@) =~= parts + (
                                seq![item@] + quoted_list(tail@)));
                                parts = parts.push(item@);
                            }
                            rest = tail;
                        },
                        None => {
                            assert(parts + Seq::<Seq<char>>::empty() =~= parts);
                            break;
                        },
                    }
                }
                items
            } else {
                split_items(first.as_str())
            }
        },
        None => split_items(region.as_str()),
    };
    if items.len() == 0 {
        None
    } else {
        Some(items)
    }
}

/// What a timeout is, as a number.
pub open spec fn timeout_view(timeout: Option<u64>) -> Option<nat> {
    match timeout {
        Some(secs) => Some(secs as nat),
        None => None,
    }
}

/// What the inside of a tag asks: the question, the options and the timeout.
fn parse_inner(inner: &str) -> (r: Option<(String, Vec<String>, Option<u64>)>)
    ensures
        match r {
            Some((question, options, timeout_secs)) => inner_asks(inner@) == Some(
                Asked {
                    question: question@,
                    options: texts(options@),
                    timeout_secs: timeout_view(timeout_secs),
                },
            ),
            None => inner_asks(inner@) is None,
        },
{
    let question = match extract_attr(inner, "question") {
        Some(question) => trimmed(question.as_str()),
        None => {
            return None;
        },
    };
    if question.as_str().is_empty() {
        return None;
    }
    let options = match extract_options(inner) {
        Some(options) => options,
        None => {
            return None;
        },
    };
    let value = match extract_attr(inner, "timeout_seconds") {
        Some(value) => Some(value),
        None => extract_attr(inner, "timeout"),
    };
    let timeout_secs: Option<u64> = match value {
        Some(value) => parse_u64(trimmed(value.as_str()).as_str()),
        None => None,
    };
    Some((question, options, timeout_secs))
}

/// Whether the bytes `span` of the text are its characters from `start` to
/// `end`.
pub open spec fn spans(s: Seq<char>, span: Range<usize>, start: int, end: int) -> bool {
    is_at_byte(s, start, span.start as int) && is_at_byte(s, end, span.end as int)
}

/// Whether `ask` is what stands in the text.
pub open spec fn is_first_tag(s: Seq<char>, ask: EmbeddedAsk) -> bool {
    match found_tag(s) {
        Some(tag) => match ask {
            EmbeddedAsk::WellFormed { span, question, options, timeout_secs } => {
                &&& spans(s, span, tag.start, tag.end)
                &&& tag.asked == Some(
                    Asked {
                        question: question@,
                        options: texts(options@),
                        timeout_secs: timeout_view(timeout_secs),
                    },
                )
            },
            EmbeddedAsk::Malformed { span } => {
                &&& spans(s, span, tag.start, tag.end)
                &&& tag.asked is None
            },
        },
        None => false,
    }
}

/// The first tag in a text.
pub fn find_embedded_ask(text: &str) -> (r: Option<EmbeddedAsk>)
    ensures
        match r {
            Some(ask) => is_first_tag(text@, ask),
            None => found_tag(text@) is None,
        },
{
    proof {
        lemma_tag_start(text@, 0);
        lemma_found_tag(text@);
    }
    let n: usize = text.unicode_len();
    let start: usize = match find_tag_start(text) {
        Some(start) => start,
        None => {
            return None;
        },
    };
    proof {
        lemma_tag_end(text@, start + 9, false);
    }
    let from: usize = byte_offset(text, start);
    match find_tag_end(text, start + 9) {
        Some(end) => {
            let span = Range { start: from, end: byte_offset(text, end + 1) };
            let inner = part(text, start + 1, end);
            match parse_inner(inner.as_str()) {
                Some((question, options, timeout_secs)) => Some(
                    EmbeddedAsk::WellFormed { span, question, options, timeout_secs },
                ),
                None => Some(EmbeddedAsk::Malformed { span }),
            }
        },
        None => Some(
            EmbeddedAsk::Malformed { span: Range { start: from, end: byte_offset(text, n) } },
        ),
    }
}

/// The text without the bytes `span`, and without white space at its end.
pub fn remove_span(text: &str, span: Range<usize>) -> (r: String)
    requires
        exists|i: int| is_at_byte(text@, i, span.start as int),
        exists|i: int| is_at_byte(text@, i, span.end as int),
    ensures
        forall|start: int, end: int|
            spans(text@, span, start, end) ==> r@ == #[trigger] removed(text@, start, end),
{
    let n: usize = text.unicode_len();
    match (chars_before(text, span.start), chars_before(text, span.end)) {
        (Some(start), Some(end)) => {
            let head = part(text, 0, start);
            assert(head@ =~= text@.take(start as int));
            let r = trimmed_end(join2(head.as_str(), part(text, end, n).as_str()).as_str());
            assert forall|i: int, j: int| spans(text@, span, i, j) implies r@ == #[trigger] removed(
                text@,
                i,
                j,
            ) by {
                lemma_same_place(text@, i, start as int);
                lemma_same_place(text@, j, end as int);
            }
            r
        },
        _ => text.to_owned(),
    }
}

/// Two beginnings of a text that take the same number of bytes are the same.
proof fn lemma_same_place(s: Seq<char>, i: int, j: int)
    requires
        0 <= i <= s.len(),
        0 <= j <= s.len(),
        byte_len(s.take(i)) == byte_len(s.take(j)),
    ensures
        i == j,
{
    if i < j {
        lemma_byte_len_grows(s, i, j);
    } else if j < i {
        lemma_byte_len_grows(s, j, i);
    }
}

/// The text without the tags that cannot be read and that no readable tag
/// stands before.
pub fn strip_malformed(text: &str) -> (r: String)
    ensures
        r@ == without_malformed(text@),
{
    let mut rest = text.to_owned();
    loop
        invariant
            without_malformed(rest@) == without_malformed(text@),
        decreases rest@.len(),
    {
        proof {
            lemma_removed_is_shorter(rest@);
        }
        match find_embedded_ask(rest.as_str()) {
            Some(EmbeddedAsk::Malformed { span }) => {
                let ghost tag = found_tag(rest@).unwrap();
                assert(is_at_byte(rest@, tag.start, span.start as int));
                assert(is_at_byte(rest@, tag.end, span.end as int));
                let shorter = remove_span(rest.as_str(), span);
                assert(shorter@ == removed(rest@, tag.start, tag.end));
                rest = shorter;
            },
            _ => {
                return rest;
            },
        }
    }
}

/// The text without its tags, whether they can be read or not.
pub fn strip_tags(text: &str) -> (r: String)
    ensures
        r@ == without_tags(text@),
{
    let mut rest = text.to_owned();
    loop
        invariant
            without_tags(rest@) == without_tags(text@),
        decreases rest@.len(),
    {
        proof {
            lemma_removed_is_shorter(rest@);
        }
        let span = match find_embedded_ask(rest.as_str()) {
            Some(EmbeddedAsk::WellFormed { span, .. }) => span,
            Some(EmbeddedAsk::Malformed { span }) => span,
            None => {
                return rest;
            },
        };
        let ghost tag = found_tag(rest@).unwrap();
        assert(is_at_byte(rest@, tag.start, span.start as int));
        assert(is_at_byte(rest@, tag.end, span.end as int));
        let shorter = remove_span(rest.as_str(), span);
        assert(shorter@ == removed(rest@, tag.start, tag.end));
        rest = shorter;
    }
}

/// Where the first tag of a text is no longer one that cannot be read, the
/// stripping is done: what is delivered never begins its tags with a broken
/// one.
pub proof fn law_no_malformed_tag_is_left(s: Seq<char>)
    ensures
        found_tag(without_malformed(s)) matches Some(tag) ==> tag.asked is Some,
        without_malformed(without_malformed(s)) == without_malformed(s),
    decreases s.len(),
{
    lemma_removed_is_shorter(s);
    if let Some(tag) = found_tag(s) {
        if tag.asked is None {
            law_no_malformed_tag_is_left(removed(s, tag.start, tag.end));
        }
    }
}

/// No tag is left in a text without its tags, however many there were, and a
/// text without tags stays as it is.
pub proof fn law_no_tag_is_left(s: Seq<char>)
    ensures
        found_tag(without_tags(s)) is None,
        found_tag(s) is None ==> without_tags(s) == s,
    decreases s.len(),
{
    lemma_removed_is_shorter(s);
    if let Some(tag) = found_tag(s) {
        law_no_tag_is_left(removed(s, tag.start, tag.end));
    }
}

proof fn lemma_no_tag_from(s: Seq<char>, more: Seq<char>, from: int)
    requires
        0 <= from,
        tag_start(s, from) is None,
        more.len() > 0,
        is_white(more[0]),
        forall|i: int| 0 <= i < more.len() ==> more[i] != '<',
    ensures
        tag_start(s + more, from) is None,
    decreases s.len() - from,
{
    reveal_strlit("<ask_user");
    let needle = "<ask_user"@;
    let all = s + more;
    lemma_find_from(s, needle, from);
    lemma_find_from(all, needle, from);
    if let Some(i) = find_from(all, needle, from) {
        assert(all.subrange(i, i + 9)[0] == '<');
        assert(all[i] == '<');
        assert(i < s.len());
        if i + 9 > s.len() {
            assert(all[s.len() as int] == more[0]);
            assert(all.subrange(i, i + 9)[s.len() - i] == more[0]);
            assert(false);
        }
        assert(s.subrange(i, i + 9) =~= all.subrange(i, i + 9));
        assert(occurs_at(s, needle, i));
        assert forall|j: int| from <= j < i implies !#[trigger] occurs_at(s, needle, j) by {
            if occurs_at(s, needle, j) {
                assert(all.subrange(j, j + 9) =~= s.subrange(j, j + 9));
                assert(occurs_at(all, needle, j));
            }
        }
        lemma_find_is(s, needle, from, i);
        assert(!name_ends(s, i + 9));
        assert(all[i + 9] == s[i + 9]);
        lemma_no_tag_from(s, more, i + 9);
    }
}

/// What follows a text without tags brings no tag about, where it begins with
/// white space and holds no `<`.
pub proof fn lemma_no_tag_behind(s: Seq<char>, more: Seq<char>)
    requires
        found_tag(s) is None,
        more.len() > 0,
        is_white(more[0]),
        forall|i: int| 0 <= i < more.len() ==> more[i] != '<',
    ensures
        found_tag(s + more) is None,
{
    lemma_no_tag_from(s, more, 0);
}

/// A text without the beginning of a tag holds no question and stays as it is.
pub proof fn law_plain_text_stays(s: Seq<char>)
    requires
        find(s, "<ask_user"@) is None,
    ensures
        found_tag(s) is None,
        without_malformed(s) == s,
{
}

} // verus!
