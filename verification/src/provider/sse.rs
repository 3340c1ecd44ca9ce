//! Server-sent events. Only the data of an event counts; its name, its id and
//! comments are ignored.
use crate::numbers::{decimal_string, decimal_text};
use crate::text::{
    after, begins, join, joined, lines, lossy_text, option_text, part, split_lines, starts_with, text_of_bytes,
    texts, without_cr,
};
use vstd::prelude::*;
use vstd::string::*;

verus! {

/// An event of a stream.
#[derive(Debug)]
pub enum Event {
    /// The stream is open.
    Open,
    /// A message has come in.
    Message(Message),
}

/// A message of a stream.
#[derive(Debug)]
pub struct Message {
    /// The data lines of the event, with line feeds between them.
    pub data: String,
}

/// Where an event that ends with a blank line is followed by the next: one
/// past the first line feed that stands after another one, or after another
/// one and a carriage return.
pub open spec fn is_blank_line(buf: Seq<u8>, i: int, end: int) -> bool {
    &&& 0 <= i < buf.len()
    &&& buf[i] == 10
    &&& {
        ||| end == i + 2 && i + 1 < buf.len() && buf[i + 1] == 10
        ||| end == i + 3 && i + 2 < buf.len() && buf[i + 1] == 13 && buf[i + 2] == 10
    }
}

/// The end of the first event from position `i` on.
pub open spec fn event_end_from(buf: Seq<u8>, i: int) -> Option<int>
    decreases buf.len() - i,
{
    if i < 0 || i >= buf.len() {
        None
    } else if is_blank_line(buf, i, i + 2) {
        Some(i + 2)
    } else if is_blank_line(buf, i, i + 3) {
        Some(i + 3)
    } else {
        event_end_from(buf, i + 1)
    }
}

/// The end of the first event in `buf`.
pub open spec fn event_end(buf: Seq<u8>) -> Option<int> {
    event_end_from(buf, 0)
}

/// The data in a line: what follows `data:` and at most one blank.
pub open spec fn data_of_line(line: Seq<char>) -> Option<Seq<char>> {
    let line = without_cr(line);
    if begins(line, "data:"@) {
        let rest = after(line, 5);
        Some(
            if begins(rest, " "@) {
                after(rest, 1)
            } else {
                rest
            },
        )
    } else {
        None
    }
}

/// The data of the lines that have some.
pub open spec fn data_of_lines(lines: Seq<Seq<char>>) -> Seq<Seq<char>>
    decreases lines.len(),
{
    if lines.len() == 0 {
        Seq::empty()
    } else {
        match data_of_line(lines.last()) {
            Some(data) => data_of_lines(lines.drop_last()).push(data),
            None => data_of_lines(lines.drop_last()),
        }
    }
}

/// The data of an event: nothing where no line has any.
pub open spec fn event_data(event: Seq<char>) -> Option<Seq<char>> {
    let data = data_of_lines(lines(event));
    if data.len() == 0 {
        None
    } else {
        Some(joined(data, "\n"@))
    }
}

/// The end of the first event in `buf`.
pub fn find_event_end(buf: &[u8]) -> (r: Option<usize>)
    ensures
        match r {
            Some(end) => event_end(buf@) == Some(end as int) && end <= buf@.len(),
            None => event_end(buf@) is None,
        },
{
    let n: usize = buf.len();
    let mut i: usize = 0;
    while i < n
        invariant
            n == buf@.len(),
            i <= n,
            event_end(buf@) == event_end_from(buf@, i as int),
        decreases n - i,
    {
        if buf[i] == 10 {
            if n - i > 1 && buf[i + 1] == 10 {
                return Some(i + 2);
            }
            if n - i > 2 && buf[i + 1] == 13 && buf[i + 2] == 10 {
                return Some(i + 3);
            }
        }
        i += 1;
    }
    None
}

/// The data of an event.
pub fn parse_data(event: &str) -> (r: Option<String>)
    ensures
        option_text(r) == event_data(event@),
{
    proof {
        reveal_strlit("data:");
        reveal_strlit(" ");
    }
    let all = split_lines(event);
    let ghost views = texts(all@);
    let mut data: Vec<String> = Vec::new();
    let mut i: usize = 0;
    assert(texts(data@) =~= Seq::<Seq<char>>::empty());
    while i < all.len()
        invariant
            views == texts(all@),
            i <= all@.len(),
            texts(data@) == data_of_lines(views.take(i as int)),
            "data:"@.len() == 5,
            " "@.len() == 1,
        decreases all@.len() - i,
    {
        let ghost before = texts(data@);
        let line: &str = all[i].as_str();
        proof {
            assert(views.take(i + 1).drop_last() =~= views.take(i as int));
            assert(views.take(i + 1).last() == line@);
        }
        let n: usize = line.unicode_len();
        let end: usize = if n > 0 && line.get_char(n - 1) == '\r' {
            n - 1
        } else {
            n
        };
        let bare = part(line, 0, end);
        assert(bare@ =~= without_cr(line@));
        if starts_with(bare.as_str(), "data:") {
            let rest = part(bare.as_str(), 5, end);
            let value = if starts_with(rest.as_str(), " ") {
                part(rest.as_str(), 1, rest.as_str().unicode_len())
            } else {
                rest
            };
            data.push(value);
            assert(texts(data@) =~= before.push(value@));
        }
        i += 1;
    }
    assert(views.take(all@.len() as int) =~= views);
    if data.is_empty() {
        None
    } else {
        Some(join(data.as_slice(), "\n"))
    }
}

/// Takes the first complete event out of the buffer and returns its data. What
/// follows the event stays in the buffer.
pub fn take_complete_event(buf: &mut Vec<u8>) -> (r: Option<String>)
    ensures
        match event_end(old(buf)@) {
            Some(end) => final(buf)@ == old(buf)@.subrange(end, old(buf)@.len() as int)
                && option_text(r) == event_data(lossy_text(old(buf)@.take(end))),
            None => final(buf)@ == old(buf)@ && r is None,
        },
{
    let ghost start = buf@;
    match find_event_end(buf.as_slice()) {
        Some(end) => {
            let mut rest = buf.split_off(end);
            let raw = text_of_bytes(buf.as_slice());
            assert(buf@ =~= start.take(end as int));
            buf.clear();
            buf.append(&mut rest);
            assert(buf@ =~= start.subrange(end as int, start.len() as int));
            parse_data(raw.as_str())
        },
        None => None,
    }
}

/// What a stream does at its end.
#[derive(Debug)]
pub enum AtEnd {
    /// A last message is handed out first.
    Message(Message),
    /// The stream is over.
    Ended,
}

/// The end of the bytes: data that is left in the buffer is a last message.
pub fn finish_stream(buf: &mut Vec<u8>) -> (r: AtEnd)
    ensures
        final(buf)@.len() == 0,
        match r {
            AtEnd::Message(message) => old(buf)@.len() > 0 && event_data(lossy_text(old(buf)@))
                == Some(message.data@),
            AtEnd::Ended => old(buf)@.len() == 0 || event_data(lossy_text(old(buf)@)) is None,
        },
{
    if buf.is_empty() {
        return AtEnd::Ended;
    }
    let raw = text_of_bytes(buf.as_slice());
    buf.clear();
    match parse_data(raw.as_str()) {
        Some(data) => AtEnd::Message(Message { data }),
        None => AtEnd::Ended,
    }
}

/// The greatest size of an error body that is kept whole, in bytes.
pub const BODY_LIMIT: usize = 2000;

/// An error body, cut to its beginning where it is long.
pub open spec fn cut_body(text: Seq<char>) -> Seq<char> {
    let size = vstd::utf8::encode_utf8(text).len();
    if size <= BODY_LIMIT {
        text
    } else {
        (if text.len() <= BODY_LIMIT {
            text
        } else {
            text.take(BODY_LIMIT as int)
        }) + "…(truncated, "@ + decimal_text(size) + " bytes total)"@
    }
}

/// An error body, cut to its beginning where it is long.
pub fn truncate_body(text: &str) -> (r: String)
    ensures
        r@ == cut_body(text@),
{
    let size: usize = text.as_bytes().len();
    if size <= BODY_LIMIT {
        return text.to_owned();
    }
    let n: usize = text.unicode_len();
    let keep: usize = if n <= BODY_LIMIT {
        n
    } else {
        BODY_LIMIT
    };
    let head = part(text, 0, keep);
    assert(text@.take(text@.len() as int) =~= text@);
    assert(head@ =~= text@.take(keep as int));
    head.concat("…(truncated, ").concat(decimal_string(size as u64).as_str()).concat(" bytes total)")
}

/// The text of the error for an answer that is not a success.
pub open spec fn status_error(status: Seq<char>, retry_after: Option<u64>, body: Seq<char>) -> Seq<
    char,
> {
    match retry_after {
        Some(seconds) => "Invalid status code: "@ + status + " retry-after: "@ + decimal_text(
            seconds as nat,
        ) + "s body: "@ + body,
        None => "Invalid status code: "@ + status + " body: "@ + body,
    }
}

/// The text of the error for an answer that is not a success: its status, how
/// long to wait and the beginning of its body. A body that could not be read
/// is reported as such.
pub fn non_2xx_error(status: &str, retry_after: Option<u64>, body: Option<&str>) -> (r: String)
    ensures
        r@ == status_error(
            status@,
            retry_after,
            match body {
                Some(text) => cut_body(text@),
                None => "<unreadable body>"@,
            },
        ),
{
    let body: String = match body {
        Some(text) => truncate_body(text),
        None => "<unreadable body>".to_owned(),
    };
    let head: String = "Invalid status code: ".to_owned().concat(status);
    match retry_after {
        Some(seconds) => head.concat(" retry-after: ").concat(
            decimal_string(seconds).as_str(),
        ).concat("s body: ").concat(body.as_str()),
        None => head.concat(" body: ").concat(body.as_str()),
    }
}

/// An event that is complete ends at the same place whatever comes after it:
/// how the bytes are cut into chunks does not change where events end.
pub proof fn law_event_end_is_stable(buf: Seq<u8>, more: Seq<u8>)
    requires
        event_end(buf) is Some,
    ensures
        event_end(buf + more) == event_end(buf),
{
    lemma_event_end_stable(buf, more, 0);
}

proof fn lemma_event_end_stable(buf: Seq<u8>, more: Seq<u8>, i: int)
    requires
        0 <= i,
        event_end_from(buf, i) is Some,
    ensures
        event_end_from(buf + more, i) == event_end_from(buf, i),
        i + 2 <= event_end_from(buf, i)->0 <= buf.len(),
    decreases buf.len() - i,
{
    let whole = buf + more;
    if !is_blank_line(buf, i, i + 2) && !is_blank_line(buf, i, i + 3) {
        lemma_event_end_stable(buf, more, i + 1);
    }
}

/// The data of the complete events in `buf`, in order; of an event without data,
/// nothing.
pub open spec fn events_in(buf: Seq<u8>) -> Seq<Option<Seq<char>>>
    decreases buf.len(),
{
    match event_end(buf) {
        Some(end) => if 0 < end <= buf.len() {
            seq![event_data(lossy_text(buf.take(end)))] + events_in(
                buf.subrange(end, buf.len() as int),
            )
        } else {
            Seq::empty()
        },
        None => Seq::empty(),
    }
}

/// What is left in `buf` once its complete events are taken out.
pub open spec fn left_in(buf: Seq<u8>) -> Seq<u8>
    decreases buf.len(),
{
    match event_end(buf) {
        Some(end) => if 0 < end <= buf.len() {
            left_in(buf.subrange(end, buf.len() as int))
        } else {
            buf
        },
        None => buf,
    }
}

/// How the bytes are cut into chunks does not change the events: taking out
/// what is complete and going on with what is left gives the same events as
/// reading all of the bytes at once.
pub proof fn law_chunks_do_not_matter(buf: Seq<u8>, more: Seq<u8>)
    ensures
        events_in(buf + more) == events_in(buf) + events_in(left_in(buf) + more),
        left_in(buf + more) == left_in(left_in(buf) + more),
    decreases buf.len(),
{
    match event_end(buf) {
        Some(end) => {
            let all = buf + more;
            let rest = buf.subrange(end, buf.len() as int);
            lemma_event_end_stable(buf, more, 0);
            law_chunks_do_not_matter(rest, more);
            assert(all.take(end) =~= buf.take(end));
            assert(all.subrange(end, all.len() as int) =~= rest + more);
            assert(events_in(all) =~= events_in(buf) + events_in(left_in(buf) + more));
        },
        None => {
            assert(events_in(buf) + events_in(left_in(buf) + more) =~= events_in(buf + more));
        },
    }
}

/// The seconds that an error tells to wait are read back from its text, where
/// the status itself does not speak of them; the body does not matter.
pub proof fn law_told_wait_reads_back(status: Seq<char>, seconds: u64, body: Seq<char>)
    requires
        !crate::text::mentions("Invalid status code: "@ + status + " "@, "retry-after: "@),
    ensures
        crate::provider::classify::retry_after(status_error(status, Some(seconds), body)) == Some(
            seconds as nat,
        ),
{
    let before = "Invalid status code: "@ + status + " "@;
    reveal_strlit("retry-after: ");
    reveal_strlit(" retry-after: ");
    reveal_strlit(" ");
    assert(" retry-after: "@ =~= " "@ + "retry-after: "@);
    crate::provider::classify::law_retry_after_reads_back(before, seconds, body);
    assert(status_error(status, Some(seconds), body) =~= before + "retry-after: "@ + decimal_text(
        seconds as nat,
    ) + "s body: "@ + body);
}

/// Whether the first `end` bytes end with a blank line.
pub open spec fn ends_with_blank(buf: Seq<u8>, end: int) -> bool {
    &&& 0 <= end <= buf.len()
    &&& ({
        ||| end >= 2 && buf.subrange(end - 2, end) == seq![10u8, 10u8]
        ||| end >= 3 && buf.subrange(end - 3, end) == seq![10u8, 13u8, 10u8]
    })
}

proof fn lemma_blank_start(buf: Seq<u8>, end: int)
    ensures
        ends_with_blank(buf, end) <==> is_blank_line(buf, end - 2, end) || is_blank_line(
            buf,
            end - 3,
            end,
        ),
{
    if ends_with_blank(buf, end) {
        if end >= 2 && buf.subrange(end - 2, end) == seq![10u8, 10u8] {
            let line = buf.subrange(end - 2, end);
            assert(line[0] == 10 && line[1] == 10);
        } else {
            let line = buf.subrange(end - 3, end);
            assert(line[0] == 10 && line[1] == 13 && line[2] == 10);
        }
    }
    if is_blank_line(buf, end - 2, end) {
        assert(buf.subrange(end - 2, end) =~= seq![10u8, 10u8]);
    }
    if is_blank_line(buf, end - 3, end) {
        assert(buf.subrange(end - 3, end) =~= seq![10u8, 13u8, 10u8]);
    }
}

proof fn lemma_least_end(buf: Seq<u8>, i: int)
    requires
        0 <= i,
        forall|j: int, end: int| 0 <= j < i ==> !#[trigger] is_blank_line(buf, j, end),
    ensures
        match event_end_from(buf, i) {
            Some(end) => ends_with_blank(buf, end) && forall|e: int|
                #[trigger] ends_with_blank(buf, e) ==> e >= end,
            None => forall|e: int| !#[trigger] ends_with_blank(buf, e),
        },
    decreases buf.len() - i,
{
    assert forall|e: int| #[trigger] ends_with_blank(buf, e) implies is_blank_line(buf, e - 2, e)
        || is_blank_line(buf, e - 3, e) by {
        lemma_blank_start(buf, e);
    }
    if i < buf.len() {
        if is_blank_line(buf, i, i + 2) {
            lemma_blank_start(buf, i + 2);
        } else if is_blank_line(buf, i, i + 3) {
            lemma_blank_start(buf, i + 3);
        } else {
            lemma_least_end(buf, i + 1);
        }
    }
}

/// The first event ends where the first blank line ends: at the least position
/// before which one stands, and nowhere where there is none.
pub proof fn law_event_ends_at_the_first_blank_line(buf: Seq<u8>)
    ensures
        match event_end(buf) {
            Some(end) => ends_with_blank(buf, end) && forall|e: int|
                #[trigger] ends_with_blank(buf, e) ==> e >= end,
            None => forall|e: int| !#[trigger] ends_with_blank(buf, e),
        },
{
    lemma_least_end(buf, 0);
}

/// What a line tells as data: a line that begins with the word, the rest of it
/// but for one blank and a carriage return at its end; any other line nothing.
pub open spec fn line_tells(line: Seq<char>) -> Option<Seq<char>> {
    let bare = if line.len() > 0 && line[line.len() - 1] == '\r' {
        line.take(line.len() - 1)
    } else {
        line
    };
    if bare.len() >= 5 && bare.take(5) == "data:"@ {
        if bare.len() >= 6 && bare[5] == ' ' {
            Some(bare.skip(6))
        } else {
            Some(bare.skip(5))
        }
    } else {
        None
    }
}

/// The data of an event is that of its data lines, in order, with line feeds
/// between them; an event without such a line has none.
pub proof fn law_data_lines_are_joined(event: Seq<char>)
    ensures
        ({
            let data = lines(event).filter_map(|line: Seq<char>| line_tells(line));
            event_data(event) == if data.len() == 0 {
                None
            } else {
                Some(joined(data, "\n"@))
            }
        }),
{
    lemma_data_of_lines(lines(event));
}

proof fn lemma_data_of_lines(all: Seq<Seq<char>>)
    ensures
        data_of_lines(all) == all.filter_map(|line: Seq<char>| line_tells(line)),
    decreases all.len(),
{
    let tells = |line: Seq<char>| line_tells(line);
    if all.len() > 0 {
        let rest = all.drop_last();
        lemma_data_of_lines(rest);
        lemma_data_of_line(all.last());
        if let Some(data) = line_tells(all.last()) {
            assert(rest.filter_map(tells).push(data) =~= rest.filter_map(tells) + seq![data]);
        }
    } else {
        assert(data_of_lines(all) =~= all.filter_map(tells));
    }
}

proof fn lemma_data_of_line(line: Seq<char>)
    ensures
        data_of_line(line) == line_tells(line),
{
    reveal_strlit("data:");
    reveal_strlit(" ");
    let bare = without_cr(line);
    if line.len() > 0 {
        assert(line.drop_last() =~= line.take(line.len() - 1));
    }
    if bare.len() >= 5 {
        assert(bare.take(5) =~= bare.subrange(0, 5));
        let rest = after(bare, 5);
        assert(rest =~= bare.skip(5));
        if rest.len() > 0 {
            assert(rest[0] == bare[5]);
            if begins(rest, " "@) {
                assert(rest.subrange(0, 1)[0] == rest[0]);
            } else if rest[0] == ' ' {
                assert(rest.subrange(0, 1) =~= " "@);
            }
            assert(after(rest, 1) =~= bare.skip(6));
        }
    }
}

/// An error tells its status first and its body last, whole where it is short,
/// and between them how long to wait, where that is known. Of a long body the
/// beginning is told, and how long it was.
pub proof fn law_error_tells_status_and_body(
    status: Seq<char>,
    seconds: Option<u64>,
    body: Seq<char>,
)
    ensures
        ({
            let text = status_error(status, seconds, body);
            let head = "Invalid status code: "@ + status;
            let wait = match seconds {
                Some(seconds) => " retry-after: "@ + decimal_text(seconds as nat) + "s body: "@,
                None => " body: "@,
            };
            text == head + wait + body
        }),
        vstd::utf8::encode_utf8(body).len() <= 2000 ==> cut_body(body) == body,
        vstd::utf8::encode_utf8(body).len() > 2000 ==> {
            let kept: int = if body.len() < 2000 {
                body.len() as int
            } else {
                2000
            };
            &&& cut_body(body).take(kept) == body.take(kept)
            &&& cut_body(body).skip(kept) == "…(truncated, "@ + decimal_text(
                vstd::utf8::encode_utf8(body).len(),
            ) + " bytes total)"@
        },
{
    let text = status_error(status, seconds, body);
    let head = "Invalid status code: "@ + status;
    if let Some(seconds) = seconds {
        let wait = " retry-after: "@ + decimal_text(seconds as nat) + "s body: "@;
        assert(text =~= head + wait + body);
    }
    if vstd::utf8::encode_utf8(body).len() > 2000 {
        let kept: int = if body.len() < 2000 {
            body.len() as int
        } else {
            2000
        };
        assert(body.take(body.len() as int) =~= body);
        assert(cut_body(body).take(kept) =~= body.take(kept));
        assert(cut_body(body).skip(kept) =~= "…(truncated, "@ + decimal_text(
            vstd::utf8::encode_utf8(body).len(),
        ) + " bytes total)"@);
    }
}

} // verus!
