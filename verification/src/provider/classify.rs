//! How a failed model call is to be retried.
use crate::numbers::{
    decimal_text, law_decimal_reads_back, leading_digits, lemma_leading_digits, parse_u16,
    parse_u64, parse_uint, take_digits,
};
use crate::text::{
    after, all_ascii, ascii_lower, contains, find, find_text, lemma_find_from, lemma_find_is,
    lemma_lower, lower, lower_ascii, mentions, occurs_at, part, same_letters, to_lower, trim_start,
    trimmed_start,
};
use vstd::prelude::*;
use vstd::string::*;

verus! {

/// How a failed model call is to be retried.
#[derive(Debug, Clone, Copy, PartialEq, Eq, Structural)]
pub enum RetryClass {
    /// A blip of the connection: retry soon.
    Transient,
    /// The provider is busy: retry slowly.
    Throttled,
    /// The request itself is rejected: do not retry.
    Terminal,
}

/// The class of an HTTP status: 429, 502, 503 and 504 say that the provider is
/// busy, any other status from 400 to 599 rejects the request.
pub open spec fn status_class(status: nat) -> RetryClass {
    if status == 429 || status == 502 || status == 503 || status == 504 {
        RetryClass::Throttled
    } else if 400 <= status < 600 {
        RetryClass::Terminal
    } else {
        RetryClass::Transient
    }
}

/// What follows the first `marker` in `s`.
pub open spec fn following(s: Seq<char>, marker: Seq<char>) -> Option<Seq<char>> {
    match find(s, marker) {
        Some(i) => Some(after(s, i + marker.len())),
        None => None,
    }
}

/// The status in `(HTTP <status> ...`.
pub open spec fn diag_status(msg: Seq<char>) -> Option<nat> {
    match following(msg, "(HTTP "@) {
        Some(rest) => match find(rest, " "@) {
            Some(end) => parse_uint(rest.take(end), u16::MAX as nat),
            None => None,
        },
        None => None,
    }
}

/// The status in `invalid status code: <status>`.
pub open spec fn invalid_status(lower: Seq<char>) -> Option<nat> {
    match following(lower, "invalid status code:"@) {
        Some(rest) => parse_uint(leading_digits(trim_start(rest)), u16::MAX as nat),
        None => None,
    }
}

/// The seconds in `retry-after: <seconds>`.
pub open spec fn retry_after(msg: Seq<char>) -> Option<nat> {
    match following(msg, "retry-after: "@) {
        Some(rest) => parse_uint(leading_digits(rest), u64::MAX as nat),
        None => None,
    }
}

/// Whether the message tells of a blip: of the connection, or of an answer
/// that the provider sent in a broken format.
pub open spec fn is_blip(lower: Seq<char>) -> bool {
    ||| mentions(lower, "error decoding response body"@)
    ||| mentions(lower, "error sending request"@)
    ||| mentions(lower, "stream ended"@)
    ||| mentions(lower, "connection reset"@)
    ||| mentions(lower, "connection closed"@)
    ||| mentions(lower, "broken pipe"@)
    ||| mentions(lower, "operation timed out"@)
    ||| mentions(lower, "request timed out"@)
    ||| mentions(lower, "timed out"@)
    ||| mentions(lower, "dns error"@)
    ||| mentions(lower, "tcp connect error"@)
    ||| mentions(lower, "transport error"@)
    ||| mentions(lower, "incomplete message"@)
    ||| mentions(lower, "unexpected eof"@)
    ||| mentions(lower, "provider format failure"@)
}

/// The class of a message `msg` whose lower-case text is `lower`. A status in
/// the message decides; without one, the message is a blip or it is final.
pub open spec fn message_class(msg: Seq<char>, lower: Seq<char>) -> RetryClass {
    match diag_status(msg) {
        Some(status) => status_class(status),
        None => if mentions(lower, "invalid status code"@) {
            match invalid_status(lower) {
                Some(status) => status_class(status),
                None => RetryClass::Terminal,
            }
        } else if is_blip(lower) {
            RetryClass::Transient
        } else {
            RetryClass::Terminal
        },
    }
}

/// The class of an HTTP status.
pub fn classify_http_status(status: u16) -> (r: RetryClass)
    ensures
        r == status_class(status as nat),
{
    if status == 429 || status == 502 || status == 503 || status == 504 {
        RetryClass::Throttled
    } else if 400 <= status && status < 600 {
        RetryClass::Terminal
    } else {
        RetryClass::Transient
    }
}

/// What follows the first `marker` in `s`.
fn text_following(s: &str, marker: &str) -> (r: Option<String>)
    ensures
        match r {
            Some(rest) => following(s@, marker@) == Some(rest@),
            None => following(s@, marker@) is None,
        },
{
    proof {
        crate::text::lemma_find_from(s@, marker@, 0);
    }
    let n: usize = s.unicode_len();
    match find_text(s, marker) {
        Some(i) => Some(part(s, i + marker.unicode_len(), n)),
        None => None,
    }
}

/// The status in `invalid status code: <status>`.
pub fn extract_invalid_status(lower_msg: &str) -> (r: Option<u16>)
    ensures
        match r {
            Some(n) => invalid_status(lower_msg@) == Some(n as nat),
            None => invalid_status(lower_msg@) is None,
        },
{
    match text_following(lower_msg, "invalid status code:") {
        Some(rest) => parse_u16(take_digits(trimmed_start(rest.as_str()).as_str()).as_str()),
        None => None,
    }
}

/// The status in `(HTTP <status> ...`.
pub fn extract_diag_status(msg: &str) -> (r: Option<u16>)
    ensures
        match r {
            Some(n) => diag_status(msg@) == Some(n as nat),
            None => diag_status(msg@) is None,
        },
{
    match text_following(msg, "(HTTP ") {
        Some(rest) => {
            proof {
                crate::text::lemma_find_from(rest@, " "@, 0);
            }
            match find_text(rest.as_str(), " ") {
                Some(end) => {
                    let code = part(rest.as_str(), 0, end);
                    assert(code@ =~= rest@.take(end as int));
                    parse_u16(code.as_str())
                },
                None => None,
            }
        },
        None => None,
    }
}

/// The seconds that the provider asks to wait, where the message tells them.
pub fn extract_retry_after(msg: &str) -> (r: Option<u64>)
    ensures
        match r {
            Some(n) => retry_after(msg@) == Some(n as nat),
            None => retry_after(msg@) is None,
        },
{
    match text_following(msg, "retry-after: ") {
        Some(rest) => parse_u64(take_digits(rest.as_str()).as_str()),
        None => None,
    }
}

/// Whether the message tells of a blip.
pub fn matches_transient_pattern(lower_msg: &str) -> (r: bool)
    ensures
        r == is_blip(lower_msg@),
{
    contains(lower_msg, "error decoding response body") || contains(
        lower_msg,
        "error sending request",
    ) || contains(lower_msg, "stream ended") || contains(lower_msg, "connection reset") || contains(
        lower_msg,
        "connection closed",
    ) || contains(lower_msg, "broken pipe") || contains(lower_msg, "operation timed out")
        || contains(lower_msg, "request timed out") || contains(lower_msg, "timed out") || contains(
        lower_msg,
        "dns error",
    ) || contains(lower_msg, "tcp connect error") || contains(lower_msg, "transport error")
        || contains(lower_msg, "incomplete message") || contains(lower_msg, "unexpected eof")
        || contains(lower_msg, "provider format failure")
}

/// The class of the message `msg`, whose lower-case text is `lower`.
pub fn classify_message(msg: &str, lower: &str) -> (r: RetryClass)
    ensures
        r == message_class(msg@, lower@),
{
    if let Some(status) = extract_diag_status(msg) {
        return classify_http_status(status);
    }
    if contains(lower, "invalid status code") {
        return match extract_invalid_status(lower) {
            Some(status) => classify_http_status(status),
            None => RetryClass::Terminal,
        };
    }
    if matches_transient_pattern(lower) {
        RetryClass::Transient
    } else {
        RetryClass::Terminal
    }
}

/// The class of a failed call, by the whole text of its error.
pub fn classify_retry(msg: &str) -> (r: RetryClass)
    ensures
        r == message_class(msg@, lower(msg@)),
{
    classify_message(msg, to_lower(msg).as_str())
}

/// A status that the message tells decides the class: what else the message
/// says does not matter.
pub proof fn law_status_decides(msg: Seq<char>, lower: Seq<char>, status: nat)
    requires
        diag_status(msg) == Some(status),
    ensures
        message_class(msg, lower) == status_class(status),
{
}

/// The texts that tell of a blip.
pub open spec fn blip_patterns() -> Seq<Seq<char>> {
    seq![
        "error decoding response body"@,
        "error sending request"@,
        "stream ended"@,
        "connection reset"@,
        "connection closed"@,
        "broken pipe"@,
        "operation timed out"@,
        "request timed out"@,
        "timed out"@,
        "dns error"@,
        "tcp connect error"@,
        "transport error"@,
        "incomplete message"@,
        "unexpected eof"@,
        "provider format failure"@,
    ]
}

/// A message that holds no status is a blip where its lower-case text holds one
/// of the texts that tell of one, wherever that stands, and is final otherwise.
pub proof fn law_blips_are_transient(msg: Seq<char>, lower: Seq<char>)
    requires
        diag_status(msg) is None,
        !mentions(lower, "invalid status code"@),
    ensures
        message_class(msg, lower) == RetryClass::Transient <==> exists|i: int|
            0 <= i < blip_patterns().len() && mentions(lower, #[trigger] blip_patterns()[i]),
        message_class(msg, lower) != RetryClass::Throttled,
{
    let all = blip_patterns();
    if is_blip(lower) {
        assert(mentions(lower, all[0]) || mentions(lower, all[1]) || mentions(lower, all[2])
            || mentions(lower, all[3]) || mentions(lower, all[4]) || mentions(lower, all[5])
            || mentions(lower, all[6]) || mentions(lower, all[7]) || mentions(lower, all[8])
            || mentions(lower, all[9]) || mentions(lower, all[10]) || mentions(lower, all[11])
            || mentions(lower, all[12]) || mentions(lower, all[13]) || mentions(lower, all[14]));
    }
}

/// What stands in a text stands in its lower-case text in lower case.
proof fn lemma_lower_stands(msg: Seq<char>, text: Seq<char>, i: int)
    requires
        occurs_at(msg, text, i),
    ensures
        mentions(ascii_lower(msg), ascii_lower(text)),
{
    let low = ascii_lower(msg);
    let wanted = ascii_lower(text);
    assert(low.subrange(i, i + wanted.len()) =~= wanted) by {
        assert forall|k: int| 0 <= k < wanted.len() implies low[i + k] == wanted[k] by {
            assert(msg.subrange(i, i + text.len())[k] == text[k]);
        }
    }
    assert(occurs_at(low, wanted, i));
    lemma_find_from(low, wanted, 0);
}

proof fn lemma_no_status(msg: Seq<char>)
    requires
        !mentions(ascii_lower(msg), "(http "@),
    ensures
        diag_status(msg) is None,
{
    lemma_find_from(msg, "(HTTP "@, 0);
    if let Some(i) = find(msg, "(HTTP "@) {
        lemma_lower_stands(msg, "(HTTP "@, i);
        reveal_strlit("(HTTP ");
        reveal_strlit("(http ");
        assert(ascii_lower("(HTTP "@) =~= "(http "@);
    }
}

/// An ASCII message that holds no status is a blip where one of the texts that
/// tell of one stands in it, wherever and in whatever case of letters.
pub proof fn law_blips_in_any_case(msg: Seq<char>, text: Seq<char>, i: int, k: int)
    requires
        all_ascii(msg),
        !mentions(ascii_lower(msg), "(http "@),
        !mentions(ascii_lower(msg), "invalid status code"@),
        0 <= k < blip_patterns().len(),
        same_letters(text, blip_patterns()[k]),
        occurs_at(msg, text, i),
    ensures
        message_class(msg, lower(msg)) == RetryClass::Transient,
{
    let pattern = blip_patterns()[k];
    lemma_no_status(msg);
    lemma_lower_stands(msg, text, i);
    lemma_patterns_are_lower(k);
    assert(ascii_lower(text) =~= ascii_lower(pattern));
    assert(mentions(lower(msg), blip_patterns()[k]));
    law_blips_are_transient(msg, lower(msg));
}

proof fn lemma_patterns_are_lower(k: int)
    requires
        0 <= k < blip_patterns().len(),
    ensures
        ascii_lower(blip_patterns()[k]) == blip_patterns()[k],
{
    reveal_strlit("error decoding response body");
    reveal_strlit("error sending request");
    reveal_strlit("stream ended");
    reveal_strlit("connection reset");
    reveal_strlit("connection closed");
    reveal_strlit("broken pipe");
    reveal_strlit("operation timed out");
    reveal_strlit("request timed out");
    reveal_strlit("timed out");
    reveal_strlit("dns error");
    reveal_strlit("tcp connect error");
    reveal_strlit("transport error");
    reveal_strlit("incomplete message");
    reveal_strlit("unexpected eof");
    reveal_strlit("provider format failure");
    let pattern = blip_patterns()[k];
    assert forall|i: int| 0 <= i < pattern.len() implies lower_ascii(#[trigger] pattern[i])
        == pattern[i] by {}
    assert(ascii_lower(pattern) =~= pattern);
}

/// The case of letters does not change the class of an ASCII message, unless it
/// tells a status in brackets.
pub proof fn law_letter_case_does_not_matter(a: Seq<char>, b: Seq<char>)
    requires
        all_ascii(a),
        all_ascii(b),
        same_letters(a, b),
        !mentions(ascii_lower(a), "(http "@),
    ensures
        message_class(a, lower(a)) == message_class(b, lower(b)),
{
    lemma_lower(a, b);
    lemma_no_status(a);
    lemma_no_status(b);
}

/// The seconds that are written into a message are read back, where nothing
/// before them speaks of them; what follows does not matter.
pub proof fn law_retry_after_reads_back(before: Seq<char>, seconds: u64, body: Seq<char>)
    requires
        !mentions(before, "retry-after: "@),
    ensures
        retry_after(
            before + "retry-after: "@ + decimal_text(seconds as nat) + "s body: "@ + body,
        ) == Some(seconds as nat),
{
    let marker = "retry-after: "@;
    let digits = decimal_text(seconds as nat);
    let tail = "s body: "@ + body;
    let text = before + marker + digits + "s body: "@ + body;
    reveal_strlit("retry-after: ");
    reveal_strlit("s body: ");
    assert(text =~= before + marker + (digits + tail));
    let at = before.len() as int;
    assert(text.subrange(at, at + marker.len()) =~= marker);
    assert forall|j: int| 0 <= j < at implies !#[trigger] occurs_at(text, marker, j) by {
        if occurs_at(text, marker, j) {
            if j + marker.len() <= at {
                assert(before.subrange(j, j + marker.len()) =~= text.subrange(j, j + marker.len()));
                lemma_find_from(before, marker, 0);
                assert(occurs_at(before, marker, j));
            } else {
                let k = j + 12 - at;
                assert(text.subrange(j, j + marker.len())[12] == ' ');
                assert(text[j + 12] == marker[k]);
                assert(k == 0 || k == 1 || k == 2 || k == 3 || k == 4 || k == 5 || k == 6 || k == 7 || k
                    == 8 || k == 9 || k == 10 || k == 11);
            }
        }
    }
    lemma_find_is(text, marker, 0, at);
    assert(after(text, at + marker.len()) =~= digits + tail);
    law_decimal_reads_back(seconds as nat);
    assert(tail[0] == 's');
    lemma_leading_digits(digits, tail);
}

/// Exactly the statuses of a busy provider are retried slowly, exactly the other
/// errors are final, and every other status is retried soon.
pub proof fn law_statuses_are_told_apart(status: nat)
    ensures
        status_class(status) == RetryClass::Throttled <==> (set![429nat, 502, 503, 504]).contains(
            status,
        ),
        status_class(status) == RetryClass::Terminal <==> 400 <= status <= 599 && !(
        set![429nat, 502, 503, 504]).contains(status),
        status_class(status) == RetryClass::Transient <==> status < 400 || status > 599,
{
}

/// A status that is written into a message in brackets is read back, and decides
/// its class: what stands before it, without a bracket, and what follows does
/// not matter.
pub proof fn law_bracketed_status_reads_back(
    before: Seq<char>,
    status: nat,
    rest: Seq<char>,
    lower: Seq<char>,
)
    requires
        status <= u16::MAX,
        forall|i: int| 0 <= i < before.len() ==> #[trigger] before[i] != '(',
    ensures
        ({
            let msg = before + "(HTTP "@ + decimal_text(status) + " "@ + rest;
            &&& diag_status(msg) == Some(status)
            &&& message_class(msg, lower) == status_class(status)
        }),
{
    reveal_strlit("(HTTP ");
    reveal_strlit(" ");
    let marker = "(HTTP "@;
    let digits = decimal_text(status);
    let msg = before + marker + digits + " "@ + rest;
    let n = before.len() as int;
    assert(msg.subrange(n, n + marker.len()) =~= marker);
    assert(occurs_at(msg, marker, n));
    assert forall|j: int| 0 <= j < n implies !#[trigger] occurs_at(msg, marker, j) by {
        if occurs_at(msg, marker, j) {
            assert(msg.subrange(j, j + marker.len())[0] == msg[j]);
            assert(msg[j] == before[j]);
        }
    }
    lemma_find_is(msg, marker, 0, n);
    let tail = after(msg, n + marker.len());
    assert(tail =~= digits + " "@ + rest);
    law_decimal_reads_back(status);
    let m = digits.len() as int;
    assert(tail.subrange(m, m + 1) =~= " "@);
    assert(occurs_at(tail, " "@, m));
    assert forall|j: int| 0 <= j < m implies !#[trigger] occurs_at(tail, " "@, j) by {
        if occurs_at(tail, " "@, j) {
            assert(tail.subrange(j, j + 1)[0] == tail[j]);
            assert(tail[j] == digits[j]);
            assert(crate::numbers::is_digit(digits[j]));
        }
    }
    lemma_find_is(tail, " "@, 0, m);
    assert(tail.take(m) =~= digits);
}

/// The error of an answer that is not a success is classed by its status,
/// whatever else it tells. The error is in ASCII here, and tells no status in
/// brackets.
pub proof fn law_answer_is_classed_by_its_status(
    status: nat,
    reason: Seq<char>,
    seconds: Option<u64>,
    body: Seq<char>,
)
    requires
        status <= u16::MAX,
        reason.len() > 0 ==> reason[0] == ' ',
        ({
            let msg = crate::provider::sse::status_error(
                decimal_text(status) + reason,
                seconds,
                body,
            );
            all_ascii(msg) && !mentions(ascii_lower(msg), "(http "@)
        }),
    ensures
        ({
            let msg = crate::provider::sse::status_error(
                decimal_text(status) + reason,
                seconds,
                body,
            );
            message_class(msg, lower(msg)) == status_class(status)
        }),
{
    let told = decimal_text(status) + reason;
    let msg = crate::provider::sse::status_error(told, seconds, body);
    lemma_no_status(msg);
    reveal_strlit("Invalid status code: ");
    reveal_strlit("invalid status code:");
    reveal_strlit("invalid status code");
    reveal_strlit(" retry-after: ");
    reveal_strlit(" body: ");
    let digits = decimal_text(status);
    law_decimal_reads_back(status);
    let low = ascii_lower(msg);
    let head = "Invalid status code: "@;
    let m = digits.len() as int;
    assert(msg.take(21) =~= head);
    assert(msg.subrange(21, 21 + m) =~= digits);
    let marker = "invalid status code:"@;
    assert(low.subrange(0, 20) =~= marker) by {
        assert forall|k: int| 0 <= k < 20 implies low[k] == marker[k] by {
            assert(msg[k] == head[k]);
        }
    }
    assert(occurs_at(low, marker, 0));
    lemma_find_is(low, marker, 0, 0);
    assert(low.subrange(0, 19) =~= "invalid status code"@) by {
        assert forall|k: int| 0 <= k < 19 implies low[k] == "invalid status code"@[k] by {
            assert(low[k] == low.subrange(0, 20)[k]);
        }
    }
    assert(occurs_at(low, "invalid status code"@, 0));
    lemma_find_is(low, "invalid status code"@, 0, 0);
    let rest = after(low, 20);
    let behind = after(low, 21);
    assert(rest.len() > 0 && rest[0] == ' ') by {
        assert(msg[20] == head[20]);
        assert(rest[0] == low[20]);
    }
    assert(rest.drop_first() =~= behind);
    assert(behind[0] == digits[0]) by {
        assert(msg[21] == msg.subrange(21, 21 + m)[0]);
        assert(crate::numbers::is_digit(digits[0]));
    }
    assert(crate::numbers::is_digit(digits[0]));
    assert(trim_start(behind) == behind);
    assert(trim_start(rest) == behind);
    let tail = after(low, 21 + m);
    assert(behind =~= digits + tail) by {
        assert forall|k: int| 0 <= k < m implies behind[k] == digits[k] by {
            assert(msg[21 + k] == msg.subrange(21, 21 + m)[k]);
            assert(crate::numbers::is_digit(digits[k]));
        }
    }
    assert(tail.len() > 0 && tail[0] == ' ') by {
        assert(tail[0] == low[21 + m]);
        let next = msg[21 + m];
        if reason.len() > 0 {
            assert(next == reason[0]);
        } else {
            match seconds {
                Some(_) => {
                    assert(next == " retry-after: "@[0]);
                },
                None => {
                    assert(next == " body: "@[0]);
                },
            }
        }
    }
    lemma_leading_digits(digits, tail);
}

} // verus!
