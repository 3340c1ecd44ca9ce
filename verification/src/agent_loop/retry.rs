//! When a failed model call is made again, and how long to wait before it.
use crate::numbers::{decimal_string, decimal_text};
use crate::provider::classify::{
    classify_retry, extract_retry_after, message_class, retry_after, RetryClass,
};
use crate::text::{lower, occurs_at};
use vstd::prelude::*;
use vstd::string::*;

verus! {

/// How often a call is made at most where its failures are blips.
pub const SSE_MAX_ATTEMPTS: u32 = 3;

/// How often a call is made at most where the provider is busy.
pub const THROTTLED_MAX_ATTEMPTS: u32 = 5;

/// The waits before each further attempt after a blip, in milliseconds.
pub const SSE_RETRY_BACKOFF_MS: [u64; 2] = [10000, 20000];

/// The longest wait, in milliseconds.
pub const MAX_BACKOFF_MS: u64 = 120000;

/// The waits before each further attempt where the provider is busy, in
/// milliseconds.
pub open spec fn throttled_schedule() -> Seq<u64> {
    seq![5000, 15000, 30000, 60000]
}

/// How often a call is made at most, the first time included.
pub open spec fn attempts(class: RetryClass) -> u32 {
    match class {
        RetryClass::Throttled => THROTTLED_MAX_ATTEMPTS,
        _ => SSE_MAX_ATTEMPTS,
    }
}

/// The waits that a class of failures is retried after.
pub open spec fn schedule(class: RetryClass, transient: Seq<u64>) -> Seq<u64> {
    match class {
        RetryClass::Throttled => throttled_schedule(),
        _ => transient,
    }
}

/// The larger of two numbers.
pub open spec fn larger(a: int, b: int) -> int {
    if a < b {
        b
    } else {
        a
    }
}

/// The smaller of two numbers.
pub open spec fn smaller(a: int, b: int) -> int {
    if a < b {
        a
    } else {
        b
    }
}

/// The wait before the next attempt: what the schedule says of this attempt,
/// its last entry standing for all later ones, at least what the provider asked
/// for, and at most [`MAX_BACKOFF_MS`].
pub open spec fn wait_for(waits: Seq<u64>, attempt_idx: nat, asked_secs: Option<u64>) -> int {
    let fixed = waits[smaller(attempt_idx as int, waits.len() - 1)] as int;
    let asked = match asked_secs {
        Some(secs) => secs as int * 1000,
        None => 0,
    };
    smaller(larger(fixed, asked), MAX_BACKOFF_MS as int)
}

/// How often a call is made at most, the first time included.
pub fn max_attempts_for(class: RetryClass) -> (r: u32)
    ensures
        r == attempts(class),
{
    match class {
        RetryClass::Throttled => THROTTLED_MAX_ATTEMPTS,
        _ => SSE_MAX_ATTEMPTS,
    }
}

/// The wait before the next attempt, in milliseconds. `attempt_idx` counts the
/// attempts from 0; `retry_after_secs` is what the provider asked for.
pub fn retry_wait_ms(
    class: RetryClass,
    transient_backoff_ms: &[u64],
    attempt_idx: u32,
    retry_after_secs: Option<u64>,
) -> (r: u64)
    requires
        class == RetryClass::Throttled || transient_backoff_ms@.len() > 0,
    ensures
        r == wait_for(
            schedule(class, transient_backoff_ms@),
            attempt_idx as nat,
            retry_after_secs,
        ),
{
    let fixed: u64 = match class {
        RetryClass::Throttled => match attempt_idx {
            0 => 5000,
            1 => 15000,
            2 => 30000,
            _ => 60000,
        },
        _ => {
            let last: usize = transient_backoff_ms.len() - 1;
            let idx: usize = if (attempt_idx as usize) < last {
                attempt_idx as usize
            } else {
                last
            };
            transient_backoff_ms[idx]
        },
    };
    let asked: u64 = match retry_after_secs {
        Some(secs) => if secs < MAX_BACKOFF_MS {
            secs * 1000
        } else {
            MAX_BACKOFF_MS
        },
        None => 0,
    };
    let wait: u64 = if fixed < asked {
        asked
    } else {
        fixed
    };
    if wait < MAX_BACKOFF_MS {
        wait
    } else {
        MAX_BACKOFF_MS
    }
}

/// What follows a failed attempt.
#[derive(Debug, Clone, Copy, PartialEq, Eq)]
pub enum RetryStep {
    /// The failure is the call's result.
    GiveUp,
    /// The call is made again.
    Retry {
        /// The class of the failure.
        class: RetryClass,
        /// How long to wait, in milliseconds.
        wait_ms: u64,
        /// The number of the next attempt, counted from 1.
        next_attempt: u32,
        /// How many attempts there are at most.
        max_attempts: u32,
        /// How long the provider asked to wait, in seconds.
        retry_after_secs: Option<u64>,
    },
}

/// Whether a failure of class `class` in attempt `attempt_idx`, counted from 0,
/// is the last.
pub open spec fn gives_up(class: RetryClass, attempt_idx: nat) -> bool {
    class == RetryClass::Terminal || attempt_idx + 1 >= attempts(class)
}

/// What follows a failure of class `class` in attempt `attempt_idx`, counted
/// from 0.
pub open spec fn step_after(
    class: RetryClass,
    attempt_idx: nat,
    asked_secs: Option<u64>,
    transient: Seq<u64>,
) -> RetryStep {
    if gives_up(class, attempt_idx) {
        RetryStep::GiveUp
    } else {
        RetryStep::Retry {
            class,
            wait_ms: wait_for(schedule(class, transient), attempt_idx, asked_secs) as u64,
            next_attempt: (attempt_idx + 2) as u32,
            max_attempts: attempts(class),
            retry_after_secs: asked_secs,
        }
    }
}

/// What follows a failure of class `class` in attempt `attempt_idx`, counted
/// from 0.
pub fn decide_retry(
    class: RetryClass,
    attempt_idx: u32,
    retry_after_secs: Option<u64>,
    transient_backoff_ms: &[u64],
) -> (r: RetryStep)
    requires
        attempt_idx < THROTTLED_MAX_ATTEMPTS,
        transient_backoff_ms@.len() > 0,
    ensures
        r == step_after(class, attempt_idx as nat, retry_after_secs, transient_backoff_ms@),
{
    let max_attempts: u32 = max_attempts_for(class);
    if class == RetryClass::Terminal || attempt_idx + 1 >= max_attempts {
        RetryStep::GiveUp
    } else {
        RetryStep::Retry {
            class,
            wait_ms: retry_wait_ms(class, transient_backoff_ms, attempt_idx, retry_after_secs),
            next_attempt: attempt_idx + 2,
            max_attempts,
            retry_after_secs,
        }
    }
}

/// The seconds that the message asks to wait.
pub open spec fn asked_secs(error: Seq<char>) -> Option<u64> {
    match retry_after(error) {
        Some(secs) => Some(secs as u64),
        None => None,
    }
}

/// What follows the error `error` in attempt `attempt_idx`, counted from 0.
pub fn after_failure(error: &str, attempt_idx: u32, transient_backoff_ms: &[u64]) -> (r: RetryStep)
    requires
        attempt_idx < THROTTLED_MAX_ATTEMPTS,
        transient_backoff_ms@.len() > 0,
    ensures
        r == step_after(
            message_class(error@, lower(error@)),
            attempt_idx as nat,
            asked_secs(error@),
            transient_backoff_ms@,
        ),
{
    let class = classify_retry(error);
    decide_retry(class, attempt_idx, extract_retry_after(error), transient_backoff_ms)
}

/// A number from 0 to 99 in two digits.
pub open spec fn two_digits(n: int) -> Seq<char> {
    if n < 10 {
        "0"@ + decimal_text(n as nat)
    } else {
        decimal_text(n as nat)
    }
}

/// The time of day, in UTC and as `hours:minutes:seconds`, of a moment that is
/// given in milliseconds since the start of 1970.
pub open spec fn clock_text(millis: int) -> Seq<char> {
    let secs = millis / 1000;
    two_digits(secs / 3600 % 24) + ":"@ + two_digits(secs / 60 % 60) + ":"@ + two_digits(secs % 60)
}

/// How the wait is told: when the next attempt comes, how long it takes until
/// then, and what the provider asked for.
pub open spec fn timing_text(now_ms: int, wait_ms: int, asked_secs: Option<u64>) -> Seq<char> {
    "next retry at "@ + clock_text(now_ms + wait_ms) + " UTC (in "@ + decimal_text(
        (wait_ms / 1000) as nat,
    ) + "s"@ + (match asked_secs {
        Some(secs) => ", retry-after: "@ + decimal_text(secs as nat) + "s"@,
        None => Seq::empty(),
    }) + ")"@
}

/// The class, by name.
pub open spec fn class_name(class: RetryClass) -> Seq<char> {
    match class {
        RetryClass::Transient => "Transient"@,
        RetryClass::Throttled => "Throttled"@,
        RetryClass::Terminal => "Terminal"@,
    }
}

/// What is told to the user of a retry.
pub open spec fn retry_text(
    class: RetryClass,
    next_attempt: u32,
    max_attempts: u32,
    timing: Seq<char>,
    error: Seq<char>,
) -> Seq<char> {
    class_name(class) + " error, retrying ("@ + decimal_text(next_attempt as nat) + "/"@
        + decimal_text(max_attempts as nat) + "), "@ + timing + ": "@ + error
}

/// A number from 0 to 99 in two digits.
fn two_digit_string(n: u64) -> (r: String)
    ensures
        r@ == two_digits(n as int),
{
    if n < 10 {
        "0".to_owned().concat(decimal_string(n).as_str())
    } else {
        decimal_string(n)
    }
}

/// The time of day, in UTC and as `hours:minutes:seconds`, of a moment that is
/// given in milliseconds since the start of 1970.
pub fn clock_string(millis: u64) -> (r: String)
    ensures
        r@ == clock_text(millis as int),
{
    let secs: u64 = millis / 1000;
    two_digit_string(secs / 3600 % 24).concat(":").concat(
        two_digit_string(secs / 60 % 60).as_str(),
    ).concat(":").concat(two_digit_string(secs % 60).as_str())
}

/// How the wait is told. `now_ms` is the present moment, in milliseconds since
/// the start of 1970.
pub fn retry_timing(now_ms: u64, wait_ms: u64, retry_after_secs: Option<u64>) -> (r: String)
    requires
        now_ms + wait_ms <= u64::MAX,
    ensures
        r@ == timing_text(now_ms as int, wait_ms as int, retry_after_secs),
{
    let note = match retry_after_secs {
        Some(secs) => ", retry-after: ".to_owned().concat(decimal_string(secs).as_str()).concat("s"),
        None => String::new(),
    };
    "next retry at ".to_owned().concat(clock_string(now_ms + wait_ms).as_str()).concat(
        " UTC (in ",
    ).concat(decimal_string(wait_ms / 1000).as_str()).concat("s").concat(note.as_str()).concat(")")
}

/// What is told to the user of a retry; `error` is the failure, as shortened as
/// it is to be shown.
pub fn retry_message(
    class: RetryClass,
    next_attempt: u32,
    max_attempts: u32,
    timing: &str,
    error: &str,
) -> (r: String)
    ensures
        r@ == retry_text(class, next_attempt, max_attempts, timing@, error@),
{
    let name = match class {
        RetryClass::Transient => "Transient",
        RetryClass::Throttled => "Throttled",
        RetryClass::Terminal => "Terminal",
    };
    name.to_owned().concat(" error, retrying (").concat(
        decimal_string(next_attempt as u64).as_str(),
    ).concat("/").concat(decimal_string(max_attempts as u64).as_str()).concat("), ").concat(
        timing,
    ).concat(": ").concat(error)
}

/// The error of a call that was cancelled before attempt `attempt_idx`, counted
/// from 0.
pub fn cancelled_before_attempt(attempt_idx: u32) -> (r: String)
    requires
        attempt_idx < u32::MAX,
    ensures
        r@ == "cancelled before LLM call attempt "@ + decimal_text((attempt_idx + 1) as nat),
{
    "cancelled before LLM call attempt ".to_owned().concat(
        decimal_string((attempt_idx + 1) as u64).as_str(),
    )
}

/// The error of a call that was cancelled in the wait before an attempt.
pub fn cancelled_in_backoff(next_attempt: u32, max_attempts: u32) -> (r: String)
    ensures
        r@ == "cancelled during retry backoff (attempt "@ + decimal_text(next_attempt as nat) + "/"@
            + decimal_text(max_attempts as nat) + ")"@,
{
    "cancelled during retry backoff (attempt ".to_owned().concat(
        decimal_string(next_attempt as u64).as_str(),
    ).concat("/").concat(decimal_string(max_attempts as u64).as_str()).concat(")")
}

/// How many attempts are made from attempt `attempt_idx` on, where the failure
/// of attempt `i` is of class `failures[i]`, and an attempt that has none
/// succeeds.
pub open spec fn attempts_made(failures: Seq<RetryClass>, attempt_idx: nat) -> nat
    decreases failures.len() - attempt_idx,
{
    if attempt_idx >= failures.len() || gives_up(failures[attempt_idx as int], attempt_idx) {
        1
    } else {
        1 + attempts_made(failures, attempt_idx + 1)
    }
}

/// No wait is longer than the longest, and none is shorter than what the
/// provider asked for, as far as the longest wait allows it.
pub proof fn law_wait_bounds(
    class: RetryClass,
    transient: Seq<u64>,
    attempt_idx: nat,
    asked: Option<u64>,
)
    requires
        class == RetryClass::Throttled || transient.len() > 0,
    ensures
        0 <= wait_for(schedule(class, transient), attempt_idx, asked) <= MAX_BACKOFF_MS,
        asked is Some ==> wait_for(schedule(class, transient), attempt_idx, asked) >= smaller(
            asked.unwrap() as int * 1000,
            MAX_BACKOFF_MS as int,
        ),
{
}

/// A retry is announced as the attempt after the one that failed, and never as
/// one beyond the budget of the failure's class.
pub proof fn law_retry_within_budget(
    class: RetryClass,
    attempt_idx: nat,
    asked: Option<u64>,
    transient: Seq<u64>,
)
    requires
        attempt_idx < THROTTLED_MAX_ATTEMPTS,
    ensures
        match step_after(class, attempt_idx, asked, transient) {
            RetryStep::Retry { next_attempt, max_attempts, .. } => {
                &&& next_attempt == attempt_idx + 2
                &&& next_attempt <= max_attempts
                &&& max_attempts == attempts(class)
            },
            RetryStep::GiveUp => true,
        },
        class == RetryClass::Terminal ==> step_after(class, attempt_idx, asked, transient)
            == RetryStep::GiveUp,
{
}

/// Whatever the failures are, a call is made at most five times.
pub proof fn law_attempts_are_bounded(failures: Seq<RetryClass>, attempt_idx: nat)
    requires
        attempt_idx < THROTTLED_MAX_ATTEMPTS,
    ensures
        attempt_idx + attempts_made(failures, attempt_idx) <= THROTTLED_MAX_ATTEMPTS,
    decreases THROTTLED_MAX_ATTEMPTS - attempt_idx,
{
    if attempt_idx < failures.len() && attempt_idx + 1 < THROTTLED_MAX_ATTEMPTS {
        law_attempts_are_bounded(failures, attempt_idx + 1);
    }
}

/// A call that fails with one class of retried failures all along is made as
/// often as the class allows.
pub proof fn law_budget_is_used_up(failures: Seq<RetryClass>, class: RetryClass)
    requires
        class != RetryClass::Terminal,
        failures.len() >= attempts(class),
        forall|i: int| 0 <= i < failures.len() ==> #[trigger] failures[i] == class,
    ensures
        attempts_made(failures, 0) == attempts(class),
{
    assert(failures[0] == class);
    assert(failures[1] == class);
    assert(failures[2] == class);
    reveal_with_fuel(attempts_made, 5);
    if class == RetryClass::Throttled {
        assert(failures[3] == class);
        assert(failures[4] == class);
    }
}

/// A busy provider is waited for longer each time, a blip as the schedule says,
/// and neither ever shorter than the provider asked for nor longer than the
/// longest wait. A wait is one of those three, and no other.
pub proof fn law_waits_follow_the_schedule(
    transient: Seq<u64>,
    attempt_idx: nat,
    asked: Option<u64>,
)
    requires
        transient.len() > 0,
    ensures
        ({
            let fixed: int = if attempt_idx == 0 {
                5000
            } else if attempt_idx == 1 {
                15000
            } else if attempt_idx == 2 {
                30000
            } else {
                60000
            };
            let wait = wait_for(schedule(RetryClass::Throttled, transient), attempt_idx, asked);
            &&& asked is None ==> wait == fixed
            &&& asked matches Some(secs) ==> wait >= fixed && (wait == fixed || wait == secs * 1000
                || wait == 120000)
            &&& asked matches Some(secs) ==> (secs * 1000 <= fixed ==> wait == fixed)
            &&& asked matches Some(secs) ==> (fixed <= secs * 1000 <= 120000 ==> wait == secs
                * 1000)
            &&& asked matches Some(secs) ==> (secs * 1000 > 120000 ==> wait == 120000)
        }),
        ({
            let wait = wait_for(schedule(RetryClass::Transient, transient), attempt_idx, None);
            &&& attempt_idx < transient.len() && transient[attempt_idx as int] <= 120000 ==> wait
                == transient[attempt_idx as int]
            &&& attempt_idx >= transient.len() && transient.last() <= 120000 ==> wait
                == transient.last()
        }),
{
}

/// A rejected request is never made again; a blip is retried after the first and
/// the second attempt, a busy provider after the first four.
pub proof fn law_failures_are_retried(
    class: RetryClass,
    attempt_idx: nat,
    asked: Option<u64>,
    transient: Seq<u64>,
)
    requires
        attempt_idx < 5,
        transient.len() > 0,
    ensures
        step_after(class, attempt_idx, asked, transient) is Retry <==> (class
            == RetryClass::Transient && attempt_idx < 2) || (class == RetryClass::Throttled
            && attempt_idx < 4),
        step_after(class, attempt_idx, asked, transient) matches RetryStep::Retry {
            class: told,
            wait_ms,
            retry_after_secs,
            ..
        } ==> told == class && wait_ms == wait_for(schedule(class, transient), attempt_idx, asked)
            && retry_after_secs == asked,
{
    law_wait_bounds(class, transient, attempt_idx, asked);
}

/// A time of day is told in UTC by its hour, its minute and its second, each in
/// two digits: the day does not matter, nor what is less than a second.
pub proof fn law_clock_tells_the_time(
    days: int,
    hours: int,
    minutes: int,
    seconds: int,
    millis: int,
)
    requires
        0 <= days,
        0 <= hours < 24,
        0 <= minutes < 60,
        0 <= seconds < 60,
        0 <= millis < 1000,
    ensures
        clock_text((((days * 24 + hours) * 60 + minutes) * 60 + seconds) * 1000 + millis)
            == two_digits(hours) + ":"@ + two_digits(minutes) + ":"@ + two_digits(seconds),
        two_digits(hours).len() == 2,
        two_digits(minutes).len() == 2,
        two_digits(seconds).len() == 2,
        crate::numbers::decimal(two_digits(hours)) == hours,
        crate::numbers::decimal(two_digits(minutes)) == minutes,
        crate::numbers::decimal(two_digits(seconds)) == seconds,
{
    let secs = ((days * 24 + hours) * 60 + minutes) * 60 + seconds;
    let all = secs * 1000 + millis;
    assert(all / 1000 == secs);
    assert(secs / 60 == (days * 24 + hours) * 60 + minutes);
    assert(secs % 60 == seconds);
    assert(secs / 3600 == days * 24 + hours);
    assert(secs / 60 % 60 == minutes);
    assert(secs / 3600 % 24 == hours);
    lemma_two_digits(hours);
    lemma_two_digits(minutes);
    lemma_two_digits(seconds);
}

proof fn lemma_two_digits(n: int)
    requires
        0 <= n < 100,
    ensures
        two_digits(n).len() == 2,
        crate::numbers::decimal(two_digits(n)) == n,
{
    reveal_strlit("0");
    crate::numbers::law_decimal_reads_back(n as nat);
    let text = decimal_text(n as nat);
    reveal_with_fuel(decimal_text, 3);
    if n < 10 {
        let all = "0"@ + text;
        assert(text.len() == 1);
        reveal_with_fuel(crate::numbers::decimal, 3);
        assert(all.drop_last() =~= "0"@);
        assert("0"@.drop_last() =~= Seq::<char>::empty());
        assert(text.drop_last() =~= Seq::<char>::empty());
        assert(all.last() == text.last());
    }
}

/// What the user is told of a retry names the class of the error, which attempt
/// of how many comes next, when it comes, and the error itself, word for word.
pub proof fn law_retry_tells_all(
    class: RetryClass,
    next_attempt: u32,
    max_attempts: u32,
    timing: Seq<char>,
    error: Seq<char>,
)
    ensures
        ({
            let text = retry_text(class, next_attempt, max_attempts, timing, error);
            let count = decimal_text(next_attempt as nat) + "/"@ + decimal_text(
                max_attempts as nat,
            );
            &&& text.take(9) == match class {
                RetryClass::Transient => "Transient"@,
                RetryClass::Throttled => "Throttled"@,
                RetryClass::Terminal => "Terminal "@,
            }
            &&& text.skip(text.len() - error.len()) == error
            &&& exists|i: int, j: int|
                0 <= i <= j && #[trigger] occurs_at(text, count, i) && #[trigger] occurs_at(
                    text,
                    timing,
                    j,
                ) && i + count.len() < j && j + timing.len() + error.len() < text.len()
        }),
{
    reveal_strlit("Transient");
    reveal_strlit("Throttled");
    reveal_strlit("Terminal");
    reveal_strlit("Terminal ");
    reveal_strlit(" error, retrying (");
    reveal_strlit("), ");
    reveal_strlit(": ");
    let name = class_name(class);
    let text = retry_text(class, next_attempt, max_attempts, timing, error);
    let count = decimal_text(next_attempt as nat) + "/"@ + decimal_text(max_attempts as nat);
    let i = (name + " error, retrying ("@).len() as int;
    let j = i + count.len() + 3;
    assert(text.subrange(i, i + count.len()) =~= count);
    assert(text.subrange(j, j + timing.len()) =~= timing);
    assert(occurs_at(text, count, i) && occurs_at(text, timing, j));
    assert(text.skip(text.len() - error.len()) =~= error);
    match class {
        RetryClass::Transient => {
            assert(text.take(9) =~= "Transient"@);
        },
        RetryClass::Throttled => {
            assert(text.take(9) =~= "Throttled"@);
        },
        RetryClass::Terminal => {
            assert(text.take(9) =~= "Terminal "@);
        },
    }
}

/// What is told of the wait holds the time of day when it is over, its length in
/// seconds, and what the provider asked for, where it did.
pub proof fn law_wait_is_told(now_ms: int, wait_ms: int, asked_secs: Option<u64>)
    requires
        0 <= now_ms,
        0 <= wait_ms,
    ensures
        ({
            let text = timing_text(now_ms, wait_ms, asked_secs);
            let clock = clock_text(now_ms + wait_ms);
            let secs = decimal_text((wait_ms / 1000) as nat) + "s"@;
            &&& exists|i: int, j: int|
                #[trigger] occurs_at(text, clock, i) && #[trigger] occurs_at(text, secs, j) && i
                    + clock.len() < j
            &&& asked_secs matches Some(n) ==> exists|k: int| #[trigger]
                occurs_at(text, "retry-after: "@ + decimal_text(n as nat) + "s"@, k)
        }),
{
    let text = timing_text(now_ms, wait_ms, asked_secs);
    let clock = clock_text(now_ms + wait_ms);
    let secs = decimal_text((wait_ms / 1000) as nat) + "s"@;
    reveal_strlit(" UTC (in ");
    reveal_strlit(", retry-after: ");
    reveal_strlit("retry-after: ");
    let i = "next retry at "@.len() as int;
    let j = i + clock.len() + 9;
    assert(text.subrange(i, i + clock.len()) =~= clock);
    assert(text.subrange(j, j + secs.len()) =~= secs);
    assert(occurs_at(text, clock, i) && occurs_at(text, secs, j));
    if let Some(n) = asked_secs {
        let asked = "retry-after: "@ + decimal_text(n as nat) + "s"@;
        let k = j + secs.len() + 2;
        assert(text.subrange(k, k + asked.len()) =~= asked);
        assert(occurs_at(text, asked, k));
    }
}

} // verus!
