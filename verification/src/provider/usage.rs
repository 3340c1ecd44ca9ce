//! Prompt-cache accounting.
//!
//! Vendors report prompt-cache hits under different names. A count that is
//! absent and a count of zero mean the same: no cache hit was served.
//!
//! | Vendor     | Field                                 | Place                         |
//! |------------|---------------------------------------|-------------------------------|
//! | DeepSeek   | `prompt_cache_hit_tokens`             | `usage`                       |
//! | Kimi       | `cached_tokens`                       | `usage`                       |
//! | OpenAI     | `cached_tokens`                       | `usage.prompt_tokens_details` |
//! | Volcengine | `cached_tokens`                       | `usage.prompt_tokens_details` |
//! | MiniMax    | `cached_tokens`                       | `usage.prompt_tokens_details` |
//! | Anthropic  | `cache_read_input_tokens` (read)      | `usage`                       |
//! |            | `cache_creation_input_tokens` (write) | `usage`                       |
use crate::json::{number_as_u64, Json, JsonView};
use vstd::prelude::*;

verus! {

/// The count in the field `name`: zero where there is none.
pub open spec fn count(usage: JsonView, name: Seq<char>) -> u64 {
    match usage.uint_field(name) {
        Some(n) => n,
        None => 0,
    }
}

/// The sum, or the greatest `u64` where the sum is greater.
pub open spec fn capped_sum(a: u64, b: u64) -> u64 {
    if a + b > u64::MAX {
        u64::MAX
    } else {
        (a + b) as u64
    }
}

/// The cached tokens under `prompt_tokens_details`.
pub open spec fn detailed_hits(usage: JsonView) -> u64 {
    match usage.field("prompt_tokens_details"@) {
        Some(details) => count(details, "cached_tokens"@),
        None => 0,
    }
}

/// The prompt tokens that came from a cache: the first count that is not zero
/// of DeepSeek's, Kimi's, OpenAI's and Anthropic's, in this order.
pub open spec fn cache_hits(usage: JsonView) -> u64 {
    if count(usage, "prompt_cache_hit_tokens"@) > 0 {
        count(usage, "prompt_cache_hit_tokens"@)
    } else if count(usage, "cached_tokens"@) > 0 {
        count(usage, "cached_tokens"@)
    } else if detailed_hits(usage) > 0 {
        detailed_hits(usage)
    } else {
        capped_sum(
            count(usage, "cache_read_input_tokens"@),
            count(usage, "cache_creation_input_tokens"@),
        )
    }
}

/// The whole prompt of an Anthropic call: the tokens that no cache served,
/// those read from the cache and those written to it.
pub open spec fn anthropic_input(usage: JsonView) -> u64 {
    capped_sum(
        capped_sum(count(usage, "input_tokens"@), count(usage, "cache_read_input_tokens"@)),
        count(usage, "cache_creation_input_tokens"@),
    )
}

/// The count in the field `name`: zero where there is none.
pub fn count_in(usage: &Json, name: &str) -> (r: u64)
    ensures
        r == count(usage@, name@),
{
    match usage.get_u64(name) {
        Some(n) => n,
        None => 0,
    }
}

/// The prompt tokens of a call that came from a cache.
pub fn extract_cache_hit_tokens(usage: &Json) -> (r: u64)
    ensures
        r == cache_hits(usage@),
{
    let deepseek: u64 = count_in(usage, "prompt_cache_hit_tokens");
    if deepseek > 0 {
        return deepseek;
    }
    let kimi: u64 = count_in(usage, "cached_tokens");
    if kimi > 0 {
        return kimi;
    }
    let openai: u64 = match usage.get("prompt_tokens_details") {
        Some(details) => count_in(details, "cached_tokens"),
        None => 0,
    };
    if openai > 0 {
        return openai;
    }
    let (read, creation): (u64, u64) = extract_anthropic_cache_split(usage);
    read.saturating_add(creation)
}

/// The whole prompt of an Anthropic call.
///
/// Anthropic's `input_tokens` counts only the tokens that no cache served; the
/// cache counts come on top of it. Everywhere else the prompt count holds the
/// cached tokens already, so the three are summed here.
pub fn anthropic_total_input_tokens(usage: &Json) -> (r: u64)
    ensures
        r == anthropic_input(usage@),
{
    count_in(usage, "input_tokens").saturating_add(
        count_in(usage, "cache_read_input_tokens"),
    ).saturating_add(count_in(usage, "cache_creation_input_tokens"))
}

/// The tokens read from Anthropic's cache, and those written to it.
pub fn extract_anthropic_cache_split(usage: &Json) -> (r: (u64, u64))
    ensures
        r.0 == count(usage@, "cache_read_input_tokens"@),
        r.1 == count(usage@, "cache_creation_input_tokens"@),
{
    (count_in(usage, "cache_read_input_tokens"), count_in(usage, "cache_creation_input_tokens"))
}

/// A cache-heavy Anthropic call never reports less input than cache hits: what
/// is left of the total after both cache counts is what no cache served.
pub proof fn law_anthropic_total_covers_cache(usage: JsonView)
    ensures
        anthropic_input(usage) >= capped_sum(
            count(usage, "cache_read_input_tokens"@),
            count(usage, "cache_creation_input_tokens"@),
        ),
        anthropic_input(usage) < u64::MAX ==> anthropic_input(usage) - count(
            usage,
            "cache_read_input_tokens"@,
        ) - count(usage, "cache_creation_input_tokens"@) == count(usage, "input_tokens"@),
{
}

/// A document without any of the counts reports no cache hit.
pub proof fn law_no_counts_no_hits(usage: JsonView)
    requires
        count(usage, "prompt_cache_hit_tokens"@) == 0,
        count(usage, "cached_tokens"@) == 0,
        detailed_hits(usage) == 0,
        count(usage, "cache_read_input_tokens"@) == 0,
        count(usage, "cache_creation_input_tokens"@) == 0,
    ensures
        cache_hits(usage) == 0,
{
}

/// Without caching the total is what the provider reports as input.
pub proof fn law_no_cache_no_change(usage: JsonView)
    requires
        count(usage, "cache_read_input_tokens"@) == 0,
        count(usage, "cache_creation_input_tokens"@) == 0,
    ensures
        anthropic_input(usage) == count(usage, "input_tokens"@),
{
}

/// A count that is told as a number is that number, and one that is not told, or
/// not as a number, is zero.
pub proof fn law_counts_are_read(usage: JsonView, name: Seq<char>)
    ensures
        usage.field(name) is None ==> count(usage, name) == 0,
        usage.field(name) matches Some(JsonView::Number(number)) ==> match number_as_u64(number) {
            Some(value) => count(usage, name) == value,
            None => count(usage, name) == 0,
        },
        usage.field(name) matches Some(JsonView::Text(_)) ==> count(usage, name) == 0,
{
}

/// The cached tokens are those that the vendor tells under its own name: each
/// vendor's count is taken where none of the vendors before it tells one.
pub proof fn law_each_vendor_is_read(usage: JsonView)
    ensures
        ({
            let deepseek = count(usage, "prompt_cache_hit_tokens"@);
            let kimi = count(usage, "cached_tokens"@);
            let openai = match usage.field("prompt_tokens_details"@) {
                Some(details) => count(details, "cached_tokens"@),
                None => 0,
            };
            let read = count(usage, "cache_read_input_tokens"@);
            let written = count(usage, "cache_creation_input_tokens"@);
            &&& deepseek > 0 ==> cache_hits(usage) == deepseek
            &&& deepseek == 0 && kimi > 0 ==> cache_hits(usage) == kimi
            &&& deepseek == 0 && kimi == 0 && openai > 0 ==> cache_hits(usage) == openai
            &&& deepseek == 0 && kimi == 0 && openai == 0 && read + written <= u64::MAX
                ==> cache_hits(usage) == read + written
        }),
        ({
            let total = count(usage, "input_tokens"@) + count(usage, "cache_read_input_tokens"@)
                + count(usage, "cache_creation_input_tokens"@);
            &&& total <= u64::MAX ==> anthropic_input(usage) == total
            &&& total > u64::MAX ==> anthropic_input(usage) == u64::MAX
        }),
{
}

} // verus!
