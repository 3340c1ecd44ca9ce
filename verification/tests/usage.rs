use jyc_agent::json::{parse_json, Json};
use jyc_agent::provider::usage::{
    anthropic_total_input_tokens, extract_anthropic_cache_split, extract_cache_hit_tokens,
};

fn json(text: &str) -> Json {
    parse_json(text).unwrap()
}

#[test]
fn deepseek_root_field() {
    let usage = json(r#"{ "prompt_tokens": 1000, "completion_tokens": 50, "prompt_cache_hit_tokens": 800 }"#);
    assert_eq!(extract_cache_hit_tokens(&usage), 800);
}

#[test]
fn kimi_root_cached_tokens() {
    let usage = json(r#"{ "prompt_tokens": 1000, "completion_tokens": 50, "cached_tokens": 256 }"#);
    assert_eq!(extract_cache_hit_tokens(&usage), 256);
}

#[test]
fn openai_prompt_tokens_details_cached_tokens() {
    let usage = json(r#"{ "prompt_tokens": 1000, "completion_tokens": 50, "prompt_tokens_details": { "cached_tokens": 512 } }"#);
    assert_eq!(extract_cache_hit_tokens(&usage), 512);
}

#[test]
fn volcengine_same_shape_as_openai() {
    let usage = json(r#"{ "prompt_tokens": 1000, "completion_tokens": 50, "prompt_tokens_details": { "cached_tokens": 128 } }"#);
    assert_eq!(extract_cache_hit_tokens(&usage), 128);
}

#[test]
fn minimax_same_shape_as_openai() {
    let usage = json(r#"{ "prompt_tokens": 1000, "completion_tokens": 50, "prompt_tokens_details": { "cached_tokens": 42 } }"#);
    assert_eq!(extract_cache_hit_tokens(&usage), 42);
}

#[test]
fn anthropic_sum_read_and_creation() {
    let usage = json(r#"{ "input_tokens": 1000, "output_tokens": 50, "cache_read_input_tokens": 700, "cache_creation_input_tokens": 100 }"#);
    assert_eq!(extract_cache_hit_tokens(&usage), 800);
}

#[test]
fn anthropic_read_only_zero_creation() {
    let usage = json(r#"{ "input_tokens": 1000, "output_tokens": 50, "cache_read_input_tokens": 500 }"#);
    assert_eq!(extract_cache_hit_tokens(&usage), 500);
}

#[test]
fn anthropic_creation_only_zero_read() {
    let usage = json(r#"{ "input_tokens": 1000, "output_tokens": 50, "cache_creation_input_tokens": 300 }"#);
    assert_eq!(extract_cache_hit_tokens(&usage), 300);
}

#[test]
fn empty_usage_returns_zero() {
    let usage = json(r#"{}"#);
    assert_eq!(extract_cache_hit_tokens(&usage), 0);
}

#[test]
fn missing_all_known_fields_returns_zero() {
    let usage = json(r#"{ "prompt_tokens": 1000, "completion_tokens": 50 }"#);
    assert_eq!(extract_cache_hit_tokens(&usage), 0);
}

#[test]
fn zero_values_are_skipped() {
    let usage = json(r#"{ "prompt_cache_hit_tokens": 0, "cached_tokens": 0, "prompt_tokens_details": { "cached_tokens": 0 }, "cache_read_input_tokens": 0, "cache_creation_input_tokens": 0 }"#);
    assert_eq!(extract_cache_hit_tokens(&usage), 0);
}

#[test]
fn non_numeric_values_are_skipped() {
    let usage = json(r#"{ "prompt_cache_hit_tokens": "n/a", "cached_tokens": "0" }"#);
    assert_eq!(extract_cache_hit_tokens(&usage), 0);
}

#[test]
fn first_non_zero_branch_wins() {
    let usage = json(r#"{ "prompt_cache_hit_tokens": 100, "cached_tokens": 200, "prompt_tokens_details": { "cached_tokens": 300 } }"#);
    assert_eq!(extract_cache_hit_tokens(&usage), 100);
}

#[test]
fn anthropic_total_input_sums_uncached_and_cache_buckets() {
    let usage = json(r#"{ "input_tokens": 2800, "cache_read_input_tokens": 38400, "cache_creation_input_tokens": 0 }"#);
    assert_eq!(anthropic_total_input_tokens(&usage), 41_200);
}

#[test]
fn anthropic_total_input_counts_cache_creation() {
    let usage = json(r#"{ "input_tokens": 500, "cache_creation_input_tokens": 10000 }"#);
    assert_eq!(anthropic_total_input_tokens(&usage), 10_500);
}

#[test]
fn anthropic_total_input_without_cache_is_unchanged() {
    let usage = json(r#"{ "input_tokens": 1234, "output_tokens": 99 }"#);
    assert_eq!(anthropic_total_input_tokens(&usage), 1_234);
}

#[test]
fn anthropic_cache_split_returns_both_buckets() {
    let usage = json(r#"{ "cache_read_input_tokens": 700, "cache_creation_input_tokens": 100 }"#);
    assert_eq!(extract_anthropic_cache_split(&usage), (700, 100));
}

#[test]
fn anthropic_cache_split_read_only() {
    let usage = json(r#"{ "cache_read_input_tokens": 500 }"#);
    assert_eq!(extract_anthropic_cache_split(&usage), (500, 0));
}

#[test]
fn anthropic_cache_split_write_only() {
    let usage = json(r#"{ "cache_creation_input_tokens": 300 }"#);
    assert_eq!(extract_anthropic_cache_split(&usage), (0, 300));
}

#[test]
fn anthropic_cache_split_empty_usage() {
    assert_eq!(extract_anthropic_cache_split(&json(r#"{}"#)), (0, 0));
}

#[test]
fn anthropic_cache_split_skips_non_numeric() {
    let usage = json(r#"{ "cache_read_input_tokens": "n/a", "cache_creation_input_tokens": null }"#);
    assert_eq!(extract_anthropic_cache_split(&usage), (0, 0));
}

#[test]
fn the_total_of_a_prompt_covers_its_cache_buckets() {
    let usage = json(r#"{ "input_tokens": 2800, "cache_read_input_tokens": 38400 }"#);
    assert!(anthropic_total_input_tokens(&usage) >= extract_cache_hit_tokens(&usage));
}

#[test]
fn sums_do_not_overflow() {
    let usage = json(
        r#"{ "input_tokens": 18446744073709551615, "cache_read_input_tokens": 18446744073709551615 }"#,
    );
    assert_eq!(anthropic_total_input_tokens(&usage), u64::MAX);
}
