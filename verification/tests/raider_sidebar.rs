use localtools::raider::json::{Json, JsonNumber};
use localtools::raider::mirror::MessageRole;
use localtools::raider::sidebar::{
    format_tokens_compact, last_assistant_context_window, message_output_tokens, strip_trailing_zero, MessageInfo,
};

fn n(v: u64) -> Json {
    Json::Number(JsonNumber { text: v.to_string(), unsigned: Some(v) })
}

fn obj(es: Vec<(&str, Json)>) -> Json {
    Json::Object(members(es))
}

fn members(es: Vec<(&str, Json)>) -> Vec<(String, Json)> {
    es.into_iter().map(|(k, v)| (k.to_string(), v)).collect()
}

fn message(role: MessageRole, extra: Vec<(&str, Json)>) -> MessageInfo {
    MessageInfo { role, extra: members(extra) }
}

#[test]
fn context_comes_from_the_last_assistant_message_with_output() {
    let messages = vec![
        message(
            MessageRole::Assistant,
            vec![
                ("tokens", obj(vec![("input", n(100)), ("output", n(20)), ("cache", obj(vec![("read", n(5)), ("write", n(1))]))])),
                ("providerID", Json::String("p1".to_string())),
                ("modelID", Json::String("m1".to_string())),
            ],
        ),
        message(MessageRole::Assistant, vec![("tokens", obj(vec![("input", n(999)), ("output", n(0))]))]),
        message(MessageRole::User, vec![("tokens", obj(vec![("output", n(7))]))]),
    ];
    let ctx = last_assistant_context_window(&messages).expect("a context");
    assert_eq!(ctx.tokens, 126);
    assert_eq!(ctx.provider_id.as_deref(), Some("p1"));
    assert_eq!(ctx.model_id.as_deref(), Some("m1"));
    assert!(last_assistant_context_window(&messages[1..]).is_none());
    assert!(last_assistant_context_window(&[]).is_none());
}

#[test]
fn output_tokens_add_reasoning() {
    let extra = members(vec![("tokens", obj(vec![("output", n(10)), ("reasoning", n(5))]))]);
    assert_eq!(message_output_tokens(&extra), Some(15));
    let none = members(vec![("tokens", obj(vec![("input", n(10))]))]);
    assert_eq!(message_output_tokens(&none), None);
    assert_eq!(message_output_tokens(&Vec::new()), None);
    let huge = members(vec![("tokens", obj(vec![("output", n(u64::MAX)), ("reasoning", n(5))]))]);
    assert_eq!(message_output_tokens(&huge), Some(u64::MAX));
}

#[test]
fn trailing_zero_is_dropped_before_the_unit() {
    assert_eq!(strip_trailing_zero("12.0K".to_string()), "12K");
    assert_eq!(strip_trailing_zero("2.0M".to_string()), "2M");
    assert_eq!(strip_trailing_zero("1.5K".to_string()), "1.5K");
    assert_eq!(strip_trailing_zero("999".to_string()), "999");
}

#[test]
fn format_tokens_compact_matches_opencode_humanisation() {
    assert_eq!(format_tokens_compact(0), "0");
    assert_eq!(format_tokens_compact(999), "999");
    assert_eq!(format_tokens_compact(1_500), "1.5K");
    assert_eq!(format_tokens_compact(16_590), "16.6K");
    assert_eq!(format_tokens_compact(12_000), "12K");
    assert_eq!(format_tokens_compact(1_234_567), "1.2M");
    assert_eq!(format_tokens_compact(2_000_000), "2M");
}

fn float_compact(n: u64) -> String {
    let s = if n < 1_000 {
        return format!("{n}");
    } else if n < 1_000_000 {
        format!("{:.1}K", n as f64 / 1_000.0)
    } else {
        format!("{:.1}M", n as f64 / 1_000_000.0)
    };
    strip_trailing_zero(s)
}

#[test]
fn compact_counts_round_as_floating_point_does() {
    let mut n: u64 = 0;
    while n < 1_200_000 {
        assert_eq!(format_tokens_compact(n), float_compact(n), "n = {n}");
        n += if n < 20_000 { 1 } else { 7 };
    }
    for n in [1_250, 1_350, 1_450, 2_050, 999_950, 999_999, 1_050_000, 1_250_000, 999_950_000] {
        assert_eq!(format_tokens_compact(n), float_compact(n), "n = {n}");
    }
    let mut n: u64 = u64::MAX;
    for _ in 0..2_000 {
        assert_eq!(format_tokens_compact(n), float_compact(n), "n = {n}");
        n = n / 3 * 2 + 17;
    }
    for n in [u64::MAX, u64::MAX - 1, 1 << 53, (1 << 53) + 1, (1 << 60) + 3, 9_007_199_254_740_993] {
        assert_eq!(format_tokens_compact(n), float_compact(n), "n = {n}");
    }
}
