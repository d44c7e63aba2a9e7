//! Reading request texts and settings.

use session_placement::prompt::estimated_tokens;
use session_placement::prompt_token_count;
use session_placement::settings::parse_decimal;
use session_placement::text::is_white_space;
use session_placement::text::str_eq;
use session_placement::Instant;
use session_placement::SettingsError;
use session_placement::TokenPlacement;
use session_placement::IDLE_SECS_ENV;
use session_placement::PLACEMENT_ENV;

#[test]
fn white_space_is_that_of_unicode() {
    for code in 0..=0x10FFFFu32 {
        if let Some(c) = char::from_u32(code) {
            assert_eq!(is_white_space(c), c.is_whitespace());
        }
    }
}

#[test]
fn the_array_after_the_first_field_is_taken() {
    assert_eq!(
        prompt_token_count(Some("{\"prompt_ids\":[1],\"prompt_ids\":[1,2]}")),
        Some(1)
    );
    assert_eq!(
        prompt_token_count(Some("{\"x\":{\"prompt_ids\":[7]},\"prompt_ids\":[1,2]}")),
        Some(1)
    );
    assert_eq!(prompt_token_count(Some("{\"x\":{\"prompt_ids\":[7,8]}}")), Some(2));
    assert_eq!(prompt_token_count(Some("\"\"prompt_ids\":[1,2]")), Some(2));
    assert_eq!(prompt_token_count(Some("\"prompt_ids\":[1,2] ] \"prompt_ids\":[")), Some(2));
}

#[test]
fn where_the_first_has_no_array_the_body_s_own_fields_count() {
    assert_eq!(
        prompt_token_count(Some("{\"k\":\"prompt_ids\",\"prompt_ids\":[7]}")),
        Some(1)
    );
    assert_eq!(
        prompt_token_count(Some(" {\"x\":{\"prompt_ids\":0},\"prompt_ids\":[7,8]}")),
        Some(2)
    );
    // Braces, brackets and quotes inside strings open and close nothing.
    assert_eq!(
        prompt_token_count(Some("{\"s\":\"}{[\\\"\\\\\",\"k\":\"prompt_ids\",\"prompt_ids\":[7]}")),
        Some(1)
    );
    // The body's own field is no array.
    assert_eq!(
        prompt_token_count(Some("{\"prompt_ids\":0,\"x\":{\"prompt_ids\":[7]}}")),
        None
    );
    // No array of the body's own.
    assert_eq!(
        prompt_token_count(Some("{\"k\":\"prompt_ids\",\"x\":{\"prompt_ids\":[7]}}")),
        None
    );
    // No object.
    assert_eq!(
        prompt_token_count(Some("\"prompt_ids\" \"prompt_ids\":[1]")),
        None
    );
    assert_eq!(
        prompt_token_count(Some("[\"prompt_ids\",{\"prompt_ids\":[1]}]")),
        None
    );
    assert_eq!(
        prompt_token_count(Some("] {\"prompt_ids\":[1 \"prompt_ids\":[1,2")),
        None
    );
}

#[test]
fn a_list_needs_colon_and_brackets() {
    assert_eq!(prompt_token_count(Some("")), None);
    assert_eq!(prompt_token_count(Some("\"prompt_ids\"")), None);
    assert_eq!(prompt_token_count(Some("\"prompt_ids\":")), None);
    assert_eq!(prompt_token_count(Some("\"prompt_ids\":1")), None);
    assert_eq!(prompt_token_count(Some("\"prompt_ids\"[1]")), None);
    assert_eq!(prompt_token_count(Some("\"prompt_ids\":[1,2")), None);
    assert_eq!(prompt_token_count(Some("\"prompt_ids\":[")), None);
    assert_eq!(prompt_token_count(Some("\"prompt_ids\":[]")), Some(0));
    assert_eq!(prompt_token_count(Some("prompt_ids:[1]")), None);
}

#[test]
fn entries_are_counted_by_their_commas() {
    assert_eq!(prompt_token_count(Some("\"prompt_ids\":[1]")), Some(1));
    assert_eq!(prompt_token_count(Some("\"prompt_ids\":[,]")), Some(2));
    assert_eq!(prompt_token_count(Some("\"prompt_ids\":[[1,2],3]")), Some(2));
    assert_eq!(
        prompt_token_count(Some("\u{e9}\"prompt_ids\"\u{3000}:\u{a0}\n[\u{e9}, \u{65e5} ,x]")),
        Some(3)
    );
    assert_eq!(prompt_token_count(Some("\"prompt_ids\":[\t\u{2003}\r\n]")), Some(0));
}

#[test]
fn estimates_round_down() {
    assert_eq!(estimated_tokens(None), 0);
    assert_eq!(estimated_tokens(Some("")), 0);
    assert_eq!(estimated_tokens(Some("abc")), 0);
    assert_eq!(estimated_tokens(Some("abcdefg")), 1);
    assert_eq!(estimated_tokens(Some("\u{65e5}\u{65e5}\u{65e5}")), 2);
}

#[test]
fn texts_are_equal_by_their_characters() {
    assert!(str_eq("", ""));
    assert!(str_eq("h\u{e9}", "h\u{e9}"));
    assert!(!str_eq("h\u{e9}", "he"));
    assert!(!str_eq("hash", "hast"));
    assert!(!str_eq("hash", "has"));
}

#[test]
fn decimals_are_read_as_integers_are() {
    for text in [
        "0", "7", "+7", "900", "0042", "18446744073709551615", "18446744073709551616",
        "99999999999999999999999", "+", "-", "-1", "++1", "", " 1", "1 ", "1_000", "1e3", "\u{661}",
        "1/", "1:",
    ] {
        assert_eq!(parse_decimal(text), text.parse::<u64>().ok());
    }
}

fn idle_of(placement: Option<&str>, idle_secs: Option<&str>) -> Result<bool, SettingsError> {
    TokenPlacement::from_settings(placement, idle_secs).map(|p| p.is_some())
}

#[test]
fn settings_choose_the_placement() {
    assert_eq!(PLACEMENT_ENV, "VLLM_ROUTER_SESSION_PLACEMENT");
    assert_eq!(IDLE_SECS_ENV, "VLLM_ROUTER_SESSION_IDLE_SECS");
    assert_eq!(idle_of(None, None), Ok(false));
    assert_eq!(idle_of(Some(""), Some("10")), Ok(false));
    assert_eq!(idle_of(Some("hash"), Some("nonsense")), Ok(false));
    assert_eq!(idle_of(Some("least_tokens"), None), Ok(true));
    assert_eq!(idle_of(Some("least_tokens"), Some("")), Ok(true));
    assert_eq!(idle_of(Some("least_tokens"), Some("10")), Ok(true));
    assert_eq!(idle_of(Some("tokens"), None), Err(SettingsError::Placement));
    assert_eq!(idle_of(Some("Hash"), None), Err(SettingsError::Placement));
    assert_eq!(idle_of(Some("least_tokens"), Some("0")), Err(SettingsError::IdleSecs));
    assert_eq!(idle_of(Some("least_tokens"), Some("-5")), Err(SettingsError::IdleSecs));
    assert_eq!(idle_of(Some("least_tokens"), Some("ten")), Err(SettingsError::IdleSecs));
}

/// How many seconds a session without requests still counts.
fn idle_period(idle_secs: Option<&str>) -> u64 {
    let mut counted: u64 = 0;
    for gap in [10u64, 11, 900, 901] {
        let mut p = TokenPlacement::from_settings(Some("least_tokens"), idle_secs)
            .unwrap()
            .unwrap();
        p.place_at("s", Some("\"prompt_ids\":[1]"), &["a"], Instant { nanos: 0 });
        let later = Instant { nanos: gap as u128 * 1_000_000_000 };
        p.place_at("t", None, &["b"], later);
        if p.worker_tokens().get("a").copied() == Some(1) {
            counted = gap;
        }
    }
    counted
}

#[test]
fn the_idle_period_is_the_one_set() {
    assert_eq!(idle_period(None), 900);
    assert_eq!(idle_period(Some("")), 900);
    assert_eq!(idle_period(Some("+10")), 10);
}
