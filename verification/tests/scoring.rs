use history_pruning::estimator::{estimate_chars, estimate_tokens};
use history_pruning::item::{MessageType, ResponseItem};
use history_pruning::recency::created_recently;
use history_pruning::scorer::{calculate_importance, is_essential_message};

const NOW: i64 = 1_700_000_000_000;
const HOUR: i64 = 3_600_000;

fn item(content: &str, kind: MessageType, timestamp: i64) -> ResponseItem {
    ResponseItem {
        content: content.to_string(),
        role: "user".to_string(),
        timestamp,
        token_count: 0,
        importance_score: 0,
        message_type: kind,
    }
}

#[test]
fn estimate_of_empty_text_is_zero() {
    assert_eq!(estimate_tokens(""), 0);
    assert_eq!(estimate_chars(0), 0);
}

#[test]
fn estimate_rounds_up() {
    assert_eq!(estimate_tokens("a"), 1);
    assert_eq!(estimate_tokens("abcdefg"), 2);
    assert_eq!(estimate_tokens("abcdefgh"), 3);
    assert_eq!(estimate_chars(35), 10);
    assert_eq!(estimate_chars(36), 11);
    assert_eq!(estimate_chars(350), 100);
    assert_eq!(estimate_chars(2500), 715);
}

#[test]
fn estimate_counts_characters_not_bytes() {
    assert_eq!("ééé".len(), 6);
    assert_eq!(estimate_tokens("ééé"), 1);
    assert_eq!(estimate_tokens("éééé"), 2);
}

#[test]
fn estimate_of_the_largest_length_does_not_overflow() {
    let n = usize::MAX;
    let expected = n / 7 * 2 + (n % 7 * 2 + 6) / 7;
    assert_eq!(estimate_chars(n), expected);
}

#[test]
fn recency_ends_at_sixty_minutes() {
    assert!(created_recently(NOW, NOW));
    assert!(created_recently(NOW, NOW - HOUR + 1));
    assert!(!created_recently(NOW, NOW - HOUR));
    assert!(!created_recently(NOW, NOW - 2 * HOUR));
}

#[test]
fn an_item_from_the_future_is_recent() {
    assert!(created_recently(NOW, NOW + 5 * HOUR));
    assert!(created_recently(i64::MIN, i64::MAX));
    assert!(!created_recently(i64::MAX, i64::MIN));
}

#[test]
fn score_by_kind() {
    let old = NOW - HOUR;
    assert_eq!(calculate_importance(&item("hello", MessageType::ImportantDecision, old), NOW), 90);
    assert_eq!(calculate_importance(&item("hello", MessageType::ErrorHandling, old), NOW), 80);
    assert_eq!(calculate_importance(&item("hello", MessageType::UserQuery, old), NOW), 70);
    assert_eq!(calculate_importance(&item("hello", MessageType::CodeExecution, old), NOW), 60);
    assert_eq!(calculate_importance(&item("hello", MessageType::SystemResponse, old), NOW), 50);
    assert_eq!(calculate_importance(&item("hello", MessageType::ContextualInfo, old), NOW), 40);
}

#[test]
fn score_gains_ten_when_recent() {
    assert_eq!(calculate_importance(&item("hello", MessageType::UserQuery, NOW), NOW), 80);
    assert_eq!(
        calculate_importance(&item("hello", MessageType::UserQuery, NOW - HOUR + 1), NOW),
        80
    );
    assert_eq!(calculate_importance(&item("hello", MessageType::UserQuery, NOW - HOUR), NOW), 70);
}

#[test]
fn score_by_keywords() {
    let old = NOW - HOUR;
    let kind = MessageType::SystemResponse;
    assert_eq!(calculate_importance(&item("an error", kind, old), NOW), 70);
    assert_eq!(calculate_importance(&item("a bug", kind, old), NOW), 70);
    assert_eq!(calculate_importance(&item("an error and a bug", kind, old), NOW), 70);
    assert_eq!(calculate_importance(&item("important", kind, old), NOW), 70);
    assert_eq!(calculate_importance(&item("critical", kind, old), NOW), 70);
    assert_eq!(calculate_importance(&item("a solution", kind, old), NOW), 65);
    assert_eq!(calculate_importance(&item("a fix", kind, old), NOW), 65);
    assert_eq!(calculate_importance(&item("critical error, no fix", kind, old), NOW), 100);
    assert_eq!(calculate_importance(&item("important solution", kind, old), NOW), 85);
}

#[test]
fn score_matches_keywords_in_any_case() {
    let old = NOW - HOUR;
    let kind = MessageType::SystemResponse;
    assert_eq!(calculate_importance(&item("An ERROR", kind, old), NOW), 70);
    assert_eq!(calculate_importance(&item("An Important SOLUTION", kind, old), NOW), 85);
}

#[test]
fn score_for_code_is_case_sensitive() {
    let old = NOW - HOUR;
    let kind = MessageType::SystemResponse;
    assert_eq!(calculate_importance(&item("```let x```", kind, old), NOW), 60);
    assert_eq!(calculate_importance(&item("fn main()", kind, old), NOW), 60);
    assert_eq!(calculate_importance(&item("Fn main()", kind, old), NOW), 50);
    assert_eq!(calculate_importance(&item("fn", kind, old), NOW), 50);
}

#[test]
fn score_loses_ten_above_two_thousand_characters() {
    let old = NOW - HOUR;
    let kind = MessageType::SystemResponse;
    assert_eq!(calculate_importance(&item(&"x".repeat(2000), kind, old), NOW), 50);
    assert_eq!(calculate_importance(&item(&"x".repeat(2001), kind, old), NOW), 40);
}

#[test]
fn score_is_clamped_at_one_hundred() {
    let text = "ERROR: critical fix ```";
    assert_eq!(calculate_importance(&item(text, MessageType::ImportantDecision, NOW), NOW), 100);
}

#[test]
fn lowest_score_is_thirty() {
    let text = "x".repeat(2500);
    assert_eq!(
        calculate_importance(&item(&text, MessageType::ContextualInfo, NOW - HOUR), NOW),
        30
    );
}

#[test]
fn score_ignores_stored_score_and_token_count() {
    let mut it = item("hello", MessageType::UserQuery, NOW);
    it.importance_score = 3;
    it.token_count = 99;
    assert_eq!(calculate_importance(&it, NOW), 80);
}

#[test]
fn essential_by_prefix() {
    let kind = MessageType::ContextualInfo;
    assert!(is_essential_message(&item("SYSTEM: Critical error occurred", kind, NOW)));
    assert!(is_essential_message(&item("system: up", kind, NOW)));
    assert!(!is_essential_message(&item("the system: up", kind, NOW)));
    assert!(!is_essential_message(&item("system up", kind, NOW)));
}

#[test]
fn essential_by_mention() {
    let kind = MessageType::ContextualInfo;
    assert!(is_essential_message(&item("got Error: 5", kind, NOW)));
    assert!(!is_essential_message(&item("got error 5", kind, NOW)));
    assert!(is_essential_message(&item("An Exception was thrown", kind, NOW)));
    assert!(is_essential_message(&item("Config update: max_tokens = 500000", kind, NOW)));
    assert!(is_essential_message(&item("new Settings", kind, NOW)));
    assert!(!is_essential_message(&item("Regular message 7", kind, NOW)));
    assert!(!is_essential_message(&item("", kind, NOW)));
}

#[test]
fn essential_does_not_depend_on_importance() {
    let mut low = item("config", MessageType::ContextualInfo, NOW);
    low.importance_score = 0;
    let mut high = item("config", MessageType::ImportantDecision, NOW);
    high.importance_score = 100;
    assert!(is_essential_message(&low));
    assert!(is_essential_message(&high));
}
