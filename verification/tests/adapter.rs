use history_pruning::adapter::{classify_message_type, ConversationHistory, ExternalItem, OptimizationConfig};
use history_pruning::item::MessageType;
use history_pruning::report::{decimal_string, migration_report};
use history_pruning::stats::ConversationStats;

const NOW: i64 = 1_700_000_000_000;

fn external(content: &str, role: &str) -> ExternalItem {
    ExternalItem { content: content.to_string(), role: role.to_string() }
}

#[test]
fn test_token_reduction_target() {
    let mut history = ConversationHistory::new();

    let heavy_items: Vec<ExternalItem> = (0..1000)
        .map(|i| ExternalItem {
            content: format!("This is test message {} with substantial content that would normally consume significant tokens in the conversation history", i),
            role: if i % 3 == 0 { "user".to_string() } else { "assistant".to_string() },
        })
        .collect();

    assert!(history.can_record(&heavy_items));
    history.record_items(&heavy_items, NOW);

    let stats = history.get_optimization_stats();

    assert!(stats.total_tokens <= 800_000, "Token count {} exceeds limit", stats.total_tokens);
    assert!(stats.total_messages >= 15, "Too few messages retained: {}", stats.total_messages);
}

#[test]
fn test_essential_message_preservation() {
    let mut history = ConversationHistory::new();

    let essential_items = vec![
        ExternalItem {
            content: "SYSTEM: Critical error occurred".to_string(),
            role: "system".to_string(),
        },
        ExternalItem {
            content: "Config update: max_tokens = 500000".to_string(),
            role: "user".to_string(),
        },
    ];

    let filler: Vec<ExternalItem> = (0..500)
        .map(|i| ExternalItem {
            content: format!("Regular message {}", i),
            role: "assistant".to_string(),
        })
        .collect();

    history.record_items(&essential_items, NOW);
    history.record_items(&filler, NOW);

    let final_items = history.items();

    assert!(final_items.iter().any(|item| item.content.contains("SYSTEM: Critical")));
    assert!(final_items.iter().any(|item| item.content.contains("Config update")));
}

#[test]
fn system_item_survives_five_hundred_fillers() {
    let mut history = ConversationHistory::with_token_limit(100_000);
    history.record_items(&[external("SYSTEM: Critical error occurred", "system")], NOW);
    let filler: Vec<ExternalItem> =
        (0..500).map(|i| external(&format!("Some generic text number {}", i), "note")).collect();
    history.record_items(&filler, NOW + 1);
    let held = history.items();
    assert_eq!(held.len(), 501);
    assert_eq!(held[0].content, "SYSTEM: Critical error occurred");
    assert_eq!(held[0].role, "system");
}

#[test]
fn classify_by_role_and_text() {
    assert_eq!(classify_message_type("anything", "system"), MessageType::SystemResponse);
    assert_eq!(classify_message_type("an error", "system"), MessageType::SystemResponse);
    assert_eq!(classify_message_type("I got an Error", "user"), MessageType::ErrorHandling);
    assert_eq!(classify_message_type("please HELP", "user"), MessageType::ErrorHandling);
    assert_eq!(classify_message_type("error in config", "user"), MessageType::ErrorHandling);
    assert_eq!(classify_message_type("change the Config", "user"), MessageType::ImportantDecision);
    assert_eq!(classify_message_type("a new setting", "user"), MessageType::ImportantDecision);
    assert_eq!(classify_message_type("hello", "user"), MessageType::UserQuery);
    assert_eq!(classify_message_type("```x```", "assistant"), MessageType::CodeExecution);
    assert_eq!(classify_message_type("``` important", "assistant"), MessageType::CodeExecution);
    assert_eq!(classify_message_type("IMPORTANT", "assistant"), MessageType::ImportantDecision);
    assert_eq!(classify_message_type("a warning", "assistant"), MessageType::ImportantDecision);
    assert_eq!(classify_message_type("fine", "assistant"), MessageType::SystemResponse);
    assert_eq!(classify_message_type("an error", "tool"), MessageType::ContextualInfo);
    assert_eq!(classify_message_type("an error", "User"), MessageType::ContextualInfo);
    assert_eq!(classify_message_type("", ""), MessageType::ContextualInfo);
}

#[test]
fn new_history_has_the_default_limits() {
    let history = ConversationHistory::new();
    let stats = history.get_optimization_stats();
    assert_eq!(stats.max_tokens, 800_000);
    assert_eq!(stats.total_messages, 0);
    assert_eq!(stats.total_tokens, 0);
    let history = ConversationHistory::with_token_limit(12);
    assert_eq!(history.get_optimization_stats().max_tokens, 12);
}

#[test]
fn items_come_back_with_text_and_role() {
    let mut history = ConversationHistory::new();
    history.record_items(&[external("one", "user"), external("two", "assistant")], NOW);
    history.record_items(&[], NOW);
    history.record_items(&[external("three", "tool")], NOW + 5);
    let held = history.items();
    assert_eq!(held.len(), 3);
    assert_eq!((held[0].content.as_str(), held[0].role.as_str()), ("one", "user"));
    assert_eq!((held[1].content.as_str(), held[1].role.as_str()), ("two", "assistant"));
    assert_eq!((held[2].content.as_str(), held[2].role.as_str()), ("three", "tool"));
}

#[test]
fn every_item_goes_through_the_pipeline_on_its_own() {
    let mut history = ConversationHistory::with_token_limit(1000);
    let batch: Vec<ExternalItem> =
        (0..30).map(|i| external(&format!("{:0>700}", i), "assistant")).collect();
    history.record_items(&batch, NOW);
    let held = history.items();
    assert_eq!(held.len(), 10);
    assert_eq!(held[0].content, format!("{:0>700}", 20));
    assert_eq!(held[9].content, format!("{:0>700}", 29));
    assert_eq!(history.get_optimization_stats().total_tokens, 2000);
}

#[test]
fn keep_last_messages_on_a_short_history_removes_nothing() {
    let mut history = ConversationHistory::with_token_limit(1000);
    let batch: Vec<ExternalItem> =
        (0..10).map(|i| external(&format!("{:0>700}", i), "assistant")).collect();
    history.record_items(&batch, NOW);
    assert_eq!(history.items().len(), 10);
    history.keep_last_messages(100);
    assert_eq!(history.items().len(), 10);
    assert_eq!(history.get_optimization_stats().total_messages, 10);
}

#[test]
fn keep_last_messages_lowers_the_floor_and_prunes() {
    let mut history = ConversationHistory::with_token_limit(1000);
    let batch: Vec<ExternalItem> =
        (0..10).map(|i| external(&format!("{:0>700}", i), "assistant")).collect();
    history.record_items(&batch, NOW);
    history.keep_last_messages(0);
    assert_eq!(history.items().len(), 10);
    history.keep_last_messages(3);
    let held = history.items();
    assert_eq!(held.len(), 3);
    assert_eq!(held[0].content, format!("{:0>700}", 7));
}

#[test]
fn migration_takes_in_every_item() {
    let old_items: Vec<ExternalItem> =
        (0..120).map(|i| external(&format!("old message {}", i), "user")).collect();
    let history = ConversationHistory::migrate_from_old(old_items, NOW);
    let held = history.items();
    assert_eq!(held.len(), 120);
    assert_eq!(held[0].content, "old message 0");
    assert_eq!(held[119].content, "old message 119");
    assert_eq!(history.get_optimization_stats().max_tokens, 800_000);
}

#[test]
fn migration_report_in_words() {
    let old_items = vec![
        external("hello world", "user"),
        external("SYSTEM: Critical error occurred", "system"),
        external("ok", "assistant"),
    ];
    let history = ConversationHistory::migrate_from_old(old_items, NOW);
    let stats = history.get_optimization_stats();
    assert_eq!(
        stats,
        ConversationStats {
            total_messages: 3,
            total_tokens: 14,
            max_tokens: 800_000,
            utilization_percentage: 0,
            compressed_messages: 0,
            high_importance_messages: 2,
        }
    );
    assert_eq!(
        history.get_migration_report(),
        "🚀 Migration Complete!\n📊 Total messages: 3\n💾 Total tokens: 14\n📈 Utilization: 0%\n🗜️ Compressed messages: 0\n⭐ High importance: 2\n\n💕 Ready for 20% token reduction!"
    );
}

#[test]
fn report_of_given_counters() {
    let stats = ConversationStats {
        total_messages: 1000,
        total_tokens: 944_000,
        max_tokens: 800_000,
        utilization_percentage: 118,
        compressed_messages: 40,
        high_importance_messages: 7,
    };
    assert_eq!(
        migration_report(&stats),
        format!(
            "🚀 Migration Complete!\n📊 Total messages: {}\n💾 Total tokens: {}\n📈 Utilization: {}%\n🗜️ Compressed messages: {}\n⭐ High importance: {}\n\n💕 Ready for 20% token reduction!",
            1000, 944_000, 118, 40, 7
        )
    );
}

#[test]
fn numbers_in_decimal() {
    assert_eq!(decimal_string(0), "0");
    assert_eq!(decimal_string(7), "7");
    assert_eq!(decimal_string(10), "10");
    assert_eq!(decimal_string(109), "109");
    assert_eq!(decimal_string(1234567890), "1234567890");
    assert_eq!(decimal_string(usize::MAX), format!("{}", usize::MAX));
}

#[test]
fn default_configuration() {
    let config = OptimizationConfig::default();
    assert_eq!(config.max_tokens, 800_000);
    assert_eq!(config.min_messages, 15);
    assert_eq!(config.compression_threshold, 70);
    assert!(config.enable_aggressive_pruning);
}

#[test]
fn can_record_sums_the_bounds_of_the_items() {
    let history = ConversationHistory::new();
    assert!(history.can_record(&[]));
    assert!(history.can_record(&[external("a", "user"), external("b", "user")]));
}

#[test]
fn try_record_items_takes_what_fits() {
    let mut history = ConversationHistory::new();
    assert!(history.try_record_items(&[external("one", "user"), external("two", "user")], NOW));
    assert_eq!(history.items().len(), 2);
    assert!(history.try_record_items(&[], NOW));
    assert_eq!(history.items().len(), 2);
}
