use snakepit::native::i18n::{get_nested, Locales};
use snakepit::snake_egg::chrono_capacitus::{ChronoCapacitus, ClutchResourceBudget, GeminiModel};
use snakepit::snake_egg::schrodingers_shell::{QuantumState, SchrodingersShell};

#[test]
fn texts_fall_back_to_english_and_to_the_key() {
    let mut l = Locales::new();
    assert_eq!(l.get_locale(), "en");
    assert_eq!(l.t("cli.welcome"), "cli.welcome");
    l.init_defaults();
    assert_eq!(l.t("cli.welcome"), "Welcome to Snakepit");
    assert_eq!(l.t("installer.extracting"), "Extracting files...");
    assert_eq!(l.t("cli"), "cli");
    assert_eq!(l.t("cli.welcome.more"), "cli.welcome.more");
    assert_eq!(l.t("cli..welcome"), "cli..welcome");
    assert_eq!(l.t(""), "");
    l.load_locale("de", "{\"cli\": {\"welcome\": \"Willkommen\", \"n\": 3}, \"\": {\"\": \"leer\"}}");
    l.set_locale("de");
    assert_eq!(l.get_locale(), "de");
    assert_eq!(l.t("cli.welcome"), "Willkommen");
    assert_eq!(l.t("cli.success"), "Success!");
    assert_eq!(l.t("cli.n"), "cli.n");
    assert_eq!(l.t("."), "leer");
    assert_eq!(l.t("cli.missing"), "cli.missing");
    l.set_locale("fr");
    assert_eq!(l.t("cli.welcome"), "Welcome to Snakepit");
}

#[test]
fn later_texts_replace_earlier_ones_and_bad_documents_change_nothing() {
    let mut l = Locales::new();
    l.load_locale("en", "{\"a\": \"one\", \"b\": \"kept?\"}");
    l.load_locale("en", "{\"a\": \"two\"}");
    assert_eq!(l.t("a"), "two");
    assert_eq!(l.t("b"), "b");
    l.load_locale("en", "{\"a\": ");
    assert_eq!(l.cache.len(), 2);
    assert_eq!(l.t("a"), "two");
    l.load_locale("en", "\"whole\"");
    assert_eq!(l.t("a"), "a");
}

#[test]
fn nested_texts_are_found_by_their_path() {
    let doc: serde_json::Value = serde_json::from_str("{\"a\": {\"b\": {\"c\": \"deep\"}, \"l\": [\"x\"]}, \"s\": \"top\"}").unwrap();
    assert_eq!(get_nested(&doc, "a.b.c"), Some("deep".to_string()));
    assert_eq!(get_nested(&doc, "s"), Some("top".to_string()));
    assert_eq!(get_nested(&doc, "a.b"), None);
    assert_eq!(get_nested(&doc, "a.l"), None);
    assert_eq!(get_nested(&doc, "a.l.0"), None);
    assert_eq!(get_nested(&doc, "s.x"), None);
    assert_eq!(get_nested(&doc, "x"), None);
    let text: serde_json::Value = serde_json::from_str("\"bare\"").unwrap();
    assert_eq!(get_nested(&text, ""), None);
}

fn share(interval: u64, priority: u8) -> ChronoCapacitus {
    ChronoCapacitus {
        model: GeminiModel::Flash2_0,
        api_call_interval_seconds: interval,
        max_tokens_per_call: 1000,
        priority_level: priority,
    }
}

#[test]
fn the_next_piece_is_the_first_of_the_highest_priority_that_may_call() {
    let budget = ClutchResourceBudget {
        total_priority: 20,
        allocations: vec![
            ("slow".to_string(), share(3600, 9)),
            ("a".to_string(), share(60, 5)),
            ("b".to_string(), share(60, 7)),
            ("c".to_string(), share(60, 7)),
            ("d".to_string(), share(10, 1)),
        ],
    };
    let now = 1_000_000;
    let calls = vec![
        ("slow".to_string(), now - 100),
        ("b".to_string(), now - 60),
        ("c".to_string(), now - 61),
        ("c".to_string(), now),
        ("a".to_string(), now - 59),
    ];
    assert_eq!(budget.next_eligible(&calls, now), Some("b".to_string()));
    assert_eq!(budget.next_eligible(&calls, now - 1), Some("c".to_string()));
    assert_eq!(budget.next_eligible(&calls, now + 3500), Some("slow".to_string()));
    let recent: Vec<(String, u64)> =
        budget.allocations.iter().map(|(n, _)| (n.clone(), now)).collect();
    assert_eq!(budget.next_eligible(&recent, now + 5), None);
    assert_eq!(budget.next_eligible(&recent, now + 10), Some("d".to_string()));
    assert_eq!(budget.next_eligible(&recent, now - 1), Some("slow".to_string()));
    assert_eq!(budget.next_eligible(&Vec::new(), 3600), Some("slow".to_string()));
    assert_eq!(budget.next_eligible(&Vec::new(), 61), Some("b".to_string()));
    assert_eq!(budget.next_eligible(&Vec::new(), 5), None);
    let empty = ClutchResourceBudget { total_priority: 0, allocations: Vec::new() };
    assert_eq!(empty.next_eligible(&calls, now), None);
}

#[test]
fn pieces_leave_the_nest_when_idle() {
    let mut shell = SchrodingersShell::new("egg".to_string());
    assert_eq!(shell.state, QuantumState::Uncollapsed);
    assert!(shell.local_path.is_none() && shell.git_commit.is_none());
    assert!(!shell.should_evaporate(0, 1_000_000));
    shell.last_observed = Some(1000);
    assert!(!shell.should_evaporate(1, 1000 + 2 * 3600 - 1));
    assert!(shell.should_evaporate(1, 1000 + 2 * 3600));
    assert!(!shell.should_evaporate(0, 1000 + 3599));
    assert!(shell.should_evaporate(0, 1000 + 3600));
    assert!(!shell.should_evaporate(u64::MAX, u64::MAX));
    shell.state = QuantumState::Ethereal;
    assert!(!shell.should_evaporate(0, 1000 + 3600));
    shell.state = QuantumState::Superposition;
    assert!(shell.should_evaporate(0, 1000 + 3600));
}
