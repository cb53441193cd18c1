use hh_rust_bot::bot::{
    begins_with_start_command, chat_action_from_lowered, count_after_command, decide_chat_action,
    is_start_command, reply_for_vacancies, ChatAction, DEFAULT_FETCH_COUNT,
};
use hh_rust_bot::hh_api::{format_vacancy, Vacancy};

#[test]
fn start_command_any_case() {
    assert!(is_start_command("/start"));
    assert!(is_start_command("/START"));
    assert!(is_start_command("/Start@rust_hh_jobs_bot 5"));
    assert!(is_start_command("/startle"));
    assert!(!is_start_command("/star"));
    assert!(!is_start_command(" /start"));
    assert!(!is_start_command("hello"));
    assert!(!is_start_command(""));
}

#[test]
fn start_prefix_on_lowered_text() {
    assert!(begins_with_start_command("/start now"));
    assert!(!begins_with_start_command("/Start"));
    assert!(!begins_with_start_command("/старт"));
}

#[test]
fn count_is_second_word() {
    assert_eq!(count_after_command("/start@rust_hh_jobs_bot 5"), Some(5));
    assert_eq!(count_after_command("/start 12 more"), Some(12));
    assert_eq!(count_after_command("/start"), None);
    assert_eq!(count_after_command("/start five"), None);
    assert_eq!(count_after_command("/start  5"), None);
}

#[test]
fn start_subscribes() {
    let sub = ChatAction { subscribe: true, fetch_count: DEFAULT_FETCH_COUNT };
    assert_eq!(decide_chat_action("/start", true), sub);
    assert_eq!(decide_chat_action("/start@rust_hh_jobs_bot", false), sub);
    assert_eq!(decide_chat_action("/START", false), sub);
}

#[test]
fn start_with_count_fetches_that_many() {
    assert_eq!(
        decide_chat_action("/start@rust_hh_jobs_bot 5", false),
        ChatAction { subscribe: false, fetch_count: 5 }
    );
    assert_eq!(
        decide_chat_action("/start 1000", true),
        ChatAction { subscribe: false, fetch_count: 1000 }
    );
}

#[test]
fn number_in_private_chat_fetches_that_many() {
    assert_eq!(decide_chat_action("5", true), ChatAction { subscribe: false, fetch_count: 5 });
    assert_eq!(decide_chat_action("10", true), ChatAction { subscribe: false, fetch_count: 10 });
    assert_eq!(decide_chat_action("0", true), ChatAction { subscribe: false, fetch_count: 0 });
    assert_eq!(decide_chat_action("250", true), ChatAction { subscribe: false, fetch_count: 250 });
    assert_eq!(decide_chat_action("4294967295", true), ChatAction { subscribe: false, fetch_count: 4294967295 });
    assert_eq!(decide_chat_action("4294967296", true), ChatAction { subscribe: false, fetch_count: 1 });
    assert_eq!(decide_chat_action("5", false), ChatAction { subscribe: false, fetch_count: 1 });
}

#[test]
fn other_text_gets_latest_vacancy() {
    let one = ChatAction { subscribe: false, fetch_count: 1 };
    assert_eq!(decide_chat_action("hello", true), one);
    assert_eq!(decide_chat_action(" 5", true), one);
    assert_eq!(decide_chat_action("(no text)", false), one);
}

#[test]
fn replies_are_all_vacancies_in_order() {
    let vs: Vec<Vacancy> = (1..=5)
        .map(|i| Vacancy { name: Some(format!("job {}", i)), ..Vacancy::default() })
        .collect();
    let replies = reply_for_vacancies(&vs);
    let expected: Vec<String> = vs.iter().map(format_vacancy).collect();
    assert_eq!(replies, expected);
    assert!(reply_for_vacancies(&Vec::new()).is_empty());
}

#[test]
fn action_from_lowered_text() {
    assert_eq!(
        chat_action_from_lowered("/start", "/START", true),
        ChatAction { subscribe: true, fetch_count: DEFAULT_FETCH_COUNT }
    );
    assert_eq!(
        chat_action_from_lowered("/start@rust_hh_jobs_bot 7", "/Start@rust_hh_jobs_bot 7", false),
        ChatAction { subscribe: false, fetch_count: 7 }
    );
    assert_eq!(
        chat_action_from_lowered("hello", "Hello", true),
        ChatAction { subscribe: false, fetch_count: 1 }
    );
    assert_eq!(
        chat_action_from_lowered("/start 99999999999", "/start 99999999999", true),
        ChatAction { subscribe: true, fetch_count: 1 }
    );
}
