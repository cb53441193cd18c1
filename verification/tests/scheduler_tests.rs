use hh_rust_bot::hh_api::{format_vacancy, Vacancy};
use hh_rust_bot::scheduler::{
    decide_cycle, is_newer_id, notifications, select_new_vacancies, NewVacancies,
    SCHEDULED_FETCH_COUNT,
};

fn with_id(id: &str) -> Vacancy {
    Vacancy { id: Some(id.to_string()), name: Some(format!("job {}", id)), ..Vacancy::default() }
}

#[test]
fn newer_id_is_numeric_order() {
    assert!(is_newer_id("2", "1"));
    assert!(!is_newer_id("1", "2"));
    assert!(!is_newer_id("5", "5"));
    assert!(is_newer_id("100", "99"));
    assert!(!is_newer_id("99", "100"));
    assert!(is_newer_id("100", "10"));
    assert!(is_newer_id("123456790", "123456789"));
    assert!(!is_newer_id("", ""));
    assert!(is_newer_id("a", ""));
    assert!(is_newer_id("я", "z"));
    assert!(!is_newer_id("aa", "b"));
    assert!(is_newer_id("b", "aa"));
    assert!(is_newer_id("a", "5"));
    assert!(!is_newer_id("5", "a"));
}

#[test]
fn selects_ids_above_remembered_one() {
    let vs = vec![with_id("120"), with_id("100"), Vacancy::default(), with_id("130"), with_id("110")];
    let plan = select_new_vacancies("110", &vs).expect("new vacancies");
    assert_eq!(plan.indices, vec![0, 3]);
    assert_eq!(plan.highest_id, "130");
}

#[test]
fn nothing_new_gives_none() {
    let vs = vec![with_id("100"), with_id("090"), Vacancy::default()];
    assert!(select_new_vacancies("100", &vs).is_none());
    assert!(select_new_vacancies("0", &Vec::new()).is_none());
    assert!(select_new_vacancies("0", &vec![Vacancy::default()]).is_none());
}

#[test]
fn initial_remembered_id_zero_takes_all_ids() {
    let vs = vec![with_id("5"), with_id("77")];
    let plan = select_new_vacancies("0", &vs).expect("new vacancies");
    assert_eq!(plan.indices, vec![0, 1]);
    assert_eq!(plan.highest_id, "77");
}

#[test]
fn repeat_fetch_announces_nothing() {
    let vs = vec![with_id("7"), with_id("9"), with_id("8")];
    let plan = select_new_vacancies("1", &vs).expect("new vacancies");
    assert_eq!(plan.highest_id, "9");
    assert!(select_new_vacancies(&plan.highest_id, &vs).is_none());
}

#[test]
fn remembered_id_never_goes_back() {
    let vs = vec![with_id("3"), with_id("5")];
    let plan = select_new_vacancies("4", &vs).expect("new vacancies");
    assert_eq!(plan.highest_id, "5");
    assert!(!is_newer_id("4", &plan.highest_id));
}

#[test]
fn announced_id_not_new_in_later_fetch() {
    let first = vec![with_id("50"), with_id("60")];
    let plan = select_new_vacancies("40", &first).expect("new vacancies");
    let later = vec![with_id("61"), with_id("60"), with_id("50")];
    let next = select_new_vacancies(&plan.highest_id, &later).expect("new vacancies");
    assert_eq!(next.indices, vec![0]);
}

#[test]
fn longer_ids_are_newer() {
    let vs = vec![with_id("99"), with_id("100")];
    let plan = select_new_vacancies("98", &vs).expect("new vacancies");
    assert_eq!(plan.indices, vec![0, 1]);
    assert_eq!(plan.highest_id, "100");
    let plan = select_new_vacancies("99", &vs).expect("new vacancies");
    assert_eq!(plan.indices, vec![1]);
}

#[test]
fn id_listed_twice_is_announced_once() {
    let vs = vec![with_id("5"), with_id("3"), with_id("5"), with_id("6"), with_id("6")];
    let plan = select_new_vacancies("0", &vs).expect("new vacancies");
    assert_eq!(plan.indices, vec![0, 1, 3]);
    assert_eq!(plan.highest_id, "6");
    let subs = vec![(1i64, "private".to_string())];
    let out = notifications(&subs, &vs, &plan);
    assert_eq!(out.len(), 3);
}

#[test]
fn cycle_decision_stores_highest_and_sends_each_once() {
    let vs = vec![with_id("5"), with_id("5"), with_id("4")];
    let subs = vec![(1i64, "private".to_string()), (2i64, "group".to_string())];
    let d = decide_cycle("4", &vs, &subs);
    assert_eq!(d.store_id, Some("5".to_string()));
    let pairs: Vec<(i64, String)> = d.sends.into_iter().map(|n| (n.chat_id, n.text)).collect();
    assert_eq!(pairs, vec![(1, format_vacancy(&vs[0])), (2, format_vacancy(&vs[0]))]);
    let again = decide_cycle("5", &vs, &subs);
    assert_eq!(again.store_id, None);
    assert!(again.sends.is_empty());
}

#[test]
fn runs_of_cycles_never_repeat_a_vacancy() {
    let subs = vec![(7i64, "private".to_string())];
    let fetches = vec![
        vec![with_id("10"), with_id("9")],
        vec![with_id("11"), with_id("10"), with_id("11")],
        vec![with_id("11"), with_id("9")],
        vec![with_id("100"), with_id("12")],
    ];
    let mut stored = "8".to_string();
    let mut sent: Vec<String> = Vec::new();
    for f in &fetches {
        let d = decide_cycle(&stored, f, &subs);
        for n in &d.sends {
            sent.push(n.text.clone());
        }
        if let Some(id) = d.store_id {
            stored = id;
        }
    }
    let expected: Vec<String> = ["10", "9", "11", "100", "12"]
        .iter()
        .map(|id| format_vacancy(&with_id(id)))
        .collect();
    assert_eq!(sent, expected);
    assert_eq!(stored, "100");
}

#[test]
fn every_subscriber_gets_every_new_vacancy_in_order() {
    let vs = vec![with_id("1"), with_id("2"), with_id("3")];
    let plan = NewVacancies { indices: vec![0, 2], highest_id: "3".to_string() };
    let subs = vec![(10i64, "private".to_string()), (-20i64, "group".to_string())];
    let out = notifications(&subs, &vs, &plan);
    let pairs: Vec<(i64, String)> = out.into_iter().map(|n| (n.chat_id, n.text)).collect();
    assert_eq!(
        pairs,
        vec![
            (10, format_vacancy(&vs[0])),
            (10, format_vacancy(&vs[2])),
            (-20, format_vacancy(&vs[0])),
            (-20, format_vacancy(&vs[2])),
        ]
    );
}

#[test]
fn no_subscribers_no_messages() {
    let vs = vec![with_id("1")];
    let plan = NewVacancies { indices: vec![0], highest_id: "1".to_string() };
    assert!(notifications(&Vec::new(), &vs, &plan).is_empty());
}

#[test]
fn fetch_size() {
    assert_eq!(SCHEDULED_FETCH_COUNT, 50);
}

#[test]
fn newer_id_agrees_with_numbers() {
    for a in 0u64..150 {
        for b in [0u64, 1, 9, 10, 11, 99, 100, 101, 149] {
            assert_eq!(is_newer_id(&a.to_string(), &b.to_string()), a > b, "{} vs {}", a, b);
        }
    }
}
