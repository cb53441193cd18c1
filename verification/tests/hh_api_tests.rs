use hh_rust_bot::hh_api::{
    format_published_time, format_salary_range, format_vacancy, published_time_is_cuttable,
    summarize_vacancy, vacancies_url, vacancy_time_is_cuttable, Area, Employer, SalaryRange,
    Snippet, VacanciesResponse, Vacancy, BASE_URL, SEARCH_TEXT, USER_AGENT,
};

fn full_vacancy() -> Vacancy {
    Vacancy {
        id: Some("98765".to_string()),
        name: Some("Rust developer".to_string()),
        area: Some(Area { name: Some("Москва".to_string()) }),
        salary: Some(SalaryRange {
            from: Some(200000),
            to: Some(350000),
            currency: Some("RUR".to_string()),
        }),
        employer: Some(Employer { name: Some("Acme".to_string()) }),
        published_at: Some("2024-03-05T14:07:09+0300".to_string()),
        alternate_url: Some("https://hh.ru/vacancy/98765".to_string()),
        snippet: Some(Snippet { requirement: Some("Опыт работы с Rust".to_string()) }),
    }
}

#[test]
fn published_time_regular_timestamp() {
    assert_eq!(format_published_time("2024-03-05T14:07:09+0300"), "05 мар 2024 14:07:0");
    assert_eq!(format_published_time("2023-12-31T23:59:59+0300"), "31 дек 2023 23:59:5");
    assert_eq!(format_published_time("2023-01-01T00:00:00"), "01 янв 2023 00:00:0");
}

#[test]
fn published_time_short_text_kept() {
    assert_eq!(format_published_time(""), "");
    assert_eq!(format_published_time("?"), "?");
    assert_eq!(format_published_time("2024-03-05"), "2024-03-05");
    assert_eq!(format_published_time("2024-03-05T14:07:0"), "2024-03-05T14:07:0");
}

#[test]
fn published_time_month_out_of_range_or_unparsable() {
    assert_eq!(format_published_time("2024-13-05T14:07:09"), "05  2024 14:07:0");
    assert_eq!(format_published_time("2024-00-05T14:07:09"), "05  2024 14:07:0");
    assert_eq!(format_published_time("2024-ab-05T14:07:09"), "05  2024 14:07:0");
    assert_eq!(format_published_time("2024-+3-05T14:07:09"), "05 мар 2024 14:07:0");
}

#[test]
fn published_time_too_few_dashes_kept() {
    assert_eq!(format_published_time("2024/03/05T14:07:09"), "2024/03/05T14:07:09");
    assert_eq!(format_published_time("2024-03/05T14:07:09"), "2024-03/05T14:07:09");
}

#[test]
fn published_time_more_dashes() {
    assert_eq!(format_published_time("20-4-03-05T14:07:09"), "03 апр 20 14:07:0");
    assert_eq!(format_published_time("--------T14:07:09Z"), "--------T14:07:09Z");
    assert_eq!(format_published_time("----------T14:07:09"), "   14:07:0");
}

#[test]
fn published_time_cut_check() {
    assert!(published_time_is_cuttable("2024-03-05T14:07:09+0300"));
    assert!(published_time_is_cuttable("короткий"));
    assert!(!published_time_is_cuttable("ааааааааааааааааааааа"));
    assert!(!published_time_is_cuttable("2024-03-0ЖT14:07:09"));
    assert!(published_time_is_cuttable("2024-03-ЖT14:07:09"));
    assert_eq!(format_published_time("2024-03-ЖT14:07:09"), "Ж мар 2024 14:07:0");
}

#[test]
fn salary_range_text() {
    let s = SalaryRange { from: Some(100000), to: None, currency: None };
    assert_eq!(format_salary_range(&s), "100000 - ? RUR");
    let s = SalaryRange { from: None, to: Some(-5), currency: Some("USD".to_string()) };
    assert_eq!(format_salary_range(&s), "? - -5 USD");
    let s = SalaryRange { from: Some(i64::MIN), to: Some(0), currency: Some("EUR".to_string()) };
    assert_eq!(format_salary_range(&s), "-9223372036854775808 - 0 EUR");
}

#[test]
fn vacancy_message_full() {
    let v = full_vacancy();
    assert!(vacancy_time_is_cuttable(&v));
    assert_eq!(
        format_vacancy(&v),
        "🎯 <b>Rust developer</b>\n💼 Acme\n📍 Москва\n💰 200000 - 350000 RUR\n🔗 https://hh.ru/vacancy/98765\n🕐 05 мар 2024 14:07:0"
    );
}

#[test]
fn vacancy_message_defaults() {
    let v = Vacancy::default();
    assert_eq!(format_vacancy(&v), "🎯 <b>Unknown</b>\n💼 Unknown\n📍 Unknown\n💰 Не указана\n🔗 \n🕐 ");
    let v = Vacancy {
        area: Some(Area::default()),
        employer: Some(Employer::default()),
        salary: Some(SalaryRange::default()),
        ..Vacancy::default()
    };
    assert_eq!(format_vacancy(&v), "🎯 <b>Unknown</b>\n💼 Unknown\n📍 Unknown\n💰 ? - ? RUR\n🔗 \n🕐 ");
}

#[test]
fn search_url() {
    assert_eq!(
        vacancies_url(SEARCH_TEXT, 50),
        "https://api.hh.ru/vacancies?text=Rust&per_page=50&search_field=name"
    );
    assert_eq!(
        vacancies_url("a b", 0),
        "https://api.hh.ru/vacancies?text=a b&per_page=0&search_field=name"
    );
    assert_eq!(BASE_URL, "https://api.hh.ru");
    assert_eq!(USER_AGENT, "HH-Rust-Bot/1.0 (https://t.me/rust_hh_jobs_bot)");
}

#[test]
fn summary_of_full_vacancy() {
    let s = summarize_vacancy(&full_vacancy());
    assert_eq!(s.id, "98765");
    assert_eq!(s.name, "Rust developer");
    assert_eq!(s.area, "Москва");
    assert_eq!(s.employer, "Acme");
    assert_eq!(s.salary, "200000 - 350000 RUR");
    assert_eq!(s.published, "05 мар 2024 14:07:0");
    assert_eq!(s.requirements, "Опыт работы с Rust");
}

#[test]
fn summary_of_empty_vacancy() {
    let s = summarize_vacancy(&Vacancy::default());
    assert_eq!(s.id, "?");
    assert_eq!(s.name, "?");
    assert_eq!(s.area, "?");
    assert_eq!(s.employer, "?");
    assert_eq!(s.salary, "Not specified");
    assert_eq!(s.published, "?");
    assert_eq!(s.requirements, "");
}

#[test]
fn summary_requirements_cut_to_hundred_chars() {
    let long: String = "я".repeat(150);
    let v = Vacancy {
        snippet: Some(Snippet { requirement: Some(long) }),
        ..Vacancy::default()
    };
    let s = summarize_vacancy(&v);
    assert_eq!(s.requirements, "я".repeat(100));
    let exact: String = "x".repeat(100);
    let v = Vacancy {
        snippet: Some(Snippet { requirement: Some(exact.clone()) }),
        ..Vacancy::default()
    };
    assert_eq!(summarize_vacancy(&v).requirements, exact);
}

#[test]
fn empty_response() {
    let r = VacanciesResponse::default();
    assert!(r.items.is_empty());
    assert_eq!(r.found, None);
    assert_eq!(r.per_page, None);
}

#[test]
fn published_time_ignores_bytes_after_eighteen() {
    assert_eq!(
        format_published_time("2024-03-05T14:07:09+0300"),
        format_published_time("2024-03-05T14:07:01Z")
    );
}
