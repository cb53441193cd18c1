//! Vacancy records as HeadHunter's API returns them, and their rendering.

use vstd::prelude::*;
use vstd::string::*;
use vstd::utf8::*;
use crate::text::{
    digit_char, decimal_digits, digits_value, is_decimal_digit, decimal_text, i64_to_string, first_sep_index, lemma_first_sep, parse_usize, parsed_usize, split_on,
};

verus! {

/// A job offer; every field may be absent from the API's answer.
#[derive(Debug, Clone)]
pub struct Vacancy {
    pub id: Option<String>,
    pub name: Option<String>,
    pub area: Option<Area>,
    /// `salary_range` in the API's JSON.
    pub salary: Option<SalaryRange>,
    pub employer: Option<Employer>,
    pub published_at: Option<String>,
    /// `alternate_url` in the API's JSON: the offer's page for people.
    pub alternate_url: Option<String>,
    pub snippet: Option<Snippet>,
}

/// Short excerpts of an offer.
#[derive(Debug, Clone)]
pub struct Snippet {
    pub requirement: Option<String>,
}

/// Where the job is.
#[derive(Debug, Clone)]
pub struct Area {
    pub name: Option<String>,
}

/// The pay that an offer states, with either end possibly open.
#[derive(Debug, Clone)]
pub struct SalaryRange {
    pub from: Option<i64>,
    pub to: Option<i64>,
    pub currency: Option<String>,
}

/// Who offers the job.
#[derive(Debug, Clone)]
pub struct Employer {
    pub name: Option<String>,
}

/// One page of a vacancy search.
#[derive(Debug)]
pub struct VacanciesResponse {
    pub items: Vec<Vacancy>,
    pub found: Option<u32>,
    pub page: Option<u32>,
    pub pages: Option<u32>,
    pub per_page: Option<u32>,
}

impl Default for Vacancy {
    /// A vacancy with every field absent.
    fn default() -> (v: Self)
        ensures
            v.id is None && v.name is None && v.area is None && v.salary is None,
            v.employer is None && v.published_at is None && v.alternate_url is None,
            v.snippet is None,
    {
        Vacancy {
            id: None,
            name: None,
            area: None,
            salary: None,
            employer: None,
            published_at: None,
            alternate_url: None,
            snippet: None,
        }
    }
}

impl Default for Snippet {
    /// A snippet without requirements.
    fn default() -> (s: Self)
        ensures
            s.requirement is None,
    {
        Snippet { requirement: None }
    }
}

impl Default for Area {
    /// An area without a name.
    fn default() -> (a: Self)
        ensures
            a.name is None,
    {
        Area { name: None }
    }
}

impl Default for SalaryRange {
    /// A range with both ends open and no currency.
    fn default() -> (r: Self)
        ensures
            r.from is None && r.to is None && r.currency is None,
    {
        SalaryRange { from: None, to: None, currency: None }
    }
}

impl Default for Employer {
    /// An employer without a name.
    fn default() -> (e: Self)
        ensures
            e.name is None,
    {
        Employer { name: None }
    }
}

impl Default for VacanciesResponse {
    /// An empty page with no counts.
    fn default() -> (r: Self)
        ensures
            r.items@.len() == 0 && r.found is None && r.page is None && r.pages is None
                && r.per_page is None,
    {
        VacanciesResponse { items: Vec::new(), found: None, page: None, pages: None, per_page: None }
    }
}

/// Abbreviated Russian month names; index 0 (and any other number) has none.
pub open spec fn month_abbrev(m: int) -> Seq<char> {
    if m == 1 {
        "янв"@
    } else if m == 2 {
        "фев"@
    } else if m == 3 {
        "мар"@
    } else if m == 4 {
        "апр"@
    } else if m == 5 {
        "май"@
    } else if m == 6 {
        "июн"@
    } else if m == 7 {
        "июл"@
    } else if m == 8 {
        "авг"@
    } else if m == 9 {
        "сен"@
    } else if m == 10 {
        "окт"@
    } else if m == 11 {
        "ноя"@
    } else if m == 12 {
        "дек"@
    } else {
        ""@
    }
}

/// The month name written for a month field: its number when it parses as a
/// `usize`, 0 when it does not; a number of 13 or more gives the empty name.
pub open spec fn month_name_of_field(field: Seq<char>) -> Seq<char> {
    let m: int = match parsed_usize(field) {
        Some(v) => v as int,
        None => 0,
    };
    if m < 13 {
        month_abbrev(m)
    } else {
        ""@
    }
}

/// Inputs on which `format_published_time` can cut the text: when it is at least
/// 19 bytes long in UTF-8, bytes 10, 11 and 18 each begin a character.
pub open spec fn published_time_cuttable(s: Seq<char>) -> bool {
    let b = encode_utf8(s);
    b.len() >= 19 ==> is_char_boundary(b, 10) && is_char_boundary(b, 11) && is_char_boundary(b, 18)
}

/// How a publication time such as `2024-03-05T14:07:09+0300` is shown:
/// `05 мар 2024 14:07:0`. Text shorter than 19 bytes is kept as it is. Otherwise the
/// first 10 bytes are the date and bytes 11 to 17 the time; the date is split on
/// `-`, and with fewer than three pieces the text is kept as it is; else the
/// result is the third piece, the month name of the second, the first, and the
/// time, separated by spaces.
pub open spec fn formatted_published_time(s: Seq<char>) -> Seq<char> {
    let b = encode_utf8(s);
    if b.len() < 19 {
        s
    } else {
        let date = decode_utf8(b.subrange(0, 10));
        let time = decode_utf8(b.subrange(11, 18));
        let parts = split_on(date, '-');
        if parts.len() >= 3 {
            parts[2] + seq![' '] + month_name_of_field(parts[1]) + seq![' '] + parts[0] + seq![' ']
                + time
        } else {
            s
        }
    }
}

fn month_abbrev_str(m: usize) -> (name: &'static str)
    ensures
        name@ == (if m < 13 { month_abbrev(m as int) } else { ""@ }),
{
    match m {
        1 => "янв",
        2 => "фев",
        3 => "мар",
        4 => "апр",
        5 => "май",
        6 => "июн",
        7 => "июл",
        8 => "авг",
        9 => "сен",
        10 => "окт",
        11 => "ноя",
        12 => "дек",
        _ => "",
    }
}

/// The two pieces of a byte split at a character boundary decode to the
/// characters before and after it.
proof fn lemma_boundary_shift(b: Seq<u8>, start: int, i: int)
    requires
        valid_utf8(b),
        0 <= start < i < b.len(),
        is_char_boundary(b, start),
        is_char_boundary(b, i),
    ensures
        valid_utf8(b.subrange(start, b.len() as int)),
        is_char_boundary(b.subrange(start, b.len() as int), i - start),
{
    valid_utf8_split(b, start);
    let t = b.subrange(start, b.len() as int);
    is_char_boundary_iff_not_is_continuation_byte(b, i);
    is_char_boundary_iff_not_is_continuation_byte(t, i - start);
    assert(t[i - start] == b[i]);
}

/// Only the first 18 bytes of a publication time reach what is shown: when a
/// text of at least 19 bytes has a date that splits into three pieces, any
/// other such text with the same first 18 bytes (the same date, hours, minutes
/// and tens of seconds) is shown the same way, whatever follows.
pub proof fn law_published_time_ignores_tail(p: Seq<char>, q: Seq<char>)
    requires
        encode_utf8(p).len() >= 19,
        encode_utf8(q).len() >= 19,
        encode_utf8(p).subrange(0, 18) == encode_utf8(q).subrange(0, 18),
        split_on(decode_utf8(encode_utf8(p).subrange(0, 10)), '-').len() >= 3,
    ensures
        formatted_published_time(p) == formatted_published_time(q),
{
    let (bp, bq) = (encode_utf8(p), encode_utf8(q));
    assert(bp.subrange(0, 10) =~= bp.subrange(0, 18).subrange(0, 10));
    assert(bq.subrange(0, 10) =~= bq.subrange(0, 18).subrange(0, 10));
    assert(bp.subrange(11, 18) =~= bp.subrange(0, 18).subrange(11, 18));
    assert(bq.subrange(11, 18) =~= bq.subrange(0, 18).subrange(11, 18));
}

/// Whether `format_published_time` can take `published` (see
/// `published_time_cuttable`); the text is cut at bytes 10, 11 and 18 only
/// when it has at least 19.
pub fn published_time_is_cuttable(published: &str) -> (ok: bool)
    ensures
        ok == published_time_cuttable(published@),
{
    if published.as_bytes().len() < 19 {
        true
    } else {
        published.is_char_boundary(10) && published.is_char_boundary(11)
            && published.is_char_boundary(18)
    }
}

/// Whether a vacancy's publication time can be rendered (see
/// `vacancy_time_cuttable`).
pub fn vacancy_time_is_cuttable(vacancy: &Vacancy) -> (ok: bool)
    ensures
        ok == vacancy_time_cuttable(*vacancy),
{
    match &vacancy.published_at {
        Some(p) => published_time_is_cuttable(p.as_str()),
        None => true,
    }
}

/// Renders an API publication time for people (see `formatted_published_time`).
pub fn format_published_time(published: &str) -> (shown: String)
    requires
        published_time_cuttable(published@),
    ensures
        shown@ == formatted_published_time(published@),
{
    proof {
        broadcast use encode_utf8_valid_utf8, encode_utf8_decode_utf8;
    }
    let ghost b = encode_utf8(published@);
    if published.as_bytes().len() < 19 {
        return published.to_owned();
    }
    let (date_part, time_part) = published.split_at(10);
    proof {
        lemma_boundary_shift(b, 10, 11);
        assert(time_part.spec_bytes() =~= b.subrange(10, b.len() as int));
    }
    let (_, after_sep) = time_part.split_at(1);
    proof {
        assert(after_sep.spec_bytes() =~= b.subrange(11, b.len() as int));
        lemma_boundary_shift(b, 11, 18);
    }
    let (time, _) = after_sep.split_at(7);
    proof {
        assert(time.spec_bytes() =~= b.subrange(11, 18));
        assert(date_part.spec_bytes() =~= b.subrange(0, 10));
        assert(date_part@ == decode_utf8(b.subrange(0, 10)));
        assert(time@ == decode_utf8(b.subrange(11, 18)));
    }
    let ghost date = date_part@;
    let n: usize = date_part.unicode_len();
    let k0: usize = first_sep_index(date_part, '-');
    proof {
        lemma_first_sep(date, '-');
    }
    if k0 >= n {
        proof {
            assert(split_on(date, '-') == seq![date]);
        }
        return published.to_owned();
    }
    let year = date_part.substring_char(0, k0);
    let rest1 = date_part.substring_char(k0 + 1, n);
    let n1: usize = rest1.unicode_len();
    let k1: usize = first_sep_index(rest1, '-');
    proof {
        lemma_first_sep(rest1@, '-');
        assert(rest1@ =~= date.skip(k0 + 1int));
    }
    if k1 >= n1 {
        proof {
            assert(split_on(rest1@, '-') == seq![rest1@]);
            assert(split_on(date, '-') == seq![date.take(k0 as int)] + split_on(rest1@, '-'));
        }
        return published.to_owned();
    }
    let month_field = rest1.substring_char(0, k1);
    let rest2 = rest1.substring_char(k1 + 1, n1);
    let k2: usize = first_sep_index(rest2, '-');
    proof {
        lemma_first_sep(rest2@, '-');
        assert(rest2@ =~= rest1@.skip(k1 + 1int));
    }
    let day = rest2.substring_char(0, k2);
    let month: usize = match parse_usize(month_field) {
        Some(v) => v,
        None => 0,
    };
    let month_name = month_abbrev_str(month);
    let mut shown = day.to_owned();
    shown.append(" ");
    shown.append(month_name);
    shown.append(" ");
    shown.append(year);
    shown.append(" ");
    shown.append(time);
    proof {
        reveal_strlit(" ");
        let parts = split_on(date, '-');
        let parts1 = split_on(rest1@, '-');
        let parts2 = split_on(rest2@, '-');
        assert(parts == seq![date.take(k0 as int)] + parts1);
        assert(parts1 == seq![rest1@.take(k1 as int)] + parts2);
        assert(parts2[0] == rest2@.take(k2 as int));
        assert(parts.len() >= 3);
        assert(parts[0] =~= year@);
        assert(parts[1] =~= month_field@);
        assert(parts[2] =~= day@);
    }
    shown
}

/// The text of an optional string, or `default` when it is absent.
pub open spec fn text_or(o: Option<String>, default: Seq<char>) -> Seq<char> {
    match o {
        Some(t) => t@,
        None => default,
    }
}

/// The area's name, or `default` when the area or its name is absent.
pub open spec fn area_name_or(a: Option<Area>, default: Seq<char>) -> Seq<char> {
    match a {
        Some(a) => text_or(a.name, default),
        None => default,
    }
}

/// The employer's name, or `default` when the employer or its name is absent.
pub open spec fn employer_name_or(e: Option<Employer>, default: Seq<char>) -> Seq<char> {
    match e {
        Some(e) => text_or(e.name, default),
        None => default,
    }
}

/// One end of a salary range: its amount in decimal, or `?` when it is open.
pub open spec fn salary_bound_text(bound: Option<i64>) -> Seq<char> {
    match bound {
        Some(v) => decimal_text(v as int),
        None => "?"@,
    }
}

/// A salary range as `from - to currency`, with `?` for an open end and `RUR`
/// when no currency is given.
pub open spec fn salary_range_text(s: SalaryRange) -> Seq<char> {
    salary_bound_text(s.from) + " - "@ + salary_bound_text(s.to) + " "@ + text_or(s.currency, "RUR"@)
}

/// Whether the vacancy's publication time, if any, can be rendered without a
/// cut inside a character (see `published_time_cuttable`).
pub open spec fn vacancy_time_cuttable(v: Vacancy) -> bool {
    match v.published_at {
        Some(p) => published_time_cuttable(p@),
        None => true,
    }
}

/// The chat message that announces a vacancy, in Telegram's HTML mode: name in
/// bold, then employer, area, salary (`Не указана` when none is given), link and
/// publication time, one per line, each after its emoji. Absent name, employer
/// or area read `Unknown`; absent link and time are empty.
pub open spec fn vacancy_message(v: Vacancy) -> Seq<char> {
    let salary = match v.salary {
        Some(s) => salary_range_text(s),
        None => "Не указана"@,
    };
    "🎯 <b>"@ + text_or(v.name, "Unknown"@) + "</b>\n💼 "@ + employer_name_or(v.employer, "Unknown"@)
        + "\n📍 "@ + area_name_or(v.area, "Unknown"@) + "\n💰 "@ + salary + "\n🔗 "@ + text_or(
        v.alternate_url,
        ""@,
    ) + "\n🕐 "@ + formatted_published_time(text_or(v.published_at, ""@))
}

fn string_or(o: &Option<String>, default: &str) -> (t: String)
    ensures
        t@ == text_or(*o, default@),
{
    match o {
        Some(t) => t.clone(),
        None => default.to_owned(),
    }
}

fn salary_bound_string(bound: Option<i64>) -> (t: String)
    ensures
        t@ == salary_bound_text(bound),
{
    match bound {
        Some(v) => i64_to_string(v),
        None => "?".to_owned(),
    }
}

/// Writes a salary range as `from - to currency` (see `salary_range_text`).
pub fn format_salary_range(s: &SalaryRange) -> (t: String)
    ensures
        t@ == salary_range_text(*s),
{
    let mut t = salary_bound_string(s.from);
    t.append(" - ");
    t.append(salary_bound_string(s.to).as_str());
    t.append(" ");
    t.append(string_or(&s.currency, "RUR").as_str());
    t
}

/// The announcement of a vacancy for a chat (see `vacancy_message`).
pub fn format_vacancy(vacancy: &Vacancy) -> (message: String)
    requires
        vacancy_time_cuttable(*vacancy),
    ensures
        message@ == vacancy_message(*vacancy),
{
    let salary = match &vacancy.salary {
        Some(s) => format_salary_range(s),
        None => "Не указана".to_owned(),
    };
    let area = match &vacancy.area {
        Some(a) => string_or(&a.name, "Unknown"),
        None => "Unknown".to_owned(),
    };
    let employer = match &vacancy.employer {
        Some(e) => string_or(&e.name, "Unknown"),
        None => "Unknown".to_owned(),
    };
    let name = string_or(&vacancy.name, "Unknown");
    let url = string_or(&vacancy.alternate_url, "");
    let published = string_or(&vacancy.published_at, "");
    proof {
        reveal_strlit("");
        assert(encode_utf8(""@).len() == 0);
    }
    let time = format_published_time(published.as_str());
    let mut message = "🎯 <b>".to_owned();
    message.append(name.as_str());
    message.append("</b>\n💼 ");
    message.append(employer.as_str());
    message.append("\n📍 ");
    message.append(area.as_str());
    message.append("\n💰 ");
    message.append(salary.as_str());
    message.append("\n🔗 ");
    message.append(url.as_str());
    message.append("\n🕐 ");
    message.append(time.as_str());
    message
}

/// The host that serves HeadHunter's API.
pub const BASE_URL: &'static str = "https://api.hh.ru";

/// The `User-Agent` header that the API asks clients to send.
pub const USER_AGENT: &'static str = "HH-Rust-Bot/1.0 (https://t.me/rust_hh_jobs_bot)";

/// The search text of the recent-vacancies query.
pub const SEARCH_TEXT: &'static str = "Rust";

/// The address of a vacancy search whose name holds `text`, `per_page` offers per
/// page. `text` goes into the query as it is, without escaping.
pub open spec fn vacancies_url_text(text: Seq<char>, per_page: u32) -> Seq<char> {
    BASE_URL@ + "/vacancies?text="@ + text + "&per_page="@ + decimal_text(per_page as int)
        + "&search_field=name"@
}

/// Builds the search address (see `vacancies_url_text`).
pub fn vacancies_url(text: &str, per_page: u32) -> (url: String)
    ensures
        url@ == vacancies_url_text(text@, per_page),
{
    let mut url = BASE_URL.to_owned();
    url.append("/vacancies?text=");
    url.append(text);
    url.append("&per_page=");
    url.append(crate::text::u32_to_string(per_page).as_str());
    url.append("&search_field=name");
    url
}

/// At most the first `n` characters of `s`.
pub open spec fn char_prefix(s: Seq<char>, n: nat) -> Seq<char> {
    if s.len() <= n {
        s
    } else {
        s.take(n as int)
    }
}

/// How many characters of an offer's requirements a search log shows.
pub const REQUIREMENT_PREVIEW_CHARS: usize = 100;

/// The fields of a vacancy as a search log lists them.
pub struct VacancySummary {
    pub id: String,
    pub name: String,
    pub area: String,
    pub employer: String,
    pub salary: String,
    pub published: String,
    pub requirements: String,
}

/// What the search log shows of a vacancy: absent id, name, area, employer and
/// publication time read `?`; the salary range reads `Not specified` when none
/// is given; the time is rendered by `formatted_published_time`; of the
/// requirements (empty when absent) at most the first 100 characters are kept.
pub open spec fn summary_matches(summary: VacancySummary, v: Vacancy) -> bool {
    &&& summary.id@ == text_or(v.id, "?"@)
    &&& summary.name@ == text_or(v.name, "?"@)
    &&& summary.area@ == area_name_or(v.area, "?"@)
    &&& summary.employer@ == employer_name_or(v.employer, "?"@)
    &&& summary.salary@ == match v.salary {
        Some(s) => salary_range_text(s),
        None => "Not specified"@,
    }
    &&& summary.published@ == formatted_published_time(text_or(v.published_at, "?"@))
    &&& summary.requirements@ == char_prefix(
        match v.snippet {
            Some(sn) => text_or(sn.requirement, ""@),
            None => ""@,
        },
        REQUIREMENT_PREVIEW_CHARS as nat,
    )
}

/// Keeps at most the first `n` characters of `s`.
fn take_chars(s: &str, n: usize) -> (t: String)
    ensures
        t@ == char_prefix(s@, n as nat),
{
    let len: usize = s.unicode_len();
    if len <= n {
        s.to_owned()
    } else {
        s.substring_char(0, n).to_owned()
    }
}

/// Summarizes a vacancy for the search log (see `summary_matches`).
pub fn summarize_vacancy(vacancy: &Vacancy) -> (summary: VacancySummary)
    requires
        vacancy_time_cuttable(*vacancy),
    ensures
        summary_matches(summary, *vacancy),
{
    let id = string_or(&vacancy.id, "?");
    let name = string_or(&vacancy.name, "?");
    let area = match &vacancy.area {
        Some(a) => string_or(&a.name, "?"),
        None => "?".to_owned(),
    };
    let employer = match &vacancy.employer {
        Some(e) => string_or(&e.name, "?"),
        None => "?".to_owned(),
    };
    let published_at = string_or(&vacancy.published_at, "?");
    let salary = match &vacancy.salary {
        Some(s) => format_salary_range(s),
        None => "Not specified".to_owned(),
    };
    let requirement = match &vacancy.snippet {
        Some(sn) => string_or(&sn.requirement, ""),
        None => "".to_owned(),
    };
    proof {
        reveal_strlit("?");
        assert(encode_utf8("?"@).len() < 19) by {
            reveal_with_fuel(encode_utf8, 2);
            assert("?"@.drop_first() =~= Seq::<char>::empty());
        }
    }
    let published = format_published_time(published_at.as_str());
    let requirements = take_chars(requirement.as_str(), REQUIREMENT_PREVIEW_CHARS);
    VacancySummary { id, name, area, employer, salary, published, requirements }
}

/// The months of the year, January first, as shown in a publication time:
/// the first three letters of their Russian names.
pub open spec fn calendar_month_names() -> Seq<Seq<char>> {
    seq![
        seq!['я', 'н', 'в'],
        seq!['ф', 'е', 'в'],
        seq!['м', 'а', 'р'],
        seq!['а', 'п', 'р'],
        seq!['м', 'а', 'й'],
        seq!['и', 'ю', 'н'],
        seq!['и', 'ю', 'л'],
        seq!['а', 'в', 'г'],
        seq!['с', 'е', 'н'],
        seq!['о', 'к', 'т'],
        seq!['н', 'о', 'я'],
        seq!['д', 'е', 'к'],
    ]
}

/// Month number `m` from 1 to 12 is shown as the `m`-th month of the year,
/// twelve different three-letter names; any other number shows no name.
pub proof fn law_month_names(m: int)
    ensures
        1 <= m <= 12 ==> month_abbrev(m) == calendar_month_names()[m - 1],
        1 <= m <= 12 ==> month_abbrev(m).len() == 3,
        !(1 <= m <= 12) ==> month_abbrev(m).len() == 0,
        calendar_month_names().len() == 12,
        calendar_month_names().no_duplicates(),
{
    reveal_strlit("янв");
    reveal_strlit("фев");
    reveal_strlit("мар");
    reveal_strlit("апр");
    reveal_strlit("май");
    reveal_strlit("июн");
    reveal_strlit("июл");
    reveal_strlit("авг");
    reveal_strlit("сен");
    reveal_strlit("окт");
    reveal_strlit("ноя");
    reveal_strlit("дек");
    reveal_strlit("");
    let t = calendar_month_names();
    if 1 <= m <= 12 {
        assert(month_abbrev(m) =~= t[m - 1]);
    }
    assert forall|i: int, j: int| 0 <= i < t.len() && 0 <= j < t.len() && i != j implies t[i]
        != t[j] by {
        let (x, y) = (t[i], t[j]);
        if x == y {
            assert(x[0] == y[0] && x[1] == y[1] && x[2] == y[2]);
        }
    }
}

/// A publication time whose month field reads as a number `m` from 1 to 12
/// shows the `m`-th month of the year between the day and the year.
pub proof fn law_published_month_shown(s: Seq<char>, m: int)
    requires
        encode_utf8(s).len() >= 19,
        split_on(decode_utf8(encode_utf8(s).subrange(0, 10)), '-').len() >= 3,
        1 <= m <= 12,
        parsed_usize(split_on(decode_utf8(encode_utf8(s).subrange(0, 10)), '-')[1]) == Some(
            m as usize,
        ),
    ensures
        ({
            let parts = split_on(decode_utf8(encode_utf8(s).subrange(0, 10)), '-');
            formatted_published_time(s) == parts[2] + seq![' '] + calendar_month_names()[m - 1]
                + seq![' '] + parts[0] + seq![' '] + decode_utf8(encode_utf8(s).subrange(11, 18))
        }),
{
    law_month_names(m);
}

/// The salary line of a range ends with the range's own currency when one is
/// given, after a space, whichever ends are open; `RUR` only when none is.
pub proof fn law_salary_currency_last(s: SalaryRange)
    ensures
        ({
            let t = salary_range_text(s);
            let c = match s.currency {
                Some(c) => c@,
                None => seq!['R', 'U', 'R'],
            };
            &&& t.len() > c.len()
            &&& t.subrange(t.len() - c.len(), t.len() as int) == c
            &&& t[t.len() - c.len() - 1] == ' '
        }),
{
    reveal_strlit(" ");
    reveal_strlit(" - ");
    reveal_strlit("RUR");
    let t = salary_range_text(s);
    let c = text_or(s.currency, "RUR"@);
    let head = salary_bound_text(s.from) + " - "@ + salary_bound_text(s.to);
    assert(t =~= head + seq![' '] + c);
    assert(t.subrange(t.len() - c.len(), t.len() as int) =~= c);
}

/// A vacancy with a salary range announces it on the salary line, right after
/// the salary emoji and right before the link line: the text of the range (see
/// `law_salary_currency_last` for its currency), whatever the other fields hold.
pub proof fn law_announced_salary(v: Vacancy, s: SalaryRange)
    requires
        v.salary == Some(s),
    ensures
        exists|p: Seq<char>, q: Seq<char>|
            vacancy_message(v) == p + "\n💰 "@ + salary_range_text(s) + "\n🔗 "@ + q,
{
    let p = "🎯 <b>"@ + text_or(v.name, "Unknown"@) + "</b>\n💼 "@ + employer_name_or(
        v.employer,
        "Unknown"@,
    ) + "\n📍 "@ + area_name_or(v.area, "Unknown"@);
    let q = text_or(v.alternate_url, ""@) + "\n🕐 "@ + formatted_published_time(
        text_or(v.published_at, ""@),
    );
    assert(vacancy_message(v) =~= p + "\n💰 "@ + salary_range_text(s) + "\n🔗 "@ + q);
}

/// The decimal text of a number reads back as that number.
pub proof fn lemma_decimal_reads_back(n: nat)
    ensures
        digits_value(decimal_digits(n)) == n,
        decimal_digits(n).len() > 0,
        forall|i: int|
            0 <= i < decimal_digits(n).len() ==> is_decimal_digit(#[trigger] decimal_digits(n)[i]),
    decreases n,
{
    let d = decimal_digits(n);
    let k = n % 10;
    assert((digit_char(k) as int) == 48 + k);
    assert(is_decimal_digit(digit_char(k)));
    if n >= 10 {
        lemma_decimal_reads_back(n / 10);
        let front = decimal_digits(n / 10);
        assert(d.drop_last() =~= front);
        assert(d.last() == digit_char(k));
        assert(forall|i: int| 0 <= i < front.len() ==> d[i] == front[i]);
        assert(digits_value(d) == digits_value(front) * 10 + k);
        assert((n / 10) * 10 + k == n);
    } else {
        assert(d.drop_last() =~= Seq::<char>::empty());
        assert(d.last() == digit_char(n));
        assert(k == n);
        assert(digits_value(d.drop_last()) == 0);
    }
}

/// The search address asks for exactly the requested number of vacancies: it
/// is the base, the search text, and a page size that reads back (as the API
/// parses it) as `per_page`, for every `per_page`.
pub proof fn law_url_page_size(text: Seq<char>, per_page: u32)
    ensures
        exists|d: Seq<char>|
            vacancies_url_text(text, per_page) == BASE_URL@ + "/vacancies?text="@ + text
                + "&per_page="@ + d + "&search_field=name"@ && parsed_usize(d) == Some(
                per_page as usize,
            ),
{
    let d = decimal_text(per_page as int);
    lemma_decimal_reads_back(per_page as nat);
    assert(d[0] != '+') by {
        assert(is_decimal_digit(d[0]));
    }
    assert(d == decimal_digits(per_page as nat));
    assert(digits_value(d) == per_page);
    assert(parsed_usize(d) == Some(per_page as usize));
    assert(vacancies_url_text(text, per_page) == BASE_URL@ + "/vacancies?text="@ + text
        + "&per_page="@ + d + "&search_field=name"@ && parsed_usize(d) == Some(per_page as usize));
}

} // verus!
