//! The decisions of the chat handler: recognizing `/start` and choosing the reply.

use vstd::prelude::*;
use vstd::string::*;
use crate::hh_api::{format_vacancy, vacancy_message, vacancy_time_cuttable, Vacancy};
use crate::text::{
    first_sep_index, lemma_first_sep, lowercase, parse_usize, parsed_usize, split_on, to_lowercase,
};

verus! {

/// How many vacancies an ordinary chat message is answered with.
pub const DEFAULT_FETCH_COUNT: u32 = 1;

/// What the bot does with a chat message.
#[derive(Debug, Clone, Copy, PartialEq, Eq, Structural)]
pub struct ChatAction {
    /// Add the chat to the subscribers of the periodic notifications.
    pub subscribe: bool,
    /// How many of the latest vacancies to send back (none when 0).
    pub fetch_count: u32,
}

/// The command that subscribes a chat.
pub open spec fn start_command() -> Seq<char> {
    seq!['/', 's', 't', 'a', 'r', 't']
}

/// Whether `s` begins with `/start`.
pub open spec fn begins_with_start(s: Seq<char>) -> bool {
    s.len() >= 6 && s.take(6) == start_command()
}

/// Whether already lowercased text begins with `/start`.
pub fn begins_with_start_command(lowered: &str) -> (starts: bool)
    ensures
        starts == begins_with_start(lowered@),
{
    let n: usize = lowered.unicode_len();
    if n < 6 {
        return false;
    }
    let starts = lowered.get_char(0) == '/' && lowered.get_char(1) == 's' && lowered.get_char(2)
        == 't' && lowered.get_char(3) == 'a' && lowered.get_char(4) == 'r' && lowered.get_char(5)
        == 't';
    proof {
        if starts {
            assert(lowered@.take(6) =~= start_command());
        } else if lowered@.take(6) == start_command() {
            assert(lowered@.take(6)[0] == lowered@[0]);
            assert(lowered@.take(6)[1] == lowered@[1]);
            assert(lowered@.take(6)[2] == lowered@[2]);
            assert(lowered@.take(6)[3] == lowered@[3]);
            assert(lowered@.take(6)[4] == lowered@[4]);
            assert(lowered@.take(6)[5] == lowered@[5]);
        }
    }
    starts
}

/// Whether a chat message is the `/start` command in any letter case: its
/// lowercase form (`str::to_lowercase`) begins with `/start`.
pub fn is_start_command(text: &str) -> (start: bool)
    ensures
        start == begins_with_start(lowercase(text@)),
{
    let lowered = to_lowercase(text);
    begins_with_start_command(lowered.as_str())
}

/// The count given after a command: the second space-separated word of the
/// message, when it parses as a number.
pub open spec fn command_count(text: Seq<char>) -> Option<usize> {
    let words = split_on(text, ' ');
    if words.len() >= 2 {
        parsed_usize(words[1])
    } else {
        None
    }
}

/// What a message asks for, given the message and its lowercase form:
/// - `/start` in any letter case (`/start@rust_hh_jobs_bot` in groups), followed
///   by a number N: the N latest vacancies.
/// - `/start` otherwise: subscribe the chat, and answer with the latest vacancy.
/// - In a private chat, a number N: the N latest vacancies.
/// - Anything else: the latest vacancy.
/// A number counts only when it fits the `u32` count of a request.
pub open spec fn chat_action_given(lowered: Seq<char>, text: Seq<char>, is_private: bool) -> ChatAction {
    if begins_with_start(lowered) {
        match command_count(text) {
            Some(n) if n <= u32::MAX => ChatAction { subscribe: false, fetch_count: n as u32 },
            _ => ChatAction { subscribe: true, fetch_count: DEFAULT_FETCH_COUNT },
        }
    } else {
        match parsed_usize(text) {
            Some(n) if is_private && n <= u32::MAX => ChatAction {
                subscribe: false,
                fetch_count: n as u32,
            },
            _ => ChatAction { subscribe: false, fetch_count: DEFAULT_FETCH_COUNT },
        }
    }
}

/// What a message asks for (see `chat_action_given`), its lowercase form being
/// what `str::to_lowercase` gives.
pub open spec fn chat_action_for(text: Seq<char>, is_private: bool) -> ChatAction {
    chat_action_given(lowercase(text), text, is_private)
}

/// The count given after a command (see `command_count`).
pub fn count_after_command(text: &str) -> (count: Option<usize>)
    ensures
        count == command_count(text@),
{
    let n: usize = text.unicode_len();
    let k: usize = first_sep_index(text, ' ');
    proof {
        lemma_first_sep(text@, ' ');
    }
    if k >= n {
        proof {
            assert(split_on(text@, ' ') == seq![text@]);
        }
        return None;
    }
    let rest = text.substring_char(k + 1, n);
    let k2: usize = first_sep_index(rest, ' ');
    proof {
        lemma_first_sep(rest@, ' ');
        assert(rest@ =~= text@.skip(k + 1int));
        let words = split_on(text@, ' ');
        assert(words == seq![text@.take(k as int)] + split_on(rest@, ' '));
        assert(split_on(rest@, ' ')[0] == rest@.take(k2 as int));
    }
    let word = rest.substring_char(0, k2);
    parse_usize(word)
}

/// Decides what to do with a chat message from the message and its lowercase
/// form (see `chat_action_given`).
pub fn chat_action_from_lowered(lowered: &str, text: &str, is_private: bool) -> (action: ChatAction)
    ensures
        action == chat_action_given(lowered@, text@, is_private),
{
    if begins_with_start_command(lowered) {
        match count_after_command(text) {
            Some(n) => {
                if n <= 4294967295 {
                    ChatAction { subscribe: false, fetch_count: n as u32 }
                } else {
                    ChatAction { subscribe: true, fetch_count: DEFAULT_FETCH_COUNT }
                }
            },
            None => ChatAction { subscribe: true, fetch_count: DEFAULT_FETCH_COUNT },
        }
    } else {
        match parse_usize(text) {
            Some(n) => {
                if is_private && n <= 4294967295 {
                    ChatAction { subscribe: false, fetch_count: n as u32 }
                } else {
                    ChatAction { subscribe: false, fetch_count: DEFAULT_FETCH_COUNT }
                }
            },
            None => ChatAction { subscribe: false, fetch_count: DEFAULT_FETCH_COUNT },
        }
    }
}

/// Decides what to do with a chat message (see `chat_action_for`).
pub fn decide_chat_action(text: &str, is_private: bool) -> (action: ChatAction)
    ensures
        action == chat_action_for(text@, is_private),
{
    let lowered = to_lowercase(text);
    chat_action_from_lowered(lowered.as_str(), text, is_private)
}

/// Whether every vacancy's publication time can be rendered.
pub open spec fn all_time_cuttable(vacancies: Seq<Vacancy>) -> bool {
    forall|i: int| 0 <= i < vacancies.len() ==> vacancy_time_cuttable(#[trigger] vacancies[i])
}

/// The replies to a chat message: the announcement of each fetched vacancy, in
/// the order fetched.
pub fn reply_for_vacancies(vacancies: &Vec<Vacancy>) -> (replies: Vec<String>)
    requires
        all_time_cuttable(vacancies@),
    ensures
        replies@.len() == vacancies@.len(),
        forall|i: int| 0 <= i < vacancies@.len() ==> (#[trigger] replies@[i])@ == vacancy_message(
            vacancies@[i],
        ),
{
    let mut replies: Vec<String> = Vec::new();
    let mut i: usize = 0;
    while i < vacancies.len()
        invariant
            i <= vacancies.len(),
            all_time_cuttable(vacancies@),
            replies@.len() == i,
            forall|j: int| 0 <= j < i ==> (#[trigger] replies@[j])@ == vacancy_message(vacancies@[j]),
        decreases vacancies.len() - i,
    {
        replies.push(format_vacancy(&vacancies[i]));
        i = i + 1;
    }
    replies
}

} // verus!
