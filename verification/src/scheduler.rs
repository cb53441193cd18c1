//! The decisions of the periodic fetch: which vacancies are new since the last
//! one announced, which id is remembered next, and which messages go to whom.

use vstd::prelude::*;
use vstd::utf8::*;
use crate::hh_api::{format_vacancy, vacancy_message, vacancy_time_cuttable, Vacancy};
use crate::text::{digits_value, is_decimal_digit};

verus! {

/// How many vacancies each periodic fetch asks the API for.
pub const SCHEDULED_FETCH_COUNT: u32 = 50;

/// Lexicographic order on byte strings: `a` comes strictly before `b`.
pub open spec fn bytes_lt(a: Seq<u8>, b: Seq<u8>) -> bool
    decreases a.len(),
{
    if b.len() == 0 {
        false
    } else if a.len() == 0 {
        true
    } else if a[0] != b[0] {
        a[0] < b[0]
    } else {
        bytes_lt(a.drop_first(), b.drop_first())
    }
}

/// Shortlex order on byte strings: `a` is shorter than `b`, or as long and
/// lexicographically before it.
pub open spec fn shortlex_lt(a: Seq<u8>, b: Seq<u8>) -> bool {
    a.len() < b.len() || (a.len() == b.len() && bytes_lt(a, b))
}

/// Whether every byte is an ASCII digit (the empty string included).
pub open spec fn is_digit_bytes(x: Seq<u8>) -> bool {
    forall|i: int| 0 <= i < x.len() ==> 48 <= #[trigger] x[i] <= 57
}

/// The order of ids on their UTF-8 bytes: two digit strings are ordered as
/// numbers, by length and then lexicographically; two other texts
/// lexicographically, as `str` orders them; a digit string comes before any
/// other text.
pub open spec fn id_lt_bytes(x: Seq<u8>, y: Seq<u8>) -> bool {
    if is_digit_bytes(x) && is_digit_bytes(y) {
        shortlex_lt(x, y)
    } else if is_digit_bytes(x) != is_digit_bytes(y) {
        is_digit_bytes(x)
    } else {
        bytes_lt(x, y)
    }
}

/// Whether vacancy id `a` is newer than `b`. Ids are decimal numbers without
/// leading zeros, and a newer vacancy has a larger number (see
/// `law_id_order_is_numeric`); ids that are not digit strings keep the
/// lexicographic order of `str` among themselves (see `id_lt_bytes`).
pub open spec fn id_gt(a: Seq<char>, b: Seq<char>) -> bool {
    id_lt_bytes(encode_utf8(b), encode_utf8(a))
}

/// Whether a vacancy has an id, and that id is greater than `latest`.
pub open spec fn is_new_vacancy(v: Vacancy, latest: Seq<char>) -> bool {
    match v.id {
        Some(id) => id_gt(id@, latest),
        None => false,
    }
}

/// Whether some vacancy of `vs` has the id `id`.
pub open spec fn lists_id(vs: Seq<Vacancy>, id: Seq<char>) -> bool {
    exists|j: int| 0 <= j < vs.len() && (#[trigger] vs[j]).id is Some && vs[j].id->0@ == id
}

/// Whether the vacancy at position `k` is new with respect to `latest` and its
/// id is not listed earlier in `vs`.
pub open spec fn first_new_at(latest: Seq<char>, vs: Seq<Vacancy>, k: int) -> bool {
    is_new_vacancy(vs[k], latest) && !lists_id(vs.take(k), vs[k].id->0@)
}

/// Positions, in order, of the vacancies that are new with respect to `latest`,
/// keeping the first listing of each id.
pub open spec fn new_indices(latest: Seq<char>, vs: Seq<Vacancy>) -> Seq<usize>
    decreases vs.len(),
{
    if vs.len() == 0 {
        seq![]
    } else {
        let rest = new_indices(latest, vs.drop_last());
        if is_new_vacancy(vs.last(), latest) && !lists_id(vs.drop_last(), vs.last().id->0@) {
            rest.push((vs.len() - 1) as usize)
        } else {
            rest
        }
    }
}

/// The greatest of `latest` and the ids of `vs`, as a scan from the front that
/// takes an id whenever it is greater than the best so far.
pub open spec fn highest_id(latest: Seq<char>, vs: Seq<Vacancy>) -> Seq<char>
    decreases vs.len(),
{
    if vs.len() == 0 {
        latest
    } else {
        let h = highest_id(latest, vs.drop_last());
        match vs.last().id {
            Some(id) => if id_gt(id@, h) {
                id@
            } else {
                h
            },
            None => h,
        }
    }
}

/// Comparing two byte strings past a common prefix decides as comparing the whole.
proof fn lemma_bytes_lt_skip(a: Seq<u8>, b: Seq<u8>, i: int)
    requires
        0 <= i <= a.len(),
        i <= b.len(),
        a.subrange(0, i) == b.subrange(0, i),
    ensures
        bytes_lt(a, b) == bytes_lt(a.skip(i), b.skip(i)),
    decreases i,
{
    if i > 0 {
        assert(a[0] == a.subrange(0, i)[0]);
        assert(b[0] == b.subrange(0, i)[0]);
        assert(a.drop_first().subrange(0, i - 1) =~= a.subrange(0, i).drop_first());
        assert(b.drop_first().subrange(0, i - 1) =~= b.subrange(0, i).drop_first());
        lemma_bytes_lt_skip(a.drop_first(), b.drop_first(), i - 1);
        assert(a.drop_first().skip(i - 1) =~= a.skip(i));
        assert(b.drop_first().skip(i - 1) =~= b.skip(i));
    } else {
        assert(a.skip(0) =~= a);
        assert(b.skip(0) =~= b);
    }
}

/// Whether the UTF-8 bytes of `a` come lexicographically after those of `b`.
fn bytes_greater(a: &str, b: &str) -> (greater: bool)
    ensures
        greater == bytes_lt(encode_utf8(b@), encode_utf8(a@)),
{
    let x = a.as_bytes();
    let y = b.as_bytes();
    let mut i: usize = 0;
    while i < x.len() && i < y.len()
        invariant
            x@ == encode_utf8(a@),
            y@ == encode_utf8(b@),
            i <= x.len(),
            i <= y.len(),
            x@.subrange(0, i as int) == y@.subrange(0, i as int),
        decreases x.len() - i,
    {
        if x[i] != y[i] {
            proof {
                lemma_bytes_lt_skip(y@, x@, i as int);
                assert(y@.skip(i as int)[0] == y@[i as int]);
                assert(x@.skip(i as int)[0] == x@[i as int]);
            }
            return x[i] > y[i];
        }
        proof {
            assert(x@.subrange(0, i + 1) =~= x@.subrange(0, i as int).push(x@[i as int]));
            assert(y@.subrange(0, i + 1) =~= y@.subrange(0, i as int).push(y@[i as int]));
        }
        i = i + 1;
    }
    proof {
        lemma_bytes_lt_skip(y@, x@, i as int);
    }
    x.len() > y.len()
}

/// Whether every byte of `x` is an ASCII digit.
fn all_digit_bytes(x: &[u8]) -> (digits: bool)
    ensures
        digits == is_digit_bytes(x@),
{
    let mut i: usize = 0;
    while i < x.len()
        invariant
            i <= x.len(),
            forall|j: int| 0 <= j < i ==> 48 <= #[trigger] x@[j] <= 57,
        decreases x.len() - i,
    {
        if x[i] < 48 || x[i] > 57 {
            return false;
        }
        i = i + 1;
    }
    true
}

/// Whether vacancy id `a` is newer than `b` (see `id_gt`).
pub fn is_newer_id(a: &str, b: &str) -> (newer: bool)
    ensures
        newer == id_gt(a@, b@),
{
    let da = all_digit_bytes(a.as_bytes());
    let db = all_digit_bytes(b.as_bytes());
    if da && db {
        let la: usize = a.as_bytes().len();
        let lb: usize = b.as_bytes().len();
        if la != lb {
            la > lb
        } else {
            bytes_greater(a, b)
        }
    } else if da != db {
        db
    } else {
        bytes_greater(a, b)
    }
}

/// Whether one of the first `end` vacancies has the id `id`.
fn lists_id_before(vacancies: &Vec<Vacancy>, end: usize, id: &String) -> (listed: bool)
    requires
        end <= vacancies.len(),
    ensures
        listed == lists_id(vacancies@.take(end as int), id@),
{
    let ghost prefix = vacancies@.take(end as int);
    let mut j: usize = 0;
    while j < end
        invariant
            end <= vacancies.len(),
            prefix == vacancies@.take(end as int),
            j <= end,
            forall|k: int| 0 <= k < j ==> !((#[trigger] prefix[k]).id is Some && prefix[k].id->0@ == id@),
        decreases end - j,
    {
        match &vacancies[j].id {
            Some(x) => {
                if x.eq(id) {
                    proof {
                        assert(prefix[j as int] == vacancies@[j as int]);
                    }
                    return true;
                }
            },
            None => {},
        }
        proof {
            assert(prefix[j as int] == vacancies@[j as int]);
        }
        j = j + 1;
    }
    false
}

/// The vacancies of a fetch that are to be announced, and the id to remember
/// afterwards.
pub struct NewVacancies {
    /// Positions in the fetched list, in the list's order.
    pub indices: Vec<usize>,
    /// The greatest of the remembered id and all fetched ids.
    pub highest_id: String,
}

/// Picks the vacancies whose id is newer than `current_latest` (see `id_gt`), in
/// order and each id at its first listing only, and the id to remember next. `None` when there is none: nothing is announced and
/// the remembered id stays.
pub fn select_new_vacancies(current_latest: &str, vacancies: &Vec<Vacancy>) -> (plan: Option<NewVacancies>)
    ensures
        plan is None <==> new_indices(current_latest@, vacancies@).len() == 0,
        plan matches Some(p) ==> p.indices@ == new_indices(current_latest@, vacancies@)
            && p.highest_id@ == highest_id(current_latest@, vacancies@),
{
    let mut indices: Vec<usize> = Vec::new();
    let mut highest: String = current_latest.to_owned();
    let mut i: usize = 0;
    while i < vacancies.len()
        invariant
            i <= vacancies.len(),
            indices@ == new_indices(current_latest@, vacancies@.take(i as int)),
            highest@ == highest_id(current_latest@, vacancies@.take(i as int)),
        decreases vacancies.len() - i,
    {
        let vacancy = &vacancies[i];
        proof {
            assert(vacancies@.take(i + 1).drop_last() =~= vacancies@.take(i as int));
            assert(vacancies@.take(i + 1).last() == vacancies@[i as int]);
        }
        match &vacancy.id {
            Some(id) => {
                if is_newer_id(id.as_str(), highest.as_str()) {
                    highest = id.clone();
                }
                if is_newer_id(id.as_str(), current_latest) && !lists_id_before(vacancies, i, id) {
                    indices.push(i);
                }
            },
            None => {},
        }
        i = i + 1;
    }
    proof {
        assert(vacancies@.take(vacancies.len() as int) =~= vacancies@);
    }
    if indices.len() == 0 {
        None
    } else {
        Some(NewVacancies { indices, highest_id: highest })
    }
}

/// No byte string comes before itself.
pub proof fn lemma_bytes_lt_irreflexive(a: Seq<u8>)
    ensures
        !bytes_lt(a, a),
    decreases a.len(),
{
    if a.len() > 0 {
        lemma_bytes_lt_irreflexive(a.drop_first());
    }
}

/// The byte order is transitive.
pub proof fn lemma_bytes_lt_transitive(a: Seq<u8>, b: Seq<u8>, c: Seq<u8>)
    requires
        bytes_lt(a, b),
        bytes_lt(b, c),
    ensures
        bytes_lt(a, c),
    decreases a.len(),
{
    if a.len() > 0 && b.len() > 0 && c.len() > 0 && a[0] == b[0] && b[0] == c[0] {
        lemma_bytes_lt_transitive(a.drop_first(), b.drop_first(), c.drop_first());
    }
}

/// Of two different byte strings, one comes before the other.
pub proof fn lemma_bytes_lt_total(a: Seq<u8>, b: Seq<u8>)
    ensures
        a == b || bytes_lt(a, b) || bytes_lt(b, a),
    decreases a.len(),
{
    if a.len() > 0 && b.len() > 0 && a[0] == b[0] {
        lemma_bytes_lt_total(a.drop_first(), b.drop_first());
        if a.drop_first() == b.drop_first() {
            assert(a =~= seq![a[0]] + a.drop_first());
            assert(b =~= seq![b[0]] + b.drop_first());
        }
    } else if a.len() == 0 && b.len() == 0 {
        assert(a =~= b);
    }
}

/// The shortlex order is irreflexive, transitive and total.
pub proof fn lemma_shortlex(a: Seq<u8>, b: Seq<u8>, c: Seq<u8>)
    ensures
        !shortlex_lt(a, a),
        shortlex_lt(a, b) && shortlex_lt(b, c) ==> shortlex_lt(a, c),
        a == b || shortlex_lt(a, b) || shortlex_lt(b, a),
{
    lemma_bytes_lt_irreflexive(a);
    lemma_bytes_lt_total(a, b);
    if shortlex_lt(a, b) && shortlex_lt(b, c) && a.len() == b.len() && b.len() == c.len() {
        lemma_bytes_lt_transitive(a, b, c);
    }
}

/// The id order is irreflexive, transitive and total.
pub proof fn lemma_id_lt_bytes(a: Seq<u8>, b: Seq<u8>, c: Seq<u8>)
    ensures
        !id_lt_bytes(a, a),
        id_lt_bytes(a, b) && id_lt_bytes(b, c) ==> id_lt_bytes(a, c),
        a == b || id_lt_bytes(a, b) || id_lt_bytes(b, a),
{
    lemma_shortlex(a, b, c);
    lemma_bytes_lt_irreflexive(a);
    lemma_bytes_lt_total(a, b);
    if id_lt_bytes(a, b) && id_lt_bytes(b, c) && is_digit_bytes(a) == is_digit_bytes(b)
        && is_digit_bytes(b) == is_digit_bytes(c) && !is_digit_bytes(a) {
        lemma_bytes_lt_transitive(a, b, c);
    }
}

/// Newer-than on ids is a strict order: irreflexive and transitive.
proof fn lemma_id_gt_order(a: Seq<char>, b: Seq<char>, c: Seq<char>)
    ensures
        !id_gt(a, a),
        id_gt(a, b) && id_gt(b, c) ==> id_gt(a, c),
{
    lemma_id_lt_bytes(encode_utf8(c), encode_utf8(b), encode_utf8(a));
    lemma_id_lt_bytes(encode_utf8(a), encode_utf8(a), encode_utf8(a));
}

/// "Not newer" chains: `a <= b` and `b <= c` give `a <= c`.
proof fn lemma_id_le_transitive(a: Seq<char>, b: Seq<char>, c: Seq<char>)
    requires
        !id_gt(a, b),
        !id_gt(b, c),
    ensures
        !id_gt(a, c),
{
    let (ab, bb, cb) = (encode_utf8(a), encode_utf8(b), encode_utf8(c));
    lemma_id_lt_bytes(ab, bb, cb);
    lemma_id_lt_bytes(bb, cb, ab);
    lemma_id_lt_bytes(cb, ab, bb);
    lemma_id_lt_bytes(ab, cb, bb);
}

/// What `new_indices` holds: increasing positions of exactly the first
/// listings of new ids.
pub proof fn lemma_new_indices(latest: Seq<char>, vs: Seq<Vacancy>)
    requires
        vs.len() <= usize::MAX,
    ensures
        forall|j: int|
            0 <= j < new_indices(latest, vs).len() ==> {
                let k = #[trigger] new_indices(latest, vs)[j];
                k < vs.len() && first_new_at(latest, vs, k as int)
            },
        forall|j1: int, j2: int|
            0 <= j1 < j2 < new_indices(latest, vs).len() ==> new_indices(latest, vs)[j1]
                < new_indices(latest, vs)[j2],
        forall|k: int|
            0 <= k < vs.len() && #[trigger] first_new_at(latest, vs, k) ==> new_indices(
                latest,
                vs,
            ).contains(k as usize),
    decreases vs.len(),
{
    if vs.len() > 0 {
        let front = vs.drop_last();
        lemma_new_indices(latest, front);
        let rest = new_indices(latest, front);
        let ni = new_indices(latest, vs);
        assert forall|k: int| 0 <= k < vs.len() - 1 implies #[trigger] first_new_at(latest, vs, k)
            == first_new_at(latest, front, k) by {
            assert(front[k] == vs[k]);
            assert(front.take(k) =~= vs.take(k));
        }
        assert(vs.take(vs.len() - 1) =~= front);
        assert forall|j: int| 0 <= j < ni.len() implies {
            let k = #[trigger] ni[j];
            k < vs.len() && first_new_at(latest, vs, k as int)
        } by {
            if j < rest.len() {
                assert(ni[j] == rest[j]);
            }
        }
        assert forall|k: int| 0 <= k < vs.len() && #[trigger] first_new_at(latest, vs, k) implies ni.contains(
            k as usize,
        ) by {
            if k < vs.len() - 1 {
                let j = choose|j: int| 0 <= j < rest.len() && rest[j] == k as usize;
                assert(ni[j] == k as usize);
            } else {
                assert(ni[ni.len() - 1] == k as usize);
            }
        }
    }
}

/// No id is announced twice within one fetch, even when the fetch lists it more
/// than once: the announced positions hold pairwise different ids.
pub proof fn law_announced_ids_distinct(latest: Seq<char>, vs: Seq<Vacancy>, j1: int, j2: int)
    requires
        vs.len() <= usize::MAX,
        0 <= j1 < j2 < new_indices(latest, vs).len(),
    ensures
        vs[new_indices(latest, vs)[j1] as int].id->0@ != vs[new_indices(latest, vs)[j2] as int].id->0@,
{
    lemma_new_indices(latest, vs);
    let ni = new_indices(latest, vs);
    let k1 = ni[j1] as int;
    let k2 = ni[j2] as int;
    assert(first_new_at(latest, vs, k1));
    assert(first_new_at(latest, vs, k2));
    if vs[k1].id->0@ == vs[k2].id->0@ {
        assert(vs.take(k2)[k1] == vs[k1]);
        assert(lists_id(vs.take(k2), vs[k2].id->0@));
    }
}

/// The remembered id never goes back: the next one is not smaller than the
/// current one.
pub proof fn law_highest_not_below_latest(latest: Seq<char>, vs: Seq<Vacancy>)
    ensures
        !id_gt(latest, highest_id(latest, vs)),
    decreases vs.len(),
{
    if vs.len() == 0 {
        lemma_id_gt_order(latest, latest, latest);
    } else {
        let h = highest_id(latest, vs.drop_last());
        law_highest_not_below_latest(latest, vs.drop_last());
        let hn = highest_id(latest, vs);
        if hn != h {
            lemma_id_gt_order(h, hn, h);
            lemma_id_le_transitive(latest, h, hn);
        }
    }
}

/// No fetched id is greater than the id remembered after the fetch.
pub proof fn law_highest_bounds_every_id(latest: Seq<char>, vs: Seq<Vacancy>, i: int)
    requires
        0 <= i < vs.len(),
        vs[i].id is Some,
    ensures
        !id_gt(vs[i].id->0@, highest_id(latest, vs)),
    decreases vs.len(),
{
    let front = vs.drop_last();
    let h = highest_id(latest, front);
    let hn = highest_id(latest, vs);
    if i < vs.len() - 1 {
        assert(front[i] == vs[i]);
        law_highest_bounds_every_id(latest, front, i);
        if hn != h {
            lemma_id_gt_order(h, hn, h);
            lemma_id_le_transitive(vs[i].id->0@, h, hn);
        }
    } else {
        lemma_id_gt_order(hn, hn, hn);
    }
}

/// A fetch leaves nothing new for a repeat of the same fetch: once the
/// remembered id is updated, the same list announces no vacancy again.
pub proof fn law_repeat_fetch_announces_nothing(latest: Seq<char>, vs: Seq<Vacancy>)
    requires
        vs.len() <= usize::MAX,
    ensures
        new_indices(highest_id(latest, vs), vs).len() == 0,
{
    let h = highest_id(latest, vs);
    lemma_new_indices(h, vs);
    let ni = new_indices(h, vs);
    if ni.len() > 0 {
        let k = ni[0];
        law_highest_bounds_every_id(latest, vs, k as int);
    }
}

/// A vacancy is never announced twice: whatever a later fetch returns, as long
/// as the remembered id is not smaller than the one this fetch leaves (which
/// `law_highest_not_below_latest` keeps true from cycle to cycle), no vacancy
/// with the id of one announced now counts as new.
pub proof fn law_announced_id_never_new_again(
    latest: Seq<char>,
    vs: Seq<Vacancy>,
    j: int,
    later_latest: Seq<char>,
    later: Vacancy,
)
    requires
        vs.len() <= usize::MAX,
        0 <= j < new_indices(latest, vs).len(),
        !id_gt(highest_id(latest, vs), later_latest),
        later.id matches Some(id) && vs[new_indices(latest, vs)[j] as int].id matches Some(
            announced,
        ) && id@ == announced@,
    ensures
        !is_new_vacancy(later, later_latest),
{
    lemma_new_indices(latest, vs);
    let k = new_indices(latest, vs)[j] as int;
    law_highest_bounds_every_id(latest, vs, k);
    lemma_id_le_transitive(later.id->0@, highest_id(latest, vs), later_latest);
}

/// A vacancy is announced exactly when it has an id newer than the remembered
/// one that no earlier vacancy of the fetch carries, and announcements keep
/// the order of the fetched list.
pub proof fn law_announced_iff_newer(latest: Seq<char>, vs: Seq<Vacancy>, k: int)
    requires
        vs.len() <= usize::MAX,
        0 <= k < vs.len(),
    ensures
        new_indices(latest, vs).contains(k as usize) <==> (vs[k].id matches Some(id) && id_gt(
            id@,
            latest,
        ) && !lists_id(vs.take(k), id@)),
        forall|j1: int, j2: int|
            0 <= j1 < j2 < new_indices(latest, vs).len() ==> new_indices(latest, vs)[j1]
                < new_indices(latest, vs)[j2],
{
    lemma_new_indices(latest, vs);
    if new_indices(latest, vs).contains(k as usize) {
        let j = choose|j: int|
            0 <= j < new_indices(latest, vs).len() && new_indices(latest, vs)[j] == k as usize;
        assert(first_new_at(latest, vs, new_indices(latest, vs)[j] as int));
    }
    if vs[k].id is Some {
        assert(first_new_at(latest, vs, k) == (vs[k].id matches Some(id) && id_gt(id@, latest)
            && !lists_id(vs.take(k), id@)));
    }
}

/// A message to send, and the chat it goes to.
pub struct Notification {
    pub chat_id: i64,
    pub text: String,
}

/// Every message for every chat: chat by chat, in the order of `chats`, each
/// chat receiving all `messages` in their order.
pub open spec fn fan_out(chats: Seq<i64>, messages: Seq<Seq<char>>) -> Seq<(i64, Seq<char>)>
    decreases chats.len(),
{
    if chats.len() == 0 {
        seq![]
    } else {
        fan_out(chats.drop_last(), messages) + messages.map_values(
            |m: Seq<char>| (chats.last(), m),
        )
    }
}

/// The announcements of the vacancies at `indices`, in that order.
pub open spec fn announcements(vs: Seq<Vacancy>, indices: Seq<usize>) -> Seq<Seq<char>> {
    indices.map_values(|k: usize| vacancy_message(vs[k as int]))
}

/// The chat ids of a subscriber list of `(chat id, chat type)` pairs.
pub open spec fn chat_ids(subscribers: Seq<(i64, String)>) -> Seq<i64> {
    subscribers.map_values(|s: (i64, String)| s.0)
}

/// A notification as a pair of chat id and text.
pub open spec fn notification_pair(n: Notification) -> (i64, Seq<char>) {
    (n.chat_id, n.text@)
}

/// Whether `indices` point into `vs` at vacancies whose announcement can be
/// written (see `vacancy_time_cuttable`).
pub open spec fn announceable(vs: Seq<Vacancy>, indices: Seq<usize>) -> bool {
    forall|j: int|
        0 <= j < indices.len() ==> #[trigger] indices[j] < vs.len() && vacancy_time_cuttable(
            vs[indices[j] as int],
        )
}

/// The messages of a fetch cycle: each subscriber, in list order, gets the
/// announcement of each new vacancy, in list order (see `fan_out`).
pub fn notifications(
    subscribers: &Vec<(i64, String)>,
    vacancies: &Vec<Vacancy>,
    new: &NewVacancies,
) -> (out: Vec<Notification>)
    requires
        announceable(vacancies@, new.indices@),
    ensures
        out@.map_values(|n: Notification| notification_pair(n)) == fan_out(
            chat_ids(subscribers@),
            announcements(vacancies@, new.indices@),
        ),
{
    let ghost chats = chat_ids(subscribers@);
    let ghost messages = announcements(vacancies@, new.indices@);
    let mut out: Vec<Notification> = Vec::new();
    let mut i: usize = 0;
    while i < subscribers.len()
        invariant
            i <= subscribers.len(),
            chats == chat_ids(subscribers@),
            messages == announcements(vacancies@, new.indices@),
            announceable(vacancies@, new.indices@),
            out@.map_values(|n: Notification| notification_pair(n)) == fan_out(
                chats.take(i as int),
                messages,
            ),
        decreases subscribers.len() - i,
    {
        let chat_id: i64 = subscribers[i].0;
        let ghost before = out@.map_values(|n: Notification| notification_pair(n));
        let mut j: usize = 0;
        while j < new.indices.len()
            invariant
                i < subscribers.len(),
                j <= new.indices.len(),
                chat_id == chats[i as int],
                chats == chat_ids(subscribers@),
                messages == announcements(vacancies@, new.indices@),
                announceable(vacancies@, new.indices@),
                out@.map_values(|n: Notification| notification_pair(n)) == before + messages.take(
                    j as int,
                ).map_values(|m: Seq<char>| (chat_id, m)),
            decreases new.indices.len() - j,
        {
            let k: usize = new.indices[j];
            let text = format_vacancy(&vacancies[k]);
            let ghost prev = out@;
            out.push(Notification { chat_id, text });
            proof {
                assert(out@ =~= prev.push(Notification { chat_id, text }));
                assert(messages.take(j + 1) =~= messages.take(j as int).push(messages[j as int]));
                assert(out@.map_values(|n: Notification| notification_pair(n)) =~= prev.map_values(
                    |n: Notification| notification_pair(n),
                ).push(notification_pair(Notification { chat_id, text })));
                assert(messages.take(j + 1).map_values(|m: Seq<char>| (chat_id, m)) =~= messages.take(
                    j as int,
                ).map_values(|m: Seq<char>| (chat_id, m)).push((chat_id, messages[j as int])));
            }
            j = j + 1;
        }
        proof {
            assert(messages.take(j as int) =~= messages);
            assert(chats.take(i + 1).drop_last() =~= chats.take(i as int));
            assert(chats.take(i + 1).last() == chats[i as int]);
        }
        i = i + 1;
    }
    proof {
        assert(chats.take(i as int) =~= chats);
    }
    out
}

/// Every subscriber gets every announcement exactly once: the fan-out holds
/// `chats.len() * messages.len()` entries, and entry `i * messages.len() + j`
/// is message `j` for chat `i`.
pub proof fn law_fan_out_positions(chats: Seq<i64>, messages: Seq<Seq<char>>)
    ensures
        fan_out(chats, messages).len() == chats.len() * messages.len(),
        forall|i: int, j: int|
            0 <= i < chats.len() && 0 <= j < messages.len() ==> #[trigger] fan_out(chats, messages)[i
                * messages.len() + j] == (chats[i], messages[j]),
    decreases chats.len(),
{
    let m = messages.len() as int;
    if chats.len() > 0 {
        let front = chats.drop_last();
        law_fan_out_positions(front, messages);
        let n = chats.len() as int;
        assert(fan_out(chats, messages).len() == (n - 1) * m + m);
        assert((n - 1) * m + m == n * m) by (nonlinear_arith);
        assert forall|i: int, j: int|
            0 <= i < chats.len() && 0 <= j < messages.len() implies #[trigger] fan_out(chats, messages)[i
            * messages.len() + j] == (chats[i], messages[j]) by {
            if i < n - 1 {
                assert(i * m + j < (n - 1) * m) by (nonlinear_arith)
                    requires
                        0 <= i < n - 1,
                        0 <= j < m,
                ;
                assert(front[i] == chats[i]);
            } else {
                assert(i * m == (n - 1) * m);
            }
        }
    } else {
        assert(chats.len() * messages.len() == 0) by (nonlinear_arith)
            requires
                chats.len() == 0,
        ;
    }
}

/// Every entry of a fan-out pairs one of `chats` with one of `items`.
pub proof fn lemma_fan_out_members(chats: Seq<i64>, items: Seq<Seq<char>>)
    ensures
        forall|p: int|
            0 <= p < fan_out(chats, items).len() ==> chats.contains(
                (#[trigger] fan_out(chats, items)[p]).0,
            ) && items.contains(fan_out(chats, items)[p].1),
    decreases chats.len(),
{
    if chats.len() > 0 {
        let front = chats.drop_last();
        lemma_fan_out_members(front, items);
        let a = fan_out(front, items);
        let f = fan_out(chats, items);
        assert forall|p: int| 0 <= p < f.len() implies chats.contains((#[trigger] f[p]).0)
            && items.contains(f[p].1) by {
            if p < a.len() {
                assert(f[p] == a[p]);
                let i = choose|i: int| 0 <= i < front.len() && front[i] == a[p].0;
                assert(chats[i] == front[i]);
            } else {
                assert(f[p] == (chats.last(), items[p - a.len()]));
                assert(chats[chats.len() - 1] == chats.last());
            }
        }
    }
}

/// With no chat listed twice and no item listed twice, no (chat, item) pair
/// occurs twice in the fan-out.
pub proof fn law_fan_out_no_repeat(chats: Seq<i64>, items: Seq<Seq<char>>)
    requires
        chats.no_duplicates(),
        items.no_duplicates(),
    ensures
        fan_out(chats, items).no_duplicates(),
    decreases chats.len(),
{
    if chats.len() > 0 {
        let front = chats.drop_last();
        assert(front.no_duplicates());
        law_fan_out_no_repeat(front, items);
        lemma_fan_out_members(front, items);
        let a = fan_out(front, items);
        let f = fan_out(chats, items);
        assert forall|p: int, q: int| 0 <= p < f.len() && 0 <= q < f.len() && p != q implies f[p]
            != f[q] by {
            if p < a.len() && q < a.len() {
                assert(f[p] == a[p] && f[q] == a[q]);
            } else if p >= a.len() && q >= a.len() {
                assert(f[p] == (chats.last(), items[p - a.len()]));
                assert(f[q] == (chats.last(), items[q - a.len()]));
            } else {
                let (x, y) = if p < a.len() {
                    (p, q)
                } else {
                    (q, p)
                };
                assert(f[x] == a[x]);
                assert(f[y] == (chats.last(), items[y - a.len()]));
                if f[x].0 == chats.last() {
                    let i = choose|i: int| 0 <= i < front.len() && front[i] == a[x].0;
                    assert(chats[i] == chats[chats.len() - 1]);
                }
            }
        }
    }
}

/// The id that is stored after a cycle that remembered `stored` and fetched
/// `vs`: the greatest id when something was announced, else `stored` again.
pub open spec fn next_stored(stored: Seq<char>, vs: Seq<Vacancy>) -> Seq<char> {
    if new_indices(stored, vs).len() > 0 {
        highest_id(stored, vs)
    } else {
        stored
    }
}

/// The stored id after running cycles on the fetches `fetches`, one after the
/// other, starting from `stored0`.
pub open spec fn stored_after(stored0: Seq<char>, fetches: Seq<Seq<Vacancy>>) -> Seq<char>
    decreases fetches.len(),
{
    if fetches.len() == 0 {
        stored0
    } else {
        next_stored(stored_after(stored0, fetches.drop_last()), fetches.last())
    }
}

/// The ids that a cycle announces, in order.
pub open spec fn announced_ids(stored: Seq<char>, vs: Seq<Vacancy>) -> Seq<Seq<char>> {
    new_indices(stored, vs).map_values(|k: usize| vs[k as int].id->0@)
}

/// The (chat, vacancy id) pairs of every message sent by the cycles on
/// `fetches`, cycle `k` sending to the chats `chat_lists[k]`.
pub open spec fn sent_pairs(
    stored0: Seq<char>,
    fetches: Seq<Seq<Vacancy>>,
    chat_lists: Seq<Seq<i64>>,
) -> Seq<(i64, Seq<char>)>
    decreases fetches.len(),
{
    if fetches.len() == 0 {
        seq![]
    } else {
        let front = fetches.drop_last();
        sent_pairs(stored0, front, chat_lists) + fan_out(
            chat_lists[fetches.len() - 1],
            announced_ids(stored_after(stored0, front), fetches.last()),
        )
    }
}

/// A cycle's announced ids are newer than the id it started from, not newer
/// than the id it stores, and pairwise different.
proof fn lemma_cycle_ids(stored: Seq<char>, vs: Seq<Vacancy>)
    requires
        vs.len() <= usize::MAX,
    ensures
        !id_gt(stored, next_stored(stored, vs)),
        announced_ids(stored, vs).no_duplicates(),
        forall|j: int|
            0 <= j < announced_ids(stored, vs).len() ==> id_gt(
                #[trigger] announced_ids(stored, vs)[j],
                stored,
            ) && !id_gt(announced_ids(stored, vs)[j], next_stored(stored, vs)),
{
    lemma_new_indices(stored, vs);
    law_highest_not_below_latest(stored, vs);
    lemma_id_gt_order(stored, stored, stored);
    let ni = new_indices(stored, vs);
    let ids = announced_ids(stored, vs);
    assert forall|j: int| 0 <= j < ids.len() implies id_gt(#[trigger] ids[j], stored) && !id_gt(
        ids[j],
        next_stored(stored, vs),
    ) by {
        let k = ni[j] as int;
        assert(first_new_at(stored, vs, k));
        law_highest_bounds_every_id(stored, vs, k);
    }
    assert forall|p: int, q: int| 0 <= p < ids.len() && 0 <= q < ids.len() && p != q implies ids[p]
        != ids[q] by {
        if p < q {
            law_announced_ids_distinct(stored, vs, p, q);
        } else {
            law_announced_ids_distinct(stored, vs, q, p);
        }
    }
}

/// Ids sent by earlier cycles are not newer than the stored id.
proof fn lemma_sent_ids_bounded(
    stored0: Seq<char>,
    fetches: Seq<Seq<Vacancy>>,
    chat_lists: Seq<Seq<i64>>,
)
    requires
        chat_lists.len() >= fetches.len(),
        forall|k: int| 0 <= k < fetches.len() ==> (#[trigger] fetches[k]).len() <= usize::MAX,
    ensures
        forall|p: int|
            0 <= p < sent_pairs(stored0, fetches, chat_lists).len() ==> !id_gt(
                (#[trigger] sent_pairs(stored0, fetches, chat_lists)[p]).1,
                stored_after(stored0, fetches),
            ),
    decreases fetches.len(),
{
    if fetches.len() > 0 {
        let front = fetches.drop_last();
        assert forall|k: int| 0 <= k < front.len() implies (#[trigger] front[k]).len() <= usize::MAX by {
            assert(front[k] == fetches[k]);
        }
        lemma_sent_ids_bounded(stored0, front, chat_lists);
        let s = stored_after(stored0, front);
        let vs = fetches.last();
        assert(vs == fetches[fetches.len() - 1]);
        lemma_cycle_ids(s, vs);
        let chats = chat_lists[fetches.len() - 1];
        lemma_fan_out_members(chats, announced_ids(s, vs));
        let a = sent_pairs(stored0, front, chat_lists);
        let b = fan_out(chats, announced_ids(s, vs));
        let all = sent_pairs(stored0, fetches, chat_lists);
        assert forall|p: int| 0 <= p < all.len() implies !id_gt(
            (#[trigger] all[p]).1,
            stored_after(stored0, fetches),
        ) by {
            if p < a.len() {
                assert(all[p] == a[p]);
                lemma_id_le_transitive(a[p].1, s, next_stored(s, vs));
            } else {
                assert(all[p] == b[p - a.len()]);
                let j = choose|j: int|
                    0 <= j < announced_ids(s, vs).len() && announced_ids(s, vs)[j] == b[p
                        - a.len()].1;
            }
        }
    }
}

/// A vacancy is never announced twice to a chat: over any run of fetch cycles,
/// each starting from the id the previous one stored, where no cycle lists a
/// chat twice, no (chat, vacancy id) pair is sent more than once, whatever the
/// fetches return (a fetch may list an id twice, or list again an id announced
/// before).
pub proof fn law_never_announced_twice(
    stored0: Seq<char>,
    fetches: Seq<Seq<Vacancy>>,
    chat_lists: Seq<Seq<i64>>,
)
    requires
        chat_lists.len() >= fetches.len(),
        forall|k: int| 0 <= k < fetches.len() ==> (#[trigger] fetches[k]).len() <= usize::MAX,
        forall|k: int| 0 <= k < chat_lists.len() ==> (#[trigger] chat_lists[k]).no_duplicates(),
    ensures
        sent_pairs(stored0, fetches, chat_lists).no_duplicates(),
    decreases fetches.len(),
{
    if fetches.len() > 0 {
        let front = fetches.drop_last();
        assert forall|k: int| 0 <= k < front.len() implies (#[trigger] front[k]).len() <= usize::MAX by {
            assert(front[k] == fetches[k]);
        }
        law_never_announced_twice(stored0, front, chat_lists);
        lemma_sent_ids_bounded(stored0, front, chat_lists);
        let s = stored_after(stored0, front);
        let vs = fetches.last();
        assert(vs == fetches[fetches.len() - 1]);
        lemma_cycle_ids(s, vs);
        let chats = chat_lists[fetches.len() - 1];
        law_fan_out_no_repeat(chats, announced_ids(s, vs));
        lemma_fan_out_members(chats, announced_ids(s, vs));
        let a = sent_pairs(stored0, front, chat_lists);
        let b = fan_out(chats, announced_ids(s, vs));
        let all = sent_pairs(stored0, fetches, chat_lists);
        assert(all == a + b);
        assert forall|p: int, q: int| 0 <= p < all.len() && 0 <= q < all.len() && p != q implies all[p]
            != all[q] by {
            if p < a.len() && q < a.len() {
                assert(all[p] == a[p] && all[q] == a[q]);
            } else if p >= a.len() && q >= a.len() {
                assert(all[p] == b[p - a.len()] && all[q] == b[q - a.len()]);
            } else {
                let (x, y) = if p < a.len() {
                    (p, q)
                } else {
                    (q, p)
                };
                assert(all[x] == a[x]);
                assert(all[y] == b[y - a.len()]);
                let j = choose|j: int|
                    0 <= j < announced_ids(s, vs).len() && announced_ids(s, vs)[j] == b[y
                        - a.len()].1;
                if all[x] == all[y] {
                    assert(id_gt(a[x].1, s));
                }
            }
        }
    }
}

/// What one fetch cycle does. The id to store is decided from the stored id and
/// the fetch alone, before and whatever the sending: it is to be written
/// before any message goes out, so that a failed send is not repeated in a
/// later cycle.
pub struct CycleDecision {
    /// The id to store as the last announced one; `None` keeps the stored id.
    pub store_id: Option<String>,
    /// The messages to send, in order.
    pub sends: Vec<Notification>,
}

/// Decides a fetch cycle from the stored id, the fetched vacancies and the
/// subscribed chats: the id to store is `next_stored`, changed only when some
/// vacancy is new, and every subscriber gets the announcement of every new
/// vacancy, each id once, in list order (see `law_never_announced_twice` for
/// runs of cycles).
pub fn decide_cycle(
    stored: &str,
    fetched: &Vec<Vacancy>,
    subscribers: &Vec<(i64, String)>,
) -> (decision: CycleDecision)
    requires
        announceable(fetched@, new_indices(stored@, fetched@)),
    ensures
        decision.store_id is Some <==> new_indices(stored@, fetched@).len() > 0,
        decision.store_id matches Some(id) ==> id@ == next_stored(stored@, fetched@),
        decision.sends@.map_values(|n: Notification| notification_pair(n)) == fan_out(
            chat_ids(subscribers@),
            announcements(fetched@, new_indices(stored@, fetched@)),
        ),
{
    match select_new_vacancies(stored, fetched) {
        None => {
            proof {
                assert(fan_out(chat_ids(subscribers@), announcements(fetched@, new_indices(stored@, fetched@)))
                    =~= seq![]) by {
                    lemma_fan_out_members(
                        chat_ids(subscribers@),
                        announcements(fetched@, new_indices(stored@, fetched@)),
                    );
                    law_fan_out_positions(
                        chat_ids(subscribers@),
                        announcements(fetched@, new_indices(stored@, fetched@)),
                    );
                    assert(chat_ids(subscribers@).len() * 0 == 0) by (nonlinear_arith);
                }
            }
            CycleDecision { store_id: None, sends: Vec::new() }
        },
        Some(plan) => {
            let sends = notifications(subscribers, fetched, &plan);
            CycleDecision { store_id: Some(plan.highest_id), sends }
        },
    }
}

/// Ten to the power `n`.
pub open spec fn pow10(n: nat) -> nat
    decreases n,
{
    if n == 0 {
        1
    } else {
        10 * pow10((n - 1) as nat)
    }
}

/// Whether `s` is a number in decimal as ids are written: ASCII digits, at
/// least one, with no leading zero unless it is `0` itself.
pub open spec fn is_canonical_decimal(s: Seq<char>) -> bool {
    &&& s.len() > 0
    &&& forall|i: int| 0 <= i < s.len() ==> is_decimal_digit(#[trigger] s[i])
    &&& (s.len() == 1 || s[0] != '0')
}

proof fn lemma_pow10_monotonic(m: nat, n: nat)
    requires
        n <= m,
    ensures
        1 <= pow10(n) <= pow10(m),
    decreases m,
{
    if m > 0 {
        if n < m {
            lemma_pow10_monotonic((m - 1) as nat, n);
        } else {
            lemma_pow10_monotonic((m - 1) as nat, (m - 1) as nat);
        }
    }
}

/// The value of a digit string, read from its first digit.
proof fn lemma_value_front(s: Seq<char>)
    requires
        s.len() >= 1,
        forall|i: int| 0 <= i < s.len() ==> is_decimal_digit(#[trigger] s[i]),
    ensures
        digits_value(s) == ((s[0] as int) - 48) * pow10((s.len() - 1) as nat) + digits_value(
            s.drop_first(),
        ),
    decreases s.len(),
{
    if s.len() == 1 {
        assert(is_decimal_digit(s[s.len() - 1]));
        assert(digits_value(s.drop_last()) == 0);
        assert(digits_value(s.drop_first()) == 0);
        assert(s.last() == s[0]);
        assert(digits_value(s) == (s[0] as int) - 48);
        assert(pow10(0) == 1);
        assert(((s[0] as int) - 48) * pow10(0) == (s[0] as int) - 48);
    } else {
        let front = s.drop_last();
        assert(front[0] == s[0]);
        lemma_value_front(front);
        assert(s.drop_first().drop_last() =~= front.drop_first());
        assert(s.drop_first().last() == s.last());
        let d0 = (s[0] as int) - 48;
        let p = pow10((s.len() - 2) as nat);
        let x = digits_value(front.drop_first());
        let l = (s.last() as int) - 48;
        assert(is_decimal_digit(s[s.len() - 1]));
        assert(digits_value(s.drop_first()) == x * 10 + l);
        assert(pow10((s.len() - 1) as nat) == 10 * p);
        assert(digits_value(s) == digits_value(front) * 10 + l);
        assert((d0 * p + x) * 10 + l == d0 * (10 * p) + (x * 10 + l)) by (nonlinear_arith);
    }
}

/// A digit string of length `n` is worth less than `10^n`.
proof fn lemma_value_below_pow10(s: Seq<char>)
    requires
        forall|i: int| 0 <= i < s.len() ==> is_decimal_digit(#[trigger] s[i]),
    ensures
        digits_value(s) < pow10(s.len()),
    decreases s.len(),
{
    if s.len() > 0 {
        let front = s.drop_last();
        assert(forall|i: int| 0 <= i < front.len() ==> front[i] == s[i]);
        lemma_value_below_pow10(front);
        assert(is_decimal_digit(s[s.len() - 1]));
        let v = digits_value(front);
        let p = pow10(front.len());
        let l = (s.last() as int) - 48;
        assert(v * 10 + l < 10 * p) by (nonlinear_arith)
            requires
                v < p,
                0 <= l <= 9,
        ;
    }
}

/// Digit strings of one length that are lexicographically ordered (by their
/// UTF-8 bytes) are ordered by value.
proof fn lemma_same_length_order(a: Seq<char>, b: Seq<char>)
    requires
        a.len() == b.len(),
        forall|i: int| 0 <= i < a.len() ==> is_decimal_digit(#[trigger] a[i]),
        forall|i: int| 0 <= i < b.len() ==> is_decimal_digit(#[trigger] b[i]),
        bytes_lt(encode_utf8(a), encode_utf8(b)),
    ensures
        digits_value(a) < digits_value(b),
    decreases a.len(),
{
    broadcast use is_ascii_chars_encode_utf8;

    assert(is_ascii_chars(a));
    assert(is_ascii_chars(b));
    assert(is_ascii_chars(a.drop_first()));
    assert(is_ascii_chars(b.drop_first()));
    let (ea, eb) = (encode_utf8(a), encode_utf8(b));
    assert(ea.len() == a.len() && eb.len() == b.len());
    if a.len() > 0 {
        assert(ea[0] == a[0] as u8);
        assert(eb[0] == b[0] as u8);
        assert(ea.drop_first() =~= encode_utf8(a.drop_first()));
        assert(eb.drop_first() =~= encode_utf8(b.drop_first()));
        lemma_value_front(a);
        lemma_value_front(b);
        let p = pow10((a.len() - 1) as nat);
        let (ra, rb) = (a.drop_first(), b.drop_first());
        assert(forall|i: int| 0 <= i < ra.len() ==> ra[i] == a[i + 1]);
        assert(forall|i: int| 0 <= i < rb.len() ==> rb[i] == b[i + 1]);
        lemma_value_below_pow10(ra);
        let (a0, b0) = ((a[0] as int) - 48, (b[0] as int) - 48);
        if a[0] != b[0] {
            assert(a0 < b0);
            let (va, vb) = (digits_value(ra) as int, digits_value(rb) as int);
            assert(a0 * p + va < b0 * p + vb) by (nonlinear_arith)
                requires
                    a0 < b0,
                    0 <= va < p,
                    0 <= vb,
            ;
        } else {
            lemma_same_length_order(ra, rb);
        }
    }
}

/// For ids written as decimal numbers, newer means larger: `id_gt` orders them
/// by their value.
pub proof fn law_id_order_is_numeric(a: Seq<char>, b: Seq<char>)
    requires
        is_canonical_decimal(a),
        is_canonical_decimal(b),
    ensures
        id_gt(a, b) <==> digits_value(a) > digits_value(b),
{
    broadcast use is_ascii_chars_encode_utf8, encode_utf8_decode_utf8;

    assert(is_ascii_chars(a));
    assert(is_ascii_chars(b));
    let (ea, eb) = (encode_utf8(a), encode_utf8(b));
    assert(is_digit_bytes(ea)) by {
        assert forall|i: int| 0 <= i < ea.len() implies 48 <= #[trigger] ea[i] <= 57 by {
            assert(is_decimal_digit(a[i]));
        }
    }
    assert(is_digit_bytes(eb)) by {
        assert forall|i: int| 0 <= i < eb.len() implies 48 <= #[trigger] eb[i] <= 57 by {
            assert(is_decimal_digit(b[i]));
        }
    }
    if a.len() != b.len() {
        let (long, short) = if a.len() > b.len() {
            (a, b)
        } else {
            (b, a)
        };
        lemma_value_front(long);
        lemma_value_below_pow10(short);
        lemma_value_below_pow10(long.drop_first());
        lemma_pow10_monotonic((long.len() - 1) as nat, short.len());
        let d0 = (long[0] as int) - 48;
        let p = pow10((long.len() - 1) as nat);
        assert(d0 >= 1);
        assert(d0 * p >= p) by (nonlinear_arith)
            requires
                d0 >= 1,
                p >= 1,
        ;
        assert(digits_value(long) > digits_value(short));
        assert(ea.len() == a.len() && eb.len() == b.len());
    } else {
        assert(ea.len() == a.len() && eb.len() == b.len());
        if id_gt(a, b) {
            assert(bytes_lt(eb, ea));
            lemma_same_length_order(b, a);
            assert(digits_value(a) > digits_value(b));
        }
        if digits_value(a) > digits_value(b) {
            lemma_bytes_lt_total(ea, eb);
            if bytes_lt(ea, eb) {
                lemma_same_length_order(a, b);
                assert(false);
            }
            if ea == eb {
                assert(a == decode_utf8(ea));
                assert(b == decode_utf8(eb));
                assert(false);
            }
            assert(bytes_lt(eb, ea));
        }
    }
}

/// Every subscriber is notified, whatever its chat type: the chats fanned out
/// to are the subscribers' chat ids, one per subscriber in list order, and
/// subscriber `i` receives announcement `j` as entry `i * messages.len() + j`.
pub proof fn law_every_subscriber_notified(
    subscribers: Seq<(i64, String)>,
    messages: Seq<Seq<char>>,
)
    ensures
        chat_ids(subscribers).len() == subscribers.len(),
        forall|i: int| 0 <= i < subscribers.len() ==> #[trigger] chat_ids(subscribers)[i] == subscribers[i].0,
        fan_out(chat_ids(subscribers), messages).len() == subscribers.len() * messages.len(),
        forall|i: int, j: int|
            0 <= i < subscribers.len() && 0 <= j < messages.len() ==> #[trigger] fan_out(
                chat_ids(subscribers),
                messages,
            )[i * messages.len() + j] == (subscribers[i].0, messages[j]),
{
    law_fan_out_positions(chat_ids(subscribers), messages);
}

} // verus!
