//! Finding the first server of a location that can be confirmed.
use crate::console::{paint_spec, status_color, status_name_spec, ColorPolicy};
use crate::input::{text_modifier, text_modifier_spec, KeyCode, KeyEvent};
use crate::inventory::{
    cities, city_models, is_city_list, target_models, CityModel, CitySummary, NordTarget,
    TargetModel,
};
use crate::net::{Ipv4Addr, SocketAddr};
use crate::order::{
    is_stable_order, key_less, key_views, push_text_key, stable_order, text_key, text_key_order,
    text_less, text_order_total,
};
use crate::probe::joined_addresses;
use crate::probing::{
    checks_of, Attempt, AttemptModel, AttemptOutcome, CheckMode, FullCheckPlan, ProbeOptions,
    WorkerMessage,
};
use crate::report::{EventModel, ProbeEvent, ProbeEventKind};
use crate::text::{
    ascii_lower_spec, byte_length, bytes_between, chars_occur, chars_of, decimal, decimal_spec,
    is_control, is_control_spec, matches_at, occurs, same_text, sanitize_display, saturating,
    saturating_sum, stands_at, string_views, trim, trim_spec, views, without_controls, without_last,
    words, words_spec,
};
use crate::time::Duration;
use crate::unicode::{char_columns, char_width, lowercase, lowercase_spec, quoted, quoted_spec};
use vstd::prelude::*;
use vstd::string::*;
use vstd::utf8::is_ascii_chars;

verus! {

/// The age from which an inventory is stale: one day, in seconds.
pub const CACHE_STALE_AFTER_SECS: u64 = 86400;

/// Whether the value of `NO_COLOR` asks for no color: it is set, and not empty.
pub fn no_color_requested(value: Option<&str>) -> (r: bool)
    ensures
        r == match value {
            Some(value) => value@.len() > 0,
            None => false,
        },
{
    match value {
        Some(value) => !value.is_empty(),
        None => false,
    }
}

/// What the user asks to find.
#[derive(Debug)]
pub struct FindOptions {
    pub key_file: String,
    pub export_directory: String,
    pub query: Option<String>,
    pub country: Option<String>,
    pub city: Option<String>,
    pub refresh: bool,
    pub full: bool,
    pub ping_targets: Vec<Ipv4Addr>,
    pub resolve_names: Vec<String>,
    pub dns_server: Option<Ipv4Addr>,
    pub max_candidates: usize,
}

impl FindOptions {
    /// Whether the user names any data check.
    pub open spec fn is_custom(self) -> bool {
        self.ping_targets@.len() > 0 || self.resolve_names@.len() > 0 || self.dns_server is Some
    }

    /// The data checks of a probe: none, unless asked for; what is not named has its usual value.
    pub fn check_mode(&self) -> (r: CheckMode)
        ensures
            checks_of(r) == (if !self.full && !self.is_custom() {
                None
            } else {
                Some(
                    (
                        if self.ping_targets@.len() > 0 {
                            self.ping_targets@
                        } else {
                            seq![(Ipv4Addr { a: 1, b: 1, c: 1, d: 1 })]
                        },
                        if self.resolve_names@.len() > 0 {
                            string_views(self.resolve_names@)
                        } else {
                            seq!["example.com"@]
                        },
                        match self.dns_server {
                            Some(server) => server,
                            None => Ipv4Addr { a: 103, b: 86, c: 96, d: 100 },
                        },
                    ),
                )
            }),
    {
        let custom: bool = self.ping_targets.len() > 0 || self.resolve_names.len() > 0
            || self.dns_server.is_some();
        if !self.full && !custom {
            return CheckMode::HandshakeOnly;
        }
        let mut plan = FullCheckPlan::default();
        if self.ping_targets.len() > 0 {
            plan.ping_targets = crate::probing::copy_addresses(&self.ping_targets);
        }
        if self.resolve_names.len() > 0 {
            plan.resolve_names = crate::probing::copy_names(&self.resolve_names);
        }
        if let Some(server) = self.dns_server {
            plan.dns_server = server;
        }
        CheckMode::Full(plan)
    }
}

/// Checks how many candidates the user asks for: from 1 through 100.
pub fn check_max_candidates(maximum: usize) -> (r: Result<(), String>)
    ensures
        match r {
            Ok(_) => 1 <= maximum <= 100,
            Err(message) => !(1 <= maximum <= 100) && message@
                == "--max-candidates must be from 1 through 100"@,
        },
{
    if 1 <= maximum && maximum <= 100 {
        Ok(())
    } else {
        Err("--max-candidates must be from 1 through 100".to_string())
    }
}

/// Whether an inventory of the given age is fresh, with its age. One from the future is stale.
/// Both times are counted from the same moment.
pub fn cache_freshness(fetched_at: Duration, now: Duration) -> (r: (&'static str, Option<Duration>))
    ensures
        if now.nanos() < fetched_at.nanos() {
            r.0@ == "stale"@ && r.1 is None
        } else {
            (r.1 matches Some(age) && age.nanos() == now.nanos() - fetched_at.nanos()) && r.0@ == (
            if now.nanos() - fetched_at.nanos() >= CACHE_STALE_AFTER_SECS * 1_000_000_000 {
                "stale"@
            } else {
                "fresh"@
            })
        },
        r.0@ == "fresh"@ || r.0@ == "stale"@,
        r.0@ == "fresh"@ <==> fetched_at.nanos() <= now.nanos() < fetched_at.nanos() + 24 * 3600
            * 1_000_000_000,
{
    proof {
        reveal_strlit("fresh");
        reveal_strlit("stale");
        assert("fresh"@[0] != "stale"@[0]);
    }
    if now.less(fetched_at) {
        return ("stale", None);
    }
    let age = now.saturating_sub(fetched_at);
    if age.less(Duration::from_secs(CACHE_STALE_AFTER_SECS)) {
        ("fresh", Some(age))
    } else {
        ("stale", Some(age))
    }
}

/// The notice on the age of a stored inventory.
pub fn cache_age_notice(fetched_at: Duration, now: Duration) -> (r: String)
    ensures
        r@ == (if now.nanos() < fetched_at.nanos() {
            "Using stale cached inventory (timestamp is in the future)"@
        } else {
            "Using "@ + (if now.nanos() - fetched_at.nanos() >= CACHE_STALE_AFTER_SECS
                * 1_000_000_000 {
                "stale"@
            } else {
                "fresh"@
            }) + " cached inventory ("@ + decimal_spec(
                (now.nanos() - fetched_at.nanos()) / 1_000_000_000 / 60,
            ) + " minutes old)"@
        }),
{
    let (state, age) = cache_freshness(fetched_at, now);
    match age {
        Some(age) => {
            let mut r = "Using ".to_string();
            r.append(state);
            r.append(" cached inventory (");
            r.append(decimal(age.secs() / 60).as_str());
            r.append(" minutes old)");
            r
        },
        None => "Using stale cached inventory (timestamp is in the future)".to_string(),
    }
}

/// Whether two texts are equal but for case.
pub fn case_eq(left: &str, right: &str) -> (r: bool)
    ensures
        r == (lowercase_spec(left@) == lowercase_spec(right@)),
        is_ascii_chars(left@) && is_ascii_chars(right@) ==> r == (ascii_lower_spec(left@)
            == ascii_lower_spec(right@)),
{
    let left = lowercase(left);
    let right = lowercase(right);
    same_text(left.as_str(), right.as_str())
}

/// The position of the first `part` in `s` from `i` on, or a position behind the last possible.
pub open spec fn find_from(s: Seq<char>, part: Seq<char>, i: int) -> int
    decreases s.len() - i,
{
    if i >= s.len() || stands_at(s, part, i) {
        i
    } else {
        find_from(s, part, i + 1)
    }
}

/// The position of the first `c` in `s` from `at` on, or the length of `s`.
pub open spec fn find_char_from(s: Seq<char>, c: char, at: int) -> int
    decreases s.len() - at,
{
    if at >= s.len() || s[at] == c {
        at
    } else {
        find_char_from(s, c, at + 1)
    }
}

/// How many bytes are passed over when the characters of `term` from `i` on are found one after
/// the other in `s` from `at` on, if they are all there.
pub open spec fn scattered_gap(s: Seq<char>, at: int, term: Seq<char>, i: int) -> Option<int>
    decreases term.len() - i,
{
    if i >= term.len() {
        Some(0)
    } else {
        let k = find_char_from(s, term[i], at);
        if k >= s.len() {
            None
        } else {
            match scattered_gap(s, k + 1, term, i + 1) {
                Some(rest) => Some(byte_length(s.subrange(at, k)) + rest),
                None => None,
            }
        }
    }
}

/// How badly a word fits a text, if at all: where it starts in bytes, or, where only its
/// characters are there in order, a hundred and the bytes between them.
pub open spec fn term_score(candidate: Seq<char>, term: Seq<char>) -> Option<int> {
    if occurs(candidate, term) {
        Some(byte_length(candidate.take(find_from(candidate, term, 0))))
    } else {
        match scattered_gap(candidate, 0, term, 0) {
            Some(gap) => Some(100 + gap),
            None => None,
        }
    }
}

/// How badly words fit a text, if all do: the sum of their scores, at most `usize::MAX`.
pub open spec fn terms_score(candidate: Seq<char>, terms: Seq<Seq<char>>) -> Option<int>
    decreases terms.len(),
{
    if terms.len() == 0 {
        Some(0)
    } else {
        match (
            terms_score(candidate, terms.drop_last()),
            term_score(candidate, terms.last()),
        ) {
            (Some(before), Some(last)) => Some(saturating_sum(before, last)),
            _ => None,
        }
    }
}

/// How badly a query fits a text, if at all, case aside. The least score fits best.
pub open spec fn fuzzy_score_spec(candidate: Seq<char>, query: Seq<char>) -> Option<int> {
    terms_score(lowercase_spec(candidate), words_spec(lowercase_spec(trim_spec(query))))
}

fn find_text(s: &[char], part: &[char]) -> (r: usize)
    requires
        occurs(s@, part@),
    ensures
        r == find_from(s@, part@, 0),
        r <= s@.len(),
{
    let mut i: usize = 0;
    while i < s.len()
        invariant
            i <= s@.len(),
            find_from(s@, part@, 0) == find_from(s@, part@, i as int),
        decreases s@.len() - i,
    {
        if matches_at(s, part, i) {
            return i;
        }
        i = i + 1;
    }
    i
}

fn find_scattered(s: &[char], term: &[char]) -> (r: Option<usize>)
    ensures
        match (r, scattered_gap(s@, 0, term@, 0)) {
            (Some(gap), Some(exact)) => gap == saturating_sum(exact, 0),
            (None, None) => true,
            _ => false,
        },
{
    let mut at: usize = 0;
    let mut gap: usize = 0;
    let ghost mut exact: int = 0;
    let mut i: usize = 0;
    while i < term.len()
        invariant
            at <= s@.len(),
            i <= term@.len(),
            0 <= exact,
            gap == saturating_sum(exact, 0),
            scattered_gap(s@, 0, term@, 0) == (match scattered_gap(
                s@,
                at as int,
                term@,
                i as int,
            ) {
                Some(rest) => Some(exact + rest),
                None => None,
            }),
        decreases term@.len() - i,
    {
        let start: usize = at;
        let c = term[i];
        let mut k: usize = at;
        while k < s.len() && s[k] != c
            invariant
                start <= k <= s@.len(),
                find_char_from(s@, c, start as int) == find_char_from(s@, c, k as int),
            decreases s@.len() - k,
        {
            k = k + 1;
        }
        if k >= s.len() {
            return None;
        }
        proof {
            lemma_byte_length_positive(s@.subrange(start as int, k as int));
            exact = exact + byte_length(s@.subrange(start as int, k as int));
        }
        gap = saturating(gap, bytes_between(s, start, k));
        at = k + 1;
        i = i + 1;
    }
    Some(gap)
}

proof fn lemma_byte_length_positive(s: Seq<char>)
    ensures
        byte_length(s) >= 0,
    decreases s.len(),
{
    if s.len() > 0 {
        lemma_byte_length_positive(s.drop_last());
    }
}

/// How badly the words of a query fit a text, if all do; both are in lower case.
pub fn lowered_score(candidate: &str, query: &str) -> (r: Option<usize>)
    ensures
        match r {
            Some(score) => terms_score(candidate@, words_spec(query@)) == Some(score as int),
            None => terms_score(candidate@, words_spec(query@)) is None,
        },
{
    let text = chars_of(candidate);
    let terms = words(query);
    let ghost all = views(terms@);
    let mut total: usize = 0;
    let mut i: usize = 0;
    assert(all.take(0) =~= Seq::empty());
    while i < terms.len()
        invariant
            i <= terms@.len(),
            all == views(terms@),
            all == words_spec(query@),
            text@ == candidate@,
            terms_score(text@, all.take(i as int)) == Some(total as int),
        decreases terms@.len() - i,
    {
        let ghost part = all.take(i + 1);
        assert(part.drop_last() =~= all.take(i as int));
        assert(part.last() == terms@[i as int]@);
        let term = chars_of(terms[i]);
        if chars_occur(&text, &term) {
            let position: usize = find_text(&text, &term);
            assert(text@.subrange(0, position as int) =~= text@.take(position as int));
            proof {
                lemma_byte_length_positive(text@.take(position as int));
            }
            total = saturating(total, bytes_between(&text, 0, position));
        } else {
            match find_scattered(&text, &term) {
                Some(gap) => {
                    proof {
                        lemma_gap_positive(text@, 0, term@, 0);
                    }
                    total = saturating(saturating(total, 100), gap);
                },
                None => {
                    proof {
                        lemma_failed_term(text@, all, i + 1);
                    }
                    return None;
                },
            }
        }
        i = i + 1;
    }
    assert(all.take(i as int) =~= all);
    Some(total)
}

/// How badly a query fits a text, if at all, case aside. The least score fits best.
pub fn fuzzy_score(candidate: &str, query: &str) -> (r: Option<usize>)
    ensures
        match r {
            Some(score) => fuzzy_score_spec(candidate@, query@) == Some(score as int),
            None => fuzzy_score_spec(candidate@, query@) is None,
        },
        is_ascii_chars(candidate@) && is_ascii_chars(trim_spec(query@)) ==> fuzzy_score_spec(
            candidate@,
            query@,
        ) == terms_score(
            ascii_lower_spec(candidate@),
            words_spec(ascii_lower_spec(trim_spec(query@))),
        ),
{
    let text = lowercase(candidate);
    let wanted = lowercase(trim(query));
    lowered_score(text.as_str(), wanted.as_str())
}

pub(crate) proof fn lemma_gap_positive(s: Seq<char>, at: int, term: Seq<char>, i: int)
    ensures
        scattered_gap(s, at, term, i) matches Some(gap) ==> gap >= 0,
    decreases term.len() - i,
{
    if i < term.len() {
        let k = find_char_from(s, term[i], at);
        if k < s.len() {
            lemma_gap_positive(s, k + 1, term, i + 1);
            lemma_byte_length_positive(s.subrange(at, k));
        }
    }
}

proof fn lemma_failed_term(candidate: Seq<char>, terms: Seq<Seq<char>>, i: int)
    requires
        0 <= i <= terms.len(),
        terms_score(candidate, terms.take(i)) is None,
    ensures
        terms_score(candidate, terms) is None,
    decreases terms.len() - i,
{
    if i == terms.len() {
        assert(terms.take(i) =~= terms);
    } else {
        assert(terms.take(i + 1).drop_last() =~= terms.take(i));
        lemma_failed_term(candidate, terms, i + 1);
    }
}

/// A query without words fits everything, best of all.
pub proof fn empty_query_fits_all(candidate: Seq<char>, query: Seq<char>)
    requires
        words_spec(lowercase_spec(trim_spec(query))).len() == 0,
    ensures
        fuzzy_score_spec(candidate, query) == Some(0int),
{
}

/// How a city is shown: its name, then its country.
pub open spec fn city_label(city: CityModel) -> Seq<char> {
    city.city + ", "@ + city.country
}

/// How a city is shown: its name, then its country.
pub fn city_text(city: &CitySummary) -> (r: String)
    ensures
        r@ == city_label(city@),
{
    let mut label = city.city.clone();
    label.append(", ");
    label.append(city.country.as_str());
    label
}

/// The scores of the cities for a query.
pub open spec fn city_scores(choices: Seq<CityModel>, query: Seq<char>) -> Seq<Option<int>> {
    choices.map_values(|choice: CityModel| fuzzy_score_spec(city_label(choice), query))
}

/// The scores as mathematical values.
pub open spec fn score_views(scores: Seq<Option<usize>>) -> Seq<Option<int>> {
    scores.map_values(
        |score: Option<usize>| match score {
            Some(score) => Some(score as int),
            None => None,
        },
    )
}

/// The cities that have a score, each with its score.
pub open spec fn scored(choices: Seq<CityModel>, scores: Seq<Option<int>>) -> Seq<
    (int, CityModel),
>
    decreases choices.len(),
{
    if choices.len() == 0 || scores.len() != choices.len() {
        Seq::empty()
    } else {
        let before = scored(choices.drop_last(), scores.drop_last());
        match scores.last() {
            Some(score) => before.push((score, choices.last())),
            None => before,
        }
    }
}

/// By which cities are ranked: score, country and name.
pub open spec fn rank_key(item: (int, CityModel)) -> Seq<u32> {
    seq![(item.0 / 0x1_0000_0000) as u32, (item.0 % 0x1_0000_0000) as u32] + (text_key(
        item.1.country,
    ) + text_key(item.1.city))
}

/// Whether a city with its score is ranked before another: the scores decide, then the countries,
/// then the names.
pub open spec fn ranked_before(a: (int, CityModel), b: (int, CityModel)) -> bool {
    if a.0 != b.0 {
        a.0 < b.0
    } else if a.1.country != b.1.country {
        text_less(a.1.country, b.1.country)
    } else {
        text_less(a.1.city, b.1.city)
    }
}

/// Ranking keys compare as scores, countries and names do, one after the other.
pub proof fn rank_key_compares_fields(a: (int, CityModel), b: (int, CityModel))
    requires
        0 <= a.0 <= u64::MAX,
        0 <= b.0 <= u64::MAX,
    ensures
        key_less(rank_key(a), rank_key(b)) == ranked_before(a, b),
{
    let x = text_key(a.1.country) + text_key(a.1.city);
    let y = text_key(b.1.country) + text_key(b.1.city);
    let left = rank_key(a);
    let right = rank_key(b);
    assert(left.drop_first().drop_first() =~= x);
    assert(right.drop_first().drop_first() =~= y);
    assert(left.drop_first()[0] == left[1] && right.drop_first()[0] == right[1]);
    assert(a.0 / 0x1_0000_0000 <= u32::MAX && b.0 / 0x1_0000_0000 <= u32::MAX);
    assert(left[0] == a.0 / 0x1_0000_0000 && left[1] == a.0 % 0x1_0000_0000);
    assert(right[0] == b.0 / 0x1_0000_0000 && right[1] == b.0 % 0x1_0000_0000);
    text_key_order(a.1.country, text_key(a.1.city), b.1.country, text_key(b.1.city));
    text_key_order(a.1.city, Seq::empty(), b.1.city, Seq::empty());
    assert(text_key(a.1.city) + Seq::empty() =~= text_key(a.1.city));
    assert(text_key(b.1.city) + Seq::empty() =~= text_key(b.1.city));
    text_order_total(a.1.city, b.1.city);
    if a.0 == b.0 {
        assert(key_less(left, right) == key_less(left.drop_first(), right.drop_first()));
        assert(key_less(left.drop_first(), right.drop_first()) == key_less(x, y));
    } else if left[0] == right[0] {
        assert(key_less(left, right) == key_less(left.drop_first(), right.drop_first()));
    }
}

/// The ranking keys.
pub open spec fn rank_keys(items: Seq<(int, CityModel)>) -> Seq<Seq<u32>> {
    items.map_values(|item: (int, CityModel)| rank_key(item))
}

/// Whether `ranked` holds the cities that have a score, the least score first, then by country and
/// name.
pub open spec fn is_ranking(
    choices: Seq<CityModel>,
    scores: Seq<Option<int>>,
    ranked: Seq<CityModel>,
) -> bool {
    exists|order: Seq<usize>| #[trigger]
        is_stable_order(rank_keys(scored(choices, scores)), order) && ranked == order.map_values(
            |i: usize| scored(choices, scores)[i as int].1,
        )
}

/// The cities that have a score, the least score first, then by country and name.
pub fn rank_by_scores(choices: &[CitySummary], scores: &[Option<usize>]) -> (r: Vec<
    CitySummary,
>)
    requires
        choices@.len() == scores@.len(),
    ensures
        is_ranking(city_models(choices@), score_views(scores@), city_models(r@)),
{
    let ghost models = city_models(choices@);
    let ghost values = score_views(scores@);
    let mut found: Vec<CitySummary> = Vec::new();
    let mut keys: Vec<Vec<u32>> = Vec::new();
    let ghost mut items: Seq<(int, CityModel)> = Seq::empty();
    let mut i: usize = 0;
    assert(models.take(0) =~= Seq::empty());
    assert(key_views(keys@) =~= rank_keys(items));
    while i < choices.len()
        invariant
            i <= choices@.len(),
            choices@.len() == scores@.len(),
            models == city_models(choices@),
            values == score_views(scores@),
            items == scored(models.take(i as int), values.take(i as int)),
            found@.len() == items.len(),
            forall|k: int| 0 <= k < items.len() ==> (#[trigger] items[k]).1 == found@[k]@,
            key_views(keys@) == rank_keys(items),
        decreases choices@.len() - i,
    {
        assert(models.take(i + 1).drop_last() =~= models.take(i as int));
        assert(values.take(i + 1).drop_last() =~= values.take(i as int));
        assert(models.take(i + 1).last() == choices@[i as int]@);
        assert(values.take(i + 1).last() == values[i as int]);
        if let Some(score) = scores[i] {
            let ghost before = keys@;
            let choice = choices[i].copy();
            let mut key: Vec<u32> = Vec::new();
            key.push((score as u64 / 0x1_0000_0000) as u32);
            key.push((score as u64 % 0x1_0000_0000) as u32);
            push_text_key(&mut key, choice.country.as_str());
            push_text_key(&mut key, choice.city.as_str());
            let ghost item = (score as int, choice@);
            assert(key@ =~= rank_key(item));
            keys.push(key);
            found.push(choice);
            proof {
                let grown = items.push(item);
                assert(rank_keys(grown) =~= rank_keys(items).push(rank_key(item)));
                assert(key_views(keys@) =~= key_views(before).push(key@));
                items = grown;
            }
        }
        i = i + 1;
    }
    assert(models.take(i as int) =~= models);
    assert(values.take(i as int) =~= values);
    let order = stable_order(&keys);
    let ghost all = order@.map_values(|i: usize| scored(models, values)[i as int].1);
    let mut ranked: Vec<CitySummary> = Vec::new();
    let mut i: usize = 0;
    assert(city_models(ranked@) =~= all.take(0));
    while i < order.len()
        invariant
            i <= order@.len(),
            items == scored(models, values),
            found@.len() == items.len(),
            all == order@.map_values(|i: usize| scored(models, values)[i as int].1),
            forall|k: int| 0 <= k < items.len() ==> (#[trigger] items[k]).1 == found@[k]@,
            forall|k: int| 0 <= k < order@.len() ==> #[trigger] order@[k] < items.len(),
            city_models(ranked@) == all.take(i as int),
        decreases order@.len() - i,
    {
        let ghost before = city_models(ranked@);
        assert(order@[i as int] < items.len());
        let choice = found[order[i]].copy();
        assert(all[i as int] == items[order@[i as int] as int].1);
        ranked.push(choice);
        i = i + 1;
        assert(city_models(ranked@) =~= before.push(all[i - 1]));
        assert(all.take(i as int) =~= all.take(i - 1).push(all[i - 1]));
    }
    assert(all.take(i as int) =~= all);
    ranked
}

/// The cities that a query fits, best first, then by country and name.
pub fn ranked_locations(choices: &[CitySummary], query: &str) -> (r: Vec<CitySummary>)
    ensures
        is_ranking(
            city_models(choices@),
            city_scores(city_models(choices@), query@),
            city_models(r@),
        ),
{
    let ghost models = city_models(choices@);
    let ghost all = city_scores(models, query@);
    let mut scores: Vec<Option<usize>> = Vec::new();
    let mut i: usize = 0;
    assert(score_views(scores@) =~= all.take(0));
    while i < choices.len()
        invariant
            i <= choices@.len(),
            models == city_models(choices@),
            all == city_scores(models, query@),
            scores@.len() == i,
            score_views(scores@) == all.take(i as int),
        decreases choices@.len() - i,
    {
        let ghost before = score_views(scores@);
        let label = city_text(&choices[i]);
        let score = fuzzy_score(label.as_str(), query);
        scores.push(score);
        assert(all[i as int] == fuzzy_score_spec(city_label(models[i as int]), query@));
        i = i + 1;
        assert(score_views(scores@) =~= before.push(all[i - 1]));
        assert(all.take(i as int) =~= all.take(i - 1).push(all[i - 1]));
    }
    assert(all.take(i as int) =~= all);
    rank_by_scores(choices, &scores)
}

/// Which location to probe.
#[derive(Debug)]
pub enum LocationChoice {
    /// This one.
    Chosen(CitySummary),
    /// One of these, as the user says.
    Ask(Vec<CitySummary>),
}

/// Which location to probe, as a mathematical value.
#[verifier::ext_equal]
pub enum ChoiceModel {
    Chosen(CityModel),
    Ask(Seq<CityModel>),
}

impl View for LocationChoice {
    type V = ChoiceModel;

    open spec fn view(&self) -> ChoiceModel {
        match self {
            LocationChoice::Chosen(city) => ChoiceModel::Chosen(city@),
            LocationChoice::Ask(list) => ChoiceModel::Ask(city_models(list@)),
        }
    }
}

/// The cities of the list whose country or name is `wanted`, case aside.
pub open spec fn named_cities(list: Seq<CityModel>, by_country: bool, wanted: Seq<char>) -> Seq<
    CityModel,
>
    decreases list.len(),
{
    if list.len() == 0 {
        Seq::empty()
    } else {
        let before = named_cities(list.drop_last(), by_country, wanted);
        let own = if by_country {
            list.last().country
        } else {
            list.last().city
        };
        if lowercase_spec(own) == lowercase_spec(wanted) {
            before.push(list.last())
        } else {
            before
        }
    }
}

fn keep_named(list: &Vec<CitySummary>, by_country: bool, wanted: &str) -> (r: Vec<CitySummary>)
    ensures
        city_models(r@) == named_cities(city_models(list@), by_country, wanted@),
{
    let ghost models = city_models(list@);
    let mut kept: Vec<CitySummary> = Vec::new();
    let mut i: usize = 0;
    assert(models.take(0) =~= Seq::empty());
    assert(city_models(kept@) =~= Seq::empty());
    while i < list.len()
        invariant
            i <= list@.len(),
            models == city_models(list@),
            city_models(kept@) == named_cities(models.take(i as int), by_country, wanted@),
        decreases list@.len() - i,
    {
        assert(models.take(i + 1).drop_last() =~= models.take(i as int));
        assert(models.take(i + 1).last() == list@[i as int]@);
        let own = if by_country {
            list[i].country.as_str()
        } else {
            list[i].city.as_str()
        };
        if case_eq(own, wanted) {
            let ghost before = city_models(kept@);
            let item = list[i].copy();
            kept.push(item);
            assert(city_models(kept@) =~= before.push(item@));
        }
        i = i + 1;
    }
    assert(models.take(i as int) =~= models);
    kept
}

/// The cities that are left after the user's country and city, or why none is.
pub open spec fn narrowed(
    list: Seq<CityModel>,
    country: Option<Seq<char>>,
    city: Option<Seq<char>>,
) -> Result<Seq<CityModel>, Seq<char>> {
    let by_country = match country {
        Some(country) => named_cities(list, true, country),
        None => list,
    };
    let by_city = match city {
        Some(city) => named_cities(by_country, false, city),
        None => by_country,
    };
    if country is Some && by_country.len() == 0 {
        Err("no usable candidates found for country "@ + quoted_spec(country.unwrap()))
    } else if city is Some && by_city.len() == 0 {
        Err("no usable candidates found for city "@ + quoted_spec(city.unwrap()))
    } else {
        Ok(by_city)
    }
}

/// The view of an optional text.
pub open spec fn option_view(text: Option<&str>) -> Option<Seq<char>> {
    match text {
        Some(text) => Some(text@),
        None => None,
    }
}

fn narrow(list: Vec<CitySummary>, country: Option<&str>, city: Option<&str>) -> (r: Result<
    Vec<CitySummary>,
    String,
>)
    ensures
        match r {
            Ok(left) => narrowed(city_models(list@), option_view(country), option_view(city)) == Ok::<
                Seq<CityModel>,
                Seq<char>,
            >(city_models(left@)),
            Err(message) => narrowed(
                city_models(list@),
                option_view(country),
                option_view(city),
            ) == Err::<Seq<CityModel>, Seq<char>>(message@),
        },
{
    let mut left = list;
    if let Some(country) = country {
        left = keep_named(&left, true, country);
        if left.len() == 0 {
            let mut message = "no usable candidates found for country ".to_string();
            message.append(quoted(country).as_str());
            return Err(message);
        }
    }
    if let Some(city) = city {
        left = keep_named(&left, false, city);
        if left.len() == 0 {
            let mut message = "no usable candidates found for city ".to_string();
            message.append(quoted(city).as_str());
            return Err(message);
        }
    }
    Ok(left)
}

/// Which location to probe: the only one, or the only one that the query fits, or what the user
/// says, if there is somebody to ask.
pub open spec fn pick_spec(
    choices: Seq<CityModel>,
    ranked: Seq<CityModel>,
    interactive: bool,
) -> Result<ChoiceModel, Seq<char>> {
    if choices.len() == 1 {
        Ok(ChoiceModel::Chosen(choices[0]))
    } else if ranked.len() == 1 {
        Ok(ChoiceModel::Chosen(ranked[0]))
    } else if !interactive {
        Err("location is ambiguous in non-interactive mode; provide exact --country and --city"@)
    } else {
        Ok(ChoiceModel::Ask(choices))
    }
}

/// Which location to probe, among the choices and those that the query fits.
pub fn pick_location(choices: Vec<CitySummary>, ranked: &Vec<CitySummary>, interactive: bool) -> (r:
    Result<LocationChoice, String>)
    ensures
        match r {
            Ok(choice) => pick_spec(city_models(choices@), city_models(ranked@), interactive)
                == Ok::<ChoiceModel, Seq<char>>(choice@),
            Err(message) => pick_spec(city_models(choices@), city_models(ranked@), interactive)
                == Err::<ChoiceModel, Seq<char>>(message@),
        },
{
    if choices.len() == 1 {
        return Ok(LocationChoice::Chosen(choices[0].copy()));
    }
    if ranked.len() == 1 {
        return Ok(LocationChoice::Chosen(ranked[0].copy()));
    }
    if !interactive {
        return Err(
            "location is ambiguous in non-interactive mode; provide exact --country and --city".to_string(),
        );
    }
    Ok(LocationChoice::Ask(choices))
}

/// Whether `choice` is the right answer for the servers, the query and the user's country and
/// city.
pub open spec fn is_location_choice(
    targets: Seq<TargetModel>,
    query: Seq<char>,
    country: Option<Seq<char>>,
    city: Option<Seq<char>>,
    interactive: bool,
    choice: Result<ChoiceModel, Seq<char>>,
) -> bool {
    exists|list: Seq<CityModel>, ranked: Seq<CityModel>|
        #![trigger is_city_list(targets, ""@, list), is_ranking_of(list, country, city, query, ranked)]
        is_city_list(targets, ""@, list) && is_ranking_of(list, country, city, query, ranked)
            && choice == (match narrowed(list, country, city) {
            Ok(left) => pick_spec(left, ranked, interactive),
            Err(message) => Err(message),
        })
}

/// Whether `ranked` is the ranking of what is left of the list, if anything is.
pub open spec fn is_ranking_of(
    list: Seq<CityModel>,
    country: Option<Seq<char>>,
    city: Option<Seq<char>>,
    query: Seq<char>,
    ranked: Seq<CityModel>,
) -> bool {
    match narrowed(list, country, city) {
        Ok(left) => is_ranking(left, city_scores(left, query), ranked),
        Err(_) => true,
    }
}

/// Which location to probe.
pub fn choose_location(
    targets: &[NordTarget],
    query: &str,
    country: Option<&str>,
    city: Option<&str>,
    interactive: bool,
) -> (r: Result<LocationChoice, String>)
    ensures
        is_location_choice(
            target_models(targets@),
            query@,
            option_view(country),
            option_view(city),
            interactive,
            match r {
                Ok(choice) => Ok(choice@),
                Err(message) => Err(message@),
            },
        ),
{
    let list = cities(targets, "");
    let ghost all = city_models(list@);
    match narrow(list, country, city) {
        Ok(left) => {
            let ranked = ranked_locations(&left, query);
            let ghost order = city_models(ranked@);
            assert(is_ranking_of(all, option_view(country), option_view(city), query@, order));
            pick_location(left, &ranked, interactive)
        },
        Err(message) => {
            assert(is_ranking_of(
                all,
                option_view(country),
                option_view(city),
                query@,
                Seq::empty(),
            ));
            Err(message)
        },
    }
}

/// Adds what the user pastes to a query, without control characters.
pub fn append_query(query: &mut String, value: &str)
    ensures
        final(query)@ == old(query)@ + without_controls(value@),
{
    let visible = sanitize_display(value);
    query.append(visible.as_str());
}

/// How many matches are shown.
pub const SHOWN_MATCHES: usize = 6;

/// The last position that can be selected among so many matches.
pub open spec fn last_shown(matches: int) -> int {
    if matches == 0 {
        0
    } else if matches < SHOWN_MATCHES {
        matches - 1
    } else {
        SHOWN_MATCHES - 1
    }
}

fn last_position(matches: usize) -> (r: usize)
    ensures
        r == last_shown(matches as int),
{
    if matches == 0 {
        0
    } else if matches < SHOWN_MATCHES {
        matches - 1
    } else {
        SHOWN_MATCHES - 1
    }
}

/// The selection of a location by the user: what was typed, and which match is selected.
#[derive(Debug)]
pub struct Selector {
    pub query: String,
    pub selected: usize,
}

/// What a selection comes to after a key.
#[derive(Debug)]
pub enum SelectorStep {
    Continue,
    Cancelled,
    Chosen(CitySummary),
}

/// What a selection comes to after a key, as a mathematical value.
#[verifier::ext_equal]
pub enum StepModel {
    Continue,
    Cancelled,
    Chosen(CityModel),
}

impl View for SelectorStep {
    type V = StepModel;

    open spec fn view(&self) -> StepModel {
        match self {
            SelectorStep::Continue => StepModel::Continue,
            SelectorStep::Cancelled => StepModel::Cancelled,
            SelectorStep::Chosen(city) => StepModel::Chosen(city@),
        }
    }
}

impl Selector {
    /// The state as what was typed and the selected position.
    pub open spec fn state(self) -> (Seq<char>, int) {
        (self.query@, self.selected as int)
    }

    /// The state and the step after a key, with these matches shown. Characters and Backspace
    /// change the query, the arrows move the selection, Enter takes it, and Esc or Ctrl-c cancel.
    pub open spec fn after_key(
        state: (Seq<char>, int),
        key: KeyEvent,
        matches: Seq<CityModel>,
    ) -> ((Seq<char>, int), StepModel) {
        let (query, selected) = state;
        match key.code {
            KeyCode::Char(c) => if c == 'c' && key.modifiers.control {
                (state, StepModel::Cancelled)
            } else if text_modifier_spec(key.modifiers) && !is_control_spec(c) {
                ((query.push(c), 0), StepModel::Continue)
            } else {
                (state, StepModel::Continue)
            },
            KeyCode::Esc => (state, StepModel::Cancelled),
            KeyCode::Backspace => (
                (without_last(query), 0),
                StepModel::Continue,
            ),
            KeyCode::Up => (
                (
                    query,
                    if selected > 0 {
                        selected - 1
                    } else {
                        0
                    },
                ),
                StepModel::Continue,
            ),
            KeyCode::Down => (
                (
                    query,
                    if selected + 1 < last_shown(matches.len() as int) {
                        selected + 1
                    } else {
                        last_shown(matches.len() as int)
                    },
                ),
                StepModel::Continue,
            ),
            KeyCode::Enter => if matches.len() > 0 {
                (state, StepModel::Chosen(matches[selected]))
            } else {
                (state, StepModel::Continue)
            },
            _ => (state, StepModel::Continue),
        }
    }

    /// A selection that starts with the query, without control characters.
    pub fn new(query: &str) -> (r: Selector)
        ensures
            r.state() == (without_controls(query@), 0int),
    {
        Selector { query: sanitize_display(query), selected: 0 }
    }

    /// Keeps the selection on a match that is shown.
    pub fn clamp(&mut self, matches: usize)
        ensures
            final(self).query == old(self).query,
            final(self).selected == if old(self).selected < last_shown(matches as int) {
                old(self).selected as int
            } else {
                last_shown(matches as int)
            },
    {
        let last: usize = last_position(matches);
        if self.selected > last {
            self.selected = last;
        }
    }

    /// Takes a key, with these matches shown.
    pub fn handle_key(&mut self, key: KeyEvent, matches: &Vec<CitySummary>) -> (r: SelectorStep)
        requires
            old(self).selected <= last_shown(matches@.len() as int),
        ensures
            (final(self).state(), r@) == Selector::after_key(
                old(self).state(),
                key,
                city_models(matches@),
            ),
    {
        match key.code {
            KeyCode::Char(c) => {
                if c == 'c' && key.modifiers.control {
                    return SelectorStep::Cancelled;
                }
                if text_modifier(key.modifiers) && !is_control(c) {
                    self.query.push(c);
                    self.selected = 0;
                }
                SelectorStep::Continue
            },
            KeyCode::Esc => SelectorStep::Cancelled,
            KeyCode::Backspace => {
                self.query.pop();
                self.selected = 0;
                SelectorStep::Continue
            },
            KeyCode::Up => {
                if self.selected > 0 {
                    self.selected = self.selected - 1;
                }
                SelectorStep::Continue
            },
            KeyCode::Down => {
                let last: usize = last_position(matches.len());
                if self.selected < last {
                    self.selected = self.selected + 1;
                } else {
                    self.selected = last;
                }
                SelectorStep::Continue
            },
            KeyCode::Enter => {
                if matches.len() > 0 {
                    let choice = matches[self.selected].copy();
                    SelectorStep::Chosen(choice)
                } else {
                    SelectorStep::Continue
                }
            },
            _ => SelectorStep::Continue,
        }
    }

    /// Takes what the user pastes: it is added to the query, without white space round it and
    /// without control characters.
    pub fn handle_paste(&mut self, value: &str)
        ensures
            final(self).state() == (
                old(self).query@ + without_controls(trim_spec(value@)),
                0int,
            ),
    {
        append_query(&mut self.query, trim(value));
        self.selected = 0;
    }
}

/// The lines of the selection: the query, how to use it, and the matches.
pub open spec fn selector_lines_spec(
    query: Seq<char>,
    matches: Seq<CityModel>,
    selected: int,
) -> Seq<Seq<char>> {
    seq![
        "Location: "@ + query,
        "Type a city or country; Up/Down select; Enter confirms; Esc cancels"@,
    ] + if matches.len() == 0 {
        seq!["  No matching locations"@]
    } else {
        Seq::new(
            if matches.len() < SHOWN_MATCHES {
                matches.len()
            } else {
                SHOWN_MATCHES as nat
            },
            |i: int| match_line(matches[i], i == selected),
        )
    }
}

/// The line of a match.
pub open spec fn match_line(city: CityModel, selected: bool) -> Seq<char> {
    (if selected {
        ">"@
    } else {
        " "@
    }) + " "@ + city_label(city) + "  ("@ + decimal_spec(city.count) + " candidates)"@
}

/// The lines of the selection.
pub fn selector_lines(query: &str, matches: &Vec<CitySummary>, selected: usize) -> (r: Vec<String>)
    ensures
        string_views(r@) == selector_lines_spec(query@, city_models(matches@), selected as int),
{
    let ghost models = city_models(matches@);
    let ghost all = selector_lines_spec(query@, models, selected as int);
    let mut lines: Vec<String> = Vec::new();
    let mut first = "Location: ".to_string();
    first.append(query);
    lines.push(first);
    lines.push("Type a city or country; Up/Down select; Enter confirms; Esc cancels".to_string());
    if matches.len() == 0 {
        lines.push("  No matching locations".to_string());
        assert(string_views(lines@) =~= all);
        return lines;
    }
    let count: usize = if matches.len() < SHOWN_MATCHES {
        matches.len()
    } else {
        SHOWN_MATCHES
    };
    let mut i: usize = 0;
    assert(string_views(lines@) =~= all.take(2));
    while i < count
        invariant
            i <= count <= matches@.len(),
            count == if matches@.len() < SHOWN_MATCHES {
                matches@.len() as int
            } else {
                SHOWN_MATCHES as int
            },
            matches@.len() > 0,
            models == city_models(matches@),
            all == selector_lines_spec(query@, models, selected as int),
            string_views(lines@) == all.take(2 + i),
        decreases count - i,
    {
        let ghost before = string_views(lines@);
        let mut line = if i == selected {
            ">".to_string()
        } else {
            " ".to_string()
        };
        line.append(" ");
        line.append(city_text(&matches[i]).as_str());
        line.append("  (");
        line.append(decimal(matches[i].count as u64).as_str());
        line.append(" candidates)");
        assert(line@ == match_line(models[i as int], i == selected));
        lines.push(line);
        i = i + 1;
        assert(string_views(lines@) =~= before.push(line@));
        assert(all.take(2 + i) =~= all.take(2 + i - 1).push(all[2 + i - 1]));
    }
    assert(all.take(2 + i) =~= all);
    lines
}

/// How many of the characters fit into the columns, where each takes the given width.
pub open spec fn fitting(widths: Seq<int>, used: int, width: int) -> int
    decreases widths.len(),
{
    if widths.len() == 0 || saturating_sum(used, widths[0]) > width {
        0
    } else {
        1 + fitting(widths.drop_first(), saturating_sum(used, widths[0]), width)
    }
}

/// How many of the characters fit into the columns, where each takes the given width.
pub fn count_fitting(widths: &Vec<usize>, width: usize) -> (r: usize)
    ensures
        r == fitting(widths@.map_values(|w: usize| w as int), 0, width as int),
        r <= widths@.len(),
{
    let ghost all = widths@.map_values(|w: usize| w as int);
    let mut used: usize = 0;
    let mut i: usize = 0;
    assert(all.skip(0) =~= all);
    while i < widths.len()
        invariant
            i <= widths@.len(),
            all == widths@.map_values(|w: usize| w as int),
            fitting(all, 0, width as int) == i + fitting(
                all.skip(i as int),
                used as int,
                width as int,
            ),
        decreases widths@.len() - i,
    {
        assert(all.skip(i as int)[0] == widths@[i as int] as int);
        assert(all.skip(i as int).drop_first() =~= all.skip(i + 1));
        let next: usize = saturating(used, widths[i]);
        if next > width {
            return i;
        }
        used = next;
        i = i + 1;
    }
    i
}

/// The columns that a character takes; control characters take none.
pub open spec fn columns_of(c: char) -> int {
    match char_columns(c) {
        Some(width) => width as int,
        None => 0,
    }
}

/// The columns that the characters take.
pub open spec fn column_widths(s: Seq<char>) -> Seq<int> {
    s.map_values(|c: char| columns_of(c))
}

/// The beginning of the text that fits into the columns.
pub open spec fn truncate_spec(s: Seq<char>, width: int) -> Seq<char> {
    s.take(fitting(column_widths(s), 0, width))
}

/// The beginning of the text that fits into the columns.
pub fn truncate(value: &str, width: usize) -> (r: String)
    ensures
        r@ == truncate_spec(value@, width as int),
{
    let chars = chars_of(value);
    let mut widths: Vec<usize> = Vec::new();
    let ghost all = column_widths(value@);
    let mut i: usize = 0;
    assert(widths@.map_values(|w: usize| w as int) =~= all.take(0));
    while i < chars.len()
        invariant
            chars@ == value@,
            i <= value@.len(),
            all == column_widths(value@),
            widths@.map_values(|w: usize| w as int) == all.take(i as int),
        decreases value@.len() - i,
    {
        let ghost before = widths@;
        let w: usize = match char_width(chars[i]) {
            Some(w) => w,
            None => 0,
        };
        widths.push(w);
        assert(all[i as int] == w as int);
        i = i + 1;
        assert(widths@.map_values(|w: usize| w as int) =~= before.map_values(
            |w: usize| w as int,
        ).push(w as int));
        assert(all.take(i as int) =~= all.take(i - 1).push(all[i - 1]));
    }
    assert(all.take(i as int) =~= all);
    assert(widths@.len() == widths@.map_values(|w: usize| w as int).len());
    let count: usize = count_fitting(&widths, width);
    let r = value.substring_char(0, count).to_string();
    assert(r@ =~= value@.take(count as int));
    r
}

/// The columns that a whole text takes, at most `usize::MAX`.
pub open spec fn total_columns(widths: Seq<int>, used: int) -> int
    decreases widths.len(),
{
    if widths.len() == 0 {
        used
    } else {
        total_columns(widths.drop_first(), saturating_sum(used, widths[0]))
    }
}

/// A truncated text fits into the columns.
pub proof fn truncated_text_fits(s: Seq<char>, width: int)
    requires
        0 <= width <= usize::MAX,
    ensures
        total_columns(column_widths(truncate_spec(s, width)), 0) <= width,
{
    let all = column_widths(s);
    assert forall|i: int| 0 <= i < all.len() implies #[trigger] all[i] >= 0 by {
        lemma_columns_positive(s[i]);
    }
    lemma_fitting(all, 0, width);
    assert(column_widths(truncate_spec(s, width)) =~= all.take(fitting(all, 0, width)));
}

proof fn lemma_columns_positive(c: char)
    ensures
        columns_of(c) >= 0,
{
}

proof fn lemma_fitting(widths: Seq<int>, used: int, width: int)
    requires
        0 <= used <= width,
        forall|i: int| 0 <= i < widths.len() ==> #[trigger] widths[i] >= 0,
    ensures
        0 <= fitting(widths, used, width) <= widths.len(),
        total_columns(widths.take(fitting(widths, used, width)), used) <= width,
    decreases widths.len(),
{
    if widths.len() == 0 || saturating_sum(used, widths[0]) > width {
        assert(widths.take(0) =~= Seq::empty());
    } else {
        let next = saturating_sum(used, widths[0]);
        let n = fitting(widths, used, width);
        assert forall|i: int| 0 <= i < widths.drop_first().len() implies #[trigger] widths.drop_first()[i]
            >= 0 by {
            assert(widths.drop_first()[i] == widths[i + 1]);
        }
        assert(widths[0] >= 0);
        lemma_fitting(widths.drop_first(), next, width);
        assert(widths.take(n).drop_first() =~= widths.drop_first().take(n - 1));
    }
}

/// The name of an outcome.
pub open spec fn outcome_name_spec(outcome: AttemptModel) -> Seq<char> {
    match outcome {
        AttemptModel::Confirmed => "CONFIRMED"@,
        AttemptModel::Unconfirmed => "UNCONFIRMED"@,
        AttemptModel::Error(_) => "ERROR"@,
    }
}

/// The name of an outcome.
pub fn outcome_name(outcome: &AttemptOutcome) -> (r: &'static str)
    ensures
        r@ == outcome_name_spec(outcome@),
{
    match outcome {
        AttemptOutcome::Confirmed => "CONFIRMED",
        AttemptOutcome::Unconfirmed => "UNCONFIRMED",
        AttemptOutcome::Error(_) => "ERROR",
    }
}

/// The color of an outcome.
pub open spec fn outcome_color(outcome: AttemptModel) -> int {
    match outcome {
        AttemptModel::Confirmed => 32,
        AttemptModel::Unconfirmed => 33,
        AttemptModel::Error(_) => 31,
    }
}

/// The name of an outcome in its color.
pub fn colored_outcome(colors: &ColorPolicy, outcome: &AttemptOutcome) -> (r: String)
    ensures
        r@ == paint_spec(
            colors.stderr,
            decimal_spec(outcome_color(outcome@)),
            outcome_name_spec(outcome@),
        ),
{
    let code: u8 = match outcome {
        AttemptOutcome::Confirmed => 32,
        AttemptOutcome::Unconfirmed => 33,
        AttemptOutcome::Error(_) => 31,
    };
    colors.err(code, outcome_name(outcome))
}

/// The names with commas between them.
pub open spec fn joined_names(list: Seq<Seq<char>>) -> Seq<char>
    decreases list.len(),
{
    if list.len() == 0 {
        Seq::empty()
    } else if list.len() == 1 {
        list[0]
    } else {
        joined_names(list.drop_last()) + ", "@ + list.last()
    }
}

fn name_list(list: &Vec<String>) -> (r: String)
    ensures
        r@ == joined_names(string_views(list@)),
{
    let ghost all = string_views(list@);
    let mut text = String::new();
    let mut i: usize = 0;
    assert(all.take(0) =~= Seq::empty());
    assert(text@ =~= Seq::empty());
    while i < list.len()
        invariant
            i <= list@.len(),
            all == string_views(list@),
            text@ == joined_names(all.take(i as int)),
        decreases list@.len() - i,
    {
        let ghost after = all.take(i + 1);
        assert(after.drop_last() =~= all.take(i as int));
        assert(after.last() == list@[i as int]@);
        if i > 0 {
            text.append(", ");
        }
        text.append(list[i].as_str());
        assert(text@ =~= joined_names(after));
        i = i + 1;
    }
    assert(all.take(i as int) =~= all);
    text
}

/// The notice on the data checks of a run.
pub open spec fn checks_notice_spec(
    pings: Seq<Ipv4Addr>,
    names: Seq<Seq<char>>,
    server: Ipv4Addr,
    color: bool,
) -> Seq<char> {
    paint_spec(color, decimal_spec(36), "Full checks"@) + ": handshake; ping "@
        + joined_addresses(pings) + "; resolve "@ + joined_names(names) + " through DNS "@
        + server.text_spec()
}

/// The notice on the data checks of a run, if there are any.
pub fn checks_notice(mode: &CheckMode, colors: &ColorPolicy) -> (r: Option<String>)
    ensures
        match (checks_of(*mode), r) {
            (Some((pings, names, server)), Some(text)) => text@ == checks_notice_spec(
                pings,
                names,
                server,
                colors.stderr,
            ),
            (None, None) => true,
            _ => false,
        },
{
    match mode {
        CheckMode::HandshakeOnly => None,
        CheckMode::Full(checks) => {
            let mut r = colors.err(36, "Full checks");
            r.append(": handshake; ping ");
            r.append(crate::probe::address_list(&checks.ping_targets).as_str());
            r.append("; resolve ");
            r.append(name_list(&checks.resolve_names).as_str());
            r.append(" through DNS ");
            r.append(checks.dns_server.text().as_str());
            Some(r)
        },
    }
}

/// The notice that a run starts.
pub fn start_notice(max_candidates: usize, colors: &ColorPolicy) -> (r: String)
    ensures
        r@ == paint_spec(colors.stderr, decimal_spec(36), "Probing"@) + " up to "@ + decimal_spec(
            max_candidates as int,
        ) + " candidates; stopping after the first confirmation"@,
{
    let mut r = colors.err(36, "Probing");
    r.append(" up to ");
    r.append(decimal(max_candidates as u64).as_str());
    r.append(" candidates; stopping after the first confirmation");
    r
}

/// The number of an attempt before a notice.
pub open spec fn attempt_mark(id: int, color: bool) -> Seq<char> {
    paint_spec(color, decimal_spec(36), "["@ + decimal_spec(id) + "]"@)
}

fn mark(id: u64, colors: &ColorPolicy) -> (r: String)
    ensures
        r@ == attempt_mark(id as int, colors.stderr),
{
    let mut number = "[".to_string();
    number.append(decimal(id).as_str());
    number.append("]");
    colors.err(36, number.as_str())
}

/// The notice on an event of an attempt, if there is something to tell.
pub open spec fn event_notice_spec(id: int, event: EventModel, color: bool) -> Option<Seq<char>> {
    match event.kind {
        ProbeEventKind::Started => Some(
            attempt_mark(id, color) + " starting "@ + event.phase + match event.target {
                Some(target) => " ("@ + target + ")"@,
                None => Seq::empty(),
            },
        ),
        ProbeEventKind::Finished => match event.result {
            Some(result) => Some(
                attempt_mark(id, color) + " "@ + result.phase + ": "@ + paint_spec(
                    color,
                    decimal_spec(status_color(result.status)),
                    status_name_spec(result.status),
                ) + " ("@ + decimal_spec(result.duration_ms) + " ms)"@ + match result.detail {
                    Some(detail) => "; "@ + detail,
                    None => Seq::empty(),
                },
            ),
            None => None,
        },
    }
}

/// The notice on an event of an attempt, if there is something to tell.
pub fn event_notice(id: u64, event: &ProbeEvent, colors: &ColorPolicy) -> (r: Option<String>)
    ensures
        event_notice_spec(id as int, event@, colors.stderr) == (match r {
            Some(text) => Some(text@),
            None => None,
        }),
{
    match event.kind {
        ProbeEventKind::Started => {
            let mut r = mark(id, colors);
            r.append(" starting ");
            r.append(event.phase.as_str());
            let mut tail = String::new();
            if let Some(target) = &event.target {
                tail.append(" (");
                tail.append(target.as_str());
                tail.append(")");
            }
            assert(tail@ =~= match event@.target {
                Some(target) => " ("@ + target + ")"@,
                None => Seq::empty(),
            });
            r.append(tail.as_str());
            Some(r)
        },
        ProbeEventKind::Finished => match &event.result {
            Some(result) => {
                let mut r = mark(id, colors);
                r.append(" ");
                r.append(result.phase.as_str());
                r.append(": ");
                r.append(crate::console::colored_status(colors.stderr, &result.status).as_str());
                r.append(" (");
                r.append(decimal(result.duration_ms).as_str());
                r.append(" ms)");
                let mut tail = String::new();
                if let Some(detail) = &result.detail {
                    tail.append("; ");
                    tail.append(detail.as_str());
                }
                assert(tail@ =~= match result@.detail {
                    Some(detail) => "; "@ + detail,
                    None => Seq::empty(),
                });
                r.append(tail.as_str());
                Some(r)
            },
            None => None,
        },
    }
}

/// What a search is to do: stop at the first confirmation, after so many candidates at most and no
/// more than there are.
pub fn find_options(max_candidates: usize, available: usize, mode: CheckMode) -> (r: ProbeOptions)
    ensures
        r.desired_confirmed == 1,
        r.max_candidates == if max_candidates < available {
            max_candidates
        } else {
            available
        },
        r.mode == mode,
{
    ProbeOptions {
        desired_confirmed: 1,
        max_candidates: if max_candidates < available {
            max_candidates
        } else {
            available
        },
        mode,
    }
}

/// The search for the first confirmed server: the confirmed attempt, how many ended, and what went
/// wrong.
#[derive(Debug)]
pub struct FindRun {
    pub confirmed: Option<Attempt>,
    pub completed: usize,
    pub fatal: Option<String>,
    pub cancelling: bool,
}

/// What a message of a run comes to.
#[derive(Debug)]
pub enum FindStep {
    /// There is something to tell.
    Notice(String),
    /// There is nothing to tell.
    Silent,
    /// The run is over.
    Over,
}

/// The notice on an attempt that has ended.
pub open spec fn ended_notice(attempt: Attempt, color: bool) -> Seq<char> {
    "["@ + decimal_spec(attempt.id as int) + "] "@ + attempt.target.hostname@ + ": "@ + paint_spec(
        color,
        decimal_spec(outcome_color(attempt.outcome@)),
        outcome_name_spec(attempt.outcome@),
    )
}

impl FindRun {
    pub fn new() -> (r: FindRun)
        ensures
            r == (FindRun { confirmed: None, completed: 0, fatal: None, cancelling: false }),
    {
        FindRun { confirmed: None, completed: 0, fatal: None, cancelling: false }
    }

    /// Notes that the user interrupts the run. The first time there is a notice, and the run is to
    /// be cancelled.
    pub fn interrupt(&mut self, colors: &ColorPolicy) -> (r: Option<String>)
        ensures
            *final(self) == (FindRun { cancelling: true, ..*old(self) }),
            match r {
                Some(text) => !old(self).cancelling && text@ == paint_spec(
                    colors.stderr,
                    decimal_spec(33),
                    "Cancelling"@,
                ) + ": waiting for active probes to finish"@,
                None => old(self).cancelling,
            },
    {
        if self.cancelling {
            return None;
        }
        self.cancelling = true;
        let mut r = colors.err(33, "Cancelling");
        r.append(": waiting for active probes to finish");
        Some(r)
    }

    /// Takes a message of the run. The first confirmed attempt is kept.
    pub fn handle(&mut self, message: WorkerMessage, colors: &ColorPolicy) -> (r: FindStep)
        requires
            old(self).completed < usize::MAX,
        ensures
            final(self).cancelling == old(self).cancelling,
            match message {
                WorkerMessage::Started { id, target } => *final(self) == *old(self) && (
                r matches FindStep::Notice(text) && text@ == attempt_mark(id as int, colors.stderr)
                    + " probing "@ + target.hostname@ + " at "@ + SocketAddr::text_spec(
                    target.endpoint@,
                )),
                WorkerMessage::Phase { id, event } => *final(self) == *old(self) && (match (
                    event_notice_spec(id as int, event@, colors.stderr),
                    r,
                ) {
                    (Some(exact), FindStep::Notice(text)) => text@ == exact,
                    (None, FindStep::Silent) => true,
                    _ => false,
                }),
                WorkerMessage::Finished(attempt) => final(self).completed == old(self).completed + 1
                    && final(self).fatal == old(self).fatal && final(self).confirmed == (
                if old(self).confirmed is None && attempt.outcome@ is Confirmed {
                    Some(attempt)
                } else {
                    old(self).confirmed
                }) && (r matches FindStep::Notice(text) && text@ == ended_notice(
                    attempt,
                    colors.stderr,
                )),
                WorkerMessage::Pacing(_) => *final(self) == *old(self) && r is Silent,
                WorkerMessage::Fatal(error) => *final(self) == (FindRun {
                    fatal: Some(error),
                    ..*old(self)
                }) && r is Silent,
                WorkerMessage::Complete { cancelled } => *final(self) == *old(self) && r is Over,
            },
    {
        match message {
            WorkerMessage::Started { id, target } => {
                let mut text = mark(id, colors);
                text.append(" probing ");
                text.append(target.hostname.as_str());
                text.append(" at ");
                text.append(target.endpoint.text().as_str());
                FindStep::Notice(text)
            },
            WorkerMessage::Phase { id, event } => match event_notice(id, &event, colors) {
                Some(text) => FindStep::Notice(text),
                None => FindStep::Silent,
            },
            WorkerMessage::Finished(attempt) => {
                self.completed = self.completed + 1;
                let mut text = "[".to_string();
                text.append(decimal(attempt.id).as_str());
                text.append("] ");
                text.append(attempt.target.hostname.as_str());
                text.append(": ");
                text.append(colored_outcome(colors, &attempt.outcome).as_str());
                let confirmed: bool = match &attempt.outcome {
                    AttemptOutcome::Confirmed => true,
                    _ => false,
                };
                if self.confirmed.is_none() && confirmed {
                    self.confirmed = Some(attempt);
                }
                FindStep::Notice(text)
            },
            WorkerMessage::Pacing(_) => FindStep::Silent,
            WorkerMessage::Fatal(error) => {
                self.fatal = Some(error);
                FindStep::Silent
            },
            WorkerMessage::Complete { cancelled } => FindStep::Over,
        }
    }

    /// What a run that is over has found.
    pub fn finish(self) -> (r: Result<Attempt, String>)
        ensures
            match r {
                Ok(attempt) => self.fatal is None && !self.cancelling && self.confirmed == Some(
                    attempt,
                ),
                Err(message) => if self.fatal is Some {
                    message@ == self.fatal.unwrap()@
                } else if self.cancelling {
                    message@ == "find cancelled after "@ + decimal_spec(self.completed as int)
                        + " completed attempts"@
                } else {
                    self.confirmed is None && message@ == "no endpoint confirmed after "@
                        + decimal_spec(self.completed as int) + " completed attempts"@
                },
            },
    {
        if let Some(error) = self.fatal {
            return Err(error);
        }
        if self.cancelling {
            let mut message = "find cancelled after ".to_string();
            message.append(decimal(self.completed as u64).as_str());
            message.append(" completed attempts");
            return Err(message);
        }
        match self.confirmed {
            Some(attempt) => Ok(attempt),
            None => {
                let mut message = "no endpoint confirmed after ".to_string();
                message.append(decimal(self.completed as u64).as_str());
                message.append(" completed attempts");
                Err(message)
            },
        }
    }
}

/// Where the inventory of a search comes from.
#[derive(Clone, Copy, Debug, PartialEq, Eq, Structural)]
pub enum InventorySource {
    /// The stored one.
    Stored,
    /// The remote one, which is to be fetched.
    Remote,
}

/// Where the inventory comes from: a stored one is used unless the user wants a new one.
pub fn inventory_source(stored: bool, refresh: bool) -> (r: InventorySource)
    ensures
        r == if stored && !refresh {
            InventorySource::Stored
        } else {
            InventorySource::Remote
        },
{
    if stored && !refresh {
        InventorySource::Stored
    } else {
        InventorySource::Remote
    }
}

/// What is left when the remote inventory could not be fetched: the stored one, with a notice, or
/// the error.
pub fn after_failed_fetch(stored: bool, error: &str) -> (r: Result<String, String>)
    ensures
        match r {
            Ok(notice) => stored && notice@ == "Inventory refresh failed; using cache: "@ + error@,
            Err(message) => !stored && message@ == error@,
        },
{
    if stored {
        let mut notice = "Inventory refresh failed; using cache: ".to_string();
        notice.append(error);
        Ok(notice)
    } else {
        Err(error.to_string())
    }
}

/// The notice on the chosen location.
pub fn location_notice(location: &CitySummary, candidates: usize, colors: &ColorPolicy) -> (r:
    String)
    ensures
        r@ == paint_spec(colors.stdout, decimal_spec(36), "Location"@) + ": "@ + city_label(
            location@,
        ) + " ("@ + decimal_spec(candidates as int) + " candidates)"@,
{
    let mut r = colors.out(36, "Location");
    r.append(": ");
    r.append(city_text(location).as_str());
    r.append(" (");
    r.append(decimal(candidates as u64).as_str());
    r.append(" candidates)");
    r
}

/// The refusal of a location without candidates.
pub fn no_candidates(location: &CitySummary) -> (r: String)
    ensures
        r@ == city_label(location@) + " has no usable candidates"@,
{
    let mut r = city_text(location);
    r.append(" has no usable candidates");
    r
}

/// The notice on the confirmed server.
pub fn confirmed_notice(target: &NordTarget, colors: &ColorPolicy) -> (r: String)
    ensures
        r@ == paint_spec(colors.stdout, decimal_spec(32), "Confirmed"@) + ": "@ + target.hostname@
            + " at "@ + SocketAddr::text_spec(target.endpoint@),
{
    let mut r = colors.out(32, "Confirmed");
    r.append(": ");
    r.append(target.hostname.as_str());
    r.append(" at ");
    r.append(target.endpoint.text().as_str());
    r
}

} // verus!
