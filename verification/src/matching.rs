//! How well a query fits a text, and in which order cities are offered.
use crate::finder::{
    city_scores, find_char_from, find_from, fuzzy_score_spec, is_ranking, rank_key,
    rank_key_compares_fields, rank_keys, scattered_gap, scored, term_score, terms_score,
};
use crate::inventory::CityModel;
use crate::order::{goes_before, is_stable_order, key_order_total, text_less};
use crate::pieces::{unspaced, words_stand_between_white_space};
use crate::text::{
    byte_length, byte_length_is_utf8_length, occurs, saturating_sum, stands_at, trim_spec,
    words_spec,
};
use crate::unicode::lowercase_spec;
use vstd::prelude::*;
use vstd::string::*;
use vstd::utf8::encode_utf8;

verus! {

/// How many bytes a text takes.
pub open spec fn utf8_size(s: Seq<char>) -> int {
    encode_utf8(s).len() as int
}

/// A number, or the greatest that can be stored.
pub open spec fn capped(n: int) -> int {
    if n < usize::MAX {
        n
    } else {
        usize::MAX as int
    }
}

/// Whether a word stands in a text at position `i` and nowhere before.
pub open spec fn first_at(text: Seq<char>, word: Seq<char>, i: int) -> bool {
    &&& 0 <= i && i + word.len() <= text.len()
    &&& text.subrange(i, i + word.len()) == word
    &&& forall|j: int| 0 <= j < i ==> #[trigger] text.subrange(j, j + word.len()) != word
}

proof fn lemma_found(text: Seq<char>, word: Seq<char>, i: int, from: int)
    requires
        first_at(text, word, i),
        0 <= from <= i,
    ensures
        find_from(text, word, from) == i,
    decreases i - from,
{
    if from < i {
        assert(text.subrange(from, from + word.len()) != word);
        lemma_found(text, word, i, from + 1);
    } else if i < text.len() {
        assert(stands_at(text, word, i));
    }
}

proof fn lemma_single(text: Seq<char>, word: Seq<char>)
    ensures
        terms_score(text, seq![word]) == (match term_score(text, word) {
            Some(score) => Some(saturating_sum(0, score)),
            None => None,
        }),
{
    let words = seq![word];
    assert(words.drop_last() =~= Seq::empty());
    assert(terms_score(text, words.drop_last()) == Some(0int));
}

/// A word that stands in a text scores the bytes before its first place: none where it starts the
/// text.
pub proof fn word_scores_its_place(text: Seq<char>, word: Seq<char>, i: int)
    requires
        first_at(text, word, i),
    ensures
        terms_score(text, seq![word]) == Some(capped(utf8_size(text.take(i)))),
        i == 0 ==> terms_score(text, seq![word]) == Some(0int),
{
    assert(stands_at(text, word, i));
    assert(occurs(text, word));
    lemma_found(text, word, i, 0);
    byte_length_is_utf8_length(text.take(i));
    lemma_single(text, word);
    if i == 0 {
        assert(text.take(0) =~= Seq::empty());
        byte_length_is_utf8_length(Seq::empty());
    }
}

/// Of two texts that hold a word, the one that holds it first scores less.
pub proof fn earlier_word_scores_less(a: Seq<char>, i: int, b: Seq<char>, j: int, word: Seq<char>)
    requires
        first_at(a, word, i),
        first_at(b, word, j),
        utf8_size(a.take(i)) < utf8_size(b.take(j)) <= usize::MAX,
    ensures
        terms_score(a, seq![word]) is Some,
        terms_score(b, seq![word]) is Some,
        terms_score(a, seq![word]).unwrap() < terms_score(b, seq![word]).unwrap(),
{
    word_scores_its_place(a, word, i);
    word_scores_its_place(b, word, j);
}

/// Every word counts: one more word adds its own score, and a text fits where every word does.
pub proof fn words_add_up(text: Seq<char>, words: Seq<Seq<char>>, word: Seq<char>)
    ensures
        terms_score(text, Seq::empty()) == Some(0int),
        terms_score(text, words.push(word)) == (match (
            terms_score(text, words),
            terms_score(text, seq![word]),
        ) {
            (Some(before), Some(score)) => Some(capped(before + score)),
            _ => None,
        }),
{
    lemma_single(text, word);
    lemma_score_bounds(text, words);
    lemma_term_positive(text, word);
    assert(words.push(word).drop_last() =~= words);
}

proof fn lemma_bytes_positive(s: Seq<char>)
    ensures
        byte_length(s) >= 0,
{
    byte_length_is_utf8_length(s);
}

proof fn lemma_term_positive(text: Seq<char>, word: Seq<char>)
    ensures
        term_score(text, word) matches Some(score) ==> score >= 0,
{
    lemma_bytes_positive(text.take(find_from(text, word, 0)));
    crate::finder::lemma_gap_positive(text, 0, word, 0);
}

proof fn lemma_score_bounds(text: Seq<char>, words: Seq<Seq<char>>)
    ensures
        terms_score(text, words) matches Some(score) ==> 0 <= score <= usize::MAX,
    decreases words.len(),
{
    if words.len() > 0 {
        lemma_score_bounds(text, words.drop_last());
        lemma_term_positive(text, words.last());
    }
}

/// Whether the characters of a word stand in a text from `at` on, in order, at the given positions.
pub open spec fn embeds(text: Seq<char>, at: int, word: Seq<char>, places: Seq<int>) -> bool {
    &&& places.len() == word.len()
    &&& forall|k: int|
        0 <= k < places.len() ==> at <= #[trigger] places[k] < text.len() && text[places[k]]
            == word[k]
    &&& forall|k: int, l: int| 0 <= k < l < places.len() ==> places[k] < places[l]
}

/// Whether no position can be earlier.
pub open spec fn earliest(text: Seq<char>, at: int, word: Seq<char>, places: Seq<int>) -> bool {
    forall|other: Seq<int>, k: int|
        #[trigger] embeds(text, at, word, other) && 0 <= k < places.len() ==> places[k]
            <= #[trigger] other[k]
}

/// Where the characters at those positions end.
pub open spec fn end_of(at: int, places: Seq<int>) -> int {
    if places.len() > 0 {
        places.last() + 1
    } else {
        at
    }
}

proof fn lemma_find_char(s: Seq<char>, c: char, at: int)
    requires
        0 <= at <= s.len(),
    ensures
        at <= find_char_from(s, c, at) <= s.len(),
        find_char_from(s, c, at) < s.len() ==> s[find_char_from(s, c, at)] == c,
        forall|k: int| at <= k < find_char_from(s, c, at) ==> s[k] != c,
    decreases s.len() - at,
{
    if at < s.len() && s[at] != c {
        lemma_find_char(s, c, at + 1);
    }
}

pub(crate) proof fn lemma_bytes_join(a: Seq<char>, b: Seq<char>)
    ensures
        byte_length(a + b) == byte_length(a) + byte_length(b),
    decreases b.len(),
{
    if b.len() > 0 {
        assert((a + b).drop_last() =~= a + b.drop_last());
        lemma_bytes_join(a, b.drop_last());
    } else {
        assert(a + b =~= a);
    }
}

/// A tail of places is one for the tail of the word.
proof fn lemma_embedded_tail(text: Seq<char>, at: int, word: Seq<char>, places: Seq<int>, from: int)
    requires
        embeds(text, at, word, places),
        places.len() > 0,
        from <= places[0] + 1,
    ensures
        embeds(text, from, word.drop_first(), places.drop_first()),
{
    let tail = places.drop_first();
    assert forall|k: int| 0 <= k < tail.len() implies from <= #[trigger] tail[k] < text.len()
        && text[tail[k]] == word.drop_first()[k] by {
        assert(tail[k] == places[k + 1]);
        assert(places[0] < places[k + 1]);
    }
}

/// The earliest places of a word, where its characters are found one after the other.
proof fn lemma_places(text: Seq<char>, at: int, word: Seq<char>, i: int) -> (places: Seq<int>)
    requires
        0 <= at <= text.len(),
        0 <= i <= word.len(),
        scattered_gap(text, at, word, i) is Some,
    ensures
        embeds(text, at, word.skip(i), places),
        earliest(text, at, word.skip(i), places),
        at <= end_of(at, places) <= text.len(),
        scattered_gap(text, at, word, i).unwrap() + byte_length(word.skip(i)) == byte_length(
            text.subrange(at, end_of(at, places)),
        ),
    decreases word.len() - i,
{
    let rest = word.skip(i);
    if i == word.len() {
        assert(rest =~= Seq::empty());
        assert(text.subrange(at, at) =~= Seq::empty());
        Seq::empty()
    } else {
        let k = find_char_from(text, word[i], at);
        lemma_find_char(text, word[i], at);
        let tail = lemma_places(text, k + 1, word, i + 1);
        let places = seq![k] + tail;
        assert(rest.drop_first() =~= word.skip(i + 1));
        assert(rest[0] == word[i]);
        assert forall|m: int| 0 <= m < places.len() implies at <= #[trigger] places[m] < text.len()
            && text[places[m]] == rest[m] by {
            if m > 0 {
                assert(places[m] == tail[m - 1]);
                assert(rest[m] == word.skip(i + 1)[m - 1]);
            }
        }
        assert forall|m: int, l: int| 0 <= m < l < places.len() implies places[m] < places[l] by {
            assert(places[l] == tail[l - 1]);
            if m > 0 {
                assert(places[m] == tail[m - 1]);
            }
        }
        assert(embeds(text, at, rest, places));
        assert forall|other: Seq<int>, m: int| #[trigger]
            embeds(text, at, rest, other) && 0 <= m < places.len() implies places[m]
            <= #[trigger] other[m] by {
            assert(at <= other[0] < text.len() && text[other[0]] == rest[0]);
            assert(k <= other[0]);
            lemma_embedded_tail(text, at, rest, other, k + 1);
            if m > 0 {
                assert(places[m] == tail[m - 1]);
                assert(other.drop_first()[m - 1] == other[m]);
            }
        }
        let end = end_of(at, places);
        assert(end == end_of(k + 1, tail)) by {
            if tail.len() > 0 {
                assert(places.last() == tail.last());
            }
        }
        let gap = text.subrange(at, k);
        let behind = text.subrange(k + 1, end);
        assert(text.subrange(at, end) =~= gap + (seq![text[k]] + behind));
        lemma_bytes_join(gap, seq![text[k]] + behind);
        lemma_bytes_join(seq![text[k]], behind);
        assert(rest =~= seq![word[i]] + word.skip(i + 1));
        lemma_bytes_join(seq![word[i]], word.skip(i + 1));
        places
    }
}

proof fn lemma_embedded_is_found(
    text: Seq<char>,
    at: int,
    word: Seq<char>,
    i: int,
    places: Seq<int>,
)
    requires
        0 <= at <= text.len(),
        0 <= i <= word.len(),
        embeds(text, at, word.skip(i), places),
    ensures
        scattered_gap(text, at, word, i) is Some,
    decreases word.len() - i,
{
    if i < word.len() {
        let rest = word.skip(i);
        let k = find_char_from(text, word[i], at);
        lemma_find_char(text, word[i], at);
        assert(at <= places[0] < text.len() && text[places[0]] == rest[0]);
        assert(k <= places[0]);
        lemma_embedded_tail(text, at, rest, places, k + 1);
        assert(rest.drop_first() =~= word.skip(i + 1));
        lemma_embedded_is_found(text, k + 1, word, i + 1, places.drop_first());
    }
}

/// A word that does not stand in a text still fits where its characters stand there in order: it
/// scores a hundred and the bytes that are passed over up to the last of them, each taken as early
/// as possible.
pub proof fn scattered_word_scores_its_gaps(text: Seq<char>, word: Seq<char>, places: Seq<int>)
    requires
        forall|i: int|
            0 <= i && i + word.len() <= text.len() ==> #[trigger] text.subrange(i, i + word.len())
                != word,
        embeds(text, 0, word, places),
        earliest(text, 0, word, places),
        word.len() > 0,
    ensures
        terms_score(text, seq![word]) == Some(
            capped(100 + utf8_size(text.take(places.last() + 1)) - utf8_size(word)),
        ),
{
    assert(!occurs(text, word)) by {
        if occurs(text, word) {
            let i = choose|i: int| stands_at(text, word, i);
            assert(text.subrange(i, i + word.len()) == word);
        }
    }
    assert(word.skip(0) =~= word);
    lemma_embedded_is_found(text, 0, word, 0, places);
    let found = lemma_places(text, 0, word, 0);
    assert forall|k: int| 0 <= k < places.len() implies places[k] == found[k] by {
        assert(places[k] <= found[k]);
        assert(found[k] <= places[k]);
    }
    assert(places =~= found);
    let end = places.last() + 1;
    assert(text.subrange(0, end) =~= text.take(end));
    byte_length_is_utf8_length(text.take(end));
    byte_length_is_utf8_length(word);
    crate::finder::lemma_gap_positive(text, 0, word, 0);
    lemma_single(text, word);
}

/// A word fits a text exactly where its characters stand there in order.
pub proof fn word_fits_where_its_characters_stand(text: Seq<char>, word: Seq<char>)
    ensures
        terms_score(text, seq![word]) is Some <==> exists|places: Seq<int>|
            embeds(text, 0, word, places),
{
    lemma_single(text, word);
    assert(word.skip(0) =~= word);
    if occurs(text, word) {
        let i = choose|i: int| stands_at(text, word, i);
        let places = Seq::new(word.len(), |k: int| i + k);
        assert forall|k: int| 0 <= k < places.len() implies 0 <= #[trigger] places[k] < text.len()
            && text[places[k]] == word[k] by {
            assert(text.subrange(i, i + word.len())[k] == word[k]);
        }
        assert(embeds(text, 0, word, places));
    } else if scattered_gap(text, 0, word, 0) is Some {
        let places = lemma_places(text, 0, word, 0);
        assert(embeds(text, 0, word, places));
    } else if exists|places: Seq<int>| embeds(text, 0, word, places) {
        let places = choose|places: Seq<int>| embeds(text, 0, word, places);
        lemma_embedded_is_found(text, 0, word, 0, places);
    }
}

/// Case and the white space round a query do not count: a query of one word fits a text as the word
/// in lower case fits the text in lower case.
pub proof fn query_of_one_word(candidate: Seq<char>, query: Seq<char>)
    requires
        lowercase_spec(trim_spec(query)).len() > 0,
        unspaced(lowercase_spec(trim_spec(query))),
    ensures
        fuzzy_score_spec(candidate, query) == terms_score(
            lowercase_spec(candidate),
            seq![lowercase_spec(trim_spec(query))],
        ),
{
    words_stand_between_white_space(lowercase_spec(trim_spec(query)), ' ', Seq::empty());
}

/// A text is less than another where it has the smaller character at the first place where they
/// differ, or where it is the start of the other.
pub proof fn texts_compare_at_first_difference(
    start: Seq<char>,
    x: char,
    y: char,
    a: Seq<char>,
    b: Seq<char>,
)
    ensures
        x < y ==> text_less(start + seq![x] + a, start + seq![y] + b),
        x > y ==> !text_less(start + seq![x] + a, start + seq![y] + b),
        text_less(start, start + seq![x] + a),
        !text_less(start + seq![x] + a, start),
    decreases start.len(),
{
    let left = start + seq![x] + a;
    let right = start + seq![y] + b;
    if start.len() > 0 {
        let rest = start.drop_first();
        texts_compare_at_first_difference(rest, x, y, a, b);
        assert(left.drop_first() =~= rest + seq![x] + a);
        assert(right.drop_first() =~= rest + seq![y] + b);
        assert(left[0] == start[0] && right[0] == start[0]);
    } else {
        assert(left[0] == x && right[0] == y);
    }
}

/// The positions of the scores that are there, in order.
spec fn scored_at(scores: Seq<Option<int>>) -> Seq<int>
    decreases scores.len(),
{
    if scores.len() == 0 {
        Seq::empty()
    } else if scores.last() is Some {
        scored_at(scores.drop_last()).push(scores.len() - 1)
    } else {
        scored_at(scores.drop_last())
    }
}

proof fn lemma_scored_at(choices: Seq<CityModel>, scores: Seq<Option<int>>)
    requires
        choices.len() == scores.len(),
    ensures
        ({
            let places = scored_at(scores);
            let items = scored(choices, scores);
            &&& places.len() == items.len() <= scores.len()
            &&& forall|k: int|
                0 <= k < places.len() ==> 0 <= #[trigger] places[k] < scores.len()
                    && scores[places[k]] == Some(items[k].0) && choices[places[k]] == items[k].1
            &&& forall|k: int, l: int| 0 <= k < l < places.len() ==> places[k] < places[l]
            &&& forall|x: int|
                0 <= x < scores.len() && (#[trigger] scores[x]) is Some ==> places.contains(x)
        }),
    decreases scores.len(),
{
    if scores.len() > 0 {
        let before = scored_at(scores.drop_last());
        lemma_scored_at(choices.drop_last(), scores.drop_last());
        let places = scored_at(scores);
        assert forall|x: int| 0 <= x < scores.len() && (
        #[trigger] scores[x]) is Some implies places.contains(x) by {
            if x < scores.len() - 1 {
                assert(scores.drop_last()[x] is Some);
                let k = choose|k: int| 0 <= k < before.len() && before[k] == x;
                assert(places[k] == x);
            } else {
                assert(places[places.len() - 1] == x);
            }
        }
        assert forall|k: int| 0 <= k < places.len() implies 0 <= #[trigger] places[k] < scores.len()
            && scores[places[k]] == Some(scored(choices, scores)[k].0) && choices[places[k]]
            == scored(choices, scores)[k].1 by {
            if k < before.len() {
                assert(places[k] == before[k]);
                assert(scores.drop_last()[before[k]] == scores[before[k]]);
                assert(choices.drop_last()[before[k]] == choices[before[k]]);
            }
        }
    }
}

/// Whether the city at position `a` is offered before that at `b`: by score, by country, by name, and
/// by position where all are equal.
pub open spec fn offered_before(
    choices: Seq<CityModel>,
    scores: Seq<Option<int>>,
    a: int,
    b: int,
) -> bool {
    ||| scores[a].unwrap() < scores[b].unwrap()
    ||| scores[a] == scores[b] && text_less(choices[a].country, choices[b].country)
    ||| scores[a] == scores[b] && choices[a].country == choices[b].country && text_less(
        choices[a].city,
        choices[b].city,
    )
    ||| scores[a] == scores[b] && choices[a].country == choices[b].country && choices[a].city
        == choices[b].city && a < b
}

/// Whether `places` are the positions of the offered cities: those with a score, each once, in the
/// order in which they are offered.
pub open spec fn are_offered(
    choices: Seq<CityModel>,
    scores: Seq<Option<int>>,
    ranked: Seq<CityModel>,
    places: Seq<int>,
) -> bool {
    &&& places.len() == ranked.len()
    &&& forall|k: int|
        0 <= k < places.len() ==> 0 <= #[trigger] places[k] < choices.len() && scores[places[k]]
            is Some && ranked[k] == choices[places[k]]
    &&& forall|x: int|
        0 <= x < choices.len() && (#[trigger] scores[x]) is Some ==> places.contains(x)
    &&& forall|k: int, l: int|
        0 <= k < l < places.len() ==> #[trigger] offered_before(
            choices,
            scores,
            places[k],
            places[l],
        ) && places[k] != places[l]
}

/// Whether every score that is there can be stored.
pub open spec fn storable(scores: Seq<Option<int>>) -> bool {
    forall|x: int|
        0 <= x < scores.len() ==> (#[trigger] scores[x] matches Some(score) ==> 0 <= score
            <= u64::MAX)
}

/// Exactly the cities that have a score are offered, each once: the least score first, then by
/// country and name.
pub proof fn scored_cities_are_offered_in_order(
    choices: Seq<CityModel>,
    scores: Seq<Option<int>>,
    ranked: Seq<CityModel>,
)
    requires
        choices.len() == scores.len() <= usize::MAX,
        storable(scores),
        is_ranking(choices, scores, ranked),
    ensures
        exists|places: Seq<int>| are_offered(choices, scores, ranked, places),
{
    let items = scored(choices, scores);
    let keys = rank_keys(items);
    let order = choose|order: Seq<usize>| #[trigger]
        is_stable_order(keys, order) && ranked == order.map_values(|i: usize| items[i as int].1);
    let at = scored_at(scores);
    lemma_scored_at(choices, scores);
    let places = order.map_values(|i: usize| at[i as int]);
    assert forall|k: int| 0 <= k < places.len() implies 0 <= #[trigger] places[k] < choices.len()
        && scores[places[k]] is Some && ranked[k] == choices[places[k]] by {
        let i = order[k] as int;
        assert(places[k] == at[i]);
        assert(ranked[k] == items[i].1);
    }
    assert forall|x: int| 0 <= x < choices.len() && (
    #[trigger] scores[x]) is Some implies places.contains(x) by {
        let i = choose|i: int| 0 <= i < at.len() && at[i] == x;
        lemma_order_reaches(keys, order, i);
        let k = choose|k: int| 0 <= k < order.len() && order[k] as int == i;
        assert(places[k] == x);
    }
    assert forall|k: int, l: int| 0 <= k < l < places.len() implies #[trigger] offered_before(
        choices,
        scores,
        places[k],
        places[l],
    ) && places[k] != places[l] by {
        let a = order[k] as int;
        let b = order[l] as int;
        assert(goes_before(keys, a, b));
        lemma_offered_pair(choices, scores, a, b);
    }
    assert(are_offered(choices, scores, ranked, places));
}

proof fn lemma_order_reaches(keys: Seq<Seq<u32>>, order: Seq<usize>, i: int)
    requires
        is_stable_order(keys, order),
        0 <= i < keys.len() <= usize::MAX,
    ensures
        exists|k: int| 0 <= k < order.len() && order[k] as int == i,
{
    assert(order.contains(i as usize));
}

proof fn lemma_offered_pair(choices: Seq<CityModel>, scores: Seq<Option<int>>, a: int, b: int)
    requires
        choices.len() == scores.len(),
        storable(scores),
        0 <= a < scored(choices, scores).len(),
        0 <= b < scored(choices, scores).len(),
        goes_before(rank_keys(scored(choices, scores)), a, b),
    ensures
        offered_before(choices, scores, scored_at(scores)[a], scored_at(scores)[b]),
        scored_at(scores)[a] != scored_at(scores)[b],
{
    let items = scored(choices, scores);
    let keys = rank_keys(items);
    let at = scored_at(scores);
    lemma_scored_at(choices, scores);
    let x = items[a];
    let y = items[b];
    assert(scores[at[a]] == Some(x.0) && scores[at[b]] == Some(y.0));
    assert(keys[a] == rank_key(x) && keys[b] == rank_key(y));
    rank_key_compares_fields(x, y);
    rank_key_compares_fields(y, x);
    key_order_total(keys[a], keys[b]);
    key_order_total(keys[a], keys[a]);
    crate::order::text_order_total(x.1.country, y.1.country);
    crate::order::text_order_total(x.1.city, y.1.city);
    assert(at[a] != at[b]) by {
        if a < b {
            assert(at[a] < at[b]);
        } else if b < a {
            assert(at[b] < at[a]);
        }
    }
}

/// The scores of cities can be stored.
proof fn lemma_city_scores(choices: Seq<CityModel>, query: Seq<char>)
    ensures
        storable(city_scores(choices, query)),
{
    let scores = city_scores(choices, query);
    assert forall|x: int| 0 <= x < scores.len() implies (#[trigger] scores[x] matches Some(score)
        ==> 0 <= score <= u64::MAX) by {
        let label = crate::finder::city_label(choices[x]);
        assert(scores[x] == fuzzy_score_spec(label, query));
        lemma_score_bounds(lowercase_spec(label), words_spec(lowercase_spec(trim_spec(query))));
    }
}

/// Of two cities whose names hold the word of a query, the one that holds it first is offered first.
pub proof fn earlier_word_is_offered_first(
    choices: Seq<CityModel>,
    query: Seq<char>,
    ranked: Seq<CityModel>,
    a: int,
    i: int,
    b: int,
    j: int,
)
    requires
        is_ranking(choices, city_scores(choices, query), ranked),
        choices.len() <= usize::MAX,
        0 <= a < choices.len(),
        0 <= b < choices.len(),
        lowercase_spec(trim_spec(query)).len() > 0,
        unspaced(lowercase_spec(trim_spec(query))),
        ({
            let word = lowercase_spec(trim_spec(query));
            let left = lowercase_spec(choices[a].city + ", "@ + choices[a].country);
            let right = lowercase_spec(choices[b].city + ", "@ + choices[b].country);
            &&& first_at(left, word, i)
            &&& first_at(right, word, j)
            &&& utf8_size(left.take(i)) < utf8_size(right.take(j)) <= usize::MAX
        }),
    ensures
        exists|k: int, l: int|
            0 <= k < l < ranked.len() && #[trigger] ranked[k] == choices[a] && #[trigger] ranked[l]
                == choices[b],
{
    let scores = city_scores(choices, query);
    let word = lowercase_spec(trim_spec(query));
    let left = choices[a].city + ", "@ + choices[a].country;
    let right = choices[b].city + ", "@ + choices[b].country;
    query_of_one_word(left, query);
    query_of_one_word(right, query);
    earlier_word_scores_less(lowercase_spec(left), i, lowercase_spec(right), j, word);
    assert(scores[a] == fuzzy_score_spec(left, query));
    assert(scores[b] == fuzzy_score_spec(right, query));
    lemma_city_scores(choices, query);
    scored_cities_are_offered_in_order(choices, scores, ranked);
    let places = choose|places: Seq<int>| are_offered(choices, scores, ranked, places);
    assert(scores[a] is Some && scores[b] is Some);
    assert(places.contains(a) && places.contains(b));
    let k = choose|k: int| 0 <= k < places.len() && places[k] == a;
    let l = choose|l: int| 0 <= l < places.len() && places[l] == b;
    if l < k {
        assert(offered_before(choices, scores, places[l], places[k]));
    }
    assert(k != l);
    assert(ranked[k] == choices[a] && ranked[l] == choices[b]);
}

/// Exactly the cities that fit a query are offered: those that have all its words.
pub proof fn fitting_cities_are_offered(
    choices: Seq<CityModel>,
    query: Seq<char>,
    ranked: Seq<CityModel>,
    city: CityModel,
)
    requires
        is_ranking(choices, city_scores(choices, query), ranked),
        choices.len() <= usize::MAX,
    ensures
        ranked.contains(city) <==> choices.contains(city) && fuzzy_score_spec(
            city.city + ", "@ + city.country,
            query,
        ) is Some,
{
    let scores = city_scores(choices, query);
    lemma_city_scores(choices, query);
    scored_cities_are_offered_in_order(choices, scores, ranked);
    let places = choose|places: Seq<int>| are_offered(choices, scores, ranked, places);
    if ranked.contains(city) {
        let k = choose|k: int| 0 <= k < ranked.len() && ranked[k] == city;
        assert(ranked[k] == choices[places[k]]);
    }
    if choices.contains(city) {
        let x = choose|x: int| 0 <= x < choices.len() && choices[x] == city;
        assert(scores[x] == fuzzy_score_spec(city.city + ", "@ + city.country, query));
        if scores[x] is Some {
            let k = choose|k: int| 0 <= k < places.len() && places[k] == x;
            assert(ranked[k] == city);
        }
    }
}

} // verus!
