//! How a location is chosen: by its names, by a query, or by the user.
use crate::finder::{
    is_location_choice, is_ranking_of, named_cities, narrowed, pick_spec, ChoiceModel, Selector,
    StepModel,
};
use crate::input::{KeyCode, KeyEvent};
use crate::inventory::{is_city_list, CityModel, TargetModel};
use crate::unicode::lowercase_spec;
use vstd::prelude::*;
use vstd::string::*;

verus! {

/// Whether two texts are equal, case aside.
pub open spec fn same_word(a: Seq<char>, b: Seq<char>) -> bool {
    lowercase_spec(a) == lowercase_spec(b)
}

/// Whether a city has the names that were given.
pub open spec fn is_named(city: CityModel, country: Option<Seq<char>>, name: Option<Seq<char>>) -> bool {
    &&& country matches Some(wanted) ==> same_word(city.country, wanted)
    &&& name matches Some(wanted) ==> same_word(city.city, wanted)
}

proof fn lemma_named(list: Seq<CityModel>, by_country: bool, wanted: Seq<char>)
    ensures
        by_country ==> named_cities(list, by_country, wanted) == list.filter(
            |city: CityModel| same_word(city.country, wanted),
        ),
        !by_country ==> named_cities(list, by_country, wanted) == list.filter(
            |city: CityModel| same_word(city.city, wanted),
        ),
    decreases list.len(),
{
    reveal(Seq::filter);
    if list.len() > 0 {
        lemma_named(list.drop_last(), by_country, wanted);
    }
}

proof fn lemma_twice(list: Seq<CityModel>, country: Seq<char>, name: Seq<char>)
    ensures
        list.filter(|city: CityModel| same_word(city.country, country)).filter(
            |city: CityModel| same_word(city.city, name),
        ) == list.filter(|city: CityModel| is_named(city, Some(country), Some(name))),
    decreases list.len(),
{
    reveal(Seq::filter);
    if list.len() > 0 {
        lemma_twice(list.drop_last(), country, name);
        let first = |city: CityModel| same_word(city.country, country);
        let second = |city: CityModel| same_word(city.city, name);
        let before = list.drop_last().filter(first);
        if first(list.last()) {
            assert(before.push(list.last()).drop_last() =~= before);
        }
    }
}

proof fn lemma_same_filter(
    list: Seq<CityModel>,
    keep: spec_fn(CityModel) -> bool,
    other: spec_fn(CityModel) -> bool,
)
    requires
        forall|city: CityModel| #[trigger] keep(city) == other(city),
    ensures
        list.filter(keep) == list.filter(other),
{
    assert(keep =~= other);
}

/// A country and a city that are given leave exactly the cities of these names, case aside, in the
/// order of the list. Where names were given and none is left, there is an error.
pub proof fn names_narrow_the_list(
    list: Seq<CityModel>,
    country: Option<Seq<char>>,
    name: Option<Seq<char>>,
)
    ensures
        ({
            let left = list.filter(|city: CityModel| is_named(city, country, name));
            match narrowed(list, country, name) {
                Ok(found) => found == left && (left.len() > 0 || (country is None && name is None)),
                Err(_) => left.len() == 0 && (country is Some || name is Some),
            }
        }),
{
    let keep = |city: CityModel| is_named(city, country, name);
    match (country, name) {
        (Some(wanted), Some(called)) => {
            lemma_named(list, true, wanted);
            let by_country = list.filter(|city: CityModel| same_word(city.country, wanted));
            lemma_named(by_country, false, called);
            lemma_twice(list, wanted, called);
            assert(named_cities(by_country, false, called) == list.filter(keep));
            if by_country.len() == 0 {
                assert(by_country.filter(|city: CityModel| same_word(city.city, called)) =~= Seq::empty()) by {
                    reveal(Seq::filter);
                }
            }
        },
        (Some(wanted), None) => {
            lemma_named(list, true, wanted);
            lemma_same_filter(list, |city: CityModel| same_word(city.country, wanted), keep);
        },
        (None, Some(called)) => {
            lemma_named(list, false, called);
            lemma_same_filter(list, |city: CityModel| same_word(city.city, called), keep);
        },
        (None, None) => {
            lemma_all_kept(list, keep);
        },
    }
}

proof fn lemma_all_kept(list: Seq<CityModel>, keep: spec_fn(CityModel) -> bool)
    requires
        forall|city: CityModel| #[trigger] keep(city),
    ensures
        list.filter(keep) == list,
    decreases list.len(),
{
    reveal(Seq::filter);
    if list.len() > 0 {
        lemma_all_kept(list.drop_last(), keep);
        assert(list =~= list.drop_last().push(list.last()));
    }
}

/// One choice is taken, or else the one that the query fits; otherwise the user is asked with all the
/// choices, or there is an error where nobody can be asked.
pub proof fn clear_choice_is_taken(choices: Seq<CityModel>, ranked: Seq<CityModel>, interactive: bool)
    ensures
        match pick_spec(choices, ranked, interactive) {
            Ok(ChoiceModel::Chosen(city)) => choices == seq![city] || (choices.len() != 1 && ranked
                == seq![city]),
            Ok(ChoiceModel::Ask(list)) => list == choices && interactive && choices.len() != 1
                && ranked.len() != 1,
            Err(_) => !interactive && choices.len() != 1 && ranked.len() != 1,
        },
{
    if choices.len() == 1 {
        assert(choices =~= seq![choices[0]]);
    }
    if ranked.len() == 1 {
        assert(ranked =~= seq![ranked[0]]);
    }
}

/// Whether some server stands in the city, and the city has the names that were given.
pub open spec fn can_be_probed(
    targets: Seq<TargetModel>,
    city: CityModel,
    country: Option<Seq<char>>,
    name: Option<Seq<char>>,
) -> bool {
    &&& is_named(city, country, name)
    &&& exists|t: int|
        0 <= t < targets.len() && (#[trigger] targets[t]).country == city.country
            && targets[t].city == city.city
}

proof fn lemma_server_in_city(targets: Seq<TargetModel>, country: Seq<char>, city: Seq<char>, filter: Seq<char>)
    requires
        crate::inventory::city_count(targets, country, city, filter) > 0,
    ensures
        exists|t: int|
            0 <= t < targets.len() && (#[trigger] targets[t]).country == country && targets[t].city
                == city,
    decreases targets.len(),
{
    if targets.len() > 0 {
        let last = targets.len() - 1;
        if targets[last].country == country && targets[last].city == city {
        } else {
            lemma_server_in_city(targets.drop_last(), country, city, filter);
            let t = choose|t: int|
                0 <= t < targets.drop_last().len() && (
                #[trigger] targets.drop_last()[t]).country == country && targets.drop_last()[t].city
                    == city;
            assert(targets[t].country == country && targets[t].city == city);
        }
    }
}

/// A location that is chosen has a server and the names that were given; so has every location that the
/// user is asked about, and the user is only asked where somebody can answer.
pub proof fn chosen_location_has_servers(
    targets: Seq<TargetModel>,
    query: Seq<char>,
    country: Option<Seq<char>>,
    name: Option<Seq<char>>,
    interactive: bool,
    choice: Result<ChoiceModel, Seq<char>>,
)
    requires
        is_location_choice(targets, query, country, name, interactive, choice),
        targets.len() <= usize::MAX,
    ensures
        match choice {
            Ok(ChoiceModel::Chosen(city)) => can_be_probed(targets, city, country, name),
            Ok(ChoiceModel::Ask(list)) => interactive && forall|i: int|
                0 <= i < list.len() ==> can_be_probed(
                    targets,
                    #[trigger] list[i],
                    country,
                    name,
                ),
            Err(_) => true,
        },
{
    let (list, ranked) = choose|list: Seq<CityModel>, ranked: Seq<CityModel>|
        #![trigger is_city_list(targets, ""@, list), is_ranking_of(list, country, name, query, ranked)]
        is_city_list(targets, ""@, list) && is_ranking_of(list, country, name, query, ranked)
            && choice == (match narrowed(list, country, name) {
            Ok(left) => pick_spec(left, ranked, interactive),
            Err(message) => Err(message),
        });
    names_narrow_the_list(list, country, name);
    if let Ok(left) = narrowed(list, country, name) {
        assert forall|i: int| 0 <= i < left.len() implies can_be_probed(
            targets,
            #[trigger] left[i],
            country,
            name,
        ) by {
            broadcast use vstd::seq_lib::group_filter_ensures;

            let keep = |city: CityModel| is_named(city, country, name);
            assert(left == list.filter(keep));
            assert(keep(left[i]));
            assert(list.filter(keep).contains(left[i]));
            list.lemma_filter_contains_rev(keep, left[i]);
            let k = choose|k: int| 0 <= k < list.len() && list[k] == left[i];
            assert(list[k].count > 0);
            lemma_server_in_city(targets, list[k].country, list[k].city, ""@);
        }
        if ranked.len() == 1 {
            lemma_ranked(left, query, ranked, 0);
        }
    }
}

/// What is ranked was a choice.
proof fn lemma_ranked(
    choices: Seq<CityModel>,
    query: Seq<char>,
    ranked: Seq<CityModel>,
    i: int,
)
    requires
        crate::finder::is_ranking(choices, crate::finder::city_scores(choices, query), ranked),
        0 <= i < ranked.len(),
    ensures
        exists|k: int| 0 <= k < choices.len() && choices[k] == ranked[i],
{
    let scores = crate::finder::city_scores(choices, query);
    let items = crate::finder::scored(choices, scores);
    let order = choose|order: Seq<usize>| #[trigger]
        crate::order::is_stable_order(crate::finder::rank_keys(items), order) && ranked
            == order.map_values(|i: usize| items[i as int].1);
    assert(order[i] < items.len());
    lemma_scored_choice(choices, scores, order[i] as int);
}

proof fn lemma_scored_choice(choices: Seq<CityModel>, scores: Seq<Option<int>>, i: int)
    requires
        choices.len() == scores.len(),
        0 <= i < crate::finder::scored(choices, scores).len(),
    ensures
        exists|k: int|
            0 <= k < choices.len() && choices[k] == crate::finder::scored(choices, scores)[i].1,
    decreases choices.len(),
{
    let before = crate::finder::scored(choices.drop_last(), scores.drop_last());
    if i < before.len() {
        lemma_scored_choice(choices.drop_last(), scores.drop_last(), i);
        let k = choose|k: int|
            0 <= k < choices.drop_last().len() && choices.drop_last()[k] == before[i].1;
        assert(choices[k] == before[i].1);
    } else {
        assert(choices[choices.len() - 1] == choices.last());
    }
}

/// A key press without a modifier but for the shift key.
pub open spec fn plain(key: KeyEvent) -> bool {
    !key.modifiers.control && !key.modifiers.other
}

/// The selection stays on a match that is shown, of which there are six at most: the arrows move it by
/// one, and stop at the first and the last.
pub proof fn selection_stays_on_shown_matches(
    query: Seq<char>,
    selected: int,
    key: KeyEvent,
    matches: Seq<CityModel>,
)
    requires
        0 <= selected < 6,
        matches.len() == 0 ==> selected == 0,
        selected < matches.len() || matches.len() == 0,
    ensures
        ({
            let ((typed, next), step) = Selector::after_key((query, selected), key, matches);
            &&& 0 <= next < 6
            &&& next < matches.len() || next == 0
            &&& key.code == KeyCode::Down && selected + 1 < 6 && selected + 1 < matches.len() ==> next
                == selected + 1
            &&& key.code == KeyCode::Down && (selected == 5 || selected + 1 >= matches.len()) ==> next
                == selected
            &&& key.code == KeyCode::Up ==> next == (if selected == 0 {
                0
            } else {
                selected - 1
            })
            &&& key.code == KeyCode::Up || key.code == KeyCode::Down ==> typed == query && step
                == StepModel::Continue
        }),
{
}

/// Enter takes the match that is selected; only Esc and Ctrl-c cancel, and nothing else ends the
/// selection.
pub proof fn enter_takes_the_selected_match(
    query: Seq<char>,
    selected: int,
    key: KeyEvent,
    matches: Seq<CityModel>,
)
    requires
        0 <= selected < matches.len() || matches.len() == 0,
    ensures
        ({
            let (state, step) = Selector::after_key((query, selected), key, matches);
            &&& step is Chosen <==> key.code == KeyCode::Enter && matches.len() > 0
            &&& step is Chosen ==> step == StepModel::Chosen(matches[selected])
            &&& step is Cancelled <==> key.code == KeyCode::Esc || (key.code == KeyCode::Char('c')
                && key.modifiers.control)
            &&& step is Chosen || step is Cancelled ==> state == (query, selected)
        }),
{
}

/// What is typed goes to the end of the query and can be taken back; either starts over with the first
/// match.
pub proof fn typing_changes_the_query(
    query: Seq<char>,
    selected: int,
    key: KeyEvent,
    c: char,
    back: KeyEvent,
    matches: Seq<CityModel>,
)
    requires
        key.code == KeyCode::Char(c),
        plain(key),
        (c as u32) >= 32 && (c as u32) < 127 || (c as u32) > 159,
        back.code == KeyCode::Backspace,
    ensures
        Selector::after_key((query, selected), key, matches) == (
            (query.push(c), 0int),
            StepModel::Continue,
        ),
        Selector::after_key((query.push(c), selected), back, matches) == (
            (query, 0int),
            StepModel::Continue,
        ),
        Selector::after_key((Seq::empty(), selected), back, matches) == (
            (Seq::<char>::empty(), 0int),
            StepModel::Continue,
        ),
{
    assert(query.push(c).drop_last() =~= query);
    assert(!crate::text::is_control_spec(c));
}

} // verus!
