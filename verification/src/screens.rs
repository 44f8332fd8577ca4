//! What the screens do with keys and with the messages of a run.
use crate::app::{
    attempt_index, city_index, confirmed_in, exported_to, with_phase_of, without_probe, ActionModel,
    ActiveModel, AppModel, KeySource, RunEndReason, Screen,
};
use crate::input::{KeyCode, KeyEvent};
use crate::inventory::{city_servers, CityModel, TargetModel};
use crate::probing::{Attempt, WorkerMessage};
use crate::report::ProbeEvent;
use crate::scheduler::planned;
use vstd::prelude::*;
use vstd::string::*;

verus! {

/// The attempts that were confirmed.
pub open spec fn confirmed_ones(attempts: Seq<Attempt>) -> Seq<Attempt> {
    attempts.filter(|attempt: Attempt| attempt.outcome@ is Confirmed)
}

pub(crate) proof fn lemma_confirmed(attempts: Seq<Attempt>)
    ensures
        confirmed_in(attempts) == confirmed_ones(attempts).len(),
    decreases attempts.len(),
{
    reveal(Seq::filter);
    if attempts.len() > 0 {
        lemma_confirmed(attempts.drop_last());
    }
}

/// A run that ends is told by how it went: a fault first, then a cancellation, then whether as many
/// servers were confirmed as wanted. Its attempts stay, and nothing runs any more.
pub proof fn run_ends_as_it_went(app: AppModel, cancelled: bool, now: int)
    ensures
        ({
            let after = app.worker_told(WorkerMessage::Complete { cancelled }, now);
            &&& !after.running && !after.cancelling && after.active.len() == 0 && after.pacing == 0
            &&& after.attempts == app.attempts && after.planned_targets == app.planned_targets
            &&& after.options == app.options && after.exported_attempts == app.exported_attempts
            &&& after.run_end_reason == Some(
                if app.worker_fatal is Some {
                    RunEndReason::Failed
                } else if cancelled {
                    RunEndReason::Cancelled
                } else if confirmed_ones(app.attempts).len() >= app.options.desired {
                    RunEndReason::GoalReached
                } else {
                    RunEndReason::Exhausted
                },
            )
            &&& app.worker_fatal matches Some(error) ==> after.screen == Screen::Error && after.error
                == error
            &&& app.worker_fatal is None ==> after.screen == app.screen
            &&& app.probe_started matches Some(started) ==> (now >= started ==> after.probe_elapsed
                == Some(now - started))
        }),
{
    lemma_confirmed(app.attempts);
}

proof fn lemma_without(list: Seq<ActiveModel>, id: u64)
    ensures
        without_probe(list, id) == list.filter(|probe: ActiveModel| probe.id != id),
    decreases list.len(),
{
    reveal(Seq::filter);
    if list.len() > 0 {
        lemma_without(list.drop_last(), id);
    }
}

/// An attempt that ends is added to those before, and its probe, and no other, runs no longer.
pub proof fn ended_attempt_is_added(app: AppModel, attempt: Attempt, now: int)
    ensures
        ({
            let after = app.worker_told(WorkerMessage::Finished(attempt), now);
            &&& after.attempts == app.attempts.push(attempt)
            &&& after.active == app.active.filter(|probe: ActiveModel| probe.id != attempt.id)
            &&& after == (AppModel {
                attempts: after.attempts,
                active: after.active,
                status: after.status,
                ..app
            })
        }),
{
    lemma_without(app.active, attempt.id);
}

/// Whether the probe at position `k` is the first with its number.
pub open spec fn first_with_number(list: Seq<ActiveModel>, id: u64, k: int) -> bool {
    &&& 0 <= k < list.len() && list[k].id == id
    &&& forall|i: int| 0 <= i < k ==> (#[trigger] list[i]).id != id
}

proof fn lemma_phase_set(list: Seq<ActiveModel>, id: u64, phase: Seq<char>, k: int, i: int)
    requires
        first_with_number(list, id, k),
        0 <= i <= k,
    ensures
        with_phase_of(list, id, phase, i) == list.update(k, ActiveModel { phase, ..list[k] }),
    decreases k - i,
{
    if i < k {
        assert(list[i].id != id);
        lemma_phase_set(list, id, phase, k, i + 1);
    }
}

/// A notice of a probe shows the phase of that probe and leaves all others as they are.
pub proof fn notice_changes_its_probe(app: AppModel, id: u64, event: ProbeEvent, k: int, now: int)
    requires
        first_with_number(app.active, id, k),
    ensures
        ({
            let after = app.worker_told(WorkerMessage::Phase { id, event }, now);
            &&& after.active.len() == app.active.len()
            &&& after.active[k].phase == event.phase@ && after.active[k].id == id
            &&& after.active[k].target == app.active[k].target
            &&& forall|i: int|
                0 <= i < app.active.len() && i != k ==> #[trigger] after.active[i] == app.active[i]
            &&& after == (AppModel { active: after.active, ..app })
        }),
{
    lemma_phase_set(app.active, id, event.phase@, k, 0);
}

/// A change of the wanted confirmations, or of the candidates, goes as far as it may: there are from one
/// to ten confirmations, as many candidates as confirmations at least, and never more of either than
/// servers or than a hundred.
pub proof fn options_move_within_bounds(app: AppModel, delta: int)
    requires
        app.option_focus == 0 || app.option_focus == 1,
        1 <= app.options.desired <= app.options.maximum,
        app.options.desired <= 10,
        app.options.maximum <= app.selected_targets.len(),
        app.options.maximum <= 100,
    ensures
        ({
            let after = app.option_changed(delta);
            let n = app.selected_targets.len();
            let desired = after.options.desired;
            let maximum = after.options.maximum;
            &&& 1 <= desired <= maximum && maximum <= n && maximum <= 100 && desired <= 10
            &&& after.options.checks == app.options.checks
            &&& app.option_focus == 0 ==> {
                let wanted = app.options.desired + delta;
                &&& 1 <= wanted <= n && wanted <= 10 && wanted <= 100 ==> desired == wanted
                &&& wanted < 1 ==> desired == 1
                &&& wanted > n || wanted > 10 || wanted > 100 ==> desired == n || desired == 10
                    || desired == 100
                &&& maximum == (if app.options.maximum > desired {
                    app.options.maximum
                } else {
                    desired
                })
            }
            &&& app.option_focus == 1 ==> {
                let wanted = app.options.maximum + delta;
                &&& desired == app.options.desired
                &&& desired <= wanted <= n && wanted <= 100 ==> maximum == wanted
                &&& wanted < desired ==> maximum == desired
                &&& wanted > n || wanted > 100 ==> maximum == n || maximum == 100
            }
        }),
{
}

/// A city that is taken brings all its servers, up to twelve candidates and up to three wanted
/// confirmations.
pub proof fn taken_city_brings_its_servers(app: AppModel)
    requires
        0 <= app.selected_city < app.cities.len(),
    ensures
        ({
            let after = app.city_taken();
            let city = app.cities[app.selected_city];
            let n = after.selected_targets.len();
            &&& after.selected_targets == city_servers(app.inventory, city.country, city.city)
            &&& n == 0 ==> after.screen == Screen::Error
            &&& n > 0 ==> {
                &&& after.screen == Screen::ProbeSetup
                &&& after.options.maximum == (if n < 12 {
                    n as int
                } else {
                    12
                })
                &&& after.options.desired == (if n < 3 {
                    n as int
                } else {
                    3
                })
                &&& after.options.checks == app.options.checks
            }
            &&& after.inventory == app.inventory && after.cities == app.cities
        }),
{
}

/// Probes start where none run, the key is known and the options are within their bounds; then all that
/// was before is forgotten, and the first candidates of the city are planned, as many as asked for.
pub proof fn probes_start_afresh(app: AppModel, now: int)
    ensures
        ({
            let (after, action) = app.probes_begun(now);
            &&& action == ActionModel::StartProbes <==> !app.running && app.identity is Some && 1
                <= app.options.desired <= app.options.maximum && app.options.maximum
                <= app.selected_targets.len() && app.options.maximum <= 100
            &&& action == ActionModel::StartProbes ==> {
                &&& after.running && !after.cancelling && after.screen == Screen::Probing
                &&& after.attempts.len() == 0 && after.active.len() == 0
                &&& after.exported_attempts.len() == 0
                &&& after.planned_targets == planned(app.selected_targets, app.options.maximum)
                &&& after.plan_selected == 0 && after.worker_fatal is None
                &&& after.probe_started == Some(now) && after.probe_elapsed is None
                &&& after.run_end_reason is None
                &&& after.options == app.options && after.identity == app.identity
            }
            &&& action != ActionModel::StartProbes ==> after.attempts == app.attempts
                && after.running == app.running && after.planned_targets == app.planned_targets
        }),
{
}

/// The arrows move the selection in the plan by one, and stop at its ends; nothing else changes.
pub proof fn arrows_move_in_the_plan(app: AppModel)
    requires
        0 <= app.plan_selected < app.planned_targets.len(),
    ensures
        ({
            let down = app.key_probing(KeyCode::Down).0;
            let up = app.key_probing(KeyCode::Up).0;
            let last = app.planned_targets.len() - 1;
            &&& down == (AppModel { plan_selected: down.plan_selected, ..app })
            &&& up == (AppModel { plan_selected: up.plan_selected, ..app })
            &&& down.plan_selected == (if app.plan_selected < last {
                app.plan_selected + 1
            } else {
                last
            })
            &&& up.plan_selected == (if app.plan_selected > 0 {
                app.plan_selected - 1
            } else {
                0
            })
        }),
{
}

/// The arrows move the selection in the list of cities by one, and stop at its ends; nothing else
/// changes.
pub proof fn arrows_move_in_the_cities(app: AppModel, key: KeyEvent)
    requires
        0 <= app.selected_city < app.cities.len(),
        key.code == KeyCode::Down || key.code == KeyCode::Up,
    ensures
        ({
            let (after, action) = app.key_locations(key);
            &&& action == ActionModel::Nothing
            &&& after == (AppModel { selected_city: after.selected_city, ..app })
            &&& key.code == KeyCode::Down && app.selected_city + 1 < app.cities.len()
                ==> after.selected_city == app.selected_city + 1
            &&& key.code == KeyCode::Down && app.selected_city + 1 == app.cities.len()
                ==> after.selected_city == app.selected_city
            &&& key.code == KeyCode::Up && app.selected_city > 0 ==> after.selected_city
                == app.selected_city - 1
            &&& key.code == KeyCode::Up && app.selected_city == 0 ==> after.selected_city == 0
        }),
{
}

/// Whether the city at position `k` is the first of these names.
pub open spec fn first_named(list: Seq<CityModel>, city: CityModel, k: int) -> bool {
    &&& 0 <= k < list.len() && list[k].country == city.country && list[k].city == city.city
    &&& forall|i: int|
        0 <= i < k ==> !((#[trigger] list[i]).country == city.country && list[i].city == city.city)
}

proof fn lemma_city_found(list: Seq<CityModel>, city: CityModel, k: int, i: int)
    requires
        first_named(list, city, k),
        0 <= i <= k,
    ensures
        city_index(list, city.country, city.city, i) == k,
    decreases k - i,
{
    if i < k {
        assert(!(list[i].country == city.country && list[i].city == city.city));
        lemma_city_found(list, city, k, i + 1);
    }
}

/// A city that is selected stays selected, wherever another filter puts it.
pub proof fn selected_city_stays(app: AppModel, k: int)
    requires
        0 <= app.selected_city < app.cities.len(),
        first_named(app.with_cities().cities, app.cities[app.selected_city], k),
    ensures
        app.with_cities().selected_city == k,
{
    lemma_city_found(app.with_cities().cities, app.cities[app.selected_city], k, 0);
}

/// Whether the attempt at position `k` is the first at a server.
pub open spec fn first_attempt(attempts: Seq<Attempt>, target: TargetModel, k: int) -> bool {
    &&& 0 <= k < attempts.len() && attempts[k].target@ == target
    &&& forall|i: int| 0 <= i < k ==> (#[trigger] attempts[i]).target@ != target
}

pub(crate) proof fn lemma_attempt_found(attempts: Seq<Attempt>, target: TargetModel, k: int, i: int)
    requires
        first_attempt(attempts, target, k),
        0 <= i <= k,
    ensures
        attempt_index(attempts, target, i) == k,
    decreases k - i,
{
    if i < k {
        assert(attempts[i].target@ != target);
        lemma_attempt_found(attempts, target, k, i + 1);
    }
}

/// Whether an attempt was exported.
pub open spec fn was_exported(app: AppModel, id: u64) -> bool {
    exists|i: int| 0 <= i < app.exported_attempts.len() && (#[trigger] app.exported_attempts[i]).0 == id
}

pub(crate) proof fn lemma_exported(list: Seq<(u64, Seq<char>)>, id: u64)
    ensures
        exported_to(list, id) is Some <==> exists|i: int|
            0 <= i < list.len() && (#[trigger] list[i]).0 == id,
    decreases list.len(),
{
    if list.len() > 0 {
        let before = list.drop_last();
        lemma_exported(before, id);
        if list.last().0 == id {
            assert(list[list.len() - 1].0 == id);
        } else {
            if exists|i: int| 0 <= i < list.len() && (#[trigger] list[i]).0 == id {
                let i = choose|i: int| 0 <= i < list.len() && (#[trigger] list[i]).0 == id;
                assert(before[i].0 == id);
            }
            if exists|i: int| 0 <= i < before.len() && (#[trigger] before[i]).0 == id {
                let i = choose|i: int| 0 <= i < before.len() && (#[trigger] before[i]).0 == id;
                assert(list[i].0 == id);
            }
        }
    }
}

/// An export is made exactly where the attempt at the selected server was confirmed and not exported
/// before, and the key and the directory are known. Asking changes nothing but the status.
pub proof fn selected_confirmed_attempt_is_exported(app: AppModel, k: int)
    requires
        0 <= app.plan_selected < app.planned_targets.len(),
        first_attempt(app.attempts, app.planned_targets[app.plan_selected], k),
    ensures
        ({
            let (after, action) = app.export_asked();
            &&& action == ActionModel::Export <==> app.attempts[k].outcome@ is Confirmed
                && !was_exported(app, app.attempts[k].id) && app.identity is Some
                && app.validated_export_directory is Some
            &&& after == (AppModel { status: after.status, ..app })
            &&& app.selected_attempt() == k
        }),
{
    lemma_attempt_found(app.attempts, app.planned_targets[app.plan_selected], k, 0);
    lemma_exported(app.exported_attempts, app.attempts[k].id);
}

/// What was exported is remembered, so that it is not exported again; what failed is not.
pub proof fn export_is_remembered(app: AppModel, id: u64, shown: Seq<char>, error: Seq<char>)
    ensures
        exported_to(app.exported(id, Ok(shown)).exported_attempts, id) == Some(shown),
        app.exported(id, Ok(shown)).exported_paths == app.exported_paths.push(shown),
        forall|other: u64|
            other != id ==> #[trigger] exported_to(
                app.exported(id, Ok(shown)).exported_attempts,
                other,
            ) == exported_to(app.exported_attempts, other),
        app.exported(id, Err(error)).exported_attempts == app.exported_attempts,
        app.exported(id, Err(error)).exported_paths == app.exported_paths,
{
    let list = app.exported_attempts.push((id, shown));
    assert(list.drop_last() =~= app.exported_attempts);
}

/// What is typed on the first screen can be taken back, and goes where the focus is and nowhere else.
pub proof fn typing_goes_where_the_focus_is(app: AppModel, c: char)
    requires
        !crate::app::ends_with_private_key_spec(app.key_path.push(c)),
        !crate::app::ends_with_private_key_spec(app.export_directory.push(c)),
    ensures
        ({
            let after = app.typed(c);
            &&& app.setup_focus == 1 && app.key_source == KeySource::File ==> after.key_path
                == app.key_path.push(c) && after.erased().key_path == app.key_path
            &&& !(app.setup_focus == 1 && app.key_source == KeySource::File) ==> after.key_path
                == app.key_path && app.erased().key_path == app.key_path
            &&& app.setup_focus == 2 ==> after.export_directory == app.export_directory.push(c)
                && after.erased().export_directory == app.export_directory
            &&& app.setup_focus != 2 ==> after.export_directory == app.export_directory
                && app.erased().export_directory == app.export_directory
            &&& !(app.setup_focus == 1 && app.key_source == KeySource::PasteOnce) ==> after.pasted_key
                == app.pasted_key && app.erased().pasted_key == app.pasted_key
            &&& after.key_path != app.key_path || after.pasted_key != app.pasted_key ==> after.identity
                is None
            &&& after.export_directory != app.export_directory ==> after.validated_export_directory
                is None
        }),
{
    assert(app.key_path.push(c).drop_last() =~= app.key_path);
    assert(app.export_directory.push(c).drop_last() =~= app.export_directory);
}

/// Ctrl-c quits on every screen, and `q` on every screen where it is not text; nothing else does.
pub proof fn only_quit_keys_quit(app: AppModel, key: KeyEvent, now: int)
    requires
        !app.should_quit,
    ensures
        ({
            let editing = app.screen == Screen::Setup || (app.screen == Screen::Locations
                && app.location_focus == 0);
            let bare = !key.modifiers.shift && !key.modifiers.control && !key.modifiers.other;
            app.key_handled(key, now).0.should_quit <==> (key.code == KeyCode::Char('c')
                && key.modifiers.control) || (key.code == KeyCode::Char('q') && bare && !editing)
        }),
{
}

/// A run that goes on is cancelled once by Esc, and is only left when it is over.
pub proof fn escape_cancels_once(app: AppModel)
    ensures
        ({
            let (after, action) = app.key_probing(KeyCode::Esc);
            &&& action == ActionModel::CancelProbes <==> app.running && !app.cancelling
            &&& app.running ==> after.cancelling && after.screen == app.screen && after.running
            &&& !app.running ==> after.screen == Screen::ProbeSetup
            &&& after.attempts == app.attempts && after.active == app.active
        }),
{
}

/// An inventory that was loaded or fetched replaces the one before and is shown; a loaded one is told
/// apart from a fetched one, and only the fetched one is stored.
pub proof fn inventory_replaces_the_old(app: AppModel, targets: Seq<TargetModel>, fetched_at: int)
    requires
        targets.len() > 0,
    ensures
        ({
            let (loaded, first) = app.cache_loaded(Some((targets, fetched_at)));
            let (fetched, second) = app.inventory_fetched(targets, fetched_at);
            &&& loaded.inventory == targets && fetched.inventory == targets
            &&& loaded.inventory_fetched_at == Some(fetched_at)
            &&& fetched.inventory_fetched_at == Some(fetched_at)
            &&& loaded.inventory_from_cache && !fetched.inventory_from_cache
            &&& loaded.screen == Screen::Locations && fetched.screen == Screen::Locations
            &&& first == ActionModel::Nothing && second == ActionModel::StoreCache
            &&& !fetched.loading && !fetched.refreshing_inventory
            &&& loaded.cities == crate::inventory::city_list(targets, app.filter)
            &&& fetched.cities == crate::inventory::city_list(targets, app.filter)
        }),
{
}

} // verus!
