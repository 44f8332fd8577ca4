//! The interactive screens: what is shown, and what each key, message and result changes.
use crate::identity::{holds_whitespace, is_one_word, trimmed_word_is_itself, KeyError, RunIdentity};
use crate::input::{
    quit_requested, quit_requested_spec, refresh_requested, refresh_requested_spec, text_modifier,
    text_modifier_spec, KeyCode, KeyEvent,
};
use crate::inventory::{
    cities, city_list, city_models, city_servers, city_targets, copy_targets, lemma_city_list,
    lemma_sorted_list, target_models, CachedInventory, CityModel, CitySummary, NordTarget,
    TargetModel,
};
use crate::keys::{
    all_key_characters, base64_text, is_key_character_spec, key_spec, x25519_public, SecretText,
};
use crate::net::{same_endpoint, Ipv4Addr};
use crate::order::{text_before, text_less};
use crate::paths::{shown_path, shown_path_spec, WrittenPath};
use crate::probing::{
    checks_of, Attempt, AttemptOutcome, CheckMode, FullCheckPlan, ProbeOptions, WorkerMessage,
};
use crate::scheduler::{lemma_probing_order, plan_candidates, planned};
use crate::text::{
    chars_of, decimal, decimal_spec, same_text, string_views, trim, trim_spec, without_last,
};
use crate::time::Duration;
use vstd::prelude::*;
use vstd::string::*;

verus! {

/// Which screen is shown.
#[derive(Clone, Copy, Debug, PartialEq, Eq, Structural)]
pub enum Screen {
    Setup,
    Loading,
    Locations,
    ProbeSetup,
    Probing,
    Error,
}

/// Why a run of probes is over.
#[derive(Clone, Copy, Debug, PartialEq, Eq, Structural)]
pub enum RunEndReason {
    GoalReached,
    Exhausted,
    Cancelled,
    Failed,
}

/// Where the private key comes from.
#[derive(Clone, Copy, Debug, PartialEq, Eq, Structural)]
pub enum KeySource {
    File,
    PasteOnce,
}

/// Whether a character can stand in a key: base64 characters can.
pub fn is_key_character(character: char) -> (r: bool)
    ensures
        r == is_key_character_spec(character),
{
    ('a' <= character && character <= 'z') || ('A' <= character && character <= 'Z') || ('0'
        <= character && character <= '9') || character == '+' || character == '/' || character
        == '='
}

fn all_key_chars(chars: &[char]) -> (r: bool)
    ensures
        r == all_key_characters(chars@),
{
    let mut i: usize = 0;
    while i < chars.len()
        invariant
            i <= chars@.len(),
            forall|k: int| 0 <= k < i ==> is_key_character_spec(#[trigger] chars@[k]),
        decreases chars@.len() - i,
    {
        if !is_key_character(chars[i]) {
            assert(!is_key_character_spec(chars@[i as int]));
            return false;
        }
        i = i + 1;
    }
    true
}

/// The length of a key in base64.
pub const KEY_TEXT_LENGTH: usize = 44;

/// Whether a text has the shape of a key: so many base64 characters.
pub open spec fn is_key_shaped_spec(s: Seq<char>) -> bool {
    s.len() == KEY_TEXT_LENGTH && all_key_characters(s)
}

/// Whether a text has the shape of a key.
pub fn is_key_shaped(value: &str) -> (r: bool)
    ensures
        r == is_key_shaped_spec(value@),
{
    let chars = chars_of(value);
    chars.len() == KEY_TEXT_LENGTH && all_key_chars(&chars)
}

/// Whether a text is a private key: it has the shape of one, and denotes one.
pub open spec fn looks_like_private_key_spec(s: Seq<char>) -> bool {
    is_key_shaped_spec(s) && key_spec(s) is Some
}

proof fn lemma_key_is_word(s: Seq<char>)
    requires
        all_key_characters(s),
    ensures
        trim_spec(s) == s,
        s.len() > 0 ==> is_one_word(s),
{
    assert(!holds_whitespace(s)) by {
        assert forall|i: int| 0 <= i < s.len() implies !crate::text::is_whitespace_spec(
            #[trigger] s[i],
        ) by {
            assert(is_key_character_spec(s[i]));
        }
    }
    trimmed_word_is_itself(s);
}

/// Whether a text is a private key.
pub fn looks_like_private_key(value: &str) -> (r: bool)
    ensures
        r == looks_like_private_key_spec(value@),
{
    if !is_key_shaped(value) {
        return false;
    }
    proof {
        lemma_key_is_word(value@);
    }
    RunIdentity::parse(value).is_ok()
}

/// Whether a text ends with a private key.
pub open spec fn ends_with_private_key_spec(s: Seq<char>) -> bool {
    s.len() >= KEY_TEXT_LENGTH && looks_like_private_key_spec(s.skip(s.len() - KEY_TEXT_LENGTH))
}

/// Whether a text ends with a private key.
pub fn ends_with_private_key(value: &str) -> (r: bool)
    ensures
        r == ends_with_private_key_spec(value@),
{
    let length: usize = value.unicode_len();
    if length < KEY_TEXT_LENGTH {
        return false;
    }
    let end = value.substring_char(length - KEY_TEXT_LENGTH, length);
    assert(end@ =~= value@.skip(value@.len() - KEY_TEXT_LENGTH));
    looks_like_private_key(end)
}

/// The position of the city in the list from `i` on, or zero where it is not there.
pub open spec fn city_index(
    cities: Seq<CityModel>,
    country: Seq<char>,
    city: Seq<char>,
    i: int,
) -> int
    decreases cities.len() - i,
{
    if i >= cities.len() {
        0
    } else if cities[i].country == country && cities[i].city == city {
        i
    } else {
        city_index(cities, country, city, i + 1)
    }
}

/// The position of the city that was selected before, or zero.
pub fn selected_city_index(cities: &[CitySummary], previous: Option<&(String, String)>) -> (r:
    usize)
    ensures
        r == (match previous {
            Some(names) => city_index(city_models(cities@), names.0@, names.1@, 0),
            None => 0,
        }),
        r < cities@.len() || r == 0,
{
    let (country, city) = match previous {
        Some(names) => (names.0.as_str(), names.1.as_str()),
        None => {
            return 0;
        },
    };
    let ghost models = city_models(cities@);
    let mut i: usize = 0;
    while i < cities.len()
        invariant
            i <= cities@.len(),
            models == city_models(cities@),
            city_index(models, country@, city@, 0) == city_index(
                models,
                country@,
                city@,
                i as int,
            ),
            previous matches Some(names) && names.0@ == country@ && names.1@ == city@,
        decreases cities@.len() - i,
    {
        assert(models[i as int] == cities@[i as int]@);
        if same_text(cities[i].country.as_str(), country) && same_text(
            cities[i].city.as_str(),
            city,
        ) {
            return i;
        }
        i = i + 1;
    }
    0
}

/// An age for the user, in its two largest units.
pub open spec fn format_age_spec(seconds: int) -> Seq<char> {
    if seconds < 60 {
        decimal_spec(seconds) + "s"@
    } else if seconds < 3600 {
        decimal_spec(seconds / 60) + "m"@
    } else if seconds < 86400 {
        decimal_spec(seconds / 3600) + "h "@ + decimal_spec(seconds / 60 % 60) + "m"@
    } else {
        decimal_spec(seconds / 86400) + "d "@ + decimal_spec(seconds / 3600 % 24) + "h"@
    }
}

/// An age for the user, in its two largest units.
pub fn format_age(age: Duration) -> (r: String)
    ensures
        r@ == format_age_spec(age.nanos() / 1_000_000_000),
{
    let seconds: u64 = age.secs();
    if seconds < 60 {
        let mut r = decimal(seconds);
        r.append("s");
        r
    } else if seconds < 3600 {
        let mut r = decimal(seconds / 60);
        r.append("m");
        r
    } else if seconds < 86400 {
        let mut r = decimal(seconds / 3600);
        r.append("h ");
        r.append(decimal(seconds / 60 % 60).as_str());
        r.append("m");
        r
    } else {
        let mut r = decimal(seconds / 86400);
        r.append("d ");
        r.append(decimal(seconds / 3600 % 24).as_str());
        r.append("h");
        r
    }
}

/// The number within the bounds that is nearest to `n`.
pub open spec fn clamped(n: int, minimum: int, maximum: int) -> int {
    if n < minimum {
        minimum
    } else if n > maximum {
        maximum
    } else {
        n
    }
}

/// The value changed by `delta`, within the bounds.
pub fn adjust(value: usize, delta: isize, minimum: usize, maximum: usize) -> (r: usize)
    requires
        minimum <= maximum,
    ensures
        r == clamped(value + delta, minimum as int, maximum as int),
{
    let moved: usize = moved_by(value, delta);
    if moved < minimum {
        minimum
    } else if moved > maximum {
        maximum
    } else {
        moved
    }
}

fn moved_by(value: usize, delta: isize) -> (r: usize)
    ensures
        r == clamped(value + delta, 0, usize::MAX as int),
{
    if delta >= 0 {
        let up: usize = delta as usize;
        if up > usize::MAX - value {
            usize::MAX
        } else {
            value + up
        }
    } else {
        let down: usize = (-(delta + 1)) as usize;
        if down >= value {
            0
        } else {
            value - down - 1
        }
    }
}

/// The selected position changed by `delta`, within a list of the given length.
pub fn move_plan_selection(current: usize, delta: isize, length: usize) -> (r: usize)
    ensures
        r == clamped(
            current + delta,
            0,
            if length > 0 {
                length - 1
            } else {
                0
            },
        ),
{
    let moved: usize = moved_by(current, delta);
    let last: usize = if length > 0 {
        length - 1
    } else {
        0
    };
    if moved > last {
        last
    } else {
        moved
    }
}

/// A probe that runs.
#[derive(Debug)]
pub struct ActiveProbe {
    pub id: u64,
    pub target: NordTarget,
    pub phase: String,
}

/// A probe that runs, as a mathematical value.
#[verifier::ext_equal]
pub struct ActiveModel {
    pub id: u64,
    pub target: TargetModel,
    pub phase: Seq<char>,
}

impl View for ActiveProbe {
    type V = ActiveModel;

    open spec fn view(&self) -> ActiveModel {
        ActiveModel { id: self.id, target: self.target@, phase: self.phase@ }
    }
}

/// The running probes as mathematical values.
pub open spec fn active_models(list: Seq<ActiveProbe>) -> Seq<ActiveModel> {
    Seq::new(list.len(), |i: int| list[i]@)
}

/// The file that an attempt was exported to.
#[derive(Debug)]
pub struct ExportedAttempt {
    pub id: u64,
    pub path: String,
}

/// The exported attempts as numbers and paths.
pub open spec fn exported_models(list: Seq<ExportedAttempt>) -> Seq<(u64, Seq<char>)> {
    Seq::new(list.len(), |i: int| (list[i].id, list[i].path@))
}

/// The interactive screens. Times are counted from one moment of the program's own; the time of
/// the inventory is counted from 1970.
pub struct App {
    pub screen: Screen,
    pub setup_focus: usize,
    pub key_source: KeySource,
    pub key_path: SecretText,
    pub pasted_key: SecretText,
    pub reveal_pasted_key: bool,
    pub export_directory: SecretText,
    pub inventory: Vec<NordTarget>,
    pub filter: String,
    pub cities: Vec<CitySummary>,
    pub selected_city: usize,
    pub location_focus: usize,
    pub selected_targets: Vec<NordTarget>,
    pub option_focus: usize,
    pub options: ProbeOptions,
    pub active: Vec<ActiveProbe>,
    pub attempts: Vec<Attempt>,
    pub planned_targets: Vec<NordTarget>,
    pub plan_selected: usize,
    pub pacing: Duration,
    pub status: String,
    pub error: String,
    pub should_quit: bool,
    pub cancelling: bool,
    pub probe_started: Option<Duration>,
    pub probe_elapsed: Option<Duration>,
    pub run_end_reason: Option<RunEndReason>,
    pub inventory_fetched_at: Option<Duration>,
    pub inventory_from_cache: bool,
    pub exported_paths: Vec<String>,
    pub exported_attempts: Vec<ExportedAttempt>,
    pub identity: Option<RunIdentity>,
    /// The resolved export directory, once it was checked.
    pub validated_export_directory: Option<Vec<u8>>,
    /// The resolved export directory while the key is still to be checked.
    pub pending_directory: Option<Vec<u8>>,
    /// Whether the inventory is being fetched.
    pub loading: bool,
    pub refreshing_inventory: bool,
    /// Whether probes are running.
    pub running: bool,
    pub worker_fatal: Option<String>,
}

/// What a run is to do, as a mathematical value.
#[verifier::ext_equal]
pub struct OptionsModel {
    pub desired: int,
    pub maximum: int,
    pub checks: Option<(Seq<Ipv4Addr>, Seq<Seq<char>>, Ipv4Addr)>,
}

/// The view of what a run is to do.
pub open spec fn options_model(options: ProbeOptions) -> OptionsModel {
    OptionsModel {
        desired: options.desired_confirmed as int,
        maximum: options.max_candidates as int,
        checks: checks_of(options.mode),
    }
}

/// The interactive screens, as a mathematical value.
#[verifier::ext_equal]
pub struct AppModel {
    pub screen: Screen,
    pub setup_focus: int,
    pub key_source: KeySource,
    pub key_path: Seq<char>,
    pub pasted_key: Seq<char>,
    pub reveal_pasted_key: bool,
    pub export_directory: Seq<char>,
    pub inventory: Seq<TargetModel>,
    pub filter: Seq<char>,
    pub cities: Seq<CityModel>,
    pub selected_city: int,
    pub location_focus: int,
    pub selected_targets: Seq<TargetModel>,
    pub option_focus: int,
    pub options: OptionsModel,
    pub active: Seq<ActiveModel>,
    pub attempts: Seq<Attempt>,
    pub planned_targets: Seq<TargetModel>,
    pub plan_selected: int,
    pub pacing: int,
    pub status: Seq<char>,
    pub error: Seq<char>,
    pub should_quit: bool,
    pub cancelling: bool,
    pub probe_started: Option<int>,
    pub probe_elapsed: Option<int>,
    pub run_end_reason: Option<RunEndReason>,
    pub inventory_fetched_at: Option<int>,
    pub inventory_from_cache: bool,
    pub exported_paths: Seq<Seq<char>>,
    pub exported_attempts: Seq<(u64, Seq<char>)>,
    pub identity: Option<(Seq<char>, Seq<char>)>,
    pub validated_export_directory: Option<Seq<u8>>,
    pub pending_directory: Option<Seq<u8>>,
    pub loading: bool,
    pub refreshing_inventory: bool,
    pub running: bool,
    pub worker_fatal: Option<Seq<char>>,
}

/// The nanoseconds of an optional time.
pub open spec fn option_nanos(time: Option<Duration>) -> Option<int> {
    match time {
        Some(time) => Some(time.nanos()),
        None => None,
    }
}

/// The bytes of an optional path.
pub open spec fn option_bytes(path: Option<Vec<u8>>) -> Option<Seq<u8>> {
    match path {
        Some(path) => Some(path@),
        None => None,
    }
}

impl View for App {
    type V = AppModel;

    open spec fn view(&self) -> AppModel {
        AppModel {
            screen: self.screen,
            setup_focus: self.setup_focus as int,
            key_source: self.key_source,
            key_path: self.key_path@,
            pasted_key: self.pasted_key@,
            reveal_pasted_key: self.reveal_pasted_key,
            export_directory: self.export_directory@,
            inventory: target_models(self.inventory@),
            filter: self.filter@,
            cities: city_models(self.cities@),
            selected_city: self.selected_city as int,
            location_focus: self.location_focus as int,
            selected_targets: target_models(self.selected_targets@),
            option_focus: self.option_focus as int,
            options: options_model(self.options),
            active: active_models(self.active@),
            attempts: self.attempts@,
            planned_targets: target_models(self.planned_targets@),
            plan_selected: self.plan_selected as int,
            pacing: self.pacing.nanos(),
            status: self.status@,
            error: self.error@,
            should_quit: self.should_quit,
            cancelling: self.cancelling,
            probe_started: option_nanos(self.probe_started),
            probe_elapsed: option_nanos(self.probe_elapsed),
            run_end_reason: self.run_end_reason,
            inventory_fetched_at: option_nanos(self.inventory_fetched_at),
            inventory_from_cache: self.inventory_from_cache,
            exported_paths: string_views(self.exported_paths@),
            exported_attempts: exported_models(self.exported_attempts@),
            identity: match self.identity {
                Some(identity) => Some((identity.private_key_spec(), identity.public_key_spec())),
                None => None,
            },
            validated_export_directory: option_bytes(self.validated_export_directory),
            pending_directory: option_bytes(self.pending_directory),
            loading: self.loading,
            refreshing_inventory: self.refreshing_inventory,
            running: self.running,
            worker_fatal: match self.worker_fatal {
                Some(error) => Some(error@),
                None => None,
            },
        }
    }
}

/// What the screens need from outside.
#[derive(Debug, PartialEq, Eq)]
pub enum AppAction {
    Nothing,
    /// The export directory resolved.
    ResolveDirectory(String),
    /// The key file read.
    ReadKeyFile(String),
    /// The stored inventory loaded.
    LoadCache,
    /// The remote inventory fetched.
    FetchInventory,
    /// The fetch in progress given up.
    DropFetch,
    /// The fetched inventory stored.
    StoreCache,
    /// The planned probes started.
    StartProbes,
    /// The running probes cancelled.
    CancelProbes,
    /// The selected attempt exported.
    Export,
}

/// What the screens need from outside, as a mathematical value.
#[verifier::ext_equal]
pub enum ActionModel {
    Nothing,
    ResolveDirectory(Seq<char>),
    ReadKeyFile(Seq<char>),
    LoadCache,
    FetchInventory,
    DropFetch,
    StoreCache,
    StartProbes,
    CancelProbes,
    Export,
}

impl View for AppAction {
    type V = ActionModel;

    open spec fn view(&self) -> ActionModel {
        match self {
            AppAction::Nothing => ActionModel::Nothing,
            AppAction::ResolveDirectory(path) => ActionModel::ResolveDirectory(path@),
            AppAction::ReadKeyFile(path) => ActionModel::ReadKeyFile(path@),
            AppAction::LoadCache => ActionModel::LoadCache,
            AppAction::FetchInventory => ActionModel::FetchInventory,
            AppAction::DropFetch => ActionModel::DropFetch,
            AppAction::StoreCache => ActionModel::StoreCache,
            AppAction::StartProbes => ActionModel::StartProbes,
            AppAction::CancelProbes => ActionModel::CancelProbes,
            AppAction::Export => ActionModel::Export,
        }
    }
}

/// Both keys of the identity in the contents of a key file, or the message on what is wrong.
pub open spec fn identity_of(contents: Seq<char>) -> Result<(Seq<char>, Seq<char>), Seq<char>> {
    if !is_one_word(contents) {
        Err("the private key must contain exactly one base64 value and no other content"@)
    } else {
        match key_spec(trim_spec(contents)) {
            Some(key) => Ok((trim_spec(contents), base64_text(x25519_public(key)))),
            None => Err(
                "invalid WireGuard private key: "@
                    + crate::config::ConfigErrorModel::InvalidKey("PrivateKey"@).message(),
            ),
        }
    }
}

/// The smaller of two numbers.
pub open spec fn smaller(a: int, b: int) -> int {
    if a < b {
        a
    } else {
        b
    }
}

/// How many attempts were confirmed.
pub open spec fn confirmed_in(attempts: Seq<Attempt>) -> int
    decreases attempts.len(),
{
    if attempts.len() == 0 {
        0
    } else {
        confirmed_in(attempts.drop_last()) + if attempts.last().outcome@ is Confirmed {
            1int
        } else {
            0
        }
    }
}

/// The position of the first attempt from `i` on at the server, or their number.
pub open spec fn attempt_index(attempts: Seq<Attempt>, target: TargetModel, i: int) -> int
    decreases attempts.len() - i,
{
    if i >= attempts.len() || attempts[i].target@ == target {
        i
    } else {
        attempt_index(attempts, target, i + 1)
    }
}

/// The path of the exported attempt with the given number, the latest if there are more.
pub open spec fn exported_to(list: Seq<(u64, Seq<char>)>, id: u64) -> Option<Seq<char>>
    decreases list.len(),
{
    if list.len() == 0 {
        None
    } else if list.last().0 == id {
        Some(list.last().1)
    } else {
        exported_to(list.drop_last(), id)
    }
}

/// The running probes, with the phase of one changed: the first with the number.
pub open spec fn with_phase_of(list: Seq<ActiveModel>, id: u64, phase: Seq<char>, i: int) -> Seq<
    ActiveModel,
>
    decreases list.len() - i,
{
    if i >= list.len() {
        list
    } else if list[i].id == id {
        list.update(i, ActiveModel { phase, ..list[i] })
    } else {
        with_phase_of(list, id, phase, i + 1)
    }
}

/// The running probes without those with the number.
pub open spec fn without_probe(list: Seq<ActiveModel>, id: u64) -> Seq<ActiveModel>
    decreases list.len(),
{
    if list.len() == 0 {
        Seq::empty()
    } else {
        let before = without_probe(list.drop_last(), id);
        if list.last().id == id {
            before
        } else {
            before.push(list.last())
        }
    }
}

/// The first screen, with nothing entered.
pub open spec fn first_screen() -> AppModel {
    AppModel {
        screen: Screen::Setup,
        setup_focus: 0,
        key_source: KeySource::File,
        key_path: Seq::empty(),
        pasted_key: Seq::empty(),
        reveal_pasted_key: false,
        export_directory: "./nordprobe-exports"@,
        inventory: Seq::empty(),
        filter: Seq::empty(),
        cities: Seq::empty(),
        selected_city: 0,
        location_focus: 0,
        selected_targets: Seq::empty(),
        option_focus: 0,
        options: OptionsModel { desired: 3, maximum: 12, checks: None },
        active: Seq::empty(),
        attempts: Seq::empty(),
        planned_targets: Seq::empty(),
        plan_selected: 0,
        pacing: 0,
        status: Seq::empty(),
        error: Seq::empty(),
        should_quit: false,
        cancelling: false,
        probe_started: None,
        probe_elapsed: None,
        run_end_reason: None,
        inventory_fetched_at: None,
        inventory_from_cache: false,
        exported_paths: Seq::empty(),
        exported_attempts: Seq::empty(),
        identity: None,
        validated_export_directory: None,
        pending_directory: None,
        loading: false,
        refreshing_inventory: false,
        running: false,
        worker_fatal: None,
    }
}

/// The most confirmations that can be wanted.
pub const MAX_CONFIRMATIONS: usize = 10;

impl AppModel {
    /// Whether positions are within their lists, and, where probes are set up or run, no more
    /// confirmations are wanted than candidates or than may be, and no more candidates than there
    /// are servers.
    pub open spec fn wf(self) -> bool {
        &&& 0 <= self.setup_focus < 3
        &&& 0 <= self.location_focus < 2
        &&& 0 <= self.option_focus < 3
        &&& 0 <= self.selected_city
        &&& self.selected_city < self.cities.len() || self.selected_city == 0
        &&& (self.screen == Screen::ProbeSetup || self.screen == Screen::Probing)
            ==> self.options_hold()
    }

    /// Whether the options are such as the user can choose.
    pub open spec fn options_hold(self) -> bool {
        self.bounds_hold() && self.options.desired <= MAX_CONFIRMATIONS
    }

    /// Whether the wanted confirmations, the candidates and the servers bound each other.
    pub open spec fn bounds_hold(self) -> bool {
        1 <= self.options.desired <= self.options.maximum <= smaller(
            self.selected_targets.len() as int,
            100,
        )
    }

    /// The screens with an error.
    pub open spec fn failed(self, error: Seq<char>) -> AppModel {
        AppModel { error, screen: Screen::Error, ..self }
    }

    /// The screens with another status.
    pub open spec fn with_status(self, status: Seq<char>) -> AppModel {
        AppModel { status, ..self }
    }

    /// The screens with the cities of the filter; the selected one stays selected.
    pub open spec fn with_cities(self) -> AppModel {
        let cities = city_list(self.inventory, self.filter);
        AppModel {
            cities,
            selected_city: if self.selected_city < self.cities.len() {
                let previous = self.cities[self.selected_city];
                city_index(cities, previous.country, previous.city, 0)
            } else {
                0
            },
            ..self
        }
    }

    /// The screens while the inventory is fetched.
    pub open spec fn fetching(self, refreshing: bool) -> (AppModel, ActionModel) {
        (
            AppModel {
                screen: Screen::Loading,
                refreshing_inventory: refreshing,
                loading: true,
                status: if refreshing {
                    "Refreshing public Nord inventory and server loads"@
                } else {
                    "Fetching public Nord server inventory"@
                },
                ..self
            },
            ActionModel::FetchInventory,
        )
    }

    /// The screens after the other source of keys was chosen. A pasted key is forgotten.
    pub open spec fn with_other_source(self) -> AppModel {
        match self.key_source {
            KeySource::File => AppModel {
                key_source: KeySource::PasteOnce,
                identity: None,
                ..self
            },
            KeySource::PasteOnce => AppModel {
                key_source: KeySource::File,
                pasted_key: Seq::empty(),
                reveal_pasted_key: false,
                identity: None,
                ..self
            },
        }
    }

    /// The screens after a character was typed on the first. A private key that is typed where it
    /// does not belong is removed.
    pub open spec fn typed(self, c: char) -> AppModel {
        if self.setup_focus == 1 && self.key_source == KeySource::File {
            if ends_with_private_key_spec(self.key_path.push(c)) {
                AppModel {
                    key_path: Seq::empty(),
                    status: "Private key removed from file path; use PASTE ONCE"@,
                    identity: None,
                    ..self
                }
            } else {
                AppModel { key_path: self.key_path.push(c), identity: None, ..self }
            }
        } else if self.setup_focus == 1 {
            if is_key_character_spec(c) {
                AppModel { pasted_key: self.pasted_key.push(c), identity: None, ..self }
            } else {
                self
            }
        } else if self.setup_focus == 2 {
            if ends_with_private_key_spec(self.export_directory.push(c)) {
                AppModel {
                    export_directory: Seq::empty(),
                    status: "Private key removed from export path; use PASTE ONCE"@,
                    validated_export_directory: None,
                    ..self
                }
            } else {
                AppModel {
                    export_directory: self.export_directory.push(c),
                    validated_export_directory: None,
                    ..self
                }
            }
        } else {
            self
        }
    }

    /// The screens after the last character was erased on the first.
    pub open spec fn erased(self) -> AppModel {
        if self.setup_focus == 1 && self.key_source == KeySource::File {
            AppModel { key_path: without_last(self.key_path), identity: None, ..self }
        } else if self.setup_focus == 1 {
            AppModel { pasted_key: without_last(self.pasted_key), identity: None, ..self }
        } else if self.setup_focus == 2 {
            AppModel {
                export_directory: without_last(self.export_directory),
                validated_export_directory: None,
                ..self
            }
        } else {
            self
        }
    }

    /// The screens after a key on the first.
    pub open spec fn key_setup(self, key: KeyEvent) -> (AppModel, ActionModel) {
        match key.code {
            KeyCode::Tab => (
                AppModel { setup_focus: (self.setup_focus + 1) % 3, ..self },
                ActionModel::Nothing,
            ),
            KeyCode::Left | KeyCode::Right => (
                if self.setup_focus == 0 {
                    self.with_other_source()
                } else {
                    self
                },
                ActionModel::Nothing,
            ),
            KeyCode::F(n) => (
                if n == 2 && self.setup_focus == 1 && self.key_source == KeySource::PasteOnce {
                    AppModel { reveal_pasted_key: !self.reveal_pasted_key, ..self }
                } else {
                    self
                },
                ActionModel::Nothing,
            ),
            KeyCode::Char(c) => (
                if c == ' ' && self.setup_focus == 0 {
                    self.with_other_source()
                } else if text_modifier_spec(key.modifiers) {
                    self.typed(c)
                } else {
                    self
                },
                ActionModel::Nothing,
            ),
            KeyCode::Backspace => (self.erased(), ActionModel::Nothing),
            KeyCode::Enter => self.validating(),
            _ => (self, ActionModel::Nothing),
        }
    }

    /// The screens when the first is to be left: the directory is to be resolved, unless it was.
    pub open spec fn validating(self) -> (AppModel, ActionModel) {
        match self.validated_export_directory {
            Some(directory) => AppModel {
                pending_directory: Some(directory),
                ..self
            }.checking_key(),
            None => if trim_spec(self.export_directory).len() == 0 {
                (self.failed("Enter an export directory"@), ActionModel::Nothing)
            } else {
                (self, ActionModel::ResolveDirectory(trim_spec(self.export_directory)))
            },
        }
    }

    /// The screens after the directory was resolved, or not.
    pub open spec fn directory_resolved(self, result: Result<Seq<u8>, Seq<char>>) -> (
        AppModel,
        ActionModel,
    ) {
        match result {
            Ok(directory) => AppModel {
                pending_directory: Some(directory),
                ..self
            }.checking_key(),
            Err(error) => (self.failed(error), ActionModel::Nothing),
        }
    }

    /// The screens when the key is to be checked. A key that was pasted and checked before is
    /// still there.
    pub open spec fn checking_key(self) -> (AppModel, ActionModel) {
        match self.key_source {
            KeySource::File => if trim_spec(self.key_path).len() == 0 {
                (
                    self.failed("Enter the path to an existing WireGuard private-key file"@),
                    ActionModel::Nothing,
                )
            } else {
                (self, ActionModel::ReadKeyFile(trim_spec(self.key_path)))
            },
            KeySource::PasteOnce => if self.pasted_key.len() > 0 {
                self.identity_checked(identity_of(self.pasted_key))
            } else if self.identity is Some {
                (
                    AppModel {
                        validated_export_directory: self.pending_directory,
                        pending_directory: None,
                        ..self
                    },
                    ActionModel::LoadCache,
                )
            } else {
                (
                    self.failed("Paste a WireGuard private key before continuing"@),
                    ActionModel::Nothing,
                )
            },
        }
    }

    /// The screens after the key was checked: an accepted key replaces the pasted text, and the
    /// stored inventory is to be loaded.
    pub open spec fn identity_checked(
        self,
        result: Result<(Seq<char>, Seq<char>), Seq<char>>,
    ) -> (AppModel, ActionModel) {
        match result {
            Ok(identity) => (
                AppModel {
                    identity: Some(identity),
                    pasted_key: Seq::empty(),
                    reveal_pasted_key: false,
                    export_directory: trim_spec(self.export_directory),
                    validated_export_directory: self.pending_directory,
                    pending_directory: None,
                    ..self
                },
                ActionModel::LoadCache,
            ),
            Err(error) => (self.failed(error), ActionModel::Nothing),
        }
    }

    /// The screens after the key file was read, or not.
    pub open spec fn key_file_read(self, contents: Result<Seq<char>, Seq<char>>) -> (
        AppModel,
        ActionModel,
    ) {
        match contents {
            Ok(contents) => self.identity_checked(identity_of(contents)),
            Err(error) => (
                self.failed(
                    "could not read key file "@ + trim_spec(self.key_path) + ": "@ + error,
                ),
                ActionModel::Nothing,
            ),
        }
    }

    /// The screens after the stored inventory was loaded, was not there, or could not be used.
    pub open spec fn cache_loaded(self, result: Option<(Seq<TargetModel>, int)>) -> (
        AppModel,
        ActionModel,
    ) {
        match result {
            Some((targets, fetched_at)) => (
                AppModel {
                    status: "Loaded "@ + decimal_spec(targets.len() as int)
                        + " cached candidates"@,
                    screen: Screen::Locations,
                    ..AppModel {
                        inventory: targets,
                        inventory_fetched_at: Some(fetched_at),
                        inventory_from_cache: true,
                        ..self
                    }.with_cities()
                },
                ActionModel::Nothing,
            ),
            None => self.fetching(false),
        }
    }

    /// The screens after the inventory was fetched.
    pub open spec fn inventory_fetched(self, targets: Seq<TargetModel>, fetched_at: int) -> (
        AppModel,
        ActionModel,
    ) {
        let done = AppModel { loading: false, refreshing_inventory: false, ..self };
        if targets.len() == 0 {
            (
                done.failed("Nord inventory contained no usable candidates"@),
                ActionModel::Nothing,
            )
        } else {
            (
                AppModel {
                    screen: Screen::Locations,
                    ..AppModel {
                        inventory: targets,
                        inventory_fetched_at: Some(fetched_at),
                        inventory_from_cache: false,
                        ..done
                    }.with_cities()
                },
                ActionModel::StoreCache,
            )
        }
    }

    /// The screens after the fetched inventory was stored, or not.
    pub open spec fn cache_stored(self, warning: Option<Seq<char>>) -> AppModel {
        self.with_status(
            match warning {
                Some(warning) => "Fetched inventory; cache warning: "@ + warning,
                None => "Fetched current Nord inventory and refreshed cached loads"@,
            },
        )
    }

    /// The screens after the inventory could not be fetched: an older one is still good.
    pub open spec fn fetch_failed(self, error: Option<Seq<char>>) -> AppModel {
        let done = AppModel { loading: false, refreshing_inventory: false, ..self };
        if self.refreshing_inventory && self.inventory.len() > 0 {
            AppModel {
                screen: Screen::Locations,
                status: match error {
                    Some(error) => "Refresh failed; using existing inventory: "@ + error,
                    None => {
                        "Refresh failed; the inventory worker stopped. Using existing inventory."@
                    },
                },
                ..done
            }
        } else {
            done.failed(
                match error {
                    Some(error) => error,
                    None => "inventory worker disconnected before returning a result"@,
                },
            )
        }
    }

    /// The screens after a key while the inventory is fetched.
    pub open spec fn key_loading(self, key: KeyEvent) -> (AppModel, ActionModel) {
        if key.code == KeyCode::Esc {
            (
                AppModel {
                    loading: false,
                    screen: if self.refreshing_inventory && self.inventory.len() > 0 {
                        Screen::Locations
                    } else {
                        Screen::Setup
                    },
                    refreshing_inventory: false,
                    ..self
                },
                ActionModel::DropFetch,
            )
        } else {
            (self, ActionModel::Nothing)
        }
    }

    /// The screens after the selected city was taken.
    pub open spec fn city_taken(self) -> AppModel {
        if self.selected_city < self.cities.len() {
            let city = self.cities[self.selected_city];
            let targets = city_servers(self.inventory, city.country, city.city);
            let taken = AppModel { selected_targets: targets, ..self };
            if targets.len() == 0 {
                taken.failed("the selected city has no usable candidates"@)
            } else {
                let maximum = smaller(smaller(targets.len() as int, 100), 12);
                AppModel {
                    options: OptionsModel {
                        maximum,
                        desired: smaller(maximum, 3),
                        ..self.options
                    },
                    screen: Screen::ProbeSetup,
                    ..taken
                }
            }
        } else {
            self
        }
    }

    /// The screens after a key on the list of cities.
    pub open spec fn key_locations(self, key: KeyEvent) -> (AppModel, ActionModel) {
        if refresh_requested_spec(key) {
            self.fetching(true)
        } else {
            (
                match key.code {
                    KeyCode::Tab => AppModel {
                        location_focus: (self.location_focus + 1) % 2,
                        ..self
                    },
                    KeyCode::Char(c) => if self.location_focus == 0 && text_modifier_spec(
                        key.modifiers,
                    ) {
                        AppModel { filter: self.filter.push(c), ..self }.with_cities()
                    } else {
                        self
                    },
                    KeyCode::Backspace => if self.location_focus == 0 {
                        AppModel { filter: without_last(self.filter), ..self }.with_cities()
                    } else {
                        self
                    },
                    KeyCode::Down => AppModel {
                        selected_city: smaller(
                            self.selected_city + 1,
                            if self.cities.len() > 0 {
                                self.cities.len() - 1
                            } else {
                                0
                            },
                        ),
                        ..self
                    },
                    KeyCode::Up => AppModel {
                        selected_city: if self.selected_city > 0 {
                            self.selected_city - 1
                        } else {
                            0
                        },
                        ..self
                    },
                    KeyCode::Enter => self.city_taken(),
                    KeyCode::Esc => AppModel { screen: Screen::Setup, ..self },
                    _ => self,
                },
                ActionModel::Nothing,
            )
        }
    }

    /// The data checks that are usual.
    pub open spec fn usual_checks() -> Option<(Seq<Ipv4Addr>, Seq<Seq<char>>, Ipv4Addr)> {
        Some(
            (
                seq![(Ipv4Addr { a: 1, b: 1, c: 1, d: 1 })],
                seq!["example.com"@],
                Ipv4Addr { a: 103, b: 86, c: 96, d: 100 },
            ),
        )
    }

    /// The screens with the other mode: the usual data checks, or none.
    pub open spec fn with_other_mode(self) -> AppModel {
        AppModel {
            options: OptionsModel {
                checks: match self.options.checks {
                    None => Self::usual_checks(),
                    Some(_) => None,
                },
                ..self.options
            },
            ..self
        }
    }

    /// The screens after the focused option was changed. The wanted confirmations push the
    /// candidates up, and the candidates stay above them.
    pub open spec fn option_changed(self, delta: int) -> AppModel {
        let available = clamped(self.selected_targets.len() as int, 1, 100);
        if self.option_focus == 0 {
            let desired = clamped(
                self.options.desired + delta,
                1,
                smaller(available, MAX_CONFIRMATIONS as int),
            );
            AppModel {
                options: OptionsModel {
                    desired,
                    maximum: smaller(
                        if self.options.maximum > desired {
                            self.options.maximum
                        } else {
                            desired
                        },
                        available,
                    ),
                    ..self.options
                },
                ..self
            }
        } else if self.option_focus == 1 {
            AppModel {
                options: OptionsModel {
                    maximum: clamped(
                        self.options.maximum + delta,
                        self.options.desired,
                        available,
                    ),
                    ..self.options
                },
                ..self
            }
        } else {
            self.with_other_mode()
        }
    }

    /// The screens after probes were started, or why they cannot be.
    pub open spec fn probes_begun(self, now: int) -> (AppModel, ActionModel) {
        if self.running {
            (
                self.with_status("Wait for the current run to finish cancelling"@),
                ActionModel::Nothing,
            )
        } else if self.identity is None {
            (
                self.failed("the validated run identity is no longer available"@),
                ActionModel::Nothing,
            )
        } else if !self.bounds_hold() {
            (
                self.failed("probe option bounds are inconsistent with available candidates"@),
                ActionModel::Nothing,
            )
        } else {
            (
                AppModel {
                    attempts: Seq::empty(),
                    active: Seq::empty(),
                    exported_attempts: Seq::empty(),
                    planned_targets: planned(self.selected_targets, self.options.maximum),
                    plan_selected: 0,
                    cancelling: false,
                    worker_fatal: None,
                    status: "Starting probes"@,
                    probe_started: Some(now),
                    probe_elapsed: None,
                    run_end_reason: None,
                    running: true,
                    screen: Screen::Probing,
                    ..self
                },
                ActionModel::StartProbes,
            )
        }
    }

    /// The screens after a key where probes are set up.
    pub open spec fn key_probe_setup(self, code: KeyCode, now: int) -> (AppModel, ActionModel) {
        match code {
            KeyCode::Enter => self.probes_begun(now),
            _ => (
                match code {
                    KeyCode::Tab => AppModel {
                        option_focus: (self.option_focus + 1) % 3,
                        ..self
                    },
                    KeyCode::Up => self.option_changed(1),
                    KeyCode::Down => self.option_changed(-1),
                    KeyCode::Left | KeyCode::Right => if self.option_focus == 2 {
                        self.with_other_mode()
                    } else {
                        self
                    },
                    KeyCode::Esc => AppModel { screen: Screen::Locations, ..self },
                    _ => self,
                },
                ActionModel::Nothing,
            ),
        }
    }

    /// The position of the attempt at the selected server, or the number of attempts.
    pub open spec fn selected_attempt(self) -> int {
        if 0 <= self.plan_selected < self.planned_targets.len() {
            attempt_index(self.attempts, self.planned_targets[self.plan_selected], 0)
        } else {
            self.attempts.len() as int
        }
    }

    /// The screens after the user asked for an export, which only a confirmed attempt gets, and
    /// only once.
    pub open spec fn export_asked(self) -> (AppModel, ActionModel) {
        let i = self.selected_attempt();
        if i >= self.attempts.len() {
            (
                self.with_status("The selected candidate has not completed"@),
                ActionModel::Nothing,
            )
        } else if !(self.attempts[i].outcome@ is Confirmed) {
            (
                self.with_status("Only a selected CONFIRMED candidate can be exported"@),
                ActionModel::Nothing,
            )
        } else if exported_to(self.exported_attempts, self.attempts[i].id) is Some {
            (
                self.with_status(
                    "Already exported "@ + exported_to(
                        self.exported_attempts,
                        self.attempts[i].id,
                    ).unwrap(),
                ),
                ActionModel::Nothing,
            )
        } else if self.identity is None {
            (
                self.with_status("Export failed: validated run identity is unavailable"@),
                ActionModel::Nothing,
            )
        } else if self.validated_export_directory is None {
            (
                self.with_status("Export failed: validated export directory is unavailable"@),
                ActionModel::Nothing,
            )
        } else {
            (self, ActionModel::Export)
        }
    }

    /// The screens after an attempt was exported to the path that the user sees, or not.
    pub open spec fn exported(self, id: u64, result: Result<Seq<char>, Seq<char>>) -> AppModel {
        match result {
            Ok(shown) => AppModel {
                status: "Exported "@ + shown,
                exported_paths: self.exported_paths.push(shown),
                exported_attempts: self.exported_attempts.push((id, shown)),
                ..self
            },
            Err(error) => self.with_status("Export failed: "@ + error),
        }
    }

    /// The screens after a key while probes run, or have run.
    pub open spec fn key_probing(self, code: KeyCode) -> (AppModel, ActionModel) {
        match code {
            KeyCode::Esc => if self.running && !self.cancelling {
                (
                    AppModel {
                        cancelling: true,
                        pacing: 0,
                        status: "Cancelling: waiting for active attempts to finish"@,
                        ..self
                    },
                    ActionModel::CancelProbes,
                )
            } else if !self.running {
                (AppModel { screen: Screen::ProbeSetup, ..self }, ActionModel::Nothing)
            } else {
                (self, ActionModel::Nothing)
            },
            KeyCode::Up => (self.plan_moved(-1), ActionModel::Nothing),
            KeyCode::Down => (self.plan_moved(1), ActionModel::Nothing),
            KeyCode::Char(c) => if c == 'e' && !self.cancelling {
                self.export_asked()
            } else {
                (self, ActionModel::Nothing)
            },
            _ => (self, ActionModel::Nothing),
        }
    }

    /// The screens with the selection in the plan moved.
    pub open spec fn plan_moved(self, delta: int) -> AppModel {
        AppModel {
            plan_selected: clamped(
                self.plan_selected + delta,
                0,
                if self.planned_targets.len() > 0 {
                    self.planned_targets.len() - 1
                } else {
                    0
                },
            ),
            ..self
        }
    }

    /// The screens after a key.
    pub open spec fn key_handled(self, key: KeyEvent, now: int) -> (AppModel, ActionModel) {
        if quit_requested_spec(
            key,
            self.screen == Screen::Setup || (self.screen == Screen::Locations
                && self.location_focus == 0),
        ) {
            (AppModel { should_quit: true, ..self }, ActionModel::Nothing)
        } else {
            match self.screen {
                Screen::Setup => self.key_setup(key),
                Screen::Loading => self.key_loading(key),
                Screen::Locations => self.key_locations(key),
                Screen::ProbeSetup => self.key_probe_setup(key.code, now),
                Screen::Probing => self.key_probing(key.code),
                Screen::Error => (
                    if key.code == KeyCode::Esc {
                        AppModel { screen: Screen::Setup, ..self }
                    } else {
                        self
                    },
                    ActionModel::Nothing,
                ),
            }
        }
    }

    /// The screens after something was pasted. A private key is only taken where one belongs.
    pub open spec fn pasted(self, value: Seq<char>) -> AppModel {
        let text = trim_spec(value);
        if self.screen != Screen::Setup {
            self
        } else if looks_like_private_key_spec(text) && !(self.setup_focus == 1 && self.key_source
            == KeySource::PasteOnce) {
            self.with_status("That paste is a private key; switch Key source to PASTE ONCE"@)
        } else if self.setup_focus == 1 && self.key_source == KeySource::File {
            AppModel { key_path: text, identity: None, ..self }
        } else if self.setup_focus == 1 {
            if !all_key_characters(text) {
                self.with_status(
                    "Paste rejected: a WireGuard key contains only base64 characters"@,
                )
            } else {
                AppModel {
                    pasted_key: text,
                    identity: None,
                    status: "Private key pasted; press Enter to load it into memory"@,
                    ..self
                }
            }
        } else if self.setup_focus == 2 {
            AppModel { export_directory: text, validated_export_directory: None, ..self }
        } else {
            self
        }
    }

    /// How long the run has taken at the given time, if it has been started.
    pub open spec fn run_time(self, now: int) -> Option<int> {
        match self.probe_started {
            Some(started) => Some(
                if now >= started {
                    now - started
                } else {
                    0
                },
            ),
            None => None,
        }
    }

    /// Whether as many servers were confirmed as wanted.
    pub open spec fn goal_reached(self) -> bool {
        confirmed_in(self.attempts) >= self.options.desired
    }

    /// The screens after the run was completed, cancelled or not.
    pub open spec fn run_completed(self, cancelled: bool, now: int) -> AppModel {
        let done = AppModel {
            probe_elapsed: self.run_time(now),
            run_end_reason: Some(
                if self.worker_fatal is Some {
                    RunEndReason::Failed
                } else if cancelled {
                    RunEndReason::Cancelled
                } else if self.goal_reached() {
                    RunEndReason::GoalReached
                } else {
                    RunEndReason::Exhausted
                },
            ),
            running: false,
            active: Seq::empty(),
            pacing: 0,
            cancelling: false,
            worker_fatal: None,
            ..self
        };
        if self.worker_fatal is Some {
            done.failed(self.worker_fatal.unwrap())
        } else if cancelled {
            done.with_status(
                "Cancelled after "@ + decimal_spec(self.attempts.len() as int)
                    + " completed attempts"@,
            )
        } else {
            done.with_status(
                "Complete: "@ + decimal_spec(confirmed_in(self.attempts)) + " confirmed, "@
                    + decimal_spec(self.attempts.len() as int) + " completed"@,
            )
        }
    }

    /// The screens after a message of the run.
    pub open spec fn worker_told(self, message: WorkerMessage, now: int) -> AppModel {
        match message {
            WorkerMessage::Started { id, target } => AppModel {
                pacing: 0,
                active: self.active.push(
                    ActiveModel { id, target: target@, phase: "starting"@ },
                ),
                ..self
            },
            WorkerMessage::Phase { id, event } => AppModel {
                active: with_phase_of(self.active, id, event.phase@, 0),
                ..self
            },
            WorkerMessage::Finished(attempt) => {
                let attempts = self.attempts.push(attempt);
                AppModel {
                    active: without_probe(self.active, attempt.id),
                    attempts,
                    status: if self.cancelling {
                        self.status
                    } else {
                        decimal_spec(confirmed_in(attempts)) + " confirmed toward goal "@
                            + decimal_spec(self.options.desired)
                    },
                    ..self
                }
            },
            WorkerMessage::Pacing(duration) => if self.cancelling {
                self
            } else {
                AppModel { pacing: duration.nanos(), ..self }
            },
            WorkerMessage::Fatal(error) => AppModel {
                worker_fatal: Some(error@),
                status: error@,
                ..self
            },
            WorkerMessage::Complete { cancelled } => self.run_completed(cancelled, now),
        }
    }

    /// The screens after the run went away without a word.
    pub open spec fn worker_lost(self, now: int) -> AppModel {
        AppModel {
            probe_elapsed: self.run_time(now),
            run_end_reason: Some(RunEndReason::Failed),
            running: false,
            active: Seq::empty(),
            cancelling: false,
            ..self
        }.failed("probe coordinator disconnected before completion"@)
    }
}

fn seconds_text(text: &str, n: usize, tail: &str) -> (r: String)
    ensures
        r@ == text@ + decimal_spec(n as int) + tail@,
{
    let mut r = text.to_string();
    r.append(decimal(n as u64).as_str());
    r.append(tail);
    r
}

fn two_texts(a: &str, b: &str) -> (r: String)
    ensures
        r@ == a@ + b@,
{
    let mut r = a.to_string();
    r.append(b);
    r
}

impl App {
    /// Whether the identity, if there is one, is a checked key with its public key.
    pub open spec fn identity_ok(&self) -> bool {
        self.identity matches Some(identity) ==> identity.wf()
    }

    /// What holds of the screens at all times.
    pub open spec fn wf(&self) -> bool {
        self@.wf() && self.identity_ok()
    }

    /// The first screen, with nothing entered.
    pub fn new() -> (r: App)
        ensures
            r.wf(),
            r@ == first_screen(),
    {
        let app = App {
            screen: Screen::Setup,
            setup_focus: 0,
            key_source: KeySource::File,
            key_path: SecretText::new(String::new()),
            pasted_key: SecretText::new(String::new()),
            reveal_pasted_key: false,
            export_directory: SecretText::from_text("./nordprobe-exports"),
            inventory: Vec::new(),
            filter: String::new(),
            cities: Vec::new(),
            selected_city: 0,
            location_focus: 0,
            selected_targets: Vec::new(),
            option_focus: 0,
            options: ProbeOptions {
                desired_confirmed: 3,
                max_candidates: 12,
                mode: CheckMode::HandshakeOnly,
            },
            active: Vec::new(),
            attempts: Vec::new(),
            planned_targets: Vec::new(),
            plan_selected: 0,
            pacing: Duration::zero(),
            status: String::new(),
            error: String::new(),
            should_quit: false,
            cancelling: false,
            probe_started: None,
            probe_elapsed: None,
            run_end_reason: None,
            inventory_fetched_at: None,
            inventory_from_cache: false,
            exported_paths: Vec::new(),
            exported_attempts: Vec::new(),
            identity: None,
            validated_export_directory: None,
            pending_directory: None,
            loading: false,
            refreshing_inventory: false,
            running: false,
            worker_fatal: None,
        };
        proof {
            reveal_strlit("");
            assert(app@.key_path =~= Seq::empty());
            assert(app@.pasted_key =~= Seq::empty());
            assert(app@.filter =~= Seq::empty());
            assert(app@.status =~= Seq::empty());
            assert(app@.error =~= Seq::empty());
            assert(app@.inventory =~= Seq::empty());
            assert(app@.cities =~= Seq::empty());
            assert(app@.selected_targets =~= Seq::empty());
            assert(app@.active =~= Seq::empty());
            assert(app@.attempts =~= Seq::empty());
            assert(app@.planned_targets =~= Seq::empty());
            assert(app@.exported_paths =~= Seq::empty());
            assert(app@.exported_attempts =~= Seq::empty());
        }
        app
    }

    fn fail(&mut self, error: String)
        ensures
            old(self).identity_ok() ==> final(self).identity_ok(),
            final(self)@ == old(self)@.failed(error@),
    {
        self.error = error;
        self.screen = Screen::Error;
    }

    fn refresh_cities(&mut self)
        ensures
            old(self).identity_ok() ==> final(self).identity_ok(),
            final(self)@ == old(self)@.with_cities(),
            final(self).selected_city < final(self).cities@.len() || final(self).selected_city == 0,
    {
        let list = cities(&self.inventory, self.filter.as_str());
        proof {
            lemma_city_list(
                target_models(self.inventory@),
                self.filter@,
                city_models(list@),
            );
        }
        let selected: usize = if self.selected_city < self.cities.len() {
            assert(self@.cities[self.selected_city as int] == self.cities@[self.selected_city as int]@);
            let previous = &self.cities[self.selected_city];
            let names = (
                previous.country.as_str().to_string(),
                previous.city.as_str().to_string(),
            );
            selected_city_index(&list, Some(&names))
        } else {
            0
        };
        self.cities = list;
        self.selected_city = selected;
    }

    fn load_inventory(&mut self, refreshing: bool) -> (r: AppAction)
        ensures
            old(self).identity_ok() ==> final(self).identity_ok(),
            (final(self)@, r@) == old(self)@.fetching(refreshing),
    {
        self.screen = Screen::Loading;
        self.refreshing_inventory = refreshing;
        self.status = if refreshing {
            "Refreshing public Nord inventory and server loads".to_string()
        } else {
            "Fetching public Nord server inventory".to_string()
        };
        self.loading = true;
        AppAction::FetchInventory
    }

    /// Changes the source of keys. A pasted key is wiped.
    pub fn toggle_key_source(&mut self)
        ensures
            old(self).identity_ok() ==> final(self).identity_ok(),
            final(self)@ == old(self)@.with_other_source(),
    {
        match self.key_source {
            KeySource::File => {
                self.key_source = KeySource::PasteOnce;
            },
            KeySource::PasteOnce => {
                self.pasted_key.clear();
                self.reveal_pasted_key = false;
                self.key_source = KeySource::File;
            },
        }
        self.identity = None;
        assert(old(self).key_source == KeySource::PasteOnce ==> self.pasted_key@ =~= Seq::empty());
    }

    fn type_character(&mut self, c: char)
        requires
            old(self)@.setup_focus < 3,
        ensures
            old(self).identity_ok() ==> final(self).identity_ok(),
            final(self)@ == old(self)@.typed(c),
    {
        if self.setup_focus == 1 {
            if self.key_source == KeySource::File {
                self.key_path.push(c);
                if ends_with_private_key(self.key_path.as_str()) {
                    self.key_path.clear();
                    assert(self.key_path@ =~= Seq::empty());
                    self.status = "Private key removed from file path; use PASTE ONCE".to_string();
                }
                self.identity = None;
            } else if is_key_character(c) {
                self.pasted_key.push(c);
                self.identity = None;
            }
        } else if self.setup_focus == 2 {
            self.export_directory.push(c);
            if ends_with_private_key(self.export_directory.as_str()) {
                self.export_directory.clear();
                assert(self.export_directory@ =~= Seq::empty());
                self.status = "Private key removed from export path; use PASTE ONCE".to_string();
            }
            self.validated_export_directory = None;
        }
    }

    fn erase_character(&mut self)
        ensures
            old(self).identity_ok() ==> final(self).identity_ok(),
            final(self)@ == old(self)@.erased(),
    {
        if self.setup_focus == 1 {
            if self.key_source == KeySource::File {
                self.key_path.pop();
            } else {
                self.pasted_key.pop();
            }
            self.identity = None;
        } else if self.setup_focus == 2 {
            self.export_directory.pop();
            self.validated_export_directory = None;
        }
    }

    /// Takes a key on the first screen.
    pub fn key_setup(&mut self, key: KeyEvent) -> (r: AppAction)
        requires
            old(self)@.wf(),
        ensures
            old(self).identity_ok() ==> final(self).identity_ok(),
            (final(self)@, r@) == old(self)@.key_setup(key),
    {
        match key.code {
            KeyCode::Tab => {
                self.setup_focus = (self.setup_focus + 1) % 3;
            },
            KeyCode::Left | KeyCode::Right => {
                if self.setup_focus == 0 {
                    self.toggle_key_source();
                }
            },
            KeyCode::F(n) => {
                if n == 2 && self.setup_focus == 1 && self.key_source == KeySource::PasteOnce {
                    self.reveal_pasted_key = !self.reveal_pasted_key;
                }
            },
            KeyCode::Char(c) => {
                if c == ' ' && self.setup_focus == 0 {
                    self.toggle_key_source();
                } else if text_modifier(key.modifiers) {
                    self.type_character(c);
                }
            },
            KeyCode::Backspace => {
                self.erase_character();
            },
            KeyCode::Enter => {
                return self.validate_setup();
            },
            _ => {},
        }
        AppAction::Nothing
    }

    fn validate_setup(&mut self) -> (r: AppAction)
        ensures
            old(self).identity_ok() ==> final(self).identity_ok(),
            (final(self)@, r@) == old(self)@.validating(),
    {
        let directory = match &self.validated_export_directory {
            Some(directory) => Some(copy_bytes(directory)),
            None => None,
        };
        match directory {
            Some(directory) => {
                self.pending_directory = Some(directory);
                self.check_key()
            },
            None => {
                let path = trim(self.export_directory.as_str());
                if path.is_empty() {
                    self.fail("Enter an export directory".to_string());
                    return AppAction::Nothing;
                }
                AppAction::ResolveDirectory(path.to_string())
            },
        }
    }

    /// Takes the resolved export directory, or why it could not be resolved.
    pub fn directory_resolved(&mut self, result: Result<Vec<u8>, String>) -> (r: AppAction)
        ensures
            old(self).wf() ==> final(self).wf(),
            old(self).identity_ok() ==> final(self).identity_ok(),
            (final(self)@, r@) == old(self)@.directory_resolved(
                match result {
                    Ok(directory) => Ok(directory@),
                    Err(error) => Err(error@),
                },
            ),
    {
        proof {
            if self@.wf() {
                results_keep_bounds(self@);
            }
        }
        match result {
            Ok(directory) => {
                self.pending_directory = Some(directory);
                self.check_key()
            },
            Err(error) => {
                self.fail(error);
                AppAction::Nothing
            },
        }
    }

    fn check_key(&mut self) -> (r: AppAction)
        ensures
            old(self).identity_ok() ==> final(self).identity_ok(),
            (final(self)@, r@) == old(self)@.checking_key(),
    {
        match self.key_source {
            KeySource::File => {
                let path = trim(self.key_path.as_str());
                if path.is_empty() {
                    self.fail(
                        "Enter the path to an existing WireGuard private-key file".to_string(),
                    );
                    return AppAction::Nothing;
                }
                AppAction::ReadKeyFile(path.to_string())
            },
            KeySource::PasteOnce => {
                if !self.pasted_key.is_empty() {
                    let result = RunIdentity::parse(self.pasted_key.as_str());
                    return self.take_identity(result);
                }
                if self.identity.is_some() {
                    let directory = self.pending_directory.take();
                    self.validated_export_directory = directory;
                    return AppAction::LoadCache;
                }
                self.fail("Paste a WireGuard private key before continuing".to_string());
                AppAction::Nothing
            },
        }
    }

    fn take_identity(&mut self, result: Result<RunIdentity, KeyError>) -> (r: AppAction)
        requires
            result matches Ok(identity) ==> identity.wf(),
        ensures
            old(self).identity_ok() ==> final(self).identity_ok(),
            (final(self)@, r@) == old(self)@.identity_checked(
                match result {
                    Ok(identity) => Ok(
                        (identity.private_key_spec(), identity.public_key_spec()),
                    ),
                    Err(error) => Err(error.message_spec()),
                },
            ),
    {
        match result {
            Ok(identity) => {
                self.identity = Some(identity);
                self.pasted_key.clear();
                assert(self.pasted_key@ =~= Seq::empty());
                self.reveal_pasted_key = false;
                let trimmed = SecretText::from_text(trim(self.export_directory.as_str()));
                self.export_directory = trimmed;
                let directory = self.pending_directory.take();
                self.validated_export_directory = directory;
                AppAction::LoadCache
            },
            Err(error) => {
                self.fail(error.message());
                AppAction::Nothing
            },
        }
    }

    /// Takes the contents of the key file, or why it could not be read.
    pub fn key_file_read(&mut self, contents: Result<SecretText, String>) -> (r: AppAction)
        ensures
            old(self).wf() ==> final(self).wf(),
            old(self).identity_ok() ==> final(self).identity_ok(),
            (final(self)@, r@) == old(self)@.key_file_read(
                match contents {
                    Ok(text) => Ok(text@),
                    Err(error) => Err(error@),
                },
            ),
    {
        proof {
            if self@.wf() {
                results_keep_bounds(self@);
            }
        }
        let path = trim(self.key_path.as_str()).to_string();
        let result = RunIdentity::load(path.as_str(), contents);
        self.take_identity(result)
    }

    /// Takes the stored inventory, if there is a usable one.
    pub fn cache_loaded(&mut self, cache: Option<CachedInventory>) -> (r: AppAction)
        ensures
            old(self).wf() ==> final(self).wf(),
            old(self).identity_ok() ==> final(self).identity_ok(),
            (final(self)@, r@) == old(self)@.cache_loaded(
                match cache {
                    Some(cache) => Some(
                        (target_models(cache.targets@), cache.fetched_at * 1_000_000_000),
                    ),
                    None => None,
                },
            ),
    {
        proof {
            if self@.wf() {
                results_keep_bounds(self@);
            }
        }
        match cache {
            Some(cache) => {
                self.inventory = cache.targets;
                self.inventory_fetched_at = Some(Duration::from_secs(cache.fetched_at));
                self.inventory_from_cache = true;
                self.refresh_cities();
                self.status = seconds_text(
                    "Loaded ",
                    self.inventory.len(),
                    " cached candidates",
                );
                self.screen = Screen::Locations;
                AppAction::Nothing
            },
            None => self.load_inventory(false),
        }
    }

    /// Takes the fetched inventory.
    pub fn inventory_fetched(&mut self, targets: Vec<NordTarget>, fetched_at: Duration) -> (r:
        AppAction)
        ensures
            old(self).wf() ==> final(self).wf(),
            old(self).identity_ok() ==> final(self).identity_ok(),
            (final(self)@, r@) == old(self)@.inventory_fetched(
                target_models(targets@),
                fetched_at.nanos(),
            ),
    {
        proof {
            if self@.wf() {
                results_keep_bounds(self@);
            }
        }
        self.loading = false;
        self.refreshing_inventory = false;
        if targets.len() == 0 {
            self.fail("Nord inventory contained no usable candidates".to_string());
            return AppAction::Nothing;
        }
        self.inventory = targets;
        self.inventory_fetched_at = Some(fetched_at);
        self.inventory_from_cache = false;
        self.refresh_cities();
        self.screen = Screen::Locations;
        AppAction::StoreCache
    }

    /// Takes whether the fetched inventory was stored.
    pub fn cache_stored(&mut self, result: Result<(), String>)
        ensures
            old(self).wf() ==> final(self).wf(),
            old(self).identity_ok() ==> final(self).identity_ok(),
            final(self)@ == old(self)@.cache_stored(
                match result {
                    Ok(_) => None,
                    Err(warning) => Some(warning@),
                },
            ),
    {
        self.status = match result {
            Ok(()) => "Fetched current Nord inventory and refreshed cached loads".to_string(),
            Err(warning) => two_texts("Fetched inventory; cache warning: ", warning.as_str()),
        };
    }

    /// Takes why the inventory could not be fetched; nothing is known where the worker is gone.
    pub fn fetch_failed(&mut self, error: Option<String>)
        ensures
            old(self).wf() ==> final(self).wf(),
            old(self).identity_ok() ==> final(self).identity_ok(),
            final(self)@ == old(self)@.fetch_failed(
                match error {
                    Some(error) => Some(error@),
                    None => None,
                },
            ),
    {
        proof {
            if self@.wf() {
                results_keep_bounds(self@);
            }
        }
        let keep: bool = self.refreshing_inventory && self.inventory.len() > 0;
        self.loading = false;
        self.refreshing_inventory = false;
        if keep {
            self.status = match error {
                Some(error) => two_texts(
                    "Refresh failed; using existing inventory: ",
                    error.as_str(),
                ),
                None => {
                    "Refresh failed; the inventory worker stopped. Using existing inventory.".to_string()
                },
            };
            self.screen = Screen::Locations;
        } else {
            self.fail(
                match error {
                    Some(error) => error,
                    None => "inventory worker disconnected before returning a result".to_string(),
                },
            );
        }
    }

    fn key_loading(&mut self, key: KeyEvent) -> (r: AppAction)
        ensures
            old(self).identity_ok() ==> final(self).identity_ok(),
            (final(self)@, r@) == old(self)@.key_loading(key),
    {
        if key.code == KeyCode::Esc {
            self.loading = false;
            self.screen = if self.refreshing_inventory && self.inventory.len() > 0 {
                Screen::Locations
            } else {
                Screen::Setup
            };
            self.refreshing_inventory = false;
            AppAction::DropFetch
        } else {
            AppAction::Nothing
        }
    }

    fn take_city(&mut self)
        requires
            old(self)@.wf(),
        ensures
            old(self).identity_ok() ==> final(self).identity_ok(),
            final(self)@ == old(self)@.city_taken(),
    {
        if self.selected_city >= self.cities.len() {
            return;
        }
        assert(self@.cities[self.selected_city as int] == self.cities@[self.selected_city as int]@);
        let targets = {
            let city = &self.cities[self.selected_city];
            city_targets(&self.inventory, city.country.as_str(), city.city.as_str())
        };
        proof {
            let city = self@.cities[self.selected_city as int];
            let found = crate::inventory::servers_in(
                target_models(self.inventory@),
                city.country,
                city.city,
            );
            lemma_sorted_list(
                found,
                crate::inventory::city_keys(found),
                target_models(targets@),
            );
        }
        self.selected_targets = targets;
        if self.selected_targets.len() == 0 {
            self.fail("the selected city has no usable candidates".to_string());
            return;
        }
        let available: usize = if self.selected_targets.len() < 100 {
            self.selected_targets.len()
        } else {
            100
        };
        self.options.max_candidates = if available < 12 {
            available
        } else {
            12
        };
        self.options.desired_confirmed = if self.options.max_candidates < 3 {
            self.options.max_candidates
        } else {
            3
        };
        self.screen = Screen::ProbeSetup;
    }

    fn extend_filter(&mut self, c: char)
        ensures
            old(self).identity_ok() ==> final(self).identity_ok(),
            final(self)@ == (AppModel {
                filter: old(self)@.filter.push(c),
                ..old(self)@
            }).with_cities(),
    {
        self.filter.push(c);
        self.refresh_cities();
    }

    fn shorten_filter(&mut self)
        ensures
            old(self).identity_ok() ==> final(self).identity_ok(),
            final(self)@ == (AppModel {
                filter: without_last(old(self)@.filter),
                ..old(self)@
            }).with_cities(),
    {
        self.filter.pop();
        self.refresh_cities();
    }

    fn select_next_city(&mut self)
        requires
            old(self)@.wf(),
        ensures
            old(self).identity_ok() ==> final(self).identity_ok(),
            final(self)@ == (AppModel {
                selected_city: smaller(
                    old(self)@.selected_city + 1,
                    if old(self)@.cities.len() > 0 {
                        old(self)@.cities.len() - 1
                    } else {
                        0
                    },
                ),
                ..old(self)@
            }),
    {
        let last: usize = if self.cities.len() > 0 {
            self.cities.len() - 1
        } else {
            0
        };
        self.selected_city = if self.selected_city < last {
            self.selected_city + 1
        } else {
            last
        };
    }

    #[verifier::rlimit(50)]
    fn key_locations(&mut self, key: KeyEvent) -> (r: AppAction)
        requires
            old(self)@.wf(),
        ensures
            old(self).identity_ok() ==> final(self).identity_ok(),
            (final(self)@, r@) == old(self)@.key_locations(key),
    {
        if refresh_requested(key) {
            return self.load_inventory(true);
        }
        match key.code {
            KeyCode::Tab => {
                self.location_focus = (self.location_focus + 1) % 2;
            },
            KeyCode::Char(c) => {
                if self.location_focus == 0 && text_modifier(key.modifiers) {
                    self.extend_filter(c);
                }
            },
            KeyCode::Backspace => {
                if self.location_focus == 0 {
                    self.shorten_filter();
                }
            },
            KeyCode::Down => {
                self.select_next_city();
            },
            KeyCode::Up => {
                if self.selected_city > 0 {
                    self.selected_city = self.selected_city - 1;
                }
            },
            KeyCode::Enter => {
                self.take_city();
            },
            KeyCode::Esc => {
                self.screen = Screen::Setup;
            },
            _ => {},
        }
        AppAction::Nothing
    }

    fn toggle_mode(&mut self)
        ensures
            old(self).identity_ok() ==> final(self).identity_ok(),
            final(self)@ == old(self)@.with_other_mode(),
    {
        let full: bool = match &self.options.mode {
            CheckMode::HandshakeOnly => false,
            CheckMode::Full(_) => true,
        };
        self.options.mode = if full {
            CheckMode::HandshakeOnly
        } else {
            CheckMode::Full(FullCheckPlan::default())
        };
    }

    fn adjust_option(&mut self, delta: isize)
        requires
            old(self)@.wf(),
            old(self)@.screen == Screen::ProbeSetup,
        ensures
            old(self).identity_ok() ==> final(self).identity_ok(),
            final(self)@ == old(self)@.option_changed(delta as int),
            final(self)@.options_hold(),
            final(self)@.selected_targets == old(self)@.selected_targets,
            final(self)@.option_focus == old(self)@.option_focus,
    {
        let count: usize = self.selected_targets.len();
        let available: usize = if count < 1 {
            1
        } else if count > 100 {
            100
        } else {
            count
        };
        if self.option_focus == 0 {
            let most: usize = if available < MAX_CONFIRMATIONS {
                available
            } else {
                MAX_CONFIRMATIONS
            };
            let desired: usize = adjust(self.options.desired_confirmed, delta, 1, most);
            self.options.desired_confirmed = desired;
            if self.options.max_candidates < desired {
                self.options.max_candidates = desired;
            }
            if self.options.max_candidates > available {
                self.options.max_candidates = available;
            }
        } else if self.option_focus == 1 {
            self.options.max_candidates = adjust(
                self.options.max_candidates,
                delta,
                self.options.desired_confirmed,
                available,
            );
        } else {
            self.toggle_mode();
        }
    }

    fn begin_probes(&mut self, now: Duration) -> (r: AppAction)
        ensures
            old(self).identity_ok() ==> final(self).identity_ok(),
            (final(self)@, r@) == old(self)@.probes_begun(now.nanos()),
    {
        if self.running {
            self.status = "Wait for the current run to finish cancelling".to_string();
            return AppAction::Nothing;
        }
        if self.identity.is_none() {
            self.fail("the validated run identity is no longer available".to_string());
            return AppAction::Nothing;
        }
        let available: usize = if self.selected_targets.len() < 100 {
            self.selected_targets.len()
        } else {
            100
        };
        if self.options.desired_confirmed == 0 || self.options.desired_confirmed
            > self.options.max_candidates || self.options.max_candidates > available {
            self.fail(
                "probe option bounds are inconsistent with available candidates".to_string(),
            );
            return AppAction::Nothing;
        }
        let plan = plan_candidates(
            copy_targets(&self.selected_targets),
            self.options.max_candidates,
        );
        proof {
            let list = target_models(self.selected_targets@);
            let ordered = choose|ordered: Seq<TargetModel>| #[trigger]
                crate::scheduler::is_probing_order(list, ordered) && target_models(plan@)
                    == ordered.take(
                    if self.options.max_candidates < ordered.len() {
                        self.options.max_candidates as int
                    } else {
                        ordered.len() as int
                    },
                );
            lemma_probing_order(list, ordered);
            assert(ordered.take(ordered.len() as int) =~= ordered);
            assert(target_models(plan@) == planned(list, self.options.max_candidates as int));
        }
        self.attempts = Vec::new();
        self.active = Vec::new();
        self.exported_attempts = Vec::new();
        self.planned_targets = plan;
        self.plan_selected = 0;
        self.cancelling = false;
        self.worker_fatal = None;
        self.status = "Starting probes".to_string();
        self.probe_started = Some(now);
        self.probe_elapsed = None;
        self.run_end_reason = None;
        self.running = true;
        self.screen = Screen::Probing;
        assert(self@.attempts =~= Seq::empty());
        assert(self@.active =~= Seq::empty());
        assert(self@.exported_attempts =~= Seq::empty());
        AppAction::StartProbes
    }

    #[verifier::rlimit(60)]
    fn key_probe_setup(&mut self, code: KeyCode, now: Duration) -> (r: AppAction)
        requires
            old(self)@.wf(),
            old(self)@.screen == Screen::ProbeSetup,
        ensures
            old(self).identity_ok() ==> final(self).identity_ok(),
            (final(self)@, r@) == old(self)@.key_probe_setup(code, now.nanos()),
    {
        match code {
            KeyCode::Tab => {
                self.option_focus = (self.option_focus + 1) % 3;
            },
            KeyCode::Up => {
                self.adjust_option(1);
            },
            KeyCode::Down => {
                self.adjust_option(-1);
            },
            KeyCode::Left | KeyCode::Right => {
                if self.option_focus == 2 {
                    self.toggle_mode();
                }
            },
            KeyCode::Enter => {
                return self.begin_probes(now);
            },
            KeyCode::Esc => {
                self.screen = Screen::Locations;
            },
            _ => {},
        }
        AppAction::Nothing
    }
}

impl App {
    /// The attempt at the selected server, if it has ended.
    pub fn selected_attempt(&self) -> (r: Option<&Attempt>)
        ensures
            match r {
                Some(attempt) => self@.selected_attempt() < self@.attempts.len() && *attempt
                    == self@.attempts[self@.selected_attempt()],
                None => self@.selected_attempt() >= self@.attempts.len(),
            },
    {
        if self.plan_selected >= self.planned_targets.len() {
            return None;
        }
        let target = &self.planned_targets[self.plan_selected];
        let ghost wanted = target@;
        assert(self@.planned_targets[self.plan_selected as int] == wanted);
        let mut i: usize = 0;
        while i < self.attempts.len()
            invariant
                i <= self.attempts@.len(),
                wanted == target@,
                attempt_index(self.attempts@, wanted, 0) == attempt_index(
                    self.attempts@,
                    wanted,
                    i as int,
                ),
                self@.selected_attempt() == attempt_index(self.attempts@, wanted, 0),
            decreases self.attempts@.len() - i,
        {
            if same_target(&self.attempts[i].target, target) {
                return Some(&self.attempts[i]);
            }
            i = i + 1;
        }
        None
    }

    /// How many attempts were confirmed.
    pub fn confirmed_count(&self) -> (r: usize)
        ensures
            r == confirmed_in(self@.attempts),
    {
        let mut count: usize = 0;
        let mut i: usize = 0;
        assert(self.attempts@.take(0) =~= Seq::empty());
        while i < self.attempts.len()
            invariant
                i <= self.attempts@.len(),
                count <= i,
                count == confirmed_in(self.attempts@.take(i as int)),
            decreases self.attempts@.len() - i,
        {
            assert(self.attempts@.take(i + 1).drop_last() =~= self.attempts@.take(i as int));
            if let AttemptOutcome::Confirmed = self.attempts[i].outcome {
                count = count + 1;
            }
            i = i + 1;
        }
        assert(self.attempts@.take(i as int) =~= self.attempts@);
        count
    }

    /// The file that an attempt was exported to, if it was.
    pub fn exported_path(&self, attempt_id: u64) -> (r: Option<&String>)
        ensures
            exported_to(self@.exported_attempts, attempt_id) == (match r {
                Some(path) => Some(path@),
                None => None,
            }),
    {
        let ghost all = self@.exported_attempts;
        let mut i: usize = self.exported_attempts.len();
        assert(all.take(i as int) =~= all);
        while i > 0
            invariant
                i <= self.exported_attempts@.len(),
                all == exported_models(self.exported_attempts@),
                exported_to(all, attempt_id) == exported_to(all.take(i as int), attempt_id),
            decreases i,
        {
            let ghost part = all.take(i as int);
            assert(part.drop_last() =~= all.take(i - 1));
            assert(part.last() == all[i - 1]);
            i = i - 1;
            if self.exported_attempts[i].id == attempt_id {
                return Some(&self.exported_attempts[i].path);
            }
        }
        assert(all.take(0) =~= Seq::empty());
        None
    }

    /// Asks for the export of the selected attempt.
    pub fn export_confirmed(&mut self) -> (r: AppAction)
        ensures
            old(self).wf() ==> final(self).wf(),
            old(self).identity_ok() ==> final(self).identity_ok(),
            (final(self)@, r@) == old(self)@.export_asked(),
    {
        let message = match self.selected_attempt() {
            None => Some("The selected candidate has not completed".to_string()),
            Some(attempt) => {
                let confirmed: bool = match &attempt.outcome {
                    AttemptOutcome::Confirmed => true,
                    _ => false,
                };
                if !confirmed {
                    Some("Only a selected CONFIRMED candidate can be exported".to_string())
                } else {
                    match self.exported_path(attempt.id) {
                        Some(path) => Some(two_texts("Already exported ", path.as_str())),
                        None => if self.identity.is_none() {
                            Some(
                                "Export failed: validated run identity is unavailable".to_string(),
                            )
                        } else if self.validated_export_directory.is_none() {
                            Some(
                                "Export failed: validated export directory is unavailable".to_string(),
                            )
                        } else {
                            None
                        },
                    }
                }
            },
        };
        match message {
            Some(message) => {
                self.status = message;
                AppAction::Nothing
            },
            None => AppAction::Export,
        }
    }

    /// Takes the path that an attempt was exported to, or why it was not.
    pub fn exported(&mut self, id: u64, result: Result<WrittenPath, String>)
        ensures
            old(self).wf() ==> final(self).wf(),
            old(self).identity_ok() ==> final(self).identity_ok(),
            final(self)@ == old(self)@.exported(
                id,
                match result {
                    Ok(written) => Ok(shown_path_spec(old(self)@.export_directory, written)),
                    Err(error) => Err(error@),
                },
            ),
    {
        match result {
            Ok(written) => {
                let shown = shown_path(self.export_directory.as_str(), &written);
                self.status = two_texts("Exported ", shown.as_str());
                let copy = shown.clone();
                self.exported_paths.push(copy);
                self.exported_attempts.push(ExportedAttempt { id, path: shown });
                assert(self@.exported_paths =~= old(self)@.exported_paths.push(shown@));
                assert(self@.exported_attempts =~= old(self)@.exported_attempts.push((id, shown@)));
            },
            Err(error) => {
                self.status = two_texts("Export failed: ", error.as_str());
            },
        }
    }

    fn key_probing(&mut self, code: KeyCode) -> (r: AppAction)
        ensures
            old(self).identity_ok() ==> final(self).identity_ok(),
            (final(self)@, r@) == old(self)@.key_probing(code),
    {
        match code {
            KeyCode::Esc => {
                if self.running && !self.cancelling {
                    self.cancelling = true;
                    self.pacing = Duration::zero();
                    self.status = "Cancelling: waiting for active attempts to finish".to_string();
                    return AppAction::CancelProbes;
                }
                if !self.running {
                    self.screen = Screen::ProbeSetup;
                }
            },
            KeyCode::Up => {
                self.plan_selected = move_plan_selection(
                    self.plan_selected,
                    -1,
                    self.planned_targets.len(),
                );
            },
            KeyCode::Down => {
                self.plan_selected = move_plan_selection(
                    self.plan_selected,
                    1,
                    self.planned_targets.len(),
                );
            },
            KeyCode::Char(c) => {
                if c == 'e' && !self.cancelling {
                    return self.export_confirmed();
                }
            },
            _ => {},
        }
        AppAction::Nothing
    }

    /// Takes a key.
    pub fn handle_key(&mut self, key: KeyEvent, now: Duration) -> (r: AppAction)
        requires
            old(self).wf(),
        ensures
            final(self).wf(),
            (final(self)@, r@) == old(self)@.key_handled(key, now.nanos()),
    {
        proof {
            keys_keep_bounds(self@, key, now.nanos());
        }
        let editing: bool = self.screen == Screen::Setup || (self.screen == Screen::Locations
            && self.location_focus == 0);
        if quit_requested(key, editing) {
            self.should_quit = true;
            return AppAction::Nothing;
        }
        match self.screen {
            Screen::Setup => self.key_setup(key),
            Screen::Loading => self.key_loading(key),
            Screen::Locations => self.key_locations(key),
            Screen::ProbeSetup => self.key_probe_setup(key.code, now),
            Screen::Probing => self.key_probing(key.code),
            Screen::Error => {
                if key.code == KeyCode::Esc {
                    self.screen = Screen::Setup;
                }
                AppAction::Nothing
            },
        }
    }

    /// Takes what the user pastes.
    pub fn handle_paste(&mut self, value: &str)
        requires
            old(self)@.wf(),
        ensures
            old(self).identity_ok() ==> final(self).identity_ok(),
            final(self)@ == old(self)@.pasted(value@),
            final(self)@.wf(),
    {
        if self.screen != Screen::Setup {
            return;
        }
        let text = trim(value);
        if looks_like_private_key(text) && !(self.setup_focus == 1 && self.key_source
            == KeySource::PasteOnce) {
            self.status = "That paste is a private key; switch Key source to PASTE ONCE".to_string();
            return;
        }
        if self.setup_focus == 1 {
            if self.key_source == KeySource::File {
                self.key_path.set(text);
                self.identity = None;
            } else {
                let chars = chars_of(text);
                if !all_key_chars(&chars) {
                    self.status =
                    "Paste rejected: a WireGuard key contains only base64 characters".to_string();
                    return;
                }
                self.pasted_key.set(text);
                self.identity = None;
                self.status = "Private key pasted; press Enter to load it into memory".to_string();
            }
        } else if self.setup_focus == 2 {
            self.export_directory.set(text);
            self.validated_export_directory = None;
        }
    }

    fn set_phase(&mut self, id: u64, phase: String)
        ensures
            old(self).identity_ok() ==> final(self).identity_ok(),
            final(self)@ == (AppModel {
                active: with_phase_of(old(self)@.active, id, phase@, 0),
                ..old(self)@
            }),
    {
        let ghost all = self@.active;
        let mut i: usize = 0;
        while i < self.active.len()
            invariant
                *self == *old(self),
                i <= self.active@.len(),
                all == active_models(self.active@),
                with_phase_of(all, id, phase@, 0) == with_phase_of(all, id, phase@, i as int),
            decreases self.active@.len() - i,
        {
            assert(all[i as int] == self.active@[i as int]@);
            if self.active[i].id == id {
                self.active[i].phase = phase;
                assert(self@.active =~= all.update(
                    i as int,
                    ActiveModel { phase: phase@, ..all[i as int] },
                ));
                return;
            }
            i = i + 1;
        }
    }

    fn remove_probe(&mut self, id: u64)
        ensures
            old(self).identity_ok() ==> final(self).identity_ok(),
            final(self)@ == (AppModel {
                active: without_probe(old(self)@.active, id),
                ..old(self)@
            }),
    {
        let mut taken: Vec<ActiveProbe> = Vec::new();
        std::mem::swap(&mut taken, &mut self.active);
        let ghost all = active_models(taken@);
        let mut kept: Vec<ActiveProbe> = Vec::new();
        let mut i: usize = 0;
        assert(all.take(0) =~= Seq::empty());
        assert(active_models(kept@) =~= Seq::empty());
        while i < taken.len()
            invariant
                i <= taken@.len(),
                all == active_models(taken@),
                active_models(kept@) == without_probe(all.take(i as int), id),
            decreases taken@.len() - i,
        {
            assert(all.take(i + 1).drop_last() =~= all.take(i as int));
            assert(all.take(i + 1).last() == taken@[i as int]@);
            if taken[i].id != id {
                let ghost before = active_models(kept@);
                let item = ActiveProbe {
                    id: taken[i].id,
                    target: taken[i].target.copy(),
                    phase: taken[i].phase.clone(),
                };
                kept.push(item);
                assert(active_models(kept@) =~= before.push(item@));
            }
            i = i + 1;
        }
        assert(all.take(i as int) =~= all);
        self.active = kept;
    }

    fn run_time(&self, now: Duration) -> (r: Option<Duration>)
        ensures
            option_nanos(r) == self@.run_time(now.nanos()),
    {
        match self.probe_started {
            Some(started) => Some(now.saturating_sub(started)),
            None => None,
        }
    }

    fn complete_run(&mut self, cancelled: bool, now: Duration)
        ensures
            old(self).identity_ok() ==> final(self).identity_ok(),
            final(self)@ == old(self)@.run_completed(cancelled, now.nanos()),
    {
        self.probe_elapsed = self.run_time(now);
        let confirmed: usize = self.confirmed_count();
        self.run_end_reason = Some(
            if self.worker_fatal.is_some() {
                RunEndReason::Failed
            } else if cancelled {
                RunEndReason::Cancelled
            } else if confirmed >= self.options.desired_confirmed {
                RunEndReason::GoalReached
            } else {
                RunEndReason::Exhausted
            },
        );
        self.running = false;
        self.active = Vec::new();
        assert(self@.active =~= Seq::empty());
        self.pacing = Duration::zero();
        self.cancelling = false;
        let fatal = self.worker_fatal.take();
        match fatal {
            Some(error) => {
                self.fail(error);
            },
            None => {
                self.status = if cancelled {
                    seconds_text("Cancelled after ", self.attempts.len(), " completed attempts")
                } else {
                    let mut text = seconds_text("Complete: ", confirmed, " confirmed, ");
                    text.append(decimal(self.attempts.len() as u64).as_str());
                    text.append(" completed");
                    text
                };
            },
        }
    }

    fn probe_started_on(&mut self, id: u64, target: NordTarget)
        ensures
            old(self).identity_ok() ==> final(self).identity_ok(),
            final(self)@ == (AppModel {
                pacing: 0,
                active: old(self)@.active.push(
                    ActiveModel { id, target: target@, phase: "starting"@ },
                ),
                ..old(self)@
            }),
    {
        self.pacing = Duration::zero();
        let item = ActiveProbe { id, target, phase: "starting".to_string() };
        self.active.push(item);
        assert(self@.active =~= old(self)@.active.push(item@));
    }

    fn attempt_ended(&mut self, attempt: Attempt)
        ensures
            old(self).identity_ok() ==> final(self).identity_ok(),
            final(self)@ == (AppModel {
                active: without_probe(old(self)@.active, attempt.id),
                attempts: old(self)@.attempts.push(attempt),
                status: if old(self)@.cancelling {
                    old(self)@.status
                } else {
                    decimal_spec(confirmed_in(old(self)@.attempts.push(attempt)))
                        + " confirmed toward goal "@ + decimal_spec(old(self)@.options.desired)
                },
                ..old(self)@
            }),
    {
        self.remove_probe(attempt.id);
        self.attempts.push(attempt);
        if !self.cancelling {
            let mut text = decimal(self.confirmed_count() as u64);
            text.append(" confirmed toward goal ");
            text.append(decimal(self.options.desired_confirmed as u64).as_str());
            self.status = text;
        }
    }

    /// Takes a message of the run.
    #[verifier::rlimit(60)]
    pub fn handle_worker(&mut self, message: WorkerMessage, now: Duration)
        ensures
            old(self).wf() ==> final(self).wf(),
            old(self).identity_ok() ==> final(self).identity_ok(),
            final(self)@ == old(self)@.worker_told(message, now.nanos()),
    {
        proof {
            if self@.wf() {
                messages_keep_bounds(self@, message, now.nanos());
            }
        }
        match message {
            WorkerMessage::Started { id, target } => {
                self.probe_started_on(id, target);
            },
            WorkerMessage::Phase { id, event } => {
                self.set_phase(id, event.phase);
            },
            WorkerMessage::Finished(attempt) => {
                self.attempt_ended(attempt);
            },
            WorkerMessage::Pacing(duration) => {
                if !self.cancelling {
                    self.pacing = duration;
                }
            },
            WorkerMessage::Fatal(error) => {
                self.status = error.clone();
                self.worker_fatal = Some(error);
            },
            WorkerMessage::Complete { cancelled } => {
                self.complete_run(cancelled, now);
            },
        }
    }

    /// Notes that the run went away without a word.
    pub fn worker_lost(&mut self, now: Duration)
        ensures
            old(self).wf() ==> final(self).wf(),
            old(self).identity_ok() ==> final(self).identity_ok(),
            final(self)@ == old(self)@.worker_lost(now.nanos()),
    {
        self.probe_elapsed = self.run_time(now);
        self.run_end_reason = Some(RunEndReason::Failed);
        self.running = false;
        self.active = Vec::new();
        assert(self@.active =~= Seq::empty());
        self.cancelling = false;
        self.fail("probe coordinator disconnected before completion".to_string());
    }
}

/// No key brings the screens into a state in which positions leave their lists, or in which probes
/// are set up or run with more wanted confirmations than candidates or than ten, or more candidates
/// than servers or than a hundred.
pub proof fn keys_keep_bounds(app: AppModel, key: KeyEvent, now: int)
    requires
        app.wf(),
    ensures
        app.key_handled(key, now).0.wf(),
{
    match app.screen {
        Screen::Setup => lemma_setup_keeps_bounds(app, key),
        Screen::Loading => {},
        Screen::Locations => lemma_locations_keep_bounds(app, key),
        Screen::ProbeSetup => lemma_options_keep_bounds(app, key.code, now),
        Screen::Probing => lemma_probing_keeps_bounds(app, key.code),
        Screen::Error => {},
    }
}

/// A change of an option keeps the options within their bounds, whatever the change, and leaves the
/// servers and the focus alone.
pub proof fn changed_options_stay_in_bounds(app: AppModel, delta: int)
    requires
        app.options_hold(),
    ensures
        app.option_changed(delta).options_hold(),
        app.option_changed(delta).selected_targets == app.selected_targets,
        app.option_changed(delta).option_focus == app.option_focus,
{
}

/// A pasted key stays masked until the user asks for it: no other key than F2 reveals it, and a
/// paste does not.
pub proof fn only_f2_reveals_keys(app: AppModel, key: KeyEvent, now: int, value: Seq<char>)
    requires
        !app.reveal_pasted_key,
    ensures
        app.key_handled(key, now).0.reveal_pasted_key ==> key.code == KeyCode::F(2)
            && app.screen == Screen::Setup && app.key_source == KeySource::PasteOnce,
        !app.pasted(value).reveal_pasted_key,
{
}

#[verifier::rlimit(40)]
proof fn lemma_setup_keeps_bounds(app: AppModel, key: KeyEvent)
    requires
        app.wf(),
        app.screen == Screen::Setup,
    ensures
        app.key_setup(key).0.wf(),
{
}

#[verifier::rlimit(40)]
proof fn lemma_options_keep_bounds(app: AppModel, code: KeyCode, now: int)
    requires
        app.wf(),
        app.screen == Screen::ProbeSetup,
    ensures
        app.key_probe_setup(code, now).0.wf(),
{
}

proof fn lemma_probing_keeps_bounds(app: AppModel, code: KeyCode)
    requires
        app.wf(),
        app.screen == Screen::Probing,
    ensures
        app.key_probing(code).0.wf(),
{
}

/// No result from outside does so: of a directory, a key file, a stored or fetched inventory.
pub proof fn results_keep_bounds(app: AppModel)
    requires
        app.wf(),
    ensures
        forall|result: Result<Seq<u8>, Seq<char>>|
            (#[trigger] app.directory_resolved(result)).0.wf(),
        forall|contents: Result<Seq<char>, Seq<char>>|
            (#[trigger] app.key_file_read(contents)).0.wf(),
        forall|result: Option<(Seq<TargetModel>, int)>|
            (#[trigger] app.cache_loaded(result)).0.wf(),
        forall|targets: Seq<TargetModel>, fetched_at: int|
            (#[trigger] app.inventory_fetched(targets, fetched_at)).0.wf(),
        forall|error: Option<Seq<char>>| (#[trigger] app.fetch_failed(error)).wf(),
{
    assert forall|result: Option<(Seq<TargetModel>, int)>|
        (#[trigger] app.cache_loaded(result)).0.wf() by {
        if let Some((targets, fetched_at)) = result {
            lemma_new_inventory(app, targets);
        }
    }
    assert forall|targets: Seq<TargetModel>, fetched_at: int|
        (#[trigger] app.inventory_fetched(targets, fetched_at)).0.wf() by {
        lemma_new_inventory(app, targets);
    }
}

proof fn lemma_new_inventory(app: AppModel, targets: Seq<TargetModel>)
    requires
        app.wf(),
    ensures
        app.selected_city < app.cities.len() ==> ({
            let index = city_index(
                city_list(targets, app.filter),
                app.cities[app.selected_city].country,
                app.cities[app.selected_city].city,
                0,
            );
            index == 0 || 0 <= index < city_list(targets, app.filter).len()
        }),
{
    if app.selected_city < app.cities.len() {
        let previous = app.cities[app.selected_city];
        lemma_city_index(city_list(targets, app.filter), previous.country, previous.city, 0);
    }
}

/// No message of a run, and no loss of it, does so either.
pub proof fn messages_keep_bounds(app: AppModel, message: WorkerMessage, now: int)
    requires
        app.wf(),
    ensures
        app.worker_told(message, now).wf(),
        app.worker_lost(now).wf(),
{
}

proof fn lemma_city_index(cities: Seq<CityModel>, country: Seq<char>, city: Seq<char>, i: int)
    requires
        0 <= i,
    ensures
        city_index(cities, country, city, i) == 0 || 0 <= city_index(cities, country, city, i)
            < cities.len(),
    decreases cities.len() - i,
{
    if i < cities.len() && !(cities[i].country == country && cities[i].city == city) {
        lemma_city_index(cities, country, city, i + 1);
    }
}

#[verifier::rlimit(40)]
proof fn lemma_locations_keep_bounds(app: AppModel, key: KeyEvent)
    requires
        app.wf(),
        app.screen == Screen::Locations,
    ensures
        app.key_locations(key).0.wf(),
{
    assert forall|filter: Seq<char>| #[trigger] (AppModel { filter, ..app }).with_cities().wf() by {
        let cities = city_list(app.inventory, filter);
        if app.selected_city < app.cities.len() {
            let previous = app.cities[app.selected_city];
            lemma_city_index(cities, previous.country, previous.city, 0);
        }
    }
}

/// Only an attempt that was confirmed is exported, and only once, with the identity of the run
/// and into a directory that was checked.
pub proof fn only_confirmed_attempts_are_exported(app: AppModel, key: KeyEvent, now: int)
    ensures
        app.key_handled(key, now).1 is Export ==> {
            let i = app.selected_attempt();
            &&& app.screen == Screen::Probing
            &&& 0 <= i < app.attempts.len()
            &&& app.attempts[i].outcome@ is Confirmed
            &&& exported_to(app.exported_attempts, app.attempts[i].id) is None
            &&& app.identity is Some
            &&& app.validated_export_directory is Some
        },
{
    if app.plan_selected >= 0 && app.plan_selected < app.planned_targets.len() {
        lemma_attempt_index(app.attempts, app.planned_targets[app.plan_selected], 0);
    }
}

proof fn lemma_attempt_index(attempts: Seq<Attempt>, target: TargetModel, i: int)
    requires
        0 <= i <= attempts.len(),
    ensures
        i <= attempt_index(attempts, target, i) <= attempts.len(),
    decreases attempts.len() - i,
{
    if i < attempts.len() && attempts[i].target@ != target {
        lemma_attempt_index(attempts, target, i + 1);
    }
}

/// A key that is accepted leaves no pasted text behind, and nothing to be shown.
pub proof fn accepted_key_leaves_no_paste(app: AppModel, contents: Seq<char>)
    requires
        identity_of(contents) is Ok,
    ensures
        app.identity_checked(identity_of(contents)).0.identity is Some,
        app.identity_checked(identity_of(contents)).0.pasted_key.len() == 0,
        !app.identity_checked(identity_of(contents)).0.reveal_pasted_key,
        app.key_file_read(Ok(contents)) == app.identity_checked(identity_of(contents)),
{
}

/// A fetch that fails, or is given up, leaves the inventory as it was, and a refresh then goes back
/// to it.
pub proof fn failed_fetch_keeps_inventory(app: AppModel, error: Option<Seq<char>>, key: KeyEvent)
    ensures
        app.fetch_failed(error).inventory == app.inventory,
        app.fetch_failed(error).cities == app.cities,
        app.key_loading(key).0.inventory == app.inventory,
        app.key_loading(key).0.cities == app.cities,
        app.refreshing_inventory && app.inventory.len() > 0 ==> app.fetch_failed(error).screen
            == Screen::Locations && (key.code == KeyCode::Esc ==> app.key_loading(key).0.screen
            == Screen::Locations),
{
}

/// A private key does not stay where a path belongs: a path does not end with one after a character
/// was typed, and is not one after a paste.
pub proof fn paths_hold_no_key(app: AppModel, c: char, value: Seq<char>)
    ensures
        !ends_with_private_key_spec(app.key_path) ==> !ends_with_private_key_spec(
            app.typed(c).key_path,
        ),
        !ends_with_private_key_spec(app.export_directory) ==> !ends_with_private_key_spec(
            app.typed(c).export_directory,
        ),
        !looks_like_private_key_spec(app.key_path) ==> !looks_like_private_key_spec(
            app.pasted(value).key_path,
        ),
        !looks_like_private_key_spec(app.export_directory) ==> !looks_like_private_key_spec(
            app.pasted(value).export_directory,
        ),
{
}

/// Whether two servers are the same in every respect.
pub(crate) fn same_target(a: &NordTarget, b: &NordTarget) -> (r: bool)
    ensures
        r == (a@ == b@),
{
    same_text(a.name.as_str(), b.name.as_str()) && same_text(
        a.hostname.as_str(),
        b.hostname.as_str(),
    ) && same_endpoint(a.endpoint, b.endpoint) && same_text(
        a.public_key.as_str(),
        b.public_key.as_str(),
    ) && same_text(a.country.as_str(), b.country.as_str()) && same_text(
        a.city.as_str(),
        b.city.as_str(),
    ) && a.load == b.load
}

/// The different keys of the servers that come before the given one.
pub open spec fn smaller_keys(targets: Seq<TargetModel>, key: Seq<char>) -> Set<Seq<char>>
    decreases targets.len(),
{
    if targets.len() == 0 {
        Set::empty()
    } else {
        let before = smaller_keys(targets.drop_last(), key);
        if text_less(targets.last().public_key, key) {
            before.insert(targets.last().public_key)
        } else {
            before
        }
    }
}

/// Whether a server has the key.
pub open spec fn has_key(targets: Seq<TargetModel>, key: Seq<char>) -> bool {
    exists|i: int| 0 <= i < targets.len() && (#[trigger] targets[i]).public_key == key
}

/// The number of a key among the different keys of the selected servers, in order and from one on;
/// a key that is not there counts as the first.
pub open spec fn group_number_spec(app: AppModel, key: Seq<char>) -> int {
    if has_key(app.selected_targets, key) {
        smaller_keys(app.selected_targets, key).len() as int + 1
    } else {
        1
    }
}

impl App {
    /// The number of a key among the different keys of the selected servers, in order and from one
    /// on; a key that is not there counts as the first.
    pub fn group_number(&self, key: &str) -> (r: usize)
        ensures
            r == group_number_spec(self@, key@),
    {
        let wanted = chars_of(key);
        let ghost models = self@.selected_targets;
        let mut groups: Vec<String> = Vec::new();
        let mut found: bool = false;
        let mut i: usize = 0;
        assert(models.take(0) =~= Seq::empty());
        assert(string_views(groups@) =~= Seq::empty());
        assert(string_views(groups@).to_set() =~= Set::empty());
        while i < self.selected_targets.len()
            invariant
                i <= self.selected_targets@.len(),
                models == target_models(self.selected_targets@),
                wanted@ == key@,
                found == has_key(models.take(i as int), key@),
                groups@.len() <= i,
                !has_key(models.take(i as int), key@) ==> groups@.len() <= i,
                found ==> groups@.len() < i,
                string_views(groups@).no_duplicates(),
                string_views(groups@).to_set() == smaller_keys(models.take(i as int), key@),
            decreases self.selected_targets@.len() - i,
        {
            let own = self.selected_targets[i].public_key.as_str();
            let ghost before = models.take(i as int);
            let ghost part = models.take(i + 1);
            assert(part.drop_last() =~= before);
            assert(part.last() == self.selected_targets@[i as int]@);
            let same: bool = same_text(own, key);
            proof {
                if same {
                    assert(part[i as int].public_key == key@);
                }
                if has_key(before, key@) {
                    let k = choose|k: int|
                        0 <= k < before.len() && (#[trigger] before[k]).public_key == key@;
                    assert(part[k] == before[k]);
                }
                if has_key(part, key@) && !same {
                    let k = choose|k: int|
                        0 <= k < part.len() && (#[trigger] part[k]).public_key == key@;
                    assert(before[k] == part[k]);
                }
                crate::order::text_order_total(own@, key@);
            }
            let own_chars = chars_of(own);
            if text_before(&own_chars, &wanted) {
                if !holds_text(&groups, own) {
                    let ghost old_groups = string_views(groups@);
                    groups.push(own.to_string());
                    proof {
                        lemma_pushed_text(old_groups, own@);
                        assert(string_views(groups@) =~= old_groups.push(own@));
                    }
                } else {
                    assert(string_views(groups@).to_set().insert(own@) =~= string_views(
                        groups@,
                    ).to_set());
                }
            }
            found = found || same;
            i = i + 1;
        }
        assert(models.take(i as int) =~= models);
        proof {
            string_views(groups@).unique_seq_to_set();
        }
        if found {
            groups.len() + 1
        } else {
            1
        }
    }

    /// The public key of the identity, if there is one.
    pub fn identity_public_key(&self) -> (r: Option<&str>)
        ensures
            match (r, self@.identity) {
                (Some(key), Some((private_key, public_key))) => key@ == public_key,
                (None, None) => true,
                _ => false,
            },
    {
        match &self.identity {
            Some(identity) => Some(identity.public_key()),
            None => None,
        }
    }

    /// How long the run has taken: until its end, or until now.
    pub fn elapsed(&self, now: Duration) -> (r: Duration)
        ensures
            r.nanos() == (match self@.probe_elapsed {
                Some(elapsed) => elapsed,
                None => match self@.run_time(now.nanos()) {
                    Some(elapsed) => elapsed,
                    None => 0,
                },
            }),
    {
        match self.probe_elapsed {
            Some(elapsed) => elapsed,
            None => match self.run_time(now) {
                Some(elapsed) => elapsed,
                None => Duration::zero(),
            },
        }
    }

    /// Whether a run was started and is over.
    pub fn run_finished(&self) -> (r: bool)
        ensures
            r == (self@.probe_started is Some && !self@.running),
    {
        self.probe_started.is_some() && !self.running
    }

    /// Whether as many servers were confirmed as wanted.
    pub fn goal_reached(&self) -> (r: bool)
        ensures
            r == self@.goal_reached(),
    {
        self.confirmed_count() >= self.options.desired_confirmed
    }

    /// Whether the last run was cancelled.
    pub fn run_cancelled(&self) -> (r: bool)
        ensures
            r == (self@.run_end_reason == Some(RunEndReason::Cancelled)),
    {
        match self.run_end_reason {
            Some(RunEndReason::Cancelled) => true,
            _ => false,
        }
    }

    /// What is known of the inventory's age at the given time, counted from 1970.
    pub open spec fn inventory_summary_spec(app: AppModel, now: int) -> Seq<char> {
        match app.inventory_fetched_at {
            None => "Inventory freshness unavailable"@,
            Some(fetched_at) => if now < fetched_at {
                "Inventory timestamp is in the future (STALE). Ctrl-r refreshes server loads."@
            } else {
                "Inventory: "@ + (if app.inventory_from_cache {
                    "cached"@
                } else {
                    "fetched"@
                }) + ", "@ + format_age_spec((now - fetched_at) / 1_000_000_000) + " old ("@ + (
                if now - fetched_at >= 86400 * 1_000_000_000 {
                    "STALE"@
                } else {
                    "fresh"@
                }) + "). Ctrl-r refreshes server loads."@
            },
        }
    }

    /// What is known of the inventory's age at the given time, counted from 1970.
    pub fn inventory_summary(&self, now: Duration) -> (r: String)
        ensures
            r@ == App::inventory_summary_spec(self@, now.nanos()),
    {
        let fetched_at = match self.inventory_fetched_at {
            Some(fetched_at) => fetched_at,
            None => {
                return "Inventory freshness unavailable".to_string();
            },
        };
        if now.less(fetched_at) {
            return "Inventory timestamp is in the future (STALE). Ctrl-r refreshes server loads.".to_string();
        }
        let age = now.saturating_sub(fetched_at);
        let mut r = "Inventory: ".to_string();
        r.append(
            if self.inventory_from_cache {
                "cached"
            } else {
                "fetched"
            },
        );
        r.append(", ");
        r.append(format_age(age).as_str());
        r.append(" old (");
        r.append(
            if age.less(Duration::from_secs(86400)) {
                "fresh"
            } else {
                "STALE"
            },
        );
        r.append("). Ctrl-r refreshes server loads.");
        r
    }

    /// Sets the export directory that the user gave at the start, with the resolved path or why it
    /// could not be resolved.
    pub fn set_export_directory(&mut self, path: &str, resolved: Result<Vec<u8>, String>) -> (r:
        Result<(), String>)
        ensures
            old(self).wf() ==> final(self).wf(),
            match r {
                Ok(_) => path@.len() > 0 && (resolved matches Ok(directory) && final(self)@ == (
                AppModel {
                    export_directory: path@,
                    validated_export_directory: Some(directory@),
                    ..old(self)@
                })),
                Err(message) => final(self)@ == old(self)@ && (if path@.len() == 0 {
                    message@ == "Enter an export directory"@
                } else {
                    resolved matches Err(error) && message@ == error@
                }),
            },
    {
        if path.is_empty() {
            return Err("Enter an export directory".to_string());
        }
        match resolved {
            Ok(directory) => {
                self.export_directory.set(path);
                self.validated_export_directory = Some(directory);
                Ok(())
            },
            Err(error) => Err(error),
        }
    }

    /// Takes the key file that the user gave at the start, with the resolved export directory and
    /// the file's contents, or why they could not be had. The first screen is then skipped.
    pub fn preload_key_file(
        &mut self,
        path: &str,
        directory: Result<Vec<u8>, String>,
        contents: Result<SecretText, String>,
    ) -> (r: Result<AppAction, String>)
        ensures
            old(self).wf() ==> final(self).wf(),
            match (directory, contents) {
                (Err(error), _) => r matches Err(message) && message@ == error@ && final(self)@
                    == old(self)@,
                (Ok(_), Err(error)) => r matches Err(message) && message@
                    == "could not read key file "@ + path@ + ": "@ + error@ && final(self)@ == old(
                    self,
                )@,
                (Ok(directory), Ok(text)) => match identity_of(text@) {
                    Ok(identity) => r == Ok::<AppAction, String>(AppAction::LoadCache)
                        && final(self)@ == (AppModel {
                        key_source: KeySource::File,
                        key_path: path@,
                        identity: Some(identity),
                        validated_export_directory: Some(directory@),
                        ..old(self)@
                    }),
                    Err(error) => r matches Err(message) && message@ == error && final(self)@ == old(
                        self,
                    )@,
                },
            },
    {
        let directory = match directory {
            Ok(directory) => directory,
            Err(error) => {
                return Err(error);
            },
        };
        match RunIdentity::load(path, contents) {
            Ok(identity) => {
                self.key_source = KeySource::File;
                self.key_path.set(path);
                self.identity = Some(identity);
                self.validated_export_directory = Some(directory);
                Ok(AppAction::LoadCache)
            },
            Err(error) => Err(error.message()),
        }
    }
}

fn holds_text(list: &Vec<String>, text: &str) -> (r: bool)
    ensures
        r == string_views(list@).contains(text@),
{
    let ghost all = string_views(list@);
    let mut i: usize = 0;
    while i < list.len()
        invariant
            i <= list@.len(),
            all == string_views(list@),
            forall|k: int| 0 <= k < i ==> #[trigger] all[k] != text@,
        decreases list@.len() - i,
    {
        assert(all[i as int] == list@[i as int]@);
        if same_text(list[i].as_str(), text) {
            assert(all.contains(text@));
            return true;
        }
        i = i + 1;
    }
    false
}

proof fn lemma_pushed_text(list: Seq<Seq<char>>, text: Seq<char>)
    requires
        list.no_duplicates(),
        !list.contains(text),
    ensures
        list.push(text).no_duplicates(),
        list.push(text).to_set() == list.to_set().insert(text),
{
    let all = list.push(text);
    assert forall|t: Seq<char>| #[trigger] all.contains(t) == (list.contains(t) || t == text) by {
        if list.contains(t) {
            let k = choose|k: int| 0 <= k < list.len() && list[k] == t;
            assert(all[k] == t);
        }
        if t == text {
            assert(all[list.len() as int] == t);
        }
    }
    assert(all.to_set() =~= list.to_set().insert(text));
    assert forall|a: int, b: int|
        0 <= a < all.len() && 0 <= b < all.len() && a != b implies all[a] != all[b] by {
        if a < list.len() && b < list.len() {
            assert(list[a] != list[b]);
        } else if a < list.len() {
            assert(list.contains(list[a]));
        } else {
            assert(list.contains(list[b]));
        }
    }
}

fn copy_bytes(bytes: &Vec<u8>) -> (r: Vec<u8>)
    ensures
        r@ == bytes@,
{
    let mut r: Vec<u8> = Vec::new();
    let mut i: usize = 0;
    assert(r@ =~= bytes@.take(0));
    while i < bytes.len()
        invariant
            i <= bytes@.len(),
            r@ == bytes@.take(i as int),
        decreases bytes@.len() - i,
    {
        r.push(bytes[i]);
        assert(bytes@.take(i + 1) =~= bytes@.take(i as int).push(bytes@[i as int]));
        i = i + 1;
    }
    assert(bytes@.take(i as int) =~= bytes@);
    r
}

} // verus!
