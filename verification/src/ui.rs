//! The text on the interactive screens.
use crate::app::{
    active_models, attempt_index, confirmed_in, App, AppModel, ActiveModel, ActiveProbe, KeySource,
    RunEndReason, Screen,
};
use crate::finder::{outcome_name, outcome_name_spec};
use crate::inventory::{CitySummary, NordTarget, TargetModel};
use crate::keys::SecretText;
use crate::net::SocketAddr;
use crate::probing::{checks_of, Attempt, AttemptModel, AttemptOutcome, CheckMode};
use crate::text::{
    byte_length, byte_length_is_utf8_length, chars_of, decimal, decimal_spec, pad_left,
    pad_left_spec, pad_right, pad_right_spec,
};
use vstd::prelude::*;
use vstd::string::*;

verus! {

/// The name of a screen.
pub open spec fn step_name_spec(screen: Screen) -> Seq<char> {
    match screen {
        Screen::Setup => "01 SETUP"@,
        Screen::Loading => "02 INVENTORY"@,
        Screen::Locations => "03 LOCATION"@,
        Screen::ProbeSetup | Screen::Probing => "04 PROBE"@,
        Screen::Error => "ERROR"@,
    }
}

/// The name of a screen.
pub fn step_name(screen: Screen) -> (r: &'static str)
    ensures
        r@ == step_name_spec(screen),
{
    match screen {
        Screen::Setup => "01 SETUP",
        Screen::Loading => "02 INVENTORY",
        Screen::Locations => "03 LOCATION",
        Screen::ProbeSetup => "04 PROBE",
        Screen::Probing => "04 PROBE",
        Screen::Error => "ERROR",
    }
}

/// The keys that a screen knows.
pub open spec fn help_text_spec(screen: Screen) -> Seq<char> {
    match screen {
        Screen::Setup => {
            "Tab field  |  arrows change source  |  F2 show/hide paste  |  Enter continue  |  Ctrl-c quit"@
        },
        Screen::Loading => "Esc back  |  q/Ctrl-c quit"@,
        Screen::Locations => {
            "Tab filter/list  |  arrows select  |  Ctrl-r refresh loads  |  Enter choose  |  Esc back  |  Ctrl-c quit"@
        },
        Screen::ProbeSetup => {
            "Tab option  |  arrows adjust  |  Enter start  |  Esc back  |  q/Ctrl-c quit"@
        },
        Screen::Probing => {
            "arrows inspect plan  |  e export selected confirmed  |  Esc cancel/back  |  q/Ctrl-c quit"@
        },
        Screen::Error => "Esc setup  |  q/Ctrl-c quit"@,
    }
}

/// The keys that a screen knows.
pub fn help_text(screen: Screen) -> (r: &'static str)
    ensures
        r@ == help_text_spec(screen),
{
    match screen {
        Screen::Setup => {
            "Tab field  |  arrows change source  |  F2 show/hide paste  |  Enter continue  |  Ctrl-c quit"
        },
        Screen::Loading => "Esc back  |  q/Ctrl-c quit",
        Screen::Locations => {
            "Tab filter/list  |  arrows select  |  Ctrl-r refresh loads  |  Enter choose  |  Esc back  |  Ctrl-c quit"
        },
        Screen::ProbeSetup => {
            "Tab option  |  arrows adjust  |  Enter start  |  Esc back  |  q/Ctrl-c quit"
        },
        Screen::Probing => {
            "arrows inspect plan  |  e export selected confirmed  |  Esc cancel/back  |  q/Ctrl-c quit"
        },
        Screen::Error => "Esc setup  |  q/Ctrl-c quit",
    }
}

/// The name of a mode.
pub fn mode_name(mode: &CheckMode) -> (r: &'static str)
    ensures
        r@ == (if checks_of(*mode) is None {
            "handshake only"@
        } else {
            "full checks"@
        }),
{
    match mode {
        CheckMode::HandshakeOnly => "handshake only",
        CheckMode::Full(_) => "full checks",
    }
}

/// Whether a character can be part of a key in a path; a slash cannot.
pub open spec fn is_run_char(c: char) -> bool {
    'a' <= c <= 'z' || 'A' <= c <= 'Z' || '0' <= c <= '9' || c == '+' || c == '='
}

fn run_char(c: char) -> (r: bool)
    ensures
        r == is_run_char(c),
{
    ('a' <= c && c <= 'z') || ('A' <= c && c <= 'Z') || ('0' <= c && c <= '9') || c == '+' || c
        == '='
}

/// So many stars.
pub open spec fn stars(n: nat) -> Seq<char> {
    Seq::new(n, |i: int| '*')
}

/// From how many bytes on a run of key characters is hidden.
pub const MASKED_RUN: usize = 12;

/// What is shown of a run of characters: stars, where it is long enough to be part of a key.
pub open spec fn masked_run(run: Seq<char>) -> Seq<char> {
    if byte_length(run) >= MASKED_RUN {
        stars(run.len())
    } else {
        run
    }
}

/// Adds what is shown of a run of characters.
pub fn push_masked_run(output: &mut String, run: &str)
    ensures
        final(output)@ == old(output)@ + masked_run(run@),
{
    proof {
        byte_length_is_utf8_length(run@);
    }
    if run.as_bytes().len() >= MASKED_RUN {
        let count: usize = run.unicode_len();
        let mut i: usize = 0;
        assert(output@ =~= old(output)@ + stars(0));
        while i < count
            invariant
                i <= count,
                output@ == old(output)@ + stars(i as nat),
            decreases count - i,
        {
            output.push('*');
            i = i + 1;
            assert(output@ =~= old(output)@ + stars(i as nat));
        }
    } else {
        output.append(run);
    }
}

/// The length of the run of key characters at the start of `s`.
pub open spec fn run_length(s: Seq<char>) -> int
    decreases s.len(),
{
    if s.len() == 0 || !is_run_char(s[0]) {
        0
    } else {
        1 + run_length(s.drop_first())
    }
}

/// What is shown of a path: long runs of key characters are hidden.
pub open spec fn masked_path_spec(s: Seq<char>) -> Seq<char>
    decreases s.len(),
{
    let n = run_length(s);
    if 0 <= n < s.len() {
        masked_run(s.take(n)) + seq![s[n]] + masked_path_spec(s.skip(n + 1))
    } else {
        masked_run(s)
    }
}

proof fn lemma_run_length(s: Seq<char>, n: int)
    requires
        0 <= n <= s.len(),
        forall|k: int| 0 <= k < n ==> is_run_char(#[trigger] s[k]),
        n < s.len() ==> !is_run_char(s[n]),
    ensures
        run_length(s) == n,
    decreases s.len(),
{
    if n > 0 {
        assert(is_run_char(s[0]));
        assert forall|k: int| 0 <= k < n - 1 implies is_run_char(#[trigger] s.drop_first()[k]) by {
            assert(s.drop_first()[k] == s[k + 1]);
        }
        lemma_run_length(s.drop_first(), n - 1);
    }
}

/// What is shown of a path.
pub fn masked_path_value(value: &str) -> (r: String)
    ensures
        r@ == masked_path_spec(value@),
{
    let chars = chars_of(value);
    let mut masked = String::new();
    let mut start: usize = 0;
    let mut i: usize = 0;
    assert(value@.skip(0) =~= value@);
    assert(masked@ + masked_path_spec(value@) =~= masked_path_spec(value@));
    while i < chars.len()
        invariant
            chars@ == value@,
            start <= i <= value@.len(),
            forall|k: int| start <= k < i ==> is_run_char(#[trigger] value@[k]),
            masked@ + masked_path_spec(value@.skip(start as int)) == masked_path_spec(value@),
        decreases value@.len() - i,
    {
        if !run_char(chars[i]) {
            let run = value.substring_char(start, i);
            let ghost rest = value@.skip(start as int);
            let ghost before = masked@;
            push_masked_run(&mut masked, run);
            masked.push(chars[i]);
            proof {
                let n = i - start;
                assert(rest[n] == value@[i as int]);
                assert forall|k: int| 0 <= k < n implies is_run_char(#[trigger] rest[k]) by {
                    assert(rest[k] == value@[start + k]);
                }
                lemma_run_length(rest, n);
                assert(rest.take(n) =~= run@);
                assert(rest.skip(n + 1) =~= value@.skip(i + 1));
                assert(masked@ + masked_path_spec(value@.skip(i + 1)) =~= before
                    + masked_path_spec(rest));
            }
            start = i + 1;
        }
        i = i + 1;
    }
    let run = value.substring_char(start, i);
    proof {
        let rest = value@.skip(start as int);
        assert forall|k: int| 0 <= k < rest.len() implies is_run_char(#[trigger] rest[k]) by {
            assert(rest[k] == value@[start + k]);
        }
        lemma_run_length(rest, rest.len() as int);
        assert(rest =~= run@);
    }
    push_masked_run(&mut masked, run);
    masked
}

/// Whether so many characters from position `i` on are all key characters.
pub open spec fn key_run_at(s: Seq<char>, i: int, n: int) -> bool {
    0 <= i && i + n <= s.len() && forall|k: int| i <= k < i + n ==> is_run_char(#[trigger] s[k])
}

proof fn lemma_masked_run(run: Seq<char>, i: int)
    ensures
        !key_run_at(masked_run(run), i, MASKED_RUN as int),
{
    if key_run_at(masked_run(run), i, MASKED_RUN as int) {
        if byte_length(run) >= MASKED_RUN {
            assert(masked_run(run)[i] == '*');
            assert(is_run_char(masked_run(run)[i]));
        } else {
            lemma_byte_length_at_least(run);
        }
    }
}

proof fn lemma_byte_length_at_least(s: Seq<char>)
    ensures
        byte_length(s) >= s.len(),
    decreases s.len(),
{
    if s.len() > 0 {
        lemma_byte_length_at_least(s.drop_last());
    }
}

/// What is shown of a path holds no run of key characters that is long enough to be hidden.
pub proof fn masked_path_hides_keys(s: Seq<char>, i: int)
    ensures
        !key_run_at(masked_path_spec(s), i, MASKED_RUN as int),
    decreases s.len(),
{
    let n = run_length(s);
    let shown = masked_path_spec(s);
    if key_run_at(shown, i, MASKED_RUN as int) {
        if 0 <= n < s.len() {
            let head = masked_run(s.take(n));
            let rest = masked_path_spec(s.skip(n + 1));
            let at = head.len() as int;
            lemma_run_end(s);
            assert(shown[at] == s[n]);
            if i + MASKED_RUN <= at {
                assert forall|k: int| i <= k < i + MASKED_RUN implies is_run_char(
                    #[trigger] head[k],
                ) by {
                    assert(head[k] == shown[k]);
                }
                assert(key_run_at(head, i, MASKED_RUN as int));
                lemma_masked_run(s.take(n), i);
            } else if i > at {
                assert forall|k: int|
                    i - at - 1 <= k < i - at - 1 + MASKED_RUN implies is_run_char(
                    #[trigger] rest[k],
                ) by {
                    assert(rest[k] == shown[k + at + 1]);
                }
                assert(key_run_at(rest, i - at - 1, MASKED_RUN as int));
                masked_path_hides_keys(s.skip(n + 1), i - at - 1);
            } else {
                assert(is_run_char(shown[at]));
            }
        } else {
            lemma_masked_run(s, i);
        }
    }
}

proof fn lemma_run_end(s: Seq<char>)
    ensures
        0 <= run_length(s) <= s.len(),
        run_length(s) < s.len() ==> !is_run_char(s[run_length(s)]),
    decreases s.len(),
{
    if s.len() > 0 && is_run_char(s[0]) {
        lemma_run_end(s.drop_first());
    }
}

/// The number of characters, at most `u16::MAX`.
pub open spec fn short_length(s: Seq<char>) -> int {
    if s.len() <= u16::MAX {
        s.len() as int
    } else {
        u16::MAX as int
    }
}

/// How many columns of a text are scrolled away so that its end and the cursor are in the field.
pub open spec fn scroll_spec(s: Seq<char>, width: int) -> int {
    let room = if width > 0 {
        width - 1
    } else {
        0
    };
    if short_length(s) > room {
        short_length(s) - room
    } else {
        0
    }
}

fn short_count(value: &str) -> (r: u16)
    ensures
        r == short_length(value@),
{
    let count: usize = value.unicode_len();
    if count <= 65535 {
        count as u16
    } else {
        65535
    }
}

/// How many columns of a text are scrolled away so that its end and the cursor are in the field.
pub fn horizontal_scroll(value: &str, width: u16) -> (r: u16)
    ensures
        r == scroll_spec(value@, width as int),
{
    let length: u16 = short_count(value);
    let room: u16 = if width > 0 {
        width - 1
    } else {
        0
    };
    if length > room {
        length - room
    } else {
        0
    }
}

/// The column of the cursor in a field of the given width, behind the end of the text.
pub fn cursor_column(value: &str, width: u16) -> (r: u16)
    ensures
        r == (if short_length(value@) - scroll_spec(value@, width as int) < width as int - 1 {
            short_length(value@) - scroll_spec(value@, width as int)
        } else if width > 0 {
            width - 1
        } else {
            0
        }),
        width > 0 ==> r < width,
{
    let length: u16 = short_count(value);
    let scroll: u16 = horizontal_scroll(value, width);
    let room: u16 = if width > 0 {
        width - 1
    } else {
        0
    };
    let column: u16 = length - scroll;
    if column < room {
        column
    } else {
        room
    }
}

/// What the field for the key shows: a path with keys hidden, or stars for a pasted key unless the
/// user wants to see it.
pub open spec fn key_field_spec(app: AppModel) -> Seq<char> {
    match app.key_source {
        KeySource::File => masked_path_spec(app.key_path),
        KeySource::PasteOnce => if app.pasted_key.len() == 0 && app.identity is Some {
            "(loaded in memory; type or paste to replace)"@
        } else if app.reveal_pasted_key {
            app.pasted_key
        } else {
            stars(app.pasted_key.len())
        },
    }
}

/// What the field for the key shows.
pub fn key_field(app: &App) -> (r: SecretText)
    ensures
        r@ == key_field_spec(app@),
{
    match app.key_source {
        KeySource::File => SecretText::new(masked_path_value(app.key_path.as_str())),
        KeySource::PasteOnce => {
            if app.pasted_key.is_empty() && app.identity.is_some() {
                return SecretText::from_text("(loaded in memory; type or paste to replace)");
            }
            if app.reveal_pasted_key {
                return SecretText::from_text(app.pasted_key.as_str());
            }
            let count: usize = app.pasted_key.as_str().unicode_len();
            let mut text = SecretText::new(String::new());
            let mut i: usize = 0;
            assert(text@ =~= stars(0));
            while i < count
                invariant
                    i <= count,
                    text@ == stars(i as nat),
                decreases count - i,
            {
                text.push('*');
                i = i + 1;
                assert(text@ =~= stars(i as nat));
            }
            text
        },
    }
}

/// A pasted key that the user has not asked to see is not shown: neither on the field, where stars
/// stand for it, nor in a path.
pub proof fn hidden_key_is_not_shown(app: AppModel, i: int)
    requires
        app.key_source == KeySource::File || !app.reveal_pasted_key,
        app.key_source == KeySource::File || app.pasted_key.len() > 0,
    ensures
        !key_run_at(key_field_spec(app), i, MASKED_RUN as int),
{
    match app.key_source {
        KeySource::File => {
            masked_path_hides_keys(app.key_path, i);
        },
        KeySource::PasteOnce => {
            if key_run_at(key_field_spec(app), i, MASKED_RUN as int) {
                assert(key_field_spec(app)[i] == '*');
                assert(is_run_char(key_field_spec(app)[i]));
            }
        },
    }
}

/// The title of the field for the key.
pub fn key_title(source: KeySource, revealed: bool) -> (r: &'static str)
    ensures
        r@ == (match source {
            KeySource::File => " Private-key file path "@,
            KeySource::PasteOnce => if revealed {
                " Pasted private key (F2 hide) "@
            } else {
                " Pasted private key (F2 show) "@
            },
        }),
{
    match source {
        KeySource::File => " Private-key file path ",
        KeySource::PasteOnce => if revealed {
            " Pasted private key (F2 hide) "
        } else {
            " Pasted private key (F2 show) "
        },
    }
}

/// The row of a city in the list.
pub fn city_row(city: &CitySummary) -> (r: String)
    ensures
        r@ == pad_right_spec(city.country@, 28) + " "@ + pad_right_spec(city.city@, 24) + " "@
            + pad_left_spec(decimal_spec(city.count as int), 4) + " candidates"@,
{
    let mut r = pad_right(city.country.as_str(), 28);
    r.append(" ");
    r.append(pad_right(city.city.as_str(), 24).as_str());
    r.append(" ");
    r.append(pad_left(decimal(city.count as u64).as_str(), 4).as_str());
    r.append(" candidates");
    r
}

/// A number with at least two digits.
pub open spec fn two_digits_spec(n: int) -> Seq<char> {
    if n < 10 {
        "0"@ + decimal_spec(n)
    } else {
        decimal_spec(n)
    }
}

fn two_digits(n: usize) -> (r: String)
    ensures
        r@ == two_digits_spec(n as int),
{
    if n < 10 {
        let mut r = "0".to_string();
        r.append(decimal(n as u64).as_str());
        r
    } else {
        decimal(n as u64)
    }
}

/// What became of a planned server.
#[derive(Clone, Copy, Debug, PartialEq, Eq, Structural)]
pub enum PlanState {
    Exported,
    Confirmed,
    Unconfirmed,
    Failed,
    Active,
    Cancelled,
    NotNeeded,
    Skipped,
    Pending,
}

/// The label of what became of a planned server.
pub open spec fn plan_label_spec(state: PlanState) -> Seq<char> {
    match state {
        PlanState::Exported => "[E] EXPORTED"@,
        PlanState::Confirmed => "[+] CONFIRMED"@,
        PlanState::Unconfirmed => "[-] UNCONFIRMED"@,
        PlanState::Failed => "[!] ERROR"@,
        PlanState::Active => "[~] ACTIVE"@,
        PlanState::Cancelled => "[x] CANCELLED"@,
        PlanState::NotNeeded => "[=] NOT NEEDED"@,
        PlanState::Skipped => "[ ] SKIPPED"@,
        PlanState::Pending => "[ ] PENDING"@,
    }
}

/// The label of what became of a planned server.
pub fn plan_label(state: PlanState) -> (r: &'static str)
    ensures
        r@ == plan_label_spec(state),
{
    match state {
        PlanState::Exported => "[E] EXPORTED",
        PlanState::Confirmed => "[+] CONFIRMED",
        PlanState::Unconfirmed => "[-] UNCONFIRMED",
        PlanState::Failed => "[!] ERROR",
        PlanState::Active => "[~] ACTIVE",
        PlanState::Cancelled => "[x] CANCELLED",
        PlanState::NotNeeded => "[=] NOT NEEDED",
        PlanState::Skipped => "[ ] SKIPPED",
        PlanState::Pending => "[ ] PENDING",
    }
}

/// The position of the first running probe from `i` on at the server, or their number.
pub open spec fn active_index(active: Seq<ActiveModel>, target: TargetModel, i: int) -> int
    decreases active.len() - i,
{
    if i >= active.len() || active[i].target == target {
        i
    } else {
        active_index(active, target, i + 1)
    }
}

/// Why a server that was not tried and is not being tried is not.
pub open spec fn idle_state(app: AppModel) -> PlanState {
    if app.cancelling || app.run_end_reason == Some(RunEndReason::Cancelled) {
        PlanState::Cancelled
    } else if app.goal_reached() {
        PlanState::NotNeeded
    } else if app.probe_started is Some && !app.running {
        PlanState::Skipped
    } else {
        PlanState::Pending
    }
}

/// What became of a planned server.
pub open spec fn plan_state_spec(app: AppModel, target: TargetModel) -> PlanState {
    let i = attempt_index(app.attempts, target, 0);
    if i < app.attempts.len() {
        if crate::app::exported_to(app.exported_attempts, app.attempts[i].id) is Some {
            PlanState::Exported
        } else {
            match app.attempts[i].outcome@ {
                AttemptModel::Confirmed => PlanState::Confirmed,
                AttemptModel::Unconfirmed => PlanState::Unconfirmed,
                AttemptModel::Error(_) => PlanState::Failed,
            }
        }
    } else if active_index(app.active, target, 0) < app.active.len() {
        PlanState::Active
    } else {
        idle_state(app)
    }
}

fn find_attempt<'a>(app: &'a App, target: &NordTarget) -> (r: Option<&'a Attempt>)
    ensures
        match r {
            Some(attempt) => attempt_index(app@.attempts, target@, 0) < app@.attempts.len()
                && *attempt == app@.attempts[attempt_index(app@.attempts, target@, 0)],
            None => attempt_index(app@.attempts, target@, 0) >= app@.attempts.len(),
        },
{
    let mut i: usize = 0;
    while i < app.attempts.len()
        invariant
            i <= app.attempts@.len(),
            attempt_index(app.attempts@, target@, 0) == attempt_index(
                app.attempts@,
                target@,
                i as int,
            ),
        decreases app.attempts@.len() - i,
    {
        if crate::app::same_target(&app.attempts[i].target, target) {
            return Some(&app.attempts[i]);
        }
        i = i + 1;
    }
    None
}

fn find_active<'a>(app: &'a App, target: &NordTarget) -> (r: Option<&'a ActiveProbe>)
    ensures
        match r {
            Some(probe) => active_index(app@.active, target@, 0) < app@.active.len() && probe@
                == app@.active[active_index(app@.active, target@, 0)],
            None => active_index(app@.active, target@, 0) >= app@.active.len(),
        },
{
    let ghost all = app@.active;
    let mut i: usize = 0;
    while i < app.active.len()
        invariant
            i <= app.active@.len(),
            all == active_models(app.active@),
            active_index(all, target@, 0) == active_index(all, target@, i as int),
        decreases app.active@.len() - i,
    {
        assert(all[i as int] == app.active@[i as int]@);
        if crate::app::same_target(&app.active[i].target, target) {
            return Some(&app.active[i]);
        }
        i = i + 1;
    }
    None
}

fn idle(app: &App) -> (r: PlanState)
    ensures
        r == idle_state(app@),
{
    if app.cancelling || app.run_cancelled() {
        PlanState::Cancelled
    } else if app.goal_reached() {
        PlanState::NotNeeded
    } else if app.run_finished() {
        PlanState::Skipped
    } else {
        PlanState::Pending
    }
}

/// What became of a planned server.
pub fn plan_state(app: &App, target: &NordTarget) -> (r: PlanState)
    ensures
        r == plan_state_spec(app@, target@),
{
    match find_attempt(app, target) {
        Some(attempt) => {
            if app.exported_path(attempt.id).is_some() {
                return PlanState::Exported;
            }
            match &attempt.outcome {
                AttemptOutcome::Confirmed => PlanState::Confirmed,
                AttemptOutcome::Unconfirmed => PlanState::Unconfirmed,
                AttemptOutcome::Error(_) => PlanState::Failed,
            }
        },
        None => match find_active(app, target) {
            Some(_) => PlanState::Active,
            None => idle(app),
        },
    }
}

/// The row of a planned server, behind its label: its place in the plan, the number of its key, its
/// name, endpoint and load.
pub fn plan_row(app: &App, index: usize, target: &NordTarget) -> (r: String)
    requires
        index < usize::MAX,
    ensures
        r@ == plan_row_spec(
            index as int,
            crate::app::group_number_spec(app@, target.public_key@),
            target@,
        ),
{
    let group: usize = app.group_number(target.public_key.as_str());
    let mut r = "P".to_string();
    r.append(two_digits(index + 1).as_str());
    r.append(" G");
    r.append(two_digits(group).as_str());
    r.append(" ");
    r.append(pad_right(target.hostname.as_str(), 16).as_str());
    r.append(" ");
    r.append(pad_right(target.endpoint.text().as_str(), 21).as_str());
    r.append(" ");
    r.append(pad_left(decimal(target.load as u64).as_str(), 3).as_str());
    r.append("%");
    r
}

/// The row of a planned server, behind its label.
pub open spec fn plan_row_spec(index: int, group: int, target: TargetModel) -> Seq<char> {
    "P"@ + two_digits_spec(index + 1) + " G"@ + two_digits_spec(group) + " "@ + pad_right_spec(
        target.hostname,
        16,
    ) + " "@ + pad_right_spec(SocketAddr::text_spec(target.endpoint), 21) + " "@ + pad_left_spec(
        decimal_spec(target.load as int),
        3,
    ) + "%"@
}

/// The row on the last attempt.
pub fn last_attempt_row(attempt: &Attempt) -> (r: String)
    ensures
        r@ == "LAST "@ + pad_right_spec(outcome_name_spec(attempt.outcome@), 11) + " "@
            + pad_right_spec(attempt.target.hostname@, 16) + " "@ + pad_right_spec(
            SocketAddr::text_spec(attempt.target.endpoint@),
            21,
        ) + " "@ + pad_left_spec(
            decimal_spec(
                match attempt.report {
                    Some(report) => report.duration_ms as int,
                    None => 0,
                },
            ),
            5,
        ) + "ms"@,
{
    let duration: u64 = match &attempt.report {
        Some(report) => report.duration_ms,
        None => 0,
    };
    let mut r = "LAST ".to_string();
    r.append(pad_right(outcome_name(&attempt.outcome), 11).as_str());
    r.append(" ");
    r.append(pad_right(attempt.target.hostname.as_str(), 16).as_str());
    r.append(" ");
    r.append(pad_right(attempt.target.endpoint.text().as_str(), 21).as_str());
    r.append(" ");
    r.append(pad_left(decimal(duration).as_str(), 5).as_str());
    r.append("ms");
    r
}

/// The row on a running probe, with the number of its key.
pub fn active_row(probe: &ActiveProbe, group: usize) -> (r: String)
    ensures
        r@ == "ACTIVE G"@ + two_digits_spec(group as int) + " "@ + pad_right_spec(
            probe.target.hostname@,
            16,
        ) + " "@ + pad_right_spec(SocketAddr::text_spec(probe.target.endpoint@), 21) + " "@
            + probe.phase@,
{
    let mut r = "ACTIVE G".to_string();
    r.append(two_digits(group).as_str());
    r.append(" ");
    r.append(pad_right(probe.target.hostname.as_str(), 16).as_str());
    r.append(" ");
    r.append(pad_right(probe.target.endpoint.text().as_str(), 21).as_str());
    r.append(" ");
    r.append(probe.phase.as_str());
    r
}

/// A server with its endpoint.
pub open spec fn server_at(target: TargetModel) -> Seq<char> {
    target.hostname + " at "@ + SocketAddr::text_spec(target.endpoint)
}

fn server_text(target: &NordTarget) -> (r: String)
    ensures
        r@ == server_at(target@),
{
    let mut r = target.hostname.clone();
    r.append(" at ");
    r.append(target.endpoint.text().as_str());
    r
}

/// What is known of the selected server.
pub open spec fn detail_spec(app: AppModel) -> Seq<char> {
    if !(0 <= app.plan_selected < app.planned_targets.len()) {
        "No candidate is selected."@
    } else {
        let target = app.planned_targets[app.plan_selected];
        let i = attempt_index(app.attempts, target, 0);
        let k = active_index(app.active, target, 0);
        if i < app.attempts.len() {
            attempt_detail(
                app.attempts[i],
                crate::app::exported_to(app.exported_attempts, app.attempts[i].id),
            )
        } else if k < app.active.len() {
            "Probing "@ + server_at(target) + ": "@ + app.active[k].phase + "."@
        } else {
            match idle_state(app) {
                PlanState::Cancelled => "Candidate "@ + server_at(target)
                    + " will not be attempted because cancellation was requested."@,
                PlanState::NotNeeded => "Candidate "@ + server_at(target)
                    + " was not needed because the confirmation goal was reached."@,
                PlanState::Skipped => "Candidate "@ + server_at(target)
                    + " was not attempted before the run ended."@,
                _ => "Pending candidate "@ + server_at(target) + "."@,
            }
        }
    }
}

/// What is known of an attempt that has ended, and was exported or not.
pub open spec fn attempt_detail(attempt: Attempt, exported: Option<Seq<char>>) -> Seq<char> {
    let number = "Attempt #"@ + decimal_spec(attempt.id as int);
    match exported {
        Some(path) => number + " confirmed and exported to "@ + path + "."@,
        None => match attempt.outcome@ {
            AttemptModel::Confirmed => number + " confirmed "@ + server_at(attempt.target@)
                + ". Press e to export this selected candidate."@,
            AttemptModel::Unconfirmed => number
                + " was unconfirmed: no authenticated handshake response arrived before the deadline."@,
            AttemptModel::Error(error) => number + " error: "@ + error,
        },
    }
}

fn attempt_text(attempt: &Attempt, exported: Option<&String>) -> (r: String)
    ensures
        r@ == attempt_detail(
            *attempt,
            match exported {
                Some(path) => Some(path@),
                None => None,
            },
        ),
{
    let mut r = "Attempt #".to_string();
    r.append(decimal(attempt.id).as_str());
    match exported {
        Some(path) => {
            r.append(" confirmed and exported to ");
            r.append(path.as_str());
            r.append(".");
        },
        None => match &attempt.outcome {
            AttemptOutcome::Confirmed => {
                r.append(" confirmed ");
                r.append(server_text(&attempt.target).as_str());
                r.append(". Press e to export this selected candidate.");
            },
            AttemptOutcome::Unconfirmed => {
                r.append(
                    " was unconfirmed: no authenticated handshake response arrived before the deadline.",
                );
            },
            AttemptOutcome::Error(error) => {
                r.append(" error: ");
                r.append(error.as_str());
            },
        },
    }
    r
}

/// What is known of the selected server.
pub fn selected_detail(app: &App) -> (r: String)
    ensures
        r@ == detail_spec(app@),
{
    if app.plan_selected >= app.planned_targets.len() {
        return "No candidate is selected.".to_string();
    }
    let target = &app.planned_targets[app.plan_selected];
    assert(app@.planned_targets[app.plan_selected as int] == target@);
    match find_attempt(app, target) {
        Some(attempt) => attempt_text(attempt, app.exported_path(attempt.id)),
        None => match find_active(app, target) {
            Some(probe) => {
                let mut r = "Probing ".to_string();
                r.append(server_text(target).as_str());
                r.append(": ");
                r.append(probe.phase.as_str());
                r.append(".");
                r
            },
            None => {
                let state = idle(app);
                let mut r = if state == PlanState::Pending {
                    "Pending candidate ".to_string()
                } else {
                    "Candidate ".to_string()
                };
                r.append(server_text(target).as_str());
                r.append(
                    match state {
                        PlanState::Cancelled => {
                            " will not be attempted because cancellation was requested."
                        },
                        PlanState::NotNeeded => {
                            " was not needed because the confirmation goal was reached."
                        },
                        PlanState::Skipped => " was not attempted before the run ended.",
                        _ => ".",
                    },
                );
                r
            },
        },
    }
}

/// The place of the selected servers, if there are any.
pub open spec fn place_spec(app: AppModel) -> Option<Seq<char>> {
    if app.selected_targets.len() == 0 {
        None
    } else {
        Some(app.selected_targets[0].city + ", "@ + app.selected_targets[0].country)
    }
}

/// The place of the selected servers, if there are any.
pub fn place(app: &App) -> (r: Option<String>)
    ensures
        place_spec(app@) == (match r {
            Some(text) => Some(text@),
            None => None,
        }),
{
    if app.selected_targets.len() == 0 {
        return None;
    }
    assert(app@.selected_targets[0] == app.selected_targets@[0]@);
    let mut r = app.selected_targets[0].city.clone();
    r.append(", ");
    r.append(app.selected_targets[0].country.as_str());
    Some(r)
}

/// The lines of the options where probes are set up, without their marks.
pub fn option_lines(app: &App) -> (r: (String, String, String))
    ensures
        (r.0)@ == "Confirmation goal           "@ + decimal_spec(app@.options.desired),
        (r.1)@ == "Candidate budget           "@ + decimal_spec(app@.options.maximum),
        (r.2)@ == "Check mode                  "@ + (if app@.options.checks is None {
            "HANDSHAKE ONLY"@
        } else {
            "FULL CHECKS"@
        }),
{
    let mut goal = "Confirmation goal           ".to_string();
    goal.append(decimal(app.options.desired_confirmed as u64).as_str());
    let mut budget = "Candidate budget           ".to_string();
    budget.append(decimal(app.options.max_candidates as u64).as_str());
    let mut mode = "Check mode                  ".to_string();
    mode.append(
        match &app.options.mode {
            CheckMode::HandshakeOnly => "HANDSHAKE ONLY",
            CheckMode::Full(_) => "FULL CHECKS",
        },
    );
    (goal, budget, mode)
}

/// The line on the plan of a run.
pub fn run_title(app: &App) -> (r: String)
    ensures
        r@ == (match place_spec(app@) {
            Some(place) => place,
            None => Seq::empty(),
        }) + "  |  plan "@ + decimal_spec(app@.planned_targets.len() as int) + "  |  "@ + (
        if app@.options.checks is None {
            "handshake only"@
        } else {
            "full checks"@
        }),
{
    let mut r = match place(app) {
        Some(place) => place,
        None => String::new(),
    };
    assert(r@ =~= match place_spec(app@) {
        Some(place) => place,
        None => Seq::empty(),
    });
    r.append("  |  plan ");
    r.append(decimal(app.planned_targets.len() as u64).as_str());
    r.append("  |  ");
    r.append(mode_name(&app.options.mode));
    r
}

/// The line on the progress of a run, with the time that it has taken as text.
pub fn run_progress(app: &App, elapsed: &str) -> (r: String)
    ensures
        r@ == "Goal "@ + decimal_spec(app@.options.desired) + "  |  confirmed "@ + decimal_spec(
            confirmed_in(app@.attempts),
        ) + "  |  done "@ + decimal_spec(app@.attempts.len() as int) + "  |  active "@
            + decimal_spec(app@.active.len() as int) + "  |  "@ + elapsed@ + "s"@,
{
    let mut r = "Goal ".to_string();
    r.append(decimal(app.options.desired_confirmed as u64).as_str());
    r.append("  |  confirmed ");
    r.append(decimal(app.confirmed_count() as u64).as_str());
    r.append("  |  done ");
    r.append(decimal(app.attempts.len() as u64).as_str());
    r.append("  |  active ");
    r.append(decimal(app.active.len() as u64).as_str());
    r.append("  |  ");
    r.append(elapsed);
    r.append("s");
    r
}

/// The line on the identity.
pub fn identity_line(app: &App) -> (r: String)
    ensures
        r@ == (match app@.identity {
            Some((private_key, public_key)) => "Identity loaded; client public key: "@ + public_key,
            None => "Identity: not loaded"@,
        }),
{
    match app.identity_public_key() {
        Some(key) => {
            let mut r = "Identity loaded; client public key: ".to_string();
            r.append(key);
            r
        },
        None => "Identity: not loaded".to_string(),
    }
}

} // verus!
