//! What the user is shown: the state of the plan, masked paths, ages and file names.
use crate::app::{format_age_spec, AppModel, RunEndReason};
use crate::cache::{SwapModel, SwapStep};
use crate::credentials::normalize_spec;
use crate::export::{export_name_spec, file_char, sanitize_hostname_spec, trim_start_dots};
use crate::inventory::TargetModel;
use crate::keys::{base64_text, is_key_notation};
use crate::matching::utf8_size;
use crate::net::hex_value;
use crate::paths::{file_name_spec, join_path_spec};
use crate::pieces::pieces_join_at_separators;
use crate::probing::AttemptModel;
use crate::screens::{confirmed_ones, first_attempt, was_exported};
use crate::text::{byte_length_is_utf8_length, decimal_spec, split_spec, trim_end_char_spec};
use crate::ui::{
    active_index, is_run_char, masked_path_spec, plan_state_spec, run_length, scroll_spec, stars,
    PlanState,
};
use vstd::prelude::*;
use vstd::string::*;

verus! {

/// Whether a probe of the server runs.
pub open spec fn is_probed(app: AppModel, target: TargetModel) -> bool {
    exists|i: int| 0 <= i < app.active.len() && (#[trigger] app.active[i]).target == target
}

/// Whether some attempt at the server has ended.
pub open spec fn was_tried(app: AppModel, target: TargetModel) -> bool {
    exists|i: int| 0 <= i < app.attempts.len() && (#[trigger] app.attempts[i]).target@ == target
}

proof fn lemma_active(app: AppModel, target: TargetModel, i: int)
    requires
        0 <= i <= app.active.len(),
    ensures
        active_index(app.active, target, i) < app.active.len() <==> exists|k: int|
            i <= k < app.active.len() && (#[trigger] app.active[k]).target == target,
    decreases app.active.len() - i,
{
    if i < app.active.len() && app.active[i].target != target {
        lemma_active(app, target, i + 1);
    }
}

proof fn lemma_untried(app: AppModel, target: TargetModel, i: int)
    requires
        0 <= i <= app.attempts.len(),
        !was_tried(app, target),
    ensures
        crate::app::attempt_index(app.attempts, target, i) == app.attempts.len(),
    decreases app.attempts.len() - i,
{
    if i < app.attempts.len() {
        assert(app.attempts[i].target@ != target);
        lemma_untried(app, target, i + 1);
    }
}

/// The plan shows of a server that was tried whether it was exported, or else how its first attempt
/// ended.
pub proof fn plan_shows_how_attempts_ended(app: AppModel, target: TargetModel, k: int)
    requires
        first_attempt(app.attempts, target, k),
    ensures
        plan_state_spec(app, target) == (if was_exported(app, app.attempts[k].id) {
            PlanState::Exported
        } else {
            match app.attempts[k].outcome@ {
                AttemptModel::Confirmed => PlanState::Confirmed,
                AttemptModel::Unconfirmed => PlanState::Unconfirmed,
                AttemptModel::Error(_) => PlanState::Failed,
            }
        }),
{
    crate::screens::lemma_attempt_found(app.attempts, target, k, 0);
    crate::screens::lemma_exported(app.exported_attempts, app.attempts[k].id);
}

/// The plan shows of a server that was not tried whether it is being probed, or else whether it will
/// still be: not after a cancellation, not once enough servers are confirmed, and not when the run is
/// over.
pub proof fn plan_shows_what_is_left(app: AppModel, target: TargetModel)
    requires
        !was_tried(app, target),
    ensures
        plan_state_spec(app, target) == (if is_probed(app, target) {
            PlanState::Active
        } else if app.cancelling || app.run_end_reason == Some(RunEndReason::Cancelled) {
            PlanState::Cancelled
        } else if confirmed_ones(app.attempts).len() >= app.options.desired {
            PlanState::NotNeeded
        } else if app.probe_started is Some && !app.running {
            PlanState::Skipped
        } else {
            PlanState::Pending
        }),
{
    lemma_untried(app, target, 0);
    lemma_active(app, target, 0);
    crate::screens::lemma_confirmed(app.attempts);
}

proof fn lemma_run(run: Seq<char>, rest: Seq<char>)
    requires
        forall|i: int| 0 <= i < run.len() ==> is_run_char(#[trigger] run[i]),
        rest.len() > 0 ==> !is_run_char(rest[0]),
    ensures
        run_length(run + rest) == run.len(),
    decreases run.len(),
{
    let s = run + rest;
    if run.len() > 0 {
        assert(is_run_char(run[0]));
        assert(s.drop_first() =~= run.drop_first() + rest);
        assert forall|i: int| 0 <= i < run.drop_first().len() implies is_run_char(
            #[trigger] run.drop_first()[i],
        ) by {
            assert(run.drop_first()[i] == run[i + 1]);
        }
        lemma_run(run.drop_first(), rest);
    } else {
        assert(s =~= rest);
    }
}

/// Long runs of the characters of keys are masked in a path, each for itself, and everything else is
/// shown as it is.
pub proof fn long_runs_are_masked(run: Seq<char>, sign: char, rest: Seq<char>)
    requires
        forall|i: int| 0 <= i < run.len() ==> is_run_char(#[trigger] run[i]),
        !is_run_char(sign),
    ensures
        masked_path_spec(run + seq![sign] + rest) == masked_path_spec(run) + seq![sign]
            + masked_path_spec(rest),
        utf8_size(run) < 12 ==> masked_path_spec(run) == run,
        utf8_size(run) >= 12 ==> masked_path_spec(run) == stars(run.len()),
{
    byte_length_is_utf8_length(run);
    let nothing = Seq::<char>::empty();
    lemma_run(run, nothing);
    assert(run + nothing =~= run);
    let tail = seq![sign] + rest;
    let s = run + seq![sign] + rest;
    assert(s =~= run + tail);
    lemma_run(run, tail);
    assert(s.take(run.len() as int) =~= run);
    assert(s[run.len() as int] == sign);
    assert(s.skip(run.len() as int + 1) =~= rest);
}

/// The end of a text that is entered stays in sight: only what does not fit is scrolled away, with room
/// for the cursor.
pub proof fn end_of_entry_stays_in_sight(s: Seq<char>, width: int)
    requires
        width > 0,
        s.len() <= 65535,
    ensures
        0 <= scroll_spec(s, width) <= s.len(),
        s.len() - scroll_spec(s, width) < width,
        scroll_spec(s, width) > 0 ==> s.len() - scroll_spec(s, width) == width - 1,
{
}

/// An age is shown in its two largest units, in whole ones.
pub proof fn ages_are_shown_in_largest_units(days: int, hours: int, minutes: int, seconds: int)
    requires
        days >= 0,
        0 <= hours < 24,
        0 <= minutes < 60,
        0 <= seconds < 60,
    ensures
        format_age_spec(days * 86400 + hours * 3600 + minutes * 60 + seconds) == (if days > 0 {
            decimal_spec(days) + "d "@ + decimal_spec(hours) + "h"@
        } else if hours > 0 {
            decimal_spec(hours) + "h "@ + decimal_spec(minutes) + "m"@
        } else if minutes > 0 {
            decimal_spec(minutes) + "m"@
        } else {
            decimal_spec(seconds) + "s"@
        }),
{
    let n = days * 86400 + hours * 3600 + minutes * 60 + seconds;
    assert(n / 86400 == days);
    assert(n / 3600 == days * 24 + hours);
    assert((days * 24 + hours) % 24 == hours);
    assert(n / 60 == (days * 24 + hours) * 60 + minutes);
    assert(((days * 24 + hours) * 60 + minutes) % 60 == minutes);
}

/// Whether a character can stand in the name of a file.
pub open spec fn is_plain_char(c: char) -> bool {
    'a' <= c <= 'z' || 'A' <= c <= 'Z' || '0' <= c <= '9' || c == '-' || c == '.'
}

proof fn lemma_file_char(c: char)
    ensures
        file_char(c) == (if is_plain_char(c) {
            c
        } else {
            '_'
        }),
{
}

/// The name of a file keeps every character of the host name that can stand there and has an underscore
/// for every other, without the dots at both ends.
pub proof fn host_names_make_file_names(hostname: Seq<char>, k: int)
    requires
        hostname.len() > 0,
        hostname[0] != '.',
        hostname.last() != '.',
        0 <= k < hostname.len(),
    ensures
        sanitize_hostname_spec(hostname).len() == hostname.len(),
        sanitize_hostname_spec(hostname)[k] == (if is_plain_char(hostname[k]) {
            hostname[k]
        } else {
            '_'
        }),
        sanitize_hostname_spec(seq!['.'] + hostname) == sanitize_hostname_spec(hostname),
        sanitize_hostname_spec(hostname.push('.')) == sanitize_hostname_spec(hostname),
{
    let map = |c: char| file_char(c);
    let plain = hostname.map_values(map);
    assert forall|i: int| 0 <= i < hostname.len() implies #[trigger] plain[i] == (if is_plain_char(
        hostname[i],
    ) {
        hostname[i]
    } else {
        '_'
    }) by {
        lemma_file_char(hostname[i]);
    }
    assert(plain[0] != '.' && plain.last() != '.') by {
        assert(plain.last() == plain[hostname.len() - 1]);
    }
    assert(trim_start_dots(plain) == plain);
    assert(trim_end_char_spec(plain, '.') == plain);
    let dotted = (seq!['.'] + hostname).map_values(map);
    lemma_file_char('.');
    assert(dotted =~= seq!['.'] + plain);
    assert(dotted.drop_first() =~= plain);
    assert(trim_start_dots(dotted) == plain);
    let ended = hostname.push('.').map_values(map);
    assert(ended =~= plain.push('.'));
    assert(ended.drop_last() =~= plain);
    assert(trim_start_dots(ended) == ended);
    assert(trim_end_char_spec(ended, '.') == plain);
}

/// A key in hexadecimal, of either case, is taken for the same key in base64, unless the text is one in
/// base64 already.
pub proof fn hexadecimal_keys_are_taken(s: Seq<char>, key: Seq<u8>)
    requires
        s.len() == 64,
        key.len() == 32,
        !is_key_notation(s),
        forall|i: int|
            0 <= i < 32 ==> hex_value(#[trigger] s[2 * i]) == Some((key[i] / 16) as int)
                && hex_value(s[2 * i + 1]) == Some((key[i] % 16) as int),
    ensures
        normalize_spec(s) == Some(base64_text(key)),
{
    assert forall|i: int| 0 <= i < 64 implies (hex_value(#[trigger] s[i]) is Some) by {
        let k = i / 2;
        assert(hex_value(s[2 * k]) == Some((key[k] / 16) as int));
        assert(i == 2 * k || i == 2 * k + 1);
    }
    assert(crate::credentials::all_hex(s));
    let found = crate::credentials::hex_key(s).unwrap();
    assert forall|i: int| 0 <= i < 32 implies found[i] == key[i] by {
        assert(hex_value(s[2 * i]) == Some((key[i] / 16) as int));
        assert((key[i] / 16) * 16 + key[i] % 16 == key[i]);
    }
    assert(found =~= key);
}

/// The last part of a path is the name of its file, whatever stands before it; slashes at the end do not
/// count.
pub proof fn last_part_names_the_file(directory: Seq<char>, name: Seq<char>)
    requires
        name.len() > 0,
        !name.contains('/'),
        name != "."@,
        name != ".."@,
    ensures
        file_name_spec(directory + seq!['/'] + name) == Some(name),
        file_name_spec(name) == Some(name),
        file_name_spec(directory.push('/')) == file_name_spec(directory),
        file_name_spec(join_path_spec(directory, name)) == Some(name),
{
    reveal_strlit("/");
    assert("/"@ =~= seq!['/']);
    let nothing = Seq::<char>::empty();
    pieces_join_at_separators(directory, '/', name);
    pieces_join_at_separators(name, '/', name);
    pieces_join_at_separators(directory, '/', nothing);
    pieces_join_at_separators(nothing, '/', nothing);
    assert(directory.push('/') =~= directory + seq!['/'] + nothing);
    let parts = split_spec(directory, '/');
    assert((parts + seq![name]).last() == name);
    assert((parts + seq![nothing]).last() == nothing);
    assert((parts + seq![nothing]).drop_last() =~= parts);
    assert(seq![name].last() == name);
    if directory.len() == 0 {
        assert(directory + name =~= name);
    } else if directory.last() == '/' {
        let front = directory.drop_last();
        assert(directory + name =~= front + seq!['/'] + name);
        pieces_join_at_separators(front, '/', name);
        assert((split_spec(front, '/') + seq![name]).last() == name);
    }
}

/// A replacement of the cache succeeds at once, or after the old cache was put aside; it fails with a
/// message otherwise, and whenever it fails the temporary file is removed.
pub proof fn replacement_succeeds_or_tells(swap: SwapModel, error: Seq<char>)
    requires
        swap.error is None,
    ensures
        ({
            let first = SwapModel { step: SwapStep::Install, ..swap };
            let second = first.advance(Err(error));
            let third = second.advance(Ok(()));
            let fourth = third.advance(Ok(()));
            let fifth = fourth.advance(Ok(()));
            &&& first.advance(Ok(())).step == SwapStep::Done && first.advance(Ok(())).error is None
            &&& second.step == SwapStep::Inspect
            &&& third.step == SwapStep::Preserve
            &&& fourth.step == SwapStep::Replace
            &&& fifth.step == SwapStep::Forget && fifth.error is None
            &&& second.advance(Err(error)).step == SwapStep::Discard
            &&& second.advance(Err(error)).error is Some
            &&& third.advance(Err(error)).step == SwapStep::Discard
            &&& third.advance(Err(error)).error is Some
            &&& fourth.advance(Err(error)).step == SwapStep::Restore
            &&& fourth.advance(Err(error)).advance(Ok(())).step == SwapStep::Discard
            &&& fourth.advance(Err(error)).advance(Ok(())).error is Some
            &&& fourth.advance(Err(error)).advance(Err(error)).error is Some
        }),
{
}

/// The first export of a name has no number, and every further one has its number behind the name.
pub proof fn exports_are_numbered(stem: Seq<char>, n: int)
    requires
        n > 0,
    ensures
        export_name_spec(stem, 0) == stem + ".conf"@,
        export_name_spec(stem, n) == stem + ("-"@ + decimal_spec(n)) + ".conf"@,
{
    assert(stem + "-"@ + decimal_spec(n) =~= stem + ("-"@ + decimal_spec(n)));
}

} // verus!
