//! The text that the command line prints, and the decisions behind it.
use crate::config::{cidr_parts, ConfigModel, Ipv4Cidr, ProbeConfig};
use crate::net::{IpAddr, Ipv4Addr, SocketAddr};
use crate::probe::{PlanModel, ProbePlan};
use crate::report::{
    option_text, EventModel, PhaseModel, PhaseResult, PhaseStatus, ProbeEvent, ProbeEventKind, ProbeReport,
    ReportModel, Verdict,
};
use crate::text::{
    center, center_spec, decimal, decimal_spec, pad_left, pad_left_spec, pad_right, pad_right_spec,
    differs_from, no_overlap, occurs, replace, replace_spec, replaced_text_is_gone, string_views,
};
use crate::time::Duration;
use std::str::Utf8Error;
use vstd::prelude::*;
use vstd::string::*;
use vstd::utf8::{encode_utf8, valid_utf8};

verus! {

/// The largest configuration file that is read.
pub const MAX_CONFIG_FILE_BYTES: u64 = 1_048_576;

/// The largest private key file that is read.
pub const MAX_PRIVATE_KEY_FILE_BYTES: u64 = 4096;

/// When output is colored.
#[derive(Clone, Copy, Debug, PartialEq, Eq, Structural)]
pub enum ColorChoice {
    Auto,
    Always,
    Never,
}

/// Which streams are colored.
#[derive(Clone, Copy, Debug, PartialEq, Eq, Structural)]
pub struct ColorPolicy {
    pub stdout: bool,
    pub stderr: bool,
}

/// Whether a stream is colored: without an explicit choice only a terminal is, unless the user
/// wants no color.
pub open spec fn color_enabled_spec(choice: ColorChoice, terminal: bool, no_color: bool) -> bool {
    match choice {
        ColorChoice::Auto => terminal && !no_color,
        ColorChoice::Always => true,
        ColorChoice::Never => false,
    }
}

/// Whether a stream is colored.
pub fn color_enabled(choice: ColorChoice, terminal: bool, no_color: bool) -> (r: bool)
    ensures
        r == color_enabled_spec(choice, terminal, no_color),
{
    match choice {
        ColorChoice::Auto => terminal && !no_color,
        ColorChoice::Always => true,
        ColorChoice::Never => false,
    }
}

/// The text in the given color, or plain.
pub open spec fn paint_spec(enabled: bool, code: Seq<char>, value: Seq<char>) -> Seq<char> {
    if enabled {
        "\x1b["@ + code + "m"@ + value + "\x1b[0m"@
    } else {
        value
    }
}

/// The text in the color with the given number, or plain.
pub fn paint(enabled: bool, code: u8, value: &str) -> (r: String)
    ensures
        r@ == paint_spec(enabled, decimal_spec(code as int), value@),
{
    if enabled {
        let mut r = "\x1b[".to_string();
        r.append(decimal(code as u64).as_str());
        r.append("m");
        r.append(value);
        r.append("\x1b[0m");
        r
    } else {
        value.to_string()
    }
}

impl ColorPolicy {
    pub fn new(
        choice: ColorChoice,
        stdout_terminal: bool,
        stderr_terminal: bool,
        no_color: bool,
    ) -> (r: ColorPolicy)
        ensures
            r.stdout == color_enabled_spec(choice, stdout_terminal, no_color),
            r.stderr == color_enabled_spec(choice, stderr_terminal, no_color),
    {
        ColorPolicy {
            stdout: color_enabled(choice, stdout_terminal, no_color),
            stderr: color_enabled(choice, stderr_terminal, no_color),
        }
    }

    /// The text for the standard output.
    pub fn out(&self, code: u8, value: &str) -> (r: String)
        ensures
            r@ == paint_spec(self.stdout, decimal_spec(code as int), value@),
    {
        paint(self.stdout, code, value)
    }

    /// The text for the standard error stream.
    pub fn err(&self, code: u8, value: &str) -> (r: String)
        ensures
            r@ == paint_spec(self.stderr, decimal_spec(code as int), value@),
    {
        paint(self.stderr, code, value)
    }
}

/// The name of a status.
pub open spec fn status_name_spec(status: PhaseStatus) -> Seq<char> {
    match status {
        PhaseStatus::Passed => "passed"@,
        PhaseStatus::Sent => "sent"@,
        PhaseStatus::Unconfirmed => "unconfirmed"@,
        PhaseStatus::Skipped => "skipped"@,
        PhaseStatus::Error => "error"@,
    }
}

/// The name of a status.
pub fn status_name(status: &PhaseStatus) -> (r: &'static str)
    ensures
        r@ == status_name_spec(*status),
{
    match status {
        PhaseStatus::Passed => "passed",
        PhaseStatus::Sent => "sent",
        PhaseStatus::Unconfirmed => "unconfirmed",
        PhaseStatus::Skipped => "skipped",
        PhaseStatus::Error => "error",
    }
}

/// The color of a status.
pub open spec fn status_color(status: PhaseStatus) -> int {
    match status {
        PhaseStatus::Passed => 32,
        PhaseStatus::Sent => 36,
        PhaseStatus::Unconfirmed => 33,
        PhaseStatus::Skipped => 90,
        PhaseStatus::Error => 31,
    }
}

/// The name of a status in its color.
pub fn colored_status(enabled: bool, status: &PhaseStatus) -> (r: String)
    ensures
        r@ == paint_spec(enabled, decimal_spec(status_color(*status)), status_name_spec(*status)),
{
    let code: u8 = match status {
        PhaseStatus::Passed => 32,
        PhaseStatus::Sent => 36,
        PhaseStatus::Unconfirmed => 33,
        PhaseStatus::Skipped => 90,
        PhaseStatus::Error => 31,
    };
    paint(enabled, code, status_name(status))
}

/// The color code and the label of a status in the list of phases.
pub open spec fn phase_label_parts(status: PhaseStatus) -> (Seq<char>, Seq<char>) {
    match status {
        PhaseStatus::Passed => ("30;42"@, "PASS"@),
        PhaseStatus::Sent => ("30;46"@, "SENT"@),
        PhaseStatus::Unconfirmed => ("30;43"@, "NO REPLY"@),
        PhaseStatus::Skipped => ("30;47"@, "SKIP"@),
        PhaseStatus::Error => ("97;41"@, "ERROR"@),
    }
}

/// The label of a status: on a colored ground, or in brackets.
pub open spec fn phase_label_spec(enabled: bool, status: PhaseStatus) -> Seq<char> {
    let (code, label) = phase_label_parts(status);
    if enabled {
        "\x1b["@ + code + "m "@ + center_spec(label, 9) + " \x1b[0m"@
    } else {
        "["@ + center_spec(label, 9) + "]"@
    }
}

/// The label of a status in the list of phases.
pub fn colored_phase_label(enabled: bool, status: &PhaseStatus) -> (r: String)
    ensures
        r@ == phase_label_spec(enabled, *status),
{
    let (code, label) = match status {
        PhaseStatus::Passed => ("30;42", "PASS"),
        PhaseStatus::Sent => ("30;46", "SENT"),
        PhaseStatus::Unconfirmed => ("30;43", "NO REPLY"),
        PhaseStatus::Skipped => ("30;47", "SKIP"),
        PhaseStatus::Error => ("97;41", "ERROR"),
    };
    if enabled {
        let mut r = "\x1b[".to_string();
        r.append(code);
        r.append("m ");
        r.append(center(label, 9).as_str());
        r.append(" \x1b[0m");
        r
    } else {
        let mut r = "[".to_string();
        r.append(center(label, 9).as_str());
        r.append("]");
        r
    }
}

/// The bar that stands for hidden text.
pub open spec fn redaction_bar_spec(enabled: bool) -> Seq<char> {
    paint_spec(enabled, decimal_spec(97), "████████████"@)
}

/// The bar that stands for hidden text.
pub fn redaction_bar(enabled: bool) -> (r: String)
    ensures
        r@ == redaction_bar_spec(enabled),
{
    paint(enabled, 97, "████████████")
}

/// The text with bars in place of what is marked as hidden.
pub open spec fn display_redactions_spec(value: Seq<char>, color: bool) -> Seq<char> {
    replace_spec(value, "[redacted]"@, redaction_bar_spec(color))
}

/// The text with bars in place of what is marked as hidden.
pub fn display_redactions(value: &str, color: bool) -> (r: String)
    ensures
        r@ == display_redactions_spec(value@, color),
{
    proof {
        reveal_strlit("[redacted]");
    }
    replace(value, "[redacted]", redaction_bar(color).as_str())
}

/// The color and the label of a verdict.
pub open spec fn verdict_parts(verdict: Verdict) -> (int, Seq<char>) {
    match verdict {
        Verdict::AuthenticationConfirmed => (32, "AUTHENTICATION CONFIRMED"@),
        Verdict::DataPlaneConfirmed => (32, "DATA PLANE CONFIRMED"@),
        Verdict::Unconfirmed => (33, "UNCONFIRMED"@),
        Verdict::LocalError => (31, "LOCAL ERROR"@),
    }
}

/// The label of a verdict in its color.
pub fn colored_verdict(enabled: bool, verdict: &Verdict) -> (r: String)
    ensures
        r@ == paint_spec(enabled, decimal_spec(verdict_parts(*verdict).0), verdict_parts(*verdict).1),
{
    let (code, label): (u8, &'static str) = match verdict {
        Verdict::AuthenticationConfirmed => (32, "AUTHENTICATION CONFIRMED"),
        Verdict::DataPlaneConfirmed => (32, "DATA PLANE CONFIRMED"),
        Verdict::Unconfirmed => (33, "UNCONFIRMED"),
        Verdict::LocalError => (31, "LOCAL ERROR"),
    };
    paint(enabled, code, label)
}

/// Whether a verdict counts as success.
pub fn is_success(verdict: Verdict) -> (r: bool)
    ensures
        r == (verdict == Verdict::AuthenticationConfirmed || verdict
            == Verdict::DataPlaneConfirmed),
{
    match verdict {
        Verdict::AuthenticationConfirmed => true,
        Verdict::DataPlaneConfirmed => true,
        _ => false,
    }
}

/// The elapsed time before a notice.
pub open spec fn elapsed_mark(colors: ColorPolicy, elapsed_ms: int) -> Seq<char> {
    paint_spec(colors.stderr, decimal_spec(90), "["@ + decimal_spec(elapsed_ms) + " ms]"@)
}

/// The line that tells of an event.
pub open spec fn progress_line_spec(event: EventModel, colors: ColorPolicy) -> Seq<char> {
    match event.kind {
        ProbeEventKind::Started => elapsed_mark(colors, event.elapsed_ms) + " starting "@ + paint_spec(
            colors.stderr,
            decimal_spec(36),
            event.phase,
        ) + match event.target {
            Some(target) => " ("@ + target + ")"@,
            None => Seq::empty(),
        },
        ProbeEventKind::Finished => elapsed_mark(colors, event.elapsed_ms) + " "@
            + event.result.unwrap().phase + ": "@ + paint_spec(
            colors.stderr,
            decimal_spec(status_color(event.result.unwrap().status)),
            status_name_spec(event.result.unwrap().status),
        ),
    }
}

/// The line that tells of an event. The end of a phase comes with its result.
pub fn progress_line(event: &ProbeEvent, colors: &ColorPolicy) -> (r: String)
    requires
        event.kind == ProbeEventKind::Finished ==> event.result is Some,
    ensures
        r@ == progress_line_spec(event@, *colors),
{
    let mut mark = "[".to_string();
    mark.append(decimal(event.elapsed_ms).as_str());
    mark.append(" ms]");
    let mut r = colors.err(90, mark.as_str());
    match event.kind {
        ProbeEventKind::Started => {
            r.append(" starting ");
            r.append(colors.err(36, event.phase.as_str()).as_str());
            if let Some(target) = &event.target {
                r.append(" (");
                r.append(target.as_str());
                r.append(")");
            }
            assert(r@ =~= progress_line_spec(event@, *colors));
        },
        ProbeEventKind::Finished => {
            if let Some(result) = &event.result {
                r.append(" ");
                r.append(result.phase.as_str());
                r.append(": ");
                r.append(colored_status(colors.stderr, &result.status).as_str());
            }
        },
    }
    r
}

/// A line with a label and a value.
pub open spec fn field_line(label: Seq<char>, value: Seq<char>) -> Seq<char> {
    "  "@ + pad_right_spec(label, 12) + " "@ + value + "\n"@
}

fn push_field(out: &mut String, label: &str, value: &str)
    ensures
        final(out)@ == old(out)@ + field_line(label@, value@),
{
    out.append("  ");
    out.append(pad_right(label, 12).as_str());
    out.append(" ");
    out.append(value);
    out.append("\n");
    assert(out@ =~= old(out)@ + field_line(label@, value@));
}

/// The first line on a phase: its status, name, duration and traffic.
pub open spec fn phase_summary(phase: PhaseModel, color: bool) -> Seq<char> {
    "  "@ + phase_label_spec(color, phase.status) + " "@ + pad_right_spec(phase.phase, 20) + " "@
        + pad_left_spec(decimal_spec(phase.duration_ms), 5) + " ms  "@ + pad_left_spec(
        decimal_spec(phase.sent_bytes),
        5,
    ) + " B -> "@ + pad_left_spec(decimal_spec(phase.received_bytes), 5) + " B\n"@
}

/// The second line on a phase, where there is something to say: its target and details.
pub open spec fn phase_remark(phase: PhaseModel, color: bool) -> Seq<char> {
    "              "@ + display_redactions_spec(
        match phase.target {
            Some(target) => target,
            None => "-"@,
        },
        color,
    ) + (match phase.detail {
        Some(detail) => "  |  "@ + display_redactions_spec(detail, color),
        None => Seq::empty(),
    }) + "\n"@
}

/// The lines on a phase.
pub open spec fn phase_lines(phase: PhaseModel, color: bool) -> Seq<char> {
    if phase.target is None && phase.detail is None {
        phase_summary(phase, color)
    } else {
        phase_summary(phase, color) + phase_remark(phase, color)
    }
}

/// The lines on all phases.
pub open spec fn all_phase_lines(phases: Seq<PhaseModel>, color: bool) -> Seq<char>
    decreases phases.len(),
{
    if phases.len() == 0 {
        Seq::empty()
    } else {
        all_phase_lines(phases.drop_last(), color) + phase_lines(phases.last(), color)
    }
}

fn phase_summary_line(phase: &PhaseResult, color: bool) -> (r: String)
    ensures
        r@ == phase_summary(phase@, color),
{
    let mut r = "  ".to_string();
    r.append(colored_phase_label(color, &phase.status).as_str());
    r.append(" ");
    r.append(pad_right(phase.phase.as_str(), 20).as_str());
    r.append(" ");
    r.append(pad_left(decimal(phase.duration_ms).as_str(), 5).as_str());
    r.append(" ms  ");
    r.append(pad_left(decimal(phase.sent_bytes).as_str(), 5).as_str());
    r.append(" B -> ");
    r.append(pad_left(decimal(phase.received_bytes).as_str(), 5).as_str());
    r.append(" B\n");
    r
}

fn phase_remark_line(phase: &PhaseResult, color: bool) -> (r: String)
    ensures
        r@ == phase_remark(phase@, color),
{
    let mut r = "              ".to_string();
    let target = match &phase.target {
        Some(target) => target.as_str(),
        None => "-",
    };
    r.append(display_redactions(target, color).as_str());
    let mut remark = String::new();
    if let Some(detail) = &phase.detail {
        remark.append("  |  ");
        remark.append(display_redactions(detail.as_str(), color).as_str());
    }
    assert(remark@ =~= match phase@.detail {
        Some(detail) => "  |  "@ + display_redactions_spec(detail, color),
        None => Seq::empty(),
    });
    r.append(remark.as_str());
    r.append("\n");
    r
}

fn push_phase_lines(out: &mut String, phase: &PhaseResult, color: bool)
    ensures
        final(out)@ == old(out)@ + phase_lines(phase@, color),
{
    out.append(phase_summary_line(phase, color).as_str());
    if phase.target.is_some() || phase.detail.is_some() {
        out.append(phase_remark_line(phase, color).as_str());
        assert(out@ =~= old(out)@ + (phase_summary(phase@, color) + phase_remark(phase@, color)));
    }
}

/// The report for a reader. What is redacted is shown as bars.
pub open spec fn human_report_spec(report: ReportModel, color: bool, redacted: bool) -> Seq<char> {
    paint_spec(color, decimal_spec(1), "RESULT"@) + "\n"@ + field_line(
        "Verdict"@,
        paint_spec(
            color,
            decimal_spec(verdict_parts(report.verdict).0),
            verdict_parts(report.verdict).1,
        ),
    ) + field_line("Endpoint"@, report.endpoint) + (match report.resolved_endpoint {
        Some(endpoint) => field_line("Resolved"@, SocketAddr::text_spec(endpoint)),
        None => Seq::empty(),
    }) + (if redacted {
        field_line("Local UDP"@, redaction_bar_spec(color))
    } else {
        match report.local_udp_address {
            Some(address) => field_line("Local UDP"@, SocketAddr::text_spec(address)),
            None => Seq::empty(),
        }
    }) + field_line(
        "Client key"@,
        if redacted {
            redaction_bar_spec(color)
        } else {
            report.client_public_key
        },
    ) + field_line("Duration"@, decimal_spec(report.duration_ms) + " ms"@) + field_line(
        "Traffic"@,
        decimal_spec(report.sent_bytes) + " B sent / "@ + decimal_spec(report.received_bytes)
            + " B received"@,
    ) + "\n"@ + paint_spec(color, decimal_spec(1), "PHASES"@) + "\n"@ + all_phase_lines(
        report.phases,
        color,
    )
}

/// The report for a reader. What is redacted is shown as bars.
pub fn human_report(report: &ProbeReport, colors: &ColorPolicy, redacted: bool) -> (r: String)
    ensures
        r@ == human_report_spec(report@, colors.stdout, redacted),
{
    let color: bool = colors.stdout;
    let mut r = paint(color, 1, "RESULT");
    r.append("\n");
    push_field(&mut r, "Verdict", colored_verdict(color, &report.verdict).as_str());
    push_field(&mut r, "Endpoint", report.endpoint.as_str());
    if let Some(endpoint) = report.resolved_endpoint {
        push_field(&mut r, "Resolved", endpoint.text().as_str());
    }
    let ghost shown = r@;
    assert(shown =~= paint_spec(color, decimal_spec(1), "RESULT"@) + "\n"@ + field_line(
        "Verdict"@,
        paint_spec(
            color,
            decimal_spec(verdict_parts(report.verdict).0),
            verdict_parts(report.verdict).1,
        ),
    ) + field_line("Endpoint"@, report.endpoint@) + (match report@.resolved_endpoint {
        Some(endpoint) => field_line("Resolved"@, SocketAddr::text_spec(endpoint)),
        None => Seq::empty(),
    }));
    if redacted {
        push_field(&mut r, "Local UDP", redaction_bar(color).as_str());
    } else if let Some(address) = report.local_udp_address {
        push_field(&mut r, "Local UDP", address.text().as_str());
    }
    let ghost local = r@;
    assert(local =~= shown + (if redacted {
        field_line("Local UDP"@, redaction_bar_spec(color))
    } else {
        match report@.local_udp_address {
            Some(address) => field_line("Local UDP"@, SocketAddr::text_spec(address)),
            None => Seq::empty(),
        }
    }));
    if redacted {
        push_field(&mut r, "Client key", redaction_bar(color).as_str());
    } else {
        push_field(&mut r, "Client key", report.client_public_key.as_str());
    }
    let mut duration = decimal(report.duration_ms);
    duration.append(" ms");
    push_field(&mut r, "Duration", duration.as_str());
    let mut traffic = decimal(report.sent_bytes);
    traffic.append(" B sent / ");
    traffic.append(decimal(report.received_bytes).as_str());
    traffic.append(" B received");
    push_field(&mut r, "Traffic", traffic.as_str());
    r.append("\n");
    r.append(paint(color, 1, "PHASES").as_str());
    r.append("\n");
    let ghost head = r@;
    let ghost all = report@.phases;
    let mut i: usize = 0;
    assert(all.take(0) =~= Seq::empty());
    assert(r@ =~= head + all_phase_lines(all.take(0), color));
    while i < report.phases.len()
        invariant
            i <= report.phases@.len(),
            all == report@.phases,
            r@ == head + all_phase_lines(all.take(i as int), color),
        decreases report.phases@.len() - i,
    {
        push_phase_lines(&mut r, &report.phases[i], color);
        assert(all[i as int] == report.phases@[i as int]@);
        assert(all.take(i + 1).drop_last() =~= all.take(i as int));
        assert(r@ =~= head + all_phase_lines(all.take(i + 1), color));
        i = i + 1;
    }
    assert(all.take(i as int) =~= all);
    r
}

/// A text with the given part hidden.
pub open spec fn hide_text(text: Option<Seq<char>>, part: Seq<char>) -> Option<Seq<char>> {
    match text {
        Some(text) => Some(replace_spec(text, part, "[redacted]"@)),
        None => None,
    }
}

/// A phase with the given part of its texts hidden.
pub open spec fn hide_phase(phase: PhaseModel, part: Seq<char>) -> PhaseModel {
    PhaseModel {
        target: hide_text(phase.target, part),
        detail: hide_text(phase.detail, part),
        ..phase
    }
}

/// The report without the client's key and the local address.
pub open spec fn redacted_spec(report: ReportModel) -> ReportModel {
    ReportModel {
        client_public_key: "[redacted]"@,
        local_udp_address: None,
        phases: match report.local_udp_address {
            Some(address) => report.phases.map_values(
                |phase: PhaseModel| hide_phase(phase, SocketAddr::text_spec(address)),
            ),
            None => report.phases,
        },
        ..report
    }
}

fn masked(text: &Option<String>, part: &str) -> (r: Option<String>)
    requires
        part@.len() > 0,
    ensures
        option_text(r) == hide_text(option_text(*text), part@),
{
    match text {
        Some(text) => Some(replace(text.as_str(), part, "[redacted]")),
        None => None,
    }
}

/// Hides the client's key and the local address, wherever it is mentioned.
pub fn redact_report(report: &mut ProbeReport)
    ensures
        final(report)@ == redacted_spec(old(report)@),
{
    report.client_public_key = "[redacted]".to_string();
    let local = match report.local_udp_address {
        Some(address) => address,
        None => {
            return;
        },
    };
    report.local_udp_address = None;
    let text = local.text();
    proof {
        crate::net::endpoint_text_shape(local@);
    }
    let ghost before = report@;
    let ghost phases = report@.phases;
    let mut i: usize = 0;
    while i < report.phases.len()
        invariant
            i <= report.phases@.len(),
            report.phases@.len() == phases.len(),
            text@.len() > 0,
            report@ == (ReportModel { phases: report@.phases, ..before }),
            forall|k: int|
                0 <= k < i ==> #[trigger] report@.phases[k] == hide_phase(phases[k], text@),
            forall|k: int| i <= k < phases.len() ==> #[trigger] report@.phases[k] == phases[k],
        decreases phases.len() - i,
    {
        let ghost start = report@.phases;
        assert(start[i as int] == phases[i as int]);
        let target = masked(&report.phases[i].target, text.as_str());
        let detail = masked(&report.phases[i].detail, text.as_str());
        report.phases[i].target = target;
        report.phases[i].detail = detail;
        assert(report@.phases =~= start.update(i as int, hide_phase(start[i as int], text@)));
        i = i + 1;
    }
    assert(report@.phases =~= phases.map_values(
        |phase: PhaseModel| hide_phase(phase, SocketAddr::text_spec(local@)),
    ));
}

/// Whether a text that may be missing mentions the part.
pub open spec fn mentions(text: Option<Seq<char>>, part: Seq<char>) -> bool {
    match text {
        Some(text) => occurs(text, part),
        None => false,
    }
}

/// In a redacted report neither the key field, nor the address field, nor any text of a phase
/// gives the client's key or the local address away, and all else is as it was.
pub proof fn redaction_hides_local_address(report: ReportModel)
    ensures
        ({
            let shown = redacted_spec(report);
            &&& shown.client_public_key == "[redacted]"@
            &&& shown.local_udp_address is None
            &&& shown.phases.len() == report.phases.len()
            &&& report.local_udp_address matches Some(address) ==> forall|i: int|
                0 <= i < shown.phases.len() ==> {
                    &&& !mentions((#[trigger] shown.phases[i]).target, SocketAddr::text_spec(address))
                    &&& !mentions(shown.phases[i].detail, SocketAddr::text_spec(address))
                }
            &&& forall|i: int|
                0 <= i < shown.phases.len() ==> (#[trigger] shown.phases[i]).status
                    == report.phases[i].status && shown.phases[i].phase == report.phases[i].phase
            &&& shown.verdict == report.verdict
            &&& shown.endpoint == report.endpoint
            &&& shown.sent_bytes == report.sent_bytes
            &&& shown.received_bytes == report.received_bytes
        }),
{
    let mark = "[redacted]"@;
    if let Some(address) = report.local_udp_address {
        let part = SocketAddr::text_spec(address);
        crate::net::endpoint_text_shape(address);
        reveal_strlit("[redacted]");
        assert(mark.len() == 10);
        assert(no_overlap(part, mark)) by {
            assert forall|p: int| 0 <= p < mark.len() implies #[trigger] differs_from(
                mark,
                p,
                part,
            ) by {
                if p == 0 {
                    assert(mark[p + 1] != part[1]);
                } else {
                    assert(mark[p + 0] != part[0]);
                }
            }
            assert forall|p: int| 1 <= p < part.len() implies #[trigger] differs_from(
                part,
                p,
                mark,
            ) by {
                assert(part[p + 0] != mark[0]);
            }
        }
        let shown = redacted_spec(report);
        assert forall|i: int| 0 <= i < shown.phases.len() implies !mentions(
            (#[trigger] shown.phases[i]).target,
            part,
        ) && !mentions(shown.phases[i].detail, part) by {
            let phase = report.phases[i];
            if let Some(text) = phase.target {
                replaced_text_is_gone(text, part, mark);
            }
            if let Some(text) = phase.detail {
                replaced_text_is_gone(text, part, mark);
            }
        }
    }
}

/// The error of bytes that are no UTF-8.
#[verifier::external_type_specification]
#[verifier::external_body]
pub struct ExUtf8Error(Utf8Error);

/// `str::from_utf8`: the text that the bytes encode, if they are valid UTF-8.
pub assume_specification[ std::str::from_utf8 ](bytes: &[u8]) -> (r: Result<&str, Utf8Error>)
    ensures
        match r {
            Ok(text) => encode_utf8(text@) == bytes@,
            Err(_) => !valid_utf8(bytes@),
        },
;

/// The text of a file's contents.
pub fn secret_text<'a>(contents: &'a [u8], kind: &str) -> (r: Result<&'a str, String>)
    ensures
        match r {
            Ok(text) => encode_utf8(text@) == contents@,
            Err(message) => !valid_utf8(contents@) && message@ == kind@ + " must be valid UTF-8"@,
        },
{
    match std::str::from_utf8(contents) {
        Ok(text) => Ok(text),
        Err(_) => {
            let mut message = kind.to_string();
            message.append(" must be valid UTF-8");
            Err(message)
        },
    }
}

/// The refusal of a file: it must be regular and not too large.
pub open spec fn file_refusal(
    kind: Seq<char>,
    path: Seq<char>,
    regular: bool,
    length: int,
    maximum: int,
) -> Option<Seq<char>> {
    if !regular {
        Some(kind + " path "@ + path + " must be a regular file"@)
    } else if length > maximum {
        Some(
            kind + " file "@ + path + " exceeds the "@ + decimal_spec(maximum) + "-byte limit"@,
        )
    } else {
        None
    }
}

/// Checks what is known of a file before it is read: it must be regular and not too large.
pub fn check_secret_file(kind: &str, path: &str, regular: bool, length: u64, maximum: u64) -> (r:
    Result<(), String>)
    ensures
        match r {
            Ok(_) => file_refusal(kind@, path@, regular, length as int, maximum as int) is None,
            Err(message) => file_refusal(
                kind@,
                path@,
                regular,
                length as int,
                maximum as int,
            ) == Some(message@),
        },
{
    let mut message = kind.to_string();
    if !regular {
        message.append(" path ");
        message.append(path);
        message.append(" must be a regular file");
        return Err(message);
    }
    if length > maximum {
        message.append(" file ");
        message.append(path);
        message.append(" exceeds the ");
        message.append(decimal(maximum).as_str());
        message.append("-byte limit");
        return Err(message);
    }
    Ok(())
}

/// Checks the size of what was read. To tell a larger input from one that just fits, one byte
/// more than the maximum is to be read.
pub fn check_bounded(description: &str, length: u64, maximum: u64) -> (r: Result<(), String>)
    ensures
        match r {
            Ok(_) => length <= maximum,
            Err(message) => length > maximum && message@ == description@ + " exceeds the "@
                + decimal_spec(maximum as int) + "-byte limit"@,
        },
{
    if length > maximum {
        let mut message = description.to_string();
        message.append(" exceeds the ");
        message.append(decimal(maximum).as_str());
        message.append("-byte limit");
        return Err(message);
    }
    Ok(())
}

/// The refusal of an option that is no IPv4 network.
pub open spec fn cidr_refusal(option: Seq<char>, value: Seq<char>) -> Seq<char> {
    option + " must be an IPv4 CIDR, got "@ + value
}

/// The network that an option gives.
pub fn parse_cidr(value: &str, option: &str) -> (r: Result<Ipv4Cidr, String>)
    ensures
        match r {
            Ok(cidr) => Ipv4Cidr::parse_spec(value@) == Some(cidr.parts()),
            Err(message) => Ipv4Cidr::parse_spec(value@) is None && message@ == cidr_refusal(
                option@,
                value@,
            ),
        },
{
    match Ipv4Cidr::parse(value) {
        Some(cidr) => Ok(cidr),
        None => {
            let mut message = option.to_string();
            message.append(" must be an IPv4 CIDR, got ");
            message.append(value);
            Err(message)
        },
    }
}

/// The networks that the values give, or the first value that gives none.
pub open spec fn cidr_values(values: Seq<Seq<char>>) -> Result<Seq<(Ipv4Addr, int)>, Seq<char>>
    decreases values.len(),
{
    if values.len() == 0 {
        Ok(Seq::empty())
    } else {
        match cidr_values(values.drop_last()) {
            Err(value) => Err(value),
            Ok(list) => match Ipv4Cidr::parse_spec(values.last()) {
                Some(cidr) => Ok(list.push(cidr)),
                None => Err(values.last()),
            },
        }
    }
}

/// The networks that a repeated option gives.
pub fn parse_cidrs(values: &[String], option: &str) -> (r: Result<Vec<Ipv4Cidr>, String>)
    ensures
        match r {
            Ok(list) => cidr_values(string_views(values@)) == Ok::<Seq<(Ipv4Addr, int)>, Seq<char>>(
                cidr_parts(list@),
            ),
            Err(message) => cidr_values(string_views(values@)) matches Err(value) && message@
                == cidr_refusal(option@, value),
        },
{
    let ghost all = string_views(values@);
    let mut list: Vec<Ipv4Cidr> = Vec::new();
    let mut i: usize = 0;
    assert(all.take(0) =~= Seq::empty());
    assert(cidr_parts(list@) =~= Seq::empty());
    while i < values.len()
        invariant
            i <= values@.len(),
            all == string_views(values@),
            cidr_values(all.take(i as int)) == Ok::<Seq<(Ipv4Addr, int)>, Seq<char>>(
                cidr_parts(list@),
            ),
        decreases values@.len() - i,
    {
        assert(all.take(i + 1).drop_last() =~= all.take(i as int));
        assert(all.take(i + 1).last() == values@[i as int]@);
        match parse_cidr(values[i].as_str(), option) {
            Ok(cidr) => {
                let ghost before = list@;
                list.push(cidr);
                assert(cidr_parts(list@) =~= cidr_parts(before).push(cidr.parts()));
            },
            Err(message) => {
                proof {
                    lemma_cidr_values_error(all, i + 1);
                }
                return Err(message);
            },
        }
        i = i + 1;
    }
    assert(all.take(i as int) =~= all);
    Ok(list)
}

proof fn lemma_cidr_values_error(values: Seq<Seq<char>>, i: int)
    requires
        0 <= i <= values.len(),
        cidr_values(values.take(i)) is Err,
    ensures
        cidr_values(values) == cidr_values(values.take(i)),
    decreases values.len() - i,
{
    if i == values.len() {
        assert(values.take(i) =~= values);
    } else {
        assert(values.take(i + 1).drop_last() =~= values.take(i));
        lemma_cidr_values_error(values, i + 1);
    }
}

/// Gives a configuration made of keys alone what data checks need: an address and the allowed
/// networks.
pub fn apply_data_options(
    config: &mut ProbeConfig,
    address: &str,
    address_option: &str,
    allowed_ips: &[String],
    allowed_option: &str,
) -> (r: Result<(), String>)
    ensures
        match r {
            Ok(_) => Ipv4Cidr::parse_spec(address@) is Some && (cidr_values(
                string_views(allowed_ips@),
            ) matches Ok(list) && final(config)@ == (ConfigModel {
                address: Ipv4Cidr::parse_spec(address@),
                dns_servers: Seq::empty(),
                allowed_ips: list,
                ..old(config)@
            })),
            Err(message) => final(config)@ == old(config)@ && (if Ipv4Cidr::parse_spec(address@)
                is None {
                message@ == cidr_refusal(address_option@, address@)
            } else {
                cidr_values(string_views(allowed_ips@)) matches Err(value) && message@
                    == cidr_refusal(allowed_option@, value)
            }),
        },
{
    let cidr = match parse_cidr(address, address_option) {
        Ok(cidr) => cidr,
        Err(message) => {
            return Err(message);
        },
    };
    let list = match parse_cidrs(allowed_ips, allowed_option) {
        Ok(list) => list,
        Err(message) => {
            return Err(message);
        },
    };
    let none: Vec<IpAddr> = Vec::new();
    assert(crate::config::ip_models(none@) =~= Seq::empty());
    config.set_data_config(cidr, none, list);
    Ok(())
}

/// What the user asks a probe to do.
#[derive(Debug)]
pub struct ProbeArguments {
    pub pings: Vec<Ipv4Addr>,
    pub resolves: Vec<String>,
    pub dns_server: Option<Ipv4Addr>,
    pub handshake_timeout: Duration,
    pub ping_timeout: Duration,
    pub dns_timeout: Duration,
    pub deadline: Duration,
}

/// The plan for what the user asks.
pub fn build_plan(config: ProbeConfig, arguments: &ProbeArguments) -> (r: ProbePlan)
    ensures
        r@ == (PlanModel {
            config: config@,
            pings: arguments.pings@,
            resolves: string_views(arguments.resolves@),
            dns_server: arguments.dns_server,
            handshake_timeout: arguments.handshake_timeout.nanos(),
            ping_timeout: arguments.ping_timeout.nanos(),
            dns_timeout: arguments.dns_timeout.nanos(),
            overall_timeout: arguments.deadline.nanos(),
        }),
{
    let mut plan = ProbePlan::new(config).timeouts(
        arguments.handshake_timeout,
        arguments.ping_timeout,
        arguments.dns_timeout,
        arguments.deadline,
    );
    let ghost base = plan@;
    let mut i: usize = 0;
    assert(arguments.pings@.take(0) =~= Seq::empty());
    while i < arguments.pings.len()
        invariant
            i <= arguments.pings@.len(),
            plan@ == (PlanModel { pings: arguments.pings@.take(i as int), ..base }),
        decreases arguments.pings@.len() - i,
    {
        plan = plan.ping(arguments.pings[i]);
        i = i + 1;
        assert(arguments.pings@.take(i as int) =~= arguments.pings@.take(i - 1).push(
            arguments.pings@[i - 1],
        ));
    }
    assert(arguments.pings@.take(i as int) =~= arguments.pings@);
    let ghost base = plan@;
    let ghost names = string_views(arguments.resolves@);
    let mut i: usize = 0;
    assert(names.take(0) =~= Seq::empty());
    while i < arguments.resolves.len()
        invariant
            i <= arguments.resolves@.len(),
            names == string_views(arguments.resolves@),
            plan@ == (PlanModel { resolves: names.take(i as int), ..base }),
        decreases arguments.resolves@.len() - i,
    {
        plan = plan.resolve(arguments.resolves[i].as_str());
        i = i + 1;
        assert(names.take(i as int) =~= names.take(i - 1).push(names[i - 1]));
    }
    assert(names.take(i as int) =~= names);
    if let Some(server) = arguments.dns_server {
        plan = plan.dns_server(server);
    }
    plan
}

} // verus!
