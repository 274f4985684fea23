//! One-line structured event log.
//!
//! A line names the node, the view, the phase of the protocol and the event,
//! gives the time, and then lists fields as `key=value`, ordered by key:
//! `[node 0] view=1 phase=new_view event=view_start ts_ns=... leader=0 timeout_ms=1000`

use crate::action::{Event, SkipReason};
use crate::codec::{hex_text, to_hex};
use crate::messages::{phase_name, MsgType};
use crate::text::{decimal, push_decimal};
use vstd::prelude::*;

verus! {

// ---- Time ----

/// Calls `SystemTime::elapsed` on the Unix epoch: the time since then, as
/// whole seconds and the nanoseconds beyond them. What is trusted: the
/// nanoseconds are less than one second. The time itself is the machine's, and
/// nothing is said of it; it is `None` where the clock stands before the
/// epoch.
#[verifier::external_body]
fn since_epoch() -> (r: Option<(u64, u32)>)
    ensures
        r matches Some(t) ==> t.1 < 1_000_000_000,
{
    match std::time::UNIX_EPOCH.elapsed() {
        Ok(d) => Some((d.as_secs(), d.subsec_nanos())),
        Err(_) => None,
    }
}

/// A time in nanoseconds, modulo 2^64.
pub fn total_ns(secs: u64, nanos: u32) -> (r: u64)
    requires
        nanos < 1_000_000_000,
    ensures
        r == (secs * 1_000_000_000 + nanos) % 0x1_0000_0000_0000_0000,
        Some(r) == reading_ns(Some((secs, nanos))),
{
    let total: u128 = secs as u128 * 1_000_000_000 + nanos as u128;
    (total % 0x1_0000_0000_0000_0000) as u64
}

/// What a reading of the clock, in seconds and nanoseconds, says in
/// nanoseconds, modulo 2^64.
pub open spec fn reading_ns(reading: Option<(u64, u32)>) -> Option<u64> {
    match reading {
        Some(t) => Some(((t.0 * 1_000_000_000 + t.1) % 0x1_0000_0000_0000_0000) as u64),
        None => None,
    }
}

/// A reading of the clock in nanoseconds, modulo 2^64. There is none where the
/// clock stands before the Unix epoch.
pub fn timestamp_of(reading: Option<(u64, u32)>) -> (r: Option<u64>)
    requires
        reading matches Some(t) ==> t.1 < 1_000_000_000,
    ensures
        r == reading_ns(reading),
{
    match reading {
        Some((secs, nanos)) => Some(total_ns(secs, nanos)),
        None => None,
    }
}

/// The time since the Unix epoch in nanoseconds, modulo 2^64: what
/// [`timestamp_of`] makes of the system clock. `None` where the clock stands
/// before the epoch. The clock can stand anywhere, and any 64-bit number is
/// some time modulo 2^64, so nothing is stated of the result.
pub fn now_ns() -> (r: Option<u64>) {
    timestamp_of(since_epoch())
}

// ---- Events ----

/// A field of a log line: its key and its text.
pub type Field = (&'static str, String);

/// What each field says.
pub open spec fn fields_view(s: Seq<Field>) -> Seq<(Seq<char>, Seq<char>)> {
    Seq::new(s.len(), |i: int| (s[i].0@, s[i].1@))
}

/// The name of an event.
pub open spec fn name_of(event: Event) -> Seq<char> {
    match event {
        Event::ProposeSend { .. } => "propose_send"@,
        Event::ProposeRecv { .. } => "propose_recv"@,
        Event::PrepareSkip { .. } => "prepare_skip"@,
        Event::PrepareVoteSend { .. } => "prepare_vote_send"@,
        Event::PreCommitVoteSend { .. } => "pre_commit_vote_send"@,
        Event::CommitVoteSend { .. } => "commit_vote_send"@,
        Event::PhaseQcSend { .. } => "phase_qc_send"@,
        Event::PhaseQcRecv { .. } => "phase_qc_recv"@,
        Event::VoteRecv { .. } => "vote_recv"@,
        Event::NewViewRecv { .. } => "new_view_recv"@,
        Event::NewViewSend { .. } => "new_view_send"@,
        Event::NextView => "next_view"@,
        Event::ViewStart { .. } => "view_start"@,
        Event::ViewDecide { .. } => "view_decide"@,
        Event::ValidateStart { .. } => "validate_start"@,
        Event::Execute { .. } => "execute"@,
    }
}

/// The phase that an event belongs to. What a message, a certificate or a vote
/// of a phase brings about belongs to that phase. Validation comes before the
/// PREPARE vote. Changing the view is NEW-VIEW, and executing is DECIDE.
pub open spec fn phase_of(event: Event) -> MsgType {
    match event {
        Event::ProposeSend { .. } => MsgType::Prepare,
        Event::ProposeRecv { .. } => MsgType::Prepare,
        Event::PrepareSkip { .. } => MsgType::Prepare,
        Event::PrepareVoteSend { .. } => MsgType::Prepare,
        Event::PreCommitVoteSend { .. } => MsgType::PreCommit,
        Event::CommitVoteSend { .. } => MsgType::Commit,
        Event::PhaseQcSend { phase, .. } => phase,
        Event::PhaseQcRecv { phase } => phase,
        Event::VoteRecv { phase, .. } => phase,
        Event::NewViewRecv { .. } => MsgType::NewView,
        Event::NewViewSend { .. } => MsgType::NewView,
        Event::NextView => MsgType::NewView,
        Event::ViewStart { .. } => MsgType::NewView,
        Event::ViewDecide { .. } => MsgType::Decide,
        Event::ValidateStart { .. } => MsgType::Prepare,
        Event::Execute { .. } => MsgType::Decide,
    }
}

/// The fields of an event, ordered by key.
pub open spec fn fields_of(event: Event) -> Seq<(Seq<char>, Seq<char>)> {
    match event {
        Event::ProposeSend { leaf_hash, leaf_height, high_qc_view } => seq![
            ("high_qc_view"@, decimal(high_qc_view as nat)),
            ("leaf_hash"@, hex_text(leaf_hash@)),
            ("leaf_height"@, decimal(leaf_height as nat)),
        ],
        Event::ProposeRecv { leaf_hash, leaf_height, high_qc_view, sender } => seq![
            ("high_qc_view"@, decimal(high_qc_view as nat)),
            ("leaf_hash"@, hex_text(leaf_hash@)),
            ("leaf_height"@, decimal(leaf_height as nat)),
            ("sender"@, decimal(sender as nat)),
        ],
        Event::PrepareSkip { reason } => seq![
            (
                "reason"@,
                match reason {
                    SkipReason::ValidFalse => "valid_false"@,
                    SkipReason::SafeNodeFalse => "safe_node_false"@,
                },
            ),
        ],
        Event::PrepareVoteSend { leaf_hash } => seq![("leaf_hash"@, hex_text(leaf_hash@))],
        Event::PreCommitVoteSend { node_hash } => seq![("node_hash"@, hex_text(node_hash@))],
        Event::CommitVoteSend { node_hash } => seq![("node_hash"@, hex_text(node_hash@))],
        Event::PhaseQcSend { phase, node_hash } => seq![
            ("node_hash"@, hex_text(node_hash@)),
            ("phase"@, phase_name(phase)),
        ],
        Event::PhaseQcRecv { phase } => seq![("phase"@, phase_name(phase))],
        Event::VoteRecv { phase, voter } => seq![
            ("phase"@, phase_name(phase)),
            ("voter"@, decimal(voter as nat)),
        ],
        Event::NewViewRecv { from_view, sender } => seq![
            ("from_view"@, decimal(from_view as nat)),
            ("sender"@, decimal(sender as nat)),
        ],
        Event::NewViewSend { to, from_view } => seq![
            ("from_view"@, decimal(from_view as nat)),
            ("to"@, decimal(to as nat)),
        ],
        Event::NextView => seq![("reason"@, "timeout"@)],
        Event::ViewStart { leader, timeout_ms } => seq![
            ("leader"@, decimal(leader as nat)),
            ("timeout_ms"@, decimal(timeout_ms as nat)),
        ],
        Event::ViewDecide { node_hash } => seq![("node_hash"@, hex_text(node_hash@))],
        Event::ValidateStart { height } => seq![("height"@, decimal(height as nat))],
        Event::Execute { height, node_hash } => seq![
            ("height"@, decimal(height as nat)),
            ("node_hash"@, hex_text(node_hash@)),
        ],
    }
}

/// The name of an event.
pub fn event_name(event: &Event) -> (r: &'static str)
    ensures
        r@ == name_of(*event),
{
    match event {
        Event::ProposeSend { .. } => "propose_send",
        Event::ProposeRecv { .. } => "propose_recv",
        Event::PrepareSkip { .. } => "prepare_skip",
        Event::PrepareVoteSend { .. } => "prepare_vote_send",
        Event::PreCommitVoteSend { .. } => "pre_commit_vote_send",
        Event::CommitVoteSend { .. } => "commit_vote_send",
        Event::PhaseQcSend { .. } => "phase_qc_send",
        Event::PhaseQcRecv { .. } => "phase_qc_recv",
        Event::VoteRecv { .. } => "vote_recv",
        Event::NewViewRecv { .. } => "new_view_recv",
        Event::NewViewSend { .. } => "new_view_send",
        Event::NextView => "next_view",
        Event::ViewStart { .. } => "view_start",
        Event::ViewDecide { .. } => "view_decide",
        Event::ValidateStart { .. } => "validate_start",
        Event::Execute { .. } => "execute",
    }
}

/// The phase that an event belongs to.
pub fn event_phase(event: &Event) -> (r: MsgType)
    ensures
        r == phase_of(*event),
{
    match event {
        Event::ProposeSend { .. } => MsgType::Prepare,
        Event::ProposeRecv { .. } => MsgType::Prepare,
        Event::PrepareSkip { .. } => MsgType::Prepare,
        Event::PrepareVoteSend { .. } => MsgType::Prepare,
        Event::PreCommitVoteSend { .. } => MsgType::PreCommit,
        Event::CommitVoteSend { .. } => MsgType::Commit,
        Event::PhaseQcSend { phase, .. } => *phase,
        Event::PhaseQcRecv { phase } => *phase,
        Event::VoteRecv { phase, .. } => *phase,
        Event::NewViewRecv { .. } => MsgType::NewView,
        Event::NewViewSend { .. } => MsgType::NewView,
        Event::NextView => MsgType::NewView,
        Event::ViewStart { .. } => MsgType::NewView,
        Event::ViewDecide { .. } => MsgType::Decide,
        Event::ValidateStart { .. } => MsgType::Prepare,
        Event::Execute { .. } => MsgType::Decide,
    }
}

fn number(n: u64) -> (r: String)
    ensures
        r@ == decimal(n as nat),
{
    let mut s = String::new();
    push_decimal(&mut s, n);
    assert(s@ =~= decimal(n as nat));
    s
}

fn word(s: &str) -> (r: String)
    ensures
        r@ == s@,
{
    s.to_owned()
}

/// Appends a field.
fn add_field(out: &mut Vec<Field>, key: &'static str, text: String)
    ensures
        fields_view(final(out)@) == fields_view(old(out)@).push((key@, text@)),
{
    out.push((key, text));
    assert(fields_view(out@) =~= fields_view(old(out)@).push((key@, text@)));
}

/// The fields of an event, ordered by key.
pub fn event_fields(event: &Event) -> (r: Vec<Field>)
    ensures
        fields_view(r@) == fields_of(*event),
{
    let mut out: Vec<Field> = Vec::new();
    assert(fields_view(out@) =~= Seq::empty());
    match event {
        Event::ProposeSend { leaf_hash, leaf_height, high_qc_view } => {
            add_field(&mut out, "high_qc_view", number(*high_qc_view));
            add_field(&mut out, "leaf_hash", to_hex(leaf_hash));
            add_field(&mut out, "leaf_height", number(*leaf_height));
        },
        Event::ProposeRecv { leaf_hash, leaf_height, high_qc_view, sender } => {
            add_field(&mut out, "high_qc_view", number(*high_qc_view));
            add_field(&mut out, "leaf_hash", to_hex(leaf_hash));
            add_field(&mut out, "leaf_height", number(*leaf_height));
            add_field(&mut out, "sender", number(*sender as u64));
        },
        Event::PrepareSkip { reason } => {
            let text = match reason {
                SkipReason::ValidFalse => word("valid_false"),
                SkipReason::SafeNodeFalse => word("safe_node_false"),
            };
            add_field(&mut out, "reason", text);
        },
        Event::PrepareVoteSend { leaf_hash } => {
            add_field(&mut out, "leaf_hash", to_hex(leaf_hash));
        },
        Event::PreCommitVoteSend { node_hash } => {
            add_field(&mut out, "node_hash", to_hex(node_hash));
        },
        Event::CommitVoteSend { node_hash } => {
            add_field(&mut out, "node_hash", to_hex(node_hash));
        },
        Event::PhaseQcSend { phase, node_hash } => {
            add_field(&mut out, "node_hash", to_hex(node_hash));
            add_field(&mut out, "phase", word(phase.as_str()));
        },
        Event::PhaseQcRecv { phase } => {
            add_field(&mut out, "phase", word(phase.as_str()));
        },
        Event::VoteRecv { phase, voter } => {
            add_field(&mut out, "phase", word(phase.as_str()));
            add_field(&mut out, "voter", number(*voter as u64));
        },
        Event::NewViewRecv { from_view, sender } => {
            add_field(&mut out, "from_view", number(*from_view));
            add_field(&mut out, "sender", number(*sender as u64));
        },
        Event::NewViewSend { to, from_view } => {
            add_field(&mut out, "from_view", number(*from_view));
            add_field(&mut out, "to", number(*to as u64));
        },
        Event::NextView => {
            add_field(&mut out, "reason", word("timeout"));
        },
        Event::ViewStart { leader, timeout_ms } => {
            add_field(&mut out, "leader", number(*leader as u64));
            add_field(&mut out, "timeout_ms", number(*timeout_ms));
        },
        Event::ViewDecide { node_hash } => {
            add_field(&mut out, "node_hash", to_hex(node_hash));
        },
        Event::ValidateStart { height } => {
            add_field(&mut out, "height", number(*height));
        },
        Event::Execute { height, node_hash } => {
            add_field(&mut out, "height", number(*height));
            add_field(&mut out, "node_hash", to_hex(node_hash));
        },
    }
    assert(fields_view(out@) =~= fields_of(*event));
    out
}

/// The fields of a finished validation, ordered by key.
pub open spec fn fields_of_validation(
    kind: Seq<char>,
    valid: bool,
    height: u64,
    elapsed_ns: u64,
) -> Seq<(Seq<char>, Seq<char>)> {
    seq![
        ("elapsed_ns"@, decimal(elapsed_ns as nat)),
        ("height"@, decimal(height as nat)),
        ("kind"@, kind),
        (
            "valid"@,
            if valid {
                "true"@
            } else {
                "false"@
            },
        ),
    ]
}

/// The fields of a finished validation, ordered by key.
pub fn validation_fields(kind: &str, valid: bool, height: u64, elapsed_ns: u64) -> (r: Vec<Field>)
    ensures
        fields_view(r@) == fields_of_validation(kind@, valid, height, elapsed_ns),
        fields_view(r@) == seq![
            ("elapsed_ns"@, decimal(elapsed_ns as nat)),
            ("height"@, decimal(height as nat)),
            ("kind"@, kind@),
            (
                "valid"@,
                if valid {
                    "true"@
                } else {
                    "false"@
                },
            ),
        ],
{
    let mut out: Vec<Field> = Vec::new();
    assert(fields_view(out@) =~= Seq::empty());
    add_field(&mut out, "elapsed_ns", number(elapsed_ns));
    add_field(&mut out, "height", number(height));
    add_field(&mut out, "kind", word(kind));
    let text = if valid {
        word("true")
    } else {
        word("false")
    };
    add_field(&mut out, "valid", text);
    out
}

/// The text of fields: ` key=value` for each.
pub open spec fn fields_text(fields: Seq<(Seq<char>, Seq<char>)>) -> Seq<char>
    decreases fields.len(),
{
    if fields.len() == 0 {
        Seq::empty()
    } else {
        fields_text(fields.drop_last()) + " "@ + fields.last().0 + "="@ + fields.last().1
    }
}

/// The text of a log line.
pub open spec fn line_text(
    node_id: u32,
    view: u64,
    phase: MsgType,
    event: Seq<char>,
    ts_ns: u64,
    fields: Seq<(Seq<char>, Seq<char>)>,
) -> Seq<char> {
    "[node "@ + decimal(node_id as nat) + "] view="@ + decimal(view as nat) + " phase="@
        + phase_name(phase) + " event="@ + event + " ts_ns="@ + decimal(ts_ns as nat)
        + fields_text(fields)
}

/// The log line of an event.
pub fn log_line(
    node_id: u32,
    view: u64,
    phase: MsgType,
    event: &str,
    ts_ns: u64,
    fields: &[Field],
) -> (r: String)
    ensures
        r@ == line_text(node_id, view, phase, event@, ts_ns, fields_view(fields@)),
{
    let mut out = String::new();
    out.append("[node ");
    push_decimal(&mut out, node_id as u64);
    out.append("] view=");
    push_decimal(&mut out, view);
    out.append(" phase=");
    out.append(phase.as_str());
    out.append(" event=");
    out.append(event);
    out.append(" ts_ns=");
    push_decimal(&mut out, ts_ns);
    let ghost head = out@;
    let ghost all = fields_view(fields@);
    assert(head =~= line_text(node_id, view, phase, event@, ts_ns, Seq::empty()));
    let mut i: usize = 0;
    assert(head + fields_text(all.take(0)) =~= head);
    while i < fields.len()
        invariant
            i <= fields@.len(),
            all == fields_view(fields@),
            out@ == head + fields_text(all.take(i as int)),
        decreases fields@.len() - i,
    {
        out.append(" ");
        out.append(fields[i].0);
        out.append("=");
        out.append(fields[i].1.as_str());
        proof {
            let t = all.take(i + 1);
            assert(t.drop_last() =~= all.take(i as int));
            assert(t.last() == all[i as int]);
            assert(out@ =~= head + fields_text(t));
        }
        i += 1;
    }
    assert(all.take(i as int) =~= all);
    assert(head + fields_text(all) =~= line_text(node_id, view, phase, event@, ts_ns, all));
    out
}


// ---- Laws ----

/// A reading of the clock is its seconds, a billion nanoseconds each, and the
/// nanoseconds beyond them, modulo 2^64; without a reading there is no time.
pub proof fn law_reading_in_nanoseconds(secs: u64, nanos: u32)
    ensures
        reading_ns(None) is None,
        reading_ns(Some((secs, nanos))) is Some,
        reading_ns(Some((secs, nanos)))->0 == (secs * 1_000_000_000 + nanos)
            % 0x1_0000_0000_0000_0000,
{
}

/// Each kind of event has its name.
pub proof fn law_events_are_named(event: Event)
    ensures
        event is ProposeSend ==> name_of(event) == "propose_send"@,
        event is ProposeRecv ==> name_of(event) == "propose_recv"@,
        event is PrepareSkip ==> name_of(event) == "prepare_skip"@,
        event is PrepareVoteSend ==> name_of(event) == "prepare_vote_send"@,
        event is PreCommitVoteSend ==> name_of(event) == "pre_commit_vote_send"@,
        event is CommitVoteSend ==> name_of(event) == "commit_vote_send"@,
        event is PhaseQcSend ==> name_of(event) == "phase_qc_send"@,
        event is PhaseQcRecv ==> name_of(event) == "phase_qc_recv"@,
        event is VoteRecv ==> name_of(event) == "vote_recv"@,
        event is NewViewRecv ==> name_of(event) == "new_view_recv"@,
        event is NewViewSend ==> name_of(event) == "new_view_send"@,
        event is NextView ==> name_of(event) == "next_view"@,
        event is ViewStart ==> name_of(event) == "view_start"@,
        event is ViewDecide ==> name_of(event) == "view_decide"@,
        event is ValidateStart ==> name_of(event) == "validate_start"@,
        event is Execute ==> name_of(event) == "execute"@,
{
}

/// Proposing, validating and voting PREPARE belong to PREPARE, the other votes and
/// certificates to their phase, changing the view to NEW-VIEW, and deciding and
/// executing to DECIDE.
pub proof fn law_events_belong_to_phases(event: Event, phase: MsgType, h: [u8; 32], voter: u32)
    ensures
        event is ProposeSend || event is ProposeRecv || event is ValidateStart
            || event is PrepareSkip || event is PrepareVoteSend ==> phase_of(event)
            == MsgType::Prepare,
        event is PreCommitVoteSend ==> phase_of(event) == MsgType::PreCommit,
        event is CommitVoteSend ==> phase_of(event) == MsgType::Commit,
        event is NewViewRecv || event is NewViewSend || event is NextView || event is ViewStart
            ==> phase_of(event) == MsgType::NewView,
        event is ViewDecide || event is Execute ==> phase_of(event) == MsgType::Decide,
        phase_of(Event::PhaseQcSend { phase, node_hash: h }) == phase,
        phase_of(Event::PhaseQcRecv { phase }) == phase,
        phase_of(Event::VoteRecv { phase, voter }) == phase,
{
}

/// Numbers are logged in decimal, hashes in hexadecimal, each under its key, and
/// the keys are in order.
pub proof fn law_fields_of_messages(
    h: [u8; 32],
    height: u64,
    view: u64,
    id: u32,
    phase: MsgType,
)
    ensures
        fields_of(
            Event::ProposeSend { leaf_hash: h, leaf_height: height, high_qc_view: view },
        ) == seq![
            ("high_qc_view"@, decimal(view as nat)),
            ("leaf_hash"@, hex_text(h@)),
            ("leaf_height"@, decimal(height as nat)),
        ],
        fields_of(
            Event::ProposeRecv {
                leaf_hash: h,
                leaf_height: height,
                high_qc_view: view,
                sender: id,
            },
        ) == seq![
            ("high_qc_view"@, decimal(view as nat)),
            ("leaf_hash"@, hex_text(h@)),
            ("leaf_height"@, decimal(height as nat)),
            ("sender"@, decimal(id as nat)),
        ],
        fields_of(Event::PrepareVoteSend { leaf_hash: h }) == seq![("leaf_hash"@, hex_text(h@))],
        fields_of(Event::PreCommitVoteSend { node_hash: h }) == seq![("node_hash"@, hex_text(h@))],
        fields_of(Event::CommitVoteSend { node_hash: h }) == seq![("node_hash"@, hex_text(h@))],
        fields_of(Event::PhaseQcSend { phase, node_hash: h }) == seq![
            ("node_hash"@, hex_text(h@)),
            ("phase"@, phase_name(phase)),
        ],
        fields_of(Event::PhaseQcRecv { phase }) == seq![("phase"@, phase_name(phase))],
        fields_of(Event::VoteRecv { phase, voter: id }) == seq![
            ("phase"@, phase_name(phase)),
            ("voter"@, decimal(id as nat)),
        ],
        fields_of(Event::NewViewRecv { from_view: view, sender: id }) == seq![
            ("from_view"@, decimal(view as nat)),
            ("sender"@, decimal(id as nat)),
        ],
        fields_of(Event::NewViewSend { to: id, from_view: view }) == seq![
            ("from_view"@, decimal(view as nat)),
            ("to"@, decimal(id as nat)),
        ],
{
}

/// The fields of what a replica does by itself: reasons in words, numbers in
/// decimal, hashes in hexadecimal, and the keys in order.
pub proof fn law_fields_of_steps(h: [u8; 32], height: u64, id: u32, ms: u64)
    ensures
        fields_of(Event::PrepareSkip { reason: SkipReason::ValidFalse }) == seq![
            ("reason"@, "valid_false"@),
        ],
        fields_of(Event::PrepareSkip { reason: SkipReason::SafeNodeFalse }) == seq![
            ("reason"@, "safe_node_false"@),
        ],
        fields_of(Event::NextView) == seq![("reason"@, "timeout"@)],
        fields_of(Event::ViewStart { leader: id, timeout_ms: ms }) == seq![
            ("leader"@, decimal(id as nat)),
            ("timeout_ms"@, decimal(ms as nat)),
        ],
        fields_of(Event::ViewDecide { node_hash: h }) == seq![("node_hash"@, hex_text(h@))],
        fields_of(Event::ValidateStart { height }) == seq![("height"@, decimal(height as nat))],
        fields_of(Event::Execute { height, node_hash: h }) == seq![
            ("height"@, decimal(height as nat)),
            ("node_hash"@, hex_text(h@)),
        ],
{
}

/// A log line names the node, the view, the phase, the event and the time, and
/// each further field adds its key and its text behind a space.
pub proof fn law_line_layout(
    node_id: u32,
    view: u64,
    phase: MsgType,
    event: Seq<char>,
    ts_ns: u64,
    fields: Seq<(Seq<char>, Seq<char>)>,
    key: Seq<char>,
    text: Seq<char>,
)
    ensures
        line_text(node_id, view, phase, event, ts_ns, Seq::empty()) == "[node "@ + decimal(
            node_id as nat,
        ) + "] view="@ + decimal(view as nat) + " phase="@ + phase_name(phase) + " event="@ + event
            + " ts_ns="@ + decimal(ts_ns as nat),
        line_text(node_id, view, phase, event, ts_ns, fields.push((key, text))) == line_text(
            node_id,
            view,
            phase,
            event,
            ts_ns,
            fields,
        ) + " "@ + key + "="@ + text,
{
    let head = line_text(node_id, view, phase, event, ts_ns, Seq::empty());
    assert(head =~= "[node "@ + decimal(node_id as nat) + "] view="@ + decimal(view as nat)
        + " phase="@ + phase_name(phase) + " event="@ + event + " ts_ns="@ + decimal(ts_ns as nat));
    assert(fields.push((key, text)).drop_last() =~= fields);
    assert(line_text(node_id, view, phase, event, ts_ns, fields.push((key, text))) =~= line_text(
        node_id,
        view,
        phase,
        event,
        ts_ns,
        fields,
    ) + " "@ + key + "="@ + text);
}

/// A finished validation is logged with its duration, its height, its kind and its
/// verdict.
pub proof fn law_fields_of_validation(kind: Seq<char>, height: u64, elapsed_ns: u64)
    ensures
        forall|valid: bool|
            {
                let f = #[trigger] fields_of_validation(kind, valid, height, elapsed_ns);
                &&& f.len() == 4
                &&& f[0] == ("elapsed_ns"@, decimal(elapsed_ns as nat))
                &&& f[1] == ("height"@, decimal(height as nat))
                &&& f[2] == ("kind"@, kind)
                &&& f[3].0 == "valid"@
            },
        fields_of_validation(kind, true, height, elapsed_ns)[3].1 == "true"@,
        fields_of_validation(kind, false, height, elapsed_ns)[3].1 == "false"@,
{
}

} // verus!
