//! The pure decision logic of the streaming pipeline.  The producer reads
//! lines from the tracer, drops the exit-notice and signal-notice lines,
//! parses every other line, and forwards exactly one message per parsed line
//! in line order; the end of the stream maps the tracer's exit status to the
//! pipeline's verdict.  Everything here is the per-event logic and its laws;
//! the process handling and the channel around it are the caller's.
use vstd::prelude::*;

use vstd::string::StrSliceExecFns;

use crate::grammar::spec_parse_syscall;
use crate::parser::parse_syscall;
use crate::syscall::Message;
use crate::syscall::SyscallModel;

verus! {

broadcast use vstd::seq::group_seq_axioms;

/// Lines with these prefixes report a process exit (`+++`) or a delivered
/// signal (`---`); they carry no call and yield no message.
pub open spec fn is_marker_line(s: Seq<char>) -> bool {
    s.len() >= 3 && (s.subrange(0, 3) == "+++"@ || s.subrange(0, 3) == "---"@)
}

/// Whether this line is an exit notice or a signal notice.
pub fn line_is_marker(line: &str) -> (b: bool)
    ensures
        b == is_marker_line(line@),
{
    let n = line.unicode_len();
    if n < 3 {
        return false;
    }
    let c0 = line.get_char(0);
    let c1 = line.get_char(1);
    let c2 = line.get_char(2);
    let plus = c0 == '+' && c1 == '+' && c2 == '+';
    let minus = c0 == '-' && c1 == '-' && c2 == '-';
    proof {
        reveal_strlit("+++");
        reveal_strlit("---");
        let pre = line@.subrange(0, 3);
        assert(pre[0] == line@[0] && pre[1] == line@[1] && pre[2] == line@[2]);
        if plus {
            assert(pre =~= "+++"@);
        }
        if minus {
            assert(pre =~= "---"@);
        }
    }
    plus || minus
}

/// What the producer hands on for one line: nothing for a marker line, the
/// line's parsed record for every other line.
pub open spec fn spec_process_line(s: Seq<char>) -> Option<SyscallModel> {
    if is_marker_line(s) {
        None
    } else {
        Some(spec_parse_syscall(s))
    }
}

/// Handle one line of tracer output: a marker line yields no message, every
/// other line yields exactly one message holding its parsed record — also
/// when the record is a failure record, which is ordinary cargo here.
pub fn process_line(line: &str) -> (r: Option<Message>)
    ensures
        match r {
            None => spec_process_line(line@) is None,
            Some(m) => spec_process_line(line@) == Some(m@->Syscall_0),
        },
{
    if line_is_marker(line) {
        None
    } else {
        Some(Message::Syscall(parse_syscall(line)))
    }
}

/// The record of one message.
pub open spec fn record_of(m: Message) -> SyscallModel {
    match m {
        Message::Syscall(sc) => sc@,
    }
}

/// The records of a sequence of messages, in order.
pub open spec fn records_of(ms: Seq<Message>) -> Seq<SyscallModel> {
    Seq::new(ms.len(), |i: int| record_of(ms[i]))
}

/// The records produced by a batch of lines, in line order: one per
/// non-marker line, none for marker lines.
pub open spec fn spec_process_lines(lines: Seq<Seq<char>>) -> Seq<SyscallModel>
    decreases lines.len(),
{
    if lines.len() == 0 {
        Seq::empty()
    } else {
        spec_process_lines(lines.drop_last()) + (match spec_process_line(lines.last()) {
            None => Seq::<SyscallModel>::empty(),
            Some(m) => seq![m],
        })
    }
}

/// Run the parser over a batch of lines, keeping line order.
#[verifier::loop_isolation(false)]
pub fn process_lines(lines: &Vec<String>) -> (r: Vec<Message>)
    ensures
        records_of(r@) == spec_process_lines(lines.deep_view()),
{
    let ghost lv = lines.deep_view();
    let mut out: Vec<Message> = Vec::new();
    proof {
        assert(records_of(out@) =~= spec_process_lines(lv.take(0)));
    }
    let mut k: usize = 0;
    while k < lines.len()
        invariant
            k <= lines.len(),
            lv.len() == lines.len(),
            records_of(out@) == spec_process_lines(lv.take(k as int)),
        decreases lines.len() - k,
    {
        proof {
            assert(lv[k as int] == lines[k as int]@);
            assert(lv.take(k + 1).drop_last() =~= lv.take(k as int));
            assert(lv.take(k + 1).last() == lv[k as int]);
        }
        match process_line(lines[k].as_str()) {
            None => {
                proof {
                    assert(records_of(out@) =~= spec_process_lines(lv.take(k + 1)));
                }
            },
            Some(m) => {
                let ghost out0 = out@;
                out.push(m);
                proof {
                    assert(out@ == out0.push(m));
                    assert(records_of(out@) =~= records_of(out0).push(record_of(m)));
                    assert(records_of(out@) =~= spec_process_lines(lv.take(k + 1)));
                }
            },
        }
        k = k + 1;
    }
    proof {
        assert(lv.take(lv.len() as int) =~= lv);
    }
    out
}

/// One observation of the producer: a line of tracer output, or the end of
/// the stream together with whether the tracer exited cleanly.
pub enum TracerEvent {
    Line(String),
    Eof { exit_ok: bool },
}

/// Mathematical model of a `TracerEvent`.
pub enum EventModel {
    Line(Seq<char>),
    Eof { exit_ok: bool },
}

impl View for TracerEvent {
    type V = EventModel;

    open spec fn view(&self) -> EventModel {
        match self {
            TracerEvent::Line(l) => EventModel::Line(l@),
            TracerEvent::Eof { exit_ok } => EventModel::Eof { exit_ok: *exit_ok },
        }
    }
}

/// What the producer does with one observation: forward a message, drop a
/// marker line, or finish — with success exactly on a clean exit.
pub enum ProducerAction {
    Forward(Message),
    Skip,
    Succeed,
    Fail,
}

/// Mathematical model of a `ProducerAction`.
pub enum ActionModel {
    Forward(SyscallModel),
    Skip,
    Succeed,
    Fail,
}

impl View for ProducerAction {
    type V = ActionModel;

    open spec fn view(&self) -> ActionModel {
        match self {
            ProducerAction::Forward(m) => ActionModel::Forward(record_of(*m)),
            ProducerAction::Skip => ActionModel::Skip,
            ProducerAction::Succeed => ActionModel::Succeed,
            ProducerAction::Fail => ActionModel::Fail,
        }
    }
}

/// The producer's decision on one observation.
pub open spec fn spec_step(ev: EventModel) -> ActionModel {
    match ev {
        EventModel::Line(l) => match spec_process_line(l) {
            None => ActionModel::Skip,
            Some(m) => ActionModel::Forward(m),
        },
        EventModel::Eof { exit_ok } => if exit_ok {
            ActionModel::Succeed
        } else {
            ActionModel::Fail
        },
    }
}

/// Decide what to do with one observation.  The caller performs the action:
/// it sends a forwarded message into its channel, and on `Succeed` or `Fail`
/// it closes the channel and reports the verdict.
pub fn producer_step(ev: TracerEvent) -> (a: ProducerAction)
    ensures
        a@ == spec_step(ev@),
{
    match ev {
        TracerEvent::Line(l) => match process_line(l.as_str()) {
            None => ProducerAction::Skip,
            Some(m) => ProducerAction::Forward(m),
        },
        TracerEvent::Eof { exit_ok } => if exit_ok {
            ProducerAction::Succeed
        } else {
            ProducerAction::Fail
        },
    }
}

/// The producer's actions over a whole run, one per observation, in order.
pub open spec fn spec_run(events: Seq<EventModel>) -> Seq<ActionModel> {
    events.map_values(|e: EventModel| spec_step(e))
}

/// The records forwarded by a run, in order.
pub open spec fn forwarded_records(actions: Seq<ActionModel>) -> Seq<SyscallModel>
    decreases actions.len(),
{
    if actions.len() == 0 {
        Seq::empty()
    } else {
        forwarded_records(actions.drop_last()) + (match actions.last() {
            ActionModel::Forward(m) => seq![m],
            _ => Seq::<SyscallModel>::empty(),
        })
    }
}

/// The count of non-marker lines in a batch.
pub open spec fn forwardable_count(lines: Seq<Seq<char>>) -> int
    decreases lines.len(),
{
    if lines.len() == 0 {
        0
    } else {
        forwardable_count(lines.drop_last()) + if is_marker_line(lines.last()) {
            0int
        } else {
            1int
        }
    }
}

/// Ordering law: a batch of lines yields exactly one record per non-marker
/// line and none for marker lines, in line order — the k-th record is the
/// parse of the k-th non-marker line.
pub proof fn lemma_pipeline_order(lines: Seq<Seq<char>>)
    ensures
        spec_process_lines(lines).len() == forwardable_count(lines),
        forall|k: int| 0 <= k < lines.len() && is_marker_line(lines[k])
            ==> spec_process_lines(lines.take(k + 1)) == spec_process_lines(lines.take(k)),
        forall|k: int| 0 <= k < lines.len() && !is_marker_line(lines[k])
            ==> spec_process_lines(lines.take(k + 1)) == spec_process_lines(lines.take(k)).push(
                spec_parse_syscall(lines[k]),
            ),
    decreases lines.len(),
{
    if lines.len() > 0 {
        lemma_pipeline_order(lines.drop_last());
        assert forall|k: int| 0 <= k < lines.len() implies lines.take(k + 1).drop_last() =~= lines.take(k)
            && lines.take(k + 1).last() == lines[k] by {}
    }
}

/// Liveness law for a whole run: when the producer sees every line and then
/// the end of the stream, it forwards exactly the batch's records, in order,
/// before the verdict; the verdict is the run's last action and is success
/// exactly when the tracer exited cleanly.
pub proof fn lemma_producer_run(lines: Seq<Seq<char>>, exit_ok: bool)
    ensures
        ({
            let events = lines.map_values(|l: Seq<char>| EventModel::Line(l)).push(
                EventModel::Eof { exit_ok },
            );
            let actions = spec_run(events);
            &&& actions.len() == lines.len() + 1
            &&& actions.last() == (if exit_ok {
                ActionModel::Succeed
            } else {
                ActionModel::Fail
            })
            &&& forwarded_records(actions) == spec_process_lines(lines)
            &&& forall|k: int|
                0 <= k < lines.len() ==> actions[k] == spec_step(EventModel::Line(lines[k]))
        }),
    decreases lines.len(),
{
    let events = lines.map_values(|l: Seq<char>| EventModel::Line(l)).push(
        EventModel::Eof { exit_ok },
    );
    let actions = spec_run(events);
    assert(actions.last() == spec_step(EventModel::Eof { exit_ok }));
    assert(forwarded_records(actions) == forwarded_records(actions.drop_last()));
    lemma_forwarded_of_lines(lines);
    assert(actions.drop_last() =~= spec_run(lines.map_values(|l: Seq<char>| EventModel::Line(l))));
}

/// The records forwarded for a batch of line events are the batch's records.
proof fn lemma_forwarded_of_lines(lines: Seq<Seq<char>>)
    ensures
        forwarded_records(spec_run(lines.map_values(|l: Seq<char>| EventModel::Line(l))))
            == spec_process_lines(lines),
    decreases lines.len(),
{
    let line_events = lines.map_values(|l: Seq<char>| EventModel::Line(l));
    if lines.len() > 0 {
        lemma_forwarded_of_lines(lines.drop_last());
        assert(spec_run(line_events).drop_last() =~= spec_run(
            lines.drop_last().map_values(|l: Seq<char>| EventModel::Line(l)),
        ));
        assert(spec_run(line_events).last() == spec_step(EventModel::Line(lines.last())));
    } else {
        assert(spec_run(line_events) =~= Seq::<ActionModel>::empty());
    }
}

} // verus!
