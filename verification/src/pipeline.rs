use vstd::prelude::*;

use crate::codec::{decode_line, encode_payload, spec_decode, spec_payload};
use crate::errors::RunError;
use crate::record::{LogFilter, LogMessage, SpecRecord};

verus! {

/// Everything one pipeline run is bound to: the workload whose lines are
/// tailed, the admitted time window, and the addresses and names the two
/// sinks are reached under. The endpoints are configuration handed in by
/// the caller, never compiled-in constants.
#[derive(Clone, Debug)]
pub struct PipelineConfig {
    pub source: String,
    pub filter: LogFilter,
    pub broker_address: String,
    pub topic: String,
    pub store_connection: String,
    pub table_name: String,
}

/// One thing the raw line source yielded: a line, or a failed read that
/// the source survived.
#[derive(Clone, Debug)]
pub enum SourceEvent {
    Line(String),
    ReadFailure,
}

/// The mathematical value of a `SourceEvent`.
#[verifier::ext_equal]
pub enum SpecEvent {
    Line(Seq<char>),
    ReadFailure,
}

impl View for SourceEvent {
    type V = SpecEvent;

    open spec fn view(&self) -> SpecEvent {
        match self {
            SourceEvent::Line(l) => SpecEvent::Line(l@),
            SourceEvent::ReadFailure => SpecEvent::ReadFailure,
        }
    }
}

/// One row bound for the `logs` table of the store: the source identifier,
/// the record's instant in whole seconds, the ingesting host's UTC offset
/// kept beside it for wall-clock display, and the body.
#[derive(Clone, Debug)]
pub struct StoreRow {
    pub source: String,
    pub timestamp_secs: i64,
    pub utc_offset_secs: i32,
    pub text: String,
}

/// The mathematical value of a `StoreRow`.
#[verifier::ext_equal]
pub struct SpecRow {
    pub source: Seq<char>,
    pub timestamp_secs: i64,
    pub utc_offset_secs: i32,
    pub text: Seq<char>,
}

impl View for StoreRow {
    type V = SpecRow;

    open spec fn view(&self) -> SpecRow {
        SpecRow {
            source: self.source@,
            timestamp_secs: self.timestamp_secs,
            utc_offset_secs: self.utc_offset_secs,
            text: self.text@,
        }
    }
}

impl StoreRow {
    /// A field-by-field copy, equal to the original.
    pub fn duplicate(&self) -> (r: StoreRow)
        ensures
            r@ == self@,
    {
        StoreRow {
            source: self.source.clone(),
            timestamp_secs: self.timestamp_secs,
            utc_offset_secs: self.utc_offset_secs,
            text: self.text.clone(),
        }
    }
}

/// The row the dispatcher builds for a record.
pub open spec fn spec_row(r: SpecRecord, utc_offset: i32) -> SpecRow {
    SpecRow {
        source: r.source,
        timestamp_secs: r.timestamp.secs,
        utc_offset_secs: utc_offset,
        text: r.body,
    }
}

pub fn store_row_for(m: &LogMessage, utc_offset: i32) -> (r: StoreRow)
    ensures
        r@ == spec_row(m@, utc_offset),
{
    let r = StoreRow {
        source: m.source.clone(),
        timestamp_secs: m.timestamp.secs,
        utc_offset_secs: utc_offset,
        text: m.text.clone(),
    };
    proof {
        assert(r@ =~= spec_row(m@, utc_offset));
    }
    r
}

/// What one event asks of the run.
#[verifier::ext_equal]
pub enum SpecOutcome {
    /// The line decoded and its instant lies in the window: hand the
    /// record to both sinks and to the live fan-out.
    Dispatch(SpecRecord),
    /// The line decoded but its instant lies outside the window.
    Skip,
    /// The line or the read was bad; report and go on.
    Report(RunError),
}

pub open spec fn spec_on_event(source: Seq<char>, filter: LogFilter, ev: SpecEvent) -> SpecOutcome {
    match ev {
        SpecEvent::ReadFailure => SpecOutcome::Report(RunError::ReadFailed),
        SpecEvent::Line(l) => match spec_decode(l) {
            None => SpecOutcome::Report(RunError::MalformedLine),
            Some(p) => {
                let rec = SpecRecord { source, timestamp: p.0, body: p.1 };
                if filter.spec_matches(rec) {
                    SpecOutcome::Dispatch(rec)
                } else {
                    SpecOutcome::Skip
                }
            },
        },
    }
}

/// Everything the dispatcher must do for one admitted record.
pub struct Dispatch {
    pub payload: String,
    pub row: StoreRow,
    pub record: LogMessage,
}

/// The decision taken for one source event.
pub enum StepOutcome {
    Dispatch(Dispatch),
    Skip,
    Report(RunError),
}

/// Decide what one source event asks of the run: decode, filter, and build
/// the broker payload and the store row for an admitted record. All the
/// waiting and writing is the caller's; this function only decides.
pub fn on_event(cfg: &PipelineConfig, ev: &SourceEvent, utc_offset: i32) -> (r: StepOutcome)
    ensures
        match spec_on_event(cfg.source@, cfg.filter, ev@) {
            SpecOutcome::Dispatch(rec) => r matches StepOutcome::Dispatch(d) && d.record@ == rec
                && d.payload@ == spec_payload(rec) && d.row@ == spec_row(rec, utc_offset),
            SpecOutcome::Skip => r matches StepOutcome::Skip,
            SpecOutcome::Report(e) => r matches StepOutcome::Report(e2) && e2 == e,
        },
{
    match ev {
        SourceEvent::ReadFailure => StepOutcome::Report(RunError::ReadFailed),
        SourceEvent::Line(l) => match decode_line(cfg.source.as_str(), l.as_str()) {
            Err(e) => StepOutcome::Report(e),
            Ok(m) => {
                proof {
                    assert(spec_on_event(cfg.source@, cfg.filter, ev@) matches SpecOutcome::Dispatch(
                        rec,
                    ) ==> m@ =~= rec);
                }
                if cfg.filter.matches(&m) {
                    match encode_payload(&m) {
                        Some(payload) => {
                            let row = store_row_for(&m, utc_offset);
                            StepOutcome::Dispatch(Dispatch { payload, row, record: m })
                        },
                        None => {
                            proof {
                                assert(false);
                            }
                            StepOutcome::Skip
                        },
                    }
                } else {
                    StepOutcome::Skip
                }
            },
        },
    }
}

pub open spec fn event_views(s: Seq<SourceEvent>) -> Seq<SpecEvent> {
    s.map_values(|e: SourceEvent| e@)
}

pub open spec fn string_views(s: Seq<String>) -> Seq<Seq<char>> {
    s.map_values(|x: String| x@)
}

pub open spec fn row_views(s: Seq<StoreRow>) -> Seq<SpecRow> {
    s.map_values(|x: StoreRow| x@)
}

pub open spec fn msg_views(s: Seq<LogMessage>) -> Seq<SpecRecord> {
    s.map_values(|x: LogMessage| x@)
}

/// The payloads of a batch of records, one each, in order.
pub open spec fn payloads_of(recs: Seq<SpecRecord>) -> Seq<Seq<char>> {
    recs.map_values(|r: SpecRecord| spec_payload(r))
}

/// The store rows of a batch of records, one each, in order.
pub open spec fn rows_of(recs: Seq<SpecRecord>, utc_offset: i32) -> Seq<SpecRow> {
    recs.map_values(|r: SpecRecord| spec_row(r, utc_offset))
}

proof fn lemma_string_views_push(s: Seq<String>, x: String)
    ensures
        string_views(s.push(x)) =~= string_views(s).push(x@),
{
}

proof fn lemma_row_views_push(s: Seq<StoreRow>, x: StoreRow)
    ensures
        row_views(s.push(x)) =~= row_views(s).push(x@),
{
}

proof fn lemma_msg_views_push(s: Seq<LogMessage>, x: LogMessage)
    ensures
        msg_views(s.push(x)) =~= msg_views(s).push(x@),
{
}

proof fn lemma_payloads_of_push(recs: Seq<SpecRecord>, rec: SpecRecord)
    ensures
        payloads_of(recs.push(rec)) =~= payloads_of(recs).push(spec_payload(rec)),
{
}

proof fn lemma_rows_of_push(recs: Seq<SpecRecord>, rec: SpecRecord, utc_offset: i32)
    ensures
        rows_of(recs.push(rec), utc_offset) =~= rows_of(recs, utc_offset).push(
            spec_row(rec, utc_offset),
        ),
{
}

/// The records a run admits, in the order the source produced them.
pub open spec fn admitted(source: Seq<char>, filter: LogFilter, events: Seq<SpecEvent>) -> Seq<
    SpecRecord,
>
    decreases events.len(),
{
    if events.len() == 0 {
        Seq::empty()
    } else {
        let rest = admitted(source, filter, events.drop_last());
        match spec_on_event(source, filter, events.last()) {
            SpecOutcome::Dispatch(rec) => rest.push(rec),
            SpecOutcome::Skip => rest,
            SpecOutcome::Report(e) => rest,
        }
    }
}

/// Whether the write attempt numbered `i` against a sink succeeds: the
/// sink's injected outcome where one is given, success otherwise.
pub open spec fn sink_ok(outcomes: Seq<bool>, i: int) -> bool {
    i >= outcomes.len() || (0 <= i && outcomes[i])
}

/// The attempts a sink acknowledged, in attempt order. Each attempt is
/// made exactly once; a failed one is dropped, never retried.
pub open spec fn delivered<T>(attempts: Seq<T>, outcomes: Seq<bool>) -> Seq<T>
    decreases attempts.len(),
{
    if attempts.len() == 0 {
        Seq::empty()
    } else {
        let rest = delivered(attempts.drop_last(), outcomes);
        if sink_ok(outcomes, attempts.len() - 1) {
            rest.push(attempts.last())
        } else {
            rest
        }
    }
}

/// The payloads a run hands the broker sink, one per admitted record, in
/// order.
pub open spec fn spec_broker_attempts(
    source: Seq<char>,
    filter: LogFilter,
    events: Seq<SpecEvent>,
) -> Seq<Seq<char>> {
    payloads_of(admitted(source, filter, events))
}

/// The rows a run hands the store sink, one per admitted record, in order.
pub open spec fn spec_store_attempts(
    source: Seq<char>,
    filter: LogFilter,
    events: Seq<SpecEvent>,
    utc_offset: i32,
) -> Seq<SpecRow> {
    rows_of(admitted(source, filter, events), utc_offset)
}

/// What the broker acknowledged. The store's outcomes appear nowhere here:
/// the broker's deliveries are fixed by the events and its own outcomes.
pub open spec fn spec_broker_deliveries(
    source: Seq<char>,
    filter: LogFilter,
    events: Seq<SpecEvent>,
    broker_ok: Seq<bool>,
) -> Seq<Seq<char>> {
    delivered(spec_broker_attempts(source, filter, events), broker_ok)
}

/// What the store acknowledged. The broker's outcomes appear nowhere here:
/// the store's deliveries are fixed by the events and its own outcomes.
pub open spec fn spec_store_deliveries(
    source: Seq<char>,
    filter: LogFilter,
    events: Seq<SpecEvent>,
    utc_offset: i32,
    store_ok: Seq<bool>,
) -> Seq<SpecRow> {
    delivered(spec_store_attempts(source, filter, events, utc_offset), store_ok)
}

/// The faults a run reports, in the order they arise: one per unreadable
/// or malformed line, and one per failed sink write, the broker's before
/// the store's for the same record.
pub open spec fn spec_run_errors(
    source: Seq<char>,
    filter: LogFilter,
    events: Seq<SpecEvent>,
    broker_ok: Seq<bool>,
    store_ok: Seq<bool>,
) -> Seq<RunError>
    decreases events.len(),
{
    if events.len() == 0 {
        Seq::empty()
    } else {
        let rest = spec_run_errors(source, filter, events.drop_last(), broker_ok, store_ok);
        let k = admitted(source, filter, events.drop_last()).len() as int;
        match spec_on_event(source, filter, events.last()) {
            SpecOutcome::Report(e) => rest.push(e),
            SpecOutcome::Skip => rest,
            SpecOutcome::Dispatch(rec) => {
                let with_broker = if sink_ok(broker_ok, k) {
                    rest
                } else {
                    rest.push(RunError::BrokerWriteFailed)
                };
                if sink_ok(store_ok, k) {
                    with_broker
                } else {
                    with_broker.push(RunError::StoreWriteFailed)
                }
            },
        }
    }
}

/// Everything one run did: the write attempts it made against each sink,
/// what each sink acknowledged, the records handed to the live fan-out,
/// and the faults it reported.
pub struct RunReport {
    pub broker_attempts: Vec<String>,
    pub broker_delivered: Vec<String>,
    pub store_attempts: Vec<StoreRow>,
    pub store_delivered: Vec<StoreRow>,
    pub live_records: Vec<LogMessage>,
    pub errors: Vec<RunError>,
}

fn sink_ok_at(outcomes: &Vec<bool>, i: usize) -> (r: bool)
    ensures
        r == sink_ok(outcomes@, i as int),
{
    i >= outcomes.len() || outcomes[i]
}

/// Run the whole pipeline over a finished stream of source events, with
/// each sink's write outcomes injected: attempt `i` against a sink
/// succeeds unless that sink's outcome sequence says otherwise. Every
/// admitted record is attempted against both sinks exactly once, in source
/// order; a failure at one sink is reported and changes nothing else.
#[verifier::loop_isolation(false)]
pub fn run_events(
    cfg: &PipelineConfig,
    events: &Vec<SourceEvent>,
    broker_ok: &Vec<bool>,
    store_ok: &Vec<bool>,
    utc_offset: i32,
) -> (r: RunReport)
    ensures
        string_views(r.broker_attempts@) == spec_broker_attempts(
            cfg.source@,
            cfg.filter,
            event_views(events@),
        ),
        row_views(r.store_attempts@) == spec_store_attempts(
            cfg.source@,
            cfg.filter,
            event_views(events@),
            utc_offset,
        ),
        msg_views(r.live_records@) == admitted(cfg.source@, cfg.filter, event_views(events@)),
        string_views(r.broker_delivered@) == spec_broker_deliveries(
            cfg.source@,
            cfg.filter,
            event_views(events@),
            broker_ok@,
        ),
        row_views(r.store_delivered@) == spec_store_deliveries(
            cfg.source@,
            cfg.filter,
            event_views(events@),
            utc_offset,
            store_ok@,
        ),
        r.errors@ == spec_run_errors(
            cfg.source@,
            cfg.filter,
            event_views(events@),
            broker_ok@,
            store_ok@,
        ),
{
    let ghost evs = event_views(events@);
    let mut report = RunReport {
        broker_attempts: Vec::new(),
        broker_delivered: Vec::new(),
        store_attempts: Vec::new(),
        store_delivered: Vec::new(),
        live_records: Vec::new(),
        errors: Vec::new(),
    };
    let mut i: usize = 0;
    while i < events.len()
        invariant
            i <= events.len(),
            string_views(report.broker_attempts@) == spec_broker_attempts(
                cfg.source@,
                cfg.filter,
                evs.subrange(0, i as int),
            ),
            row_views(report.store_attempts@) == spec_store_attempts(
                cfg.source@,
                cfg.filter,
                evs.subrange(0, i as int),
                utc_offset,
            ),
            msg_views(report.live_records@) == admitted(
                cfg.source@,
                cfg.filter,
                evs.subrange(0, i as int),
            ),
            string_views(report.broker_delivered@) == spec_broker_deliveries(
                cfg.source@,
                cfg.filter,
                evs.subrange(0, i as int),
                broker_ok@,
            ),
            row_views(report.store_delivered@) == spec_store_deliveries(
                cfg.source@,
                cfg.filter,
                evs.subrange(0, i as int),
                utc_offset,
                store_ok@,
            ),
            report.errors@ == spec_run_errors(
                cfg.source@,
                cfg.filter,
                evs.subrange(0, i as int),
                broker_ok@,
                store_ok@,
            ),
            report.broker_attempts@.len() == admitted(
                cfg.source@,
                cfg.filter,
                evs.subrange(0, i as int),
            ).len(),
        decreases events.len() - i,
    {
        let ghost pre = evs.subrange(0, i as int);
        let ghost pre1 = evs.subrange(0, i as int + 1);
        proof {
            assert(pre1.drop_last() =~= pre);
            assert(pre1.last() == evs[i as int]);
        }
        let ev = &events[i];
        match on_event(cfg, ev, utc_offset) {
            StepOutcome::Report(e) => {
                report.errors.push(e);
            },
            StepOutcome::Skip => {},
            StepOutcome::Dispatch(d) => {
                let Dispatch { payload, row, record } = d;
                let ghost rec = record@;
                let ghost adm = admitted(cfg.source@, cfg.filter, pre);
                let ghost adm1 = admitted(cfg.source@, cfg.filter, pre1);
                let ghost pre_battempts = report.broker_attempts@;
                let ghost pre_bdeliv = report.broker_delivered@;
                let ghost pre_sattempts = report.store_attempts@;
                let ghost pre_sdeliv = report.store_delivered@;
                let ghost pre_live = report.live_records@;
                let ghost gpayload = payload;
                let ghost grow = row;
                let ghost grecord = record;
                proof {
                    assert(adm1 =~= adm.push(rec));
                    lemma_payloads_of_push(adm, rec);
                    lemma_rows_of_push(adm, rec, utc_offset);
                }
                let at = report.broker_attempts.len();
                let payload_copy = payload.clone();
                report.broker_attempts.push(payload_copy);
                if sink_ok_at(broker_ok, at) {
                    report.broker_delivered.push(payload);
                } else {
                    report.errors.push(RunError::BrokerWriteFailed);
                }
                let row_copy = row.duplicate();
                report.store_attempts.push(row_copy);
                if sink_ok_at(store_ok, at) {
                    report.store_delivered.push(row);
                } else {
                    report.errors.push(RunError::StoreWriteFailed);
                }
                report.live_records.push(record);
                proof {
                    let batt1 = payloads_of(adm1);
                    let satt1 = rows_of(adm1, utc_offset);
                    lemma_string_views_push(pre_battempts, gpayload);
                    assert(report.broker_attempts@ =~= pre_battempts.push(gpayload));
                    assert(string_views(report.broker_attempts@) =~= batt1);
                    lemma_row_views_push(pre_sattempts, grow);
                    assert(report.store_attempts@[pre_sattempts.len() as int]@ == grow@);
                    assert(row_views(report.store_attempts@) =~= satt1);
                    lemma_msg_views_push(pre_live, grecord);
                    assert(msg_views(report.live_records@) =~= adm1);
                    assert(batt1.drop_last() =~= payloads_of(adm));
                    assert(batt1.last() == spec_payload(rec));
                    assert(satt1.drop_last() =~= rows_of(adm, utc_offset));
                    assert(satt1.last() == spec_row(rec, utc_offset));
                    assert(batt1.len() - 1 == at as int);
                    lemma_string_views_push(pre_bdeliv, gpayload);
                    lemma_row_views_push(pre_sdeliv, grow);
                    assert(string_views(report.broker_delivered@) =~= spec_broker_deliveries(
                        cfg.source@,
                        cfg.filter,
                        pre1,
                        broker_ok@,
                    ));
                    assert(row_views(report.store_delivered@) =~= spec_store_deliveries(
                        cfg.source@,
                        cfg.filter,
                        pre1,
                        utc_offset,
                        store_ok@,
                    ));
                }
            },
        }
        i = i + 1;
    }
    proof {
        assert(evs.subrange(0, events@.len() as int) =~= evs);
    }
    report
}

/// A malformed line never aborts the run: it is reported and skipped, and
/// the records admitted around it are exactly those admitted had the line
/// never appeared. In particular, of a batch of lines with one malformed
/// line in the middle, every other well-formed line in the window is still
/// processed.
pub proof fn lemma_malformed_line_isolated(
    source: Seq<char>,
    filter: LogFilter,
    before: Seq<SpecEvent>,
    bad: Seq<char>,
    after: Seq<SpecEvent>,
)
    requires
        spec_decode(bad) is None,
    ensures
        admitted(source, filter, before + seq![SpecEvent::Line(bad)] + after) == admitted(
            source,
            filter,
            before + after,
        ),
    decreases after.len(),
{
    if after.len() == 0 {
        let w = before + seq![SpecEvent::Line(bad)] + after;
        assert(w =~= before.push(SpecEvent::Line(bad)));
        assert(before + after =~= before);
        assert(w.drop_last() =~= before);
        assert(w.last() == SpecEvent::Line(bad));
    } else {
        lemma_malformed_line_isolated(source, filter, before, bad, after.drop_last());
        let l = before + seq![SpecEvent::Line(bad)] + after;
        let r = before + after;
        assert(l.drop_last() =~= before + seq![SpecEvent::Line(bad)] + after.drop_last());
        assert(r.drop_last() =~= before + after.drop_last());
        assert(l.last() == after.last());
        assert(r.last() == after.last());
    }
}

/// The pipeline introduces no reordering: as the source yields more
/// events, what a run has already admitted — and with it every attempt it
/// has already handed each sink — stays in place, and new records only
/// follow it.
pub proof fn lemma_order_preserved(
    source: Seq<char>,
    filter: LogFilter,
    events: Seq<SpecEvent>,
    more: Seq<SpecEvent>,
)
    ensures
        admitted(source, filter, events).is_prefix_of(admitted(source, filter, events + more)),
    decreases more.len(),
{
    if more.len() == 0 {
        assert(events + more =~= events);
    } else {
        lemma_order_preserved(source, filter, events, more.drop_last());
        let w = events + more;
        assert(w.drop_last() =~= events + more.drop_last());
        let a = admitted(source, filter, events);
        let b = admitted(source, filter, events + more.drop_last());
        let c = admitted(source, filter, w);
        match spec_on_event(source, filter, w.last()) {
            SpecOutcome::Dispatch(rec) => {
                assert(c =~= b.push(rec));
                assert(c.subrange(0, a.len() as int) =~= b.subrange(0, a.len() as int));
            },
            SpecOutcome::Skip => {
                assert(c == b);
            },
            SpecOutcome::Report(_) => {
                assert(c == b);
            },
        }
    }
}

/// Both sinks see the admitted records in the same relative order: at
/// every position, the broker's attempt and the store's attempt encode the
/// record the run admitted at that position.
pub proof fn lemma_sinks_aligned(
    source: Seq<char>,
    filter: LogFilter,
    events: Seq<SpecEvent>,
    utc_offset: i32,
    i: int,
)
    requires
        0 <= i < admitted(source, filter, events).len(),
    ensures
        spec_broker_attempts(source, filter, events).len() == admitted(
            source,
            filter,
            events,
        ).len(),
        spec_store_attempts(source, filter, events, utc_offset).len() == admitted(
            source,
            filter,
            events,
        ).len(),
        spec_broker_attempts(source, filter, events)[i] == spec_payload(
            admitted(source, filter, events)[i],
        ),
        spec_store_attempts(source, filter, events, utc_offset)[i] == spec_row(
            admitted(source, filter, events)[i],
            utc_offset,
        ),
{
}

/// Every attempt whose own outcome is good is acknowledged by its sink.
pub proof fn lemma_delivered_when_ok<T>(attempts: Seq<T>, outcomes: Seq<bool>, i: int)
    requires
        0 <= i < attempts.len(),
        sink_ok(outcomes, i),
    ensures
        delivered(attempts, outcomes).contains(attempts[i]),
    decreases attempts.len(),
{
    let rest = delivered(attempts.drop_last(), outcomes);
    if i == attempts.len() - 1 {
        assert(rest.push(attempts.last())[rest.len() as int] == attempts[i]);
    } else {
        lemma_delivered_when_ok(attempts.drop_last(), outcomes, i);
        assert(attempts.drop_last()[i] == attempts[i]);
        if sink_ok(outcomes, attempts.len() - 1) {
            let j = choose|j: int| 0 <= j < rest.len() && rest[j] == attempts[i];
            assert(rest.push(attempts.last())[j] == attempts[i]);
        }
    }
}

/// A healthy sink acknowledges every attempt, in order.
pub proof fn lemma_healthy_sink_receives_all<T>(attempts: Seq<T>, outcomes: Seq<bool>)
    requires
        forall|i: int| 0 <= i < outcomes.len() ==> outcomes[i],
    ensures
        delivered(attempts, outcomes) == attempts,
    decreases attempts.len(),
{
    if attempts.len() > 0 {
        lemma_healthy_sink_receives_all(attempts.drop_last(), outcomes);
        assert(sink_ok(outcomes, attempts.len() - 1));
        assert(attempts.drop_last().push(attempts.last()) =~= attempts);
    }
}

/// A failure injected into the broker sink for one record never keeps that
/// record, or any other, away from the store: the broker's outcomes appear
/// nowhere in the store's deliveries, and a record whose own store write
/// succeeds is acknowledged by the store whatever the broker did.
pub proof fn lemma_broker_failure_does_not_block_store(
    source: Seq<char>,
    filter: LogFilter,
    events: Seq<SpecEvent>,
    utc_offset: i32,
    broker_ok: Seq<bool>,
    store_ok: Seq<bool>,
    i: int,
)
    requires
        0 <= i < admitted(source, filter, events).len(),
        sink_ok(store_ok, i),
    ensures
        spec_store_deliveries(source, filter, events, utc_offset, store_ok).contains(
            spec_row(admitted(source, filter, events)[i], utc_offset),
        ),
{
    lemma_delivered_when_ok(spec_store_attempts(source, filter, events, utc_offset), store_ok, i);
}

/// The mirror image: a failure injected into the store sink never keeps a
/// record away from the broker. With an unavailable store and a healthy
/// broker, the broker still receives every admitted record.
/// A store outage touches nothing but the store: the store's outcomes
/// stand nowhere in the broker's deliveries, so a broker with no injected
/// failure still acknowledges every admitted record; and the store gets
/// exactly one attempt per admitted record — nothing is queued or retried
/// for it, whatever came of earlier attempts.
pub proof fn lemma_store_outage_does_not_touch_broker(
    source: Seq<char>,
    filter: LogFilter,
    events: Seq<SpecEvent>,
    store_ok: Seq<bool>,
    utc_offset: i32,
)
    ensures
        spec_broker_deliveries(source, filter, events, Seq::empty()) == spec_broker_attempts(
            source,
            filter,
            events,
        ),
        spec_store_attempts(source, filter, events, utc_offset).len() == admitted(
            source,
            filter,
            events,
        ).len(),
{
    lemma_healthy_sink_receives_all(spec_broker_attempts(source, filter, events), Seq::empty());
}

pub proof fn lemma_store_failure_does_not_block_broker(
    source: Seq<char>,
    filter: LogFilter,
    events: Seq<SpecEvent>,
    broker_ok: Seq<bool>,
    store_ok: Seq<bool>,
    i: int,
)
    requires
        0 <= i < admitted(source, filter, events).len(),
        sink_ok(broker_ok, i),
    ensures
        spec_broker_deliveries(source, filter, events, broker_ok).contains(
            spec_payload(admitted(source, filter, events)[i]),
        ),
{
    lemma_delivered_when_ok(spec_broker_attempts(source, filter, events), broker_ok, i);
}

} // verus!
