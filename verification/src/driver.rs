//! The stream driver: what to do with each record of a stream.
//!
//! The driver does no reading or writing. It is told what the source gave
//! (a record, or the end of input) and answers with what the sink is owed
//! (a record to write, nothing, or a flush). The caller runs the loop.

use crate::error::TransformError;
use crate::fill::FillPlan;
use crate::fill::FillPlanView;
use crate::record::outcome_view;
use crate::record::record_fields;
use crate::record::records_view;
use crate::trim::trim_fields;
use crate::trim::trim_record;
use csv::ByteRecord;
use vstd::prelude::*;

verus! {

/// A transform that is bound to all it needs and is applied per record.
pub enum Transform {
    /// Replace the target fields of qualifying records.
    Fill(FillPlan),
    /// Trim every field.
    Trim,
}

/// The mathematical value of a [`Transform`].
pub enum TransformView {
    Fill(FillPlanView),
    Trim,
}

impl View for Transform {
    type V = TransformView;

    open spec fn view(&self) -> TransformView {
        match *self {
            Transform::Fill(plan) => TransformView::Fill(plan@),
            Transform::Trim => TransformView::Trim,
        }
    }
}

impl TransformView {
    /// What the transform makes of the header row: fill passes it through
    /// as it is, trim trims it.
    pub open spec fn header_out(self, header: Seq<Seq<u8>>) -> Seq<Seq<u8>> {
        match self {
            TransformView::Fill(_) => header,
            TransformView::Trim => trim_fields(header),
        }
    }

    /// What the transform makes of a data record.
    pub open spec fn record_out(self, fields: Seq<Seq<u8>>) -> Result<Seq<Seq<u8>>, TransformError> {
        match self {
            TransformView::Fill(plan) => plan.outcome(fields),
            TransformView::Trim => Ok(trim_fields(fields)),
        }
    }
}

impl Transform {
    /// Applies the transform to the header row.
    pub fn apply_header(&self, header: ByteRecord) -> (out: ByteRecord)
        ensures
            record_fields(out) == self@.header_out(record_fields(header)),
    {
        match self {
            Transform::Fill(_) => header,
            Transform::Trim => trim_record(header),
        }
    }

    /// Applies the transform to a data record.
    pub fn apply(&self, record: ByteRecord) -> (r: Result<ByteRecord, TransformError>)
        ensures
            outcome_view(r) == self@.record_out(record_fields(record)),
    {
        match self {
            Transform::Fill(plan) => plan.apply(&record),
            Transform::Trim => Ok(trim_record(record)),
        }
    }
}

/// Where a stream stands.
#[derive(Debug, Clone, Copy, PartialEq, Eq, Structural)]
pub enum Phase {
    /// The next record is the header row.
    Header,
    /// The next record is a data record.
    Records,
    /// The end of input was seen and the flush was handed out.
    Finished,
    /// A record was refused; nothing more is written.
    Failed,
}

/// What the source gave.
pub enum Event {
    /// The next record of the input.
    Record(ByteRecord),
    /// The input is exhausted.
    End,
}

/// The mathematical value of an [`Event`].
pub enum EventView {
    Record(Seq<Seq<u8>>),
    End,
}

impl View for Event {
    type V = EventView;

    open spec fn view(&self) -> EventView {
        match *self {
            Event::Record(record) => EventView::Record(record_fields(record)),
            Event::End => EventView::End,
        }
    }
}

/// What the sink is owed.
#[derive(Debug)]
pub enum Action {
    /// Write this record.
    Write(ByteRecord),
    /// Write nothing.
    Nothing,
    /// Flush the sink: the stream is complete.
    Flush,
    /// Stop and report the error.
    Fail(TransformError),
}

/// The mathematical value of an [`Action`].
pub enum ActionView {
    Write(Seq<Seq<u8>>),
    Nothing,
    Flush,
    Fail(TransformError),
}

impl View for Action {
    type V = ActionView;

    open spec fn view(&self) -> ActionView {
        match *self {
            Action::Write(record) => ActionView::Write(record_fields(record)),
            Action::Nothing => ActionView::Nothing,
            Action::Flush => ActionView::Flush,
            Action::Fail(error) => ActionView::Fail(error),
        }
    }
}

/// The phase in which a stream starts.
pub open spec fn first_phase(headers_present: bool) -> Phase {
    if headers_present {
        Phase::Header
    } else {
        Phase::Records
    }
}

/// One step of a stream: the phase after the event and the action it calls
/// for.
///
/// The header row is written transformed, unless it has no fields: then
/// nothing is written for it. Each data record is written transformed; a
/// record that the transform refuses ends the stream. The end of input
/// calls for the one flush. After that, or after a failure, every event is
/// answered with nothing.
pub open spec fn step_spec(transform: TransformView, phase: Phase, event: EventView) -> (
    Phase,
    ActionView,
) {
    match phase {
        Phase::Header => match event {
            EventView::Record(header) => if header.len() == 0 {
                (Phase::Records, ActionView::Nothing)
            } else {
                (Phase::Records, ActionView::Write(transform.header_out(header)))
            },
            EventView::End => (Phase::Finished, ActionView::Flush),
        },
        Phase::Records => match event {
            EventView::Record(fields) => match transform.record_out(fields) {
                Ok(out) => (Phase::Records, ActionView::Write(out)),
                Err(error) => (Phase::Failed, ActionView::Fail(error)),
            },
            EventView::End => (Phase::Finished, ActionView::Flush),
        },
        Phase::Finished => (Phase::Finished, ActionView::Nothing),
        Phase::Failed => (Phase::Failed, ActionView::Nothing),
    }
}

/// The phase after a run of records and the actions they called for, in
/// order.
pub open spec fn run_spec(transform: TransformView, phase: Phase, records: Seq<Seq<Seq<u8>>>) -> (
    Phase,
    Seq<ActionView>,
)
    decreases records.len(),
{
    if records.len() == 0 {
        (phase, Seq::empty())
    } else {
        let (before, actions) = run_spec(transform, phase, records.drop_last());
        let (after, action) = step_spec(transform, before, EventView::Record(records.last()));
        (after, actions.push(action))
    }
}

/// The records that a list of actions writes, in order.
pub open spec fn writes_of(actions: Seq<ActionView>) -> Seq<Seq<Seq<u8>>>
    decreases actions.len(),
{
    if actions.len() == 0 {
        Seq::empty()
    } else {
        match actions.last() {
            ActionView::Write(fields) => writes_of(actions.drop_last()).push(fields),
            _ => writes_of(actions.drop_last()),
        }
    }
}

/// The failure that a list of actions reports, if any.
pub open spec fn failure_of(actions: Seq<ActionView>) -> Option<TransformError>
    decreases actions.len(),
{
    if actions.len() == 0 {
        None
    } else {
        match failure_of(actions.drop_last()) {
            Some(error) => Some(error),
            None => match actions.last() {
                ActionView::Fail(error) => Some(error),
                _ => None,
            },
        }
    }
}

/// A transform together with the phase of the stream it is applied to.
pub struct StreamDriver {
    transform: Transform,
    phase: Phase,
}

impl StreamDriver {
    /// The transform that the driver applies.
    pub closed spec fn transform(&self) -> Transform {
        self.transform
    }

    /// The phase that the stream is in.
    pub closed spec fn phase(&self) -> Phase {
        self.phase
    }

    /// A driver at the start of a stream. With headers declared present the
    /// first record is the header row.
    pub fn new(transform: Transform, headers_present: bool) -> (driver: StreamDriver)
        ensures
            driver.transform() == transform,
            driver.phase() == first_phase(headers_present),
    {
        let phase = if headers_present {
            Phase::Header
        } else {
            Phase::Records
        };
        StreamDriver { transform, phase }
    }

    /// The phase that the stream is in.
    pub fn current_phase(&self) -> (phase: Phase)
        ensures
            phase == self.phase(),
    {
        self.phase
    }

    /// Takes what the source gave and says what the sink is owed.
    pub fn step(&mut self, event: Event) -> (action: Action)
        ensures
            final(self).transform() == old(self).transform(),
            (final(self).phase(), action@) == step_spec(
                old(self).transform()@,
                old(self).phase(),
                event@,
            ),
    {
        match self.phase {
            Phase::Header => match event {
                Event::Record(header) => {
                    self.phase = Phase::Records;
                    if header.is_empty() {
                        Action::Nothing
                    } else {
                        Action::Write(self.transform.apply_header(header))
                    }
                },
                Event::End => {
                    self.phase = Phase::Finished;
                    Action::Flush
                },
            },
            Phase::Records => match event {
                Event::Record(record) => match self.transform.apply(record) {
                    Ok(out) => Action::Write(out),
                    Err(error) => {
                        self.phase = Phase::Failed;
                        Action::Fail(error)
                    },
                },
                Event::End => {
                    self.phase = Phase::Finished;
                    Action::Flush
                },
            },
            Phase::Finished => Action::Nothing,
            Phase::Failed => Action::Nothing,
        }
    }
}

/// What a whole stream came to.
#[derive(Debug)]
pub struct RunOutcome {
    /// The records that were written, in order.
    pub written: Vec<ByteRecord>,
    /// The error that ended the stream early, if one did.
    pub failure: Option<TransformError>,
    /// Whether the stream was flushed after its last record.
    pub flushed: bool,
}

impl RunOutcome {
    /// Whether this is what the driver makes of the input `records`: what it
    /// writes for them in order, the failure if a record was refused, and
    /// the flush at the end of a stream that did not fail.
    pub open spec fn is_outcome_of(
        &self,
        transform: TransformView,
        headers_present: bool,
        records: Seq<Seq<Seq<u8>>>,
    ) -> bool {
        let actions = run_spec(transform, first_phase(headers_present), records).1;
        &&& records_view(self.written@) == writes_of(actions)
        &&& self.failure == failure_of(actions)
        &&& self.flushed == (failure_of(actions) is None)
    }
}

/// Runs a whole stream that is held in memory: every record goes through
/// the driver in input order, then the end of input.
pub fn run_stream(transform: Transform, headers_present: bool, records: Vec<ByteRecord>) -> (outcome:
    RunOutcome)
    ensures
        outcome.is_outcome_of(transform@, headers_present, records_view(records@)),
{
    let ghost all = records@;
    let ghost inputs = records_view(all);
    let ghost start = first_phase(headers_present);
    let ghost model = transform@;
    let mut driver = StreamDriver::new(transform, headers_present);
    let mut written: Vec<ByteRecord> = Vec::new();
    let mut failure: Option<TransformError> = None;
    for record in iter: records
        invariant
            iter.seq() == all,
            inputs == records_view(all),
            start == first_phase(headers_present),
            driver.transform()@ == model,
            driver.phase() == run_spec(model, start, inputs.take(iter.index())).0,
            records_view(written@) == writes_of(run_spec(model, start, inputs.take(iter.index())).1),
            failure == failure_of(run_spec(model, start, inputs.take(iter.index())).1),
    {
        let ghost done = iter.index();
        proof {
            assert(inputs.take(done + 1).drop_last() =~= inputs.take(done));
            lemma_failure_means_failed(model, start, inputs.take(done));
        }
        match driver.step(Event::Record(record)) {
            Action::Write(out) => {
                written.push(out);
            },
            Action::Fail(error) => {
                failure = Some(error);
            },
            _ => {},
        }
        proof {
            let actions = run_spec(model, start, inputs.take(done + 1)).1;
            assert(actions.drop_last() =~= run_spec(model, start, inputs.take(done)).1);
        }
    }
    proof {
        assert(inputs.take(inputs.len() as int) =~= inputs);
        lemma_failure_means_failed(model, start, inputs);
    }
    let flushed = match driver.step(Event::End) {
        Action::Flush => true,
        _ => false,
    };
    RunOutcome { written, failure, flushed }
}

/// The data records of an input: all records but the header row.
pub open spec fn data_records(headers_present: bool, records: Seq<Seq<Seq<u8>>>) -> Seq<
    Seq<Seq<u8>>,
> {
    if headers_present && records.len() > 0 {
        records.drop_first()
    } else {
        records
    }
}

/// Whether the transform accepts every record of `records`.
pub open spec fn all_accepted(transform: TransformView, records: Seq<Seq<Seq<u8>>>) -> bool {
    forall|i: int| 0 <= i < records.len() ==> transform.record_out(#[trigger] records[i]) is Ok
}

/// What is written for a data record that the transform accepts.
pub open spec fn written_for(transform: TransformView, fields: Seq<Seq<u8>>) -> Seq<Seq<u8>> {
    match transform.record_out(fields) {
        Ok(out) => out,
        Err(_) => fields,
    }
}

/// Each record transformed, in order.
pub open spec fn transformed(transform: TransformView, records: Seq<Seq<Seq<u8>>>) -> Seq<
    Seq<Seq<u8>>,
> {
    Seq::new(records.len(), |i: int| written_for(transform, records[i]))
}

/// What is written for the header row: the row transformed, or nothing if
/// the row has no fields or headers are not present.
pub open spec fn header_lines(
    transform: TransformView,
    headers_present: bool,
    records: Seq<Seq<Seq<u8>>>,
) -> Seq<Seq<Seq<u8>>> {
    if headers_present && records.len() > 0 && records[0].len() > 0 {
        seq![transform.header_out(records[0])]
    } else {
        Seq::empty()
    }
}

/// Stream ordering. A stream whose data records the transform accepts
/// writes the header line, if there is one, and then exactly one record for
/// each data record, in input order: output record `n` is the transform of
/// data record `n`. No record is dropped, repeated or moved, and the run
/// reports no failure.
pub proof fn lemma_stream_order(
    transform: TransformView,
    headers_present: bool,
    records: Seq<Seq<Seq<u8>>>,
)
    requires
        all_accepted(transform, data_records(headers_present, records)),
    ensures
        writes_of(run_spec(transform, first_phase(headers_present), records).1) == header_lines(
            transform,
            headers_present,
            records,
        ) + transformed(transform, data_records(headers_present, records)),
        transformed(transform, data_records(headers_present, records)).len() == data_records(
            headers_present,
            records,
        ).len(),
        failure_of(run_spec(transform, first_phase(headers_present), records).1) is None,
        run_spec(transform, first_phase(headers_present), records).0 == (if headers_present
            && records.len() == 0 {
            Phase::Header
        } else {
            Phase::Records
        }),
    decreases records.len(),
{
    if records.len() > 0 {
        let start = first_phase(headers_present);
        let data = data_records(headers_present, records);
        let front = records.drop_last();
        let front_data = data_records(headers_present, front);
        assert forall|i: int| 0 <= i < front_data.len() implies transform.record_out(
            #[trigger] front_data[i],
        ) is Ok by {
            assert(front_data[i] == data[i]);
        }
        lemma_stream_order(transform, headers_present, front);
        let actions = run_spec(transform, start, records).1;
        assert(actions.drop_last() =~= run_spec(transform, start, front).1);
    }
}

/// Whether the record at place `k` is the first that the transform refuses.
pub open spec fn first_refused(
    transform: TransformView,
    records: Seq<Seq<Seq<u8>>>,
    k: int,
) -> bool {
    &&& 0 <= k < records.len()
    &&& transform.record_out(records[k]) is Err
    &&& forall|j: int| 0 <= j < k ==> transform.record_out(#[trigger] records[j]) is Ok
}

/// A stream ends at the first data record that the transform refuses. What
/// was written for the records before it stays written, in order; nothing
/// is written for the refused record or for any record after it; and the
/// failure that the run reports is the refusal of that record.
pub proof fn lemma_stream_stops_at_refusal(
    transform: TransformView,
    headers_present: bool,
    records: Seq<Seq<Seq<u8>>>,
    k: int,
)
    requires
        first_refused(transform, data_records(headers_present, records), k),
    ensures
        writes_of(run_spec(transform, first_phase(headers_present), records).1) == header_lines(
            transform,
            headers_present,
            records,
        ) + transformed(transform, data_records(headers_present, records).take(k)),
        transform.record_out(data_records(headers_present, records)[k]) matches Err(error)
            && failure_of(run_spec(transform, first_phase(headers_present), records).1) == Some(
            error,
        ),
        run_spec(transform, first_phase(headers_present), records).0 == Phase::Failed,
    decreases records.len(),
{
    let start = first_phase(headers_present);
    let data = data_records(headers_present, records);
    let front = records.drop_last();
    let front_data = data_records(headers_present, front);
    let actions = run_spec(transform, start, records).1;
    assert(front_data =~= data.drop_last());
    assert(actions.drop_last() =~= run_spec(transform, start, front).1);
    assert(header_lines(transform, headers_present, front) == header_lines(
        transform,
        headers_present,
        records,
    ));
    if k == data.len() - 1 {
        assert forall|i: int| 0 <= i < front_data.len() implies transform.record_out(
            #[trigger] front_data[i],
        ) is Ok by {
            assert(front_data[i] == data[i]);
        }
        lemma_stream_order(transform, headers_present, front);
        assert(data.take(k) =~= front_data);
    } else {
        assert forall|j: int| 0 <= j < k implies transform.record_out(#[trigger] front_data[j])
            is Ok by {
            assert(front_data[j] == data[j]);
        }
        assert(first_refused(transform, front_data, k));
        lemma_stream_stops_at_refusal(transform, headers_present, front, k);
        assert(data.take(k) =~= front_data.take(k));
    }
}

/// Header suppression. Where headers are declared present and the header
/// row has no fields, no line is written for it; the data records are
/// still transformed and written, each in its place.
pub proof fn lemma_empty_header_is_suppressed(
    transform: TransformView,
    records: Seq<Seq<Seq<u8>>>,
)
    requires
        records.len() > 0,
        records[0].len() == 0,
        all_accepted(transform, records.drop_first()),
    ensures
        writes_of(run_spec(transform, Phase::Header, records).1) == transformed(
            transform,
            records.drop_first(),
        ),
{
    lemma_stream_order(transform, true, records);
}

/// The flush comes once, at the end: no record calls for one, the end of
/// input calls for one unless the stream has failed, and whatever comes
/// after the end is answered with nothing.
pub proof fn lemma_flush_once(transform: TransformView, phase: Phase, fields: Seq<Seq<u8>>)
    ensures
        step_spec(transform, phase, EventView::Record(fields)).1 != ActionView::Flush,
        phase == Phase::Header || phase == Phase::Records ==> step_spec(
            transform,
            phase,
            EventView::End,
        ) == (Phase::Finished, ActionView::Flush),
        step_spec(transform, Phase::Finished, EventView::End) == (
            Phase::Finished,
            ActionView::Nothing,
        ),
        step_spec(transform, Phase::Failed, EventView::End) == (Phase::Failed, ActionView::Nothing),
{
}

/// A run reports a failure if and only if it ends in the failed phase, and
/// a run of records never ends in the finished one.
pub proof fn lemma_failure_means_failed(
    transform: TransformView,
    phase: Phase,
    records: Seq<Seq<Seq<u8>>>,
)
    requires
        phase == Phase::Header || phase == Phase::Records,
    ensures
        failure_of(run_spec(transform, phase, records).1) is Some <==> run_spec(
            transform,
            phase,
            records,
        ).0 == Phase::Failed,
        run_spec(transform, phase, records).0 != Phase::Finished,
    decreases records.len(),
{
    if records.len() > 0 {
        lemma_failure_means_failed(transform, phase, records.drop_last());
        let actions = run_spec(transform, phase, records).1;
        assert(actions.drop_last() =~= run_spec(transform, phase, records.drop_last()).1);
    }
}

} // verus!
