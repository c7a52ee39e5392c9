//! From output events to log records.
//!
//! The relay reads the backend's output channel until it closes. Each event
//! puts at most one record into one of the host's two logs; the records keep
//! the order of the events.

use crate::decimal::{decimal, decimal_string, lemma_decimal_injective, lemma_digits_value};
use crate::event::{OutputEvent, OutputEventView};
use vstd::prelude::*;
use vstd::string::*;

verus! {

/// The two logs of the host process.
#[derive(Debug, Clone, Copy, PartialEq, Eq, Structural)]
pub enum LogStream {
    /// The informational log: the host's standard output.
    Info,
    /// The error log: the host's standard error.
    Error,
}

/// One line to write to one of the host's logs.
#[derive(Debug, Clone, PartialEq, Eq)]
pub struct LogRecord {
    pub stream: LogStream,
    pub text: String,
}

/// The mathematical value of a [`LogRecord`].
pub struct LogRecordView {
    pub stream: LogStream,
    pub text: Seq<char>,
}

impl View for LogRecord {
    type V = LogRecordView;

    open spec fn view(&self) -> LogRecordView {
        LogRecordView { stream: self.stream, text: self.text@ }
    }
}

impl DeepView for LogRecord {
    type V = LogRecordView;

    open spec fn deep_view(&self) -> LogRecordView {
        self@
    }
}

/// What the relay does after one read of the output channel.
#[derive(Debug, Clone, PartialEq, Eq)]
pub enum RelayStep {
    /// Write this record, then read again.
    Write(LogRecord),
    /// Write nothing, then read again.
    Skip,
    /// The channel is closed: stop reading.
    Stop,
}

/// The mathematical value of a [`RelayStep`].
pub enum RelayStepView {
    Write(LogRecordView),
    Skip,
    Stop,
}

impl View for RelayStep {
    type V = RelayStepView;

    open spec fn view(&self) -> RelayStepView {
        match *self {
            RelayStep::Write(record) => RelayStepView::Write(record@),
            RelayStep::Skip => RelayStepView::Skip,
            RelayStep::Stop => RelayStepView::Stop,
        }
    }
}

/// The tag that every relayed line starts with.
pub open spec fn log_tag() -> Seq<char> {
    "[backend] "@
}

/// A line as it appears in the log: the tag, then the line unchanged.
pub open spec fn tagged(line: Seq<char>) -> Seq<char> {
    log_tag() + line
}

/// What is said of the end of the backend: that it has terminated, and
/// with which exit code where the host knows one.
pub open spec fn termination_words(code: Option<i32>) -> Seq<char> {
    match code {
        Some(code) => "terminated with exit code "@ + decimal(code as int),
        None => "terminated"@,
    }
}

/// The text that reports the end of the backend: the tag, then the words on
/// its end.
pub open spec fn termination_notice(code: Option<i32>) -> Seq<char> {
    tagged(termination_words(code))
}

/// The record that an event puts into the log, if it puts one there.
pub open spec fn record_for(event: OutputEventView) -> Option<LogRecordView> {
    match event {
        OutputEventView::Stdout(line) => Some(
            LogRecordView { stream: LogStream::Info, text: tagged(line) },
        ),
        OutputEventView::Stderr(line) => Some(
            LogRecordView { stream: LogStream::Error, text: tagged(line) },
        ),
        OutputEventView::Terminated(code) => Some(
            LogRecordView { stream: LogStream::Info, text: termination_notice(code) },
        ),
        OutputEventView::Other => None,
    }
}

/// The step that follows one read of the channel: `None` is the closed channel.
pub open spec fn step_for(received: Option<OutputEventView>) -> RelayStepView {
    match received {
        None => RelayStepView::Stop,
        Some(event) => match record_for(event) {
            Some(record) => RelayStepView::Write(record),
            None => RelayStepView::Skip,
        },
    }
}

/// The records that a sequence of events puts into the log, in order.
pub open spec fn relay_log(events: Seq<OutputEventView>) -> Seq<LogRecordView>
    decreases events.len(),
{
    if events.len() == 0 {
        Seq::empty()
    } else {
        let earlier = relay_log(events.drop_last());
        match record_for(events.last()) {
            Some(record) => earlier.push(record),
            None => earlier,
        }
    }
}

/// Puts the tag in front of a line.
pub fn tag_line(line: &str) -> (text: String)
    ensures
        text@ == tagged(line@),
{
    let mut text = String::from_str("[backend] ");
    text.append(line);
    text
}

/// Writes the notice of the backend's end.
pub fn notice_text(code: Option<i32>) -> (text: String)
    ensures
        text@ == termination_notice(code),
{
    match code {
        Some(code) => {
            let mut words = String::from_str("terminated with exit code ");
            words.append(decimal_string(code).as_str());
            tag_line(words.as_str())
        },
        None => tag_line("terminated"),
    }
}

/// Decides what one event puts into the log.
pub fn relay_event(event: &OutputEvent) -> (record: Option<LogRecord>)
    ensures
        record.deep_view() == record_for(event@),
{
    match event {
        OutputEvent::Stdout(line) => Some(
            LogRecord { stream: LogStream::Info, text: tag_line(line.as_str()) },
        ),
        OutputEvent::Stderr(line) => Some(
            LogRecord { stream: LogStream::Error, text: tag_line(line.as_str()) },
        ),
        OutputEvent::Terminated(code) => Some(
            LogRecord { stream: LogStream::Info, text: notice_text(*code) },
        ),
        OutputEvent::Other => None,
    }
}

/// Decides the relay's next step from what a read of the channel returned:
/// an event, or `None` once the channel is closed.
pub fn relay_step(received: Option<OutputEvent>) -> (step: RelayStep)
    ensures
        step@ == step_for(received.deep_view()),
{
    match received {
        None => RelayStep::Stop,
        Some(event) => match relay_event(&event) {
            Some(record) => RelayStep::Write(record),
            None => RelayStep::Skip,
        },
    }
}

/// Relays a whole sequence of events: the records they put into the log, in order.
pub fn relay_all(events: &Vec<OutputEvent>) -> (records: Vec<LogRecord>)
    ensures
        records.deep_view() == relay_log(events.deep_view()),
{
    let mut records: Vec<LogRecord> = Vec::new();
    let mut i: usize = 0;
    while i < events.len()
        invariant
            i <= events.len(),
            records.deep_view() == relay_log(events.deep_view().take(i as int)),
        decreases events.len() - i,
    {
        let record = relay_event(&events[i]);
        proof {
            let all = events.deep_view();
            assert(all.take(i as int + 1).drop_last() == all.take(i as int));
            assert(all.take(i as int + 1).last() == events[i as int]@);
        }
        match record {
            Some(r) => {
                let ghost before = records.deep_view();
                records.push(r);
                assert(records.deep_view() == before.push(r@));
            },
            None => {},
        }
        i = i + 1;
    }
    assert(events.deep_view().take(i as int) == events.deep_view());
    records
}

/// The place in the log of the record of event `i`: the number of records
/// that the events before it put there.
pub open spec fn place(events: Seq<OutputEventView>, i: int) -> int {
    relay_log(events.take(i)).len() as int
}

/// Relaying goes event by event: the log of two runs of events, one after
/// the other, is the log of the first followed by the log of the second.
pub proof fn lemma_relay_log_concat(first: Seq<OutputEventView>, second: Seq<OutputEventView>)
    ensures
        relay_log(first + second) == relay_log(first) + relay_log(second),
    decreases second.len(),
{
    if second.len() == 0 {
        assert(first + second == first);
        assert(relay_log(first) + relay_log(second) == relay_log(first));
    } else {
        lemma_relay_log_concat(first, second.drop_last());
        assert((first + second).drop_last() == first + second.drop_last());
        assert((first + second).last() == second.last());
        match record_for(second.last()) {
            Some(record) => {
                assert((relay_log(first) + relay_log(second.drop_last())).push(record)
                    == relay_log(first) + relay_log(second.drop_last()).push(record));
            },
            None => {},
        }
    }
}

/// Each event puts at most one record into the log, right behind the records
/// of the events before it: one record if it has one, none if it has none.
pub proof fn lemma_place_step(events: Seq<OutputEventView>, i: int)
    requires
        0 <= i < events.len(),
    ensures
        place(events, 0) == 0,
        place(events, events.len() as int) == relay_log(events).len(),
        record_for(events[i]) is Some ==> place(events, i + 1) == place(events, i) + 1,
        record_for(events[i]) is None ==> place(events, i + 1) == place(events, i),
        record_for(events[i]) is Some ==> relay_log(events.take(i + 1)).last() == record_for(
            events[i],
        )->Some_0,
{
    assert(events.take(0) == Seq::<OutputEventView>::empty());
    assert(events.take(events.len() as int) == events);
    assert(events.take(i + 1).drop_last() == events.take(i));
    assert(events.take(i + 1).last() == events[i]);
}

/// The relay keeps the order of the events: the record of an event stands
/// before the place of every later event, and inside the log.
pub proof fn lemma_relay_keeps_order(events: Seq<OutputEventView>, i: int, j: int)
    requires
        0 <= i < j <= events.len(),
        record_for(events[i]) is Some,
    ensures
        0 <= place(events, i) < place(events, j) <= relay_log(events).len(),
{
    lemma_place_step(events, i);
    lemma_relay_log_concat(events.take(i + 1), events.subrange(i + 1, j));
    assert(events.take(i + 1) + events.subrange(i + 1, j) == events.take(j));
    lemma_relay_log_concat(events.take(j), events.skip(j));
    assert(events.take(j) + events.skip(j) == events);
}

/// The record of an event stands in the log at the event's place.
pub proof fn lemma_record_in_place(events: Seq<OutputEventView>, i: int)
    requires
        0 <= i < events.len(),
        record_for(events[i]) is Some,
    ensures
        0 <= place(events, i) < relay_log(events).len(),
        relay_log(events)[place(events, i)] == record_for(events[i])->Some_0,
{
    lemma_place_step(events, i);
    lemma_relay_log_concat(events.take(i + 1), events.skip(i + 1));
    assert(events.take(i + 1) + events.skip(i + 1) == events);
}

/// Every line that the backend writes to its standard output appears in the
/// informational log with the tag in front, and two such lines appear there
/// in the order in which they were written.
pub proof fn lemma_stdout_lines_in_order(events: Seq<OutputEventView>, i: int, j: int)
    requires
        0 <= i <= j < events.len(),
        events[i] is Stdout,
        events[j] is Stdout,
    ensures
        0 <= place(events, i) <= place(events, j) < relay_log(events).len(),
        i < j ==> place(events, i) < place(events, j),
        relay_log(events)[place(events, i)] == (LogRecordView {
            stream: LogStream::Info,
            text: tagged(events[i]->Stdout_0),
        }),
        relay_log(events)[place(events, j)] == (LogRecordView {
            stream: LogStream::Info,
            text: tagged(events[j]->Stdout_0),
        }),
{
    lemma_record_in_place(events, i);
    lemma_record_in_place(events, j);
    if i < j {
        lemma_relay_keeps_order(events, i, j);
    }
}

/// Every line that the backend writes to its standard error appears in the
/// error log with the tag in front, and two such lines appear there in the
/// order in which they were written.
pub proof fn lemma_stderr_lines_in_order(events: Seq<OutputEventView>, i: int, j: int)
    requires
        0 <= i <= j < events.len(),
        events[i] is Stderr,
        events[j] is Stderr,
    ensures
        0 <= place(events, i) <= place(events, j) < relay_log(events).len(),
        i < j ==> place(events, i) < place(events, j),
        relay_log(events)[place(events, i)] == (LogRecordView {
            stream: LogStream::Error,
            text: tagged(events[i]->Stderr_0),
        }),
        relay_log(events)[place(events, j)] == (LogRecordView {
            stream: LogStream::Error,
            text: tagged(events[j]->Stderr_0),
        }),
{
    lemma_record_in_place(events, i);
    lemma_record_in_place(events, j);
    if i < j {
        lemma_relay_keeps_order(events, i, j);
    }
}

/// The notice of the backend's end carries the exit code: the notices of two
/// exit codes differ, and each differs from the notice without a code.
pub proof fn lemma_notice_carries_exit_code(first: i32, second: i32)
    ensures
        first != second ==> termination_notice(Some(first)) != termination_notice(Some(second)),
        termination_notice(Some(first)) != termination_notice(None),
{
    let words = "terminated with exit code "@;
    let front = log_tag() + words;
    let one = decimal(first as int);
    let other = decimal(second as int);
    assert(termination_notice(Some(first)) == front + one);
    assert(termination_notice(Some(second)) == front + other);
    if termination_notice(Some(first)) == termination_notice(Some(second)) {
        assert((front + one).skip(front.len() as int) == one);
        assert((front + other).skip(front.len() as int) == other);
        lemma_decimal_injective(first as int, second as int);
    }
    assert(termination_notice(Some(first)).len() != termination_notice(None).len()) by {
        reveal_strlit("terminated with exit code ");
        reveal_strlit("terminated");
        if first < 0 {
            lemma_digits_value((-first) as nat);
        } else {
            lemma_digits_value(first as nat);
        }
    }
}

/// The end of the backend, whatever its exit code, puts exactly one record
/// into the log: the termination notice with that exit code, in the
/// informational log. The relay itself stops when the channel is closed, and
/// only then.
pub proof fn lemma_termination_logged_once(events: Seq<OutputEventView>, i: int)
    requires
        0 <= i < events.len(),
        events[i] is Terminated,
    ensures
        0 <= place(events, i) < relay_log(events).len(),
        relay_log(events)[place(events, i)] == (LogRecordView {
            stream: LogStream::Info,
            text: termination_notice(events[i]->Terminated_0),
        }),
        place(events, i + 1) == place(events, i) + 1,
        forall|received: Option<OutputEventView>|
            #[trigger] step_for(received) is Stop <==> received is None,
{
    lemma_record_in_place(events, i);
    lemma_place_step(events, i);
}

} // verus!
