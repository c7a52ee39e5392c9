use backend_launcher::event::OutputEvent;
use backend_launcher::relay::{
    notice_text, relay_all, relay_event, relay_step, tag_line, LogRecord, LogStream, RelayStep,
};

fn info(text: &str) -> LogRecord {
    LogRecord { stream: LogStream::Info, text: text.to_string() }
}

fn error(text: &str) -> LogRecord {
    LogRecord { stream: LogStream::Error, text: text.to_string() }
}

#[test]
fn tag_line_puts_the_tag_in_front() {
    assert_eq!(tag_line("listening on 8787"), "[backend] listening on 8787");
}

#[test]
fn tag_line_of_an_empty_line_is_the_tag() {
    assert_eq!(tag_line(""), "[backend] ");
}

#[test]
fn tag_line_keeps_the_line_verbatim() {
    assert_eq!(tag_line("  caf\u{e9} \t[backend] x "), "[backend]   caf\u{e9} \t[backend] x ");
}

#[test]
fn stdout_line_goes_to_the_info_log() {
    let event = OutputEvent::Stdout("ready".to_string());
    assert_eq!(relay_event(&event), Some(info("[backend] ready")));
}

#[test]
fn stderr_line_goes_to_the_error_log() {
    let event = OutputEvent::Stderr("cannot bind".to_string());
    assert_eq!(relay_event(&event), Some(error("[backend] cannot bind")));
}

#[test]
fn termination_is_noticed_with_its_exit_code() {
    let cases = [
        (Some(0), "[backend] terminated with exit code 0"),
        (Some(1), "[backend] terminated with exit code 1"),
        (Some(3), "[backend] terminated with exit code 3"),
        (Some(-1), "[backend] terminated with exit code -1"),
        (Some(10), "[backend] terminated with exit code 10"),
        (Some(137), "[backend] terminated with exit code 137"),
        (Some(255), "[backend] terminated with exit code 255"),
        (Some(i32::MIN), "[backend] terminated with exit code -2147483648"),
        (Some(i32::MAX), "[backend] terminated with exit code 2147483647"),
        (None, "[backend] terminated"),
    ];
    for (code, text) in cases {
        let event = OutputEvent::Terminated(code);
        assert_eq!(relay_event(&event), Some(info(text)));
        assert_eq!(notice_text(code), text);
    }
}

#[test]
fn notices_of_two_exit_codes_differ() {
    let codes = [Some(0), Some(3), Some(-3), Some(30), Some(300), None];
    for (i, first) in codes.iter().enumerate() {
        for (j, second) in codes.iter().enumerate() {
            assert_eq!(notice_text(*first) == notice_text(*second), i == j);
        }
    }
}

#[test]
fn other_events_are_ignored() {
    assert_eq!(relay_event(&OutputEvent::Other), None);
}

#[test]
fn relay_event_leaves_the_event_as_it_was() {
    let event = OutputEvent::Stdout("once".to_string());
    let first = relay_event(&event);
    let second = relay_event(&event);
    assert_eq!(first, second);
    assert_eq!(event, OutputEvent::Stdout("once".to_string()));
}

#[test]
fn step_stops_on_a_closed_channel() {
    assert_eq!(relay_step(None), RelayStep::Stop);
}

#[test]
fn step_writes_the_record_of_an_event() {
    assert_eq!(
        relay_step(Some(OutputEvent::Stdout("a".to_string()))),
        RelayStep::Write(info("[backend] a"))
    );
    assert_eq!(
        relay_step(Some(OutputEvent::Stderr("b".to_string()))),
        RelayStep::Write(error("[backend] b"))
    );
    assert_eq!(
        relay_step(Some(OutputEvent::Terminated(Some(2)))),
        RelayStep::Write(info("[backend] terminated with exit code 2"))
    );
}

#[test]
fn step_skips_what_has_no_record() {
    assert_eq!(relay_step(Some(OutputEvent::Other)), RelayStep::Skip);
}

#[test]
fn step_goes_on_after_a_termination() {
    let after = relay_step(Some(OutputEvent::Stdout("late line".to_string())));
    assert_eq!(
        relay_step(Some(OutputEvent::Terminated(None))),
        RelayStep::Write(info("[backend] terminated"))
    );
    assert_eq!(after, RelayStep::Write(info("[backend] late line")));
}

#[test]
fn relay_all_of_nothing_is_nothing() {
    assert_eq!(relay_all(&Vec::new()), Vec::<LogRecord>::new());
}

#[test]
fn relay_all_keeps_the_order_of_the_events() {
    let events = vec![
        OutputEvent::Stdout("one".to_string()),
        OutputEvent::Stderr("warn".to_string()),
        OutputEvent::Other,
        OutputEvent::Stdout("two".to_string()),
        OutputEvent::Stdout("three".to_string()),
        OutputEvent::Stderr("fail".to_string()),
        OutputEvent::Terminated(Some(1)),
    ];
    let expected = vec![
        info("[backend] one"),
        error("[backend] warn"),
        info("[backend] two"),
        info("[backend] three"),
        error("[backend] fail"),
        info("[backend] terminated with exit code 1"),
    ];
    assert_eq!(relay_all(&events), expected);
}

#[test]
fn stdout_lines_appear_in_order_on_the_info_log() {
    let lines = ["alpha", "beta", "", "beta", "gamma"];
    let mut events = Vec::new();
    for (i, line) in lines.iter().enumerate() {
        events.push(OutputEvent::Stdout(line.to_string()));
        if i % 2 == 0 {
            events.push(OutputEvent::Stderr(format!("noise {}", i)));
        }
    }
    let written: Vec<String> = relay_all(&events)
        .into_iter()
        .filter(|record| record.stream == LogStream::Info)
        .map(|record| record.text)
        .collect();
    assert_eq!(
        written,
        vec!["[backend] alpha", "[backend] beta", "[backend] ", "[backend] beta", "[backend] gamma"]
    );
}

#[test]
fn stderr_lines_appear_in_order_on_the_error_log() {
    let events = vec![
        OutputEvent::Stderr("e1".to_string()),
        OutputEvent::Stdout("o1".to_string()),
        OutputEvent::Stderr("e2".to_string()),
        OutputEvent::Terminated(Some(0)),
        OutputEvent::Stderr("e3".to_string()),
    ];
    let written: Vec<String> = relay_all(&events)
        .into_iter()
        .filter(|record| record.stream == LogStream::Error)
        .map(|record| record.text)
        .collect();
    assert_eq!(written, vec!["[backend] e1", "[backend] e2", "[backend] e3"]);
}

#[test]
fn one_termination_gives_one_notice() {
    let events = vec![
        OutputEvent::Stdout("working".to_string()),
        OutputEvent::Stderr("dying".to_string()),
        OutputEvent::Terminated(Some(137)),
    ];
    let records = relay_all(&events);
    let notice = info("[backend] terminated with exit code 137");
    let notices = records.iter().filter(|record| **record == notice).count();
    assert_eq!(notices, 1);
    assert_eq!(records.len(), 3);
    assert_eq!(records.last(), Some(&notice));
    assert_eq!(relay_step(None), RelayStep::Stop);
}

#[test]
fn a_line_that_reads_like_a_notice_looks_like_the_notice() {
    let line = relay_event(&OutputEvent::Stdout("terminated with exit code 0".to_string()));
    let notice = relay_event(&OutputEvent::Terminated(Some(0)));
    assert_eq!(line, notice);
    let line = relay_event(&OutputEvent::Stdout("terminated".to_string()));
    let notice = relay_event(&OutputEvent::Terminated(None));
    assert_eq!(line, notice);
    let on_stderr = relay_event(&OutputEvent::Stderr("terminated".to_string()));
    assert_eq!(on_stderr, Some(error("[backend] terminated")));
}

#[test]
fn the_exit_code_changes_the_notice_and_nothing_else() {
    let run = |code: i32| {
        relay_all(&vec![
            OutputEvent::Stdout("up".to_string()),
            OutputEvent::Terminated(Some(code)),
            OutputEvent::Stderr("late".to_string()),
        ])
    };
    let clean = run(0);
    let crashed = run(3);
    assert_eq!(clean.len(), 3);
    assert_eq!(crashed.len(), 3);
    assert_eq!(clean[0], crashed[0]);
    assert_eq!(clean[2], crashed[2]);
    assert_eq!(clean[1], info("[backend] terminated with exit code 0"));
    assert_eq!(crashed[1], info("[backend] terminated with exit code 3"));
    assert_eq!(
        relay_step(Some(OutputEvent::Stdout("on".to_string()))),
        RelayStep::Write(info("[backend] on"))
    );
}

#[test]
fn relay_all_is_the_steps_one_after_the_other() {
    let events = vec![
        OutputEvent::Other,
        OutputEvent::Stdout("x".to_string()),
        OutputEvent::Terminated(None),
        OutputEvent::Stderr("y".to_string()),
    ];
    let mut by_steps = Vec::new();
    for event in events.iter() {
        match relay_step(Some(event.clone())) {
            RelayStep::Write(record) => by_steps.push(record),
            RelayStep::Skip => {}
            RelayStep::Stop => panic!("the channel is open"),
        }
    }
    assert_eq!(relay_all(&events), by_steps);
}

#[test]
fn relay_all_of_two_runs_is_one_log_after_the_other() {
    let first = vec![OutputEvent::Stdout("a".to_string()), OutputEvent::Other];
    let second = vec![OutputEvent::Stderr("b".to_string()), OutputEvent::Terminated(Some(0))];
    let mut both = first.clone();
    both.extend(second.clone());
    let mut expected = relay_all(&first);
    expected.extend(relay_all(&second));
    assert_eq!(relay_all(&both), expected);
    assert_eq!(expected.len(), 3);
}
