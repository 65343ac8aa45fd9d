use pm3_adapters::domain::{Liveness, ResourceSample, SignalError, SignalScope};
use pm3_adapters::exit_status::{describe_refusal, exit_code_of, UNKNOWN_EXIT_CODE};
use pm3_adapters::fingerprint::{digest_bytes, hex, Sha256Fingerprinter};
use pm3_adapters::probe::{
    group_totals_for, identities_from, join_pids, next_wait, parse_group_row, parse_group_rows,
    parse_report, parse_tenths, ps_answer_usable, seen_as, unreadable, PsProcessProbe, PS_PROGRAM,
};
use pm3_adapters::signal::{
    delivery_step, delivery_targets, group_target, DeliveryStep, is_signalable, signal_arguments, signal_outcome,
    KillSignaler, KILL_PROGRAM,
};
use pm3_adapters::watcher::{
    attempt_readiness, clamp_millis, exec_probe_launch, holds_the_same_process, still_running,
    HostReadyProber, PollCadence, Readiness,
};

fn chars(s: &str) -> Vec<char> {
    s.chars().collect()
}

#[test]
fn exit_codes_and_refusals() {
    assert_eq!(exit_code_of(Some(3)), 3);
    assert_eq!(exit_code_of(None), UNKNOWN_EXIT_CODE);
    assert_eq!(describe_refusal("  no such process \n", 1), "no such process");
    assert_eq!(describe_refusal(" \n", -1), "exited with status -1");
}

#[test]
fn only_ordinary_pids_are_signalled() {
    assert!(!is_signalable(0));
    assert!(!is_signalable(1));
    assert!(is_signalable(2));
    assert!(is_signalable(i32::MAX as u32));
    assert!(!is_signalable(i32::MAX as u32 + 1));
    assert!(matches!(
        delivery_targets(1, SignalScope::Group),
        Err(SignalError::Delivery { pid: 1, reason }) if reason == "pid is outside the safe range"
    ));
    assert_eq!(
        delivery_targets(42, SignalScope::Group).unwrap(),
        vec!["-42".to_string(), "42".to_string()]
    );
    assert_eq!(delivery_targets(42, SignalScope::Process).unwrap(), vec!["42".to_string()]);
}

#[test]
fn kill_arguments_end_options_before_the_target() {
    assert_eq!(group_target(7), "-7");
    assert_eq!(
        signal_arguments("TERM", "-7", 7),
        vec!["-TERM".to_string(), "--".to_string(), "-7".to_string()]
    );
}

#[test]
fn a_kill_run_is_judged_by_its_status() {
    assert!(signal_outcome(5, true, "", Some(0)).is_ok());
    assert!(matches!(
        signal_outcome(5, false, "kill: (5): No such process\n", Some(1)),
        Err(SignalError::Delivery { pid: 5, reason }) if reason == "kill: (5): No such process"
    ));
    assert!(matches!(
        signal_outcome(5, false, "", None),
        Err(SignalError::Delivery { reason, .. }) if reason == "exited with status -1"
    ));
}

#[test]
fn a_signaler_knows_its_program() {
    let s = KillSignaler::with_stop_signal("INT".to_string(), 500, "C:\\taskkill.exe");
    assert_eq!(s.program(), KILL_PROGRAM);
    assert_eq!(s.stop_signal(), "INT");
    assert_eq!(s.timeout_ms(), 500);
    assert!(matches!(
        s.stalled(9),
        SignalError::Delivery { pid: 9, reason } if reason == "/bin/kill did not answer within 500ms"
    ));
}

#[test]
fn probes_join_pids_and_judge_answers() {
    assert_eq!(join_pids(&[3, 14, 15]), "3,14,15");
    assert_eq!(join_pids(&[]), "");
    assert!(ps_answer_usable(true, Some(0)));
    assert!(ps_answer_usable(false, Some(1)));
    assert!(!ps_answer_usable(false, Some(2)));
    assert!(!ps_answer_usable(false, None));
    let p = PsProcessProbe::with_timeout(1000, 50);
    assert_eq!(p.program(), PS_PROGRAM);
    assert_eq!(p.poll_interval_ms(), 50);
}

#[test]
fn waiting_for_a_process_backs_off() {
    assert_eq!(next_wait(true, 100, 10), None);
    assert_eq!(next_wait(false, 0, 10), None);
    assert_eq!(next_wait(false, 100, 10), Some(10));
    assert_eq!(next_wait(false, 5, 10), Some(5));
    assert_eq!(next_wait(false, 100, 0), Some(1));
    let cadence = PollCadence { interval_ms: 0, max_interval_ms: 1000 };
    assert_eq!(cadence.first_step(), 1);
    assert_eq!(cadence.next_after(300), 600);
    assert_eq!(cadence.next_after(600), 1000);
    assert_eq!(cadence.next_after(u64::MAX), 1000);
}

#[test]
fn cpu_shares_are_read_in_tenths() {
    assert_eq!(parse_tenths(&chars("12.34")), Some(123));
    assert_eq!(parse_tenths(&chars("7")), Some(70));
    assert_eq!(parse_tenths(&chars("0.5")), Some(5));
    assert_eq!(parse_tenths(&chars("x.5")), None);
    assert_eq!(parse_tenths(&chars("3.")), None);
    assert_eq!(parse_tenths(&chars("4294967295.9")), Some(u32::MAX));
}

#[test]
fn resource_rows_add_up_by_group() {
    let row = parse_group_row(&chars("  10   10  2048  1.5")).expect("row");
    assert_eq!(row.pid, 10);
    assert_eq!(row.sample, ResourceSample { rss_kib: 2048, cpu_tenths: 15 });
    assert!(parse_group_row(&chars("10 10 2048")).is_none());
    assert!(parse_group_row(&chars("PID PGID RSS %CPU")).is_none());
    let rows = parse_group_rows("10 10 100 1.0\n11 10 50 0.5\n20 20 7 0.0\nbad line\n30 10 1 0.1\n");
    assert_eq!(rows.len(), 4);
    let totals = group_totals_for(&rows, &[10, 20, 11, 99]);
    assert_eq!(totals.get(&10), Some(&ResourceSample { rss_kib: 151, cpu_tenths: 16 }));
    assert_eq!(totals.get(&20), Some(&ResourceSample { rss_kib: 7, cpu_tenths: 0 }));
    assert_eq!(totals.get(&11), Some(&ResourceSample { rss_kib: 50, cpu_tenths: 5 }));
    assert_eq!(totals.get(&99), None);
    assert_eq!(totals.len(), 3);
}

#[test]
fn liveness_reports_map_pids_to_tokens() {
    let report = parse_report("  12 Mon Jan  1 00:00:00 2024\n13  \nxx token\n12 later\n");
    assert_eq!(report.get(&12), Some(&"later".to_string()));
    assert_eq!(report.get(&13), None);
    assert_eq!(report.len(), 1);
    let seen = identities_from(Some("5 Tue\n"), &[5, 6]);
    assert!(matches!(seen.get(&5), Some(Liveness::Alive(t)) if t == "Tue"));
    assert!(matches!(seen.get(&6), Some(Liveness::Gone)));
    let blind = identities_from(None, &[5]);
    assert!(matches!(blind.get(&5), Some(Liveness::Unreadable)));
    assert!(matches!(unreadable(&[1, 2]).get(&2), Some(Liveness::Unreadable)));
    assert!(matches!(seen_as(None), Liveness::Gone));
}

#[test]
fn an_adopted_process_is_followed_by_its_token() {
    assert!(holds_the_same_process(5, None, "anything"));
    assert!(holds_the_same_process(5, Some("t1"), "t1"));
    assert!(!holds_the_same_process(5, Some("t1"), "t2"));
    let alive = Liveness::Alive("t1".to_string());
    assert!(still_running(5, Some("t1"), Some(&alive)));
    assert!(!still_running(5, Some("t2"), Some(&alive)));
    assert!(still_running(5, Some("t1"), Some(&Liveness::Unreadable)));
    assert!(!still_running(5, Some("t1"), Some(&Liveness::Gone)));
    assert!(!still_running(5, None, None));
}

#[test]
fn digests_are_sha256_in_hex() {
    assert_eq!(hex(&[0x00, 0xab, 0x10]), "00ab10");
    assert_eq!(
        Sha256Fingerprinter.digest("abc"),
        "ba7816bf8f01cfea414140de5dae2223b00361a396177a9cb410ff61f20015ad"
    );
    assert_eq!(
        digest_bytes(b""),
        "e3b0c44298fc1c149afbf4c8996fb92427ae41e4649b934ca495991b7852b855"
    );
}

#[test]
fn clocks_and_probers_keep_their_settings() {
    assert_eq!(clamp_millis(5), 5);
    assert_eq!(clamp_millis(u128::MAX), u64::MAX);
    assert_eq!(HostReadyProber::new(250).attempt_timeout_ms(), 250);
}

#[test]
fn delivery_tries_the_pid_only_after_the_group_failed() {
    match delivery_step(77, SignalScope::Group, None) {
        DeliveryStep::Send { index: 0, target } => assert_eq!(target, "-77"),
        _ => panic!("the group comes first"),
    }
    assert!(matches!(
        delivery_step(77, SignalScope::Group, Some((0, Ok(())))),
        DeliveryStep::Answer(Ok(()))
    ));
    let refused = SignalError::Delivery { pid: 77, reason: "no such group".to_string() };
    match delivery_step(77, SignalScope::Group, Some((0, Err(refused)))) {
        DeliveryStep::Send { index: 1, target } => assert_eq!(target, "77"),
        _ => panic!("the pid comes after the group failed"),
    }
    let refused = SignalError::Delivery { pid: 77, reason: "no such process".to_string() };
    assert!(matches!(
        delivery_step(77, SignalScope::Group, Some((1, Err(refused)))),
        DeliveryStep::Answer(Err(SignalError::Delivery { pid: 77, reason })) if reason == "no such process"
    ));
    match delivery_step(77, SignalScope::Process, None) {
        DeliveryStep::Send { index: 0, target } => assert_eq!(target, "77"),
        _ => panic!("a process scope sends to the pid"),
    }
    assert!(matches!(
        delivery_step(1, SignalScope::Group, None),
        DeliveryStep::Answer(Err(SignalError::Delivery { pid: 1, reason })) if reason == "pid is outside the safe range"
    ));
}

#[test]
fn exec_probes_need_a_command() {
    assert!(matches!(
        exec_probe_launch(&Vec::new()),
        Err(Readiness::Failed(reason)) if reason == "the ready probe has no command"
    ));
    let (program, args) = exec_probe_launch(&vec!["curl".to_string(), "-f".to_string(), "x".to_string()]).unwrap();
    assert_eq!(program, "curl");
    assert_eq!(args, vec!["-f".to_string(), "x".to_string()]);
    assert!(matches!(attempt_readiness(true), Readiness::Ready));
    assert!(matches!(attempt_readiness(false), Readiness::Pending));
}
