use orqa::runtime::{claim_next, ClaimNext, CreateOutcome, CLAIM_ATTEMPTS};
use orqa::config::RunPolicy;
use orqa::model::{FinRef, PodRef};
use orqa::runtime::{
    claim_fields, claim_step, exit_error, fin_wake_decision, format_duration, has_work, lock_contents,
    lock_field, lock_pid, lock_token, plan_fin, plan_line, plan_pod, skip_line, sort_fin_plans, wake_line,
    work_or_idle_decision, ClaimStep, FinLock, FinWakePlan, WakeDecision, WakeReason,
};

fn policy(debounce: Option<u64>, exec_always: Option<u64>) -> RunPolicy {
    RunPolicy { debounce, exec_always }
}

#[test]
fn formats_durations_in_largest_whole_unit() {
    assert_eq!(format_duration(10800), "3h");
    assert_eq!(format_duration(300), "5m");
    assert_eq!(format_duration(90), "90s");
    assert_eq!(format_duration(0), "0s");
}

#[test]
fn work_wakes_a_fin() {
    assert!(has_work(1, 0));
    assert!(!has_work(0, 0));
    let (d, r, detail) = work_or_idle_decision(2, 1, None, None);
    assert_eq!((d, r, detail), (WakeDecision::WouldWake, WakeReason::MailAndTask, None));
    let (_, r, _) = work_or_idle_decision(0, 3, None, None);
    assert_eq!(r, WakeReason::Task);
    let (_, r, _) = work_or_idle_decision(1, 0, None, None);
    assert_eq!(r, WakeReason::Mail);
}

#[test]
fn idle_fin_wakes_after_exec_always() {
    let (d, r, detail) = work_or_idle_decision(0, 0, Some(10800), Some(10800));
    assert_eq!(d, WakeDecision::WouldWake);
    assert_eq!(r, WakeReason::ExecAlways);
    assert_eq!(detail.as_deref(), Some("exec_always=3h"));

    let (d, r, detail) = work_or_idle_decision(0, 0, Some(10800), Some(60));
    assert_eq!(d, WakeDecision::WouldSkip);
    assert_eq!(r, WakeReason::NoAction);
    assert_eq!(detail.as_deref(), Some("age=1m exec_always=3h"));

    let (d, _, _) = work_or_idle_decision(0, 0, Some(10800), None);
    assert_eq!(d, WakeDecision::WouldWake);
    let (d, r, detail) = work_or_idle_decision(0, 0, None, Some(5));
    assert_eq!((d, r, detail), (WakeDecision::WouldSkip, WakeReason::NoAction, None));
}

#[test]
fn sleep_and_running_block_wakes() {
    let p = policy(None, None);
    let (d, r, _) = fin_wake_decision(true, false, false, false, &p, 1, 0, None);
    assert_eq!((d, r), (WakeDecision::WouldSkip, WakeReason::PodSleeping));
    let (d, r, _) = fin_wake_decision(false, true, false, false, &p, 1, 0, None);
    assert_eq!((d, r), (WakeDecision::WouldSkip, WakeReason::FinSleeping));
    let (d, r, _) = fin_wake_decision(true, true, false, true, &p, 1, 0, None);
    assert_eq!((d, r), (WakeDecision::WouldWake, WakeReason::Mail));
    let (d, r, _) = fin_wake_decision(false, false, true, true, &p, 1, 0, None);
    assert_eq!((d, r), (WakeDecision::WouldSkip, WakeReason::AlreadyRunning));
}

#[test]
fn recent_runs_debounce_work() {
    let p = policy(Some(300), None);
    let (d, r, detail) = fin_wake_decision(false, false, false, false, &p, 1, 0, Some(30));
    assert_eq!((d, r), (WakeDecision::WouldSkip, WakeReason::Debounced));
    assert_eq!(detail.as_deref(), Some("age=30s debounce=5m"));
    let (d, _, _) = fin_wake_decision(false, false, false, true, &p, 1, 0, Some(30));
    assert_eq!(d, WakeDecision::WouldWake);
    let (d, _, _) = fin_wake_decision(false, false, false, false, &p, 1, 0, Some(300));
    assert_eq!(d, WakeDecision::WouldWake);
}

#[test]
fn fin_plan_reports_config_and_backend_errors() {
    let bad: Result<RunPolicy, String> = Err("invalid debounce".to_string());
    let ok_backend: Result<String, String> = Ok("codex".to_string());
    let p = plan_fin("amy", false, false, false, 1, 0, None, &bad, None, &ok_backend);
    assert_eq!(p.decision, WakeDecision::WouldSkip);
    assert_eq!(p.reason, WakeReason::ConfigError);
    assert_eq!(p.detail.as_deref(), Some("invalid debounce"));

    let good: Result<RunPolicy, String> = Ok(policy(None, None));
    let bad_backend: Result<String, String> = Err("backend \"x\" is not enabled".to_string());
    let p = plan_fin("amy", false, false, false, 1, 0, Some((7, false)), &good, None, &bad_backend);
    assert_eq!(p.reason, WakeReason::BackendError);
    assert_eq!(p.pid, Some(7));
    assert!(!p.running);

    let p = plan_fin("amy", false, false, false, 1, 0, None, &good, None, &ok_backend);
    assert_eq!(p.decision, WakeDecision::WouldWake);
    assert_eq!(p.backend.as_deref(), Some("codex"));
}

fn plan(fin: &str, decision: WakeDecision, reason: WakeReason) -> FinWakePlan {
    FinWakePlan {
        fin: fin.to_string(),
        decision,
        reason,
        fin_sleeping: false,
        running: false,
        pid: None,
        unread_mail: 2,
        open_tasks: 1,
        backend: None,
        detail: None,
    }
}

#[test]
fn pod_plan_orders_fins_by_name() {
    let pod = PodRef::new("sample-pod").unwrap();
    let fins = vec![
        plan("zed", WakeDecision::WouldSkip, WakeReason::NoAction),
        plan("amy", WakeDecision::WouldWake, WakeReason::Mail),
        plan("bob", WakeDecision::WouldSkip, WakeReason::NoAction),
    ];
    let p = plan_pod(&pod, true, false, fins).unwrap();
    let names: Vec<&str> = p.fins.iter().map(|f| f.fin.as_str()).collect();
    assert_eq!(names, vec!["amy", "bob", "zed"]);

    let err = plan_pod(&pod, false, false, vec![]).err().unwrap();
    assert_eq!(err, "pod 'sample-pod' does not exist (run 'orqa pod create sample-pod' to create it)");
}

#[test]
fn plan_lines_describe_each_fin() {
    let p = plan("amy", WakeDecision::WouldSkip, WakeReason::Debounced);
    assert_eq!(
        plan_line("sample-pod", &p),
        "pod=sample-pod fin=amy decision=would-skip reason=debounced unread_mail=2 open_tasks=1 sleeping=false running=false"
    );
    assert_eq!(skip_line(&p).as_deref(), Some("skip amy reason=debounced unread_mail=2 open_tasks=1"));
    assert_eq!(skip_line(&plan("amy", WakeDecision::WouldSkip, WakeReason::NoAction)), None);
    let fin = FinRef::new("sample-pod", "amy").unwrap();
    assert_eq!(
        wake_line(&fin, 42, &p),
        "wake sample-pod/amy pid=42 unread_mail=2 open_tasks=1"
    );
}

#[test]
fn lock_fields_read_back() {
    let fin = FinRef::new("sample-pod", "amy").unwrap();
    let token = lock_token(123, 456);
    assert_eq!(token, "123-456");
    let fields = claim_fields(123, "wake", &fin, "codex", &token);
    let contents = lock_contents(&fields);
    assert_eq!(
        contents,
        "state=claimed\npid=123\nowner=wake\npod=sample-pod\nfin=amy\ncommand=\"codex\"\ntoken=123-456\n"
    );
    assert_eq!(lock_pid(&contents), Some(123));
    assert_eq!(lock_field(&contents, "token").as_deref(), Some("123-456"));
    assert_eq!(lock_field(&contents, "missing"), None);

    let lock = FinLock::from_contents("/tmp/lock", &contents).unwrap();
    assert_eq!(lock.pid(), 123);
    assert!(lock.owns(&contents));
    assert!(!lock.owns("pid=9\ntoken=other\n"));
    assert_eq!(
        FinLock::from_contents("/tmp/lock", "fin=amy\n").err().unwrap(),
        "lock /tmp/lock does not contain a valid pid"
    );
}

#[test]
fn claim_steps_follow_the_existing_lock() {
    let fin = FinRef::new("sample-pod", "amy").unwrap();
    match claim_step(&fin, Some((55, true))) {
        ClaimStep::Refuse(e) => {
            assert_eq!(e, "fin sample-pod/amy is already starting or running as pid 55")
        }
        _ => panic!("a live holder refuses the claim"),
    }
    assert!(matches!(claim_step(&fin, Some((55, false))), ClaimStep::RemoveStale));
    assert!(matches!(claim_step(&fin, None), ClaimStep::Create));
}

#[test]
fn exit_errors_name_code_or_signal() {
    assert_eq!(exit_error("codex", Some(2)), "\"codex\" exited with 2");
    assert_eq!(exit_error("codex", Some(-1)), "\"codex\" exited with -1");
    assert_eq!(exit_error("codex", None), "\"codex\" exited with signal");
    let quoted = exit_error("it's \"x\"", Some(1));
    assert_eq!(quoted, "\"it\\'s \\\"x\\\"\" exited with 1");
}

fn plan_named(fin: &str, unread_mail: usize) -> FinWakePlan {
    FinWakePlan {
        fin: fin.to_string(),
        decision: WakeDecision::WouldSkip,
        reason: WakeReason::NoAction,
        fin_sleeping: false,
        running: false,
        pid: None,
        unread_mail,
        open_tasks: 0,
        backend: None,
        detail: None,
    }
}

#[test]
fn fin_plans_sort_by_name_and_keep_ties_in_order() {
    let plans = vec![plan_named("cy", 0), plan_named("bob", 1), plan_named("amy", 0), plan_named("bob", 2)];
    let sorted = sort_fin_plans(plans);
    let names: Vec<&str> = sorted.iter().map(|p| p.fin.as_str()).collect();
    assert_eq!(names, vec!["amy", "bob", "bob", "cy"]);
    assert_eq!(sorted[1].unread_mail, 1);
    assert_eq!(sorted[2].unread_mail, 2);
}

#[test]
fn claims_hold_retry_or_fail_after_creating_the_file() {
    let fin = FinRef::new("sample-pod", "amy").unwrap();
    let ours = CreateOutcome::Created("state=claimed\ntoken=7-9\n".to_string());
    assert!(matches!(claim_next(&fin, 0, "7-9", &ours), ClaimNext::Held));
    match claim_next(&fin, 0, "8-1", &ours) {
        ClaimNext::RemoveAndFail(e) => {
            assert_eq!(e, "lock verification failed for sample-pod/amy after claim (race or corruption)")
        }
        _ => panic!("a foreign token must fail verification"),
    }
    assert!(matches!(claim_next(&fin, 0, "7-9", &CreateOutcome::AlreadyExists), ClaimNext::Retry));
    match claim_next(&fin, CLAIM_ATTEMPTS - 1, "7-9", &CreateOutcome::AlreadyExists) {
        ClaimNext::Fail(e) => assert_eq!(e, "fin sample-pod/amy lock was acquired by another process (race)"),
        _ => panic!("the last attempt must give up"),
    }
}
