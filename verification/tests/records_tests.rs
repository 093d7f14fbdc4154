use orqa::issues::{
    ack_updates, create_operator_issue, format_yaml_value, issue_id, needs_quoted_yaml_string,
    render_issue, resolution_note_text, update_issue_document,
};
use orqa::issues::{collect_issues, collect_issues_in_state, IssueSummary};
use orqa::mailbox::tasks::{
    collect_tasks, collect_tasks_in_state, field_value, sort_tasks, split_front_matter, TaskSummary,
};
use orqa::model::{FinRef, MailAddress};
use orqa::report::{clip, parse_since, since_in_range, time_from_message_id};
use orqa::runs::{
    command_text, exit_code_text, last_lines, latest_pointer_contents, latest_run_age,
    latest_run_started_at, resolve_run_id, run_id, tagged_lines, LatestPointer, RunRecord,
};

#[test]
fn yaml_values_are_quoted_only_when_needed() {
    assert!(!needs_quoted_yaml_string("plain words"));
    assert!(needs_quoted_yaml_string(""));
    assert!(needs_quoted_yaml_string("fix: parser"));
    assert!(needs_quoted_yaml_string("yes"));
    assert!(needs_quoted_yaml_string("-dash"));
    assert_eq!(format_yaml_value("plain"), "plain");
    assert_eq!(format_yaml_value("[a, b]"), "[a, b]");
    assert_eq!(format_yaml_value("fix: \"it\""), "\"fix: \\\"it\\\"\"");
    assert_eq!(format_yaml_value("two\nlines"), "\"two\\nlines\"");
}

#[test]
fn issue_documents_render_front_matter_then_body() {
    let fields = vec![
        ("id".to_string(), "1.2.3.issue".to_string()),
        ("title".to_string(), "needs: input".to_string()),
    ];
    assert_eq!(
        render_issue(&fields, "  Body text.  "),
        "---\nid: 1.2.3.issue\ntitle: \"needs: input\"\n---\n\nBody text.\n"
    );
    assert_eq!(issue_id(1700, 42, 3), "1700.42.3.issue");
}

#[test]
fn operator_issue_takes_sender_and_subject() {
    let from = MailAddress::parse("amy@sample-pod.orqa").unwrap();
    let doc = create_operator_issue("9.9.1.issue", &from, "Need keys", "---\nseverity: blocking\n---\n\nPlease help.", "1700000000");
    let (fields, body) = split_front_matter(&doc);
    assert_eq!(body.trim(), "Please help.");
    assert_eq!(field_value(&fields, "id").as_deref(), Some("9.9.1.issue"));
    assert_eq!(field_value(&fields, "from").as_deref(), Some("amy@sample-pod.orqa"));
    assert_eq!(field_value(&fields, "to").as_deref(), Some("operator@sample-pod.orqa"));
    assert_eq!(field_value(&fields, "title").as_deref(), Some("Need keys"));
    assert_eq!(field_value(&fields, "status").as_deref(), Some("open"));
    assert_eq!(field_value(&fields, "severity").as_deref(), Some("blocking"));
    assert_eq!(field_value(&fields, "kind").as_deref(), Some("other"));
    assert_eq!(field_value(&fields, "created_at").as_deref(), Some("1700000000"));
}

#[test]
fn acknowledging_an_issue_sets_its_status() {
    let doc = "---\nid: x\nstatus: open\n---\n\nBody.\n";
    let updated = update_issue_document(doc, &ack_updates());
    assert_eq!(updated, "---\nid: x\nstatus: acknowledged\n---\n\nBody.\n");
    assert_eq!(resolution_note_text("resolved", None), "Issue resolved.");
    assert_eq!(resolution_note_text("dismissed", Some("dup")), "dup");
}

#[test]
fn reports_clip_and_inline_context() {
    assert_eq!(orqa::report::inline("a `b`\nc"), "a 'b' c");
    assert_eq!(clip("  short  "), "short");
    let long = "x".repeat(700);
    let clipped = clip(&long);
    assert!(clipped.ends_with("\n[clipped]"));
    assert_eq!(clipped.len(), 600 + "\n[clipped]".len());
}

#[test]
fn message_ids_carry_their_time() {
    assert_eq!(time_from_message_id("/m/new/1700000000123456.42.7.host"), Some(1700000000123456));
    assert_eq!(time_from_message_id("/m/new/notanumber.x"), None);
}

#[test]
fn since_accepts_seconds_and_durations() {
    let now: i128 = 10_000_000_000;
    assert!(since_in_range("2h"));
    let s = parse_since("1700", now).unwrap();
    assert_eq!(s.label, "1700");
    assert_eq!(s.time, 1_700_000_000);
    let d = parse_since("2h", now).unwrap();
    assert_eq!(d.label, "2h ago");
    assert_eq!(d.time, now - 7200 * 1_000_000);
    assert_eq!(parse_since("  ", now).err().unwrap(), "--since cannot be empty");
    assert!(parse_since("soon", now).is_err());
}

#[test]
fn run_records_and_ids() {
    let fin = FinRef::new("sample-pod", "amy").unwrap();
    let args = vec!["exec".to_string(), "hi there".to_string()];
    let rec = RunRecord::planned("1.2.3", &fin, "codex", "exec", "codex", &args, "/runs/1.2.3");
    assert_eq!(rec.fin, "sample-pod/amy");
    assert_eq!(rec.status, "planned");
    assert_eq!(rec.stdout_log, "/runs/1.2.3/stdout.log");
    assert_eq!(rec.events_log, "/runs/1.2.3/events.jsonl");
    assert_eq!(
        orqa::runs::run_list_line(&rec),
        "1.2.3 status=planned exit_code=- mode=exec backend=codex command=codex"
    );
    assert_eq!(
        orqa::runs::run_status_lines(&rec),
        vec![
            "run 1.2.3", "fin=sample-pod/amy", "status=planned", "mode=exec", "backend=codex",
            "command=codex", "run_dir=/runs/1.2.3",
        ]
    );
    let done = rec.finish_with_exit(Some(0));
    assert!(orqa::runs::run_status_lines(&done).contains(&"exit_code=0".to_string()));
    assert_eq!(done.exit_code, Some(0));
    assert_eq!(orqa::runs::run_list_line(&done).split(' ').nth(2), Some("exit_code=0"));
    assert_eq!(run_id(5, 6, 7), "5.6.7");
    assert_eq!(command_text("codex", &args), "codex exec hi there");
    assert_eq!(exit_code_text(Some(-2)), "-2");
    assert_eq!(exit_code_text(None), "signal");
}

#[test]
fn latest_run_pointer_round_trips() {
    let contents = latest_pointer_contents("1700000000000000.5.1");
    assert_eq!(contents, "1700000000000000.5.1\n");
    assert_eq!(latest_run_started_at(&contents), Some(1700000000000000));
    assert_eq!(latest_run_age(1700000090000000, Some(1700000000000000)), Some(90));
    assert_eq!(latest_run_age(5, Some(10)), None);

    let fin = FinRef::new("sample-pod", "amy").unwrap();
    let ptr = LatestPointer::Contents(contents.clone());
    assert_eq!(resolve_run_id(&fin, "/p", None, &ptr).unwrap(), "1700000000000000.5.1");
    assert_eq!(resolve_run_id(&fin, "/p", Some("other"), &ptr).unwrap(), "other");
    assert_eq!(
        resolve_run_id(&fin, "/p", Some("latest"), &LatestPointer::Missing).err().unwrap(),
        "fin sample-pod/amy has no latest run yet. Run it at least once before using 'latest'."
    );
}

#[test]
fn log_tails_keep_the_last_lines() {
    assert_eq!(last_lines("a\nb\nc\n", 2), "b\nc\n");
    assert_eq!(last_lines("a\nb\nc\n", 0), "");
    assert_eq!(last_lines("", 3), "");
    assert_eq!(
        tagged_lines("amy", "stdout", "one\ntwo"),
        vec!["[amy stdout] one", "[amy stdout] two"]
    );
}

#[test]
fn collects_task_and_issue_summaries_by_state() {
    let new_items = vec![("/t/new/1.a.orqa".to_string(), "---\ntitle: One\n---\n\nx".to_string())];
    let cur_items = vec![("/t/cur/2.b.orqa".to_string(), "no front matter".to_string())];
    let open = collect_tasks(&new_items, &cur_items, false).unwrap();
    assert_eq!(open.len(), 1);
    assert_eq!(open[0].state, "new");
    assert_eq!(open[0].id, "1.a.orqa");
    assert_eq!(open[0].fields, vec![("title".to_string(), "One".to_string())]);
    let all = collect_tasks(&new_items, &cur_items, true).unwrap();
    assert_eq!(all.len(), 2);
    assert_eq!(all[1].state, "cur");
    assert!(all[1].fields.is_empty());
    let bad = vec![("/".to_string(), String::new())];
    assert_eq!(collect_tasks(&bad, &cur_items, true).err().unwrap(), "message path has no filename: /");

    let mut issues = Vec::new();
    let items = vec![("/i/cur/9.issue".to_string(), "---\npod: p\nfin: f\ntitle: T\n---\n\nb".to_string())];
    collect_issues_in_state("cur", &items, &mut issues).unwrap();
    assert_eq!(issues.len(), 1);
    assert_eq!(issues[0].id, "9.issue");
    assert_eq!(issues[0].pod, "p");
    assert_eq!(issues[0].status, "-");
}

#[test]
fn collecting_stops_at_the_first_path_without_a_name() {
    let items = vec![
        ("/t/new/1.a.orqa".to_string(), "x".to_string()),
        ("/".to_string(), String::new()),
        ("/t/new/3.c.orqa".to_string(), "y".to_string()),
    ];
    let mut tasks = Vec::new();
    let err = collect_tasks_in_state("new", &items, &mut tasks).err().unwrap();
    assert_eq!(err, "message path has no filename: /");
    assert_eq!(tasks.len(), 1);
    assert_eq!(tasks[0].id, "1.a.orqa");

    let mut issues = Vec::new();
    let err = collect_issues_in_state("open", &items, &mut issues).err().unwrap();
    assert_eq!(err, "message path has no filename: /");
    assert_eq!(issues.len(), 1);
    assert_eq!(issues[0].id, "1.a.orqa");
    assert_eq!(issues[0].state, "open");
}

fn issue(state: &str, id: &str) -> IssueSummary {
    IssueSummary {
        state: state.to_string(),
        id: id.to_string(),
        pod: "p".to_string(),
        fin: "f".to_string(),
        title: "t".to_string(),
        status: "-".to_string(),
        severity: "-".to_string(),
        kind: "-".to_string(),
    }
}

#[test]
fn issues_sort_by_id_and_keep_ties_in_order() {
    let issues = vec![issue("new", "2.issue"), issue("new", "1.issue"), issue("closed", "1.issue")];
    let sorted = collect_issues(issues);
    let order: Vec<(&str, &str)> = sorted.iter().map(|s| (s.id.as_str(), s.state.as_str())).collect();
    assert_eq!(order, vec![("1.issue", "new"), ("1.issue", "closed"), ("2.issue", "new")]);
}

fn task(state: &str, id: &str, priority: &str) -> TaskSummary {
    TaskSummary {
        state: state.to_string(),
        id: id.to_string(),
        fields: vec![("priority".to_string(), priority.to_string())],
    }
}

#[test]
fn tasks_with_equal_keys_keep_their_order() {
    let mut tasks = vec![task("new", "b", "high"), task("cur", "a", "low"), task("new", "a", "low")];
    sort_tasks(&mut tasks, Some("priority"), false);
    let order: Vec<(&str, &str)> = tasks.iter().map(|t| (t.id.as_str(), t.state.as_str())).collect();
    assert_eq!(order, vec![("b", "new"), ("a", "cur"), ("a", "new")]);

    sort_tasks(&mut tasks, Some("priority"), true);
    let order: Vec<(&str, &str)> = tasks.iter().map(|t| (t.id.as_str(), t.state.as_str())).collect();
    assert_eq!(order, vec![("a", "new"), ("a", "cur"), ("b", "new")]);
}

#[test]
fn since_refuses_times_the_clock_cannot_hold() {
    let now: i128 = 1_700_000_000_000_000;
    assert!(since_in_range("10000000000000000000s"));
    assert_eq!(
        parse_since("10000000000000000000s", now).err().unwrap(),
        "--since \"10000000000000000000s\" is before the Unix epoch"
    );
    let long_ago = parse_since("100000d", now).unwrap();
    assert_eq!(long_ago.label, "100000d ago");
    assert_eq!(long_ago.time, now - 8_640_000_000i128 * 1_000_000);
}
