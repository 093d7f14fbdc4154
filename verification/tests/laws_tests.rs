use orqa::config::parse_duration;
use orqa::loop_worker::{daemon_args, validate_daemon_interval, DEFAULT_DAEMON_PROMPT};
use orqa::mailbox::storage::unique_mail_name;
use orqa::mailbox::tasks::{
    canonical_task_body, ensure_field, field_value, mark_task_done, split_front_matter, upsert_field,
};
use orqa::model::{resolve_pod_context, FinRef, MailAddress, Orqa, PodRef, PodRegistration};
use orqa::runs::{latest_pointer_contents, latest_run_started_at, run_id};
use orqa::runtime::format_duration;
use orqa::status::{fin_status, pod_status};
use orqa::templates::{sync_fin, SyncStep};

fn orqa_with(detected: Option<(&str, &str)>) -> Orqa {
    Orqa {
        home: "/h".to_string(),
        detected: detected.map(|(s, r)| (s.to_string(), r.to_string())),
        registry: vec![
            PodRegistration { slug: "alpha".to_string(), path: "/work/alpha".to_string(), enabled: true },
            PodRegistration { slug: "beta".to_string(), path: "/work/beta".to_string(), enabled: false },
        ],
        registry_error: None,
    }
}

#[test]
fn pod_context_prefers_flag_then_env_then_directory() {
    let o = orqa_with(Some(("here", "/work/here")));
    assert_eq!(
        resolve_pod_context(&o, Some("alpha"), Some("here")).unwrap(),
        ("alpha".to_string(), "/work/alpha".to_string())
    );
    assert_eq!(
        resolve_pod_context(&o, None, Some("alpha")).unwrap(),
        ("alpha".to_string(), "/work/alpha".to_string())
    );
    assert_eq!(
        resolve_pod_context(&o, None, None).unwrap(),
        ("here".to_string(), "/work/here".to_string())
    );
    assert_eq!(
        resolve_pod_context(&o, Some("beta"), None).unwrap_err(),
        "pod 'beta' is registered but disabled"
    );
    assert!(resolve_pod_context(&orqa_with(None), None, None).unwrap_err().starts_with("missing pod"));
}

#[test]
fn mail_names_differ_by_counter() {
    assert_ne!(unique_mail_name(100, 7, 1), unique_mail_name(100, 7, 2));
    assert_ne!(unique_mail_name(100, 7, 1), unique_mail_name(100, 8, 1));
}

#[test]
fn set_fields_read_back() {
    let mut fields = vec![("title".to_string(), "a".to_string()), ("status".to_string(), "open".to_string())];
    upsert_field(&mut fields, "status", "done");
    assert_eq!(field_value(&fields, "status").as_deref(), Some("done"));
    assert_eq!(field_value(&fields, "title").as_deref(), Some("a"));
    ensure_field(&mut fields, "status", "open");
    assert_eq!(field_value(&fields, "status").as_deref(), Some("done"));
    ensure_field(&mut fields, "kind", "need");
    assert_eq!(field_value(&fields, "kind").as_deref(), Some("need"));
}

#[test]
fn marked_task_reads_back_done() {
    let body = "---\ntitle: Ship it\nstatus: open\nowner: amy\n---\n\nWork.";
    let (fields, _) = split_front_matter(&mark_task_done(body));
    assert_eq!(
        fields,
        vec![
            ("title".to_string(), "Ship it".to_string()),
            ("status".to_string(), "done".to_string()),
            ("owner".to_string(), "amy".to_string()),
        ]
    );
    let (plain, _) = split_front_matter(&mark_task_done("no front matter"));
    assert_eq!(plain, vec![("status".to_string(), "done".to_string())]);
}

#[test]
fn canonical_task_reads_back() {
    let from = MailAddress::parse("amy@sample-pod.orqa").unwrap();
    let to = MailAddress::parse("bob@sample-pod.orqa").unwrap();
    let doc = canonical_task_body(&from, &to, Some("fix it"), "---\nstatus: blocked\n---\n\nBody.");
    let (fields, body) = split_front_matter(&doc);
    assert_eq!(field_value(&fields, "from").as_deref(), Some("amy@sample-pod.orqa"));
    assert_eq!(field_value(&fields, "to").as_deref(), Some("bob@sample-pod.orqa"));
    assert_eq!(field_value(&fields, "title").as_deref(), Some("fix it"));
    assert_eq!(field_value(&fields, "status").as_deref(), Some("blocked"));
    assert_eq!(body.trim(), "Body.");

    let doc = canonical_task_body(&from, &to, None, "---\nowner: cy\nkind: bug\n---\n\n  Details.  \n");
    let (fields, body) = split_front_matter(&doc);
    assert_eq!(field_value(&fields, "owner").as_deref(), Some("cy"));
    assert_eq!(field_value(&fields, "kind").as_deref(), Some("bug"));
    assert_eq!(field_value(&fields, "priority").as_deref(), Some("normal"));
    assert_eq!(field_value(&fields, "depends_on").as_deref(), Some("[]"));
    assert_eq!(field_value(&fields, "title").as_deref(), Some("(untitled task)"));
    assert_eq!(body.trim(), "Details.");
}

#[test]
fn formatted_durations_parse_back() {
    for seconds in [0u64, 1, 59, 60, 90, 300, 3600, 5400, 10800, 86400] {
        assert_eq!(parse_duration(&format_duration(seconds)).unwrap(), seconds);
    }
}

#[test]
fn wakeable_and_running_fins_are_counted_apart() {
    let pod = PodRef::new("sample-pod").unwrap();
    let amy = FinRef::new("sample-pod", "amy").unwrap();
    let bob = FinRef::new("sample-pod", "bob").unwrap();
    let cy = FinRef::new("sample-pod", "cy").unwrap();
    let fins = vec![
        fin_status(&amy, "/a", false, None, false, 2, 0, None),
        fin_status(&bob, "/b", false, Some(9), true, 1, 1, None),
        fin_status(&cy, "/c", true, None, false, 0, 3, None),
    ];
    let s = pod_status(&pod, "/p", false, fins);
    assert_eq!(s.fin_count, 3);
    assert_eq!(s.wakeable, 1);
    assert_eq!(s.running, 1);
    assert_eq!(s.unread_mail, 3);
    assert_eq!(s.open_tasks, 4);
}

#[test]
fn template_sync_dry_runs_and_foreign_fins_only_print() {
    let (steps, changed) =
        sync_fin("exec", "launch", "/p/.orqa/fins", "ceo", "Lead.\n", false, None, "", "", true).unwrap();
    assert!(changed);
    assert!(steps.iter().all(|s| matches!(s, SyncStep::Print(_))));

    let (steps, changed) = sync_fin(
        "exec", "launch", "/p/.orqa/fins", "ceo", "Lead.\n", true, Some("other"), "x", "y", false,
    )
    .unwrap();
    assert!(!changed);
    assert_eq!(steps.len(), 1);
    assert!(matches!(&steps[0], SyncStep::Print(l) if l == "SKIP fin ceo: owned by template 'other', not 'exec'"));
}

#[test]
fn daemon_defaults_its_prompt_and_refuses_zero_interval() {
    assert_eq!(daemon_args(vec![]), vec![DEFAULT_DAEMON_PROMPT.to_string()]);
    assert_eq!(daemon_args(vec!["go".to_string()]), vec!["go".to_string()]);
    assert_eq!(validate_daemon_interval(0).unwrap_err(), "daemon interval must be at least 1 second");
    assert!(validate_daemon_interval(10).is_ok());
}

#[test]
fn latest_run_pointer_reads_back_its_start() {
    for (micros, pid, counter) in [(0u64, 0u32, 0u64), (1700000000123456, 42, 7), (u64::MAX, u32::MAX, u64::MAX)] {
        let id = run_id(micros as u128, pid, counter);
        assert_eq!(latest_run_started_at(&latest_pointer_contents(&id)), Some(micros));
    }
}

#[test]
fn an_unreadable_registry_matters_only_outside_the_detected_pod() {
    let mut o = orqa_with(Some(("here", "/work/here")));
    o.registry_error = Some("failed to parse global config /h/config.toml: bad".to_string());
    assert_eq!(o.pod_root_for_slug("here").unwrap(), "/work/here");
    assert_eq!(
        o.pod_root_for_slug("alpha").err().unwrap(),
        "failed to parse global config /h/config.toml: bad"
    );
}

#[test]
fn delivered_mail_resolves_by_its_id() {
    let name = orqa::mailbox::storage::unique_mail_name(1700, 42, 3);
    let delivered = orqa::paths::join2("/m", "new", &name);
    let id = orqa::mailbox::storage::message_id(&delivered).unwrap();
    assert_eq!(id, name);
    let found = orqa::mailbox::storage::resolve_message_path("/m", &id, &vec![false, true, false]).unwrap();
    assert_eq!(found, delivered);
}
