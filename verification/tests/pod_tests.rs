use orqa::commands::{
    create_fin_in_current_pod, gitignore_update, init_slug, markdown_with_trailing_newline,
    pod_seed_files, validate_backend_name, validate_slug_for_init,
};
use orqa::hooks::{
    disable_hook, enable_hook, hook_run_line, hook_timeout, hook_toml, shell_join, validate_phase,
    HookRun,
};
use orqa::mailbox::storage::{message_candidates, resolve_message_path, unique_mail_name};
use orqa::mailbox::{is_operator_mail_bridge, mail_message, mail_route, task_route, MailRoute};
use orqa::model::{FinRef, MailAddress, PodRef};
use orqa::templates::{
    load_template_fins, sync_delete, sync_delete_candidate, sync_header, template_fins, SyncStep, TemplateFin,
};

#[test]
fn hook_phase_and_timeout_are_checked() {
    assert!(validate_phase("pre-plan").is_ok());
    assert_eq!(
        validate_phase("post").err().unwrap(),
        "invalid hook phase \"post\"; currently supported: pre-plan"
    );
    assert_eq!(hook_timeout("30s").unwrap(), 30);
    assert_eq!(hook_timeout("0").err().unwrap(), "hook timeout must be at least 1 second");
    assert!(hook_timeout("later").err().unwrap().starts_with("invalid hook timeout \"later\": "));
}

#[test]
fn hook_commands_quote_unsafe_words() {
    let words = vec!["./lint.sh".to_string(), "it's here".to_string()];
    assert_eq!(shell_join(&words).unwrap(), "./lint.sh 'it'\\''s here'");
    assert_eq!(shell_join(&vec![]).err().unwrap(), "hook command is required after --");
    assert_eq!(
        hook_toml("./lint.sh", "30s"),
        "[hook]\nenabled = true\ncommand = \"./lint.sh\"\ntimeout = \"30s\"\n"
    );
}

#[test]
fn hook_runs_and_toggles_print_one_line() {
    let pod = PodRef::new("sample-pod").unwrap();
    assert_eq!(hook_run_line(&pod, "pre-plan", "sync", &HookRun::Succeeded), "hook sample-pod pre-plan/sync status=ok");
    assert_eq!(
        hook_run_line(&pod, "pre-plan", "sync", &HookRun::Failed(Some(3))),
        "hook sample-pod pre-plan/sync status=failed exit=3"
    );
    assert_eq!(hook_run_line(&pod, "pre-plan", "sync", &HookRun::TimedOut), "hook sample-pod pre-plan/sync status=timeout");
    assert_eq!(enable_hook(&pod, "pre-plan", "sync").unwrap(), "enabled sample-pod pre-plan/sync");
    assert_eq!(disable_hook(&pod, "pre-plan", "sync").unwrap(), "disabled sample-pod pre-plan/sync");
    assert!(enable_hook(&pod, "pre-plan", "Bad Name").is_err());
}

#[test]
fn init_checks_slug_and_backend_names() {
    assert!(validate_slug_for_init("new-co").is_ok());
    assert!(validate_slug_for_init("New").err().unwrap().starts_with("invalid pod slug: "));
    assert!(validate_backend_name("ollama_codex").is_ok());
    assert_eq!(
        validate_backend_name("bad name").err().unwrap(),
        "invalid backend name \"bad name\"; use ASCII letters, numbers, '-' or '_'"
    );
    assert_eq!(init_slug(None, "/tmp/new-co").unwrap(), "new-co");
    assert_eq!(init_slug(Some("given"), "/tmp/new-co").unwrap(), "given");
    assert_eq!(markdown_with_trailing_newline("x"), "x\n");
    assert_eq!(markdown_with_trailing_newline("x\n"), "x\n");
}

#[test]
fn new_pods_and_fins_get_seed_files() {
    let pod = PodRef::new("sample-pod").unwrap();
    let files = pod_seed_files(&pod, "Build the thing.");
    let names: Vec<&str> = files.iter().map(|f| f.0.as_str()).collect();
    assert_eq!(names, vec!["pod.txt", "pod.toml", "CHARTER.md", "AGENTS.md"]);
    assert_eq!(files[0].1, "slug=sample-pod\n");

    let fin = FinRef::new("sample-pod", "amy").unwrap();
    let files = create_fin_in_current_pod(&fin, "Plan.", Some("grok")).unwrap();
    assert_eq!(files[0].1, "slug=amy\n");
    assert!(files[1].1.contains("backend = \"grok\""));
    assert!(create_fin_in_current_pod(&fin, "Plan.", Some("no good")).is_err());
}

#[test]
fn gitignore_gains_orqa_once() {
    let updated = gitignore_update("target").unwrap();
    assert_eq!(updated, "target\n\n# Orqa coordination data (local only)\n/.orqa\n");
    assert_eq!(gitignore_update(&updated), None);
    assert_eq!(gitignore_update(".orqa/\n"), None);
}

#[test]
fn mail_routes_stay_inside_a_pod() {
    let amy = MailAddress::parse("amy@sample-pod.orqa").unwrap();
    let bob = MailAddress::parse("bob@sample-pod.orqa").unwrap();
    let op = MailAddress::parse("operator@sample-pod.orqa").unwrap();
    let other = MailAddress::parse("cy@other-pod.orqa").unwrap();
    assert_eq!(mail_route(&amy, &bob).unwrap(), MailRoute::Deliver);
    assert_eq!(mail_route(&amy, &op).unwrap(), MailRoute::OperatorIssue);
    assert_eq!(
        mail_route(&amy, &other).err().unwrap(),
        "cross-pod mail is not supported: amy@sample-pod.orqa -> cy@other-pod.orqa"
    );
    assert!(task_route(&amy, &bob).is_ok());
    assert!(task_route(&amy, &other).is_err());
    assert_eq!(
        mail_message(&amy, &bob, "Hi", "Body"),
        "From: amy@sample-pod.orqa\nTo: bob@sample-pod.orqa\nSubject: Hi\n\nBody\n"
    );
}

#[test]
fn messages_resolve_by_path_then_state() {
    assert_eq!(unique_mail_name(1700, 42, 3), "1700.42.3.orqa");
    assert_eq!(
        message_candidates("/m", "1.2.3.orqa"),
        vec!["1.2.3.orqa", "/m/new/1.2.3.orqa", "/m/cur/1.2.3.orqa"]
    );
    assert_eq!(
        resolve_message_path("/m", "1.2.3.orqa", &vec![false, false, true]).unwrap(),
        "/m/cur/1.2.3.orqa"
    );
    assert_eq!(
        resolve_message_path("/m", "x", &vec![false, false, false]).err().unwrap(),
        "message \"x\" not found in /m"
    );
}

#[test]
fn template_sync_deletes_only_owned_fins() {
    let fins = vec![TemplateFin { slug: "ceo".to_string(), role_path: "/t/fins/ceo/ROLE.md".to_string() }];
    assert!(sync_delete_candidate("old", &fins));
    assert!(!sync_delete_candidate("ceo", &fins));
    assert!(!sync_delete_candidate("operator", &fins));

    let (steps, changed) = sync_delete("exec", "/p/.orqa/fins", "old", Some("exec"), false);
    assert!(changed);
    assert_eq!(steps.len(), 3);
    assert!(matches!(steps[2], SyncStep::DeleteFin));
    let (steps, changed) = sync_delete("exec", "/p/.orqa/fins", "old", Some("exec"), true);
    assert!(changed);
    assert_eq!(steps.len(), 2);
    let (steps, changed) = sync_delete("exec", "/p/.orqa/fins", "old", Some("other"), false);
    assert!(!changed && steps.is_empty());
    assert_eq!(sync_header("exec", "launch", true), "Sync template 'exec' into pod 'launch' (dry run)");
}

#[test]
fn any_pod_may_mail_the_ops_pod() {
    let release = MailAddress::parse("release@sample-pod.orqa").unwrap();
    let ops = MailAddress::parse("operator@ops.orqa").unwrap();
    let other = MailAddress::parse("cy@other-pod.orqa").unwrap();
    assert_eq!(mail_route(&release, &ops).unwrap(), MailRoute::OperatorIssue);
    assert_eq!(mail_route(&ops, &release).unwrap(), MailRoute::Deliver);
    assert!(mail_route(&release, &other).is_err());
    assert!(is_operator_mail_bridge("sample-pod", "ops"));
    assert!(is_operator_mail_bridge("ops", "sample-pod"));
    assert!(!is_operator_mail_bridge("sample-pod", "other-pod"));
}

#[test]
fn template_fins_come_in_slug_order_once_each() {
    let slugs = vec!["qa".to_string(), "ceo".to_string(), "dev".to_string(), "ceo".to_string()];
    let roles = vec![true, true, true, false];
    let fins = template_fins("/t/fins", &slugs, &roles).unwrap();
    let names: Vec<&str> = fins.iter().map(|f| f.slug.as_str()).collect();
    assert_eq!(names, vec!["ceo", "dev", "qa"]);
    assert_eq!(fins[0].role_path, "/t/fins/ceo/ROLE.md");

    let (name, fins) = load_template_fins("exec", "/t/fins", &slugs, &roles).unwrap();
    assert_eq!(name, "exec");
    assert_eq!(fins.len(), 3);
    assert_eq!(
        load_template_fins("exec", "/t/fins", &vec![], &vec![]).err().unwrap(),
        "template 'exec' has no fins under /t/fins"
    );
    assert_eq!(
        load_template_fins("exec", "/t/fins", &vec!["operator".to_string()], &vec![true]).err().unwrap(),
        "template fins may not include 'operator'; pods seed that local human fin automatically"
    );
    assert_eq!(
        template_fins("/t/fins", &vec!["b".to_string(), "a".to_string()], &vec![true, false]).err().unwrap(),
        "template fin 'a' is missing /t/fins/a/ROLE.md"
    );
}
