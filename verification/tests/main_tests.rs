use orqa::config::{fin_agents_template, fin_config_template, pod_agents_template, pod_config_template};
use orqa::mailbox::storage::resolve_address;
use orqa::mailbox::tasks::{
    canonical_task_body, mark_task_done, priority_sort_value, quote_value, TaskFilters, TaskListArgs,
};
use orqa::model::{validate_slug, FinRef, MailAddress, PodRef};
use orqa::runtime::lock_pid;

#[test]
fn accepts_lowercase_slug_parts() {
    assert!(validate_slug("sample-pod").is_ok());
    assert!(validate_slug("bob-jones").is_ok());
    assert!(validate_slug("amy2").is_ok());
}

#[test]
fn rejects_path_like_slugs() {
    assert!(validate_slug("../sample-pod").is_err());
    assert!(validate_slug("SamplePod").is_err());
    assert!(validate_slug("").is_err());
}

#[test]
fn parses_local_mail_addresses() {
    let address = MailAddress::parse("amy@sample-pod.orqa").unwrap();

    assert_eq!(address.fin, "amy");
    assert_eq!(address.pod, "sample-pod");
    assert_eq!(address.label(), "amy@sample-pod.orqa");
}

#[test]
fn qualifies_bare_mail_addresses_with_pod_hint() {
    let address = resolve_address("bob-jones", Some("sample-pod")).unwrap();

    assert_eq!(address.fin, "bob-jones");
    assert_eq!(address.pod, "sample-pod");
    assert_eq!(address.label(), "bob-jones@sample-pod.orqa");
}

#[test]
fn bare_mail_addresses_need_pod_context() {
    assert!(resolve_address("bob-jones", None).is_err());
}

#[test]
fn rejects_non_orqa_mail_addresses() {
    assert!(MailAddress::parse("amy@example.com").is_err());
    assert!(MailAddress::parse("amy").is_err());
    assert!(MailAddress::parse("Amy@sample-pod.orqa").is_err());
}

#[test]
fn canonicalizes_plain_task_bodies() {
    let from = MailAddress::parse("amy@sample-pod.orqa").unwrap();
    let to = MailAddress::parse("bob-jones@sample-pod.orqa").unwrap();
    let task = canonical_task_body(&from, &to, Some("update-settings"), "Do the thing.");

    assert!(task.starts_with("---\n"));
    assert!(task.contains("from: amy@sample-pod.orqa\n"));
    assert!(task.contains("to: bob-jones@sample-pod.orqa\n"));
    assert!(task.contains("title: update-settings\n"));
    assert!(task.contains("priority: normal\n"));
    assert!(task.contains("status: open\n"));
    assert!(task.contains("kind: need\n"));
    assert!(task.contains("depends_on: []\n"));
    assert!(task.ends_with("Do the thing.\n"));
}

#[test]
fn preserves_and_fills_task_front_matter() {
    let from = MailAddress::parse("amy@sample-pod.orqa").unwrap();
    let to = MailAddress::parse("bob-jones@sample-pod.orqa").unwrap();
    let task = canonical_task_body(
        &from,
        &to,
        None,
        "---\ntitle: supplied-title\npriority: high\ncustom: keep-me\n---\n\nDetails.",
    );

    assert!(task.contains("title: supplied-title\n"));
    assert!(task.contains("priority: high\n"));
    assert!(task.contains("custom: keep-me\n"));
    assert!(task.contains("status: open\n"));
    assert!(task.contains("kind: need\n"));
    assert!(task.ends_with("Details.\n"));
}

#[test]
fn marks_task_front_matter_done() {
    let task = mark_task_done(
        "---\ntitle: Ship it\nstatus: open\npriority: high\n---\n\nComplete the work.",
    );

    assert!(task.contains("title: Ship it\n"));
    assert!(task.contains("status: done\n"));
    assert!(task.contains("priority: high\n"));
    assert!(task.ends_with("Complete the work.\n"));
}

#[test]
fn parses_yaml_task_front_matter_values() {
    let from = MailAddress::parse("amy@sample-pod.orqa").unwrap();
    let to = MailAddress::parse("bob-jones@sample-pod.orqa").unwrap();
    let task = canonical_task_body(
        &from,
        &to,
        None,
        "---\ntitle: \"fix: parser\"\ndepends_on: [first, second]\n---\n\nDetails.",
    );

    assert!(task.contains("title: \"fix: parser\"\n"));
    assert!(task.contains("depends_on: [first, second]\n"));
    assert!(task.ends_with("Details.\n"));
}

#[test]
fn parses_task_field_filters() {
    let args = TaskListArgs {
        all: false,
        status: Some("open".to_string()),
        priority: Some("high".to_string()),
        kind: None,
        fields: vec!["owner=amy".to_string()],
        sort: None,
        reverse: false,
    };
    let filters = TaskFilters::new(&args).unwrap();

    assert_eq!(
        filters.fields,
        vec![
            ("status".to_string(), "open".to_string()),
            ("priority".to_string(), "high".to_string()),
            ("owner".to_string(), "amy".to_string())
        ]
    );
}

#[test]
fn quotes_shell_unfriendly_values() {
    assert_eq!(quote_value("high"), "high");
    assert_eq!(quote_value("update settings"), "\"update settings\"");
    assert_eq!(quote_value("say \"hi\""), "\"say \\\"hi\\\"\"");
}

#[test]
fn sorts_known_priorities_by_severity() {
    assert!(priority_sort_value("high") < priority_sort_value("normal"));
    assert!(priority_sort_value("normal") < priority_sort_value("low"));
}

#[test]
fn parses_lock_pid() {
    assert_eq!(lock_pid("pid=123\nfin=amy\n"), Some(123));
    assert_eq!(lock_pid("fin=amy\n"), None);
}

#[test]
fn pod_config_template_enables_builtin_backends() {
    let pod = PodRef::new("sample-pod").unwrap();
    let toml = pod_config_template(&pod);

    assert!(toml.contains("[pod]"));
    assert!(toml.contains("slug = \"sample-pod\""));
    assert!(toml.contains("debounce = \"5m\""));
    assert!(toml.contains("exec_always = \"0\""));
    assert!(toml.contains("[backends.codex]"));
    assert!(toml.contains("command = \"codex\""));
    assert!(toml.contains("\"--skip-git-repo-check\""));
    assert!(toml.contains("\"--sandbox\", \"workspace-write\""));
    assert!(toml.contains("\"--cd\", \"{pod_root}\""));
    assert!(toml.contains(
        "chat_args = [\n    \"--sandbox\", \"workspace-write\",\n    \"--cd\", \"{pod_root}\",\n    \"--model\", \"{model}\",\n]"
    ));
    assert!(toml.contains("[backends.opencode]"));
    assert!(toml.contains("[backends.hermes]"));
    assert!(toml.contains("exec_args = [\"--model\", \"{model}\", \"--oneshot\", \"{prompt}\"]"));
    assert!(toml.contains("[backends.pi]"));
    assert!(toml.contains("    \"--session-dir\", \"{fin_home}/.pi/sessions\","));
    assert!(toml.contains("[backends.grok]"));
    assert!(toml.contains(
        "exec_args = [\"-p\", \"{prompt}\", \"--output-format\", \"streaming-json\", \"--always-approve\"]"
    ));
    assert!(toml.contains("[backends.ollama_codex]"));
    assert!(toml.contains("    \"launch\", \"codex\","));
    assert!(toml.contains("[backends.ollama_codex.defaults]"));
    assert!(toml.contains("# [backends.custom]"));
}

#[test]
fn pod_agents_template_documents_orqa_commands() {
    let pod = PodRef::new("sample-pod").unwrap();
    let markdown = pod_agents_template(&pod, "Build the thing.");

    assert!(markdown.contains("sample-pod"));
    assert!(markdown.contains("Build the thing."));
    assert!(markdown.contains("orqa fin list"));
    assert!(markdown.contains("orqa mail send --to <fin>"));
    assert!(markdown.contains("operator@$ORQA_POD.orqa"));
    assert!(markdown.contains("operator@ops.orqa"));
    assert!(markdown.contains("orqa task send --to <fin>"));
}

#[test]
fn fin_config_template_inherits_pod_backend_by_default() {
    let fin = FinRef::new("sample-pod", "amy").unwrap();
    let toml = fin_config_template(&fin);

    assert!(toml.contains("[fin]"));
    assert!(toml.contains("slug = \"amy\""));
    assert!(toml.contains("# backend = \"codex\""));
    assert!(toml.contains("# debounce = \"5m\""));
    assert!(toml.contains("# exec_always = \"3h\""));
}

#[test]
fn fin_agents_template_names_fin_role_stub() {
    let fin = FinRef::new("sample-pod", "planner").unwrap();
    let markdown = fin_agents_template(&fin, "Plan the work.");

    assert!(markdown.contains("planner"));
    assert!(markdown.contains("sample-pod"));
    assert!(markdown.contains("required_context:"));
    assert!(markdown.contains(".orqa/CHARTER.md"));
    assert!(markdown.contains("Before acting, read every path"));
    assert!(markdown.contains("Plan the work."));
}
