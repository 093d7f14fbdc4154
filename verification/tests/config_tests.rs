use orqa::config::{
    backend_chat_command, backend_command, duration_in_range, duration_override, expand_templates,
    nonzero_duration, parse_duration, run_policy, run_policy_in_range, BackendMode, ConfigValue,
};
use orqa::config_file::{read_global_config, read_template_origin, read_toml, read_toml_file};
use orqa::model::{load_registry, FinRef, Orqa};

fn text(s: &str) -> ConfigValue {
    ConfigValue::Text(s.to_string())
}

fn entry(k: &str, v: ConfigValue) -> (String, ConfigValue) {
    (k.to_string(), v)
}

fn list(items: &[&str]) -> ConfigValue {
    ConfigValue::List(items.iter().map(|s| text(s)).collect())
}

fn orqa() -> Orqa {
    Orqa {
        home: "/tmp/orqa-home".to_string(),
        detected: Some(("test-pod".to_string(), "/tmp/test-pod".to_string())),
        registry: vec![],
        registry_error: None,
    }
}

fn echo_pod_config() -> Vec<(String, ConfigValue)> {
    vec![
        entry(
            "pod",
            ConfigValue::Table(vec![entry("slug", text("test-pod")), entry("default_backend", text("echo"))]),
        ),
        entry(
            "backends",
            ConfigValue::Table(vec![entry(
                "echo",
                ConfigValue::Table(vec![
                    entry("enabled", ConfigValue::Flag(true)),
                    entry("command", text("/bin/echo")),
                    entry("exec_args", list(&["pod={pod}", "fin={fin}", "model={model}", "prompt={prompt}"])),
                    entry("chat_args", list(&["chat", "model={model}"])),
                    entry("defaults", ConfigValue::Table(vec![entry("model", text("pod-default"))])),
                ]),
            )]),
        ),
    ]
}

fn amy_fin_config() -> Vec<(String, ConfigValue)> {
    vec![
        entry("fin", ConfigValue::Table(vec![entry("slug", text("amy"))])),
        entry("backend", ConfigValue::Table(vec![entry("model", text("fin-model"))])),
    ]
}

#[test]
fn resolves_backend_command_from_pod_and_fin_config() {
    let fin = FinRef::new("test-pod", "amy").unwrap();
    let prompt = vec!["hello".to_string(), "world".to_string()];
    let command = backend_command(&orqa(), &fin, &prompt, &echo_pod_config(), &amy_fin_config()).unwrap();

    assert_eq!(command.backend, "echo");
    assert_eq!(command.command, "/bin/echo");
    assert_eq!(command.mode, BackendMode::Exec);
    assert_eq!(
        command.args,
        vec!["pod=test-pod", "fin=amy", "model=fin-model", "prompt=hello world"]
    );

    let chat = backend_chat_command(&orqa(), &fin, &echo_pod_config(), &amy_fin_config()).unwrap();
    assert_eq!(chat.mode, BackendMode::Chat);
    assert_eq!(chat.args, vec!["chat", "model=fin-model"]);
}

#[test]
fn backend_defaults_apply_without_fin_values() {
    let fin = FinRef::new("test-pod", "amy").unwrap();
    let fin_config = vec![entry("fin", ConfigValue::Table(vec![entry("slug", text("amy"))]))];
    let chat = backend_chat_command(&orqa(), &fin, &echo_pod_config(), &fin_config).unwrap();
    assert_eq!(chat.args, vec!["chat", "model=pod-default"]);
}

#[test]
fn backend_errors_name_the_backend() {
    let fin = FinRef::new("test-pod", "amy").unwrap();
    let picks_missing = vec![entry("fin", ConfigValue::Table(vec![entry("backend", text("ghost"))]))];
    let err = backend_command(&orqa(), &fin, &vec![], &echo_pod_config(), &picks_missing).err().unwrap();
    assert_eq!(err, "backend \"ghost\" is not defined in pod.toml");

    let disabled = vec![entry(
        "backends",
        ConfigValue::Table(vec![entry(
            "codex",
            ConfigValue::Table(vec![entry("enabled", ConfigValue::Flag(false)), entry("command", text("codex"))]),
        )]),
    )];
    let err = backend_command(&orqa(), &fin, &vec![], &disabled, &vec![]).err().unwrap();
    assert_eq!(err, "backend \"codex\" is not enabled");

    let no_command = vec![entry(
        "backends",
        ConfigValue::Table(vec![entry("codex", ConfigValue::Table(vec![entry("enabled", ConfigValue::Flag(true))]))]),
    )];
    let err = backend_command(&orqa(), &fin, &vec![], &no_command, &vec![]).err().unwrap();
    assert_eq!(err, "backend \"codex\" is missing command");

    let no_args = vec![entry(
        "backends",
        ConfigValue::Table(vec![entry(
            "codex",
            ConfigValue::Table(vec![entry("enabled", ConfigValue::Flag(true)), entry("command", text("codex"))]),
        )]),
    )];
    let err = backend_command(&orqa(), &fin, &vec![], &no_args, &vec![]).err().unwrap();
    assert_eq!(err, "exec_args must be defined as an array of strings");
}

#[test]
fn unregistered_pod_is_refused() {
    let fin = FinRef::new("other-pod", "amy").unwrap();
    let err = backend_command(&orqa(), &fin, &vec![], &echo_pod_config(), &amy_fin_config()).err().unwrap();
    assert!(err.starts_with("pod 'other-pod' is not registered"));
}

fn policy_pod_config() -> Vec<(String, ConfigValue)> {
    vec![entry(
        "pod",
        ConfigValue::Table(vec![
            entry("slug", text("test-pod")),
            entry("debounce", text("15m")),
            entry("exec_always", text("3h")),
        ]),
    )]
}

#[test]
fn resolves_run_policy_with_fin_overrides() {
    let fin_config = vec![entry(
        "fin",
        ConfigValue::Table(vec![entry("slug", text("amy")), entry("debounce", text("30s"))]),
    )];
    assert!(run_policy_in_range(&policy_pod_config(), &fin_config));
    let policy = run_policy(&policy_pod_config(), &fin_config).unwrap();
    assert_eq!(policy.debounce, Some(30));
    assert_eq!(policy.exec_always, Some(3 * 60 * 60));
}

#[test]
fn zero_run_policy_values_disable_policy() {
    let fin_config = vec![entry(
        "fin",
        ConfigValue::Table(vec![
            entry("slug", text("amy")),
            entry("debounce", text("0")),
            entry("exec_always", text("0")),
        ]),
    )];
    let policy = run_policy(&policy_pod_config(), &fin_config).unwrap();
    assert_eq!(policy.debounce, None);
    assert_eq!(policy.exec_always, None);
}

#[test]
fn parses_durations_with_units() {
    assert_eq!(parse_duration("45").unwrap(), 45);
    assert_eq!(parse_duration("30s").unwrap(), 30);
    assert_eq!(parse_duration("5m").unwrap(), 300);
    assert_eq!(parse_duration("2 hours").unwrap(), 7200);
    assert_eq!(parse_duration("1d").unwrap(), 86400);
    assert!(parse_duration("").is_err());
    assert!(parse_duration("5 fortnights").is_err());
    assert!(duration_in_range("5m"));
    assert!(!duration_in_range("999999999999999999d"));
    assert!(duration_in_range("99999999999999999999"));
}

#[test]
fn fin_duration_overrides_pod_duration() {
    assert_eq!(duration_override(Some("15m"), Some("30s"), "debounce").unwrap(), Some(30));
    assert_eq!(duration_override(Some("15m"), None, "debounce").unwrap(), Some(900));
    assert_eq!(duration_override(None, None, "debounce").unwrap(), None);
    assert!(duration_override(Some("soon"), None, "debounce").is_err());
    assert_eq!(nonzero_duration(Some(0)), None);
    assert_eq!(nonzero_duration(Some(3)), Some(3));
}

#[test]
fn expands_known_template_values_only() {
    let values = vec![
        ("fin".to_string(), "amy".to_string()),
        ("pod".to_string(), "test-pod".to_string()),
    ];
    assert_eq!(expand_templates("{pod}/{fin}/{other}", &values), "test-pod/amy/{other}");
}

const ECHO_POD_TOML: &str = r#"
[pod]
slug = "test-pod"
default_backend = "echo"

[backends.echo]
enabled = true
command = "/bin/echo"
exec_args = ["pod={pod}", "fin={fin}", "model={model}", "prompt={prompt}"]
chat_args = ["chat", "model={model}"]

[backends.echo.defaults]
model = "pod-default"
"#;

const AMY_FIN_TOML: &str = r#"
[fin]
slug = "amy"

[backend]
model = "fin-model"
"#;

#[test]
fn resolves_backend_command_from_toml_text() {
    let pod_config = read_toml("pod.toml", ECHO_POD_TOML).unwrap();
    let fin_config = read_toml("fin.toml", AMY_FIN_TOML).unwrap();
    let fin = FinRef::new("test-pod", "amy").unwrap();
    let prompt = vec!["hello".to_string(), "world".to_string()];
    let command = backend_command(&orqa(), &fin, &prompt, &pod_config, &fin_config).unwrap();
    assert_eq!(command.backend, "echo");
    assert_eq!(command.command, "/bin/echo");
    assert_eq!(command.args, vec!["pod=test-pod", "fin=amy", "model=fin-model", "prompt=hello world"]);
    let chat = backend_chat_command(&orqa(), &fin, &pod_config, &fin_config).unwrap();
    assert_eq!(chat.args, vec!["chat", "model=fin-model"]);
}

#[test]
fn resolves_run_policy_from_toml_text() {
    let pod_config = read_toml(
        "pod.toml",
        "[pod]\nslug = \"test-pod\"\ndebounce = \"15m\"\nexec_always = \"3h\"\n",
    )
    .unwrap();
    let fin_config = read_toml("fin.toml", "[fin]\nslug = \"amy\"\ndebounce = \"30s\"\n").unwrap();
    let policy = run_policy(&pod_config, &fin_config).unwrap();
    assert_eq!(policy.debounce, Some(30));
    assert_eq!(policy.exec_always, Some(10800));
    let off = read_toml("fin.toml", "[fin]\ndebounce = \"0\"\nexec_always = \"0\"\n").unwrap();
    let policy = run_policy(&pod_config, &off).unwrap();
    assert_eq!(policy.debounce, None);
    assert_eq!(policy.exec_always, None);
}

#[test]
fn toml_errors_name_the_file() {
    assert!(read_toml("pod.toml", "not = [toml").err().unwrap().starts_with("failed to parse config pod.toml: "));
    assert!(read_global_config("/h/config.toml", "=").err().unwrap().starts_with("failed to parse global config /h/config.toml: "));
    assert!(read_toml_file("/h/x.toml", "[[").err().unwrap().starts_with("failed to parse /h/x.toml: "));
}

#[test]
fn registry_and_template_origin_read_from_toml() {
    let config = read_global_config(
        "/h/config.toml",
        "[registry]\nversion = 1\n\n[pods.alpha]\npath = \"/work/alpha\"\nenabled = true\n\n[pods.beta]\npath = \"rel\"\nenabled = false\n",
    )
    .unwrap();
    let regs = load_registry(&config, Some("/home/u"), "/cwd").unwrap();
    assert_eq!(regs.len(), 2);
    assert_eq!(regs[0].slug, "alpha");
    assert_eq!(regs[0].path, "/work/alpha");
    assert!(regs[0].enabled);
    assert_eq!(regs[1].path, "/cwd/rel");
    assert!(!regs[1].enabled);

    let origin = read_template_origin("/f/fin.toml", "[fin]\nslug = \"ceo\"\n\n[template]\nname = \"exec\"\nfin = \"ceo\"\n").unwrap();
    assert_eq!(origin.as_deref(), Some("exec"));
    assert_eq!(read_template_origin("/f/fin.toml", "[fin]\n").unwrap(), None);
}

#[test]
fn registering_a_pod_loads_it_back() {
    let current = "[pods.beta]\npath = \"/work/beta\"\nenabled = false\n\n[other]\nratio = 1.5\n";
    let text = orqa::register::registered_config_text(current, "alpha", "/work/alpha").unwrap();
    let config = read_global_config("/h/config.toml", &text).unwrap();
    let regs = load_registry(&config, None, "/cwd").unwrap();
    let found: Vec<(&str, &str, bool)> = regs.iter().map(|r| (r.slug.as_str(), r.path.as_str(), r.enabled)).collect();
    assert_eq!(found, vec![("alpha", "/work/alpha", true), ("beta", "/work/beta", false)]);
    assert!(text.contains("ratio = 1.5"));
    assert!(text.contains("version = 1"));

    let again = orqa::register::registered_config_text(&text, "beta", "/elsewhere").unwrap();
    let regs = load_registry(&read_global_config("/h/config.toml", &again).unwrap(), None, "/cwd").unwrap();
    assert_eq!(regs[1].path, "/elsewhere");
    assert!(regs[1].enabled);

    let fresh = orqa::register::registered_config_text("not toml =", "alpha", "/a").unwrap();
    assert!(fresh.contains("[pods.alpha]"));
    assert_eq!(
        orqa::register::registered_config_text("pods = 1", "alpha", "/a").err().unwrap(),
        "invalid pods section"
    );
    assert_eq!(
        orqa::register::registered_config_text("registry = \"x\"", "alpha", "/a").err().unwrap(),
        "invalid registry section in config.toml"
    );
}

#[test]
fn toggling_a_hook_sets_only_its_flag() {
    let text = orqa::register::toggled_hook_text(
        "/p/h.toml",
        "[hook]\nenabled = true\ncommand = \"make\"\ntimeout = \"30s\"\n",
        false,
    )
    .unwrap();
    let table = read_toml_file("/p/h.toml", &text).unwrap();
    let hook = orqa::config::sub_table(&table, "hook").unwrap();
    assert_eq!(orqa::config::bool_field(hook, "enabled"), Some(false));
    assert_eq!(orqa::config::string_field(hook, "command").as_deref(), Some("make"));
    assert_eq!(
        orqa::register::toggled_hook_text("/p/h.toml", "x = 1\n", true).err().unwrap(),
        "hook TOML must contain a [hook] table"
    );
    assert!(orqa::register::toggled_hook_text("/p/h.toml", "=", true).err().unwrap().starts_with("failed to parse /p/h.toml: "));
}
