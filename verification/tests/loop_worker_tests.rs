use orqa::loop_worker::{parse_prompt_args, pidfile_matches, worker_force, worker_interval};

#[test]
fn parses_prompt_args_json() {
    let args = parse_prompt_args(Some("[\"one\", \"two\"]")).ok();

    assert_eq!(args, Some(vec!["one".to_string(), "two".to_string()]));
}

#[test]
fn falls_back_to_empty_prompt_args_on_parse_error() {
    assert!(parse_prompt_args(Some("{bad json")).is_err());
}

#[test]
fn missing_prompt_args_are_refused() {
    assert!(parse_prompt_args(None).is_err());
    assert_eq!(parse_prompt_args(Some("[]")).unwrap(), Vec::<String>::new());
}

#[test]
fn pidfile_matches_requires_exact_pid() {
    assert!(pidfile_matches(Some("123\n"), 123));
    assert!(!pidfile_matches(Some("123\n"), 456));
    assert!(!pidfile_matches(None, 123));
    assert!(pidfile_matches(Some("garbage"), 0));
    assert!(!pidfile_matches(Some("garbage"), 1));
}

#[test]
fn worker_settings_fall_back_to_defaults() {
    assert_eq!(worker_interval(Some("15")), 15);
    assert_eq!(worker_interval(Some("soon")), 60);
    assert_eq!(worker_interval(None), 60);
    assert!(worker_force(Some("1")));
    assert!(!worker_force(Some("yes")));
    assert!(!worker_force(None));
}
