use orqa::model::PodRef;
use orqa::service::{
    ensure_pod_exists, hex16, linux_unit, linux_unit_path, macos_plist, macos_plist_path,
    service_args, shell_quote, stable_hash, validate_interval, xml_escape, ServiceInstallArgs,
    ServiceSpec,
};

fn spec() -> ServiceSpec {
    ServiceSpec {
        label: "com.ianzepp.orqa.sample-pod.abc123".to_string(),
        unit: "orqa-sample-pod-abc123.service".to_string(),
        exe: "/usr/local/bin/orqa".to_string(),
        home: "/tmp/orqa home".to_string(),
        pod: "sample-pod".to_string(),
    }
}

fn install_args() -> ServiceInstallArgs {
    ServiceInstallArgs {
        pod: Some("sample-pod".to_string()),
        interval: 30,
        force: true,
        framework: Some("/bin/echo".to_string()),
        args: vec!["handle work".to_string()],
    }
}

#[test]
fn macos_plist_runs_service_loop() {
    let plist = macos_plist(&spec(), &install_args());

    assert!(plist.contains("<string>com.ianzepp.orqa.sample-pod.abc123</string>"));
    assert!(plist.contains("<string>service</string>"));
    assert!(plist.contains("<string>run</string>"));
    assert!(plist.contains("<string>--interval</string>"));
    assert!(plist.contains("<string>30</string>"));
    assert!(plist.contains("<string>--framework</string>"));
    assert!(plist.contains("<string>handle work</string>"));
}

#[test]
fn linux_unit_runs_service_loop() {
    let unit = linux_unit(&spec(), &install_args());

    assert!(unit.contains("Description=Orqa wake-loop service for pod sample-pod"));
    assert!(unit.contains("ExecStart=/bin/sh -lc"));
    assert!(unit.contains("service"));
    assert!(unit.contains("run"));
    assert!(unit.contains("sample-pod"));
    assert!(unit.contains("--interval"));
    assert!(unit.contains("30"));
    assert!(unit.contains("Restart=always"));
}

#[test]
fn rejects_zero_interval() {
    assert!(validate_interval(0).is_err());
    assert!(validate_interval(1).is_ok());
}

#[test]
fn zero_interval_error_names_the_minimum() {
    assert_eq!(
        validate_interval(0).unwrap_err(),
        "service interval must be at least 1 second"
    );
}

#[test]
fn stable_hash_is_fnv1a_in_sixteen_hex_digits() {
    assert_eq!(stable_hash(""), "cbf29ce484222325");
    assert_eq!(stable_hash("a"), "af63dc4c8601ec8c");
    assert_eq!(stable_hash("/tmp/orqa home"), "a71d16b73c2a6dca");
    assert_eq!(hex16(255), "00000000000000ff");
}

#[test]
fn service_spec_names_label_and_unit_by_home_hash() {
    let pod = PodRef::new("sample-pod").unwrap();
    let s = ServiceSpec::new("/tmp/orqa home", "/usr/local/bin/orqa", &pod);

    assert_eq!(s.label, "com.ianzepp.orqa.sample-pod.a71d16b73c2a6dca");
    assert_eq!(s.unit, "orqa-sample-pod-a71d16b73c2a6dca.service");
    assert_eq!(s.stdout_log(), "/tmp/orqa home/services/com.ianzepp.orqa.sample-pod.a71d16b73c2a6dca.out.log");
    assert_eq!(s.stderr_log(), "/tmp/orqa home/services/com.ianzepp.orqa.sample-pod.a71d16b73c2a6dca.err.log");
}

#[test]
fn service_files_live_under_home() {
    assert_eq!(
        macos_plist_path(Some("/Users/amy"), &spec()).unwrap(),
        "/Users/amy/Library/LaunchAgents/com.ianzepp.orqa.sample-pod.abc123.plist"
    );
    assert_eq!(
        linux_unit_path(Some("/home/amy"), &spec()).unwrap(),
        "/home/amy/.config/systemd/user/orqa-sample-pod-abc123.service"
    );
    assert_eq!(macos_plist_path(None, &spec()).unwrap_err(), "HOME is not set");
    assert_eq!(linux_unit_path(None, &spec()).unwrap_err(), "HOME is not set");
}

#[test]
fn service_args_carry_interval_force_framework_and_prompt() {
    let args = service_args(&spec(), &install_args());
    assert_eq!(
        args,
        vec![
            "/usr/local/bin/orqa",
            "--home",
            "/tmp/orqa home",
            "service",
            "run",
            "sample-pod",
            "--interval",
            "30",
            "--force",
            "--framework",
            "/bin/echo",
            "--",
            "handle work",
        ]
    );

    let plain = ServiceInstallArgs { pod: None, interval: 5, force: false, framework: None, args: vec![] };
    assert_eq!(
        service_args(&spec(), &plain),
        vec!["/usr/local/bin/orqa", "--home", "/tmp/orqa home", "service", "run", "sample-pod", "--interval", "5"]
    );
}

#[test]
fn escapes_for_xml_and_shell() {
    assert_eq!(xml_escape("a<b>&\"c\""), "a&lt;b&gt;&amp;&quot;c&quot;");
    assert_eq!(shell_quote("it's"), "'it'\\''s'");
    assert_eq!(shell_quote("plain"), "'plain'");
}

#[test]
fn missing_pod_home_is_refused() {
    let pod = PodRef::new("sample-pod").unwrap();
    assert!(ensure_pod_exists(&pod, "/srv/pod/.orqa", true).is_ok());
    assert_eq!(
        ensure_pod_exists(&pod, "/srv/pod/.orqa", false).unwrap_err(),
        "pod sample-pod does not exist at /srv/pod/.orqa; create it with `orqa pod create sample-pod`"
    );
}
