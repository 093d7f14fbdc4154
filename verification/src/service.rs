//! The background wake-loop service of a pod: its names, log files, and the
//! launchd and systemd files that run it.

use vstd::prelude::*;
use vstd::string::*;
use crate::model::PodRef;
use crate::paths::{join, join_path};
use crate::runtime::strings_view;
use crate::text::{append, decimal, push_char, replace_char, replace_char_str, u64_to_decimal};

verus! {

/// Refuses a loop interval of zero seconds.
pub fn validate_interval(interval: u64) -> (r: Result<(), String>)
    ensures
        r is Ok <==> interval != 0,
        r matches Err(e) ==> e@ == "service interval must be at least 1 second"@,
{
    if interval == 0 {
        Err(String::from_str("service interval must be at least 1 second"))
    } else {
        Ok(())
    }
}

/// Succeeds when the pod's home directory exists.
pub fn ensure_pod_exists(pod: &PodRef, pod_home: &str, home_is_dir: bool) -> (r: Result<(), String>)
    ensures
        r is Ok <==> home_is_dir,
        r matches Err(e) ==> e@ == "pod "@ + pod.slug@ + " does not exist at "@ + pod_home@
            + "; create it with `orqa pod create "@ + pod.slug@ + "`"@,
{
    if home_is_dir {
        Ok(())
    } else {
        let mut e = String::from_str("pod ");
        append(&mut e, pod.slug.as_str());
        append(&mut e, " does not exist at ");
        append(&mut e, pod_home);
        append(&mut e, "; create it with `orqa pod create ");
        append(&mut e, pod.slug.as_str());
        append(&mut e, "`");
        Err(e)
    }
}

/// The FNV-1a offset basis.
pub open spec fn fnv_offset() -> u64 {
    0xcbf29ce484222325u64
}

/// The FNV-1a prime.
pub open spec fn fnv_prime() -> u64 {
    0x100000001b3u64
}

/// The 64-bit FNV-1a hash of bytes: xor in each byte, then multiply by the
/// prime modulo 2^64.
pub open spec fn fnv1a(bs: Seq<u8>) -> u64
    decreases bs.len(),
{
    if bs.len() == 0 {
        fnv_offset()
    } else {
        vstd::wrapping::u64_specs::wrapping_mul(fnv1a(bs.drop_last()) ^ (bs.last() as u64), fnv_prime())
    }
}

/// A lowercase hexadecimal digit.
pub open spec fn hex_char(d: int) -> char {
    seq!['0', '1', '2', '3', '4', '5', '6', '7', '8', '9', 'a', 'b', 'c', 'd', 'e', 'f'][d]
}

/// The last `k` hexadecimal digits of `n`, zero-padded.
pub open spec fn hex_digits(n: nat, k: nat) -> Seq<char>
    decreases k,
{
    if k == 0 {
        Seq::empty()
    } else {
        hex_digits(n / 16, (k - 1) as nat).push(hex_char((n % 16) as int))
    }
}

/// `format!("{n:016x}")`.
pub fn hex16(n: u64) -> (r: String)
    ensures
        r@ == hex_digits(n as nat, 16),
{
    let digits: [char; 16] = [
        '0', '1', '2', '3', '4', '5', '6', '7', '8', '9', 'a', 'b', 'c', 'd', 'e', 'f',
    ];
    let ghost dseq = seq!['0', '1', '2', '3', '4', '5', '6', '7', '8', '9', 'a', 'b', 'c', 'd', 'e', 'f'];
    assert(digits@ =~= dseq);
    let mut rev: Vec<char> = Vec::new();
    let mut m = n;
    let mut k: u64 = 16;
    while k > 0
        invariant
            digits@ == dseq,
            dseq == seq!['0', '1', '2', '3', '4', '5', '6', '7', '8', '9', 'a', 'b', 'c', 'd', 'e', 'f'],
            k <= 16,
            hex_digits(n as nat, 16) == hex_digits(m as nat, k as nat) + rev@.reverse(),
        decreases k,
    {
        let d = (m % 16) as usize;
        let ch = digits[d];
        assert(ch == hex_char((m % 16) as int));
        let ghost before = rev@;
        rev.push(ch);
        proof {
            assert(hex_digits(m as nat, k as nat) == hex_digits((m / 16) as nat, (k - 1) as nat).push(
                hex_char((m % 16) as int),
            ));
            assert(rev@.reverse() =~= seq![ch] + before.reverse());
        }
        m = m / 16;
        k = k - 1;
    }
    let mut s = String::new();
    let mut i = rev.len();
    while i > 0
        invariant
            i <= rev@.len(),
            s@ == rev@.subrange(i as int, rev@.len() as int).reverse(),
        decreases i,
    {
        i = i - 1;
        push_char(&mut s, rev[i]);
        proof {
            assert(rev@.subrange(i as int, rev@.len() as int).reverse() =~= rev@.subrange(
                i + 1,
                rev@.len() as int,
            ).reverse().push(rev@[i as int]));
        }
    }
    assert(rev@.subrange(0, rev@.len() as int) =~= rev@);
    assert(hex_digits(m as nat, 0) =~= Seq::<char>::empty());
    s
}

/// A short, stable name for an Orqa home: the FNV-1a hash of its UTF-8
/// bytes as 16 hexadecimal digits.
pub fn stable_hash(path: &str) -> (r: String)
    ensures
        r@ == hex_digits(fnv1a(path.spec_bytes()) as nat, 16),
{
    let bytes = path.as_bytes();
    let mut hash: u64 = 0xcbf29ce484222325u64;
    let mut i: usize = 0;
    while i < bytes.len()
        invariant
            bytes@ == path.spec_bytes(),
            i <= bytes@.len(),
            hash == fnv1a(bytes@.subrange(0, i as int)),
        decreases bytes@.len() - i,
    {
        proof {
            assert(bytes@.subrange(0, i + 1).drop_last() =~= bytes@.subrange(0, i as int));
        }
        hash = hash ^ (bytes[i] as u64);
        hash = hash.wrapping_mul(0x100000001b3u64);
        i = i + 1;
    }
    proof {
        assert(bytes@.subrange(0, i as int) =~= bytes@);
    }
    hex16(hash)
}

/// The identity of a pod's service: its launchd label, its systemd unit,
/// the Orqa executable, the Orqa home and the pod.
pub struct ServiceSpec {
    pub label: String,
    pub unit: String,
    pub exe: String,
    pub home: String,
    pub pod: String,
}

impl ServiceSpec {
    /// The service of `pod` for the Orqa home `home`, run by `exe`.
    pub fn new(home: &str, exe: &str, pod: &PodRef) -> (r: ServiceSpec)
        ensures
            r.label@ == "com.ianzepp.orqa."@ + pod.slug@ + "."@ + hex_digits(
                fnv1a(home.spec_bytes()) as nat,
                16,
            ),
            r.unit@ == "orqa-"@ + pod.slug@ + "-"@ + hex_digits(fnv1a(home.spec_bytes()) as nat, 16)
                + ".service"@,
            r.exe@ == exe@,
            r.home@ == home@,
            r.pod@ == pod.slug@,
    {
        let hash = stable_hash(home);
        let mut label = String::from_str("com.ianzepp.orqa.");
        append(&mut label, pod.slug.as_str());
        append(&mut label, ".");
        append(&mut label, hash.as_str());
        let mut unit = String::from_str("orqa-");
        append(&mut unit, pod.slug.as_str());
        append(&mut unit, "-");
        append(&mut unit, hash.as_str());
        append(&mut unit, ".service");
        ServiceSpec {
            label,
            unit,
            exe: String::from_str(exe),
            home: String::from_str(home),
            pod: pod.slug.clone(),
        }
    }

    /// `<home>/services`.
    pub fn log_dir(&self) -> (r: String)
        ensures
            r@ == join(self.home@, "services"@),
    {
        join_path(self.home.as_str(), "services")
    }

    /// `<home>/services/<label>.out.log`.
    pub fn stdout_log(&self) -> (r: String)
        ensures
            r@ == join(join(self.home@, "services"@), self.label@ + ".out.log"@),
    {
        let mut name = self.label.clone();
        append(&mut name, ".out.log");
        join_path(self.log_dir().as_str(), name.as_str())
    }

    /// `<home>/services/<label>.err.log`.
    pub fn stderr_log(&self) -> (r: String)
        ensures
            r@ == join(join(self.home@, "services"@), self.label@ + ".err.log"@),
    {
        let mut name = self.label.clone();
        append(&mut name, ".err.log");
        join_path(self.log_dir().as_str(), name.as_str())
    }
}

/// The user's launch agent file for a service, under `$HOME`.
pub fn macos_plist_path(home_dir: Option<&str>, spec: &ServiceSpec) -> (r: Result<String, String>)
    ensures
        match home_dir {
            Some(h) => r matches Ok(p) && p@ == join(
                join(join(h@, "Library"@), "LaunchAgents"@),
                spec.label@ + ".plist"@,
            ),
            None => r matches Err(e) && e@ == "HOME is not set"@,
        },
{
    match home_dir {
        Some(h) => {
            let a = join_path(h, "Library");
            let b = join_path(a.as_str(), "LaunchAgents");
            let mut name = spec.label.clone();
            append(&mut name, ".plist");
            Ok(join_path(b.as_str(), name.as_str()))
        },
        None => Err(String::from_str("HOME is not set")),
    }
}

/// The user's systemd unit file for a service, under `$HOME`.
pub fn linux_unit_path(home_dir: Option<&str>, spec: &ServiceSpec) -> (r: Result<String, String>)
    ensures
        match home_dir {
            Some(h) => r matches Ok(p) && p@ == join(
                join(join(join(h@, ".config"@), "systemd"@), "user"@),
                spec.unit@,
            ),
            None => r matches Err(e) && e@ == "HOME is not set"@,
        },
{
    match home_dir {
        Some(h) => {
            let a = join_path(h, ".config");
            let b = join_path(a.as_str(), "systemd");
            let c = join_path(b.as_str(), "user");
            Ok(join_path(c.as_str(), spec.unit.as_str()))
        },
        None => Err(String::from_str("HOME is not set")),
    }
}

/// The options `service install` passes on to the service loop.
pub struct ServiceInstallArgs {
    pub pod: Option<String>,
    pub interval: u64,
    pub force: bool,
    pub framework: Option<String>,
    pub args: Vec<String>,
}

/// The `--framework` option of the service loop, when one is set.
pub open spec fn framework_args(f: Option<String>) -> Seq<Seq<char>> {
    match f {
        Some(f) => seq!["--framework"@, f@],
        None => Seq::empty(),
    }
}

/// The command line of the service loop.
pub open spec fn service_args_spec(spec: ServiceSpec, args: ServiceInstallArgs) -> Seq<Seq<char>> {
    seq![
        spec.exe@,
        "--home"@,
        spec.home@,
        "service"@,
        "run"@,
        spec.pod@,
        "--interval"@,
        decimal(args.interval as nat),
    ] + (if args.force {
        seq!["--force"@]
    } else {
        Seq::empty()
    }) + framework_args(args.framework) + (if args.args.len() > 0 {
        seq!["--"@] + strings_view(args.args@)
    } else {
        Seq::empty()
    })
}

/// The command line that runs the service loop for a pod.
pub fn service_args(spec: &ServiceSpec, args: &ServiceInstallArgs) -> (r: Vec<String>)
    ensures
        strings_view(r@) == service_args_spec(*spec, *args),
{
    let mut c: Vec<String> = Vec::new();
    c.push(spec.exe.clone());
    c.push(String::from_str("--home"));
    c.push(spec.home.clone());
    c.push(String::from_str("service"));
    c.push(String::from_str("run"));
    c.push(spec.pod.clone());
    c.push(String::from_str("--interval"));
    c.push(u64_to_decimal(args.interval));
    let ghost base = strings_view(c@);
    proof {
        assert(base =~= seq![
            spec.exe@,
            "--home"@,
            spec.home@,
            "service"@,
            "run"@,
            spec.pod@,
            "--interval"@,
            decimal(args.interval as nat),
        ]);
    }
    if args.force {
        c.push(String::from_str("--force"));
    }
    let ghost with_force = base + (if args.force {
        seq!["--force"@]
    } else {
        Seq::<Seq<char>>::empty()
    });
    assert(strings_view(c@) =~= with_force);
    match &args.framework {
        Some(f) => {
            c.push(String::from_str("--framework"));
            c.push(f.clone());
        },
        None => {},
    }
    let ghost with_fw = with_force + framework_args(args.framework);
    assert(strings_view(c@) =~= with_fw);
    if args.args.len() > 0 {
        c.push(String::from_str("--"));
        let ghost head = strings_view(c@);
        let mut i: usize = 0;
        while i < args.args.len()
            invariant
                i <= args.args@.len(),
                strings_view(c@) == head + strings_view(args.args@).subrange(0, i as int),
            decreases args.args@.len() - i,
        {
            let ghost before = c@;
            let a = args.args[i].clone();
            c.push(a);
            proof {
                assert(strings_view(c@) =~= strings_view(before).push(args.args@[i as int]@));
                assert(strings_view(args.args@).subrange(0, i + 1) =~= strings_view(args.args@).subrange(
                    0,
                    i as int,
                ).push(args.args@[i as int]@));
            }
            i = i + 1;
        }
        proof {
            assert(strings_view(args.args@).subrange(0, i as int) =~= strings_view(args.args@));
            assert(strings_view(c@) =~= service_args_spec(*spec, *args));
        }
    } else {
        assert(strings_view(c@) =~= service_args_spec(*spec, *args));
    }
    c
}

/// Text escaped for XML character data and attributes.
pub open spec fn xml_escaped(v: Seq<char>) -> Seq<char> {
    replace_char(
        replace_char(replace_char(replace_char(v, '&', "&amp;"@), '<', "&lt;"@), '>', "&gt;"@),
        '"',
        "&quot;"@,
    )
}

/// Escapes `&`, `<`, `>` and `"` for XML.
pub fn xml_escape(value: &str) -> (r: String)
    ensures
        r@ == xml_escaped(value@),
{
    let a = replace_char_str(value, '&', "&amp;");
    let b = replace_char_str(a.as_str(), '<', "&lt;");
    let c = replace_char_str(b.as_str(), '>', "&gt;");
    replace_char_str(c.as_str(), '"', "&quot;")
}

/// A word single-quoted for `sh`.
pub open spec fn shell_quoted(v: Seq<char>) -> Seq<char> {
    "'"@ + replace_char(v, '\'', "'\\''"@) + "'"@
}

/// Quotes a word for `sh`: inside single quotes, each `'` closed, escaped
/// and reopened.
pub fn shell_quote(value: &str) -> (r: String)
    ensures
        r@ == shell_quoted(value@),
{
    let mut r = String::from_str("'");
    append(&mut r, replace_char_str(value, '\'', "'\\''").as_str());
    append(&mut r, "'");
    r
}

/// Items joined by a separator.
pub open spec fn joined(items: Seq<Seq<char>>, sep: Seq<char>) -> Seq<char>
    decreases items.len(),
{
    if items.len() == 0 {
        Seq::empty()
    } else if items.len() == 1 {
        items[0]
    } else {
        joined(items.drop_last(), sep) + sep + items.last()
    }
}

/// Joins strings with a separator.
pub fn join_with(items: &Vec<String>, sep: &str) -> (r: String)
    ensures
        r@ == joined(strings_view(items@), sep@),
{
    let ghost a = strings_view(items@);
    let mut r = String::new();
    let mut i: usize = 0;
    while i < items.len()
        invariant
            a == strings_view(items@),
            i <= items@.len(),
            r@ == joined(a.subrange(0, i as int), sep@),
        decreases items@.len() - i,
    {
        proof {
            assert(a.subrange(0, i + 1).drop_last() =~= a.subrange(0, i as int));
        }
        if i > 0 {
            append(&mut r, sep);
        }
        append(&mut r, items[i].as_str());
        i = i + 1;
    }
    proof {
        assert(a.subrange(0, i as int) =~= a);
    }
    r
}

/// The launchd plist of the service, up to its label.
pub const PLIST_HEAD: &'static str = r#"<?xml version="1.0" encoding="UTF-8"?>
<!DOCTYPE plist PUBLIC "-//Apple//DTD PLIST 1.0//EN" "http://www.apple.com/DTDs/PropertyList-1.0.dtd">
<plist version="1.0">
<dict>
    <key>Label</key>
    <string>"#;

/// The plist between the label and the program arguments.
pub const PLIST_ARGS: &'static str = r#"</string>
    <key>ProgramArguments</key>
    <array>
"#;

/// The plist between the program arguments and the stdout log.
pub const PLIST_OUT: &'static str = r#"
    </array>
    <key>RunAtLoad</key>
    <true/>
    <key>KeepAlive</key>
    <true/>
    <key>StandardOutPath</key>
    <string>"#;

/// The plist between the stdout and stderr logs.
pub const PLIST_ERR: &'static str = r#"</string>
    <key>StandardErrorPath</key>
    <string>"#;

/// The end of the plist.
pub const PLIST_TAIL: &'static str = r#"</string>
</dict>
</plist>
"#;

/// One program argument of the plist.
pub open spec fn plist_arg(a: Seq<char>) -> Seq<char> {
    "        <string>"@ + xml_escaped(a) + "</string>"@
}

/// The launchd agent that runs the service loop, keeps it alive, and logs
/// to the service's log files.
pub open spec fn plist_spec(spec: ServiceSpec, args: ServiceInstallArgs) -> Seq<char> {
    PLIST_HEAD@ + xml_escaped(spec.label@) + PLIST_ARGS@ + joined(
        service_args_spec(spec, args).map_values(|a: Seq<char>| plist_arg(a)),
        "\n"@,
    ) + PLIST_OUT@ + xml_escaped(join(join(spec.home@, "services"@), spec.label@ + ".out.log"@))
        + PLIST_ERR@ + xml_escaped(join(join(spec.home@, "services"@), spec.label@ + ".err.log"@))
        + PLIST_TAIL@
}

/// Writes the launchd agent of the service.
pub fn macos_plist(spec: &ServiceSpec, args: &ServiceInstallArgs) -> (r: String)
    ensures
        r@ == plist_spec(*spec, *args),
{
    let cmd = service_args(spec, args);
    let ghost sv = strings_view(cmd@);
    let mut lines: Vec<String> = Vec::new();
    let mut i: usize = 0;
    while i < cmd.len()
        invariant
            sv == strings_view(cmd@),
            i <= cmd@.len(),
            strings_view(lines@) == sv.subrange(0, i as int).map_values(|a: Seq<char>| plist_arg(a)),
        decreases cmd@.len() - i,
    {
        let mut l = String::from_str("        <string>");
        append(&mut l, xml_escape(cmd[i].as_str()).as_str());
        append(&mut l, "</string>");
        let ghost before = lines@;
        lines.push(l);
        proof {
            assert(strings_view(lines@) =~= strings_view(before).push(plist_arg(sv[i as int])));
            assert(sv.subrange(0, i + 1).map_values(|a: Seq<char>| plist_arg(a)) =~= sv.subrange(
                0,
                i as int,
            ).map_values(|a: Seq<char>| plist_arg(a)).push(plist_arg(sv[i as int])));
        }
        i = i + 1;
    }
    proof {
        assert(sv.subrange(0, i as int) =~= sv);
    }
    let arguments = join_with(&lines, "\n");
    let mut r = String::from_str(PLIST_HEAD);
    append(&mut r, xml_escape(spec.label.as_str()).as_str());
    append(&mut r, PLIST_ARGS);
    append(&mut r, arguments.as_str());
    append(&mut r, PLIST_OUT);
    append(&mut r, xml_escape(spec.stdout_log().as_str()).as_str());
    append(&mut r, PLIST_ERR);
    append(&mut r, xml_escape(spec.stderr_log().as_str()).as_str());
    append(&mut r, PLIST_TAIL);
    r
}

/// The systemd unit up to the pod slug.
pub const UNIT_HEAD: &'static str = r#"[Unit]
Description=Orqa wake-loop service for pod "#;

/// The unit between the pod slug and the start command.
pub const UNIT_EXEC: &'static str = r#"
After=default.target

[Service]
Type=simple
ExecStart=/bin/sh -lc "#;

/// The unit between the start command and the Orqa home.
pub const UNIT_ENV: &'static str = r#"
Restart=always
RestartSec=5
Environment=ORQA_HOME="#;

/// The end of the unit.
pub const UNIT_TAIL: &'static str = r#"

[Install]
WantedBy=default.target
"#;

/// The systemd user unit that runs the service loop through `sh -lc` and
/// restarts it.
pub open spec fn unit_spec(spec: ServiceSpec, args: ServiceInstallArgs) -> Seq<char> {
    UNIT_HEAD@ + spec.pod@ + UNIT_EXEC@ + shell_quoted(
        "exec "@ + joined(service_args_spec(spec, args).map_values(|a: Seq<char>| shell_quoted(a)), " "@),
    ) + UNIT_ENV@ + shell_quoted(spec.home@) + UNIT_TAIL@
}

/// Writes the systemd unit of the service.
pub fn linux_unit(spec: &ServiceSpec, args: &ServiceInstallArgs) -> (r: String)
    ensures
        r@ == unit_spec(*spec, *args),
{
    let cmd = service_args(spec, args);
    let ghost sv = strings_view(cmd@);
    let mut words: Vec<String> = Vec::new();
    let mut i: usize = 0;
    while i < cmd.len()
        invariant
            sv == strings_view(cmd@),
            i <= cmd@.len(),
            strings_view(words@) == sv.subrange(0, i as int).map_values(|a: Seq<char>| shell_quoted(a)),
        decreases cmd@.len() - i,
    {
        let w = shell_quote(cmd[i].as_str());
        let ghost before = words@;
        words.push(w);
        proof {
            assert(strings_view(words@) =~= strings_view(before).push(shell_quoted(sv[i as int])));
            assert(sv.subrange(0, i + 1).map_values(|a: Seq<char>| shell_quoted(a)) =~= sv.subrange(
                0,
                i as int,
            ).map_values(|a: Seq<char>| shell_quoted(a)).push(shell_quoted(sv[i as int])));
        }
        i = i + 1;
    }
    proof {
        assert(sv.subrange(0, i as int) =~= sv);
    }
    let command = join_with(&words, " ");
    let mut exec = String::from_str("exec ");
    append(&mut exec, command.as_str());
    let mut r = String::from_str(UNIT_HEAD);
    append(&mut r, spec.pod.as_str());
    append(&mut r, UNIT_EXEC);
    append(&mut r, shell_quote(exec.as_str()).as_str());
    append(&mut r, UNIT_ENV);
    append(&mut r, shell_quote(spec.home.as_str()).as_str());
    append(&mut r, UNIT_TAIL);
    r
}

} // verus!
