use fullrust::cli::{cache_dir, env_triple_of, host_supported, mode_error, parse_cli, plan_invocation, sanitize};

fn argv(a: &[&str]) -> Vec<String> {
    a.iter().map(|s| s.to_string()).collect()
}

#[test]
fn triple_and_sanitizing() {
    assert_eq!(env_triple_of("x86_64-fullrust-linux"), "X86_64_FULLRUST_LINUX");
    assert_eq!(env_triple_of("x86_64-unknown-linux-gnu"), "X86_64_UNKNOWN_LINUX_GNU");
    assert_eq!(sanitize("rustc 1.80.0-nightly (abc 2024)-0.1.0"), "rustc-1-80-0-nightly--abc-2024--0-1-0");
}

#[test]
fn command_line_splitting() {
    let c = parse_cli(&argv(&["cargo-fullrust", "fullrust", "run", "--release", "--", "a", "--stable"]));
    assert!(!c.help && !c.runtime);
    assert_eq!(c.toolchain, "nightly");
    assert_eq!(c.cargo_args, argv(&["run", "--release"]));
    assert_eq!(c.prog_args, argv(&["--", "a", "--stable"]));
    let s = parse_cli(&argv(&["cargo-fullrust", "--stable"]));
    assert!(s.runtime);
    assert_eq!(s.toolchain, "stable");
    assert_eq!(s.cargo_args, argv(&["build"]));
    let n = parse_cli(&argv(&["x", "--stable", "--nightly", "check"]));
    assert_eq!(n.toolchain, "nightly");
    assert!(n.runtime);
    let h = parse_cli(&argv(&["x", "build", "-h", "test"]));
    assert!(h.help);
    let r = parse_cli(&argv(&["x", "--runtime"]));
    assert!(r.runtime);
    assert_eq!(r.toolchain, "nightly");
}

#[test]
fn supported_hosts() {
    assert!(host_supported("x86_64-unknown-linux-gnu"));
    assert!(host_supported("x86_64-unknown-linux-musl"));
    assert!(!host_supported("aarch64-unknown-linux-gnu"));
    assert!(!host_supported("x86_64-apple-darwin"));
    assert!(!host_supported("x86_6"));
}

#[test]
fn cache_directory_choice() {
    assert_eq!(cache_dir(Some("/xdg"), Some("/home/u"), "/tmp").display(), "/xdg/cargo-fullrust");
    assert_eq!(cache_dir(Some(""), Some("/home/u"), "/tmp").display(), "/home/u/.cache/cargo-fullrust");
    assert_eq!(cache_dir(None, None, "/tmp").display(), "/tmp/cargo-fullrust");
}

#[test]
fn cargo_invocation_plans() {
    let zero = parse_cli(&argv(&["x", "build", "--", "p"]));
    assert_eq!(mode_error(&zero), None);
    let inv = plan_invocation(&zero, "x86_64-unknown-linux-gnu", "/lld", "/t.json", "/sys");
    let env: Vec<(&str, &str)> = inv.env.iter().map(|(k, v)| (k.as_str(), v.as_str())).collect();
    assert_eq!(
        env,
        vec![
            ("RUSTUP_TOOLCHAIN", "nightly"),
            ("CARGO_TARGET_X86_64_FULLRUST_LINUX_LINKER", "/lld"),
            ("CARGO_TARGET_X86_64_FULLRUST_LINUX_RUSTFLAGS", "--sysroot /sys -C link-args=-static"),
        ]
    );
    assert_eq!(inv.args, argv(&["build", "--target", "/t.json", "-Zjson-target-spec", "--", "p"]));

    let rt = parse_cli(&argv(&["x", "--runtime", "run"]));
    let inv2 = plan_invocation(&rt, "h", "/lld", "/t.json", "");
    assert_eq!(inv2.env[2].1, "-C link-args=-static");
    assert_eq!(
        inv2.args,
        argv(&["run", "--target", "/t.json", "-Zbuild-std=core,alloc,compiler_builtins", "-Zjson-target-spec"])
    );

    let st = parse_cli(&argv(&["x", "--stable"]));
    let inv3 = plan_invocation(&st, "x86_64-unknown-linux-gnu", "/lld", "/t.json", "");
    assert_eq!(inv3.env.len(), 4);
    assert_eq!(inv3.env[2].0, "CARGO_TARGET_X86_64_UNKNOWN_LINUX_GNU_LINKER");
    assert_eq!(inv3.env[3].1, "-C relocation-model=static -C linker-flavor=ld -C link-args=-static -C panic=abort");
    assert_eq!(inv3.args, argv(&["build", "--target", "x86_64-unknown-linux-gnu"]));

    let bad = parse_cli(&argv(&["x", "--stable", "--nightly", "--stable"]));
    assert!(bad.runtime);
    assert_eq!(mode_error(&bad), None);
}

#[test]
fn zero_touch_needs_nightly() {
    let mut c = parse_cli(&argv(&["x"]));
    c.toolchain = String::from("stable");
    assert!(mode_error(&c).is_some());
}
