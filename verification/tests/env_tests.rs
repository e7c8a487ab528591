use fullrust::env::{args, decode_str, split_entry, stack_layout, str_eq, temp_dir, var, vars, ProcessEnv, VarError};

fn env_of(argv: &[&[u8]], envp: &[&[u8]]) -> ProcessEnv {
    ProcessEnv::new(argv.iter().map(|a| a.to_vec()).collect(), envp.iter().map(|e| e.to_vec()).collect())
}

#[test]
fn initial_stack_layout() {
    assert_eq!(stack_layout(2), (1, 4));
    assert_eq!(stack_layout(0), (1, 2));
}

#[test]
fn arguments() {
    let e = env_of(&[b"prog", b"-x", &[0xff, 0x00]], &[]);
    assert_eq!(e.argc(), 3);
    assert_eq!(e.args_bytes()[2], &[0xff, 0x00]);
    assert_eq!(e.args(), vec!["prog", "-x", ""]);
    let mut a = args(&e);
    assert_eq!(a.len(), 3);
    assert_eq!(a.next(), Some(String::from("prog")));
    assert_eq!(a.len(), 2);
    assert_eq!(a.next(), Some(String::from("-x")));
    assert_eq!(a.next(), Some(String::new()));
    assert_eq!(a.next(), None);
    assert_eq!(a.len(), 0);
}

#[test]
fn environment_pairs() {
    let e = env_of(&[], &[b"HOME=/root", b"NOEQUALS", &[0xff, b'=', b'x'], b"A=b=c", b"HOME=/other"]);
    assert_eq!(e.vars(), vec![("HOME", "/root"), ("A", "b=c"), ("HOME", "/other")]);
    assert_eq!(e.var("HOME"), Some("/root"));
    assert_eq!(e.var("A"), Some("b=c"));
    assert_eq!(e.var("NOEQUALS"), None);
    assert_eq!(var(&e, "A"), Ok(String::from("b=c")));
    assert_eq!(var(&e, "MISSING"), Err(VarError::NotPresent));
    assert_eq!(vars(&e).len(), 3);
    assert_eq!(vars(&e)[1], (String::from("A"), String::from("b=c")));
}

#[test]
fn temp_dir_choice() {
    assert_eq!(temp_dir(&env_of(&[], &[b"TMPDIR=/var/tmp"])).display(), "/var/tmp");
    assert_eq!(temp_dir(&env_of(&[], &[b"TMPDIR="])).display(), "/tmp");
    assert_eq!(temp_dir(&env_of(&[], &[])).display(), "/tmp");
}

#[test]
fn entry_and_text_helpers() {
    assert_eq!(split_entry(b"K=V"), Some(("K", "V")));
    assert_eq!(split_entry(b"=V"), Some(("", "V")));
    assert_eq!(split_entry(b"KV"), None);
    assert_eq!(decode_str(b"ok"), Some("ok"));
    assert_eq!(decode_str(&[0xc3]), None);
    assert!(str_eq("abc", "abc"));
    assert!(!str_eq("abc", "abd"));
    assert_eq!(VarError::NotPresent.description(), "environment variable not found");
    assert_eq!(VarError::NotUnicode.description(), "environment variable was not valid unicode");
}
