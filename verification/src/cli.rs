//! The `cargo fullrust` driver's pure parts: splitting its command line into
//! driver flags, cargo arguments and program arguments; deriving environment
//! variable names from a target triple; picking the cache directory; and
//! reading a field out of `rustc -vV` output.
use vstd::prelude::*;
use vstd::string::StrSliceExecFns;
use vstd::string::StringExecFns;
use crate::env::str_eq;
use crate::text::str_chars;

verus! {

/// `String::from_iter` over characters: the string made of exactly these
/// characters, in order.
#[verifier::external_body]
pub(crate) fn string_from_chars(v: &Vec<char>) -> (s: String)
    ensures
        s@ == v@,
{
    v.iter().collect::<String>()
}

/// Whether `c` is an ASCII letter or digit.
pub open spec fn is_ascii_alnum(c: char) -> bool {
    ('0' <= c && c <= '9') || ('a' <= c && c <= 'z') || ('A' <= c && c <= 'Z')
}

/// `c` with ASCII lowercase letters turned to uppercase.
pub open spec fn ascii_upper(c: char) -> char {
    if 'a' <= c && c <= 'z' { ((c as u32) - 32) as char } else { c }
}

fn is_alnum(c: char) -> (b: bool)
    ensures
        b == is_ascii_alnum(c),
{
    ('0' <= c && c <= '9') || ('a' <= c && c <= 'z') || ('A' <= c && c <= 'Z')
}

fn upper(c: char) -> (u: char)
    ensures
        u == ascii_upper(c),
{
    if 'a' <= c && c <= 'z' {
        let b: u8 = (c as u8) - 32;
        let u = b as char;
        assert(u == ((c as u32) - 32) as char);
        u
    } else {
        c
    }
}

/// The environment-variable form of a target triple: letters and digits in
/// uppercase, everything else `_`.
pub open spec fn env_triple_spec(t: Seq<char>) -> Seq<char> {
    Seq::new(t.len(), |i: int| if is_ascii_alnum(t[i]) { ascii_upper(t[i]) } else { '_' })
}

/// Turn a target triple into the form cargo uses in variable names.
pub fn env_triple_of(triple: &str) -> (s: String)
    ensures
        s@ == env_triple_spec(triple@),
{
    let v = str_chars(triple);
    let mut out: Vec<char> = Vec::new();
    let mut i: usize = 0;
    while i < v.len()
        invariant
            i <= v@.len(),
            v@ == triple@,
            out@ == env_triple_spec(triple@).take(i as int),
        decreases v@.len() - i,
    {
        let c = v[i];
        let d = if is_alnum(c) { upper(c) } else { '_' };
        out.push(d);
        i += 1;
        assert(out@ =~= env_triple_spec(triple@).take(i as int));
    }
    assert(env_triple_spec(triple@).take(v@.len() as int) =~= env_triple_spec(triple@));
    string_from_chars(&out)
}

/// A string safe to use as a directory name: letters and digits kept,
/// everything else `-`.
pub open spec fn sanitize_spec(t: Seq<char>) -> Seq<char> {
    Seq::new(t.len(), |i: int| if is_ascii_alnum(t[i]) { t[i] } else { '-' })
}

/// Replace every character that is not an ASCII letter or digit by `-`.
pub fn sanitize(s: &str) -> (r: String)
    ensures
        r@ == sanitize_spec(s@),
{
    let v = str_chars(s);
    let mut out: Vec<char> = Vec::new();
    let mut i: usize = 0;
    while i < v.len()
        invariant
            i <= v@.len(),
            v@ == s@,
            out@ == sanitize_spec(s@).take(i as int),
        decreases v@.len() - i,
    {
        let c = v[i];
        out.push(if is_alnum(c) { c } else { '-' });
        i += 1;
        assert(out@ =~= sanitize_spec(s@).take(i as int));
    }
    assert(sanitize_spec(s@).take(v@.len() as int) =~= sanitize_spec(s@));
    string_from_chars(&out)
}

/// How the driver was asked to run.
#[derive(Debug)]
pub struct CliConfig {
    pub toolchain: String,
    pub runtime: bool,
    pub help: bool,
    pub cargo_args: Vec<String>,
    pub prog_args: Vec<String>,
}

/// The state of the command-line scan after some arguments.
pub struct CliScan {
    pub stable: bool,
    pub runtime: bool,
    pub help: bool,
    pub saw_dd: bool,
    pub cargo_args: Seq<Seq<char>>,
    pub prog_args: Seq<Seq<char>>,
}

/// The scan state after one more argument `a`.
pub open spec fn scan_step(st: CliScan, a: Seq<char>) -> CliScan {
    if st.help {
        st
    } else if st.saw_dd {
        CliScan { prog_args: st.prog_args.push(a), ..st }
    } else if a == "--stable"@ {
        CliScan { stable: true, runtime: true, ..st }
    } else if a == "--nightly"@ {
        CliScan { stable: false, ..st }
    } else if a == "--runtime"@ {
        CliScan { runtime: true, ..st }
    } else if a == "-h"@ || a == "--help"@ {
        CliScan { help: true, ..st }
    } else if a == "--"@ {
        CliScan { saw_dd: true, prog_args: st.prog_args.push(a), ..st }
    } else {
        CliScan { cargo_args: st.cargo_args.push(a), ..st }
    }
}

/// The scan state after all of `args`.
pub open spec fn scan_all(args: Seq<Seq<char>>) -> CliScan
    decreases args.len(),
{
    if args.len() == 0 {
        CliScan { stable: false, runtime: false, help: false, saw_dd: false, cargo_args: Seq::empty(), prog_args: Seq::empty() }
    } else {
        scan_step(scan_all(args.drop_last()), args.last())
    }
}

/// The driver's own arguments: everything after the program name, without a
/// leading `fullrust` (cargo passes the subcommand name first).
pub open spec fn driver_args(all: Seq<Seq<char>>) -> Seq<Seq<char>> {
    let rest = if all.len() > 0 { all.skip(1) } else { all };
    if rest.len() > 0 && rest[0] == "fullrust"@ { rest.skip(1) } else { rest }
}

/// The views of a vector of strings.
pub open spec fn string_views(v: Seq<String>) -> Seq<Seq<char>> {
    Seq::new(v.len(), |i: int| v[i]@)
}

/// Split the command line: driver flags (`--stable` implies the runtime
/// mode, `--nightly`, `--runtime`, `-h`/`--help` stops the scan), cargo
/// arguments (`build` when there are none), and everything from `--` on for
/// the program.
pub fn parse_cli(all: &Vec<String>) -> (c: CliConfig)
    ensures
        ({
            let st = scan_all(driver_args(string_views(all@)));
            &&& c.help == st.help
            &&& c.runtime == st.runtime
            &&& c.toolchain@ == if st.stable { "stable"@ } else { "nightly"@ }
            &&& !st.help ==> string_views(c.prog_args@) == st.prog_args
            &&& !st.help ==> string_views(c.cargo_args@) == if st.cargo_args.len() == 0 { seq!["build"@] } else { st.cargo_args }
        }),
{
    let ghost av = string_views(all@);
    let mut start: usize = if all.len() > 0 { 1 } else { 0 };
    let fr: &'static str = "fullrust";
    if start < all.len() && str_eq(all[start].as_str(), fr) {
        start = start + 1;
    }
    let ghost dargs = driver_args(av);
    proof {
        let rest = if av.len() > 0 { av.skip(1) } else { av };
        if av.len() > 0 {
            assert(rest =~= av.skip(1));
        }
        if start == 2 {
            assert(dargs =~= av.skip(2));
        } else {
            assert(dargs =~= av.skip(start as int));
        }
    }
    let mut stable = false;
    let mut runtime = false;
    let mut help = false;
    let mut saw_dd = false;
    let mut cargo_args: Vec<String> = Vec::new();
    let mut prog_args: Vec<String> = Vec::new();
    let mut i: usize = start;
    while i < all.len() && !help
        invariant
            start <= i <= all@.len(),
            av == string_views(all@),
            dargs == av.skip(start as int),
            ({
                let st = scan_all(dargs.take(i - start));
                &&& st.stable == stable && st.runtime == runtime && st.help == help && st.saw_dd == saw_dd
                &&& st.cargo_args == string_views(cargo_args@)
                &&& st.prog_args == string_views(prog_args@)
            }),
        decreases all@.len() - i,
    {
        let a = all[i].as_str();
        let ghost k = i - start;
        proof {
            assert(dargs.take(k + 1).drop_last() =~= dargs.take(k));
            assert(dargs.take(k + 1).last() == a@);
        }
        if saw_dd {
            prog_args.push(a.to_owned());
            assert(string_views(prog_args@) =~= scan_all(dargs.take(k)).prog_args.push(a@));
        } else if str_eq(a, "--stable") {
            proof { reveal_strlit("--stable"); }
            stable = true;
            runtime = true;
        } else if str_eq(a, "--nightly") {
            stable = false;
        } else if str_eq(a, "--runtime") {
            runtime = true;
        } else if str_eq(a, "-h") || str_eq(a, "--help") {
            help = true;
        } else if str_eq(a, "--") {
            saw_dd = true;
            prog_args.push(a.to_owned());
            assert(string_views(prog_args@) =~= scan_all(dargs.take(k)).prog_args.push(a@));
        } else {
            cargo_args.push(a.to_owned());
            assert(string_views(cargo_args@) =~= scan_all(dargs.take(k)).cargo_args.push(a@));
        }
        i += 1;
    }
    proof {
        if !help {
            assert(dargs.take(i - start) =~= dargs);
        } else {
            lemma_scan_help_stays(dargs, (i - start) as int);
        }
    }
    if !help && cargo_args.len() == 0 {
        let b: &'static str = "build";
        cargo_args.push(b.to_owned());
        assert(string_views(cargo_args@) =~= seq!["build"@]);
    }
    let toolchain = if stable { "stable".to_owned() } else { "nightly".to_owned() };
    CliConfig { toolchain, runtime, help, cargo_args, prog_args }
}

/// Once help is asked for, later arguments change nothing.
proof fn lemma_scan_help_stays(args: Seq<Seq<char>>, k: int)
    requires
        0 <= k <= args.len(),
        scan_all(args.take(k)).help,
    ensures
        scan_all(args) == scan_all(args.take(k)),
    decreases args.len() - k,
{
    if k < args.len() {
        assert(args.take(k + 1).drop_last() =~= args.take(k));
        lemma_scan_help_stays(args, k + 1);
    } else {
        assert(args.take(k) =~= args);
    }
}

/// The driver stops for help exactly when one of its arguments before any
/// `--` is `-h` or `--help`; while it has not, it has seen `--` exactly
/// when one of its arguments is `--`.
pub proof fn lemma_help_asked(args: Seq<Seq<char>>)
    ensures
        scan_all(args).help <==> exists|i: int| 0 <= i < args.len() && (#[trigger] args[i] == "-h"@
            || args[i] == "--help"@) && forall|j: int| 0 <= j < i ==> args[j] != "--"@,
        !scan_all(args).help ==> (scan_all(args).saw_dd <==> exists|j: int| 0 <= j < args.len() && #[trigger] args[j] == "--"@),
    decreases args.len(),
{
    reveal_strlit("-h");
    reveal_strlit("--help");
    reveal_strlit("--");
    reveal_strlit("--stable");
    reveal_strlit("--nightly");
    reveal_strlit("--runtime");
    if args.len() > 0 {
        let pre = args.drop_last();
        let a = args.last();
        lemma_help_asked(pre);
        let st = scan_all(pre);
        let n = args.len() - 1;
        assert(args[n] == a);
        assert(args.drop_last() == pre);
        assert(scan_all(args) == scan_step(st, a));
        assert("--stable"@.len() == 8 && "--nightly"@.len() == 9 && "--runtime"@.len() == 9);
        assert("-h"@.len() == 2 && "--help"@.len() == 6 && "--"@.len() == 2);
        assert("-h"@[1] == 'h' && "--"@[1] == '-');
        assert forall|j: int| 0 <= j < n implies #[trigger] args[j] == pre[j] by {}
        if st.help {
            let i = choose|i: int| 0 <= i < pre.len() && (#[trigger] pre[i] == "-h"@ || pre[i] == "--help"@)
                && forall|j: int| 0 <= j < i ==> pre[j] != "--"@;
            assert(args[i] == pre[i]);
        } else if st.saw_dd {
            let d = choose|d: int| 0 <= d < pre.len() && #[trigger] pre[d] == "--"@;
            assert(args[d] == "--"@);
            if exists|i: int| 0 <= i < args.len() && (#[trigger] args[i] == "-h"@ || args[i] == "--help"@)
                && forall|j: int| 0 <= j < i ==> args[j] != "--"@ {
                let i = choose|i: int| 0 <= i < args.len() && (#[trigger] args[i] == "-h"@ || args[i] == "--help"@)
                    && forall|j: int| 0 <= j < i ==> args[j] != "--"@;
                if i < n {
                    assert(pre[i] == args[i]);
                    assert(forall|j: int| 0 <= j < i ==> pre[j] != "--"@);
                } else {
                    assert(args[d] != "--"@);
                }
            }
        } else {
            assert(forall|j: int| 0 <= j < n ==> pre[j] != "--"@);
            if exists|i: int| 0 <= i < args.len() && (#[trigger] args[i] == "-h"@ || args[i] == "--help"@)
                && forall|j: int| 0 <= j < i ==> args[j] != "--"@ {
                let i = choose|i: int| 0 <= i < args.len() && (#[trigger] args[i] == "-h"@ || args[i] == "--help"@)
                    && forall|j: int| 0 <= j < i ==> args[j] != "--"@;
                if i < n {
                    assert(pre[i] == args[i]);
                    assert(forall|j: int| 0 <= j < i ==> pre[j] != "--"@);
                }
            }
            if a == "-h"@ || a == "--help"@ {
                assert(forall|j: int| 0 <= j < n ==> args[j] != "--"@);
            }
            if exists|j: int| 0 <= j < args.len() && #[trigger] args[j] == "--"@ {
                let j = choose|j: int| 0 <= j < args.len() && #[trigger] args[j] == "--"@;
                if j < n {
                    assert(pre[j] == "--"@);
                }
            }
        }
    }
}

/// What one more argument does to the scan. Before `--`: `--stable` picks
/// the stable toolchain and the runtime mode, `--nightly` the nightly
/// toolchain, `--runtime` the runtime mode, `--` starts the program's
/// arguments (and is one of them), and any other argument that is not a
/// help flag is a cargo argument; none of them changes the other settings.
/// From `--` on every argument, flags included, goes to the program. Once
/// help was asked for, nothing changes.
pub proof fn lemma_cli_argument(args: Seq<Seq<char>>, a: Seq<char>)
    ensures
        ({
            let st = scan_all(args);
            let nx = scan_all(args.push(a));
            &&& st.help ==> nx == st
            &&& !st.help && st.saw_dd ==> nx.prog_args == st.prog_args.push(a) && nx.cargo_args == st.cargo_args
                && nx.stable == st.stable && nx.runtime == st.runtime && !nx.help && nx.saw_dd
            &&& !st.help && !st.saw_dd && a == "--stable"@ ==> nx.stable && nx.runtime && nx.cargo_args
                == st.cargo_args && nx.prog_args == st.prog_args && !nx.saw_dd && !nx.help
            &&& !st.help && !st.saw_dd && a == "--nightly"@ ==> !nx.stable && nx.runtime == st.runtime
                && nx.cargo_args == st.cargo_args && nx.prog_args == st.prog_args && !nx.saw_dd && !nx.help
            &&& !st.help && !st.saw_dd && a == "--runtime"@ ==> nx.runtime && nx.stable == st.stable
                && nx.cargo_args == st.cargo_args && nx.prog_args == st.prog_args && !nx.saw_dd && !nx.help
            &&& !st.help && !st.saw_dd && a == "--"@ ==> nx.saw_dd && nx.prog_args == st.prog_args.push(a)
                && nx.cargo_args == st.cargo_args && nx.stable == st.stable && nx.runtime == st.runtime && !nx.help
            &&& !st.help && !st.saw_dd && a != "--stable"@ && a != "--nightly"@ && a != "--runtime"@ && a != "--"@
                && a != "-h"@ && a != "--help"@ ==> nx.cargo_args == st.cargo_args.push(a) && nx.prog_args
                == st.prog_args && nx.stable == st.stable && nx.runtime == st.runtime && !nx.saw_dd && !nx.help
        }),
{
    reveal_strlit("-h");
    reveal_strlit("--help");
    reveal_strlit("--");
    reveal_strlit("--stable");
    reveal_strlit("--nightly");
    reveal_strlit("--runtime");
    assert(args.push(a).drop_last() == args);
    assert(args.push(a).last() == a);
    assert(scan_all(args.push(a)) == scan_step(scan_all(args), a));
    assert("--stable"@.len() == 8 && "--nightly"@.len() == 9 && "--runtime"@.len() == 9);
    assert("-h"@.len() == 2 && "--help"@.len() == 6 && "--"@.len() == 2);
    assert("--nightly"@[2] == 'n' && "--runtime"@[2] == 'r');
    assert("-h"@[1] == 'h' && "--"@[1] == '-');
}

/// Whether the host triple is one the driver supports (x86-64 Linux).
pub open spec fn host_supported_spec(h: Seq<char>) -> bool {
    h.len() >= 6 && h.take(6) == "x86_64"@ && exists|i: int| 0 <= i && i + 5 <= h.len() && #[trigger] h.subrange(i, i + 5) == "linux"@
}

/// Whether the driver supports host `h`: an x86-64 Linux triple.
pub fn host_supported(h: &str) -> (b: bool)
    ensures
        b == host_supported_spec(h@),
{
    proof {
        reveal_strlit("x86_64");
        reveal_strlit("linux");
    }
    let v = str_chars(h);
    let n = v.len();
    if n < 6 {
        return false;
    }
    let starts = v[0] == 'x' && v[1] == '8' && v[2] == '6' && v[3] == '_' && v[4] == '6' && v[5] == '4';
    if !starts {
        proof {
            if h@.take(6) == "x86_64"@ {
                assert(h@.take(6)[0] == 'x' && h@.take(6)[1] == '8' && h@.take(6)[2] == '6');
                assert(h@.take(6)[3] == '_' && h@.take(6)[4] == '6' && h@.take(6)[5] == '4');
            }
        }
        return false;
    }
    assert(h@.take(6) =~= "x86_64"@);
    let mut i: usize = 0;
    while i <= n - 5
        invariant
            i <= n,
            h@.take(6) == "x86_64"@,
            n == v@.len(),
            v@ == h@,
            n >= 6,
            forall|j: int| 0 <= j < i ==> #[trigger] h@.subrange(j, j + 5) != "linux"@,
        decreases n - i,
    {
        proof { reveal_strlit("linux"); }
        if v[i] == 'l' && v[i + 1] == 'i' && v[i + 2] == 'n' && v[i + 3] == 'u' && v[i + 4] == 'x' {
            assert(h@.subrange(i as int, i + 5) =~= "linux"@);
            return true;
        }
        proof {
            if h@.subrange(i as int, i + 5) == "linux"@ {
                assert(h@.subrange(i as int, i + 5)[0] == 'l');
                assert(h@.subrange(i as int, i + 5)[1] == 'i');
                assert(h@.subrange(i as int, i + 5)[2] == 'n');
                assert(h@.subrange(i as int, i + 5)[3] == 'u');
                assert(h@.subrange(i as int, i + 5)[4] == 'x');
            }
        }
        i += 1;
    }
    false
}

/// The cache directory: `$XDG_CACHE_HOME/cargo-fullrust` when that is set
/// and non-empty, else `$HOME/.cache/cargo-fullrust` when `HOME` is set,
/// else `<temp>/cargo-fullrust`.
pub fn cache_dir(xdg: Option<&str>, home: Option<&str>, temp: &str) -> (p: crate::path::PathBuf)
    ensures
        match xdg {
            Some(d) if d@.len() > 0 => p@ == crate::path::push_spec(d@, "cargo-fullrust"@),
            _ => match home {
                Some(h) => p@ == crate::path::push_spec(h@, ".cache/cargo-fullrust"@),
                None => p@ == crate::path::push_spec(temp@, "cargo-fullrust"@),
            },
        },
{
    match xdg {
        Some(d) => {
            if d.unicode_len() > 0 {
                return crate::path::Path::new(d).join("cargo-fullrust");
            }
        },
        None => {},
    }
    match home {
        Some(h) => crate::path::Path::new(h).join(".cache/cargo-fullrust"),
        None => crate::path::Path::new(temp).join("cargo-fullrust"),
    }
}


/// The file stem of the target specification the driver builds for.
pub open spec fn target_stem() -> Seq<char> {
    "x86_64-fullrust-linux"@
}

/// The name of a per-target cargo variable: `CARGO_TARGET_<TRIPLE>_<what>`.
pub open spec fn target_var(triple: Seq<char>, what: Seq<char>) -> Seq<char> {
    "CARGO_TARGET_"@ + env_triple_spec(triple) + "_"@ + what
}

/// Link statically.
pub open spec fn static_flags() -> Seq<char> {
    "-C link-args=-static"@
}

/// The flags for the precompiled standard library of a stable toolchain.
pub open spec fn stable_flags() -> Seq<char> {
    "-C relocation-model=static -C linker-flavor=ld -C link-args=-static -C panic=abort"@
}

/// The environment the driver runs cargo with.
pub open spec fn plan_env(runtime: bool, nightly: bool, host: Seq<char>, lld: Seq<char>, toolchain: Seq<char>, sysroot: Seq<char>) -> Seq<(Seq<char>, Seq<char>)> {
    let base = seq![("RUSTUP_TOOLCHAIN"@, toolchain), (target_var(target_stem(), "LINKER"@), lld)];
    if runtime {
        if nightly {
            base.push((target_var(target_stem(), "RUSTFLAGS"@), static_flags()))
        } else {
            base.push((target_var(host, "LINKER"@), lld)).push((target_var(host, "RUSTFLAGS"@), stable_flags()))
        }
    } else {
        base.push((target_var(target_stem(), "RUSTFLAGS"@), "--sysroot "@ + sysroot + " -C link-args=-static"@))
    }
}

/// The arguments the driver adds after the user's cargo arguments.
pub open spec fn plan_extra(runtime: bool, nightly: bool, host: Seq<char>, target_path: Seq<char>) -> Seq<Seq<char>> {
    if runtime {
        if nightly {
            seq!["--target"@, target_path, "-Zbuild-std=core,alloc,compiler_builtins"@, "-Zjson-target-spec"@]
        } else {
            seq!["--target"@, host]
        }
    } else {
        seq!["--target"@, target_path, "-Zjson-target-spec"@]
    }
}

/// Every plan runs cargo with the chosen toolchain and the given linker for
/// the target, passes `--target` followed by the host triple for a
/// runtime crate on stable (and nothing more) and by the target
/// specification otherwise, ending with the target-specification flag; each
/// environment name is a toolchain or per-target
/// cargo variable.
pub proof fn lemma_plan_shape(runtime: bool, nightly: bool, host: Seq<char>, lld: Seq<char>, toolchain: Seq<char>,
    sysroot: Seq<char>, target_path: Seq<char>)
    ensures
        plan_env(runtime, nightly, host, lld, toolchain, sysroot)[0] == ("RUSTUP_TOOLCHAIN"@, toolchain),
        plan_env(runtime, nightly, host, lld, toolchain, sysroot)[1] == (target_var(target_stem(), "LINKER"@), lld),
        forall|i: int| 2 <= i < plan_env(runtime, nightly, host, lld, toolchain, sysroot).len()
            ==> (#[trigger] plan_env(runtime, nightly, host, lld, toolchain, sysroot)[i]).0.take(13) == "CARGO_TARGET_"@,
        plan_extra(runtime, nightly, host, target_path).len() >= 2,
        plan_extra(runtime, nightly, host, target_path)[0] == "--target"@,
        plan_extra(runtime, nightly, host, target_path)[1] == if runtime && !nightly { host } else { target_path },
        !(runtime && !nightly) ==> plan_extra(runtime, nightly, host, target_path).last() == "-Zjson-target-spec"@,
        runtime && !nightly ==> plan_extra(runtime, nightly, host, target_path).len() == 2,
{
    reveal_strlit("-Zjson-target-spec");
    reveal_strlit("--target");
    reveal_strlit("-Zbuild-std=core,alloc,compiler_builtins");
    reveal_strlit("CARGO_TARGET_");
    let env = plan_env(runtime, nightly, host, lld, toolchain, sysroot);
    assert forall|i: int| 2 <= i < env.len() implies (#[trigger] env[i]).0.take(13) == "CARGO_TARGET_"@ by {
        let v = env[i].0;
        assert(v.take(13) =~= "CARGO_TARGET_"@);
    }
}

/// How to run cargo: the environment to add and the arguments.
#[derive(Debug)]
pub struct Invocation {
    pub env: Vec<(String, String)>,
    pub args: Vec<String>,
}

/// The views of a list of environment pairs.
pub open spec fn pair_views(v: Seq<(String, String)>) -> Seq<(Seq<char>, Seq<char>)> {
    Seq::new(v.len(), |i: int| (v[i].0@, v[i].1@))
}

/// `a`, `b` and `c` one after the other.
fn concat3(a: &str, b: &str, c: &str) -> (s: String)
    ensures
        s@ == a@ + b@ + c@,
{
    let mut v = str_chars(a);
    let vb = str_chars(b);
    let vc = str_chars(c);
    let mut i: usize = 0;
    while i < vb.len()
        invariant
            i <= vb@.len(),
            v@ == a@ + vb@.take(i as int),
        decreases vb@.len() - i,
    {
        v.push(vb[i]);
        i += 1;
        assert(v@ =~= a@ + vb@.take(i as int));
    }
    assert(vb@.take(vb@.len() as int) =~= vb@);
    assert(vb@ == b@);
    let ghost ab = v@;
    let mut j: usize = 0;
    while j < vc.len()
        invariant
            j <= vc@.len(),
            v@ == ab + vc@.take(j as int),
        decreases vc@.len() - j,
    {
        v.push(vc[j]);
        j += 1;
        assert(v@ =~= ab + vc@.take(j as int));
    }
    assert(vc@.take(vc@.len() as int) =~= vc@);
    string_from_chars(&v)
}

/// `CARGO_TARGET_<TRIPLE>_<what>` for `triple`.
fn target_var_of(triple: &str, what: &str) -> (s: String)
    ensures
        s@ == target_var(triple@, what@),
{
    let t = env_triple_of(triple);
    let head = concat3("CARGO_TARGET_", t.as_str(), "_");
    let s = concat3(head.as_str(), what, "");
    proof {
        reveal_strlit("");
        assert(""@ =~= Seq::<char>::empty());
    }
    assert(s@ =~= target_var(triple@, what@));
    s
}

/// Why the driver cannot run in the mode asked for: building against the
/// generated sysroot needs a nightly toolchain.
pub fn mode_error(c: &CliConfig) -> (r: Option<&'static str>)
    ensures
        r is Some <==> (!c.runtime && c.toolchain@ != "nightly"@),
{
    if !c.runtime && !str_eq(c.toolchain.as_str(), "nightly") {
        Some("zero-touch mode requires nightly (use --stable --runtime for the precompiled path)")
    } else {
        None
    }
}

/// The environment and arguments to run cargo with: the toolchain and the
/// linker for the target; then, for a crate on the runtime, static linking
/// with a rebuilt standard library on nightly or the host's precompiled one
/// on stable, and otherwise the generated `sysroot`; the arguments are the
/// user's cargo arguments, the target and unstable flags, and the program's
/// arguments.
pub fn plan_invocation(c: &CliConfig, host: &str, lld: &str, target_path: &str, sysroot: &str) -> (r: Invocation)
    ensures
        ({
            let nightly = c.toolchain@ == "nightly"@;
            &&& pair_views(r.env@) == plan_env(c.runtime, nightly, host@, lld@, c.toolchain@, sysroot@)
            &&& string_views(r.args@) == string_views(c.cargo_args@) + plan_extra(c.runtime, nightly, host@, target_path@)
                + string_views(c.prog_args@)
        }),
{
    proof {
        reveal_strlit("x86_64-fullrust-linux");
        reveal_strlit("");
    }
    let stem: &'static str = "x86_64-fullrust-linux";
    let nightly = str_eq(c.toolchain.as_str(), "nightly");
    let mut env: Vec<(String, String)> = Vec::new();
    env.push(("RUSTUP_TOOLCHAIN".to_owned(), c.toolchain.as_str().to_owned()));
    env.push((target_var_of(stem, "LINKER"), lld.to_owned()));
    let mut extra: Vec<String> = Vec::new();
    extra.push("--target".to_owned());
    if c.runtime {
        if nightly {
            env.push((target_var_of(stem, "RUSTFLAGS"), "-C link-args=-static".to_owned()));
            extra.push(target_path.to_owned());
            extra.push("-Zbuild-std=core,alloc,compiler_builtins".to_owned());
            extra.push("-Zjson-target-spec".to_owned());
        } else {
            env.push((target_var_of(host, "LINKER"), lld.to_owned()));
            env.push((
                target_var_of(host, "RUSTFLAGS"),
                "-C relocation-model=static -C linker-flavor=ld -C link-args=-static -C panic=abort".to_owned(),
            ));
            extra.push(host.to_owned());
        }
    } else {
        let flags = concat3("--sysroot ", sysroot, " -C link-args=-static");
        env.push((target_var_of(stem, "RUSTFLAGS"), flags));
        extra.push(target_path.to_owned());
        extra.push("-Zjson-target-spec".to_owned());
    }
    assert(pair_views(env@) =~= plan_env(c.runtime, nightly, host@, lld@, c.toolchain@, sysroot@));
    assert(string_views(extra@) =~= plan_extra(c.runtime, nightly, host@, target_path@));
    let mut args: Vec<String> = Vec::new();
    let mut i: usize = 0;
    while i < c.cargo_args.len()
        invariant
            i <= c.cargo_args@.len(),
            args@.len() == i,
            string_views(args@) == string_views(c.cargo_args@).take(i as int),
        decreases c.cargo_args@.len() - i,
    {
        args.push(c.cargo_args[i].as_str().to_owned());
        i += 1;
        assert(string_views(args@) =~= string_views(c.cargo_args@).take(i as int));
    }
    let ghost a1 = string_views(args@);
    assert(a1 =~= string_views(c.cargo_args@));
    let mut j: usize = 0;
    while j < extra.len()
        invariant
            j <= extra@.len(),
            args@.len() == a1.len() + j,
            string_views(args@) == a1 + string_views(extra@).take(j as int),
        decreases extra@.len() - j,
    {
        let ghost before = args@;
        args.push(extra[j].as_str().to_owned());
        proof {
            assert forall|m: int| 0 <= m < args@.len() implies #[trigger] string_views(args@)[m] == (a1 + string_views(extra@).take(j + 1))[m] by {
                if m < before.len() {
                    assert(string_views(before)[m] == string_views(args@)[m]);
                }
            }
        }
        j += 1;
        assert(string_views(args@) =~= a1 + string_views(extra@).take(j as int));
    }
    let ghost a2 = string_views(args@);
    assert(a2 =~= a1 + string_views(extra@));
    let mut k: usize = 0;
    while k < c.prog_args.len()
        invariant
            k <= c.prog_args@.len(),
            args@.len() == a2.len() + k,
            string_views(args@) == a2 + string_views(c.prog_args@).take(k as int),
        decreases c.prog_args@.len() - k,
    {
        let ghost before = args@;
        args.push(c.prog_args[k].as_str().to_owned());
        proof {
            assert forall|m: int| 0 <= m < args@.len() implies #[trigger] string_views(args@)[m] == (a2 + string_views(c.prog_args@).take(k + 1))[m] by {
                if m < before.len() {
                    assert(string_views(before)[m] == string_views(args@)[m]);
                }
            }
        }
        k += 1;
        assert(string_views(args@) =~= a2 + string_views(c.prog_args@).take(k as int));
    }
    assert(string_views(args@) =~= a2 + string_views(c.prog_args@));
    Invocation { env, args }
}

} // verus!
