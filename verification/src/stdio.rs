//! The standard streams and the line reading that `Stdin` does on them.
use vstd::prelude::*;
use vstd::utf8::{valid_utf8, decode_utf8};
use vstd::string::StringExecFns;
use crate::env::decode_str;
use crate::io::{Read, delim_only_last, lemma_prefix_append};
use crate::io_error::{Error, ErrorKind};

verus! {

/// The process's standard input (descriptor 0).
pub struct Stdin;

/// The process's standard output (descriptor 1).
pub struct Stdout;

/// The process's standard error (descriptor 2).
pub struct Stderr;

/// Exclusive access to standard input.
pub struct StdinLock;

/// Exclusive access to standard output.
pub struct StdoutLock;

/// Exclusive access to standard error.
pub struct StderrLock;

/// A handle to standard input.
pub fn stdin() -> (s: Stdin)
    ensures
        s == Stdin,
{
    Stdin
}

/// A handle to standard output.
pub fn stdout() -> (s: Stdout)
    ensures
        s == Stdout,
{
    Stdout
}

/// A handle to standard error.
pub fn stderr() -> (s: Stderr)
    ensures
        s == Stderr,
{
    Stderr
}

impl Stdin {
    /// Lock standard input.
    pub fn lock(&self) -> (l: StdinLock)
        ensures
            l == StdinLock,
    {
        StdinLock
    }
}

impl Stdout {
    /// Lock standard output.
    pub fn lock(&self) -> (l: StdoutLock)
        ensures
            l == StdoutLock,
    {
        StdoutLock
    }
}

impl Stderr {
    /// Lock standard error.
    pub fn lock(&self) -> (l: StderrLock)
        ensures
            l == StderrLock,
    {
        StderrLock
    }
}

/// Read one line from `reader` a byte at a time, so that nothing past the
/// newline is taken from it, and append it to `out`. The line ends after
/// its newline or at the end of the stream; a failed read ends it with that
/// error, and bytes that are not valid UTF-8 are `InvalidData`. Either way
/// `out` is left as it was.
pub fn read_line_from<R: Read>(reader: &mut R, out: &mut String) -> (r: Result<usize, Error>)
    requires
        old(reader).inv(),
    ensures
        final(reader).inv(),
        old(reader).delivered().is_prefix_of(final(reader).delivered()),
        delim_only_last(final(reader).delivered().skip(old(reader).delivered().len() as int), 10u8),
        match r {
            Ok(n) => {
                let got = final(reader).delivered().skip(old(reader).delivered().len() as int);
                &&& valid_utf8(got)
                &&& n == got.len()
                &&& final(out)@ == old(out)@ + decode_utf8(got)
            },
            Err(e) => {
                let got = final(reader).delivered().skip(old(reader).delivered().len() as int);
                &&& final(out)@ == old(out)@
                &&& (e.kind_spec() == ErrorKind::InvalidData && !valid_utf8(got))
                    || final(reader).reported() == Some(e)
            },
        },
        r is Ok ==> ({
            let got = final(reader).delivered().skip(old(reader).delivered().len() as int);
            (got.len() > 0 && got.last() == 10u8) || final(reader).at_end()
        }),
{
    let mut bytes: Vec<u8> = Vec::new();
    let ghost d0 = reader.delivered();
    loop
        invariant_except_break
            forall|j: int| 0 <= j < bytes@.len() ==> #[trigger] bytes@[j] != 10u8,
        invariant
            reader.inv(),
            d0 == old(reader).delivered(),
            reader.delivered() == d0 + bytes@,
            out@ == old(out)@,
        ensures
            reader.inv(),
            reader.delivered() == d0 + bytes@,
            out@ == old(out)@,
            delim_only_last(bytes@, 10u8),
            (bytes@.len() > 0 && bytes@.last() == 10u8) || reader.at_end(),
        decreases reader.budget(),
    {
        let mut b = [0u8; 1];
        let ghost before = bytes@;
        match reader.read(&mut b) {
            Ok(0) => {
                break;
            },
            Ok(_) => {
                bytes.push(b[0]);
                assert(b@.take(1) =~= seq![b@[0]]);
                assert(reader.delivered() =~= d0 + bytes@);
                if b[0] == 10u8 {
                    break;
                }
            },
            Err(e) => {
                proof {
                    lemma_prefix_append(d0, bytes@);
                    assert(reader.delivered().skip(d0.len() as int) =~= bytes@);
                }
                return Err(e);
            },
        }
    }
    proof {
        lemma_prefix_append(d0, bytes@);
        assert(reader.delivered().skip(d0.len() as int) =~= bytes@);
    }
    let n = bytes.len();
    match decode_str(bytes.as_slice()) {
        Some(s) => {
            out.append(s);
            Ok(n)
        },
        None => Err(Error::from_kind(ErrorKind::InvalidData)),
    }
}

} // verus!
