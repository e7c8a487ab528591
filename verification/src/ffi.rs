//! UTF-8-backed OS strings: a borrowed `OsStr` and an owned `OsString`.
use vstd::prelude::*;
use vstd::string::StringSliceAdditionalSpecFns;
use vstd::string::StringExecFns;

verus! {

/// A borrowed OS string (UTF-8 only).
#[derive(Clone, Copy, Debug)]
pub struct OsStr<'a> {
    pub inner: &'a str,
}

/// An owned OS string (UTF-8 only).
#[derive(Clone, Debug)]
pub struct OsString {
    pub inner: String,
}

impl<'a> View for OsStr<'a> {
    type V = Seq<char>;

    open spec fn view(&self) -> Seq<char> {
        self.inner@
    }
}

impl View for OsString {
    type V = Seq<char>;

    open spec fn view(&self) -> Seq<char> {
        self.inner@
    }
}

impl<'a> OsStr<'a> {
    /// Borrow `s` as an OS string.
    pub fn new(s: &'a str) -> (r: OsStr<'a>)
        ensures
            r@ == s@,
    {
        OsStr { inner: s }
    }

    /// The string, which is always valid UTF-8 here.
    pub fn to_str(&self) -> (r: Option<&'a str>)
        ensures
            r matches Some(t) && t@ == self@,
    {
        Some(self.inner)
    }

    /// The string; no replacement is ever needed.
    pub fn to_string_lossy(&self) -> (r: &'a str)
        ensures
            r@ == self@,
    {
        self.inner
    }

    /// An owned copy.
    pub fn to_os_string(&self) -> (r: OsString)
        ensures
            r@ == self@,
    {
        OsString { inner: self.inner.to_owned() }
    }

    /// Whether the string is empty.
    pub fn is_empty(&self) -> (b: bool)
        ensures
            b == (self@.len() == 0),
    {
        self.inner.is_empty()
    }

    /// The length in bytes.
    pub fn len(&self) -> (n: usize)
        ensures
            n == self.inner.spec_bytes().len() as usize,
    {
        self.inner.len()
    }

    /// The UTF-8 bytes of the string.
    pub fn as_bytes(&self) -> (b: &'a [u8])
        ensures
            b@ == self.inner.spec_bytes(),
    {
        self.inner.as_bytes()
    }
}

impl OsString {
    /// An empty OS string.
    pub fn new() -> (r: OsString)
        ensures
            r@ == Seq::<char>::empty(),
    {
        OsString { inner: String::new() }
    }

    /// An OS string holding a copy of `s`.
    pub fn from(s: &str) -> (r: OsString)
        ensures
            r@ == s@,
    {
        OsString { inner: s.to_owned() }
    }

    /// An OS string taking ownership of `s`.
    pub fn from_string(s: String) -> (r: OsString)
        ensures
            r@ == s@,
    {
        OsString { inner: s }
    }

    /// Borrow as an `OsStr`.
    pub fn as_os_str(&self) -> (r: OsStr<'_>)
        ensures
            r@ == self@,
    {
        OsStr { inner: self.inner.as_str() }
    }

    /// The string; conversion never fails here.
    pub fn into_string(self) -> (r: Result<String, OsString>)
        ensures
            r matches Ok(s) && s@ == self@,
    {
        Ok(self.inner)
    }

    /// The string, which is always valid UTF-8 here.
    pub fn to_str(&self) -> (r: Option<&str>)
        ensures
            r matches Some(t) && t@ == self@,
    {
        Some(self.inner.as_str())
    }

    /// Append `s`.
    pub fn push(&mut self, s: &str)
        ensures
            final(self)@ == old(self)@ + s@,
    {
        self.inner.append(s);
    }
}

} // verus!
