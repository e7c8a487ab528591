//! The Unix extension traits: raw file descriptors, and the byte view of
//! OS strings.
use vstd::prelude::*;
use vstd::string::StringSliceAdditionalSpecFns;
use vstd::string::StrSliceExecFns;
use vstd::utf8::{valid_utf8, decode_utf8, encode_utf8};
use crate::env::decode_str;
use crate::ffi::{OsStr, OsString};

verus! {

/// A raw file descriptor.
pub type RawFd = i32;

/// Something that owns or borrows a file descriptor.
pub trait AsRawFd {
    /// The descriptor.
    fn as_raw_fd(&self) -> RawFd;
}

/// Something that can give up the file descriptor it owns.
pub trait IntoRawFd {
    /// Give up the descriptor without closing it.
    fn into_raw_fd(self) -> RawFd;
}

/// The bytes of an OS string.
pub trait OsStrExt {
    /// The bytes.
    fn as_bytes(&self) -> &[u8];
}

impl<'a> OsStrExt for OsStr<'a> {
    /// The UTF-8 bytes of the string.
    fn as_bytes(&self) -> (b: &[u8])
        ensures
            b@ == self.inner.spec_bytes(),
    {
        self.inner.as_bytes()
    }
}

/// Converting between OS strings and byte vectors.
pub trait OsStringExt: Sized {
    /// An OS string from bytes.
    fn from_vec(vec: Vec<u8>) -> Self;

    /// The bytes of the OS string.
    fn into_vec(self) -> Vec<u8>;
}

impl OsStringExt for OsString {
    /// The string the bytes spell when they are valid UTF-8; the empty
    /// string when they are not.
    fn from_vec(vec: Vec<u8>) -> (s: OsString)
        ensures
            valid_utf8(vec@) ==> s@ == decode_utf8(vec@),
            !valid_utf8(vec@) ==> s@ == Seq::<char>::empty(),
    {
        match decode_str(vec.as_slice()) {
            Some(t) => OsString::from(t),
            None => OsString::new(),
        }
    }

    /// The UTF-8 bytes of the string.
    fn into_vec(self) -> (v: Vec<u8>)
        ensures
            v@ == encode_utf8(self@),
    {
        let t = self.inner.as_str();
        t.as_bytes_vec()
    }
}

} // verus!
