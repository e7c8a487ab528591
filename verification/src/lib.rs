//! A verified core for a libc-free Rust runtime and standard-library subset:
//! raw-syscall result decoding, I/O errors and buffers, paths, network
//! addresses, DNS wire format, allocator bookkeeping and more.
use vstd::prelude::*;

pub mod syscall;
pub mod io_error;
pub mod net_addr;
pub mod bytes_parse;
pub mod net_parse;
pub mod dns;
pub mod text;
pub mod ffi;
pub mod path;
pub mod time;
pub mod fs_meta;
pub mod allocator;
pub mod alloc_laws;
pub mod utf8;
pub mod env;
pub mod sync_state;
pub mod thread_info;
pub mod intrinsics;
pub mod tls_layout;
pub mod cli;
pub mod lines;
pub mod resolver;
pub mod io;
pub mod io_buf;
pub mod stdio;
pub mod text_fmt;
pub mod text_laws;
pub mod fs_ops;
pub mod sock_opts;
pub mod os_ext;
pub mod process;
pub mod fd;

verus! {
} // verus!
