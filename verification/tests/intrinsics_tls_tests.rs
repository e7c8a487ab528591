use fullrust::intrinsics::{bcmp, compare_prefix, memcmp, memcpy, memmove, memset, strlen};
use fullrust::tls_layout::{align_up, block_sizes, find_tls_template, parse_auxv, place_block, PhdrInfo, TlsTemplate};

#[test]
fn memory_copies() {
    let mut d = [0u8; 5];
    memcpy(&mut d, b"abcde", 3);
    assert_eq!(&d, b"abc\0\0");
    let mut b = *b"123456";
    memmove(&mut b, 2, 0, 3);
    assert_eq!(&b, b"121236");
    let mut c = *b"123456";
    memmove(&mut c, 0, 2, 3);
    assert_eq!(&c, b"345456");
    let mut s = [1u8; 4];
    memset(&mut s, 0x1ff, 3);
    assert_eq!(s, [0xff, 0xff, 0xff, 1]);
}

#[test]
fn memory_comparisons() {
    assert_eq!(memcmp(b"abc", b"abd", 3), -1);
    assert_eq!(memcmp(b"abd", b"abc", 3), 1);
    assert_eq!(memcmp(b"abc", b"abd", 2), 0);
    assert_eq!(memcmp(b"\x00", b"\xff", 1), -255);
    assert_eq!(bcmp(b"xy", b"xz", 2), memcmp(b"xy", b"xz", 2));
    assert_eq!(compare_prefix(b"same", b"same", 4), 0);
    assert_eq!(strlen(b"hello\0world"), 5);
    assert_eq!(strlen(b"\0"), 0);
}

#[test]
fn tls_layout_numbers() {
    assert_eq!(align_up(13, 8), 16);
    assert_eq!(align_up(16, 8), 16);
    assert_eq!(align_up(13, 1), 13);
    assert_eq!(align_up(13, 0), 13);
    let t = TlsTemplate { tpl: 0x1000, filesz: 8, memsz: 20, align: 8 };
    assert_eq!(block_sizes(&t), (32, 4096));
    let big = TlsTemplate { tpl: 0, filesz: 0, memsz: 4000, align: 64 };
    assert_eq!(block_sizes(&big), (4032, 8192));
    assert_eq!(place_block(0x7000_0001, 32, 16), (0x7000_0010, 0x7000_0030));
}

#[test]
fn tls_header_search() {
    let load = PhdrInfo { p_type: 1, p_vaddr: 0x400000, p_filesz: 100, p_memsz: 100, p_align: 4096 };
    let tls = PhdrInfo { p_type: 7, p_vaddr: 0x401000, p_filesz: 8, p_memsz: 24, p_align: 0 };
    assert_eq!(
        find_tls_template(&[load, tls]),
        Some(TlsTemplate { tpl: 0x401000, filesz: 8, memsz: 24, align: 1 })
    );
    assert_eq!(find_tls_template(&[load]), None);
}

#[test]
fn auxiliary_vector_walk() {
    let stack: [usize; 14] = [2, 0xa0, 0xa1, 0, 0xe0, 0, 3, 0x400040, 4, 56, 5, 9, 0, 0];
    assert_eq!(parse_auxv(&stack), Some((0x400040, 56, 9)));
    let partial: [usize; 8] = [0, 0, 0, 5, 3, 0, 0, 0];
    assert_eq!(parse_auxv(&partial), Some((0, 0, 3)));
}
