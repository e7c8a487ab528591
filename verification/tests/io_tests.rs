use fullrust::io::{copy, BufRead, Read, Write};
use fullrust::io_buf::{BufReader, BufWriter, Cursor, DEFAULT_BUF_SIZE};
use fullrust::io_error::{Error, ErrorKind};
use fullrust::stdio::read_line_from;

/// A reader that hands out at most `chunk` bytes per call and fails with
/// `Interrupted` on every call listed in `interrupts`.
struct Chunked {
    data: Vec<u8>,
    pos: usize,
    chunk: usize,
    calls: usize,
    interrupts: Vec<usize>,
}

impl Chunked {
    fn new(data: &[u8], chunk: usize, interrupts: &[usize]) -> Chunked {
        Chunked { data: data.to_vec(), pos: 0, chunk, calls: 0, interrupts: interrupts.to_vec() }
    }
}

impl Read for Chunked {
    fn read(&mut self, buf: &mut [u8]) -> Result<usize, Error> {
        self.calls += 1;
        if self.interrupts.contains(&self.calls) {
            return Err(Error::from_kind(ErrorKind::Interrupted));
        }
        let n = buf.len().min(self.chunk).min(self.data.len() - self.pos);
        buf[..n].copy_from_slice(&self.data[self.pos..self.pos + n]);
        self.pos += n;
        Ok(n)
    }
}

/// A writer that takes at most `chunk` bytes per call.
struct Trickle {
    out: Vec<u8>,
    chunk: usize,
}

impl Write for Trickle {
    fn write(&mut self, buf: &[u8]) -> Result<usize, Error> {
        let n = buf.len().min(self.chunk);
        self.out.extend_from_slice(&buf[..n]);
        Ok(n)
    }
    fn flush(&mut self) -> Result<(), Error> {
        Ok(())
    }
}

#[test]
fn cursor_reads_from_position() {
    let mut c = Cursor::new(b"hello world".to_vec());
    let mut buf = [0u8; 5];
    assert_eq!(c.read(&mut buf).ok(), Some(5));
    assert_eq!(&buf, b"hello");
    assert_eq!(c.position(), 5);
    c.set_position(6);
    let mut rest = [0u8; 10];
    assert_eq!(c.read(&mut rest).ok(), Some(5));
    assert_eq!(&rest[..5], b"world");
    assert_eq!(c.read(&mut rest).ok(), Some(0));
    c.set_position(100);
    assert_eq!(c.read(&mut rest).ok(), Some(0));
    assert_eq!(c.get_ref().len(), 11);
}

#[test]
fn cursor_writes_overwrite_and_pad() {
    let mut c = Cursor::new(b"abcdef".to_vec());
    c.set_position(2);
    assert_eq!(c.write(b"XY").ok(), Some(2));
    assert_eq!(c.get_ref().as_slice(), b"abXYef");
    assert_eq!(c.position(), 4);
    c.set_position(8);
    assert_eq!(c.write(b"Z").ok(), Some(1));
    assert_eq!(c.into_inner(), b"abXYef\0\0Z".to_vec());
}

#[test]
fn cursor_write_then_read_back() {
    let mut c = Cursor::new(Vec::new());
    c.write_all(b"payload").ok().unwrap();
    c.set_position(0);
    let mut s = String::new();
    assert_eq!(c.read_to_string(&mut s).ok(), Some(7));
    assert_eq!(s, "payload");
}

#[test]
fn read_exact_retries_and_reports_eof() {
    let mut r = Chunked::new(b"0123456789", 3, &[2]);
    let mut buf = [0u8; 8];
    assert!(r.read_exact(&mut buf).is_ok());
    assert_eq!(&buf, b"01234567");
    let mut more = [0u8; 4];
    let e = r.read_exact(&mut more).err().unwrap();
    assert_eq!(e.kind(), ErrorKind::UnexpectedEof);
}

#[test]
fn read_to_end_collects_everything() {
    let data: Vec<u8> = (0..20000u32).map(|i| (i % 251) as u8).collect();
    let mut r = Chunked::new(&data, 5000, &[1, 3]);
    let mut out = b"pre".to_vec();
    assert_eq!(r.read_to_end(&mut out).ok(), Some(20000));
    assert_eq!(&out[..3], b"pre");
    assert_eq!(&out[3..], data.as_slice());
}

#[test]
fn read_to_string_rejects_bad_utf8() {
    let mut r = Chunked::new(&[b'o', b'k', 0xff], 8, &[]);
    let mut s = String::from("keep");
    let e = r.read_to_string(&mut s).err().unwrap();
    assert_eq!(e.kind(), ErrorKind::InvalidData);
    assert_eq!(s, "keep");
}

#[test]
fn write_all_loops_over_short_writes() {
    let mut w = Trickle { out: Vec::new(), chunk: 3 };
    assert!(w.write_all(b"abcdefgh").is_ok());
    assert_eq!(w.out, b"abcdefgh".to_vec());
    let mut z = Trickle { out: Vec::new(), chunk: 0 };
    assert_eq!(z.write_all(b"x").err().unwrap().kind(), ErrorKind::WriteZero);
    assert!(z.write_all(b"").is_ok());
}

#[test]
fn vec_writer_appends() {
    let mut v = b"a".to_vec();
    assert_eq!(Write::write(&mut v, b"bc").ok(), Some(2));
    assert!(Write::flush(&mut v).is_ok());
    assert_eq!(v, b"abc".to_vec());
}

#[test]
fn copy_moves_every_byte() {
    let data: Vec<u8> = (0..10000u32).map(|i| (i % 7) as u8).collect();
    let mut r = Chunked::new(&data, 3000, &[2]);
    let mut w = Trickle { out: Vec::new(), chunk: 1000 };
    assert_eq!(copy(&mut r, &mut w).ok(), Some(10000));
    assert_eq!(w.out, data);
}

#[test]
fn buf_reader_serves_lines() {
    let mut r = BufReader::with_capacity(4, Chunked::new(b"first\nsecond\nlast", 3, &[]));
    let mut line = String::new();
    assert_eq!(r.read_line(&mut line).ok(), Some(6));
    assert_eq!(line, "first\n");
    let mut bytes = Vec::new();
    assert_eq!(r.read_until(b'\n', &mut bytes).ok(), Some(7));
    assert_eq!(bytes, b"second\n".to_vec());
    let mut tail = String::new();
    assert_eq!(r.read_line(&mut tail).ok(), Some(4));
    assert_eq!(tail, "last");
    assert_eq!(r.read_line(&mut tail).ok(), Some(0));
}

#[test]
fn buf_reader_fill_and_consume() {
    let mut r = BufReader::new(Chunked::new(b"abcdef", 4, &[1]));
    assert_eq!(r.fill_buf().err().unwrap().kind(), ErrorKind::Interrupted);
    assert_eq!(r.fill_buf().ok().map(|b| b.to_vec()), Some(b"abcd".to_vec()));
    r.consume(3);
    assert_eq!(r.fill_buf().ok().map(|b| b.to_vec()), Some(b"d".to_vec()));
    r.consume(10);
    assert_eq!(r.fill_buf().ok().map(|b| b.to_vec()), Some(b"ef".to_vec()));
    let mut out = [0u8; 8];
    assert_eq!(r.read(&mut out).ok(), Some(2));
    assert_eq!(&out[..2], b"ef");
    assert_eq!(r.read(&mut out).ok(), Some(0));
    assert_eq!(r.get_ref().pos, 6);
    assert_eq!(r.into_inner().calls, 4);
}

#[test]
fn buf_reader_large_reads_bypass_the_buffer() {
    let mut r = BufReader::with_capacity(2, Chunked::new(b"xyz", 8, &[]));
    let mut out = [0u8; 4];
    assert_eq!(r.read(&mut out).ok(), Some(3));
    assert_eq!(&out[..3], b"xyz");
    assert_eq!(r.get_mut().calls, 1);
    assert_eq!(BufReader::new(Chunked::new(b"", 1, &[])).buf.len(), DEFAULT_BUF_SIZE);
}

#[test]
fn buf_writer_buffers_until_flushed() {
    let mut w = BufWriter::new(Vec::new());
    assert_eq!(w.write(b"hello ").ok(), Some(6));
    assert_eq!(w.write(b"world").ok(), Some(5));
    assert!(w.get_ref().is_empty());
    assert!(w.flush().is_ok());
    assert_eq!(w.get_ref().as_slice(), b"hello world");
    w.write(b"!").ok().unwrap();
    let inner = w.into_inner().ok().unwrap();
    assert_eq!(inner, b"hello world!".to_vec());
}

#[test]
fn buf_writer_passes_big_writes_through() {
    let mut w = BufWriter::new(Trickle { out: Vec::new(), chunk: usize::MAX });
    w.write(b"ab").ok().unwrap();
    let big = vec![7u8; DEFAULT_BUF_SIZE];
    assert_eq!(w.write(&big).ok(), Some(DEFAULT_BUF_SIZE));
    assert_eq!(w.get_ref().out.len(), 2 + DEFAULT_BUF_SIZE);
    assert_eq!(&w.get_ref().out[..2], b"ab");
    w.get_mut().out.clear();
    assert!(w.buf.is_empty());
}

#[test]
fn line_reading_a_byte_at_a_time() {
    let mut r = Chunked::new(b"yes\nno\n", 100, &[]);
    let mut s = String::new();
    assert_eq!(read_line_from(&mut r, &mut s).ok(), Some(4));
    assert_eq!(s, "yes\n");
    assert_eq!(r.pos, 4);
    assert_eq!(read_line_from(&mut r, &mut s).ok(), Some(3));
    assert_eq!(s, "yes\nno\n");
    assert_eq!(read_line_from(&mut r, &mut s).ok(), Some(0));
    let mut bad = Chunked::new(&[0xc3, b'\n'], 1, &[]);
    let mut t = String::new();
    assert_eq!(read_line_from(&mut bad, &mut t).err().unwrap().kind(), ErrorKind::InvalidData);
    assert!(t.is_empty());
    let mut intr = Chunked::new(b"a\n", 1, &[2]);
    assert_eq!(read_line_from(&mut intr, &mut t).err().unwrap().kind(), ErrorKind::Interrupted);
}

#[test]
fn cursor_over_a_slice() {
    let data: &[u8] = b"abcdef";
    let mut c = Cursor::new(data);
    let mut buf = [0u8; 4];
    assert_eq!(c.read(&mut buf).ok(), Some(4));
    assert_eq!(&buf, b"abcd");
    let mut rest = Vec::new();
    assert_eq!(c.read_to_end(&mut rest).ok(), Some(2));
    assert_eq!(rest, b"ef".to_vec());
    assert_eq!(c.by_ref().position(), 6);
}

#[test]
fn read_exact_into_nothing_needs_no_read() {
    let mut r = Chunked::new(b"", 1, &[1]);
    let mut buf: [u8; 0] = [];
    assert!(r.read_exact(&mut buf).is_ok());
    assert_eq!(r.calls, 0);
}

#[test]
fn read_until_finds_buffered_delimiter() {
    let mut r = BufReader::new(Chunked::new(b"ab\ncd\n", 64, &[]));
    let mut first = Vec::new();
    assert_eq!(r.read_until(b'\n', &mut first).ok(), Some(3));
    r.get_mut().interrupts.push(2);
    let mut second = Vec::new();
    assert_eq!(r.read_until(b'\n', &mut second).ok(), Some(3));
    assert_eq!(second, b"cd\n".to_vec());
    assert_eq!(r.get_ref().calls, 1);
}

#[test]
fn buf_writer_into_inner_with_empty_buffer() {
    let w = BufWriter::new(Vec::new());
    let inner = w.into_inner().ok().unwrap();
    assert!(inner.is_empty());
}

#[test]
fn flushes_of_memory_writers_succeed() {
    let mut v: Vec<u8> = Vec::new();
    assert!(Write::flush(&mut v).is_ok());
    let mut c = Cursor::new(Vec::new());
    assert!(c.flush().is_ok());
    let mut w = BufWriter::new(Vec::new());
    assert_eq!(w.write(b"xy").ok(), Some(2));
    assert!(w.flush().is_ok());
    assert_eq!(w.get_ref(), &b"xy".to_vec());
}

#[test]
fn read_until_over_a_slice_line_by_line() {
    let data = b"ab\ncd";
    let mut r = BufReader::new(Cursor::new(&data[..]));
    let mut v: Vec<u8> = Vec::new();
    assert_eq!(r.read_until(b'\n', &mut v).ok(), Some(3));
    assert_eq!(v, b"ab\n".to_vec());
    assert_eq!(r.read_until(b'\n', &mut v).ok(), Some(2));
    assert_eq!(v, b"ab\ncd".to_vec());
    assert_eq!(r.read_until(b'\n', &mut v).ok(), Some(0));
    assert_eq!(v, b"ab\ncd".to_vec());
}

#[test]
fn cursor_past_its_data_reads_nothing_and_stays() {
    let mut c = Cursor::new(b"abc".to_vec());
    c.set_position(10);
    let mut buf = [0u8; 4];
    assert_eq!(c.read(&mut buf).ok(), Some(0));
    assert_eq!(c.position(), 10);
}

#[test]
fn cursor_write_pads_and_overwrites() {
    let mut c = Cursor::new(Vec::<u8>::new());
    c.set_position(2);
    assert_eq!(c.write(b"ab").ok(), Some(2));
    assert_eq!(c.get_ref(), &vec![0, 0, b'a', b'b']);
    assert_eq!(c.position(), 4);
    c.set_position(1);
    assert_eq!(c.write(b"xyz").ok(), Some(3));
    assert_eq!(c.get_ref(), &vec![0, b'x', b'y', b'z']);
    assert_eq!(c.position(), 4);
}

#[test]
fn buf_writer_into_inner_flushes_in_order() {
    let mut w = BufWriter::new(Vec::<u8>::new());
    assert_eq!(w.write(b"ab").ok(), Some(2));
    assert_eq!(w.write(b"cd").ok(), Some(2));
    assert!(w.get_ref().is_empty());
    assert_eq!(w.into_inner().ok().unwrap(), b"abcd".to_vec());
}
