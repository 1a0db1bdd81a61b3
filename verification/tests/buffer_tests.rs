use x328_proto::buffer::Buffer;

fn get_buffer() -> Buffer {
    let mut buf = Buffer::new();
    buf.write(b"abcdabcdabcd");
    buf
}

#[test]
fn test_slice() {
    let buf = get_buffer();
    assert_eq!(buf.as_ref().len(), buf.len());
}

#[test]
fn buffer_spill() {
    let mut buf = Buffer::new();
    for _ in 0..41 {
        buf.write(b"a");
    }
    assert_eq!(buf.read_pos(), 0);
    buf.consume(5);
    assert_eq!(buf.read_pos(), 5);
    buf.write(b"1234");
    assert_eq!(buf.read_pos(), 1);
    buf.write(b"5");
    assert_eq!(buf.read_pos(), 0);
    buf.write(b"67");
    assert_eq!(buf.read_pos(), 0);
}

#[test]
fn too_large_write() {
    let mut buf = Buffer::new();
    let data: String = std::iter::once("abc").cycle().take(40).collect();
    buf.write(data.as_bytes());
    assert_eq!(buf.as_ref(), &data.as_bytes()[(data.len() - 40)..]);
}

#[test]
fn high_bytes_become_nul() {
    let mut buf = Buffer::new();
    buf.write(&[0x41, 0x80, 0xff, 0x42]);
    assert_eq!(buf.as_ref(), &[0x41, 0x00, 0x00, 0x42]);
}
