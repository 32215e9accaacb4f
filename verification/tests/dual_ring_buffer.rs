use bstr::ByteSlice;

use sponk::dual_ring_buffer::DualRingBuffer;

#[test]
fn test_buffer() {
    let mut drb = DualRingBuffer::new(32);
    drb.append(b"Hello ");
    drb.append(b"World");
    let mut data = vec![0; 16];
    let len = drb.read(&mut data);
    data.truncate(len);
    assert_eq!(data.as_bstr(), "Hello World");
}

#[test]
fn test_swap() {
    let cap = 3;
    let mut drb = DualRingBuffer::new(cap);
    drb.append(b"foo");
    drb.append(b"bar");
    drb.append(b"baz");
    drb.append(b"qux");
    let res = drb.try_swap(Vec::new());
    assert!(res.inner.capacity() > 9);
    assert_eq!(res.len, 9);
    let res = drb.try_swap(res.inner);
    assert_eq!(res.inner.capacity(), cap);
    assert_eq!(res.len, cap);
    drb.append(b"foo");
    let res = drb.try_swap(res.inner);
    assert_eq!(res.inner.capacity(), cap);
    assert_eq!(res.len, cap);
    drb.append(b"bar");
    let res = drb.try_swap(res.inner);
    assert_eq!(res.inner.capacity(), cap);
    assert_eq!(res.len, cap);
}

#[test]
fn dual_ring_buffer_test_consume() {
    let cap = 3;
    let mut drb = DualRingBuffer::new(cap);
    drb.append(b"foo");
    let (is_buf, bref) = drb.peek();

    assert!(is_buf);
    assert_eq!(drb.len(), 3);
    assert_eq!(bref.as_slice(), b"foo");

    drb.consume(3);
    assert_eq!(drb.len(), 0);

    drb.append(b"bar");
    let (is_buf, bref) = drb.peek();

    assert!(is_buf);
    assert_eq!(drb.len(), 3);
    assert_eq!(bref.as_slice(), b"bar");
    drb.append(b"baz");
    drb.append(b"qux");
    let (holding, active) = drb.peek_all();
    let mut data = holding.to_vec();
    data.extend_from_slice(active);
    assert_eq!(data, b"barbazqux".to_vec());
    assert_eq!(drb.len(), 9);
    drb.consume(7);
    let (is_buf, bref) = drb.peek();
    assert!(is_buf);
    assert_eq!(drb.len(), 2);
    assert_eq!(bref.as_slice(), b"ux");
}

#[test]
fn chunked_appends_read_back_in_order() {
    // appends with forced merges, then successive reads, must hand back the
    // concatenation of every appended chunk in order
    let mut drb = DualRingBuffer::new(4);
    drb.append(b"ab");
    drb.append(b"cdef");
    drb.append(b"g");
    drb.append(b"hij");
    assert_eq!(drb.len(), 10);
    let mut first = vec![0u8; 3];
    let n1 = drb.read(&mut first);
    assert_eq!(n1, 3);
    assert_eq!(&first[..], b"abc");
    let mut second = vec![0u8; 7];
    let n2 = drb.read(&mut second);
    assert_eq!(n2, 7);
    assert_eq!(&second[..], b"defghij");
    assert!(drb.is_empty());
    assert_eq!(drb.read(&mut second), 0);
}

#[test]
fn read_with_small_target_leaves_remainder() {
    let mut drb = DualRingBuffer::new(8);
    drb.append(b"abcdefgh");
    let mut out = vec![0u8; 5];
    assert_eq!(drb.read(&mut out), 5);
    assert_eq!(&out[..], b"abcde");
    assert_eq!(drb.len(), 3);
    let mut rest = vec![0u8; 5];
    assert_eq!(drb.read(&mut rest), 3);
    assert_eq!(&rest[..3], b"fgh");
}

#[test]
fn prep_read_keeps_bytes_and_hands_out_capacity() {
    let mut drb = DualRingBuffer::new(6);
    drb.append(b"abc");
    drb.append(b"def");
    let loan = drb.prep_read();
    assert_eq!(loan.len(), 6);
    assert_eq!(drb.len(), 6);
    assert!(drb.should_fill() == false);
    // reclaim the loan with two fresh bytes
    let mut loan = loan;
    loan[0] = b'x';
    loan[1] = b'y';
    assert!(drb.push_buf(loan, 2));
    let mut out = vec![0u8; 8];
    assert_eq!(drb.read(&mut out), 8);
    assert_eq!(&out[..], b"abcdefxy");
}

#[test]
fn should_fill_tracks_holding_slot() {
    let mut drb = DualRingBuffer::new(4);
    assert!(drb.should_fill());
    drb.append(b"ab");
    // one append leaves everything in the active slot
    assert!(drb.should_fill());
    drb.append(b"cd");
    // the second append moved the leftover to the holding slot
    assert!(!drb.should_fill());
    drb.consume(4);
    assert!(drb.is_empty());
}
