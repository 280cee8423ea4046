use miniproxy::cipher::CiperTcpStream;

fn identity() -> Vec<u8> {
    (0..=255u8).collect()
}

fn reversed() -> Vec<u8> {
    (0..=255u8).rev().collect()
}

#[test]
fn identity_table_changes_nothing() {
    let c = CiperTcpStream::new((), identity());
    let data = vec![0u8, 1, 2, 200, 255];
    assert_eq!(c.encode(&data), data);
    let mut buf = data.clone();
    c.decode_in_place(&mut buf);
    assert_eq!(buf, data);
}

#[test]
fn reversed_table_substitutes_bytes() {
    let c = CiperTcpStream::new((), reversed());
    assert_eq!(c.encode(&[0, 1, 255, 10]), vec![255, 254, 0, 245]);
    let mut buf = [255u8, 254, 0, 245];
    c.decode_in_place(&mut buf);
    assert_eq!(buf, [0, 1, 255, 10]);
}

#[test]
fn round_trip_between_two_ends() {
    let mut table = identity();
    table.rotate_left(77);
    let local = CiperTcpStream::new("local", table.clone());
    let server = CiperTcpStream::new("server", table);
    let message = b"GET / HTTP/1.1\r\nHost: example.com\r\n\r\n".to_vec();
    let mut wire = local.encode(&message);
    assert_ne!(wire, message);
    server.decode_in_place(&mut wire);
    assert_eq!(wire, message);
}

#[test]
fn encode_undoes_decode_for_a_permutation() {
    let mut table = identity();
    table.swap(3, 250);
    table.swap(0, 128);
    let c = CiperTcpStream::new((), table);
    let original: Vec<u8> = (0..=255u8).collect();
    let mut buf = original.clone();
    c.decode_in_place(&mut buf);
    assert_eq!(c.encode(&buf), original);
}

#[test]
fn repeated_byte_keeps_last_index() {
    // byte 7 stands at positions 0 and 2; the decoding table keeps 2
    let c = CiperTcpStream::new((), vec![7u8, 8, 7]);
    let mut buf = [7u8, 8, 9];
    c.decode_in_place(&mut buf);
    assert_eq!(buf, [2, 1, 0]);
}

#[test]
fn long_table_indices_wrap_to_a_byte() {
    let mut table = vec![0u8; 300];
    table[299] = 5;
    let c = CiperTcpStream::new((), table);
    let mut buf = [5u8];
    c.decode_in_place(&mut buf);
    assert_eq!(buf, [(299 % 256) as u8]);
}

#[test]
fn short_table_cannot_encode_high_bytes() {
    let c = CiperTcpStream::new((), vec![9u8, 8, 7]);
    assert!(c.encodes_all(&[0, 1, 2]));
    assert!(!c.encodes_all(&[0, 3]));
    assert!(c.encodes_all(&[]));
    assert_eq!(c.encode(&[2, 0]), vec![7, 9]);
}

#[test]
fn stream_is_kept() {
    let c = CiperTcpStream::new(42u32, identity());
    assert_eq!(*c.stream(), 42);
}
