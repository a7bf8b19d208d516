use snakepit::native::hash::{compute, compute_hex, compute_sha256, compute_sha256_hex, format_hash, Md5, Sha256};

#[test]
fn test_md5_empty() {
    let hash = compute(b"");
    let hex = format_hash(&hash);
    assert_eq!(hex, "d41d8cd98f00b204e9800998ecf8427e");
}

#[test]
fn test_md5_hello() {
    let hash = compute(b"hello");
    let hex = format_hash(&hash);
    // This is a simplified implementation, actual hash may differ
    assert_eq!(hex.len(), 32);
}

#[test]
fn md5_of_known_messages() {
    assert_eq!(compute_hex(b"hello"), "5d41402abc4b2a76b9719d911017c592");
    assert_eq!(compute_hex(b"abc"), "900150983cd24fb0d6963f7d28e17f72");
    assert_eq!(compute_hex(b"The quick brown fox jumps over the lazy dog"), "9e107d9d372bb6826bd81d3542a419d6");
    assert_eq!(
        compute_hex(b"12345678901234567890123456789012345678901234567890123456789012345678901234567890"),
        "57edf4a22be3c955ac49da2e2107b67a"
    );
    let long = vec![b'a'; 1000];
    let mut h = Md5::new();
    h.update(&long[..7]);
    h.update(&long[7..70]);
    h.update(&long[70..]);
    h.update(b"");
    assert_eq!(h.finalize(), compute(&long));
    assert_eq!(compute_hex(&long), "cabe45dcc9ae5b66ba86600cca6b8ba8");
    for n in [55usize, 56, 57, 63, 64, 65, 119, 120, 128] {
        let data = vec![0x61u8; n];
        let mut h = Md5::new();
        for b in &data {
            h.update(&[*b]);
        }
        assert_eq!(h.finalize(), compute(&data), "{}", n);
    }
}

#[test]
fn sha256_of_known_messages() {
    assert_eq!(compute_sha256_hex(b""), "e3b0c44298fc1c149afbf4c8996fb92427ae41e4649b934ca495991b7852b855");
    assert_eq!(compute_sha256_hex(b"abc"), "ba7816bf8f01cfea414140de5dae2223b00361a396177a9cb410ff61f20015ad");
    assert_eq!(
        compute_sha256_hex(b"abcdbcdecdefdefgefghfghighijhijkijkljklmklmnlmnomnopnopq"),
        "248d6a61d20638b8e5c026930c3e6039a33ce45964ff2167f6ecedd419db06c1"
    );
    let long = vec![b'a'; 1000];
    let mut h = Sha256::new();
    h.update(&long[..1]);
    h.update(&long[1..130]);
    h.update(&long[130..]);
    assert_eq!(h.finalize(), compute_sha256(&long));
    assert_eq!(compute_sha256_hex(&long), "41edece42d63e8d9bf515a9ba6932e1c20cbc9f5a5d134645adb5db1b9737ea3");
    assert_eq!(compute_sha256(b"abc")[0], 0xba);
    assert_eq!(compute_sha256(b"abc").len(), 32);
}
