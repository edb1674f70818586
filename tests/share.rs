use fractus_shamir::gf256::GF256;
use fractus_shamir::Share;

#[test]
fn test_share_creation() {
    let x = GF256(5);
    let y = vec![GF256(10), GF256(20), GF256(30)];
    let share = Share::new(x, y.clone());

    assert_eq!(share.x(), x);
    assert_eq!(share.y(), &y);
    assert_eq!(share.len(), 4); // 1 x + 3 y values
    assert!(!share.is_empty());
}

#[test]
fn test_serialization_roundtrip() {
    let original = Share::new(GF256(42), vec![GF256(100), GF256(200), GF256(50)]);

    let bytes = original.to_bytes();
    let recovered = Share::from_bytes(&bytes).unwrap();

    assert_eq!(original, recovered);
}

#[test]
fn test_invalid_deserialization() {
    assert!(Share::from_bytes(&[]).is_err());
    assert!(Share::from_bytes(&[42]).is_err());
    assert!(Share::from_bytes(&[42, 100]).is_ok());
}

#[test]
fn vec_from_share_works() {
    let share = Share {
        x: GF256(1),
        y: vec![GF256(2), GF256(3)],
    };
    let bytes = Vec::from(&share);
    assert_eq!(bytes, vec![1, 2, 3]);
}

#[test]
fn share_from_u8_slice_works() {
    let bytes = [1, 2, 3];
    let share = Share::try_from(&bytes[..]).unwrap();
    assert_eq!(share.x, GF256(1));
    assert_eq!(share.y, vec![GF256(2), GF256(3)]);
}

#[test]
fn encoding_is_x_then_y() {
    let share = Share::new(GF256(7), vec![GF256(0), GF256(255), GF256(9)]);
    assert_eq!(share.to_bytes(), vec![7, 0, 255, 9]);
    assert_eq!(share.len(), 4);
}

#[test]
fn decoding_round_trip_for_every_short_buffer_shape() {
    for n in 2..40usize {
        let bytes: Vec<u8> = (0..n).map(|i| (i * 37 % 256) as u8).collect();
        let share = Share::from_bytes(&bytes).unwrap();
        assert_eq!(share.x, GF256(bytes[0]));
        assert_eq!(share.y.len(), n - 1);
        assert_eq!(share.to_bytes(), bytes);
        assert_eq!(Share::from_bytes(&share.to_bytes()).unwrap(), share);
    }
    assert_eq!(Share::from_bytes(&[]), Err("A Share must be at least 2 bytes long"));
    assert_eq!(Share::from_bytes(&[1]), Err("A Share must be at least 2 bytes long"));
}

#[test]
fn empty_share_does_not_decode_back() {
    let share = Share::new(GF256(3), vec![]);
    assert!(share.is_empty());
    assert!(Share::from_bytes(&share.to_bytes()).is_err());
}

#[test]
fn equality_compares_x_and_every_y() {
    let a = Share::new(GF256(1), vec![GF256(2), GF256(3)]);
    assert_eq!(a, Share::new(GF256(1), vec![GF256(2), GF256(3)]));
    assert_ne!(a, Share::new(GF256(2), vec![GF256(2), GF256(3)]));
    assert_ne!(a, Share::new(GF256(1), vec![GF256(2), GF256(4)]));
    assert_ne!(a, Share::new(GF256(1), vec![GF256(2)]));
}

#[test]
fn test_display() {
    let share = Share::new(GF256(1), vec![GF256(2), GF256(3)]);
    let display = share.to_display_string();
    assert_eq!(display, "Share(x=1, y=[2, 3])");
}

#[test]
fn display_of_large_and_empty_values() {
    assert_eq!(Share::new(GF256(255), vec![GF256(0), GF256(100)]).to_display_string(), "Share(x=255, y=[0, 100])");
    assert_eq!(Share::new(GF256(10), vec![]).to_display_string(), "Share(x=10, y=[])");
}

#[test]
fn conversions_match_the_encoding() {
    let share = Share::new(GF256(7), vec![GF256(8), GF256(9)]);
    assert_eq!(Vec::from(&share), vec![7, 8, 9]);
    assert_eq!(Share::try_from(&[7u8, 8, 9][..]).unwrap(), share);
    assert!(Share::try_from(&[7u8][..]).is_err());
}
