use favorites::codec::decode;
use favorites::codec::encode;
use favorites::codec::RECORD_SPACE;
use favorites::errors::ErrorKind;
use favorites::record::Favorites;

fn record(number: u64, color: &str, hobbies: &[&str]) -> Favorites {
    Favorites {
        number,
        color: color.as_bytes().to_vec(),
        hobbies: hobbies.iter().map(|h| h.as_bytes().to_vec()).collect(),
    }
}

#[test]
fn round_trip_full_record() {
    let rec = record(42, "blue", &["chess", "reading"]);
    let buf = encode(&rec).expect("a fitting record encodes");
    assert_eq!(buf.len(), RECORD_SPACE);
    let back = decode(&buf).expect("what encode wrote decodes");
    assert_eq!(back.number, 42);
    assert_eq!(back.color, b"blue".to_vec());
    assert_eq!(back.hobbies, vec![b"chess".to_vec(), b"reading".to_vec()]);
}

#[test]
fn round_trip_empty_fields() {
    let rec = record(0, "", &[]);
    let buf = encode(&rec).expect("the empty record encodes");
    assert_eq!(buf.len(), RECORD_SPACE);
    let back = decode(&buf).expect("what encode wrote decodes");
    assert_eq!(back.number, 0);
    assert_eq!(back.color, Vec::<u8>::new());
    assert_eq!(back.hobbies, Vec::<Vec<u8>>::new());
}

#[test]
fn round_trip_largest_record() {
    let big = "x".repeat(50);
    let rec = record(u64::MAX, &big, &[&big, &big, &big, &big, &big]);
    let buf = encode(&rec).expect("the largest record still fits");
    assert_eq!(buf.len(), RECORD_SPACE);
    let back = decode(&buf).expect("what encode wrote decodes");
    assert_eq!(back.number, u64::MAX);
    assert_eq!(back.color.len(), 50);
    assert_eq!(back.hobbies.len(), 5);
    assert_eq!(back.hobbies[4], big.as_bytes().to_vec());
}

#[test]
fn buffer_size_is_independent_of_content() {
    let small = encode(&record(1, "a", &[])).unwrap();
    let large = encode(&record(2, &"y".repeat(50), &["one", "two"])).unwrap();
    assert_eq!(small.len(), large.len());
}

#[test]
fn encode_rejects_color_over_capacity() {
    let rec = record(1, &"c".repeat(51), &[]);
    assert_eq!(encode(&rec), Err(ErrorKind::CapacityExceededError));
}

#[test]
fn encode_rejects_six_hobbies() {
    let rec = record(1, "red", &["a", "b", "c", "d", "e", "f"]);
    assert_eq!(encode(&rec), Err(ErrorKind::CapacityExceededError));
}

#[test]
fn encode_rejects_hobby_over_capacity() {
    let long = "h".repeat(51);
    let rec = record(1, "red", &["ok", &long]);
    assert_eq!(encode(&rec), Err(ErrorKind::CapacityExceededError));
}

#[test]
fn decode_rejects_wrong_tag() {
    let mut buf = encode(&record(3, "teal", &[])).unwrap();
    buf[0] ^= 0xff;
    assert!(matches!(decode(&buf), Err(ErrorKind::EncodingError)));
}

#[test]
fn decode_rejects_truncated_buffer() {
    let buf = vec![0u8; 10];
    assert!(matches!(decode(&buf), Err(ErrorKind::EncodingError)));
}

#[test]
fn decode_rejects_overlong_declared_color() {
    let mut buf = encode(&record(3, "teal", &[])).unwrap();
    // declare a color length beyond its region
    buf[16] = 51;
    assert!(matches!(decode(&buf), Err(ErrorKind::EncodingError)));
}
