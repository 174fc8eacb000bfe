use azdls::properties::decode_properties;
use azdls::properties::encode_properties;
use azdls::properties::UserMetadata;

#[test]
fn test_encode_decode_roundtrip() {
    let mut metadata = UserMetadata::new();
    metadata.insert("key1".to_string(), "value1".to_string());
    metadata.insert("key2".to_string(), "value2".to_string());

    let encoded = encode_properties(&metadata);
    let decoded = decode_properties(&encoded);
    assert_eq!(metadata, decoded);
}

#[test]
fn test_decode_standard_pair() {
    // "value" base64-encoded is "dmFsdWU="
    let decoded = decode_properties("key=dmFsdWU=");
    assert_eq!(decoded.get("key"), Some(&"value".to_string()));
}

#[test]
fn test_encode_decode_unicode_value() {
    let mut metadata = UserMetadata::new();
    metadata.insert("name".to_string(), "hello world".to_string());

    let encoded = encode_properties(&metadata);
    let decoded = decode_properties(&encoded);
    assert_eq!(decoded.get("name"), Some(&"hello world".to_string()));
}

#[test]
fn test_encode_decode_value_with_comma_and_equals() {
    let mut metadata = UserMetadata::new();
    metadata.insert("data".to_string(), "a=1,b=2".to_string());

    let encoded = encode_properties(&metadata);
    let decoded = decode_properties(&encoded);
    assert_eq!(decoded.get("data"), Some(&"a=1,b=2".to_string()));
}

#[test]
fn test_decode_empty_header() {
    let decoded = decode_properties("");
    assert!(decoded.is_empty());
}

#[test]
fn test_decode_malformed_base64_skipped() {
    // Malformed base64 is silently skipped, consistent with other services'
    // best-effort metadata parsing.
    let decoded = decode_properties("key=!!!invalid!!!");
    assert!(decoded.is_empty());
}

#[test]
fn test_decode_no_equals_skipped() {
    let decoded = decode_properties("keyonly");
    assert!(decoded.is_empty());
}

#[test]
fn test_encode_empty_metadata() {
    let metadata = UserMetadata::new();
    let encoded = encode_properties(&metadata);
    assert!(encoded.is_empty());
}

#[test]
fn test_decode_multiple_pairs() {
    let mut expected = UserMetadata::new();
    expected.insert("a".to_string(), "1".to_string());
    expected.insert("b".to_string(), "2".to_string());

    let encoded = encode_properties(&expected);
    let decoded = decode_properties(&encoded);
    assert_eq!(expected, decoded);
}

#[test]
fn pairs_are_written_in_order() {
    let mut metadata = UserMetadata::new();
    metadata.insert("key1".to_string(), "value1".to_string());
    metadata.insert("key2".to_string(), "a".to_string());
    metadata.insert("key1".to_string(), "hi".to_string());
    assert_eq!(encode_properties(&metadata), "key1=aGk=,key2=YQ==");
    assert_eq!(metadata.len(), 2);
    assert_eq!(
        metadata.into_pairs(),
        vec![
            ("key1".to_string(), "hi".to_string()),
            ("key2".to_string(), "a".to_string()),
        ]
    );
}

#[test]
fn values_of_every_length_come_back() {
    for value in ["", "a", "ab", "abc", "abcd", "\u{0}\u{7f}", "héllo ❤"] {
        let mut metadata = UserMetadata::new();
        metadata.insert("k".to_string(), value.to_string());
        let decoded = decode_properties(&encode_properties(&metadata));
        assert_eq!(decoded.get("k"), Some(&value.to_string()));
        assert_eq!(decoded.len(), 1);
    }
}

#[test]
fn base64_alphabet() {
    let mut metadata = UserMetadata::new();
    metadata.insert("k".to_string(), "???>>>~~~".to_string());
    assert_eq!(encode_properties(&metadata), "k=Pz8/Pj4+fn5+");
}

#[test]
fn equality_does_not_depend_on_order() {
    let mut one = UserMetadata::new();
    one.insert("a".to_string(), "1".to_string());
    one.insert("b".to_string(), "2".to_string());
    let mut other = UserMetadata::new();
    other.insert("b".to_string(), "2".to_string());
    other.insert("a".to_string(), "1".to_string());
    assert!(one == other);
    other.insert("a".to_string(), "3".to_string());
    assert!(one != other);
}

#[test]
fn white_space_around_pairs_is_dropped() {
    let decoded = decode_properties(" a=MQ== ,\tb=Mg==\u{3000}, c =Mw==");
    assert_eq!(decoded.get("a"), Some(&"1".to_string()));
    assert_eq!(decoded.get("b"), Some(&"2".to_string()));
    assert_eq!(decoded.get("c "), Some(&"3".to_string()));
    assert_eq!(decoded.len(), 3);
}

#[test]
fn the_last_value_of_a_name_holds() {
    let decoded = decode_properties("a=MQ==,b=Mg==,a=Mw==");
    assert_eq!(decoded.get("a"), Some(&"3".to_string()));
    assert_eq!(decoded.len(), 2);
}

#[test]
fn malformed_pieces_leave_their_neighbours() {
    // No `=`, malformed base64, a missing pad, leftover bits, and bytes that are not UTF-8.
    let decoded = decode_properties("a=MQ==,x,y=*,z=Mg,w=Mh==,v=/w==,b=Mg==");
    assert_eq!(decoded.get("a"), Some(&"1".to_string()));
    assert_eq!(decoded.get("b"), Some(&"2".to_string()));
    assert_eq!(decoded.len(), 2);
}

#[test]
fn names_that_a_list_cannot_carry_are_lost() {
    for name in ["a=b", "a,b", " a"] {
        let mut metadata = UserMetadata::new();
        metadata.insert(name.to_string(), "v".to_string());
        let decoded = decode_properties(&encode_properties(&metadata));
        assert_eq!(decoded.get(name), None);
    }
}

#[test]
fn an_empty_name_and_an_empty_value() {
    let decoded = decode_properties("=MQ==,k=");
    assert_eq!(decoded.get(""), Some(&"1".to_string()));
    assert_eq!(decoded.get("k"), Some(&"".to_string()));
}
