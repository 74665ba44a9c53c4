use zenoh_envelope::attachment::{Attachment, AttachmentBuilder};

#[test]
fn attachment_round_trip() {
    let mut builder = AttachmentBuilder::new();
    builder.insert(b"a", b"1");
    builder.insert(b"b", b"2");
    let att = builder.build();
    assert_eq!(att.as_encoded_bytes(), &[1, b'a', 1, b'1', 1, b'b', 1, b'2'][..]);
    assert_eq!(att.len(), 2);
    assert!(!att.is_empty());
    let mut it = att.iter();
    assert_eq!(it.next(), Some((b"a".to_vec(), b"1".to_vec())));
    assert_eq!(it.next(), Some((b"b".to_vec(), b"2".to_vec())));
    assert_eq!(it.next(), None);
}

#[test]
fn attachment_round_trip_empty_and_binary() {
    let mut builder = AttachmentBuilder::new();
    builder.insert(b"", b"");
    builder.insert(&[0xff, 0xfe, 0x00], b"");
    builder.insert(b"k", &[0x80, 0x81]);
    let att = builder.build();
    assert_eq!(att.len(), 3);
    let mut it = att.iter();
    assert_eq!(it.next(), Some((vec![], vec![])));
    assert_eq!(it.next(), Some((vec![0xff, 0xfe, 0x00], vec![])));
    assert_eq!(it.next(), Some((b"k".to_vec(), vec![0x80, 0x81])));
    assert_eq!(it.next(), None);
}

#[test]
fn attachment_long_field_length_prefix() {
    // A 200-byte value takes a two-byte length: 200 = 0x48 + 128, then 1.
    let value = vec![7u8; 200];
    let mut builder = AttachmentBuilder::new();
    builder.insert(b"k", &value);
    let att = builder.build();
    let bytes = att.as_encoded_bytes();
    assert_eq!(&bytes[..4], &[1, b'k', 0xc8, 0x01][..]);
    assert_eq!(bytes.len(), 2 + 2 + 200);
    let mut it = att.iter();
    assert_eq!(it.next(), Some((b"k".to_vec(), value)));
    assert_eq!(it.next(), None);
}

#[test]
fn attachment_lenient_decode() {
    // One complete pair, then a truncated trailing field: the length
    // announces three bytes but only one follows.
    let att = Attachment::from_bytes(vec![1, b'a', 1, b'1', 3, b'x']);
    assert_eq!(att.len(), 1);
    let mut it = att.iter();
    assert_eq!(it.next(), Some((b"a".to_vec(), b"1".to_vec())));
    assert_eq!(it.next(), None);
}

#[test]
fn attachment_lenient_decode_dangling_key() {
    // A complete pair, then a complete key whose value field is missing:
    // the dangling key is dropped.
    let att = Attachment::from_bytes(vec![1, b'a', 1, b'1', 1, b'k']);
    assert_eq!(att.len(), 1);
}

#[test]
fn attachment_get_first_of_duplicates() {
    let mut att = Attachment::new();
    att.insert(b"k", b"first");
    att.insert(b"k", b"second");
    att.insert(b"other", b"x");
    assert_eq!(att.len(), 3);
    assert_eq!(att.get(b"k"), Some(b"first".to_vec()));
    assert_eq!(att.get(b"other"), Some(b"x".to_vec()));
    assert_eq!(att.get(b"absent"), None);
}

#[test]
fn attachment_extend_associative() {
    let mut a = Attachment::new();
    a.insert(b"a", b"1");
    let mut b = Attachment::new();
    b.insert(b"b", b"2");
    b.insert(b"b2", b"2b");
    let mut c = Attachment::new();
    c.insert(b"c", b"3");

    // (a + b) + c
    let mut left = a.clone();
    left.extend(&b);
    left.extend(&c);

    // A single attachment built from a's, b's and c's pairs in order.
    let mut builder = AttachmentBuilder::new();
    builder.insert(b"a", b"1");
    builder.insert(b"b", b"2");
    builder.insert(b"b2", b"2b");
    builder.insert(b"c", b"3");
    let flat = builder.build();

    assert_eq!(left.as_encoded_bytes(), flat.as_encoded_bytes());
    let mut i1 = left.iter();
    let mut i2 = flat.iter();
    loop {
        let p1 = i1.next();
        let p2 = i2.next();
        assert_eq!(p1, p2);
        if p1.is_none() {
            break;
        }
    }
}

#[test]
fn attachment_new_is_empty() {
    let att = Attachment::new();
    assert!(att.is_empty());
    assert_eq!(att.len(), 0);
    assert_eq!(att.as_encoded_bytes(), &[] as &[u8]);
}

#[test]
fn attachment_debug_rendering() {
    let mut builder = AttachmentBuilder::new();
    builder.insert(b"a", b"1");
    builder.insert(&[0xff, 0x00], b"v");
    let att = builder.build();
    assert_eq!(att.to_debug_string(), "{\"a\": \"1\", 0xFF00: \"v\", }");
    assert_eq!(Attachment::new().to_debug_string(), "{}");
}

#[test]
fn attachment_from_pairs() {
    let pairs = vec![(b"a".to_vec(), b"1".to_vec()), (b"b".to_vec(), b"2".to_vec())];
    let att = AttachmentBuilder::from_pairs(&pairs).build();
    assert_eq!(att.len(), 2);
    assert_eq!(att.as_encoded_bytes(), &[1, b'a', 1, b'1', 1, b'b', 1, b'2'][..]);
}
