use zenoh_envelope::attachment::AttachmentBuilder;
use zenoh_envelope::params::SelectorError;
use zenoh_envelope::qos::{CongestionControl, Priority, QoS};
use zenoh_envelope::sample::{
    DataInfo, Encoding, Locality, Sample, SampleKind, SourceInfo, Timestamp, Value, ZenohId,
};
use zenoh_envelope::selector::KeyExpr;

#[test]
fn source_info_stack_size() {
    assert_eq!(std::mem::size_of::<SourceInfo>(), 16 * 2);
}

#[test]
fn source_info_projection() {
    let empty = SourceInfo::empty();
    assert_eq!(empty.source_id(), None);
    assert_eq!(empty.source_sn(), None);

    let di = DataInfo {
        kind: SampleKind::Delete,
        encoding: Some(Encoding(3)),
        timestamp: Some(Timestamp { time: 42, id: ZenohId(9) }),
        source_id: Some(ZenohId(7)),
        source_sn: Some(12),
        qos: QoS::default(),
    };
    let si = SourceInfo::from_data_info(&di);
    assert_eq!(si.source_id(), Some(ZenohId(7)));
    assert_eq!(si.source_sn(), Some(12));

    let si = SourceInfo::from_data_info_opt(&None);
    assert_eq!(si.source_id(), None);
    assert_eq!(si.source_sn(), None);
}

#[test]
fn sample_new_defaults() {
    let key = KeyExpr::new("demo/example").unwrap();
    let sample = Sample::new(key, Value::new(vec![1, 2, 3]));
    assert_eq!(sample.kind, SampleKind::Put);
    assert_eq!(sample.timestamp, None);
    assert_eq!(sample.qos, QoS::default());
    assert_eq!(sample.source_info.source_id(), None);
    assert_eq!(sample.source_info.source_sn(), None);
    assert!(sample.attachment.is_none());
    assert_eq!(sample.value.payload, vec![1, 2, 3]);
    assert_eq!(sample.value.encoding, Encoding(0));
}

#[test]
fn sample_try_from_rejects_bad_key() {
    assert!(Sample::try_from("demo/example", Value::new(vec![])).is_ok());
    let err = Sample::try_from("demo//bad", Value::new(vec![])).unwrap_err();
    assert_eq!(err, SelectorError::InvalidKeyExpr);
}

#[test]
fn sample_with_info_merges_metadata() {
    let key = KeyExpr::new("demo/example").unwrap();
    let qos = QoS::default().with_priority(Priority::RealTime).with_express(true);
    let di = DataInfo {
        kind: SampleKind::Delete,
        encoding: Some(Encoding(5)),
        timestamp: Some(Timestamp { time: 99, id: ZenohId(1) }),
        source_id: Some(ZenohId(2)),
        source_sn: Some(3),
        qos,
    };
    let sample = Sample::with_info(key.clone(), vec![9, 9], Some(di));
    assert_eq!(sample.kind, SampleKind::Delete);
    assert_eq!(sample.value.encoding, Encoding(5));
    assert_eq!(sample.value.payload, vec![9, 9]);
    assert_eq!(sample.timestamp, Some(Timestamp { time: 99, id: ZenohId(1) }));
    assert_eq!(sample.qos, qos);
    assert_eq!(sample.source_info.source_id(), Some(ZenohId(2)));
    assert_eq!(sample.source_info.source_sn(), Some(3));
    assert!(sample.attachment.is_none());

    let sample = Sample::with_info(key, vec![9, 9], None);
    assert_eq!(sample.kind, SampleKind::Put);
    assert_eq!(sample.value.encoding, Encoding(0));
    assert_eq!(sample.timestamp, None);
    assert_eq!(sample.qos, QoS::default());
}

#[test]
fn sample_with_info_keeps_default_encoding_when_absent() {
    let key = KeyExpr::new("demo/example").unwrap();
    let di = DataInfo { kind: SampleKind::Put, ..Default::default() };
    let sample = Sample::with_info(key, vec![], Some(di));
    assert_eq!(sample.value.encoding, Encoding(0));
}

#[test]
fn ensure_timestamp_stamps_once() {
    let key = KeyExpr::new("demo/example").unwrap();
    let mut sample = Sample::new(key, Value::new(vec![]));
    assert_eq!(sample.get_timestamp(), None);
    let t1 = sample.ensure_timestamp();
    assert_eq!(t1.id, ZenohId(0));
    assert_eq!(sample.get_timestamp(), Some(t1));
    let t2 = sample.ensure_timestamp();
    assert_eq!(t1, t2);
    assert_eq!(sample.get_timestamp(), Some(t1));
}

#[test]
fn sample_builder_style_updates() {
    let key = KeyExpr::new("demo/example").unwrap();
    let ts = Timestamp { time: 7, id: ZenohId(1) };
    let si = SourceInfo::new(Some(ZenohId(5)), None);
    let mut builder = AttachmentBuilder::new();
    builder.insert(b"k", b"v");
    let att = builder.build();

    let sample = Sample::new(key, Value::new(vec![1]))
        .with_timestamp(ts)
        .with_source_info(si)
        .with_attachment(att);
    assert_eq!(sample.timestamp, Some(ts));
    assert_eq!(sample.source_info.source_id(), Some(ZenohId(5)));
    let att = sample.attachment().unwrap();
    assert_eq!(att.get(b"k"), Some(b"v".to_vec()));

    let mut sample = sample;
    sample.set_attachment(None);
    assert!(sample.attachment().is_none());
}

#[test]
fn locality_default_is_any() {
    assert_eq!(Locality::default(), Locality::Any);
    assert_eq!(SampleKind::default(), SampleKind::Put);
}
