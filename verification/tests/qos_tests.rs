use zenoh_envelope::qos::{CongestionControl, Priority, QoS};

#[test]
fn qos_defaults() {
    let q = QoS::default();
    assert_eq!(q.priority(), Priority::Data);
    assert_eq!(q.congestion_control(), CongestionControl::Drop);
    assert!(!q.express());
}

#[test]
fn qos_setters_independent() {
    let q = QoS::default().with_congestion_control(CongestionControl::Block);
    let q2 = q.with_priority(Priority::RealTime).with_express(true);
    assert_eq!(q2.congestion_control(), q.congestion_control());
    assert_eq!(q2.priority(), Priority::RealTime);
    assert!(q2.express());

    let q3 = q2.with_congestion_control(CongestionControl::Drop);
    assert_eq!(q3.priority(), Priority::RealTime);
    assert!(q3.express());
    assert_eq!(q3.congestion_control(), CongestionControl::Drop);
}

#[test]
fn qos_wire_byte_layout() {
    assert_eq!(QoS::default().to_wire(), 4);
    assert_eq!(QoS::default().with_priority(Priority::RealTime).to_wire(), 0);
    assert_eq!(QoS::default().with_priority(Priority::Background).to_wire(), 6);
    assert_eq!(
        QoS::default()
            .with_priority(Priority::InteractiveHigh)
            .with_congestion_control(CongestionControl::Block)
            .to_wire(),
        1 + 8
    );
    assert_eq!(QoS::default().with_express(true).to_wire(), 4 + 16);
}

#[test]
fn qos_wire_round_trip() {
    for p in [
        Priority::RealTime,
        Priority::InteractiveHigh,
        Priority::InteractiveLow,
        Priority::DataHigh,
        Priority::Data,
        Priority::DataLow,
        Priority::Background,
    ] {
        for cc in [CongestionControl::Drop, CongestionControl::Block] {
            for express in [false, true] {
                let q = QoS::default()
                    .with_priority(p)
                    .with_congestion_control(cc)
                    .with_express(express);
                let (q2, fell_back) = QoS::from_wire(q.to_wire());
                assert!(!fell_back);
                assert_eq!(q2, q);
            }
        }
    }
}

#[test]
fn qos_decode_fallback_is_lenient() {
    // Ordinal 7 is out of range: the default priority is substituted and
    // the fallback is reported as an event, not an error.
    let (q, fell_back) = QoS::from_wire(7);
    assert!(fell_back);
    assert_eq!(q.priority(), Priority::Data);

    let (q, fell_back) = QoS::from_wire(7 + 8 + 16);
    assert!(fell_back);
    assert_eq!(q.priority(), Priority::Data);
    assert_eq!(q.congestion_control(), CongestionControl::Block);
    assert!(q.express());

    // Reserved bits are ignored.
    let (q, fell_back) = QoS::from_wire(0b1110_0100);
    assert!(!fell_back);
    assert_eq!(q, QoS::default());
}
