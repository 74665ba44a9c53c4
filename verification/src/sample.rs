//! The message envelope: `Sample` aggregates a key expression, a payload
//! with its encoding, a kind, an optional timestamp, a quality-of-service
//! label, optional source identity and an optional attachment. `DataInfo`
//! is the wire-level optional-metadata bundle a receiver merges with a
//! payload; `SourceInfo` is its projection identifying the publisher.

use crate::attachment::Attachment;
use crate::params::SelectorError;
use crate::qos::QoS;
use crate::selector::KeyExpr;
use vstd::prelude::*;

verus! {

/// A per-source monotonic sequence number.
pub type SourceSn = u64;

/// The kind of a sample: a value being put, or a deletion.
#[derive(Clone, Copy, Debug, PartialEq, Eq, Structural)]
pub enum SampleKind {
    Put,
    Delete,
}

impl Default for SampleKind {
    /// The default kind is `Put`.
    fn default() -> (r: Self)
        ensures
            r == SampleKind::Put,
    {
        SampleKind::Put
    }
}

/// The locality of samples to be received by subscribers or targeted by
/// publishers.
#[derive(Clone, Copy, Debug, PartialEq, Eq, Structural)]
pub enum Locality {
    SessionLocal,
    Remote,
    Any,
}

impl Default for Locality {
    /// The default locality is `Any`.
    fn default() -> (r: Self)
        ensures
            r == Locality::Any,
    {
        Locality::Any
    }
}

/// The global unique id of a peer, as a 128-bit value.
#[derive(Clone, Copy, Debug, PartialEq, Eq, Hash, Structural)]
pub struct ZenohId(pub u128);

/// A timestamp: a 32.32 fixed-point count of seconds since the Unix epoch,
/// tagged with the id of the clock that produced it.
#[derive(Clone, Copy, Debug, PartialEq, Eq, Structural)]
pub struct Timestamp {
    pub time: u64,
    pub id: ZenohId,
}

/// The codec identifier associated with a payload.
#[derive(Clone, Copy, Debug, PartialEq, Eq, Structural)]
pub struct Encoding(pub u8);

impl Default for Encoding {
    /// The default encoding identifier is 0.
    fn default() -> (r: Self)
        ensures
            r == Encoding(0),
    {
        Encoding(0)
    }
}

/// A payload together with its encoding identifier.
#[derive(Debug, Clone)]
pub struct Value {
    pub payload: Vec<u8>,
    pub encoding: Encoding,
}

impl Value {
    /// Wraps a payload with the default encoding.
    pub fn new(payload: Vec<u8>) -> (r: Value)
        ensures
            r.payload@ == payload@,
            r.encoding == Encoding(0),
    {
        Value { payload, encoding: Encoding(0) }
    }
}

/// Identity of the publisher of a sample: its id and its per-source
/// sequence number, each optional.
#[derive(Debug, Clone)]
pub struct SourceInfo {
    id: ZenohId,
    sn: SourceSn,
    has_id: bool,
    has_sn: bool,
}

impl SourceInfo {
    /// The id of the instance that published the sample, if known.
    pub closed spec fn spec_source_id(self) -> Option<ZenohId> {
        if self.has_id {
            Some(self.id)
        } else {
            None
        }
    }

    /// The sequence number of the sample from its source, if known.
    pub closed spec fn spec_source_sn(self) -> Option<SourceSn> {
        if self.has_sn {
            Some(self.sn)
        } else {
            None
        }
    }

    /// The source info with both fields absent.
    pub fn empty() -> (r: SourceInfo)
        ensures
            r.spec_source_id() is None,
            r.spec_source_sn() is None,
    {
        SourceInfo { id: ZenohId(0), sn: 0, has_id: false, has_sn: false }
    }

    /// The source info a pair of optional fields stands for: absent fields
    /// are stored as the zero placeholder behind a presence flag.
    pub closed spec fn spec_from_parts(
        source_id: Option<ZenohId>,
        source_sn: Option<SourceSn>,
    ) -> SourceInfo {
        SourceInfo {
            id: match source_id {
                Some(i) => i,
                None => ZenohId(0),
            },
            sn: match source_sn {
                Some(n) => n,
                None => 0u64,
            },
            has_id: source_id is Some,
            has_sn: source_sn is Some,
        }
    }

    /// Builds a source info from its optional fields.
    pub fn new(source_id: Option<ZenohId>, source_sn: Option<SourceSn>) -> (r: SourceInfo)
        ensures
            r == SourceInfo::spec_from_parts(source_id, source_sn),
            r.spec_source_id() == source_id,
            r.spec_source_sn() == source_sn,
    {
        let (id, has_id) = match source_id {
            Some(i) => (i, true),
            None => (ZenohId(0), false),
        };
        let (sn, has_sn) = match source_sn {
            Some(n) => (n, true),
            None => (0u64, false),
        };
        SourceInfo { id, sn, has_id, has_sn }
    }

    /// The id of the instance that published the sample, if known.
    pub fn source_id(&self) -> (r: Option<ZenohId>)
        ensures
            r == self.spec_source_id(),
    {
        if self.has_id {
            Some(self.id)
        } else {
            None
        }
    }

    /// The sequence number of the sample from its source, if known.
    pub fn source_sn(&self) -> (r: Option<SourceSn>)
        ensures
            r == self.spec_source_sn(),
    {
        if self.has_sn {
            Some(self.sn)
        } else {
            None
        }
    }

    /// The projection of a metadata bundle onto the publisher's identity.
    pub fn from_data_info(di: &DataInfo) -> (r: SourceInfo)
        ensures
            r == SourceInfo::spec_from_parts(di.source_id, di.source_sn),
            r.spec_source_id() == di.source_id,
            r.spec_source_sn() == di.source_sn,
    {
        SourceInfo::new(di.source_id, di.source_sn)
    }

    /// The projection of an optional metadata bundle: empty when the bundle
    /// is absent.
    pub fn from_data_info_opt(di: &Option<DataInfo>) -> (r: SourceInfo)
        ensures
            match di {
                Some(d) => r.spec_source_id() == d.source_id && r.spec_source_sn() == d.source_sn,
                None => r.spec_source_id() is None && r.spec_source_sn() is None,
            },
    {
        match di {
            Some(d) => SourceInfo::from_data_info(d),
            None => SourceInfo::empty(),
        }
    }
}

impl From<DataInfo> for SourceInfo {
    /// The projection of a metadata bundle onto the publisher's identity.
    fn from(di: DataInfo) -> (r: SourceInfo)
        ensures
            r.spec_source_id() == di.source_id,
            r.spec_source_sn() == di.source_sn,
    {
        SourceInfo::from_data_info(&di)
    }
}

impl vstd::std_specs::convert::FromSpecImpl<DataInfo> for SourceInfo {
    open spec fn obeys_from_spec() -> bool {
        true
    }

    open spec fn from_spec(di: DataInfo) -> SourceInfo {
        SourceInfo::spec_from_parts(di.source_id, di.source_sn)
    }
}

/// The wire-level optional-metadata bundle attached to a raw payload before
/// a sample is reconstructed.
#[derive(Debug, Clone, PartialEq, Eq)]
pub struct DataInfo {
    pub kind: SampleKind,
    pub encoding: Option<Encoding>,
    pub timestamp: Option<Timestamp>,
    pub source_id: Option<ZenohId>,
    pub source_sn: Option<SourceSn>,
    pub qos: QoS,
}

impl Default for DataInfo {
    /// A bundle with every optional field absent and defaults elsewhere.
    fn default() -> (r: Self)
        ensures
            r.kind == SampleKind::Put,
            r.encoding is None,
            r.timestamp is None,
            r.source_id is None,
            r.source_sn is None,
            r.qos.is_default(),
    {
        DataInfo {
            kind: SampleKind::Put,
            encoding: None,
            timestamp: None,
            source_id: None,
            source_sn: None,
            qos: QoS::default(),
        }
    }
}

/// Relies on `std::time::SystemTime::now` (through `uhlc::NTP64`'s
/// conversion from `Duration`): the current wall clock as a 32.32
/// fixed-point count of seconds since the Unix epoch. Nothing is promised
/// of the value: it depends on the clock; a clock before the epoch reads
/// as zero rather than failing.
#[verifier::external_body]
fn now_ntp64() -> u64 {
    let d = std::time::SystemTime::now().duration_since(std::time::SystemTime::UNIX_EPOCH)
        .unwrap_or(std::time::Duration::ZERO);
    uhlc::NTP64::from(d).as_u64()
}

/// The message envelope delivered to and from the system.
#[derive(Debug, Clone)]
pub struct Sample {
    /// The key expression on which this sample was published.
    pub key_expr: KeyExpr,
    /// The payload and its encoding.
    pub value: Value,
    /// Whether the sample puts or deletes a value.
    pub kind: SampleKind,
    /// The timestamp, absent until stamped.
    pub timestamp: Option<Timestamp>,
    /// The quality-of-service label the sample was sent with.
    pub qos: QoS,
    /// The identity of the publisher, when known.
    pub source_info: SourceInfo,
    /// Raw key/value byte pairs carried alongside the payload.
    pub attachment: Option<Attachment>,
}

impl Sample {
    /// Creates a sample on the producer path: kind `Put`, no timestamp,
    /// default quality of service, empty source info, no attachment.
    pub fn new(key_expr: KeyExpr, value: Value) -> (r: Sample)
        ensures
            r.key_expr == key_expr,
            r.value == value,
            r.kind == SampleKind::Put,
            r.timestamp is None,
            r.qos.is_default(),
            r.source_info.spec_source_id() is None,
            r.source_info.spec_source_sn() is None,
            r.attachment is None,
    {
        Sample {
            key_expr,
            value,
            kind: SampleKind::Put,
            timestamp: None,
            qos: QoS::default(),
            source_info: SourceInfo::empty(),
            attachment: None,
        }
    }

    /// Creates a sample from an unvalidated key-expression string; the only
    /// fallible construction path, failing exactly when the key expression
    /// is rejected.
    pub fn try_from(key_expr: &str, value: Value) -> (r: Result<Sample, SelectorError>)
        ensures
            match r {
                Ok(smp) => crate::selector::is_valid_key_expr(key_expr@) && smp.key_expr@
                    == key_expr@ && smp.value == value && smp.kind == SampleKind::Put
                    && smp.timestamp is None && smp.qos.is_default()
                    && smp.source_info.spec_source_id() is None
                    && smp.source_info.spec_source_sn() is None && smp.attachment is None,
                Err(e) => !crate::selector::is_valid_key_expr(key_expr@) && e
                    == SelectorError::InvalidKeyExpr,
            },
    {
        match KeyExpr::new(key_expr) {
            Ok(k) => Ok(Sample::new(k, value)),
            Err(e) => Err(e),
        }
    }

    /// Creates a sample on the receive path, merging a payload with an
    /// optional metadata bundle: when the bundle is present its kind,
    /// timestamp, quality of service, source identity and (when present)
    /// encoding are taken from it; when absent, producer defaults apply.
    pub fn with_info(key_expr: KeyExpr, payload: Vec<u8>, data_info: Option<DataInfo>) -> (r:
        Sample)
        ensures
            r.key_expr == key_expr,
            r.value.payload@ == payload@,
            r.attachment is None,
            match data_info {
                Some(di) => r.kind == di.kind && r.timestamp == di.timestamp && r.qos == di.qos
                    && r.source_info.spec_source_id() == di.source_id
                    && r.source_info.spec_source_sn() == di.source_sn && r.value.encoding == (
                match di.encoding {
                    Some(e) => e,
                    None => Encoding(0),
                }),
                None => r.kind == SampleKind::Put && r.timestamp is None && r.qos.is_default()
                    && r.source_info.spec_source_id() is None
                    && r.source_info.spec_source_sn() is None && r.value.encoding == Encoding(0),
            },
    {
        let mut value = Value::new(payload);
        match data_info {
            Some(di) => {
                if let Some(encoding) = di.encoding {
                    value.encoding = encoding;
                }
                let source_info = SourceInfo::from_data_info(&di);
                Sample {
                    key_expr,
                    value,
                    kind: di.kind,
                    timestamp: di.timestamp,
                    qos: di.qos,
                    source_info,
                    attachment: None,
                }
            },
            None => Sample {
                key_expr,
                value,
                kind: SampleKind::Put,
                timestamp: None,
                qos: QoS::default(),
                source_info: SourceInfo::empty(),
                attachment: None,
            },
        }
    }

    /// Gets the timestamp of this sample, if stamped.
    pub fn get_timestamp(&self) -> (r: Option<Timestamp>)
        ensures
            r == self.timestamp,
    {
        self.timestamp
    }

    /// Returns this sample stamped with the given timestamp; every other
    /// field is kept.
    pub fn with_timestamp(self, timestamp: Timestamp) -> (r: Self)
        ensures
            r.timestamp == Some(timestamp),
            r.key_expr == self.key_expr,
            r.value == self.value,
            r.kind == self.kind,
            r.qos == self.qos,
            r.source_info == self.source_info,
            r.attachment == self.attachment,
    {
        Sample { timestamp: Some(timestamp), ..self }
    }

    /// Returns this sample with the given source info; every other field is
    /// kept.
    pub fn with_source_info(self, source_info: SourceInfo) -> (r: Self)
        ensures
            r.source_info == source_info,
            r.key_expr == self.key_expr,
            r.value == self.value,
            r.kind == self.kind,
            r.timestamp == self.timestamp,
            r.qos == self.qos,
            r.attachment == self.attachment,
    {
        Sample { source_info, ..self }
    }

    /// The explicit unstamped-to-stamped transition: if no timestamp is
    /// present, stamp the sample with the clock read at this call, tagged
    /// with the zero placeholder id, and keep it; if one is present, change
    /// nothing. Returns the sample's timestamp either way.
    pub fn ensure_timestamp(&mut self) -> (r: Timestamp)
        ensures
            final(self).timestamp == Some(r),
            old(self).timestamp matches Some(t) ==> r == t && *final(self) == *old(self),
            old(self).timestamp is None ==> r.id == ZenohId(0),
            final(self).key_expr == old(self).key_expr,
            final(self).value == old(self).value,
            final(self).kind == old(self).kind,
            final(self).qos == old(self).qos,
            final(self).source_info == old(self).source_info,
            final(self).attachment == old(self).attachment,
    {
        match self.timestamp {
            Some(t) => t,
            None => {
                let ts = Timestamp { time: now_ntp64(), id: ZenohId(0) };
                self.timestamp = Some(ts);
                ts
            },
        }
    }

    /// The attachment carried by this sample, if any.
    pub fn attachment(&self) -> (r: Option<&Attachment>)
        ensures
            match r {
                Some(a) => self.attachment == Some(*a),
                None => self.attachment is None,
            },
    {
        self.attachment.as_ref()
    }

    /// Replaces the attachment slot in place.
    pub fn set_attachment(&mut self, attachment: Option<Attachment>)
        ensures
            final(self).attachment == attachment,
            final(self).key_expr == old(self).key_expr,
            final(self).value == old(self).value,
            final(self).kind == old(self).kind,
            final(self).timestamp == old(self).timestamp,
            final(self).qos == old(self).qos,
            final(self).source_info == old(self).source_info,
    {
        self.attachment = attachment;
    }

    /// Returns this sample carrying the given attachment; every other field
    /// is kept.
    pub fn with_attachment(self, attachment: Attachment) -> (r: Self)
        ensures
            r.attachment == Some(attachment),
            r.key_expr == self.key_expr,
            r.value == self.value,
            r.kind == self.kind,
            r.timestamp == self.timestamp,
            r.qos == self.qos,
            r.source_info == self.source_info,
    {
        Sample { attachment: Some(attachment), ..self }
    }
}

} // verus!
