//! Per-message quality-of-service labels: priority, congestion control and
//! the express flag, with their compact one-byte wire encoding.
//!
//! Wire layout of the byte: bits 0-2 carry the priority ordinal (0-6),
//! bit 3 the congestion control (0 = Drop, 1 = Block), bit 4 the express
//! flag; the remaining bits are reserved and written as 0.

use vstd::prelude::*;

verus! {

/// Priority levels of a message, ordered from highest to lowest urgency.
#[derive(Clone, Copy, Debug, PartialEq, Eq, Structural)]
pub enum Priority {
    RealTime,
    InteractiveHigh,
    InteractiveLow,
    DataHigh,
    Data,
    DataLow,
    Background,
}

/// The wire ordinal of a priority level: 0 (highest) through 6 (lowest).
pub open spec fn priority_ordinal(p: Priority) -> u8 {
    match p {
        Priority::RealTime => 0,
        Priority::InteractiveHigh => 1,
        Priority::InteractiveLow => 2,
        Priority::DataHigh => 3,
        Priority::Data => 4,
        Priority::DataLow => 5,
        Priority::Background => 6,
    }
}

/// The priority level a wire ordinal stands for.
pub open spec fn priority_of_ordinal(n: u8) -> Priority
    recommends
        n <= 6,
{
    if n == 0 {
        Priority::RealTime
    } else if n == 1 {
        Priority::InteractiveHigh
    } else if n == 2 {
        Priority::InteractiveLow
    } else if n == 3 {
        Priority::DataHigh
    } else if n == 4 {
        Priority::Data
    } else if n == 5 {
        Priority::DataLow
    } else {
        Priority::Background
    }
}

impl Priority {
    /// The wire ordinal of this priority level.
    pub fn ordinal(self) -> (r: u8)
        ensures
            r == priority_ordinal(self),
    {
        match self {
            Priority::RealTime => 0,
            Priority::InteractiveHigh => 1,
            Priority::InteractiveLow => 2,
            Priority::DataHigh => 3,
            Priority::Data => 4,
            Priority::DataLow => 5,
            Priority::Background => 6,
        }
    }
}

impl Default for Priority {
    /// The default priority level is `Data`.
    fn default() -> (r: Self)
        ensures
            r == Priority::Data,
    {
        Priority::Data
    }
}

/// Congestion-control policy of a message: drop it under congestion, or
/// block until it can be sent.
#[derive(Clone, Copy, Debug, PartialEq, Eq, Structural)]
pub enum CongestionControl {
    Drop,
    Block,
}

impl Default for CongestionControl {
    /// The default congestion-control policy is `Drop`.
    fn default() -> (r: Self)
        ensures
            r == CongestionControl::Drop,
    {
        CongestionControl::Drop
    }
}

/// Quality-of-service label carried by each message: always a valid
/// combination of priority, congestion control and express flag.
#[derive(Clone, Copy, Debug, PartialEq, Eq, Structural)]
pub struct QoS {
    priority: Priority,
    congestion_control: CongestionControl,
    express: bool,
}

impl QoS {
    /// Whether this label is the default: priority `Data`, congestion
    /// control `Drop`, express off.
    pub open spec fn is_default(self) -> bool {
        self.spec_priority() == Priority::Data && self.spec_congestion_control()
            == CongestionControl::Drop && !self.spec_express()
    }

    /// The priority this label carries.
    pub closed spec fn spec_priority(self) -> Priority {
        self.priority
    }

    /// The congestion-control policy this label carries.
    pub closed spec fn spec_congestion_control(self) -> CongestionControl {
        self.congestion_control
    }

    /// The express flag this label carries.
    pub closed spec fn spec_express(self) -> bool {
        self.express
    }

    /// Gets the priority of the message.
    pub fn priority(&self) -> (r: Priority)
        ensures
            r == self.spec_priority(),
    {
        self.priority
    }

    /// Gets the congestion control of the message.
    pub fn congestion_control(&self) -> (r: CongestionControl)
        ensures
            r == self.spec_congestion_control(),
    {
        self.congestion_control
    }

    /// Gets the express flag. If true, the message is not batched during
    /// transmission, in order to reduce latency.
    pub fn express(&self) -> (r: bool)
        ensures
            r == self.spec_express(),
    {
        self.express
    }

    /// Sets the priority, leaving congestion control and express unchanged.
    pub fn with_priority(self, priority: Priority) -> (r: Self)
        ensures
            r.spec_priority() == priority,
            r.spec_congestion_control() == self.spec_congestion_control(),
            r.spec_express() == self.spec_express(),
    {
        QoS { priority, ..self }
    }

    /// Sets the congestion control, leaving priority and express unchanged.
    pub fn with_congestion_control(self, congestion_control: CongestionControl) -> (r: Self)
        ensures
            r.spec_congestion_control() == congestion_control,
            r.spec_priority() == self.spec_priority(),
            r.spec_express() == self.spec_express(),
    {
        QoS { congestion_control, ..self }
    }

    /// Sets the express flag, leaving priority and congestion control
    /// unchanged.
    pub fn with_express(self, is_express: bool) -> (r: Self)
        ensures
            r.spec_express() == is_express,
            r.spec_priority() == self.spec_priority(),
            r.spec_congestion_control() == self.spec_congestion_control(),
    {
        QoS { express: is_express, ..self }
    }

    /// Packs this label into its one-byte wire form: priority ordinal in the
    /// low three bits, congestion control in bit 3, express in bit 4,
    /// reserved bits written as 0.
    pub fn to_wire(&self) -> (r: u8)
        ensures
            r == priority_ordinal(self.spec_priority()) + (if self.spec_congestion_control()
                == CongestionControl::Block {
                8u8
            } else {
                0u8
            }) + (if self.spec_express() {
                16u8
            } else {
                0u8
            }),
            r < 32,
    {
        let mut b: u8 = self.priority.ordinal();
        if self.congestion_control == CongestionControl::Block {
            b = b + 8;
        }
        if self.express {
            b = b + 16;
        }
        b
    }

    /// Unpacks a wire byte into a label. Decoding is lenient: an
    /// out-of-range priority ordinal (7) is replaced by the default
    /// priority, and the second component of the result reports that
    /// fallback as an observability event; reserved bits are ignored.
    pub fn from_wire(b: u8) -> (r: (QoS, bool))
        ensures
            r.1 == (b & 7 == 7),
            r.0.spec_priority() == (if b & 7 == 7 {
                Priority::Data
            } else {
                priority_of_ordinal(b & 7)
            }),
            r.0.spec_congestion_control() == (if b & 8 == 8 {
                CongestionControl::Block
            } else {
                CongestionControl::Drop
            }),
            r.0.spec_express() == (b & 16 == 16),
    {
        let ord: u8 = b & 7;
        proof {
            assert(b & 7 <= 7) by (bit_vector);
        }
        let fallback: bool = ord == 7;
        let priority: Priority = if ord == 0 {
            Priority::RealTime
        } else if ord == 1 {
            Priority::InteractiveHigh
        } else if ord == 2 {
            Priority::InteractiveLow
        } else if ord == 3 {
            Priority::DataHigh
        } else if ord == 4 {
            Priority::Data
        } else if ord == 5 {
            Priority::DataLow
        } else if ord == 6 {
            Priority::Background
        } else {
            Priority::Data
        };
        let congestion_control: CongestionControl = if b & 8 == 8 {
            CongestionControl::Block
        } else {
            CongestionControl::Drop
        };
        let express: bool = b & 16 == 16;
        (QoS { priority, congestion_control, express }, fallback)
    }
}

impl Default for QoS {
    /// The default label: priority `Data`, congestion control `Drop`,
    /// express off.
    fn default() -> (r: Self)
        ensures
            r.spec_priority() == Priority::Data,
            r.spec_congestion_control() == CongestionControl::Drop,
            r.spec_express() == false,
    {
        QoS {
            priority: Priority::Data,
            congestion_control: CongestionControl::Drop,
            express: false,
        }
    }
}

} // verus!
