//! The decoded Mode S message, as far as the filters and counters read it.

use vstd::prelude::*;

verus! {

/// A 24-bit ICAO aircraft address.
#[derive(Debug, Clone, Copy, PartialEq, Eq, Structural)]
pub struct ICAO(pub u32);

/// Downlink Format of a decoded Mode S message, with the aircraft address
/// it carries: the announced address, or the address recovered from the
/// address/parity field.
#[derive(Debug, Clone, Copy, PartialEq, Eq, Structural)]
pub enum DF {
    /// DF0
    ShortAirAirSurveillance { ap: ICAO },
    /// DF4
    SurveillanceAltitudeReply { ap: ICAO },
    /// DF5
    SurveillanceIdentityReply { ap: ICAO },
    /// DF11
    AllCallReply { icao: ICAO },
    /// DF16
    LongAirAirSurveillance { ap: ICAO },
    /// DF17
    ExtendedSquitterADSB { icao24: ICAO },
    /// DF18, with the address announced in its control field
    ExtendedSquitterTisB { aa: ICAO },
    /// DF19, which carries no aircraft address
    ExtendedSquitterMilitary,
    /// DF20
    CommBAltitudeReply { ap: ICAO },
    /// DF21
    CommBIdentityReply { ap: ICAO },
    /// DF24
    CommDExtended { parity: ICAO },
}

/// A decoded Mode S message.
#[derive(Debug, Clone, Copy, PartialEq, Eq, Structural)]
pub struct Message {
    pub df: DF,
}

/// A received frame with its decoding, `None` when it could not be decoded.
#[derive(Debug, Clone)]
pub struct TimedMessage {
    pub frame: Vec<u8>,
    pub message: Option<Message>,
}

} // verus!
