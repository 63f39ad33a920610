//! Message filters on Downlink Format and aircraft address.

use vstd::prelude::*;
use crate::decode::{DF, ICAO, TimedMessage};
use crate::metrics::{df_number, spec_df_number};

verus! {

/// Optional lists of accepted Downlink Formats and aircraft addresses.
#[derive(Debug)]
pub struct Filters {
    pub df_filter: Option<Vec<u16>>,
    pub aircraft_filter: Option<Vec<ICAO>>,
}

/// The two fields a filter looks at, extracted once per message so that
/// several filters (the global one, then one per /stream client) can be
/// applied without walking the decoded message again.
#[derive(Debug, Clone, Copy, PartialEq, Eq, Structural)]
pub struct FilterKey {
    pub df: u16,
    /// DF19 carries no aircraft address
    pub icao24: Option<ICAO>,
}

/// The aircraft address a Downlink Format carries.
pub open spec fn spec_address(df: DF) -> Option<ICAO> {
    match df {
        DF::ShortAirAirSurveillance { ap } => Some(ap),
        DF::SurveillanceAltitudeReply { ap } => Some(ap),
        DF::SurveillanceIdentityReply { ap } => Some(ap),
        DF::AllCallReply { icao } => Some(icao),
        DF::LongAirAirSurveillance { ap } => Some(ap),
        DF::ExtendedSquitterADSB { icao24 } => Some(icao24),
        DF::ExtendedSquitterTisB { aa } => Some(aa),
        DF::ExtendedSquitterMilitary => None,
        DF::CommBAltitudeReply { ap } => Some(ap),
        DF::CommBIdentityReply { ap } => Some(ap),
        DF::CommDExtended { parity } => Some(parity),
    }
}

/// The filter key of a message: `None` when it could not be decoded.
pub open spec fn spec_key(msg: TimedMessage) -> Option<FilterKey> {
    match msg.message {
        None => None,
        Some(m) => Some(FilterKey { df: spec_df_number(m.df) as u16, icao24: spec_address(m.df) }),
    }
}

/// Whether a list filter accepts the key: an absent or empty list accepts
/// everything.
pub open spec fn spec_matches(f: Filters, key: FilterKey) -> bool {
    let aircraft_ok = match f.aircraft_filter {
        Some(list) if list@.len() > 0 => match key.icao24 {
            Some(a) => list@.contains(a),
            None => false,
        },
        _ => true,
    };
    let df_ok = match f.df_filter {
        Some(list) if list@.len() > 0 => list@.contains(key.df),
        _ => true,
    };
    aircraft_ok && df_ok
}

fn contains_icao(list: &Vec<ICAO>, x: ICAO) -> (r: bool)
    ensures
        r == list@.contains(x),
{
    let mut i: usize = 0;
    while i < list.len()
        invariant
            0 <= i <= list@.len(),
            forall|j: int| 0 <= j < i ==> list@[j] != x,
        decreases list@.len() - i,
    {
        if list[i] == x {
            return true;
        }
        i = i + 1;
    }
    false
}

fn contains_u16(list: &Vec<u16>, x: u16) -> (r: bool)
    ensures
        r == list@.contains(x),
{
    let mut i: usize = 0;
    while i < list.len()
        invariant
            0 <= i <= list@.len(),
            forall|j: int| 0 <= j < i ==> list@[j] != x,
        decreases list@.len() - i,
    {
        if list[i] == x {
            return true;
        }
        i = i + 1;
    }
    false
}

impl Filters {
    /// None when the message could not be decoded
    pub fn key(msg: &TimedMessage) -> (key: Option<FilterKey>)
        ensures
            key == spec_key(*msg),
    {
        let m = match &msg.message {
            Some(m) => m,
            None => {
                return None;
            },
        };
        let icao24 = match m.df {
            DF::ShortAirAirSurveillance { ap } => Some(ap),
            DF::SurveillanceAltitudeReply { ap } => Some(ap),
            DF::SurveillanceIdentityReply { ap } => Some(ap),
            DF::AllCallReply { icao } => Some(icao),
            DF::LongAirAirSurveillance { ap } => Some(ap),
            DF::ExtendedSquitterADSB { icao24 } => Some(icao24),
            DF::ExtendedSquitterTisB { aa } => Some(aa),
            DF::ExtendedSquitterMilitary => None,
            DF::CommBAltitudeReply { ap } => Some(ap),
            DF::CommBIdentityReply { ap } => Some(ap),
            DF::CommDExtended { parity } => Some(parity),
        };
        Some(FilterKey { df: df_number(&m.df) as u16, icao24 })
    }

    /// An absent or empty list accepts everything, as the CLI options do
    pub fn matches(&self, key: &FilterKey) -> (r: bool)
        ensures
            r == spec_matches(*self, *key),
    {
        let aircraft_ok = match &self.aircraft_filter {
            Some(list) => if list.len() > 0 {
                match key.icao24 {
                    Some(icao24) => contains_icao(list, icao24),
                    None => false,
                }
            } else {
                true
            },
            None => true,
        };
        let df_ok = match &self.df_filter {
            Some(list) => if list.len() > 0 {
                contains_u16(list, key.df)
            } else {
                true
            },
            None => true,
        };
        aircraft_ok && df_ok
    }

    /// Whether the message decodes and its key passes the filter.
    pub fn is_in(&self, msg: &TimedMessage) -> (r: bool)
        ensures
            r == (spec_key(*msg) matches Some(k) && spec_matches(*self, k)),
    {
        match Self::key(msg) {
            Some(key) => self.matches(&key),
            None => false,
        }
    }
}

/// A filter with absent or empty lists accepts every key.
pub proof fn lemma_absent_or_empty_accepts(f: Filters, key: FilterKey)
    requires
        f.df_filter matches Some(l) ==> l@.len() == 0,
        f.aircraft_filter matches Some(l) ==> l@.len() == 0,
    ensures
        spec_matches(f, key),
{
}

/// A message without an aircraft address never passes a non-empty
/// aircraft list.
pub proof fn lemma_no_address_fails_aircraft_list(f: Filters, key: FilterKey)
    requires
        key.icao24 is None,
        f.aircraft_filter matches Some(l) && l@.len() > 0,
    ensures
        !spec_matches(f, key),
{
}

/// The Downlink Format of a message's key is its Downlink Format number.
pub proof fn lemma_key_df(msg: TimedMessage)
    requires
        msg.message is Some,
    ensures
        spec_key(msg) matches Some(k) && k.df == spec_df_number(msg.message->0.df),
        spec_key(msg)->0.icao24 is None <==> msg.message->0.df is ExtendedSquitterMilitary,
{
}

/// A key passes a filter exactly when each non-empty list holds, at some
/// position, the key's value: its Downlink Format, and its aircraft address
/// (which a key without an address never has). The position does not matter.
pub proof fn lemma_list_membership(f: Filters, key: FilterKey)
    ensures
        spec_matches(f, key) <==> (match f.df_filter {
            Some(l) => l@.len() > 0 ==> exists|i: int| 0 <= i < l@.len() && #[trigger] l@[i] == key.df,
            None => true,
        } && match f.aircraft_filter {
            Some(l) => l@.len() > 0 ==> exists|i: int|
                0 <= i < l@.len() && key.icao24 == Some(#[trigger] l@[i]),
            None => true,
        }),
{
    if let Some(l) = f.df_filter {
        if l@.contains(key.df) {
            let i = choose|i: int| 0 <= i < l@.len() && l@[i] == key.df;
            assert(l@[i] == key.df);
        }
    }
    if let Some(l) = f.aircraft_filter {
        if let Some(a) = key.icao24 {
            if l@.contains(a) {
                let i = choose|i: int| 0 <= i < l@.len() && l@[i] == a;
                assert(key.icao24 == Some(l@[i]));
            }
        }
    }
}

} // verus!
