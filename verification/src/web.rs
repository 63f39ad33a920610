//! Query handling of the web API: the live-stream filters parsed from
//! comma-separated query parameters, what a live-stream client does with
//! each delivery, per-sensor statistics and the airport search.

use vstd::prelude::*;
use std::collections::BTreeMap;
use crate::decode::{DF, ICAO};
use crate::filters::{FilterKey, Filters};
use crate::metrics::spec_df_number;
use crate::text::{chars_to_string, list_items, parse_radix, parse_unsigned, split_list, vecs_view};

verus! {

broadcast use vstd::laws_cmp::group_laws_cmp;

/// A decoded message as broadcast to /stream subscribers. The JSON is
/// serialized once by the decoder and shared by every client.
pub struct StreamEvent {
    pub key: FilterKey,
    pub json: String,
}

/// Information required to search for airports
pub struct AirportQuery {
    pub q: String,
}

/// Optional filters for the live stream, as comma-separated lists
pub struct StreamQuery {
    pub icao24: Option<String>,
    pub df: Option<String>,
}

/// Whether `df` is a Downlink Format the decoder can produce, so a typo
/// like `df=71` gets a 400 instead of a stream that stays silent forever.
pub open spec fn is_downlink_format(df: u16) -> bool {
    df == 0 || df == 4 || df == 5 || df == 11 || df == 16 || df == 17 || df == 18 || df == 19
        || df == 20 || df == 21 || df == 24
}

fn downlink_format(df: u16) -> (r: bool)
    ensures
        r == is_downlink_format(df),
{
    df == 0 || df == 4 || df == 5 || df == 11 || df == 16 || df == 17 || df == 18 || df == 19
        || df == 20 || df == 21 || df == 24
}

/// An item of a comma-separated query list.
pub trait ListItem: Sized {
    /// The item that the text `s` denotes, if any.
    spec fn spec_parse(s: Seq<char>) -> Option<Self>;

    fn parse_item(s: &Vec<char>) -> (r: Option<Self>)
        ensures
            r == Self::spec_parse(s@),
    ;
}

impl ListItem for ICAO {
    /// A hexadecimal `u32`, as `ICAO::from_str` reads it.
    open spec fn spec_parse(s: Seq<char>) -> Option<ICAO> {
        match parse_radix(s, 16, 0xFFFF_FFFF) {
            Some(v) => Some(ICAO(v as u32)),
            None => None,
        }
    }

    fn parse_item(s: &Vec<char>) -> (r: Option<ICAO>) {
        match parse_unsigned(s, 16, 0xFFFF_FFFF) {
            Some(v) => Some(ICAO(v as u32)),
            None => None,
        }
    }
}

impl ListItem for u16 {
    /// A decimal `u16`, as `u16::from_str` reads it.
    open spec fn spec_parse(s: Seq<char>) -> Option<u16> {
        match parse_radix(s, 10, 0xFFFF) {
            Some(v) => Some(v as u16),
            None => None,
        }
    }

    fn parse_item(s: &Vec<char>) -> (r: Option<u16>) {
        match parse_unsigned(s, 10, 0xFFFF) {
            Some(v) => Some(v as u16),
            None => None,
        }
    }
}

/// Parsing the items in order: the accepted values, or the first item
/// that does not parse or is not valid.
pub open spec fn parse_items<T: ListItem>(items: Seq<Seq<char>>, valid: spec_fn(T) -> bool) -> Result<
    Seq<T>,
    Seq<char>,
>
    decreases items.len(),
{
    if items.len() == 0 {
        Ok(Seq::empty())
    } else {
        match parse_items(items.drop_last(), valid) {
            Err(bad) => Err(bad),
            Ok(v) => match T::spec_parse(items.last()) {
                Some(x) => if valid(x) {
                    Ok(v.push(x))
                } else {
                    Err(items.last())
                },
                None => Err(items.last()),
            },
        }
    }
}

/// A comma-separated query parameter: `None` when absent or empty, else
/// its items, or the message naming the first invalid item.
pub open spec fn spec_parse_list<T: ListItem>(
    value: Option<Seq<char>>,
    name: Seq<char>,
    valid: spec_fn(T) -> bool,
) -> Result<Option<Seq<T>>, Seq<char>> {
    match value {
        None => Ok(None),
        Some(v) => match parse_items(list_items(v), valid) {
            Err(bad) => Err("invalid "@ + name + ": "@ + bad),
            Ok(list) => if list.len() == 0 {
                Ok(None)
            } else {
                Ok(Some(list))
            },
        },
    }
}

/// The characters of an optional string slice.
pub open spec fn opt_str(o: Option<&str>) -> Option<Seq<char>> {
    match o {
        Some(s) => Some(s@),
        None => None,
    }
}

/// Whether a parse result agrees with its specification.
pub open spec fn list_agrees<T>(res: Result<Option<Vec<T>>, String>, spec: Result<Option<Seq<T>>, Seq<char>>) -> bool {
    match (res, spec) {
        (Ok(None), Ok(None)) => true,
        (Ok(Some(v)), Ok(Some(l))) => v@ == l,
        (Err(m), Err(t)) => m@ == t,
        _ => false,
    }
}

/// Parses a comma-separated query parameter. An absent or empty list
/// becomes None, which the filters treat as "everything".
fn parse_list<T: ListItem>(
    value: Option<&str>,
    name: &str,
    valid: impl Fn(&T) -> bool,
    Ghost(valid_spec): Ghost<spec_fn(T) -> bool>,
) -> (res: Result<Option<Vec<T>>, String>)
    requires
        forall|t: &T| valid.requires((t,)),
        forall|t: &T, r: bool| valid.ensures((t,), r) ==> r == valid_spec(*t),
    ensures
        list_agrees(res, spec_parse_list(opt_str(value), name@, valid_spec)),
{
    let text = match value {
        Some(v) => v,
        None => {
            return Ok(None);
        },
    };
    let items = split_list(text);
    let ghost its = vecs_view(items@);
    let mut list: Vec<T> = Vec::new();
    let mut i: usize = 0;
    while i < items.len()
        invariant
            0 <= i <= items@.len(),
            its == vecs_view(items@),
            its == list_items(text@),
            value == Some(text),
            forall|t: &T| valid.requires((t,)),
            forall|t: &T, r: bool| valid.ensures((t,), r) ==> r == valid_spec(*t),
            parse_items(its.take(i as int), valid_spec) == Ok::<Seq<T>, Seq<char>>(list@),
        decreases items@.len() - i,
    {
        proof {
            assert(its.take(i + 1).drop_last() =~= its.take(i as int));
            assert(its.take(i + 1).last() == items@[i as int]@);
        }
        let item = &items[i];
        let parsed = T::parse_item(item);
        let accepted = match &parsed {
            Some(x) => valid(x),
            None => false,
        };
        if accepted {
            match parsed {
                Some(x) => {
                    list.push(x);
                },
                None => {},
            }
        } else {
            let mut msg = String::from_str("invalid ");
            msg.append(name);
            msg.append(": ");
            let bad = chars_to_string(item);
            msg.append(bad.as_str());
            proof {
                assert(parse_items(its.take(i + 1), valid_spec) == Err::<Seq<T>, Seq<char>>(item@));
                lemma_first_error_persists(its, (i + 1) as int, valid_spec);
            }
            return Err(msg);
        }
        i = i + 1;
    }
    proof {
        assert(its.take(i as int) =~= its);
    }
    if list.len() == 0 {
        Ok(None)
    } else {
        Ok(Some(list))
    }
}

/// Once a prefix of the items fails, every longer prefix fails on the same item.
proof fn lemma_first_error_persists<T: ListItem>(items: Seq<Seq<char>>, k: int, valid: spec_fn(T) -> bool)
    requires
        0 <= k <= items.len(),
        parse_items(items.take(k), valid) is Err,
    ensures
        parse_items(items, valid) == parse_items(items.take(k), valid),
    decreases items.len() - k,
{
    if k < items.len() {
        assert(items.take(k + 1).drop_last() =~= items.take(k));
        lemma_first_error_persists(items, k + 1, valid);
    } else {
        assert(items.take(k) =~= items);
    }
}

/// Addresses fit in 24 bits.
pub open spec fn valid_icao() -> spec_fn(ICAO) -> bool {
    |icao: ICAO| icao.0 <= 0xffffff
}

/// Downlink Formats are those the decoder can produce.
pub open spec fn valid_df() -> spec_fn(u16) -> bool {
    |df: u16| is_downlink_format(df)
}

fn as_opt_str(s: &Option<String>) -> (r: Option<&str>)
    ensures
        opt_str(r) == crate::text::opt_chars(*s),
{
    match s {
        Some(s) => Some(s.as_str()),
        None => None,
    }
}

/// The characters of an optional list.
pub open spec fn opt_seq<T>(o: Option<Vec<T>>) -> Option<Seq<T>> {
    match o {
        Some(v) => Some(v@),
        None => None,
    }
}

/// The live-stream filters of a query: both lists parsed, the aircraft
/// list first; the message of the first invalid item otherwise.
pub fn stream_filters(q: &StreamQuery) -> (res: Result<Filters, String>)
    ensures
        match spec_parse_list(crate::text::opt_chars(q.icao24), "icao24"@, valid_icao()) {
            Err(m) => res matches Err(e) && e@ == m,
            Ok(aircraft) => match spec_parse_list(crate::text::opt_chars(q.df), "df"@, valid_df()) {
                Err(m) => res matches Err(e) && e@ == m,
                Ok(dfs) => res matches Ok(f) && opt_seq(f.aircraft_filter) == aircraft && opt_seq(
                    f.df_filter,
                ) == dfs,
            },
        },
{
    let icao_ok = |icao: &ICAO| -> (r: bool)
        ensures
            r == (icao.0 <= 0xffffff),
        {
            let a: u32 = icao.0;
            a <= 0xffffff
        };
    let df_ok = |df: &u16| -> (r: bool)
        ensures
            r == is_downlink_format(*df),
        {
            let d: u16 = *df;
            downlink_format(d)
        };
    let aircraft_filter = match parse_list(as_opt_str(&q.icao24), "icao24", icao_ok, Ghost(valid_icao())) {
        Ok(l) => l,
        Err(e) => {
            return Err(e);
        },
    };
    let df_filter = match parse_list(as_opt_str(&q.df), "df", df_ok, Ghost(valid_df())) {
        Ok(l) => l,
        Err(e) => {
            return Err(e);
        },
    };
    Ok(Filters { aircraft_filter, df_filter })
}

/// Every parsed item is valid, and one is parsed per list item.
pub proof fn lemma_parsed_items_valid<T: ListItem>(items: Seq<Seq<char>>, valid: spec_fn(T) -> bool)
    ensures
        parse_items(items, valid) matches Ok(l) ==> l.len() == items.len() && forall|k: int|
            0 <= k < l.len() ==> valid(#[trigger] l[k]),
    decreases items.len(),
{
    if items.len() > 0 {
        lemma_parsed_items_valid(items.drop_last(), valid);
    }
}

/// An absent parameter, or one without items, accepts everything (`None`);
/// a parsed list is never empty and holds valid values only.
pub proof fn lemma_parse_list<T: ListItem>(value: Option<Seq<char>>, name: Seq<char>, valid: spec_fn(T) -> bool)
    ensures
        value is None ==> spec_parse_list(value, name, valid) == Ok::<Option<Seq<T>>, Seq<char>>(None),
        value matches Some(v) && list_items(v).len() == 0 ==> spec_parse_list(value, name, valid)
            == Ok::<Option<Seq<T>>, Seq<char>>(None),
        spec_parse_list(value, name, valid) matches Ok(Some(l)) ==> l.len() > 0 && forall|k: int|
            0 <= k < l.len() ==> valid(#[trigger] l[k]),
        spec_parse_list(value, name, valid) is Err ==> (value matches Some(v) && list_items(v).len() > 0),
{
    if let Some(v) = value {
        lemma_parsed_items_valid(list_items(v), valid);
    }
}

/// The Downlink Format of every decoded message is one that a /stream
/// query may ask for.
pub proof fn lemma_decoded_df_is_queryable(df: DF)
    ensures
        is_downlink_format(spec_df_number(df) as u16),
        valid_df()(spec_df_number(df) as u16),
{
}

/// Whether `d` is the number of some Downlink Format that a decoded
/// message can have.
pub open spec fn is_df_number(d: u16) -> bool {
    exists|df: DF| spec_df_number(df) as u16 == d
}

/// A df item is valid exactly when it is the Downlink Format number of some
/// decoded message: 0, 4, 5, 11, 16 to 21 and 24, and no other.
pub proof fn lemma_valid_df_is_df_number(d: u16)
    ensures
        valid_df()(d) <==> is_df_number(d),
{
    let a = ICAO(0);
    if d == 0 {
        assert(spec_df_number(DF::ShortAirAirSurveillance { ap: a }) as u16 == d);
    } else if d == 4 {
        assert(spec_df_number(DF::SurveillanceAltitudeReply { ap: a }) as u16 == d);
    } else if d == 5 {
        assert(spec_df_number(DF::SurveillanceIdentityReply { ap: a }) as u16 == d);
    } else if d == 11 {
        assert(spec_df_number(DF::AllCallReply { icao: a }) as u16 == d);
    } else if d == 16 {
        assert(spec_df_number(DF::LongAirAirSurveillance { ap: a }) as u16 == d);
    } else if d == 17 {
        assert(spec_df_number(DF::ExtendedSquitterADSB { icao24: a }) as u16 == d);
    } else if d == 18 {
        assert(spec_df_number(DF::ExtendedSquitterTisB { aa: a }) as u16 == d);
    } else if d == 19 {
        assert(spec_df_number(DF::ExtendedSquitterMilitary) as u16 == d);
    } else if d == 20 {
        assert(spec_df_number(DF::CommBAltitudeReply { ap: a }) as u16 == d);
    } else if d == 21 {
        assert(spec_df_number(DF::CommBIdentityReply { ap: a }) as u16 == d);
    } else if d == 24 {
        assert(spec_df_number(DF::CommDExtended { parity: a }) as u16 == d);
    } else {
        assert forall|df: DF| spec_df_number(df) as u16 != d by {}
    }
}

/// Whether the text reads as a decimal number that no Downlink Format has.
pub open spec fn reads_as_non_df(t: Seq<char>) -> bool {
    match u16::spec_parse(t) {
        Some(n) => !is_df_number(n),
        None => false,
    }
}

/// A df list is accepted only when every item is a Downlink Format number,
/// and the accepted list holds exactly those numbers; an item that reads as
/// a number which no Downlink Format has makes the list fail.
pub proof fn lemma_df_items(items: Seq<Seq<char>>)
    ensures
        parse_items(items, valid_df()) matches Ok(l) ==> l.len() == items.len() && forall|k: int|
            0 <= k < l.len() ==> is_df_number(#[trigger] l[k]) && u16::spec_parse(items[k]) == Some(
                l[k],
            ),
        (exists|k: int| 0 <= k < items.len() && #[trigger] reads_as_non_df(items[k])) ==> parse_items(
            items,
            valid_df(),
        ) is Err,
    decreases items.len(),
{
    if items.len() > 0 {
        let init = items.drop_last();
        lemma_df_items(init);
        if let Some(n) = u16::spec_parse(items.last()) {
            lemma_valid_df_is_df_number(n);
        }
        if let Ok(l) = parse_items(items, valid_df()) {
            let l0 = parse_items(init, valid_df())->Ok_0;
            assert forall|k: int| 0 <= k < l.len() implies is_df_number(#[trigger] l[k])
                && u16::spec_parse(items[k]) == Some(l[k]) by {
                if k < l.len() - 1 {
                    assert(l[k] == l0[k]);
                    assert(items[k] == init[k]);
                }
            }
        }
        if exists|k: int| 0 <= k < items.len() && #[trigger] reads_as_non_df(items[k]) {
            let k = choose|k: int| 0 <= k < items.len() && #[trigger] reads_as_non_df(items[k]);
            if k < items.len() - 1 {
                assert(init[k] == items[k]);
            }
        }
    }
}

/// A /stream query whose df list reads as one number that no Downlink
/// Format has is refused with the message naming that item.
pub proof fn lemma_single_bad_df(text: Seq<char>, n: u16)
    requires
        list_items(text).len() == 1,
        u16::spec_parse(list_items(text)[0]) == Some(n),
        !is_df_number(n),
    ensures
        spec_parse_list(Some(text), "df"@, valid_df()) == Err::<Option<Seq<u16>>, Seq<char>>(
            "invalid df: "@ + list_items(text)[0],
        ),
{
    let items = list_items(text);
    lemma_valid_df_is_df_number(n);
    assert(items.drop_last() =~= Seq::<Seq<char>>::empty());
    assert(items.last() == items[0]);
    assert(parse_items(items.drop_last(), valid_df()) == Ok::<Seq<u16>, Seq<char>>(Seq::empty()));
    assert(!valid_df()(n));
    assert(parse_items(items, valid_df()) == Err::<Seq<u16>, Seq<char>>(items[0]));
    reveal_strlit("invalid ");
    reveal_strlit("df");
    reveal_strlit(": ");
    reveal_strlit("invalid df: ");
    assert("invalid "@ + "df"@ + ": "@ =~= "invalid df: "@);
}

/// Decoding statistics of one receiver.
#[derive(Debug, Clone, Copy, PartialEq, Eq, Structural)]
pub struct Sensor {
    /// Aircraft whose latest message this receiver got
    pub aircraft_count: u64,
    /// Latest reception time seen (seconds)
    pub last_timestamp: u64,
}

/// One reception of an aircraft's latest message: by which receiver, and
/// when (whole seconds of the receiver's system clock).
#[derive(Debug, Clone, Copy, PartialEq, Eq, Structural)]
pub struct Reception {
    pub serial: u64,
    pub system_timestamp: u64,
}

/// Whether some reception in `meta` is by receiver `serial`.
pub open spec fn heard_by(meta: Seq<Reception>, serial: u64) -> bool {
    exists|j: int| 0 <= j < meta.len() && (#[trigger] meta[j]).serial == serial
}

/// How many aircraft have a reception by receiver `serial`.
pub open spec fn heard_count(aircraft: Seq<Seq<Reception>>, serial: u64) -> nat
    decreases aircraft.len(),
{
    if aircraft.len() == 0 {
        0
    } else {
        heard_count(aircraft.drop_last(), serial) + if heard_by(aircraft.last(), serial) {
            1nat
        } else {
            0nat
        }
    }
}

/// The largest of `acc` and the reception times by receiver `serial` in `meta`.
pub open spec fn latest_in(meta: Seq<Reception>, serial: u64, acc: u64) -> u64
    decreases meta.len(),
{
    if meta.len() == 0 {
        acc
    } else {
        let a = latest_in(meta.drop_last(), serial, acc);
        if meta.last().serial == serial && meta.last().system_timestamp > a {
            meta.last().system_timestamp
        } else {
            a
        }
    }
}

/// The largest of `acc` and every reception time by receiver `serial`.
pub open spec fn latest_all(aircraft: Seq<Seq<Reception>>, serial: u64, acc: u64) -> u64
    decreases aircraft.len(),
{
    if aircraft.len() == 0 {
        acc
    } else {
        latest_in(aircraft.last(), serial, latest_all(aircraft.drop_last(), serial, acc))
    }
}

/// The statistics of receiver `serial` after counting the aircraft.
pub open spec fn updated_sensor(s: Sensor, aircraft: Seq<Seq<Reception>>, serial: u64) -> Sensor {
    Sensor {
        aircraft_count: (s.aircraft_count + heard_count(aircraft, serial)) as u64,
        last_timestamp: latest_all(aircraft, serial, s.last_timestamp),
    }
}

/// The receptions of each aircraft, as sequences.
pub open spec fn receptions_view(v: Seq<Vec<Reception>>) -> Seq<Seq<Reception>> {
    v.map_values(|m: Vec<Reception>| m@)
}

proof fn lemma_heard_count_bound(aircraft: Seq<Seq<Reception>>, serial: u64)
    ensures
        heard_count(aircraft, serial) <= aircraft.len(),
    decreases aircraft.len(),
{
    if aircraft.len() > 0 {
        lemma_heard_count_bound(aircraft.drop_last(), serial);
    }
}

proof fn lemma_heard_count_prefix(all: Seq<Seq<Reception>>, n: int, serial: u64)
    requires
        0 <= n <= all.len(),
    ensures
        heard_count(all.take(n), serial) <= heard_count(all, serial),
    decreases all.len(),
{
    if n < all.len() {
        assert(all.drop_last().take(n) =~= all.take(n));
        lemma_heard_count_prefix(all.drop_last(), n, serial);
    } else {
        assert(all.take(n) =~= all);
    }
}

fn contains_serial(v: &Vec<u64>, x: u64) -> (r: bool)
    ensures
        r == v@.contains(x),
{
    let mut i: usize = 0;
    while i < v.len()
        invariant
            0 <= i <= v@.len(),
            forall|j: int| 0 <= j < i ==> v@[j] != x,
        decreases v@.len() - i,
    {
        if v[i] == x {
            return true;
        }
        i = i + 1;
    }
    false
}

/// Fill in the aircraft count and last timestamp of each sensor, given the
/// receptions of each aircraft's latest message.
///
/// A sensor counts an aircraft when it received that aircraft's latest
/// message. Counts across sensors can therefore add up to more than the
/// number of aircraft, since several sensors may receive the same message.
/// Receptions can list the same sensor several times for one aircraft,
/// which must still only count once. Receptions by unknown sensors are
/// ignored.
pub fn sensor_stats(sensors: &BTreeMap<u64, Sensor>, latest: &Vec<Vec<Reception>>) -> (res: BTreeMap<u64, Sensor>)
    requires
        forall|k: u64| #[trigger] sensors@.contains_key(k) ==> sensors@[k].aircraft_count + heard_count(
            receptions_view(latest@),
            k,
        ) <= u64::MAX,
    ensures
        res@.dom() == sensors@.dom(),
        forall|k: u64| #[trigger] res@.contains_key(k) ==> res@[k] == updated_sensor(sensors@[k], receptions_view(latest@), k),
{
    let ghost all = receptions_view(latest@);
    let mut result = sensors.clone();
    let mut a: usize = 0;
    while a < latest.len()
        invariant
            0 <= a <= latest@.len(),
            all == receptions_view(latest@),
            forall|k: u64| #[trigger] sensors@.contains_key(k) ==> sensors@[k].aircraft_count + heard_count(all, k) <= u64::MAX,
            result@.dom() == sensors@.dom(),
            forall|k: u64| #[trigger] result@.contains_key(k) ==> result@[k] == updated_sensor(sensors@[k], all.take(a as int), k),
        decreases latest@.len() - a,
    {
        let meta = &latest[a];
        let ghost prev = all.take(a as int);
        let mut seen: Vec<u64> = Vec::new();
        let mut j: usize = 0;
        while j < meta.len()
            invariant
                0 <= a < latest@.len(),
                0 <= j <= meta@.len(),
                meta@ == all[a as int],
                all == receptions_view(latest@),
                prev == all.take(a as int),
                forall|k: u64| #[trigger] sensors@.contains_key(k) ==> sensors@[k].aircraft_count + heard_count(all, k) <= u64::MAX,
                result@.dom() == sensors@.dom(),
                forall|s: u64| #[trigger] seen@.contains(s) <==> (sensors@.contains_key(s) && heard_by(meta@.take(j as int), s)),
                forall|k: u64| #[trigger] result@.contains_key(k) ==> result@[k] == (Sensor {
                    aircraft_count: (sensors@[k].aircraft_count + heard_count(prev, k) + if heard_by(meta@.take(j as int), k) { 1nat } else { 0nat }) as u64,
                    last_timestamp: latest_in(meta@.take(j as int), k, latest_all(prev, k, sensors@[k].last_timestamp)),
                }),
            decreases meta@.len() - j,
        {
            let r = meta[j];
            let ghost before = meta@.take(j as int);
            let ghost after = meta@.take(j + 1);
            proof {
                assert(after.drop_last() =~= before);
                assert(after.last() == r);
                assert forall|s: u64| s != r.serial implies heard_by(after, s) == heard_by(before, s) by {
                    if heard_by(after, s) {
                        let w = choose|w: int| 0 <= w < after.len() && (#[trigger] after[w]).serial == s;
                        assert(before[w] == after[w]);
                    }
                    if heard_by(before, s) {
                        let w = choose|w: int| 0 <= w < before.len() && (#[trigger] before[w]).serial == s;
                        assert(after[w] == before[w]);
                    }
                }
                assert(heard_by(after, r.serial)) by {
                    assert(after[j as int] == r);
                }
            }
            let ghost old_seen = seen@;
            match result.get(&r.serial) {
                Some(sensor) => {
                    let mut updated: Sensor = *sensor;
                    let first = !contains_serial(&seen, r.serial);
                    if first {
                        proof {
                            assert(!heard_by(before, r.serial));
                            let next = all.take(a + 1);
                            assert(next.drop_last() =~= prev);
                            assert(next.last() == meta@);
                            assert(heard_by(meta@, r.serial)) by {
                                assert(meta@[j as int] == r);
                            }
                            lemma_heard_count_prefix(all, a + 1, r.serial);
                        }
                        seen.push(r.serial);
                        updated.aircraft_count = updated.aircraft_count + 1;
                    }
                    if r.system_timestamp > updated.last_timestamp {
                        updated.last_timestamp = r.system_timestamp;
                    }
                    result.insert(r.serial, updated);
                    proof {
                        assert forall|s: u64| #[trigger] seen@.contains(s) <==> (sensors@.contains_key(s) && heard_by(after, s)) by {
                            if s == r.serial {
                                if first {
                                    assert(seen@[seen@.len() - 1] == s);
                                }
                            } else {
                                assert(heard_by(after, s) == heard_by(before, s));
                                if first {
                                    if seen@.contains(s) {
                                        let w = choose|w: int| 0 <= w < seen@.len() && seen@[w] == s;
                                        assert(old_seen[w] == s);
                                    }
                                    if old_seen.contains(s) {
                                        let w = choose|w: int| 0 <= w < old_seen.len() && old_seen[w] == s;
                                        assert(seen@[w] == s);
                                    }
                                }
                            }
                        }
                    }
                },
                None => {
                    proof {
                        assert(!result@.contains_key(r.serial));
                        assert forall|s: u64| #[trigger] seen@.contains(s) <==> (sensors@.contains_key(s) && heard_by(after, s)) by {
                            if s != r.serial {
                                assert(heard_by(after, s) == heard_by(before, s));
                            }
                        }
                    }
                },
            }
            j = j + 1;
        }
        proof {
            assert(meta@.take(j as int) =~= meta@);
            assert(all.take(a + 1).drop_last() =~= prev);
            assert(all.take(a + 1).last() == meta@);
        }
        a = a + 1;
    }
    proof {
        assert(all.take(a as int) =~= all);
    }
    result
}

/// A sensor counts each aircraft at most once, however many of the
/// aircraft's receptions name it.
pub proof fn lemma_sensor_count_bounded(s: Sensor, aircraft: Seq<Seq<Reception>>, serial: u64)
    ensures
        updated_sensor(s, aircraft, serial).aircraft_count <= s.aircraft_count + aircraft.len()
            || s.aircraft_count + aircraft.len() > u64::MAX,
        heard_count(aircraft, serial) <= aircraft.len(),
{
    lemma_heard_count_bound(aircraft, serial);
}

/// An airport, by the names a search looks at.
pub struct Airport {
    pub name: String,
    pub icao: String,
    pub iata: String,
}

/// The lower-case form of `s`, as `str::to_lowercase` gives it.
pub uninterp spec fn lowercase(s: Seq<char>) -> Seq<char>;

/// Lower-cases a string.
///
/// Trusted: calls `str::to_lowercase`, whose result (the Unicode
/// lower-case mapping of each character, with the final-sigma rule) is a
/// function of the string alone; it is named, not spelled out.
#[verifier::external_body]
fn to_lowercase(s: &str) -> (r: String)
    ensures
        r@ == lowercase(s@),
{
    s.to_lowercase()
}

/// Whether `needle` occurs in `hay` as a run of consecutive characters.
pub open spec fn has_substring(hay: Seq<char>, needle: Seq<char>) -> bool {
    exists|i: int| 0 <= i <= hay.len() - needle.len() && #[trigger] hay.subrange(i, i + needle.len()) == needle
}

fn matches_at(hay: &Vec<char>, needle: &Vec<char>, i: usize) -> (r: bool)
    requires
        i + needle@.len() <= hay@.len(),
    ensures
        r == (hay@.subrange(i as int, i + needle@.len()) == needle@),
{
    let hay_len = hay.len();
    let mut k: usize = 0;
    while k < needle.len()
        invariant
            i + needle@.len() <= hay@.len(),
            hay_len == hay@.len(),
            0 <= k <= needle@.len(),
            forall|j: int| 0 <= j < k ==> hay@[i + j] == needle@[j],
        decreases needle@.len() - k,
    {
        if hay[i + k] != needle[k] {
            proof {
                assert(hay@.subrange(i as int, i + needle@.len())[k as int] != needle@[k as int]);
            }
            return false;
        }
        k = k + 1;
    }
    proof {
        assert(hay@.subrange(i as int, i + needle@.len()) =~= needle@);
    }
    true
}

/// Whether `needle` occurs in `hay`, as `str::contains` answers it.
pub fn contains_chars(hay: &Vec<char>, needle: &Vec<char>) -> (r: bool)
    ensures
        r == has_substring(hay@, needle@),
{
    if needle.len() > hay.len() {
        return false;
    }
    let last = hay.len() - needle.len();
    let mut i: usize = 0;
    while i < last
        invariant
            last == hay@.len() - needle@.len(),
            0 <= i <= last,
            forall|j: int| 0 <= j < i ==> #[trigger] hay@.subrange(j, j + needle@.len()) != needle@,
        decreases last - i,
    {
        if matches_at(hay, needle, i) {
            return true;
        }
        i = i + 1;
    }
    matches_at(hay, needle, last)
}

/// Whether an airport, by its lower-cased names, matches a lower-cased query.
pub open spec fn spec_airport_matches(name: Seq<char>, icao: Seq<char>, iata: Seq<char>, query: Seq<char>) -> bool {
    has_substring(name, query) || has_substring(icao, query) || has_substring(iata, query)
}

/// Whether the lower-cased name, ICAO or IATA code of an airport contains
/// the lower-cased query.
pub fn airport_matches(name: &str, icao: &str, iata: &str, query: &str) -> (r: bool)
    ensures
        r == spec_airport_matches(name@, icao@, iata@, query@),
{
    let q = crate::text::str_chars(query);
    contains_chars(&crate::text::str_chars(name), &q) || contains_chars(
        &crate::text::str_chars(icao),
        &q,
    ) || contains_chars(&crate::text::str_chars(iata), &q)
}

/// Whether an airport matches a query, case-insensitively.
pub open spec fn airport_found(a: Airport, query: Seq<char>) -> bool {
    spec_airport_matches(lowercase(a.name@), lowercase(a.icao@), lowercase(a.iata@), lowercase(query))
}

/// The positions of the airports among the first `n` that match the query, in order.
pub open spec fn found_positions(airports: Seq<Airport>, query: Seq<char>, n: int) -> Seq<usize>
    decreases n,
{
    if n <= 0 {
        Seq::empty()
    } else if airport_found(airports[n - 1], query) {
        found_positions(airports, query, n - 1).push((n - 1) as usize)
    } else {
        found_positions(airports, query, n - 1)
    }
}

/// The positions, in order, of the airports whose name, ICAO or IATA code
/// contains the query, ignoring case.
pub fn search_airports(airports: &Vec<Airport>, query: &str) -> (res: Vec<usize>)
    ensures
        res@ == found_positions(airports@, query@, airports@.len() as int),
{
    let lowercase_query = to_lowercase(query);
    let mut res: Vec<usize> = Vec::new();
    let mut i: usize = 0;
    while i < airports.len()
        invariant
            0 <= i <= airports@.len(),
            lowercase_query@ == lowercase(query@),
            res@ == found_positions(airports@, query@, i as int),
        decreases airports@.len() - i,
    {
        let a = &airports[i];
        let name = to_lowercase(a.name.as_str());
        let icao = to_lowercase(a.icao.as_str());
        let iata = to_lowercase(a.iata.as_str());
        if airport_matches(name.as_str(), icao.as_str(), iata.as_str(), lowercase_query.as_str()) {
            res.push(i);
        }
        i = i + 1;
    }
    res
}

/// What a live-stream subscription received from the broadcast channel.
#[derive(Debug, Clone, Copy, PartialEq, Eq, Structural)]
pub enum Delivery {
    /// A message
    Message,
    /// The client fell behind and messages were skipped
    Lagged,
    /// The channel is closed
    Closed,
}

/// What a live-stream client does next.
#[derive(Debug, Clone, Copy, PartialEq, Eq, Structural)]
pub enum StreamStep {
    /// Pass the message on (when the filters accept it)
    Send,
    /// Resubscribe: a plain retry would resume from the oldest buffered
    /// message and leave the client permanently behind
    Resubscribe,
    /// End the stream
    Stop,
}

/// The live-stream policy: send messages, resubscribe after a lag, stop
/// when the channel closes.
pub fn next_stream_step(d: Delivery) -> (step: StreamStep)
    ensures
        d == Delivery::Message ==> step == StreamStep::Send,
        d == Delivery::Lagged ==> step == StreamStep::Resubscribe,
        d == Delivery::Closed ==> step == StreamStep::Stop,
{
    match d {
        Delivery::Message => StreamStep::Send,
        Delivery::Lagged => StreamStep::Resubscribe,
        Delivery::Closed => StreamStep::Stop,
    }
}

} // verus!
