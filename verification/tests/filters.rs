use jet1090::decode::{Message, TimedMessage, DF, ICAO};
use jet1090::filters::{FilterKey, Filters};

fn hex(s: &str) -> Vec<u8> {
    (0..s.len())
        .step_by(2)
        .map(|i| u8::from_str_radix(&s[i..i + 2], 16).unwrap())
        .collect()
}

fn decoded(frame: &str, df: DF) -> TimedMessage {
    TimedMessage { frame: hex(frame), message: Some(Message { df }) }
}

fn filters(df: Option<Vec<u16>>, aircraft: Option<Vec<ICAO>>) -> Filters {
    Filters { df_filter: df, aircraft_filter: aircraft }
}

#[test]
fn test_filter() {
    // 8c4841753a9a153237aef0f275be: DF17 from 484175
    let tmsg = decoded(
        "8c4841753a9a153237aef0f275be",
        DF::ExtendedSquitterADSB { icao24: ICAO(0x484175) },
    );

    let filter = filters(Some(vec![]), Some(vec![]));
    assert!(Filters::is_in(&filter, &tmsg));

    let filter = filters(Some(vec![17, 20, 21]), Some(vec![]));
    assert!(Filters::is_in(&filter, &tmsg));

    let filter = filters(Some(vec![17, 20, 21]), Some(vec![ICAO(0x484175)]));
    assert!(Filters::is_in(&filter, &tmsg));

    let filter = filters(Some(vec![11]), Some(vec![ICAO(0x484175)]));
    assert!(!Filters::is_in(&filter, &tmsg));

    let filter = filters(Some(vec![17, 20, 21]), Some(vec![ICAO(0x333333)]));
    assert!(!Filters::is_in(&filter, &tmsg));

    // 02c18c3b323e4f: DF0, address recovered from the parity field
    let tmsg = decoded(
        "02c18c3b323e4f",
        DF::ShortAirAirSurveillance { ap: ICAO(0x471f65) },
    );

    let filter = filters(Some(vec![17, 20, 21]), None);
    assert!(!Filters::is_in(&filter, &tmsg));

    let filter = filters(Some(vec![0]), None);
    assert!(Filters::is_in(&filter, &tmsg));
}

#[test]
fn tisb_messages_filter_on_the_announced_address() {
    let tmsg = decoded(
        "95c639eefbffffedd5fefbff4f6f",
        DF::ExtendedSquitterTisB { aa: ICAO(0xc639ee) },
    );
    assert_eq!(
        Filters::key(&tmsg),
        Some(FilterKey {
            df: 18,
            icao24: Some(ICAO(0xc639ee))
        })
    );
    let filter = Filters {
        df_filter: None,
        aircraft_filter: Some(vec![ICAO(0xc639ee)]),
    };
    assert!(filter.is_in(&tmsg));
}

#[test]
fn military_messages_have_no_address() {
    let tmsg = decoded("9800000000000000000000000000", DF::ExtendedSquitterMilitary);
    let key = Filters::key(&tmsg).unwrap();
    assert_eq!(key.df, 19);
    assert_eq!(key.icao24, None);

    let anyone = Filters {
        df_filter: Some(vec![19]),
        aircraft_filter: None,
    };
    assert!(anyone.is_in(&tmsg));

    let one_aircraft = Filters {
        df_filter: None,
        aircraft_filter: Some(vec![ICAO(0x484175)]),
    };
    assert!(!one_aircraft.is_in(&tmsg));
}

#[test]
fn undecoded_messages_have_no_key_and_pass_no_filter() {
    let tmsg = TimedMessage { frame: hex("00"), message: None };
    assert_eq!(Filters::key(&tmsg), None);
    assert!(!filters(None, None).is_in(&tmsg));
}

#[test]
fn absent_or_empty_lists_accept_every_key() {
    let key = FilterKey { df: 19, icao24: None };
    assert!(filters(None, None).matches(&key));
    assert!(filters(Some(vec![]), Some(vec![])).matches(&key));
    assert!(!filters(None, Some(vec![ICAO(1)])).matches(&key));
}

#[test]
fn key_df_is_the_downlink_format_number() {
    let cases = [
        (DF::ShortAirAirSurveillance { ap: ICAO(1) }, 0),
        (DF::SurveillanceAltitudeReply { ap: ICAO(1) }, 4),
        (DF::SurveillanceIdentityReply { ap: ICAO(1) }, 5),
        (DF::AllCallReply { icao: ICAO(1) }, 11),
        (DF::LongAirAirSurveillance { ap: ICAO(1) }, 16),
        (DF::ExtendedSquitterADSB { icao24: ICAO(1) }, 17),
        (DF::ExtendedSquitterTisB { aa: ICAO(1) }, 18),
        (DF::CommBAltitudeReply { ap: ICAO(1) }, 20),
        (DF::CommBIdentityReply { ap: ICAO(1) }, 21),
        (DF::CommDExtended { parity: ICAO(1) }, 24),
    ];
    for (df, n) in cases {
        let key = Filters::key(&decoded("00", df)).unwrap();
        assert_eq!(key.df, n);
        assert_eq!(key.icao24, Some(ICAO(1)));
        assert_eq!(jet1090::metrics::df_number(&df) as u16, n);
    }
}
