use jet1090::decode::ICAO;
use jet1090::web::{stream_filters, StreamQuery};

fn query(icao24: Option<&str>, df: Option<&str>) -> StreamQuery {
    StreamQuery {
        icao24: icao24.map(str::to_string),
        df: df.map(str::to_string),
    }
}

#[test]
fn stream_filters_absent_means_everything() {
    let filters = stream_filters(&query(None, None)).unwrap();
    assert!(filters.df_filter.is_none());
    assert!(filters.aircraft_filter.is_none());
}

#[test]
fn stream_filters_parse_lists() {
    let filters =
        stream_filters(&query(Some("3c6444, 4CA7B6"), Some("17,018"))).unwrap();
    assert_eq!(
        filters.aircraft_filter,
        Some(vec![ICAO(0x3c6444), ICAO(0x4ca7b6)])
    );
    assert_eq!(filters.df_filter, Some(vec![17, 18]));
}

#[test]
fn stream_filters_treat_empty_lists_as_absent() {
    let filters = stream_filters(&query(Some(""), Some(",,"))).unwrap();
    assert!(filters.aircraft_filter.is_none());
    assert!(filters.df_filter.is_none());
}

#[test]
fn stream_filters_reject_garbage() {
    let error = |icao24, df| match stream_filters(&query(icao24, df)) {
        Ok(_) => panic!("expected an error"),
        Err(e) => e,
    };
    assert_eq!(error(Some("zzz"), None), "invalid icao24: zzz");
    assert_eq!(error(Some("1ffffff"), None), "invalid icao24: 1ffffff");
    assert_eq!(error(None, Some("17,abc")), "invalid df: abc");
    assert_eq!(error(None, Some("71")), "invalid df: 71");
}

#[test]
fn stream_filters_report_the_address_list_first() {
    let error = stream_filters(&query(Some("zzz"), Some("71"))).err();
    assert_eq!(error, Some("invalid icao24: zzz".to_string()));
}

#[test]
fn stream_filters_accept_a_plus_sign_and_unicode_spaces() {
    let filters = stream_filters(&query(Some("+ABCDEF\u{3000}"), Some(" +24 ,\t4"))).unwrap();
    assert_eq!(filters.aircraft_filter, Some(vec![ICAO(0xabcdef)]));
    assert_eq!(filters.df_filter, Some(vec![24, 4]));
}

#[test]
fn stream_filters_reject_overflow_and_signs() {
    let error = |icao24, df| stream_filters(&query(icao24, df)).err();
    assert_eq!(error(None, Some("65553")), Some("invalid df: 65553".to_string()));
    assert_eq!(error(None, Some("-4")), Some("invalid df: -4".to_string()));
    assert_eq!(error(None, Some("+")), Some("invalid df: +".to_string()));
    assert_eq!(error(Some("100000000"), None), Some("invalid icao24: 100000000".to_string()));
}

use jet1090::web::{sensor_stats, Reception, Sensor};
use std::collections::BTreeMap;

fn heard(serial: u64, system_timestamp: u64) -> Reception {
    Reception { serial, system_timestamp }
}

#[test]
fn sensor_stats_count_each_aircraft_once_per_sensor() {
    let mut sensors = BTreeMap::new();
    sensors.insert(1, Sensor { aircraft_count: 0, last_timestamp: 100 });
    sensors.insert(2, Sensor { aircraft_count: 5, last_timestamp: 900 });
    sensors.insert(3, Sensor { aircraft_count: 0, last_timestamp: 0 });
    let latest = vec![
        // the same sensor listed twice for one aircraft
        vec![heard(1, 120), heard(1, 130), heard(2, 140)],
        // an unknown sensor is ignored
        vec![heard(1, 110), heard(7, 5000)],
        vec![],
    ];
    let stats = sensor_stats(&sensors, &latest);
    assert_eq!(stats.len(), 3);
    assert_eq!(stats[&1], Sensor { aircraft_count: 2, last_timestamp: 130 });
    assert_eq!(stats[&2], Sensor { aircraft_count: 6, last_timestamp: 900 });
    assert_eq!(stats[&3], Sensor { aircraft_count: 0, last_timestamp: 0 });
    assert!(!stats.contains_key(&7));
}

use jet1090::web::{airport_matches, search_airports, Airport};

fn airport(name: &str, icao: &str, iata: &str) -> Airport {
    Airport { name: name.to_string(), icao: icao.to_string(), iata: iata.to_string() }
}

#[test]
fn airport_search_ignores_case_and_keeps_order() {
    let airports = vec![
        airport("Toulouse-Blagnac", "LFBO", "TLS"),
        airport("Paris Charles de Gaulle", "LFPG", "CDG"),
        airport("Tallinn", "EETN", "TLL"),
    ];
    assert_eq!(search_airports(&airports, "tl"), vec![0, 2]);
    assert_eq!(search_airports(&airports, "tll"), vec![2]);
    assert_eq!(search_airports(&airports, "LF"), vec![0, 1]);
    assert_eq!(search_airports(&airports, "gAuLlE"), vec![1]);
    assert_eq!(search_airports(&airports, ""), vec![0, 1, 2]);
    assert_eq!(search_airports(&airports, "zzz"), Vec::<usize>::new());
    assert!(airport_matches("abc", "x", "y", "bc"));
    assert!(!airport_matches("abc", "x", "y", "abcd"));
}

use jet1090::web::{next_stream_step, Delivery, StreamStep};

#[test]
fn stream_policy_resubscribes_after_a_lag() {
    assert_eq!(next_stream_step(Delivery::Message), StreamStep::Send);
    assert_eq!(next_stream_step(Delivery::Lagged), StreamStep::Resubscribe);
    assert_eq!(next_stream_step(Delivery::Closed), StreamStep::Stop);
}

#[test]
fn sensor_stats_count_up_to_the_largest_count() {
    let mut sensors = BTreeMap::new();
    sensors.insert(1, Sensor { aircraft_count: u64::MAX - 1, last_timestamp: 0 });
    let latest = vec![vec![heard(1, 3)], vec![heard(2, 4)], vec![heard(2, 5)]];
    let stats = sensor_stats(&sensors, &latest);
    assert_eq!(stats[&1], Sensor { aircraft_count: u64::MAX, last_timestamp: 3 });
}
