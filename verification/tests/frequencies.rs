use tracking::frequencies::{
    get_satellite_info_local, is_named, local_satellites, parse_satnogs_json, resolve_norad_id,
    url_satnogs, FrequencyError,
};

const ANSWER: &str = "[{\"uuid\":\"abc\",\"description\":\"Mode V/U FM\",\"alive\":true,\"type\":\"Transceiver\",\"uplink_low\":145990000,\"uplink_high\":null,\"downlink_low\":437800000,\"downlink_high\":null,\"mode\":\"FM\",\"norad_cat_id\":25544},{\"description\":\"APRS\",\"uplink_low\":null,\"downlink_low\":145825000,\"mode\":\"AFSK\"}]";

#[test]
fn local_table_in_order() {
    let table = local_satellites();
    let names: Vec<&str> = table.iter().map(|s| s.name.as_str()).collect();
    assert_eq!(names, vec!["ISS", "AO-91", "FO-29", "FUNCUBE-1", "LILACSAT-2"]);
    let ids: Vec<u32> = table.iter().map(|s| s.norad_id).collect();
    assert_eq!(ids, vec![25544, 43017, 24278, 39444, 40069]);
}

#[test]
fn local_entry_by_name() {
    let iss = get_satellite_info_local("ISS").unwrap();
    assert_eq!(iss.name, "ISS");
    assert_eq!(iss.norad_id, 25544);
    assert_eq!(iss.downlink_hz, 145_800_000);
    assert_eq!(iss.uplink_hz, Some(145_200_000));
    assert_eq!(iss.mode, "FM");
    let fo29 = get_satellite_info_local("FO-29").unwrap();
    assert_eq!(fo29.norad_id, 24278);
    assert_eq!(fo29.downlink_hz, 435_850_000);
    assert_eq!(fo29.uplink_hz, Some(145_900_000));
    assert_eq!(fo29.mode, "SSB/CW");
}

#[test]
fn local_entry_by_name_in_any_case() {
    assert_eq!(get_satellite_info_local("iss").unwrap().norad_id, 25544);
    assert_eq!(get_satellite_info_local("ao-91").unwrap().downlink_hz, 145_960_000);
    assert_eq!(get_satellite_info_local("FunCube-1").unwrap().uplink_hz, None);
    assert_eq!(get_satellite_info_local("lilacsat-2").unwrap().mode, "GMSK");
}

#[test]
fn local_entry_by_catalogue_number() {
    assert_eq!(get_satellite_info_local("25544").unwrap().name, "ISS");
    assert_eq!(get_satellite_info_local("43017").unwrap().uplink_hz, Some(435_250_000));
    assert_eq!(get_satellite_info_local("39444").unwrap().downlink_hz, 145_935_000);
    assert_eq!(get_satellite_info_local("40069").unwrap().downlink_hz, 437_200_000);
}

#[test]
fn local_table_knows_no_other() {
    assert!(get_satellite_info_local("HUBBLE").is_none());
    assert!(get_satellite_info_local("").is_none());
    assert!(get_satellite_info_local("025544").is_none());
    assert!(get_satellite_info_local("+25544").is_none());
    assert!(get_satellite_info_local(" ISS").is_none());
    assert!(get_satellite_info_local("FOX-1B").is_none());
    assert!(get_satellite_info_local("1").is_none());
}

#[test]
fn is_named_by_name_or_number() {
    let table = local_satellites();
    assert!(is_named("iss", &table[0]));
    assert!(is_named("25544", &table[0]));
    assert!(!is_named("25544", &table[1]));
    assert!(!is_named("ISS1", &table[0]));
}

#[test]
fn catalogue_number_from_a_number() {
    assert_eq!(resolve_norad_id("25544"), Some(25544));
    assert_eq!(resolve_norad_id("99999"), Some(99999));
    assert_eq!(resolve_norad_id("+7"), Some(7));
    assert_eq!(resolve_norad_id("007"), Some(7));
}

#[test]
fn catalogue_number_from_a_name() {
    assert_eq!(resolve_norad_id("ISS"), Some(25544));
    assert_eq!(resolve_norad_id("fo-29"), Some(24278));
    assert_eq!(resolve_norad_id("LILACSAT-2"), Some(40069));
}

#[test]
fn catalogue_number_of_the_unknown() {
    assert_eq!(resolve_norad_id("HUBBLE"), None);
    assert_eq!(resolve_norad_id(""), None);
    assert_eq!(resolve_norad_id("4294967296"), None);
    assert_eq!(resolve_norad_id("-1"), None);
}

#[test]
fn record_takes_each_field_where_its_key_first_stands() {
    let record = parse_satnogs_json(ANSWER, 25544).unwrap();
    assert_eq!(record.name, "Mode V/U FM");
    assert_eq!(record.norad_id, 25544);
    assert_eq!(record.downlink_low, "437800000");
    assert_eq!(record.uplink_low, Some("145990000".to_string()));
    assert_eq!(record.mode, "FM");
}

#[test]
fn record_without_downlink_is_refused() {
    assert_eq!(parse_satnogs_json("[]", 1).unwrap_err(), FrequencyError::DownlinkMissing);
    assert_eq!(parse_satnogs_json("", 1).unwrap_err(), FrequencyError::DownlinkMissing);
    assert_eq!(
        parse_satnogs_json("[{\"description\":\"x\",\"mode\":\"FM\"}]", 1).unwrap_err(),
        FrequencyError::DownlinkMissing
    );
}

#[test]
fn record_with_null_downlink_is_refused() {
    assert_eq!(
        parse_satnogs_json("{\"downlink_low\":null,\"mode\":\"FM\"}", 1).unwrap_err(),
        FrequencyError::DownlinkMissing
    );
    assert_eq!(
        parse_satnogs_json("{\"downlink_low\": null ,\"downlink_low\":5,}", 1).unwrap_err(),
        FrequencyError::DownlinkMissing
    );
}

#[test]
fn record_whose_downlink_runs_to_the_end_is_refused() {
    assert_eq!(
        parse_satnogs_json("{\"downlink_low\":437800000}", 1).unwrap_err(),
        FrequencyError::DownlinkMissing
    );
}

#[test]
fn record_fields_that_are_missing() {
    let record = parse_satnogs_json("{\"downlink_low\": 145800000 ,\"x\":1}", 7).unwrap();
    assert_eq!(record.name, "");
    assert_eq!(record.norad_id, 7);
    assert_eq!(record.downlink_low, "145800000");
    assert_eq!(record.uplink_low, None);
    assert_eq!(record.mode, "Unknown");
}

#[test]
fn record_with_null_uplink() {
    let record =
        parse_satnogs_json("{\"uplink_low\":null,\"downlink_low\":1.5e8,\"mode\":\"CW\"}", 7).unwrap();
    assert_eq!(record.uplink_low, None);
    assert_eq!(record.downlink_low, "1.5e8");
    assert_eq!(record.mode, "CW");
}

#[test]
fn record_with_unclosed_texts() {
    let record = parse_satnogs_json("{\"downlink_low\":1,\"mode\":\"FM", 7).unwrap();
    assert_eq!(record.mode, "Unknown");
    let record = parse_satnogs_json("\"downlink_low\":1,\"description\":\"", 7).unwrap();
    assert_eq!(record.name, "");
    let record = parse_satnogs_json("\"downlink_low\":1,\"description\":\"\u{e9}t\u{e9}\"", 7).unwrap();
    assert_eq!(record.name, "\u{e9}t\u{e9}");
}

#[test]
fn record_whose_downlink_writes_no_number_is_refused() {
    for text in ["\"abc\"", "", " ", "1e", "0x10", "true", "--1", "1 2"] {
        let json = format!("{{\"downlink_low\":{},\"mode\":\"FM\"}}", text);
        assert_eq!(
            parse_satnogs_json(&json, 7).unwrap_err(),
            FrequencyError::DownlinkMissing,
            "{:?}",
            text
        );
    }
}

#[test]
fn record_whose_uplink_writes_no_number_has_none() {
    let record = parse_satnogs_json("{\"uplink_low\":12x,\"downlink_low\":437.8e6,}", 7).unwrap();
    assert_eq!(record.uplink_low, None);
    assert_eq!(record.downlink_low, "437.8e6");
}

#[test]
fn record_numbers_are_those_that_read_as_doubles() {
    for text in ["145800000", " 145800000 ", "1.458e8", "+5", "-0.5", ".5", "5.", "1E+3", "inf", "NaN", "-Infinity"] {
        let json = format!("{{\"downlink_low\":{},\"mode\":\"FM\"}}", text);
        let record = parse_satnogs_json(&json, 7).unwrap();
        assert_eq!(record.downlink_low, text.trim());
        assert!(record.downlink_low.parse::<f64>().is_ok());
    }
}

#[test]
fn satnogs_address() {
    assert_eq!(
        url_satnogs(43017),
        "https://db.satnogs.org/api/transmitters/?satellite__norad_cat_id=43017&format=json&status=active"
    );
}
