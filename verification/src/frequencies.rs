//! Downlink and uplink frequencies of amateur satellites: the table that is
//! built in, and the fields of a transmitter record as SatNOGS serves it.
//!
//! Frequencies are whole hertz.

use crate::text::{
    chars_of, decimal, decimal_text, field_after, field_bounds, float_text, is_float_text,
    parse_u32, parsed_u32, same_text, to_uppercase, trim, trimmed, uppercase_of,
};
use vstd::prelude::*;
use vstd::string::*;

verus! {

/// The frequencies of one satellite.
#[derive(Debug, Clone)]
pub struct SatelliteFrequencies {
    pub name: String,
    pub norad_id: u32,
    /// Downlink frequency, in hertz.
    pub downlink_hz: u64,
    /// Uplink frequency, in hertz, where the satellite has one.
    pub uplink_hz: Option<u64>,
    /// Mode of operation (FM, SSB, CW and the like).
    pub mode: String,
}

/// What a [`SatelliteFrequencies`] holds, with its texts as characters.
pub struct FrequenciesView {
    pub name: Seq<char>,
    pub norad_id: u32,
    pub downlink_hz: u64,
    pub uplink_hz: Option<u64>,
    pub mode: Seq<char>,
}

impl View for SatelliteFrequencies {
    type V = FrequenciesView;

    open spec fn view(&self) -> FrequenciesView {
        FrequenciesView {
            name: self.name@,
            norad_id: self.norad_id,
            downlink_hz: self.downlink_hz,
            uplink_hz: self.uplink_hz,
            mode: self.mode@,
        }
    }
}

/// The satellites that are known without asking anyone, in the order in which
/// they are looked through.
pub open spec fn local_table() -> Seq<FrequenciesView> {
    seq![
        FrequenciesView {
            name: "ISS"@,
            norad_id: 25544,
            downlink_hz: 145_800_000,
            uplink_hz: Some(145_200_000u64),
            mode: "FM"@,
        },
        FrequenciesView {
            name: "AO-91"@,
            norad_id: 43017,
            downlink_hz: 145_960_000,
            uplink_hz: Some(435_250_000u64),
            mode: "FM"@,
        },
        FrequenciesView {
            name: "FO-29"@,
            norad_id: 24278,
            downlink_hz: 435_850_000,
            uplink_hz: Some(145_900_000u64),
            mode: "SSB/CW"@,
        },
        FrequenciesView {
            name: "FUNCUBE-1"@,
            norad_id: 39444,
            downlink_hz: 145_935_000,
            uplink_hz: None,
            mode: "BPSK"@,
        },
        FrequenciesView {
            name: "LILACSAT-2"@,
            norad_id: 40069,
            downlink_hz: 437_200_000,
            uplink_hz: None,
            mode: "GMSK"@,
        },
    ]
}

/// `satellite_name` names `entry`: it is the entry's name, in whatever case
/// either is written, or the entry's catalogue number in decimal.
pub open spec fn names(satellite_name: Seq<char>, entry: FrequenciesView) -> bool {
    uppercase_of(entry.name) == uppercase_of(satellite_name) || decimal(entry.norad_id as nat)
        == satellite_name
}

/// The first entry of `table` that `satellite_name` names.
pub open spec fn first_named(table: Seq<FrequenciesView>, satellite_name: Seq<char>) -> Option<
    FrequenciesView,
>
    decreases table.len(),
{
    if table.len() == 0 {
        None
    } else if names(satellite_name, table[0]) {
        Some(table[0])
    } else {
        first_named(table.drop_first(), satellite_name)
    }
}

/// What each entry of `table` holds.
pub open spec fn views(table: Seq<SatelliteFrequencies>) -> Seq<FrequenciesView> {
    Seq::new(table.len(), |i: int| table[i]@)
}

/// The built-in table.
pub fn local_satellites() -> (r: Vec<SatelliteFrequencies>)
    ensures
        views(r@) == local_table(),
{
    let mut table: Vec<SatelliteFrequencies> = Vec::new();
    table.push(
        SatelliteFrequencies {
            name: "ISS".to_owned(),
            norad_id: 25544,
            downlink_hz: 145_800_000,
            uplink_hz: Some(145_200_000),
            mode: "FM".to_owned(),
        },
    );
    table.push(
        SatelliteFrequencies {
            name: "AO-91".to_owned(),
            norad_id: 43017,
            downlink_hz: 145_960_000,
            uplink_hz: Some(435_250_000),
            mode: "FM".to_owned(),
        },
    );
    table.push(
        SatelliteFrequencies {
            name: "FO-29".to_owned(),
            norad_id: 24278,
            downlink_hz: 435_850_000,
            uplink_hz: Some(145_900_000),
            mode: "SSB/CW".to_owned(),
        },
    );
    table.push(
        SatelliteFrequencies {
            name: "FUNCUBE-1".to_owned(),
            norad_id: 39444,
            downlink_hz: 145_935_000,
            uplink_hz: None,
            mode: "BPSK".to_owned(),
        },
    );
    table.push(
        SatelliteFrequencies {
            name: "LILACSAT-2".to_owned(),
            norad_id: 40069,
            downlink_hz: 437_200_000,
            uplink_hz: None,
            mode: "GMSK".to_owned(),
        },
    );
    assert(views(table@) =~= local_table());
    table
}

/// Whether `satellite_name` names `entry`.
pub fn is_named(satellite_name: &str, entry: &SatelliteFrequencies) -> (r: bool)
    ensures
        r == names(satellite_name@, entry@),
{
    let entry_upper = to_uppercase(entry.name.as_str());
    let name_upper = to_uppercase(satellite_name);
    if same_text(entry_upper.as_str(), name_upper.as_str()) {
        return true;
    }
    let number = decimal_text(entry.norad_id);
    same_text(number.as_str(), satellite_name)
}

/// The entry of the built-in table for the satellite that `satellite_name`
/// names, by name or by catalogue number: the first one, if several would do.
pub fn get_satellite_info_local(satellite_name: &str) -> (r: Option<SatelliteFrequencies>)
    ensures
        match r {
            Some(entry) => first_named(local_table(), satellite_name@) == Some(entry@),
            None => first_named(local_table(), satellite_name@) is None,
        },
{
    let table = local_satellites();
    let mut i: usize = 0;
    proof {
        assert(local_table().skip(0) =~= local_table());
    }
    while i < table.len()
        invariant
            i <= table.len(),
            views(table@) == local_table(),
            first_named(local_table(), satellite_name@) == first_named(
                local_table().skip(i as int),
                satellite_name@,
            ),
        decreases table.len() - i,
    {
        proof {
            let rest = local_table().skip(i as int);
            assert(rest[0] == table@[i as int]@);
            assert(rest.drop_first() =~= local_table().skip(i + 1));
        }
        if is_named(satellite_name, &table[i]) {
            let entry = &table[i];
            return Some(
                SatelliteFrequencies {
                    name: entry.name.clone(),
                    norad_id: entry.norad_id,
                    downlink_hz: entry.downlink_hz,
                    uplink_hz: entry.uplink_hz,
                    mode: entry.mode.clone(),
                },
            );
        }
        i = i + 1;
    }
    None
}

/// The catalogue number that `satellite_name` stands for: the number it
/// writes, if it writes one, and else the number of the entry it names in the
/// built-in table.
pub open spec fn resolved_norad_id(satellite_name: Seq<char>) -> Option<u32> {
    match parsed_u32(satellite_name) {
        Some(id) => Some(id),
        None => match first_named(local_table(), satellite_name) {
            Some(entry) => Some(entry.norad_id),
            None => None,
        },
    }
}

/// The catalogue number to ask SatNOGS for, given a satellite's name or its
/// catalogue number as text, or `None` where the text is neither.
pub fn resolve_norad_id(satellite_name: &str) -> (r: Option<u32>)
    ensures
        r == resolved_norad_id(satellite_name@),
{
    match parse_u32(satellite_name) {
        Some(id) => Some(id),
        None => match get_satellite_info_local(satellite_name) {
            Some(entry) => Some(entry.norad_id),
            None => None,
        },
    }
}

/// The fields of a transmitter record that matter here, as the text that the
/// record gives them. Each of the two frequencies is text that writes a
/// floating-point number; which number is for the reader of the record to
/// work out.
#[derive(Debug)]
pub struct TransmitterText {
    pub name: String,
    pub norad_id: u32,
    pub downlink_low: String,
    pub uplink_low: Option<String>,
    pub mode: String,
}

/// What a [`TransmitterText`] holds, with its texts as characters.
pub struct TransmitterView {
    pub name: Seq<char>,
    pub norad_id: u32,
    pub downlink_low: Seq<char>,
    pub uplink_low: Option<Seq<char>>,
    pub mode: Seq<char>,
}

impl View for TransmitterText {
    type V = TransmitterView;

    open spec fn view(&self) -> TransmitterView {
        TransmitterView {
            name: self.name@,
            norad_id: self.norad_id,
            downlink_low: self.downlink_low@,
            uplink_low: match self.uplink_low {
                Some(text) => Some(text@),
                None => None,
            },
            mode: self.mode@,
        }
    }
}

/// Why a record gives no frequencies.
#[derive(Clone, Copy, Debug, PartialEq, Eq, Structural)]
pub enum FrequencyError {
    /// The record has no downlink frequency: the field is missing, runs to the
    /// end of the text, is `null` or writes no number.
    DownlinkMissing,
}

/// The text of the number that follows the first `key` in `json`, up to the
/// next comma and without the white space around it. There is none where the
/// key or the comma is missing, where the text is `null`, or where it does not
/// write a floating-point number.
pub open spec fn number_text(json: Seq<char>, key: Seq<char>) -> Option<Seq<char>> {
    match field_after(json, key, ',') {
        Some(text) => if trimmed(text) != "null"@ && float_text(trimmed(text)) {
            Some(trimmed(text))
        } else {
            None
        },
        None => None,
    }
}

/// The text that follows the first `key` in `json`, up to the next double
/// quote, or `missing` where the key or the quote is not there.
pub open spec fn quoted_text(json: Seq<char>, key: Seq<char>, missing: Seq<char>) -> Seq<char> {
    match field_after(json, key, '"') {
        Some(text) => text,
        None => missing,
    }
}

/// What the answer `json` says of the satellite `norad_id`: each field is
/// taken from the first place in the text where its key stands, whichever
/// transmitter that is.
pub open spec fn satnogs_record(json: Seq<char>, norad_id: u32) -> Result<
    TransmitterView,
    FrequencyError,
> {
    match number_text(json, "\"downlink_low\":"@) {
        None => Err(FrequencyError::DownlinkMissing),
        Some(downlink) => Ok(
            TransmitterView {
                name: quoted_text(json, "\"description\":\""@, Seq::empty()),
                norad_id,
                downlink_low: downlink,
                uplink_low: number_text(json, "\"uplink_low\":"@),
                mode: quoted_text(json, "\"mode\":\""@, "Unknown"@),
            },
        ),
    }
}

/// The number text that follows `key`.
fn read_number(json: &str, chars: &Vec<char>, key: &str) -> (r: Option<String>)
    requires
        chars@ == json@,
    ensures
        match r {
            Some(text) => number_text(json@, key@) == Some(text@),
            None => number_text(json@, key@) is None,
        },
{
    match field_bounds(chars, key, ',') {
        None => None,
        Some((from, to)) => {
            let text = trim(json.substring_char(from, to));
            if !same_text(text, "null") && is_float_text(text) {
                Some(text.to_owned())
            } else {
                None
            }
        },
    }
}

/// The quoted text that follows `key`.
fn read_quoted(json: &str, chars: &Vec<char>, key: &str, missing: &str) -> (r: String)
    requires
        chars@ == json@,
    ensures
        r@ == quoted_text(json@, key@, missing@),
{
    match field_bounds(chars, key, '"') {
        None => missing.to_owned(),
        Some((from, to)) => json.substring_char(from, to).to_owned(),
    }
}

/// Reads a transmitter record out of the text that SatNOGS answers with.
pub fn parse_satnogs_json(json: &str, norad_id: u32) -> (r: Result<TransmitterText, FrequencyError>)
    ensures
        match r {
            Ok(record) => satnogs_record(json@, norad_id) == Ok::<TransmitterView, FrequencyError>(
                record@,
            ),
            Err(e) => satnogs_record(json@, norad_id) == Err::<TransmitterView, FrequencyError>(e),
        },
{
    let chars = chars_of(json);
    let name = read_quoted(json, &chars, "\"description\":\"", "");
    let downlink = read_number(json, &chars, "\"downlink_low\":");
    let uplink_low = read_number(json, &chars, "\"uplink_low\":");
    let mode = read_quoted(json, &chars, "\"mode\":\"", "Unknown");
    proof {
        reveal_strlit("");
        assert(""@ =~= Seq::<char>::empty());
    }
    match downlink {
        None => Err(FrequencyError::DownlinkMissing),
        Some(downlink_low) => Ok(TransmitterText { name, norad_id, downlink_low, uplink_low, mode }),
    }
}

/// The address at which SatNOGS serves the active transmitters of the
/// satellite with catalogue number `norad_id`.
pub fn url_satnogs(norad_id: u32) -> (r: String)
    ensures
        r@ == "https://db.satnogs.org/api/transmitters/?satellite__norad_cat_id="@ + decimal(
            norad_id as nat,
        ) + "&format=json&status=active"@,
{
    let mut url = "https://db.satnogs.org/api/transmitters/?satellite__norad_cat_id=".to_owned();
    let number = decimal_text(norad_id);
    url.append(number.as_str());
    url.append("&format=json&status=active");
    url
}

} // verus!
