use tracking::tle_loader::{
    lineas_no_vacias, norad_id_de_mayusculas, norad_id_por_nombre, tle_desde_lineas,
    tle_desde_lineas_de_archivo, tle_desde_texto, url_celestrak, TleError,
};

const ISS_NAME: &str = "ISS (ZARYA)";
const ISS_LINE1: &str = "1 25544U 98067A   20194.88612269 -.00002218  00000-0 -31515-4 0  9992";
const ISS_LINE2: &str = "2 25544  51.6461 221.2784 0001413  89.1723 280.4612 15.49507896236008";

fn owned(lines: &[&str]) -> Vec<String> {
    lines.iter().map(|l| l.to_string()).collect()
}

#[test]
fn tle_from_the_text_of_an_answer() {
    let text = format!("{}             \r\n{}\r\n{}\r\n", ISS_NAME, ISS_LINE1, ISS_LINE2);
    let tle = tle_desde_texto(&text).unwrap();
    assert_eq!(tle.name, ISS_NAME);
    assert_eq!(tle.line1, ISS_LINE1);
    assert_eq!(tle.line2, ISS_LINE2);
}

#[test]
fn tle_from_text_takes_the_first_three_lines_blank_or_not() {
    let tle = tle_desde_texto("\n  a  \n\nb\nc\n").unwrap();
    assert_eq!(tle.name, "");
    assert_eq!(tle.line1, "a");
    assert_eq!(tle.line2, "");
}

#[test]
fn tle_from_text_needs_three_lines() {
    assert_eq!(
        tle_desde_texto("").unwrap_err(),
        TleError::LineasInsuficientes { encontradas: 0 }
    );
    assert_eq!(
        tle_desde_texto("No GP data found").unwrap_err(),
        TleError::LineasInsuficientes { encontradas: 1 }
    );
    assert_eq!(
        tle_desde_texto("a\nb\n").unwrap_err(),
        TleError::LineasInsuficientes { encontradas: 2 }
    );
    assert!(tle_desde_texto("a\nb\nc").is_ok());
}

#[test]
fn tle_from_lines_trims_each_line() {
    let tle = tle_desde_lineas(&owned(&["  AO-91\t", " 1 43017U ", "2 43017  ", "ignored"])).unwrap();
    assert_eq!(tle.name, "AO-91");
    assert_eq!(tle.line1, "1 43017U");
    assert_eq!(tle.line2, "2 43017");
}

#[test]
fn tle_from_lines_needs_three_lines() {
    assert_eq!(
        tle_desde_lineas(&owned(&["a", "b"])).unwrap_err(),
        TleError::LineasInsuficientes { encontradas: 2 }
    );
    assert_eq!(
        tle_desde_lineas(&owned(&[])).unwrap_err(),
        TleError::LineasInsuficientes { encontradas: 0 }
    );
}

#[test]
fn blank_lines_of_a_file_are_left_out() {
    assert_eq!(
        lineas_no_vacias(&owned(&["", "a", "  ", "\t", " b ", "\u{3000}", "c"])),
        owned(&["a", " b ", "c"])
    );
    assert_eq!(lineas_no_vacias(&owned(&["", " "])), Vec::<String>::new());
    assert_eq!(lineas_no_vacias(&owned(&[])), Vec::<String>::new());
}

#[test]
fn tle_from_the_lines_of_a_file() {
    let lines = owned(&["", ISS_NAME, "   ", ISS_LINE1, "", "", ISS_LINE2, ""]);
    let tle = tle_desde_lineas_de_archivo(&lines).unwrap();
    assert_eq!(tle.name, ISS_NAME);
    assert_eq!(tle.line1, ISS_LINE1);
    assert_eq!(tle.line2, ISS_LINE2);
}

#[test]
fn tle_from_a_file_counts_only_full_lines() {
    assert_eq!(
        tle_desde_lineas_de_archivo(&owned(&["a", "", " ", "b", "\t"])).unwrap_err(),
        TleError::LineasInsuficientes { encontradas: 2 }
    );
}

#[test]
fn known_names_in_upper_case() {
    assert_eq!(norad_id_de_mayusculas("ISS"), Some(25544));
    assert_eq!(norad_id_de_mayusculas("AO-91"), Some(43017));
    assert_eq!(norad_id_de_mayusculas("FOX-1B"), Some(43017));
    assert_eq!(norad_id_de_mayusculas("RADFXSAT"), Some(43017));
    assert_eq!(norad_id_de_mayusculas("FO-29"), Some(24278));
    assert_eq!(norad_id_de_mayusculas("JAS-2"), Some(24278));
    assert_eq!(norad_id_de_mayusculas("FUNCUBE-1"), Some(39444));
    assert_eq!(norad_id_de_mayusculas("AO-73"), Some(39444));
    assert_eq!(norad_id_de_mayusculas("LILACSAT-2"), Some(40069));
    assert_eq!(norad_id_de_mayusculas("CAS-3H"), Some(40069));
}

#[test]
fn names_not_in_upper_case_are_not_known_as_they_stand() {
    assert_eq!(norad_id_de_mayusculas("iss"), None);
    assert_eq!(norad_id_de_mayusculas("Iss"), None);
    assert_eq!(norad_id_de_mayusculas(""), None);
    assert_eq!(norad_id_de_mayusculas("ISS "), None);
    assert_eq!(norad_id_de_mayusculas("25544"), None);
}

#[test]
fn names_are_known_in_any_case() {
    assert_eq!(norad_id_por_nombre("iss"), Some(25544));
    assert_eq!(norad_id_por_nombre("Iss"), Some(25544));
    assert_eq!(norad_id_por_nombre("ISS"), Some(25544));
    assert_eq!(norad_id_por_nombre("ao-91"), Some(43017));
    assert_eq!(norad_id_por_nombre("fox-1b"), Some(43017));
    assert_eq!(norad_id_por_nombre("RadFxSat"), Some(43017));
    assert_eq!(norad_id_por_nombre("jas-2"), Some(24278));
    assert_eq!(norad_id_por_nombre("funcube-1"), Some(39444));
    assert_eq!(norad_id_por_nombre("LilacSat-2"), Some(40069));
    assert_eq!(norad_id_por_nombre("cas-3h"), Some(40069));
}

#[test]
fn unknown_names_have_no_number() {
    assert_eq!(norad_id_por_nombre("HUBBLE"), None);
    assert_eq!(norad_id_por_nombre(""), None);
    assert_eq!(norad_id_por_nombre(" iss"), None);
    assert_eq!(norad_id_por_nombre("25544"), None);
}

#[test]
fn celestrak_address() {
    assert_eq!(
        url_celestrak(25544),
        "https://celestrak.org/NORAD/elements/gp.php?CATNR=25544&FORMAT=TLE"
    );
    assert_eq!(
        url_celestrak(0),
        "https://celestrak.org/NORAD/elements/gp.php?CATNR=0&FORMAT=TLE"
    );
}
