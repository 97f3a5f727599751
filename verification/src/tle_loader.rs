//! Two-line element sets as text: a name line and the two element lines,
//! taken from the lines of a file or of a catalogue's answer, and the
//! catalogue numbers of the satellites known by name.

use crate::text::{
    decimal, decimal_text, is_blank, lines, lines_of, same_text, texts, to_uppercase, trim, trimmed,
    uppercase_of,
};
use vstd::prelude::*;
use vstd::string::*;

verus! {

/// A satellite's name and the two lines of its element set, each without
/// surrounding white space.
#[derive(Debug)]
pub struct TleData {
    pub name: String,
    pub line1: String,
    pub line2: String,
}

/// What a [`TleData`] holds, as characters.
pub struct TleView {
    pub name: Seq<char>,
    pub line1: Seq<char>,
    pub line2: Seq<char>,
}

impl View for TleData {
    type V = TleView;

    open spec fn view(&self) -> TleView {
        TleView { name: self.name@, line1: self.line1@, line2: self.line2@ }
    }
}

/// Why text holds no element set.
#[derive(Clone, Copy, Debug, PartialEq, Eq, Structural)]
pub enum TleError {
    /// An element set takes three lines, and only `encontradas` were there.
    LineasInsuficientes { encontradas: usize },
}

/// The element set that `lineas` begin with: the first three lines, each without
/// surrounding white space. Fewer than three lines hold none.
pub open spec fn tle_de(lineas: Seq<Seq<char>>) -> Result<TleView, TleError> {
    if lineas.len() < 3 {
        Err(TleError::LineasInsuficientes { encontradas: lineas.len() as usize })
    } else {
        Ok(
            TleView {
                name: trimmed(lineas[0]),
                line1: trimmed(lineas[1]),
                line2: trimmed(lineas[2]),
            },
        )
    }
}

/// `r` says of an element set what `expected` says.
pub open spec fn tle_matches(r: Result<TleData, TleError>, expected: Result<TleView, TleError>) -> bool {
    match (r, expected) {
        (Ok(tle), Ok(view)) => tle@ == view,
        (Err(e), Err(f)) => e == f,
        _ => false,
    }
}

/// The lines among `lineas` that hold more than white space, in their order.
pub open spec fn sin_vacias(lineas: Seq<Seq<char>>) -> Seq<Seq<char>> {
    lineas.filter(|linea: Seq<char>| trimmed(linea).len() > 0)
}

/// Drops the lines that hold nothing but white space.
pub fn lineas_no_vacias(lineas: &Vec<String>) -> (r: Vec<String>)
    ensures
        texts(r@) == sin_vacias(texts(lineas@)),
{
    let mut out: Vec<String> = Vec::new();
    let mut i: usize = 0;
    proof {
        reveal(Seq::filter);
        assert(texts(lineas@).take(0) =~= Seq::<Seq<char>>::empty());
        assert(texts(out@) =~= Seq::<Seq<char>>::empty());
    }
    while i < lineas.len()
        invariant
            i <= lineas.len(),
            texts(out@) == sin_vacias(texts(lineas@).take(i as int)),
        decreases lineas.len() - i,
    {
        let ghost before = texts(lineas@).take(i as int);
        let ghost after = texts(lineas@).take(i + 1);
        proof {
            reveal(Seq::filter);
            assert(after.drop_last() =~= before);
            assert(after.last() == lineas@[i as int]@);
        }
        if !is_blank(lineas[i].as_str()) {
            let linea = lineas[i].clone();
            proof {
                assert(texts(out@.push(linea)) =~= texts(out@).push(linea@));
            }
            out.push(linea);
        }
        i = i + 1;
    }
    proof {
        assert(texts(lineas@).take(lineas@.len() as int) =~= texts(lineas@));
    }
    out
}

/// The element set that `lineas` begin with.
pub fn tle_desde_lineas(lineas: &Vec<String>) -> (r: Result<TleData, TleError>)
    ensures
        tle_matches(r, tle_de(texts(lineas@))),
{
    if lineas.len() < 3 {
        return Err(TleError::LineasInsuficientes { encontradas: lineas.len() });
    }
    let name = trim(lineas[0].as_str()).to_owned();
    let line1 = trim(lineas[1].as_str()).to_owned();
    let line2 = trim(lineas[2].as_str()).to_owned();
    Ok(TleData { name, line1, line2 })
}

/// The element set that the text of a catalogue's answer begins with: its
/// first three lines, blank or not.
pub fn tle_desde_texto(texto: &str) -> (r: Result<TleData, TleError>)
    ensures
        tle_matches(r, tle_de(lines_of(texto@))),
{
    let lineas = lines(texto);
    tle_desde_lineas(&lineas)
}

/// The element set that the lines of a file begin with, once the lines that
/// hold nothing but white space are left out.
pub fn tle_desde_lineas_de_archivo(lineas: &Vec<String>) -> (r: Result<TleData, TleError>)
    ensures
        tle_matches(r, tle_de(sin_vacias(texts(lineas@)))),
{
    let llenas = lineas_no_vacias(lineas);
    tle_desde_lineas(&llenas)
}

/// The catalogue number of the satellite that goes by the name `mayusculas`,
/// written in upper case. Several names may stand for one satellite.
pub open spec fn norad_id_de(mayusculas: Seq<char>) -> Option<u32> {
    if mayusculas == "ISS"@ {
        Some(25544u32)
    } else if mayusculas == "AO-91"@ || mayusculas == "FOX-1B"@ || mayusculas == "RADFXSAT"@ {
        Some(43017u32)
    } else if mayusculas == "FO-29"@ || mayusculas == "JAS-2"@ {
        Some(24278u32)
    } else if mayusculas == "FUNCUBE-1"@ || mayusculas == "AO-73"@ {
        Some(39444u32)
    } else if mayusculas == "LILACSAT-2"@ || mayusculas == "CAS-3H"@ {
        Some(40069u32)
    } else {
        None
    }
}

/// The catalogue number that goes with a name already in upper case.
pub fn norad_id_de_mayusculas(nombre: &str) -> (r: Option<u32>)
    ensures
        r == norad_id_de(nombre@),
{
    if same_text(nombre, "ISS") {
        Some(25544)
    } else if same_text(nombre, "AO-91") || same_text(nombre, "FOX-1B") || same_text(
        nombre,
        "RADFXSAT",
    ) {
        Some(43017)
    } else if same_text(nombre, "FO-29") || same_text(nombre, "JAS-2") {
        Some(24278)
    } else if same_text(nombre, "FUNCUBE-1") || same_text(nombre, "AO-73") {
        Some(39444)
    } else if same_text(nombre, "LILACSAT-2") || same_text(nombre, "CAS-3H") {
        Some(40069)
    } else {
        None
    }
}

/// The catalogue number of the satellite called `nombre`, in whatever case the
/// name is written, or `None` for a name that is not known.
pub fn norad_id_por_nombre(nombre: &str) -> (r: Option<u32>)
    ensures
        r == norad_id_de(uppercase_of(nombre@)),
{
    let mayusculas = to_uppercase(nombre);
    norad_id_de_mayusculas(mayusculas.as_str())
}

/// The address at which CelesTrak serves the element set of the satellite with
/// catalogue number `norad_id`.
pub fn url_celestrak(norad_id: u32) -> (r: String)
    ensures
        r@ == "https://celestrak.org/NORAD/elements/gp.php?CATNR="@ + decimal(norad_id as nat)
            + "&FORMAT=TLE"@,
{
    let mut url = "https://celestrak.org/NORAD/elements/gp.php?CATNR=".to_owned();
    let numero = decimal_text(norad_id);
    url.append(numero.as_str());
    url.append("&FORMAT=TLE");
    url
}

} // verus!
