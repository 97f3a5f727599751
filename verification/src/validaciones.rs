//! The comparison sweep: one row a minute from a starting instant, and the
//! count of the rows that could and could not be computed.

use crate::passes::{samples_within, Schedule, ScheduleView};
use vstd::prelude::*;

verus! {

/// Seconds from one row of the comparison to the next.
pub const PASO_SEGUNDOS: u64 = 60;

/// The instants of a comparison that starts at `inicio` and lasts
/// `duracion_mins` minutes: one a minute, the first at `inicio`, the last a
/// minute before the end. A duration of zero or less has no instant. There is
/// no plan where the end of the comparison is not a valid timestamp.
pub fn plan_comparacion(inicio: i64, duracion_mins: i64) -> (r: Option<Schedule>)
    ensures
        r is Some <==> duracion_mins <= 0 || inicio + duracion_mins * 60 <= i64::MAX,
        r is Some ==> r->0@ == (ScheduleView {
            start: inicio as int,
            stride: 60,
            count: if duracion_mins <= 0 {
                0nat
            } else {
                duracion_mins as nat
            },
        }),
{
    if duracion_mins <= 0 {
        return Schedule::new(inicio, 0, PASO_SEGUNDOS);
    }
    let fin: i128 = inicio as i128 + (duracion_mins as i128) * 60;
    if fin > i64::MAX as i128 {
        return None;
    }
    let horizonte: u64 = (fin - inicio as i128) as u64;
    assert(samples_within(horizonte as int, 60) == duracion_mins);
    Schedule::new(inicio, horizonte, PASO_SEGUNDOS)
}

/// How many rows of a comparison could be computed and how many could not.
#[derive(Clone, Copy, Debug, PartialEq, Eq, Structural)]
pub struct Resumen {
    pub validos: u64,
    pub invalidos: u64,
}

/// The number of `true` among `resultados`.
pub open spec fn cuenta_validos(resultados: Seq<bool>) -> nat
    decreases resultados.len(),
{
    if resultados.len() == 0 {
        0
    } else {
        cuenta_validos(resultados.drop_last()) + if resultados.last() {
            1nat
        } else {
            0nat
        }
    }
}

/// Counts the rows: `resultados[k]` says whether row `k` could be computed.
/// A row that could not is skipped and counted, and the sweep goes on.
pub fn resumir(resultados: &Vec<bool>) -> (r: Resumen)
    ensures
        r.validos == cuenta_validos(resultados@),
        r.validos + r.invalidos == resultados@.len(),
{
    let mut validos: u64 = 0;
    let mut invalidos: u64 = 0;
    let mut k: usize = 0;
    while k < resultados.len()
        invariant
            k <= resultados.len(),
            validos == cuenta_validos(resultados@.take(k as int)),
            validos + invalidos == k,
        decreases resultados.len() - k,
    {
        proof {
            assert(resultados@.take(k + 1).drop_last() =~= resultados@.take(k as int));
        }
        if resultados[k] {
            validos = validos + 1;
        } else {
            invalidos = invalidos + 1;
        }
        k = k + 1;
    }
    proof {
        assert(resultados@.take(resultados@.len() as int) =~= resultados@);
    }
    Resumen { validos, invalidos }
}

/// Whether the row of minute `minuto` ends a group of ten, at which the sweep
/// shows that it is still at work.
pub fn marca_progreso(minuto: u64) -> (r: bool)
    ensures
        r == ((minuto + 1) % 10 == 0),
{
    minuto % 10 == 9
}

} // verus!
