use vstd::prelude::*;

verus! {

/// A source of the random variates the simulation consumes.
///
/// The engine is generic over it so that a run can be seeded, replayed or
/// scripted. Nothing is assumed of the values handed back: every contract of
/// the engine holds whatever they are.
pub trait Variates {
    /// The order of magnitude `floor(log10(v))` of a power-law variate `v`
    /// with exponent `alpha_centi / 100`.
    fn order_of_magnitude(&mut self, alpha_centi: u32) -> i64;

    /// A uniform choice among `n` alternatives; the engine reduces the value modulo `n`.
    fn index_below(&mut self, n: usize) -> usize;
}

/// A drawn order of magnitude read as a count: negative draws count as zero.
pub open spec fn jitter(m: i64) -> nat {
    if m < 0 {
        0
    } else {
        m as nat
    }
}

/// `a + b`, saturated at `usize::MAX`.
pub open spec fn sat_add(a: int, b: int) -> int {
    if a + b > usize::MAX {
        usize::MAX as int
    } else {
        a + b
    }
}

/// A drawn order of magnitude as a count, saturated at `usize::MAX`.
pub fn magnitude_count(m: i64) -> (r: usize)
    ensures
        r == sat_add(0, jitter(m) as int),
{
    if m < 0 {
        0
    } else if m as u64 > usize::MAX as u64 {
        usize::MAX
    } else {
        m as usize
    }
}

/// Variates read from fixed scripts, each replayed from its start once used up.
/// An empty script yields zeros.
pub struct ScriptedVariates {
    pub magnitudes: Vec<i64>,
    pub choices: Vec<usize>,
    pub next_magnitude: usize,
    pub next_choice: usize,
}

impl ScriptedVariates {
    pub fn new(magnitudes: Vec<i64>, choices: Vec<usize>) -> (r: ScriptedVariates)
        ensures
            r.magnitudes@ == magnitudes@,
            r.choices@ == choices@,
            r.next_magnitude == 0,
            r.next_choice == 0,
    {
        ScriptedVariates { magnitudes, choices, next_magnitude: 0, next_choice: 0 }
    }
}

impl Variates for ScriptedVariates {
    fn order_of_magnitude(&mut self, alpha_centi: u32) -> i64 {
        if self.magnitudes.len() == 0 {
            0
        } else {
            if self.next_magnitude >= self.magnitudes.len() {
                self.next_magnitude = 0;
            }
            let m = self.magnitudes[self.next_magnitude];
            self.next_magnitude = self.next_magnitude + 1;
            m
        }
    }

    fn index_below(&mut self, n: usize) -> usize {
        if self.choices.len() == 0 {
            0
        } else {
            if self.next_choice >= self.choices.len() {
                self.next_choice = 0;
            }
            let c = self.choices[self.next_choice];
            self.next_choice = self.next_choice + 1;
            c
        }
    }
}

} // verus!
