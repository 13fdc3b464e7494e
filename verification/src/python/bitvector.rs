use makai_waveform_db::bitvector::{BitVector, Logic as BitLogic};
use vstd::prelude::*;

use crate::widgets::waveform::{held_out_of_line, word_logic, Logic};

verus! {

#[verifier::external_type_specification]
#[verifier::external_body]
pub struct ExBitVector(BitVector);

/// The bits of a bit vector, the lowest first.
pub uninterp spec fn bitvector_bits(bitvector: BitVector) -> Seq<Logic>;

/// Whether a bit vector is four-state (`BitVector::is_four_state`): it
/// holds a mask word beside each value word.
pub uninterp spec fn bitvector_is_four_state(bitvector: BitVector) -> bool;

/// What `BitVector::to_bits_four_state::<u64>` returns for a vector held in
/// line: its value word and its mask word (the mask is zero for a two-state
/// vector). The bits of the vector are the low bits of these words; the
/// words may hold further bits above the width.
pub uninterp spec fn bitvector_words(bitvector: BitVector) -> (u64, u64);

/// `BitVector::get_bit_width`: how many bits the vector has. A vector held
/// in line reads its bits from the low bits of its words
/// (`get_bit_four_state_internal`, `get_bit_two_state_internal`).
#[verifier::external_body]
pub(crate) fn bit_width(bitvector: &BitVector) -> (r: usize)
    ensures
        r == bitvector_bits(*bitvector).len(),
        !held_out_of_line(bitvector_bits(*bitvector), bitvector_is_four_state(*bitvector)) ==> forall|
            i: int,
        |
            0 <= i < r ==> bitvector_bits(*bitvector)[i] == word_logic(
                bitvector_words(*bitvector),
                i as nat,
            ),
{
    bitvector.get_bit_width()
}

/// `BitVector::get_bit`: the bit at `index`, and zero past the width.
#[verifier::external_body]
pub(crate) fn bit_at(bitvector: &BitVector, index: usize) -> (r: Logic)
    ensures
        r == if index < bitvector_bits(*bitvector).len() {
            bitvector_bits(*bitvector)[index as int]
        } else {
            Logic::Zero
        },
{
    match bitvector.get_bit(index) {
        BitLogic::Zero => Logic::Zero,
        BitLogic::One => Logic::One,
        BitLogic::Unknown => Logic::Unknown,
        BitLogic::HighImpedance => Logic::HighImpedance,
    }
}

/// A bit as a script sees it.
#[derive(Debug, Clone, Copy, PartialEq, Eq, Structural)]
pub enum LogicPy {
    Zero,
    One,
    Unknown,
    HighImpedance,
}

pub open spec fn logic_py(l: Logic) -> LogicPy {
    match l {
        Logic::Zero => LogicPy::Zero,
        Logic::One => LogicPy::One,
        Logic::Unknown => LogicPy::Unknown,
        Logic::HighImpedance => LogicPy::HighImpedance,
    }
}

/// Whether a bit counts as set in the value of a vector: one, and high
/// impedance (its value bit in the four-state encoding).
pub open spec fn value_bit(l: Logic) -> bool {
    l == Logic::One || l == Logic::HighImpedance
}

/// Whether a bit counts as set in the mask of a vector: unknown and high
/// impedance.
pub open spec fn mask_bit(l: Logic) -> bool {
    l == Logic::Unknown || l == Logic::HighImpedance
}

/// A bit vector as a script reads it: its bits, the lowest first.
pub struct BitVectorPy {
    bits: Vec<Logic>,
}

impl View for BitVectorPy {
    type V = Seq<Logic>;

    closed spec fn view(&self) -> Seq<Logic> {
        self.bits@
    }
}

impl BitVectorPy {
    /// The bits of `bitvector`.
    pub fn new(bitvector: BitVector) -> (r: Self)
        ensures
            r@ == bitvector_bits(bitvector),
    {
        let width = bit_width(&bitvector);
        let mut bits: Vec<Logic> = Vec::new();
        let mut i: usize = 0;
        while i < width
            invariant
                i <= width,
                width == bitvector_bits(bitvector).len(),
                bits@ == bitvector_bits(bitvector).take(i as int),
            decreases width - i,
        {
            let bit = bit_at(&bitvector, i);
            bits.push(bit);
            assert(bits@ =~= bitvector_bits(bitvector).take(i + 1));
            i += 1;
        }
        assert(bits@ =~= bitvector_bits(bitvector));
        BitVectorPy { bits }
    }

    /// The value bits, the lowest first: set for one and high impedance.
    pub fn get_value_py(&self) -> (r: Vec<bool>)
        ensures
            r@ == self@.map_values(|l: Logic| value_bit(l)),
    {
        let mut out: Vec<bool> = Vec::new();
        let mut i: usize = 0;
        while i < self.bits.len()
            invariant
                i <= self@.len(),
                out@ == self@.take(i as int).map_values(|l: Logic| value_bit(l)),
            decreases self@.len() - i,
        {
            let bit = self.bits[i];
            out.push(bit == Logic::One || bit == Logic::HighImpedance);
            assert(out@ =~= self@.take(i + 1).map_values(|l: Logic| value_bit(l)));
            i += 1;
        }
        assert(self@.take(i as int) =~= self@);
        out
    }

    /// The mask bits, the lowest first: set for unknown and high
    /// impedance.
    pub fn get_mask_py(&self) -> (r: Vec<bool>)
        ensures
            r@ == self@.map_values(|l: Logic| mask_bit(l)),
    {
        let mut out: Vec<bool> = Vec::new();
        let mut i: usize = 0;
        while i < self.bits.len()
            invariant
                i <= self@.len(),
                out@ == self@.take(i as int).map_values(|l: Logic| mask_bit(l)),
            decreases self@.len() - i,
        {
            let bit = self.bits[i];
            out.push(bit == Logic::Unknown || bit == Logic::HighImpedance);
            assert(out@ =~= self@.take(i + 1).map_values(|l: Logic| mask_bit(l)));
            i += 1;
        }
        assert(self@.take(i as int) =~= self@);
        out
    }

    /// The bit at `index`; none past the width.
    pub fn get_logic_py(&self, index: usize) -> (r: Option<LogicPy>)
        ensures
            r == if index < self@.len() {
                Some(logic_py(self@[index as int]))
            } else {
                None
            },
    {
        if index >= self.bits.len() {
            return None;
        }
        match self.bits[index] {
            Logic::Zero => Some(LogicPy::Zero),
            Logic::One => Some(LogicPy::One),
            Logic::Unknown => Some(LogicPy::Unknown),
            Logic::HighImpedance => Some(LogicPy::HighImpedance),
        }
    }

    /// The bit at `index` where it is zero or one; none past the width and
    /// for an unknown or high impedance bit.
    pub fn get_bit_py(&self, index: usize) -> (r: Option<LogicPy>)
        ensures
            r == if index < self@.len() && (self@[index as int] == Logic::Zero || self@[index as int]
                == Logic::One) {
                Some(logic_py(self@[index as int]))
            } else {
                None
            },
    {
        if index >= self.bits.len() {
            return None;
        }
        match self.bits[index] {
            Logic::Zero => Some(LogicPy::Zero),
            Logic::One => Some(LogicPy::One),
            _ => None,
        }
    }
}

} // verus!
