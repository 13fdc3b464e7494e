use makai_waveform_db::bitvector::{BitVector, BitVectorRadix};
use makai_waveform_db::{Waveform, WaveformSearchMode, WaveformSignalResult, WaveformValueResult};
use vstd::prelude::*;
use vstd::arithmetic::div_mod::{lemma_basic_div, lemma_div_denominator, lemma_fundamental_div_mod};
use vstd::arithmetic::power2::{lemma2_to64, lemma_pow2_pos, lemma_pow2_unfold, pow2};

use crate::python::bitvector::{bit_at, bit_width, bitvector_bits, bitvector_is_four_state, bitvector_words};
use crate::python::signals::SignalRadixPy;
use crate::text::{push_repeat, push_str, repeat_char, str_chars};

verus! {

#[verifier::external_type_specification]
#[verifier::external_body]
pub struct ExWaveform(Waveform);

/// The value of one bit.
#[derive(Debug, Clone, Copy, PartialEq, Eq, Structural)]
pub enum Logic {
    Zero,
    One,
    Unknown,
    HighImpedance,
}

/// What the viewer reads of a value: a vector (its width, its lowest bit,
/// and its text in the chosen radix) or a real number (its text).
#[derive(Debug)]
pub enum ValueKind {
    Vector { bit_width: usize, first_bit: Logic, text: String },
    Real { text: String },
}

/// A value found in the waveform, at the timestamp index where it was set.
#[derive(Debug)]
pub struct ValueInfo {
    pub kind: ValueKind,
    pub timestamp_index: usize,
    pub unknown: bool,
    pub high_impedance: bool,
}

/// The timestamps of a waveform, in the order they were inserted. The
/// waveform keeps them strictly increasing: `Waveform::insert_timestamp`
/// refuses a smaller one and skips a repeated one.
pub uninterp spec fn waveform_timestamps(waveform: Waveform) -> Seq<u64>;

/// The signals of a waveform, by id code, as `Waveform::get_signal` and
/// `Waveform::search_value_bit_index` find them (a vector signal before a
/// real one): whether the signal holds real numbers, and the timestamp
/// indices at which its value changes, in order. The indices increase
/// strictly: a signal is updated at the last timestamp inserted, and
/// `WaveformHistory::add_change` panics on a repeated index.
pub uninterp spec fn waveform_signals(waveform: Waveform) -> Map<usize, (bool, Seq<usize>)>;

/// The largest index whose timestamp is at most `t`.
pub open spec fn last_at_or_before(ts: Seq<u64>, t: u64) -> Option<usize>
    decreases ts.len(),
{
    if ts.len() == 0 {
        None
    } else if ts.last() <= t {
        Some((ts.len() - 1) as usize)
    } else {
        last_at_or_before(ts.drop_last(), t)
    }
}

/// The smallest index whose timestamp is at least `t`.
pub open spec fn first_at_or_after(ts: Seq<u64>, t: u64) -> Option<usize>
    decreases ts.len(),
{
    if ts.len() == 0 {
        None
    } else {
        match first_at_or_after(ts.drop_last(), t) {
            Some(i) => Some(i),
            None => if ts.last() >= t {
                Some((ts.len() - 1) as usize)
            } else {
                None
            },
        }
    }
}

/// The position in `changes` of the last change at or before timestamp
/// index `ti`.
pub open spec fn latest_change_index(changes: Seq<usize>, ti: usize) -> Option<int>
    decreases changes.len(),
{
    if changes.len() == 0 {
        None
    } else if changes.last() <= ti {
        Some(changes.len() - 1)
    } else {
        latest_change_index(changes.drop_last(), ti)
    }
}

/// The last of the changes `changes` at or before timestamp index `ti`.
pub open spec fn latest_change(changes: Seq<usize>, ti: usize) -> Option<usize> {
    match latest_change_index(changes, ti) {
        Some(k) => Some(changes[k]),
        None => None,
    }
}

/// The bits a lookup gives for a value with bits `bits`: all of them, or
/// only bit `bit_index` (zero past the width).
pub open spec fn picked(bits: Seq<Logic>, bit_index: Option<usize>) -> Seq<Logic> {
    match bit_index {
        None => bits,
        Some(b) => seq![if b < bits.len() { bits[b as int] } else { Logic::Zero }],
    }
}

/// The bits that signal `idcode` (or its bit `bit_index`) holds at
/// timestamp index `ti`: those of its last change up to `ti`.
pub open spec fn signal_bits_at(waveform: Waveform, idcode: usize, ti: usize, bit_index: Option<usize>) -> Seq<
    Logic,
> {
    match latest_change_index(waveform_signals(waveform)[idcode].1, ti) {
        Some(k) => picked(waveform_vector_values(waveform)[idcode][k], bit_index),
        None => Seq::empty(),
    }
}

/// The changes of signal `idcode` at or before timestamp index `ti`: the
/// last of them, if the signal exists and has one.
pub open spec fn signal_change_before(waveform: Waveform, idcode: usize, ti: usize) -> Option<usize> {
    if waveform_signals(waveform).contains_key(idcode) {
        latest_change(waveform_signals(waveform)[idcode].1, ti)
    } else {
        None
    }
}

/// `Waveform::timestamps_count`: how many timestamps the waveform holds.
#[verifier::external_body]
fn timestamps_count(waveform: &Waveform) -> (r: usize)
    ensures
        r == waveform_timestamps(*waveform).len(),
{
    waveform.timestamps_count()
}

/// `Waveform::get_timestamp_range`: the first and the last timestamp of
/// the waveform, or 0 and 0 for a waveform without timestamps.
#[verifier::external_body]
pub(crate) fn timestamp_range(waveform: &Waveform) -> (r: (u64, u64))
    ensures
        r == (if waveform_timestamps(*waveform).len() > 0 {
            (waveform_timestamps(*waveform)[0], waveform_timestamps(*waveform).last())
        } else {
            (0u64, 0u64)
        }),
{
    let range = waveform.get_timestamp_range();
    (range.start, range.end)
}

/// `Waveform::search_timestamp`, searching before `timestamp` (`after`
/// false) or after it (`after` true): a binary search over the strictly
/// increasing timestamps, which gives the last index whose timestamp is at
/// most `timestamp`, or the first whose timestamp is at least it. It
/// indexes the first timestamp unchecked, so it panics on a waveform
/// without timestamps.
#[verifier::external_body]
fn search_timestamp(waveform: &Waveform, timestamp: u64, after: bool) -> (r: Option<usize>)
    requires
        waveform_timestamps(*waveform).len() > 0,
    ensures
        r == (if after {
            first_at_or_after(waveform_timestamps(*waveform), timestamp)
        } else {
            last_at_or_before(waveform_timestamps(*waveform), timestamp)
        }),
{
    waveform.search_timestamp(
        timestamp,
        if after {
            WaveformSearchMode::After
        } else {
            WaveformSearchMode::Before
        },
    )
}

/// `Waveform::get_signal` with the signal's `len`: for a signal of the
/// waveform, whether it holds real numbers and how many changes it has
/// (each update adds one change and one value).
#[verifier::external_body]
fn signal_summary(waveform: &Waveform, idcode: usize) -> (r: Option<(bool, usize)>)
    ensures
        match r {
            Some((holds_reals, count)) => waveform_signals(*waveform).contains_key(idcode) && holds_reals
                == waveform_signals(*waveform)[idcode].0 && count == waveform_signals(*waveform)[idcode].1.len(),
            None => !waveform_signals(*waveform).contains_key(idcode),
        },
{
    match waveform.get_signal(idcode) {
        Some(WaveformSignalResult::Vector(signal)) => Some((false, signal.len())),
        Some(WaveformSignalResult::Real(signal)) => Some((true, signal.len())),
        None => None,
    }
}

/// `WaveformHistory::search_timestamp_index` searching before `ti`, on the
/// history of signal `idcode`: the timestamp index of its last change at or
/// before `ti`. The history is searched block by block, and the search
/// subtracts one from the number of blocks unchecked, so it panics on a
/// signal without changes.
#[verifier::external_body]
fn search_change(waveform: &Waveform, idcode: usize, ti: usize) -> (r: Option<usize>)
    requires
        waveform_signals(*waveform).contains_key(idcode) ==> waveform_signals(*waveform)[idcode].1.len() > 0,
    ensures
        r == signal_change_before(*waveform, idcode, ti),
{
    let found = match waveform.get_signal(idcode) {
        Some(WaveformSignalResult::Vector(signal)) => signal.get_history().search_timestamp_index(ti, WaveformSearchMode::Before),
        Some(WaveformSignalResult::Real(signal)) => signal.get_history().search_timestamp_index(ti, WaveformSearchMode::Before),
        None => None,
    };
    found.map(|index| index.get_timestamp_index())
}

/// The values of the vector signals of a waveform, by id code: the bits of
/// the value that each change of the signal set, the lowest bit first, in
/// the order of the changes.
pub uninterp spec fn waveform_vector_values(waveform: Waveform) -> Map<usize, Seq<Seq<Logic>>>;

/// The value and mask words of the values of the vector signals of a
/// waveform, by id code, in the order of the changes: what
/// `BitVector::to_bits_four_state::<u64>` returns for the vector that
/// `WaveformSignalVector::get_bitvector` builds for each, where that vector
/// is held in line.
pub uninterp spec fn waveform_vector_words(waveform: Waveform) -> Map<usize, Seq<(u64, u64)>>;

/// The value and mask words of a one-bit vector made from `bit`
/// (`BitVector::from`, the `new_*_bit` constructors).
pub open spec fn words_of_logic(bit: Logic) -> (u64, u64) {
    match bit {
        Logic::Zero => (0, 0),
        Logic::One => (1, 0),
        Logic::Unknown => (0, 1),
        Logic::HighImpedance => (1, 1),
    }
}

/// A value a lookup read: a vector, or the text of a real number.
pub enum ValueRead {
    Vector(BitVector),
    Real(String),
}

/// `Waveform::search_value_bit_index` searching before `ti`: the value of
/// signal `idcode` (or of its bit `bit_index`) that holds at `ti`, with the
/// timestamp index of the change that set it; a real number is read as its
/// text. It panics where the history search does (a signal without
/// changes), and where it reads a real number:
/// `WaveformSignalReal::get_real` cuts one byte where it needs eight.
/// A whole vector is built four-state (`from_bits_four_state`,
/// `from_be_bytes_four_state`); one bit of it is a one-bit vector made
/// from that bit.
#[verifier::external_body]
fn search_value_result(
    waveform: &Waveform,
    idcode: usize,
    ti: usize,
    bit_index: Option<usize>,
) -> (r: Option<(ValueRead, usize)>)
    requires
        waveform_signals(*waveform).contains_key(idcode) ==> waveform_signals(*waveform)[idcode].1.len() > 0,
        waveform_signals(*waveform).contains_key(idcode) && waveform_signals(*waveform)[idcode].0
            ==> signal_change_before(*waveform, idcode, ti) is None,
    ensures
        match r {
            Some((read, i)) => {
                &&& signal_change_before(*waveform, idcode, ti) == Some(i)
                &&& read matches ValueRead::Vector(bv) && latest_change_index(
                    waveform_signals(*waveform)[idcode].1,
                    ti,
                ) matches Some(k) && bitvector_bits(bv) == picked(
                    waveform_vector_values(*waveform)[idcode][k],
                    bit_index,
                ) && match bit_index {
                    None => bitvector_is_four_state(bv) && bitvector_words(bv)
                        == waveform_vector_words(*waveform)[idcode][k],
                    Some(_) => bitvector_words(bv) == words_of_logic(bitvector_bits(bv)[0]),
                }
            },
            None => signal_change_before(*waveform, idcode, ti) is None,
        },
{
    match waveform.search_value_bit_index(idcode, ti, WaveformSearchMode::Before, bit_index) {
        Some(WaveformValueResult::Vector(bv, i)) => Some((ValueRead::Vector(bv), i)),
        Some(WaveformValueResult::Real(number, i)) => Some((ValueRead::Real(number.to_string()), i)),
        None => None,
    }
}

/// Bit `i` of `bits`, zero past the end.
pub open spec fn bit_or_zero(bits: Seq<Logic>, i: int) -> Logic {
    if 0 <= i < bits.len() {
        bits[i]
    } else {
        Logic::Zero
    }
}

/// 1 for a one bit, 0 for any other.
pub open spec fn one_value(l: Logic) -> nat {
    if l == Logic::One {
        1
    } else {
        0
    }
}

/// `0`-`9`, then `A`-`F`.
pub open spec fn digit_char(d: nat) -> char {
    if d < 10 {
        (48 + d) as char
    } else {
        (55 + d) as char
    }
}

/// The digit for the `size` bits from bit `lo` (a group of at most four):
/// `X` where one of them is unknown, else `Z` where one is high impedance,
/// else the value of the group's bits.
pub open spec fn group_char(bits: Seq<Logic>, lo: int, size: int) -> char {
    let group = Seq::new(size as nat, |j: int| bit_or_zero(bits, lo + j));
    if group.contains(Logic::Unknown) {
        'X'
    } else if group.contains(Logic::HighImpedance) {
        'Z'
    } else {
        digit_char(
            one_value(bit_or_zero(bits, lo)) + 2 * one_value(bit_or_zero(bits, lo + 1)) * (if size > 1 {
                1nat
            } else {
                0nat
            }) + 4 * one_value(bit_or_zero(bits, lo + 2)) * (if size > 2 {
                1nat
            } else {
                0nat
            }) + 8 * one_value(bit_or_zero(bits, lo + 3)) * (if size > 3 {
                1nat
            } else {
                0nat
            }),
        )
    }
}

/// The digits of `bits` in groups of `size` bits, the highest group first;
/// the last group is filled up with zeros.
pub open spec fn group_digits(bits: Seq<Logic>, size: int) -> Seq<char> {
    let groups = (bits.len() + size - 1) / size;
    Seq::new(groups as nat, |t: int| group_char(bits, (groups - 1 - t) * size, size))
}

/// The letter that `BitVector::to_string_radix` writes first.
pub open spec fn radix_letter(radix: SignalRadixPy) -> char {
    match radix {
        SignalRadixPy::Binary => 'b',
        SignalRadixPy::Octal => 'o',
        SignalRadixPy::Decimal => 'd',
        SignalRadixPy::Hexadecimal => 'h',
    }
}

/// What `BitVector::to_string_radix` writes for a vector of the bits `bits`
/// in binary, octal or hexadecimal: the radix's letter, then a digit for
/// each group of one, three or four bits, the highest first.
pub open spec fn vector_text(bits: Seq<Logic>, radix: SignalRadixPy) -> Seq<char> {
    seq![radix_letter(radix)] + match radix {
        SignalRadixPy::Binary => group_digits(bits, 1),
        SignalRadixPy::Octal => group_digits(bits, 3),
        SignalRadixPy::Hexadecimal => group_digits(bits, 4),
        SignalRadixPy::Decimal => Seq::empty(),
    }
}

/// Bit `i` of `x`.
pub open spec fn nat_bit(x: nat, i: nat) -> bool {
    (x / pow2(i)) % 2 == 1
}

/// The bit that a value bit and a mask bit encode.
pub open spec fn logic_of(value: bool, mask: bool) -> Logic {
    if !mask {
        if value {
            Logic::One
        } else {
            Logic::Zero
        }
    } else if value {
        Logic::HighImpedance
    } else {
        Logic::Unknown
    }
}

/// Bit `i` of a vector held in line, read from its value and mask words.
pub open spec fn word_logic(words: (u64, u64), i: nat) -> Logic {
    logic_of(nat_bit(words.0 as nat, i), nat_bit(words.1 as nat, i))
}

/// `n` written in decimal, as `{}` writes an integer.
pub open spec fn decimal_digits(n: nat) -> Seq<char>
    decreases n,
{
    if n < 10 {
        seq![digit_char(n)]
    } else {
        decimal_digits(n / 10).push(digit_char(n % 10))
    }
}

/// `OVERFLOW!`.
pub open spec fn overflow_text() -> Seq<char> {
    seq!['O', 'V', 'E', 'R', 'F', 'L', 'O', 'W', '!']
}

/// Whether a vector of `bits`, four-state or not, is held out of line (in
/// words of its own rather than in the vector itself).
pub open spec fn held_out_of_line(bits: Seq<Logic>, four_state: bool) -> bool {
    if four_state {
        bits.len() * 2 > usize::BITS
    } else {
        bits.len() > usize::BITS
    }
}

/// What `to_string_radix` writes after the `d` of decimal for a vector held
/// in line with the value and mask words `words`: `X` where a masked bit
/// has value 0, else `Z` where a bit is masked, else the value.
pub open spec fn words_text(words: (u64, u64)) -> Seq<char> {
    if words.1 != 0 {
        if exists|i: nat| nat_bit(words.1 as nat, i) && !nat_bit(words.0 as nat, i) {
            seq!['X']
        } else {
            seq!['Z']
        }
    } else {
        decimal_digits(words.0 as nat)
    }
}

/// What `to_string_radix` writes after the `d` of decimal for a vector of
/// the bits `bits`, four-state or not, with the words `words`: `OVERFLOW!`
/// for a vector held out of line, else `words_text`.
pub open spec fn decimal_tail(bits: Seq<Logic>, four_state: bool, words: (u64, u64)) -> Seq<char> {
    if held_out_of_line(bits, four_state) {
        overflow_text()
    } else {
        words_text(words)
    }
}

/// The number the bits stand for, the lowest bit first, where each bit is
/// zero or one.
pub open spec fn bits_value(bits: Seq<Logic>) -> nat
    decreases bits.len(),
{
    if bits.len() == 0 {
        0
    } else {
        one_value(bits[0]) + 2 * bits_value(bits.drop_first())
    }
}

/// The decimal text of the bits themselves: `X` where one is unknown, else
/// `Z` where one is high impedance, else the number they stand for.
pub open spec fn decimal_text(bits: Seq<Logic>) -> Seq<char> {
    if bits.contains(Logic::Unknown) {
        seq!['X']
    } else if bits.contains(Logic::HighImpedance) {
        seq!['Z']
    } else {
        decimal_digits(bits_value(bits))
    }
}

/// The words hold nothing above the bits: both are below `2^len`.
pub open spec fn words_fit(bits: Seq<Logic>, words: (u64, u64)) -> bool {
    &&& words.0 < pow2(bits.len())
    &&& words.1 < pow2(bits.len())
}

proof fn lemma_nat_bit_shift(x: nat, i: nat)
    ensures
        nat_bit(x, i + 1) == nat_bit(x / 2, i),
{
    lemma_pow2_unfold(i + 1);
    lemma_pow2_pos(i);
    lemma_div_denominator(x as int, 2, pow2(i) as int);
}

proof fn lemma_nat_bit_zero(x: nat)
    ensures
        nat_bit(x, 0) == (x % 2 == 1),
        forall|i: nat| !nat_bit(0, i),
{
    lemma2_to64();
    assert forall|i: nat| !nat_bit(0, i) by {
        lemma_pow2_pos(i);
        lemma_basic_div(0, pow2(i) as int);
    }
}

proof fn lemma_contains_split(s: Seq<Logic>, x: Logic)
    requires
        s.len() > 0,
    ensures
        s.contains(x) == (s[0] == x || s.drop_first().contains(x)),
{
    if s.contains(x) {
        let j = choose|j: int| 0 <= j < s.len() && s[j] == x;
        if j > 0 {
            assert(s.drop_first()[j - 1] == x);
        }
    }
    if s.drop_first().contains(x) {
        let j = choose|j: int| 0 <= j < s.drop_first().len() && s.drop_first()[j] == x;
        assert(s[j + 1] == x);
    }
    if s[0] == x {
        assert(s[0] == x);
    }
}

/// Words that hold the bits of a vector and nothing above them give the
/// decimal text of the bits: a mask is set exactly where a bit is unknown
/// or high impedance, a masked bit has value 0 exactly where one is
/// unknown, and without a mask the value is the number of the bits.
proof fn lemma_words_bits(bits: Seq<Logic>, v: nat, m: nat)
    requires
        v < pow2(bits.len()),
        m < pow2(bits.len()),
        forall|i: int|
            0 <= i < bits.len() ==> bits[i] == logic_of(nat_bit(v, i as nat), nat_bit(m, i as nat)),
    ensures
        (m != 0) == (bits.contains(Logic::Unknown) || bits.contains(Logic::HighImpedance)),
        (exists|i: nat| nat_bit(m, i) && !nat_bit(v, i)) == bits.contains(Logic::Unknown),
        m == 0 ==> v == bits_value(bits),
    decreases bits.len(),
{
    lemma_nat_bit_zero(v);
    lemma_nat_bit_zero(m);
    if bits.len() == 0 {
        lemma2_to64();
        assert(!bits.contains(Logic::Unknown));
        assert(!bits.contains(Logic::HighImpedance));
    } else {
        let b = bits.drop_first();
        let n = b.len();
        lemma_pow2_unfold(bits.len());
        let v2 = v / 2;
        let m2 = m / 2;
        assert(v2 < pow2(n) && m2 < pow2(n)) by (nonlinear_arith)
            requires
                v < 2 * pow2(n),
                m < 2 * pow2(n),
                v2 == v / 2,
                m2 == m / 2,
        ;
        assert forall|i: int| 0 <= i < n implies b[i] == logic_of(
            nat_bit(v2, i as nat),
            nat_bit(m2, i as nat),
        ) by {
            lemma_nat_bit_shift(v, i as nat);
            lemma_nat_bit_shift(m, i as nat);
            assert(b[i] == bits[i + 1]);
        }
        lemma_words_bits(b, v2, m2);
        lemma_contains_split(bits, Logic::Unknown);
        lemma_contains_split(bits, Logic::HighImpedance);
        lemma_fundamental_div_mod(v as int, 2);
        lemma_fundamental_div_mod(m as int, 2);
        if exists|i: nat| nat_bit(m, i) && !nat_bit(v, i) {
            let i = choose|i: nat| nat_bit(m, i) && !nat_bit(v, i);
            if i > 0 {
                lemma_nat_bit_shift(v, (i - 1) as nat);
                lemma_nat_bit_shift(m, (i - 1) as nat);
                assert(nat_bit(m2, (i - 1) as nat) && !nat_bit(v2, (i - 1) as nat));
            }
        }
        if exists|i: nat| nat_bit(m2, i) && !nat_bit(v2, i) {
            let i = choose|i: nat| nat_bit(m2, i) && !nat_bit(v2, i);
            lemma_nat_bit_shift(v, i);
            lemma_nat_bit_shift(m, i);
            assert(nat_bit(m, i + 1) && !nat_bit(v, i + 1));
        }
        if bits[0] == Logic::Unknown {
            assert(nat_bit(m, 0) && !nat_bit(v, 0));
        }
    }
}

/// For a vector held in line whose words hold its bits and nothing above
/// them, the decimal text is that of the bits.
pub proof fn lemma_decimal_tail_of_bits(bits: Seq<Logic>, four_state: bool, words: (u64, u64))
    requires
        !held_out_of_line(bits, four_state),
        words_fit(bits, words),
        forall|i: int| 0 <= i < bits.len() ==> bits[i] == word_logic(words, i as nat),
    ensures
        decimal_tail(bits, four_state, words) == decimal_text(bits),
{
    lemma_words_bits(bits, words.0 as nat, words.1 as nat);
}

/// A one-bit vector shows in decimal the text of its bit.
pub proof fn lemma_one_bit_decimal(bit: Logic, four_state: bool)
    ensures
        decimal_tail(seq![bit], four_state, words_of_logic(bit)) == decimal_text(seq![bit]),
{
    lemma2_to64();
    let bits = seq![bit];
    let w = words_of_logic(bit);
    lemma_nat_bit_zero(w.0 as nat);
    lemma_nat_bit_zero(w.1 as nat);
    assert(bits[0] == word_logic(w, 0));
    lemma_decimal_tail_of_bits(bits, four_state, w);
}

/// `BitVector::to_string_radix` in the radix of the viewer (the same four
/// radixes): the radix's letter first; outside decimal `vector_text` of the
/// bits, in decimal `decimal_tail` of the bits and words (`fmt_radix`).
/// In decimal it reads the words with `to_bits_four_state::<u64>`, which
/// panics where `usize` is narrower than 64 bits.
#[verifier::external_body]
fn bitvector_text(bitvector: &BitVector, radix: SignalRadixPy) -> (r: String)
    requires
        radix == SignalRadixPy::Decimal ==> usize::BITS == 64,
    ensures
        r@.len() > 0,
        r@[0] == radix_letter(radix),
        radix != SignalRadixPy::Decimal ==> r@ == vector_text(bitvector_bits(*bitvector), radix),
        radix == SignalRadixPy::Decimal ==> r@ == seq!['d'] + decimal_tail(
            bitvector_bits(*bitvector),
            bitvector_is_four_state(*bitvector),
            bitvector_words(*bitvector),
        ),
{
    bitvector.to_string_radix(
        match radix {
            SignalRadixPy::Binary => BitVectorRadix::Binary,
            SignalRadixPy::Octal => BitVectorRadix::Octal,
            SignalRadixPy::Decimal => BitVectorRadix::Decimal,
            SignalRadixPy::Hexadecimal => BitVectorRadix::Hexadecimal,
        },
    )
}

/// `BitVector::is_unknown`: whether a bit is unknown.
#[verifier::external_body]
fn bitvector_is_unknown(bitvector: &BitVector) -> (r: bool)
    ensures
        r == bitvector_bits(*bitvector).contains(Logic::Unknown),
{
    bitvector.is_unknown()
}

/// `BitVector::is_high_impedance`: whether no bit is unknown and a bit is
/// high impedance.
#[verifier::external_body]
fn bitvector_is_high_impedance(bitvector: &BitVector) -> (r: bool)
    ensures
        r == (!bitvector_bits(*bitvector).contains(Logic::Unknown) && bitvector_bits(*bitvector).contains(
            Logic::HighImpedance,
        )),
{
    bitvector.is_high_impedance()
}

/// `info` is what the viewer reads of a vector with bits `bits`, four-state
/// or not, with words `words`, set at timestamp index `ti` and shown in
/// `radix`: its width, its lowest bit, its text (`vector_text`, or in
/// decimal `d` and `decimal_tail`), and whether a bit is unknown, or else
/// high impedance. Held in line, the bits are the low bits of the words.
pub open spec fn vector_info_ok(
    info: ValueInfo,
    bits: Seq<Logic>,
    four_state: bool,
    words: (u64, u64),
    ti: usize,
    radix: SignalRadixPy,
) -> bool {
    &&& info.kind matches ValueKind::Vector { bit_width, first_bit, text } && bit_width == bits.len()
        && first_bit == (if bits.len() > 0 {
        bits[0]
    } else {
        Logic::Zero
    }) && (radix != SignalRadixPy::Decimal ==> text@ == vector_text(bits, radix)) && (radix
        == SignalRadixPy::Decimal ==> text@ == seq!['d'] + decimal_tail(bits, four_state, words))
    &&& !held_out_of_line(bits, four_state) ==> forall|i: int|
        0 <= i < bits.len() ==> bits[i] == word_logic(words, i as nat)
    &&& info.unknown == bits.contains(Logic::Unknown)
    &&& info.high_impedance == (!bits.contains(Logic::Unknown) && bits.contains(Logic::HighImpedance))
    &&& info.timestamp_index == ti
}

/// What the viewer reads of a value of the waveform, set at timestamp index
/// `timestamp_index`, shown in `radix`.
fn value_info(read: ValueRead, timestamp_index: usize, radix: SignalRadixPy) -> (r: ValueInfo)
    requires
        radix == SignalRadixPy::Decimal ==> usize::BITS == 64,
    ensures
        r.timestamp_index == timestamp_index,
        read matches ValueRead::Vector(bv) ==> vector_info_ok(
            r,
            bitvector_bits(bv),
            bitvector_is_four_state(bv),
            bitvector_words(bv),
            timestamp_index,
            radix,
        ),
{
    match read {
        ValueRead::Vector(bv) => {
            let bit_width = bit_width(&bv);
            let first_bit = bit_at(&bv, 0);
            let text = bitvector_text(&bv, radix);
            let unknown = bitvector_is_unknown(&bv);
            let high_impedance = bitvector_is_high_impedance(&bv);
            ValueInfo {
                kind: ValueKind::Vector { bit_width, first_bit, text },
                timestamp_index,
                unknown,
                high_impedance,
            }
        },
        ValueRead::Real(text) => ValueInfo {
            kind: ValueKind::Real { text },
            timestamp_index,
            unknown: false,
            high_impedance: false,
        },
    }
}

/// What one stretch of a signal's row shows, and how many columns wide it
/// is.
#[derive(Debug)]
pub enum WaveformQuery {
    /// The value changes once in the stretch, to this value.
    SingleEdge(ValueInfo, usize),
    /// The value changes more than once.
    MultipleEdge(usize),
    /// The value holds through the stretch.
    Static(ValueInfo, usize),
    /// The stretch lies past the end of the waveform.
    StaticVoid(ValueInfo, usize),
    /// There is no value.
    Blank(usize),
}

/// The kind of a stretch, with the timestamp index of its value where it
/// has one.
#[derive(Debug, Clone, Copy, PartialEq, Eq, Structural)]
pub enum QueryShape {
    SingleEdge(usize),
    MultipleEdge,
    Static(usize),
    StaticVoid(usize),
    Blank,
}

pub open spec fn query_shape(q: WaveformQuery) -> QueryShape {
    match q {
        WaveformQuery::SingleEdge(v, _) => QueryShape::SingleEdge(v.timestamp_index),
        WaveformQuery::MultipleEdge(_) => QueryShape::MultipleEdge,
        WaveformQuery::Static(v, _) => QueryShape::Static(v.timestamp_index),
        WaveformQuery::StaticVoid(v, _) => QueryShape::StaticVoid(v.timestamp_index),
        WaveformQuery::Blank(_) => QueryShape::Blank,
    }
}

/// The value a stretch shows, if any.
pub open spec fn query_value(q: WaveformQuery) -> Option<ValueInfo> {
    match q {
        WaveformQuery::SingleEdge(v, _) => Some(v),
        WaveformQuery::Static(v, _) => Some(v),
        WaveformQuery::StaticVoid(v, _) => Some(v),
        _ => None,
    }
}

pub open spec fn query_width(q: WaveformQuery) -> nat {
    match q {
        WaveformQuery::SingleEdge(_, w) => w as nat,
        WaveformQuery::MultipleEdge(w) => w as nat,
        WaveformQuery::Static(_, w) => w as nat,
        WaveformQuery::StaticVoid(_, w) => w as nat,
        WaveformQuery::Blank(w) => w as nat,
    }
}

/// How a stretch of a signal's row is coloured.
#[derive(Debug, Clone, Copy, PartialEq, Eq, Structural)]
pub enum SpanStyle {
    /// Black on grey: several changes.
    Edges,
    /// White on black: a plain value, or nothing.
    Normal,
    /// Grey on grey: past the end of the waveform.
    Void,
    /// Red on black: an unknown value.
    Unknown,
    /// Blue on black: a high impedance value.
    HighImpedance,
}

/// The character a one-bit value is drawn with.
pub open spec fn logic_char(l: Logic) -> char {
    match l {
        Logic::Zero => '_',
        Logic::One => '█',
        Logic::Unknown => 'X',
        Logic::HighImpedance => 'Z',
    }
}

/// The text of a value before it is fitted to `width` columns: a one-bit
/// value fills the width with its character, a wider one shows its text, a
/// change marked with a leading `|`.
pub open spec fn span_raw(value: ValueInfo, width: nat, is_delta: bool) -> Seq<char> {
    match value.kind {
        ValueKind::Vector { bit_width, first_bit, text } => if bit_width <= 1 {
            repeat_char(logic_char(first_bit), width)
        } else if is_delta {
            "|"@ + text@
        } else {
            text@
        },
        ValueKind::Real { text } => if is_delta {
            "|"@ + text@
        } else {
            text@
        },
    }
}

/// `raw` cut or padded with spaces to exactly `width` characters.
pub open spec fn sized(raw: Seq<char>, width: nat) -> Seq<char> {
    if raw.len() >= width {
        raw.take(width as int)
    } else {
        raw + repeat_char(' ', (width - raw.len()) as nat)
    }
}

pub open spec fn value_style(value: ValueInfo, is_void: bool) -> SpanStyle {
    if is_void {
        SpanStyle::Void
    } else if value.unknown {
        SpanStyle::Unknown
    } else if value.high_impedance {
        SpanStyle::HighImpedance
    } else {
        SpanStyle::Normal
    }
}

/// The text and style a stretch is drawn with.
pub open spec fn span_spec(q: WaveformQuery) -> (Seq<char>, SpanStyle) {
    match q {
        WaveformQuery::MultipleEdge(w) => (repeat_char('#', w as nat), SpanStyle::Edges),
        WaveformQuery::Blank(w) => (repeat_char(' ', w as nat), SpanStyle::Normal),
        WaveformQuery::Static(v, w) => (sized(span_raw(v, w as nat, false), w as nat), value_style(v, false)),
        WaveformQuery::StaticVoid(v, w) => (sized(span_raw(v, w as nat, false), w as nat), value_style(v, true)),
        WaveformQuery::SingleEdge(v, w) => (sized(span_raw(v, w as nat, true), w as nat), value_style(v, false)),
    }
}

fn logic_char_of(l: Logic) -> (c: char)
    ensures
        c == logic_char(l),
{
    match l {
        Logic::Zero => '_',
        Logic::One => '█',
        Logic::Unknown => 'X',
        Logic::HighImpedance => 'Z',
    }
}

/// Appends `raw` cut or padded to `width` characters.
fn push_sized(out: &mut String, raw: &Vec<char>, width: usize)
    ensures
        final(out)@ == old(out)@ + sized(raw@, width as nat),
{
    let ghost start = out@;
    let mut i: usize = 0;
    while i < raw.len() && i < width
        invariant
            i <= raw@.len(),
            i <= width,
            out@ == start + raw@.take(i as int),
        decreases raw@.len() - i,
    {
        crate::text::string_push(out, raw[i]);
        i += 1;
        assert(out@ =~= start + raw@.take(i as int));
    }
    if i < width {
        push_repeat(out, ' ', width - i);
        assert(out@ =~= start + sized(raw@, width as nat));
    } else {
        assert(out@ =~= start + sized(raw@, width as nat));
    }
}

impl WaveformQuery {
    /// The text and style the stretch is drawn with: `#` for several
    /// changes, spaces for no value, else the value fitted to the width.
    pub fn get_span(&self) -> (r: (String, SpanStyle))
        ensures
            (r.0@, r.1) == span_spec(*self),
    {
        let (value, width, is_void, is_delta) = match self {
            WaveformQuery::Static(value, width) => (value, *width, false, false),
            WaveformQuery::StaticVoid(value, width) => (value, *width, true, false),
            WaveformQuery::SingleEdge(value, width) => (value, *width, false, true),
            WaveformQuery::MultipleEdge(width) => {
                let mut s = String::new();
                push_repeat(&mut s, '#', *width);
                return (s, SpanStyle::Edges);
            },
            WaveformQuery::Blank(width) => {
                let mut s = String::new();
                push_repeat(&mut s, ' ', *width);
                return (s, SpanStyle::Normal);
            },
        };
        let style = if is_void {
            SpanStyle::Void
        } else if value.unknown {
            SpanStyle::Unknown
        } else if value.high_impedance {
            SpanStyle::HighImpedance
        } else {
            SpanStyle::Normal
        };
        let mut raw = String::new();
        match &value.kind {
            ValueKind::Vector { bit_width, first_bit, text } => {
                if *bit_width <= 1 {
                    push_repeat(&mut raw, logic_char_of(*first_bit), width);
                } else {
                    if is_delta {
                        push_str(&mut raw, "|");
                    }
                    push_str(&mut raw, text.as_str());
                }
            },
            ValueKind::Real { text } => {
                if is_delta {
                    push_str(&mut raw, "|");
                }
                push_str(&mut raw, text.as_str());
            },
        }
        assert(raw@ =~= span_raw(*value, width as nat, is_delta));
        let chars = str_chars(raw.as_str());
        let mut sized_text = String::new();
        push_sized(&mut sized_text, &chars, width);
        assert(sized_text@ =~= sized(span_raw(*value, width as nat, is_delta), width as nat));
        (sized_text, style)
    }
}

/// The stretch that `q` and the next stretch `next` make together, where
/// the two merge: stretches of no value, of several changes, of a held
/// value (the later value kept), past the end, and a change followed by a
/// held value (the change kept).
pub open spec fn merge_step(last: WaveformQuery, next: WaveformQuery) -> Option<WaveformQuery> {
    match (last, next) {
        (WaveformQuery::Blank(a), WaveformQuery::Blank(b)) => Some(WaveformQuery::Blank((a + b) as usize)),
        (WaveformQuery::MultipleEdge(a), WaveformQuery::MultipleEdge(b)) => Some(
            WaveformQuery::MultipleEdge((a + b) as usize),
        ),
        (WaveformQuery::Static(_, a), WaveformQuery::Static(v, b)) => Some(
            WaveformQuery::Static(v, (a + b) as usize),
        ),
        (WaveformQuery::SingleEdge(v, a), WaveformQuery::Static(_, b)) => Some(
            WaveformQuery::SingleEdge(v, (a + b) as usize),
        ),
        (WaveformQuery::StaticVoid(_, a), WaveformQuery::StaticVoid(v, b)) => Some(
            WaveformQuery::StaticVoid(v, (a + b) as usize),
        ),
        _ => None,
    }
}

/// The stretches after `next` joins the merged list `merged`.
pub open spec fn merge_push(merged: Seq<WaveformQuery>, next: WaveformQuery) -> Seq<WaveformQuery> {
    if merged.len() == 0 {
        seq![next]
    } else {
        match merge_step(merged.last(), next) {
            Some(m) => merged.drop_last().push(m),
            None => merged.push(next),
        }
    }
}

/// A list of stretches merged from left to right.
pub open spec fn merged(qs: Seq<WaveformQuery>) -> Seq<WaveformQuery>
    decreases qs.len(),
{
    if qs.len() == 0 {
        Seq::empty()
    } else {
        merge_push(merged(qs.drop_last()), qs.last())
    }
}

/// The columns a list of stretches takes.
pub open spec fn total_width(qs: Seq<WaveformQuery>) -> nat
    decreases qs.len(),
{
    if qs.len() == 0 {
        0
    } else {
        total_width(qs.drop_last()) + query_width(qs.last())
    }
}

/// Merging a stretch into a list adds its width, where the sum fits.
pub proof fn lemma_merge_push_width(merged: Seq<WaveformQuery>, next: WaveformQuery)
    requires
        total_width(merged) + query_width(next) <= usize::MAX,
    ensures
        total_width(merge_push(merged, next)) == total_width(merged) + query_width(next),
{
    if merged.len() == 0 {
        assert(seq![next].drop_last() =~= Seq::<WaveformQuery>::empty());
        assert(total_width(Seq::<WaveformQuery>::empty()) == 0);
        assert(total_width(merged) == 0);
        assert(total_width(seq![next]) == query_width(next));
    } else {
        let m = merge_step(merged.last(), next);
        assert(merged.drop_last().push(merged.last()) =~= merged);
        match m {
            Some(q) => {
                assert(merged.drop_last().push(q).drop_last() =~= merged.drop_last());
                assert(total_width(merged) == total_width(merged.drop_last()) + query_width(merged.last()));
                let w = query_width(merged.last()) + query_width(next);
                assert(w <= usize::MAX);
                assert(query_width(q) == w) by {
                    match (merged.last(), next) {
                        (WaveformQuery::Blank(a), WaveformQuery::Blank(b)) => {},
                        (WaveformQuery::MultipleEdge(a), WaveformQuery::MultipleEdge(b)) => {},
                        (WaveformQuery::Static(_, a), WaveformQuery::Static(v, b)) => {},
                        (WaveformQuery::SingleEdge(v, a), WaveformQuery::Static(_, b)) => {},
                        (WaveformQuery::StaticVoid(_, a), WaveformQuery::StaticVoid(v, b)) => {},
                        _ => {},
                    }
                }
                assert(total_width(merged.drop_last().push(q)) == total_width(merged.drop_last())
                    + query_width(q));
            },
            None => {
                assert(merged.push(next).drop_last() =~= merged);
                assert(total_width(merged.push(next)) == total_width(merged) + query_width(next));
            },
        }
    }
}

/// Merging keeps the total width of the stretches, where it fits in a
/// `usize`.
pub proof fn lemma_merged_width(qs: Seq<WaveformQuery>)
    requires
        total_width(qs) <= usize::MAX,
    ensures
        total_width(merged(qs)) == total_width(qs),
    decreases qs.len(),
{
    if qs.len() > 0 {
        lemma_merged_width(qs.drop_last());
        lemma_merge_push_width(merged(qs.drop_last()), qs.last());
    }
}

/// Adds `next` to the merged stretches `out`.
pub fn push_merged(out: &mut Vec<WaveformQuery>, next: WaveformQuery)
    requires
        total_width(old(out)@) + query_width(next) <= usize::MAX,
    ensures
        final(out)@ == merge_push(old(out)@, next),
{
    let last = match out.pop() {
        Some(last) => last,
        None => {
            out.push(next);
            return;
        },
    };
    proof {
        assert(old(out)@.drop_last().push(last) =~= old(out)@);
        assert(total_width(old(out)@) == total_width(old(out)@.drop_last()) + query_width(last));
    }
    match (last, next) {
        (WaveformQuery::Blank(a), WaveformQuery::Blank(b)) => out.push(WaveformQuery::Blank(a + b)),
        (WaveformQuery::MultipleEdge(a), WaveformQuery::MultipleEdge(b)) => out.push(
            WaveformQuery::MultipleEdge(a + b),
        ),
        (WaveformQuery::Static(_, a), WaveformQuery::Static(v, b)) => out.push(
            WaveformQuery::Static(v, a + b),
        ),
        (WaveformQuery::SingleEdge(v, a), WaveformQuery::Static(_, b)) => out.push(
            WaveformQuery::SingleEdge(v, a + b),
        ),
        (WaveformQuery::StaticVoid(_, a), WaveformQuery::StaticVoid(v, b)) => out.push(
            WaveformQuery::StaticVoid(v, a + b),
        ),
        (last, next) => {
            out.push(last);
            out.push(next);
        },
    }
}

/// Every stretch is drawn with exactly as many characters as it is wide.
pub proof fn lemma_span_len(q: WaveformQuery)
    ensures
        span_spec(q).0.len() == query_width(q),
{
    match q {
        WaveformQuery::Static(v, w) => lemma_sized_len(span_raw(v, w as nat, false), w as nat),
        WaveformQuery::StaticVoid(v, w) => lemma_sized_len(span_raw(v, w as nat, false), w as nat),
        WaveformQuery::SingleEdge(v, w) => lemma_sized_len(span_raw(v, w as nat, true), w as nat),
        _ => {},
    }
}

proof fn lemma_sized_len(raw: Seq<char>, width: nat)
    ensures
        sized(raw, width).len() == width,
{
}

/// The characters of a row of spans, one span after the other.
pub open spec fn spans_text_len(spans: Seq<(String, SpanStyle)>) -> nat
    decreases spans.len(),
{
    if spans.len() == 0 {
        0
    } else {
        spans_text_len(spans.drop_last()) + spans.last().0@.len()
    }
}

/// Each change comes after the one before it.
pub open spec fn strictly_increasing(s: Seq<usize>) -> bool {
    forall|i: int, j: int| 0 <= i < j < s.len() ==> s[i] < s[j]
}

/// The last change at or before `t` is no earlier than any change at or
/// before `t`.
proof fn lemma_latest_change_at_least(changes: Seq<usize>, t: usize, j: int)
    requires
        strictly_increasing(changes),
        0 <= j < changes.len(),
        changes[j] <= t,
    ensures
        latest_change_index(changes, t) matches Some(k) && j <= k < changes.len() && changes[k] <= t
            && changes[j] <= changes[k],
    decreases changes.len(),
{
    if changes.last() > t {
        lemma_latest_change_at_least(changes.drop_last(), t, j);
    }
}

/// A column whose stretch holds two changes of the signal, one at or after
/// its first timestamp index and the next at or before its last, and that
/// starts before the end of the waveform, is drawn as several edges.
pub proof fn lemma_two_changes_multiple_edge<'a>(row: WaveformWidget<'a>, start: u64, end: u64, j: int)
    requires
        row.two_changes_in_column(start, end, j),
    ensures
        row.query_shape_spec(start, end) == QueryShape::MultipleEdge,
{
    let changes = waveform_signals(*row.waveform())[row.idcode()].1;
    let ts = waveform_timestamps(*row.waveform());
    let is = first_at_or_after(ts, start)->0;
    let ie = last_at_or_before(ts, (end - 1) as u64)->0;
    lemma_latest_change_at_least(changes, ie, j);
    let k = latest_change_index(changes, ie)->0;
    let v = changes[k];
    assert(changes[j - 1] < changes[j]);
    assert(signal_change_before(*row.waveform(), row.idcode(), ie) == Some(v));
    lemma_latest_change_at_least(changes, (v - 1) as usize, j - 1);
    let kb = latest_change_index(changes, (v - 1) as usize)->0;
    assert(signal_change_before(*row.waveform(), row.idcode(), (v - 1) as usize) == Some(changes[kb]));
}

/// The last change at or before `t`: a change at or before `t`, with none
/// after it at or before `t`; none when every change is after `t`.
proof fn lemma_latest_change_found(changes: Seq<usize>, t: usize)
    ensures
        latest_change_index(changes, t) matches Some(k) ==> 0 <= k < changes.len() && changes[k] <= t
            && forall|i: int| k < i < changes.len() ==> changes[i] > t,
        latest_change_index(changes, t) is None ==> forall|i: int|
            0 <= i < changes.len() ==> changes[i] > t,
    decreases changes.len(),
{
    if changes.len() > 0 && changes.last() > t {
        lemma_latest_change_found(changes.drop_last(), t);
        assert forall|i: int| 0 <= i < changes.len() - 1 implies changes[i] == changes.drop_last()[i] by {}
    }
}

/// A column that holds a timestamp but no change of the signal, which
/// changed before it, shows the value held since then.
pub proof fn lemma_no_change_static<'a>(row: WaveformWidget<'a>, start: u64, end: u64, j: int)
    requires
        end != 0,
        waveform_signals(*row.waveform()).contains_key(row.idcode()),
        ({
            let changes = waveform_signals(*row.waveform())[row.idcode()].1;
            let ts = waveform_timestamps(*row.waveform());
            &&& first_at_or_after(ts, start) matches Some(is)
            &&& last_at_or_before(ts, (end - 1) as u64) matches Some(ie)
            &&& is <= ie
            &&& 0 <= j < changes.len()
            &&& changes[j] < is
            &&& forall|i: int| 0 <= i < changes.len() ==> !(is <= #[trigger] changes[i] <= ie)
        }),
    ensures
        row.query_shape_spec(start, end) is Static,
{
    let changes = waveform_signals(*row.waveform())[row.idcode()].1;
    let ts = waveform_timestamps(*row.waveform());
    let is = first_at_or_after(ts, start)->0;
    let ie = last_at_or_before(ts, (end - 1) as u64)->0;
    assert(changes[j] <= ie);
    lemma_latest_change_found(changes, ie);
    let k = latest_change_index(changes, ie)->0;
    assert(!(is <= changes[k] <= ie));
}

/// A column that holds exactly one change of the signal, and starts before
/// the end of the waveform, is drawn as one edge at that change.
pub proof fn lemma_one_change_single_edge<'a>(row: WaveformWidget<'a>, start: u64, end: u64, j: int)
    requires
        end != 0,
        start < row.timestamp_max(),
        waveform_signals(*row.waveform()).contains_key(row.idcode()),
        strictly_increasing(waveform_signals(*row.waveform())[row.idcode()].1),
        ({
            let changes = waveform_signals(*row.waveform())[row.idcode()].1;
            let ts = waveform_timestamps(*row.waveform());
            &&& first_at_or_after(ts, start) matches Some(is)
            &&& last_at_or_before(ts, (end - 1) as u64) matches Some(ie)
            &&& 0 <= j < changes.len()
            &&& is <= changes[j] <= ie
            &&& forall|i: int| 0 <= i < changes.len() && i != j ==> !(is <= #[trigger] changes[i] <= ie)
        }),
    ensures
        row.query_shape_spec(start, end) == QueryShape::SingleEdge(
            waveform_signals(*row.waveform())[row.idcode()].1[j],
        ),
{
    let changes = waveform_signals(*row.waveform())[row.idcode()].1;
    let ts = waveform_timestamps(*row.waveform());
    let is = first_at_or_after(ts, start)->0;
    let ie = last_at_or_before(ts, (end - 1) as u64)->0;
    lemma_latest_change_at_least(changes, ie, j);
    let k = latest_change_index(changes, ie)->0;
    assert(k == j) by {
        if k != j {
            assert(is <= changes[k] <= ie);
        }
    }
    let v = changes[j];
    if v > 0 {
        lemma_latest_change_found(changes, (v - 1) as usize);
        match latest_change_index(changes, (v - 1) as usize) {
            Some(kb) => {
                assert(kb < j) by {
                    if kb >= j {
                        if kb > j {
                            assert(changes[j] < changes[kb]);
                        }
                    }
                }
                assert(changes[kb] < is) by {
                    assert(changes[kb] < changes[j]);
                    assert(!(is <= changes[kb] <= ie));
                }
            },
            None => {},
        }
    }
}

/// The row of one signal in the waveform view.
pub struct WaveformWidget<'a> {
    waveform: &'a Waveform,
    range_start: u64,
    range_end: u64,
    timestamp_max: u64,
    idcode: usize,
    bit_index: Option<usize>,
    radix: SignalRadixPy,
    is_selected: bool,
}

impl<'a> WaveformWidget<'a> {
    /// The row of signal `idcode` (or its bit `bit_index`) over the times
    /// `range_start..range_end`, in a waveform whose last time is
    /// `timestamp_max`.
    pub fn new(
        range_start: u64,
        range_end: u64,
        timestamp_max: u64,
        waveform: &'a Waveform,
        idcode: usize,
        bit_index: Option<usize>,
        radix: SignalRadixPy,
        is_selected: bool,
    ) -> (r: Self)
        ensures
            r.range() == (range_start, range_end),
            r.timestamp_max() == timestamp_max,
            r.waveform() == waveform,
            r.idcode() == idcode,
            r.bit_index() == bit_index,
            r.radix() == radix,
            r.is_selected() == is_selected,
    {
        Self { waveform, range_start, range_end, timestamp_max, idcode, bit_index, radix, is_selected }
    }

    pub closed spec fn range(self) -> (u64, u64) {
        (self.range_start, self.range_end)
    }

    pub closed spec fn timestamp_max(self) -> u64 {
        self.timestamp_max
    }

    pub closed spec fn waveform(self) -> &'a Waveform {
        self.waveform
    }

    pub closed spec fn idcode(self) -> usize {
        self.idcode
    }

    pub closed spec fn bit_index(self) -> Option<usize> {
        self.bit_index
    }

    pub closed spec fn radix(self) -> SignalRadixPy {
        self.radix
    }

    pub closed spec fn is_selected(self) -> bool {
        self.is_selected
    }

    /// The radix the row shows its values in.
    pub fn get_radix(&self) -> (r: SignalRadixPy)
        ensures
            r == self.radix(),
    {
        self.radix
    }

    /// Whether looking up the stretch of times `start..end` stays clear of
    /// the waveform's panics: the waveform has timestamps, the signal (if it
    /// exists) has changes, and a real signal has no change up to the end
    /// of the stretch that a lookup would read.
    pub open spec fn query_safe(self, start: u64, end: u64) -> bool {
        let ts = waveform_timestamps(*self.waveform());
        let signals = waveform_signals(*self.waveform());
        &&& ts.len() > 0
        &&& signals.contains_key(self.idcode()) ==> signals[self.idcode()].1.len() > 0
        &&& (signals.contains_key(self.idcode()) && signals[self.idcode()].0 && end != 0) ==> match (
            first_at_or_after(ts, start),
            last_at_or_before(ts, (end - 1) as u64),
        ) {
            (Some(_), Some(ie)) => signal_change_before(*self.waveform(), self.idcode(), ie) is None,
            _ => true,
        }
    }

    /// What the stretch of times `start..end` shows: nothing when the
    /// stretch ends at 0, when no timestamp lies in it or no value was set
    /// by its end; the value held since before the stretch; the value of a
    /// stretch that starts past the end of the waveform; else a change, or
    /// several when the change before it also lies in the stretch.
    pub open spec fn query_shape_spec(self, start: u64, end: u64) -> QueryShape {
        let ts = waveform_timestamps(*self.waveform());
        if end == 0 {
            QueryShape::Blank
        } else {
            match (first_at_or_after(ts, start), last_at_or_before(ts, (end - 1) as u64)) {
                (Some(is), Some(ie)) => match signal_change_before(*self.waveform(), self.idcode(), ie) {
                    None => QueryShape::Blank,
                    Some(v) => if v < is {
                        QueryShape::Static(v)
                    } else if start >= self.timestamp_max() {
                        QueryShape::StaticVoid(v)
                    } else if v == 0 {
                        QueryShape::SingleEdge(v)
                    } else {
                        match signal_change_before(*self.waveform(), self.idcode(), (v - 1) as usize) {
                            Some(b) => if b >= is {
                                QueryShape::MultipleEdge
                            } else {
                                QueryShape::SingleEdge(v)
                            },
                            None => QueryShape::SingleEdge(v),
                        }
                    },
                },
                _ => QueryShape::Blank,
            }
        }
    }

    /// The bits the row's signal (or bit) holds at timestamp index `ti`.
    pub open spec fn bits_at(self, ti: usize) -> Seq<Logic> {
        signal_bits_at(*self.waveform(), self.idcode(), ti, self.bit_index())
    }

    /// The stretch `start..end` of a column, which ends after 0 and starts
    /// before the end of the waveform, holds the changes `j - 1` and `j` of
    /// the signal (whose changes are strictly increasing): the first at or
    /// after the column's first timestamp index, the second at or before its
    /// last.
    pub open spec fn two_changes_in_column(self, start: u64, end: u64, j: int) -> bool {
        let changes = waveform_signals(*self.waveform())[self.idcode()].1;
        let ts = waveform_timestamps(*self.waveform());
        &&& end != 0
        &&& start < self.timestamp_max()
        &&& waveform_signals(*self.waveform()).contains_key(self.idcode())
        &&& strictly_increasing(changes)
        &&& 0 < j < changes.len()
        &&& first_at_or_after(ts, start) matches Some(is)
        &&& is <= changes[j - 1]
        &&& last_at_or_before(ts, (end - 1) as u64) matches Some(ie)
        &&& changes[j] <= ie
    }

    /// The value and mask words of the row's signal at timestamp index `ti`
    /// (for one bit, those of a one-bit vector).
    pub open spec fn words_at(self, ti: usize) -> (u64, u64) {
        match latest_change_index(waveform_signals(*self.waveform())[self.idcode()].1, ti) {
            Some(k) => match self.bit_index() {
                None => waveform_vector_words(*self.waveform())[self.idcode()][k],
                Some(_) => words_of_logic(self.bits_at(ti)[0]),
            },
            None => (0, 0),
        }
    }

    /// `q` is what the stretch of times `start..end` shows, one column wide:
    /// its kind as `query_shape_spec` says, and a value it shows read from
    /// the bits the signal holds at the last timestamp of the stretch.
    pub open spec fn query_ok(self, start: u64, end: u64, q: WaveformQuery) -> bool {
        &&& query_width(q) == 1
        &&& query_shape(q) == self.query_shape_spec(start, end)
        &&& query_value(q) matches Some(v) ==> last_at_or_before(
            waveform_timestamps(*self.waveform()),
            (end - 1) as u64,
        ) matches Some(ie) && vector_info_ok(
            v,
            self.bits_at(ie),
            self.bit_index() is None,
            self.words_at(ie),
            v.timestamp_index,
            self.radix(),
        )
    }

    /// What the stretch of times `start..end` shows (see `query_ok`); the
    /// values found are read in the row's radix.
    fn get_query(&self, start: u64, end: u64) -> (r: WaveformQuery)
        requires
            self.query_safe(start, end),
            self.radix() == SignalRadixPy::Decimal ==> usize::BITS == 64,
        ensures
            self.query_ok(start, end, r),
            forall|j: int|
                #[trigger] self.two_changes_in_column(start, end, j) ==> query_shape(r)
                    == QueryShape::MultipleEdge,
    {
        proof {
            assert forall|j: int| #[trigger] self.two_changes_in_column(start, end, j) implies self.query_shape_spec(
                start,
                end,
            ) == QueryShape::MultipleEdge by {
                lemma_two_changes_multiple_edge(*self, start, end, j);
            }
        }
        if end == 0 {
            return WaveformQuery::Blank(1);
        }
        let timestamp_index_start = match search_timestamp(self.waveform, start, true) {
            Some(i) => i,
            None => {
                return WaveformQuery::Blank(1);
            },
        };
        let timestamp_index_end = match search_timestamp(self.waveform, end - 1, false) {
            Some(i) => i,
            None => {
                return WaveformQuery::Blank(1);
            },
        };
        let result = match search_value_result(
            self.waveform,
            self.idcode,
            timestamp_index_end,
            self.bit_index,
        ) {
            Some((read, index)) => value_info(read, index, self.radix),
            None => {
                return WaveformQuery::Blank(1);
            },
        };
        if result.timestamp_index < timestamp_index_start {
            return WaveformQuery::Static(result, 1);
        }
        if start >= self.timestamp_max {
            return WaveformQuery::StaticVoid(result, 1);
        }
        if result.timestamp_index == 0 {
            return WaveformQuery::SingleEdge(result, 1);
        }
        let before = match search_value_result(
            self.waveform,
            self.idcode,
            result.timestamp_index - 1,
            self.bit_index,
        ) {
            Some((read, index)) => value_info(read, index, self.radix),
            None => {
                return WaveformQuery::SingleEdge(result, 1);
            },
        };
        if before.timestamp_index >= timestamp_index_start {
            WaveformQuery::MultipleEdge(1)
        } else {
            WaveformQuery::SingleEdge(result, 1)
        }
    }

    /// The times that column `i` of `width` columns covers: the range of
    /// the row split evenly.
    pub open spec fn column_times(self, width: nat, i: nat) -> (u64, u64) {
        let span = self.range().1 - self.range().0;
        (
            (self.range().0 + (i * span) / (width as int)) as u64,
            (self.range().0 + ((i + 1) * span) / (width as int)) as u64,
        )
    }

    /// Every column of a row `width` wide can be looked up (see
    /// `query_safe`).
    pub open spec fn row_safe(self, width: nat) -> bool {
        forall|i: nat|
            i < width ==> self.query_safe(
                #[trigger] self.column_times(width, i).0,
                self.column_times(width, i).1,
            )
    }

    /// `qs` are the stretches of the columns of a row `width` wide, one
    /// column each, in order (see `query_ok`).
    pub open spec fn row_queries(self, width: nat, qs: Seq<WaveformQuery>) -> bool {
        &&& qs.len() == width
        &&& forall|i: int|
            0 <= i < width ==> self.query_ok(
                self.column_times(width, i as nat).0,
                self.column_times(width, i as nat).1,
                #[trigger] qs[i],
            )
    }

    /// Whether the row can be drawn `width` columns wide without a lookup
    /// that panics.
    #[verifier::spinoff_prover]
    pub fn drawable(&self, width: u16) -> (r: bool)
        requires
            self.range().0 <= self.range().1,
            width * (self.range().1 - self.range().0) <= u64::MAX,
        ensures
            r == self.row_safe(width as nat),
    {
        if width == 0 {
            return true;
        }
        if timestamps_count(self.waveform) == 0 {
            assert(!self.query_safe(self.column_times(width as nat, 0).0, self.column_times(width as nat, 0).1));
            return false;
        }
        let is_real = match signal_summary(self.waveform, self.idcode) {
            None => {
                return true;
            },
            Some((holds_reals, count)) => {
                if count == 0 {
                    assert(!self.query_safe(self.column_times(width as nat, 0).0, self.column_times(width as nat, 0).1));
                    return false;
                }
                holds_reals
            },
        };
        if !is_real {
            return true;
        }
        let start = self.range_start;
        let span = self.range_end - self.range_start;
        let w = width as u64;
        let mut i: u64 = 0;
        while i < w
            invariant
                i <= w,
                w == width,
                w > 0,
                start == self.range_start,
                span == self.range_end - self.range_start,
                w * span <= u64::MAX,
                waveform_timestamps(*self.waveform()).len() > 0,
                waveform_signals(*self.waveform()).contains_key(self.idcode()),
                waveform_signals(*self.waveform())[self.idcode()].0,
                waveform_signals(*self.waveform())[self.idcode()].1.len() > 0,
                forall|j: nat|
                    j < i ==> self.query_safe(
                        #[trigger] self.column_times(width as nat, j).0,
                        self.column_times(width as nat, j).1,
                    ),
            decreases w - i,
        {
            proof {
                lemma_column_bounds(i as int, span as int, w as int);
            }
            let lo = i * span / w + start;
            let hi = (i + 1) * span / w + start;
            assert(self.column_times(width as nat, i as nat) == (lo, hi));
            if hi != 0 {
                match (search_timestamp(self.waveform, lo, true), search_timestamp(self.waveform, hi - 1, false)) {
                    (Some(_), Some(ie)) => {
                        if search_change(self.waveform, self.idcode, ie).is_some() {
                            assert(!self.query_safe(lo, hi));
                            return false;
                        }
                    },
                    _ => {},
                }
            }
            i += 1;
        }
        true
    }

    /// The spans of the row, `width` columns wide: one stretch per column
    /// (`column_times`, `get_query`), neighbouring stretches merged
    /// (`merged`), each drawn as `get_span` draws it; together the spans hold
    /// exactly `width` characters.
    pub fn spans(&self, width: u16) -> (r: Vec<(String, SpanStyle)>)
        requires
            self.range().0 <= self.range().1,
            width * (self.range().1 - self.range().0) <= u64::MAX,
            self.row_safe(width as nat),
            self.radix() == SignalRadixPy::Decimal ==> usize::BITS == 64,
        ensures
            spans_text_len(r@) == width,
            exists|qs: Seq<WaveformQuery>|
                #[trigger] self.row_queries(width as nat, qs) && spans_view(r@) == merged(qs).map_values(
                    |q: WaveformQuery| span_spec(q),
                ),
    {
        let start = self.range_start;
        let span = self.range_end - self.range_start;
        let w = width as u64;
        let mut queries: Vec<WaveformQuery> = Vec::new();
        let ghost mut qs: Seq<WaveformQuery> = Seq::empty();
        let mut i: u64 = 0;
        while i < w
            invariant
                i <= w,
                w == width,
                start == self.range_start,
                span == self.range_end - self.range_start,
                w * span <= u64::MAX,
                self.row_safe(width as nat),
                self.radix() == SignalRadixPy::Decimal ==> usize::BITS == 64,
                total_width(queries@) == i,
                queries@ == merged(qs),
                qs.len() == i,
                forall|j: int|
                    0 <= j < i ==> self.query_ok(
                        self.column_times(width as nat, j as nat).0,
                        self.column_times(width as nat, j as nat).1,
                        #[trigger] qs[j],
                    ),
            decreases w - i,
        {
            proof {
                lemma_column_bounds(i as int, span as int, w as int);
            }
            let lo = i * span / w + start;
            let hi = (i + 1) * span / w + start;
            assert(self.column_times(width as nat, i as nat) == (lo, hi));
            assert(self.query_safe(
                self.column_times(width as nat, i as nat).0,
                self.column_times(width as nat, i as nat).1,
            ));
            let q = self.get_query(lo, hi);
            proof {
                lemma_merge_push_width(queries@, q);
                assert(qs.push(q).drop_last() =~= qs);
                qs = qs.push(q);
            }
            push_merged(&mut queries, q);
            i += 1;
        }
        let mut out: Vec<(String, SpanStyle)> = Vec::new();
        let mut k: usize = 0;
        while k < queries.len()
            invariant
                k <= queries@.len(),
                total_width(queries@) == width,
                spans_text_len(out@) == total_width(queries@.take(k as int)),
                spans_view(out@) == queries@.take(k as int).map_values(|q: WaveformQuery| span_spec(q)),
            decreases queries.len() - k,
        {
            let span_k = queries[k].get_span();
            proof {
                lemma_span_len(queries@[k as int]);
                assert(queries@.take(k + 1).drop_last() =~= queries@.take(k as int));
            }
            let ghost before = out@;
            assert((span_k.0@, span_k.1) == span_spec(queries@[k as int]));
            out.push(span_k);
            assert(out@.drop_last() =~= before);
            assert(spans_view(out@) =~= spans_view(before).push((span_k.0@, span_k.1)));
            assert(queries@.take(k + 1).map_values(|q: WaveformQuery| span_spec(q)) =~= queries@.take(
                k as int,
            ).map_values(|q: WaveformQuery| span_spec(q)).push(span_spec(queries@[k as int])));
            k += 1;
        }
        assert(queries@.take(k as int) =~= queries@);
        assert(self.row_queries(width as nat, qs));
        out
    }
}

/// Column `i` of `w` columns over a span of `span` times starts no later
/// than it ends, and ends within the span.
proof fn lemma_column_bounds(i: int, span: int, w: int)
    requires
        0 <= i < w,
        span >= 0,
        w * span <= u64::MAX,
    ensures
        (i + 1) * span <= w * span,
        i * span <= (i + 1) * span,
        ((i + 1) * span) / w <= span,
        (i * span) / w <= ((i + 1) * span) / w,
{
    assert((i + 1) * span <= w * span) by (nonlinear_arith)
        requires
            i + 1 <= w,
            span >= 0,
    ;
    assert(i * span <= (i + 1) * span) by (nonlinear_arith)
        requires
            span >= 0,
    ;
    assert(((i + 1) * span) / w <= span) by (nonlinear_arith)
        requires
            i + 1 <= w,
            w > 0,
            span >= 0,
    ;
    assert((i * span) / w <= ((i + 1) * span) / w) by (nonlinear_arith)
        requires
            i * span <= (i + 1) * span,
            w > 0,
    ;
}

/// The texts of spans as character sequences, with their styles.
pub open spec fn spans_view(spans: Seq<(String, SpanStyle)>) -> Seq<(Seq<char>, SpanStyle)> {
    spans.map_values(|p: (String, SpanStyle)| (p.0@, p.1))
}

} // verus!
