use vstd::prelude::*;
use vstd::arithmetic::div_mod::{
    lemma_div_denominator, lemma_div_is_ordered_by_denominator, lemma_div_pos_is_pos,
    lemma_fundamental_div_mod, lemma_fundamental_div_mod_converse, lemma_multiply_divide_lt,
};
use vstd::arithmetic::mul::{lemma_mul_is_commutative, lemma_mul_strictly_positive};
pub use crate::quant::Quant;

verus! {

/// Milliseconds in one minute.
pub const MILLIS_PER_MINUTE: u32 = 60000;

/// How many quants one measure is cut into: `base` multiplied by itself
/// `level` times.
pub open spec fn grid_divisor(base: nat, level: nat) -> nat
    decreases level,
{
    if level == 0 {
        1
    } else {
        base * grid_divisor(base, (level - 1) as nat)
    }
}

/// A positive base gives a positive divisor at every level.
pub proof fn lemma_grid_divisor_positive(base: nat, level: nat)
    requires
        base > 0,
    ensures
        grid_divisor(base, level) >= 1,
    decreases level,
{
    if level > 0 {
        lemma_grid_divisor_positive(base, (level - 1) as nat);
        lemma_mul_strictly_positive(base as int, grid_divisor(base, (level - 1) as nat) as int);
    }
}

/// Tempo and grid of the music: beats per minute, beats per measure, and how
/// many times a measure is subdivided to reach one quant.
#[derive(Clone, Copy, PartialEq, Eq, Debug, Structural)]
pub struct Measure {
    pub tempo_bpm: u32,
    pub measure_size_bpm: u32,
    pub quantation_level: u32,
}

impl Measure {
    /// Length of one beat in milliseconds, truncated.
    pub open spec fn beat_millis(&self) -> int {
        MILLIS_PER_MINUTE as int / self.tempo_bpm as int
    }

    /// Length of one measure in milliseconds.
    pub open spec fn measure_millis(&self) -> int {
        self.beat_millis() * self.measure_size_bpm as int
    }

    /// Length of one quant in milliseconds: the measure divided by the grid
    /// divisor, truncated once.
    pub open spec fn quant_millis(&self) -> int {
        self.measure_millis() / grid_divisor(
            self.measure_size_bpm as nat,
            self.quantation_level as nat,
        ) as int
    }

    /// The quant nearest to a timestamp, ties going to the later quant.
    pub open spec fn quant_of(&self, timestamp: int) -> int {
        (timestamp + self.quant_millis() / 2) / self.quant_millis()
    }

    /// Tempo and measure size are positive and a measure's length fits in 32 bits.
    pub open spec fn well_formed(&self) -> bool {
        &&& self.tempo_bpm > 0
        &&& self.measure_size_bpm > 0
        &&& self.measure_millis() <= u32::MAX
    }

    /// Well formed, with a quant of at least one millisecond, so that
    /// timestamps can be placed on the grid.
    pub open spec fn playable(&self) -> bool {
        &&& self.well_formed()
        &&& self.quant_millis() >= 1
    }

    /// In a playable measure a quant is no longer than the measure, so the
    /// measure has a positive length too.
    pub proof fn lemma_quant_within_measure(&self)
        requires
            self.playable(),
        ensures
            1 <= self.quant_millis() <= self.measure_millis(),
    {
        let d = grid_divisor(self.measure_size_bpm as nat, self.quantation_level as nat) as int;
        lemma_grid_divisor_positive(self.measure_size_bpm as nat, self.quantation_level as nat);
        let ms = self.measure_millis();
        assert(ms >= 0) by (nonlinear_arith)
            requires
                ms == self.beat_millis() * self.measure_size_bpm as int,
                self.beat_millis() >= 0,
                self.measure_size_bpm >= 0,
        ;
        lemma_div_is_ordered_by_denominator(ms, 1, d);
    }

    pub fn beat_size_millis(&self) -> (r: u32)
        requires
            self.tempo_bpm > 0,
        ensures
            r == self.beat_millis(),
    {
        MILLIS_PER_MINUTE / self.tempo_bpm
    }

    pub fn measure_size_millis(&self) -> (r: u32)
        requires
            self.well_formed(),
        ensures
            r == self.measure_millis(),
    {
        self.beat_size_millis() * self.measure_size_bpm
    }

    pub fn quant_size_millis(&self) -> (r: u32)
        requires
            self.well_formed(),
        ensures
            r == self.quant_millis(),
    {
        let base: u32 = self.measure_size_bpm;
        let mut result: u32 = self.measure_size_millis();
        let mut level: u32 = 0;
        assert(grid_divisor(base as nat, 0) == 1);
        while level < self.quantation_level
            invariant
                self.well_formed(),
                base == self.measure_size_bpm,
                level <= self.quantation_level,
                result == self.measure_millis() / grid_divisor(base as nat, level as nat) as int,
            decreases self.quantation_level - level,
        {
            proof {
                let d = grid_divisor(base as nat, level as nat) as int;
                lemma_grid_divisor_positive(base as nat, level as nat);
                lemma_div_denominator(self.measure_millis(), d, base as int);
                lemma_mul_is_commutative(d, base as int);
            }
            result = result / base;
            level = level + 1;
        }
        result
    }

    /// The quant nearest to `timestamp`; a timestamp half-way between two
    /// quants belongs to the later one.
    pub fn timestamp_to_quant(&self, timestamp: u32) -> (r: Quant)
        requires
            self.playable(),
        ensures
            r.0 == self.quant_of(timestamp as int),
    {
        let size: u64 = self.quant_size_millis() as u64;
        let shifted: u64 = timestamp as u64 + size / 2;
        proof {
            lemma_rounded_quotient_bounded(timestamp as int, size as int);
        }
        Quant((shifted / size) as u32)
    }

    /// The timestamp at which a quant begins.
    pub fn quant_to_timestamp(&self, quant: Quant) -> (r: u32)
        requires
            self.well_formed(),
            quant.0 * self.quant_millis() <= u32::MAX,
        ensures
            r == quant.0 * self.quant_millis(),
    {
        quant.0 * self.quant_size_millis()
    }

    /// Whether timestamps can be placed on this measure's grid.
    pub fn is_playable(&self) -> (r: bool)
        ensures
            r == self.playable(),
    {
        if self.tempo_bpm == 0 || self.measure_size_bpm == 0 {
            return false;
        }
        let beat: u64 = (MILLIS_PER_MINUTE / self.tempo_bpm) as u64;
        assert(beat * self.measure_size_bpm <= 60000 * 0x1_0000_0000) by (nonlinear_arith)
            requires
                0 <= beat <= 60000,
                0 <= self.measure_size_bpm < 0x1_0000_0000,
        ;
        let size: u64 = beat * (self.measure_size_bpm as u64);
        if size > u32::MAX as u64 {
            return false;
        }
        self.quant_size_millis() >= 1
    }

    /// Where a cursor stands after a change of tempo: `time_cursor`, a
    /// position within a cycle of `amount_of_measures` measures of `self`,
    /// carried over in proportion to the same cycle of `new_measure`.
    pub open spec fn scaled_cursor(
        &self,
        new_measure: &Measure,
        amount_of_measures: int,
        time_cursor: int,
    ) -> int {
        time_cursor * (new_measure.measure_millis() * amount_of_measures) / (self.measure_millis()
            * amount_of_measures)
    }

    /// Rescales a cursor from this measure's cycle to that of `new_measure`;
    /// `None` exactly when the rescaled cursor does not fit in 32 bits.
    pub fn scale_time_cursor(
        &self,
        new_measure: &Measure,
        amount_of_measures: u32,
        time_cursor: u32,
    ) -> (r: Option<u32>)
        requires
            self.well_formed(),
            self.measure_millis() >= 1,
            new_measure.well_formed(),
            amount_of_measures >= 1,
        ensures
            match r {
                Some(cursor) => cursor == self.scaled_cursor(
                    new_measure,
                    amount_of_measures as int,
                    time_cursor as int,
                ),
                None => self.scaled_cursor(
                    new_measure,
                    amount_of_measures as int,
                    time_cursor as int,
                ) > u32::MAX,
            },
    {
        let old_size: u32 = self.measure_size_millis();
        let new_size: u32 = new_measure.measure_size_millis();
        assert(old_size * amount_of_measures <= 0xffff_ffff * 0xffff_ffff && old_size
            * amount_of_measures >= 1 && new_size * amount_of_measures <= 0xffff_ffff
            * 0xffff_ffff) by (nonlinear_arith)
            requires
                1 <= old_size <= 0xffff_ffff,
                0 <= new_size <= 0xffff_ffff,
                1 <= amount_of_measures <= 0xffff_ffff,
        ;
        let old_cycle: u64 = (old_size as u64) * (amount_of_measures as u64);
        let new_cycle: u64 = (new_size as u64) * (amount_of_measures as u64);
        assert(time_cursor * new_cycle <= 0xffff_ffff * (0xffff_ffff * 0xffff_ffff))
            by (nonlinear_arith)
            requires
                0 <= time_cursor <= 0xffff_ffff,
                0 <= new_cycle <= 0xffff_ffff * 0xffff_ffff,
        ;
        let scaled: u128 = ((time_cursor as u128) * (new_cycle as u128)) / (old_cycle as u128);
        if scaled > u32::MAX as u128 {
            None
        } else {
            Some(scaled as u32)
        }
    }

    /// The index of the measure that holds `timestamp`.
    pub fn timestamp_to_measure(&self, timestamp: u32) -> (r: u32)
        requires
            self.well_formed(),
            self.measure_millis() >= 1,
        ensures
            r == timestamp as int / self.measure_millis(),
    {
        timestamp / self.measure_size_millis()
    }
}

/// Rounding a non-negative number to the nearest multiple of a positive step
/// never yields more steps than the number itself.
pub proof fn lemma_rounded_quotient_bounded(t: int, size: int)
    requires
        0 <= t,
        1 <= size,
    ensures
        0 <= (t + size / 2) / size <= t,
{
    let q = (t + size / 2) / size;
    lemma_fundamental_div_mod(t + size / 2, size);
    assert(0 <= (t + size / 2) % size < size);
    assert(q >= 0 && q <= t) by (nonlinear_arith)
        requires
            t + size / 2 == size * q + (t + size / 2) % size,
            0 <= (t + size / 2) % size < size,
            0 <= t,
            1 <= size,
            0 <= size / 2,
            2 * (size / 2) <= size,
    ;
}

/// Placing a timestamp on the grid and reading the quant's timestamp back
/// lands within one quant of the timestamp.
pub proof fn lemma_round_trip_within_one_quant(measure: Measure, timestamp: u32)
    requires
        measure.playable(),
    ensures
        timestamp - measure.quant_millis() <= measure.quant_of(timestamp as int)
            * measure.quant_millis() <= timestamp + measure.quant_millis(),
{
    let size = measure.quant_millis();
    let t = timestamp as int;
    let q = measure.quant_of(t);
    lemma_fundamental_div_mod(t + size / 2, size);
    assert(0 <= (t + size / 2) % size < size);
    assert(t - size <= q * size <= t + size) by (nonlinear_arith)
        requires
            t + size / 2 == size * q + (t + size / 2) % size,
            0 <= (t + size / 2) % size < size,
            1 <= size,
            0 <= size / 2,
            2 * (size / 2) <= size,
    ;
}

/// A cursor within the cycle of the old measure is carried to a cursor
/// within the cycle of the new one: a change of tempo never throws the
/// cursor out of the composition.
pub proof fn lemma_scaled_cursor_within_cycle(
    old_measure: Measure,
    new_measure: Measure,
    amount_of_measures: int,
    time_cursor: int,
)
    requires
        old_measure.well_formed(),
        new_measure.well_formed(),
        new_measure.measure_millis() >= 1,
        amount_of_measures >= 1,
        0 <= time_cursor < old_measure.measure_millis() * amount_of_measures,
    ensures
        0 <= old_measure.scaled_cursor(&new_measure, amount_of_measures, time_cursor)
            < new_measure.measure_millis() * amount_of_measures,
{
    let old_cycle = old_measure.measure_millis() * amount_of_measures;
    let new_cycle = new_measure.measure_millis() * amount_of_measures;
    assert(new_cycle >= 1 && 0 <= time_cursor * new_cycle < old_cycle * new_cycle)
        by (nonlinear_arith)
        requires
            new_cycle == new_measure.measure_millis() * amount_of_measures,
            new_measure.measure_millis() >= 1,
            amount_of_measures >= 1,
            0 <= time_cursor < old_cycle,
    ;
    lemma_multiply_divide_lt(time_cursor * new_cycle, old_cycle, new_cycle);
    lemma_div_pos_is_pos(time_cursor * new_cycle, old_cycle);
}

/// A timestamp is rounded to the nearest quant: it goes to the later quant
/// exactly when its offset into the earlier one, plus half a quant, reaches a
/// whole quant. A timestamp exactly half-way therefore goes up.
pub proof fn lemma_ties_round_up(measure: Measure, timestamp: u32)
    requires
        measure.playable(),
    ensures
        timestamp as int % measure.quant_millis() + measure.quant_millis() / 2
            >= measure.quant_millis() ==> measure.quant_of(timestamp as int) == timestamp as int
            / measure.quant_millis() + 1,
        timestamp as int % measure.quant_millis() + measure.quant_millis() / 2
            < measure.quant_millis() ==> measure.quant_of(timestamp as int) == timestamp as int
            / measure.quant_millis(),
{
    let size = measure.quant_millis();
    let t = timestamp as int;
    let half = size / 2;
    let whole = t / size;
    let offset = t % size;
    lemma_fundamental_div_mod(t, size);
    assert(0 <= offset < size);
    if offset + half >= size {
        assert(t + half == (whole + 1) * size + (offset + half - size)) by (nonlinear_arith)
            requires
                t == size * whole + offset,
        ;
        lemma_fundamental_div_mod_converse(t + half, size, whole + 1, offset + half - size);
    } else {
        assert(t + half == whole * size + (offset + half)) by (nonlinear_arith)
            requires
                t == size * whole + offset,
        ;
        lemma_fundamental_div_mod_converse(t + half, size, whole, offset + half);
    }
}

} // verus!
