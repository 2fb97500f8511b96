use vstd::prelude::*;

use crate::ast::symbols::SymbolId;
use crate::math::{lcm, lemma_lcm_is_common_multiple, spec_lcm};
use vstd::arithmetic::div_mod::{
    lemma_div_denominator, lemma_div_multiples_vanish, lemma_fundamental_div_mod, lemma_mod_multiples_basic,
    lemma_remainder_lower,
};

verus! {

/// A span of columns `start..end` under one underline.
#[derive(Debug, Clone, Copy, PartialEq, Eq, Structural)]
pub struct UnderlineRange {
    pub start: usize,
    pub end: usize,
}

/// The underline ends a column carries.
#[derive(Debug, Clone, Copy, PartialEq, Eq, Structural)]
pub struct UnderlineMarker {
    pub left: bool,
    pub right: bool,
}

/// Whether some underline starts at column `g`.
pub open spec fn spec_starts_at(underlines: Seq<UnderlineRange>, g: int) -> bool {
    exists|k: int| 0 <= k < underlines.len() && #[trigger] underlines[k].start == g
}

/// Whether some underline ends with column `g`.
pub open spec fn spec_ends_at(underlines: Seq<UnderlineRange>, g: int) -> bool {
    exists|k: int| 0 <= k < underlines.len() && #[trigger] underlines[k].end - 1 == g
}

pub fn starts_at(underlines: &[UnderlineRange], g: usize) -> (r: bool)
    ensures
        r == spec_starts_at(underlines@, g as int),
{
    let n = underlines.len();
    let mut k: usize = 0;
    while k < n
        invariant
            n == underlines@.len(),
            k <= n,
            forall|j: int| 0 <= j < k ==> #[trigger] underlines@[j].start != g,
        decreases n - k,
    {
        if underlines[k].start == g {
            return true;
        }
        k = k + 1;
    }
    false
}

pub fn ends_at(underlines: &[UnderlineRange], g: usize) -> (r: bool)
    requires
        forall|k: int| 0 <= k < underlines@.len() ==> #[trigger] underlines@[k].end > 0,
    ensures
        r == spec_ends_at(underlines@, g as int),
{
    let n = underlines.len();
    let mut k: usize = 0;
    while k < n
        invariant
            n == underlines@.len(),
            k <= n,
            forall|k: int| 0 <= k < underlines@.len() ==> #[trigger] underlines@[k].end > 0,
            forall|j: int| 0 <= j < k ==> #[trigger] underlines@[j].end - 1 != g,
        decreases n - k,
    {
        if underlines[k].end - 1 == g {
            return true;
        }
        k = k + 1;
    }
    false
}

/// The beats of a pulse as they are read: the pulse is split into major beats
/// by `.`, each holding its notes (`1`) and, for a `,` that opens a beat, a
/// placeholder (`0`) that lengthens the note before it.
#[derive(Debug)]
pub struct BeatBuffer {
    pub beats: Vec<Vec<usize>>,
}

/// The denominator of each major beat: the number of major beats times the
/// number of entries in it.
pub open spec fn spec_denominators(beats: Seq<Seq<usize>>) -> Seq<int> {
    Seq::new(beats.len(), |i: int| (beats.len() * beats[i].len()) as int)
}

/// The least common multiple of the first `k` denominators, starting from one.
pub open spec fn spec_lcm_prefix(dens: Seq<int>, k: int) -> int
    decreases k,
{
    if k <= 0 {
        1
    } else {
        spec_lcm(spec_lcm_prefix(dens, k - 1) as nat, dens[k - 1] as nat) as int
    }
}

/// Whether the common denominator of the beats can be computed in a `usize`:
/// every denominator fits, and no step of the least common multiple divides by
/// zero or overflows.
pub open spec fn spec_computable(beats: Seq<Seq<usize>>) -> bool {
    let dens = spec_denominators(beats);
    &&& forall|i: int| 0 <= i < beats.len() ==> #[trigger] dens[i] <= usize::MAX
    &&& forall|k: int|
        0 <= k < beats.len() ==> {
            &&& !(#[trigger] spec_lcm_prefix(dens, k) == 0 && dens[k] == 0)
            &&& spec_lcm_prefix(dens, k) * dens[k] <= usize::MAX
        }
}

/// The common denominator of all the beats.
pub open spec fn spec_divisor(beats: Seq<Seq<usize>>) -> int {
    spec_lcm_prefix(spec_denominators(beats), beats.len() as int)
}

/// One entry read into the durations: a note starts a new column of `unit`,
/// a placeholder adds `unit` to the column before it.
pub open spec fn duration_step(acc: Seq<int>, entry: usize, unit: int) -> Seq<int> {
    if entry != 0 {
        acc.push(unit)
    } else if acc.len() > 0 {
        acc.update(acc.len() - 1, acc.last() + unit)
    } else {
        acc
    }
}

/// The entries of one beat read into the durations, first to last.
pub open spec fn duration_beat(acc: Seq<int>, entries: Seq<usize>, unit: int) -> Seq<int>
    decreases entries.len(),
{
    if entries.len() == 0 {
        acc
    } else {
        duration_beat(duration_step(acc, entries[0], unit), entries.drop_first(), unit)
    }
}

/// The beats from the `i`-th on read into the durations, each entry of beat
/// `j` worth `divisor / dens[j]`.
pub open spec fn duration_beats(acc: Seq<int>, beats: Seq<Seq<usize>>, i: int) -> Seq<int>
    decreases beats.len() - i,
{
    if i >= beats.len() || i < 0 {
        acc
    } else {
        duration_beats(
            duration_beat(acc, beats[i], spec_divisor(beats) / spec_denominators(beats)[i]),
            beats,
            i + 1,
        )
    }
}

/// The duration of every column of the pulse, in units of one over the divisor.
pub open spec fn spec_durations(beats: Seq<Seq<usize>>) -> Seq<int> {
    duration_beats(Seq::empty(), beats, 0)
}

pub open spec fn seq_sum(s: Seq<int>) -> int
    decreases s.len(),
{
    if s.len() == 0 {
        0
    } else {
        seq_sum(s.drop_last()) + s.last()
    }
}

proof fn lemma_sum_push(s: Seq<int>, x: int)
    ensures
        seq_sum(s.push(x)) == seq_sum(s) + x,
{
    assert(s.push(x).drop_last() =~= s);
}

proof fn lemma_sum_update_last(s: Seq<int>, x: int)
    requires
        s.len() > 0,
    ensures
        seq_sum(s.update(s.len() - 1, s.last() + x)) == seq_sum(s) + x,
{
    assert(s.update(s.len() - 1, s.last() + x).drop_last() =~= s.drop_last());
}

proof fn lemma_elements_below_sum(s: Seq<int>)
    requires
        forall|i: int| 0 <= i < s.len() ==> s[i] >= 0,
    ensures
        forall|i: int| 0 <= i < s.len() ==> s[i] <= seq_sum(s),
        seq_sum(s) >= 0,
    decreases s.len(),
{
    if s.len() > 0 {
        lemma_elements_below_sum(s.drop_last());
        assert forall|i: int| 0 <= i < s.len() implies s[i] <= seq_sum(s) by {
            if i < s.len() - 1 {
                assert(s.drop_last()[i] == s[i]);
            }
        }
    }
}

pub open spec fn as_ints(v: Seq<usize>) -> Seq<int> {
    v.map_values(|x: usize| x as int)
}

proof fn lemma_beat_share(d: int, n: int, len: int)
    requires
        d >= 0,
        n > 0,
        len > 0,
    ensures
        len * (d / (n * len)) <= d / n,
        d / (n * len) >= 0,
{
    lemma_div_denominator(d, n, len);
    let q = d / n;
    assert(q >= 0) by (nonlinear_arith)
        requires
            d >= 0,
            n > 0,
            q == d / n,
    ;
    lemma_fundamental_div_mod(q, len);
    lemma_remainder_lower(q, len);
    assert(q / len >= 0) by (nonlinear_arith)
        requires
            q >= 0,
            len > 0,
    ;
}

proof fn lemma_shares_fit(d: int, n: int, i: int)
    requires
        d >= 0,
        n > 0,
        0 <= i < n,
    ensures
        (i + 1) * (d / n) <= d,
        i * (d / n) + d / n == (i + 1) * (d / n),
{
    lemma_fundamental_div_mod(d, n);
    lemma_remainder_lower(d, n);
    assert((i + 1) * (d / n) <= n * (d / n)) by (nonlinear_arith)
        requires
            i + 1 <= n,
            d / n >= 0,
    ;
    assert(d / n >= 0) by (nonlinear_arith)
        requires
            d >= 0,
            n > 0,
    ;
    assert(i * (d / n) + d / n == (i + 1) * (d / n)) by (nonlinear_arith);
}

/// A multiple of a multiple of `a` is a multiple of `a`.
proof fn lemma_multiple_trans(a: int, x: int, y: int)
    requires
        a > 0,
        x > 0,
        x % a == 0,
        y % x == 0,
    ensures
        y % a == 0,
{
    lemma_fundamental_div_mod(x, a);
    lemma_fundamental_div_mod(y, x);
    let p = x / a;
    let q = y / x;
    assert(y == (p * q) * a) by (nonlinear_arith)
        requires
            x == a * p + 0,
            y == x * q + 0,
    ;
    lemma_mod_multiples_basic(p * q, a);
}

/// The least common multiple of the first `k` positive denominators is a
/// positive multiple of each of them.
proof fn lemma_lcm_prefix_multiple(dens: Seq<int>, k: int)
    requires
        0 <= k <= dens.len(),
        forall|j: int| 0 <= j < k ==> dens[j] > 0,
    ensures
        spec_lcm_prefix(dens, k) > 0,
        forall|i: int| 0 <= i < k ==> #[trigger] (spec_lcm_prefix(dens, k) % dens[i]) == 0,
    decreases k,
{
    if k > 0 {
        lemma_lcm_prefix_multiple(dens, k - 1);
        let prev = spec_lcm_prefix(dens, k - 1);
        lemma_lcm_is_common_multiple(prev as nat, dens[k - 1] as nat);
        assert forall|i: int| 0 <= i < k implies #[trigger] (spec_lcm_prefix(dens, k) % dens[i]) == 0 by {
            if i < k - 1 {
                lemma_multiple_trans(dens[i], prev, spec_lcm_prefix(dens, k));
            }
        }
    }
}

/// A beat of `len` entries, each worth `d / (n * len)`, is worth `d / n` in
/// all, where `n * len` divides `d`.
proof fn lemma_beat_exact(d: int, n: int, len: int)
    requires
        d >= 0,
        n > 0,
        len > 0,
        d % (n * len) == 0,
    ensures
        len * (d / (n * len)) == d / n,
        n * (d / n) == d,
{
    assert(n * len > 0) by (nonlinear_arith)
        requires
            n > 0,
            len > 0,
    ;
    lemma_fundamental_div_mod(d, n * len);
    let q = d / (n * len);
    assert(d == n * (len * q)) by (nonlinear_arith)
        requires
            d == (n * len) * q + 0,
    ;
    lemma_div_multiples_vanish(len * q, n);
}

/// The entries of one beat add their worth to the sum of the durations,
/// where there is a column before them or the first entry is a note.
proof fn lemma_beat_sum(acc: Seq<int>, entries: Seq<usize>, unit: int)
    requires
        acc.len() > 0 || entries.len() == 0 || entries[0] != 0,
    ensures
        seq_sum(duration_beat(acc, entries, unit)) == seq_sum(acc) + entries.len() * unit,
        acc.len() > 0 || entries.len() > 0 ==> duration_beat(acc, entries, unit).len() > 0,
    decreases entries.len(),
{
    if entries.len() > 0 {
        let next = duration_step(acc, entries[0], unit);
        if entries[0] != 0 {
            lemma_sum_push(acc, unit);
        } else {
            lemma_sum_update_last(acc, unit);
        }
        lemma_beat_sum(next, entries.drop_first(), unit);
        assert(entries.len() * unit == (entries.len() - 1) * unit + unit) by (nonlinear_arith);
    }
}

/// The beats from the `i`-th on add `d / n` each to the sum of the
/// durations, where every one of them has entries.
proof fn lemma_beats_sum(acc: Seq<int>, beats: Seq<Seq<usize>>, i: int)
    requires
        0 <= i <= beats.len(),
        forall|j: int| 0 <= j < beats.len() ==> (#[trigger] beats[j]).len() > 0,
        acc.len() > 0 || i == beats.len() || beats[i][0] != 0,
        spec_divisor(beats) >= 0,
        forall|j: int|
            0 <= j < beats.len() ==> spec_divisor(beats) % #[trigger] spec_denominators(beats)[j] == 0,
    ensures
        seq_sum(duration_beats(acc, beats, i)) == seq_sum(acc) + (beats.len() - i) * (spec_divisor(beats)
            / beats.len() as int),
    decreases beats.len() - i,
{
    if i < beats.len() {
        let n = beats.len() as int;
        let d = spec_divisor(beats);
        let len = beats[i].len() as int;
        let unit = d / spec_denominators(beats)[i];
        assert(spec_denominators(beats)[i] == n * len);
        lemma_beat_sum(acc, beats[i], unit);
        lemma_beat_exact(d, n, len);
        let next = duration_beat(acc, beats[i], unit);
        lemma_beats_sum(next, beats, i + 1);
        assert(duration_beats(acc, beats, i) == duration_beats(next, beats, i + 1));
        assert(unit == d / (n * len));
        assert(seq_sum(next) == seq_sum(acc) + d / n);
        assert((n - i) * (d / n) == (n - (i + 1)) * (d / n) + d / n) by (nonlinear_arith);
    } else {
        assert((beats.len() - i) * (spec_divisor(beats) / beats.len() as int) == 0) by (nonlinear_arith)
            requires
                i == beats.len(),
        ;
    }
}

/// Where every major beat has entries and the first entry is a note, the
/// durations of the columns add up to the common denominator: the pulse is
/// filled exactly.
pub proof fn lemma_durations_fill_divisor(beats: Seq<Seq<usize>>)
    requires
        beats.len() > 0,
        forall|j: int| 0 <= j < beats.len() ==> (#[trigger] beats[j]).len() > 0,
        beats[0][0] != 0,
    ensures
        seq_sum(spec_durations(beats)) == spec_divisor(beats),
{
    let n = beats.len() as int;
    let dens = spec_denominators(beats);
    assert forall|j: int| 0 <= j < n implies #[trigger] dens[j] > 0 by {
        assert(dens[j] == n * beats[j].len());
        assert(n * beats[j].len() > 0) by (nonlinear_arith)
            requires
                n > 0,
                beats[j].len() > 0,
        ;
    }
    lemma_lcm_prefix_multiple(dens, n);
    let d = spec_divisor(beats);
    assert forall|j: int| 0 <= j < n implies d % #[trigger] spec_denominators(beats)[j] == 0 by {
        assert(d % dens[j] == 0);
    }
    lemma_beats_sum(Seq::empty(), beats, 0);
    assert(dens[0] == n * beats[0].len());
    lemma_beat_exact(d, n, beats[0].len() as int);
}

/// How many notes (entries other than placeholders) a beat has.
pub open spec fn notes_in(entries: Seq<usize>) -> nat
    decreases entries.len(),
{
    if entries.len() == 0 {
        0
    } else {
        (if entries[0] != 0 {
            1nat
        } else {
            0nat
        }) + notes_in(entries.drop_first())
    }
}

/// How many notes the beats from the `i`-th on have.
pub open spec fn notes_from(beats: Seq<Seq<usize>>, i: int) -> nat
    decreases beats.len() - i,
{
    if i < 0 || i >= beats.len() {
        0
    } else {
        notes_in(beats[i]) + notes_from(beats, i + 1)
    }
}

proof fn lemma_beat_notes(acc: Seq<int>, entries: Seq<usize>, unit: int)
    requires
        unit > 0,
        forall|k: int| 0 <= k < acc.len() ==> acc[k] > 0,
    ensures
        duration_beat(acc, entries, unit).len() == acc.len() + notes_in(entries),
        forall|k: int|
            0 <= k < duration_beat(acc, entries, unit).len() ==> #[trigger] duration_beat(acc, entries, unit)[k] > 0,
    decreases entries.len(),
{
    if entries.len() > 0 {
        let next = duration_step(acc, entries[0], unit);
        assert forall|k: int| 0 <= k < next.len() implies next[k] > 0 by {
            if entries[0] == 0 && acc.len() > 0 && k == acc.len() - 1 {
                assert(next[k] == acc.last() + unit);
            }
        }
        lemma_beat_notes(next, entries.drop_first(), unit);
    }
}

proof fn lemma_beats_notes(acc: Seq<int>, beats: Seq<Seq<usize>>, i: int)
    requires
        0 <= i <= beats.len(),
        spec_divisor(beats) > 0,
        forall|j: int| 0 <= j < beats.len() ==> (#[trigger] beats[j]).len() > 0,
        forall|j: int|
            0 <= j < beats.len() ==> spec_divisor(beats) % #[trigger] spec_denominators(beats)[j] == 0,
        forall|k: int| 0 <= k < acc.len() ==> acc[k] > 0,
    ensures
        duration_beats(acc, beats, i).len() == acc.len() + notes_from(beats, i),
        forall|k: int|
            0 <= k < duration_beats(acc, beats, i).len() ==> #[trigger] duration_beats(acc, beats, i)[k] > 0,
    decreases beats.len() - i,
{
    if i < beats.len() {
        let n = beats.len() as int;
        let d = spec_divisor(beats);
        let den = spec_denominators(beats)[i];
        assert(den == n * beats[i].len());
        assert(den > 0) by (nonlinear_arith)
            requires
                den == n * beats[i].len(),
                n > 0,
                beats[i].len() > 0,
        ;
        lemma_fundamental_div_mod(d, den);
        let unit = d / den;
        assert(unit > 0) by (nonlinear_arith)
            requires
                d == den * unit + 0,
                d > 0,
                den > 0,
        ;
        lemma_beat_notes(acc, beats[i], unit);
        let next = duration_beat(acc, beats[i], unit);
        lemma_beats_notes(next, beats, i + 1);
    }
}

/// Where every major beat has entries, each note of the pulse gets one
/// column, in order, and every column lasts a positive time.
pub proof fn lemma_durations_per_note(beats: Seq<Seq<usize>>)
    requires
        beats.len() > 0,
        forall|j: int| 0 <= j < beats.len() ==> (#[trigger] beats[j]).len() > 0,
    ensures
        spec_durations(beats).len() == notes_from(beats, 0),
        forall|k: int| 0 <= k < spec_durations(beats).len() ==> #[trigger] spec_durations(beats)[k] > 0,
{
    let n = beats.len() as int;
    let dens = spec_denominators(beats);
    assert forall|j: int| 0 <= j < n implies #[trigger] dens[j] > 0 by {
        assert(dens[j] == n * beats[j].len());
        assert(n * beats[j].len() > 0) by (nonlinear_arith)
            requires
                n > 0,
                beats[j].len() > 0,
        ;
    }
    lemma_lcm_prefix_multiple(dens, n);
    let d = spec_divisor(beats);
    assert forall|j: int| 0 <= j < n implies d % #[trigger] spec_denominators(beats)[j] == 0 by {
        assert(d % dens[j] == 0);
    }
    lemma_beats_notes(Seq::empty(), beats, 0);
}

impl BeatBuffer {
    /// A buffer with one empty major beat.
    pub fn default() -> (r: BeatBuffer)
        ensures
            r.beats@.len() == 1,
            r.beats@[0]@.len() == 0,
    {
        let mut beats = Vec::new();
        beats.push(Vec::new());
        BeatBuffer { beats }
    }

    /// The beats as sequences.
    pub open spec fn spec_beats(&self) -> Seq<Seq<usize>> {
        self.beats@.map_values(|b: Vec<usize>| b@)
    }

    /// Adds a note to the last major beat.
    pub fn append_note(&mut self)
        requires
            old(self).beats@.len() > 0,
        ensures
            final(self).spec_beats() == old(self).spec_beats().update(
                old(self).beats@.len() - 1,
                old(self).spec_beats().last().push(1),
            ),
    {
        let last = self.beats.len() - 1;
        self.beats[last].push(1);
        proof {
            assert(self.spec_beats() =~= old(self).spec_beats().update(
                old(self).beats@.len() - 1,
                old(self).spec_beats().last().push(1),
            ));
        }
    }

    /// Opens a new major beat (`.`).
    pub fn divide(&mut self)
        ensures
            final(self).spec_beats() == old(self).spec_beats().push(Seq::empty()),
    {
        self.beats.push(Vec::new());
        proof {
            assert(self.spec_beats() =~= old(self).spec_beats().push(Seq::empty()));
        }
    }

    /// Splits the current major beat (`,`): when the beat has no entry yet, a
    /// placeholder is added so that the note before it is lengthened.
    pub fn divide_sub(&mut self)
        ensures
            final(self).spec_beats() == if old(self).beats@.len() > 0 && old(self).spec_beats().last().len()
                == 0 {
                old(self).spec_beats().update(old(self).beats@.len() - 1, seq![0usize])
            } else {
                old(self).spec_beats()
            },
    {
        let n = self.beats.len();
        if n > 0 && self.beats[n - 1].len() == 0 {
            proof {
                assert(old(self).beats@[n - 1]@ =~= Seq::<usize>::empty());
            }
            self.beats[n - 1].push(0);
            proof {
                assert(self.beats@[n - 1]@ =~= seq![0usize]);
            }
            proof {
                assert(self.spec_beats() =~= old(self).spec_beats().update(
                    old(self).beats@.len() - 1,
                    seq![0usize],
                ));
            }
        } else {
            proof {
                assert(self.spec_beats() =~= old(self).spec_beats());
            }
        }
    }

    /// A pulse may be split into at most two major beats.
    pub fn is_valid(&self) -> (r: bool)
        ensures
            r == (self.beats@.len() <= 2),
    {
        self.beats.len() <= 2
    }

    /// Whether the durations of the pulse can be computed in a `usize`.
    pub fn is_computable(&self) -> (r: bool)
        ensures
            r == spec_computable(self.spec_beats()),
    {
        let n = self.beats.len();
        let ghost beats = self.spec_beats();
        let ghost dens = spec_denominators(beats);
        let mut i: usize = 0;
        while i < n
            invariant
                n == self.beats@.len(),
                beats == self.spec_beats(),
                dens == spec_denominators(beats),
                i <= n,
                forall|j: int| 0 <= j < i ==> #[trigger] dens[j] <= usize::MAX,
            decreases n - i,
        {
            let len = self.beats[i].len();
            assert(beats[i as int] == self.beats@[i as int]@);
            assert(beats.len() == n);
            assert(dens[i as int] == n * len);
            if len == 0 {
                assert(n * len == 0) by (nonlinear_arith)
                    requires
                        len == 0,
                ;
            }
            if len > 0 && n > usize::MAX / len {
                proof {
                    assert(n * len > usize::MAX) by (nonlinear_arith)
                        requires
                            len > 0,
                            n > usize::MAX / len,
                    ;
                    assert(dens[i as int] == n * len);
                    assert(!spec_computable(beats));
                }
                return false;
            }
            proof {
                if len > 0 {
                    assert(n * len <= usize::MAX) by (nonlinear_arith)
                        requires
                            len > 0,
                            n <= usize::MAX / len,
                    ;
                }
                assert(dens[i as int] == n * len);
            }
            i = i + 1;
        }
        let dens_exec = self.get_denominators();
        let mut acc: usize = 1;
        let mut k: usize = 0;
        while k < n
            invariant
                n == self.beats@.len(),
                beats == self.spec_beats(),
                dens == spec_denominators(beats),
                k <= n,
                dens_exec@.len() == n,
                forall|j: int| 0 <= j < n ==> dens_exec@[j] == #[trigger] dens[j],
                forall|j: int| 0 <= j < n ==> #[trigger] dens[j] <= usize::MAX,
                acc == spec_lcm_prefix(dens, k as int),
                forall|j: int|
                    0 <= j < k ==> {
                        &&& !(#[trigger] spec_lcm_prefix(dens, j) == 0 && dens[j] == 0)
                        &&& spec_lcm_prefix(dens, j) * dens[j] <= usize::MAX
                    },
            decreases n - k,
        {
            let d = dens_exec[k];
            if acc == 0 && d == 0 {
                proof {
                    assert(!spec_computable(beats));
                }
                return false;
            }
            if d > 0 && acc > usize::MAX / d {
                proof {
                    assert(acc * d > usize::MAX) by (nonlinear_arith)
                        requires
                            d > 0,
                            acc > usize::MAX / d,
                    ;
                    assert(!spec_computable(beats));
                }
                return false;
            }
            proof {
                if d > 0 {
                    assert(acc * d <= usize::MAX) by (nonlinear_arith)
                        requires
                            d > 0,
                            acc <= usize::MAX / d,
                    ;
                } else {
                    assert(acc * d == 0);
                }
            }
            acc = lcm(acc, d);
            k = k + 1;
        }
        true
    }

    /// The duration of each column of the pulse and the common denominator of
    /// those durations.
    pub fn get_durations(&self) -> (r: (Vec<usize>, usize))
        requires
            spec_computable(self.spec_beats()),
        ensures
            r.1 == spec_divisor(self.spec_beats()),
            as_ints(r.0@) == spec_durations(self.spec_beats()),
            seq_sum(spec_durations(self.spec_beats())) <= spec_divisor(self.spec_beats()),
            self.spec_beats().len() > 0 && (forall|j: int|
                0 <= j < self.spec_beats().len() ==> (#[trigger] self.spec_beats()[j]).len() > 0)
                && self.spec_beats()[0][0] != 0 ==> seq_sum(spec_durations(self.spec_beats())) == spec_divisor(
                self.spec_beats(),
            ),
    {
        proof {
            let bs = self.spec_beats();
            if bs.len() > 0 && (forall|j: int| 0 <= j < bs.len() ==> (#[trigger] bs[j]).len() > 0) && bs[0][0] != 0 {
                lemma_durations_fill_divisor(bs);
            }
        }
        let ghost beats = self.spec_beats();
        let ghost dens = spec_denominators(beats);
        let n = self.beats.len();
        let denominators = self.get_denominators();
        let mut divisor: usize = 1;
        let mut k: usize = 0;
        while k < n
            invariant
                n == self.beats@.len(),
                beats == self.spec_beats(),
                dens == spec_denominators(beats),
                spec_computable(beats),
                k <= n,
                denominators@.len() == n,
                forall|j: int| 0 <= j < n ==> denominators@[j] == #[trigger] dens[j],
                divisor == spec_lcm_prefix(dens, k as int),
            decreases n - k,
        {
            proof {
                assert(!(spec_lcm_prefix(dens, k as int) == 0 && dens[k as int] == 0));
                assert(spec_lcm_prefix(dens, k as int) * dens[k as int] <= usize::MAX);
            }
            divisor = lcm(divisor, denominators[k]);
            k = k + 1;
        }
        assert(beats.len() == n);
        let ghost d = divisor as int;
        let mut result: Vec<usize> = Vec::new();
        let mut i: usize = 0;
        assert(as_ints(result@) =~= Seq::<int>::empty());
        while i < n
            invariant
                n == self.beats@.len(),
                beats == self.spec_beats(),
                beats.len() == n,
                dens == spec_denominators(beats),
                denominators@.len() == n,
                forall|j: int| 0 <= j < n ==> denominators@[j] == #[trigger] dens[j],
                divisor == spec_divisor(beats),
                d == divisor,
                i <= n,
                duration_beats(as_ints(result@), beats, i as int) == spec_durations(beats),
                seq_sum(as_ints(result@)) <= i * (d / n as int),
            decreases n - i,
        {
            let len = self.beats[i].len();
            let ghost entries = beats[i as int];
            assert(entries == self.beats@[i as int]@);
            let ghost unit = d / dens[i as int];
            let ghost start = as_ints(result@);
            proof {
                if len > 0 {
                    assert(dens[i as int] == n * len);
                    lemma_beat_share(d, n as int, len as int);
                }
                lemma_shares_fit(d, n as int, i as int);
                assert(entries.skip(0) =~= entries);
            }
            let mut j: usize = 0;
            while j < len
                invariant
                    n == self.beats@.len(),
                    beats == self.spec_beats(),
                    beats.len() == n,
                    dens == spec_denominators(beats),
                    i < n,
                    denominators@.len() == n,
                    forall|j: int| 0 <= j < n ==> denominators@[j] == #[trigger] dens[j],
                    d == divisor,
                    divisor >= 0,
                    len == entries.len(),
                    entries == self.beats@[i as int]@,
                    unit == d / dens[i as int],
                    j <= len,
                    len > 0 ==> dens[i as int] == n * len,
                    len > 0 ==> len * unit <= d / n as int,
                    len > 0 ==> unit >= 0,
                    (i + 1) * (d / n as int) <= d,
                    i * (d / n as int) + d / n as int == (i + 1) * (d / n as int),
                    duration_beat(as_ints(result@), entries.skip(j as int), unit) == duration_beat(
                        start,
                        entries,
                        unit,
                    ),
                    seq_sum(as_ints(result@)) <= i * (d / n as int) + j * unit,
                decreases len - j,
            {
                proof {
                    assert(dens[i as int] > 0) by (nonlinear_arith)
                        requires
                            dens[i as int] == n * len,
                            n > 0,
                            len > 0,
                    ;
                    assert(j * unit + unit <= len * unit) by (nonlinear_arith)
                        requires
                            j < len,
                            unit >= 0,
                    ;
                    assert(entries.skip(j as int)[0] == entries[j as int]);
                    assert(entries.skip(j as int).drop_first() =~= entries.skip(j + 1));
                    lemma_elements_below_sum(as_ints(result@));
                }
                let duration = divisor / denominators[i];
                let entry = self.beats[i][j];
                let ghost prev = as_ints(result@);
                proof {
                    assert(duration == unit);
                    assert((j + 1) * unit == j * unit + unit) by (nonlinear_arith);
                }
                if entry != 0 {
                    proof {
                        lemma_sum_push(as_ints(result@), duration as int);
                    }
                    result.push(duration);
                    proof {
                        assert(as_ints(result@) =~= prev.push(duration as int));
                    }
                } else if result.len() > 0 {
                    let last = result.len() - 1;
                    let value = result[last] + duration;
                    proof {
                        lemma_sum_update_last(as_ints(result@), duration as int);
                    }
                    result.set(last, value);
                    proof {
                        assert(as_ints(result@) =~= prev.update(last as int, prev.last() + duration));
                    }
                }
                j = j + 1;
            }
            proof {
                assert(entries.skip(len as int) =~= Seq::<usize>::empty());
            }
            i = i + 1;
        }
        proof {
            if n > 0 {
                lemma_shares_fit(d, n as int, n as int - 1);
            }
        }
        (result, divisor)
    }

    fn get_denominators(&self) -> (r: Vec<usize>)
        requires
            forall|i: int| 0 <= i < self.beats@.len() ==> #[trigger] spec_denominators(self.spec_beats())[i] <= usize::MAX,
        ensures
            r@.len() == self.beats@.len(),
            forall|i: int| 0 <= i < r@.len() ==> r@[i] == #[trigger] spec_denominators(self.spec_beats())[i],
    {
        let n = self.beats.len();
        let mut r: Vec<usize> = Vec::new();
        let mut i: usize = 0;
        while i < n
            invariant
                n == self.beats@.len(),
                i <= n,
                forall|i: int| 0 <= i < self.beats@.len() ==> #[trigger] spec_denominators(self.spec_beats())[i] <= usize::MAX,
                r@.len() == i,
                forall|j: int| 0 <= j < i ==> r@[j] == #[trigger] spec_denominators(self.spec_beats())[j],
            decreases n - i,
        {
            proof {
                let d = spec_denominators(self.spec_beats());
                assert(d[i as int] <= usize::MAX);
                assert(self.spec_beats()[i as int] == self.beats@[i as int]@);
            }
            r.push(n * self.beats[i].len());
            i = i + 1;
        }
        r
    }
}

} // verus!

verus! {

/// Pairs the underline markers of a line into column ranges. Columns are
/// numbered across the line: `add_offset` moves past the columns of a finished
/// pulse or chunk, and a marker is placed at a column relative to that offset.
#[derive(Debug)]
pub struct UnderlineBuffer {
    offset: usize,
    open: Option<(SymbolId, usize)>,
    ranges: Vec<UnderlineRange>,
}

impl UnderlineBuffer {
    pub closed spec fn spec_offset(&self) -> usize {
        self.offset
    }

    /// The marker that opened an underline not yet closed, with its column.
    pub closed spec fn spec_open(&self) -> Option<(SymbolId, usize)> {
        self.open
    }

    pub closed spec fn spec_ranges(&self) -> Seq<UnderlineRange> {
        self.ranges@
    }

    /// Every closed underline covers at least one column.
    pub closed spec fn wf(&self) -> bool {
        forall|k: int| 0 <= k < self.ranges@.len() ==> #[trigger] self.ranges@[k].start
            < self.ranges@[k].end
    }

    pub fn default() -> (r: UnderlineBuffer)
        ensures
            r.wf(),
            r.spec_offset() == 0,
            r.spec_open() is None,
            r.spec_ranges().len() == 0,
    {
        UnderlineBuffer { offset: 0, open: None, ranges: Vec::new() }
    }

    /// A marker at column `offset + local`: it opens an underline, or closes
    /// the open one; a range that would cover no column is dropped.
    pub fn mark(&mut self, sid: SymbolId, local: usize)
        requires
            old(self).wf(),
            old(self).spec_offset() + local <= usize::MAX,
        ensures
            final(self).wf(),
            final(self).spec_offset() == old(self).spec_offset(),
            ({
                let pos = (old(self).spec_offset() + local) as usize;
                match old(self).spec_open() {
                    Some((_, start)) => {
                        &&& final(self).spec_open() is None
                        &&& final(self).spec_ranges() == if start < pos {
                            old(self).spec_ranges().push(UnderlineRange { start, end: pos })
                        } else {
                            old(self).spec_ranges()
                        }
                    },
                    None => {
                        &&& final(self).spec_open() == Some((sid, pos))
                        &&& final(self).spec_ranges() == old(self).spec_ranges()
                    },
                }
            }),
    {
        let pos = self.offset + local;
        match self.open {
            Some((_, start)) => {
                if start < pos {
                    self.ranges.push(UnderlineRange { start, end: pos });
                }
                self.open = None;
            },
            None => {
                self.open = Some((sid, pos));
            },
        }
    }

    /// Moves past `count` columns.
    pub fn add_offset(&mut self, count: usize)
        requires
            old(self).spec_offset() + count <= usize::MAX,
        ensures
            final(self).spec_offset() == old(self).spec_offset() + count,
            final(self).spec_open() == old(self).spec_open(),
            final(self).spec_ranges() == old(self).spec_ranges(),
            final(self).wf() == old(self).wf(),
    {
        self.offset = self.offset + count;
    }

    /// The marker of an underline left open, if any.
    pub fn get_trailing(&self) -> (r: Option<SymbolId>)
        ensures
            r == match self.spec_open() {
                Some((sid, _)) => Some(sid),
                None => None,
            },
    {
        match self.open {
            Some((sid, _)) => Some(sid),
            None => None,
        }
    }

    pub fn results(&self) -> (r: &[UnderlineRange])
        requires
            self.wf(),
        ensures
            r@ == self.spec_ranges(),
            forall|k: int| 0 <= k < r@.len() ==> #[trigger] r@[k].end > 0,
    {
        let r = self.ranges.as_slice();
        assert forall|k: int| 0 <= k < r@.len() implies #[trigger] r@[k].end > 0 by {
            assert(self.ranges@[k].start < self.ranges@[k].end);
        }
        r
    }
}

} // verus!
