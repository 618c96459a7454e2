//! What the predictor hands to the planner.
//!
//! A score is the probability that an executable or a map is needed in the
//! next cycle. It is a single-precision number between zero and one; this
//! library holds it as the 32 bits of its encoding. Between zero and
//! infinity the encoding grows with the number, so that scores are compared
//! as integers.

use vstd::prelude::*;
use crate::domain::{ExeId, MapId, MarkovState};
use crate::stores::edge_key::EdgeKey;
use crate::stores::state::{Stores, StoresView};

verus! {

/// The encoding of the score zero.
pub const SCORE_ZERO: u32 = 0;

/// The encoding of the score one.
pub const SCORE_ONE: u32 = 0x3F80_0000;

/// An executable and its score.
#[derive(Clone, Copy, Debug, PartialEq, Eq, Structural)]
pub struct ExeScore {
    pub exe: ExeId,
    pub score: u32,
}

/// A map and its score.
#[derive(Clone, Copy, Debug, PartialEq, Eq, Structural)]
pub struct MapScore {
    pub map: MapId,
    pub score: u32,
}

/// The scores of one cycle: at most one for each executable, and at most
/// one for each map.
#[derive(Clone, Debug)]
pub struct Prediction {
    pub exe_scores: Vec<ExeScore>,
    pub map_scores: Vec<MapScore>,
}

/// No executable has two scores.
pub open spec fn distinct_exes(scores: Seq<ExeScore>) -> bool {
    forall|i: int, j: int|
        0 <= i < scores.len() && 0 <= j < scores.len() && i != j ==> scores[i].exe
            != scores[j].exe
}

/// No map has two scores.
pub open spec fn distinct_maps(scores: Seq<MapScore>) -> bool {
    forall|i: int, j: int|
        0 <= i < scores.len() && 0 <= j < scores.len() && i != j ==> scores[i].map
            != scores[j].map
}

/// What `insert_exe_score` leaves: the score of the executable replaced
/// where it has one, and added at the end where it has none.
pub open spec fn with_exe_score(scores: Seq<ExeScore>, entry: ExeScore) -> Seq<ExeScore> {
    if exists|i: int| 0 <= i < scores.len() && scores[i].exe == entry.exe {
        scores.update(choose|i: int| 0 <= i < scores.len() && scores[i].exe == entry.exe, entry)
    } else {
        scores.push(entry)
    }
}

/// What `insert_map_score` leaves: the score of the map replaced where it
/// has one, and added at the end where it has none.
pub open spec fn with_map_score(scores: Seq<MapScore>, entry: MapScore) -> Seq<MapScore> {
    if exists|i: int| 0 <= i < scores.len() && scores[i].map == entry.map {
        scores.update(choose|i: int| 0 <= i < scores.len() && scores[i].map == entry.map, entry)
    } else {
        scores.push(entry)
    }
}

/// How many executables and maps a prediction scored.
#[derive(Clone, Copy, Debug, PartialEq, Eq, Structural)]
pub struct PredictionSummary {
    pub num_exes_scored: usize,
    pub num_maps_scored: usize,
}

impl Prediction {
    /// No executable and no map has two scores.
    pub open spec fn wf(&self) -> bool {
        distinct_exes(self.exe_scores@) && distinct_maps(self.map_scores@)
    }

    /// The prediction that scores nothing.
    pub fn new() -> (r: Self)
        ensures
            r.wf(),
            r.exe_scores@.len() == 0,
            r.map_scores@.len() == 0,
    {
        Prediction { exe_scores: Vec::new(), map_scores: Vec::new() }
    }

    /// Whether no executable and no map has two scores.
    pub fn has_distinct_ids(&self) -> (r: bool)
        ensures
            r == self.wf(),
    {
        let mut i: usize = 0;
        while i < self.exe_scores.len()
            invariant
                i <= self.exe_scores@.len(),
                forall|a: int, b: int|
                    0 <= a < i && 0 <= b < self.exe_scores@.len() && a != b
                        ==> self.exe_scores@[a].exe != self.exe_scores@[b].exe,
            decreases self.exe_scores@.len() - i,
        {
            let mut j: usize = 0;
            while j < self.exe_scores.len()
                invariant
                    i < self.exe_scores@.len(),
                    j <= self.exe_scores@.len(),
                    forall|b: int|
                        0 <= b < j && i != b ==> self.exe_scores@[i as int].exe
                            != self.exe_scores@[b].exe,
                decreases self.exe_scores@.len() - j,
            {
                if i != j && self.exe_scores[i].exe == self.exe_scores[j].exe {
                    return false;
                }
                j += 1;
            }
            i += 1;
        }
        let mut i: usize = 0;
        while i < self.map_scores.len()
            invariant
                i <= self.map_scores@.len(),
                distinct_exes(self.exe_scores@),
                forall|a: int, b: int|
                    0 <= a < i && 0 <= b < self.map_scores@.len() && a != b
                        ==> self.map_scores@[a].map != self.map_scores@[b].map,
            decreases self.map_scores@.len() - i,
        {
            let mut j: usize = 0;
            while j < self.map_scores.len()
                invariant
                    i < self.map_scores@.len(),
                    j <= self.map_scores@.len(),
                    forall|b: int|
                        0 <= b < j && i != b ==> self.map_scores@[i as int].map
                            != self.map_scores@[b].map,
                decreases self.map_scores@.len() - j,
            {
                if i != j && self.map_scores[i].map == self.map_scores[j].map {
                    return false;
                }
                j += 1;
            }
            i += 1;
        }
        true
    }

    /// Gives the executable `exe` the score `score`: the score it has is
    /// replaced, and where it has none the score is added at the end.
    pub fn insert_exe_score(&mut self, exe: ExeId, score: u32)
        requires
            old(self).wf(),
        ensures
            final(self).wf(),
            final(self).exe_scores@ == with_exe_score(
                old(self).exe_scores@,
                ExeScore { exe, score },
            ),
            final(self).map_scores@ == old(self).map_scores@,
    {
        let mut i: usize = 0;
        while i < self.exe_scores.len()
            invariant
                i <= self.exe_scores@.len(),
                self.exe_scores@ == old(self).exe_scores@,
                self.map_scores@ == old(self).map_scores@,
                self.wf(),
                forall|k: int| 0 <= k < i ==> self.exe_scores@[k].exe != exe,
            decreases self.exe_scores@.len() - i,
        {
            if self.exe_scores[i].exe == exe {
                proof {
                    let w = choose|w: int|
                        0 <= w < self.exe_scores@.len() && self.exe_scores@[w].exe == exe;
                    assert(w == i);
                }
                self.exe_scores.set(i, ExeScore { exe, score });
                return ;
            }
            i += 1;
        }
        self.exe_scores.push(ExeScore { exe, score });
    }

    /// Gives the map `map` the score `score`: the score it has is replaced,
    /// and where it has none the score is added at the end.
    pub fn insert_map_score(&mut self, map: MapId, score: u32)
        requires
            old(self).wf(),
        ensures
            final(self).wf(),
            final(self).map_scores@ == with_map_score(
                old(self).map_scores@,
                MapScore { map, score },
            ),
            final(self).exe_scores@ == old(self).exe_scores@,
    {
        let mut i: usize = 0;
        while i < self.map_scores.len()
            invariant
                i <= self.map_scores@.len(),
                self.exe_scores@ == old(self).exe_scores@,
                self.map_scores@ == old(self).map_scores@,
                self.wf(),
                forall|k: int| 0 <= k < i ==> self.map_scores@[k].map != map,
            decreases self.map_scores@.len() - i,
        {
            if self.map_scores[i].map == map {
                proof {
                    let w = choose|w: int|
                        0 <= w < self.map_scores@.len() && self.map_scores@[w].map == map;
                    assert(w == i);
                }
                self.map_scores.set(i, MapScore { map, score });
                return ;
            }
            i += 1;
        }
        self.map_scores.push(MapScore { map, score });
    }

    pub fn summarize(&self) -> (r: PredictionSummary)
        ensures
            r.num_exes_scored == self.exe_scores@.len(),
            r.num_maps_scored == self.map_scores@.len(),
    {
        PredictionSummary {
            num_exes_scored: self.exe_scores.len(),
            num_maps_scored: self.map_scores.len(),
        }
    }
}

impl Default for Prediction {
    fn default() -> (r: Self)
        ensures
            r.wf(),
            r.exe_scores@.len() == 0,
            r.map_scores@.len() == 0,
    {
        Prediction::new()
    }
}

impl Default for PredictionSummary {
    fn default() -> (r: Self)
        ensures
            r.num_exes_scored == 0,
            r.num_maps_scored == 0,
    {
        PredictionSummary { num_exes_scored: 0, num_maps_scored: 0 }
    }
}

/// The encoding of positive infinity: the largest encoding of a number
/// that is not negative.
pub const SCORE_INFINITY: u32 = 0x7F80_0000;

/// Whether `word` encodes a number between zero and one.
pub open spec fn is_score(word: u32) -> bool {
    word <= SCORE_ONE
}

/// The score nearest to what `word` encodes: the number itself between
/// zero and one, one for what lies above one, and zero for what is
/// negative or no number.
pub open spec fn bounded(word: u32) -> u32 {
    if word <= SCORE_ONE {
        word
    } else if word <= SCORE_INFINITY {
        SCORE_ONE
    } else {
        SCORE_ZERO
    }
}

/// The score nearest to what `word` encodes.
pub fn bound_score(word: u32) -> (r: u32)
    ensures
        r == bounded(word),
        is_score(r),
{
    if word <= SCORE_ONE {
        word
    } else if word <= SCORE_INFINITY {
        SCORE_ONE
    } else {
        SCORE_ZERO
    }
}

/// How the correlation of the two executables of an edge weighs a term.
#[derive(Clone, Copy, Debug, PartialEq, Eq, Structural)]
pub enum Correlation {
    /// The predictor does not use the correlation: the term counts in full.
    Unused,
    /// The correlation is exactly zero: one of the running times is zero or
    /// the whole model time, or the model time is zero. There is nothing
    /// to weigh the term by, and it is left at its base probability.
    Zero,
    /// The correlation is to be computed from the model time, the running
    /// times of the two executables, and the time both ran.
    From { model_time: u64, a_time: u64, b_time: u64, both_time: u64 },
}

/// Whether the correlation of two executables with running times `a_time`
/// and `b_time` at model time `model_time` is zero by definition: a factor
/// of its denominator is zero.
pub open spec fn correlation_vanishes(model_time: u64, a_time: u64, b_time: u64) -> bool {
    model_time == 0 || a_time == 0 || b_time == 0 || a_time == model_time || b_time == model_time
}

/// How the correlation weighs a term.
pub open spec fn spec_correlation(
    use_correlation: bool,
    model_time: u64,
    a_time: u64,
    b_time: u64,
    both_time: u64,
) -> Correlation {
    if !use_correlation {
        Correlation::Unused
    } else if correlation_vanishes(model_time, a_time, b_time) {
        Correlation::Zero
    } else {
        Correlation::From { model_time, a_time, b_time, both_time }
    }
}

/// How the correlation weighs a term.
pub fn correlation_of(
    use_correlation: bool,
    model_time: u64,
    a_time: u64,
    b_time: u64,
    both_time: u64,
) -> (r: Correlation)
    ensures
        r == spec_correlation(use_correlation, model_time, a_time, b_time, both_time),
{
    if !use_correlation {
        Correlation::Unused
    } else if model_time == 0 || a_time == 0 || b_time == 0 || a_time == model_time || b_time
        == model_time {
        Correlation::Zero
    } else {
        Correlation::From { model_time, a_time, b_time, both_time }
    }
}

/// One term of the score of an executable: what a Markov edge says of the
/// chance that the executable runs in the next cycle.
#[derive(Clone, Copy, Debug, PartialEq, Eq, Structural)]
pub struct EdgeTerm {
    /// The executable that the term is about. It does not run.
    pub exe: ExeId,
    pub key: EdgeKey,
    /// The joint running state of the two executables of the edge.
    pub state: MarkovState,
    /// The state in which only `exe` runs.
    pub target: MarkovState,
    /// The encoded mean dwell time in `state`.
    pub time_to_leave: u32,
    /// The encoded estimate of going from `state` to `target`.
    pub to_target: u32,
    /// The encoded estimate of going from `state` to `Both`.
    pub to_both: u32,
    pub correlation: Correlation,
}

/// The running time of the executable `id`, and zero where it does not
/// exist.
pub open spec fn running_time(v: StoresView, id: ExeId) -> u64 {
    if v.has_exe(id) {
        v.exes[id.0 as int].total_running_time
    } else {
        0
    }
}

/// The term of the edge at position `i` for its first or its second
/// executable.
pub open spec fn term_of(v: StoresView, i: int, first: bool, use_correlation: bool) -> EdgeTerm {
    let key = v.markov[i].0;
    let edge = v.markov[i].1;
    let state = v.state_of(key);
    let target = if first {
        MarkovState::AOnly
    } else {
        MarkovState::BOnly
    };
    EdgeTerm {
        exe: if first {
            key.0
        } else {
            key.1
        },
        key,
        state,
        target,
        time_to_leave: edge.time_to_leave@[state.spec_index()],
        to_target: edge.transition_prob@[state.spec_index()]@[target.spec_index()],
        to_both: edge.transition_prob@[state.spec_index()]@[3],
        correlation: spec_correlation(
            use_correlation,
            v.model_time,
            running_time(v, key.0),
            running_time(v, key.1),
            edge.both_running_time,
        ),
    }
}

/// The terms of the first `n` edges, in the order of the graph: each edge
/// gives a term for each of its two executables that does not run, the
/// first before the second.
pub open spec fn terms(v: StoresView, n: nat, use_correlation: bool) -> Seq<EdgeTerm>
    decreases n,
{
    if n == 0 {
        Seq::empty()
    } else {
        let rest = terms(v, (n - 1) as nat, use_correlation);
        let key = v.markov[n - 1].0;
        let with_first = if !v.runs(key.0) {
            rest.push(term_of(v, n - 1, true, use_correlation))
        } else {
            rest
        };
        if !v.runs(key.1) {
            with_first.push(term_of(v, n - 1, false, use_correlation))
        } else {
            with_first
        }
    }
}

/// The terms from which the scores of the executables are computed.
pub fn edge_terms(stores: &Stores, use_correlation: bool) -> (r: Vec<EdgeTerm>)
    ensures
        r@ == terms(stores@, stores@.markov.len(), use_correlation),
{
    let mut r: Vec<EdgeTerm> = Vec::new();
    let now = stores.model_time();
    let count = stores.markov().len();
    let mut i: usize = 0;
    while i < count
        invariant
            i <= count,
            count == stores@.markov.len(),
            now == stores@.model_time,
            r@ == terms(stores@, i as nat, use_correlation),
        decreases count - i,
    {
        let (key, edge) = stores.markov().entry(i);
        let a_runs = stores.exe_runs(key.0);
        let b_runs = stores.exe_runs(key.1);
        let state = MarkovState::from_running(a_runs, b_runs);
        let ix = state.index();
        let a_time = match stores.exes().get(key.0) {
            Some(exe) => exe.total_running_time,
            None => 0,
        };
        let b_time = match stores.exes().get(key.1) {
            Some(exe) => exe.total_running_time,
            None => 0,
        };
        let correlation = correlation_of(
            use_correlation,
            now,
            a_time,
            b_time,
            edge.both_running_time,
        );
        if !a_runs {
            r.push(
                EdgeTerm {
                    exe: key.0,
                    key,
                    state,
                    target: MarkovState::AOnly,
                    time_to_leave: edge.time_to_leave[ix],
                    to_target: edge.transition_prob[ix][1],
                    to_both: edge.transition_prob[ix][3],
                    correlation,
                },
            );
        }
        if !b_runs {
            r.push(
                EdgeTerm {
                    exe: key.1,
                    key,
                    state,
                    target: MarkovState::BOnly,
                    time_to_leave: edge.time_to_leave[ix],
                    to_target: edge.transition_prob[ix][2],
                    to_both: edge.transition_prob[ix][3],
                    correlation,
                },
            );
        }
        i += 1;
    }
    r
}

/// The word at position `i` of `words`, and the encoding of zero where
/// there is none.
pub open spec fn word_at(words: Seq<u32>, i: int) -> u32 {
    if 0 <= i < words.len() {
        words[i]
    } else {
        SCORE_ZERO
    }
}

/// The score of the executable in slot `i`: zero where it runs, and
/// otherwise the score nearest to what `need` holds for it.
pub open spec fn exe_score(v: StoresView, need: Seq<u32>, i: int) -> ExeScore {
    ExeScore {
        exe: ExeId(i as usize),
        score: if v.exes[i].running {
            SCORE_ZERO
        } else {
            bounded(word_at(need, i))
        },
    }
}

/// The score of the map in slot `i`: the score nearest to what `need`
/// holds for it.
pub open spec fn map_score(need: Seq<u32>, i: int) -> MapScore {
    MapScore { map: MapId(i as usize), score: bounded(word_at(need, i)) }
}

impl Prediction {
    /// Every score lies between zero and one, and every executable that
    /// runs has the score zero.
    pub open spec fn sound(&self, v: StoresView) -> bool {
        &&& forall|i: int| 0 <= i < self.exe_scores@.len() ==> is_score(#[trigger] self.exe_scores@[i].score)
        &&& forall|i: int| 0 <= i < self.map_scores@.len() ==> is_score(#[trigger] self.map_scores@[i].score)
        &&& forall|i: int| 0 <= i < self.exe_scores@.len() && v.runs(self.exe_scores@[i].exe) ==> (#[trigger] self.exe_scores@[i]).score == SCORE_ZERO
    }

    /// The prediction for the executables and maps of `stores`, from the
    /// encoded probabilities `exe_need` and `map_need` that each is needed,
    /// by slot. Every score is brought between zero and one, and an
    /// executable that runs gets zero whatever `exe_need` holds for it.
    pub fn assemble(stores: &Stores, exe_need: &Vec<u32>, map_need: &Vec<u32>) -> (r: Self)
        ensures
            r.exe_scores@ == Seq::new(
                stores@.exes.len(),
                |i: int| exe_score(stores@, exe_need@, i),
            ),
            r.map_scores@ == Seq::new(stores@.maps.len(), |i: int| map_score(map_need@, i)),
            r.sound(stores@),
            r.wf(),
    {
        let mut exe_scores: Vec<ExeScore> = Vec::new();
        let exes = stores.exes().len();
        let mut i: usize = 0;
        while i < exes
            invariant
                i <= exes,
                exes == stores@.exes.len(),
                exe_scores@.len() == i,
                forall|k: int| 0 <= k < i ==> exe_scores@[k] == exe_score(stores@, exe_need@, k),
            decreases exes - i,
        {
            let need = if i < exe_need.len() {
                exe_need[i]
            } else {
                SCORE_ZERO
            };
            let score = if stores.exe_runs(ExeId(i)) {
                SCORE_ZERO
            } else {
                bound_score(need)
            };
            exe_scores.push(ExeScore { exe: ExeId(i), score });
            i += 1;
        }
        let mut map_scores: Vec<MapScore> = Vec::new();
        let maps = stores.maps().len();
        let mut i: usize = 0;
        while i < maps
            invariant
                i <= maps,
                maps == stores@.maps.len(),
                map_scores@.len() == i,
                forall|k: int| 0 <= k < i ==> map_scores@[k] == map_score(map_need@, k),
            decreases maps - i,
        {
            let need = if i < map_need.len() {
                map_need[i]
            } else {
                SCORE_ZERO
            };
            map_scores.push(MapScore { map: MapId(i), score: bound_score(need) });
            i += 1;
        }
        let r = Prediction { exe_scores, map_scores };
        proof {
            assert(r.exe_scores@ =~= Seq::new(
                stores@.exes.len(),
                |i: int| exe_score(stores@, exe_need@, i),
            ));
            assert(r.map_scores@ =~= Seq::new(
                stores@.maps.len(),
                |i: int| map_score(map_need@, i),
            ));
        }
        r
    }
}

} // verus!
