//! The agent of the improvement loop: what a step decides, and what it leaves behind.
//!
//! A step revises the strategy, moves the state and the substrate, and answers risk. The
//! numbers are computed by the caller; when each part runs, which answer a risk gets,
//! which rewrites are kept, when a step is taken back and what is recorded is decided
//! here.

use vstd::arithmetic::div_mod::lemma_div_denominator;
use vstd::arithmetic::power::{lemma_pow_positive, pow};
use vstd::prelude::*;

use crate::audit::{chain_of, head_of, next_link, AuditEvent, AuditLog, HashChainLog, Link};
use crate::checkpoint::{fit, Checkpoint, CognitiveState, MetaStrategy, Substrate};
use crate::criticality::{FailureMode, RiskReading};
use crate::measure::Measure;

verus! {

// ---------------------------------------------------------------------------
// The identity of a strategy
// ---------------------------------------------------------------------------

/// The starting value of the FNV-1a hash.
pub const FNV_OFFSET: u64 = 0xcbf2_9ce4_8422_2325;

/// The multiplier of the FNV-1a hash.
pub const FNV_PRIME: u64 = 0x0000_0100_0000_01b3;

/// The FNV-1a hash of the bytes, from a value reached before.
pub open spec fn fnv1a(start: u64, bytes: Seq<u8>) -> u64
    decreases bytes.len(),
{
    if bytes.len() == 0 {
        start
    } else {
        (fnv1a(start, bytes.drop_last()) ^ (bytes.last() as u64)).wrapping_mul(FNV_PRIME)
    }
}

/// The eight bytes of a word, the lowest first.
pub open spec fn little_endian(word: u64) -> Seq<u8> {
    Seq::new(8, |k: int| ((word as int / pow(256, k as nat)) % 256) as u8)
}

/// The bytes of the words, one after the other.
pub open spec fn words_as_bytes(words: Seq<u64>) -> Seq<u8>
    decreases words.len(),
{
    if words.len() == 0 {
        Seq::empty()
    } else {
        words_as_bytes(words.drop_last()) + little_endian(words.last())
    }
}

proof fn lemma_fnv1a_concat(start: u64, a: Seq<u8>, b: Seq<u8>)
    ensures
        fnv1a(start, a + b) == fnv1a(fnv1a(start, a), b),
    decreases b.len(),
{
    if b.len() == 0 {
        assert(a + b =~= a);
    } else {
        assert((a + b).drop_last() =~= a + b.drop_last());
        lemma_fnv1a_concat(start, a, b.drop_last());
    }
}

fn hash_word(start: u64, word: u64) -> (r: u64)
    ensures
        r == fnv1a(start, little_endian(word)),
{
    let mut h: u64 = start;
    let mut rest: u64 = word;
    let mut k: u32 = 0;
    let ghost bytes = little_endian(word);
    proof {
        reveal(pow);
        assert(pow(256, 0) == 1);
    }
    while k < 8
        invariant
            k <= 8,
            bytes == little_endian(word),
            rest == word as int / pow(256, k as nat),
            h == fnv1a(start, bytes.take(k as int)),
        decreases 8 - k,
    {
        let b: u64 = rest % 256;
        proof {
            assert(bytes.take(k + 1).drop_last() =~= bytes.take(k as int));
            assert(bytes.take(k + 1).last() == bytes[k as int]);
            assert(bytes[k as int] as u64 == b);
            lemma_pow_positive(256, k as nat);
            reveal(pow);
            assert(pow(256, (k + 1) as nat) == 256 * pow(256, k as nat));
            lemma_div_denominator(word as int, pow(256, k as nat), 256);
            assert(pow(256, k as nat) * 256 == 256 * pow(256, k as nat)) by (nonlinear_arith);
        }
        h = (h ^ b).wrapping_mul(FNV_PRIME);
        rest = rest / 256;
        k += 1;
    }
    assert(bytes.take(8) =~= bytes);
    h
}

/// A stable hash of a strategy, by which the journal names it: FNV-1a over the bytes of
/// its encoded numbers. `theta` holds the bits of each number.
pub fn strategy_hash(theta: &[u64]) -> (r: u64)
    ensures
        r == fnv1a(FNV_OFFSET, words_as_bytes(theta@)),
{
    let mut h: u64 = FNV_OFFSET;
    let mut i: usize = 0;
    while i < theta.len()
        invariant
            i <= theta@.len(),
            h == fnv1a(FNV_OFFSET, words_as_bytes(theta@.take(i as int))),
        decreases theta@.len() - i,
    {
        proof {
            assert(theta@.take(i + 1).drop_last() =~= theta@.take(i as int));
            assert(theta@.take(i + 1).last() == theta@[i as int]);
            lemma_fnv1a_concat(FNV_OFFSET, words_as_bytes(theta@.take(i as int)), little_endian(theta@[i as int]));
        }
        h = hash_word(h, theta[i]);
        i += 1;
    }
    assert(theta@.take(i as int) =~= theta@);
    h
}

// ---------------------------------------------------------------------------
// Answers to risk
// ---------------------------------------------------------------------------

/// The limits of tolerated risk.
#[derive(Debug, Clone, Copy, PartialEq, Eq, Structural)]
pub struct RiskConfig {
    /// The weight of risk in the adjusted objective.
    pub kappa: Measure,
    /// The highest priority number that is tolerated.
    pub rpn_max: Measure,
    /// The rise of the risk that is tolerated from one step to the next.
    pub risk_delta: Measure,
    /// Whether risk is answered, or only measured.
    pub active_response: bool,
}

impl Default for RiskConfig {
    /// A weight of one half, a highest number of 0.4, a rise of 0.1, with answers.
    fn default() -> (r: Self)
        ensures
            r == (RiskConfig {
                kappa: Measure { bits: 0x3fe0_0000_0000_0000 },
                rpn_max: Measure { bits: 0x3fd9_9999_9999_999a },
                risk_delta: Measure { bits: 0x3fb9_9999_9999_999a },
                active_response: true,
            }),
    {
        RiskConfig {
            kappa: Measure::from_bits(0x3fe0_0000_0000_0000),
            rpn_max: Measure::from_bits(0x3fd9_9999_9999_999a),
            risk_delta: Measure::from_bits(0x3fb9_9999_9999_999a),
            active_response: true,
        }
    }
}

/// What a step did about risk.
#[derive(Debug, Clone, Copy, PartialEq, Eq, Structural)]
pub enum Mitigation {
    Unneeded,
    DampGain,
    DampRiskDelta,
    RealignV,
    TrustFloor,
}

impl Mitigation {
    pub open spec fn label(self) -> &'static str {
        match self {
            Mitigation::Unneeded => "none",
            Mitigation::DampGain => "damp_gain",
            Mitigation::DampRiskDelta => "damp_risk_delta",
            Mitigation::RealignV => "realign_V",
            Mitigation::TrustFloor => "trust_floor",
        }
    }

    /// The name in reports.
    pub fn name(&self) -> (r: &'static str)
        ensures
            r == self.label(),
    {
        match self {
            Mitigation::Unneeded => "none",
            Mitigation::DampGain => "damp_gain",
            Mitigation::DampRiskDelta => "damp_risk_delta",
            Mitigation::RealignV => "realign_V",
            Mitigation::TrustFloor => "trust_floor",
        }
    }
}

/// The risk rose by more than `delta` since a step before. Without one, it did not.
pub open spec fn rises_too_fast(previous: Measure, rise: Measure, delta: Measure) -> bool {
    previous.finite() && delta.below(rise)
}

/// `rise` is the risk of this step less `previous`, that of the step before.
pub fn risk_velocity_exceeded(previous: &Measure, rise: &Measure, delta: &Measure) -> (r: bool)
    ensures
        r == rises_too_fast(*previous, *rise, *delta),
{
    previous.is_finite() && delta.is_below(rise)
}

/// The answer to the risk of a step.
#[derive(Debug, Clone, Copy, PartialEq, Eq, Structural)]
pub struct Response {
    /// Some limit is exceeded: the gain of the strategy is halved.
    pub over_threshold: bool,
    /// The values are drawn towards the autonomy.
    pub realign: bool,
    /// A measured efficiency, where there is one, is drawn towards the computed one.
    pub distrust: bool,
    /// The answer so far, before a measured efficiency is looked at.
    pub mitigation: Mitigation,
}

pub open spec fn response_to(cfg: RiskConfig, previous: Measure, reading: RiskReading, rise: Measure) -> Response {
    let exceeded = cfg.active_response && cfg.rpn_max.below(reading.max_rpn);
    let rising = cfg.active_response && rises_too_fast(previous, rise, cfg.risk_delta);
    let over = exceeded || rising;
    let realign = over && reading.most_critical == FailureMode::ValueDrift;
    Response {
        over_threshold: over,
        realign,
        distrust: over && reading.most_critical == FailureMode::Wireheading,
        mitigation: if !over {
            Mitigation::Unneeded
        } else if realign {
            Mitigation::RealignV
        } else if exceeded {
            Mitigation::DampGain
        } else {
            Mitigation::DampRiskDelta
        },
    }
}

impl Response {
    pub open spec fn with_measure(&self, measured: bool) -> Mitigation {
        if self.distrust && measured {
            Mitigation::TrustFloor
        } else {
            self.mitigation
        }
    }

    /// The answer of the whole step; `measured` says whether the substrate holds a
    /// measured efficiency.
    pub fn settled(&self, measured: bool) -> (r: Mitigation)
        ensures
            r == self.with_measure(measured),
    {
        if self.distrust && measured {
            Mitigation::TrustFloor
        } else {
            self.mitigation
        }
    }
}

// ---------------------------------------------------------------------------
// The combined step
// ---------------------------------------------------------------------------

/// How often a step that regresses is halved before it is given up.
pub const MAX_HALVINGS: u32 = 20;

/// What becomes of a step.
#[derive(Debug, Clone, Copy, PartialEq, Eq, Structural)]
pub enum GuardMove {
    Keep,
    Halve,
    StayPut,
}

/// A step that answers a risk is kept as it is. Any other is kept unless its result lies
/// below the least tolerated one; then it is halved, and given up in the end.
pub open spec fn move_of(mitigation: Mitigation, result: Measure, least: Measure, halvings: u32) -> GuardMove {
    if mitigation != Mitigation::Unneeded || !result.below(least) {
        GuardMove::Keep
    } else if halvings < MAX_HALVINGS {
        GuardMove::Halve
    } else {
        GuardMove::StayPut
    }
}

/// Decides on a step after so many halvings.
pub fn guard_move(mitigation: Mitigation, result: &Measure, least: &Measure, halvings: u32) -> (r: GuardMove)
    ensures
        r == move_of(mitigation, *result, *least, halvings),
{
    if mitigation != Mitigation::Unneeded || !result.is_below(least) {
        GuardMove::Keep
    } else if halvings < MAX_HALVINGS {
        GuardMove::Halve
    } else {
        GuardMove::StayPut
    }
}

/// A rewrite is kept unless it lowers the effective power.
pub fn keeps_power(rewritten: &Measure, current: &Measure) -> (r: bool)
    ensures
        r == rewritten.reaches(*current),
{
    rewritten.is_at_least(current)
}

/// The places of the recalled strategies that edit a software vector of this length. A
/// payload that could not be decoded has no length.
pub open spec fn usable(edit_lengths: Seq<Option<usize>>, length: usize) -> Seq<usize>
    decreases edit_lengths.len(),
{
    if edit_lengths.len() == 0 {
        Seq::empty()
    } else {
        let before = usable(edit_lengths.drop_last(), length);
        if edit_lengths.last() == Some(length) {
            before.push((edit_lengths.len() - 1) as usize)
        } else {
            before
        }
    }
}

/// Which recalled strategies seed the next revision.
pub fn usable_seeds(edit_lengths: &[Option<usize>], length: usize) -> (r: Vec<usize>)
    ensures
        r@ == usable(edit_lengths@, length),
{
    let mut out: Vec<usize> = Vec::new();
    let mut i: usize = 0;
    while i < edit_lengths.len()
        invariant
            i <= edit_lengths@.len(),
            out@ == usable(edit_lengths@.take(i as int), length),
        decreases edit_lengths@.len() - i,
    {
        proof {
            assert(edit_lengths@.take(i + 1).drop_last() =~= edit_lengths@.take(i as int));
            assert(edit_lengths@.take(i + 1).last() == edit_lengths@[i as int]);
        }
        match edit_lengths[i] {
            Some(n) => {
                if n == length {
                    out.push(i);
                }
            },
            None => {},
        }
        i += 1;
    }
    assert(edit_lengths@.take(i as int) =~= edit_lengths@);
    out
}

// ---------------------------------------------------------------------------
// The agent
// ---------------------------------------------------------------------------

/// An agent with its journal and with which other backends it has.
pub struct RSIAgent {
    pub current: Checkpoint,
    pub substrate_opt: bool,
    /// How many contexts the memory holds, where there is one.
    pub memory: Option<usize>,
    pub risk_cfg: RiskConfig,
    /// The strategy is revised once in so many steps.
    pub meta_interval: u64,
    /// The substrate is improved once in so many steps.
    pub substrate_interval: u64,
    /// The share of tasks held back by the substrate from which it is improved.
    pub route_threshold: Measure,
    pub recall_k: usize,
    pub audit: Option<HashChainLog>,
    pub knowledge: bool,
    pub knowledge_rate: Measure,
    /// The risk before the last step; NaN before the first.
    pub prev_pre_risk: Measure,
}

/// Which parts of a step run.
#[derive(Debug, Clone, Copy, PartialEq, Eq, Structural)]
pub struct Opening {
    /// Knowledge is absorbed.
    pub absorb: bool,
    /// So many contexts are recalled.
    pub recall: Option<usize>,
    /// The strategy is revised.
    pub revise: bool,
}

/// What a step led to: the new state, the substrate and the strategy, with the figures
/// of the journal as decimal texts and the bits of the encoded strategy.
pub struct StepOutcome {
    pub state: CognitiveState,
    pub substrate: Substrate,
    pub strategy: MetaStrategy,
    pub theta: Vec<u64>,
    pub si_global: String,
    pub si_safe: String,
    pub risk_global: String,
    pub max_rpn: String,
    pub p_eff: String,
    pub most_critical: FailureMode,
}

/// The mean level of each component of the state, as numbers.
#[derive(Debug, PartialEq, Eq)]
pub struct Capabilities {
    pub d: String,
    pub m: String,
    pub r: String,
    pub a: String,
    pub c: String,
    pub v: String,
}

/// How the learning part of a step went; the measures are numbers.
#[derive(Debug, PartialEq, Eq)]
pub struct StepInfo {
    pub si_before: String,
    pub si_after: String,
    pub delta_norm: String,
    pub clamped_to_lambda: bool,
    pub backtracks: u32,
    pub step_factor: String,
}

/// The report of a step; the measures are numbers.
#[derive(Debug, PartialEq, Eq)]
pub struct StepReport {
    pub t: u64,
    pub si_global: String,
    pub delta_si: String,
    pub p_eff: String,
    pub state_norm: String,
    pub meta_delta_norm: String,
    pub appr: StepInfo,
    pub frac_limited_by_substrate: String,
    pub capabilities: Capabilities,
    pub risk_global: String,
    pub max_rpn: String,
    pub most_critical: FailureMode,
    pub si_safe: String,
    pub mitigation: Mitigation,
}

impl StepOutcome {
    /// The entry of the journal for a step that ends at `t`.
    pub open spec fn event_at(&self, t: u64) -> AuditEvent {
        AuditEvent {
            t,
            si_global: self.si_global,
            si_safe: self.si_safe,
            risk_global: self.risk_global,
            max_rpn: self.max_rpn,
            most_critical: self.most_critical.label(),
            strategy_id: fnv1a(FNV_OFFSET, words_as_bytes(self.theta@)),
            p_eff: self.p_eff,
        }
    }
}

impl RSIAgent {
    /// An agent without backends that revises its strategy and its substrate at every
    /// step.
    pub fn new(state: CognitiveState, substrate: Substrate, strategy: MetaStrategy) -> (r: Self)
        ensures
            r.current == (Checkpoint { t: 0, state, substrate, strategy }),
            !r.substrate_opt && r.memory is None && r.audit is None && !r.knowledge,
            r.meta_interval == 1 && r.substrate_interval == 1 && r.recall_k == 4,
            r.route_threshold.bits == 0x3fe0_0000_0000_0000,
            r.knowledge_rate.bits == 0x3fd0_0000_0000_0000,
            r.prev_pre_risk.nan(),
            r.risk_cfg == (RiskConfig {
                kappa: Measure { bits: 0x3fe0_0000_0000_0000 },
                rpn_max: Measure { bits: 0x3fd9_9999_9999_999a },
                risk_delta: Measure { bits: 0x3fb9_9999_9999_999a },
                active_response: true,
            }),
    {
        RSIAgent {
            current: Checkpoint { t: 0, state, substrate, strategy },
            substrate_opt: false,
            memory: None,
            risk_cfg: RiskConfig::default(),
            meta_interval: 1,
            substrate_interval: 1,
            route_threshold: Measure::from_bits(0x3fe0_0000_0000_0000),
            recall_k: 4,
            audit: None,
            knowledge: false,
            knowledge_rate: Measure::from_bits(0x3fd0_0000_0000_0000),
            prev_pre_risk: Measure::from_bits(0x7ff8_0000_0000_0000),
        }
    }

    pub fn with_knowledge(self) -> (r: Self)
        ensures
            r == (RSIAgent { knowledge: true, ..self }),
    {
        RSIAgent { knowledge: true, ..self }
    }

    pub fn with_audit(self, audit: HashChainLog) -> (r: Self)
        ensures
            r == (RSIAgent { audit: Some(audit), ..self }),
    {
        RSIAgent { audit: Some(audit), ..self }
    }

    pub fn with_substrate_improver(self) -> (r: Self)
        ensures
            r == (RSIAgent { substrate_opt: true, ..self }),
    {
        RSIAgent { substrate_opt: true, ..self }
    }

    /// Connects a memory that holds `len` contexts.
    pub fn with_memory(self, len: usize) -> (r: Self)
        ensures
            r == (RSIAgent { memory: Some(len), ..self }),
    {
        RSIAgent { memory: Some(len), ..self }
    }

    pub fn with_risk_config(self, cfg: RiskConfig) -> (r: Self)
        ensures
            r == (RSIAgent { risk_cfg: cfg, ..self }),
    {
        RSIAgent { risk_cfg: cfg, ..self }
    }

    /// The strategy is revised once in `interval` steps, at every step for 0.
    pub fn with_meta_interval(self, interval: u64) -> (r: Self)
        ensures
            r == (RSIAgent {
                meta_interval: if interval == 0 {
                    1
                } else {
                    interval
                },
                ..self
            }),
    {
        RSIAgent { meta_interval: if interval == 0 { 1 } else { interval }, ..self }
    }

    /// The routing threshold, brought between zero and one.
    pub fn with_route_threshold(self, threshold: Measure) -> (r: Self)
        ensures
            r == (RSIAgent {
                route_threshold: if threshold.below(Measure { bits: 0 }) {
                    Measure { bits: 0 }
                } else if (Measure { bits: 0x3ff0_0000_0000_0000 }).below(threshold) {
                    Measure { bits: 0x3ff0_0000_0000_0000 }
                } else {
                    threshold
                },
                ..self
            }),
    {
        let one: Measure = Measure::from_bits(0x3ff0_0000_0000_0000);
        let kept: Measure = if threshold.is_below(&Measure::zero()) {
            Measure::zero()
        } else if one.is_below(&threshold) {
            one
        } else {
            threshold
        };
        RSIAgent { route_threshold: kept, ..self }
    }

    /// The backends that are connected, in a fixed order.
    pub open spec fn backends(&self) -> Seq<&'static str> {
        (if self.substrate_opt {
            seq!["substrate_improver"]
        } else {
            seq![]
        }) + (if self.memory is Some {
            seq!["context_memory"]
        } else {
            seq![]
        }) + (if self.audit is Some {
            seq!["audit_log"]
        } else {
            seq![]
        }) + (if self.knowledge {
            seq!["knowledge_source"]
        } else {
            seq![]
        })
    }

    pub fn active_backends(&self) -> (r: Vec<&'static str>)
        ensures
            r@ == self.backends(),
    {
        let mut v: Vec<&'static str> = Vec::new();
        if self.substrate_opt {
            v.push("substrate_improver");
        }
        if self.memory.is_some() {
            v.push("context_memory");
        }
        if self.audit.is_some() {
            v.push("audit_log");
        }
        if self.knowledge {
            v.push("knowledge_source");
        }
        assert(v@ =~= self.backends());
        v
    }

    /// The head of the journal, where there is one.
    pub fn audit_head(&self) -> (r: Option<String>)
        ensures
            match (r, self.audit) {
                (Some(h), Some(log)) => h@ == head_of(log.chain()),
                (None, None) => true,
                _ => false,
            },
    {
        match &self.audit {
            Some(log) => Some(log.head()),
            None => None,
        }
    }

    /// The journal is intact; so is an agent without one.
    pub fn audit_verify(&self) -> (r: bool)
        ensures
            r == (self.audit matches Some(log) ==> log.is_valid()),
    {
        match &self.audit {
            Some(log) => log.verify(),
            None => true,
        }
    }

    /// The number of entries of the journal.
    pub fn audit_len(&self) -> (r: usize)
        ensures
            r == (match self.audit {
                Some(log) => log.chain().len(),
                None => 0,
            }),
    {
        match &self.audit {
            Some(log) => log.len(),
            None => 0,
        }
    }

    /// The number of contexts that the memory holds.
    pub fn memory_len(&self) -> (r: usize)
        ensures
            r == (match self.memory {
                Some(n) => n,
                None => 0,
            }),
    {
        match self.memory {
            Some(n) => n,
            None => 0,
        }
    }

    /// Which parts of the next step run before the risk is looked at.
    pub fn open_step(&self) -> (r: Opening)
        ensures
            r.absorb == self.knowledge,
            r.recall == (if self.memory is Some {
                Some(self.recall_k)
            } else {
                None
            }),
            r.revise == self.current.t.is_multiple_of(self.meta_interval),
    {
        Opening {
            absorb: self.knowledge,
            recall: if self.memory.is_some() { Some(self.recall_k) } else { None },
            revise: self.current.t.is_multiple_of(self.meta_interval),
        }
    }

    /// Answers the risk before a step. `risk_global` is that risk, and `rise` is by how
    /// much it exceeds the one before the last step.
    pub fn respond(&mut self, reading: &RiskReading, risk_global: Measure, rise: &Measure) -> (r: Response)
        ensures
            r == response_to(old(self).risk_cfg, old(self).prev_pre_risk, *reading, *rise),
            *final(self) == (RSIAgent { prev_pre_risk: risk_global, ..*old(self) }),
    {
        let active: bool = self.risk_cfg.active_response;
        let exceeded: bool = active && self.risk_cfg.rpn_max.is_below(&reading.max_rpn);
        let rising: bool = active && risk_velocity_exceeded(&self.prev_pre_risk, rise, &self.risk_cfg.risk_delta);
        let over: bool = exceeded || rising;
        self.prev_pre_risk = risk_global;
        let realign: bool = over && reading.most_critical == FailureMode::ValueDrift;
        let mitigation: Mitigation = if !over {
            Mitigation::Unneeded
        } else if realign {
            Mitigation::RealignV
        } else if exceeded {
            Mitigation::DampGain
        } else {
            Mitigation::DampRiskDelta
        };
        Response {
            over_threshold: over,
            realign,
            distrust: over && reading.most_critical == FailureMode::Wireheading,
            mitigation,
        }
    }

    /// The substrate is the constraint, the step is one at which it is improved, and
    /// there is something to improve it.
    pub fn routes_to_substrate(&self, limited: &Measure, mode: FailureMode) -> (r: bool)
        ensures
            r == (self.substrate_opt && (limited.reaches(self.route_threshold) || mode == FailureMode::SubstrateCollapse)
                && self.current.t.is_multiple_of(self.substrate_interval)),
    {
        self.substrate_opt && (limited.is_at_least(&self.route_threshold) || mode == FailureMode::SubstrateCollapse)
            && self.current.t.is_multiple_of(self.substrate_interval)
    }

    /// Ends a step: the new state is in place, the time has gone on by one, the journal
    /// has one more entry and the memory one more context.
    pub fn commit(&mut self, outcome: StepOutcome)
        requires
            old(self).current.t < u64::MAX,
            old(self).memory matches Some(n) ==> n < usize::MAX,
        ensures
            final(self).current == (Checkpoint {
                t: (old(self).current.t + 1) as u64,
                state: outcome.state,
                substrate: outcome.substrate,
                strategy: outcome.strategy,
            }),
            match (old(self).audit, final(self).audit) {
                (Some(before), Some(after)) => {
                    &&& after.key() == before.key()
                    &&& after.chain() == before.chain().push(
                        next_link(
                            before.key(),
                            before.chain(),
                            outcome.event_at((old(self).current.t + 1) as u64).text(),
                        ),
                    )
                    &&& before.is_valid() ==> after.is_valid()
                },
                (None, None) => true,
                _ => false,
            },
            match (old(self).memory, final(self).memory) {
                (Some(before), Some(after)) => after == before + 1,
                (None, None) => true,
                _ => false,
            },
            *final(self) == (RSIAgent {
                current: final(self).current,
                audit: final(self).audit,
                memory: final(self).memory,
                ..*old(self)
            }),
    {
        let t: u64 = self.current.t + 1;
        let ghost entry = outcome.event_at(t);
        let event = AuditEvent {
            t,
            si_global: outcome.si_global,
            si_safe: outcome.si_safe,
            risk_global: outcome.risk_global,
            max_rpn: outcome.max_rpn,
            most_critical: outcome.most_critical.name(),
            strategy_id: strategy_hash(outcome.theta.as_slice()),
            p_eff: outcome.p_eff,
        };
        assert(event == entry);
        self.current = Checkpoint {
            t,
            state: outcome.state,
            substrate: outcome.substrate,
            strategy: outcome.strategy,
        };
        match &mut self.audit {
            Some(log) => {
                let _ = log.record(&event);
            },
            None => {},
        }
        match self.memory {
            Some(n) => {
                self.memory = Some(n + 1);
            },
            None => {},
        }
    }

    /// A snapshot from which the agent can go on.
    pub fn snapshot(&self) -> (r: Checkpoint)
        ensures
            r@ == self.current@,
    {
        self.current.clone()
    }

    /// Goes back to a snapshot; journal, memory and settings stay.
    pub fn restore(&mut self, cp: &Checkpoint)
        ensures
            final(self).current@ == cp@,
            *final(self) == (RSIAgent { current: final(self).current, ..*old(self) }),
    {
        self.current.restore(cp);
    }

    /// Goes back to a snapshot of the same dimensions, and refuses any other.
    pub fn try_restore(&mut self, cp: &Checkpoint) -> (r: Result<(), String>)
        ensures
            match r {
                Ok(_) => fit(old(self).current@, cp@) is Ok && final(self).current@ == cp@,
                Err(e) => fit(old(self).current@, cp@) == Err::<(), Seq<char>>(e@) && final(self).current == old(
                    self,
                ).current,
            },
            *final(self) == (RSIAgent { current: final(self).current, ..*old(self) }),
    {
        self.current.try_restore(cp)
    }
}

// ---------------------------------------------------------------------------
// Laws
// ---------------------------------------------------------------------------

/// Risk is answered exactly when a limit is exceeded, and only where answers are
/// switched on.
pub proof fn law_risk_is_answered_when_over_threshold(
    cfg: RiskConfig,
    previous: Measure,
    reading: RiskReading,
    rise: Measure,
    measured: bool,
)
    ensures
        ({
            let r = response_to(cfg, previous, reading, rise);
            &&& (r.with_measure(measured) == Mitigation::Unneeded) == !r.over_threshold
            &&& r.over_threshold ==> cfg.active_response
            &&& cfg.active_response && cfg.rpn_max.below(reading.max_rpn) ==> r.over_threshold
        }),
{
}

/// The answer to a risk, case by case: a limit is the highest priority number or the rise
/// of the risk since a step before; over one of them, a drift of values is answered by
/// realigning, any other risk by damping, and a high number is named before a rise; a
/// measured efficiency under wireheading overrides the name.
pub proof fn law_answers_to_risk(cfg: RiskConfig, previous: Measure, reading: RiskReading, rise: Measure, measured: bool)
    ensures
        ({
            let r = response_to(cfg, previous, reading, rise);
            let high = cfg.active_response && cfg.rpn_max.below(reading.max_rpn);
            let fast = cfg.active_response && !previous.nan() && previous.finite() && cfg.risk_delta.below(rise);
            let drift = reading.most_critical == FailureMode::ValueDrift;
            let wire = reading.most_critical == FailureMode::Wireheading;
            &&& r.over_threshold <==> high || fast
            &&& r.realign <==> (high || fast) && drift
            &&& r.distrust <==> (high || fast) && wire
            &&& r.mitigation == Mitigation::RealignV <==> r.realign
            &&& r.mitigation == Mitigation::DampGain <==> high && !drift
            &&& r.mitigation == Mitigation::DampRiskDelta <==> fast && !high && !drift
            &&& r.mitigation != Mitigation::TrustFloor
            &&& r.with_measure(measured) == Mitigation::TrustFloor <==> r.distrust && measured
            &&& !(r.distrust && measured) ==> r.with_measure(measured) == r.mitigation
        }),
{
}

/// The usable places ascend, and are exactly those of the strategies that edit a vector of
/// the length.
pub proof fn law_usable_places(edit_lengths: Seq<Option<usize>>, length: usize)
    requires
        edit_lengths.len() <= usize::MAX,
    ensures
        forall|i: int, j: int|
            0 <= i < j < usable(edit_lengths, length).len() ==> usable(edit_lengths, length)[i] < usable(
                edit_lengths,
                length,
            )[j],
        forall|p: usize| #[trigger]
            usable(edit_lengths, length).contains(p) <==> p < edit_lengths.len() && edit_lengths[p as int] == Some(length),
    decreases edit_lengths.len(),
{
    if edit_lengths.len() > 0 {
        let front = edit_lengths.drop_last();
        let last = (edit_lengths.len() - 1) as usize;
        law_usable_places(front, length);
        let before = usable(front, length);
        let all = usable(edit_lengths, length);
        assert forall|p: usize| #[trigger] all.contains(p) <==> p < edit_lengths.len() && edit_lengths[p as int] == Some(
            length,
        ) by {
            assert(before.contains(p) <==> p < front.len() && front[p as int] == Some(length));
            if before.contains(p) {
                let k = choose|k: int| 0 <= k < before.len() && before[k] == p;
                assert(all[k] == p);
            }
            if all.contains(p) && p != last {
                let k = choose|k: int| 0 <= k < all.len() && all[k] == p;
                assert(before[k] == p);
            }
            if p == last && edit_lengths[last as int] == Some(length) {
                assert(all[before.len() as int] == p);
            }
        }
        assert forall|i: int, j: int| 0 <= i < j < all.len() implies all[i] < all[j] by {
            if j == before.len() {
                assert(before.contains(before[i]));
            }
        }
    }
}

/// Before the first step there is no rise to answer.
pub proof fn law_first_step_has_no_rise(rise: Measure, delta: Measure)
    ensures
        !rises_too_fast(Measure { bits: 0x7ff8_0000_0000_0000 }, rise, delta),
{
}

/// A step that answers no risk is kept only if it does not regress.
pub proof fn law_kept_step_does_not_regress(result: Measure, least: Measure, halvings: u32)
    ensures
        move_of(Mitigation::Unneeded, result, least, halvings) == GuardMove::Keep ==> !result.below(least),
        result.below(least) ==> move_of(Mitigation::Unneeded, result, least, halvings) != GuardMove::Keep,
{
}

/// Halving ends: after the last allowed one a step is kept or given up.
pub proof fn law_halving_ends(mitigation: Mitigation, result: Measure, least: Measure, halvings: u32)
    requires
        halvings >= MAX_HALVINGS,
    ensures
        move_of(mitigation, result, least, halvings) != GuardMove::Halve,
{
}

/// A step is given up only where its result still lies below the least tolerated one after
/// twenty halvings; a result that does not is kept at once, and one that does is halved
/// again.
pub proof fn law_steps_are_given_up_last(mitigation: Mitigation, result: Measure, least: Measure, halvings: u32)
    ensures
        move_of(mitigation, result, least, halvings) == GuardMove::StayPut <==> mitigation == Mitigation::Unneeded
            && result.below(least) && halvings >= 20,
        move_of(mitigation, result, least, halvings) == GuardMove::Halve <==> mitigation == Mitigation::Unneeded
            && result.below(least) && halvings < 20,
{
}

/// The hash of a strategy goes on byte by byte: from the offset of FNV-1a, each byte is
/// joined in by exclusive or, and the product with the prime is taken.
pub proof fn law_hash_is_fnv1a(start: u64, front: Seq<u8>, byte: u8, back: Seq<u8>)
    ensures
        fnv1a(start, Seq::empty()) == start,
        fnv1a(start, front.push(byte)) == (fnv1a(start, front) ^ (byte as u64)).wrapping_mul(0x100_0000_01b3),
        fnv1a(start, front + back) == fnv1a(fnv1a(start, front), back),
        FNV_OFFSET == 0xcbf2_9ce4_8422_2325,
{
    assert(front.push(byte).drop_last() =~= front);
    lemma_fnv1a_concat(start, front, back);
}

/// The bytes of a list of words hold each word in eight places, its lowest byte first.
pub proof fn law_words_stand_in_eight_bytes(words: Seq<u64>, i: int, k: nat)
    requires
        0 <= i < words.len(),
        k < 8,
    ensures
        words_as_bytes(words).len() == 8 * words.len(),
        words_as_bytes(words)[8 * i + k] as int == (words[i] as int / pow(256, k)) % 256,
    decreases words.len(),
{
    let front = words.drop_last();
    let word = words[i] as int;
    assert(0 <= (word / pow(256, k)) % 256 < 256);
    if front.len() > 0 {
        law_words_stand_in_eight_bytes(front, if i < front.len() { i } else { 0 }, k);
    } else {
        assert(words_as_bytes(front).len() == 0);
    }
    if i < front.len() {
        assert(front[i] == words[i]);
        assert(words_as_bytes(words)[8 * i + k] == words_as_bytes(front)[8 * i + k]);
    } else {
        assert(words_as_bytes(words)[8 * i + k] == little_endian(words.last())[k as int]);
    }
}

/// The journal entries of a run of steps that starts at time `t`.
pub open spec fn entries(t: u64, outcomes: Seq<StepOutcome>) -> Seq<Seq<char>> {
    Seq::new(outcomes.len(), |i: int| outcomes[i].event_at((t + i + 1) as u64).text())
}

/// The chain of a journal after a run of steps that starts at time `t`.
pub open spec fn journal(key: Option<Seq<u8>>, start: Seq<Link>, t: u64, outcomes: Seq<StepOutcome>) -> Seq<Link>
    decreases outcomes.len(),
{
    if outcomes.len() == 0 {
        start
    } else {
        let before = journal(key, start, t, outcomes.drop_last());
        before.push(next_link(key, before, outcomes.last().event_at((t + outcomes.len()) as u64).text()))
    }
}

/// The journal of a run from an empty one is the chain of its entries: the same steps
/// give the same journal and the same head.
pub proof fn law_journal_of_a_run(key: Option<Seq<u8>>, t: u64, outcomes: Seq<StepOutcome>)
    ensures
        journal(key, Seq::empty(), t, outcomes) == chain_of(key, entries(t, outcomes)),
    decreases outcomes.len(),
{
    let all = entries(t, outcomes);
    if outcomes.len() > 0 {
        law_journal_of_a_run(key, t, outcomes.drop_last());
        assert(all.drop_last() =~= entries(t, outcomes.drop_last()));
    } else {
        assert(all =~= Seq::empty());
    }
}

/// An interval is one at the least, and as given above; a threshold that is a number lies
/// between zero and one, and is as given there. Nothing else of the agent changes.
pub proof fn law_settings_of_an_agent(a: RSIAgent, interval: u64, often: RSIAgent, threshold: Measure, routed: RSIAgent)
    requires
        call_ensures(RSIAgent::with_meta_interval, (a, interval), often),
        call_ensures(RSIAgent::with_route_threshold, (a, threshold), routed),
    ensures
        often.meta_interval >= 1,
        interval >= 1 ==> often.meta_interval == interval,
        often == (RSIAgent { meta_interval: often.meta_interval, ..a }),
        !threshold.nan() ==> 0 <= routed.route_threshold.rank() <= 0x3ff0_0000_0000_0000,
        0 <= threshold.rank() <= 0x3ff0_0000_0000_0000 ==> routed.route_threshold == threshold,
        routed == (RSIAgent { route_threshold: routed.route_threshold, ..a }),
{
}

/// A step goes to the substrate only where that is switched on and at its turns, and there
/// exactly where what limits the agent reaches the threshold or the substrate collapses.
pub proof fn law_routes_to_the_substrate(a: RSIAgent, limited: Measure, mode: FailureMode, r: bool)
    requires
        call_ensures(RSIAgent::routes_to_substrate, (&a, &limited, mode), r),
    ensures
        r ==> a.substrate_opt,
        a.substrate_opt && a.current.t == 0 && mode is SubstrateCollapse ==> r,
        a.substrate_opt && a.current.t == 0 && !limited.nan() && !a.route_threshold.nan() && limited.rank()
            >= a.route_threshold.rank() ==> r,
        !(mode is SubstrateCollapse) && (limited.nan() || limited.rank() < a.route_threshold.rank()) ==> !r,
        a.substrate_interval > 0 && a.current.t % a.substrate_interval != 0 ==> !r,
{
}

} // verus!
