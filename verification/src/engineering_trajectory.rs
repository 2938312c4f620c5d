//! The record of one engineering attempt: what was tried on which state, by whom, with
//! what evidence, and what was decided.

use vstd::prelude::*;

use crate::checks::{and_then, check_all, lemma_check_all, lemma_check_step};
use crate::compatibility::CompatibilitySet;
use crate::fields::{digest_ok, is_digest, is_line, line_ok};
use crate::patchset::{check_operations, PatchSet, PatchSetError};
use crate::text::{texts, IntoText};

verus! {

/// Why a trajectory or one of its records was refused.
///
/// The parameter is the type of the texts it carries.
#[derive(Debug, Clone, PartialEq, Eq)]
pub enum EngineeringTrajectoryError<S = String> {
    EmptyField(&'static str),
    InvalidText { field: &'static str, value: S },
    InvalidDigest { field: &'static str, value: S },
    PatchSet(PatchSetError<S>),
    AcceptedButInadmissible,
}

/// A failure over mathematical texts.
pub type TrajectoryFailure = EngineeringTrajectoryError<Seq<char>>;

impl EngineeringTrajectoryError<String> {
    pub open spec fn view(&self) -> TrajectoryFailure {
        match self {
            EngineeringTrajectoryError::EmptyField(value) => EngineeringTrajectoryError::EmptyField(*value),
            EngineeringTrajectoryError::InvalidText { field, value } => EngineeringTrajectoryError::InvalidText { field: *field, value: value@ },
            EngineeringTrajectoryError::InvalidDigest { field, value } => EngineeringTrajectoryError::InvalidDigest { field: *field, value: value@ },
            EngineeringTrajectoryError::PatchSet(value) => EngineeringTrajectoryError::PatchSet(value@),
            EngineeringTrajectoryError::AcceptedButInadmissible => EngineeringTrajectoryError::AcceptedButInadmissible,
        }
    }

    /// The message shown to a user.
    pub fn to_string(&self) -> (r: String)
        ensures
            r@ == self@.message(),
    {
        match self {
            EngineeringTrajectoryError::EmptyField(value) => {
                let mut m = "trajectory field '".to_owned();
                m.append(*value);
                m.append("' is empty");
                m
            },
            EngineeringTrajectoryError::InvalidText { field, value } => {
                let mut m = "invalid trajectory text '".to_owned();
                m.append(*field);
                m.append("': '");
                m.append(value.as_str());
                m.append("'");
                m
            },
            EngineeringTrajectoryError::InvalidDigest { field, value } => {
                let mut m = "invalid trajectory SHA-256 '".to_owned();
                m.append(*field);
                m.append("': '");
                m.append(value.as_str());
                m.append("'");
                m
            },
            EngineeringTrajectoryError::PatchSet(value) => {
                let mut m = "invalid trajectory PatchSet: ".to_owned();
                m.append(value.to_string().as_str());
                m
            },
            EngineeringTrajectoryError::AcceptedButInadmissible => {
                "accepted trajectory does not pass every hard gate".to_owned()
            },
        }
    }
}

impl EngineeringTrajectoryError<Seq<char>> {
    pub open spec fn message(&self) -> Seq<char> {
        match self {
            EngineeringTrajectoryError::EmptyField(value) => "trajectory field '"@ + value@ + "' is empty"@,
            EngineeringTrajectoryError::InvalidText { field, value } => "invalid trajectory text '"@ + field@ + "': '"@ + *value + "'"@,
            EngineeringTrajectoryError::InvalidDigest { field, value } => "invalid trajectory SHA-256 '"@ + field@ + "': '"@ + *value + "'"@,
            EngineeringTrajectoryError::PatchSet(value) => "invalid trajectory PatchSet: "@ + value.message(),
            EngineeringTrajectoryError::AcceptedButInadmissible => "accepted trajectory does not pass every hard gate"@,
        }
    }
}

/// The outcome with its failure over mathematical texts.
pub open spec fn outcome<T>(r: Result<T, EngineeringTrajectoryError>) -> Result<T, TrajectoryFailure> {
    match r {
        Ok(t) => Ok(t),
        Err(e) => Err(e@),
    }
}

pub open spec fn check_text(field: &'static str, s: Seq<char>) -> Result<(), TrajectoryFailure> {
    if s.len() == 0 {
        Err(EngineeringTrajectoryError::EmptyField(field))
    } else if !is_line(s) {
        Err(EngineeringTrajectoryError::InvalidText { field, value: s })
    } else {
        Ok(())
    }
}

pub open spec fn check_digest(field: &'static str, s: Seq<char>) -> Result<(), TrajectoryFailure> {
    if is_digest(s) {
        Ok(())
    } else {
        Err(EngineeringTrajectoryError::InvalidDigest { field, value: s })
    }
}

fn validate_text(field: &'static str, value: &str) -> (r: Result<(), EngineeringTrajectoryError>)
    ensures
        outcome(r) == check_text(field, value@),
{
    if value.is_empty() {
        return Err(EngineeringTrajectoryError::EmptyField(field));
    }
    if !line_ok(value) {
        return Err(EngineeringTrajectoryError::InvalidText { field, value: value.to_owned() });
    }
    Ok(())
}

fn validate_digest(field: &'static str, value: &str) -> (r: Result<(), EngineeringTrajectoryError>)
    ensures
        outcome(r) == check_digest(field, value@),
{
    if !digest_ok(value) {
        return Err(EngineeringTrajectoryError::InvalidDigest { field, value: value.to_owned() });
    }
    Ok(())
}

fn validate_texts(field: &'static str, items: &[String]) -> (r: Result<(), EngineeringTrajectoryError>)
    ensures
        outcome(r) == check_all(texts(items@), |s: Seq<char>| check_text(field, s)),
{
    let ghost all = texts(items@);
    let ghost check = |s: Seq<char>| check_text(field, s);
    let mut i: usize = 0;
    assert(all.skip(0) =~= all);
    while i < items.len()
        invariant
            i <= items@.len(),
            all == texts(items@),
            check == (|s: Seq<char>| check_text(field, s)),
            check_all(all, check) == check_all(all.skip(i as int), check),
        decreases items@.len() - i,
    {
        proof {
            lemma_check_step(all, i as int, check);
        }
        validate_text(field, items[i].as_str())?;
        i += 1;
    }
    Ok(())
}

/// The outcome of one hard gate.
#[derive(Debug, Clone, Copy, PartialEq, Eq, Structural)]
pub enum GateStatus {
    Pass,
    Fail,
    Unknown,
}

impl GateStatus {
    pub open spec fn name(self) -> Seq<char> {
        match self {
            GateStatus::Pass => "pass"@,
            GateStatus::Fail => "fail"@,
            GateStatus::Unknown => "unknown"@,
        }
    }

    pub fn as_str(self) -> (r: &'static str)
        ensures
            r@ == self.name(),
    {
        match self {
            GateStatus::Pass => "pass",
            GateStatus::Fail => "fail",
            GateStatus::Unknown => "unknown",
        }
    }
}

/// The outcomes of the engineering hard gates.
#[derive(Debug, Clone, Copy, PartialEq, Eq, Structural)]
pub struct AdmissibilityBreakdown {
    pub build: GateStatus,
    pub required_tests: GateStatus,
    pub numerical_parity: GateStatus,
    pub provenance: GateStatus,
    pub deterministic_contract: GateStatus,
    pub resource_budget: GateStatus,
    pub policy_checks: GateStatus,
}

impl AdmissibilityBreakdown {
    /// Every gate passed.
    pub open spec fn all_pass(&self) -> bool {
        &&& self.build is Pass
        &&& self.required_tests is Pass
        &&& self.numerical_parity is Pass
        &&& self.provenance is Pass
        &&& self.deterministic_contract is Pass
        &&& self.resource_budget is Pass
        &&& self.policy_checks is Pass
    }

    pub fn is_admissible(&self) -> (r: bool)
        ensures
            r == self.all_pass(),
    {
        self.build == GateStatus::Pass && self.required_tests == GateStatus::Pass && self.numerical_parity
            == GateStatus::Pass && self.provenance == GateStatus::Pass && self.deterministic_contract == GateStatus::Pass
            && self.resource_budget == GateStatus::Pass && self.policy_checks == GateStatus::Pass
    }
}

#[derive(Debug, Clone, Copy, PartialEq, Eq, Structural)]
pub enum EngineeringVerdict {
    Accepted,
    Rejected,
}

/// Who proposed a candidate.
#[derive(Debug, Clone, PartialEq, Eq)]
pub struct ProposerMetadata {
    pub provider: String,
    pub model: String,
    pub configuration_id: String,
}

pub open spec fn check_proposer(provider: Seq<char>, model: Seq<char>, configuration_id: Seq<char>) -> Result<
    (),
    TrajectoryFailure,
> {
    and_then(
        check_text("proposer.provider", provider),
        and_then(check_text("proposer.model", model), check_text("proposer.configuration_id", configuration_id)),
    )
}

impl ProposerMetadata {
    pub fn new(provider: impl IntoText, model: impl IntoText, configuration_id: impl IntoText) -> (r: Result<
        Self,
        EngineeringTrajectoryError,
    >)
        ensures
            match r {
                Ok(p) => {
                    &&& check_proposer(provider.text(), model.text(), configuration_id.text()) is Ok
                    &&& p.provider@ == provider.text()
                    &&& p.model@ == model.text()
                    &&& p.configuration_id@ == configuration_id.text()
                },
                Err(e) => check_proposer(provider.text(), model.text(), configuration_id.text()) == Err::<
                    (),
                    TrajectoryFailure,
                >(e@),
            },
    {
        let p = ProposerMetadata {
            provider: provider.into_text(),
            model: model.into_text(),
            configuration_id: configuration_id.into_text(),
        };
        p.validate()?;
        Ok(p)
    }

    fn validate(&self) -> (r: Result<(), EngineeringTrajectoryError>)
        ensures
            outcome(r) == check_proposer(self.provider@, self.model@, self.configuration_id@),
    {
        validate_text("proposer.provider", self.provider.as_str())?;
        validate_text("proposer.model", self.model.as_str())?;
        validate_text("proposer.configuration_id", self.configuration_id.as_str())
    }
}

/// A measured quantity. Samples and summary are kept as the texts of their numbers.
#[derive(Debug, Clone, PartialEq, Eq)]
pub struct BenchmarkRecord {
    pub metric: String,
    pub unit: String,
    pub samples: Vec<String>,
    pub summary: String,
}

pub open spec fn check_benchmark(
    metric: Seq<char>,
    unit: Seq<char>,
    samples: Seq<Seq<char>>,
    summary: Seq<char>,
) -> Result<(), TrajectoryFailure> {
    and_then(
        check_text("benchmark.metric", metric),
        and_then(
            check_text("benchmark.unit", unit),
            if samples.len() == 0 {
                Err(EngineeringTrajectoryError::EmptyField("benchmark.samples"))
            } else {
                and_then(
                    check_all(samples, |s: Seq<char>| check_text("benchmark.samples", s)),
                    check_text("benchmark.summary", summary),
                )
            },
        ),
    )
}

impl BenchmarkRecord {
    pub open spec fn check(&self) -> Result<(), TrajectoryFailure> {
        check_benchmark(self.metric@, self.unit@, texts(self.samples@), self.summary@)
    }

    pub fn new(metric: impl IntoText, unit: impl IntoText, samples: Vec<String>, summary: impl IntoText) -> (r: Result<
        Self,
        EngineeringTrajectoryError,
    >)
        ensures
            match r {
                Ok(b) => {
                    &&& check_benchmark(metric.text(), unit.text(), texts(samples@), summary.text()) is Ok
                    &&& b.metric@ == metric.text()
                    &&& b.unit@ == unit.text()
                    &&& b.samples@ == samples@
                    &&& b.summary@ == summary.text()
                },
                Err(e) => check_benchmark(metric.text(), unit.text(), texts(samples@), summary.text()) == Err::<
                    (),
                    TrajectoryFailure,
                >(e@),
            },
    {
        let b = BenchmarkRecord {
            metric: metric.into_text(),
            unit: unit.into_text(),
            samples,
            summary: summary.into_text(),
        };
        b.validate()?;
        Ok(b)
    }

    fn validate(&self) -> (r: Result<(), EngineeringTrajectoryError>)
        ensures
            outcome(r) == self.check(),
    {
        validate_text("benchmark.metric", self.metric.as_str())?;
        validate_text("benchmark.unit", self.unit.as_str())?;
        if self.samples.len() == 0 {
            return Err(EngineeringTrajectoryError::EmptyField("benchmark.samples"));
        }
        validate_texts("benchmark.samples", self.samples.as_slice())?;
        validate_text("benchmark.summary", self.summary.as_str())
    }
}

/// What was said about the attempt after it was decided.
#[derive(Debug, Clone, PartialEq, Eq)]
pub struct LaterVerdict {
    pub source: String,
    pub accepted: bool,
    pub reason: String,
}

pub open spec fn check_later(source: Seq<char>, reason: Seq<char>) -> Result<(), TrajectoryFailure> {
    and_then(check_text("later_verdict.source", source), check_text("later_verdict.reason", reason))
}

impl LaterVerdict {
    pub open spec fn check(&self) -> Result<(), TrajectoryFailure> {
        check_later(self.source@, self.reason@)
    }

    pub fn new(source: impl IntoText, accepted: bool, reason: impl IntoText) -> (r: Result<Self, EngineeringTrajectoryError>)
        ensures
            match r {
                Ok(v) => {
                    &&& check_later(source.text(), reason.text()) is Ok
                    &&& v.source@ == source.text()
                    &&& v.accepted == accepted
                    &&& v.reason@ == reason.text()
                },
                Err(e) => check_later(source.text(), reason.text()) == Err::<(), TrajectoryFailure>(e@),
            },
    {
        let v = LaterVerdict { source: source.into_text(), accepted, reason: reason.into_text() };
        v.validate()?;
        Ok(v)
    }

    fn validate(&self) -> (r: Result<(), EngineeringTrajectoryError>)
        ensures
            outcome(r) == self.check(),
    {
        validate_text("later_verdict.source", self.source.as_str())?;
        validate_text("later_verdict.reason", self.reason.as_str())
    }
}

#[derive(Debug, Clone, PartialEq, Eq)]
pub struct EngineeringTrajectory {
    pub task_spec_id: String,
    pub compatibility: CompatibilitySet,
    pub parent_state_id: String,
    pub patch_set: PatchSet,
    pub proposer: ProposerMetadata,
    pub compiler_test_device_evidence: Vec<String>,
    pub admissibility: AdmissibilityBreakdown,
    pub benchmarks: Vec<BenchmarkRecord>,
    pub verdict: EngineeringVerdict,
    pub verdict_reason: String,
    pub later_verdicts: Vec<LaterVerdict>,
}

/// What does not change once the attempt is decided.
pub open spec fn check_decided(t: EngineeringTrajectory) -> Result<(), TrajectoryFailure> {
    and_then(
        check_digest("task_spec_id", t.task_spec_id@),
        and_then(
            check_digest("parent_state_id", t.parent_state_id@),
            match check_operations(t.patch_set.operations@) {
                Err(e) => Err(EngineeringTrajectoryError::PatchSet(e)),
                Ok(_) => and_then(
                    check_proposer(t.proposer.provider@, t.proposer.model@, t.proposer.configuration_id@),
                    and_then(
                        check_all(
                            texts(t.compiler_test_device_evidence@),
                            |s: Seq<char>| check_text("compiler_test_device_evidence", s),
                        ),
                        and_then(
                            check_all(t.benchmarks@, |b: BenchmarkRecord| b.check()),
                            and_then(
                                check_text("verdict_reason", t.verdict_reason@),
                                if t.verdict is Accepted && !t.admissibility.all_pass() {
                                    Err(EngineeringTrajectoryError::AcceptedButInadmissible)
                                } else {
                                    Ok(())
                                },
                            ),
                        ),
                    ),
                ),
            },
        ),
    )
}

/// Whether a trajectory is well formed, and why not.
pub open spec fn check_trajectory(t: EngineeringTrajectory) -> Result<(), TrajectoryFailure> {
    and_then(check_decided(t), check_all(t.later_verdicts@, |v: LaterVerdict| v.check()))
}

fn validate_benchmarks(items: &[BenchmarkRecord]) -> (r: Result<(), EngineeringTrajectoryError>)
    ensures
        outcome(r) == check_all(items@, |b: BenchmarkRecord| b.check()),
{
    let ghost all = items@;
    let ghost check = |b: BenchmarkRecord| b.check();
    let mut i: usize = 0;
    assert(all.skip(0) =~= all);
    while i < items.len()
        invariant
            i <= items@.len(),
            all == items@,
            check == (|b: BenchmarkRecord| b.check()),
            check_all(all, check) == check_all(all.skip(i as int), check),
        decreases items@.len() - i,
    {
        proof {
            lemma_check_step(all, i as int, check);
        }
        items[i].validate()?;
        i += 1;
    }
    Ok(())
}

fn validate_later_verdicts(items: &[LaterVerdict]) -> (r: Result<(), EngineeringTrajectoryError>)
    ensures
        outcome(r) == check_all(items@, |v: LaterVerdict| v.check()),
{
    let ghost all = items@;
    let ghost check = |v: LaterVerdict| v.check();
    let mut i: usize = 0;
    assert(all.skip(0) =~= all);
    while i < items.len()
        invariant
            i <= items@.len(),
            all == items@,
            check == (|v: LaterVerdict| v.check()),
            check_all(all, check) == check_all(all.skip(i as int), check),
        decreases items@.len() - i,
    {
        proof {
            lemma_check_step(all, i as int, check);
        }
        items[i].validate()?;
        i += 1;
    }
    Ok(())
}

impl EngineeringTrajectory {
    pub fn validate(&self) -> (r: Result<(), EngineeringTrajectoryError>)
        ensures
            outcome(r) == check_trajectory(*self),
    {
        validate_digest("task_spec_id", self.task_spec_id.as_str())?;
        validate_digest("parent_state_id", self.parent_state_id.as_str())?;
        match self.patch_set.validate() {
            Ok(_) => {},
            Err(e) => {
                return Err(EngineeringTrajectoryError::PatchSet(e));
            },
        }
        self.proposer.validate()?;
        validate_texts("compiler_test_device_evidence", self.compiler_test_device_evidence.as_slice())?;
        validate_benchmarks(self.benchmarks.as_slice())?;
        validate_text("verdict_reason", self.verdict_reason.as_str())?;
        if self.verdict == EngineeringVerdict::Accepted && !self.admissibility.is_admissible() {
            return Err(EngineeringTrajectoryError::AcceptedButInadmissible);
        }
        validate_later_verdicts(self.later_verdicts.as_slice())
    }
}

/// A trajectory is recorded exactly with the digests of its task and of its parent, with
/// well-formed operations, with a proposer, evidence, benchmarks and a reason that say what
/// they must, and, where it was accepted, with every hard gate passed.
pub proof fn law_recorded_trajectories(t: EngineeringTrajectory)
    ensures
        check_decided(t) is Ok <==> {
            &&& is_digest(t.task_spec_id@)
            &&& is_digest(t.parent_state_id@)
            &&& check_operations(t.patch_set.operations@) is Ok
            &&& t.proposer.provider@.len() > 0 && is_line(t.proposer.provider@)
            &&& t.proposer.model@.len() > 0 && is_line(t.proposer.model@)
            &&& t.proposer.configuration_id@.len() > 0 && is_line(t.proposer.configuration_id@)
            &&& forall|i: int|
                #![trigger t.compiler_test_device_evidence@[i]]
                0 <= i < t.compiler_test_device_evidence@.len() ==> t.compiler_test_device_evidence@[i]@.len() > 0
                    && is_line(t.compiler_test_device_evidence@[i]@)
            &&& forall|i: int| 0 <= i < t.benchmarks@.len() ==> is_told(#[trigger] t.benchmarks@[i])
            &&& t.verdict_reason@.len() > 0 && is_line(t.verdict_reason@)
            &&& t.verdict is Accepted ==> t.admissibility.build is Pass && t.admissibility.required_tests is Pass
                && t.admissibility.numerical_parity is Pass && t.admissibility.provenance is Pass
                && t.admissibility.deterministic_contract is Pass && t.admissibility.resource_budget is Pass
                && t.admissibility.policy_checks is Pass
        },
        check_trajectory(t) is Ok <==> check_decided(t) is Ok && forall|i: int|
            #![trigger t.later_verdicts@[i]]
            0 <= i < t.later_verdicts@.len() ==> t.later_verdicts@[i].source@.len() > 0 && is_line(
                t.later_verdicts@[i].source@,
            ) && t.later_verdicts@[i].reason@.len() > 0 && is_line(t.later_verdicts@[i].reason@),
{
    let evidence = texts(t.compiler_test_device_evidence@);
    let text_check = |s: Seq<char>| check_text("compiler_test_device_evidence", s);
    let benchmark_check = |b: BenchmarkRecord| b.check();
    let later_check = |v: LaterVerdict| v.check();
    lemma_check_all(evidence, text_check);
    lemma_check_all(t.benchmarks@, benchmark_check);
    lemma_check_all(t.later_verdicts@, later_check);
    assert(check_all(evidence, text_check) is Ok <==> forall|i: int|
        #![trigger t.compiler_test_device_evidence@[i]]
        0 <= i < t.compiler_test_device_evidence@.len() ==> t.compiler_test_device_evidence@[i]@.len() > 0 && is_line(
            t.compiler_test_device_evidence@[i]@,
        )) by {
        assert(forall|i: int| 0 <= i < evidence.len() ==> #[trigger] evidence[i] == t.compiler_test_device_evidence@[i]@);
        if check_all(evidence, text_check) is Ok {
            assert forall|i: int| #![trigger t.compiler_test_device_evidence@[i]] 0 <= i
                < t.compiler_test_device_evidence@.len() implies t.compiler_test_device_evidence@[i]@.len() > 0 && is_line(
                t.compiler_test_device_evidence@[i]@,
            ) by {
                assert(text_check(evidence[i]) is Ok);
            }
        }
    }
    assert(check_all(t.benchmarks@, benchmark_check) is Ok <==> forall|i: int|
        0 <= i < t.benchmarks@.len() ==> is_told(#[trigger] t.benchmarks@[i])) by {
        assert forall|i: int| 0 <= i < t.benchmarks@.len() implies (is_told(#[trigger] t.benchmarks@[i]) <==> benchmark_check(
            t.benchmarks@[i],
        ) is Ok) by {
            lemma_told(t.benchmarks@[i]);
        }
        if check_all(t.benchmarks@, benchmark_check) is Ok {
            assert forall|i: int| 0 <= i < t.benchmarks@.len() implies is_told(#[trigger] t.benchmarks@[i]) by {
                assert(benchmark_check(t.benchmarks@[i]) is Ok);
            }
        }
    }
    if check_all(t.later_verdicts@, later_check) is Ok {
        assert forall|i: int| #![trigger t.later_verdicts@[i]] 0 <= i < t.later_verdicts@.len() implies
            t.later_verdicts@[i].source@.len() > 0 && is_line(t.later_verdicts@[i].source@)
            && t.later_verdicts@[i].reason@.len() > 0 && is_line(t.later_verdicts@[i].reason@) by {
            assert(later_check(t.later_verdicts@[i]) is Ok);
        }
    }
}

/// A benchmark names its metric and its unit, has one or more samples, and says what they
/// come to.
pub open spec fn is_told(b: BenchmarkRecord) -> bool {
    &&& b.metric@.len() > 0 && is_line(b.metric@)
    &&& b.unit@.len() > 0 && is_line(b.unit@)
    &&& b.samples@.len() > 0
    &&& forall|i: int| #![trigger b.samples@[i]] 0 <= i < b.samples@.len() ==> b.samples@[i]@.len() > 0 && is_line(b.samples@[i]@)
    &&& b.summary@.len() > 0 && is_line(b.summary@)
}

proof fn lemma_told(b: BenchmarkRecord)
    ensures
        b.check() is Ok <==> is_told(b),
{
    let samples = texts(b.samples@);
    let check = |s: Seq<char>| check_text("benchmark.samples", s);
    lemma_check_all(samples, check);
    assert(forall|i: int| 0 <= i < samples.len() ==> #[trigger] samples[i] == b.samples@[i]@);
    if check_all(samples, check) is Ok {
        assert forall|i: int| #![trigger b.samples@[i]] 0 <= i < b.samples@.len() implies b.samples@[i]@.len() > 0 && is_line(
            b.samples@[i]@,
        ) by {
            assert(check(samples[i]) is Ok);
        }
    }
}

} // verus!
