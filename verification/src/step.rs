//! One step of an agent, as a dialogue between its decisions and the numeric side.
//!
//! The numeric side does what an action asks for and reports back with an event; the
//! decisions name the next action. A step absorbs knowledge, recalls and revises
//! strategies, assesses the risk, proposes a change, improves the substrate, learns, and
//! is halved as long as it regresses.

use vstd::prelude::*;

use crate::agent::{
    guard_move, keeps_power, law_usable_places, move_of, response_to, usable, usable_seeds, GuardMove, Mitigation, RSIAgent, Response, MAX_HALVINGS,
};
use crate::criticality::{FailureMode, RiskReading};
use crate::measure::Measure;

verus! {

/// How far a step has come: what is being waited for, with what was decided so far.
#[derive(Debug, Clone, Copy, PartialEq, Eq, Structural)]
pub enum Stage {
    Absorbing,
    Recalling,
    Seeding,
    Revising,
    Assessing,
    Proposing { response: Response, limited: Measure, mode: FailureMode },
    Improving { response: Response, rewritten: bool },
    Learning { response: Response, rewritten: bool, improved: bool },
    Halving { rewritten: bool, improved: bool, least: Measure, halvings: u32 },
    Done,
}

/// What the numeric side is to do. `rewritten` and `improved` say whether the substrate
/// is the one that the strategy rewrote, and whether its improvement is taken.
#[derive(Debug, PartialEq, Eq)]
pub enum Action<V = Vec<usize>> {
    Absorb,
    Recall(usize),
    /// Start from the recalled strategies at these places.
    Seed(V),
    Revise,
    Assess,
    /// Apply the strategy, with half its gain where it is damped.
    Propose { damped: bool, realign: bool },
    Improve { rewritten: bool },
    Learn { rewritten: bool, improved: bool, distrust: bool },
    /// Take half the way from the state before the step.
    Halve,
    /// End the step; one that stays put keeps the state before it.
    Commit { rewritten: bool, improved: bool, mitigation: Mitigation, stay: bool },
    /// The event does not belong to the stage.
    Refuse,
}

impl Action {
    pub open spec fn view(&self) -> Action<Seq<usize>> {
        match *self {
            Action::Absorb => Action::Absorb,
            Action::Recall(k) => Action::Recall(k),
            Action::Seed(places) => Action::Seed(places@),
            Action::Revise => Action::Revise,
            Action::Assess => Action::Assess,
            Action::Propose { damped, realign } => Action::Propose { damped, realign },
            Action::Improve { rewritten } => Action::Improve { rewritten },
            Action::Learn { rewritten, improved, distrust } => Action::Learn { rewritten, improved, distrust },
            Action::Halve => Action::Halve,
            Action::Commit { rewritten, improved, mitigation, stay } => Action::Commit { rewritten, improved, mitigation, stay },
            Action::Refuse => Action::Refuse,
        }
    }
}

/// What the numeric side reports.
#[derive(Debug, PartialEq, Eq)]
pub enum Event {
    Absorbed,
    /// The lengths of the software edits of the recalled strategies, none where one could
    /// not be decoded, and the length of the software vector.
    Recalled { edit_lengths: Vec<Option<usize>>, length: usize },
    Seeded,
    Revised,
    /// The risk before the change, by how much it rose since the last step, and the share
    /// of tasks that the substrate holds back.
    Assessed { reading: RiskReading, risk_global: Measure, rise: Measure, limited: Measure },
    /// The effective power of the rewritten substrate and of the current one.
    Proposed { rewritten: Measure, current: Measure },
    /// The effective power with and without the improvement.
    Improved { improved: Measure, before: Measure },
    /// Whether the substrate holds a measured efficiency, the intelligence after the step
    /// and the least that is tolerated.
    Learned { measured: bool, result: Measure, least: Measure },
    Halved { result: Measure },
}

// ---------------------------------------------------------------------------
// The course of a step
// ---------------------------------------------------------------------------

/// After the memory: the strategy is revised when its turn has come.
pub open spec fn towards_revision(a: RSIAgent) -> (Stage, Action<Seq<usize>>) {
    if a.current.t.is_multiple_of(a.meta_interval) {
        (Stage::Revising, Action::Revise)
    } else {
        (Stage::Assessing, Action::Assess)
    }
}

/// After the knowledge: an agent with a memory recalls.
pub open spec fn towards_recall(a: RSIAgent) -> (Stage, Action<Seq<usize>>) {
    if a.memory is Some {
        (Stage::Recalling, Action::Recall(a.recall_k))
    } else {
        towards_revision(a)
    }
}

/// How a step begins.
pub open spec fn first(a: RSIAgent) -> (Stage, Action<Seq<usize>>) {
    if a.knowledge {
        (Stage::Absorbing, Action::Absorb)
    } else {
        towards_recall(a)
    }
}

/// The substrate is improved when it is the constraint, when its turn has come, and when
/// there is something to improve it.
pub open spec fn is_routed(a: RSIAgent, limited: Measure, mode: FailureMode) -> bool {
    a.substrate_opt && (limited.reaches(a.route_threshold) || mode == FailureMode::SubstrateCollapse)
        && a.current.t.is_multiple_of(a.substrate_interval)
}

pub open spec fn towards_learning(response: Response, rewritten: bool, improved: bool) -> (Stage, Action<Seq<usize>>) {
    (
        Stage::Learning { response, rewritten, improved },
        Action::Learn { rewritten, improved, distrust: response.distrust },
    )
}

/// After the intelligence of the step is known.
pub open spec fn guarded(
    mitigation: Mitigation,
    rewritten: bool,
    improved: bool,
    result: Measure,
    least: Measure,
    halvings: u32,
) -> (Stage, Action<Seq<usize>>) {
    match move_of(mitigation, result, least, halvings) {
        GuardMove::Keep => (Stage::Done, Action::Commit { rewritten, improved, mitigation, stay: false }),
        GuardMove::Halve => (
            Stage::Halving { rewritten, improved, least, halvings: (halvings + 1) as u32 },
            Action::Halve,
        ),
        GuardMove::StayPut => (Stage::Done, Action::Commit { rewritten, improved, mitigation, stay: true }),
    }
}

/// The stage and the action after an event.
pub open spec fn next(a: RSIAgent, at: Stage, event: Event) -> (Stage, Action<Seq<usize>>) {
    match (at, event) {
        (Stage::Absorbing, Event::Absorbed) => towards_recall(a),
        (Stage::Recalling, Event::Recalled { edit_lengths, length }) => {
            let seeds = usable(edit_lengths@, length);
            if seeds.len() > 0 {
                (Stage::Seeding, Action::Seed(seeds))
            } else {
                towards_revision(a)
            }
        },
        (Stage::Seeding, Event::Seeded) => towards_revision(a),
        (Stage::Revising, Event::Revised) => (Stage::Assessing, Action::Assess),
        (Stage::Assessing, Event::Assessed { reading, risk_global, rise, limited }) => {
            let response = response_to(a.risk_cfg, a.prev_pre_risk, reading, rise);
            (
                Stage::Proposing { response, limited, mode: reading.most_critical },
                Action::Propose { damped: response.over_threshold, realign: response.realign },
            )
        },
        (Stage::Proposing { response, limited, mode }, Event::Proposed { rewritten, current }) => {
            let kept = rewritten.reaches(current);
            if is_routed(a, limited, mode) {
                (Stage::Improving { response, rewritten: kept }, Action::Improve { rewritten: kept })
            } else {
                towards_learning(response, kept, false)
            }
        },
        (Stage::Improving { response, rewritten }, Event::Improved { improved, before }) => towards_learning(
            response,
            rewritten,
            improved.reaches(before),
        ),
        (Stage::Learning { response, rewritten, improved }, Event::Learned { measured, result, least }) => guarded(
            response.with_measure(measured),
            rewritten,
            improved,
            result,
            least,
            0,
        ),
        (Stage::Halving { rewritten, improved, least, halvings }, Event::Halved { result }) => guarded(
            Mitigation::Unneeded,
            rewritten,
            improved,
            result,
            least,
            halvings,
        ),
        _ => (at, Action::Refuse),
    }
}

/// The agent after an event: it remembers the risk that was assessed.
pub open spec fn informed(a: RSIAgent, at: Stage, event: Event) -> RSIAgent {
    match (at, event) {
        (Stage::Assessing, Event::Assessed { reading, risk_global, rise, limited }) => RSIAgent { prev_pre_risk: risk_global, ..a },
        _ => a,
    }
}

fn guard(mitigation: Mitigation, rewritten: bool, improved: bool, result: &Measure, least: &Measure, halvings: u32) -> (r: (
    Stage,
    Action,
))
    ensures
        (r.0, r.1@) == guarded(mitigation, rewritten, improved, *result, *least, halvings),
{
    match guard_move(mitigation, result, least, halvings) {
        GuardMove::Keep => (Stage::Done, Action::Commit { rewritten, improved, mitigation, stay: false }),
        GuardMove::Halve => (
            Stage::Halving { rewritten, improved, least: *least, halvings: halvings + 1 },
            Action::Halve,
        ),
        GuardMove::StayPut => (Stage::Done, Action::Commit { rewritten, improved, mitigation, stay: true }),
    }
}

impl RSIAgent {
    fn go_to_revision(&self) -> (r: (Stage, Action))
        ensures
            (r.0, r.1@) == towards_revision(*self),
    {
        if self.open_step().revise {
            (Stage::Revising, Action::Revise)
        } else {
            (Stage::Assessing, Action::Assess)
        }
    }

    fn go_to_recall(&self) -> (r: (Stage, Action))
        ensures
            (r.0, r.1@) == towards_recall(*self),
    {
        match self.open_step().recall {
            Some(k) => (Stage::Recalling, Action::Recall(k)),
            None => self.go_to_revision(),
        }
    }

    /// Begins a step.
    pub fn begin_step(&self) -> (r: (Stage, Action))
        ensures
            (r.0, r.1@) == first(*self),
    {
        if self.open_step().absorb {
            (Stage::Absorbing, Action::Absorb)
        } else {
            self.go_to_recall()
        }
    }

    /// Goes on with a step after an event. An event that does not belong to the stage
    /// changes nothing.
    pub fn step(&mut self, at: Stage, event: &Event) -> (r: (Stage, Action))
        ensures
            (r.0, r.1@) == next(*old(self), at, *event),
            *final(self) == informed(*old(self), at, *event),
    {
        match (at, event) {
            (Stage::Absorbing, Event::Absorbed) => self.go_to_recall(),
            (Stage::Recalling, Event::Recalled { edit_lengths, length }) => {
                let seeds = usable_seeds(edit_lengths.as_slice(), *length);
                if seeds.len() > 0 {
                    (Stage::Seeding, Action::Seed(seeds))
                } else {
                    self.go_to_revision()
                }
            },
            (Stage::Seeding, Event::Seeded) => self.go_to_revision(),
            (Stage::Revising, Event::Revised) => (Stage::Assessing, Action::Assess),
            (Stage::Assessing, Event::Assessed { reading, risk_global, rise, limited }) => {
                let response = self.respond(reading, *risk_global, rise);
                (
                    Stage::Proposing { response, limited: *limited, mode: reading.most_critical },
                    Action::Propose { damped: response.over_threshold, realign: response.realign },
                )
            },
            (Stage::Proposing { response, limited, mode }, Event::Proposed { rewritten, current }) => {
                let kept: bool = keeps_power(rewritten, current);
                if self.routes_to_substrate(&limited, mode) {
                    (Stage::Improving { response, rewritten: kept }, Action::Improve { rewritten: kept })
                } else {
                    (
                        Stage::Learning { response, rewritten: kept, improved: false },
                        Action::Learn { rewritten: kept, improved: false, distrust: response.distrust },
                    )
                }
            },
            (Stage::Improving { response, rewritten }, Event::Improved { improved, before }) => {
                let taken: bool = keeps_power(improved, before);
                (
                    Stage::Learning { response, rewritten, improved: taken },
                    Action::Learn { rewritten, improved: taken, distrust: response.distrust },
                )
            },
            (Stage::Learning { response, rewritten, improved }, Event::Learned { measured, result, least }) => guard(
                response.settled(*measured),
                rewritten,
                improved,
                result,
                least,
                0,
            ),
            (Stage::Halving { rewritten, improved, least, halvings }, Event::Halved { result }) => guard(
                Mitigation::Unneeded,
                rewritten,
                improved,
                result,
                &least,
                halvings,
            ),
            _ => (at, Action::Refuse),
        }
    }
}

// ---------------------------------------------------------------------------
// Laws
// ---------------------------------------------------------------------------

/// How many events a stage is away from the end of the step, at the most.
pub open spec fn events_left(at: Stage) -> nat {
    match at {
        Stage::Absorbing => (MAX_HALVINGS + 8) as nat,
        Stage::Recalling => (MAX_HALVINGS + 7) as nat,
        Stage::Seeding => (MAX_HALVINGS + 6) as nat,
        Stage::Revising => (MAX_HALVINGS + 5) as nat,
        Stage::Assessing => (MAX_HALVINGS + 4) as nat,
        Stage::Proposing { .. } => (MAX_HALVINGS + 3) as nat,
        Stage::Improving { .. } => (MAX_HALVINGS + 2) as nat,
        Stage::Learning { .. } => (MAX_HALVINGS + 1) as nat,
        Stage::Halving { halvings, .. } => if halvings <= MAX_HALVINGS {
            (MAX_HALVINGS - halvings + 1) as nat
        } else {
            1
        },
        Stage::Done => 0,
    }
}

/// Every step ends: each event that belongs to its stage brings the end nearer, and the
/// end is reached with a commit alone.
pub proof fn law_step_ends(a: RSIAgent, at: Stage, event: Event)
    ensures
        ({
            let (to, action) = next(a, at, event);
            &&& action !is Refuse ==> events_left(to) < events_left(at)
            &&& action !is Refuse ==> (action is Commit) == (to is Done)
            &&& action is Refuse ==> to == at
        }),
{
}

/// A step that answers no risk never ends below the least tolerated intelligence: it
/// commits such a result only by staying put.
pub proof fn law_step_does_not_regress(a: RSIAgent, at: Stage, event: Event)
    ensures
        next(a, at, event).1 matches Action::Commit { mitigation, stay, .. } ==> mitigation == Mitigation::Unneeded && !stay ==> (
        match (at, event) {
            (Stage::Learning { .. }, Event::Learned { result, least, .. }) => !result.below(least),
            (Stage::Halving { least, .. }, Event::Halved { result }) => !result.below(least),
            _ => false,
        }),
{
}

/// No change is proposed, learned or committed before the risk was assessed, and an
/// agent that answers risk damps every proposal over the threshold.
pub proof fn law_risk_is_assessed_first(a: RSIAgent, at: Stage, event: Event)
    ensures
        next(a, at, event).1 is Propose ==> at is Assessing && event is Assessed,
        next(a, at, event).1 matches Action::Propose { damped, .. } ==> (event matches Event::Assessed { reading, .. }
            && a.risk_cfg.active_response && a.risk_cfg.rpn_max.below(reading.max_rpn) ==> damped),
        next(a, at, event).1 is Learn ==> at is Proposing || at is Improving,
        next(a, at, event).1 is Commit ==> at is Learning || at is Halving,
        !(first(a).1 is Propose || first(a).1 is Learn || first(a).1 is Commit),
{
}

/// Neither a rewrite nor an improvement that lowers the effective power is taken.
pub proof fn law_power_is_kept(a: RSIAgent, at: Stage, event: Event)
    ensures
        (at is Proposing && (event matches Event::Proposed { rewritten, current } && !rewritten.reaches(current))) ==> (
        match next(a, at, event).1 {
            Action::Improve { rewritten } => !rewritten,
            Action::Learn { rewritten, .. } => !rewritten,
            _ => false,
        }),
        (at is Improving && (event matches Event::Improved { improved, before } && !improved.reaches(before))) ==> (
        next(a, at, event).1 matches Action::Learn { improved, .. } && !improved),
        (at matches Stage::Learning { rewritten: r, improved: i, .. } ==> match next(a, at, event).1 {
            Action::Commit { rewritten, improved, .. } => rewritten == r && improved == i,
            _ => true,
        }),
        (at matches Stage::Halving { rewritten: r, improved: i, .. } ==> match next(a, at, event).1 {
            Action::Commit { rewritten, improved, .. } => rewritten == r && improved == i,
            _ => true,
        }),
{
}

/// What the guard on regressions does. A step that answers a risk is committed as it is.
/// Any other is committed, and moves the state, as soon as a reported result does not lie
/// below the least tolerated one; a result below it has the step halved, and after twenty
/// halvings the step stays put. Nothing else halves, commits or stays put.
pub proof fn law_regressing_steps_are_halved(a: RSIAgent, at: Stage, event: Event)
    ensures
        match (at, event) {
            (Stage::Learning { response, rewritten, improved }, Event::Learned { measured, result, least }) => {
                let trusted = response.distrust && measured;
                let answered = trusted || response.mitigation != Mitigation::Unneeded;
                &&& result.below(least) && !answered <==> next(a, at, event).1 is Halve
                &&& next(a, at, event).1 is Halve ==> next(a, at, event).0 == (Stage::Halving {
                    rewritten,
                    improved,
                    least,
                    halvings: 1,
                })
                &&& next(a, at, event).1 !is Halve ==> next(a, at, event) == (
                    Stage::Done,
                    Action::<Seq<usize>>::Commit {
                        rewritten,
                        improved,
                        mitigation: if trusted {
                            Mitigation::TrustFloor
                        } else {
                            response.mitigation
                        },
                        stay: false,
                    },
                )
            },
            (Stage::Halving { rewritten, improved, least, halvings }, Event::Halved { result }) => {
                &&& result.below(least) && halvings < 20 ==> next(a, at, event) == (
                    Stage::Halving { rewritten, improved, least, halvings: (halvings + 1) as u32 },
                    Action::<Seq<usize>>::Halve,
                )
                &&& !(result.below(least) && halvings < 20) ==> next(a, at, event) == (
                    Stage::Done,
                    Action::<Seq<usize>>::Commit {
                        rewritten,
                        improved,
                        mitigation: Mitigation::Unneeded,
                        stay: result.below(least),
                    },
                )
            },
            _ => next(a, at, event).1 !is Halve && next(a, at, event).1 !is Commit,
        },
{
}

/// The stage and the last action after a list of events.
pub open spec fn played(a: RSIAgent, at: Stage, events: Seq<Event>) -> (Stage, Action<Seq<usize>>)
    decreases events.len(),
{
    if events.len() == 0 {
        (at, Action::Refuse)
    } else {
        let before = played(a, at, events.drop_last()).0;
        next(a, before, events.last())
    }
}

/// The results of a step and of its halvings, as they are reported to a step that answers
/// no risk.
pub open spec fn reports(results: Seq<Measure>, least: Measure) -> Seq<Event> {
    Seq::new(
        results.len(),
        |i: int|
            if i == 0 {
                Event::Learned { measured: false, result: results[0], least }
            } else {
                Event::Halved { result: results[i] }
            },
    )
}

/// A step that answers no risk ends at the first of its results that is not below the
/// least tolerated one, and moves the state there; where the step and twenty halvings of
/// it all lie below, it ends with the last of them and stays put.
pub proof fn law_step_ends_at_its_first_held_result(
    a: RSIAgent,
    response: Response,
    rewritten: bool,
    improved: bool,
    results: Seq<Measure>,
    least: Measure,
)
    requires
        1 <= results.len() <= 21,
        response.mitigation == Mitigation::Unneeded,
        forall|i: int| 0 <= i < results.len() - 1 ==> (#[trigger] results[i]).below(least),
    ensures
        ({
            let end = played(a, Stage::Learning { response, rewritten, improved }, reports(results, least));
            let last = results.last();
            &&& !last.below(least) ==> end == (
                Stage::Done,
                Action::<Seq<usize>>::Commit { rewritten, improved, mitigation: Mitigation::Unneeded, stay: false },
            )
            &&& last.below(least) && results.len() == 21 ==> end == (
                Stage::Done,
                Action::<Seq<usize>>::Commit { rewritten, improved, mitigation: Mitigation::Unneeded, stay: true },
            )
            &&& last.below(least) && results.len() < 21 ==> end == (
                Stage::Halving { rewritten, improved, least, halvings: results.len() as u32 },
                Action::<Seq<usize>>::Halve,
            )
        }),
    decreases results.len(),
{
    let start = Stage::Learning { response, rewritten, improved };
    let events = reports(results, least);
    let front = results.drop_last();
    assert(events.drop_last() =~= reports(front, least));
    if results.len() == 1 {
        assert(events.drop_last().len() == 0);
        assert(played(a, start, events.drop_last()).0 == start);
        law_regressing_steps_are_halved(a, start, events.last());
    } else {
        assert(front.last() == results[results.len() - 2]);
        assert forall|i: int| 0 <= i < front.len() - 1 implies (#[trigger] front[i]).below(least) by {
            assert(front[i] == results[i]);
        }
        law_step_ends_at_its_first_held_result(a, response, rewritten, improved, front, least);
        law_regressing_steps_are_halved(a, played(a, start, events.drop_last()).0, events.last());
    }
}

/// A turn comes at every multiple of an interval.
pub open spec fn is_due(t: u64, interval: u64) -> bool {
    exists|k: int| t == #[trigger] (k * interval)
}

proof fn lemma_due(t: u64, interval: u64)
    requires
        interval > 0,
    ensures
        t.is_multiple_of(interval) == is_due(t, interval),
{
    if t.is_multiple_of(interval) {
        let k = t as int / interval as int;
        vstd::arithmetic::div_mod::lemma_fundamental_div_mod(t as int, interval as int);
        assert(t == k * interval) by (nonlinear_arith)
            requires
                t as int == interval as int * k,
        ;
    }
    if is_due(t, interval) {
        let k = choose|k: int| t == #[trigger] (k * interval);
        vstd::arithmetic::div_mod::lemma_mod_multiples_basic(k, interval as int);
    }
}

/// The parts that open a step run in their order, each exactly where it has its reason:
/// knowledge is absorbed where there is a source, contexts are recalled where there is a
/// memory, what was recalled seeds the revision where some of it fits, the strategy is
/// revised where its turn has come, and then the risk is assessed.
pub proof fn law_opening_of_a_step(a: RSIAgent, at: Stage, event: Event)
    requires
        a.meta_interval > 0,
    ensures
        ({
            let due = is_due(a.current.t, a.meta_interval);
            let revision = |r: (Stage, Action<Seq<usize>>)|
                {
                    &&& due ==> r == (Stage::Revising, Action::<Seq<usize>>::Revise)
                    &&& !due ==> r == (Stage::Assessing, Action::<Seq<usize>>::Assess)
                };
            let recall = |r: (Stage, Action<Seq<usize>>)|
                {
                    &&& a.memory is Some ==> r == (Stage::Recalling, Action::<Seq<usize>>::Recall(a.recall_k))
                    &&& a.memory is None ==> revision(r)
                };
            &&& a.knowledge ==> first(a) == (Stage::Absorbing, Action::<Seq<usize>>::Absorb)
            &&& !a.knowledge ==> recall(first(a))
            &&& at is Absorbing && event is Absorbed ==> recall(next(a, at, event))
            &&& at is Seeding && event is Seeded ==> revision(next(a, at, event))
            &&& at is Revising && event is Revised ==> next(a, at, event) == (
                Stage::Assessing,
                Action::<Seq<usize>>::Assess,
            )
            &&& at is Recalling ==> (event matches Event::Recalled { edit_lengths, length } ==> {
                let fits = exists|i: int| 0 <= i < edit_lengths@.len() && #[trigger] edit_lengths@[i] == Some(length);
                &&& fits ==> next(a, at, event).0 is Seeding && (next(a, at, event).1 matches Action::Seed(places)
                    && places.len() > 0 && forall|k: int|
                    0 <= k < places.len() ==> (#[trigger] places[k]) < edit_lengths@.len()
                        && edit_lengths@[places[k] as int] == Some(length))
                &&& !fits ==> revision(next(a, at, event))
            })
        }),
{
    lemma_due(a.current.t, a.meta_interval);
    if let Event::Recalled { edit_lengths, length } = event {
        assert(edit_lengths.len() == edit_lengths@.len());
        law_usable_places(edit_lengths@, length);
        let places = usable(edit_lengths@, length);
        let fits = exists|i: int| 0 <= i < edit_lengths@.len() && #[trigger] edit_lengths@[i] == Some(length);
        if fits {
            let i = choose|i: int| 0 <= i < edit_lengths@.len() && #[trigger] edit_lengths@[i] == Some(length);
            assert(places.contains(i as usize));
        }
        if places.len() > 0 {
            assert(places.contains(places[0]));
        }
        assert forall|k: int| 0 <= k < places.len() implies (#[trigger] places[k]) < edit_lengths@.len()
            && edit_lengths@[places[k] as int] == Some(length) by {
            assert(places.contains(places[k]));
        }
    }
}

/// Between the risk and the guard: what was assessed sets how the change is proposed and is
/// carried along; the substrate is improved exactly where it holds enough tasks back or is
/// the most critical part, where its turn has come, and where there is something to improve
/// it; a rewrite or an improvement is taken exactly where the effective power does not
/// fall; and a wireheading answer is learned with distrust.
pub proof fn law_course_between_risk_and_guard(a: RSIAgent, at: Stage, event: Event)
    requires
        a.substrate_interval > 0,
    ensures
        match (at, event) {
            (Stage::Assessing, Event::Assessed { reading, risk_global, rise, limited }) => {
                let over = a.risk_cfg.active_response && (a.risk_cfg.rpn_max.below(reading.max_rpn) || (
                a.prev_pre_risk.finite() && a.risk_cfg.risk_delta.below(rise)));
                &&& next(a, at, event).1 == (Action::<Seq<usize>>::Propose {
                    damped: over,
                    realign: over && reading.most_critical == FailureMode::ValueDrift,
                })
                &&& next(a, at, event).0 matches Stage::Proposing { response, limited: l, mode }
                &&& l == limited && mode == reading.most_critical
                &&& response.over_threshold == over
                &&& response.distrust == (over && reading.most_critical == FailureMode::Wireheading)
                &&& (response.mitigation == Mitigation::Unneeded) == !over
            },
            (Stage::Proposing { response, limited, mode }, Event::Proposed { rewritten, current }) => {
                let critical = limited.reaches(a.route_threshold) || mode == FailureMode::SubstrateCollapse;
                let kept = rewritten.reaches(current);
                &&& critical && is_due(a.current.t, a.substrate_interval) && a.substrate_opt ==> next(a, at, event) == (
                    Stage::Improving { response, rewritten: kept },
                    Action::<Seq<usize>>::Improve { rewritten: kept },
                )
                &&& !(critical && is_due(a.current.t, a.substrate_interval) && a.substrate_opt) ==> next(a, at, event) == (
                    Stage::Learning { response, rewritten: kept, improved: false },
                    Action::<Seq<usize>>::Learn { rewritten: kept, improved: false, distrust: response.distrust },
                )
            },
            (Stage::Improving { response, rewritten }, Event::Improved { improved, before }) => next(a, at, event) == (
                Stage::Learning { response, rewritten, improved: improved.reaches(before) },
                Action::<Seq<usize>>::Learn {
                    rewritten,
                    improved: improved.reaches(before),
                    distrust: response.distrust,
                },
            ),
            _ => next(a, at, event).1 !is Propose && next(a, at, event).1 !is Improve && next(a, at, event).1 !is Learn,
        },
{
    lemma_due(a.current.t, a.substrate_interval);
    if let Event::Recalled { edit_lengths, length } = event {
        assert(next(a, at, event).1 !is Learn);
    }
}

/// An event that no stage waits for is refused, and one that its stage waits for is not.
pub proof fn law_only_awaited_events_count(a: RSIAgent, at: Stage, event: Event)
    ensures
        next(a, at, event).1 !is Refuse <==> {
            ||| at is Absorbing && event is Absorbed
            ||| at is Recalling && event is Recalled
            ||| at is Seeding && event is Seeded
            ||| at is Revising && event is Revised
            ||| at is Assessing && event is Assessed
            ||| at is Proposing && event is Proposed
            ||| at is Improving && event is Improved
            ||| at is Learning && event is Learned
            ||| at is Halving && event is Halved
        },
{
}

/// Of an agent, an event changes the remembered risk alone, and that to the risk that was
/// assessed.
pub proof fn law_events_leave_the_agent(a: RSIAgent, at: Stage, event: Event)
    ensures
        informed(a, at, event).current == a.current && informed(a, at, event).audit == a.audit && informed(a, at, event).memory
            == a.memory && informed(a, at, event).risk_cfg == a.risk_cfg,
        at is Assessing ==> (event matches Event::Assessed { risk_global, .. } ==> informed(a, at, event).prev_pre_risk
            == risk_global),
        !(at is Assessing && event is Assessed) ==> informed(a, at, event) == a,
{
}

} // verus!
