//! Failure modes and the one that weighs most.
//!
//! Each mode has a risk priority number, its severity times its occurrence times the
//! difficulty of its detection. The numbers come from the caller, in the order of the
//! catalogue; which mode leads is decided here.

use vstd::prelude::*;

use crate::measure::Measure;

verus! {

/// The failure modes, in the order of the catalogue.
#[derive(Debug, Clone, Copy, PartialEq, Eq, Structural)]
pub enum FailureMode {
    Regression,
    Instability,
    ValueDrift,
    SubstrateCollapse,
    Goodhart,
    MemoryPoison,
    Wireheading,
}

/// How many modes the catalogue holds.
pub const MODE_COUNT: usize = 7;

/// The mode at a place of the catalogue.
pub open spec fn mode_of(i: int) -> FailureMode {
    if i == 1 {
        FailureMode::Instability
    } else if i == 2 {
        FailureMode::ValueDrift
    } else if i == 3 {
        FailureMode::SubstrateCollapse
    } else if i == 4 {
        FailureMode::Goodhart
    } else if i == 5 {
        FailureMode::MemoryPoison
    } else if i == 6 {
        FailureMode::Wireheading
    } else {
        FailureMode::Regression
    }
}

impl FailureMode {
    pub open spec fn label(self) -> &'static str {
        match self {
            FailureMode::Regression => "regression_competence",
            FailureMode::Instability => "instabilite_divergence",
            FailureMode::ValueDrift => "derive_valeurs",
            FailureMode::SubstrateCollapse => "effondrement_substrat",
            FailureMode::Goodhart => "goodhart_surajustement",
            FailureMode::MemoryPoison => "empoisonnement_memoire",
            FailureMode::Wireheading => "wireheading",
        }
    }

    /// The canonical name.
    pub fn name(&self) -> (r: &'static str)
        ensures
            r == self.label(),
    {
        match self {
            FailureMode::Regression => "regression_competence",
            FailureMode::Instability => "instabilite_divergence",
            FailureMode::ValueDrift => "derive_valeurs",
            FailureMode::SubstrateCollapse => "effondrement_substrat",
            FailureMode::Goodhart => "goodhart_surajustement",
            FailureMode::MemoryPoison => "empoisonnement_memoire",
            FailureMode::Wireheading => "wireheading",
        }
    }

    fn at(i: usize) -> (r: Self)
        ensures
            r == mode_of(i as int),
    {
        if i == 1 {
            FailureMode::Instability
        } else if i == 2 {
            FailureMode::ValueDrift
        } else if i == 3 {
            FailureMode::SubstrateCollapse
        } else if i == 4 {
            FailureMode::Goodhart
        } else if i == 5 {
            FailureMode::MemoryPoison
        } else if i == 6 {
            FailureMode::Wireheading
        } else {
            FailureMode::Regression
        }
    }
}

/// The highest priority number and its mode.
#[derive(Debug, Clone, Copy, PartialEq, Eq, Structural)]
pub struct RiskReading {
    pub max_rpn: Measure,
    pub most_critical: FailureMode,
}

/// The place of the first number above zero that no other exceeds; -1 if none is above
/// zero.
pub open spec fn leader(rpns: Seq<Measure>) -> int
    decreases rpns.len(),
{
    if rpns.len() == 0 {
        -1
    } else {
        let k = leader(rpns.drop_last());
        if top(rpns.drop_last(), k).below(rpns.last()) {
            rpns.len() - 1
        } else {
            k
        }
    }
}

/// The number at the leading place, and zero where there is none.
pub open spec fn top(rpns: Seq<Measure>, k: int) -> Measure {
    if 0 <= k < rpns.len() {
        rpns[k]
    } else {
        Measure { bits: 0 }
    }
}

/// What the numbers say: the highest and its mode, or zero and the first mode.
pub open spec fn reading_of(rpns: Seq<Measure>) -> RiskReading {
    RiskReading { max_rpn: top(rpns, leader(rpns)), most_critical: mode_of(leader(rpns)) }
}

proof fn lemma_leader_range(rpns: Seq<Measure>)
    ensures
        -1 <= leader(rpns) < rpns.len(),
    decreases rpns.len(),
{
    if rpns.len() > 0 {
        lemma_leader_range(rpns.drop_last());
    }
}

/// The leading mode, from the priority numbers in the order of the catalogue.
pub fn assess(rpns: &[Measure]) -> (r: RiskReading)
    requires
        rpns@.len() == MODE_COUNT,
    ensures
        r == reading_of(rpns@),
{
    let mut max_rpn: Measure = Measure::zero();
    let mut most_critical: FailureMode = FailureMode::Regression;
    let mut i: usize = 0;
    while i < rpns.len()
        invariant
            i <= rpns@.len(),
            max_rpn == top(rpns@.take(i as int), leader(rpns@.take(i as int))),
            most_critical == mode_of(leader(rpns@.take(i as int))),
        decreases rpns@.len() - i,
    {
        proof {
            lemma_leader_range(rpns@.take(i as int));
            assert(rpns@.take(i + 1).drop_last() =~= rpns@.take(i as int));
            assert(rpns@.take(i + 1).last() == rpns@[i as int]);
        }
        let rpn: Measure = rpns[i];
        if max_rpn.is_below(&rpn) {
            max_rpn = rpn;
            most_critical = FailureMode::at(i);
        }
        i += 1;
    }
    assert(rpns@.take(i as int) =~= rpns@);
    RiskReading { max_rpn, most_critical }
}

/// No priority number exceeds the one that is reported, and an earlier mode is not
/// displaced by an equal one.
pub proof fn law_leader_is_highest(rpns: Seq<Measure>, i: int)
    requires
        0 <= i < rpns.len(),
    ensures
        !reading_of(rpns).max_rpn.below(rpns[i]),
        0 <= i < leader(rpns) ==> rpns[i].below(rpns[leader(rpns)]) || rpns[i].nan(),
    decreases rpns.len(),
{
    let front = rpns.drop_last();
    lemma_leader_range(front);
    lemma_leader_not_nan(front);
    if i < front.len() {
        law_leader_is_highest(front, i);
        assert(front[i] == rpns[i]);
    }
}

proof fn lemma_leader_not_nan(rpns: Seq<Measure>)
    ensures
        !top(rpns, leader(rpns)).nan(),
    decreases rpns.len(),
{
    lemma_leader_range(rpns);
    if rpns.len() > 0 {
        lemma_leader_not_nan(rpns.drop_last());
        lemma_leader_range(rpns.drop_last());
    }
}

/// The reading of risk numbers is the highest of them and zero, with the mode that stands
/// at the first place where it is reached; with none above zero it is regression at zero.
pub proof fn law_reading_is_the_first_highest(rpns: Seq<Measure>)
    ensures
        -1 <= leader(rpns) < rpns.len(),
        !reading_of(rpns).max_rpn.nan(),
        forall|i: int| 0 <= i < rpns.len() ==> (#[trigger] rpns[i]).nan() || rpns[i].rank() <= reading_of(rpns).max_rpn.rank(),
        leader(rpns) == -1 ==> reading_of(rpns).max_rpn.bits == 0 && reading_of(rpns).most_critical is Regression,
        leader(rpns) >= 0 ==> {
            let k = leader(rpns);
            &&& reading_of(rpns).max_rpn == rpns[k]
            &&& rpns[k].rank() > 0
            &&& forall|i: int| 0 <= i < k ==> (#[trigger] rpns[i]).nan() || rpns[i].rank() < rpns[k].rank()
        },
    decreases rpns.len(),
{
    if rpns.len() > 0 {
        let front = rpns.drop_last();
        let n = front.len() as int;
        law_reading_is_the_first_highest(front);
        assert(forall|i: int| 0 <= i < n ==> #[trigger] front[i] == rpns[i]);
        assert(rpns[n] == rpns.last());
        let k = leader(front);
        if k >= 0 {
            assert(front[k] == rpns[k]);
        }
        assert forall|i: int| 0 <= i < rpns.len() implies (#[trigger] rpns[i]).nan() || rpns[i].rank() <= reading_of(
            rpns,
        ).max_rpn.rank() by {
            if i < n {
                assert(front[i] == rpns[i]);
            }
        }
        assert forall|i: int| 0 <= i < leader(rpns) implies (#[trigger] rpns[i]).nan() || rpns[i].rank() < rpns[leader(
            rpns,
        )].rank() by {
            assert(front[i] == rpns[i]);
        }
    }
}

/// The places of the risk numbers are those of the modes in their order of declaration.
pub proof fn law_places_of_modes(rpns: Seq<Measure>)
    requires
        rpns.len() == MODE_COUNT,
    ensures
        ({
            let mode = reading_of(rpns).most_critical;
            let k = leader(rpns);
            &&& mode is Regression <==> k <= 0
            &&& mode is Instability <==> k == 1
            &&& mode is ValueDrift <==> k == 2
            &&& mode is SubstrateCollapse <==> k == 3
            &&& mode is Goodhart <==> k == 4
            &&& mode is MemoryPoison <==> k == 5
            &&& mode is Wireheading <==> k == 6
        }),
{
    law_reading_is_the_first_highest(rpns);
}

} // verus!
