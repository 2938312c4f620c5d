//! Safety rehearsal: hostile scenarios replayed against the guards of the engine.
//!
//! Each scenario builds an attacker, a proposal or an evaluation that lies, and shows
//! whether a guard contained it. Nothing but trees in memory is touched.
//!
//! The guards are those of [`crate::dgm`]: what is shown here holds of its engine, which
//! is handed proposals and evaluations, and of nothing around it.

use vstd::prelude::*;

use crate::dgm::{admits, Archive, DgmConfig, DgmEngine, Fitness, Patch};
use crate::file_tree::FileTree;
use crate::text::{decimal, decimal_text, texts};

verus! {

/// The verdict on one scenario.
#[derive(Debug, Clone, PartialEq, Eq)]
pub struct ScenarioResult {
    pub name: &'static str,
    /// A guard held.
    pub contained: bool,
    /// What was tried and what held.
    pub detail: String,
}

impl ScenarioResult {
    /// One line of the report.
    pub open spec fn line(&self) -> Seq<char> {
        "  ["@ + (if self.contained {
            "OK"@
        } else {
            "BRÈCHE"@
        }) + "] "@ + self.name@ + " — "@ + self.detail@ + "\n"@
    }

    fn line_text(&self) -> (r: String)
        ensures
            r@ == self.line(),
    {
        let mut out = "  [".to_owned();
        if self.contained {
            out.append("OK");
        } else {
            out.append("BRÈCHE");
        }
        out.append("] ");
        out.append(self.name);
        out.append(" — ");
        out.append(self.detail.as_str());
        out.append("\n");
        out
    }
}

/// The results of a rehearsal.
#[derive(Debug, Clone, PartialEq, Eq)]
pub struct ChaosReport {
    pub results: Vec<ScenarioResult>,
}

impl Default for ChaosReport {
    fn default() -> (r: Self)
        ensures
            r.results@.len() == 0,
    {
        ChaosReport { results: Vec::new() }
    }
}

/// The number of scenarios that were contained.
pub open spec fn contained_count(results: Seq<ScenarioResult>) -> nat
    decreases results.len(),
{
    if results.len() == 0 {
        0
    } else {
        contained_count(results.drop_last()) + (if results.last().contained {
            1nat
        } else {
            0nat
        })
    }
}

/// The lines of the results, one after the other.
pub open spec fn result_lines(results: Seq<ScenarioResult>) -> Seq<char>
    decreases results.len(),
{
    if results.len() == 0 {
        Seq::empty()
    } else {
        result_lines(results.drop_last()) + results.last().line()
    }
}

impl ChaosReport {
    /// There are results, and all were contained.
    pub open spec fn is_contained(&self) -> bool {
        &&& self.results@.len() > 0
        &&& forall|i: int| 0 <= i < self.results@.len() ==> (#[trigger] self.results@[i]).contained
    }

    pub fn all_contained(&self) -> (r: bool)
        ensures
            r == self.is_contained(),
    {
        if self.results.len() == 0 {
            return false;
        }
        let mut i: usize = 0;
        while i < self.results.len()
            invariant
                i <= self.results@.len(),
                self.results@.len() > 0,
                forall|j: int| 0 <= j < i ==> (#[trigger] self.results@[j]).contained,
            decreases self.results@.len() - i,
        {
            if !self.results[i].contained {
                return false;
            }
            i += 1;
        }
        true
    }

    /// The report as a text.
    pub open spec fn text(&self) -> Seq<char> {
        "répétition de sûreté : "@ + decimal(contained_count(self.results@)) + "/"@ + decimal(self.results@.len())
            + " scénario(s) contenu(s)\n"@ + result_lines(self.results@)
    }

    pub fn summary(&self) -> (r: String)
        ensures
            r@ == self.text(),
    {
        let ghost all = self.results@;
        let n: usize = self.results.len();
        let mut count: usize = 0;
        let mut lines = String::new();
        let mut i: usize = 0;
        assert(all.take(0).len() == 0);
        assert(lines@ =~= result_lines(all.take(0)));
        while i < n
            invariant
                n == self.results@.len(),
                i <= n,
                all == self.results@,
                count <= i,
                count == contained_count(all.take(i as int)),
                lines@ == result_lines(all.take(i as int)),
            decreases n - i,
        {
            proof {
                assert(all.take(i + 1).drop_last() =~= all.take(i as int));
                assert(all.take(i + 1).last() == all[i as int]);
            }
            if self.results[i].contained {
                count += 1;
            }
            lines.append(self.results[i].line_text().as_str());
            i += 1;
        }
        assert(all.take(i as int) =~= all);
        let mut s = "répétition de sûreté : ".to_owned();
        s.append(decimal_text(count as u64).as_str());
        s.append("/");
        s.append(decimal_text(n as u64).as_str());
        s.append(" scénario(s) contenu(s)\n");
        s.append(lines.as_str());
        s
    }
}

// ---------------------------------------------------------------------------
// Toy attackers
// ---------------------------------------------------------------------------

/// A tree with one file, `src/x.rs`, that holds `V=0`.
fn toy_workspace() -> (r: FileTree)
    ensures
        r@ == toy_files(),
{
    let mut tree = FileTree::new();
    let mut contents: Vec<u8> = Vec::new();
    contents.push(86);
    contents.push(61);
    contents.push(48);
    assert(contents@ =~= seq![86u8, 61u8, 48u8]);
    tree.insert("src/x.rs".to_owned(), contents);
    tree
}

pub open spec fn toy_files() -> Map<Seq<char>, Seq<u8>> {
    Map::<Seq<char>, Seq<u8>>::empty().insert("src/x.rs"@, seq![86u8, 61u8, 48u8])
}

fn fit(compiles: bool, tests_passed: u32, tests_failed: u32, score_milli: i64) -> (r: Fitness)
    ensures
        r == (Fitness { compiles, tests_passed, tests_failed, score_milli }),
{
    Fitness { compiles, tests_passed, tests_failed, score_milli }
}

fn benign_patch() -> (r: Patch)
    ensures
        r.target@ == "src/x.rs"@,
        r.find@ == "V=0"@,
        r.replace@ == "V=1"@,
{
    Patch::new("src/x.rs", "V=0", "V=1")
}

/// Proposes the same patch with the same evaluation several times.
fn run(engine: &mut DgmEngine, patch: &Patch, fitness: Fitness, rounds: u32)
    requires
        old(engine).archive.has_root(),
    ensures
        final(engine).archive.has_root(),
        final(engine).live == old(engine).live,
        final(engine).config == old(engine).config,
        final(engine).archive.best_fitness().score_milli >= old(engine).archive.best_fitness().score_milli,
        !old(engine).config.allows(patch.target@) || !admits(
            old(engine).archive.best_fitness(),
            fitness,
            old(engine).config.min_score_gain_ppm,
        ) ==> final(engine).archive == old(engine).archive,
{
    let ghost start = *engine;
    let mut i: u32 = 0;
    while i < rounds
        invariant
            i <= rounds,
            start == *old(engine),
            engine.archive.has_root(),
            engine.live == start.live,
            engine.config == start.config,
            engine.archive.best_fitness().score_milli >= start.archive.best_fitness().score_milli,
            !start.config.allows(patch.target@) || !admits(
                start.archive.best_fitness(),
                fitness,
                start.config.min_score_gain_ppm,
            ) ==> engine.archive == start.archive,
        decreases rounds - i,
    {
        match engine.snapshot(patch) {
            Some(_) => {
                let copy = patch.clone();
                engine.consider(copy, fitness);
            },
            None => {},
        }
        i += 1;
    }
}

fn engine(root: Fitness, min_score_gain_ppm: u32, allow: Option<Vec<String>>) -> (r: DgmEngine)
    ensures
        r.archive.has_root(),
        r.archive.variants@.len() == 1,
        r.archive.best_fitness() == root,
        r.config.min_score_gain_ppm == min_score_gain_ppm,
        r.config.allow == allow,
        r.live@ == toy_files(),
{
    DgmEngine::new(Archive::with_root(root), DgmConfig { min_score_gain_ppm, allow }, toy_workspace())
}

// ---------------------------------------------------------------------------
// Scenarios
// ---------------------------------------------------------------------------

/// An evaluation lies with a huge score while tests fail.
fn lying_score_cannot_buy_the_gate() -> (r: ScenarioResult)
    ensures
        r.contained,
        r.name@ == "lying_score_vs_all_green_gate"@,
        r.detail@ == "score=1e9 avec 3 tests rouges → rejeté (barrière tout-au-vert)"@,
{
    let mut eng = engine(fit(true, 8, 0, 0), 0, None);
    run(&mut eng, &benign_patch(), fit(true, 5, 3, 1_000_000_000_000), 3);
    ScenarioResult {
        name: "lying_score_vs_all_green_gate",
        contained: eng.archive.len() == 1,
        detail: "score=1e9 avec 3 tests rouges → rejeté (barrière tout-au-vert)".to_owned(),
    }
}

/// A score with one digit after the point.
pub open spec fn tenths(score_milli: nat) -> Seq<char> {
    decimal(score_milli / 1000) + "."@ + decimal((score_milli % 1000) / 100)
}

fn tenths_text(score_milli: u64) -> (r: String)
    ensures
        r@ == tenths(score_milli as nat),
{
    let mut out = decimal_text(score_milli / 1000);
    out.append(".");
    out.append(decimal_text((score_milli % 1000) / 100).as_str());
    out
}

/// A variant that is strictly worse than the reference.
fn elitism_forbids_regression() -> (r: ScenarioResult)
    ensures
        r.contained,
        r.name@ == "elitism_no_regression"@,
        r.detail@ == "candidat score=1.0 < réf=100.0 → jamais adopté (best="@ + tenths(100_000) + ")"@,
{
    let mut eng = engine(fit(true, 3, 0, 100_000), 0, None);
    run(&mut eng, &benign_patch(), fit(true, 3, 0, 1_000), 3);
    let best: i64 = eng.archive.best().fitness.score_milli;
    let mut detail = "candidat score=1.0 < réf=100.0 → jamais adopté (best=".to_owned();
    detail.append(tenths_text(best as u64).as_str());
    detail.append(")");
    ScenarioResult { name: "elitism_no_regression", contained: best >= 100_000, detail }
}

/// A gain that is only noise.
fn noise_below_min_gain_is_rejected() -> (r: ScenarioResult)
    ensures
        r.contained,
        r.name@ == "anti_noise_min_gain"@,
        r.detail@ == "gain +0.5 % < seuil 5 % → rejeté (anti-bruit)"@,
{
    let mut eng = engine(fit(true, 3, 0, 100_000), 50_000, None);
    run(&mut eng, &benign_patch(), fit(true, 3, 0, 100_500), 3);
    ScenarioResult {
        name: "anti_noise_min_gain",
        contained: eng.archive.len() == 1,
        detail: "gain +0.5 % < seuil 5 % → rejeté (anti-bruit)".to_owned(),
    }
}

fn live_file_is_intact(tree: &FileTree) -> (r: bool)
    ensures
        r == (tree@.dom().contains("src/x.rs"@) && tree@["src/x.rs"@] == seq![86u8, 61u8, 48u8]),
{
    match tree.get("src/x.rs") {
        Some(bytes) => {
            if bytes.len() != 3 {
                assert(bytes@.len() != 3);
                return false;
            }
            let same = bytes[0] == 86 && bytes[1] == 61 && bytes[2] == 48;
            proof {
                if same {
                    assert(bytes@ =~= seq![86u8, 61u8, 48u8]);
                }
            }
            same
        },
        None => false,
    }
}

/// A variant that is adopted, so that the loop might write the live tree.
fn dry_run_never_touches_live_tree() -> (r: ScenarioResult)
    ensures
        r.contained,
        r.name@ == "dry_run_live_tree_intact"@,
        r.detail@ == "variante « adoptée » mais src/x.rs vivant inchangé (isolation snapshot)"@,
{
    let mut eng = engine(fit(true, 3, 0, 0), 0, None);
    run(&mut eng, &benign_patch(), fit(true, 3, 0, 999_000), 3);
    ScenarioResult {
        name: "dry_run_live_tree_intact",
        contained: live_file_is_intact(&eng.live),
        detail: "variante « adoptée » mais src/x.rs vivant inchangé (isolation snapshot)".to_owned(),
    }
}

/// A well-formed patch of a file that may not be edited.
fn allowlist_blocks_out_of_scope_edit() -> (r: ScenarioResult)
    ensures
        r.contained,
        r.name@ == "allowlist_blocks_out_of_scope"@,
        r.detail@ == "patch ciblant src/secret.rs (hors --allow) → écarté par le proposeur"@,
{
    let mut allow: Vec<String> = Vec::new();
    allow.push("src/x.rs".to_owned());
    proof {
        reveal_strlit("src/x.rs");
        reveal_strlit("src/secret.rs");
        assert(texts(allow@)[0] == "src/x.rs"@);
        assert("src/x.rs"@.len() != "src/secret.rs"@.len());
    }
    let mut eng = engine(fit(true, 3, 0, 0), 0, Some(allow));
    let patch = Patch::new("src/secret.rs", "V=0", "V=1");
    run(&mut eng, &patch, fit(true, 3, 0, 999_000), 3);
    ScenarioResult {
        name: "allowlist_blocks_out_of_scope",
        contained: eng.archive.len() == 1,
        detail: "patch ciblant src/secret.rs (hors --allow) → écarté par le proposeur".to_owned(),
    }
}

/// Runs every scenario. All of them are contained.
pub fn rehearse() -> (r: ChaosReport)
    ensures
        r.is_contained(),
        r.results@.len() == 5,
        r.results@[0].name@ == "lying_score_vs_all_green_gate"@,
        r.results@[1].name@ == "elitism_no_regression"@,
        r.results@[2].name@ == "anti_noise_min_gain"@,
        r.results@[3].name@ == "dry_run_live_tree_intact"@,
        r.results@[4].name@ == "allowlist_blocks_out_of_scope"@,
        r.results@[0].detail@ == "score=1e9 avec 3 tests rouges → rejeté (barrière tout-au-vert)"@,
        r.results@[1].detail@ == "candidat score=1.0 < réf=100.0 → jamais adopté (best="@ + tenths(100_000) + ")"@,
        r.results@[2].detail@ == "gain +0.5 % < seuil 5 % → rejeté (anti-bruit)"@,
        r.results@[3].detail@ == "variante « adoptée » mais src/x.rs vivant inchangé (isolation snapshot)"@,
        r.results@[4].detail@ == "patch ciblant src/secret.rs (hors --allow) → écarté par le proposeur"@,
{
    let mut results: Vec<ScenarioResult> = Vec::new();
    results.push(lying_score_cannot_buy_the_gate());
    results.push(elitism_forbids_regression());
    results.push(noise_below_min_gain_is_rejected());
    results.push(dry_run_never_touches_live_tree());
    results.push(allowlist_blocks_out_of_scope_edit());
    ChaosReport { results }
}

/// As many scenarios are reported contained as there are contained ones, and all of one or
/// more are so exactly where the drill is contained.
pub proof fn law_contained_scenarios_are_counted(report: ChaosReport)
    ensures
        contained_count(report.results@) == report.results@.filter(|r: ScenarioResult| r.contained).len(),
        report.is_contained() <==> report.results@.len() > 0 && contained_count(report.results@) == report.results@.len(),
{
    lemma_contained(report.results@);
}

proof fn lemma_contained(results: Seq<ScenarioResult>)
    ensures
        contained_count(results) == results.filter(|r: ScenarioResult| r.contained).len(),
        contained_count(results) <= results.len(),
        contained_count(results) == results.len() <==> forall|i: int|
            0 <= i < results.len() ==> (#[trigger] results[i]).contained,
    decreases results.len(),
{
    reveal(Seq::filter);
    if results.len() > 0 {
        let front = results.drop_last();
        lemma_contained(front);
        assert(forall|i: int| 0 <= i < front.len() ==> #[trigger] front[i] == results[i]);
        assert(results[results.len() - 1] == results.last());
        if forall|i: int| 0 <= i < results.len() ==> (#[trigger] results[i]).contained {
            assert forall|i: int| 0 <= i < front.len() implies (#[trigger] front[i]).contained by {
                assert(results[i].contained);
            }
        } else {
            let i = choose|i: int| 0 <= i < results.len() && !(#[trigger] results[i]).contained;
            if i < front.len() {
                assert(!front[i].contained);
            }
        }
    }
}

} // verus!
