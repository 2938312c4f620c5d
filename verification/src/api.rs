//! The façade of the system: commands with JSON parameters, answered with JSON.
//!
//! The façade holds the sessions of agents and the refinement sessions, reads and bounds
//! the parameters, decides what is adopted, and writes the answers. What only the numeric
//! side can compute comes in as an argument: the agent of a configuration, the outcome
//! of a step, the examination of a candidate.

use vstd::prelude::*;

use crate::agent::{journal, Capabilities, RSIAgent, StepInfo, StepOutcome, StepReport};
use crate::audit::{next_link, AuditLog};
use crate::checkpoint::Checkpoint;
use crate::json::{
    empty_obj, get, keys_ascending, law_objects_bind_keys, lemma_arr_view, lemma_bound, lookup, set_member, values, wf, Json, Value,
};
use crate::json_round_trip::law_number_reads_back;
use crate::json_text::{as_array, as_str, bool_at, number_at, optional, str_at, u64_at};
use crate::measure::Measure;
use crate::order::reverse_records;
use crate::table::{law_insert_counts_names, law_remove_then_insert_replaces, Table};
use crate::text::{at_most, decimal, decimal_wide_text, filled_lines, law_filled_lines, nonempty_lines, same_text, split, texts, trim};

verus! {

/// How many sessions of each kind there may be.
pub const MAX_SESSIONS: usize = 64;

/// The largest sample of tasks.
pub const MAX_TASKS: u64 = 50_000;

/// The largest dimension of a component of the state.
pub const MAX_DIM: u64 = 1_024;

/// The largest dimension of the substrate vectors.
pub const MAX_SUBSTRATE: u64 = 256;

/// The most steps of one call.
pub const MAX_STEPS: u64 = 100_000;

pub const MAX_CANDIDATES: u64 = 10_000;

pub const MAX_POPULATION: u64 = 4_096;

pub const MAX_GENERATIONS: u64 = 5_000;

/// The most points of a refinement task.
pub const MAX_REFINE_POINTS: u64 = 4_096;

/// The most proposals of one call.
pub const MAX_PROPOSALS_PER_CALL: usize = 64;

// ---------------------------------------------------------------------------
// Commands
// ---------------------------------------------------------------------------

/// The commands.
#[derive(Debug, Clone, Copy, PartialEq, Eq, Structural)]
pub enum Command {
    Describe,
    Health,
    Metrics,
    Create,
    Step,
    Run,
    RunUntil,
    State,
    Export,
    Reset,
    ListSessions,
    RefineNew,
    Incumbent,
    Evaluate,
    Propose,
    RefineSave,
    RefineLoad,
}

/// The command of a name.
pub open spec fn command_of(name: Seq<char>) -> Option<Command> {
    if name == "describe"@ {
        Some(Command::Describe)
    } else if name == "health"@ {
        Some(Command::Health)
    } else if name == "metrics"@ {
        Some(Command::Metrics)
    } else if name == "create"@ {
        Some(Command::Create)
    } else if name == "step"@ {
        Some(Command::Step)
    } else if name == "run"@ {
        Some(Command::Run)
    } else if name == "run_until"@ {
        Some(Command::RunUntil)
    } else if name == "state"@ {
        Some(Command::State)
    } else if name == "export"@ {
        Some(Command::Export)
    } else if name == "reset"@ {
        Some(Command::Reset)
    } else if name == "list_sessions"@ {
        Some(Command::ListSessions)
    } else if name == "refine_new"@ {
        Some(Command::RefineNew)
    } else if name == "incumbent"@ {
        Some(Command::Incumbent)
    } else if name == "evaluate"@ {
        Some(Command::Evaluate)
    } else if name == "propose"@ {
        Some(Command::Propose)
    } else if name == "refine_save"@ {
        Some(Command::RefineSave)
    } else if name == "refine_load"@ {
        Some(Command::RefineLoad)
    } else {
        None
    }
}

/// The command of a name; an unknown name is an error.
pub fn command(name: &str) -> (r: Result<Command, String>)
    ensures
        match r {
            Ok(c) => command_of(name@) == Some(c),
            Err(e) => command_of(name@) is None && e@ == "commande inconnue : '"@ + name@ + "'"@,
        },
{
    if same_text(name, "describe") {
        Ok(Command::Describe)
    } else if same_text(name, "health") {
        Ok(Command::Health)
    } else if same_text(name, "metrics") {
        Ok(Command::Metrics)
    } else if same_text(name, "create") {
        Ok(Command::Create)
    } else if same_text(name, "step") {
        Ok(Command::Step)
    } else if same_text(name, "run") {
        Ok(Command::Run)
    } else if same_text(name, "run_until") {
        Ok(Command::RunUntil)
    } else if same_text(name, "state") {
        Ok(Command::State)
    } else if same_text(name, "export") {
        Ok(Command::Export)
    } else if same_text(name, "reset") {
        Ok(Command::Reset)
    } else if same_text(name, "list_sessions") {
        Ok(Command::ListSessions)
    } else if same_text(name, "refine_new") {
        Ok(Command::RefineNew)
    } else if same_text(name, "incumbent") {
        Ok(Command::Incumbent)
    } else if same_text(name, "evaluate") {
        Ok(Command::Evaluate)
    } else if same_text(name, "propose") {
        Ok(Command::Propose)
    } else if same_text(name, "refine_save") {
        Ok(Command::RefineSave)
    } else if same_text(name, "refine_load") {
        Ok(Command::RefineLoad)
    } else {
        let mut message = "commande inconnue : '".to_owned();
        message.append(name);
        message.append("'");
        Err(message)
    }
}

// ---------------------------------------------------------------------------
// Parameters
// ---------------------------------------------------------------------------

/// The number between the two bounds that is nearest to `n`.
pub open spec fn clamped(n: u64, lo: u64, hi: u64) -> u64 {
    if n < lo {
        lo
    } else if n > hi {
        hi
    } else {
        n
    }
}

/// A whole number of the parameters, brought between its bounds.
pub open spec fn bounded_of(cfg: Value, key: Seq<char>, default: u64, lo: u64, hi: u64) -> u64 {
    match u64_at(cfg, key) {
        Some(n) => clamped(n, lo, hi),
        None => clamped(default, lo, hi),
    }
}

fn bounded(cfg: &Json, key: &str, default: u64, lo: u64, hi: u64) -> (r: u64)
    ensures
        r == bounded_of(cfg@, key@, default, lo, hi),
{
    let n: u64 = match cfg.u64_at(key) {
        Some(n) => n,
        None => default,
    };
    if n < lo {
        lo
    } else if n > hi {
        hi
    } else {
        n
    }
}

/// The name of the session that the parameters mean.
pub open spec fn id_of(params: Value) -> Seq<char> {
    match str_at(params, "id"@) {
        Some(id) => id,
        None => "default"@,
    }
}

pub fn session_id(params: &Json) -> (r: String)
    ensures
        r@ == id_of(params@),
{
    match params.str_at("id") {
        Some(id) => id.to_owned(),
        None => "default".to_owned(),
    }
}

/// How the strategy is searched for.
#[derive(Debug, PartialEq, Eq)]
pub enum Optimizer<S = String> {
    Cma { population: u64, generations: u64, sigma0: Option<S> },
    Random { candidates: u64, explore_scale: Option<S> },
}

/// The configuration of an agent; numbers that are not given are left to their defaults.
#[derive(Debug, PartialEq, Eq)]
pub struct AgentConfig<S = String> {
    pub seed: u64,
    pub dim: u64,
    pub n_tasks: u64,
    pub n_hardware: u64,
    pub n_software: u64,
    pub phi_slope: Option<S>,
    pub phi_bias: Option<S>,
    pub lambda: Option<S>,
    pub epsilon: Option<S>,
    pub eta0: Option<S>,
    pub forgetting: Option<S>,
    pub optimizer: Optimizer<S>,
}

impl Optimizer {
    pub open spec fn view(&self) -> Optimizer<Seq<char>> {
        match *self {
            Optimizer::Cma { population, generations, sigma0 } => Optimizer::Cma {
                population,
                generations,
                sigma0: optional(sigma0),
            },
            Optimizer::Random { candidates, explore_scale } => Optimizer::Random {
                candidates,
                explore_scale: optional(explore_scale),
            },
        }
    }
}

impl AgentConfig {
    pub open spec fn view(&self) -> AgentConfig<Seq<char>> {
        AgentConfig {
            seed: self.seed,
            dim: self.dim,
            n_tasks: self.n_tasks,
            n_hardware: self.n_hardware,
            n_software: self.n_software,
            phi_slope: optional(self.phi_slope),
            phi_bias: optional(self.phi_bias),
            lambda: optional(self.lambda),
            epsilon: optional(self.epsilon),
            eta0: optional(self.eta0),
            forgetting: optional(self.forgetting),
            optimizer: self.optimizer@,
        }
    }
}

/// The name of the optimizer that is asked for.
pub open spec fn optimizer_name(cfg: Value) -> Seq<char> {
    match str_at(cfg, "optimizer"@) {
        Some(name) => name,
        None => "random"@,
    }
}

pub open spec fn optimizer_of(cfg: Value) -> Result<Optimizer<Seq<char>>, Seq<char>> {
    let name = optimizer_name(cfg);
    if name == "cma"@ || name == "cma-es"@ || name == "sep-cma-es"@ {
        Ok(
            Optimizer::Cma {
                population: bounded_of(cfg, "population"@, 0, 0, MAX_POPULATION),
                generations: bounded_of(cfg, "generations"@, 10, 1, MAX_GENERATIONS),
                sigma0: number_at(cfg, "sigma0"@),
            },
        )
    } else if name == "random"@ || name == "neighborhood"@ {
        Ok(
            Optimizer::Random {
                candidates: bounded_of(cfg, "candidates"@, 48, 1, MAX_CANDIDATES),
                explore_scale: number_at(cfg, "explore_scale"@),
            },
        )
    } else {
        Err("optimiseur inconnu : '"@ + name + "' (random|cma)"@)
    }
}

/// The seed of the parameters.
pub open spec fn seed_of(cfg: Value) -> u64 {
    match u64_at(cfg, "seed"@) {
        Some(n) => n,
        None => 2026,
    }
}

/// The configuration that the parameters describe, every dimension within its bounds.
pub open spec fn agent_config_of(cfg: Value) -> Result<AgentConfig<Seq<char>>, Seq<char>> {
    match optimizer_of(cfg) {
        Err(e) => Err(e),
        Ok(optimizer) => Ok(
            AgentConfig {
                seed: seed_of(cfg),
                dim: bounded_of(cfg, "dim"@, 6, 1, MAX_DIM),
                n_tasks: bounded_of(cfg, "n_tasks"@, 1024, 16, MAX_TASKS),
                n_hardware: bounded_of(cfg, "n_hardware"@, 4, 1, MAX_SUBSTRATE),
                n_software: bounded_of(cfg, "n_software"@, 4, 1, MAX_SUBSTRATE),
                phi_slope: number_at(cfg, "phi_slope"@),
                phi_bias: number_at(cfg, "phi_bias"@),
                lambda: number_at(cfg, "lambda"@),
                epsilon: number_at(cfg, "epsilon"@),
                eta0: number_at(cfg, "eta0"@),
                forgetting: number_at(cfg, "forgetting"@),
                optimizer,
            },
        ),
    }
}

fn read_optimizer(cfg: &Json) -> (r: Result<Optimizer, String>)
    ensures
        match r {
            Ok(o) => optimizer_of(cfg@) == Ok::<Optimizer<Seq<char>>, Seq<char>>(o@),
            Err(e) => optimizer_of(cfg@) == Err::<Optimizer<Seq<char>>, Seq<char>>(e@),
        },
{
    let name: &str = match cfg.str_at("optimizer") {
        Some(name) => name,
        None => "random",
    };
    if same_text(name, "cma") || same_text(name, "cma-es") || same_text(name, "sep-cma-es") {
        Ok(
            Optimizer::Cma {
                population: bounded(cfg, "population", 0, 0, MAX_POPULATION),
                generations: bounded(cfg, "generations", 10, 1, MAX_GENERATIONS),
                sigma0: cfg.number_at("sigma0"),
            },
        )
    } else if same_text(name, "random") || same_text(name, "neighborhood") {
        Ok(
            Optimizer::Random {
                candidates: bounded(cfg, "candidates", 48, 1, MAX_CANDIDATES),
                explore_scale: cfg.number_at("explore_scale"),
            },
        )
    } else {
        let mut message = "optimiseur inconnu : '".to_owned();
        message.append(name);
        message.append("' (random|cma)");
        Err(message)
    }
}

fn read_seed(cfg: &Json) -> (r: u64)
    ensures
        r == seed_of(cfg@),
{
    match cfg.u64_at("seed") {
        Some(n) => n,
        None => 2026,
    }
}

/// Reads the configuration of an agent.
pub fn agent_config(cfg: &Json) -> (r: Result<AgentConfig, String>)
    ensures
        match r {
            Ok(c) => agent_config_of(cfg@) == Ok::<AgentConfig<Seq<char>>, Seq<char>>(c@),
            Err(e) => agent_config_of(cfg@) == Err::<AgentConfig<Seq<char>>, Seq<char>>(e@),
        },
{
    let optimizer = read_optimizer(cfg)?;
    Ok(
        AgentConfig {
            seed: read_seed(cfg),
            dim: bounded(cfg, "dim", 6, 1, MAX_DIM),
            n_tasks: bounded(cfg, "n_tasks", 1024, 16, MAX_TASKS),
            n_hardware: bounded(cfg, "n_hardware", 4, 1, MAX_SUBSTRATE),
            n_software: bounded(cfg, "n_software", 4, 1, MAX_SUBSTRATE),
            phi_slope: cfg.number_at("phi_slope"),
            phi_bias: cfg.number_at("phi_bias"),
            lambda: cfg.number_at("lambda"),
            epsilon: cfg.number_at("epsilon"),
            eta0: cfg.number_at("eta0"),
            forgetting: cfg.number_at("forgetting"),
            optimizer,
        },
    )
}

/// The target function of a synthesis.
#[derive(Debug, Clone, Copy, PartialEq, Eq, Structural)]
pub enum Target {
    Quadratic,
    Linear,
    Cubic,
}

/// What is refined.
#[derive(Debug, PartialEq, Eq)]
pub enum DomainConfig<S = String> {
    Synthesis { target: Target, lo: Option<S>, hi: Option<S>, n: u64, seed: u64 },
    Tuning,
    Prompt,
}

impl DomainConfig {
    pub open spec fn view(&self) -> DomainConfig<Seq<char>> {
        match *self {
            DomainConfig::Synthesis { target, lo, hi, n, seed } => DomainConfig::Synthesis {
                target,
                lo: optional(lo),
                hi: optional(hi),
                n,
                seed,
            },
            DomainConfig::Tuning => DomainConfig::Tuning,
            DomainConfig::Prompt => DomainConfig::Prompt,
        }
    }

    /// The name of the domain.
    pub fn name(&self) -> (r: &'static str)
        ensures
            r@ == domain_name(self@),
    {
        match self {
            DomainConfig::Synthesis { .. } => "synthesis",
            DomainConfig::Tuning => "tuning",
            DomainConfig::Prompt => "prompt",
        }
    }

    /// The name with the target of a synthesis.
    pub fn descriptor(&self) -> (r: &'static str)
        ensures
            r@ == domain_descriptor(self@),
    {
        match self {
            DomainConfig::Synthesis { target, .. } => match target {
                Target::Quadratic => "synthesis:quadratic",
                Target::Linear => "synthesis:linear",
                Target::Cubic => "synthesis:cubic",
            },
            DomainConfig::Tuning => "tuning",
            DomainConfig::Prompt => "prompt",
        }
    }
}

pub open spec fn domain_name(d: DomainConfig<Seq<char>>) -> Seq<char> {
    match d {
        DomainConfig::Synthesis { .. } => "synthesis"@,
        DomainConfig::Tuning => "tuning"@,
        DomainConfig::Prompt => "prompt"@,
    }
}

pub open spec fn domain_descriptor(d: DomainConfig<Seq<char>>) -> Seq<char> {
    match d {
        DomainConfig::Synthesis { target, .. } => match target {
            Target::Quadratic => "synthesis:quadratic"@,
            Target::Linear => "synthesis:linear"@,
            Target::Cubic => "synthesis:cubic"@,
        },
        DomainConfig::Tuning => "tuning"@,
        DomainConfig::Prompt => "prompt"@,
    }
}

pub open spec fn target_of(name: Seq<char>) -> Result<Target, Seq<char>> {
    if name == "quadratic"@ {
        Ok(Target::Quadratic)
    } else if name == "linear"@ {
        Ok(Target::Linear)
    } else if name == "cubic"@ {
        Ok(Target::Cubic)
    } else {
        Err("cible inconnue : '"@ + name + "' (quadratic|linear|cubic)"@)
    }
}

/// The target of a name.
pub fn target_fn(name: &str) -> (r: Result<Target, String>)
    ensures
        match r {
            Ok(t) => target_of(name@) == Ok::<Target, Seq<char>>(t),
            Err(e) => target_of(name@) == Err::<Target, Seq<char>>(e@),
        },
{
    if same_text(name, "quadratic") {
        Ok(Target::Quadratic)
    } else if same_text(name, "linear") {
        Ok(Target::Linear)
    } else if same_text(name, "cubic") {
        Ok(Target::Cubic)
    } else {
        let mut message = "cible inconnue : '".to_owned();
        message.append(name);
        message.append("' (quadratic|linear|cubic)");
        Err(message)
    }
}

/// The domain that the parameters describe.
pub open spec fn domain_of(params: Value) -> Result<DomainConfig<Seq<char>>, Seq<char>> {
    let name = match str_at(params, "domain"@) {
        Some(name) => name,
        None => "synthesis"@,
    };
    if name == "synthesis"@ {
        let target = match str_at(params, "target"@) {
            Some(t) => t,
            None => "quadratic"@,
        };
        match target_of(target) {
            Err(e) => Err(e),
            Ok(target) => Ok(
                DomainConfig::Synthesis {
                    target,
                    lo: number_at(params, "lo"@),
                    hi: number_at(params, "hi"@),
                    n: bounded_of(params, "n"@, 30, 4, MAX_REFINE_POINTS),
                    seed: seed_of(params),
                },
            ),
        }
    } else if name == "tuning"@ {
        Ok(DomainConfig::Tuning)
    } else if name == "prompt"@ {
        Ok(DomainConfig::Prompt)
    } else {
        Err("domaine inconnu : '"@ + name + "' (synthesis|tuning|prompt|wasm)"@)
    }
}

/// Reads what is to be refined.
pub fn domain_config(params: &Json) -> (r: Result<DomainConfig, String>)
    ensures
        match r {
            Ok(d) => domain_of(params@) == Ok::<DomainConfig<Seq<char>>, Seq<char>>(d@),
            Err(e) => domain_of(params@) == Err::<DomainConfig<Seq<char>>, Seq<char>>(e@),
        },
{
    let name: &str = match params.str_at("domain") {
        Some(name) => name,
        None => "synthesis",
    };
    if same_text(name, "synthesis") {
        let wanted: &str = match params.str_at("target") {
            Some(t) => t,
            None => "quadratic",
        };
        let target: Target = target_fn(wanted)?;
        Ok(
            DomainConfig::Synthesis {
                target,
                lo: params.number_at("lo"),
                hi: params.number_at("hi"),
                n: bounded(params, "n", 30, 4, MAX_REFINE_POINTS),
                seed: read_seed(params),
            },
        )
    } else if same_text(name, "tuning") {
        Ok(DomainConfig::Tuning)
    } else if same_text(name, "prompt") {
        Ok(DomainConfig::Prompt)
    } else {
        let mut message = "domaine inconnu : '".to_owned();
        message.append(name);
        message.append("' (synthesis|tuning|prompt|wasm)");
        Err(message)
    }
}

/// The points of a synthesis are taken between two finite bounds in their order.
pub open spec fn interval_is_valid(lo: Measure, hi: Measure) -> bool {
    lo.finite() && hi.finite() && lo.below(hi)
}

/// Checks the bounds of a synthesis.
pub fn check_interval(lo: &Measure, hi: &Measure) -> (r: Result<(), String>)
    ensures
        match r {
            Ok(_) => interval_is_valid(*lo, *hi),
            Err(e) => !interval_is_valid(*lo, *hi) && e@ == "intervalle invalide : exiger lo < hi finis"@,
        },
{
    if lo.is_finite() && hi.is_finite() && lo.is_below(hi) {
        Ok(())
    } else {
        Err("intervalle invalide : exiger lo < hi finis".to_owned())
    }
}

/// When a run ends; what is not given is left to its default.
#[derive(Debug, PartialEq, Eq)]
pub struct LoopConfig<S = String> {
    pub max_steps: u64,
    pub plateau_window: u64,
    pub target_si: Option<S>,
    pub plateau_eps: Option<S>,
    pub breaker_rpn: Option<S>,
    /// Given with the breaker only.
    pub rollback_on_breach: Option<bool>,
    pub max_seconds: Option<S>,
}

impl LoopConfig {
    pub open spec fn view(&self) -> LoopConfig<Seq<char>> {
        LoopConfig {
            max_steps: self.max_steps,
            plateau_window: self.plateau_window,
            target_si: optional(self.target_si),
            plateau_eps: optional(self.plateau_eps),
            breaker_rpn: optional(self.breaker_rpn),
            rollback_on_breach: self.rollback_on_breach,
            max_seconds: optional(self.max_seconds),
        }
    }
}

pub open spec fn loop_config_of(params: Value) -> LoopConfig<Seq<char>> {
    LoopConfig {
        max_steps: bounded_of(params, "max_steps"@, 500, 1, MAX_STEPS),
        plateau_window: bounded_of(params, "plateau_window"@, 12, 2, 10_000),
        target_si: number_at(params, "target_si"@),
        plateau_eps: number_at(params, "plateau_eps"@),
        breaker_rpn: number_at(params, "breaker_rpn"@),
        rollback_on_breach: if number_at(params, "breaker_rpn"@) is Some {
            match bool_at(params, "rollback_on_breach"@) {
                Some(b) => Some(b),
                None => Some(true),
            }
        } else {
            None
        },
        max_seconds: number_at(params, "max_seconds"@),
    }
}

/// Reads when a run ends.
pub fn loop_config(params: &Json) -> (r: LoopConfig)
    ensures
        r@ == loop_config_of(params@),
{
    let breaker_rpn = params.number_at("breaker_rpn");
    let rollback_on_breach: Option<bool> = if breaker_rpn.is_some() {
        match params.bool_at("rollback_on_breach") {
            Some(b) => Some(b),
            None => Some(true),
        }
    } else {
        None
    };
    LoopConfig {
        max_steps: bounded(params, "max_steps", 500, 1, MAX_STEPS),
        plateau_window: bounded(params, "plateau_window", 12, 2, 10_000),
        target_si: params.number_at("target_si"),
        plateau_eps: params.number_at("plateau_eps"),
        breaker_rpn,
        rollback_on_breach,
        max_seconds: params.number_at("max_seconds"),
    }
}

// ---------------------------------------------------------------------------
// Reports as JSON
// ---------------------------------------------------------------------------

/// What is measured of an agent between steps; the measures are numbers.
#[derive(Debug, PartialEq, Eq)]
pub struct Snapshot {
    pub si_global: String,
    pub p_eff: String,
    pub state_norm: String,
    pub capabilities: Capabilities,
    pub frac_limited_by_substrate: String,
    pub frac_limited_by_cognition: String,
    pub mean_phi: String,
    pub mean_g: String,
}

pub open spec fn capabilities_value(c: Capabilities) -> Value {
    empty_obj().with("D"@, Value::Num(c.d@)).with("M"@, Value::Num(c.m@)).with("R"@, Value::Num(c.r@)).with(
        "A"@,
        Value::Num(c.a@),
    ).with("C"@, Value::Num(c.c@)).with("V"@, Value::Num(c.v@))
}

pub fn capabilities_json(c: &Capabilities) -> (r: Json)
    ensures
        r@ == capabilities_value(*c),
{
    let mut o = Json::obj();
    o.set("D", Json::Num(c.d.clone()));
    o.set("M", Json::Num(c.m.clone()));
    o.set("R", Json::Num(c.r.clone()));
    o.set("A", Json::Num(c.a.clone()));
    o.set("C", Json::Num(c.c.clone()));
    o.set("V", Json::Num(c.v.clone()));
    o
}

pub open spec fn info_value(i: StepInfo) -> Value {
    empty_obj().with("si_before"@, Value::Num(i.si_before@)).with("si_after"@, Value::Num(i.si_after@)).with(
        "delta_norm"@,
        Value::Num(i.delta_norm@),
    ).with("clamped_to_lambda"@, Value::Bool(i.clamped_to_lambda)).with(
        "backtracks"@,
        Value::Num(decimal(i.backtracks as nat)),
    ).with("step_factor"@, Value::Num(i.step_factor@))
}

fn info_json(i: &StepInfo) -> (r: Json)
    ensures
        r@ == info_value(*i),
{
    let mut o = Json::obj();
    o.set("si_before", Json::Num(i.si_before.clone()));
    o.set("si_after", Json::Num(i.si_after.clone()));
    o.set("delta_norm", Json::Num(i.delta_norm.clone()));
    o.set("clamped_to_lambda", Json::Bool(i.clamped_to_lambda));
    o.set("backtracks", Json::num(i.backtracks as u64));
    o.set("step_factor", Json::Num(i.step_factor.clone()));
    o
}

pub open spec fn report_value(r: StepReport) -> Value {
    empty_obj().with("t"@, Value::Num(decimal(r.t as nat))).with("si_global"@, Value::Num(r.si_global@)).with(
        "delta_si"@,
        Value::Num(r.delta_si@),
    ).with("p_eff"@, Value::Num(r.p_eff@)).with("state_norm"@, Value::Num(r.state_norm@)).with(
        "meta_delta_norm"@,
        Value::Num(r.meta_delta_norm@),
    ).with("frac_limited_by_substrate"@, Value::Num(r.frac_limited_by_substrate@)).with(
        "risk_global"@,
        Value::Num(r.risk_global@),
    ).with("max_rpn"@, Value::Num(r.max_rpn@)).with("most_critical"@, Value::Str(r.most_critical.label()@)).with(
        "si_safe"@,
        Value::Num(r.si_safe@),
    ).with("mitigation"@, Value::Str(r.mitigation.label()@)).with("appr"@, info_value(r.appr)).with(
        "capabilities"@,
        capabilities_value(r.capabilities),
    )
}

pub fn step_report_json(r: &StepReport) -> (j: Json)
    ensures
        j@ == report_value(*r),
{
    let mut o = Json::obj();
    o.set("t", Json::num(r.t));
    o.set("si_global", Json::Num(r.si_global.clone()));
    o.set("delta_si", Json::Num(r.delta_si.clone()));
    o.set("p_eff", Json::Num(r.p_eff.clone()));
    o.set("state_norm", Json::Num(r.state_norm.clone()));
    o.set("meta_delta_norm", Json::Num(r.meta_delta_norm.clone()));
    o.set("frac_limited_by_substrate", Json::Num(r.frac_limited_by_substrate.clone()));
    o.set("risk_global", Json::Num(r.risk_global.clone()));
    o.set("max_rpn", Json::Num(r.max_rpn.clone()));
    o.set("most_critical", Json::text(r.most_critical.name()));
    o.set("si_safe", Json::Num(r.si_safe.clone()));
    o.set("mitigation", Json::text(r.mitigation.name()));
    o.set("appr", info_json(&r.appr));
    o.set("capabilities", capabilities_json(&r.capabilities));
    o
}

pub open spec fn bottleneck_value(s: Snapshot) -> Value {
    empty_obj().with("frac_limited_by_substrate"@, Value::Num(s.frac_limited_by_substrate@)).with(
        "frac_limited_by_cognition"@,
        Value::Num(s.frac_limited_by_cognition@),
    ).with("mean_phi"@, Value::Num(s.mean_phi@)).with("mean_g"@, Value::Num(s.mean_g@))
}

pub open spec fn snapshot_value(s: Snapshot, t: u64) -> Value {
    empty_obj().with("t"@, Value::Num(decimal(t as nat))).with("si_global"@, Value::Num(s.si_global@)).with(
        "p_eff"@,
        Value::Num(s.p_eff@),
    ).with("state_norm"@, Value::Num(s.state_norm@)).with("capabilities"@, capabilities_value(s.capabilities)).with(
        "bottleneck"@,
        bottleneck_value(s),
    )
}

pub fn snapshot_json(s: &Snapshot, t: u64) -> (r: Json)
    ensures
        r@ == snapshot_value(*s, t),
{
    let mut b = Json::obj();
    b.set("frac_limited_by_substrate", Json::Num(s.frac_limited_by_substrate.clone()));
    b.set("frac_limited_by_cognition", Json::Num(s.frac_limited_by_cognition.clone()));
    b.set("mean_phi", Json::Num(s.mean_phi.clone()));
    b.set("mean_g", Json::Num(s.mean_g.clone()));
    let mut o = Json::obj();
    o.set("t", Json::num(t));
    o.set("si_global", Json::Num(s.si_global.clone()));
    o.set("p_eff", Json::Num(s.p_eff.clone()));
    o.set("state_norm", Json::Num(s.state_norm.clone()));
    o.set("capabilities", capabilities_json(&s.capabilities));
    o.set("bottleneck", b);
    o
}

// ---------------------------------------------------------------------------
// Sessions
// ---------------------------------------------------------------------------

/// A session of an agent: its last measured intelligence, the reports of its steps and
/// the parameters that it was created with.
pub struct Session {
    pub agent: RSIAgent,
    pub si_global: String,
    pub history: Vec<StepReport>,
    pub config: Json,
}

/// One step of an agent: the risk before it, what it led to and its report.
pub struct Stepped {
    pub risk: Measure,
    pub outcome: StepOutcome,
    pub report: StepReport,
}

/// An agent after a run of steps: time and memory have gone on by their number, the
/// journal has their entries, the rest is that of the last step.
pub open spec fn agent_ran(a: RSIAgent, steps: Seq<Stepped>, b: RSIAgent) -> bool {
    let outcomes = steps.map_values(|s: Stepped| s.outcome);
    &&& b.current.t == a.current.t + steps.len()
    &&& steps.len() > 0 ==> {
        let last = steps.last();
        &&& b.current.state == last.outcome.state
        &&& b.current.substrate == last.outcome.substrate
        &&& b.current.strategy == last.outcome.strategy
        &&& b.prev_pre_risk == last.risk
    }
    &&& steps.len() == 0 ==> b == a
    &&& match (a.audit, b.audit) {
        (Some(x), Some(y)) => {
            &&& y.key() == x.key()
            &&& y.chain() == journal(x.key(), x.chain(), a.current.t, outcomes)
            &&& x.is_valid() ==> y.is_valid()
        },
        (None, None) => true,
        _ => false,
    }
    &&& match (a.memory, b.memory) {
        (Some(m), Some(n)) => n == m + steps.len(),
        (None, None) => true,
        _ => false,
    }
    &&& b == (RSIAgent {
        current: b.current,
        audit: b.audit,
        memory: b.memory,
        prev_pre_risk: b.prev_pre_risk,
        ..a
    })
}

/// A session after a run of steps.
pub open spec fn session_ran(s: Session, steps: Seq<Stepped>, si_global: Seq<char>, after: Session) -> bool {
    &&& agent_ran(s.agent, steps, after.agent)
    &&& after.si_global@ == si_global
    &&& after.history@ == s.history@ + steps.map_values(|x: Stepped| x.report)
    &&& after.config == s.config
}

/// The counters of an agent have room for so many more steps.
pub open spec fn has_room(a: RSIAgent, steps: nat) -> bool {
    &&& a.current.t + steps <= u64::MAX
    &&& a.memory matches Some(n) ==> n + steps <= usize::MAX
}

/// An agent after one step.
spec fn agent_stepped(a: RSIAgent, step: Stepped, b: RSIAgent) -> bool {
    &&& b.current == (Checkpoint {
        t: (a.current.t + 1) as u64,
        state: step.outcome.state,
        substrate: step.outcome.substrate,
        strategy: step.outcome.strategy,
    })
    &&& match (a.audit, b.audit) {
        (Some(x), Some(y)) => {
            &&& y.key() == x.key()
            &&& y.chain() == x.chain().push(
                next_link(x.key(), x.chain(), step.outcome.event_at((a.current.t + 1) as u64).text()),
            )
            &&& x.is_valid() ==> y.is_valid()
        },
        (None, None) => true,
        _ => false,
    }
    &&& match (a.memory, b.memory) {
        (Some(m), Some(n)) => n == m + 1,
        (None, None) => true,
        _ => false,
    }
    &&& b == (RSIAgent { current: b.current, audit: b.audit, memory: b.memory, prev_pre_risk: step.risk, ..a })
}

proof fn lemma_one_more_step(a: RSIAgent, steps: Seq<Stepped>, b: RSIAgent, step: Stepped, c: RSIAgent)
    requires
        agent_ran(a, steps, b),
        agent_stepped(b, step, c),
        b.current.t < u64::MAX,
    ensures
        agent_ran(a, steps.push(step), c),
{
    let longer = steps.push(step);
    let outcomes = longer.map_values(|s: Stepped| s.outcome);
    assert(outcomes.drop_last() =~= steps.map_values(|s: Stepped| s.outcome));
    assert(outcomes.last() == step.outcome);
    assert(longer.last() == step);
}

impl Session {
    fn take_step(&mut self, step: Stepped)
        requires
            has_room(old(self).agent, 1),
        ensures
            agent_stepped(old(self).agent, step, final(self).agent),
            final(self).history@ == old(self).history@.push(step.report),
            final(self).config == old(self).config,
            final(self).si_global == old(self).si_global,
    {
        self.agent.prev_pre_risk = step.risk;
        self.agent.commit(step.outcome);
        self.history.push(step.report);
    }

    fn take_steps(&mut self, steps: Vec<Stepped>, si_global: String)
        requires
            has_room(old(self).agent, steps@.len()),
        ensures
            session_ran(*old(self), steps@, si_global@, *final(self)),
    {
        let ghost all = steps@;
        let ghost start = *self;
        let mut rest: Vec<Stepped> = reverse_records(steps);
        let ghost mut done: int = 0;
        self.si_global = si_global;
        proof {
            assert(all.take(0) =~= Seq::empty());
            assert(all.take(0).map_values(|x: Stepped| x.report) =~= Seq::empty());
            assert(self.history@ =~= start.history@ + all.take(0).map_values(|x: Stepped| x.report));
            assert(all.skip(0) =~= all);
            assert(all.take(0).map_values(|s: Stepped| s.outcome) =~= Seq::empty());
        }
        while rest.len() > 0
            invariant
                0 <= done <= all.len(),
                rest@ == all.skip(done).reverse(),
                has_room(start.agent, all.len()),
                agent_ran(start.agent, all.take(done), self.agent),
                self.history@ == start.history@ + all.take(done).map_values(|x: Stepped| x.report),
                self.config == start.config,
                self.si_global == si_global,
            decreases rest@.len(),
        {
            let ghost before = self.agent;
            let ghost rows = self.history@;
            match rest.pop() {
                Some(step) => {
                    proof {
                        assert(step == all[done]);
                        assert(all.skip(done).reverse().drop_last() =~= all.skip(done + 1).reverse());
                    }
                    self.take_step(step);
                    proof {
                        lemma_one_more_step(start.agent, all.take(done), before, step, self.agent);
                        assert(all.take(done).push(step) =~= all.take(done + 1));
                        assert(self.history@ =~= start.history@ + all.take(done + 1).map_values(
                            |x: Stepped| x.report,
                        ));
                        done = done + 1;
                    }
                },
                None => {},
            }
        }
        assert(all.take(done) =~= all);
    }
}

/// The error for a session that does not exist.
pub open spec fn unknown_session(id: Seq<char>) -> Seq<char> {
    "session inconnue : '"@ + id + "' (appelez d'abord 'create')"@
}

fn unknown_session_text(id: &str) -> (r: String)
    ensures
        r@ == unknown_session(id@),
{
    let mut message = "session inconnue : '".to_owned();
    message.append(id);
    message.append("' (appelez d'abord 'create')");
    message
}

/// The sessions of agents and of refinements, in the order of their names.
pub struct RsiApi {
    pub sessions: Table<Session>,
    pub refines: Table<RefineSession>,
}

pub type Sessions = Seq<(Seq<char>, Session)>;

/// A new session may not exceed the limit; an existing one is replaced.
pub open spec fn create_error(sessions: Sessions, params: Value) -> Option<Seq<char>> {
    if lookup(sessions, id_of(params)) is None && sessions.len() >= MAX_SESSIONS {
        Some("limite de 64 sessions atteinte ; supprimez-en ou réutilisez un id"@)
    } else {
        match agent_config_of(params) {
            Err(e) => Some(e),
            Ok(_) => None,
        }
    }
}

/// The answer to a session that was created or reset.
pub open spec fn created_value(id: Seq<char>, initial: Snapshot) -> Value {
    empty_obj().with("ok"@, Value::Bool(true)).with("id"@, Value::Str(id)).with("initial"@, snapshot_value(initial, 0))
}

fn created_json(id: &str, initial: &Snapshot) -> (r: Json)
    ensures
        r@ == created_value(id@, *initial),
{
    let mut out = Json::obj();
    out.set("ok", Json::Bool(true));
    out.set("id", Json::text(id));
    out.set("initial", snapshot_json(initial, 0));
    out
}

/// What the last step of a run adds to the answer: its intelligence, the gain over the
/// start and its report.
pub open spec fn with_last(out: Value, steps: Seq<Stepped>, gain: Seq<char>) -> Value {
    if steps.len() == 0 {
        out
    } else {
        out.with("si_end"@, Value::Num(steps.last().report.si_global@)).with("gain"@, Value::Num(gain)).with(
            "last"@,
            report_value(steps.last().report),
        )
    }
}

pub open spec fn run_value(
    id: Seq<char>,
    steps: u64,
    si_start: Seq<char>,
    total: u64,
    taken: Seq<Stepped>,
    gain: Seq<char>,
) -> Value {
    with_last(
        empty_obj().with("ok"@, Value::Bool(true)).with("id"@, Value::Str(id)).with(
            "steps"@,
            Value::Num(decimal(steps as nat)),
        ).with("si_start"@, Value::Num(si_start)).with("total_steps"@, Value::Num(decimal(total as nat))),
        taken,
        gain,
    )
}

fn set_last(out: &mut Json, steps: &[Stepped], gain: &str)
    ensures
        final(out)@ == with_last(old(out)@, steps@, gain@),
{
    if steps.len() > 0 {
        let last = &steps[steps.len() - 1];
        out.set("si_end", Json::Num(last.report.si_global.clone()));
        out.set("gain", Json::Num(gain.to_owned()));
        out.set("last", step_report_json(&last.report));
    }
}

/// Why a driven run ended.
#[derive(Debug, Clone, Copy, PartialEq, Eq, Structural)]
pub enum LoopStop {
    MaxSteps,
    TargetReached,
    Plateau,
    Diverged,
    Timeout,
    CircuitBreaker,
    Vetoed,
}

impl LoopStop {
    pub open spec fn label(self) -> &'static str {
        match self {
            LoopStop::MaxSteps => "max_steps",
            LoopStop::TargetReached => "target_reached",
            LoopStop::Plateau => "plateau",
            LoopStop::Diverged => "diverged",
            LoopStop::Timeout => "timeout",
            LoopStop::CircuitBreaker => "circuit_breaker",
            LoopStop::Vetoed => "vetoed",
        }
    }

    pub fn name(&self) -> (r: &'static str)
        ensures
            r == self.label(),
    {
        match self {
            LoopStop::MaxSteps => "max_steps",
            LoopStop::TargetReached => "target_reached",
            LoopStop::Plateau => "plateau",
            LoopStop::Diverged => "diverged",
            LoopStop::Timeout => "timeout",
            LoopStop::CircuitBreaker => "circuit_breaker",
            LoopStop::Vetoed => "vetoed",
        }
    }
}

/// A driven run as the numeric side reports it.
pub struct DrivenRun {
    pub si_start: String,
    pub reason: LoopStop,
    pub final_slope: String,
    pub steps: Vec<Stepped>,
    /// The intelligence at the end less that at the start.
    pub gain: String,
}

pub open spec fn run_until_value(id: Seq<char>, run: DrivenRun, total: u64) -> Value {
    with_last(
        empty_obj().with("ok"@, Value::Bool(true)).with("id"@, Value::Str(id)).with(
            "reason"@,
            Value::Str(run.reason.label()@),
        ).with("steps"@, Value::Num(decimal(run.steps@.len()))).with("final_slope"@, Value::Num(run.final_slope@)).with(
            "si_start"@,
            Value::Num(run.si_start@),
        ).with("total_steps"@, Value::Num(decimal(total as nat))),
        run.steps@,
        run.gain@,
    )
}

/// The format of an export.
pub open spec fn format_of(params: Value) -> Seq<char> {
    match str_at(params, "format"@) {
        Some(f) => f,
        None => "json"@,
    }
}

/// How many steps a run takes.
pub open spec fn steps_of(params: Value) -> u64 {
    bounded_of(params, "steps"@, 100, 0, MAX_STEPS)
}

/// How many steps a run takes, at most the limit.
pub fn run_steps(params: &Json) -> (r: u64)
    ensures
        r == steps_of(params@),
{
    bounded(params, "steps", 100, 0, MAX_STEPS)
}

impl RsiApi {
    pub fn new() -> (r: Self)
        ensures
            r.sessions@ == Seq::<(Seq<char>, Session)>::empty(),
            r.refines@ == Seq::<(Seq<char>, RefineSession)>::empty(),
    {
        RsiApi { sessions: Table::new(), refines: Table::new() }
    }

    /// Opens a session for an agent of this configuration, or replaces one.
    pub fn cmd_create(&mut self, params: &Json, agent: RSIAgent, initial: &Snapshot) -> (r: Result<Json, String>)
        ensures
            final(self).refines == old(self).refines,
            match r {
                Err(e) => create_error(old(self).sessions@, params@) == Some(e@) && *final(self) == *old(self),
                Ok(j) => {
                    &&& create_error(old(self).sessions@, params@) is None
                    &&& j@ == created_value(id_of(params@), *initial)
                    &&& lookup(final(self).sessions@, id_of(params@)) matches Some(s)
                    &&& final(self).sessions@ == set_member(old(self).sessions@, id_of(params@), s)
                    &&& s.agent == agent
                    &&& s.si_global@ == initial.si_global@
                    &&& s.history@.len() == 0
                    &&& s.config@ == params@
                },
            },
    {
        let id = session_id(params);
        if !self.sessions.contains(id.as_str()) && self.sessions.len() >= MAX_SESSIONS {
            return Err("limite de 64 sessions atteinte ; supprimez-en ou réutilisez un id".to_owned());
        }
        match agent_config(params) {
            Err(e) => {
                return Err(e);
            },
            Ok(_) => {},
        }
        let history: Vec<StepReport> = Vec::new();
        let s = Session { agent, si_global: initial.si_global.clone(), history, config: params.clone() };
        self.sessions.insert(id.as_str(), s);
        Ok(created_json(id.as_str(), initial))
    }

    /// Starts a session again with an agent of its own configuration.
    pub fn cmd_reset(&mut self, params: &Json, agent: RSIAgent, initial: &Snapshot) -> (r: Result<Json, String>)
        ensures
            final(self).refines == old(self).refines,
            match (lookup(old(self).sessions@, id_of(params@)), r) {
                (None, Err(e)) => e@ == "session inconnue : '"@ + id_of(params@) + "'"@ && *final(self) == *old(self),
                (Some(before), Err(e)) => agent_config_of(before.config@) == Err::<AgentConfig<Seq<char>>, Seq<char>>(e@)
                    && *final(self) == *old(self),
                (Some(before), Ok(j)) => {
                    &&& agent_config_of(before.config@) is Ok
                    &&& j@ == created_value(id_of(params@), *initial)
                    &&& lookup(final(self).sessions@, id_of(params@)) matches Some(s)
                    &&& final(self).sessions@ == set_member(old(self).sessions@, id_of(params@), s)
                    &&& s.agent == agent
                    &&& s.si_global@ == initial.si_global@
                    &&& s.history@.len() == 0
                    &&& s.config@ == before.config@
                },
                _ => false,
            },
    {
        let id = session_id(params);
        let config: Json = match self.sessions.get(id.as_str()) {
            None => {
                let mut message = "session inconnue : '".to_owned();
                message.append(id.as_str());
                message.append("'");
                return Err(message);
            },
            Some(s) => s.config.clone(),
        };
        match agent_config(&config) {
            Err(e) => {
                return Err(e);
            },
            Ok(_) => {},
        }
        let history: Vec<StepReport> = Vec::new();
        let s = Session { agent, si_global: initial.si_global.clone(), history, config };
        self.sessions.insert(id.as_str(), s);
        Ok(created_json(id.as_str(), initial))
    }

    /// Lets a session take steps that were computed for it; false if there is none.
    fn advance(&mut self, id: &str, steps: Vec<Stepped>, si_global: String) -> (r: Option<u64>)
        requires
            lookup(old(self).sessions@, id@) matches Some(s) ==> has_room(s.agent, steps@.len()),
        ensures
            final(self).refines == old(self).refines,
            match (lookup(old(self).sessions@, id@), r) {
                (None, None) => final(self).sessions@ == old(self).sessions@,
                (Some(before), Some(t)) => {
                    &&& lookup(final(self).sessions@, id@) matches Some(s)
                    &&& final(self).sessions@ == set_member(old(self).sessions@, id@, s)
                    &&& session_ran(before, steps@, si_global@, s)
                    &&& t == s.agent.current.t
                },
                _ => false,
            },
    {
        let ghost rows = self.sessions@;
        match self.sessions.remove(id) {
            None => None,
            Some(mut s) => {
                s.take_steps(steps, si_global);
                let t: u64 = s.agent.current.t;
                let ghost after = s;
                self.sessions.insert(id, s);
                proof {
                    law_remove_then_insert_replaces(rows, id@, after);
                }
                Some(t)
            },
        }
    }

    /// The time of a session's agent.
    fn time_of(&self, id: &str) -> (r: Option<u64>)
        ensures
            match (lookup(self.sessions@, id@), r) {
                (Some(s), Some(t)) => t == s.agent.current.t,
                (None, None) => true,
                _ => false,
            },
    {
        match self.sessions.get(id) {
            Some(s) => Some(s.agent.current.t),
            None => None,
        }
    }

    /// Takes one step in a session and answers with its report.
    pub fn cmd_step(&mut self, params: &Json, step: Stepped) -> (r: Result<Json, String>)
        requires
            lookup(old(self).sessions@, id_of(params@)) matches Some(s) ==> has_room(s.agent, 1),
        ensures
            final(self).refines == old(self).refines,
            match (lookup(old(self).sessions@, id_of(params@)), r) {
                (None, Err(e)) => e@ == unknown_session(id_of(params@)) && final(self).sessions@ == old(self).sessions@,
                (Some(before), Ok(j)) => {
                    &&& j@ == report_value(step.report)
                    &&& lookup(final(self).sessions@, id_of(params@)) matches Some(s)
                    &&& final(self).sessions@ == set_member(old(self).sessions@, id_of(params@), s)
                    &&& session_ran(before, seq![step], step.report.si_global@, s)
                },
                _ => false,
            },
    {
        let id = session_id(params);
        let answer = step_report_json(&step.report);
        let si_global = step.report.si_global.clone();
        let ghost given = step;
        let mut steps: Vec<Stepped> = Vec::new();
        steps.push(step);
        assert(steps@ =~= seq![given]);
        match self.advance(id.as_str(), steps, si_global) {
            None => Err(unknown_session_text(id.as_str())),
            Some(_) => Ok(answer),
        }
    }

    /// Takes as many steps in a session as the parameters ask for. `steps` holds them,
    /// `si_start` is the intelligence before them and `gain` what the last one adds to it.
    pub fn cmd_run(&mut self, params: &Json, si_start: &str, steps: Vec<Stepped>, gain: &str) -> (r: Result<Json, String>)
        requires
            steps@.len() == steps_of(params@),
            lookup(old(self).sessions@, id_of(params@)) matches Some(s) ==> has_room(s.agent, steps@.len()),
        ensures
            final(self).refines == old(self).refines,
            match (lookup(old(self).sessions@, id_of(params@)), r) {
                (None, Err(e)) => e@ == unknown_session(id_of(params@)) && final(self).sessions@ == old(self).sessions@,
                (Some(before), Ok(j)) => {
                    &&& lookup(final(self).sessions@, id_of(params@)) matches Some(s)
                    &&& final(self).sessions@ == set_member(old(self).sessions@, id_of(params@), s)
                    &&& session_ran(before, steps@, si_after(si_start@, steps@), s)
                    &&& j@ == run_value(
                        id_of(params@),
                        steps_of(params@),
                        si_start@,
                        s.agent.current.t,
                        steps@,
                        gain@,
                    )
                },
                _ => false,
            },
    {
        let id = session_id(params);
        match self.time_of(id.as_str()) {
            None => Err(unknown_session_text(id.as_str())),
            Some(t) => {
                let mut out = Json::obj();
                out.set("ok", Json::Bool(true));
                out.set("id", Json::text(id.as_str()));
                out.set("steps", Json::num(run_steps(params)));
                out.set("si_start", Json::Num(si_start.to_owned()));
                out.set("total_steps", Json::num(t + steps.len() as u64));
                set_last(&mut out, steps.as_slice(), gain);
                let si_end = last_si(si_start, steps.as_slice());
                let _ = self.advance(id.as_str(), steps, si_end);
                Ok(out)
            },
        }
    }

    /// Drives a session until a criterion ends the run, and says which.
    pub fn cmd_run_until(&mut self, params: &Json, run: DrivenRun) -> (r: Result<Json, String>)
        requires
            lookup(old(self).sessions@, id_of(params@)) matches Some(s) ==> has_room(s.agent, run.steps@.len()),
        ensures
            final(self).refines == old(self).refines,
            match (lookup(old(self).sessions@, id_of(params@)), r) {
                (None, Err(e)) => e@ == unknown_session(id_of(params@)) && final(self).sessions@ == old(self).sessions@,
                (Some(before), Ok(j)) => {
                    &&& lookup(final(self).sessions@, id_of(params@)) matches Some(s)
                    &&& final(self).sessions@ == set_member(old(self).sessions@, id_of(params@), s)
                    &&& session_ran(before, run.steps@, si_after(run.si_start@, run.steps@), s)
                    &&& j@ == run_until_value(id_of(params@), run, s.agent.current.t)
                },
                _ => false,
            },
    {
        let id = session_id(params);
        match self.time_of(id.as_str()) {
            None => Err(unknown_session_text(id.as_str())),
            Some(t) => {
                let mut out = Json::obj();
                out.set("ok", Json::Bool(true));
                out.set("id", Json::text(id.as_str()));
                out.set("reason", Json::text(run.reason.name()));
                out.set("steps", Json::num(run.steps.len() as u64));
                out.set("final_slope", Json::Num(run.final_slope));
                out.set("si_start", Json::Num(run.si_start.clone()));
                out.set("total_steps", Json::num(t + run.steps.len() as u64));
                set_last(&mut out, run.steps.as_slice(), run.gain.as_str());
                let si_end = last_si(run.si_start.as_str(), run.steps.as_slice());
                let _ = self.advance(id.as_str(), run.steps, si_end);
                Ok(out)
            },
        }
    }

    /// The measures of a session's agent.
    pub fn cmd_state(&self, params: &Json, measured: &Snapshot) -> (r: Result<Json, String>)
        ensures
            match (lookup(self.sessions@, id_of(params@)), r) {
                (None, Err(e)) => e@ == unknown_session(id_of(params@)),
                (Some(s), Ok(j)) => j@ == snapshot_value(*measured, s.agent.current.t),
                _ => false,
            },
    {
        let id = session_id(params);
        match self.time_of(id.as_str()) {
            None => Err(unknown_session_text(id.as_str())),
            Some(t) => Ok(snapshot_json(measured, t)),
        }
    }

    /// Exports the reports of a session in the format of the parameters; `data` is their
    /// text in that format.
    pub fn cmd_export(&self, params: &Json, data: &str) -> (r: Result<Json, String>)
        ensures
            match (lookup(self.sessions@, id_of(params@)), r) {
                (None, Err(e)) => e@ == unknown_session(id_of(params@)),
                (Some(s), Err(e)) => format_of(params@) != "csv"@ && format_of(params@) != "json"@ && e@
                    == "format inconnu : '"@ + format_of(params@) + "' (csv|json)"@,
                (Some(s), Ok(j)) => {
                    &&& format_of(params@) == "csv"@ || format_of(params@) == "json"@
                    &&& j@ == empty_obj().with("ok"@, Value::Bool(true)).with(
                        "format"@,
                        Value::Str(format_of(params@)),
                    ).with("rows"@, Value::Num(decimal(s.history@.len()))).with("data"@, Value::Str(data@))
                },
                _ => false,
            },
    {
        let id = session_id(params);
        let format: &str = match params.str_at("format") {
            Some(f) => f,
            None => "json",
        };
        match self.sessions.get(id.as_str()) {
            None => Err(unknown_session_text(id.as_str())),
            Some(s) => {
                if !same_text(format, "csv") && !same_text(format, "json") {
                    let mut message = "format inconnu : '".to_owned();
                    message.append(format);
                    message.append("' (csv|json)");
                    return Err(message);
                }
                let mut out = Json::obj();
                out.set("ok", Json::Bool(true));
                out.set("format", Json::text(format));
                out.set("rows", Json::num(s.history.len() as u64));
                out.set("data", Json::text(data));
                Ok(out)
            },
        }
    }
}

/// The intelligence after a run: that of its last step, or that of its start.
pub open spec fn si_after(si_start: Seq<char>, steps: Seq<Stepped>) -> Seq<char> {
    if steps.len() == 0 {
        si_start
    } else {
        steps.last().report.si_global@
    }
}

fn last_si(si_start: &str, steps: &[Stepped]) -> (r: String)
    ensures
        r@ == si_after(si_start@, steps@),
{
    if steps.len() == 0 {
        si_start.to_owned()
    } else {
        steps[steps.len() - 1].report.si_global.clone()
    }
}

// ---------------------------------------------------------------------------
// Refinement
// ---------------------------------------------------------------------------

/// The best candidate of a refinement with its figures.
#[derive(Debug, PartialEq, Eq)]
pub struct Incumbent {
    pub pretty: String,
    pub size: u64,
    /// The score as a number, and its bits.
    pub score: String,
    pub fitness: Measure,
    pub heldout: String,
}

/// A refinement session: what is refined, the best candidate and what became of the
/// proposals.
pub struct RefineSession {
    pub domain: DomainConfig,
    pub incumbent: Incumbent,
    pub heldout_cases: u64,
    pub config: Json,
    pub proposals_seen: u64,
    pub accepted: u64,
    pub rejected_unsafe: u64,
    pub rejected_worse: u64,
    pub rejected_unparsed: u64,
}

/// What the examination of a candidate found. An unsafe candidate has a reason.
#[derive(Debug, PartialEq, Eq)]
pub enum Examination {
    Unparsed(String),
    Parsed { candidate: Incumbent, unsafe_reason: Option<String> },
}

/// A domain that was built for a refinement: the bounds of its points, its first
/// candidate and how many cases are held out.
pub struct BuiltDomain {
    pub lo: Measure,
    pub hi: Measure,
    pub incumbent: Incumbent,
    pub heldout_cases: u64,
}

pub type Refines = Seq<(Seq<char>, RefineSession)>;

pub open spec fn unknown_refine(id: Seq<char>) -> Seq<char> {
    "session de raffinement inconnue : '"@ + id + "' (appelez d'abord 'refine_new')"@
}

fn unknown_refine_text(id: &str) -> (r: String)
    ensures
        r@ == unknown_refine(id@),
{
    let mut message = "session de raffinement inconnue : '".to_owned();
    message.append(id);
    message.append("' (appelez d'abord 'refine_new')");
    message
}

pub open spec fn count_value(n: u64) -> Value {
    Value::Num(decimal(n as nat))
}

/// The best candidate with its figures and what became of the proposals.
pub open spec fn incumbent_value(s: RefineSession) -> Value {
    empty_obj().with("pretty"@, Value::Str(s.incumbent.pretty@)).with("size"@, count_value(s.incumbent.size)).with(
        "score"@,
        Value::Num(s.incumbent.score@),
    ).with("heldout"@, Value::Num(s.incumbent.heldout@)).with("domain"@, Value::Str(domain_name(s.domain@))).with(
        "config"@,
        Value::Str(domain_descriptor(s.domain@)),
    ).with("accepted"@, count_value(s.accepted)).with("proposals_seen"@, count_value(s.proposals_seen)).with(
        "rejected_unsafe"@,
        count_value(s.rejected_unsafe),
    ).with("rejected_worse"@, count_value(s.rejected_worse)).with(
        "rejected_unparsed"@,
        count_value(s.rejected_unparsed),
    ).with("heldout_cases"@, count_value(s.heldout_cases))
}

pub fn incumbent_json(s: &RefineSession) -> (r: Json)
    ensures
        r@ == incumbent_value(*s),
{
    let mut o = Json::obj();
    o.set("pretty", Json::text(s.incumbent.pretty.as_str()));
    o.set("size", Json::num(s.incumbent.size));
    o.set("score", Json::Num(s.incumbent.score.clone()));
    o.set("heldout", Json::Num(s.incumbent.heldout.clone()));
    o.set("domain", Json::text(s.domain.name()));
    o.set("config", Json::text(s.domain.descriptor()));
    o.set("accepted", Json::num(s.accepted));
    o.set("proposals_seen", Json::num(s.proposals_seen));
    o.set("rejected_unsafe", Json::num(s.rejected_unsafe));
    o.set("rejected_worse", Json::num(s.rejected_worse));
    o.set("rejected_unparsed", Json::num(s.rejected_unparsed));
    o.set("heldout_cases", Json::num(s.heldout_cases));
    o
}

/// Why no refinement session can be opened under a name.
pub open spec fn refine_limit_reached(refines: Refines, id: Seq<char>) -> bool {
    lookup(refines, id) is None && refines.len() >= MAX_SESSIONS
}

/// Why a domain cannot be built.
pub open spec fn build_error(config: Value, lo: Measure, hi: Measure) -> Option<Seq<char>> {
    match domain_of(config) {
        Err(e) => Some(e),
        Ok(d) => if d is Synthesis && !interval_is_valid(lo, hi) {
            Some("intervalle invalide : exiger lo < hi finis"@)
        } else {
            None
        },
    }
}

/// The domain of a configuration, with the bounds that the numeric side read from it.
fn build_domain(config: &Json, lo: &Measure, hi: &Measure) -> (r: Result<DomainConfig, String>)
    ensures
        match r {
            Ok(d) => build_error(config@, *lo, *hi) is None && domain_of(config@) == Ok::<
                DomainConfig<Seq<char>>,
                Seq<char>,
            >(d@),
            Err(e) => build_error(config@, *lo, *hi) == Some(e@),
        },
{
    let domain = domain_config(config)?;
    match &domain {
        DomainConfig::Synthesis { .. } => match check_interval(lo, hi) {
            Ok(_) => {},
            Err(e) => {
                return Err(e);
            },
        },
        _ => {},
    }
    Ok(domain)
}

pub open spec fn opened_value(id: Seq<char>, s: RefineSession) -> Value {
    empty_obj().with("ok"@, Value::Bool(true)).with("id"@, Value::Str(id)).with("incumbent"@, incumbent_value(s))
}

fn opened_json(id: &str, s: &RefineSession) -> (r: Json)
    ensures
        r@ == opened_value(id@, *s),
{
    let mut out = Json::obj();
    out.set("ok", Json::Bool(true));
    out.set("id", Json::text(id));
    out.set("incumbent", incumbent_json(s));
    out
}

/// The state from which a refinement goes on: the configuration, the best candidate and
/// the counts.
pub open spec fn saved_value(s: RefineSession) -> Value {
    empty_obj().with("config"@, s.config@).with("incumbent"@, Value::Str(s.incumbent.pretty@)).with(
        "accepted"@,
        count_value(s.accepted),
    ).with("proposals_seen"@, count_value(s.proposals_seen)).with("rejected_unsafe"@, count_value(s.rejected_unsafe)).with(
        "rejected_worse"@,
        count_value(s.rejected_worse),
    ).with("rejected_unparsed"@, count_value(s.rejected_unparsed))
}

/// A count of a saved state, zero where it has none.
pub open spec fn count_at(state: Value, key: Seq<char>) -> u64 {
    match u64_at(state, key) {
        Some(n) => n,
        None => 0,
    }
}

fn read_count(state: &Json, key: &str) -> (r: u64)
    ensures
        r == count_at(state@, key@),
{
    match state.u64_at(key) {
        Some(n) => n,
        None => 0,
    }
}

/// A session that goes on from a saved state.
pub open spec fn resumes(state: Value, incumbent: Incumbent, heldout_cases: u64, s: RefineSession) -> bool {
    &&& get(state, "config"@) == Some(s.config@)
    &&& domain_of(s.config@) == Ok::<DomainConfig<Seq<char>>, Seq<char>>(s.domain@)
    &&& s.incumbent == incumbent
    &&& s.heldout_cases == heldout_cases
    &&& s.proposals_seen == count_at(state, "proposals_seen"@)
    &&& s.accepted == count_at(state, "accepted"@)
    &&& s.rejected_unsafe == count_at(state, "rejected_unsafe"@)
    &&& s.rejected_worse == count_at(state, "rejected_worse"@)
    &&& s.rejected_unparsed == count_at(state, "rejected_unparsed"@)
}

/// Why a saved state cannot be resumed.
pub open spec fn load_error(
    refines: Refines,
    params: Value,
    built: BuiltDomain,
    restored: Result<Incumbent, Seq<char>>,
) -> Option<Seq<char>> {
    if refine_limit_reached(refines, id_of(params)) {
        Some("limite de 64 sessions de raffinement atteinte"@)
    } else {
        match get(params, "state"@) {
            None => Some("paramètre 'state' requis"@),
            Some(state) => match get(state, "config"@) {
                None => Some("state.config manquant"@),
                Some(config) => match build_error(config, built.lo, built.hi) {
                    Some(e) => Some(e),
                    None => match restored {
                        Err(e) => if str_at(state, "incumbent"@) is Some {
                            Some("incumbent du checkpoint invalide : "@ + e)
                        } else {
                            None
                        },
                        Ok(_) => None,
                    },
                },
            },
        }
    }
}

pub open spec fn restored_view(restored: Result<Incumbent, String>) -> Result<Incumbent, Seq<char>> {
    match restored {
        Ok(x) => Ok(x),
        Err(e) => Err(e@),
    }
}

/// The candidate of the parameters.
pub open spec fn candidate_of(params: Value) -> Option<Seq<char>> {
    match get(params, "candidate"@) {
        Some(v) => as_str(v),
        None => str_at(params, "text"@),
    }
}

fn read_candidate(params: &Json) -> (r: Option<&str>)
    ensures
        match r {
            Some(s) => candidate_of(params@) == Some(s@),
            None => candidate_of(params@) is None,
        },
{
    match params.get("candidate") {
        Some(v) => v.as_str(),
        None => params.str_at("text"),
    }
}

/// The candidate to evaluate.
pub fn candidate(params: &Json) -> (r: Result<String, String>)
    ensures
        match r {
            Ok(s) => candidate_of(params@) == Some(s@),
            Err(e) => candidate_of(params@) is None && e@
                == "paramètre 'candidate' (texte de l'expression) requis"@,
        },
{
    match read_candidate(params) {
        Some(s) => Ok(s.to_owned()),
        None => Err("paramètre 'candidate' (texte de l'expression) requis".to_owned()),
    }
}

/// The texts among the values.
pub open spec fn strings_of(items: Seq<Value>) -> Seq<Seq<char>>
    decreases items.len(),
{
    if items.len() == 0 {
        Seq::empty()
    } else {
        let before = strings_of(items.drop_last());
        match as_str(items.last()) {
            Some(s) => before.push(s),
            None => before,
        }
    }
}

/// The proposals of the parameters, at most as many as one call may hold.
pub open spec fn proposals_of(params: Value) -> Result<Seq<Seq<char>>, Seq<char>> {
    let listed = match get(params, "proposals"@) {
        Some(v) => as_array(v),
        None => None,
    };
    let raw = match listed {
        Some(items) => Some(at_most(strings_of(items), MAX_PROPOSALS_PER_CALL as nat)),
        None => match candidate_of(params) {
            Some(text) => Some(at_most(filled_lines(split(text, '\n')), MAX_PROPOSALS_PER_CALL as nat)),
            None => None,
        },
    };
    match raw {
        None => Err("fournir 'proposals' (tableau de chaînes) ou 'candidate' (texte)"@),
        Some(texts) => if texts.len() == 0 {
            Err("aucune proposition fournie"@)
        } else {
            Ok(texts)
        },
    }
}

fn read_strings(items: &[Json]) -> (r: Vec<String>)
    ensures
        texts(r@) == strings_of(values(items@)),
{
    let mut out: Vec<String> = Vec::new();
    let mut i: usize = 0;
    let ghost all = values(items@);
    assert(texts(out@) =~= strings_of(all.take(0)));
    while i < items.len()
        invariant
            i <= items@.len(),
            all == values(items@),
            texts(out@) == strings_of(all.take(i as int)),
        decreases items@.len() - i,
    {
        let ghost before = out@;
        proof {
            assert(all.take(i + 1).drop_last() =~= all.take(i as int));
            assert(all.take(i + 1).last() == items@[i as int]@);
        }
        match items[i].as_str() {
            Some(s) => {
                out.push(s.to_owned());
                assert(texts(out@) =~= texts(before).push(s@));
            },
            None => {},
        }
        i += 1;
    }
    assert(all.take(i as int) =~= all);
    out
}

fn keep_front(items: Vec<String>, n: usize) -> (r: Vec<String>)
    ensures
        texts(r@) == at_most(texts(items@), n as nat),
{
    let mut out = items;
    if n < out.len() {
        out.truncate(n);
    }
    assert(texts(out@) =~= at_most(texts(items@), n as nat));
    out
}

/// Reads the proposals.
pub fn proposals(params: &Json) -> (r: Result<Vec<String>, String>)
    ensures
        match r {
            Ok(p) => proposals_of(params@) == Ok::<Seq<Seq<char>>, Seq<char>>(texts(p@)),
            Err(e) => proposals_of(params@) == Err::<Seq<Seq<char>>, Seq<char>>(e@),
        },
{
    let listed: Option<&Vec<Json>> = match params.get("proposals") {
        Some(v) => v.as_array(),
        None => None,
    };
    let raw: Vec<String> = match listed {
        Some(items) => keep_front(read_strings(items.as_slice()), MAX_PROPOSALS_PER_CALL),
        None => match read_candidate(params) {
            Some(text) => keep_front(nonempty_lines(text), MAX_PROPOSALS_PER_CALL),
            None => {
                return Err("fournir 'proposals' (tableau de chaînes) ou 'candidate' (texte)".to_owned());
            },
        },
    };
    if raw.len() == 0 {
        return Err("aucune proposition fournie".to_owned());
    }
    Ok(raw)
}

/// The best candidate and the counts of a refinement.
pub ghost struct RefineState {
    pub incumbent: Incumbent,
    pub seen: int,
    pub accepted: int,
    pub rejected_unsafe: int,
    pub rejected_worse: int,
    pub rejected_unparsed: int,
}

impl RefineSession {
    pub open spec fn state(&self) -> RefineState {
        RefineState {
            incumbent: self.incumbent,
            seen: self.proposals_seen as int,
            accepted: self.accepted as int,
            rejected_unsafe: self.rejected_unsafe as int,
            rejected_worse: self.rejected_worse as int,
            rejected_unparsed: self.rejected_unparsed as int,
        }
    }

    /// The counts have room for so many more proposals.
    pub open spec fn has_room(&self, n: nat) -> bool {
        self.proposals_seen + n <= u64::MAX && self.accepted + n <= u64::MAX && self.rejected_unsafe + n <= u64::MAX
            && self.rejected_worse + n <= u64::MAX && self.rejected_unparsed + n <= u64::MAX
    }
}

/// A candidate is adopted when it is safe and strictly better than the best one.
pub open spec fn is_adopted(st: RefineState, exam: Examination) -> bool {
    exam matches Examination::Parsed { candidate, unsafe_reason } && unsafe_reason is None
        && st.incumbent.fitness.below(candidate.fitness)
}

/// A refinement after a proposal.
pub open spec fn after_proposal(st: RefineState, exam: Examination) -> RefineState {
    let seen = st.seen + 1;
    match exam {
        Examination::Unparsed(_) => RefineState { seen, rejected_unparsed: st.rejected_unparsed + 1, ..st },
        Examination::Parsed { candidate, unsafe_reason } => if unsafe_reason is Some {
            RefineState { seen, rejected_unsafe: st.rejected_unsafe + 1, ..st }
        } else if st.incumbent.fitness.below(candidate.fitness) {
            RefineState { seen, incumbent: candidate, accepted: st.accepted + 1, ..st }
        } else {
            RefineState { seen, rejected_worse: st.rejected_worse + 1, ..st }
        },
    }
}

/// A refinement after a list of proposals.
pub open spec fn after_proposals(st: RefineState, exams: Seq<Examination>) -> RefineState
    decreases exams.len(),
{
    if exams.len() == 0 {
        st
    } else {
        after_proposal(after_proposals(st, exams.drop_last()), exams.last())
    }
}

/// The answer to a proposal.
pub open spec fn item_value(st: RefineState, input: Seq<char>, exam: Examination) -> Value {
    let item = empty_obj().with("input"@, Value::Str(input));
    match exam {
        Examination::Unparsed(e) => item.with("status"@, Value::Str("unparsed"@)).with("error"@, Value::Str(e@)),
        Examination::Parsed { candidate, unsafe_reason } => match unsafe_reason {
            Some(reason) => item.with("status"@, Value::Str("rejected_unsafe"@)).with("reason"@, Value::Str(reason@)),
            None => item.with(
                "status"@,
                Value::Str(
                    if st.incumbent.fitness.below(candidate.fitness) {
                        "adopted"@
                    } else {
                        "rejected_worse"@
                    },
                ),
            ).with("pretty"@, Value::Str(candidate.pretty@)).with("score"@, Value::Num(candidate.score@)),
        },
    }
}

/// The answers to a list of proposals.
pub open spec fn item_values(st: RefineState, inputs: Seq<Seq<char>>, exams: Seq<Examination>) -> Seq<Value> {
    Seq::new(exams.len(), |i: int| item_value(after_proposals(st, exams.take(i)), inputs[i], exams[i]))
}

impl RefineSession {
    fn examine(&mut self, input: &str, exam: Examination) -> (r: Json)
        requires
            old(self).has_room(1),
        ensures
            final(self).state() == after_proposal(old(self).state(), exam),
            r@ == item_value(old(self).state(), input@, exam),
            final(self).domain == old(self).domain,
            final(self).config == old(self).config,
            final(self).heldout_cases == old(self).heldout_cases,
    {
        let mut item = Json::obj();
        item.set("input", Json::text(input));
        self.proposals_seen = self.proposals_seen + 1;
        match exam {
            Examination::Unparsed(e) => {
                self.rejected_unparsed = self.rejected_unparsed + 1;
                item.set("status", Json::text("unparsed"));
                item.set("error", Json::Str(e));
            },
            Examination::Parsed { candidate, unsafe_reason } => match unsafe_reason {
                Some(reason) => {
                    self.rejected_unsafe = self.rejected_unsafe + 1;
                    item.set("status", Json::text("rejected_unsafe"));
                    item.set("reason", Json::Str(reason));
                },
                None => {
                    let better: bool = self.incumbent.fitness.is_below(&candidate.fitness);
                    item.set("status", Json::text(if better { "adopted" } else { "rejected_worse" }));
                    item.set("pretty", Json::text(candidate.pretty.as_str()));
                    item.set("score", Json::Num(candidate.score.clone()));
                    if better {
                        self.accepted = self.accepted + 1;
                        self.incumbent = candidate;
                    } else {
                        self.rejected_worse = self.rejected_worse + 1;
                    }
                },
            },
        }
        item
    }

    fn examine_all(&mut self, inputs: &[String], exams: Vec<Examination>) -> (r: Vec<Json>)
        requires
            inputs@.len() == exams@.len(),
            old(self).has_room(exams@.len()),
        ensures
            final(self).state() == after_proposals(old(self).state(), exams@),
            values(r@) == item_values(old(self).state(), texts(inputs@), exams@),
            final(self).domain == old(self).domain,
            final(self).config == old(self).config,
            final(self).heldout_cases == old(self).heldout_cases,
    {
        let ghost all = exams@;
        let ghost start = *self;
        let mut rest: Vec<Examination> = reverse_records(exams);
        let mut out: Vec<Json> = Vec::new();
        let mut done: usize = 0;
        proof {
            assert(all.take(0) =~= Seq::empty());
            assert(all.skip(0) =~= all);
        }
        while rest.len() > 0
            invariant
                done <= all.len(),
                inputs@.len() == all.len(),
                out@.len() == done,
                rest@ == all.skip(done as int).reverse(),
                start.has_room(all.len()),
                self.state() == after_proposals(start.state(), all.take(done as int)),
                within(start, *self, done as nat),
                self.domain == start.domain,
                self.config == start.config,
                self.heldout_cases == start.heldout_cases,
                forall|j: int|
                    0 <= j < done ==> (#[trigger] out@[j])@ == item_value(
                        after_proposals(start.state(), all.take(j)),
                        inputs@[j]@,
                        all[j],
                    ),
            decreases rest@.len(),
        {
            match rest.pop() {
                Some(exam) => {
                    proof {
                        assert(exam == all[done as int]);
                        assert(all.skip(done as int).reverse().drop_last() =~= all.skip(done + 1).reverse());
                        assert(all.take(done + 1).drop_last() =~= all.take(done as int));
                        assert(all.take(done + 1).last() == exam);
                    }
                    let item = self.examine(inputs[done].as_str(), exam);
                    out.push(item);
                    done += 1;
                },
                None => {},
            }
        }
        proof {
            assert(all.take(done as int) =~= all);
            assert(values(out@) =~= item_values(start.state(), texts(inputs@), all));
        }
        out
    }
}

/// No count has grown by more than the number of proposals.
spec fn within(a: RefineSession, b: RefineSession, n: nat) -> bool {
    b.proposals_seen <= a.proposals_seen + n && b.accepted <= a.accepted + n && b.rejected_unsafe <= a.rejected_unsafe + n
        && b.rejected_worse <= a.rejected_worse + n && b.rejected_unparsed <= a.rejected_unparsed + n
}

pub open spec fn evaluation_value(id: Seq<char>, s: RefineSession, exam: Examination) -> Value {
    let base = empty_obj().with("ok"@, Value::Bool(true)).with("id"@, Value::Str(id)).with(
        "parseable"@,
        Value::Bool(exam is Parsed),
    ).with("incumbent_score"@, Value::Num(s.incumbent.score@));
    match exam {
        Examination::Unparsed(e) => base.with("error"@, Value::Str(e@)),
        Examination::Parsed { candidate, unsafe_reason } => {
            let scored = base.with("pretty"@, Value::Str(candidate.pretty@)).with("size"@, count_value(candidate.size)).with(
                "score"@,
                Value::Num(candidate.score@),
            ).with("heldout"@, Value::Num(candidate.heldout@)).with("safe"@, Value::Bool(unsafe_reason is None)).with(
                "would_adopt"@,
                Value::Bool(is_adopted(s.state(), exam)),
            );
            match unsafe_reason {
                Some(reason) => scored.with("safety_reason"@, Value::Str(reason@)),
                None => scored,
            }
        },
    }
}

impl RsiApi {
    /// Opens a refinement session, or replaces one, with a domain built for it.
    pub fn cmd_refine_new(&mut self, params: &Json, built: BuiltDomain) -> (r: Result<Json, String>)
        ensures
            final(self).sessions == old(self).sessions,
            match r {
                Err(e) => {
                    &&& *final(self) == *old(self)
                    &&& if refine_limit_reached(old(self).refines@, id_of(params@)) {
                        e@ == "limite de 64 sessions de raffinement atteinte"@
                    } else {
                        build_error(params@, built.lo, built.hi) == Some(e@)
                    }
                },
                Ok(j) => {
                    &&& !refine_limit_reached(old(self).refines@, id_of(params@))
                    &&& build_error(params@, built.lo, built.hi) is None
                    &&& lookup(final(self).refines@, id_of(params@)) matches Some(s)
                    &&& final(self).refines@ == set_member(old(self).refines@, id_of(params@), s)
                    &&& j@ == opened_value(id_of(params@), s)
                    &&& domain_of(params@) == Ok::<DomainConfig<Seq<char>>, Seq<char>>(s.domain@)
                    &&& s.config@ == params@
                    &&& s.heldout_cases == built.heldout_cases
                    &&& s.state() == (RefineState {
                        incumbent: built.incumbent,
                        seen: 0,
                        accepted: 0,
                        rejected_unsafe: 0,
                        rejected_worse: 0,
                        rejected_unparsed: 0,
                    })
                },
            },
    {
        let id = session_id(params);
        if !self.refines.contains(id.as_str()) && self.refines.len() >= MAX_SESSIONS {
            return Err("limite de 64 sessions de raffinement atteinte".to_owned());
        }
        let domain = match build_domain(params, &built.lo, &built.hi) {
            Ok(d) => d,
            Err(e) => {
                return Err(e);
            },
        };
        let s = RefineSession {
            domain,
            incumbent: built.incumbent,
            heldout_cases: built.heldout_cases,
            config: params.clone(),
            proposals_seen: 0,
            accepted: 0,
            rejected_unsafe: 0,
            rejected_worse: 0,
            rejected_unparsed: 0,
        };
        let answer = opened_json(id.as_str(), &s);
        self.refines.insert(id.as_str(), s);
        Ok(answer)
    }

    /// The state from which a refinement can go on later.
    pub fn cmd_refine_save(&self, params: &Json) -> (r: Result<Json, String>)
        ensures
            match (lookup(self.refines@, id_of(params@)), r) {
                (None, Err(e)) => e@ == unknown_refine(id_of(params@)),
                (Some(s), Ok(j)) => j@ == empty_obj().with("ok"@, Value::Bool(true)).with(
                    "id"@,
                    Value::Str(id_of(params@)),
                ).with("state"@, saved_value(s)),
                _ => false,
            },
    {
        let id = session_id(params);
        match self.refines.get(id.as_str()) {
            None => Err(unknown_refine_text(id.as_str())),
            Some(s) => {
                let mut state = Json::obj();
                state.set("config", s.config.clone());
                state.set("incumbent", Json::text(s.incumbent.pretty.as_str()));
                state.set("accepted", Json::num(s.accepted));
                state.set("proposals_seen", Json::num(s.proposals_seen));
                state.set("rejected_unsafe", Json::num(s.rejected_unsafe));
                state.set("rejected_worse", Json::num(s.rejected_worse));
                state.set("rejected_unparsed", Json::num(s.rejected_unparsed));
                let mut out = Json::obj();
                out.set("ok", Json::Bool(true));
                out.set("id", Json::Str(id));
                out.set("state", state);
                Ok(out)
            },
        }
    }

    /// Opens a refinement session from a saved state. `restored` is what became of the
    /// candidate of that state, where it has one: the candidate with its figures, or why
    /// it was refused.
    pub fn cmd_refine_load(&mut self, params: &Json, built: BuiltDomain, restored: Result<Incumbent, String>) -> (r: Result<
        Json,
        String,
    >)
        ensures
            final(self).sessions == old(self).sessions,
            match r {
                Err(e) => {
                    &&& *final(self) == *old(self)
                    &&& load_error(old(self).refines@, params@, built, restored_view(restored)) == Some(e@)
                },
                Ok(j) => {
                    &&& load_error(old(self).refines@, params@, built, restored_view(restored)) is None
                    &&& lookup(final(self).refines@, id_of(params@)) matches Some(s)
                    &&& final(self).refines@ == set_member(old(self).refines@, id_of(params@), s)
                    &&& j@ == opened_value(id_of(params@), s)
                    &&& get(params@, "state"@) matches Some(state)
                    &&& resumes(
                        state,
                        if str_at(state, "incumbent"@) is Some {
                            restored->Ok_0
                        } else {
                            built.incumbent
                        },
                        built.heldout_cases,
                        s,
                    )
                },
            },
    {
        let id = session_id(params);
        if !self.refines.contains(id.as_str()) && self.refines.len() >= MAX_SESSIONS {
            return Err("limite de 64 sessions de raffinement atteinte".to_owned());
        }
        let state: &Json = match params.get("state") {
            Some(state) => state,
            None => {
                return Err("paramètre 'state' requis".to_owned());
            },
        };
        let config: Json = match state.get("config") {
            Some(config) => config.clone(),
            None => {
                return Err("state.config manquant".to_owned());
            },
        };
        let domain = match build_domain(&config, &built.lo, &built.hi) {
            Ok(d) => d,
            Err(e) => {
                return Err(e);
            },
        };
        let incumbent: Incumbent = if state.str_at("incumbent").is_some() {
            match restored {
                Ok(x) => x,
                Err(e) => {
                    let mut message = "incumbent du checkpoint invalide : ".to_owned();
                    message.append(e.as_str());
                    return Err(message);
                },
            }
        } else {
            built.incumbent
        };
        let s = RefineSession {
            domain,
            incumbent,
            heldout_cases: built.heldout_cases,
            config,
            proposals_seen: read_count(state, "proposals_seen"),
            accepted: read_count(state, "accepted"),
            rejected_unsafe: read_count(state, "rejected_unsafe"),
            rejected_worse: read_count(state, "rejected_worse"),
            rejected_unparsed: read_count(state, "rejected_unparsed"),
        };
        let answer = opened_json(id.as_str(), &s);
        self.refines.insert(id.as_str(), s);
        Ok(answer)
    }

    /// The best candidate of a refinement.
    pub fn cmd_incumbent(&self, params: &Json) -> (r: Result<Json, String>)
        ensures
            match (lookup(self.refines@, id_of(params@)), r) {
                (None, Err(e)) => e@ == unknown_refine(id_of(params@)),
                (Some(s), Ok(j)) => j@ == incumbent_value(s).with("ok"@, Value::Bool(true)).with(
                    "id"@,
                    Value::Str(id_of(params@)),
                ),
                _ => false,
            },
    {
        let id = session_id(params);
        match self.refines.get(id.as_str()) {
            None => Err(unknown_refine_text(id.as_str())),
            Some(s) => {
                let mut out = incumbent_json(s);
                out.set("ok", Json::Bool(true));
                out.set("id", Json::Str(id));
                Ok(out)
            },
        }
    }

    /// Says what a candidate is worth, without adopting it.
    pub fn cmd_evaluate(&self, params: &Json, exam: Examination) -> (r: Result<Json, String>)
        ensures
            match r {
                Err(e) => if candidate_of(params@) is None {
                    e@ == "paramètre 'candidate' (texte de l'expression) requis"@
                } else {
                    lookup(self.refines@, id_of(params@)) is None && e@ == unknown_refine(id_of(params@))
                },
                Ok(j) => {
                    &&& candidate_of(params@) is Some
                    &&& lookup(self.refines@, id_of(params@)) matches Some(s)
                    &&& j@ == evaluation_value(id_of(params@), s, exam)
                },
            },
    {
        let id = session_id(params);
        match candidate(params) {
            Ok(_) => {},
            Err(e) => {
                return Err(e);
            },
        }
        match self.refines.get(id.as_str()) {
            None => Err(unknown_refine_text(id.as_str())),
            Some(s) => {
                let mut out = Json::obj();
                out.set("ok", Json::Bool(true));
                out.set("id", Json::text(id.as_str()));
                let parseable: bool = match &exam {
                    Examination::Unparsed(_) => false,
                    Examination::Parsed { .. } => true,
                };
                out.set("parseable", Json::Bool(parseable));
                out.set("incumbent_score", Json::Num(s.incumbent.score.clone()));
                match exam {
                    Examination::Unparsed(e) => {
                        out.set("error", Json::Str(e));
                    },
                    Examination::Parsed { candidate, unsafe_reason } => {
                        let safe: bool = unsafe_reason.is_none();
                        let better: bool = s.incumbent.fitness.is_below(&candidate.fitness);
                        out.set("pretty", Json::Str(candidate.pretty));
                        out.set("size", Json::num(candidate.size));
                        out.set("score", Json::Num(candidate.score));
                        out.set("heldout", Json::Num(candidate.heldout));
                        out.set("safe", Json::Bool(safe));
                        out.set("would_adopt", Json::Bool(safe && better));
                        match unsafe_reason {
                            Some(reason) => {
                                out.set("safety_reason", Json::Str(reason));
                            },
                            None => {},
                        }
                    },
                }
                Ok(out)
            },
        }
    }

    /// Examines the proposals in their order: each is adopted only if it is safe and
    /// strictly better than the best candidate at its time. `exams` holds what the
    /// examination of each found.
    pub fn cmd_propose(&mut self, params: &Json, exams: Vec<Examination>) -> (r: Result<Json, String>)
        requires
            proposals_of(params@) matches Ok(p) ==> exams@.len() == p.len(),
            lookup(old(self).refines@, id_of(params@)) matches Some(s) ==> s.has_room(exams@.len()),
        ensures
            final(self).sessions == old(self).sessions,
            match r {
                Err(e) => {
                    &&& final(self).refines@ == old(self).refines@
                    &&& match proposals_of(params@) {
                        Err(x) => e@ == x,
                        Ok(_) => lookup(old(self).refines@, id_of(params@)) is None && e@ == unknown_refine(
                            id_of(params@),
                        ),
                    }
                },
                Ok(j) => {
                    &&& proposals_of(params@) matches Ok(inputs)
                    &&& lookup(old(self).refines@, id_of(params@)) matches Some(before)
                    &&& lookup(final(self).refines@, id_of(params@)) matches Some(s)
                    &&& final(self).refines@ == set_member(old(self).refines@, id_of(params@), s)
                    &&& s.state() == after_proposals(before.state(), exams@)
                    &&& s.domain == before.domain && s.config == before.config
                    &&& s.heldout_cases == before.heldout_cases
                    &&& j@ == empty_obj().with("ok"@, Value::Bool(true)).with("id"@, Value::Str(id_of(params@))).with(
                        "adopted"@,
                        Value::Bool(s.accepted > before.accepted),
                    ).with("results"@, Value::Arr(item_values(before.state(), inputs, exams@))).with(
                        "incumbent"@,
                        incumbent_value(s),
                    )
                },
            },
    {
        let id = session_id(params);
        let inputs = match proposals(params) {
            Ok(p) => p,
            Err(e) => {
                return Err(e);
            },
        };
        let ghost rows = self.refines@;
        match self.refines.remove(id.as_str()) {
            None => Err(unknown_refine_text(id.as_str())),
            Some(mut s) => {
                let before: u64 = s.accepted;
                let results = s.examine_all(inputs.as_slice(), exams);
                let mut out = Json::obj();
                out.set("ok", Json::Bool(true));
                out.set("id", Json::text(id.as_str()));
                out.set("adopted", Json::Bool(s.accepted > before));
                proof {
                    lemma_arr_view(results);
                }
                out.set("results", Json::Arr(results));
                out.set("incumbent", incumbent_json(&s));
                let ghost after = s;
                self.refines.insert(id.as_str(), s);
                proof {
                    law_remove_then_insert_replaces(rows, id@, after);
                }
                Ok(out)
            },
        }
    }
}

// ---------------------------------------------------------------------------
// The whole façade
// ---------------------------------------------------------------------------

/// How often agents stepped, how many have a journal and how many of those are intact.
pub struct Tally {
    pub steps: u128,
    pub audited: u64,
    pub intact: u64,
}

pub open spec fn is_audited(a: RSIAgent) -> bool {
    a.audit matches Some(log) && log.chain().len() > 0
}

pub open spec fn is_intact(a: RSIAgent) -> bool {
    is_audited(a) && a.audit->0.is_valid()
}

/// The steps of all sessions.
pub open spec fn steps_total(sessions: Sessions) -> nat
    decreases sessions.len(),
{
    if sessions.len() == 0 {
        0
    } else {
        steps_total(sessions.drop_last()) + sessions.last().1.agent.current.t as nat
    }
}

/// How many sessions have a journal with entries.
pub open spec fn audited_count(sessions: Sessions) -> nat {
    sessions.filter(|row: (Seq<char>, Session)| is_audited(row.1.agent)).len()
}

/// How many sessions have a journal with entries that is intact.
pub open spec fn intact_count(sessions: Sessions) -> nat {
    sessions.filter(|row: (Seq<char>, Session)| is_intact(row.1.agent)).len()
}

/// The proposals that were seen in all refinements.
pub open spec fn proposals_total(refines: Refines) -> nat
    decreases refines.len(),
{
    if refines.len() == 0 {
        0
    } else {
        proposals_total(refines.drop_last()) + refines.last().1.proposals_seen as nat
    }
}

/// The proposals that were adopted in all refinements.
pub open spec fn accepted_total(refines: Refines) -> nat
    decreases refines.len(),
{
    if refines.len() == 0 {
        0
    } else {
        accepted_total(refines.drop_last()) + refines.last().1.accepted as nat
    }
}

proof fn lemma_filter_step(s: Sessions, row: (Seq<char>, Session), keep: spec_fn((Seq<char>, Session)) -> bool)
    ensures
        s.push(row).filter(keep).len() == s.filter(keep).len() + (if keep(row) {
            1int
        } else {
            0int
        }),
{
    reveal(Seq::filter);
    assert(s.push(row).drop_last() =~= s);
}

pub open spec fn health_value(api: RsiApi, version: Seq<char>) -> Value {
    empty_obj().with("ok"@, Value::Bool(true)).with("version"@, Value::Str(version)).with(
        "sessions"@,
        Value::Num(decimal(api.sessions@.len())),
    ).with("refine_sessions"@, Value::Num(decimal(api.refines@.len()))).with(
        "total_steps"@,
        Value::Num(decimal(steps_total(api.sessions@))),
    ).with("audited_sessions"@, Value::Num(decimal(audited_count(api.sessions@)))).with(
        "audit_intact"@,
        Value::Bool(audited_count(api.sessions@) == intact_count(api.sessions@)),
    ).with("refine_proposals_seen"@, Value::Num(decimal(proposals_total(api.refines@)))).with(
        "refine_accepted"@,
        Value::Num(decimal(accepted_total(api.refines@))),
    )
}

/// One metric in the exposition format.
pub open spec fn metric_text(name: Seq<char>, help: Seq<char>, kind: Seq<char>, value: nat) -> Seq<char> {
    "# HELP "@ + name + " "@ + help + "\n# TYPE "@ + name + " "@ + kind + "\n"@ + name + " "@ + decimal(value) + "\n"@
}

fn metric(name: &str, help: &str, kind: &str, value: u128) -> (r: String)
    ensures
        r@ == metric_text(name@, help@, kind@, value as nat),
{
    let mut out = "# HELP ".to_owned();
    out.append(name);
    out.append(" ");
    out.append(help);
    out.append("\n# TYPE ");
    out.append(name);
    out.append(" ");
    out.append(kind);
    out.append("\n");
    out.append(name);
    out.append(" ");
    out.append(decimal_wide_text(value).as_str());
    out.append("\n");
    out
}

/// All metrics in the exposition format.
pub open spec fn metrics_text(api: RsiApi) -> Seq<char> {
    let intact: nat = if audited_count(api.sessions@) == intact_count(api.sessions@) {
        1
    } else {
        0
    };
    metric_text("rsi_sessions"@, "Active agent sessions."@, "gauge"@, api.sessions@.len()) + metric_text("rsi_refine_sessions"@, "Active refinement sessions."@, "gauge"@, api.refines@.len()) + metric_text("rsi_total_steps"@, "Cumulative RSI steps across sessions."@, "counter"@, steps_total(api.sessions@)) + metric_text("rsi_audited_sessions"@, "Sessions with a hash-chained audit log."@, "gauge"@, audited_count(api.sessions@)) + metric_text("rsi_audit_intact"@, "1 if all audited sessions verify, else 0."@, "gauge"@, intact) + metric_text("rsi_refine_proposals_seen"@, "Proposals examined by the server."@, "counter"@, proposals_total(api.refines@)) + metric_text("rsi_refine_accepted"@, "Strictly-better proposals adopted."@, "counter"@, accepted_total(api.refines@))
}

/// The entry of a session in the list.
pub open spec fn listed_value(row: (Seq<char>, Session)) -> Value {
    empty_obj().with("id"@, Value::Str(row.0)).with("t"@, Value::Num(decimal(row.1.agent.current.t as nat))).with(
        "si_global"@,
        Value::Num(row.1.si_global@),
    ).with("history_len"@, Value::Num(decimal(row.1.history@.len())))
}

pub open spec fn metrics_value(api: RsiApi) -> Value {
    empty_obj().with("ok"@, Value::Bool(true)).with("format"@, Value::Str("prometheus"@)).with(
        "metrics"@,
        Value::Str(metrics_text(api)),
    )
}

pub open spec fn list_value(api: RsiApi) -> Value {
    empty_obj().with(
        "sessions"@,
        Value::Arr(api.sessions@.map_values(|row: (Seq<char>, Session)| listed_value(row))),
    )
}

/// What becomes of a command: its answer, or which command has to be computed for first.
pub enum Reply {
    Answer(Json),
    Compute(Command),
}

impl RsiApi {
    fn tally(&self) -> (r: Tally)
        ensures
            r.steps == steps_total(self.sessions@),
            r.audited == audited_count(self.sessions@),
            r.intact == intact_count(self.sessions@),
    {
        let ghost all = self.sessions@;
        let n: usize = self.sessions.len();
        let mut steps: u128 = 0;
        let mut audited: u64 = 0;
        let mut intact: u64 = 0;
        let mut i: usize = 0;
        let ghost has = |row: (Seq<char>, Session)| is_audited(row.1.agent);
        let ghost good = |row: (Seq<char>, Session)| is_intact(row.1.agent);
        proof {
            reveal(Seq::filter);
            assert(all.take(0) =~= Seq::empty());
        }
        while i < n
            invariant
                i <= n,
                n == all.len(),
                all == self.sessions@,
                has == (|row: (Seq<char>, Session)| is_audited(row.1.agent)),
                good == (|row: (Seq<char>, Session)| is_intact(row.1.agent)),
                steps == steps_total(all.take(i as int)),
                steps <= i * 0xffff_ffff_ffff_ffff,
                audited == all.take(i as int).filter(has).len(),
                intact == all.take(i as int).filter(good).len(),
                audited <= i,
                intact <= i,
            decreases n - i,
        {
            let (_, s) = self.sessions.at(i);
            proof {
                let row = all[i as int];
                assert(all.take(i + 1) =~= all.take(i as int).push(row));
                assert(all.take(i + 1).drop_last() =~= all.take(i as int));
                assert(all.take(i + 1).last() == row);
                lemma_filter_step(all.take(i as int), row, has);
                lemma_filter_step(all.take(i as int), row, good);
                assert((i + 1) * 0xffff_ffff_ffff_ffff <= 0xffff_ffff_ffff_ffff * 0xffff_ffff_ffff_ffff)
                    by (nonlinear_arith)
                    requires
                        i + 1 <= 0xffff_ffff_ffff_ffff,
                ;
                assert((i + 1) * 0xffff_ffff_ffff_ffff == i * 0xffff_ffff_ffff_ffff + 0xffff_ffff_ffff_ffff)
                    by (nonlinear_arith);
            }
            steps = steps + s.agent.current.t as u128;
            if s.agent.audit_len() > 0 {
                audited += 1;
                if s.agent.audit_verify() {
                    intact += 1;
                }
            }
            i += 1;
        }
        assert(all.take(i as int) =~= all);
        Tally { steps, audited, intact }
    }

    fn proposal_totals(&self) -> (r: (u128, u128))
        ensures
            r.0 == proposals_total(self.refines@),
            r.1 == accepted_total(self.refines@),
    {
        let ghost all = self.refines@;
        let n: usize = self.refines.len();
        let mut seen: u128 = 0;
        let mut accepted: u128 = 0;
        let mut i: usize = 0;
        assert(all.take(0) =~= Seq::empty());
        while i < n
            invariant
                i <= n,
                n == all.len(),
                all == self.refines@,
                seen == proposals_total(all.take(i as int)),
                accepted == accepted_total(all.take(i as int)),
                seen <= i * 0xffff_ffff_ffff_ffff,
                accepted <= i * 0xffff_ffff_ffff_ffff,
            decreases n - i,
        {
            let (_, s) = self.refines.at(i);
            proof {
                assert(all.take(i + 1).drop_last() =~= all.take(i as int));
                assert(all.take(i + 1).last() == all[i as int]);
                assert((i + 1) * 0xffff_ffff_ffff_ffff <= 0xffff_ffff_ffff_ffff * 0xffff_ffff_ffff_ffff)
                    by (nonlinear_arith)
                    requires
                        i + 1 <= 0xffff_ffff_ffff_ffff,
                ;
                assert((i + 1) * 0xffff_ffff_ffff_ffff == i * 0xffff_ffff_ffff_ffff + 0xffff_ffff_ffff_ffff)
                    by (nonlinear_arith);
            }
            seen = seen + s.proposals_seen as u128;
            accepted = accepted + s.accepted as u128;
            i += 1;
        }
        assert(all.take(i as int) =~= all);
        (seen, accepted)
    }

    /// The state of health: how many sessions there are, how often they stepped, whether
    /// every journal is intact, and what became of the proposals.
    pub fn cmd_health(&self, version: &str) -> (r: Json)
        ensures
            r@ == health_value(*self, version@),
    {
        let tally = self.tally();
        let (proposals, accepted) = self.proposal_totals();
        let mut out = Json::obj();
        out.set("ok", Json::Bool(true));
        out.set("version", Json::text(version));
        out.set("sessions", Json::num(self.sessions.len() as u64));
        out.set("refine_sessions", Json::num(self.refines.len() as u64));
        out.set("total_steps", Json::Num(decimal_wide_text(tally.steps)));
        out.set("audited_sessions", Json::num(tally.audited));
        out.set("audit_intact", Json::Bool(tally.audited == tally.intact));
        out.set("refine_proposals_seen", Json::Num(decimal_wide_text(proposals)));
        out.set("refine_accepted", Json::Num(decimal_wide_text(accepted)));
        out
    }

    /// The same counts in the exposition format of metrics.
    pub fn cmd_metrics(&self) -> (r: Json)
        ensures
            r@ == metrics_value(*self),
    {
        let tally = self.tally();
        let (proposals, accepted) = self.proposal_totals();
        let intact: u128 = if tally.audited == tally.intact { 1 } else { 0 };
        let mut text = metric("rsi_sessions", "Active agent sessions.", "gauge", self.sessions.len() as u128);
        text.append(metric("rsi_refine_sessions", "Active refinement sessions.", "gauge", self.refines.len() as u128).as_str());
        text.append(metric("rsi_total_steps", "Cumulative RSI steps across sessions.", "counter", tally.steps).as_str());
        text.append(metric("rsi_audited_sessions", "Sessions with a hash-chained audit log.", "gauge", tally.audited as u128).as_str());
        text.append(metric("rsi_audit_intact", "1 if all audited sessions verify, else 0.", "gauge", intact).as_str());
        text.append(metric("rsi_refine_proposals_seen", "Proposals examined by the server.", "counter", proposals).as_str());
        text.append(metric("rsi_refine_accepted", "Strictly-better proposals adopted.", "counter", accepted).as_str());
        let mut out = Json::obj();
        out.set("ok", Json::Bool(true));
        out.set("format", Json::text("prometheus"));
        out.set("metrics", Json::Str(text));
        out
    }

    /// The sessions in the order of their names.
    pub fn cmd_list(&self) -> (r: Json)
        ensures
            r@ == list_value(*self),
    {
        let ghost all = self.sessions@;
        let n: usize = self.sessions.len();
        let mut listed: Vec<Json> = Vec::new();
        let mut i: usize = 0;
        while i < n
            invariant
                i <= n,
                n == all.len(),
                all == self.sessions@,
                listed@.len() == i,
                forall|j: int| 0 <= j < i ==> (#[trigger] listed@[j])@ == listed_value(all[j]),
            decreases n - i,
        {
            let (id, s) = self.sessions.at(i);
            let mut o = Json::obj();
            o.set("id", Json::text(id));
            o.set("t", Json::num(s.agent.current.t));
            o.set("si_global", Json::Num(s.si_global.clone()));
            o.set("history_len", Json::num(s.history.len() as u64));
            listed.push(o);
            i += 1;
        }
        proof {
            lemma_arr_view(listed);
            assert(values(listed@) =~= all.map_values(|row: (Seq<char>, Session)| listed_value(row)));
        }
        let mut out = Json::obj();
        out.set("sessions", Json::Arr(listed));
        out
    }
}

/// A command with what it does.
pub open spec fn command_value(name: Seq<char>, description: Seq<char>) -> Value {
    empty_obj().with("name"@, Value::Str(name)).with("description"@, Value::Str(description))
}

fn command_json(name: &str, description: &str) -> (r: Json)
    ensures
        r@ == command_value(name@, description@),
{
    let mut o = Json::obj();
    o.set("name", Json::text(name));
    o.set("description", Json::text(description));
    o
}

/// The catalogue of commands.
pub open spec fn catalogue() -> Seq<Value> {
    seq![
        command_value("describe"@, "Décrit le système et les commandes."@),
        command_value("health"@, "Santé du serveur : sessions, pas cumulés, intégrité de l'audit, activité de raffinement."@),
        command_value("metrics"@, "Métriques au format d'exposition Prometheus (texte) : sessions, pas, intégrité audit, raffinement. Sans dépendance."@),
        command_value("create"@, "Crée une session. Params: id, seed, optimizer(random|cma), dim, n_tasks, n_hardware, n_software, lambda, epsilon, eta0, forgetting, phi_slope, phi_bias, (+ candidates/explore_scale ou population/generations/sigma0)."@),
        command_value("step"@, "Un pas de boucle RSI. Params: id."@),
        command_value("run"@, "Avance de N pas. Params: id, steps."@),
        command_value("run_until"@, "Pilote la boucle jusqu'à un critère d'arrêt. Params: id, max_steps, target_si, plateau_window, plateau_eps, breaker_rpn, max_seconds. Renvoie reason (max_steps|target_reached|plateau|diverged|timeout|circuit_breaker|vetoed)."@),
        command_value("state"@, "Instantané: si_global, p_eff, capacités, goulot. Params: id."@),
        command_value("export"@, "Exporte la trajectoire. Params: id, format(csv|json)."@),
        command_value("reset"@, "Réinitialise la session. Params: id."@),
        command_value("list_sessions"@, "Liste les sessions actives."@),
        command_value("refine_new"@, "Crée une session de raffinement piloté par LLM. Params: id, domain(synthesis|tuning|prompt). synthesis: target(quadratic|linear|cubic), lo, hi, n, seed. tuning: hyperparamètres JSON. prompt: optimisation de prompt (texte). Renvoie l'incumbent."@),
        command_value("incumbent"@, "Renvoie l'incumbent courant (expression, score train, score held-out, compteurs). Params: id."@),
        command_value("evaluate"@, "Évalue un candidat SANS l'adopter (sonde). Params: id, candidate (texte d'expression). Renvoie score, held-out, safe, would_adopt."@),
        command_value("propose"@, "Soumet des propositions ; le serveur parse, vérifie la sûreté, score et n'adopte qu'élitistement (strictement meilleur ET sûr). Params: id, proposals (tableau de chaînes) ou candidate (texte). Le LLM ne contrôle aucun garde-fou."@),
        command_value("refine_save"@, "Sérialise l'état d'une session de raffinement (config + incumbent + compteurs) pour reprise. Params: id. Renvoie 'state'."@),
        command_value("refine_load"@, "Reprend une session de raffinement depuis un 'state' (cf. refine_save). Params: id, state."@),
    ]
}

fn catalogue_json() -> (r: Vec<Json>)
    ensures
        values(r@) == catalogue(),
{
    let mut out: Vec<Json> = Vec::new();
    out.push(command_json("describe", "Décrit le système et les commandes."));
    out.push(command_json("health", "Santé du serveur : sessions, pas cumulés, intégrité de l'audit, activité de raffinement."));
    out.push(command_json("metrics", "Métriques au format d'exposition Prometheus (texte) : sessions, pas, intégrité audit, raffinement. Sans dépendance."));
    out.push(command_json("create", "Crée une session. Params: id, seed, optimizer(random|cma), dim, n_tasks, n_hardware, n_software, lambda, epsilon, eta0, forgetting, phi_slope, phi_bias, (+ candidates/explore_scale ou population/generations/sigma0)."));
    out.push(command_json("step", "Un pas de boucle RSI. Params: id."));
    out.push(command_json("run", "Avance de N pas. Params: id, steps."));
    out.push(command_json("run_until", "Pilote la boucle jusqu'à un critère d'arrêt. Params: id, max_steps, target_si, plateau_window, plateau_eps, breaker_rpn, max_seconds. Renvoie reason (max_steps|target_reached|plateau|diverged|timeout|circuit_breaker|vetoed)."));
    out.push(command_json("state", "Instantané: si_global, p_eff, capacités, goulot. Params: id."));
    out.push(command_json("export", "Exporte la trajectoire. Params: id, format(csv|json)."));
    out.push(command_json("reset", "Réinitialise la session. Params: id."));
    out.push(command_json("list_sessions", "Liste les sessions actives."));
    out.push(command_json("refine_new", "Crée une session de raffinement piloté par LLM. Params: id, domain(synthesis|tuning|prompt). synthesis: target(quadratic|linear|cubic), lo, hi, n, seed. tuning: hyperparamètres JSON. prompt: optimisation de prompt (texte). Renvoie l'incumbent."));
    out.push(command_json("incumbent", "Renvoie l'incumbent courant (expression, score train, score held-out, compteurs). Params: id."));
    out.push(command_json("evaluate", "Évalue un candidat SANS l'adopter (sonde). Params: id, candidate (texte d'expression). Renvoie score, held-out, safe, would_adopt."));
    out.push(command_json("propose", "Soumet des propositions ; le serveur parse, vérifie la sûreté, score et n'adopte qu'élitistement (strictement meilleur ET sûr). Params: id, proposals (tableau de chaînes) ou candidate (texte). Le LLM ne contrôle aucun garde-fou."));
    out.push(command_json("refine_save", "Sérialise l'état d'une session de raffinement (config + incumbent + compteurs) pour reprise. Params: id. Renvoie 'state'."));
    out.push(command_json("refine_load", "Reprend une session de raffinement depuis un 'state' (cf. refine_save). Params: id, state."));
    assert(values(out@) =~= catalogue());
    out
}

pub open spec fn summary() -> Seq<char> {
    "Modèle dynamique d'un agent cognitif dont la surface de compétence Σ_I se déforme sous l'effet de l'apprentissage, du substrat matériel/logiciel et d'une méta-optimisation récursive, sous garde-fous de stabilité (‖ΔS‖<λ et non-régression de SI_global)."@
}

pub open spec fn description(version: Seq<char>) -> Value {
    empty_obj().with("name"@, Value::Str("RSI — Recursive Self-Improvement"@)).with("version"@, Value::Str(version)).with(
        "summary"@,
        Value::Str(summary()),
    ).with("commands"@, Value::Arr(catalogue()))
}

/// Describes the system and its commands.
pub fn describe(version: &str) -> (r: Json)
    ensures
        r@ == description(version@),
{
    let mut out = Json::obj();
    out.set("name", Json::text("RSI — Recursive Self-Improvement"));
    out.set("version", Json::text(version));
    out.set("summary", Json::text("Modèle dynamique d'un agent cognitif dont la surface de compétence Σ_I se déforme sous l'effet de l'apprentissage, du substrat matériel/logiciel et d'une méta-optimisation récursive, sous garde-fous de stabilité (‖ΔS‖<λ et non-régression de SI_global)."));
    let commands = catalogue_json();
    proof {
        lemma_arr_view(commands);
    }
    out.set("commands", Json::Arr(commands));
    out
}

impl RsiApi {
    /// Answers a command that needs nothing but the façade, and names any other.
    pub fn handle(&self, name: &str, params: &Json, version: &str) -> (r: Result<Reply, String>)
        ensures
            match (command_of(name@), r) {
                (None, Err(e)) => e@ == "commande inconnue : '"@ + name@ + "'"@,
                (Some(Command::Describe), Ok(Reply::Answer(j))) => j@ == description(version@),
                (Some(Command::Health), Ok(Reply::Answer(j))) => j@ == health_value(*self, version@),
                (Some(Command::Metrics), Ok(Reply::Answer(j))) => j@ == metrics_value(*self),
                (Some(Command::ListSessions), Ok(Reply::Answer(j))) => j@ == list_value(*self),
                (Some(Command::Incumbent), Ok(Reply::Answer(j))) => {
                    &&& lookup(self.refines@, id_of(params@)) matches Some(s)
                    &&& j@ == incumbent_value(s).with("ok"@, Value::Bool(true)).with("id"@, Value::Str(id_of(params@)))
                },
                (Some(Command::RefineSave), Ok(Reply::Answer(j))) => {
                    &&& lookup(self.refines@, id_of(params@)) matches Some(s)
                    &&& j@ == empty_obj().with("ok"@, Value::Bool(true)).with("id"@, Value::Str(id_of(params@))).with(
                        "state"@,
                        saved_value(s),
                    )
                },
                (Some(c), Err(e)) => {
                    &&& c == Command::Incumbent || c == Command::RefineSave
                    &&& lookup(self.refines@, id_of(params@)) is None
                    &&& e@ == unknown_refine(id_of(params@))
                },
                (Some(c), Ok(Reply::Compute(d))) => c == d && !is_answered_at_once(c),
                _ => false,
            },
    {
        match command(name) {
            Err(e) => Err(e),
            Ok(c) => match c {
                Command::Describe => Ok(Reply::Answer(describe(version))),
                Command::Health => Ok(Reply::Answer(self.cmd_health(version))),
                Command::Metrics => Ok(Reply::Answer(self.cmd_metrics())),
                Command::ListSessions => Ok(Reply::Answer(self.cmd_list())),
                Command::Incumbent => match self.cmd_incumbent(params) {
                    Ok(j) => Ok(Reply::Answer(j)),
                    Err(e) => Err(e),
                },
                Command::RefineSave => match self.cmd_refine_save(params) {
                    Ok(j) => Ok(Reply::Answer(j)),
                    Err(e) => Err(e),
                },
                other => Ok(Reply::Compute(other)),
            },
        }
    }
}

/// The commands that need nothing but the façade.
pub open spec fn is_answered_at_once(c: Command) -> bool {
    c == Command::Describe || c == Command::Health || c == Command::Metrics || c == Command::ListSessions || c
        == Command::Incumbent || c == Command::RefineSave
}

// ---------------------------------------------------------------------------
// Laws
// ---------------------------------------------------------------------------

/// However many dimensions are asked for, an agent's stay within the limits.
pub proof fn law_agent_dimensions_are_bounded(cfg: Value)
    ensures
        agent_config_of(cfg) matches Ok(c) ==> {
            &&& 1 <= c.dim <= MAX_DIM
            &&& 16 <= c.n_tasks <= MAX_TASKS
            &&& 1 <= c.n_hardware <= MAX_SUBSTRATE
            &&& 1 <= c.n_software <= MAX_SUBSTRATE
            &&& match c.optimizer {
                Optimizer::Cma { population, generations, .. } => population <= MAX_POPULATION && 1 <= generations
                    <= MAX_GENERATIONS,
                Optimizer::Random { candidates, .. } => 1 <= candidates <= MAX_CANDIDATES,
            }
        },
        steps_of(cfg) <= MAX_STEPS,
{
}

/// No command that opens sessions brings their number above the limit.
pub proof fn law_session_limit_is_kept(sessions: Sessions, params: Value, s: Session)
    requires
        keys_ascending(sessions),
        sessions.len() <= MAX_SESSIONS,
        create_error(sessions, params) is None,
    ensures
        set_member(sessions, id_of(params), s).len() <= MAX_SESSIONS,
{
    law_insert_counts_names(sessions, id_of(params), s);
}

/// The same of refinement sessions.
pub proof fn law_refine_limit_is_kept(refines: Refines, id: Seq<char>, s: RefineSession)
    requires
        keys_ascending(refines),
        refines.len() <= MAX_SESSIONS,
        !refine_limit_reached(refines, id),
    ensures
        set_member(refines, id, s).len() <= MAX_SESSIONS,
{
    law_insert_counts_names(refines, id, s);
}

/// Whatever is proposed, the best candidate never gets worse.
pub proof fn law_incumbent_never_gets_worse(st: RefineState, exams: Seq<Examination>)
    ensures
        !after_proposals(st, exams).incumbent.fitness.below(st.incumbent.fitness),
        after_proposals(st, exams).incumbent == st.incumbent || st.incumbent.fitness.below(
            after_proposals(st, exams).incumbent.fitness,
        ),
    decreases exams.len(),
{
    if exams.len() > 0 {
        law_incumbent_never_gets_worse(st, exams.drop_last());
    }
}

/// The best candidate changes only to one that was examined, parsed, safe and strictly
/// better.
pub proof fn law_only_safe_and_better_is_adopted(st: RefineState, exam: Examination)
    ensures
        (after_proposal(st, exam).accepted > st.accepted) == is_adopted(st, exam),
        !is_adopted(st, exam) ==> after_proposal(st, exam).incumbent == st.incumbent,
        is_adopted(st, exam) ==> after_proposal(st, exam).incumbent == exam->candidate,
{
}

/// Every proposal is counted once: as adopted or under the one reason for which it was
/// refused.
pub proof fn law_every_proposal_is_counted(st: RefineState, exams: Seq<Examination>)
    ensures
        ({
            let after = after_proposals(st, exams);
            &&& after.seen == st.seen + exams.len()
            &&& (after.accepted - st.accepted) + (after.rejected_unsafe - st.rejected_unsafe) + (after.rejected_worse
                - st.rejected_worse) + (after.rejected_unparsed - st.rejected_unparsed) == exams.len()
            &&& after.accepted >= st.accepted
        }),
    decreases exams.len(),
{
    if exams.len() > 0 {
        law_every_proposal_is_counted(st, exams.drop_last());
    }
}

/// At most as many proposals are examined as one call may hold.
pub proof fn law_proposals_are_bounded(params: Value)
    ensures
        proposals_of(params) matches Ok(p) ==> 0 < p.len() <= MAX_PROPOSALS_PER_CALL,
{
}

/// A saved refinement gives back its configuration, its best candidate and its counts.
pub proof fn law_saved_refinement_reads_back(s: RefineSession)
    requires
        wf(s.config@),
    ensures
        get(saved_value(s), "config"@) == Some(s.config@),
        str_at(saved_value(s), "incumbent"@) == Some(s.incumbent.pretty@),
        count_at(saved_value(s), "accepted"@) == s.accepted,
        count_at(saved_value(s), "proposals_seen"@) == s.proposals_seen,
        count_at(saved_value(s), "rejected_unsafe"@) == s.rejected_unsafe,
        count_at(saved_value(s), "rejected_worse"@) == s.rejected_worse,
        count_at(saved_value(s), "rejected_unparsed"@) == s.rejected_unparsed,
{
    reveal_strlit("config");
    reveal_strlit("incumbent");
    reveal_strlit("accepted");
    reveal_strlit("proposals_seen");
    reveal_strlit("rejected_unsafe");
    reveal_strlit("rejected_worse");
    reveal_strlit("rejected_unparsed");
    assert("config"@.len() == 6 && "incumbent"@.len() == 9 && "accepted"@.len() == 8 && "proposals_seen"@.len() == 14);
    assert("rejected_unsafe"@.len() == 15 && "rejected_worse"@.len() == 14 && "rejected_unparsed"@.len() == 17);
    assert("proposals_seen"@[0] == 'p' && "rejected_worse"@[0] == 'r');
    law_number_reads_back(s.accepted);
    law_number_reads_back(s.proposals_seen);
    law_number_reads_back(s.rejected_unsafe);
    law_number_reads_back(s.rejected_worse);
    law_number_reads_back(s.rejected_unparsed);
    let o0 = empty_obj();
    let o1 = o0.with("config"@, s.config@);
    let o2 = o1.with("incumbent"@, Value::Str(s.incumbent.pretty@));
    let o3 = o2.with("accepted"@, count_value(s.accepted));
    let o4 = o3.with("proposals_seen"@, count_value(s.proposals_seen));
    let o5 = o4.with("rejected_unsafe"@, count_value(s.rejected_unsafe));
    let o6 = o5.with("rejected_worse"@, count_value(s.rejected_worse));
    lemma_bound(o0, "config"@, s.config@);
    lemma_bound(o1, "incumbent"@, Value::Str(s.incumbent.pretty@));
    lemma_bound(o2, "accepted"@, count_value(s.accepted));
    lemma_bound(o3, "proposals_seen"@, count_value(s.proposals_seen));
    lemma_bound(o4, "rejected_unsafe"@, count_value(s.rejected_unsafe));
    lemma_bound(o5, "rejected_worse"@, count_value(s.rejected_worse));
    lemma_bound(o6, "rejected_unparsed"@, count_value(s.rejected_unparsed));
}

/// A number that is asked for within bounds is the given one, or the default, brought to
/// the nearer bound where it lies beyond one.
pub proof fn law_parameters_stay_within(cfg: Value, key: Seq<char>, default: u64, lo: u64, hi: u64)
    requires
        lo <= hi,
    ensures
        ({
            let n = bounded_of(cfg, key, default, lo, hi);
            let wanted = match u64_at(cfg, key) {
                Some(x) => x,
                None => default,
            };
            &&& lo <= n <= hi
            &&& lo <= wanted <= hi ==> n == wanted
            &&& wanted < lo ==> n == lo
            &&& wanted > hi ==> n == hi
        }),
{
}

/// A proposal is adopted exactly where it could be read, is safe, and is fitter than the
/// incumbent. It is counted once as seen and once as what became of it, and changes
/// nothing else.
pub proof fn law_proposals_meet_one_fate(st: RefineState, exam: Examination)
    ensures
        ({
            let after = after_proposal(st, exam);
            let fitter = exam is Parsed && !st.incumbent.fitness.nan() && !exam->candidate.fitness.nan()
                && st.incumbent.fitness.rank() < exam->candidate.fitness.rank();
            let risky = exam is Parsed && exam->unsafe_reason is Some;
            &&& after.seen == st.seen + 1
            &&& after.rejected_unparsed - st.rejected_unparsed == (if exam is Unparsed {
                1int
            } else {
                0
            })
            &&& after.rejected_unsafe - st.rejected_unsafe == (if risky {
                1int
            } else {
                0
            })
            &&& after.accepted - st.accepted == (if !risky && fitter {
                1int
            } else {
                0
            })
            &&& after.rejected_worse - st.rejected_worse == (if exam is Parsed && !risky && !fitter {
                1int
            } else {
                0
            })
            &&& !risky && fitter ==> after.incumbent == exam->candidate
            &&& risky || !fitter ==> after.incumbent == st.incumbent
            &&& is_adopted(st, exam) <==> after.accepted == st.accepted + 1
        }),
{
}

/// Proposals are examined one after the other: those of two calls come to the same as those
/// of one.
pub proof fn law_proposals_in_turn(st: RefineState, first: Seq<Examination>, second: Seq<Examination>)
    ensures
        after_proposals(after_proposals(st, first), second) == after_proposals(st, first + second),
        after_proposals(st, Seq::empty()) == st,
    decreases second.len(),
{
    if second.len() > 0 {
        law_proposals_in_turn(st, first, second.drop_last());
        assert((first + second).drop_last() =~= first + second.drop_last());
        assert((first + second).last() == second.last());
    } else {
        assert(first + second =~= first);
    }
}

/// The texts among values are those that are texts, in order.
pub proof fn law_texts_among_values(items: Seq<Value>)
    ensures
        strings_of(items) == items.filter(|v: Value| v is Str).map_values(|v: Value| v->Str_0),
    decreases items.len(),
{
    reveal(Seq::filter);
    if items.len() > 0 {
        law_texts_among_values(items.drop_last());
    }
    assert(strings_of(items) =~= items.filter(|v: Value| v is Str).map_values(|v: Value| v->Str_0));
}

/// Proposals are the first of the listed texts, or of the filled lines of a candidate where
/// none are listed: at most sixty-four, and at least one.
pub proof fn law_proposals_are_the_first_ones(params: Value)
    ensures
        ({
            let listed = get(params, "proposals"@);
            let given = if listed matches Some(v) && v is Arr {
                Some(listed->0->Arr_0.filter(|v: Value| v is Str).map_values(|v: Value| v->Str_0))
            } else {
                match candidate_of(params) {
                    Some(text) => Some(
                        split(text, '\n').map_values(|l: Seq<char>| trim(l)).filter(|l: Seq<char>| l.len() > 0),
                    ),
                    None => None,
                }
            };
            match proposals_of(params) {
                Ok(p) => given is Some && 0 < p.len() <= 64 && (if given->0.len() <= 64 {
                    p == given->0
                } else {
                    p == given->0.take(64)
                }),
                Err(_) => given is None || given->0.len() == 0,
            }
        }),
{
    let listed = get(params, "proposals"@);
    if listed matches Some(v) && v is Arr {
        law_texts_among_values(listed->0->Arr_0);
        let all = strings_of(listed->0->Arr_0);
        assert(all.len() == 64 ==> all.take(64) =~= all);
    } else if candidate_of(params) is Some {
        law_filled_lines(split(candidate_of(params)->0, '\n'));
        let all = filled_lines(split(candidate_of(params)->0, '\n'));
        assert(all.len() == 64 ==> all.take(64) =~= all);
    }
}

/// The steps and the proposals of all sessions add up.
pub proof fn law_totals_add_up(sessions: Sessions, row: (Seq<char>, Session), refines: Refines, other: (Seq<char>, RefineSession))
    ensures
        steps_total(sessions.push(row)) == steps_total(sessions) + row.1.agent.current.t,
        proposals_total(refines.push(other)) == proposals_total(refines) + other.1.proposals_seen,
        accepted_total(refines.push(other)) == accepted_total(refines) + other.1.accepted,
        steps_total(Seq::empty()) == 0,
        proposals_total(Seq::empty()) == 0,
        accepted_total(Seq::empty()) == 0,
{
    assert(sessions.push(row).drop_last() =~= sessions);
    assert(refines.push(other).drop_last() =~= refines);
}

/// As many journals are intact as there are exactly where every journal with an entry is.
pub proof fn law_audit_is_intact_where_all_journals_are(sessions: Sessions)
    ensures
        audited_count(sessions) == intact_count(sessions) <==> forall|i: int|
            0 <= i < sessions.len() && (#[trigger] sessions[i]).1.agent.audit is Some && sessions[i].1.agent.audit->0.chain().len()
                > 0 ==> sessions[i].1.agent.audit->0.is_valid(),
        intact_count(sessions) <= audited_count(sessions),
    decreases sessions.len(),
{
    reveal(Seq::filter);
    if sessions.len() > 0 {
        let front = sessions.drop_last();
        law_audit_is_intact_where_all_journals_are(front);
        assert(forall|i: int| 0 <= i < front.len() ==> #[trigger] front[i] == sessions[i]);
        assert(sessions[sessions.len() - 1] == sessions.last());
        if forall|i: int|
            0 <= i < sessions.len() && (#[trigger] sessions[i]).1.agent.audit is Some
                && sessions[i].1.agent.audit->0.chain().len() > 0 ==> sessions[i].1.agent.audit->0.is_valid() {
            assert forall|i: int|
                0 <= i < front.len() && (#[trigger] front[i]).1.agent.audit is Some && front[i].1.agent.audit->0.chain().len()
                    > 0 implies front[i].1.agent.audit->0.is_valid() by {
                assert(front[i] == sessions[i]);
            }
        }
        if forall|i: int|
            0 <= i < front.len() && (#[trigger] front[i]).1.agent.audit is Some && front[i].1.agent.audit->0.chain().len() > 0
                ==> front[i].1.agent.audit->0.is_valid() {
            assert forall|i: int|
                0 <= i < front.len() && (#[trigger] sessions[i]).1.agent.audit is Some
                    && sessions[i].1.agent.audit->0.chain().len() > 0 implies sessions[i].1.agent.audit->0.is_valid() by {
                assert(front[i] == sessions[i]);
            }
        }
    }
}

/// A session is created exactly where its identifier is taken already or fewer than
/// sixty-four are, and where its optimizer is known.
pub proof fn law_sessions_are_created(sessions: Sessions, params: Value)
    ensures
        create_error(sessions, params) is None <==> (lookup(sessions, id_of(params)) is Some || sessions.len() < 64) && (
        agent_config_of(params) is Ok),
        agent_config_of(params) is Ok <==> ({
            let name = match str_at(params, "optimizer"@) {
                Some(n) => n,
                None => "random"@,
            };
            name == "cma"@ || name == "cma-es"@ || name == "sep-cma-es"@ || name == "random"@ || name == "neighborhood"@
        }),
{
}

/// A refinement is built exactly of a known domain, and one of synthesis on an interval of
/// finite bounds in order.
pub proof fn law_domains_are_built(config: Value, lo: Measure, hi: Measure)
    ensures
        build_error(config, lo, hi) is None <==> domain_of(config) is Ok && (domain_of(config)->Ok_0 is Synthesis ==> (
        lo.finite() && hi.finite() && lo.rank() < hi.rank())),
{
}

/// A refinement is resumed exactly where there is room for it and where its state has a
/// configuration that can be built and, where it names an incumbent, one that can be
/// restored.
pub proof fn law_refinements_are_resumed(
    refines: Refines,
    params: Value,
    built: BuiltDomain,
    restored: Result<Incumbent, Seq<char>>,
)
    ensures
        load_error(refines, params, built, restored) is None <==> {
            &&& lookup(refines, id_of(params)) is Some || refines.len() < 64
            &&& get(params, "state"@) is Some
            &&& get(get(params, "state"@)->0, "config"@) is Some
            &&& build_error(get(get(params, "state"@)->0, "config"@)->0, built.lo, built.hi) is None
            &&& restored is Ok || str_at(get(params, "state"@)->0, "incumbent"@) is None
        },
{
}

/// A run of steps is two runs in a row: its history is that of the first and then that of
/// the second.
pub proof fn law_sessions_keep_their_history(
    s: Session,
    first: Seq<Stepped>,
    si_first: Seq<char>,
    middle: Session,
    second: Seq<Stepped>,
    si_second: Seq<char>,
    end: Session,
)
    requires
        session_ran(s, first, si_first, middle),
        session_ran(middle, second, si_second, end),
    ensures
        end.history@ == s.history@ + (first + second).map_values(|x: Stepped| x.report),
        end.agent.current.t == s.agent.current.t + first.len() + second.len(),
        end.config == s.config,
{
    assert((first + second).map_values(|x: Stepped| x.report) =~= first.map_values(|x: Stepped| x.report)
        + second.map_values(|x: Stepped| x.report));
    assert(end.history@ =~= s.history@ + (first + second).map_values(|x: Stepped| x.report));
}

/// An evaluation foretells what a proposal of the same candidate would come to: it says that
/// the candidate would be adopted exactly where the proposal is.
pub proof fn law_evaluations_foretell_adoption(id: Seq<char>, s: RefineSession, candidate: Incumbent, unsafe_reason: Option<String>)
    ensures
        ({
            let exam = Examination::Parsed { candidate, unsafe_reason };
            get(evaluation_value(id, s, exam), "would_adopt"@) == Some(
                Value::Bool(after_proposal(s.state(), exam).accepted == s.accepted + 1),
            )
        }),
{
    let exam = Examination::Parsed { candidate, unsafe_reason };
    reveal_strlit("would_adopt");
    reveal_strlit("safety_reason");
    assert("would_adopt"@.len() == 11 && "safety_reason"@.len() == 13);
    let a = empty_obj();
    let b = a.with("ok"@, Value::Bool(true));
    let c = b.with("id"@, Value::Str(id));
    let d = c.with("parseable"@, Value::Bool(exam is Parsed));
    let e = d.with("incumbent_score"@, Value::Num(s.incumbent.score@));
    let f = e.with("pretty"@, Value::Str(candidate.pretty@));
    let g = f.with("size"@, count_value(candidate.size));
    let h = g.with("score"@, Value::Num(candidate.score@));
    let i = h.with("heldout"@, Value::Num(candidate.heldout@));
    let j = i.with("safe"@, Value::Bool(unsafe_reason is None));
    let k = j.with("would_adopt"@, Value::Bool(is_adopted(s.state(), exam)));
    law_objects_bind_keys(a, "ok"@, Value::Bool(true));
    law_objects_bind_keys(b, "id"@, Value::Str(id));
    law_objects_bind_keys(c, "parseable"@, Value::Bool(exam is Parsed));
    law_objects_bind_keys(d, "incumbent_score"@, Value::Num(s.incumbent.score@));
    law_objects_bind_keys(e, "pretty"@, Value::Str(candidate.pretty@));
    law_objects_bind_keys(f, "size"@, count_value(candidate.size));
    law_objects_bind_keys(g, "score"@, Value::Num(candidate.score@));
    law_objects_bind_keys(h, "heldout"@, Value::Num(candidate.heldout@));
    law_objects_bind_keys(i, "safe"@, Value::Bool(unsafe_reason is None));
    law_objects_bind_keys(j, "would_adopt"@, Value::Bool(is_adopted(s.state(), exam)));
    if unsafe_reason is Some {
        law_objects_bind_keys(k, "safety_reason"@, Value::Str(unsafe_reason->0@));
    }
    law_proposals_meet_one_fate(s.state(), exam);
}

/// What is told of a proposal is what became of it.
pub proof fn law_items_tell_what_became_of_proposals(st: RefineState, input: Seq<char>, exam: Examination)
    ensures
        ({
            let after = after_proposal(st, exam);
            let status = get(item_value(st, input, exam), "status"@);
            &&& after.accepted > st.accepted ==> status == Some(Value::Str("adopted"@))
            &&& after.rejected_worse > st.rejected_worse ==> status == Some(Value::Str("rejected_worse"@))
            &&& after.rejected_unsafe > st.rejected_unsafe ==> status == Some(Value::Str("rejected_unsafe"@))
            &&& after.rejected_unparsed > st.rejected_unparsed ==> status == Some(Value::Str("unparsed"@))
            &&& get(item_value(st, input, exam), "input"@) == Some(Value::Str(input))
        }),
{
    reveal_strlit("input");
    reveal_strlit("status");
    reveal_strlit("error");
    reveal_strlit("reason");
    reveal_strlit("pretty");
    reveal_strlit("score");
    assert("input"@[0] == 'i' && "status"@[0] == 's' && "error"@[0] == 'e' && "reason"@[0] == 'r' && "pretty"@[0] == 'p');
    assert("status"@.len() == 6 && "score"@.len() == 5 && "score"@[0] == 's');
    let a = empty_obj();
    let b = a.with("input"@, Value::Str(input));
    law_objects_bind_keys(a, "input"@, Value::Str(input));
    match exam {
        Examination::Unparsed(e) => {
            let told = Value::Str("unparsed"@);
            law_objects_bind_keys(b, "status"@, told);
            law_objects_bind_keys(b.with("status"@, told), "error"@, Value::Str(e@));
        },
        Examination::Parsed { candidate, unsafe_reason } => match unsafe_reason {
            Some(reason) => {
                let told = Value::Str("rejected_unsafe"@);
                law_objects_bind_keys(b, "status"@, told);
                law_objects_bind_keys(b.with("status"@, told), "reason"@, Value::Str(reason@));
            },
            None => {
                let told = Value::Str(
                    if st.incumbent.fitness.below(candidate.fitness) {
                        "adopted"@
                    } else {
                        "rejected_worse"@
                    },
                );
                let c = b.with("status"@, told);
                law_objects_bind_keys(b, "status"@, told);
                law_objects_bind_keys(c, "pretty"@, Value::Str(candidate.pretty@));
                law_objects_bind_keys(c.with("pretty"@, Value::Str(candidate.pretty@)), "score"@, Value::Num(candidate.score@));
            },
        },
    }
}

} // verus!
