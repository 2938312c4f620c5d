//! Checkpoints: the macroscopic state of an agent as a JSON text, and its restoration.
//!
//! Every number that is measured or learned is kept as its decimal literal, so that what
//! is read back is what was written, digit for digit.

use vstd::prelude::*;

use crate::json::{
    empty_obj, get, is_number, lemma_arr_view, lemma_bound, parse_text, print, values, wf, Json, Value,
};
use crate::json_round_trip::{law_number_reads_back, law_parse_inverts_print};
use crate::json_text::{as_array, number_at, optional, u64_at};
use crate::text::{clone_texts, decimal, decimal_text, texts};

verus! {

/// The components of the cognitive state, each a vector of numbers.
#[derive(Debug, PartialEq, Eq)]
pub struct CognitiveState {
    pub d: Vec<String>,
    pub m: Vec<String>,
    pub r: Vec<String>,
    pub a: Vec<String>,
    pub c: Vec<String>,
    pub v: Vec<String>,
}

/// A matrix of numbers, row by row.
#[derive(Debug, PartialEq, Eq)]
pub struct Matrix {
    pub rows: u64,
    pub cols: u64,
    pub data: Vec<String>,
}

/// The hardware and software vectors with the matrices that couple them.
#[derive(Debug, PartialEq, Eq)]
pub struct Substrate {
    pub h: Vec<String>,
    pub o: Vec<String>,
    pub a: Matrix,
    pub b: Matrix,
    pub c: Matrix,
    pub measured_software_eff: Option<String>,
}

/// The strategy that revises the state: a focus of six weights, an edit of the software
/// vector and a gain.
#[derive(Debug, PartialEq, Eq)]
pub struct MetaStrategy {
    pub focus: Vec<String>,
    pub software_edit: Vec<String>,
    pub gain: String,
}

/// A snapshot from which an agent can go on.
#[derive(Debug, PartialEq, Eq)]
pub struct Checkpoint {
    pub t: u64,
    pub state: CognitiveState,
    pub substrate: Substrate,
    pub strategy: MetaStrategy,
}

pub type Numbers = Seq<Seq<char>>;

/// A cognitive state over mathematical sequences.
#[verifier::ext_equal]
pub ghost struct StateRecord {
    pub d: Numbers,
    pub m: Numbers,
    pub r: Numbers,
    pub a: Numbers,
    pub c: Numbers,
    pub v: Numbers,
}

#[verifier::ext_equal]
pub ghost struct MatrixRecord {
    pub rows: u64,
    pub cols: u64,
    pub data: Numbers,
}

#[verifier::ext_equal]
pub ghost struct SubstrateRecord {
    pub h: Numbers,
    pub o: Numbers,
    pub a: MatrixRecord,
    pub b: MatrixRecord,
    pub c: MatrixRecord,
    pub measured_software_eff: Option<Seq<char>>,
}

#[verifier::ext_equal]
pub ghost struct StrategyRecord {
    pub focus: Numbers,
    pub software_edit: Numbers,
    pub gain: Seq<char>,
}

#[verifier::ext_equal]
pub ghost struct CheckpointRecord {
    pub t: u64,
    pub state: StateRecord,
    pub substrate: SubstrateRecord,
    pub strategy: StrategyRecord,
}

impl CognitiveState {
    pub open spec fn view(&self) -> StateRecord {
        StateRecord {
            d: texts(self.d@),
            m: texts(self.m@),
            r: texts(self.r@),
            a: texts(self.a@),
            c: texts(self.c@),
            v: texts(self.v@),
        }
    }
}

impl Matrix {
    pub open spec fn view(&self) -> MatrixRecord {
        MatrixRecord { rows: self.rows, cols: self.cols, data: texts(self.data@) }
    }
}

impl Substrate {
    pub open spec fn view(&self) -> SubstrateRecord {
        SubstrateRecord {
            h: texts(self.h@),
            o: texts(self.o@),
            a: self.a@,
            b: self.b@,
            c: self.c@,
            measured_software_eff: optional(self.measured_software_eff),
        }
    }
}

impl MetaStrategy {
    pub open spec fn view(&self) -> StrategyRecord {
        StrategyRecord {
            focus: texts(self.focus@),
            software_edit: texts(self.software_edit@),
            gain: self.gain@,
        }
    }
}

impl Checkpoint {
    pub open spec fn view(&self) -> CheckpointRecord {
        CheckpointRecord { t: self.t, state: self.state@, substrate: self.substrate@, strategy: self.strategy@ }
    }
}

impl Clone for CognitiveState {
    fn clone(&self) -> (r: Self)
        ensures
            r@ == self@,
    {
        CognitiveState {
            d: clone_texts(self.d.as_slice()),
            m: clone_texts(self.m.as_slice()),
            r: clone_texts(self.r.as_slice()),
            a: clone_texts(self.a.as_slice()),
            c: clone_texts(self.c.as_slice()),
            v: clone_texts(self.v.as_slice()),
        }
    }
}

impl Clone for Matrix {
    fn clone(&self) -> (r: Self)
        ensures
            r@ == self@,
    {
        Matrix { rows: self.rows, cols: self.cols, data: clone_texts(self.data.as_slice()) }
    }
}

impl Clone for Substrate {
    fn clone(&self) -> (r: Self)
        ensures
            r@ == self@,
    {
        let measured: Option<String> = match &self.measured_software_eff {
            Some(e) => Some(e.clone()),
            None => None,
        };
        Substrate {
            h: clone_texts(self.h.as_slice()),
            o: clone_texts(self.o.as_slice()),
            a: self.a.clone(),
            b: self.b.clone(),
            c: self.c.clone(),
            measured_software_eff: measured,
        }
    }
}

impl Clone for MetaStrategy {
    fn clone(&self) -> (r: Self)
        ensures
            r@ == self@,
    {
        MetaStrategy {
            focus: clone_texts(self.focus.as_slice()),
            software_edit: clone_texts(self.software_edit.as_slice()),
            gain: self.gain.clone(),
        }
    }
}

impl Clone for Checkpoint {
    fn clone(&self) -> (r: Self)
        ensures
            r@ == self@,
    {
        Checkpoint {
            t: self.t,
            state: self.state.clone(),
            substrate: self.substrate.clone(),
            strategy: self.strategy.clone(),
        }
    }
}

// ---------------------------------------------------------------------------
// Writing
// ---------------------------------------------------------------------------

/// An array of numbers.
pub open spec fn number_array(numbers: Numbers) -> Value {
    Value::Arr(numbers.map_values(|n: Seq<char>| Value::Num(n)))
}

pub open spec fn matrix_value(m: MatrixRecord) -> Value {
    empty_obj().with("rows"@, Value::Num(decimal(m.rows as nat))).with("cols"@, Value::Num(decimal(m.cols as nat))).with(
        "data"@,
        number_array(m.data),
    )
}

pub open spec fn state_value(s: StateRecord) -> Value {
    empty_obj().with("d"@, number_array(s.d)).with("m"@, number_array(s.m)).with("r"@, number_array(s.r)).with(
        "a"@,
        number_array(s.a),
    ).with("c"@, number_array(s.c)).with("v"@, number_array(s.v))
}

pub open spec fn substrate_value(s: SubstrateRecord) -> Value {
    let base = empty_obj().with("h"@, number_array(s.h)).with("o"@, number_array(s.o)).with("a"@, matrix_value(s.a)).with(
        "b"@,
        matrix_value(s.b),
    ).with("c"@, matrix_value(s.c));
    match s.measured_software_eff {
        Some(e) => base.with("measured_software_eff"@, Value::Num(e)),
        None => base,
    }
}

pub open spec fn strategy_value(s: StrategyRecord) -> Value {
    empty_obj().with("focus"@, number_array(s.focus)).with("software_edit"@, number_array(s.software_edit)).with(
        "gain"@,
        Value::Num(s.gain),
    )
}

pub open spec fn checkpoint_value(cp: CheckpointRecord) -> Value {
    empty_obj().with("version"@, Value::Num(decimal(1))).with("t"@, Value::Num(decimal(cp.t as nat))).with(
        "state"@,
        state_value(cp.state),
    ).with("substrate"@, substrate_value(cp.substrate)).with("strategy"@, strategy_value(cp.strategy))
}

fn vec_json(numbers: &[String]) -> (r: Json)
    ensures
        r@ == number_array(texts(numbers@)),
{
    let mut out: Vec<Json> = Vec::new();
    let mut i: usize = 0;
    while i < numbers.len()
        invariant
            i <= numbers@.len(),
            values(out@) == texts(numbers@.take(i as int)).map_values(|n: Seq<char>| Value::Num(n)),
        decreases numbers@.len() - i,
    {
        let ghost before = out@;
        out.push(Json::Num(numbers[i].clone()));
        i += 1;
        proof {
            assert(values(out@) =~= values(before).push(Value::Num(numbers@[i - 1]@)));
            assert(values(out@) =~= texts(numbers@.take(i as int)).map_values(|n: Seq<char>| Value::Num(n)));
        }
    }
    proof {
        assert(numbers@.take(i as int) == numbers@);
        lemma_arr_view(out);
    }
    Json::Arr(out)
}

fn matrix_json(m: &Matrix) -> (r: Json)
    ensures
        r@ == matrix_value(m@),
{
    let mut o = Json::obj();
    o.set("rows", Json::num(m.rows));
    o.set("cols", Json::num(m.cols));
    o.set("data", vec_json(m.data.as_slice()));
    o
}

fn state_json(s: &CognitiveState) -> (r: Json)
    ensures
        r@ == state_value(s@),
{
    let mut o = Json::obj();
    o.set("d", vec_json(s.d.as_slice()));
    o.set("m", vec_json(s.m.as_slice()));
    o.set("r", vec_json(s.r.as_slice()));
    o.set("a", vec_json(s.a.as_slice()));
    o.set("c", vec_json(s.c.as_slice()));
    o.set("v", vec_json(s.v.as_slice()));
    o
}

fn substrate_json(s: &Substrate) -> (r: Json)
    ensures
        r@ == substrate_value(s@),
{
    let mut o = Json::obj();
    o.set("h", vec_json(s.h.as_slice()));
    o.set("o", vec_json(s.o.as_slice()));
    o.set("a", matrix_json(&s.a));
    o.set("b", matrix_json(&s.b));
    o.set("c", matrix_json(&s.c));
    match &s.measured_software_eff {
        Some(e) => {
            o.set("measured_software_eff", Json::Num(e.clone()));
        },
        None => {},
    }
    o
}

fn strategy_json(s: &MetaStrategy) -> (r: Json)
    ensures
        r@ == strategy_value(s@),
{
    let mut o = Json::obj();
    o.set("focus", vec_json(s.focus.as_slice()));
    o.set("software_edit", vec_json(s.software_edit.as_slice()));
    o.set("gain", Json::Num(s.gain.clone()));
    o
}

impl Checkpoint {
    /// The canonical JSON text.
    pub fn to_json(&self) -> (r: String)
        ensures
            r@ == print(checkpoint_value(self@)),
    {
        let mut root = Json::obj();
        root.set("version", Json::num(1));
        root.set("t", Json::num(self.t));
        root.set("state", state_json(&self.state));
        root.set("substrate", substrate_json(&self.substrate));
        root.set("strategy", strategy_json(&self.strategy));
        root.to_string()
    }
}

// ---------------------------------------------------------------------------
// Reading
// ---------------------------------------------------------------------------

/// The literal of a number; other values count as zero.
pub open spec fn number_or_zero(v: Value) -> Seq<char> {
    match v {
        Value::Num(n) => n,
        _ => "0"@,
    }
}

/// The numbers of an array.
pub open spec fn numbers_of(v: Value) -> Option<Numbers> {
    match as_array(v) {
        Some(items) => Some(items.map_values(|x: Value| number_or_zero(x))),
        None => None,
    }
}

pub open spec fn numbers_at(v: Value, key: Seq<char>) -> Option<Numbers> {
    match get(v, key) {
        Some(x) => numbers_of(x),
        None => None,
    }
}

/// A matrix, where the data fill its rows and columns exactly.
pub open spec fn matrix_of(v: Value) -> Option<MatrixRecord> {
    match (u64_at(v, "rows"@), u64_at(v, "cols"@), numbers_at(v, "data"@)) {
        (Some(rows), Some(cols), Some(data)) => if data.len() == rows * cols {
            Some(MatrixRecord { rows, cols, data })
        } else {
            None
        },
        _ => None,
    }
}

pub open spec fn matrix_at(v: Value, key: Seq<char>) -> Option<MatrixRecord> {
    match get(v, key) {
        Some(x) => matrix_of(x),
        None => None,
    }
}

/// What is there, or else the message.
pub open spec fn or_message<T>(found: Option<T>, message: Seq<char>) -> Result<T, Seq<char>> {
    match found {
        Some(x) => Ok(x),
        None => Err(message),
    }
}

/// A component of the cognitive state.
pub open spec fn component(s: Value, key: Seq<char>) -> Result<Numbers, Seq<char>> {
    match get(s, key) {
        Some(x) => or_message(numbers_of(x), "state."@ + key + " invalide"@),
        None => Err("state."@ + key),
    }
}

pub open spec fn state_of(s: Value) -> Result<StateRecord, Seq<char>> {
    match component(s, "d"@) {
        Err(e) => Err(e),
        Ok(d) => match component(s, "m"@) {
        Err(e) => Err(e),
        Ok(m) => match component(s, "r"@) {
        Err(e) => Err(e),
        Ok(r) => match component(s, "a"@) {
        Err(e) => Err(e),
        Ok(a) => match component(s, "c"@) {
        Err(e) => Err(e),
        Ok(c) => match component(s, "v"@) {
        Err(e) => Err(e),
        Ok(v) => Ok(StateRecord { d, m, r, a, c, v }),
    },
    },
    },
    },
    },
    }
}

pub open spec fn substrate_of(s: Value) -> Result<SubstrateRecord, Seq<char>> {
    match (numbers_at(s, "h"@), numbers_at(s, "o"@), matrix_at(s, "a"@), matrix_at(s, "b"@), matrix_at(s, "c"@)) {
        (None, _, _, _, _) => Err("substrate.h"@),
        (_, None, _, _, _) => Err("substrate.o"@),
        (_, _, None, _, _) => Err("substrate.a"@),
        (_, _, _, None, _) => Err("substrate.b"@),
        (_, _, _, _, None) => Err("substrate.c"@),
        (Some(h), Some(o), Some(a), Some(b), Some(c)) => Ok(
            SubstrateRecord { h, o, a, b, c, measured_software_eff: number_at(s, "measured_software_eff"@) },
        ),
    }
}

pub open spec fn strategy_of(s: Value) -> Result<StrategyRecord, Seq<char>> {
    match (numbers_at(s, "focus"@), numbers_at(s, "software_edit"@)) {
        (None, _) => Err("strategy.focus"@),
        (Some(focus), edit) => if focus.len() != 6 {
            Err("strategy.focus doit avoir 6 valeurs"@)
        } else {
            match edit {
                None => Err("strategy.software_edit"@),
                Some(software_edit) => Ok(
                    StrategyRecord {
                        focus,
                        software_edit,
                        gain: match number_at(s, "gain"@) {
                            Some(g) => g,
                            None => "0.05"@,
                        },
                    },
                ),
            }
        },
    }
}

/// Some component is empty.
pub open spec fn has_empty_component(s: StateRecord) -> bool {
    s.d.len() == 0 || s.m.len() == 0 || s.r.len() == 0 || s.a.len() == 0 || s.c.len() == 0 || s.v.len() == 0
}

/// The checkpoint that a value describes, or the first thing that is wrong with it.
pub open spec fn checkpoint_of(root: Value) -> Result<CheckpointRecord, Seq<char>> {
    match u64_at(root, "t"@) {
        None => Err("champ 't'"@),
        Some(t) => match get(root, "state"@) {
            None => Err("champ 'state'"@),
            Some(s) => match state_of(s) {
                Err(e) => Err(e),
                Ok(state) => match get(root, "substrate"@) {
                    None => Err("champ 'substrate'"@),
                    Some(sb) => match substrate_of(sb) {
                        Err(e) => Err(e),
                        Ok(substrate) => match get(root, "strategy"@) {
                            None => Err("champ 'strategy'"@),
                            Some(st) => match strategy_of(st) {
                                Err(e) => Err(e),
                                Ok(strategy) => if has_empty_component(state) {
                                    Err("state : composante vide"@)
                                } else {
                                    Ok(CheckpointRecord { t, state, substrate, strategy })
                                },
                            },
                        },
                    },
                },
            },
        },
    }
}

/// The checkpoint that a text describes.
pub open spec fn decode_checkpoint(src: Seq<char>) -> Result<CheckpointRecord, Seq<char>> {
    match parse_text(src) {
        Some(root) => checkpoint_of(root),
        None => Err("malformed JSON text"@),
    }
}

fn json_vec(j: &Json) -> (r: Option<Vec<String>>)
    ensures
        match r {
            Some(numbers) => numbers_of(j@) == Some(texts(numbers@)),
            None => numbers_of(j@) is None,
        },
{
    match j.as_array() {
        Some(items) => {
            let mut out: Vec<String> = Vec::new();
            let mut i: usize = 0;
            while i < items.len()
                invariant
                    i <= items@.len(),
                    texts(out@) == values(items@.take(i as int)).map_values(|x: Value| number_or_zero(x)),
                decreases items@.len() - i,
            {
                let ghost before = out@;
                match items[i].as_number() {
                    Some(n) => {
                        out.push(n);
                    },
                    None => {
                        out.push("0".to_owned());
                    },
                }
                i += 1;
                proof {
                    assert(texts(out@) =~= texts(before).push(number_or_zero(items@[i - 1]@)));
                    assert(texts(out@) =~= values(items@.take(i as int)).map_values(|x: Value| number_or_zero(x)));
                }
            }
            assert(items@.take(i as int) == items@);
            Some(out)
        },
        None => None,
    }
}

fn vec_at(j: &Json, key: &str) -> (r: Option<Vec<String>>)
    ensures
        match r {
            Some(numbers) => numbers_at(j@, key@) == Some(texts(numbers@)),
            None => numbers_at(j@, key@) is None,
        },
{
    match j.get(key) {
        Some(x) => json_vec(x),
        None => None,
    }
}

fn json_matrix(j: &Json) -> (r: Option<Matrix>)
    ensures
        match r {
            Some(m) => matrix_of(j@) == Some(m@),
            None => matrix_of(j@) is None,
        },
{
    match (j.u64_at("rows"), j.u64_at("cols"), vec_at(j, "data")) {
        (Some(rows), Some(cols), Some(data)) => {
            assert(0 <= rows * cols <= 0xffff_ffff_ffff_ffff * 0xffff_ffff_ffff_ffff) by (nonlinear_arith)
                requires
                    0 <= rows <= 0xffff_ffff_ffff_ffff,
                    0 <= cols <= 0xffff_ffff_ffff_ffff,
            ;
            let cells: u128 = rows as u128 * cols as u128;
            if data.len() as u128 == cells {
                Some(Matrix { rows, cols, data })
            } else {
                None
            }
        },
        _ => None,
    }
}

fn read_matrix(j: &Json, key: &str) -> (r: Option<Matrix>)
    ensures
        match r {
            Some(m) => matrix_at(j@, key@) == Some(m@),
            None => matrix_at(j@, key@) is None,
        },
{
    match j.get(key) {
        Some(x) => json_matrix(x),
        None => None,
    }
}

fn read_component(s: &Json, key: &str) -> (r: Result<Vec<String>, String>)
    ensures
        match r {
            Ok(numbers) => component(s@, key@) == Ok::<Numbers, Seq<char>>(texts(numbers@)),
            Err(e) => component(s@, key@) == Err::<Numbers, Seq<char>>(e@),
        },
{
    let mut message = "state.".to_owned();
    message.append(key);
    match s.get(key) {
        Some(x) => match json_vec(x) {
            Some(numbers) => Ok(numbers),
            None => {
                message.append(" invalide");
                Err(message)
            },
        },
        None => Err(message),
    }
}

fn read_state(s: &Json) -> (r: Result<CognitiveState, String>)
    ensures
        match r {
            Ok(state) => state_of(s@) == Ok::<StateRecord, Seq<char>>(state@),
            Err(e) => state_of(s@) == Err::<StateRecord, Seq<char>>(e@),
        },
{
    let d = read_component(s, "d")?;
    let m = read_component(s, "m")?;
    let r = read_component(s, "r")?;
    let a = read_component(s, "a")?;
    let c = read_component(s, "c")?;
    let v = read_component(s, "v")?;
    Ok(CognitiveState { d, m, r, a, c, v })
}

fn read_substrate(s: &Json) -> (r: Result<Substrate, String>)
    ensures
        match r {
            Ok(substrate) => substrate_of(s@) == Ok::<SubstrateRecord, Seq<char>>(substrate@),
            Err(e) => substrate_of(s@) == Err::<SubstrateRecord, Seq<char>>(e@),
        },
{
    let h = match vec_at(s, "h") {
        Some(x) => x,
        None => {
            return Err("substrate.h".to_owned());
        },
    };
    let o = match vec_at(s, "o") {
        Some(x) => x,
        None => {
            return Err("substrate.o".to_owned());
        },
    };
    let a = match read_matrix(s, "a") {
        Some(x) => x,
        None => {
            return Err("substrate.a".to_owned());
        },
    };
    let b = match read_matrix(s, "b") {
        Some(x) => x,
        None => {
            return Err("substrate.b".to_owned());
        },
    };
    let c = match read_matrix(s, "c") {
        Some(x) => x,
        None => {
            return Err("substrate.c".to_owned());
        },
    };
    let measured_software_eff = s.number_at("measured_software_eff");
    Ok(Substrate { h, o, a, b, c, measured_software_eff })
}

fn read_strategy(s: &Json) -> (r: Result<MetaStrategy, String>)
    ensures
        match r {
            Ok(strategy) => strategy_of(s@) == Ok::<StrategyRecord, Seq<char>>(strategy@),
            Err(e) => strategy_of(s@) == Err::<StrategyRecord, Seq<char>>(e@),
        },
{
    let focus = match vec_at(s, "focus") {
        Some(x) => x,
        None => {
            return Err("strategy.focus".to_owned());
        },
    };
    if focus.len() != 6 {
        return Err("strategy.focus doit avoir 6 valeurs".to_owned());
    }
    let software_edit = match vec_at(s, "software_edit") {
        Some(x) => x,
        None => {
            return Err("strategy.software_edit".to_owned());
        },
    };
    let gain = match s.number_at("gain") {
        Some(g) => g,
        None => "0.05".to_owned(),
    };
    Ok(MetaStrategy { focus, software_edit, gain })
}

impl CognitiveState {
    fn has_empty(&self) -> (r: bool)
        ensures
            r == has_empty_component(self@),
    {
        self.d.len() == 0 || self.m.len() == 0 || self.r.len() == 0 || self.a.len() == 0 || self.c.len() == 0
            || self.v.len() == 0
    }
}

impl Checkpoint {
    fn from_value(root: &Json) -> (r: Result<Self, String>)
        ensures
            match r {
                Ok(cp) => checkpoint_of(root@) == Ok::<CheckpointRecord, Seq<char>>(cp@),
                Err(e) => checkpoint_of(root@) == Err::<CheckpointRecord, Seq<char>>(e@),
            },
    {
        let t: u64 = match root.u64_at("t") {
            Some(t) => t,
            None => {
                return Err("champ 't'".to_owned());
            },
        };
        let state = match root.get("state") {
            Some(s) => read_state(s)?,
            None => {
                return Err("champ 'state'".to_owned());
            },
        };
        let substrate = match root.get("substrate") {
            Some(s) => read_substrate(s)?,
            None => {
                return Err("champ 'substrate'".to_owned());
            },
        };
        let strategy = match root.get("strategy") {
            Some(s) => read_strategy(s)?,
            None => {
                return Err("champ 'strategy'".to_owned());
            },
        };
        if state.has_empty() {
            return Err("state : composante vide".to_owned());
        }
        Ok(Checkpoint { t, state, substrate, strategy })
    }

    /// Reads a checkpoint back, or says what is wrong with the text.
    pub fn from_json(src: &str) -> (r: Result<Self, String>)
        ensures
            match r {
                Ok(cp) => decode_checkpoint(src@) == Ok::<CheckpointRecord, Seq<char>>(cp@),
                Err(e) => decode_checkpoint(src@) == Err::<CheckpointRecord, Seq<char>>(e@),
            },
    {
        let root = Json::parse(src)?;
        Checkpoint::from_value(&root)
    }
}

// ---------------------------------------------------------------------------
// Restoration
// ---------------------------------------------------------------------------

/// The number of values in each component.
pub open spec fn dimensions(s: StateRecord) -> Seq<nat> {
    seq![s.d.len(), s.m.len(), s.r.len(), s.a.len(), s.c.len(), s.v.len()]
}

/// The numerals between brackets, parted by commas.
pub open spec fn dimension_text(s: StateRecord) -> Seq<char> {
    "["@ + decimal(s.d.len()) + ", "@ + decimal(s.m.len()) + ", "@ + decimal(s.r.len()) + ", "@ + decimal(s.a.len()) + ", "@
        + decimal(s.c.len()) + ", "@ + decimal(s.v.len()) + "]"@
}

/// A checkpoint fits an agent when the components and the substrate vectors of the two
/// have the same lengths.
pub open spec fn fit(current: CheckpointRecord, cp: CheckpointRecord) -> Result<(), Seq<char>> {
    if dimensions(cp.state) != dimensions(current.state) {
        Err(
            "dimensions d'état du checkpoint "@ + dimension_text(cp.state) + " incohérentes avec l'agent "@ + dimension_text(
                current.state,
            ),
        )
    } else if cp.substrate.h.len() != current.substrate.h.len() || cp.substrate.o.len() != current.substrate.o.len() {
        Err(
            "dimensions substrat du checkpoint (h="@ + decimal(cp.substrate.h.len()) + ", o="@ + decimal(
                cp.substrate.o.len(),
            ) + ") incohérentes avec l'agent (h="@ + decimal(current.substrate.h.len()) + ", o="@ + decimal(
                current.substrate.o.len(),
            ) + ")"@,
        )
    } else {
        Ok(())
    }
}

fn append_len(out: &mut String, n: usize)
    ensures
        final(out)@ == old(out)@ + decimal(n as nat),
{
    out.append(decimal_text(n as u64).as_str());
}

impl CognitiveState {
    fn same_dimensions(&self, other: &CognitiveState) -> (r: bool)
        ensures
            r == (dimensions(self@) == dimensions(other@)),
    {
        let same: bool = self.d.len() == other.d.len() && self.m.len() == other.m.len() && self.r.len() == other.r.len()
            && self.a.len() == other.a.len() && self.c.len() == other.c.len() && self.v.len() == other.v.len();
        proof {
            let x = dimensions(self@);
            let y = dimensions(other@);
            if same {
                assert(x =~= y);
            }
            if x == y {
                assert(x[0] == y[0] && x[1] == y[1] && x[2] == y[2] && x[3] == y[3] && x[4] == y[4] && x[5] == y[5]);
            }
        }
        same
    }

    fn dimension_text(&self) -> (r: String)
        ensures
            r@ == dimension_text(self@),
    {
        let mut out = "[".to_owned();
        append_len(&mut out, self.d.len());
        out.append(", ");
        append_len(&mut out, self.m.len());
        out.append(", ");
        append_len(&mut out, self.r.len());
        out.append(", ");
        append_len(&mut out, self.a.len());
        out.append(", ");
        append_len(&mut out, self.c.len());
        out.append(", ");
        append_len(&mut out, self.v.len());
        out.append("]");
        out
    }
}

impl Checkpoint {
    /// Replaces this state by a checkpoint of the same dimensions; a checkpoint of
    /// others is refused, and the state stays.
    pub fn try_restore(&mut self, cp: &Checkpoint) -> (r: Result<(), String>)
        ensures
            match r {
                Ok(_) => fit(old(self)@, cp@) is Ok && final(self)@ == cp@,
                Err(e) => fit(old(self)@, cp@) == Err::<(), Seq<char>>(e@) && *final(self) == *old(self),
            },
    {
        if !cp.state.same_dimensions(&self.state) {
            let mut message = "dimensions d'état du checkpoint ".to_owned();
            message.append(cp.state.dimension_text().as_str());
            message.append(" incohérentes avec l'agent ");
            message.append(self.state.dimension_text().as_str());
            return Err(message);
        }
        if cp.substrate.h.len() != self.substrate.h.len() || cp.substrate.o.len() != self.substrate.o.len() {
            let mut message = "dimensions substrat du checkpoint (h=".to_owned();
            append_len(&mut message, cp.substrate.h.len());
            message.append(", o=");
            append_len(&mut message, cp.substrate.o.len());
            message.append(") incohérentes avec l'agent (h=");
            append_len(&mut message, self.substrate.h.len());
            message.append(", o=");
            append_len(&mut message, self.substrate.o.len());
            message.append(")");
            return Err(message);
        }
        self.restore(cp);
        Ok(())
    }

    /// Replaces this state by a checkpoint.
    pub fn restore(&mut self, cp: &Checkpoint)
        ensures
            final(self)@ == cp@,
    {
        self.t = cp.t;
        self.state = cp.state.clone();
        self.substrate = cp.substrate.clone();
        self.strategy = cp.strategy.clone();
    }
}

// ---------------------------------------------------------------------------
// Laws
// ---------------------------------------------------------------------------

pub open spec fn all_numbers(numbers: Numbers) -> bool {
    forall|i: int| 0 <= i < numbers.len() ==> is_number(#[trigger] numbers[i])
}

pub open spec fn is_full_matrix(m: MatrixRecord) -> bool {
    m.data.len() == m.rows * m.cols && all_numbers(m.data)
}

/// A checkpoint that can be read back: its numbers are number literals, its matrices are
/// full, its focus has six weights and no component of its state is empty.
pub open spec fn is_complete(cp: CheckpointRecord) -> bool {
    &&& all_numbers(cp.state.d) && all_numbers(cp.state.m) && all_numbers(cp.state.r)
    &&& all_numbers(cp.state.a) && all_numbers(cp.state.c) && all_numbers(cp.state.v)
    &&& !has_empty_component(cp.state)
    &&& all_numbers(cp.substrate.h) && all_numbers(cp.substrate.o)
    &&& is_full_matrix(cp.substrate.a) && is_full_matrix(cp.substrate.b) && is_full_matrix(cp.substrate.c)
    &&& cp.substrate.measured_software_eff is Some ==> is_number(cp.substrate.measured_software_eff->0)
    &&& cp.strategy.focus.len() == 6 && all_numbers(cp.strategy.focus)
    &&& all_numbers(cp.strategy.software_edit) && is_number(cp.strategy.gain)
}

proof fn lemma_number_array(numbers: Numbers)
    requires
        all_numbers(numbers),
    ensures
        wf(number_array(numbers)),
        numbers_of(number_array(numbers)) == Some(numbers),
{
    let items = numbers.map_values(|n: Seq<char>| Value::Num(n));
    assert forall|i: int| 0 <= i < items.len() implies wf(#[trigger] items[i]) by {
        assert(is_number(numbers[i]));
    }
    assert(items.map_values(|x: Value| number_or_zero(x)) =~= numbers);
}

proof fn lemma_matrix_value(m: MatrixRecord)
    requires
        is_full_matrix(m),
    ensures
        wf(matrix_value(m)),
        matrix_of(matrix_value(m)) == Some(m),
{
    reveal_strlit("rows");
    reveal_strlit("cols");
    reveal_strlit("data");
    assert("rows"@[0] == 'r' && "cols"@[0] == 'c' && "data"@[0] == 'd');
    law_number_reads_back(m.rows);
    law_number_reads_back(m.cols);
    lemma_number_array(m.data);
    let a = empty_obj();
    let b = a.with("rows"@, Value::Num(decimal(m.rows as nat)));
    let c = b.with("cols"@, Value::Num(decimal(m.cols as nat)));
    lemma_bound(a, "rows"@, Value::Num(decimal(m.rows as nat)));
    lemma_bound(b, "cols"@, Value::Num(decimal(m.cols as nat)));
    lemma_bound(c, "data"@, number_array(m.data));
}

proof fn lemma_state_value(s: StateRecord)
    requires
        all_numbers(s.d) && all_numbers(s.m) && all_numbers(s.r),
        all_numbers(s.a) && all_numbers(s.c) && all_numbers(s.v),
    ensures
        wf(state_value(s)),
        state_of(state_value(s)) == Ok::<StateRecord, Seq<char>>(s),
{
    reveal_strlit("d");
    reveal_strlit("m");
    reveal_strlit("r");
    reveal_strlit("a");
    reveal_strlit("c");
    reveal_strlit("v");
    assert("d"@[0] == 'd' && "m"@[0] == 'm' && "r"@[0] == 'r' && "a"@[0] == 'a' && "c"@[0] == 'c' && "v"@[0] == 'v');
    lemma_number_array(s.d);
    lemma_number_array(s.m);
    lemma_number_array(s.r);
    lemma_number_array(s.a);
    lemma_number_array(s.c);
    lemma_number_array(s.v);
    let o0 = empty_obj();
    let o1 = o0.with("d"@, number_array(s.d));
    let o2 = o1.with("m"@, number_array(s.m));
    let o3 = o2.with("r"@, number_array(s.r));
    let o4 = o3.with("a"@, number_array(s.a));
    let o5 = o4.with("c"@, number_array(s.c));
    let o6 = o5.with("v"@, number_array(s.v));
    lemma_bound(o0, "d"@, number_array(s.d));
    lemma_bound(o1, "m"@, number_array(s.m));
    lemma_bound(o2, "r"@, number_array(s.r));
    lemma_bound(o3, "a"@, number_array(s.a));
    lemma_bound(o4, "c"@, number_array(s.c));
    lemma_bound(o5, "v"@, number_array(s.v));
}

proof fn lemma_substrate_value(s: SubstrateRecord)
    requires
        all_numbers(s.h) && all_numbers(s.o),
        is_full_matrix(s.a) && is_full_matrix(s.b) && is_full_matrix(s.c),
        s.measured_software_eff is Some ==> is_number(s.measured_software_eff->0),
    ensures
        wf(substrate_value(s)),
        substrate_of(substrate_value(s)) == Ok::<SubstrateRecord, Seq<char>>(s),
{
    reveal_strlit("h");
    reveal_strlit("o");
    reveal_strlit("a");
    reveal_strlit("b");
    reveal_strlit("c");
    reveal_strlit("measured_software_eff");
    assert("h"@[0] == 'h' && "o"@[0] == 'o' && "a"@[0] == 'a' && "b"@[0] == 'b' && "c"@[0] == 'c');
    assert("measured_software_eff"@[0] == 'm');
    lemma_number_array(s.h);
    lemma_number_array(s.o);
    lemma_matrix_value(s.a);
    lemma_matrix_value(s.b);
    lemma_matrix_value(s.c);
    let o0 = empty_obj();
    let o1 = o0.with("h"@, number_array(s.h));
    let o2 = o1.with("o"@, number_array(s.o));
    let o3 = o2.with("a"@, matrix_value(s.a));
    let o4 = o3.with("b"@, matrix_value(s.b));
    let o5 = o4.with("c"@, matrix_value(s.c));
    lemma_bound(o0, "h"@, number_array(s.h));
    lemma_bound(o1, "o"@, number_array(s.o));
    lemma_bound(o2, "a"@, matrix_value(s.a));
    lemma_bound(o3, "b"@, matrix_value(s.b));
    lemma_bound(o4, "c"@, matrix_value(s.c));
    if s.measured_software_eff is Some {
        lemma_bound(o5, "measured_software_eff"@, Value::Num(s.measured_software_eff->0));
    }
}

proof fn lemma_strategy_value(s: StrategyRecord)
    requires
        s.focus.len() == 6 && all_numbers(s.focus),
        all_numbers(s.software_edit) && is_number(s.gain),
    ensures
        wf(strategy_value(s)),
        strategy_of(strategy_value(s)) == Ok::<StrategyRecord, Seq<char>>(s),
{
    reveal_strlit("focus");
    reveal_strlit("software_edit");
    reveal_strlit("gain");
    assert("focus"@[0] == 'f' && "software_edit"@[0] == 's' && "gain"@[0] == 'g');
    lemma_number_array(s.focus);
    lemma_number_array(s.software_edit);
    let a = empty_obj();
    let b = a.with("focus"@, number_array(s.focus));
    let c = b.with("software_edit"@, number_array(s.software_edit));
    lemma_bound(a, "focus"@, number_array(s.focus));
    lemma_bound(b, "software_edit"@, number_array(s.software_edit));
    lemma_bound(c, "gain"@, Value::Num(s.gain));
}

/// A complete checkpoint that is written out and read back is the same checkpoint.
pub proof fn law_checkpoint_round_trip(cp: CheckpointRecord)
    requires
        is_complete(cp),
    ensures
        decode_checkpoint(print(checkpoint_value(cp))) == Ok::<CheckpointRecord, Seq<char>>(cp),
{
    reveal_strlit("version");
    reveal_strlit("t");
    reveal_strlit("state");
    reveal_strlit("substrate");
    reveal_strlit("strategy");
    assert("version"@.len() == 7 && "t"@.len() == 1 && "state"@.len() == 5 && "substrate"@.len() == 9);
    assert("strategy"@.len() == 8);
    lemma_state_value(cp.state);
    lemma_substrate_value(cp.substrate);
    lemma_strategy_value(cp.strategy);
    law_number_reads_back(1);
    law_number_reads_back(cp.t);
    let a = empty_obj();
    let b = a.with("version"@, Value::Num(decimal(1)));
    let c = b.with("t"@, Value::Num(decimal(cp.t as nat)));
    let d = c.with("state"@, state_value(cp.state));
    let e = d.with("substrate"@, substrate_value(cp.substrate));
    lemma_bound(a, "version"@, Value::Num(decimal(1)));
    lemma_bound(b, "t"@, Value::Num(decimal(cp.t as nat)));
    lemma_bound(c, "state"@, state_value(cp.state));
    lemma_bound(d, "substrate"@, substrate_value(cp.substrate));
    lemma_bound(e, "strategy"@, strategy_value(cp.strategy));
    law_parse_inverts_print(checkpoint_value(cp));
}

/// A checkpoint taken from an agent always fits it again.
pub proof fn law_snapshot_fits_its_agent(current: CheckpointRecord, later: CheckpointRecord)
    requires
        dimensions(current.state) == dimensions(later.state),
        current.substrate.h.len() == later.substrate.h.len(),
        current.substrate.o.len() == later.substrate.o.len(),
    ensures
        fit(later, current) == Ok::<(), Seq<char>>(()),
{
}

/// A checkpoint fits an agent exactly where all six components of the state and both of the
/// substrate have its dimensions.
pub proof fn law_fitting_checkpoints(current: CheckpointRecord, cp: CheckpointRecord)
    ensures
        fit(current, cp) is Ok <==> {
            &&& cp.state.d.len() == current.state.d.len()
            &&& cp.state.m.len() == current.state.m.len()
            &&& cp.state.r.len() == current.state.r.len()
            &&& cp.state.a.len() == current.state.a.len()
            &&& cp.state.c.len() == current.state.c.len()
            &&& cp.state.v.len() == current.state.v.len()
            &&& cp.substrate.h.len() == current.substrate.h.len()
            &&& cp.substrate.o.len() == current.substrate.o.len()
        },
{
    let a = dimensions(cp.state);
    let b = dimensions(current.state);
    if a == b {
        assert(a[0] == b[0] && a[1] == b[1] && a[2] == b[2] && a[3] == b[3] && a[4] == b[4] && a[5] == b[5]);
    }
    if cp.state.d.len() == current.state.d.len() && cp.state.m.len() == current.state.m.len() && cp.state.r.len()
        == current.state.r.len() && cp.state.a.len() == current.state.a.len() && cp.state.c.len() == current.state.c.len()
        && cp.state.v.len() == current.state.v.len() {
        assert(a =~= b);
    }
}

/// Whatever is read as a checkpoint has six weights of focus, no empty component of its
/// state, and matrices of as many numbers as they have places.
pub proof fn law_read_checkpoints_are_whole(src: Seq<char>)
    ensures
        decode_checkpoint(src) matches Ok(cp) ==> {
            &&& cp.strategy.focus.len() == 6
            &&& cp.state.d.len() > 0 && cp.state.m.len() > 0 && cp.state.r.len() > 0
            &&& cp.state.a.len() > 0 && cp.state.c.len() > 0 && cp.state.v.len() > 0
            &&& cp.substrate.a.data.len() == cp.substrate.a.rows * cp.substrate.a.cols
            &&& cp.substrate.b.data.len() == cp.substrate.b.rows * cp.substrate.b.cols
            &&& cp.substrate.c.data.len() == cp.substrate.c.rows * cp.substrate.c.cols
        },
{
}

} // verus!
