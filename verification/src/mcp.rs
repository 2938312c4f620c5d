//! The protocol of the tool server: requests and responses, the catalogue of tools, and
//! the background job.

use vstd::prelude::*;

use crate::json::{empty_obj, get, lemma_arr_view, lemma_bound, parse_text, print, values, wf, Json, Value};
use crate::json_text::{number_at, optional, str_at, u64_at};
use crate::text::{
    decimal, decimal_int, decimal_text, filled_lines, law_filled_lines, law_prefix_and_infix, nonempty_parts, same_text, split, split_text, split_words, starts_with,
    string_of, chars_of, text_starts_with, texts, trim, trim_text, words,
};

verus! {

pub const PROTOCOL_VERSION: &'static str = "2024-11-05";

/// The longest request line in bytes.
pub const MAX_LINE_BYTES: usize = 16_777_216;

// ---------------------------------------------------------------------------
// Responses
// ---------------------------------------------------------------------------

pub open spec fn success_value(id: Value, result: Value) -> Value {
    empty_obj().with("jsonrpc"@, Value::Str("2.0"@)).with("id"@, id).with("result"@, result)
}

pub fn success_response(id: &Json, result: Json) -> (r: Json)
    ensures
        r@ == success_value(id@, result@),
{
    let mut out = Json::obj();
    out.set("jsonrpc", Json::text("2.0"));
    out.set("id", id.clone());
    out.set("result", result);
    out
}

pub open spec fn error_value(id: Value, code: int, message: Seq<char>) -> Value {
    empty_obj().with("jsonrpc"@, Value::Str("2.0"@)).with("id"@, id).with(
        "error"@,
        empty_obj().with("code"@, Value::Num(decimal_int(code))).with("message"@, Value::Str(message)),
    )
}

pub fn error_response(id: &Json, code: i64, message: &str) -> (r: Json)
    ensures
        r@ == error_value(id@, code as int, message@),
{
    let mut err = Json::obj();
    err.set("code", Json::whole(code));
    err.set("message", Json::text(message));
    let mut out = Json::obj();
    out.set("jsonrpc", Json::text("2.0"));
    out.set("id", id.clone());
    out.set("error", err);
    out
}

/// The result of a tool: its JSON as text, marked where it is an error.
pub open spec fn tool_result(value: Value, is_error: bool) -> Value {
    let text = empty_obj().with("type"@, Value::Str("text"@)).with("text"@, Value::Str(print(value)));
    let out = empty_obj().with("content"@, Value::Arr(seq![text]));
    if is_error {
        out.with("isError"@, Value::Bool(true))
    } else {
        out
    }
}

pub fn tool_text_result(value: &Json, is_error: bool) -> (r: Json)
    ensures
        r@ == tool_result(value@, is_error),
{
    let mut text = Json::obj();
    text.set("type", Json::text("text"));
    text.set("text", Json::Str(value.to_string()));
    let ghost inner = text@;
    let mut content: Vec<Json> = Vec::new();
    content.push(text);
    proof {
        lemma_arr_view(content);
        assert(values(content@) =~= seq![inner]);
    }
    let mut out = Json::obj();
    out.set("content", Json::Arr(content));
    if is_error {
        out.set("isError", Json::Bool(true));
    }
    out
}

pub open spec fn instructions() -> Seq<char> {
    "Système d'auto-amélioration récursive (RSI). Utilisez 'rsi_create' pour instancier un agent, 'rsi_run'/'rsi_step' pour le faire évoluer, 'rsi_state' pour l'inspecter, 'rsi_export' pour récupérer la trajectoire. 'rsi_describe' documente le modèle mathématique."@
}

pub open spec fn initialize_value(version: Seq<char>) -> Value {
    empty_obj().with("protocolVersion"@, Value::Str(PROTOCOL_VERSION@)).with(
        "capabilities"@,
        empty_obj().with("tools"@, empty_obj()),
    ).with(
        "serverInfo"@,
        empty_obj().with("name"@, Value::Str("rsi-mcp"@)).with("version"@, Value::Str(version)),
    ).with("instructions"@, Value::Str(instructions()))
}

/// The answer to the handshake.
pub fn initialize_result(version: &str) -> (r: Json)
    ensures
        r@ == initialize_value(version@),
{
    let mut caps = Json::obj();
    caps.set("tools", Json::obj());
    let mut server = Json::obj();
    server.set("name", Json::text("rsi-mcp"));
    server.set("version", Json::text(version));
    let mut out = Json::obj();
    out.set("protocolVersion", Json::text(PROTOCOL_VERSION));
    out.set("capabilities", caps);
    out.set("serverInfo", server);
    out.set("instructions", Json::text("Système d'auto-amélioration récursive (RSI). Utilisez 'rsi_create' pour instancier un agent, 'rsi_run'/'rsi_step' pour le faire évoluer, 'rsi_state' pour l'inspecter, 'rsi_export' pour récupérer la trajectoire. 'rsi_describe' documente le modèle mathématique."));
    out
}

// ---------------------------------------------------------------------------
// Requests
// ---------------------------------------------------------------------------

/// Which part of the server a tool belongs to.
#[derive(Debug, PartialEq, Eq)]
pub enum Tool<S = String> {
    JobStart,
    JobStatus,
    /// A command of the façade.
    Facade(S),
}

impl Tool {
    pub open spec fn view(&self) -> Tool<Seq<char>> {
        match *self {
            Tool::JobStart => Tool::JobStart,
            Tool::JobStatus => Tool::JobStatus,
            Tool::Facade(command) => Tool::Facade(command@),
        }
    }
}

/// The tool of a name. A tool of the façade may leave its prefix out.
pub open spec fn tool_of(name: Seq<char>) -> Tool<Seq<char>> {
    if name == "rsi_dgm_start"@ {
        Tool::JobStart
    } else if name == "rsi_dgm_status"@ {
        Tool::JobStatus
    } else if starts_with(name, "rsi_"@) {
        Tool::Facade(name.skip(4))
    } else {
        Tool::Facade(name)
    }
}

fn read_tool(name: &str) -> (r: Tool)
    ensures
        r@ == tool_of(name@),
{
    if same_text(name, "rsi_dgm_start") {
        Tool::JobStart
    } else if same_text(name, "rsi_dgm_status") {
        Tool::JobStatus
    } else if text_starts_with(name, "rsi_") {
        proof {
            reveal_strlit("rsi_");
        }
        let chars = chars_of(name);
        let mut rest: Vec<char> = Vec::new();
        let mut i: usize = 4;
        while i < chars.len()
            invariant
                4 <= i <= chars@.len(),
                chars@ == name@,
                rest@ == name@.subrange(4, i as int),
            decreases chars@.len() - i,
        {
            rest.push(chars[i]);
            i += 1;
        }
        assert(rest@ =~= name@.skip(4));
        Tool::Facade(string_of(rest.as_slice()))
    } else {
        Tool::Facade(name.to_owned())
    }
}

/// What becomes of a request: nothing is said, an answer is given, or a tool is called.
/// A call without an identifier is made, and its result is not told.
pub enum Handling {
    Silent,
    Answer(Json),
    Call { id: Option<Json>, tool: Tool, arguments: Json },
}

/// The identifier of a request, null where it has none.
pub open spec fn id_value(req: Value) -> Value {
    match get(req, "id"@) {
        Some(id) => id,
        None => Value::Null,
    }
}

/// A request without an identifier is a notification: it gets no answer.
pub open spec fn is_notification(req: Value) -> bool {
    get(req, "id"@) is None
}

pub open spec fn method_of(req: Value) -> Seq<char> {
    match str_at(req, "method"@) {
        Some(m) => m,
        None => ""@,
    }
}

/// The request calls a tool: its name, or why there is none.
pub open spec fn called_tool(req: Value) -> Result<Seq<char>, Seq<char>> {
    match get(req, "params"@) {
        None => Err("params manquants"@),
        Some(params) => match str_at(params, "name"@) {
            None => Err("nom d'outil manquant"@),
            Some(name) => Ok(name),
        },
    }
}

/// The arguments of a call, an empty object where there are none.
pub open spec fn arguments_of(req: Value) -> Value {
    match get(req, "params"@) {
        Some(params) => match get(params, "arguments"@) {
            Some(a) => a,
            None => empty_obj(),
        },
        None => empty_obj(),
    }
}

/// The answer of the server itself to a request, for every method but tool calls.
pub open spec fn direct_answer(req: Value, version: Seq<char>, with_jobs: bool) -> Value {
    let method = method_of(req);
    if method == "initialize"@ {
        success_value(id_value(req), initialize_value(version))
    } else if method == "ping"@ {
        success_value(id_value(req), empty_obj())
    } else if method == "tools/list"@ {
        success_value(id_value(req), tools_value(with_jobs))
    } else {
        error_value(id_value(req), -32601, "méthode inconnue : '"@ + method + "'"@)
    }
}

/// A request that announces that the client is ready.
pub open spec fn is_ready_notice(req: Value) -> bool {
    method_of(req) == "notifications/initialized"@ || method_of(req) == "initialized"@
}

/// How a request is handled.
pub open spec fn handled(req: Value, version: Seq<char>, with_jobs: bool, h: Handling) -> bool {
    if is_ready_notice(req) {
        h is Silent
    } else if method_of(req) == "tools/call"@ {
        match called_tool(req) {
            Ok(name) => {
                &&& h matches Handling::Call { id, tool, arguments }
                &&& (match id {
                    Some(x) => get(req, "id"@) == Some(x@),
                    None => is_notification(req),
                })
                &&& tool@ == tool_of(name)
                &&& arguments@ == arguments_of(req)
            },
            Err(e) => if is_notification(req) {
                h is Silent
            } else {
                h matches Handling::Answer(j) && j@ == error_value(id_value(req), -32602, e)
            },
        }
    } else if is_notification(req) {
        h is Silent
    } else {
        h matches Handling::Answer(j) && j@ == direct_answer(req, version, with_jobs)
    }
}

fn read_call(req: &Json) -> (r: Result<(Tool, Json), String>)
    ensures
        match r {
            Ok((tool, arguments)) => {
                &&& called_tool(req@) matches Ok(name)
                &&& tool@ == tool_of(name)
                &&& arguments@ == arguments_of(req@)
            },
            Err(e) => called_tool(req@) == Err::<Seq<char>, Seq<char>>(e@),
        },
{
    match req.get("params") {
        None => Err("params manquants".to_owned()),
        Some(params) => match params.str_at("name") {
            None => Err("nom d'outil manquant".to_owned()),
            Some(name) => {
                let arguments: Json = match params.get("arguments") {
                    Some(a) => a.clone(),
                    None => Json::obj(),
                };
                Ok((read_tool(name), arguments))
            },
        },
    }
}

/// Dispatches a request.
pub fn handle_request(req: &Json, version: &str, with_jobs: bool) -> (r: Handling)
    ensures
        handled(req@, version@, with_jobs, r),
{
    let method: &str = match req.str_at("method") {
        Some(m) => m,
        None => "",
    };
    if same_text(method, "notifications/initialized") || same_text(method, "initialized") {
        return Handling::Silent;
    }
    let id: Option<Json> = match req.get("id") {
        Some(x) => Some(x.clone()),
        None => None,
    };
    if same_text(method, "tools/call") {
        return match read_call(req) {
            Ok((tool, arguments)) => Handling::Call { id, tool, arguments },
            Err(e) => match id {
                Some(x) => Handling::Answer(error_response(&x, -32602, e.as_str())),
                None => Handling::Silent,
            },
        };
    }
    match id {
        None => Handling::Silent,
        Some(x) => if same_text(method, "initialize") {
            Handling::Answer(success_response(&x, initialize_result(version)))
        } else if same_text(method, "ping") {
            Handling::Answer(success_response(&x, Json::obj()))
        } else if same_text(method, "tools/list") {
            Handling::Answer(success_response(&x, tools_list(with_jobs)))
        } else {
            let mut message = "méthode inconnue : '".to_owned();
            message.append(method);
            message.append("'");
            Handling::Answer(error_response(&x, -32601, message.as_str()))
        },
    }
}

/// The answer to a call, from what the tool gave; none for a call without an identifier.
pub fn call_answer(id: Option<Json>, outcome: Result<Json, String>) -> (r: Option<Json>)
    ensures
        match (id, r) {
            (None, None) => true,
            (Some(x), Some(j)) => j@ == success_value(
                x@,
                match outcome {
                    Ok(v) => tool_result(v@, false),
                    Err(e) => tool_result(Value::Str(e@), true),
                },
            ),
            _ => false,
        },
{
    match id {
        None => None,
        Some(x) => {
            let result: Json = match outcome {
                Ok(v) => tool_text_result(&v, false),
                Err(e) => tool_text_result(&Json::Str(e), true),
            };
            Some(success_response(&x, result))
        },
    }
}

/// What a line of input is.
pub enum Line {
    /// Longer than any request may be: the answer is sent and the dialogue ends.
    TooLong(Json),
    Blank,
    Request(Json),
    Malformed(Json),
}

/// Reads a line of input: `taken` bytes, with or without the end of the line.
pub fn read_line(taken: usize, complete: bool, text: &str) -> (r: Line)
    ensures
        match r {
            Line::TooLong(j) => taken >= MAX_LINE_BYTES && !complete && j@ == error_value(
                Value::Null,
                -32600,
                "request line exceeds 16 MiB limit"@,
            ),
            Line::Blank => (taken < MAX_LINE_BYTES || complete) && trim(text@).len() == 0,
            Line::Request(j) => {
                &&& taken < MAX_LINE_BYTES || complete
                &&& trim(text@).len() > 0
                &&& parse_text(trim(text@)) == Some(j@)
            },
            Line::Malformed(j) => {
                &&& taken < MAX_LINE_BYTES || complete
                &&& trim(text@).len() > 0
                &&& parse_text(trim(text@)) is None
                &&& j@ == error_value(Value::Null, -32700, "parse error: malformed JSON text"@)
            },
        },
{
    if taken >= MAX_LINE_BYTES && !complete {
        return Line::TooLong(error_response(&Json::Null, -32600, "request line exceeds 16 MiB limit"));
    }
    let line = trim_text(text);
    if line.as_str().is_empty() {
        return Line::Blank;
    }
    match Json::parse(line.as_str()) {
        Ok(j) => Line::Request(j),
        Err(e) => {
            let mut message = "parse error: ".to_owned();
            message.append(e.as_str());
            proof {
                reveal_strlit("parse error: ");
                reveal_strlit("malformed JSON text");
                reveal_strlit("parse error: malformed JSON text");
                assert(message@ =~= "parse error: malformed JSON text"@);
            }
            Line::Malformed(error_response(&Json::Null, -32700, message.as_str()))
        },
    }
}

// ---------------------------------------------------------------------------
// The catalogue of tools
// ---------------------------------------------------------------------------

/// A tool with the schema of its input.
pub open spec fn tool_value(name: Seq<char>, description: Seq<char>, properties: Value, required: Seq<Value>) -> Value {
    let base = empty_obj().with("type"@, Value::Str("object"@)).with("properties"@, properties);
    let schema = if required.len() == 0 {
        base
    } else {
        base.with("required"@, Value::Arr(required))
    };
    empty_obj().with("name"@, Value::Str(name)).with("description"@, Value::Str(description)).with("inputSchema"@, schema)
}

fn tool(name: &str, description: &str, properties: Json, required: Vec<Json>) -> (r: Json)
    ensures
        r@ == tool_value(name@, description@, properties@, values(required@)),
{
    let mut schema = Json::obj();
    schema.set("type", Json::text("object"));
    schema.set("properties", properties);
    if required.len() > 0 {
        proof {
            lemma_arr_view(required);
        }
        schema.set("required", Json::Arr(required));
    }
    let mut t = Json::obj();
    t.set("name", Json::text(name));
    t.set("description", Json::text(description));
    t.set("inputSchema", schema);
    t
}

/// A parameter of a tool.
pub open spec fn prop_value(kind: Seq<char>, description: Seq<char>) -> Value {
    empty_obj().with("type"@, Value::Str(kind)).with("description"@, Value::Str(description))
}

fn prop(kind: &str, description: &str) -> (r: Json)
    ensures
        r@ == prop_value(kind@, description@),
{
    let mut p = Json::obj();
    p.set("type", Json::text(kind));
    p.set("description", Json::text(description));
    p
}

pub open spec fn describe_tool() -> Value {
    tool_value(
        "rsi_describe"@,
        "Décrit le système RSI (modèle mathématique) et le catalogue de commandes."@,
        empty_obj(),
        Seq::empty(),
    )
}

fn describe_tool_json() -> (r: Json)
    ensures
        r@ == describe_tool(),
{
    let p = Json::obj();
    let required: Vec<Json> = Vec::new();
    assert(values(required@) =~= Seq::<Value>::empty());
    tool("rsi_describe", "Décrit le système RSI (modèle mathématique) et le catalogue de commandes.", p, required)
}

pub open spec fn create_tool() -> Value {
    tool_value(
        "rsi_create"@,
        "Crée (ou remplace) une session d'agent RSI auto-améliorant."@,
        empty_obj().with("id"@, prop_value("string"@, "Identifiant de session (défaut: 'default')."@)).with("seed"@, prop_value("integer"@, "Graine reproductible (défaut 2026)."@)).with("optimizer"@, prop_value("string"@, "Méta-optimiseur: 'random' ou 'cma' (sep-CMA-ES)."@)).with("dim"@, prop_value("integer"@, "Dimension de chaque composante de S (défaut 6)."@)).with("n_tasks"@, prop_value("integer"@, "Taille de l'échantillon de tâches |Ω| (défaut 1024)."@)).with("n_hardware"@, prop_value("integer"@, "Dimension du vecteur matériel H (défaut 4)."@)).with("n_software"@, prop_value("integer"@, "Dimension du vecteur logiciel O (défaut 4)."@)).with("lambda"@, prop_value("number"@, "Borne de stabilité ‖ΔS‖<λ (défaut 0.5)."@)).with("epsilon"@, prop_value("number"@, "Régression tolérée sur SI_global (défaut 1e-3)."@)),
        Seq::empty(),
    )
}

fn create_tool_json() -> (r: Json)
    ensures
        r@ == create_tool(),
{
    let mut p = Json::obj();
    p.set("id", prop("string", "Identifiant de session (défaut: 'default')."));
    p.set("seed", prop("integer", "Graine reproductible (défaut 2026)."));
    p.set("optimizer", prop("string", "Méta-optimiseur: 'random' ou 'cma' (sep-CMA-ES)."));
    p.set("dim", prop("integer", "Dimension de chaque composante de S (défaut 6)."));
    p.set("n_tasks", prop("integer", "Taille de l'échantillon de tâches |Ω| (défaut 1024)."));
    p.set("n_hardware", prop("integer", "Dimension du vecteur matériel H (défaut 4)."));
    p.set("n_software", prop("integer", "Dimension du vecteur logiciel O (défaut 4)."));
    p.set("lambda", prop("number", "Borne de stabilité ‖ΔS‖<λ (défaut 0.5)."));
    p.set("epsilon", prop("number", "Régression tolérée sur SI_global (défaut 1e-3)."));
    let required: Vec<Json> = Vec::new();
    assert(values(required@) =~= Seq::<Value>::empty());
    tool("rsi_create", "Crée (ou remplace) une session d'agent RSI auto-améliorant.", p, required)
}

pub open spec fn step_tool() -> Value {
    tool_value(
        "rsi_step"@,
        "Avance la boucle RSI d'un pas et renvoie le rapport du pas."@,
        empty_obj().with("id"@, prop_value("string"@, "Identifiant de session (défaut: 'default')."@)),
        Seq::empty(),
    )
}

fn step_tool_json() -> (r: Json)
    ensures
        r@ == step_tool(),
{
    let mut p = Json::obj();
    p.set("id", prop("string", "Identifiant de session (défaut: 'default')."));
    let required: Vec<Json> = Vec::new();
    assert(values(required@) =~= Seq::<Value>::empty());
    tool("rsi_step", "Avance la boucle RSI d'un pas et renvoie le rapport du pas.", p, required)
}

pub open spec fn run_tool() -> Value {
    tool_value(
        "rsi_run"@,
        "Avance la boucle RSI de plusieurs pas et renvoie un résumé (gain de SI_global)."@,
        empty_obj().with("id"@, prop_value("string"@, "Identifiant de session (défaut: 'default')."@)).with("steps"@, prop_value("integer"@, "Nombre de pas (défaut 100)."@)),
        Seq::empty(),
    )
}

fn run_tool_json() -> (r: Json)
    ensures
        r@ == run_tool(),
{
    let mut p = Json::obj();
    p.set("id", prop("string", "Identifiant de session (défaut: 'default')."));
    p.set("steps", prop("integer", "Nombre de pas (défaut 100)."));
    let required: Vec<Json> = Vec::new();
    assert(values(required@) =~= Seq::<Value>::empty());
    tool("rsi_run", "Avance la boucle RSI de plusieurs pas et renvoie un résumé (gain de SI_global).", p, required)
}

pub open spec fn run_until_tool() -> Value {
    tool_value(
        "rsi_run_until"@,
        "Pilote la boucle RSI jusqu'à un critère d'arrêt motivé (budget, cible, plateau, disjoncteur de criticité)."@,
        empty_obj().with("id"@, prop_value("string"@, "Identifiant de session (défaut: 'default')."@)).with("max_steps"@, prop_value("integer"@, "Budget de pas (défaut 500)."@)).with("target_si"@, prop_value("number"@, "Arrêt si SI_global ≥ cette valeur."@)).with("plateau_window"@, prop_value("integer"@, "Fenêtre de détection de plateau (défaut 12)."@)).with("plateau_eps"@, prop_value("number"@, "Seuil de pente sous lequel = plateau."@)).with("breaker_rpn"@, prop_value("number"@, "Disjoncteur : arrêt/rollback si max_rpn dépasse ce seuil."@)).with("max_seconds"@, prop_value("number"@, "Budget de temps (s)."@)),
        Seq::empty(),
    )
}

fn run_until_tool_json() -> (r: Json)
    ensures
        r@ == run_until_tool(),
{
    let mut p = Json::obj();
    p.set("id", prop("string", "Identifiant de session (défaut: 'default')."));
    p.set("max_steps", prop("integer", "Budget de pas (défaut 500)."));
    p.set("target_si", prop("number", "Arrêt si SI_global ≥ cette valeur."));
    p.set("plateau_window", prop("integer", "Fenêtre de détection de plateau (défaut 12)."));
    p.set("plateau_eps", prop("number", "Seuil de pente sous lequel = plateau."));
    p.set("breaker_rpn", prop("number", "Disjoncteur : arrêt/rollback si max_rpn dépasse ce seuil."));
    p.set("max_seconds", prop("number", "Budget de temps (s)."));
    let required: Vec<Json> = Vec::new();
    assert(values(required@) =~= Seq::<Value>::empty());
    tool("rsi_run_until", "Pilote la boucle RSI jusqu'à un critère d'arrêt motivé (budget, cible, plateau, disjoncteur de criticité).", p, required)
}

pub open spec fn state_tool() -> Value {
    tool_value(
        "rsi_state"@,
        "Renvoie un instantané: SI_global, P_eff, capacités (D,M,R,A,C,V), goulot d'étranglement."@,
        empty_obj().with("id"@, prop_value("string"@, "Identifiant de session (défaut: 'default')."@)),
        Seq::empty(),
    )
}

fn state_tool_json() -> (r: Json)
    ensures
        r@ == state_tool(),
{
    let mut p = Json::obj();
    p.set("id", prop("string", "Identifiant de session (défaut: 'default')."));
    let required: Vec<Json> = Vec::new();
    assert(values(required@) =~= Seq::<Value>::empty());
    tool("rsi_state", "Renvoie un instantané: SI_global, P_eff, capacités (D,M,R,A,C,V), goulot d'étranglement.", p, required)
}

pub open spec fn export_tool() -> Value {
    tool_value(
        "rsi_export"@,
        "Exporte la trajectoire accumulée de la session au format csv ou json."@,
        empty_obj().with("id"@, prop_value("string"@, "Identifiant de session (défaut: 'default')."@)).with("format"@, prop_value("string"@, "'csv' ou 'json' (défaut json)."@)),
        Seq::empty(),
    )
}

fn export_tool_json() -> (r: Json)
    ensures
        r@ == export_tool(),
{
    let mut p = Json::obj();
    p.set("id", prop("string", "Identifiant de session (défaut: 'default')."));
    p.set("format", prop("string", "'csv' ou 'json' (défaut json)."));
    let required: Vec<Json> = Vec::new();
    assert(values(required@) =~= Seq::<Value>::empty());
    tool("rsi_export", "Exporte la trajectoire accumulée de la session au format csv ou json.", p, required)
}

pub open spec fn reset_tool() -> Value {
    tool_value(
        "rsi_reset"@,
        "Réinitialise la session à partir de sa configuration."@,
        empty_obj().with("id"@, prop_value("string"@, "Identifiant de session (défaut: 'default')."@)),
        Seq::empty(),
    )
}

fn reset_tool_json() -> (r: Json)
    ensures
        r@ == reset_tool(),
{
    let mut p = Json::obj();
    p.set("id", prop("string", "Identifiant de session (défaut: 'default')."));
    let required: Vec<Json> = Vec::new();
    assert(values(required@) =~= Seq::<Value>::empty());
    tool("rsi_reset", "Réinitialise la session à partir de sa configuration.", p, required)
}

pub open spec fn list_sessions_tool() -> Value {
    tool_value(
        "rsi_list_sessions"@,
        "Liste les sessions actives."@,
        empty_obj(),
        Seq::empty(),
    )
}

fn list_sessions_tool_json() -> (r: Json)
    ensures
        r@ == list_sessions_tool(),
{
    let p = Json::obj();
    let required: Vec<Json> = Vec::new();
    assert(values(required@) =~= Seq::<Value>::empty());
    tool("rsi_list_sessions", "Liste les sessions actives.", p, required)
}

pub open spec fn health_tool() -> Value {
    tool_value(
        "rsi_health"@,
        "Santé du serveur : nombre de sessions, pas cumulés, intégrité de l'audit hash-chaîné (audit_intact), activité de raffinement."@,
        empty_obj(),
        Seq::empty(),
    )
}

fn health_tool_json() -> (r: Json)
    ensures
        r@ == health_tool(),
{
    let p = Json::obj();
    let required: Vec<Json> = Vec::new();
    assert(values(required@) =~= Seq::<Value>::empty());
    tool("rsi_health", "Santé du serveur : nombre de sessions, pas cumulés, intégrité de l'audit hash-chaîné (audit_intact), activité de raffinement.", p, required)
}

pub open spec fn metrics_tool() -> Value {
    tool_value(
        "rsi_metrics"@,
        "Métriques au format d'exposition Prometheus (texte, scrapeable) : sessions, pas cumulés, intégrité de l'audit, propositions vues/adoptées."@,
        empty_obj(),
        Seq::empty(),
    )
}

fn metrics_tool_json() -> (r: Json)
    ensures
        r@ == metrics_tool(),
{
    let p = Json::obj();
    let required: Vec<Json> = Vec::new();
    assert(values(required@) =~= Seq::<Value>::empty());
    tool("rsi_metrics", "Métriques au format d'exposition Prometheus (texte, scrapeable) : sessions, pas cumulés, intégrité de l'audit, propositions vues/adoptées.", p, required)
}

pub open spec fn refine_new_tool() -> Value {
    tool_value(
        "rsi_refine_new"@,
        "Crée une session de raffinement piloté par LLM. Le LLM propose des candidats (texte) ; le serveur les évalue en sandbox et n'adopte que les strictement meilleurs et sûrs — le LLM ne contrôle aucun garde-fou. Deux domaines : 'synthesis' (expressions arithmétiques), 'tuning' (hyperparamètres JSON) et 'prompt' (prompt texte)."@,
        empty_obj().with("id"@, prop_value("string"@, "Identifiant de session (défaut: 'default')."@)).with("domain"@, prop_value("string"@, "Domaine: 'synthesis' (défaut), 'tuning' ou 'prompt'."@)).with("target"@, prop_value("string"@, "[synthesis] cible: 'quadratic' (x²+1), 'linear' (2x-1), 'cubic' (x³-x)."@)).with("lo"@, prop_value("number"@, "[synthesis] borne basse d'échantillonnage (défaut -3)."@)).with("hi"@, prop_value("number"@, "[synthesis] borne haute (défaut 3)."@)).with("n"@, prop_value("integer"@, "[synthesis] nombre de points (défaut 30 ; ~30% en held-out)."@)).with("seed"@, prop_value("integer"@, "[synthesis] graine reproductible (défaut 2026)."@)),
        Seq::empty(),
    )
}

fn refine_new_tool_json() -> (r: Json)
    ensures
        r@ == refine_new_tool(),
{
    let mut p = Json::obj();
    p.set("id", prop("string", "Identifiant de session (défaut: 'default')."));
    p.set("domain", prop("string", "Domaine: 'synthesis' (défaut), 'tuning' ou 'prompt'."));
    p.set("target", prop("string", "[synthesis] cible: 'quadratic' (x²+1), 'linear' (2x-1), 'cubic' (x³-x)."));
    p.set("lo", prop("number", "[synthesis] borne basse d'échantillonnage (défaut -3)."));
    p.set("hi", prop("number", "[synthesis] borne haute (défaut 3)."));
    p.set("n", prop("integer", "[synthesis] nombre de points (défaut 30 ; ~30% en held-out)."));
    p.set("seed", prop("integer", "[synthesis] graine reproductible (défaut 2026)."));
    let required: Vec<Json> = Vec::new();
    assert(values(required@) =~= Seq::<Value>::empty());
    tool("rsi_refine_new", "Crée une session de raffinement piloté par LLM. Le LLM propose des candidats (texte) ; le serveur les évalue en sandbox et n'adopte que les strictement meilleurs et sûrs — le LLM ne contrôle aucun garde-fou. Deux domaines : 'synthesis' (expressions arithmétiques), 'tuning' (hyperparamètres JSON) et 'prompt' (prompt texte).", p, required)
}

pub open spec fn incumbent_tool() -> Value {
    tool_value(
        "rsi_incumbent"@,
        "Renvoie l'incumbent courant d'une session de raffinement : expression, score (fraction de cas réussis), score held-out (généralisation), taille, compteurs."@,
        empty_obj().with("id"@, prop_value("string"@, "Identifiant de session (défaut: 'default')."@)),
        Seq::empty(),
    )
}

fn incumbent_tool_json() -> (r: Json)
    ensures
        r@ == incumbent_tool(),
{
    let mut p = Json::obj();
    p.set("id", prop("string", "Identifiant de session (défaut: 'default')."));
    let required: Vec<Json> = Vec::new();
    assert(values(required@) =~= Seq::<Value>::empty());
    tool("rsi_incumbent", "Renvoie l'incumbent courant d'une session de raffinement : expression, score (fraction de cas réussis), score held-out (généralisation), taille, compteurs.", p, required)
}

pub open spec fn evaluate_tool() -> Value {
    tool_value(
        "rsi_evaluate"@,
        "Évalue un candidat SANS l'adopter (sonde pour le raisonnement). Renvoie score, held-out, sûreté et s'il serait adopté. N'altère pas l'incumbent."@,
        empty_obj().with("id"@, prop_value("string"@, "Identifiant de session (défaut: 'default')."@)).with("candidate"@, prop_value("string"@, "Candidat texte. synthesis: expression sur x (ex: 'x*x + 1'). tuning: config JSON (ex: '{\"top_k\":50,\"chunk\":1024,\"threshold\":0.4}')."@)),
        seq![Value::Str("candidate"@)],
    )
}

fn evaluate_tool_json() -> (r: Json)
    ensures
        r@ == evaluate_tool(),
{
    let mut p = Json::obj();
    p.set("id", prop("string", "Identifiant de session (défaut: 'default')."));
    p.set("candidate", prop("string", "Candidat texte. synthesis: expression sur x (ex: 'x*x + 1'). tuning: config JSON (ex: '{\"top_k\":50,\"chunk\":1024,\"threshold\":0.4}')."));
    let mut required: Vec<Json> = Vec::new();
    required.push(Json::text("candidate"));
    assert(values(required@) =~= seq![Value::Str("candidate"@)]);
    tool("rsi_evaluate", "Évalue un candidat SANS l'adopter (sonde pour le raisonnement). Renvoie score, held-out, sûreté et s'il serait adopté. N'altère pas l'incumbent.", p, required)
}

pub open spec fn propose_tool() -> Value {
    tool_value(
        "rsi_propose"@,
        "Soumet une ou plusieurs propositions d'expressions. Le serveur parse, vérifie la sûreté (taille bornée), score, et n'adopte qu'élitistement (strictement meilleur ET sûr). Renvoie le détail par proposition et le nouvel incumbent."@,
        empty_obj().with("id"@, prop_value("string"@, "Identifiant de session (défaut: 'default')."@)).with("proposals"@, prop_value("array"@, "Tableau de candidats (chaînes) : expressions (synthesis) ou configs JSON (tuning)."@)).with("candidate"@, prop_value("string"@, "Alternative: un ou plusieurs candidats, un par ligne."@)),
        Seq::empty(),
    )
}

fn propose_tool_json() -> (r: Json)
    ensures
        r@ == propose_tool(),
{
    let mut p = Json::obj();
    p.set("id", prop("string", "Identifiant de session (défaut: 'default')."));
    p.set("proposals", prop("array", "Tableau de candidats (chaînes) : expressions (synthesis) ou configs JSON (tuning)."));
    p.set("candidate", prop("string", "Alternative: un ou plusieurs candidats, un par ligne."));
    let required: Vec<Json> = Vec::new();
    assert(values(required@) =~= Seq::<Value>::empty());
    tool("rsi_propose", "Soumet une ou plusieurs propositions d'expressions. Le serveur parse, vérifie la sûreté (taille bornée), score, et n'adopte qu'élitistement (strictement meilleur ET sûr). Renvoie le détail par proposition et le nouvel incumbent.", p, required)
}

pub open spec fn refine_save_tool() -> Value {
    tool_value(
        "rsi_refine_save"@,
        "Sérialise l'état d'une session de raffinement (config + incumbent + compteurs) pour reprise ultérieure. Renvoie un objet 'state' réutilisable par rsi_refine_load."@,
        empty_obj().with("id"@, prop_value("string"@, "Identifiant de session (défaut: 'default')."@)),
        Seq::empty(),
    )
}

fn refine_save_tool_json() -> (r: Json)
    ensures
        r@ == refine_save_tool(),
{
    let mut p = Json::obj();
    p.set("id", prop("string", "Identifiant de session (défaut: 'default')."));
    let required: Vec<Json> = Vec::new();
    assert(values(required@) =~= Seq::<Value>::empty());
    tool("rsi_refine_save", "Sérialise l'état d'une session de raffinement (config + incumbent + compteurs) pour reprise ultérieure. Renvoie un objet 'state' réutilisable par rsi_refine_load.", p, required)
}

pub open spec fn refine_load_tool() -> Value {
    tool_value(
        "rsi_refine_load"@,
        "Reprend une session de raffinement depuis un 'state' produit par rsi_refine_save (checkpoint/resume d'une optimisation pilotée par LLM)."@,
        empty_obj().with("id"@, prop_value("string"@, "Identifiant de session (défaut: 'default')."@)).with("state"@, prop_value("object"@, "État sérialisé renvoyé par rsi_refine_save."@)),
        seq![Value::Str("state"@)],
    )
}

fn refine_load_tool_json() -> (r: Json)
    ensures
        r@ == refine_load_tool(),
{
    let mut p = Json::obj();
    p.set("id", prop("string", "Identifiant de session (défaut: 'default')."));
    p.set("state", prop("object", "État sérialisé renvoyé par rsi_refine_save."));
    let mut required: Vec<Json> = Vec::new();
    required.push(Json::text("state"));
    assert(values(required@) =~= seq![Value::Str("state"@)]);
    tool("rsi_refine_load", "Reprend une session de raffinement depuis un 'state' produit par rsi_refine_save (checkpoint/resume d'une optimisation pilotée par LLM).", p, required)
}

pub open spec fn dgm_start_tool() -> Value {
    tool_value(
        "rsi_dgm_start"@,
        "Lance en ARRIÈRE-PLAN une boucle d'auto-amélioration DGM/STOP sur un dépôt réel : le LLM (connexion automatique : modèle Ollama découvert, ou 'model') propose des patchs, chacun évalué en copie isolée (cargo build+test, bench optionnel), archivé seulement s'il est strictement meilleur. DRY-RUN STRICT : rien n'est jamais écrit dans l'arbre vivant depuis MCP — la promotion reste un acte humain en CLI (rsi-dgm --promote) après revue du diff. Suivre via rsi_dgm_status. Un seul job à la fois."@,
        empty_obj().with("workspace"@, prop_value("string"@, "Racine du dépôt (répertoire)."@)).with("goal"@, prop_value("string"@, "Objectif d'amélioration remis au proposeur (directif = plus efficace)."@)).with("allow"@, prop_value("string"@, "Fichiers éditables, séparés par des virgules."@)).with("steps"@, prop_value("integer"@, "Étapes (défaut 8, max 64) — ~1-3 min/étape."@)).with("bench"@, prop_value("string"@, "Args cargo d'un bench imprimant RSI_BENCH_SCORE=<f64> (score = perf réelle)."@)).with("min_gain"@, prop_value("number"@, "Gain relatif minimal anti-bruit (défaut 0.05)."@)).with("model"@, prop_value("string"@, "Préférence de modèle (sinon découverte automatique /api/tags)."@)).with("seed"@, prop_value("integer"@, "Graine déterministe (défaut 42)."@)).with("timeout_secs"@, prop_value("integer"@, "Borne par invocation cargo (défaut 300, max 1800)."@)),
        seq![Value::Str("workspace"@), Value::Str("goal"@), Value::Str("allow"@)],
    )
}

fn dgm_start_tool_json() -> (r: Json)
    ensures
        r@ == dgm_start_tool(),
{
    let mut p = Json::obj();
    p.set("workspace", prop("string", "Racine du dépôt (répertoire)."));
    p.set("goal", prop("string", "Objectif d'amélioration remis au proposeur (directif = plus efficace)."));
    p.set("allow", prop("string", "Fichiers éditables, séparés par des virgules."));
    p.set("steps", prop("integer", "Étapes (défaut 8, max 64) — ~1-3 min/étape."));
    p.set("bench", prop("string", "Args cargo d'un bench imprimant RSI_BENCH_SCORE=<f64> (score = perf réelle)."));
    p.set("min_gain", prop("number", "Gain relatif minimal anti-bruit (défaut 0.05)."));
    p.set("model", prop("string", "Préférence de modèle (sinon découverte automatique /api/tags)."));
    p.set("seed", prop("integer", "Graine déterministe (défaut 42)."));
    p.set("timeout_secs", prop("integer", "Borne par invocation cargo (défaut 300, max 1800)."));
    let mut required: Vec<Json> = Vec::new();
    required.push(Json::text("workspace"));
    required.push(Json::text("goal"));
    required.push(Json::text("allow"));
    assert(values(required@) =~= seq![Value::Str("workspace"@), Value::Str("goal"@), Value::Str("allow"@)]);
    tool("rsi_dgm_start", "Lance en ARRIÈRE-PLAN une boucle d'auto-amélioration DGM/STOP sur un dépôt réel : le LLM (connexion automatique : modèle Ollama découvert, ou 'model') propose des patchs, chacun évalué en copie isolée (cargo build+test, bench optionnel), archivé seulement s'il est strictement meilleur. DRY-RUN STRICT : rien n'est jamais écrit dans l'arbre vivant depuis MCP — la promotion reste un acte humain en CLI (rsi-dgm --promote) après revue du diff. Suivre via rsi_dgm_status. Un seul job à la fois.", p, required)
}

pub open spec fn dgm_status_tool() -> Value {
    tool_value(
        "rsi_dgm_status"@,
        "État du job DGM d'arrière-plan : phase courante, résultats par étape (accepté/rejeté, fitness, raison), meilleur variant promouvable (dry-run), erreur éventuelle."@,
        empty_obj(),
        Seq::empty(),
    )
}

fn dgm_status_tool_json() -> (r: Json)
    ensures
        r@ == dgm_status_tool(),
{
    let p = Json::obj();
    let required: Vec<Json> = Vec::new();
    assert(values(required@) =~= Seq::<Value>::empty());
    tool("rsi_dgm_status", "État du job DGM d'arrière-plan : phase courante, résultats par étape (accepté/rejeté, fitness, raison), meilleur variant promouvable (dry-run), erreur éventuelle.", p, required)
}

/// The tools of the façade.
pub open spec fn facade_tools() -> Seq<Value> {
    seq![
        describe_tool(),
        create_tool(),
        step_tool(),
        run_tool(),
        run_until_tool(),
        state_tool(),
        export_tool(),
        reset_tool(),
        list_sessions_tool(),
        health_tool(),
        metrics_tool(),
        refine_new_tool(),
        incumbent_tool(),
        evaluate_tool(),
        propose_tool(),
        refine_save_tool(),
        refine_load_tool(),
    ]
}

/// The tools of the background job.
pub open spec fn job_tools() -> Seq<Value> {
    seq![dgm_start_tool(), dgm_status_tool()]
}

/// The catalogue of tools; those of the background job are in it where jobs can run.
pub open spec fn tools_value(with_jobs: bool) -> Value {
    empty_obj().with(
        "tools"@,
        Value::Arr(
            if with_jobs {
                facade_tools() + job_tools()
            } else {
                facade_tools()
            },
        ),
    )
}

pub fn tools_list(with_jobs: bool) -> (r: Json)
    ensures
        r@ == tools_value(with_jobs),
{
    let mut tools: Vec<Json> = Vec::new();
    tools.push(describe_tool_json());
    tools.push(create_tool_json());
    tools.push(step_tool_json());
    tools.push(run_tool_json());
    tools.push(run_until_tool_json());
    tools.push(state_tool_json());
    tools.push(export_tool_json());
    tools.push(reset_tool_json());
    tools.push(list_sessions_tool_json());
    tools.push(health_tool_json());
    tools.push(metrics_tool_json());
    tools.push(refine_new_tool_json());
    tools.push(incumbent_tool_json());
    tools.push(evaluate_tool_json());
    tools.push(propose_tool_json());
    tools.push(refine_save_tool_json());
    tools.push(refine_load_tool_json());
    assert(values(tools@) =~= facade_tools());
    if with_jobs {
        tools.push(dgm_start_tool_json());
        tools.push(dgm_status_tool_json());
        assert(values(tools@) =~= facade_tools() + job_tools());
    }
    proof {
        lemma_arr_view(tools);
    }
    let mut out = Json::obj();
    out.set("tools", Json::Arr(tools));
    out
}

// ---------------------------------------------------------------------------
// The background job
// ---------------------------------------------------------------------------

/// What a job is asked to do.
#[derive(Debug, PartialEq, Eq)]
pub struct JobRequest {
    pub workspace: String,
    pub goal: String,
    pub allowed: Vec<String>,
    pub steps: u64,
    pub seed: u64,
    /// A number, where one is given.
    pub min_gain: Option<String>,
    pub timeout_secs: u64,
    pub bench: Vec<String>,
    pub model: Option<String>,
}

/// A request over mathematical sequences.
#[verifier::ext_equal]
pub ghost struct JobRecord {
    pub workspace: Seq<char>,
    pub goal: Seq<char>,
    pub allowed: Seq<Seq<char>>,
    pub steps: u64,
    pub seed: u64,
    pub min_gain: Option<Seq<char>>,
    pub timeout_secs: u64,
    pub bench: Seq<Seq<char>>,
    pub model: Option<Seq<char>>,
}

impl JobRequest {
    pub open spec fn view(&self) -> JobRecord {
        JobRecord {
            workspace: self.workspace@,
            goal: self.goal@,
            allowed: texts(self.allowed@),
            steps: self.steps,
            seed: self.seed,
            min_gain: optional(self.min_gain),
            timeout_secs: self.timeout_secs,
            bench: texts(self.bench@),
            model: optional(self.model),
        }
    }
}

pub open spec fn within(n: Option<u64>, default: u64, lo: u64, hi: u64) -> u64 {
    let wanted = match n {
        Some(x) => x,
        None => default,
    };
    if wanted < lo {
        lo
    } else if wanted > hi {
        hi
    } else {
        wanted
    }
}

fn bring_within(n: Option<u64>, default: u64, lo: u64, hi: u64) -> (r: u64)
    ensures
        r == within(n, default, lo, hi),
{
    let wanted: u64 = match n {
        Some(x) => x,
        None => default,
    };
    if wanted < lo {
        lo
    } else if wanted > hi {
        hi
    } else {
        wanted
    }
}

/// The job that the arguments ask for, or what is missing.
pub open spec fn job_of(args: Value) -> Result<JobRecord, Seq<char>> {
    match (str_at(args, "workspace"@), str_at(args, "goal"@), str_at(args, "allow"@)) {
        (None, _, _) => Err("paramètre 'workspace' requis (racine du dépôt)"@),
        (_, None, _) => Err("paramètre 'goal' requis"@),
        (_, _, None) => Err("paramètre 'allow' requis (fichiers éditables, séparés par ',')"@),
        (Some(workspace), Some(goal), Some(allow)) => {
            let allowed = filled_lines(split(allow, ','));
            if allowed.len() == 0 {
                Err("'allow' doit lister au moins un fichier"@)
            } else {
                Ok(
                    JobRecord {
                        workspace,
                        goal,
                        allowed,
                        steps: within(u64_at(args, "steps"@), 8, 1, 64),
                        seed: match u64_at(args, "seed"@) {
                            Some(n) => n,
                            None => 42,
                        },
                        min_gain: number_at(args, "min_gain"@),
                        timeout_secs: within(u64_at(args, "timeout_secs"@), 300, 30, 1800),
                        bench: match str_at(args, "bench"@) {
                            Some(b) => words(b),
                            None => Seq::empty(),
                        },
                        model: str_at(args, "model"@),
                    },
                )
            }
        },
    }
}

fn read_job(args: &Json) -> (r: Result<JobRequest, String>)
    ensures
        match r {
            Ok(q) => job_of(args@) == Ok::<JobRecord, Seq<char>>(q@),
            Err(e) => job_of(args@) == Err::<JobRecord, Seq<char>>(e@),
        },
{
    let workspace: &str = match args.str_at("workspace") {
        Some(x) => x,
        None => {
            return Err("paramètre 'workspace' requis (racine du dépôt)".to_owned());
        },
    };
    let goal: &str = match args.str_at("goal") {
        Some(x) => x,
        None => {
            return Err("paramètre 'goal' requis".to_owned());
        },
    };
    let allowed: Vec<String> = match args.str_at("allow") {
        Some(x) => nonempty_parts(x, ','),
        None => {
            return Err("paramètre 'allow' requis (fichiers éditables, séparés par ',')".to_owned());
        },
    };
    if allowed.len() == 0 {
        return Err("'allow' doit lister au moins un fichier".to_owned());
    }
    let bench: Vec<String> = match args.str_at("bench") {
        Some(b) => split_words(b),
        None => Vec::new(),
    };
    let model: Option<String> = match args.str_at("model") {
        Some(m) => Some(m.to_owned()),
        None => None,
    };
    let seed: u64 = match args.u64_at("seed") {
        Some(n) => n,
        None => 42,
    };
    let q = JobRequest {
        workspace: workspace.to_owned(),
        goal: goal.to_owned(),
        allowed,
        steps: bring_within(args.u64_at("steps"), 8, 1, 64),
        seed,
        min_gain: args.number_at("min_gain"),
        timeout_secs: bring_within(args.u64_at("timeout_secs"), 300, 30, 1800),
        bench,
        model,
    };
    proof {
        assert(texts(Seq::<String>::empty()) =~= Seq::empty());
        assert(args@ == args@ && q@ =~= job_of(args@)->Ok_0);
    }
    Ok(q)
}

/// The state of the background job.
pub struct JobState {
    pub running: bool,
    pub goal: String,
    pub model: String,
    pub phase: String,
    pub outcomes: Vec<Json>,
    pub best: Option<Json>,
    pub error: Option<String>,
}

/// What a step of the job led to.
pub enum JobStep {
    NoProposal { reason: Option<String> },
    Evaluated {
        accepted: bool,
        compiles: bool,
        tests_passed: u32,
        tests_failed: u32,
        /// A number.
        score: String,
        variant: String,
        notes: String,
    },
}

/// The best variant of a job, with its score as a number where it was evaluated.
pub struct BestVariant {
    pub variant: String,
    pub target: String,
    pub rationale: String,
    pub fitness: Option<(String, u32)>,
}

/// The report of a step.
pub open spec fn step_value(i: u64, step: JobStep) -> Value {
    let base = empty_obj().with("step"@, Value::Num(decimal(i as nat)));
    match step {
        JobStep::NoProposal { reason } => {
            let none = base.with("kind"@, Value::Str("no_proposal"@));
            match reason {
                Some(r) => none.with("reason"@, Value::Str(r@)),
                None => none,
            }
        },
        JobStep::Evaluated { accepted, compiles, tests_passed, tests_failed, score, variant, notes } => base.with(
            "kind"@,
            Value::Str("evaluated"@),
        ).with("accepted"@, Value::Bool(accepted)).with("compiles"@, Value::Bool(compiles)).with(
            "tests_passed"@,
            Value::Num(decimal(tests_passed as nat)),
        ).with("tests_failed"@, Value::Num(decimal(tests_failed as nat))).with("score"@, Value::Num(score@)).with(
            "variant"@,
            Value::Str(variant@),
        ).with("reason"@, Value::Str(trim(split(notes@, '\n')[0]))),
    }
}

fn step_json(i: u64, step: JobStep) -> (r: Json)
    ensures
        r@ == step_value(i, step),
{
    let mut j = Json::obj();
    j.set("step", Json::num(i));
    match step {
        JobStep::NoProposal { reason } => {
            j.set("kind", Json::text("no_proposal"));
            match reason {
                Some(r) => {
                    j.set("reason", Json::Str(r));
                },
                None => {},
            }
        },
        JobStep::Evaluated { accepted, compiles, tests_passed, tests_failed, score, variant, notes } => {
            j.set("kind", Json::text("evaluated"));
            j.set("accepted", Json::Bool(accepted));
            j.set("compiles", Json::Bool(compiles));
            j.set("tests_passed", Json::num(tests_passed as u64));
            j.set("tests_failed", Json::num(tests_failed as u64));
            j.set("score", Json::Num(score));
            j.set("variant", Json::Str(variant));
            let lines = split_text(notes.as_str(), '\n');
            proof {
                crate::text::lemma_split_nonempty(notes@, '\n');
                assert(texts(lines@)[0] == lines@[0]@);
            }
            j.set("reason", Json::Str(trim_text(lines[0].as_str())));
        },
    }
    j
}

pub open spec fn dry_run_note() -> Seq<char> {
    "DRY-RUN : rien n'a été appliqué. Promotion = acte humain : rsi-dgm <ws> … --promote, après revue du diff."@
}

/// The report of the best variant: nothing was applied.
pub open spec fn best_value(b: BestVariant) -> Value {
    let base = empty_obj().with("variant"@, Value::Str(b.variant@)).with("target"@, Value::Str(b.target@)).with(
        "rationale"@,
        Value::Str(b.rationale@),
    );
    let scored = match b.fitness {
        Some((score, passed)) => base.with("score"@, Value::Num(score@)).with(
            "tests_passed"@,
            Value::Num(decimal(passed as nat)),
        ),
        None => base,
    };
    scored.with("note"@, Value::Str(dry_run_note()))
}

fn best_json(b: BestVariant) -> (r: Json)
    ensures
        r@ == best_value(b),
{
    let mut j = Json::obj();
    j.set("variant", Json::Str(b.variant));
    j.set("target", Json::Str(b.target));
    j.set("rationale", Json::Str(b.rationale));
    match b.fitness {
        Some((score, passed)) => {
            j.set("score", Json::Num(score));
            j.set("tests_passed", Json::num(passed as u64));
        },
        None => {},
    }
    j.set(
        "note",
        Json::text("DRY-RUN : rien n'a été appliqué. Promotion = acte humain : rsi-dgm <ws> … --promote, après revue du diff."),
    );
    j
}

/// The answer to a job that has started.
pub open spec fn started_value(model: Seq<char>, steps: u64) -> Value {
    empty_obj().with("started"@, Value::Bool(true)).with("model"@, Value::Str(model)).with(
        "steps"@,
        Value::Num(decimal(steps as nat)),
    ).with("dry_run"@, Value::Bool(true))
}

impl Default for JobState {
    fn default() -> (r: Self)
        ensures
            !r.running,
            r.goal@.len() == 0 && r.model@.len() == 0 && r.phase@.len() == 0,
            r.outcomes@.len() == 0,
            r.best is None,
            r.error is None,
    {
        JobState {
            running: false,
            goal: String::new(),
            model: String::new(),
            phase: String::new(),
            outcomes: Vec::new(),
            best: None,
            error: None,
        }
    }
}

impl JobState {
    pub open spec fn status_value(&self) -> Value {
        let base = empty_obj().with("running"@, Value::Bool(self.running)).with("goal"@, Value::Str(self.goal@)).with(
            "model"@,
            Value::Str(self.model@),
        ).with("phase"@, Value::Str(self.phase@)).with("steps_done"@, Value::Num(decimal(self.outcomes@.len()))).with(
            "outcomes"@,
            Value::Arr(values(self.outcomes@)),
        );
        let best = match self.best {
            Some(b) => base.with("best"@, b@),
            None => base,
        };
        match self.error {
            Some(e) => best.with("error"@, Value::Str(e@)),
            None => best,
        }
    }

    /// The state as JSON.
    pub fn status(&self) -> (r: Json)
        ensures
            r@ == self.status_value(),
    {
        let mut out = Json::obj();
        out.set("running", Json::Bool(self.running));
        out.set("goal", Json::text(self.goal.as_str()));
        out.set("model", Json::text(self.model.as_str()));
        out.set("phase", Json::text(self.phase.as_str()));
        out.set("steps_done", Json::num(self.outcomes.len() as u64));
        let mut copies: Vec<Json> = Vec::new();
        let mut i: usize = 0;
        while i < self.outcomes.len()
            invariant
                i <= self.outcomes@.len(),
                copies@.len() == i,
                forall|j: int| 0 <= j < i ==> (#[trigger] copies@[j])@ == self.outcomes@[j]@,
            decreases self.outcomes@.len() - i,
        {
            copies.push(self.outcomes[i].clone());
            i += 1;
        }
        proof {
            lemma_arr_view(copies);
            assert(values(copies@) =~= values(self.outcomes@));
        }
        out.set("outcomes", Json::Arr(copies));
        match &self.best {
            Some(b) => {
                out.set("best", b.clone());
            },
            None => {},
        }
        match &self.error {
            Some(e) => {
                out.set("error", Json::text(e.as_str()));
            },
            None => {},
        }
        out
    }

    /// Reads what a new job is asked to do. While one runs there is no other.
    pub fn request(&self, args: &Json) -> (r: Result<JobRequest, String>)
        ensures
            match r {
                Ok(q) => !self.running && job_of(args@) == Ok::<JobRecord, Seq<char>>(q@),
                Err(e) => if self.running {
                    e@ == "un job DGM tourne déjà — interroger rsi_dgm_status"@
                } else {
                    job_of(args@) == Err::<JobRecord, Seq<char>>(e@)
                },
            },
    {
        if self.running {
            return Err("un job DGM tourne déjà — interroger rsi_dgm_status".to_owned());
        }
        read_job(args)
    }

    /// Starts a job with a model.
    pub fn start(&mut self, request: &JobRequest, model: &str) -> (r: Json)
        ensures
            r@ == started_value(model@, request.steps),
            final(self).running,
            final(self).goal@ == request.goal@,
            final(self).model@ == model@,
            final(self).phase@ == "référence (build+test de l'arbre vivant)"@,
            final(self).outcomes@.len() == 0,
            final(self).best is None,
            final(self).error is None,
    {
        self.running = true;
        self.goal = request.goal.clone();
        self.model = model.to_owned();
        self.phase = "référence (build+test de l'arbre vivant)".to_owned();
        self.outcomes = Vec::new();
        self.best = None;
        self.error = None;
        let mut out = Json::obj();
        out.set("started", Json::Bool(true));
        out.set("model", Json::text(model));
        out.set("steps", Json::num(request.steps));
        out.set("dry_run", Json::Bool(true));
        out
    }

    /// Announces the step at place `i` of so many.
    pub fn enter_step(&mut self, i: u64, steps: u64)
        requires
            i < steps,
        ensures
            final(self).phase@ == "étape "@ + decimal((i + 1) as nat) + "/"@ + decimal(steps as nat),
            *final(self) == (JobState { phase: final(self).phase, ..*old(self) }),
    {
        let mut phase = "étape ".to_owned();
        phase.append(decimal_text(i + 1).as_str());
        phase.append("/");
        phase.append(decimal_text(steps).as_str());
        self.phase = phase;
    }

    /// Records what a step led to.
    pub fn record(&mut self, i: u64, step: JobStep)
        ensures
            values(final(self).outcomes@) == values(old(self).outcomes@).push(step_value(i, step)),
            *final(self) == (JobState { outcomes: final(self).outcomes, ..*old(self) }),
    {
        let ghost before = self.outcomes@;
        let j = step_json(i, step);
        self.outcomes.push(j);
        assert(values(self.outcomes@) =~= values(before).push(j@));
    }

    /// Ends the job with an error.
    pub fn fail(&mut self, message: String)
        ensures
            *final(self) == (JobState {
                error: Some(message),
                running: false,
                phase: final(self).phase,
                ..*old(self)
            }),
            final(self).phase@ == "échec"@,
    {
        self.error = Some(message);
        self.running = false;
        self.phase = "échec".to_owned();
    }

    /// Ends the job with the best variant that it found.
    pub fn finish(&mut self, best: Option<BestVariant>)
        ensures
            match (best, final(self).best) {
                (Some(b), Some(j)) => j@ == best_value(b),
                (None, None) => true,
                _ => false,
            },
            final(self).phase@ == "terminé"@,
            *final(self) == (JobState {
                best: final(self).best,
                running: false,
                phase: final(self).phase,
                ..*old(self)
            }),
    {
        self.best = match best {
            Some(b) => Some(best_json(b)),
            None => None,
        };
        self.running = false;
        self.phase = "terminé".to_owned();
    }
}

/// The error for a workspace that is no directory.
pub fn not_a_directory(workspace: &str) -> (r: String)
    ensures
        r@ == "'"@ + workspace@ + "' n'est pas un répertoire"@,
{
    let mut message = "'".to_owned();
    message.append(workspace);
    message.append("' n'est pas un répertoire");
    message
}

// ---------------------------------------------------------------------------
// Laws
// ---------------------------------------------------------------------------

/// A notification is never answered, whatever its method.
pub proof fn law_notifications_are_not_answered(req: Value, version: Seq<char>, with_jobs: bool, h: Handling)
    requires
        is_notification(req),
        handled(req, version, with_jobs, h),
    ensures
        !(h is Answer),
        h matches Handling::Call { id, .. } ==> id is None,
{
}

/// A request with an identifier is answered at once, or calls a tool whose result is
/// told under that identifier; only the notice that the client is ready is passed over.
pub proof fn law_requests_are_answered(req: Value, version: Seq<char>, with_jobs: bool, h: Handling)
    requires
        !is_notification(req),
        !is_ready_notice(req),
        handled(req, version, with_jobs, h),
    ensures
        !(h is Silent),
        h matches Handling::Call { id, .. } ==> id matches Some(x) && Some(x@) == get(req, "id"@),
{
}

/// The steps and the time limit of a job stay within their bounds.
pub proof fn law_job_is_bounded(args: Value)
    ensures
        job_of(args) matches Ok(q) ==> {
            &&& 1 <= q.steps <= 64
            &&& 30 <= q.timeout_secs <= 1800
            &&& q.allowed.len() > 0
        },
{
}

/// A tool is called by its name without the prefix, but for the two of the background job.
pub proof fn law_tools_are_named(command: Seq<char>)
    requires
        command != "dgm_start"@,
        command != "dgm_status"@,
    ensures
        tool_of("rsi_"@ + command) == Tool::Facade(command),
        tool_of("rsi_"@ + "dgm_start"@) is JobStart,
        tool_of("rsi_"@ + "dgm_status"@) is JobStatus,
        !starts_with(command, "rsi_"@) ==> tool_of(command) == Tool::Facade(command),
{
    reveal_strlit("rsi_");
    reveal_strlit("dgm_start");
    reveal_strlit("dgm_status");
    reveal_strlit("rsi_dgm_start");
    reveal_strlit("rsi_dgm_status");
    let name = "rsi_"@ + command;
    assert("rsi_"@ + "dgm_start"@ =~= "rsi_dgm_start"@);
    assert("rsi_"@ + "dgm_status"@ =~= "rsi_dgm_status"@);
    assert(name.skip(4) =~= command);
    assert(("rsi_"@ + "dgm_start"@).skip(4) =~= "dgm_start"@);
    assert(("rsi_"@ + "dgm_status"@).skip(4) =~= "dgm_status"@);
    law_prefix_and_infix(name, "rsi_"@);
    law_prefix_and_infix(command, "rsi_"@);
    assert("rsi_dgm_start"@ != "rsi_dgm_status"@) by {
        assert("rsi_dgm_start"@.len() != "rsi_dgm_status"@.len());
    }
}

/// A number within bounds is taken as it is, one beyond them is brought to the nearer, and
/// a missing one is the default.
pub proof fn law_numbers_within(n: u64, default: u64, lo: u64, hi: u64)
    requires
        lo <= default <= hi,
    ensures
        lo <= within(Some(n), default, lo, hi) <= hi,
        lo <= n <= hi ==> within(Some(n), default, lo, hi) == n,
        n < lo ==> within(Some(n), default, lo, hi) == lo,
        n > hi ==> within(Some(n), default, lo, hi) == hi,
        within(None, default, lo, hi) == default,
{
}

/// A job is made exactly where a workspace, a goal and at least one editable file are
/// named; what is not said is eight steps, seed forty-two, five minutes, no benchmark.
pub proof fn law_jobs(args: Value)
    ensures
        job_of(args) is Ok <==> {
            &&& str_at(args, "workspace"@) is Some
            &&& str_at(args, "goal"@) is Some
            &&& str_at(args, "allow"@) is Some
            &&& split(str_at(args, "allow"@)->0, ',').map_values(|p: Seq<char>| trim(p)).filter(|p: Seq<char>| p.len() > 0).len()
                > 0
        },
        job_of(args) matches Ok(q) ==> {
            &&& str_at(args, "workspace"@) == Some(q.workspace)
            &&& str_at(args, "goal"@) == Some(q.goal)
            &&& q.allowed == split(str_at(args, "allow"@)->0, ',').map_values(|p: Seq<char>| trim(p)).filter(
                |p: Seq<char>| p.len() > 0,
            )
            &&& u64_at(args, "steps"@) is None ==> q.steps == 8
            &&& u64_at(args, "steps"@) matches Some(n) ==> (1 <= n <= 64 ==> q.steps == n) && (n == 0 ==> q.steps == 1) && (n
                > 64 ==> q.steps == 64)
            &&& u64_at(args, "timeout_secs"@) is None ==> q.timeout_secs == 300
            &&& u64_at(args, "timeout_secs"@) matches Some(n) ==> (30 <= n <= 1800 ==> q.timeout_secs == n) && (n < 30
                ==> q.timeout_secs == 30) && (n > 1800 ==> q.timeout_secs == 1800)
            &&& u64_at(args, "seed"@) is None ==> q.seed == 42
            &&& u64_at(args, "seed"@) is Some ==> Some(q.seed) == u64_at(args, "seed"@)
            &&& q.min_gain == number_at(args, "min_gain"@)
            &&& q.model == str_at(args, "model"@)
            &&& str_at(args, "bench"@) is None ==> q.bench.len() == 0
        },
{
    if str_at(args, "allow"@) is Some {
        law_filled_lines(split(str_at(args, "allow"@)->0, ','));
    }
}

/// An answer repeats the identifier of its request, and holds either a result or an error
/// with its code and its message.
pub proof fn law_answers(id: Value, result: Value, code: int, message: Seq<char>)
    requires
        wf(id),
        wf(result),
        wf(Value::Num(decimal_int(code))),
    ensures
        get(success_value(id, result), "id"@) == Some(id),
        get(success_value(id, result), "result"@) == Some(result),
        get(success_value(id, result), "error"@) is None,
        get(success_value(id, result), "jsonrpc"@) == Some(Value::Str("2.0"@)),
        get(error_value(id, code, message), "id"@) == Some(id),
        get(error_value(id, code, message), "result"@) is None,
        get(error_value(id, code, message), "jsonrpc"@) == Some(Value::Str("2.0"@)),
        get(error_value(id, code, message), "error"@) is Some,
        get(get(error_value(id, code, message), "error"@)->0, "code"@) == Some(Value::Num(decimal_int(code))),
        get(get(error_value(id, code, message), "error"@)->0, "message"@) == Some(Value::Str(message)),
{
    reveal_strlit("id");
    reveal_strlit("result");
    reveal_strlit("error");
    reveal_strlit("jsonrpc");
    reveal_strlit("code");
    reveal_strlit("message");
    assert("result"@[0] == 'r');
    assert("error"@[0] == 'e');
    assert("jsonrpc"@[0] == 'j');
    assert("id"@[0] == 'i');
    assert("code"@[0] == 'c');
    assert("message"@[0] == 'm');
    let o = empty_obj();
    lemma_bound(o, "jsonrpc"@, Value::Str("2.0"@));
    let a = o.with("jsonrpc"@, Value::Str("2.0"@));
    lemma_bound(a, "id"@, id);
    let b = a.with("id"@, id);
    lemma_bound(b, "result"@, result);
    lemma_bound(o, "code"@, Value::Num(decimal_int(code)));
    let e = o.with("code"@, Value::Num(decimal_int(code)));
    lemma_bound(e, "message"@, Value::Str(message));
    lemma_bound(b, "error"@, e.with("message"@, Value::Str(message)));
}

/// A line is read as a request exactly where it is not cut off and holds JSON between its
/// blanks; a cut or malformed one is answered with an error, a blank one with nothing.
pub proof fn law_lines(taken: usize, complete: bool, text: &str, r: Line)
    requires
        call_ensures(read_line, (taken, complete, text), r),
    ensures
        r is TooLong <==> !complete && taken >= 16_777_216,
        r is Blank <==> (complete || taken < 16_777_216) && trim(text@).len() == 0,
        r is Request <==> (complete || taken < 16_777_216) && trim(text@).len() > 0 && parse_text(trim(text@)) is Some,
        r matches Line::Request(j) ==> parse_text(trim(text@)) == Some(j@),
{
}

} // verus!
