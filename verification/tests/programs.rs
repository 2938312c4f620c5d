use rsi::agent::Mitigation;
use rsi::campaign::{
    allowed_files, bundle_goals, check_study, choose_backend, common_end, configs, file_name, goal_row, goal_target, integrated_docs, is_promotable, is_shown,
    knowledge_docs, paper_goals, paper_model, paper_verdict, prediction, preferred_model, read_source, rejection_lines, remember_rejection, required, revisions,
    run_numbers, short_mode, steps_per_goal, stride, verdict_mark, verdict_text, AnalysisMode, Backend, LoopMove, ProposerWatch, Source,
    StepEvent,
};
use rsi::cli::{
    first_positional, flag_or, flag_value, has_flag, one_line, parse_or, parse_u64, parse_within, positionals_from, short, truncate,
};
use rsi::connect::{
    choose_binary, config_text, descriptor, extra_targets, parse_options, register, registration_failed, ExtraTarget, MergeRefusal,
};
use rsi::crawl::{announcement, export_pages, parse_opts, read_index_line, IndexLine, Page};
use rsi::criticality::FailureMode;
use rsi::json::Json;
use rsi::mcp::{
    call_answer, handle_request, not_a_directory, read_line, tools_list, BestVariant, Handling, JobState, JobStep, Line, Tool,
    MAX_LINE_BYTES, PROTOCOL_VERSION,
};
use rsi::refine_cli::{eval_params, new_params, positionals, proposal_line, propose_params, refine_command, RefineNumbers};

fn argv(parts: &[&str]) -> Vec<String> {
    parts.iter().map(|s| s.to_string()).collect()
}

fn parse(text: &str) -> Json {
    Json::parse(text).unwrap()
}

// --- arguments ---

#[test]
fn flag_value_reads_value_after_flag() {
    let a = argv(&["rsi-refine", "new", "--domain", "prompt", "--state", "s.json"]);
    assert_eq!(flag_value(&a, "--domain"), Some("prompt".into()));
    assert_eq!(flag_value(&a, "--state"), Some("s.json".into()));
    assert_eq!(flag_value(&a, "--target"), None);
}

#[test]
fn positionals_skip_flags_and_their_values() {
    let a = argv(&["rsi-refine", "propose", "--state", "s.json", "x*x + 1", "--domain", "synthesis", "x + 2"]);
    assert_eq!(positionals(&a), vec!["x*x + 1".to_string(), "x + 2".to_string()]);
}

#[test]
fn flags_have_defaults() {
    let a = argv(&["p", "--steps", "7", "--fast", "in", "--seed", "x"]);
    assert!(has_flag(&a, "--fast"));
    assert!(!has_flag(&a, "--slow"));
    assert_eq!(flag_or(&a, "--steps", "1"), "7");
    assert_eq!(flag_or(&a, "--none", "1"), "1");
    assert_eq!(parse_or(&a, "--steps", 3), 7);
    assert_eq!(parse_or(&a, "--seed", 3), 3);
    assert_eq!(parse_within(&a, "--steps", 3, 1, 5), 5);
    let valued = argv(&["--steps", "--seed"]);
    assert_eq!(positionals_from(&a, 1, &valued), argv(&["in"]));
    assert_eq!(first_positional(&a, 1, &valued), Some("in".to_string()));
    assert_eq!(first_positional(&a, 5, &valued), None);
}

#[test]
fn numbers_are_read_as_the_standard_does() {
    for text in ["0", "7", "+7", "007", "18446744073709551615", "18446744073709551616", "", "+", "-1", "1.0", " 1", "٣"] {
        assert_eq!(parse_u64(text), text.parse::<u64>().ok(), "{text}");
    }
}

#[test]
fn texts_are_shortened() {
    assert_eq!(truncate("été", 3), "été");
    assert_eq!(truncate("été!", 3), "été…");
    assert_eq!(one_line("a\n  b\tc", 9), "a b c");
    assert_eq!(short("0123456789abcdef0123"), "01234567");
    assert_eq!(short("éàü012345"), "éàü01");
    assert_eq!(short("court"), "court");
}

// --- refinement program ---

#[test]
fn refinement_arguments_become_parameters() {
    let none = RefineNumbers { n: None, lo: None, hi: None, seed: None };
    let p = new_params(&argv(&["r", "new", "--domain", "prompt"]), &none);
    assert_eq!(p.str_at("domain"), Some("prompt"));
    assert!(p.get("target").is_none());
    let some = RefineNumbers { n: Some("12".into()), lo: Some("-1.5".into()), hi: None, seed: None };
    let p = new_params(&argv(&["r", "new"]), &some);
    assert_eq!(p.u64_at("n"), Some(12));
    assert_eq!(p.number_at("lo"), Some("-1.5".to_string()));
    let p = eval_params(&argv(&["r", "eval", "x*x", "+", "1"])).unwrap();
    assert_eq!(p.str_at("candidate"), Some("x*x + 1"));
    assert!(eval_params(&argv(&["r", "eval"])).is_err());
    assert!(propose_params(&argv(&["r", "propose"])).is_err());
    let p = propose_params(&argv(&["r", "propose", "a", "b"])).unwrap();
    assert_eq!(p.get("proposals").unwrap().as_array().unwrap().len(), 2);
    assert!(refine_command("new").is_ok());
    assert!(refine_command("brew").is_err());
}

#[test]
fn proposals_are_told_in_a_line() {
    assert_eq!(proposal_line(&parse(r#"{"status":"adopted","pretty":"x"}"#)), "  [adopted] x");
    assert_eq!(proposal_line(&parse(r#"{"status":"unsafe","reason":"r","pretty":"x"}"#)), "  [unsafe] r");
    assert_eq!(proposal_line(&parse(r#"{"error":"e"}"#)), "  [?] e");
    assert_eq!(proposal_line(&parse("{}")), "  [?] ");
}

// --- server ---

fn handled(text: &str) -> Handling {
    handle_request(&parse(text), "0.9.0", true)
}

#[test]
fn requests_are_answered_and_notifications_are_not() {
    assert!(matches!(handled(r#"{"method":"ping"}"#), Handling::Silent));
    match handled(r#"{"id":1,"method":"initialize"}"#) {
        Handling::Answer(j) => {
            assert_eq!(j.get("result").unwrap().str_at("protocolVersion"), Some(PROTOCOL_VERSION));
            assert_eq!(j.u64_at("id"), Some(1));
            assert_eq!(j.str_at("jsonrpc"), Some("2.0"));
        }
        _ => panic!("no answer"),
    }
    match handled(r#"{"id":"a","method":"brew"}"#) {
        Handling::Answer(j) => assert_eq!(j.get("error").unwrap().number_at("code"), Some("-32601".to_string())),
        _ => panic!("no answer"),
    }
    match handled(r#"{"id":2,"method":"tools/call","params":{"name":"rsi_state","arguments":{"id":"x"}}}"#) {
        Handling::Call { id, tool, arguments } => {
            assert_eq!(id.unwrap().as_u64(), Some(2));
            assert_eq!(tool, Tool::Facade("state".to_string()));
            assert_eq!(arguments.str_at("id"), Some("x"));
        }
        _ => panic!("no call"),
    }
}

#[test]
fn calls_are_answered_with_text() {
    let ok = call_answer(Some(Json::num(1)), Ok(parse(r#"{"a":1}"#))).unwrap();
    let result = ok.get("result").unwrap();
    let content = &result.get("content").unwrap().as_array().unwrap()[0];
    assert_eq!(content.str_at("text"), Some("{\"a\":1}"));
    assert!(result.get("isError").is_none());
    let failed = call_answer(Some(Json::num(1)), Err("non".to_string())).unwrap();
    assert_eq!(failed.get("result").unwrap().bool_at("isError"), Some(true));
    assert!(call_answer(None, Err("non".to_string())).is_none());
}

#[test]
fn lines_are_read_with_a_limit() {
    assert!(matches!(read_line(3, true, "  \n"), Line::Blank));
    assert!(matches!(read_line(MAX_LINE_BYTES, false, "x"), Line::TooLong(_)));
    match read_line(2, true, "{]") {
        Line::Malformed(j) => assert_eq!(j.get("error").unwrap().number_at("code"), Some("-32700".to_string())),
        _ => panic!("read"),
    }
    assert!(matches!(read_line(MAX_LINE_BYTES, true, "{}"), Line::Request(_)));
}

#[test]
fn tools_have_a_description_and_a_schema() {
    let without = tools_list(false);
    let with = tools_list(true);
    let count = |j: &Json| j.get("tools").unwrap().as_array().unwrap().len();
    assert_eq!(count(&with), count(&without) + 2);
    for tool in with.get("tools").unwrap().as_array().unwrap() {
        assert!(tool.str_at("name").unwrap().starts_with("rsi_"));
        assert!(!tool.str_at("description").unwrap().is_empty());
        assert_eq!(tool.get("inputSchema").unwrap().str_at("type"), Some("object"));
    }
}

#[test]
fn jobs_run_one_at_a_time() {
    let mut job = JobState::default();
    let args = parse(r#"{"workspace":"/w","goal":"g","allow":"a.rs, b.rs,","steps":1000,"timeout_secs":1}"#);
    let request = job.request(&args).unwrap();
    assert_eq!(request.allowed, argv(&["a.rs", "b.rs"]));
    assert_eq!(request.steps, 64);
    assert_eq!(request.timeout_secs, 30);
    assert_eq!(request.seed, 42);
    let started = job.start(&request, "m");
    assert_eq!(started.u64_at("steps"), Some(64));
    assert!(job.request(&args).is_err());
    job.enter_step(0, 64);
    assert_eq!(job.phase, "étape 1/64");
    job.record(0, JobStep::NoProposal { reason: None });
    job.record(
        1,
        JobStep::Evaluated {
            accepted: true,
            compiles: true,
            tests_passed: 3,
            tests_failed: 0,
            score: "0.5".to_string(),
            variant: "v".to_string(),
            notes: "n".to_string(),
        },
    );
    assert_eq!(job.status().u64_at("steps_done"), Some(2));
    job.finish(Some(BestVariant {
        variant: "v".to_string(),
        target: "a.rs".to_string(),
        rationale: "r".to_string(),
        fitness: Some(("0.5".to_string(), 3)),
    }));
    let status = job.status();
    assert_eq!(status.bool_at("running"), Some(false));
    assert_eq!(status.get("best").unwrap().str_at("variant"), Some("v"));
    assert!(job.request(&parse("{}")).is_err());
    job.fail("x".to_string());
    assert_eq!(job.status().str_at("error"), Some("x"));
    assert_eq!(not_a_directory("/w"), "'/w' n'est pas un répertoire");
}

// --- registration ---

#[test]
fn registration_keeps_other_servers_and_is_idempotent() {
    let before = r#"{"theme":"dark","mcpServers":{"other":{"command":"x"}}}"#;
    let after = register(Some(before), "rsi", "/bin/rsi-mcp").unwrap();
    assert_eq!(after.str_at("theme"), Some("dark"));
    let servers = after.get("mcpServers").unwrap();
    assert_eq!(servers.get("other").unwrap().str_at("command"), Some("x"));
    assert_eq!(servers.get("rsi").unwrap().str_at("command"), Some("/bin/rsi-mcp"));
    let text = config_text(&after);
    assert!(text.ends_with('\n'));
    assert_eq!(register(Some(&text), "rsi", "/bin/rsi-mcp").unwrap(), after);
    assert_eq!(register(Some("{"), "rsi", "b"), Err(MergeRefusal::NotJson));
    assert_eq!(register(Some("[]"), "rsi", "b"), Err(MergeRefusal::RootIsNoObject));
    assert_eq!(register(Some("  "), "rsi", "b"), register(None, "rsi", "b"));
    assert!(descriptor("rsi", "b").to_string().contains("\"rsi\""));
}

#[test]
fn connection_options_are_read() {
    let o = parse_options(&argv(&["--print", "--name", "n", "--what"])).unwrap();
    assert!(o.print_only);
    assert_eq!(o.server_name, "n");
    assert!(parse_options(&argv(&["--help"])).is_none());
    assert_eq!(choose_binary(None, Some("c".into()), Some("f".into())), "c");
    assert_eq!(choose_binary(None, None, None), "rsi-mcp");
    assert_eq!(
        extra_targets("a=/x, b = /y ,,c"),
        vec![
            ExtraTarget::Target { name: "a".into(), path: "/x".into() },
            ExtraTarget::Target { name: "b".into(), path: "/y".into() },
            ExtraTarget::Ignored("c".into()),
        ]
    );
    assert!(registration_failed(0, 2));
    assert!(!registration_failed(0, 0));
    assert!(!registration_failed(1, 2));
}

// --- crawls ---

#[test]
fn crawl_options_are_read() {
    let o = parse_opts(&argv(&["--depth", "x", "--max-pages", "9", "--no-robots", "http://a", "--out"])).unwrap();
    assert_eq!((o.depth, o.max_pages, o.respect_robots), (2, 9, false));
    assert_eq!(o.seeds, argv(&["http://a"]));
    assert_eq!(o.out, None);
    assert_eq!(announcement(&o), "crawl : 1 seed(s), max 9 pages, profondeur 2, robots non");
    assert_eq!(parse_opts(&argv(&["--what"])).unwrap_err(), "option inconnue : --what");
}

#[test]
fn pages_survive_their_index() {
    let page = || Page { url: "http://a".into(), title: "é \"q\"".into(), text: "l1\nl2\t\u{1}".into() };
    let text = export_pages(&[page(), page()]);
    let lines: Vec<&str> = text.lines().collect();
    assert_eq!(lines.len(), 2);
    assert_eq!(read_index_line(lines[0]), IndexLine::Found(page()));
    assert_eq!(read_index_line("  "), IndexLine::Blank);
    assert_eq!(read_index_line("{"), IndexLine::Malformed);
    assert_eq!(read_index_line("{\"url\":\"u\"}"), IndexLine::Incomplete);
}

// --- campaigns ---

#[test]
fn backends_are_chosen_by_flag_then_setting() {
    let flag = argv(&["p", "--backend", "ollama", "--model", "m"]);
    let bare = argv(&["p"]);
    assert_eq!(choose_backend(&flag, Some("auto"), "cloud"), Ok(Backend::Ollama));
    assert_eq!(choose_backend(&bare, Some("cloud:big"), "cloud"), Ok(Backend::Hosted));
    assert_eq!(choose_backend(&bare, None, "cloud"), Ok(Backend::Auto));
    assert_eq!(
        choose_backend(&bare, Some("other"), "cloud"),
        Err("backend inconnu 'other' (auto|ollama|cloud).".to_string())
    );
    assert_eq!(preferred_model(&flag, Some("ollama:x"), None), Some("m".to_string()));
    assert_eq!(preferred_model(&bare, Some("ollama:x"), Some("y".into())), Some("x".to_string()));
    assert_eq!(preferred_model(&bare, Some("ollama"), Some("y".into())), Some("y".to_string()));
}

#[test]
fn campaign_arguments_are_checked() {
    let a = argv(&["p", "--goal", "g"]);
    assert_eq!(required(&a, "--goal"), Ok("g".to_string()));
    assert_eq!(required(&a, "--x"), Err("--x est requis.".to_string()));
    assert_eq!(allowed_files(" a.rs ,,b.rs", "fichier").unwrap(), argv(&["a.rs", "b.rs"]));
    assert_eq!(
        allowed_files(" , ", "fichier éditable").unwrap_err(),
        "--allow doit lister au moins un fichier éditable."
    );
    assert_eq!(check_study(0, 0).unwrap_err(), "steps=0 (aucune mesure possible) — fournir un nombre de pas ≥ 1");
    assert!(check_study(1, 0).is_err());
    assert!(check_study(1, 1).is_ok());
    assert_eq!(run_numbers(&argv(&["p", "12", "x", "3"])), (12, 3));
    assert_eq!(run_numbers(&argv(&[])), (45, 2026));
}

#[test]
fn failures_in_a_row_end_the_loop() {
    let mut w = ProposerWatch::new();
    let mut skips = 0;
    loop {
        match w.observe(StepEvent::ProposerFailed) {
            LoopMove::Skip => skips += 1,
            LoopMove::GiveUp => break,
            LoopMove::GoOn => unreachable!(),
        }
    }
    assert!(skips >= 1);
    let mut w = ProposerWatch::new();
    assert_eq!(w.observe(StepEvent::ProposerFailed), LoopMove::Skip);
    assert_eq!(w.observe(StepEvent::Done), LoopMove::GoOn);
    assert_eq!(w.failures, 0);
    assert_eq!(w.observe(StepEvent::Failed), LoopMove::GiveUp);
}

#[test]
fn goals_come_from_a_paper_or_a_bundle() {
    match read_source(&argv(&["p", "--bundle", "dir"])).unwrap() {
        Source::Bundle(dir) => assert_eq!(dir, "dir"),
        Source::Paper { .. } => panic!("paper"),
    }
    match read_source(&argv(&["p", "--paper", "x.pdf"])).unwrap() {
        Source::Paper { source, mode } => {
            assert_eq!(source, "x.pdf");
            assert_eq!(mode, AnalysisMode::Heuristic);
        }
        Source::Bundle(_) => panic!("bundle"),
    }
    assert!(read_source(&argv(&["p"])).is_err());
    assert!(read_source(&argv(&["p", "--paper", "x", "--bundle", "y"])).is_err());
    assert!(read_source(&argv(&["p", "--paper", "x", "--model", "m"])).is_err());
    assert!(read_source(&argv(&["p", "--bundle", "x", "--provider", "p", "--model", "m"])).is_err());
    let a = argv(&["p"]);
    assert!(bundle_goals(&a) >= 1 && paper_goals(&a) >= 1 && steps_per_goal(&a) >= 1);
    assert_eq!(paper_model(&a), None);
    assert_eq!(paper_model(&argv(&["p", "--paper-llm"])), Some(String::new()));
    assert_eq!(paper_model(&argv(&["p", "--paper-llm", "--paper-model", "m"])), Some("m".to_string()));
    assert_eq!(goal_target(&argv(&["p", "--target", "t"]), &argv(&["a.rs"])), "t");
    assert_eq!(
        goal_row(1, "a\n b", 2, Some("0.500"), Some("0123456789")),
        "| 1 | a b | 2 | 0.500 | 01234567 |\n"
    );
}

#[test]
fn verdicts_are_told() {
    assert_eq!(verdict_text(Some(true)), "oui");
    assert_eq!(verdict_text(None), " ? ");
    assert_eq!(verdict_mark(None, Some(true)), "?");
    assert_eq!(verdict_mark(Some(true), Some(true)), "✓");
    assert_eq!(verdict_mark(Some(true), None), "✗");
    assert_eq!(prediction(Some(false), Some(true)).0, Some(false));
    assert_eq!(prediction(None, Some(true)), (Some(true), None));
    assert_eq!(prediction(Some(true), Some(false)).0, Some(false));
    assert_eq!(file_name("a/b/c.rs"), "c.rs");
    assert_eq!(rejection_lines("a  \n\n b\r\n"), argv(&["a", " b"]));
    let mut r = Vec::new();
    for i in 0..10 {
        remember_rejection(&mut r, &format!("{i}"));
    }
    assert_eq!(r, argv(&["2", "3", "4", "5", "6", "7", "8", "9"]));
}

#[test]
fn studies_are_laid_out() {
    let all = configs();
    assert_eq!(all.len(), 7);
    assert!(!all[0].memory && !all[0].adaptive_eps);
    assert!(all[6].memory && all[6].substrate && all[6].knowledge && all[6].active_response && all[6].adaptive_eps);
    assert_eq!(knowledge_docs().len(), 12);
    assert!(knowledge_docs()[3].starts_with("domaine_3 "));
    assert_eq!(integrated_docs().len(), 12);
    assert_eq!(
        integrated_docs()[11],
        "domaine_11 concept apprentissage raisonnement substrat memoire valeurs criticite surface intelligence recursive technique_11 methode_11"
    );
    assert_eq!(short_mode(FailureMode::ValueDrift), "dérive-V");
    assert_eq!(stride(45, 15), 3);
    assert_eq!(stride(5, 15), 1);
    assert!(is_shown(3, 10, 3, Mitigation::Unneeded));
    assert!(!is_shown(4, 10, 3, Mitigation::Unneeded));
    assert!(is_shown(4, 10, 3, Mitigation::DampGain));
    assert!(is_shown(9, 10, 4, Mitigation::Unneeded));
    assert_eq!(common_end(2, 4), "plateau");
    assert_eq!(common_end(1, 4), "budget");
    assert_eq!(revisions(10, 3), 4);
    assert_eq!(revisions(9, 3), 3);
}

#[test]
fn only_a_better_green_variant_is_promotable() {
    assert!(is_promotable(false, true, true));
    assert!(!is_promotable(true, true, true));
    assert!(!is_promotable(false, false, true));
    assert!(!is_promotable(false, true, false));
    assert!(paper_verdict(true).starts_with("✓ le papier"));
    assert!(paper_verdict(false).starts_with("∅ aucune amélioration"));
}
