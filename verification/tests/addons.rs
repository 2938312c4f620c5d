use rsi::addons::{
    parse_analysis_json, placeholder_signs, registry, watch_step, ChildPoll, PapersAddon, WatchStep,
};

const FIXTURE: &str = r#"{
        "executive_summary": "Un papier sur le tuilage de caches.",
        "contributions": ["tuilage adaptatif", "preuve de borne"],
        "algorithms": [
            {"name": "Cache-Oblivious Tiling", "complexity": "O(n^3/B)",
             "pseudocode": "for tile in tiles: process(tile)"},
            {"name": "  ", "complexity": null, "pseudocode": null},
            {"name": "Loop Unrolling", "complexity": null, "pseudocode": null}
        ],
        "impacted_modules": ["kernels"]
    }"#;

#[test]
fn parses_analysis_subset() {
    let a = parse_analysis_json(FIXTURE).unwrap();
    assert_eq!(a.summary, "Un papier sur le tuilage de caches.");
    assert_eq!(a.contributions.len(), 2);
    assert_eq!(a.algorithms.len(), 3);
    assert_eq!(a.impacted_modules, vec!["kernels".to_string()]);
    assert!(parse_analysis_json("pas du json").is_err());
    let min = parse_analysis_json("{}").unwrap();
    assert!(min.algorithms.is_empty() && min.summary.is_empty());
}

#[test]
fn placeholder_algorithms_never_become_goals() {
    let raw = r#"{"algorithms":[
            {"name":"Pipeline heuristique","complexity":"INFORMATION NON DISPONIBLE DANS LE PAPIER",
             "pseudocode":"FONCTION ProcessPaper(document)"},
            {"name":"Analyse heuristique","complexity":null,"pseudocode":null}
        ]}"#;
    let a = parse_analysis_json(raw).unwrap();
    assert!(PapersAddon::directive_goals(&a, "cible", 3).is_empty());
}

#[test]
fn directive_goals_are_deterministic_and_bounded() {
    let a = parse_analysis_json(FIXTURE).unwrap();
    let goals = PapersAddon::directive_goals(&a, "kernels::matmul (src/kernels.rs)", 2);
    assert_eq!(goals.len(), 2);
    assert!(goals[0].contains("Cache-Oblivious Tiling"));
    assert!(goals[0].contains("kernels::matmul"));
    assert!(goals[0].contains("O(n^3/B)"));
    assert!(goals[0].contains("Pseudocode du papier"));
    assert!(goals[0].ends_with("FIND court obligatoire."));
    assert!(goals[1].contains("Loop Unrolling"));
    assert_eq!(goals, PapersAddon::directive_goals(&a, "kernels::matmul (src/kernels.rs)", 2));
}

#[test]
fn registry_reports_papers_addon() {
    let regs = registry("papers".to_string(), true);
    assert_eq!(regs.len(), 1);
    assert_eq!(regs[0].name, "papers-agent");
    assert!(!regs[0].capabilities.is_empty());
}

#[test]
fn placeholders_are_found_whatever_their_case() {
    let raw = r#"{"algorithms":[
            {"name":"PIPELINE HEURISTIQUE","complexity":null,"pseudocode":null},
            {"name":"Analyse","complexity":"information non disponible","pseudocode":null},
            {"name":"Lecture","complexity":null,"pseudocode":"ProcessPaper()"},
            {"name":"Loop Unrolling","complexity":"O(n)","pseudocode":null}
        ]}"#;
    let a = parse_analysis_json(raw).unwrap();
    assert_eq!(
        PapersAddon::directive_goals(&a, "cible", 9),
        vec![
            "applique la technique « Loop Unrolling » du papier a cible, memes resultats (complexite visee : O(n)). \
             FIND court obligatoire."
                .to_string()
        ]
    );
    assert!(placeholder_signs("a heuristic", None, None));
    assert!(placeholder_signs("a", Some("NON DISPONIBLE"), None));
    assert!(placeholder_signs("a", None, Some("ProcessPaper")));
    assert!(!placeholder_signs("loop unrolling", Some("O(N)"), Some("for")));
}

#[test]
fn program_is_resolved_and_started() {
    assert_eq!(PapersAddon::resolve_bin(Some("/opt/papers".to_string())), "/opt/papers");
    assert_eq!(PapersAddon::resolve_bin(None), "papers");
    assert!(PapersAddon::detect("papers".to_string(), false).is_none());
    assert!(PapersAddon::detect("papers".to_string(), true).is_some());
    assert_eq!(
        PapersAddon::search_results("a\n\n  b  \n"),
        vec!["a".to_string(), "b".to_string()]
    );
}

#[test]
fn programs_that_run_too_long_are_killed() {
    let running = watch_step("papers", "analyze", &ChildPoll::Running, 10, 20);
    assert!(matches!(running, WatchStep::Wait));
    let late = watch_step("papers", "analyze", &ChildPoll::Running, 30, 20);
    assert!(!matches!(late, WatchStep::Wait));
}

#[test]
fn calls_have_a_limit_on_their_time() {
    let addon = PapersAddon::detect("papers".to_string(), true).unwrap();
    assert_eq!(addon.timeout_ns, 300_000_000_000);
    let addon = addon.with_timeout(5);
    assert_eq!((addon.bin.as_str(), addon.timeout_ns), ("papers", 5));
}
