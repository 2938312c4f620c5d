use rsi::dgm::{gate_admits, Archive, DgmConfig, DgmEngine, Fitness, Patch};
use rsi::file_tree::{path_is_skipped, FileTree, TreeFile};
use rsi::json::Json;
use rsi::json_number::whole_number;
use rsi::json_pretty::pretty_print;
use rsi::order::{canonical_texts, order_texts, Order};
use rsi::patchset::{FileOperation, PatchSet, PatchSetError};
use rsi::sha256::{hmac_sha256_hex, sha256_hex};
use rsi::table::Table;
use rsi::text::{
    char_is_whitespace, decimal_int_text, decimal_text, decimal_wide_text, first_chars, nonempty_lines, split_text, split_text_once,
    split_words, text_contains, to_lowercase, trim_text,
};

fn texts(parts: &[&str]) -> Vec<String> {
    parts.iter().map(|s| s.to_string()).collect()
}

// --- digests ---

#[test]
fn digests_match_the_published_vectors() {
    assert_eq!(sha256_hex(b""), "e3b0c44298fc1c149afbf4c8996fb92427ae41e4649b934ca495991b7852b855");
    assert_eq!(sha256_hex(b"abc"), "ba7816bf8f01cfea414140de5dae2223b00361a396177a9cb410ff61f20015ad");
    assert_eq!(
        sha256_hex(b"abcdbcdecdefdefgefghfghighijhijkijkljklmklmnlmnomnopnopq"),
        "248d6a61d20638b8e5c026930c3e6039a33ce45964ff2167f6ecedd419db06c1"
    );
    assert_eq!(
        sha256_hex(&[b'a'; 1000].repeat(1000)),
        "cdc76e5c9914fb9281a1c7e284d73e67f1809a48a497200e046d39ccc7112cd0"
    );
}

#[test]
fn keyed_digests_match_the_published_vectors() {
    assert_eq!(
        hmac_sha256_hex(b"Jefe", b"what do ya want for nothing?"),
        "5bdcc146bf60754e6a042426089575c75a003f089d2739839dec58b964ec3843"
    );
    assert_eq!(
        hmac_sha256_hex(&[0xaa; 131], b"Test Using Larger Than Block-Size Key - Hash Key First"),
        "60e431591ee0b67f0d8a26aacbf5b77f8e0bc6213728c5140546040f0ee37f54"
    );
}

// --- JSON ---

#[test]
fn json_is_printed_with_sorted_keys_and_read_back() {
    let text = "{\"b\":[1,true,null,-2.5e3],\"a\":\"x\\n\\\"\\u00e9\"}";
    let v = Json::parse(text).unwrap();
    let printed = v.to_string();
    assert!(printed.starts_with("{\"a\":"));
    assert_eq!(Json::parse(&printed).unwrap(), v);
    assert_eq!(v.str_at("a"), Some("x\n\"é"));
    let pretty = pretty_print(&v);
    assert!(pretty.contains("\n  \"b\": [\n    1,\n"));
    assert_eq!(Json::parse(&pretty).unwrap(), v);
    assert_eq!(pretty_print(&Json::obj()), "{}");
}

#[test]
fn escapes_name_characters() {
    let v = Json::parse("\"\\u0041\\t\\/\"").unwrap();
    assert_eq!(v.as_str(), Some("A\t/"));
    assert!(Json::parse("\"\\ud800\"").is_err());
}

#[test]
fn malformed_json_is_refused() {
    for text in ["", "{", "[1,]", "{\"a\"}", "01", "1.", "+1", "nul", "\"", "1 2", "{\"a\":1,}"] {
        assert!(Json::parse(text).is_err(), "{text}");
    }
}

#[test]
fn keys_are_set_once() {
    let mut o = Json::obj();
    o.set("k", Json::num(1));
    o.set("a", Json::whole(-3));
    o.set("k", Json::num(2));
    assert_eq!(o.to_string(), "{\"a\":-3,\"k\":2}");
}

#[test]
fn whole_numbers_are_read_in_any_notation() {
    for (text, n) in [
        ("16", Some(16)),
        ("16.0", Some(16)),
        ("1.6e1", Some(16)),
        ("160e-1", Some(16)),
        ("0", Some(0)),
        ("-0.0", Some(0)),
        ("0e999999999999999999999999999999999999", Some(0)),
        ("18446744073709551615", Some(u64::MAX)),
        ("18446744073709551616", None),
        ("1e19", Some(10_000_000_000_000_000_000)),
        ("1e20", None),
        ("1e99999999999999999999999999999999999999", None),
        ("1e-99999999999999999999999999999999999999", None),
        ("16.5", None),
        ("-1", None),
        ("016", None),
        ("", None),
        ("x", None),
    ] {
        assert_eq!(whole_number(text), n, "{text}");
    }
}

// --- tables and trees ---

#[test]
fn tables_keep_their_names_in_order() {
    let mut t: Table<u32> = Table::new();
    t.insert("b", 1);
    t.insert("a", 2);
    t.insert("b", 3);
    assert_eq!(t.len(), 2);
    assert_eq!(t.at(0), ("a", &2));
    assert_eq!(t.get("b"), Some(&3));
    assert_eq!(t.remove("a"), Some(2));
    assert_eq!(t.remove("a"), None);
    assert!(!t.contains("a"));
}

#[test]
fn trees_are_identified_by_their_contents() {
    let file = |p: &str, c: &str| TreeFile { path: p.to_string(), contents: c.as_bytes().to_vec() };
    let one = FileTree::gather(vec![file("a", "1"), file("b", "2"), file("target/x", "3")]);
    let two = FileTree::gather(vec![file("b", "2"), file("a", "0"), file("a", "1")]);
    assert_eq!(one.len(), 2);
    assert_eq!(one.identity(), two.identity());
    let three = FileTree::gather(vec![file("a", "12"), file("b", "")]);
    assert_ne!(one.identity(), three.identity());
    assert!(path_is_skipped(".git/config"));
    assert!(!path_is_skipped("src/target"));
}

#[test]
fn patch_sets_fail_for_a_reason() {
    let tree = FileTree::gather(vec![TreeFile { path: "a".to_string(), contents: b"x x".to_vec() }]);
    let run = |ops: Vec<FileOperation>| PatchSet::new(ops).and_then(|s| s.materialize(&tree)).map(|t| t.len());
    assert_eq!(run(vec![]), Err(PatchSetError::Empty));
    assert!(matches!(run(vec![FileOperation::create("../a", "")]), Err(PatchSetError::InvalidPath(_))));
    assert!(matches!(
        run(vec![FileOperation::modify_exact("a", "", "y")]),
        Err(PatchSetError::EmptyExpectedText(_))
    ));
    assert!(matches!(run(vec![FileOperation::delete("a", "z")]), Err(PatchSetError::InvalidDigest { .. })));
    assert!(matches!(
        run(vec![FileOperation::create("b", ""), FileOperation::create("b", "")]),
        Err(PatchSetError::DuplicatePath(_))
    ));
    assert!(matches!(run(vec![FileOperation::create("a", "")]), Err(PatchSetError::FileExists(_))));
    assert!(matches!(
        run(vec![FileOperation::modify_exact("b", "x", "y")]),
        Err(PatchSetError::FileMissing(_))
    ));
    assert!(matches!(
        run(vec![FileOperation::modify_exact("a", "z", "y")]),
        Err(PatchSetError::TextNotFound(_))
    ));
    assert!(matches!(
        run(vec![FileOperation::modify_exact("a", "x", "y")]),
        Err(PatchSetError::TextNotUnique(_))
    ));
    assert!(matches!(
        run(vec![FileOperation::delete("a", sha256_hex(b"other"))]),
        Err(PatchSetError::ContentMismatch { .. })
    ));
    assert_eq!(run(vec![FileOperation::delete("a", sha256_hex(b"x x"))]), Ok(0));
}

// --- search ---

fn fitness(score_milli: i64) -> Fitness {
    Fitness { compiles: true, tests_passed: 3, tests_failed: 0, score_milli }
}

#[test]
fn variants_enter_when_green_and_better() {
    assert!(gate_admits(&fitness(1000), &fitness(1000), 0));
    assert!(!gate_admits(&fitness(1000), &fitness(999), 0));
    assert!(gate_admits(&fitness(1000), &fitness(1050), 50_000));
    assert!(!gate_admits(&fitness(1000), &fitness(1049), 50_000));
    assert!(!gate_admits(&fitness(0), &Fitness { tests_failed: 1, ..fitness(9000) }, 0));
    assert!(!gate_admits(&fitness(0), &Fitness { compiles: false, ..fitness(9000) }, 0));
}

#[test]
fn live_tree_is_never_written() {
    let live = FileTree::gather(vec![TreeFile { path: "a.rs".to_string(), contents: b"x = 1".to_vec() }]);
    let config = DgmConfig { min_score_gain_ppm: 0, allow: Some(texts(&["a.rs"])) };
    let mut engine = DgmEngine::new(Archive::with_root(fitness(10)), config, live);
    let patch = Patch::new("a.rs", "x = 1", "x = 2");
    let snapshot = engine.snapshot(&patch).unwrap();
    assert_eq!(snapshot.get("a.rs"), Some(&b"x = 2"[..]));
    assert!(engine.consider(patch, fitness(20)));
    assert_eq!(engine.live.get("a.rs"), Some(&b"x = 1"[..]));
    assert_eq!(engine.archive.len(), 2);
    assert_eq!(engine.archive.best().fitness.score_milli, 20);
    assert!(engine.snapshot(&Patch::new("b.rs", "x", "y")).is_none());
    assert!(!engine.consider(Patch::new("b.rs", "x", "y"), fitness(30)));
}

// --- texts ---

#[test]
fn texts_are_taken_apart_as_the_standard_does() {
    for s in ["", "a", "a,b", ",a,,b,", "é,ü"] {
        assert_eq!(split_text(s, ','), s.split(',').map(str::to_string).collect::<Vec<_>>());
        assert_eq!(
            split_text_once(s, ','),
            s.split_once(',').map(|(a, b)| (a.to_string(), b.to_string()))
        );
        assert_eq!(text_contains(s, ","), s.contains(','));
    }
    for s in ["", "  a  b\t\nc ", "\u{a0}x\u{2003}y\u{3000}", "\u{200b}z"] {
        assert_eq!(split_words(s), s.split_whitespace().map(str::to_string).collect::<Vec<_>>());
        assert_eq!(trim_text(s), s.trim());
    }
    for c in (0..0x3100u32).filter_map(char::from_u32) {
        assert_eq!(char_is_whitespace(c), c.is_whitespace(), "{:?}", c);
    }
    assert_eq!(nonempty_lines("a\r\n\n b \n"), texts(&["a", "b"]));
    assert_eq!(first_chars("éàü", 2), "éà");
    assert_eq!(to_lowercase("ABC-Z9"), "abc-z9");
}

#[test]
fn numbers_are_written_as_the_standard_does() {
    for n in [0u64, 7, 10, 909, u64::MAX] {
        assert_eq!(decimal_text(n), n.to_string());
        assert_eq!(decimal_wide_text(n as u128 * 1000), (n as u128 * 1000).to_string());
    }
    for n in [0i64, -1, 42, i64::MIN, i64::MAX] {
        assert_eq!(decimal_int_text(n), n.to_string());
    }
}

#[test]
fn texts_are_ordered_as_the_standard_does() {
    let all = ["", "a", "ab", "b", "é", "\u{ffff}", "\u{10000}"];
    for a in all {
        for b in all {
            let o = order_texts(a, b);
            assert_eq!(o == Order::Less, a < b);
            assert_eq!(o == Order::Equal, a == b);
        }
    }
    assert_eq!(canonical_texts(texts(&["b", "a", "b"])), texts(&["a", "b"]));
}
