use engine::document::Document;
use engine::path::is_walkable;
use engine::query::evaluator::queries::{build_indexes, collect_keys, collect_kinds, run};
use engine::query::evaluator::search::text_search;
use engine::query::evaluator::fingerprint::write_fingerprint;
use engine::query::evaluator::stream::EvalError;
use engine::query::index::{ForeignKeyIndex, IndexRegistry, ScalarKey};
use engine::query::number::{FloatFns, NumOp, Numbers};
use engine::query::surface::{compile_path_only, compile_with_params, ParamValue};
use engine::query::compile;
use engine::query::value::Value;
use engine::render::render_ndjson;

fn number_text(n: u64) -> String {
    let x = f64::from_bits(n);
    if x.is_nan() {
        "NaN".to_string()
    } else if x.is_infinite() {
        if x > 0.0 { "Infinity".to_string() } else { "-Infinity".to_string() }
    } else if x == x.trunc() && x.abs() < 1e16 {
        format!("{}", x as i64)
    } else {
        format!("{}", x)
    }
}

fn number_op(op: NumOp, a: u64, b: u64) -> u64 {
    let x = f64::from_bits(a);
    let y = f64::from_bits(b);
    let r = match op {
        NumOp::Add => x + y,
        NumOp::Sub => x - y,
        NumOp::Mul => x * y,
        NumOp::Div => x / y,
        NumOp::Neg => -x,
        NumOp::OfInt => a as f64,
        NumOp::Round => {
            let factor = 10f64.powi((y.round() as i32).clamp(-308, 308));
            (x * factor).round() / factor
        }
        NumOp::Abs => x.abs(),
        NumOp::Floor => x.floor(),
        NumOp::Ceil => x.ceil(),
        NumOp::Sqrt => x.sqrt(),
        NumOp::Pow => x.powf(y),
        NumOp::Mod => if y == 0.0 { f64::NAN } else { x % y },
    };
    r.to_bits()
}

fn number_of_text(b: &[u8]) -> Option<u64> {
    match std::str::from_utf8(b) {
        Ok(s) => match s.parse::<f64>() {
            Ok(x) => Some(x.to_bits()),
            Err(_) => None,
        },
        Err(_) => None,
    }
}

fn num() -> impl Numbers {
    FloatFns { parse: number_of_text, arith: number_op, write: number_text }
}

const SHOP: &str = r#"{
  "users": [
    {"id": 1, "name": "Ada", "role": "admin", "age": 36},
    {"id": 2, "name": "Bob", "role": "user", "age": 29},
    {"id": 3, "name": "Cyd", "role": "user", "age": 41}
  ],
  "orders": [
    {"user": 1, "total": 10},
    {"user": 2, "total": 5},
    {"user": 1, "total": 7},
    {"user": 9, "total": 1}
  ],
  "tags": ["x", "y", "x"]
}"#;

fn doc(text: &str) -> Document {
    let d = Document::open(text.as_bytes().to_vec()).unwrap();
    assert!(is_walkable(&d));
    d
}

fn ask(text: &str, query: &str) -> String {
    let d = doc(text);
    let n = num();
    let ast = compile(query).unwrap_or_else(|e| panic!("{}: {}", query, e.message));
    let indexes = build_indexes(&d, &n, &ast, IndexRegistry::new());
    let out = run(&d, &n, &indexes, &ast, 0, 1000);
    assert!(out.error.is_none());
    render_ndjson(&out.results, &d, &n)
}

fn fails(query: &str) -> String {
    match compile(query) {
        Ok(_) => panic!("compiles: {}", query),
        Err(e) => e.message,
    }
}

#[test]
fn select_where_and_order() {
    assert_eq!(
        ask(SHOP, "from .users[] as u where u.role == \"user\" select { name: u.name } order by u.name desc"),
        "{\"name\": \"Cyd\"}\n{\"name\": \"Bob\"}\n"
    );
}

#[test]
fn a_query_without_select_gives_the_rows() {
    assert_eq!(
        ask(SHOP, "from .orders[] as o where o.total > 6"),
        "{\"user\": 1, \"total\": 10}\n{\"user\": 1, \"total\": 7}\n"
    );
}

#[test]
fn limit_takes_the_first_rows() {
    assert_eq!(ask(SHOP, "from .users[] as u select { n: u.id } limit 2"), "{\"n\": 1}\n{\"n\": 2}\n");
}

#[test]
fn distinct_keeps_the_first_of_equal_rows() {
    assert_eq!(ask(SHOP, "from .tags[] as t distinct"), "\"x\"\n\"y\"\n");
}

#[test]
fn join_pairs_rows_by_key() {
    assert_eq!(
        ask(
            SHOP,
            "from .orders[] as o join .users[] as u on u.id == o.user select { name: u.name, total: o.total }"
        ),
        "{\"name\": \"Ada\", \"total\": 10}\n{\"name\": \"Bob\", \"total\": 5}\n{\"name\": \"Ada\", \"total\": 7}\n"
    );
}

#[test]
fn a_join_without_its_index_reports_it() {
    let d = doc(SHOP);
    let n = num();
    let ast = compile("from .orders[] as o join .users[] as u on u.id == o.user").unwrap();
    let out = run(&d, &n, &IndexRegistry::new(), &ast, 0, 10);
    assert!(out.results.is_empty());
    match out.error {
        Some(EvalError::MissingIndex { source, key }) => {
            assert_eq!(source, compile_path_only(".users[]").unwrap().canonical());
            assert_eq!(key, compile_path_only(".id").unwrap().canonical());
        }
        None => panic!("no error"),
    }
}

#[test]
fn aggregate_groups_and_reduces() {
    assert_eq!(
        ask(SHOP, "from .orders[] as o aggregate { n: count(), sum: sum(o.total) } by o.user"),
        "{\"user\": 1, \"n\": 2, \"sum\": 17}\n{\"user\": 2, \"n\": 1, \"sum\": 5}\n{\"user\": 9, \"n\": 1, \"sum\": 1}\n"
    );
}

#[test]
fn aliases_keep_the_last_row_that_was_bound() {
    assert_eq!(
        ask(SHOP, "from .users[] as u where u.role == \"admin\" aggregate { n: count() } select { l: u.name }"),
        "{\"l\": \"Cyd\"}\n"
    );
    assert_eq!(
        ask(SHOP, "from .users[] as u aggregate { n: count() } select { l: u.name }"),
        "{\"l\": \"Cyd\"}\n"
    );
}

#[test]
fn keys_stand_in_order() {
    let keys = || {
        vec![
            ScalarKey::Null,
            ScalarKey::Bool(false),
            ScalarKey::Bool(true),
            ScalarKey::Int(-1),
            ScalarKey::Int(2),
            ScalarKey::Float((-0.5f64).to_bits()),
            ScalarKey::Float(1.5f64.to_bits()),
            ScalarKey::Float(f64::NAN.to_bits()),
            ScalarKey::Str("a".to_string()),
            ScalarKey::Str("b".to_string()),
        ]
    };
    let k = keys();
    for i in 0..k.len() {
        for j in 0..k.len() {
            assert_eq!(k[i].comes_before(&k[j]), i < j);
        }
    }
    let mut x = ForeignKeyIndex::new();
    for (i, key) in keys().into_iter().enumerate().rev() {
        x.add(key, i as u32);
    }
    x.add(ScalarKey::Int(2), 99);
    assert_eq!(x.get(&ScalarKey::Int(2)), Some(&[4u32, 99][..]));
    assert_eq!(x.get(&ScalarKey::Str("a".to_string())), Some(&[8u32][..]));
    assert_eq!(x.get(&ScalarKey::Int(7)), None);
    assert_eq!(x.buckets.len(), 10);
}

#[test]
fn parameters_that_are_no_numbers_stay_apart() {
    assert!(matches!(engine::cli::parse_param_value("+5"), ParamValue::Str(_)));
    assert!(matches!(engine::cli::parse_param_value("inf"), ParamValue::Str(_)));
    assert!(matches!(engine::cli::parse_param_value(" -5.0e1 "), ParamValue::Number(_)));
    let canonical = |x: &str, y: &str| {
        let p = vec![
            ("x".to_string(), ParamValue::Number(x.to_string())),
            ("y".to_string(), ParamValue::Number(y.to_string())),
        ];
        compile_with_params("from .a[] as r aggregate { s: sum(r.v * $x), t: sum(r.v * $y) }", &p)
            .unwrap_or_else(|e| panic!("{}", e.message))
            .canonical()
    };
    assert_ne!(canonical("+5", "+6"), canonical("+5", "+5"));
    assert_eq!(canonical("5", "5.0"), canonical("5e0", "5"));
}

#[test]
fn errors_name_numbers_in_plain_digits() {
    assert!(fails("from .a as x 1.0").contains("number 1 after"));
    assert!(fails("from .a as x limit 2.50").ends_with("got 2.5"));
    assert!(fails("from .a[1.50] as x").ends_with("got 1.5"));
}

#[test]
fn groups_stand_in_the_order_of_their_keys() {
    let text = r#"{"a": [{"k": 2}, {"k": 1.5}, {"k": "b"}, {"k": true}, {"k": 1}, {"k": 2}, {"k": "a"}, {"k": 0.5}]}"#;
    assert_eq!(
        ask(text, "from .a[] as x aggregate { n: count() } by x.k"),
        "{\"k\": true, \"n\": 1}\n{\"k\": 1, \"n\": 1}\n{\"k\": 2, \"n\": 2}\n{\"k\": 0.5, \"n\": 1}\n{\"k\": 1.5, \"n\": 1}\n{\"k\": \"a\", \"n\": 1}\n{\"k\": \"b\", \"n\": 1}\n"
    );
}

#[test]
fn aggregate_without_by_gives_a_row_for_each_output() {
    assert_eq!(
        ask(SHOP, "from .users[] as u aggregate { oldest: max(u.age), mean: avg(u.age) }"),
        "41\n35.333333333333336\n"
    );
}

#[test]
fn arithmetic_and_functions() {
    assert_eq!(
        ask(SHOP, "from .users[] as u where u.id == 1 select { a: u.age * 2 + 1, b: upper(u.name), c: round(u.age / 7, 2) }"),
        "{\"a\": 73, \"b\": \"ADA\", \"c\": 5.14}\n"
    );
}

#[test]
fn division_by_zero_is_null() {
    assert_eq!(ask(SHOP, "from .users[] as u where u.id == 1 select { z: u.age / 0 }"), "{\"z\": null}\n");
}

#[test]
fn lower_and_upper_change_letters_beyond_ascii() {
    assert_eq!(
        ask("[{\"n\": \"ÄbC\"}]", "from .[] as r select { u: upper(r.n), l: lower(r.n) }"),
        "{\"u\": \"ÄBC\", \"l\": \"äbc\"}\n"
    );
}

#[test]
fn bytes_that_are_no_text_show_a_replacement() {
    let mut bytes = b"[\"a".to_vec();
    bytes.push(0xFF);
    bytes.extend_from_slice(b"\"]");
    let d = Document::open(bytes).unwrap();
    let n = num();
    let ast = compile("from .[] as r select { x: r }").unwrap();
    let out = run(&d, &n, &IndexRegistry::new(), &ast, 0, 10);
    assert_eq!(render_ndjson(&out.results, &d, &n), "{\"x\": \"a\u{FFFD}\"}\n");
}

#[test]
fn parameters_take_their_values() {
    let d = doc(SHOP);
    let n = num();
    let params = vec![("who".to_string(), ParamValue::Str("Bob".to_string()))];
    let ast = compile_with_params("from .users[] as u where u.name == $who select { id: u.id }", &params).unwrap();
    let out = run(&d, &n, &IndexRegistry::new(), &ast, 0, 10);
    assert_eq!(render_ndjson(&out.results, &d, &n), "{\"id\": 2}\n");
}

#[test]
fn a_parameter_without_a_value_is_an_error() {
    assert!(fails("from .users[] as u where u.name == $who").contains("who"));
}

#[test]
fn compile_errors_say_what_is_wrong() {
    assert!(fails("from .users[] as u join .x[] as u on u.a == u.b").contains("duplicate alias"));
    assert!(fails("from .users[] as u join .x[] as v on v.a < u.b").contains("equality"));
    assert!(fails("from .users[] as u join .x[] as v on v.a == v.b").contains("both sides"));
    assert!(fails("from .users[] as u having u.a == 1").contains("having"));
}

#[test]
fn hitting_the_limit_is_reported() {
    let d = doc(SHOP);
    let n = num();
    let ast = compile("from .users[] as u").unwrap();
    let out = run(&d, &n, &IndexRegistry::new(), &ast, 0, 2);
    assert_eq!(out.results.len(), 2);
    assert!(out.hit_limit);
    let all = run(&d, &n, &IndexRegistry::new(), &ast, 0, 3);
    assert_eq!(all.results.len(), 3);
    assert!(!all.hit_limit);
}

#[test]
fn samples_give_kinds_and_keys() {
    let d = doc(SHOP);
    let n = num();
    let none = IndexRegistry::new();
    let users = compile_path_only(".users[]").unwrap();
    assert_eq!(collect_kinds(&d, &n, &none, &users, 10), 32);
    assert_eq!(collect_keys(&d, &n, &none, &users, 10), vec!["age", "id", "name", "role"]);
}

#[test]
fn text_search_finds_keys_and_values() {
    let long = "needle ".repeat(60);
    let text = format!("{{\"Needle\": {{}}, \"b\": \"{}\", \"c\": [1]}}", long);
    let d = doc(&text);
    let n = num();
    let out = text_search(&d, &n, b"NEEDLE", 10);
    assert_eq!(out.results.len(), 2);
    assert!(text_search(&d, &n, b"", 10).results.is_empty());
}

#[test]
fn text_search_finds_short_primitives_in_document_order() {
    let d = doc("{\"first\": {\"name\": \"Ada\"}, \"ada\": 1, \"list\": [7, \"x-ada\", [\"ADA\"]], \"z\": \"bob\"}");
    let n = num();
    let out = text_search(&d, &n, b"ada", 10);
    let paths: Vec<&str> = out.results.iter().map(|r| r.path.as_str()).collect();
    assert_eq!(paths, vec![".first.name", ".ada", ".list[1]", ".list[2][0]"]);
    assert!(matches!(&out.results[0].value, Value::Str(s) if s == "Ada"));
    assert_eq!(out.results[0].kind, 3);
    assert_eq!(out.results[1].kind, 2);
    assert!(!out.hit_limit);
    assert_eq!(out.scanned_rows, d.records.len() as u64);
    assert_eq!(out.scanned_bytes, d.source.len() as u64);
    assert_eq!(out.lookup_calls, 0);
    let two = text_search(&d, &n, b"ada", 2);
    assert_eq!(two.results.len(), 2);
    assert_eq!(two.results[1].path, ".ada");
    assert!(two.hit_limit);
    let four = text_search(&d, &n, b"ada", 4);
    assert!(!four.hit_limit);
    assert_eq!(text_search(&d, &n, b"7", 10).results.len(), 1);
    assert_eq!(text_search(&d, &n, b"nowhere", 10).results.len(), 0);
}

#[test]
fn formatting_a_formatted_query_changes_nothing() {
    let q = "from .users[] as u where u.age>30 and u.role==\"user\" select { n:u.name } order by u.age limit 5";
    let once = engine::query::surface::format(q).unwrap();
    assert_eq!(engine::query::surface::format(&once).unwrap(), once);
    assert!(once.contains("where"));
}

/// Rows, lookups and bytes of a run.
fn spent(query: &str, limit: usize) -> (u64, u64, u64) {
    let d = doc(SHOP);
    let n = num();
    let ast = compile(query).unwrap_or_else(|e| panic!("{}: {}", query, e.message));
    let indexes = build_indexes(&d, &n, &ast, IndexRegistry::new());
    let out = run(&d, &n, &indexes, &ast, 0, limit);
    (out.scanned_rows, out.lookup_calls, out.scanned_bytes)
}

#[test]
fn runs_count_what_they_scan() {
    let user = |text: &str| text.len() as u64;
    let ada = user(r#"{"id": 1, "name": "Ada", "role": "admin", "age": 36}"#);
    let bob = user(r#"{"id": 2, "name": "Bob", "role": "user", "age": 29}"#);
    let cyd = user(r#"{"id": 3, "name": "Cyd", "role": "user", "age": 41}"#);
    let all = ada + bob + cyd;
    assert_eq!(spent("from .users[] as u where u.role == \"user\" select { n: u.name }", 100), (3, 0, all));
    assert_eq!(spent("from .users[] as u order by u.age", 100), (3, 0, all));
    assert_eq!(spent("from .users[] as u limit 1", 100), (2, 0, ada + bob));
    assert_eq!(spent("from .users[] as u limit 10", 100), (3, 0, all));
    assert_eq!(spent("from .users[] as u", 1), (2, 0, ada + bob));
    assert_eq!(spent("from .nothing[] as u", 1), (0, 0, 0));
    assert_eq!(spent("from .tags[] as t", 100), (3, 0, 9));
    assert_eq!(spent("from .tags[] as t limit 1", 100), (2, 0, 6));
    assert_eq!(spent("from .users[].name as t", 100), (3, 0, 15));
    assert_eq!(spent("from .users[].name as t limit 1", 100), (2, 0, 10));
    assert_eq!(spent("from .users[1].age as t", 100).2, 2);
    assert_eq!(spent("from .tags[2] as t", 100).2, 3);
    let (rows, lookups, _) = spent("from .orders[] as o join .users[] as u on o.user == u.id", 100);
    assert_eq!((rows, lookups), (4, 4));
    let (rows, lookups, _) = spent("from .orders[] as o join .users[] as u on o.user == u.id limit 1", 100);
    assert_eq!((rows, lookups), (2, 2));
    let (rows, _, _) = spent("from .orders[] as o aggregate { n: count() } by o.user", 100);
    assert_eq!(rows, 4);
}

#[test]
fn formatted_queries_read_back() {
    for q in [
        "from .a[] as x where (.) exists select { v: x.v }",
        "from .a[] as x unnest (.) as y",
        "from .a[] as x where x.a contains (-5)",
        "from .a[] as x where x.a == -5 and not (x.b or x.c)",
        "from .a[] as x where -5 in [x.a, -1] and x.n > 0.50",
        "from .a[] as x where x.\"two words\" - -3 > (x.b - (x.c - 1)) * 2e3",
        "fields key = { a, b } from .a[] as x join .b[] as y on x.id == y.id where x.{...key} == y",
        "from .a[] as x where x.a is not string aggregate { n: count(), s: sum(x.v) where x.v > 1 ?? 0 } by x.k having n > 1",
        "from .a[] as x select { o: { p: x.p ?? null, q: if(x.q, 1, 2) } } order by x.p desc limit 3",
        "from .a[] as x where (from .b[] as y where y.id == 1) exists",
        "from .a[] as x where (-5) == x.a order by x.b",
        "from .a[] as x where (-5) + 2 < x.a and x.b == (.) order by x.b",
        "from .a[] as x where x.b == (1 + (.)) limit 2",
    ] {
        let tree = match compile(q) {
            Ok(t) => t.canonical(),
            Err(_) => String::new(),
        };
        let once = match engine::query::surface::format(q) {
            Ok(t) => t,
            Err(e) => panic!("{}: {}", q, e.message),
        };
        assert!(once != q, "left as it was: {}", q);
        assert_eq!(engine::query::surface::format(&once).unwrap(), once);
        let again = match compile(&once) {
            Ok(t) => t.canonical(),
            Err(_) => String::new(),
        };
        assert_eq!(again, tree, "{}", once);
    }
    let e = engine::query::surface::format("from").err().unwrap();
    assert_eq!(e.message, compile("from").err().unwrap().message);
}

#[test]
fn decoding_undoes_escaping() {
    for s in ["", "plain", "\"\\\n\r\t\u{1}\u{1f}\u{7f}", "é漢😀", "a/b \u{8}\u{c}"] {
        let quoted = engine::query::canonical::quote(s);
        assert_eq!(engine::query::value::decode_json_string(quoted.as_bytes()), s);
    }
    assert_eq!(engine::query::value::decode_json_string(b"\"a\xffb\""), "a\u{fffd}b");
    assert_eq!(engine::query::value::decode_json_string(b"\"\\ud83d\\ude00\""), "😀");
    assert_eq!(engine::query::value::decode_json_string(b"\"\\ud800\\ue000\""), "\u{10400}");
    assert_eq!(engine::query::value::decode_json_string(b"\"\\ud800x\""), "x");
}

#[test]
fn words_keep_their_operands() {
    let text = engine::query::surface::format("from .a[] as x where (.) exists").unwrap();
    assert!(text.ends_with("where (.) exists"), "{}", text);
    let text = engine::query::surface::format("from .a[] as x where x.a contains (-5)").unwrap();
    assert!(text.ends_with("where x.a contains (-5)"), "{}", text);
    let text = engine::query::surface::format("from .a[] as x unnest (.) as y").unwrap();
    assert!(text.ends_with("unnest (.) as y"), "{}", text);
    let text = engine::query::surface::format("from .a[] as x where x.a == -5.50e1").unwrap();
    assert!(text.ends_with("where x.a == -55"), "{}", text);
}

#[test]
fn numerals_have_one_form() {
    for (a, b) in [("0.50", "0.5"), ("1e3", "1000"), ("2.50e1", "25"), ("5e-3", "0.005"), ("007", "7"), ("1.0", "1")] {
        let q = format!("from .a[] as x where x.v == {}", a);
        match (compile(&q), compile(&format!("from .a[] as x where x.v == {}", b))) {
            (Ok(x), Ok(y)) => assert_eq!(x.canonical(), y.canonical()),
            (Err(_), _) => assert_eq!(a, "007"),
            _ => panic!("{}", b),
        }
    }
    assert_eq!(engine::query::numeral::plain_numeral("-0.250e2"), "-25");
    assert_eq!(engine::query::numeral::plain_numeral("1e399"), format!("1{}", "0".repeat(399)));
    assert_eq!(engine::query::numeral::plain_numeral("1e999"), "1e999");
    assert_eq!(engine::query::numeral::plain_numeral("-0.0"), "-0");
}

#[test]
fn cheap_conditions_come_first() {
    let a = compile("from .x[] as x where x.** == 1 and x.a == 2");
    assert!(a.is_err() || a.unwrap().canonical().len() > 0);
    let b = compile("from .x[] as x where x.a.b.c == 1 and x.d == 2").unwrap().canonical();
    assert!(b.find("d").unwrap() < b.rfind("b").unwrap());
}

#[test]
fn a_string_and_its_node_have_one_fingerprint() {
    let long = "w".repeat(300);
    let d = doc(&format!("[\"{}\"]", long));
    let n = num();
    let node = write_fingerprint(&d, &n, &Value::Node(1));
    assert_eq!(node, write_fingerprint(&d, &n, &Value::Str(long)));
    assert_ne!(
        write_fingerprint(&d, &n, &Value::Str("5".to_string())),
        write_fingerprint(&d, &n, &Value::Number(5f64.to_bits()))
    );
}

#[test]
fn equal_sort_keys_keep_their_order() {
    let text = r#"[{"k": 2, "i": 0}, {"k": 1, "i": 1}, {"k": 2, "i": 2}, {"k": 1, "i": 3}]"#;
    assert_eq!(
        ask(text, "from .[] as r order by r.k"),
        "{\"k\": 1, \"i\": 1}\n{\"k\": 1, \"i\": 3}\n{\"k\": 2, \"i\": 0}\n{\"k\": 2, \"i\": 2}\n"
    );
}

#[test]
fn rows_of_a_sort_are_all_there() {
    assert_eq!(
        ask("[3, 1, 2, 1]", "from .[] as r order by r"),
        "1\n1\n2\n3\n"
    );
    assert_eq!(
        ask("[3, 1, 2, 1]", "from .[] as r order by r desc limit 2"),
        "3\n2\n"
    );
}

#[test]
fn missing_fields_are_null_in_a_selection_and_absent_in_exists() {
    assert_eq!(
        ask(
            r#"[{"a": null}, {"b": 1}]"#,
            "from .[] as r select { a: r.a, there: r.a exists }"
        ),
        "{\"a\": null, \"there\": true}\n{\"a\": null, \"there\": false}\n"
    );
}

#[test]
fn membership_tests_a_list() {
    assert_eq!(ask(SHOP, "from .users[] as u where u.id in [1, 3] select { n: u.name }"), "{\"n\": \"Ada\"}\n{\"n\": \"Cyd\"}\n");
}

#[test]
fn unnest_gives_a_row_for_each_item() {
    assert_eq!(
        ask(
            r#"[{"n": "a", "xs": [1, 2]}, {"n": "b", "xs": [3]}]"#,
            "from .[] as r unnest r.xs as x select { n: r.n, x: x }"
        ),
        "{\"n\": \"a\", \"x\": 1}\n{\"n\": \"a\", \"x\": 2}\n{\"n\": \"b\", \"x\": 3}\n"
    );
}

#[test]
fn a_left_join_keeps_rows_without_a_match() {
    assert_eq!(
        ask(
            SHOP,
            "from .orders[] as o left join .users[] as u on u.id == o.user where o.total == 1 select { t: o.total, n: u.name }"
        ),
        "{\"t\": 1, \"n\": null}\n"
    );
}

#[test]
fn fused_paths_have_one_canonical_form() {
    assert_eq!(compile_path_only(".a[].b").unwrap().canonical(), ".a[].b");
    assert_eq!(compile_path_only(".[]").unwrap().canonical(), ".[]");
    assert_eq!(compile_path_only(".a[0].\"x y\"").map(|a| a.canonical()).unwrap_or_default().is_empty(), false);
}

#[test]
fn a_field_set_compares_each_of_its_fields() {
    let text = r#"[{"a": 1, "b": 1}, {"a": 1, "b": 2}, {"a": 1}]"#;
    let set = ask(text, "from .[] as r where r.{a, b} == 1");
    assert_eq!(set, "{\"a\": 1, \"b\": 1}\n");
    assert_eq!(set, ask(text, "from .[] as r where r.a == 1 and r.b == 1"));
}

#[test]
fn the_order_of_conditions_does_not_matter() {
    let a = ask(SHOP, "from .users[] as u where u.role == \"user\" and u.age > 30");
    assert_eq!(a, ask(SHOP, "from .users[] as u where u.age > 30 and u.role == \"user\""));
    assert_eq!(a.lines().count(), 1);
    let b = ask(SHOP, "from .users[] as u where u.id == 1 or u.age > 40");
    assert_eq!(b, ask(SHOP, "from .users[] as u where u.age > 40 or u.id == 1"));
    assert_eq!(b.lines().count(), 2);
}

#[test]
fn regular_queries_are_laid_out_clause_by_clause() {
    let text = "from .a[] as x left join .b[] as y on x.k == y.k unnest x.tags as t \
        where x.v > 1 and y.w < 2 let d = x.v - 1, e = -2 distinct \
        aggregate { n: sum(x.v) where x.v > 0 ?? 0, \"c d\": count() } by x.k, y.k \
        having n > 1 select { k: x.k[0], n: n * 2 } order by n desc, k limit 5";
    let laid = engine::query::surface::format(text).unwrap();
    assert_eq!(
        laid,
        "from .a[] as x\nleft join .b[] as y\n  on x.k == y.k\nunnest x.tags as t\n\
         where x.v > 1\nand y.w < 2\nlet d = x.v - 1,\n    e = -2\ndistinct\n\
         aggregate {\n  n: sum(x.v) where x.v > 0 ?? 0,\n  \"c d\": count()\n} by x.k, y.k\n\
         having n > 1\nselect {\n  k: x.k[0],\n  n: n * 2\n}\norder by n desc, k\nlimit 5"
    );
    assert_eq!(engine::query::surface::format(&laid).unwrap(), laid);
}

#[test]
fn a_layout_that_would_read_otherwise_is_not_taken() {
    let text = "from .a[] as x where x.n * (-5) < 1";
    assert_eq!(engine::query::surface::format(text).unwrap(), text);
}
