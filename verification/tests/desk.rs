use engine::cli::{fmt_int, parse_param_value, parse_params};
use engine::document::Document;
use engine::projection::parse_top_level_object;
use engine::query::index::IndexRegistry;
use engine::query::number::{FloatFns, NumOp, Numbers};
use engine::query::surface::ParamValue;
use engine::session::{
    engine_completion_context, engine_format_query, engine_keys_for_query, engine_kinds_for_query,
    engine_query_create_index, engine_query_results_at, engine_query_run,
    engine_query_run_and_render, engine_query_text_search, engine_tokenize, query_schema,
};
use engine::table::{build_table, run_query, RowDto};

fn number_text(n: u64) -> String {
    let x = f64::from_bits(n);
    if x.is_nan() {
        "NaN".to_string()
    } else if x.is_infinite() {
        if x > 0.0 { "Infinity".to_string() } else { "-Infinity".to_string() }
    } else if x == x.trunc() && x.abs() < 1e16 {
        format!("{}", x as i64)
    } else {
        format!("{}", x)
    }
}

fn number_op(op: NumOp, a: u64, b: u64) -> u64 {
    let x = f64::from_bits(a);
    let y = f64::from_bits(b);
    let r = match op {
        NumOp::Add => x + y,
        NumOp::Sub => x - y,
        NumOp::Mul => x * y,
        NumOp::Div => x / y,
        NumOp::Neg => -x,
        NumOp::OfInt => a as f64,
        NumOp::Round => {
            let factor = 10f64.powi((y.round() as i32).clamp(-308, 308));
            (x * factor).round() / factor
        }
        NumOp::Abs => x.abs(),
        NumOp::Floor => x.floor(),
        NumOp::Ceil => x.ceil(),
        NumOp::Sqrt => x.sqrt(),
        NumOp::Pow => x.powf(y),
        NumOp::Mod => if y == 0.0 { f64::NAN } else { x % y },
    };
    r.to_bits()
}

fn number_of_text(b: &[u8]) -> Option<u64> {
    match std::str::from_utf8(b) {
        Ok(s) => match s.parse::<f64>() {
            Ok(x) => Some(x.to_bits()),
            Err(_) => None,
        },
        Err(_) => None,
    }
}

fn num() -> impl Numbers {
    FloatFns { parse: number_of_text, arith: number_op, write: number_text }
}

const SHOP: &str = r#"{"users": [{"id": 1, "name": "Ada"}, {"id": 2, "name": "Bob"}], "orders": [{"user": 2}, {"user": 1}]}"#;

fn doc(text: &str) -> Document {
    Document::open(text.as_bytes().to_vec()).unwrap()
}

#[test]
fn a_run_shows_previews_and_texts() {
    let d = doc(SHOP);
    let q = engine_query_run(&d, &num(), &IndexRegistry::new(), "from .users[] as u select { n: u.name }", 10)
        .unwrap()
        .unwrap();
    let v = engine_query_results_at(&q, 1).unwrap();
    assert_eq!(v.full_text, "{\"n\": \"Bob\"}");
    assert_eq!(v.node_id, u32::MAX);
    assert!(engine_query_results_at(&q, 2).is_none());
    let rows = engine_query_run(&d, &num(), &IndexRegistry::new(), "from .users[] as u", 10).unwrap().unwrap();
    let v = engine_query_results_at(&rows, 0).unwrap();
    assert_eq!(v.full_text, "");
    assert_eq!(v.path, ".users[0]");
    assert_eq!(v.kind, 5);
}

#[test]
fn a_query_that_does_not_compile_has_a_position() {
    let d = doc(SHOP);
    let e = engine_query_run(&d, &num(), &IndexRegistry::new(), "from", 10).unwrap_err();
    assert!(e.position >= 4);
    let mut none = IndexRegistry::new();
    let s = run_query(&d, &num(), &mut none, "from", 10).unwrap_err();
    assert_eq!(s, format!("parse error at position {}: {}", e.position, e.message));
}

#[test]
fn a_missing_index_is_built_and_the_query_run_again() {
    let d = doc(SHOP);
    let mut indexes = IndexRegistry::new();
    let text = "from .orders[] as o join .users[] as u on u.id == o.user select { name: u.name }";
    let first = engine_query_run(&d, &num(), &indexes, text, 10).unwrap().unwrap();
    assert!(first.missing_index.is_some());
    let run = run_query(&d, &num(), &mut indexes, text, 10).unwrap();
    assert_eq!(run.missing_index, None);
    assert_eq!(run.rows.len(), 2);
    assert_eq!(run.rows[0].full_text, "{\"name\": \"Bob\"}");
    assert_eq!(indexes.list().len(), 1);
}

#[test]
fn an_index_counts_its_rows() {
    let d = doc(SHOP);
    let mut indexes = IndexRegistry::new();
    let s = engine_query_create_index(&d, &num(), &mut indexes, ".users[]", ".id").unwrap();
    assert_eq!((s.source_count, s.indexed_count, s.bucket_count), (2, 2, 2));
    assert!(s.approx_bytes > 0);
    assert!(engine_query_create_index(&d, &num(), &mut indexes, "from", ".id").is_err());
    assert_eq!(indexes.list().len(), 1);
}

#[test]
fn a_run_renders_in_each_format() {
    let d = doc(SHOP);
    let none = IndexRegistry::new();
    let q = "from .users[] as u select { n: u.id }";
    let text = |f: u8| engine_query_run_and_render(&d, &num(), &none, q, 10, f).unwrap();
    assert_eq!(text(0).unwrap(), "{\"n\": 1}\n{\"n\": 2}\n");
    assert_eq!(text(1).unwrap(), "[\n  {\"n\": 1},\n  {\"n\": 2}\n]\n");
    assert!(text(2).unwrap().starts_with("path,type,preview\n"));
    assert_eq!(text(9), None);
}

#[test]
fn schemas_are_sampled() {
    let d = doc(SHOP);
    let none = IndexRegistry::new();
    assert_eq!(engine_kinds_for_query(&d, &num(), &none, ".users[]", 5), 32);
    assert_eq!(engine_kinds_for_query(&d, &num(), &none, "from (", 5), 0);
    assert_eq!(
        engine_keys_for_query(&d, &num(), &none, ".users[]", 5),
        Some("[\"id\",\"name\"]".to_string())
    );
    assert_eq!(engine_keys_for_query(&d, &num(), &none, ".users[].id", 5), None);
    let s = query_schema(&d, &num(), &none, ".users", 5);
    assert_eq!(s.kinds, 16);
    assert!(s.keys.is_empty());
}

#[test]
fn a_search_needs_a_text() {
    let d = doc(SHOP);
    assert!(engine_query_text_search(&d, &num(), b"", 5).is_none());
    let q = engine_query_text_search(&d, &num(), b"users", 5).unwrap();
    assert_eq!(q.results.len(), 1);
}

#[test]
fn tokens_are_coloured() {
    let out = engine_tokenize("from .a");
    assert!(out.starts_with("[{\"category\":\""));
    assert!(out.contains("\"offset\":0,\"length\":4"));
    assert!(out.ends_with("}]"));
    assert_eq!(engine_tokenize(""), "[]");
}

#[test]
fn completions_are_json() {
    assert_eq!(
        engine_completion_context(".users[].na", 11).unwrap(),
        "{\"mode\":\"fieldAccess\",\"partial\":\"na\",\"partialUtf16Length\":2,\"contextQuery\":\".users[]\"}"
    );
    assert_eq!(engine_completion_context("limit 4", 7), None);
}

#[test]
fn queries_are_formatted() {
    assert!(engine_format_query("from .a as a limit 1").unwrap().contains("limit 1"));
    assert!(engine_format_query("from").is_err());
}

#[test]
fn objects_are_read_one_level_deep() {
    let cells = parse_top_level_object(
        br#" {"a": 1, "bA": "x\"y", "c": [1, [2, 3], {}], "d": {"e": {}}, "f": null, "g": true}"#,
    )
    .unwrap();
    let keys: Vec<&str> = cells.iter().map(|c| c.0.as_str()).collect();
    assert_eq!(keys, vec!["a", "bA", "c", "d", "f", "g"]);
    assert_eq!(cells[0].1.text.as_deref(), Some("1"));
    assert_eq!(cells[1].1.text.as_deref(), Some("\"x\\\"y\""));
    assert_eq!(cells[2].1.count, Some(3));
    assert_eq!(cells[3].1.count, Some(1));
    assert_eq!(cells[4].1.kind, 0);
    assert_eq!(cells[5].1.kind, 1);
    assert_eq!(parse_top_level_object(b"{}").unwrap().len(), 0);
    assert!(parse_top_level_object(b"[1]").is_none());
    assert!(parse_top_level_object(b"{\"a\" 1}").is_none());
    assert!(parse_top_level_object(b"{\"a\": [1}").is_none());
}

fn made_up(text: &str) -> RowDto {
    RowDto {
        node_id: None,
        kind: 5,
        path: "(synthetic) { 2 keys }".to_string(),
        preview: String::new(),
        full_text: text.to_string(),
        child_count: 0,
    }
}

#[test]
fn columns_are_ranked_by_frequency() {
    let d = doc("{}");
    let rows = vec![
        made_up("{\"x\": 1, \"y\": 2}"),
        made_up("{\"y\": 3, \"z\": 4}"),
        made_up("{\"y\": 5, \"x\": 6, \"x\": 7}"),
    ];
    let t = build_table(&d, &rows);
    assert_eq!(t.columns, vec!["x", "y", "z"]);
    assert!(t.is_tabular);
    assert_eq!(t.rows[1].label, "[1]");
    assert_eq!(t.rows[2].cells.len(), 2);
    assert_eq!(t.rows[2].cells[1].1.text.as_deref(), Some("7"));
    let none = build_table(&d, &vec![]);
    assert!(none.columns.is_empty() && !none.is_tabular);
}

#[test]
fn document_rows_make_tables() {
    let d = doc(SHOP);
    let mut none = IndexRegistry::new();
    let run = run_query(&d, &num(), &mut none, "from .users[] as u", 10).unwrap();
    assert_eq!(run.table.columns, vec!["id", "name"]);
    assert!(run.table.is_tabular);
    assert_eq!(run.table.rows[0].label, ".users[0]");
    assert_eq!(run.rows[0].child_count, 2);
    assert_eq!(run.table.rows[1].cells[1].1.text.as_deref(), Some("\"Bob\""));
}

fn shown(v: &ParamValue) -> String {
    match v {
        ParamValue::Number(t) => format!("n {}", t),
        ParamValue::Str(s) => format!("s {}", s),
        ParamValue::Bool(b) => format!("b {}", b),
        ParamValue::Null => "null".to_string(),
    }
}

#[test]
fn parameters_are_read_as_scalars() {
    let v = |s: &str| shown(&parse_param_value(s));
    assert_eq!(v(" true "), "b true");
    assert_eq!(v("null"), "null");
    assert_eq!(v(" 1.5"), "n 1.5");
    assert_eq!(v("\"1\""), "s 1");
    assert_eq!(v(" plain "), "s  plain ");
    assert_eq!(v("\""), "s \"");
}

#[test]
fn parameters_have_names() {
    let raw = vec!["a=1".to_string(), "b=x=y".to_string(), "a=2".to_string()];
    let p = parse_params(&raw).unwrap();
    assert_eq!(p.len(), 2);
    assert_eq!(p[0].0, "a");
    assert_eq!(shown(&p[0].1), "n 2");
    assert_eq!(shown(&p[1].1), "s x=y");
    assert_eq!(
        parse_params(&vec!["oops".to_string()]).unwrap_err(),
        "--param expects NAME=VALUE, got `oops`"
    );
    assert_eq!(
        parse_params(&vec!["=1".to_string()]).unwrap_err(),
        "--param has an empty name: `=1`"
    );
}

#[test]
fn integers_are_grouped() {
    assert_eq!(fmt_int(0), "0");
    assert_eq!(fmt_int(999), "999");
    assert_eq!(fmt_int(1234567), "1,234,567");
}
