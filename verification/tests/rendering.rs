use engine::document::Document;
use engine::query::evaluator::render::QueryResult;
use engine::query::number::{FloatFns, NumOp, Numbers};
use engine::query::value::Value;
use engine::render::{
    kind_label, render_csv, render_json_array, render_ndjson, render_table, render_tsv,
};

fn number_text(n: u64) -> String {
    let x = f64::from_bits(n);
    if x.is_nan() {
        "NaN".to_string()
    } else if x.is_infinite() {
        if x > 0.0 { "Infinity".to_string() } else { "-Infinity".to_string() }
    } else if x == x.trunc() && x.abs() < 1e16 {
        format!("{}", x as i64)
    } else {
        format!("{}", x)
    }
}

fn number_op(op: NumOp, a: u64, b: u64) -> u64 {
    let x = f64::from_bits(a);
    let y = f64::from_bits(b);
    let r = match op {
        NumOp::Add => x + y,
        NumOp::Sub => x - y,
        NumOp::Mul => x * y,
        NumOp::Div => x / y,
        NumOp::Neg => -x,
        NumOp::OfInt => a as f64,
        NumOp::Round => {
            let factor = 10f64.powi((y.round() as i32).clamp(-308, 308));
            (x * factor).round() / factor
        }
        NumOp::Abs => x.abs(),
        NumOp::Floor => x.floor(),
        NumOp::Ceil => x.ceil(),
        NumOp::Sqrt => x.sqrt(),
        NumOp::Pow => x.powf(y),
        NumOp::Mod => if y == 0.0 { f64::NAN } else { x % y },
    };
    r.to_bits()
}

fn number_of_text(b: &[u8]) -> Option<u64> {
    match std::str::from_utf8(b) {
        Ok(s) => match s.parse::<f64>() {
            Ok(x) => Some(x.to_bits()),
            Err(_) => None,
        },
        Err(_) => None,
    }
}

fn num() -> impl Numbers {
    FloatFns { parse: number_of_text, arith: number_op, write: number_text }
}

fn number(x: f64) -> Value {
    Value::Number(x.to_bits())
}

fn r(path: &str, value: Value) -> QueryResult {
    let kind: u8 = match &value {
        Value::Null | Value::Group { n: None, .. } => 0,
        Value::Bool(_) => 1,
        Value::Number(_) | Value::Group { n: Some(_), .. } => 2,
        Value::Str(_) => 3,
        Value::GroupList { .. } | Value::Array(_) => 4,
        Value::Object(_) | Value::BucketRow(_) | Value::NamedValue { .. } => 5,
        Value::Node(_) => panic!("no node rows here"),
    };
    QueryResult { kind, path: path.to_string(), value }
}

fn dummy_doc() -> Document {
    Document::open(b"{}".to_vec()).unwrap()
}

#[test]
fn ndjson_one_per_line() {
    let doc = dummy_doc();
    let rows = vec![r(".a", number(1.0)), r(".b", number(2.0)), r(".c", number(3.0))];
    assert_eq!(render_ndjson(&rows, &doc, &num()), "1\n2\n3\n");
}

#[test]
fn ndjson_renders_synthetic_object_as_json() {
    let doc = dummy_doc();
    let rows = vec![r(
        "(synthetic) { 2 keys }",
        Value::Object(vec![
            ("name".to_string(), Value::Str("Ada".to_string())),
            ("age".to_string(), number(36.0)),
        ]),
    )];
    assert_eq!(render_ndjson(&rows, &doc, &num()), "{\"name\": \"Ada\", \"age\": 36}\n");
}

#[test]
fn json_array_uses_two_space_indent() {
    let doc = dummy_doc();
    let rows = vec![r(".a", number(1.0)), r(".b", number(2.0))];
    assert_eq!(render_json_array(&rows, &doc, &num()), "[\n  1,\n  2\n]\n");
}

#[test]
fn csv_quotes_only_when_needed() {
    let doc = dummy_doc();
    let rows = vec![
        r("plain", Value::Str("value".to_string())),
        r("has,comma", Value::Str("has\"quote".to_string())),
        r("nl", Value::Str("two\nlines".to_string())),
    ];
    let out = render_csv(&rows, &doc, &num());
    assert!(out.starts_with("path,type,preview\n"));
    assert!(out.contains("plain,string,\"\"\"value\"\"\""));
    assert!(out.contains("\"has,comma\""));
}

#[test]
fn tsv_replaces_special_chars_with_spaces() {
    let doc = dummy_doc();
    let rows = vec![r("a\tb", Value::Str("x\ny".to_string()))];
    let out = render_tsv(&rows, &doc, &num());
    assert!(out.contains("a b\tstring"));
}

#[test]
fn table_unicode_columns_line_up() {
    let doc = dummy_doc();
    let rows = vec![r(".x", number(1.0)), r(".longerpath", number(42.0))];
    let out = render_table(&rows, &doc, &num(), false, 40, 100);
    let widths: std::collections::HashSet<usize> =
        out.lines().map(|l| l.chars().count()).collect();
    assert_eq!(widths.len(), 1, "uneven row widths in:\n{}", out);
    assert!(out.contains("┌") && out.contains("│"));
}

#[test]
fn table_ascii_avoids_box_drawing() {
    let doc = dummy_doc();
    let rows = vec![r(".x", number(1.0))];
    let out = render_table(&rows, &doc, &num(), true, 40, 100);
    assert!(out.contains("+") && out.contains("|"));
    assert!(!out.contains("│"));
}

#[test]
fn an_empty_result_renders_as_an_empty_list() {
    let doc = dummy_doc();
    assert_eq!(render_json_array(&[], &doc, &num()), "[\n\n]\n");
    assert_eq!(render_ndjson(&[], &doc, &num()), "");
    assert_eq!(render_csv(&[], &doc, &num()), "path,type,preview\n");
    assert_eq!(render_tsv(&[], &doc, &num()), "path\ttype\tpreview\n");
}

#[test]
fn kinds_have_labels() {
    assert_eq!(kind_label(0), "null");
    assert_eq!(kind_label(1), "bool");
    assert_eq!(kind_label(2), "number");
    assert_eq!(kind_label(3), "string");
    assert_eq!(kind_label(4), "array");
    assert_eq!(kind_label(5), "object");
}
