use engine::browse::{ancestors, node_detail, Pager};
use engine::children::{engine_node_children_kind_counts, engine_node_children_meta_batch};
use engine::document::{Document, NodeKind, NULL_NODE};
use engine::error::EngineError;
use engine::node::{
    engine_decode_json_string, engine_file_size, engine_node_array_index, engine_node_child_count,
    engine_node_key, engine_node_parent, engine_node_path, engine_node_value_bytes_at, engine_root,
    engine_total_node_count,
};
use engine::opening::{
    keys_tmp_name, open_document, pages_to_drop, parse_streaming_tmp_pid, records_tmp_name,
    streaming_stem, sweep_of, Sweep,
};
use engine::path::{compute_child_path, compute_path, is_walkable};
use engine::progress::ParseProgress;
use engine::sidecar::{sidecar_path, try_load_sidecar, write_sidecar};
use engine::source_scan::decode_json_string_inner;

const TREE: &str = r#"{"a": [10, {"b": true}, "s"], "c d": {}, "e": null}"#;

fn doc(text: &str) -> Document {
    Document::open(text.as_bytes().to_vec()).unwrap()
}

#[test]
fn records_are_containers_in_order() {
    let d = doc(TREE);
    assert_eq!(engine_total_node_count(&d), 4);
    assert_eq!(engine_root(&d), 0);
    assert_eq!(engine_file_size(&d), TREE.len() as u64);
    assert_eq!(d.node_kind(0), NodeKind::Object);
    assert_eq!(d.node_kind(1), NodeKind::Array);
    assert_eq!(d.node_kind(2), NodeKind::Object);
    assert_eq!(d.node_kind(3), NodeKind::Object);
    assert_eq!(engine_node_child_count(&d, 0), 3);
    assert_eq!(engine_node_child_count(&d, 1), 3);
    assert_eq!(engine_node_parent(&d, 2), 1);
    assert_eq!(engine_node_parent(&d, 0), NULL_NODE);
    assert_eq!(engine_node_array_index(&d, 2), 1);
    assert_eq!(engine_node_key(&d, 3), Some(&b"c d"[..]));
    assert!(d.verify_subtree_invariants());
    assert!(is_walkable(&d));
}

#[test]
fn unknown_nodes_read_as_nothing() {
    let d = doc(TREE);
    assert_eq!(engine_node_child_count(&d, 99), 0);
    assert_eq!(engine_node_parent(&d, 99), NULL_NODE);
    assert_eq!(engine_node_key(&d, 99), None);
    assert_eq!(engine_node_value_bytes_at(&d, 0, 1000, true), None);
    assert_eq!(engine_node_value_bytes_at(&d, 0, 1, true), Some(&b"{"[..]));
}

#[test]
fn paths_lead_to_nodes() {
    let d = doc(TREE);
    assert_eq!(engine_node_path(&d, 0), b".".to_vec());
    assert_eq!(engine_node_path(&d, 1), b".a".to_vec());
    assert_eq!(engine_node_path(&d, 2), b".a[1]".to_vec());
    assert_eq!(engine_node_path(&d, 3), b".[\"c d\"]".to_vec());
}

#[test]
fn an_empty_file_and_broken_json_are_refused() {
    assert!(matches!(Document::open(Vec::new()), Err(EngineError::Empty)));
    match Document::open(b"{\"a\": }".to_vec()) {
        Err(EngineError::Parse { pos, .. }) => assert_eq!(pos, 6),
        _ => panic!("opens"),
    }
}

#[test]
fn children_interleave_records_and_primitives() {
    let d = doc(TREE);
    let rows = engine_node_children_meta_batch(&d, 1, 0, 10);
    assert_eq!(rows.len(), 3);
    assert_eq!(rows[0].id, NULL_NODE);
    assert_eq!(rows[0].kind, 2);
    assert_eq!(rows[1].id, 2);
    assert_eq!(rows[2].kind, 3);
    assert_eq!(rows[2].array_index, 2);
    let (counts, total) = engine_node_children_kind_counts(&d, 1);
    assert_eq!(total, 3);
    assert_eq!(counts, vec![0, 0, 1, 1, 0, 1]);
}

#[test]
fn pages_follow_each_other() {
    let text = format!("[{}]", (0..1000).map(|i| i.to_string()).collect::<Vec<_>>().join(","));
    let d = doc(&text);
    let mut pager = Pager::new();
    let first = pager.children(&d, 0, 0, 300);
    let second = pager.children(&d, 0, 300, 300);
    assert_eq!(first.len(), 300);
    assert_eq!(second[0].preview, "300");
    assert_eq!(second[299].index, Some(599));
    let jumped = pager.children(&d, 0, 990, 300);
    assert_eq!(jumped.len(), 10);
    assert_eq!(jumped[9].preview, "999");
    assert!(pager.children(&d, 0, 1000, 5).is_empty());
    assert!(pager.children(&d, 0, 5000, 5).is_empty());
    assert_eq!(pager.children(&d, 0, 1, 1)[0].preview, "1");
}

#[test]
fn tree_rows_show_keys_and_previews() {
    let d = doc(r#"{"kA": "v", "o": {"x": 1}}"#);
    let rows = Pager::new().children(&d, 0, 0, 10);
    assert_eq!(rows[0].key.as_deref(), Some("kA"));
    assert_eq!(rows[0].preview, "\"v\"");
    assert_eq!(rows[0].id, None);
    assert_eq!(rows[1].key.as_deref(), Some("o"));
    assert!(rows[1].is_container);
    assert_eq!(rows[1].child_count, 1);
    let long = format!("[\"{}\"]", "y".repeat(300));
    let d = doc(&long);
    let row = &Pager::new().children(&d, 0, 0, 1)[0];
    assert_eq!(row.preview.len(), 256);
    assert!(row.truncated);
}

#[test]
fn a_node_has_detail_and_ancestors() {
    let d = doc(TREE);
    let x = node_detail(&d, 2);
    assert_eq!(x.path, ".a[1]");
    assert_eq!(x.array_index, Some(1));
    assert!(x.is_container);
    assert_eq!(x.value, None);
    let up: Vec<(u32, String)> = ancestors(&d, 2).into_iter().map(|a| (a.id, a.label)).collect();
    assert_eq!(up, vec![(0, "$".to_string()), (1, "a".to_string()), (2, "[1]".to_string())]);
}

#[test]
fn strings_decode() {
    assert_eq!(decode_json_string_inner(b"a\\nb"), Some(b"a\nb".to_vec()));
    assert_eq!(engine_decode_json_string(b"\\u00e9"), Some("é".as_bytes().to_vec()));
    assert_eq!(engine_decode_json_string(b"\\q"), None);
}

#[test]
fn a_written_cache_is_read_back() {
    let d = doc(TREE);
    let image = write_sidecar(TREE.len() as u64, 7, d.records(), d.keys());
    let loaded = try_load_sidecar(&image, TREE.len() as u64, 7).unwrap();
    assert_eq!(loaded.records(&image), d.records().to_vec());
    assert_eq!(loaded.keys(&image), d.keys().to_vec());
}

#[test]
fn each_fault_of_a_cache_has_its_message() {
    let d = doc(TREE);
    let size = TREE.len() as u64;
    let image = write_sidecar(size, 7, d.records(), d.keys());
    let fault = |b: &[u8], s: u64, t: u64| match try_load_sidecar(b, s, t) {
        Err(EngineError::Io(m)) => m,
        _ => panic!("loads"),
    };
    assert_eq!(fault(&image[..10], size, 7), "sidecar truncated (header)");
    let mut bad = image.clone();
    bad[0] = 0;
    assert_eq!(fault(&bad, size, 7), "sidecar: bad magic");
    let mut old = image.clone();
    old[4] = 0;
    assert_eq!(fault(&old, size, 7), "sidecar: version mismatch");
    assert_eq!(fault(&image, size + 1, 7), "sidecar: source size mismatch");
    assert_eq!(fault(&image, size, 8), "sidecar: source mtime mismatch");
    assert_eq!(fault(&image[..100], size, 7), "sidecar: records beyond file");
}

#[test]
fn opening_again_uses_the_cache() {
    let mut p = ParseProgress::new();
    let first = open_document(TREE.as_bytes().to_vec(), 7, None, &mut p).unwrap();
    assert!(!first.document.loaded_from_sidecar());
    assert_eq!(p.current_progress(), (TREE.len() as u64, TREE.len() as u64));
    let cache = first.cache.unwrap();
    let again = open_document(TREE.as_bytes().to_vec(), 7, Some(&cache), &mut p).unwrap();
    assert!(again.document.loaded_from_sidecar());
    assert!(again.cache.is_none());
    assert_eq!(again.document.records(), first.document.records());
    assert_eq!(again.document.keys(), first.document.keys());
    let newer = open_document(TREE.as_bytes().to_vec(), 8, Some(&cache), &mut p).unwrap();
    assert!(!newer.document.loaded_from_sidecar());
    assert!(matches!(open_document(Vec::new(), 7, Some(&cache), &mut p), Err(EngineError::Empty)));
    assert!(open_document(b"[".to_vec(), 7, None, &mut p).is_err());
}

#[test]
fn temporary_names_carry_the_process() {
    let stem = streaming_stem(Some("00-x.jsonidx"), "/x", 42);
    assert_eq!(stem, "00-x.jsonidx.42");
    assert_eq!(records_tmp_name(&stem), "00-x.jsonidx.42.streaming.tmp");
    assert_eq!(keys_tmp_name(&stem), "00-x.jsonidx.42.keys.streaming.tmp");
    assert_eq!(parse_streaming_tmp_pid(&records_tmp_name(&stem)), Some(42));
    let bare = streaming_stem(None, "/x", 4294967295);
    assert!(bare.starts_with("bigjson-") && bare.ends_with("-4294967295"));
    assert_eq!(parse_streaming_tmp_pid(&records_tmp_name(&bare)), Some(4294967295));
    assert_eq!(parse_streaming_tmp_pid("a.4294967296.streaming.tmp"), None);
    assert_eq!(parse_streaming_tmp_pid("a.12"), None);
    assert_eq!(sweep_of("a.42.streaming.tmp", 42), Sweep::Keep);
    assert_eq!(sweep_of("a.43.streaming.tmp", 42), Sweep::RemoveUnlessAlive(43));
    assert_eq!(sweep_of("a.x.streaming.tmp", 42), Sweep::Remove);
    assert_eq!(sweep_of("a.json", 42), Sweep::Keep);
}

#[test]
fn files_of_live_processes_are_kept() {
    let stem = streaming_stem(Some("00-x.jsonidx"), "/x", 42);
    assert_eq!(parse_streaming_tmp_pid(&keys_tmp_name(&stem)), Some(42));
    assert_eq!(sweep_of(&keys_tmp_name(&stem), 42), Sweep::Keep);
    assert_eq!(sweep_of(&keys_tmp_name(&stem), 7), Sweep::RemoveUnlessAlive(42));
    assert_eq!(sweep_of(&records_tmp_name(&stem), 7), Sweep::RemoveUnlessAlive(42));
    assert_eq!(sweep_of("a.x.keys.streaming.tmp", 42), Sweep::Remove);
}

#[test]
fn pages_are_dropped_a_chunk_at_a_time() {
    assert_eq!(pages_to_drop(100, 0), None);
    assert_eq!(pages_to_drop(268435456 + 5, 0), Some((0, 268435456)));
    assert_eq!(pages_to_drop(268435456, 4096), None);
}

#[test]
fn a_failed_parse_leaves_the_last_report() {
    for (text, parsed) in [("[[1], {\"a\": 2}, x]", 14), ("[1, 2", 0), ("[[1, [2], ", 8), ("{} x", 2), ("   ", 0)] {
        let mut p = ParseProgress::new();
        assert!(open_document(text.as_bytes().to_vec(), 0, None, &mut p).is_err());
        assert_eq!(p.current_progress(), (parsed, text.len() as u64), "{}", text);
    }
}

#[test]
fn child_paths_are_record_paths() {
    let d = doc(r#"{"a": [[1], "short", {"b c": [], "x": null}], "d": {"e": [2, [3], -1.5e3, true]}}"#);
    let mut paths: Vec<Vec<u8>> = Vec::new();
    for parent in 0..d.records.len() as u32 {
        let n = d.records[parent as usize].child_count;
        for slot in 0..n {
            paths.push(compute_child_path(&d, parent, slot).unwrap());
        }
        assert!(compute_child_path(&d, parent, n).is_none());
    }
    assert!(compute_child_path(&d, d.records.len() as u32, 0).is_none());
    for node in 1..d.records.len() as u32 {
        assert!(paths.contains(&compute_path(&d, node)));
    }
    assert!(paths.contains(&b".a[2].x".to_vec()));
    assert!(paths.contains(&b".d.e[2]".to_vec()));
}

#[test]
fn an_empty_directory_adds_no_slash() {
    let name = sidecar_path("", "/data/x.json", Some("x"));
    assert!(!name.contains('/'));
    assert!(name.ends_with("-x.jsonidx"));
    assert_eq!(sidecar_path("/", "/data/x.json", Some("x")), format!("/{}", name));
    assert_eq!(sidecar_path("d", "/data/x.json", Some("x")), format!("d/{}", name));
}

#[test]
fn cache_names_keep_plain_letters() {
    let p = sidecar_path("/idx", "/data/my file.json", Some("my file"));
    assert!(p.starts_with("/idx/") && p.ends_with(".jsonidx"));
    assert!(!p.contains(' '));
}
