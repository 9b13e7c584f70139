//! Stored blobs: framing, bounds and what is read back of what was written.

use serde_json::Value;

use code2graph::cache::codec::{
    decode_file_facts, decode_graph, encode, encode_file_facts, encode_graph, encode_subgraph,
    restore_subgraph, validate_json_limits, BoundedWriter, CACHE_BLOB_MAX_BYTES,
    CACHE_COLLECTION_MAX, CACHE_OWNER_MAX_BYTES, CACHE_STRING_MAX, CODE_GRAPH_SCHEMA_VERSION,
};
use code2graph::cache::types::CacheError;
use code2graph::graph::{
    ByteSpan, CodeGraph, Descriptor, FileFacts, FileSubgraph, Symbol, SymbolId, SymbolKind,
    Visibility,
};

fn facts() -> FileFacts {
    FileFacts {
        file: "src/a.rs".into(),
        lang: "rust".into(),
        symbols: Vec::new(),
        references: Vec::new(),
        scopes: Vec::new(),
        bindings: Vec::new(),
        ffi_exports: Vec::new(),
    }
}

fn text(value: &str) -> Value {
    Value::String(value.to_owned())
}

fn object(members: Vec<(&str, Value)>) -> Value {
    let mut map = serde_json::Map::new();
    for (key, value) in members {
        map.insert(key.to_owned(), value);
    }
    Value::Object(map)
}

/// Writes facts that hold a file and a language alone.
fn facts_json(facts: &FileFacts) -> Vec<u8> {
    let value = object(vec![("file", text(&facts.file)), ("lang", text(&facts.lang))]);
    serde_json::to_vec(&value).expect("JSON")
}

fn read_facts(value: &Value) -> Option<FileFacts> {
    Some(FileFacts {
        file: value.get("file")?.as_str()?.to_owned(),
        lang: value.get("lang")?.as_str()?.to_owned(),
        ..facts()
    })
}

fn id_json(id: &SymbolId) -> Value {
    match id {
        SymbolId::Global { language, descriptors, .. } => object(vec![
            ("language", text(language)),
            (
                "terms",
                Value::Array(
                    descriptors
                        .iter()
                        .map(|descriptor| match descriptor {
                            Descriptor::Term(name) => text(name),
                            _ => Value::Null,
                        })
                        .collect(),
                ),
            ),
        ]),
        SymbolId::Local { file, id } => object(vec![("file", text(file)), ("id", text(id))]),
    }
}

fn read_id(value: &Value) -> Option<SymbolId> {
    if let Some(file) = value.get("file") {
        return Some(SymbolId::local(file.as_str()?, value.get("id")?.as_str()?));
    }
    let mut descriptors = Vec::new();
    for term in value.get("terms")?.as_array()? {
        descriptors.push(Descriptor::Term(term.as_str()?.to_owned()));
    }
    Some(SymbolId::global(value.get("language")?.as_str()?, descriptors))
}

fn graph_json(graph: &CodeGraph) -> Vec<u8> {
    let symbols = graph
        .symbols
        .iter()
        .map(|symbol| {
            object(vec![("id", id_json(&symbol.id)), ("name", text(&symbol.name))])
        })
        .collect();
    let value =
        object(vec![("symbols", Value::Array(symbols)), ("edges", Value::Array(Vec::new()))]);
    serde_json::to_vec(&value).expect("JSON")
}

fn symbol(id: SymbolId, name: String) -> Symbol {
    Symbol {
        id,
        name,
        kind: SymbolKind::Function,
        visibility: Visibility::Public,
        entry_points: Vec::new(),
        file: "src/a.rs".into(),
        line: 7,
        span: ByteSpan { start: 2, end: 9 },
        signature: "fn run()".into(),
    }
}

fn read_graph(value: &Value) -> Option<CodeGraph> {
    let mut symbols = Vec::new();
    for row in value.get("symbols")?.as_array()? {
        symbols.push(symbol(read_id(row.get("id")?)?, row.get("name")?.as_str()?.to_owned()));
    }
    Some(CodeGraph { symbols, edges: Vec::new() })
}

fn read_subgraph(value: &Value) -> Option<FileSubgraph> {
    Some(FileSubgraph {
        owner: value.get("owner")?.as_str()?.to_owned(),
        encoded: serde_json::to_vec(value).ok()?,
    })
}

#[test]
fn facts_and_graph_round_trip_with_deterministic_bytes() {
    let facts = facts();
    let first = encode_file_facts(&facts_json(&facts)).expect("encode");
    let second = encode_file_facts(&facts_json(&facts)).expect("encode");
    assert_eq!(first, second);
    assert!(!String::from_utf8_lossy(&first).contains("\"source\""));
    let restored = decode_file_facts(&first, read_facts).expect("decode");
    assert_eq!(restored, facts);
    assert_eq!(encode_file_facts(&facts_json(&restored)).expect("encode"), first);

    let ids = [
        SymbolId::global("rust", vec![Descriptor::Term("run".into())]),
        SymbolId::local("src/a.rs", "scope:0:x"),
    ];
    let graph = CodeGraph {
        symbols: ids
            .iter()
            .enumerate()
            .map(|(index, id)| symbol(id.clone(), format!("symbol-{index}")))
            .collect(),
        edges: Vec::new(),
    };
    let encoded = encode_graph(&graph_json(&graph)).expect("encode graph");
    let restored = decode_graph(&encoded, read_graph).expect("decode graph");
    assert_eq!(
        restored.symbols.iter().map(|symbol| symbol.id.clone()).collect::<Vec<_>>(),
        ids
    );
    assert_eq!(encode_graph(&graph_json(&restored)).expect("re-encode graph"), encoded);
}

#[test]
fn rejects_oversize_malformed_and_wrong_subgraph_owner() {
    assert!(matches!(
        decode_graph(&vec![b'x'; CACHE_BLOB_MAX_BYTES + 1], read_graph),
        Err(CacheError::Oversize)
    ));
    assert!(matches!(decode_graph(b"not-json", read_graph), Err(CacheError::Malformed)));
    let mut oversized = facts();
    oversized.file = "x".repeat(CACHE_BLOB_MAX_BYTES);
    assert!(matches!(
        encode_file_facts(&facts_json(&oversized)),
        Err(CacheError::Oversize)
    ));

    let payload = serde_json::to_vec(&object(vec![("owner", text("src/a.rs"))])).expect("JSON");
    let blob = encode_subgraph(&payload).expect("encode");
    assert!(matches!(
        restore_subgraph(&blob, "src/b.rs", read_subgraph),
        Err(CacheError::InvalidSubgraph)
    ));
    assert!(matches!(
        restore_subgraph(&blob, &"x".repeat(CACHE_OWNER_MAX_BYTES + 1), read_subgraph),
        Err(CacheError::Limits)
    ));
    assert_eq!(
        restore_subgraph(&blob, "src/a.rs", read_subgraph),
        Ok(FileSubgraph { owner: "src/a.rs".into(), encoded: payload })
    );
}

#[test]
fn rejects_schema_string_and_collection_limit_attacks() {
    let wrong_schema =
        br#"{"format":"code-graph","schema":4294967295,"payload":{"symbols":[],"edges":[]}}"#;
    assert!(matches!(
        decode_graph(wrong_schema, read_graph),
        Err(CacheError::Incompatible)
    ));

    let long_string = "x".repeat(CACHE_STRING_MAX + 1);
    let blob = serde_json::to_vec(&object(vec![
        ("format", text("code-graph")),
        ("schema", Value::from(CODE_GRAPH_SCHEMA_VERSION)),
        (
            "payload",
            object(vec![
                ("symbols", Value::Array(Vec::new())),
                ("edges", Value::Array(Vec::new())),
                ("extra", text(&long_string)),
            ]),
        ),
    ]))
    .expect("JSON");
    assert!(matches!(decode_graph(&blob, read_graph), Err(CacheError::Limits)));

    let mut many = String::from("{\"format\":\"code-graph\",\"schema\":1,\"payload\":{");
    many.push_str("\"symbols\":[");
    for index in 0..=CACHE_COLLECTION_MAX {
        if index != 0 {
            many.push(',');
        }
        many.push_str("null");
    }
    many.push_str("],\"edges\":[]}}");
    assert!(many.len() < CACHE_BLOB_MAX_BYTES);
    assert!(matches!(
        decode_graph(many.as_bytes(), read_graph),
        Err(CacheError::Limits)
    ));
}

#[test]
fn a_frame_of_another_format_is_incompatible_and_an_unreadable_payload_is_malformed() {
    let facts_blob = encode_file_facts(b"{}").expect("encode");
    assert_eq!(facts_blob, br#"{"format":"file-facts","schema":1,"payload":{}}"#);
    assert!(matches!(decode_file_facts(&facts_blob, read_facts), Err(CacheError::Malformed)));
    assert!(matches!(decode_graph(&facts_blob, read_graph), Err(CacheError::Malformed)));
    let other = encode("file-facts", 1, br#"{"symbols":[],"edges":[]}"#).expect("encode");
    assert!(matches!(decode_graph(&other, read_graph), Err(CacheError::Incompatible)));
}

#[test]
fn limits_hold_at_every_depth_and_admit_the_exact_bound() {
    let exact = object(vec![("a", Value::Array(vec![text(&"x".repeat(CACHE_STRING_MAX))]))]);
    assert_eq!(validate_json_limits(&exact), Ok(()));
    let nested = object(vec![("a", Value::Array(vec![text(&"x".repeat(CACHE_STRING_MAX + 1))]))]);
    assert_eq!(validate_json_limits(&nested), Err(CacheError::Limits));
    let key = "k".repeat(CACHE_STRING_MAX + 1);
    let named = object(vec![(key.as_str(), Value::Null)]);
    assert_eq!(validate_json_limits(&named), Err(CacheError::Limits));
    assert_eq!(validate_json_limits(&Value::from(7_u64)), Ok(()));
}

#[test]
fn a_bounded_writer_keeps_what_fits_and_tells_of_the_rest() {
    let mut writer = BoundedWriter::new(4);
    assert!(writer.write(b"ab"));
    assert!(!writer.write(b"cde"));
    assert_eq!(writer.into_bytes(), b"abcd");

    let exact = encode("f", 1, &vec![b' '; CACHE_BLOB_MAX_BYTES - 36]);
    let over = encode("f", 1, &vec![b' '; CACHE_BLOB_MAX_BYTES]);
    assert_eq!(exact.map(|blob| blob.len()), Ok(CACHE_BLOB_MAX_BYTES));
    assert_eq!(over, Err(CacheError::Oversize));
}
