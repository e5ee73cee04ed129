use apollo_kit::span_measure::{span_kind_label, SpanAttribute, SpanKindTag, SpanMeasurer, SpanRecord};

fn attr(key: &str, value: &str) -> SpanAttribute {
    SpanAttribute { key: key.to_string(), value: value.to_string() }
}

fn span(name: &str, kind: SpanKindTag, attributes: Vec<SpanAttribute>) -> SpanRecord {
    SpanRecord { name: name.to_string(), kind, attributes, mark_measured: false }
}

fn measurer(entries: &[(&str, bool)]) -> SpanMeasurer {
    let mut table: ahash::HashMap<String, bool> = ahash::HashMap::default();
    for (k, v) in entries {
        table.insert(k.to_string(), *v);
    }
    SpanMeasurer::new(table)
}

fn pairs(s: &SpanRecord) -> Vec<(String, String)> {
    s.attributes.iter().map(|a| (a.key.clone(), a.value.clone())).collect()
}

#[test]
fn kind_labels() {
    assert_eq!(span_kind_label(SpanKindTag::Client), "client");
    assert_eq!(span_kind_label(SpanKindTag::Server), "server");
    assert_eq!(span_kind_label(SpanKindTag::Producer), "producer");
    assert_eq!(span_kind_label(SpanKindTag::Consumer), "consumer");
    assert_eq!(span_kind_label(SpanKindTag::Internal), "internal");
}

#[test]
fn configured_span_is_measured() {
    let m = measurer(&[("router", true)]);
    let out = m.prepare_span(span("router", SpanKindTag::Server, vec![attr("a", "b")]));
    assert!(out.mark_measured);
    assert_eq!(
        pairs(&out),
        vec![
            ("a".to_string(), "b".to_string()),
            ("_dd.measured".to_string(), "1".to_string()),
            ("span.kind".to_string(), "server".to_string()),
        ]
    );
}

#[test]
fn disabled_or_missing_span_is_not_measured() {
    let m = measurer(&[("router", false)]);
    let out = m.prepare_span(span("router", SpanKindTag::Client, vec![]));
    assert!(!out.mark_measured);
    assert_eq!(pairs(&out), vec![("span.kind".to_string(), "client".to_string())]);
    let out = m.prepare_span(span("supergraph", SpanKindTag::Internal, vec![]));
    assert!(!out.mark_measured);
    assert_eq!(pairs(&out), vec![("span.kind".to_string(), "internal".to_string())]);
}

#[test]
fn original_name_takes_precedence() {
    let m = measurer(&[("request", true), ("renamed", false)]);
    let out = m.prepare_span(span(
        "renamed",
        SpanKindTag::Server,
        vec![attr("otel.original_name", "request"), attr("otel.original_name", "other")],
    ));
    assert!(out.mark_measured);
    let out = m.prepare_span(span("request", SpanKindTag::Server, vec![attr("otel.original_name", "renamed")]));
    assert!(!out.mark_measured);
}

#[test]
fn batch_keeps_order() {
    let m = measurer(&[("b", true)]);
    let out = m.prepare_batch(vec![
        span("a", SpanKindTag::Client, vec![]),
        span("b", SpanKindTag::Producer, vec![]),
        span("c", SpanKindTag::Consumer, vec![]),
    ]);
    let names: Vec<&str> = out.iter().map(|s| s.name.as_str()).collect();
    assert_eq!(names, vec!["a", "b", "c"]);
    assert_eq!(out.iter().map(|s| s.mark_measured).collect::<Vec<_>>(), vec![false, true, false]);
    assert_eq!(out[2].attributes.last().unwrap().value, "consumer");
    assert!(m.prepare_batch(vec![]).is_empty());
}

#[test]
fn is_measured_reads_the_table() {
    let m = measurer(&[("x", true), ("y", false)]);
    assert!(m.is_measured("x"));
    assert!(!m.is_measured("y"));
    assert!(!m.is_measured("z"));
}
