use vstd::prelude::*;

verus! {

/// `ahash`'s hasher builder, carried opaquely in span-metrics tables.
#[verifier::external_type_specification]
#[verifier::external_body]
pub struct ExAhashRandomState(ahash::RandomState);

/// What a span-metrics table holds: span name to whether metrics are enabled.
pub uninterp spec fn span_metric_entries(table: ahash::HashMap<String, bool>) -> Map<Seq<char>, bool>;

/// `HashMap::get` on a span-metrics table, with the flag copied out: the
/// flag stored under `name`, or `None` when the table has no such key.
#[verifier::external_body]
fn span_metric(table: &ahash::HashMap<String, bool>, name: &str) -> (flag: Option<bool>)
    ensures
        flag == (if span_metric_entries(*table).dom().contains(name@) {
            Some(span_metric_entries(*table)[name@])
        } else {
            None
        }),
{
    table.get(name).copied()
}

/// The attribute under which the span's original name is kept.
pub const OTEL_ORIGINAL_NAME: &'static str = "otel.original_name";

/// The attribute that marks a span as measured.
pub const MEASURED_KEY: &'static str = "_dd.measured";

/// The value of the measured attribute.
pub const MEASURED_VALUE: &'static str = "1";

/// The attribute that names the span's kind.
pub const SPAN_KIND_KEY: &'static str = "span.kind";

/// The kind of a span.
#[derive(Debug, Clone, Copy, PartialEq, Eq, Structural)]
pub enum SpanKindTag {
    Client,
    Server,
    Producer,
    Consumer,
    Internal,
}

/// The Datadog name of a span kind.
pub open spec fn kind_label(kind: SpanKindTag) -> Seq<char> {
    match kind {
        SpanKindTag::Client => "client"@,
        SpanKindTag::Server => "server"@,
        SpanKindTag::Producer => "producer"@,
        SpanKindTag::Consumer => "consumer"@,
        SpanKindTag::Internal => "internal"@,
    }
}

/// The Datadog name of a span kind.
pub fn span_kind_label(kind: SpanKindTag) -> (label: &'static str)
    ensures
        label@ == kind_label(kind),
{
    match kind {
        SpanKindTag::Client => "client",
        SpanKindTag::Server => "server",
        SpanKindTag::Producer => "producer",
        SpanKindTag::Consumer => "consumer",
        SpanKindTag::Internal => "internal",
    }
}

/// One span attribute: its key and its value as text.
pub struct SpanAttribute {
    pub key: String,
    pub value: String,
}

impl View for SpanAttribute {
    type V = (Seq<char>, Seq<char>);

    open spec fn view(&self) -> (Seq<char>, Seq<char>) {
        (self.key@, self.value@)
    }
}

/// What the measurement rules read and change of a span.
pub struct SpanRecord {
    pub name: String,
    pub kind: SpanKindTag,
    pub attributes: Vec<SpanAttribute>,
    /// Whether the span's trace state is to be set to measuring.
    pub mark_measured: bool,
}

/// The abstract value of a span record.
pub struct SpanView {
    pub name: Seq<char>,
    pub kind: SpanKindTag,
    pub attributes: Seq<(Seq<char>, Seq<char>)>,
    pub mark_measured: bool,
}

/// The views of a list of attributes, in order.
pub open spec fn attributes_view(attributes: Seq<SpanAttribute>) -> Seq<(Seq<char>, Seq<char>)> {
    attributes.map_values(|a: SpanAttribute| a@)
}

impl View for SpanRecord {
    type V = SpanView;

    open spec fn view(&self) -> SpanView {
        SpanView {
            name: self.name@,
            kind: self.kind,
            attributes: attributes_view(self.attributes@),
            mark_measured: self.mark_measured,
        }
    }
}

/// The value of the first attribute whose key is `key`.
pub open spec fn first_value_of(attributes: Seq<(Seq<char>, Seq<char>)>, key: Seq<char>) -> Option<
    Seq<char>,
>
    decreases attributes.len(),
{
    if attributes.len() == 0 {
        None
    } else if attributes[0].0 == key {
        Some(attributes[0].1)
    } else {
        first_value_of(attributes.drop_first(), key)
    }
}

/// The name under which a span's metrics are configured: its original name
/// if it carries one, else its name.
pub open spec fn metric_name(span: SpanView) -> Seq<char> {
    match first_value_of(span.attributes, OTEL_ORIGINAL_NAME@) {
        Some(original) => original,
        None => span.name,
    }
}

/// Whether metrics are enabled for `name` in a table with `entries`: only a
/// present `true` enables them.
pub open spec fn metrics_enabled(entries: Map<Seq<char>, bool>, name: Seq<char>) -> bool {
    entries.dom().contains(name) && entries[name]
}

/// A span after the measurement rules: marked measured, with `_dd.measured`
/// set to `1`, when its metrics are enabled; with `span.kind` appended in
/// any case.
pub open spec fn prepared_span(entries: Map<Seq<char>, bool>, span: SpanView) -> SpanView {
    let enabled = metrics_enabled(entries, metric_name(span));
    let attributes = if enabled {
        span.attributes.push((MEASURED_KEY@, MEASURED_VALUE@))
    } else {
        span.attributes
    };
    SpanView {
        name: span.name,
        kind: span.kind,
        attributes: attributes.push((SPAN_KIND_KEY@, kind_label(span.kind))),
        mark_measured: span.mark_measured || enabled,
    }
}

/// The value of the first attribute keyed `key`.
pub fn first_attribute_value(attributes: &Vec<SpanAttribute>, key: &str) -> (found: Option<String>)
    ensures
        match found {
            Some(v) => first_value_of(attributes_view(attributes@), key@) == Some(v@),
            None => first_value_of(attributes_view(attributes@), key@) is None,
        },
{
    let ghost all = attributes_view(attributes@);
    let wanted = String::from_str(key);
    let n = attributes.len();
    let mut i: usize = 0;
    assert(all.subrange(0, n as int) =~= all);
    while i < n
        invariant
            n == attributes.len(),
            0 <= i <= n,
            all == attributes_view(attributes@),
            wanted@ == key@,
            first_value_of(all, key@) == first_value_of(all.subrange(i as int, n as int), key@),
        decreases n - i,
    {
        let ghost rest = all.subrange(i as int, n as int);
        assert(rest[0] == attributes@[i as int]@);
        if attributes[i].key == wanted {
            return Some(attributes[i].value.clone());
        }
        assert(rest.drop_first() =~= all.subrange(i + 1, n as int));
        i = i + 1;
    }
    None
}

fn attribute(key: &str, value: &str) -> (a: SpanAttribute)
    ensures
        a@ == (key@, value@),
{
    SpanAttribute { key: String::from_str(key), value: String::from_str(value) }
}

/// The span-metrics configuration of the Datadog exporter: which span names
/// are measured.
pub struct SpanMeasurer {
    pub span_metrics: ahash::HashMap<String, bool>,
}

impl SpanMeasurer {
    /// The configuration with `span_metrics`.
    pub fn new(span_metrics: ahash::HashMap<String, bool>) -> (measurer: Self)
        ensures
            measurer.span_metrics == span_metrics,
    {
        SpanMeasurer { span_metrics }
    }

    /// Whether metrics are enabled for spans named `name`.
    pub fn is_measured(&self, name: &str) -> (enabled: bool)
        ensures
            enabled == metrics_enabled(span_metric_entries(self.span_metrics), name@),
    {
        match span_metric(&self.span_metrics, name) {
            Some(flag) => flag,
            None => false,
        }
    }

    /// Applies the measurement rules to one span.
    pub fn prepare_span(&self, span: SpanRecord) -> (prepared: SpanRecord)
        ensures
            prepared@ == prepared_span(span_metric_entries(self.span_metrics), span@),
    {
        let mut span = span;
        let ghost before = span@;
        let enabled = match first_attribute_value(&span.attributes, OTEL_ORIGINAL_NAME) {
            Some(original) => self.is_measured(original.as_str()),
            None => self.is_measured(span.name.as_str()),
        };
        if enabled {
            span.mark_measured = true;
            span.attributes.push(attribute(MEASURED_KEY, MEASURED_VALUE));
        }
        span.attributes.push(attribute(SPAN_KIND_KEY, span_kind_label(span.kind)));
        assert(span@.attributes =~= prepared_span(
            span_metric_entries(self.span_metrics),
            before,
        ).attributes);
        span
    }

    /// Applies the measurement rules to every span of a batch, keeping the
    /// batch's order.
    pub fn prepare_batch(&self, batch: Vec<SpanRecord>) -> (prepared: Vec<SpanRecord>)
        ensures
            prepared@.len() == batch@.len(),
            forall|i: int|
                0 <= i < batch@.len() ==> #[trigger] prepared@[i]@ == prepared_span(
                    span_metric_entries(self.span_metrics),
                    batch@[i]@,
                ),
    {
        let ghost entries = span_metric_entries(self.span_metrics);
        let ghost original = batch@;
        let mut pending = batch;
        let mut reversed: Vec<SpanRecord> = Vec::new();
        while pending.len() > 0
            invariant
                entries == span_metric_entries(self.span_metrics),
                pending@.len() + reversed@.len() == original.len(),
                forall|j: int| 0 <= j < pending@.len() ==> #[trigger] pending@[j] == original[j],
                forall|j: int|
                    0 <= j < reversed@.len() ==> #[trigger] reversed@[j]@ == prepared_span(
                        entries,
                        original[original.len() - 1 - j]@,
                    ),
            decreases pending@.len(),
        {
            let span = pending.pop().unwrap();
            reversed.push(self.prepare_span(span));
        }
        let mut prepared: Vec<SpanRecord> = Vec::new();
        while reversed.len() > 0
            invariant
                entries == span_metric_entries(self.span_metrics),
                reversed@.len() + prepared@.len() == original.len(),
                forall|j: int|
                    0 <= j < reversed@.len() ==> #[trigger] reversed@[j]@ == prepared_span(
                        entries,
                        original[original.len() - 1 - j]@,
                    ),
                forall|j: int|
                    0 <= j < prepared@.len() ==> #[trigger] prepared@[j]@ == prepared_span(
                        entries,
                        original[j]@,
                    ),
            decreases reversed@.len(),
        {
            let span = reversed.pop().unwrap();
            prepared.push(span);
        }
        prepared
    }
}

/// The measurement rules keep a span's name, kind and attributes; they add
/// `_dd.measured = 1` exactly when metrics are enabled for the span, then
/// `span.kind` with the kind's name last; the measuring mark is set when
/// metrics are enabled and never cleared.
pub proof fn law_prepared_span_shape(entries: Map<Seq<char>, bool>, span: SpanView)
    ensures
        ({
            let prepared = prepared_span(entries, span);
            let enabled = metrics_enabled(entries, metric_name(span));
            let n = span.attributes.len();
            &&& prepared.name == span.name
            &&& prepared.kind == span.kind
            &&& prepared.attributes.len() == n + (if enabled {
                2int
            } else {
                1int
            })
            &&& prepared.attributes.subrange(0, n as int) == span.attributes
            &&& prepared.attributes.last() == (SPAN_KIND_KEY@, kind_label(span.kind))
            &&& enabled ==> prepared.attributes[n as int] == (MEASURED_KEY@, MEASURED_VALUE@)
            &&& prepared.mark_measured == (span.mark_measured || enabled)
        }),
{
    let prepared = prepared_span(entries, span);
    let n = span.attributes.len();
    assert(prepared.attributes.subrange(0, n as int) =~= span.attributes);
}

/// The first value under `key` is unchanged by appending an attribute with
/// another key.
proof fn lemma_first_value_push(
    attributes: Seq<(Seq<char>, Seq<char>)>,
    extra: (Seq<char>, Seq<char>),
    key: Seq<char>,
)
    requires
        extra.0 != key,
    ensures
        first_value_of(attributes.push(extra), key) == first_value_of(attributes, key),
    decreases attributes.len(),
{
    if attributes.len() > 0 {
        assert(attributes.push(extra)[0] == attributes[0]);
        assert(attributes.push(extra).drop_first() =~= attributes.drop_first().push(extra));
        lemma_first_value_push(attributes.drop_first(), extra, key);
    } else {
        let empty = Seq::<(Seq<char>, Seq<char>)>::empty();
        assert(attributes.push(extra)[0] == extra);
        assert(attributes.push(extra).drop_first() =~= empty);
        assert(first_value_of(empty, key) is None);
    }
}

/// The rules do not change the name under which a span's metrics are looked
/// up, so applying them to a prepared span measures it the same way.
pub proof fn law_metric_name_preserved(entries: Map<Seq<char>, bool>, span: SpanView)
    ensures
        metric_name(prepared_span(entries, span)) == metric_name(span),
        metrics_enabled(entries, metric_name(prepared_span(entries, span))) == metrics_enabled(
            entries,
            metric_name(span),
        ),
{
    reveal_strlit("otel.original_name");
    reveal_strlit("_dd.measured");
    reveal_strlit("span.kind");
    assert(MEASURED_KEY@.len() != OTEL_ORIGINAL_NAME@.len());
    assert(SPAN_KIND_KEY@.len() != OTEL_ORIGINAL_NAME@.len());
    let enabled = metrics_enabled(entries, metric_name(span));
    let key = OTEL_ORIGINAL_NAME@;
    let middle = if enabled {
        span.attributes.push((MEASURED_KEY@, MEASURED_VALUE@))
    } else {
        span.attributes
    };
    if enabled {
        lemma_first_value_push(span.attributes, (MEASURED_KEY@, MEASURED_VALUE@), key);
    }
    lemma_first_value_push(middle, (SPAN_KIND_KEY@, kind_label(span.kind)), key);
}

/// Attributes whose keys all differ from `key` do not hide a later one.
proof fn lemma_first_value_skips(
    before: Seq<(Seq<char>, Seq<char>)>,
    rest: Seq<(Seq<char>, Seq<char>)>,
    key: Seq<char>,
)
    requires
        forall|i: int| 0 <= i < before.len() ==> #[trigger] before[i].0 != key,
    ensures
        first_value_of(before + rest, key) == first_value_of(rest, key),
    decreases before.len(),
{
    if before.len() > 0 {
        let all = before + rest;
        assert(all[0] == before[0]);
        assert(all.drop_first() =~= before.drop_first() + rest);
        assert forall|i: int| 0 <= i < before.drop_first().len() implies #[trigger] before.drop_first()[i].0
            != key by {
            assert(before.drop_first()[i] == before[i + 1]);
        }
        lemma_first_value_skips(before.drop_first(), rest, key);
    } else {
        assert(before + rest =~= rest);
    }
}

/// Spans are measured by their original name wherever it stands among the
/// attributes: when the first attribute keyed `otel.original_name` has value
/// `v`, metrics are looked up under `v`, whatever attributes come before or
/// after it; only a span with no such attribute is looked up by its name.
pub proof fn law_metric_name_is_original_name(
    span: SpanView,
    before: Seq<(Seq<char>, Seq<char>)>,
    value: Seq<char>,
    after: Seq<(Seq<char>, Seq<char>)>,
)
    ensures
        (forall|i: int| 0 <= i < before.len() ==> #[trigger] before[i].0 != OTEL_ORIGINAL_NAME@)
            && span.attributes == before + seq![(OTEL_ORIGINAL_NAME@, value)] + after
            ==> metric_name(span) == value,
        (forall|i: int|
            0 <= i < span.attributes.len() ==> #[trigger] span.attributes[i].0 != OTEL_ORIGINAL_NAME@)
            ==> metric_name(span) == span.name,
{
    let key = OTEL_ORIGINAL_NAME@;
    if (forall|i: int| 0 <= i < before.len() ==> #[trigger] before[i].0 != key) && span.attributes
        == before + seq![(key, value)] + after {
        let rest = seq![(key, value)] + after;
        assert(span.attributes =~= before + rest);
        lemma_first_value_skips(before, rest, key);
        assert(rest[0] == (key, value));
    }
    if forall|i: int| 0 <= i < span.attributes.len() ==> #[trigger] span.attributes[i].0 != key {
        let empty = Seq::<(Seq<char>, Seq<char>)>::empty();
        assert(span.attributes + empty =~= span.attributes);
        lemma_first_value_skips(span.attributes, empty, key);
    }
}

/// A span is measured exactly when the table enables the name found as its
/// first `otel.original_name` attribute, at whatever position, or, with no
/// such attribute, its own name.
pub proof fn law_measured_by_original_name(
    entries: Map<Seq<char>, bool>,
    span: SpanView,
    before: Seq<(Seq<char>, Seq<char>)>,
    value: Seq<char>,
    after: Seq<(Seq<char>, Seq<char>)>,
)
    requires
        !span.mark_measured,
        forall|i: int| 0 <= i < before.len() ==> #[trigger] before[i].0 != OTEL_ORIGINAL_NAME@,
        span.attributes == before + seq![(OTEL_ORIGINAL_NAME@, value)] + after,
    ensures
        prepared_span(entries, span).mark_measured == (entries.dom().contains(value)
            && entries[value]),
{
    law_metric_name_is_original_name(span, before, value, after);
}

} // verus!
