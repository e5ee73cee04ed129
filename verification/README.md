# apollo_kit

A Verus-verified library with the decision logic of a GraphQL federation
gateway's support code:

- `merge`: how an enum's usage position (input, output, both) is merged as
  subgraphs are composed, with its laws (order independence, idempotence,
  `Both` absorbing).
- `error_reporting`: the mismatch reporter that collects `[CODE] message`
  errors and hints in order.
- `cors`: the trusted-origins CORS handling: which headers a preflight answer
  and an ordinary response carry, proved to offer credentials to trusted
  origins alone and to produce only valid header values.
- `span_measure`: the Datadog span measurement rules (span-metrics lookup by
  original name, `_dd.measured`, `span.kind`).
- `headers`, `text`: header-value checks made through the `http` crate, and
  verified joining and decimal rendering.

`app/` holds the unverified plumbing: the tower services of the CORS plugin
and the OpenTelemetry span exporter wrapper.
