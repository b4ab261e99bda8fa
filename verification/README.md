# carapace

The verified core of an inspecting proxy that sits between an AI coding
client and an upstream LLM provider.

- `src/` — the library, verified with Verus:
  - `session_graph` — the per-session event graph, its behavioural baseline
    and the attack-chain detectors, each stated against a specification of
    the hits it reports;
  - `egress` — destination allow/block lists, the sensitive-path sniff and
    the decision merge for outbound requests;
  - `protocol` (with `protocol::grpc`) — adapter selection and gRPC frame
    splitting;
  - `proxy` — how a request is forwarded and when a response is replaced;
  - `bundle`, `artifact` — certification bundles: SHA-256 manifests,
    their parser and the verification of a bundle's files;
  - `sentinel` — interval parsing and the new-findings diff of the host
    monitor;
  - `tools`, `mcp`, `json` — reading declared tools and MCP tool results;
  - `record`, `secure` — log entries and the zeroizing secret holder;
  - `text`, `seq_util` — string and sequence helpers with their lemmas.
- `app/` — the I/O layer: hyper/tokio networking, files, serde, and the
  floating-point entropy measure.
- `tests/` — run against the compiled library.
