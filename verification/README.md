# greentic_dw_authoring

Authoring and assembly of agentic-worker (`dw`) packs, verified with Verus.

`src/` is the verified library:

- `model`, `validate`, `slug`, `project`, `agents`: the worker model, its
  validation rules, the answer document and the runtime agent configurations
  (`dw-agents.json`) derived from it.
- `json`, `ordered`, `text`: the document model the library builds, sorted
  string-keyed maps, and small text helpers.
- `inject`, `loadable`, `assemble`: the flow documents (`dw.agent`,
  `dw.agent_graph`, `operala.call` nodes), the runner-manifest decision, the
  knowledge corpus and the plan a worker pack is built from.
- `ygtc`: YGTC text in and out over `serde_yaml_bw` and `serde_json::Value`,
  and the injectors on YGTC text.
- `archive`, `cbor_flow_post`, `seal`, `manifest`: rewrites of a `.gtpack`
  zip (sidecars, removals, manifest flows), each followed by the SBOM
  reseal, over the `zip`, `blake3` and `greentic-types` crates.

`app/` is the unverified edge: serde forms of the library's types (the SBOM
codec among them), JSON text, files on disk, flow compilation (`greentic-flow`) and
`PackBuilder` (`greentic-pack`), and the orchestration that runs the
library's steps in order.

`tests/` exercises the library from outside.
