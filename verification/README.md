# npurun

An NPU-first local LLM runtime for Snapdragon X-series Windows-on-ARM
laptops: `npurun pull | list | rm | show | run | bench | ps | version |
show-hardware | serve`, with an OpenAI- and Ollama-compatible HTTP server.

The decision-making core is a Verus library whose functions carry
`requires`/`ensures` contracts proved by Verus; the command line, the
HTTP server and all file, network and NPU plumbing sit around it.

## Layout

- `src/` — the verified library
  - `text.rs`, `json.rs`, `rules.rs`, `digest_map.rs`: character-sequence
    helpers, JSON values (parsed and printed by `serde_json`), the
    manifest field rules (SDK versions, sha256 digests, bundle-relative
    paths) and the ordered file-to-digest table.
  - `npurun/manifest.rs`, `npurun/engine.rs`: the `npurun.json` manifest,
    chat templates and transcripts, context tiers of a Genie bundle and
    pinning one of them.
  - `hexrun/`: the manifest, registry table and request helpers of the
    ONNX Runtime variant.
  - `genie.rs`: Genie status codes and sentence codes.
  - `registry.rs`: the built-in model registry and the manifest a pull
    writes for a downloaded bundle.
  - `server/`: OpenAI request planning (tool and JSON-mode hints,
    history trimming, streaming budget, tool-call extraction), the
    Ollama model card, transcripts, NDJSON frames and UTC timestamps,
    and bearer-token checks.
  - `cli.rs`: model-name tags, CSV quoting, uptime text, token estimate,
    SDK and hardware probe parsing, the SSE reader used by
    `run --addr`, and the benchmark schedule.
- `app/` — the `npurun` program: argument handling (clap), the axum
  server, downloads (reqwest), archive extraction (zip), progress bars,
  PowerShell probes and the floating-point statistics and sampler.
- `tests/` — tests of the library on concrete values.
