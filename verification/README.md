# cognitora

The decision-making core of the Cognitora inference stack — agent,
inference server, KV daemon, metrics federator, operator and CLI —
written in Verus with its behaviour stated in `requires` / `ensures`
contracts and proved.

* `src/` — the verified library: the continuous-batching scheduler and
  its KV pool, prefix caching, stop-string streaming, SSE and vLLM
  framing, engine command lines, pipeline layer splits and sequence
  positions, the planner, cordons, confirmed-KV claims, the KV daemon's
  tier decisions, Kubernetes object parts, the CLI tables, key files,
  metrics federation, GGUF header reading and chat templating (through
  minijinja). Public proof functions
  named `law_*` state the properties that span several operations.
* `tests/` — tests of the library on concrete values.
* `app/` — process-side glue the verifier does not see: threads,
  channels, files, JSON layouts and floating-point telemetry.

The prefix cache keeps its resident chain in a `Vec` and looks a hash up
from its latest occurrence, where a hash map keyed by the 32-byte block
hash would serve: Verus specifies `HashMap` for integer keys only, so a
map keyed by byte arrays would leave nothing to prove lookups against.
The view is still the map from hash to chain length.
