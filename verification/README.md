# golden

A library for authoring and running node graphs, written in Verus. The
functions under `src/` are verified by Verus; most carry a contract that
states what they return, and the few calls into other crates stand behind
small trusted wrappers whose contracts say what those crates document.

## Layout

- `src/model.rs`: entity identities and revisions.
- `src/endpoint.rs`: endpoint policies, connection recovery with bounded
  retry delays, and a bounded lossless ingress queue.
- `src/graph/`: authored graph documents with atomic, revisioned
  transactions (all operations apply or none do), traversal (stable
  topological order, cycle detection, strongly connected components:
  exactly the nodes that reach each other share one), presentation, and the
  envelopes in which a document is sent with its domain's encoded data.
- `src/protocol.rs`: the binary value frames and control messages.
- `src/lanes.rs`: context lane layouts and the migration of lane state
  between layouts.
- `src/persistence.rs`: project-file limits and headers, JSON shape limits,
  migrations and the recovery journal of backups.
- `src/codegen.rs`: generated artifacts and their drift check.
- `src/condition.rs`: conditions compiled to a postfix stack program that
  agrees with evaluating the condition directly.
- `src/alchemist/`: formulas: node registry, catalog, compilation to
  kernels, a shared compile cache, the runtime, single-node formulas and the
  versioned file record, whose replay rebuilds the recorded graph.
- `src/processor.rs`: processors that run one formula kernel over many
  lanes, optionally gated by a condition.
- `src/parameters.rs`, `src/values.rs`: canonical values, parameter
  declarations, constraints and change behaviour.
- `src/script/`: script host policy and budgets, sources, templates (with
  the built-in core templates under `core/`), manifests read from the script
  runtime's JSON (with their parameter declarations and defaults), and the
  rewriting of exported functions.
- `src/host.rs`: host modes and the desktop services a host offers.
- `src/text.rs`: character-level string helpers.

Floating-point numbers are held as the bits of finite doubles; arithmetic
on them is supplied by the caller.

`app/` holds what the library leaves to its host: file and JSON I/O with
serde, atomic writes, templates read from disk, and the floating-point
comparison of condition inputs. `tests/` runs the library on concrete values.
