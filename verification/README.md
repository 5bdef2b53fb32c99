# SmartZip

SmartZip detects archives, also inside and behind other files, and extracts them recursively:
it tries passwords, settles the encoding of member names, puts volumes together, lays the output
out, and writes down what it did. This crate holds its decisions, verified with Verus, and a thin
layer that carries them out.

- `src/` is the library. Every verified function states what it returns or changes, and Verus
  proves it. What is taken on trust is said below.
  Public `proof fn` items state what holds across functions.
- `app/` reads and writes: files, SQLite, prompts, clocks, and the async driver of a run.
- `tests/` runs the library on concrete values.

## Where to look

| Topic | Modules |
| --- | --- |
| Detection | `detect`, `embedded`, `embedded_zip`, `container` |
| Names and encodings | `encoding`, `encoding_flow` |
| Output | `layout`, `budget` |
| Passwords and access | `password`, `access`, `workflow::attempt`, `workflow::candidate` |
| One run | `workflow::run`, `workflow::node`, `workflow::dedup`, `workflow::discovery` |
| Scheduling | `resources`, `coordinator`, `execution_runtime`, `transition`, `submission` |
| State of executions | `task_execution`, `recovery`, `execution`, `owner` |
| History | `db`, `task`, `task_event`, `file_extractions`, `known_files`, `outcome`, `history` |
| Hashes and time | `sample_hash`, `path_hash`, `timestamp` |

## What is trusted

The calls into `encoding_rs`, `chardetng`, `infer`, `sha2`, `blake3` and a few functions of the
standard library stand behind small functions whose contracts are taken on trust. Each says in its
comment which function it calls and what is claimed of it. Scores that are computed with floating
point come from `app/` as numbers in the order of the scores.
