# NAOME Memory store

The rules of a local store for episodic and semantic memory, proved with Verus.

The library (`src/`) decides; it neither opens files nor speaks SQL. It takes rows, file
observations and process outcomes as plain values, and says what is accepted, what is refused with
which error, what is written and in which order. Around it, `app/` runs a `SQLite` database, an
artifact tree, child processes and the command line.

## Layout of `src/`

| Modules | What they hold |
| --- | --- |
| `text`, `chars`, `tokens`, `hexadecimal`, `json`, `digest`, `framing`, `messages` | texts, bytes, digests and their encodings |
| `bytemap`, `bags`, `groups`, `folding`, `sorting` | ordered maps and sets of byte strings, sorting, and faults of lists |
| `error`, `config`, `stored`, `state_columns`, `model` | errors, configuration and the model of atoms and states |
| `artifact`, `artifact_rows`, `gc` | content-addressed artifacts and their collection |
| `records`, `body`, `lifecycle`, `links`, `insertion`, `drafts`, `policy` | storing atoms and sealing drafts |
| `retrieval`, `candidates`, `recall`, `feedback` | search, recall and feedback |
| `snapshot`, `plan`, `commit_rules`, `pin_rules`, `retirement`, `fault_points` | retirement of a cohort |
| `receipt`, `receipt_fields`, `receipt_closure`, `receipt_outputs`, `post_state` | verification of what a retirement left behind |
| `tables`, `edges`, `closure`, `integrity`, `check`, `logical` | the integrity check of a whole store and digests of its state |
| `round_trip` | that what is written passes the checks of its readers |
| `evidence`, `tool_receipts`, `campaigns`, `scale`, `scale_report`, `measurements`, `release`, `fixtures` | published evidence and what a release asks of it |

## Contracts

A function that can fail states in its contract exactly when it does and with which error: the fault
of its result equals a spec function of its arguments (`fault_of(result) == ..._fault(..)`, for
evidence `refusal_of(result) == ..._refusal(..)`). What holds across functions is stated by the
public proof functions whose names begin with `law_`.

What the memory core computes (canonical encodings, plans, rankings, receipts) reaches the library
as values that it takes as arguments, so its decisions are proved for every such value.

The lottery that keeps atoms of a cohort exactly is held among those that permit exact retention and
whose declared artifacts were all found intact. How many took part is counted when a plan is applied.
Where that is fewer than permit exact retention, the number is recorded in the same transaction,
since the bodies of forgotten atoms are gone afterwards. The receipt of a run has to state the
recorded number, and without a record the number of atoms that permit exact retention.

## Trusted items

The library calls `sha2`, `hex`, `serde_json`, `toml` and a few character functions of `std` through
small wrappers. Each states in its doc comment what it claims of the function that it calls.

## `app/`

`error`, `files`, `store`, `rows`, `search`, `scan`, `retire`, `collect` are the store on disk;
`machine`, `mirrors`, `campaign`, `scale_run` publish evidence; `engine` is the interface to the
memory core; `linked`, `laboratory` and `fixtures` use the core and laboratory crates of the
workspace and build only there.
