# rsi

A verified library for self-improving agents that stay under control: what they may
change, how a change is judged, and what is written down about it.

- `src/` is the library. Every function has a contract that Verus proves.
  - `agent`, `step`, `ascent`, `convergence`, `criticality`, `cma`, `checkpoint`: the
    decisions of an agent. Measures come in by their bits (`measure`), and numbers that
    are only carried along are kept as their decimal texts.
  - `audit`: the hash-chained journal.
  - `autopilot_*`, `compatibility`, `schedule`: frozen specifications, the tasks made of
    them, the feature and performance regimes, and pull-request plans.
  - `patchset`, `file_tree`, `candidate_state`, `cross_repo_workspace`, `dgm`,
    `engineering_trajectory`: changes to trees of files, and what becomes of them.
  - `api`, `mcp`, `cli`, `refine_cli`, `connect`, `crawl`, `campaign`, `addons`, `chaos`:
    the decisions of the programs.
  - `json*`, `sha256`, `text`, `order`, `table`, `fields`, `checks`: the ground that the
    rest stands on.
- `tests/` runs the library on concrete values.
- `app/` is ordinary Rust around it: files, Git, processes, threads, standard input and
  output, and floating-point arithmetic. What a model, an evaluator, the web or a numeric engine
  does comes in through its traits (`Workbench`, `Laboratory`, `Web`, `Engine`, `Numerics`).

The public proof functions whose names begin with `law_` state what holds of the library
as a whole.
