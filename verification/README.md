# offload

A parallel test runner. It discovers the tests of a project, spreads them over
sandboxes, retries what fails, and reports the results.

## Layout

- `src/` is the library, written and proved with Verus: the rules and
  computations of the runner, each with a contract.
  - `config`, `run`: configuration, its defaults, checks and environment
    variables; the steps of a run and what it prints.
  - `framework`, `discovery`: the commands that list and run tests under
    pytest, nextest, vitest or a custom runner, and the parsing of what they
    print.
  - `executor`, `orchestrator`: batches, retries, results and exit codes.
  - `git`, `git_patch`, `checkpoint`, `cache`, `image_cache`: which commit and
    image a run starts from, and what is recorded for the next run.
  - `history`: the record of past attempts, their sampling and merging.
  - `bundled`, `connector`, `provider`, `report`: scripts, shell commands and
    test reports.
  - `text`, `paths`, `order`, `strmap`, `patterns`, `shell`, `xml`: strings,
    paths, sorted lists, string-keyed tables, and the calls into `regex`,
    `shell-words` and `quick-xml`.
- `tests/` runs the library on concrete values.
- `app/` is the command line program: processes, files, git, the network and
  floating point numbers.

## Commands

    offload init --provider local --framework pytest
    offload validate
    offload collect
    offload run --parallel 8 --env KEY=VALUE
    offload logs --failures
    offload checkpoint-status
