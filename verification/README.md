# data_dict

A verified library for `data-dict.yaml` data dictionaries: the dictionary
model, the spec checks a dictionary must pass before any data is read, the
assertion expression language (parser, type checker, lowering to a typed
form, and printers for the canonical syntax and for R/tidyverse), the `join`
expression grammar, the catalogue of checks and the steps of a validation
run, and the problem vocabulary all of these report in.

Every function in `src/` is written in Verus and carries a contract that the
verifier proves: what it returns, which problems it reports and in what
order, and when it refuses its input. Laws that span several functions stand
as public proof functions beside them (their names begin with `law_`).

Layout:

- `src/` — the library, verified.
  - `yaml` — a document as a YAML tree; `lower` — the tree lowered into the
    dictionary model, reporting `join`s and expressions that do not parse.
  - `assert_expr/` — the expression language: grammar, parser, checker
    rules, lowering, the typed form.
  - `validate_spec/` — the spec checks (`S##`), one function per rule;
    `check_spec`, which runs them over a whole dictionary; and
    `validate_spec_str`, which takes a document's text through reading,
    lowering and every check.
  - `report/` — the steps a run registers and weighs.
  - `emit/` — printers for the canonical syntax and for R/tidyverse.
- `tests/` — tests run against the compiled library.
- `app/` — the unverified edge: reading files, reading the clock, and the
  serialisable copies of library types.

Calls into `chrono`, `regex` and `quarto-source-map` stand in `src/` behind
small trusted wrappers whose contracts say what the library relies on.
