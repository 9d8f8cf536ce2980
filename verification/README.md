# theorem_prover

A first-order theorem prover for TPTP FOF problems that searches backwards
for derivations in Hou's sequent calculus LK′, written in Verus.

## Layout

- `src/` — the verified library.
  - `ast/` — terms and formulas, their mathematical models, substitution and
    rendering.
  - `parser/` — the TPTP FOF lexer and recursive-descent grammar, each with a
    specification of the tokens and trees it yields. Besides `~ & | =>`
    the grammar accepts `<=>`, read as two implications; `<~>`, `<=`, `=`
    and `!=` are rejected.
  - `prover/` — sequents, the LK′ rules and their soundness against the
    calculus (`calculus.rs`), quantifier instantiation and fresh names, the
    rule scheduler (naive and six-class priority), the branch state, and the
    search engines (depth-first and iterative deepening).
  - `pipeline.rs`, `pipeline/` — text or file to sequent to result, with the
    biconditional cap and include loading over any `ProblemFiles`.
  - `cli/` — the logic of the command-line front end: `config.toml` reading
    and writing, subset files, rows and summaries, markers, exit codes and
    the interrupt protocol.
  - `persistence.rs` — the records of runs and results.
- `app/` — the program: arguments, terminal and file I/O, the Ctrl+C
  handler and the SQLite results log.
- `tests/` — tests of the library.

The main guarantees: a `Provable` answer means the sequent has an LK′
derivation; an uninterrupted search returns exactly the outcome its
specification gives; every rule the scheduler proposes applies, and the
priority schedule proposes only the first non-empty class; parsing returns
exactly the problem the grammar describes; substitution renames a bound
variable rather than capture a variable put in; loading a problem from
disk follows its include directives, resolved against the include root,
reads each file once and merges the own premises of the files read in the
order read; the biconditional cap is decided from the top-level text before
anything is parsed; a search ends `Cancelled` or `Timeout` only when the
last interruption check it asked said so; a saved `config.toml` reads back
as the configuration that was saved.
