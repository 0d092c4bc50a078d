# pitbull_subset

A checker for function bodies in a simplified mid-level IR, written and proved in Verus. It walks a
body and reports

- violations: constructs that are outside the verifiable subset (raw pointers, heap types, interior
  mutability, closures, floats, and so on);
- obligations: what a solver has to prove for the body not to fail at run time (no overflow, indexes
  in bounds, no reachable panic, postconditions, preconditions of callees, termination of recursion);
- audit notes: checks that could not be made (coverage gaps, which keep a body from being accepted)
  and remarks for information.

## Layout

| module | content |
| --- | --- |
| `text` | characters, numbers and lists of strings |
| `mir_api`, `rules`, `config`, `vc`, `diagnostic` | the data: bodies, rules, settings, obligations, reports |
| `paths` | which library calls panic, which are total, what a path's root is |
| `types` | the rules on types, and the least size of a type |
| `predicate` | the clause language, its translation to assertions, and the check of written assertions |
| `clauses` | what becomes of a precondition at an operation, an index or a call that may panic |
| `locals`, `capture` | names, types and edges of a body; symbolic capture of integer values |
| `postcondition`, `callsite` | the solver problems of returns and of calls |
| `findings`, `walk` | what a walk finds, as a function of the body |
| `visitor` | the visitor, proved to record just those findings |
| `laws` | what holds of all that |

The contract of each visit says that the visitor's report grows by the findings that `walk` gives for
the construct, and by nothing else. The one thing that is taken on trust is that `std` renders a
string for debugging as a function of the string (`text::quoted`), which some messages show.
