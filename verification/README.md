# galaxy

A verified evaluator for the combinator terms of the galaxy pad.

- `src/number.rs`: integers of any size; arithmetic is done by `num::BigInt`
  behind small trusted wrappers whose contracts state the results.
- `src/term.rs`: terms (`E`), their model (`Term`), lists and printing.
- `src/parse.rs`: reading terms and definitions from tokens.
- `src/store.rs`: definitions, call counters and the evaluation cache.
- `src/eval.rs`: the evaluation rules, as a spec function and the code proved
  against it.
- `src/simplify.rs`: one pass of the `i`, `b`, `c`, `s` rewrites.
- `src/protocol.rs`: one step of the interaction protocol.
- `src/session.rs`: the decisions of an interactive session: commands,
  keeping answers, going back.
- `src/gravity.rs`: the pull toward the centre at a position.
- `src/laws.rs`: properties of evaluation for all terms and states.
- `app/main.rs`: a command-line front end that evaluates terms, definitions,
  or runs an interactive session.
