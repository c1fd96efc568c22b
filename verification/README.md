# mest

Mest is a small functional language: integers, floats and booleans, tuples,
lambdas and application, `let` (with `rec` and `and`), `match` with
or-patterns, union types with constructors, and Hindley-Milner type
inference that records a derivation tree for every judgement.

The library in `src/` is written in Verus and proved:

- `lexer`, `token`: the tokenizer, exact against a specification of the
  lexemes, with byte spans that come in order.
- `grammar`, `parser`: the grammar as spec functions over tokens and a
  recursive-descent parser that returns exactly what the grammar gives.
- `constructors`, `scope`: constructor resolution and free variables.
- `typecheck`, `infer`, `scheme`, `algorithm_w`, `subst_laws`: types,
  substitutions, unification and inference, with the substitution laws.
- `judgement`: the derivation trees that unification and inference record,
  step by step.
- `printer`, `layout`, `derivation`, `pretty`: the three printed forms of an
  expression and the text of a derivation tree.
- `annotations`: the type annotations an editor shows, and the conversion
  between byte offsets and line/column positions.
- `eval`: integer arithmetic of the evaluator and its errors.
- `interner`: the names, held in a `lasso::Rodeo`.

`app/` holds the command-line program, the lazy evaluator, colouring and
error reports, and the language server.
