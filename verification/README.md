# lintal_linter

Whitespace rules of a Java style checker (checkstyle-compatible), with
suppressions, written in Verus: each rule with a `check` states in its
contract exactly which diagnostics (message, range, fix and its safety) it
gives at a node of the syntax tree. The Indentation rule is present only in
part: its configuration, its violations and the line/column context its
checks share; the traversal that checks a file is not here.

Layout of `src/`:

- `text`, `strings`: byte offsets and ranges, UTF-8 slicing, white space,
  lines, decimal numbers.
- `diagnostics`: diagnostics, edits and fixes, with plain-value views.
- `java_parser`, `cst`: the tree-sitter Java parse flattened into a
  well-formed `CstTree` (parents before children, ranges on character
  boundaries) and the navigation the rules use.
- `config`: checkstyle properties.
- `indent_level`: sets of acceptable indentation levels.
- `rules/*`: one module per rule (`ParenPad`, `WhitespaceAround`,
  `EmptyLineSeparator`, ...), each with a `spec_check` that its `check`
  computes; `rules/indentation` holds the configuration, the violations and
  the line/column context of the Indentation rule (not its traversal).
- `suppression`: regions switched off by comments and `@SuppressWarnings`.

Laws that relate several functions are public proof functions named `law_*`.
