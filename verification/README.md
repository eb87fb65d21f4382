# grapher

Parsing of mathematical expressions over complex numbers, for a graphing
front end, with every step stated and proved in Verus.

An input line goes through four stages, each a module of `src/`:

1. `lexer` (character classes of `expressions`) or `scanner` (the same
   classes as regular expressions, matched by `fancy_regex` through `pattern`)
   splits the line into lexemes.
2. `tokenizer` reads the lexemes as tokens and rewrites the stream: signs
   become negative numbers or products with `-1`, real and imaginary parts
   join into complex numbers, implied products are written out.
3. `abstract_syntax_tree` builds an operator tree with the shunting-yard
   algorithm; its contract is a specification of the algorithm over ghost
   states.
4. `operator` walks trees: the names a tree reads, whether it is constant,
   and the tree with variables (`var_map`) and predefined constants put in.

`evaluator` joins the stages. `json_map` reads and writes the page's
variables, a JSON object from names to texts, through `serde_json`. The laws that span them are proved in
`tree_laws`, `token_laws` and `parse_laws`.

`app/` holds what needs floating point, serialisation, the browser canvas or
the JavaScript bindings: evaluation of trees on complex numbers, drawing, and
the exported entry points.
