# codepolicy

A rule engine for source code, written in Verus. Rules are declarative patterns over
a file's lexemes; the engine reports every match as `file:line` evidence with a
message. Everything that decides something is verified: reading rules, compiling
them, lexing, matching, aggregating, ordering and reporting.

## Layout

`src/` is the library.

| Module | What it holds |
| --- | --- |
| `text`, `order`, `value`, `paths` | strings, ordered maps, loosely typed values, path names |
| `bignum`, `number` | decimal numerals rounded to double precision, for comparisons |
| `token`, `event` | the lexeme model, events, and what patterns see of both |
| `syntax`, `frontend`, `manifest` | from source text to tokens, from manifests to events |
| `lexer`, `dsl` | the textual rule grammar |
| `schema`, `compile`, `rules` | rules as written, their compilation, compiled rules |
| `sequence`, `matching`, `aggregate` | matching, derived rules, running a set of rules |
| `report`, `explain` | output |
| `project` | decisions around a check: records, rule files, exit codes |
| `outside` | the calls into other crates, with the contracts they are trusted for |

`app/` is the command-line program: arguments, files, the YAML form of rule files.
`tests/` runs the library with the real crates linked.

## How contracts are written

Each type has a model over `Seq<char>`, integers and other models, given by its view.
Executable functions say that the view of their result is a spec function of the views
of their arguments; error messages are part of it. Results of other crates that no short
statement describes have a name (`regex_accepts`, `glob_accepts`, `syntax_of`, …), and
contracts speak of the name. Properties that relate several functions are public proof
functions: that links pair delimiters, that a pair in a pattern closes where its opening
element is linked to, that rule text lexes line by line, that a waiver silences its rule,
that set operations act on keys, that rounding keeps the order, and others.
