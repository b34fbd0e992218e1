# ggbc

A compiler front end for GGB, a small systems language for the Game Boy,
written in Verus. Every function of the library is verified against its
contract, except two small trusted wrappers that write a 16-bit word in
little- or big-endian order through the `byteorder` crate; their contracts
state what that crate documents.

- `src/lex`, `src/lex.rs`: byte tokenizer and token classification; the
  tokens of a program are exactly what the lexical rules read from its bytes.
- `src/ast.rs`: syntax tree and parser. The grammar is written as spec
  functions over token kinds (`expr_end`, `type_end`, `stmt_end`,
  `program_parses`, ...) that say where each construct ends; every parser
  succeeds exactly where the grammar accepts its input and stops where the
  grammar says. A parsed tree holds exactly the program's tokens, each
  statement and type has the form its first token chooses, paths and
  expressions are read whole, and expressions follow the operators'
  precedence.
- `src/ir`: the intermediate representation. Symbols are allocated in the
  static, const, stack and absolute spaces; expressions and statements are
  compiled into IR statements whose exact shape the contracts give; a
  peephole optimizer marks unreachable code, threads jumps and deletes dead
  code while keeping every jump on its target.
- `src/scope.rs`, `src/registers.rs`: nested identifier scopes and the
  register store of the virtual machine.
- `app/main.rs`: a command line front end that compiles a program file and
  prints its routines.
