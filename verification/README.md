# java_lsp

The core of a Java language server: reading Java sources and class files
into a model of classes, reading Maven's dependency tree and `pom.xml`
model, and answering questions about an open document (which variables and
methods are in view, what chain of calls stands before the cursor, which
classes are imported). The library in `src/` is verified with Verus; the
program in `app/` does the file, process and archive work around it.

- `java/` — the lexer and outline parser of Java sources, and loading a
  class from a source file through its tree-sitter syntax tree
  (`java::syntax` holds the tree as plain values and a cursor over it;
  `java::header` states what a file's `package`, imports and type
  declaration are read as, from the text through the lexer and parser).
- `class`, `class_file` — type descriptors, and loading a class from the
  bytes of a `.class` file.
- `dto`, `loader` — the class model, and where a class's source lies.
- `document`, `lsp` — an open document held in a rope, with the editor's
  changes applied to it.
- `variable`, `call_chain`, `call_chain_ranges`, `imports`, `completion`,
  `hover`, `definition`, `signature` — what the server answers from a document and the
  classes it knows.
- `references` — which classes use a class, recorded from their imports
  in a map by class path.
- `position` — where a file declares its types, methods and fields, and
  where it uses a type, found in its syntax tree.
- `tyres/` — resolving a type name, a Java type or a call chain to the
  class it stands for, with the methods and fields of its parents.
- `maven/` — the dependency tree log, the pom model, and where a
  dependency's jars lie.
- `text`, `treesitter` — text helpers and points and ranges in a text.
