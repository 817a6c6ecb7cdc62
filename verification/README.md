# placy

Placeholder replacement in Java archives, as a library verified with Verus.

`src/` holds the library, every function of it checked against its
contract:

- `placeholders`, `strings`, `text`: the placeholder table and the
  replacement of placeholders in UTF-8 and UTF-16 text.
- `security`: the checks on archive entry paths.
- `config`, `patterns`: processing settings, `process.txt`/`ignore.txt`
  patterns and size strings.
- `zipio`, `classfile`: the ZIP and class-file crates, behind wrappers whose
  contracts state what the rest relies on; a class file is modelled by the
  bytes it was parsed from and its constant pool, slot by slot.
- `jar`, `archive`, `processor`: loading, processing and writing JARs and
  archives of JARs.
- `tool`: the standalone tool's configuration, JAR handling and bundle
  unpacking and packing.
- `cli`: the command line of the `placy` tool.
- `server`: the HTTP service's settings, authentication, processing
  endpoint, health and metrics answers and observability plan.
- `paths`: path operations of the standard library, named.

`app/` holds the programs: file and network I/O, the actix-web service,
logging, tracing and metrics output. `tests/` exercises the library.
