# toylangc

The compiler of Toylang, a small language whose types and functions are
compiled alongside Rust code. `src/` is its logic, proved with Verus; `app/`
is the program around it, which reads files, calls cargo, answers questions
about the Rust side and hands finished code to LLVM.

| Where | What |
|-------|------|
| `toylang::lexer`, `toylang::parser` | from text to definitions |
| `toylang::type_resolve`, `toylang::substitute` | types of bodies, and generic instances |
| `toylang::deps`, `toylang::callbacks_impl`, `toylang::roots` | what a function needs of the Rust side, and which instances are emitted |
| `toylang::validate`, `toylang::session` | the steps of one compilation |
| `rust_items`, `rust_lookup`, `oracle` | names and types between Toylang and Rust |
| `llvm_gen` | from typed bodies to instructions, under both calling conventions |
| `stub_gen`, `stub_laws` | the Rust crate that stands for a Toylang crate |
| `wire`, `frame`, `hash`, `sidecar`, `cache`, `cache_key`, `typeid` | what is kept in files, and how it is recognised |
| `manifest`, `workspace` | projects, their order, and the cargo workspace they are built in |
| `text`, `names` | text and maps from names |

Each type has a view that says what it holds, and each public function a
contract over those views. What holds of several functions together is stated
by public proof functions, in `llvm_gen::laws`, `llvm_gen::scopes`,
`llvm_gen::fields`, `stub_laws` and `toylang::substitute_laws`, and beside the
functions that they speak of.

What is not proved is what other crates do. Where it is called, a doc comment
says what is taken for granted of it: bincode in `wire`, BLAKE3 in `hash`, the
layout of Rust source in `stub_gen`, and the character tables of `std` in
`toylang::lexer`.
