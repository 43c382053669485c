# rwat

`rwat` parses annotated wat into a relocatable wasm object: the encoded
module plus the `linking` and `reloc.CODE` custom sections that `wasm-ld`
reads.

```rust
pub fn parse_rwat(wat: &str) -> Result<Vec<u8>, rwat::error::Error>
```

The module header must carry `(@rwat)`. `(@sym)` or `(@sym (name "..."))`
on a function, table or import asks for a symbol; `(@reloc)` after a
relocatable instruction (`call`, `return_call`, `call_indirect`,
`return_call_indirect`, the `table.*` instructions) asks for a relocation
of its index immediates, which are widened to 5-byte LEB128 numbers so that
relocation offsets stay stable. Tags get no symbols: `wasm-encoder`'s
symbol table has no entry for them, so `(@sym)` on a tag (defined or
imported) and a relocation against a tag (`throw`, or a `catch` of
`try_table`, marked `(@reloc)`) are refused with an error. The text may be
at most `u32::MAX` bytes long.
A text with no `(module (@rwat) ...)` header is refused, an empty one too.

The library is verified with Verus. `wast` lexes, parses, resolves and
encodes the text, `wasmparser` reads the encoded module back, and
`wasm-encoder` assembles the output; each call into them goes through a
small trusted function whose contract says what is assumed of it.

## Layout

- `src/lex.rs`, `src/token.rs`, `src/scan.rs`, `src/parse.rs`: the token
  stream of the text, the scanner for `@sym`/`@reloc`, the annotation pass,
  and `parse_rwat`.
- `src/wat.rs`: the text module as `wast` sees it, and what is read of it.
- `src/link.rs`, `src/keys.rs`, `src/symbols.rs`: which items get symbols,
  their numbering, and the laws of the symbol table.
- `src/reloc.rs`, `src/leb.rs`, `src/code.rs`: relocatable instructions and
  operators, LEB128 numbers, and the patched code section.
- `src/binary.rs`, `src/emit.rs`, `src/encoder.rs`: reading the encoded
  module back, and writing the final one.
- `src/cli.rs` and `app/main.rs`: the `rwat` command line (`rwat [-c]
  <wat>... [-o|--output <path>] [-Wl,<arg>[,<arg>...]]`), which links the
  objects with `lld -flavor wasm` unless `-c` is given.
