# minicbor

A small CBOR (RFC 8949) library whose behaviour is stated in Verus contracts
and proved.

- `src/head.rs` states the wire format of data item heads (major type,
  additional information, big-endian argument) and proves that heads read
  back as they were written.
- `src/data.rs` holds the data types: `Type`, `Tag`, `Int` (the full CBOR
  integer range [-2^64, 2^64 - 1]), `Cbor` and `TryFromIntError`, with the
  conversions between `Int` and Rust's integers.
- `src/encode.rs` and `src/encode/encoder.rs` hold the `Encode` and `CborLen`
  traits, the `Encoder`, and the encodings of Rust's basic types,
  collections, tuples, ranges and `Cow`, plus `ArrayIter` and `MapIter`.
- `src/decode.rs` holds the `Decoder` and the laws that decoding an
  encoding gives the value back.
- `src/decode/item.rs` states the grammar of a well-formed data item
  (definite and indefinite lengths, nesting) and reads past one item with an
  explicit stack instead of recursion, proved to agree with the grammar.
- `src/wellformed.rs` proves that what the encoder writes for integers,
  strings, simple values, tags, arrays and maps of well-formed items is
  exactly one data item of that grammar. The grammar is RFC 8949's except
  that it takes any byte after `0xf8`; the RFC does not count the two-byte
  simple values below 32 as well-formed.

Each `Encode` implementation states the exact bytes it appends
(`Encode::encoding`), when it succeeds (`Encode::encodable`) and which error
it reports otherwise (`Encode::encode_error`: for options, results, sequences,
tuples, ranges and maps, the error of the first inner value that fails);
each `CborLen` implementation is proved to return the length of those bytes.
