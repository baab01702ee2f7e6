# Verified fixed-point arithmetic

Fixed-point numbers `Fixed<T, FRAC>`: the raw integer `bits` of type `T`
stands for `bits / 2^FRAC`. The arithmetic is given for `u64`, `i32` and
`i64`; multiplication and division round to nearest with ties to even.
Every function of the library is proved with Verus against a contract.

Layout of `src/`:

- `fixed.rs`: the `Fixed` type, `from_bits` and `to_bits`, `Default`.
- `unsigned64.rs`, `signed32.rs`, `signed64.rs`: the methods of
  `Fixed<u64, FRAC>`, `Fixed<i32, FRAC>` and `Fixed<i64, FRAC>`
  (`floor`, `ceil`, `round`, `mul_blaze`, `div_blaze`, `rem_blaze`, ...).
- `ops.rs`: the operators `+ - * / % << >>`, unary `-`, and their compound
  assignments.
- `long_div.rs`: the restoring long division with round-half-to-even used
  by `div_blaze`.
- `spec.rs`: the model the contracts are written in (wrapping, floor to a
  multiple of `2^FRAC`, banker's rounding, truncating remainder).
- `bits.rs`: shifts and masks related to arithmetic on integers.
- `int_specs.rs`: contracts of `wrapping_neg` and `unsigned_abs`, which the
  standard library documents and vstd does not specify.
- `laws.rs`: properties of the arithmetic as a whole.

`app/main.rs` is the demonstration program; `tests/` holds the tests.
