# qalculate

A calculator library verified with Verus, and the interactive calculator around it.

- `src/number_theory*`: parity, gcd and lcm of lists, modular powers and inverses,
  rounding of rationals, primality, the next/previous/nth prime, prime counting
  (Legendre's formula), lists of primes, Euler's totient, prime factors and
  factorisations, divisors and Bernoulli numbers, on 64-bit integers: where a result
  does not fit, the function says so (`None`) rather than compute it.
  `src/number_theory/bernoulli_recurrence.rs` evaluates the Akiyama-Tanigawa triangle
  row by row, as far as it fits in an `i64`, to prove that the Bernoulli numbers it
  gives satisfy their defining recurrence.
- `src/meval*`: the tokenizer of arithmetic expressions and the shunting-yard
  conversion of tokens to reverse Polish notation.
- `src/text.rs`, `src/fprice.rs`, `src/bitview.rs`, `src/converter.rs`,
  `src/calculator/*`: digits in a base, comma grouping, bit views, base and Unicode
  conversions, the full output of a result, and the rewriting of expressions
  (Unicode operators, `0x`/`0b`/`0o` literals, operands of `^`, `... to <format>`).
- `app/`: the command line loop and the floating-point evaluation of expressions.

Every function in `src/` carries a contract. Verus proves them all but three small
wrappers of std whose contracts are taken on trust (`String::push`, `char::from_u32`
and `std::str::from_utf8`); the public proof functions (`lemma_*`) state the laws of
the library.
