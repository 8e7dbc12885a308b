# mysql_value

MySQL column values, verified with Verus.

- `src/value.rs`: the `Value` type, its model `ValueModel`, its getters and
  its SQL literal text (`into_str`).
- `src/text.rs`: decimal, zero-padded, hexadecimal and escaped text.
- `src/wire.rs`: little-endian and length-encoded integers and strings.
- `src/binary.rs`: the binary encoding of a value (`to_bin`), the text and
  binary row decoders (`from_payload`, `from_bin_payload`) and the
  statement-parameter encoder (`to_bin_payload`).
- `src/double.rs`: `FloatBits`, a double's bit pattern that compares as
  the double does.
- `src/float.rs`: widening of `f32` bit patterns to `f64` bit patterns.
- `src/numparse.rs`: decimal integer reading.
- `src/convert.rs`: the `ToValue` and `FromValue` conversions.
- `src/duration.rs`: spans of time and their time values and text.
- `src/tm.rs`: broken-down time fields, date values, and the two date
  formats read with `time::strptime`.
- `app/`: floating-point values, the `time` crate's points in time and spans,
  and `io::Result` signatures.
