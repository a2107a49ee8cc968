# pact_protobuf_plugin

Protobuf support for Pact contract tests: decoding messages on the wire into fields, building
and encoding messages from configured values, rewriting fields of decoded messages by path, and
the small decisions of the plugin process (gRPC status codes in metadata, credentials, shutdown
after inactivity). The library is written in Verus: its public functions carry contracts, and the laws of the
library are proved as proof functions.

Floating point values are carried as IEEE-754 bit patterns. Integers and booleans are converted
to floating point numbers, and floating point numbers to integers (rounded toward zero), with
integer arithmetic in `src/float_bits.rs`; text in integer form (such as "50" or "-7") reads as
the floating point number nearest to its integer. Reading other text as a floating point number
(with a fraction or an exponent), writing a floating point number as text, and converting
between the two floating point widths need floating point arithmetic, which the library does
not do. These are the places where it differs from an encoder that has it:

- a JSON floating point number for a 32 or 64 bit floating point field is refused with
  `FloatConversion` (an integer field takes its integer part);
- a value of a floating point field, packed or not, that is such text, or a floating point
  number of the other width, is refused with `FloatConversion` (where such an encoder would
  convert it, or write zero for text that does not read as a number);
- the text kept with a floating point value set from a JSON integer is the exact integer, which
  differs from the shortest text of the floating point number beyond 2^53 (2^24 for 32 bits):
  `18446744073709551615` where the shortest text of the `f64` is `18446744073709552000`;
- a provider state value for a floating point field is refused with `FloatConversion` where it
  is such text, or a floating point number for a 32 bit field.

Provider state values are JSON values (`JsonValue`) handed to the library by the caller, which
looks them up; the library converts them to the field's kind of data (see `spec_state_data` in
`src/generators.rs`), and fills a repeated field value by value from an array.

Field values configured as JSON values set fields of a message builder (`build_field_value` in
`src/field_config.rs`). A string is taken as the value itself: matching rule definitions are
read by the caller, which passes the value they define. An array among the values of an array
for a repeated field (other than a bytes field) is refused rather than flattened into it.

Not part of the library: matching of messages and metadata against expectations, building
messages from JSON configuration with matching rules, the mock gRPC server, and the generators
whose values come from dates, times, regular expressions or random strings (their text is
handed to the library by the caller).

## Layout

- `src/wire.rs`: varints, keys, zig-zag and fixed-size values (the LEB128 grammar and its laws).
- `src/descriptor.rs`, `src/lookup.rs`: the descriptor model and lookups of fields, enums and
  messages by name.
- `src/message_decoder.rs`: decoding a message into fields, one per field value, in the order of the bytes.
- `src/message_builder.rs`, `src/builder_encoding.rs`: building messages from field values and
  encoding them.
- `src/roundtrip.rs`: what the decoder reads back of what the builder and the dynamic message
  write.
- `src/dynamic_message.rs`: decoded messages, their encoding, and fetching or setting fields by
  path.
- `src/field_values.rs`, `src/field_config.rs`, `src/generators.rs`: values for fields from
  configuration text, numbers and JSON values, and generated values (provider state values
  among them).
- `src/config_parts.rs`: the request and response parts of an interaction's configuration.
- `src/metadata.rs`, `src/plugin.rs`: gRPC status codes, metadata keys, option values,
  credentials and inactivity.
- `src/float_bits.rs`: floating point numbers nearest to integers, and the integer parts of
  floating point numbers.
- `app/`: the command line, network set-up and conversions to and from `prost_types` and
  `tonic` types.
- `tests/`: tests of the library on concrete values.
