//! Protobuf wire-format decoding and encoding for the Pact Protobuf plugin.
pub mod wire;
pub mod descriptor;
pub mod lookup;
pub mod text;
pub mod message_decoder;
pub mod message_builder;
pub mod builder_encoding;
pub mod roundtrip;
pub mod dynamic_message;
pub mod metadata;
pub mod plugin;
pub mod field_values;
pub mod generators;
pub mod float_bits;
pub mod field_config;
pub mod config_parts;
