//! Codec for the MQTT v3.1.1 control-packet wire format.

pub mod error;
pub mod pack;
pub mod protocol;
pub mod protocol_util;
