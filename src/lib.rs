//! Decoder for the frames that an RDM6300 RFID reader sends over a serial line.
//!
//! A frame is fourteen bytes: a head marker, ten ASCII hex digits holding the
//! five bytes of the tag, two hex digits holding the XOR checksum of those five
//! bytes, and a tail marker.

pub mod frame;

pub use frame::{
    ascii_encoded_to_value, decode, DecodeError, RfidTag, BODY_LENGTH, CHECKSUM_LENGTH, HEAD,
    TAG_LENGTH, TAIL,
};

pub mod decoder;
pub mod stream;

pub use decoder::{Error, Progress, Rdm6300, SerialRead, State};
