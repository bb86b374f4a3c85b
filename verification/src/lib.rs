//! Decoders for radio signals captured with an SDR: ADS-B / Mode S frames,
//! the report of NOAA APT image decoding, and a generic inspector, together
//! with the file formats of the signal sources and the state of the channel
//! view.

pub mod channels;
pub mod decoders;
pub mod sources;
pub mod text;
