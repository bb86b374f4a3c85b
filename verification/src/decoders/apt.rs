//! The integer side of NOAA APT decoding: how many image lines a recording
//! yields, and the report of a decoding run. The signal processing itself
//! (resampling, envelope detection, pixel scaling) works on floating-point
//! samples and is not part of this library.
use vstd::prelude::*;
use crate::decoders::{DecodeOutput, DecodedItem};
use crate::text::{decimal, push_decimal, push_str};

verus! {

/// Decodes NOAA APT (Automatic Picture Transmission) weather satellite
/// imagery from demodulated FM audio, the standard hobbyist SDR recording of
/// a NOAA POES pass on ~137 MHz.
pub struct AptDecoder;

/// The sample rate (Hz) that recordings are resampled to before decoding.
pub const APT_WORKING_RATE: u32 = 20800;

/// One pixel is kept out of this many envelope samples.
pub const APT_DECIMATION: usize = 5;

/// Pixels per image line, per the APT specification.
pub const APT_LINE_WIDTH: usize = 2080;

/// The summary of a successful decoding run.
pub open spec fn decoded_summary(n_lines: nat) -> Seq<char> {
    "Decoded "@ + decimal(n_lines) + " image lines from APT audio"@
}

/// The detail of a successful decoding run: input rate and length, and the
/// processing chain.
pub open spec fn decoded_detail(sample_rate: nat, sample_count: nat) -> Seq<char> {
    "Input: "@ + decimal(sample_rate) + " Hz, "@ + decimal(sample_count)
        + " samples. Resampled to "@ + decimal(APT_WORKING_RATE as nat)
        + " Hz, envelope-detected, decimated "@ + decimal(APT_DECIMATION as nat) + "x to "@
        + decimal(APT_LINE_WIDTH as nat) + " px/line."@
}

/// The detail text when a recording is shorter than one image line.
pub open spec fn too_short_detail(pixel_count: nat) -> Seq<char> {
    "Got "@ + decimal(pixel_count) + " pixel samples after decimation, need at least "@
        + decimal(APT_LINE_WIDTH as nat) + "."@
}

impl AptDecoder {
    /// The decoder's display name.
    pub fn name(&self) -> (name: &'static str)
        ensures
            name@ == "NOAA APT weather satellite image"@,
    {
        "NOAA APT weather satellite image"
    }

    /// The file that a decoded image is saved to.
    pub fn image_path(&self) -> (path: &'static str)
        ensures
            path@ == "apt_decoded.png"@,
    {
        "apt_decoded.png"
    }

    /// The output for a signal that is not an audio recording.
    pub fn not_audio(&self) -> (out: DecodeOutput)
        ensures
            out.image_path is None,
            out.items@.len() == 1,
            out.items@[0].summary@ == "APT decoder needs an audio source"@,
            out.items@[0].detail@
                == "This only works on FM-demodulated audio (WAV) captured from a NOAA APT pass."@,
    {
        let item = DecodedItem::from_texts(
            "APT decoder needs an audio source",
            "This only works on FM-demodulated audio (WAV) captured from a NOAA APT pass.",
        );
        let mut items: Vec<DecodedItem> = Vec::new();
        items.push(item);
        DecodeOutput { items, image_path: None }
    }

    /// The number of complete image lines in `pixel_count` decimated pixels,
    /// or, when not even one line is complete, the output that says so.
    pub fn image_lines(&self, pixel_count: usize) -> (lines: Result<usize, DecodeOutput>)
        ensures
            pixel_count >= APT_LINE_WIDTH <==> lines is Ok,
            lines matches Ok(n) ==> n == pixel_count / APT_LINE_WIDTH && n >= 1,
            lines matches Err(out) ==> {
                &&& out.image_path is None
                &&& out.items@.len() == 1
                &&& out.items@[0].summary@ == "Recording too short to decode a full APT line"@
                &&& out.items@[0].detail@ == too_short_detail(pixel_count as nat)
            },
    {
        if pixel_count < APT_LINE_WIDTH {
            let mut detail = String::from_str("Got ");
            push_decimal(&mut detail, pixel_count as u64);
            push_str(&mut detail, " pixel samples after decimation, need at least ");
            push_decimal(&mut detail, APT_LINE_WIDTH as u64);
            push_str(&mut detail, ".");
            let item = DecodedItem {
                summary: String::from_str("Recording too short to decode a full APT line"),
                detail,
            };
            let mut items: Vec<DecodedItem> = Vec::new();
            items.push(item);
            return Err(DecodeOutput { items, image_path: None });
        }
        Ok(pixel_count / APT_LINE_WIDTH)
    }

    /// The output of a decoding run that produced `n_lines` image lines from
    /// `sample_count` samples at `sample_rate` Hz. `save_error` is the
    /// message of a failed attempt to save the image, if it failed: the
    /// report then has a second item with that message and no image path;
    /// otherwise the image path is the file the image was saved to.
    pub fn report(
        &self,
        n_lines: usize,
        sample_rate: u32,
        sample_count: usize,
        save_error: Option<String>,
    ) -> (out: DecodeOutput)
        ensures
            out.items@[0].summary@ == decoded_summary(n_lines as nat),
            out.items@[0].detail@ == decoded_detail(sample_rate as nat, sample_count as nat),
            match save_error {
                None => {
                    &&& out.items@.len() == 1
                    &&& out.image_path matches Some(p) && p@ == "apt_decoded.png"@
                },
                Some(e) => {
                    &&& out.items@.len() == 2
                    &&& out.items@[1].summary@ == "Failed to save decoded image"@
                    &&& out.items@[1].detail@ == e@
                    &&& out.image_path is None
                },
            },
    {
        let mut summary = String::from_str("Decoded ");
        push_decimal(&mut summary, n_lines as u64);
        push_str(&mut summary, " image lines from APT audio");
        let mut detail = String::from_str("Input: ");
        push_decimal(&mut detail, sample_rate as u64);
        push_str(&mut detail, " Hz, ");
        push_decimal(&mut detail, sample_count as u64);
        push_str(&mut detail, " samples. Resampled to ");
        push_decimal(&mut detail, APT_WORKING_RATE as u64);
        push_str(&mut detail, " Hz, envelope-detected, decimated ");
        push_decimal(&mut detail, APT_DECIMATION as u64);
        push_str(&mut detail, "x to ");
        push_decimal(&mut detail, APT_LINE_WIDTH as u64);
        push_str(&mut detail, " px/line.");
        assert(summary@ =~= decoded_summary(n_lines as nat));
        assert(detail@ =~= decoded_detail(sample_rate as nat, sample_count as nat));
        let mut items: Vec<DecodedItem> = Vec::new();
        items.push(DecodedItem { summary, detail });
        match save_error {
            None => DecodeOutput { items, image_path: Some(String::from_str(self.image_path())) },
            Some(e) => {
                items.push(
                    DecodedItem { summary: String::from_str("Failed to save decoded image"), detail: e },
                );
                DecodeOutput { items, image_path: None }
            },
        }
    }
}

} // verus!
