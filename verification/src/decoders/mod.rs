//! Protocol decoders and the output they produce.
use vstd::prelude::*;

pub mod adsb;
pub mod apt;
pub mod generic;

verus! {

/// One decoded unit (a frame, a summary line of an image ...): a one-line
/// summary and a longer detail text.
#[derive(Debug, Clone)]
pub struct DecodedItem {
    pub summary: String,
    pub detail: String,
}

/// Everything a decoder produced for one signal.
#[derive(Debug, Clone)]
pub struct DecodeOutput {
    pub items: Vec<DecodedItem>,
    /// Set when a decoder produced an image file on disk (e.g. APT).
    pub image_path: Option<String>,
}

impl DecodedItem {
    /// An item made of two literal texts.
    pub fn from_texts(summary: &str, detail: &str) -> (item: DecodedItem)
        ensures
            item.summary@ == summary@,
            item.detail@ == detail@,
    {
        DecodedItem { summary: String::from_str(summary), detail: String::from_str(detail) }
    }
}

impl Default for DecodeOutput {
    /// No items and no image.
    fn default() -> (out: DecodeOutput)
        ensures
            out.items@.len() == 0,
            out.image_path is None,
    {
        DecodeOutput { items: Vec::new(), image_path: None }
    }
}

} // verus!
