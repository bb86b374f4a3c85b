//! The fallback inspector's report on packet streams.
use vstd::prelude::*;
use crate::decoders::{DecodeOutput, DecodedItem};
use crate::text::{decimal, hex_bytes, push_decimal, push_hex_bytes, push_str};

verus! {

/// Fallback inspector used when no specific protocol decoder applies: reports
/// basic facts about the signal so you can see the tool is receiving
/// *something* even before a dedicated decoder exists for it.
pub struct GenericDecoder;

/// The summary of frame number `index`: its position and length.
pub open spec fn packet_summary(index: nat, frame: Seq<u8>) -> Seq<char> {
    "Frame "@ + decimal(index) + ": "@ + decimal(frame.len()) + " bytes"@
}

/// The item is the inspector's report on frame number `index`: its summary,
/// and the frame's bytes in hexadecimal as detail.
pub open spec fn reports_packet(item: DecodedItem, index: nat, frame: Seq<u8>) -> bool {
    &&& item.summary@ == packet_summary(index, frame)
    &&& item.detail@ == hex_bytes(frame)
}

impl GenericDecoder {
    /// The inspector's display name.
    pub fn name(&self) -> (name: &'static str)
        ensures
            name@ == "Generic signal inspector"@,
    {
        "Generic signal inspector"
    }

    /// Reports each frame of a packet stream: one item per frame, in order,
    /// with its number, length and bytes.
    pub fn decode_packets(&self, frames: &Vec<Vec<u8>>) -> (out: DecodeOutput)
        ensures
            out.image_path is None,
            out.items@.len() == frames@.len(),
            forall|i: int|
                0 <= i < frames@.len() ==> #[trigger] reports_packet(
                    out.items@[i],
                    i as nat,
                    frames@[i]@,
                ),
    {
        let mut items: Vec<DecodedItem> = Vec::new();
        let n = frames.len();
        let mut i: usize = 0;
        while i < n
            invariant
                n == frames@.len(),
                0 <= i <= n,
                items@.len() == i,
                forall|j: int|
                    0 <= j < i ==> #[trigger] reports_packet(items@[j], j as nat, frames@[j]@),
            decreases n - i,
        {
            let frame = &frames[i];
            let mut summary = String::from_str("Frame ");
            push_decimal(&mut summary, i as u64);
            push_str(&mut summary, ": ");
            push_decimal(&mut summary, frame.len() as u64);
            push_str(&mut summary, " bytes");
            let mut detail = String::new();
            push_hex_bytes(&mut detail, frame.as_slice());
            assert(summary@ =~= packet_summary(i as nat, frames@[i as int]@));
            assert(detail@ =~= hex_bytes(frames@[i as int]@));
            items.push(DecodedItem { summary, detail });
            i = i + 1;
        }
        DecodeOutput { items, image_path: None }
    }
}

} // verus!
