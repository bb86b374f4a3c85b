//! The state of the decoding channels that the user interface shows, and
//! the decisions of one "load and decode" run.
use vstd::prelude::*;
use crate::decoders::adsb::{decodes_frame, AdsbDecoder};
use crate::decoders::DecodeOutput;
use crate::sources::packet::{is_whitespace, is_whitespace_exec, text_frames, PacketStreamSource};
use crate::sources::{io_message_text, SourceError};
use crate::text::chars_of;

verus! {

/// The kind of source a channel reads.
#[derive(Debug, Clone, Copy, PartialEq, Eq, Structural)]
pub enum SourceKind {
    Iq,
    Audio,
    Packet,
}

/// One channel of the view: a source kind, whether it is shown, the path
/// the user typed, and the outcome of the last decoding run.
pub struct ChannelState {
    pub kind: SourceKind,
    pub enabled: bool,
    pub path: String,
    pub output: Option<DecodeOutput>,
    pub error: Option<String>,
}

/// The label of a channel of this kind.
pub open spec fn kind_label(kind: SourceKind) -> Seq<char> {
    match kind {
        SourceKind::Iq => "IQ / SDR raw file  (.cu8 / .cf32)"@,
        SourceKind::Audio => "Audio (WAV) file  — e.g. NOAA APT pass"@,
        SourceKind::Packet => "Packet / data stream  — hex frames, e.g. ADS-B"@,
    }
}

/// A fresh channel: empty path and no outcome yet.
pub open spec fn is_fresh(channel: ChannelState, kind: SourceKind, enabled: bool) -> bool {
    &&& channel.kind == kind
    &&& channel.enabled == enabled
    &&& channel.path@ == Seq::<char>::empty()
    &&& channel.output is None
    &&& channel.error is None
}

impl ChannelState {
    /// A channel of the given kind with an empty path and no outcome.
    pub fn new(kind: SourceKind, enabled: bool) -> (channel: ChannelState)
        ensures
            is_fresh(channel, kind, enabled),
    {
        ChannelState { kind, enabled, path: String::new(), output: None, error: None }
    }

    /// The label shown beside the channel's checkbox.
    pub fn label(&self) -> (label: &'static str)
        ensures
            label@ == kind_label(self.kind),
    {
        match self.kind {
            SourceKind::Iq => "IQ / SDR raw file  (.cu8 / .cf32)",
            SourceKind::Audio => "Audio (WAV) file  — e.g. NOAA APT pass",
            SourceKind::Packet => "Packet / data stream  — hex frames, e.g. ADS-B",
        }
    }

    /// Records the outcome of a decoding run: a success replaces the output
    /// and clears the error, a failure clears the output and keeps the
    /// message. Kind, switch and path stay as they were.
    pub fn record(&mut self, result: Result<DecodeOutput, String>)
        ensures
            final(self).kind == old(self).kind,
            final(self).enabled == old(self).enabled,
            final(self).path == old(self).path,
            match result {
                Ok(out) => final(self).output == Some(out) && final(self).error is None,
                Err(e) => final(self).output is None && final(self).error == Some(e),
            },
    {
        match result {
            Ok(out) => {
                self.output = Some(out);
                self.error = None;
            },
            Err(e) => {
                self.output = None;
                self.error = Some(e);
            },
        }
    }
}

/// The channels of the application window.
pub struct SignalInterpreterApp {
    pub channels: Vec<ChannelState>,
}

impl Default for SignalInterpreterApp {
    /// Three enabled channels, one per source kind: IQ, audio, packets.
    fn default() -> (app: SignalInterpreterApp)
        ensures
            app.channels@.len() == 3,
            is_fresh(app.channels@[0], SourceKind::Iq, true),
            is_fresh(app.channels@[1], SourceKind::Audio, true),
            is_fresh(app.channels@[2], SourceKind::Packet, true),
    {
        let mut channels: Vec<ChannelState> = Vec::new();
        channels.push(ChannelState::new(SourceKind::Iq, true));
        channels.push(ChannelState::new(SourceKind::Audio, true));
        channels.push(ChannelState::new(SourceKind::Packet, true));
        SignalInterpreterApp { channels }
    }
}

/// What was read from the file of a channel.
pub enum LoadedFile {
    /// The text of a packet stream file.
    Text(String),
    /// An I/Q capture, already summarised by the generic inspector (its
    /// statistics are floating point).
    Iq(DecodeOutput),
    /// An audio recording, already run through the APT decoder and the
    /// generic inspector (both work on floating-point samples).
    Audio { apt: DecodeOutput, generic: DecodeOutput },
}

/// The text holds only whitespace (it is empty once trimmed).
pub open spec fn is_blank(s: Seq<char>) -> bool {
    forall|i: int| 0 <= i < s.len() ==> is_whitespace(#[trigger] s[i])
}

/// Whether a path is empty once leading and trailing whitespace is removed.
pub fn path_is_blank(path: &str) -> (blank: bool)
    ensures
        blank == is_blank(path@),
{
    let chars = chars_of(path);
    let n = chars.len();
    let mut i: usize = 0;
    while i < n
        invariant
            n == chars@.len(),
            chars@ == path@,
            0 <= i <= n,
            forall|j: int| 0 <= j < i ==> is_whitespace(#[trigger] path@[j]),
        decreases n - i,
    {
        if !is_whitespace_exec(chars[i]) {
            return false;
        }
        i = i + 1;
    }
    true
}

/// `result` is what a channel shows for what was read from its file: a read
/// error becomes its message; a packet stream text is parsed and decoded as
/// ADS-B; an I/Q capture shows the inspector's output; an audio recording
/// shows the APT decoder's output when it produced an image, the generic
/// inspector's output otherwise.
pub open spec fn decoded_from(loaded: Result<LoadedFile, SourceError>, result: Result<DecodeOutput, String>) -> bool {
    match loaded {
        Err(SourceError::Format(m)) => result matches Err(r) && r@ == m@,
        Err(SourceError::Io(_)) => result matches Err(r) && exists|os_text: Seq<char>|
            r@ == #[trigger] io_message_text(os_text),
        Ok(LoadedFile::Iq(out)) => result == Ok::<DecodeOutput, String>(out),
        Ok(LoadedFile::Audio { apt, generic }) => if apt.image_path is Some {
            result == Ok::<DecodeOutput, String>(apt)
        } else {
            result == Ok::<DecodeOutput, String>(generic)
        },
        Ok(LoadedFile::Text(t)) => if text_frames(t@).len() == 0 {
            result matches Err(r) && r@
                == "no valid hex frames found (expected one hex-encoded frame per line)"@
        } else {
            result matches Ok(out) && out.image_path is None && out.items@.len() == text_frames(
                t@,
            ).len() && forall|i: int|
                0 <= i < text_frames(t@).len() ==> #[trigger] decodes_frame(
                    out.items@[i],
                    text_frames(t@)[i],
                )
        },
    }
}

/// What a channel shows for what was read from its file (see `decoded_from`).
pub fn decode_loaded(loaded: Result<LoadedFile, SourceError>) -> (result: Result<
    DecodeOutput,
    String,
>)
    ensures
        decoded_from(loaded, result),
{
    match loaded {
        Err(e) => Err(e.message()),
        Ok(LoadedFile::Iq(out)) => Ok(out),
        Ok(LoadedFile::Audio { apt, generic }) => {
            if apt.image_path.is_some() {
                Ok(apt)
            } else {
                Ok(generic)
            }
        },
        Ok(LoadedFile::Text(t)) => match PacketStreamSource.parse_frames(t.as_str()) {
            Err(e) => Err(e.message()),
            Ok(frames) => {
                let out = AdsbDecoder.decode(Some(&frames));
                assert forall|i: int| 0 <= i < text_frames(t@).len() implies #[trigger] decodes_frame(
                    out.items@[i],
                    text_frames(t@)[i],
                ) by {
                    assert(frames@.map_values(|f: Vec<u8>| f@)[i] == frames@[i]@);
                    assert(decodes_frame(out.items@[i], frames@[i]@));
                }
                Ok(out)
            },
        },
    }
}

/// One "load and decode" run of a channel. A blank path is refused with a
/// message before anything is read; otherwise `load` reads the file with the
/// source of the channel's kind, and the result is what the channel shows
/// for what it read (see `decoded_from`).
pub fn load_and_decode<F>(kind: SourceKind, path: &str, load: F) -> (result: Result<
    DecodeOutput,
    String,
>) where F: FnOnce(SourceKind, &str) -> Result<LoadedFile, SourceError>
    requires
        !is_blank(path@) ==> call_requires(load, (kind, path)),
    ensures
        is_blank(path@) ==> (result matches Err(m) && m@ == "Enter a file path first."@),
        !is_blank(path@) ==> exists|loaded: Result<LoadedFile, SourceError>|
            #[trigger] call_ensures(load, (kind, path), loaded) && decoded_from(loaded, result),
{
    if path_is_blank(path) {
        return Err(String::from_str("Enter a file path first."));
    }
    let loaded = load(kind, path);
    let ghost seen = loaded;
    let result = decode_loaded(loaded);
    assert(call_ensures(load, (kind, path), seen) && decoded_from(seen, result));
    result
}

} // verus!
