use signal_interpreter::channels::{
    decode_loaded, load_and_decode, path_is_blank, ChannelState, LoadedFile, SignalInterpreterApp,
    SourceKind,
};
use signal_interpreter::decoders::{DecodeOutput, DecodedItem};
use signal_interpreter::sources::SourceError;

fn output(summary: &str, image: Option<&str>) -> DecodeOutput {
    DecodeOutput {
        items: vec![DecodedItem::from_texts(summary, "")],
        image_path: image.map(|s| s.to_string()),
    }
}

#[test]
fn default_channels() {
    let app = SignalInterpreterApp::default();
    assert_eq!(app.channels.len(), 3);
    let kinds: Vec<SourceKind> = app.channels.iter().map(|c| c.kind).collect();
    assert_eq!(kinds, vec![SourceKind::Iq, SourceKind::Audio, SourceKind::Packet]);
    for c in &app.channels {
        assert!(c.enabled);
        assert!(c.path.is_empty());
        assert!(c.output.is_none());
        assert!(c.error.is_none());
    }
}

#[test]
fn labels() {
    assert_eq!(ChannelState::new(SourceKind::Iq, true).label(), "IQ / SDR raw file  (.cu8 / .cf32)");
    assert_eq!(ChannelState::new(SourceKind::Audio, false).label(), "Audio (WAV) file  — e.g. NOAA APT pass");
    assert_eq!(
        ChannelState::new(SourceKind::Packet, true).label(),
        "Packet / data stream  — hex frames, e.g. ADS-B"
    );
    assert!(!ChannelState::new(SourceKind::Audio, false).enabled);
}

#[test]
fn record_outcomes() {
    let mut c = ChannelState::new(SourceKind::Packet, true);
    c.path = "frames.txt".to_string();
    c.record(Err("boom".to_string()));
    assert!(c.output.is_none());
    assert_eq!(c.error.as_deref(), Some("boom"));
    c.record(Ok(output("x", None)));
    assert_eq!(c.output.as_ref().unwrap().items[0].summary, "x");
    assert!(c.error.is_none());
    assert_eq!(c.path, "frames.txt");
    c.record(Err("again".to_string()));
    assert!(c.output.is_none());
}

#[test]
fn blank_paths() {
    assert!(path_is_blank(""));
    assert!(path_is_blank(" \t\n"));
    assert!(path_is_blank("\u{3000}\u{2028}"));
    assert!(!path_is_blank(" a "));
}

#[test]
fn blank_path_reads_nothing() {
    let r = load_and_decode(SourceKind::Iq, "   ", |_, _| -> Result<LoadedFile, SourceError> {
        panic!("nothing is read for a blank path")
    });
    assert_eq!(r.err().as_deref(), Some("Enter a file path first."));
}

#[test]
fn loader_gets_kind_and_path() {
    let r = load_and_decode(SourceKind::Packet, "f.txt", |kind, path| {
        assert_eq!(kind, SourceKind::Packet);
        assert_eq!(path, "f.txt");
        Ok(LoadedFile::Text("8D4840D6202CC371C32CE0576098\n".to_string()))
    });
    let out = r.unwrap();
    assert_eq!(out.items.len(), 1);
    assert_eq!(out.items[0].summary, "ICAO 4840D6: identification, callsign \"KLM1023\"");
}

#[test]
fn audio_prefers_apt_with_image() {
    let r = decode_loaded(Ok(LoadedFile::Audio {
        apt: output("apt", Some("apt_decoded.png")),
        generic: output("generic", None),
    }));
    assert_eq!(r.unwrap().items[0].summary, "apt");
    let r = decode_loaded(Ok(LoadedFile::Audio { apt: output("apt", None), generic: output("generic", None) }));
    assert_eq!(r.unwrap().items[0].summary, "generic");
}

#[test]
fn iq_shows_inspector_output() {
    let r = decode_loaded(Ok(LoadedFile::Iq(output("iq", None))));
    assert_eq!(r.unwrap().items[0].summary, "iq");
}

#[test]
fn errors_become_messages() {
    let r = decode_loaded(Err(SourceError::Format("bad file".to_string())));
    assert_eq!(r.err().as_deref(), Some("bad file"));
    let r = decode_loaded(Err(SourceError::Io(std::io::Error::new(std::io::ErrorKind::NotFound, "nope"))));
    assert_eq!(r.err().as_deref(), Some("I/O error: nope"));
    let r = decode_loaded(Ok(LoadedFile::Text("# nothing\n".to_string())));
    assert_eq!(
        r.err().as_deref(),
        Some("no valid hex frames found (expected one hex-encoded frame per line)")
    );
}
