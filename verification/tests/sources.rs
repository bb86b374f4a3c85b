use signal_interpreter::decoders::generic::GenericDecoder;
use signal_interpreter::sources::audio::AudioFileSource;
use signal_interpreter::sources::iq::{format_of_lowercase, IqFileSource, IqFormat};
use signal_interpreter::sources::packet::PacketStreamSource;
use signal_interpreter::sources::SourceError;

fn format_message(r: Result<usize, SourceError>) -> String {
    match r {
        Err(SourceError::Format(m)) => m,
        other => panic!("expected a format error, got {:?}", other),
    }
}

#[test]
fn parses_hex_lines() {
    let text = "# comment\n\n*8D4840D6202CC371C32CE0576098;\n  8d40621d58c382d690c8ac2863a7 \r\nABC\nZZ\n  #8D00\nA";
    let frames = PacketStreamSource.parse_frames(text).unwrap();
    assert_eq!(frames.len(), 3);
    assert_eq!(frames[0], vec![0x8D, 0x48, 0x40, 0xD6, 0x20, 0x2C, 0xC3, 0x71, 0xC3, 0x2C, 0xE0, 0x57, 0x60, 0x98]);
    assert_eq!(frames[1][..4], [0x8D, 0x40, 0x62, 0x1D]);
    assert_eq!(frames[2], vec![0xAB]);
}

#[test]
fn unicode_whitespace_before_comment() {
    let frames = PacketStreamSource.parse_frames("\u{3000}\u{a0}# 8D00\n0102").unwrap();
    assert_eq!(frames, vec![vec![0x01, 0x02]]);
}

#[test]
fn no_frames_is_an_error() {
    match PacketStreamSource.parse_frames("# only a comment\n\n   \n") {
        Err(SourceError::Format(m)) => {
            assert_eq!(m, "no valid hex frames found (expected one hex-encoded frame per line)")
        }
        _ => panic!("expected a format error"),
    }
    assert!(PacketStreamSource.parse_frames("").is_err());
}

#[test]
fn hex_dump_reads_back() {
    let frame = vec![0x8D, 0x00, 0xFF, 0x7A];
    let out = GenericDecoder.decode_packets(&vec![frame.clone()]);
    let frames = PacketStreamSource.parse_frames(&out.items[0].detail).unwrap();
    assert_eq!(frames, vec![frame]);
}

#[test]
fn appended_line_appends_frame() {
    let text = "0102\n# c";
    let before = PacketStreamSource.parse_frames(text).unwrap();
    let after = PacketStreamSource.parse_frames(&format!("{text}\n*A0B1;")).unwrap();
    let mut expected = before.clone();
    expected.push(vec![0xA0, 0xB1]);
    assert_eq!(after, expected);
}

#[test]
fn iq_format_by_extension() {
    assert_eq!(IqFileSource.sample_format("capture.CF32"), IqFormat::Cf32);
    assert_eq!(IqFileSource.sample_format("a.cfile"), IqFormat::Cf32);
    assert_eq!(IqFileSource.sample_format("b.Fc32"), IqFormat::Cf32);
    assert_eq!(IqFileSource.sample_format("rec.cu8"), IqFormat::Cu8);
    assert_eq!(IqFileSource.sample_format("noext"), IqFormat::Cu8);
    assert_eq!(IqFileSource.sample_format("cf32"), IqFormat::Cu8);
}

#[test]
fn iq_sample_counts() {
    assert_eq!(IqFileSource.sample_count(IqFormat::Cf32, 16).ok(), Some(2));
    assert_eq!(IqFileSource.sample_count(IqFormat::Cu8, 6).ok(), Some(3));
    assert_eq!(
        format_message(IqFileSource.sample_count(IqFormat::Cf32, 12)),
        "cf32 file length is not a multiple of 8 bytes (float32 I/Q pairs)"
    );
    assert_eq!(
        format_message(IqFileSource.sample_count(IqFormat::Cu8, 3)),
        "cu8 file length is not a multiple of 2 bytes (byte I/Q pairs)"
    );
    assert_eq!(format_message(IqFileSource.sample_count(IqFormat::Cu8, 0)), "no IQ samples found in file");
    assert_eq!(format_message(IqFileSource.sample_count(IqFormat::Cf32, 0)), "no IQ samples found in file");
}

#[test]
fn source_names() {
    assert_eq!(IqFileSource.name(), "IQ / SDR raw file");
    assert_eq!(AudioFileSource.name(), "Audio (WAV) file");
    assert_eq!(PacketStreamSource.name(), "Packet / data stream (hex frames)");
}

#[test]
fn error_messages() {
    let e = SourceError::Format("bad".to_string());
    assert_eq!(e.message(), "bad");
    let e = SourceError::Io(std::io::Error::new(std::io::ErrorKind::NotFound, "missing"));
    assert_eq!(e.message(), "I/O error: missing");
}

#[test]
fn io_errors_convert() {
    let e: SourceError = std::io::Error::new(std::io::ErrorKind::PermissionDenied, "denied").into();
    assert!(matches!(e, SourceError::Io(_)));
    assert_eq!(e.message(), "I/O error: denied");
}

#[test]
fn io_message_text() {
    assert_eq!(signal_interpreter::sources::io_message("No such file"), "I/O error: No such file");
    assert_eq!(signal_interpreter::sources::io_message(""), "I/O error: ");
}

#[test]
fn inserted_ignored_lines_change_nothing() {
    let base = "0102\nA0B1C2";
    let expected = PacketStreamSource.parse_frames(base).unwrap();
    for text in ["# note\n0102\nA0B1C2", "0102\n   \nA0B1C2", "0102\nA0B1C2\n\t#8D00", "0102\n\u{3000}# 11\nA0B1C2"] {
        assert_eq!(PacketStreamSource.parse_frames(text).unwrap(), expected);
    }
}

#[test]
fn wrapped_lines_change_nothing() {
    let base = "0102\n  A0 B1 C2 \n3";
    let wrapped = "*0102;\n*  A0 B1 C2 ;\n*3;";
    assert!(PacketStreamSource.parse_frames(base).is_ok());
    assert_eq!(
        PacketStreamSource.parse_frames(wrapped).unwrap(),
        PacketStreamSource.parse_frames(base).unwrap()
    );
}

#[test]
fn suffix_rule_on_lowercase_paths() {
    assert_eq!(format_of_lowercase("x.cf32"), IqFormat::Cf32);
    assert_eq!(format_of_lowercase("x.cfile"), IqFormat::Cf32);
    assert_eq!(format_of_lowercase("x.fc32"), IqFormat::Cf32);
    assert_eq!(format_of_lowercase("x.CF32"), IqFormat::Cu8);
    assert_eq!(format_of_lowercase(".cf3"), IqFormat::Cu8);
}

#[test]
fn repeated_edits_change_nothing() {
    let mut text = String::from("0102\nA0B1C2\n33");
    let expected = PacketStreamSource.parse_frames(&text).unwrap();
    for edit in 0..6 {
        text = match edit {
            0 => format!("# head\n{text}"),
            1 => text.replacen("0102", "*0102;", 1),
            2 => format!("{text}\n   "),
            3 => text.replacen("\n", "\n\t# mid\n", 1),
            4 => text.replacen("33", "*33;", 1),
            _ => format!("\n{text}"),
        };
        assert_eq!(PacketStreamSource.parse_frames(&text).unwrap(), expected, "after {text:?}");
    }
}
