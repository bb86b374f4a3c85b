use signal_interpreter::decoders::apt::{AptDecoder, APT_DECIMATION, APT_LINE_WIDTH, APT_WORKING_RATE};
use signal_interpreter::decoders::generic::GenericDecoder;
use signal_interpreter::decoders::{DecodeOutput, DecodedItem};

#[test]
fn generic_packet_report() {
    let frames = vec![vec![0x01, 0xAB, 0xFF], vec![]];
    let out = GenericDecoder.decode_packets(&frames);
    assert_eq!(out.items.len(), 2);
    assert_eq!(out.items[0].summary, "Frame 0: 3 bytes");
    assert_eq!(out.items[0].detail, "01 AB FF");
    assert_eq!(out.items[1].summary, "Frame 1: 0 bytes");
    assert_eq!(out.items[1].detail, "");
    assert_eq!(out.image_path, None);
    assert_eq!(GenericDecoder.name(), "Generic signal inspector");
}

#[test]
fn apt_constants() {
    assert_eq!(APT_WORKING_RATE, 20800);
    assert_eq!(APT_DECIMATION, 5);
    assert_eq!(APT_LINE_WIDTH, 2080);
    assert_eq!(AptDecoder.name(), "NOAA APT weather satellite image");
    assert_eq!(AptDecoder.image_path(), "apt_decoded.png");
}

#[test]
fn apt_needs_audio() {
    let out = AptDecoder.not_audio();
    assert_eq!(out.items.len(), 1);
    assert_eq!(out.items[0].summary, "APT decoder needs an audio source");
    assert_eq!(
        out.items[0].detail,
        "This only works on FM-demodulated audio (WAV) captured from a NOAA APT pass."
    );
    assert_eq!(out.image_path, None);
}

#[test]
fn apt_too_short() {
    match AptDecoder.image_lines(2079) {
        Ok(_) => panic!("a recording shorter than a line has no image"),
        Err(out) => {
            assert_eq!(out.items.len(), 1);
            assert_eq!(out.items[0].summary, "Recording too short to decode a full APT line");
            assert_eq!(
                out.items[0].detail,
                "Got 2079 pixel samples after decimation, need at least 2080."
            );
            assert_eq!(out.image_path, None);
        }
    }
    assert!(AptDecoder.image_lines(0).is_err());
}

#[test]
fn apt_line_count() {
    assert_eq!(AptDecoder.image_lines(2080).ok(), Some(1));
    assert_eq!(AptDecoder.image_lines(4160).ok(), Some(2));
    assert_eq!(AptDecoder.image_lines(6239).ok(), Some(2));
}

#[test]
fn apt_report_saved() {
    let out = AptDecoder.report(3, 11025, 500000, None);
    assert_eq!(out.items.len(), 1);
    assert_eq!(out.items[0].summary, "Decoded 3 image lines from APT audio");
    assert_eq!(
        out.items[0].detail,
        "Input: 11025 Hz, 500000 samples. Resampled to 20800 Hz, envelope-detected, decimated 5x to 2080 px/line."
    );
    assert_eq!(out.image_path, Some("apt_decoded.png".to_string()));
}

#[test]
fn apt_report_save_failed() {
    let out = AptDecoder.report(1, 20800, 10400, Some("disk full".to_string()));
    assert_eq!(out.items.len(), 2);
    assert_eq!(out.items[1].summary, "Failed to save decoded image");
    assert_eq!(out.items[1].detail, "disk full");
    assert_eq!(out.image_path, None);
}

#[test]
fn output_defaults_and_items() {
    let out = DecodeOutput::default();
    assert!(out.items.is_empty());
    assert_eq!(out.image_path, None);
    let item = DecodedItem::from_texts("a", "b");
    assert_eq!(item.summary, "a");
    assert_eq!(item.detail, "b");
}
