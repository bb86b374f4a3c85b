use signal_interpreter::decoders::adsb::{
    decode_altitude, decode_callsign, decode_frame, modes_crc_remainder, AdsbDecoder,
};

fn hex(s: &str) -> Vec<u8> {
    (0..s.len())
        .step_by(2)
        .map(|i| u8::from_str_radix(&s[i..i + 2], 16).unwrap())
        .collect()
}

const IDENT: &str = "8D4840D6202CC371C32CE0576098";
const POSITION: &str = "8D40621D58C382D690C8AC2863A7";
const VELOCITY: &str = "8D485020994409940838175B284F";

#[test]
fn crc_of_intact_frames_is_zero() {
    assert_eq!(modes_crc_remainder(&hex(IDENT)), 0);
    assert_eq!(modes_crc_remainder(&hex(POSITION)), 0);
    assert_eq!(modes_crc_remainder(&hex(VELOCITY)), 0);
}

#[test]
fn crc_detects_a_flipped_bit() {
    let mut frame = hex(IDENT);
    frame[5] ^= 0x10;
    assert_ne!(modes_crc_remainder(&frame), 0);
}

#[test]
fn crc_of_data_only_is_the_parity() {
    let frame = hex(IDENT);
    let mut data = frame[..11].to_vec();
    data.extend_from_slice(&[0, 0, 0]);
    assert_eq!(modes_crc_remainder(&data), 0x576098);
}

#[test]
fn appended_parity_checks() {
    let data: Vec<u8> = vec![0x8D, 0x12, 0x34, 0x56, 0x99, 0x01, 0x02, 0x03, 0x04, 0x05, 0x06];
    let mut padded = data.clone();
    padded.extend_from_slice(&[0, 0, 0]);
    let p = modes_crc_remainder(&padded);
    assert!(p < 0x0100_0000);
    let mut frame = data.clone();
    frame.extend_from_slice(&[(p >> 16) as u8, (p >> 8) as u8, p as u8]);
    assert_eq!(modes_crc_remainder(&frame), 0);
}

#[test]
fn crc_of_empty_message_is_zero() {
    assert_eq!(modes_crc_remainder(&[]), 0);
}

#[test]
fn identification_frame() {
    let item = decode_frame(&hex(IDENT));
    assert_eq!(item.summary, "ICAO 4840D6: identification, callsign \"KLM1023\"");
    assert_eq!(
        item.detail,
        "DF=17 CA=5 ICAO=4840D6 CRC=OK\nType code (TC) = 4\nCallsign: KLM1023\nRaw ME field: 20 2C C3 71 C3 2C E0"
    );
}

#[test]
fn airborne_position_frame() {
    let item = decode_frame(&hex(POSITION));
    assert_eq!(item.summary, "ICAO 40621D: airborne position, altitude 38000 ft");
    assert_eq!(
        item.detail,
        "DF=17 CA=5 ICAO=40621D CRC=OK\nType code (TC) = 11\nBarometric altitude: 38000 ft\nRaw ME field: 58 C3 82 D6 90 C8 AC"
    );
}

#[test]
fn gillham_altitude_is_not_decoded() {
    let mut frame = hex(POSITION);
    frame[5] = 0xC2;
    let item = decode_frame(&frame);
    assert_eq!(item.summary, "ICAO 40621D: airborne position (altitude coding not decoded)");
    assert_eq!(
        item.detail,
        "DF=17 CA=5 ICAO=40621D CRC=FAIL\nType code (TC) = 11\nAltitude uses Gillham/Mode-C coding (not decoded here).\nRaw ME field: 58 C2 82 D6 90 C8 AC"
    );
}

#[test]
fn velocity_frame() {
    let item = decode_frame(&hex(VELOCITY));
    assert_eq!(item.summary, "ICAO 485020: airborne velocity message");
    assert_eq!(
        item.detail,
        "DF=17 CA=5 ICAO=485020 CRC=OK\nType code (TC) = 19\nAirborne velocity message (subtype decode not implemented yet).\nRaw ME field: 99 44 09 94 08 38 17"
    );
}

fn with_type_code(tc: u8) -> Vec<u8> {
    let mut frame = hex(IDENT);
    frame[4] = tc << 3;
    frame
}

#[test]
fn other_type_codes() {
    assert_eq!(
        decode_frame(&with_type_code(6)).summary,
        "ICAO 4840D6: surface position (not decoded in detail)"
    );
    assert_eq!(
        decode_frame(&with_type_code(21)).summary,
        "ICAO 4840D6: airborne position with GNSS height (not decoded in detail)"
    );
    assert_eq!(decode_frame(&with_type_code(28)).summary, "ICAO 4840D6: aircraft status message");
    assert_eq!(decode_frame(&with_type_code(25)).summary, "ICAO 4840D6: type code 25 (not decoded)");
    assert_eq!(decode_frame(&with_type_code(0)).summary, "ICAO 4840D6: type code 0 (not decoded)");
    let item = decode_frame(&with_type_code(6));
    assert_eq!(
        item.detail,
        "DF=17 CA=5 ICAO=4840D6 CRC=FAIL\nType code (TC) = 6\nRaw ME field: 30 2C C3 71 C3 2C E0"
    );
}

#[test]
fn short_frame() {
    let item = decode_frame(&[0x5D, 0x48, 0x40, 0xD6, 0x00, 0x00, 0x00]);
    assert_eq!(item.summary, "Short Mode S frame, DF=11");
    assert_eq!(
        item.detail,
        "56-bit short frames (altitude/identity replies) aren't decoded in detail yet — only extended squitter (DF17/18) is."
    );
}

#[test]
fn unrecognized_length() {
    let item = decode_frame(&[1, 2, 3]);
    assert_eq!(item.summary, "Unrecognized frame length (3 bytes)");
    assert_eq!(
        item.detail,
        "Expected 7 bytes (56-bit short Mode S) or 14 bytes (112-bit long Mode S / ADS-B extended squitter)."
    );
    assert_eq!(decode_frame(&[]).summary, "Unrecognized frame length (0 bytes)");
}

#[test]
fn other_downlink_format() {
    let mut frame = hex(IDENT);
    frame[0] = 0xA0;
    let item = decode_frame(&frame);
    assert_eq!(item.summary, "DF=20 frame, ICAO 4840D6, CRC FAIL");
    assert_eq!(
        item.detail,
        "Only DF17/18 (ADS-B extended squitter) is decoded beyond the header right now."
    );
}

#[test]
fn all_zero_long_frame() {
    let item = decode_frame(&[0u8; 14]);
    assert_eq!(item.summary, "DF=0 frame, ICAO 000000, CRC OK");
    assert_eq!(
        item.detail,
        "Only DF17/18 (ADS-B extended squitter) is decoded beyond the header right now."
    );
}

#[test]
fn icao_is_zero_padded() {
    let mut frame = hex(IDENT);
    frame[0] = 0x90; // DF 18
    frame[1] = 0x00;
    frame[2] = 0x0A;
    frame[3] = 0x01;
    assert!(decode_frame(&frame).summary.starts_with("ICAO 000A01: identification"));
}

#[test]
fn callsign_and_altitude() {
    let frame = hex(IDENT);
    assert_eq!(decode_callsign(&frame[4..11]), "KLM1023");
    assert_eq!(decode_altitude(&hex(POSITION)[4..11]), Some(38000));
    assert_eq!(decode_altitude(&[0x58, 0x01, 0x00]), Some(-1000));
    assert_eq!(decode_altitude(&[0x58, 0xFF, 0xF0]), Some(50175));
    assert_eq!(decode_altitude(&[0x58, 0xC2, 0x82]), None);
}

#[test]
fn callsign_padding_is_trimmed() {
    // all codes zero: eight '?' characters, all trimmed
    assert_eq!(decode_callsign(&[0x20, 0, 0, 0, 0, 0, 0]), "");
    // "A" followed by spaces (code 32 = 0b100000)
    // A = 1: bits 000001 100000 100000 ...
    let bits: u64 = (1u64 << 42) | (32 << 36) | (32 << 30) | (32 << 24) | (32 << 18) | (32 << 12) | (32 << 6) | 32;
    let me = [0x20, (bits >> 40) as u8, (bits >> 32) as u8, (bits >> 24) as u8, (bits >> 16) as u8, (bits >> 8) as u8, bits as u8];
    assert_eq!(decode_callsign(&me), "A");
}

#[test]
fn decoder_name_and_non_packet_source() {
    assert_eq!(AdsbDecoder.name(), "ADS-B / Mode S (aircraft transponder)");
    let out = AdsbDecoder.decode(None);
    assert_eq!(out.items.len(), 1);
    assert_eq!(out.items[0].summary, "ADS-B decoder needs a packet/data stream source");
    assert_eq!(
        out.items[0].detail,
        "Feed it hex-encoded Mode S frames, one per line (e.g. dump1090 --raw output)."
    );
    assert_eq!(out.image_path, None);
}

#[test]
fn decoder_decodes_each_frame_in_order() {
    let frames = vec![hex(IDENT), vec![1, 2], hex(POSITION)];
    let out = AdsbDecoder.decode(Some(&frames));
    assert_eq!(out.items.len(), 3);
    assert_eq!(out.items[0].summary, decode_frame(&frames[0]).summary);
    assert_eq!(out.items[1].summary, "Unrecognized frame length (2 bytes)");
    assert_eq!(out.items[2].detail, decode_frame(&frames[2]).detail);
    assert_eq!(out.image_path, None);
}

#[test]
fn wrong_parity_is_rejected() {
    let mut frame = hex(IDENT);
    frame[13] = frame[13].wrapping_add(1);
    assert_ne!(modes_crc_remainder(&frame), 0);
}

#[test]
fn crc_is_linear() {
    let a = hex(IDENT);
    let b = hex(POSITION);
    let c: Vec<u8> = a.iter().zip(b.iter()).map(|(x, y)| x ^ y).collect();
    assert_eq!(modes_crc_remainder(&c), modes_crc_remainder(&a) ^ modes_crc_remainder(&b));
    let d = vec![0x01, 0x80, 0xFF];
    let e = vec![0x10, 0x08, 0x0F];
    let f: Vec<u8> = d.iter().zip(e.iter()).map(|(x, y)| x ^ y).collect();
    assert_eq!(modes_crc_remainder(&f), modes_crc_remainder(&d) ^ modes_crc_remainder(&e));
}

#[test]
fn every_single_bit_error_is_detected() {
    let frame = hex(VELOCITY);
    let r = modes_crc_remainder(&frame);
    for k in 0..8 * frame.len() {
        let mut m = frame.clone();
        m[k / 8] ^= 0x80 >> (k % 8);
        assert_ne!(modes_crc_remainder(&m), r, "bit {k}");
    }
}
