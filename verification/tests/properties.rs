use sten::{get_crc, Destenable, StenError, Stenable};

type VecByte = Vec<u8>;

#[test]
fn test_crc_known_values() {
    // The standard CRC-32 check value, and two small cases.
    assert_eq!(get_crc(0, b"123456789"), 0xCBF43926);
    assert_eq!(get_crc(0, b""), 0);
    assert_eq!(get_crc(0, &[0xFF]), 0xFF000000);
}

#[test]
fn test_capacity_boundary_exact_fit() {
    // 256 carrier bytes hold a 32-byte frame: 24 payload bytes exactly fit.
    let mut container: Vec<u8> = vec![13; 256];
    let payload: VecByte = vec![7; 24];
    assert_eq!(payload.clone().sten(&mut container), Ok(()));
    assert_eq!(<VecByte>::desten(&container).unwrap(), payload);
}

#[test]
fn test_capacity_boundary_one_byte_over() {
    // One payload byte more makes a 33-byte frame: refused, with the frame
    // length and the maximum reported, and the carrier untouched.
    let mut container: Vec<u8> = vec![13; 256];
    let payload: VecByte = vec![7; 25];
    assert_eq!(
        payload.sten(&mut container),
        Err(StenError::PayloadTooLarge(33, 32))
    );
    assert!(container.iter().all(|b| *b == 13));
}

#[test]
fn test_minimum_carrier_size() {
    // A carrier shorter than 32 bytes always fails extraction, whatever it
    // holds.
    for len in 0..32usize {
        let container: Vec<u8> = vec![0xAB; len];
        assert_eq!(
            <VecByte>::desten(&container),
            Err(StenError::BadPayload)
        );
    }
}

#[test]
fn test_length_past_carrier_is_bad_payload() {
    // All-ones low bits claim a payload of 0xFFFFFFFF bytes: far past the
    // carrier's end, reported rather than faulting.
    let container: Vec<u8> = vec![0xFF; 40];
    assert_eq!(<VecByte>::desten(&container), Err(StenError::BadPayload));
}

#[test]
fn test_length_too_small_is_bad_payload() {
    // A decoded length of zero cannot even hold the checksum.
    let container: Vec<u8> = vec![0x00; 40];
    assert_eq!(<VecByte>::desten(&container), Err(StenError::BadPayload));
}

#[test]
fn test_untouched_bits() {
    // Embedding writes only bit 0 of the consumed bytes and nothing at all
    // beyond them.
    let mut container: Vec<u8> = vec![13; 256];
    let payload: VecByte = vec![0xA5, 0x5A, 0xFF];
    payload.sten(&mut container).unwrap();
    // frame = 4 (length) + 3 (payload) + 4 (checksum) = 11 bytes = 88 bits
    for (i, b) in container.iter().enumerate() {
        if i < 88 {
            assert_eq!(*b & 0xFE, 13 & 0xFE, "bits 1-7 changed at {}", i);
        } else {
            assert_eq!(*b, 13, "byte beyond the frame changed at {}", i);
        }
    }
}

#[test]
fn test_concrete_scenario() {
    // 256 bytes of 13; embedding the single byte 255 writes the frame
    // [05 00 00 00 FF c0 c1 c2 c3] over the first 72 carrier bytes' low
    // bits, and extraction recovers 255.
    let mut container: Vec<u8> = vec![13; 256];
    255u8.sten(&mut container).unwrap();

    let crc = get_crc(0, &[0xFF]);
    let mut expected_frame: Vec<u8> = vec![0x05, 0x00, 0x00, 0x00, 0xFF];
    expected_frame.extend_from_slice(&crc.to_le_bytes());
    assert_eq!(expected_frame.len(), 9);

    for bit in 0..72usize {
        let frame_bit = (expected_frame[bit / 8] >> (bit % 8)) & 1;
        assert_eq!(container[bit] & 1, frame_bit, "wrong low bit at {}", bit);
    }
    for i in 72..256usize {
        assert_eq!(container[i], 13);
    }

    assert_eq!(u8::desten(&container).unwrap(), 255u8);
}

#[test]
fn test_checksum_sensitivity() {
    // Flipping any single low bit in the payload-plus-checksum region (the
    // 40 carrier bytes after the 32 of the length field) fails the
    // checksum.
    let mut container: Vec<u8> = vec![13; 256];
    255u8.sten(&mut container).unwrap();
    for pos in 32..72usize {
        let mut corrupted = container.clone();
        corrupted[pos] ^= 1;
        assert_eq!(
            u8::desten(&corrupted),
            Err(StenError::FailedChecksum),
            "flip at {} not detected",
            pos
        );
    }
}

#[test]
fn test_text_round_trip_fits() {
    // "Hello, Sten" needs a 4 + 11 + 4 = 19 byte frame, within 256 / 8 =
    // 32, so embedding must succeed and extraction must recover the text.
    let mut container: Vec<u8> = vec![13; 256];
    let res = String::from("Hello, Sten").sten(&mut container);
    assert_eq!(res, Ok(()));
    assert_eq!(String::desten(&container).unwrap(), "Hello, Sten");
}

#[test]
fn test_empty_payload_round_trip() {
    let mut container: Vec<u8> = vec![13; 256];
    let payload: VecByte = vec![];
    payload.sten(&mut container).unwrap();
    assert_eq!(<VecByte>::desten(&container).unwrap(), Vec::<u8>::new());
}

#[test]
fn test_carrier_contents_do_not_matter() {
    // Only low bits carry the frame: the same value embeds and extracts in
    // any carrier.
    let mut container: Vec<u8> = (0..=255u8).collect();
    0xCAFEBABEu32.sten(&mut container).unwrap();
    assert_eq!(u32::desten(&container).unwrap(), 0xCAFEBABEu32);
}
