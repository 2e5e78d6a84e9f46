use base64::Engine;
use kitwin::kitty::{
    after_write, delete_image_data_to, delete_visible_images_to, is_retryable, payload_packets,
    write_rgba_frame_native_to, write_rgba_frame_native_with_id_to, write_rgba_frame_scaled_with_id_to,
    transmit_compressed, write_rgba_frame_to, WriteOutcome, WriteStep, FULL_FRAME_IMAGE_ID, STREAM_IMAGE_ID_START,
};
use std::io::Read;

fn decode_frame(bytes: &[u8], header: &str) -> Vec<u8> {
    // Split the stream into packets and collect the payloads.
    let text = bytes.to_vec();
    let mut payload = Vec::new();
    let mut i = 0;
    let mut first = true;
    while i < text.len() {
        assert_eq!(&text[i..i + 3], b"\x1b_G");
        let semi = i + text[i..].iter().position(|&b| b == b';').unwrap();
        let head = std::str::from_utf8(&text[i + 3..semi]).unwrap().to_string();
        if first {
            assert!(head.starts_with(header), "{} does not start with {}", head, header);
            first = false;
        } else {
            assert!(head.starts_with("q=2,m="));
        }
        let end = semi + text[semi..].windows(2).position(|w| w == b"\x1b\\").unwrap();
        payload.extend_from_slice(&text[semi + 1..end]);
        i = end + 2;
    }
    let compressed = base64::prelude::BASE64_STANDARD.decode(&payload).unwrap();
    let mut dec = flate2::read::ZlibDecoder::new(&compressed[..]);
    let mut out = Vec::new();
    dec.read_to_end(&mut out).unwrap();
    out
}

#[test]
fn visible_images_delete_command() {
    let mut out = Vec::new();
    delete_visible_images_to(&mut out);
    assert_eq!(out, b"\x1b_Ga=d,d=A,q=2\x1b\\".to_vec());
}

#[test]
fn image_delete_command_names_the_id() {
    let mut out = b"x".to_vec();
    delete_image_data_to(&mut out, 42);
    assert_eq!(out, b"x\x1b_Ga=d,d=I,i=42,q=2\x1b\\".to_vec());
}

#[test]
fn image_zero_is_never_deleted() {
    let mut out = b"keep".to_vec();
    delete_image_data_to(&mut out, 0);
    assert_eq!(out, b"keep".to_vec());
}

#[test]
fn payload_is_split_into_chunks_of_4096() {
    let payload: Vec<u8> = (0..5000u32).map(|i| b'A' + (i % 26) as u8).collect();
    let mut out = Vec::new();
    payload_packets(&mut out, b"a=T,i=7", &payload);
    let mut expected = Vec::new();
    expected.extend_from_slice(b"\x1b_Ga=T,i=7,m=1;");
    expected.extend_from_slice(&payload[..4096]);
    expected.extend_from_slice(b"\x1b\\");
    expected.extend_from_slice(b"\x1b_Gq=2,m=0;");
    expected.extend_from_slice(&payload[4096..]);
    expected.extend_from_slice(b"\x1b\\");
    assert_eq!(out, expected);
}

#[test]
fn exact_chunk_payload_is_one_packet() {
    let payload = vec![b'Q'; 4096];
    let mut out = Vec::new();
    payload_packets(&mut out, b"c", &payload);
    assert!(out.starts_with(b"\x1b_Gc,m=0;"));
    assert_eq!(out.len(), 3 + 1 + 5 + 4096 + 2);
}

#[test]
fn empty_payload_writes_nothing() {
    let mut out = Vec::new();
    payload_packets(&mut out, b"c", &[]);
    assert!(out.is_empty());
}

#[test]
fn scaled_frame_round_trips_through_compression_and_base64() {
    let pixels: Vec<u8> = (0..(64 * 48 * 4u32)).map(|i| (i * 7 % 251) as u8).collect();
    let mut out = Vec::new();
    write_rgba_frame_scaled_with_id_to(&mut out, &pixels, 64, 48, 10, 5, STREAM_IMAGE_ID_START, true).unwrap();
    let decoded = decode_frame(&out, "a=T,f=32,o=z,i=65536,p=1,s=64,v=48,c=10,r=5,C=1,q=2,m=");
    assert_eq!(decoded, pixels);
    // The wire payload is not the raw pixels.
    assert!(out.len() < pixels.len());
}

#[test]
fn native_frame_with_id_has_no_cell_box() {
    let pixels = vec![0u8; 16];
    let mut out = Vec::new();
    write_rgba_frame_native_with_id_to(&mut out, &pixels, 2, 2, 9, false).unwrap();
    let decoded = decode_frame(&out, "a=T,f=32,o=z,i=9,p=1,s=2,v=2,q=2,m=0");
    assert_eq!(decoded, pixels);
}

#[test]
fn full_frame_deletes_the_reserved_image_first() {
    let pixels = vec![255u8; 8 * 8 * 4];
    let mut out = Vec::new();
    write_rgba_frame_to(&mut out, &pixels, 8, 8, 4, 2, false).unwrap();
    let del = format!("\x1b_Ga=d,d=I,i={},q=2\x1b\\", FULL_FRAME_IMAGE_ID);
    assert!(out.starts_with(del.as_bytes()));
    let decoded = decode_frame(&out[del.len()..], "a=T,f=32,o=z,i=65535,p=1,s=8,v=8,c=4,r=2,q=2,m=0");
    assert_eq!(decoded, pixels);

    let mut native = Vec::new();
    write_rgba_frame_native_to(&mut native, &pixels, 8, 8, true).unwrap();
    assert!(native.starts_with(del.as_bytes()));
    let decoded = decode_frame(&native[del.len()..], "a=T,f=32,o=z,i=65535,p=1,s=8,v=8,C=1,q=2,m=0");
    assert_eq!(decoded, pixels);
}

#[test]
fn large_frame_spans_several_packets() {
    // Noise-like pixels compress poorly, so the payload needs several packets.
    let mut x: u32 = 12345;
    let pixels: Vec<u8> = (0..40000)
        .map(|_| {
            x = x.wrapping_mul(1103515245).wrapping_add(12345);
            (x >> 16) as u8
        })
        .collect();
    let mut out = Vec::new();
    write_rgba_frame_scaled_with_id_to(&mut out, &pixels, 100, 100, 10, 10, 70000, false).unwrap();
    let packets = out.windows(3).filter(|w| *w == b"\x1b_G").count();
    assert!(packets > 1);
    let decoded = decode_frame(&out, "a=T,f=32,o=z,i=70000,p=1,s=100,v=100,c=10,r=10,q=2,m=1");
    assert_eq!(decoded, pixels);
}

#[test]
fn write_steps() {
    assert_eq!(after_write(10, WriteOutcome::Wrote(4)), WriteStep::Continue(6));
    assert_eq!(after_write(10, WriteOutcome::Wrote(10)), WriteStep::Continue(0));
    assert_eq!(after_write(10, WriteOutcome::Wrote(0)), WriteStep::WriteZero);
    assert_eq!(after_write(10, WriteOutcome::Failed { would_block: true, os_error: None }), WriteStep::Retry);
    assert_eq!(after_write(10, WriteOutcome::Failed { would_block: false, os_error: Some(35) }), WriteStep::Retry);
    assert_eq!(after_write(10, WriteOutcome::Failed { would_block: false, os_error: Some(5) }), WriteStep::Fail);
    assert!(is_retryable(false, Some(35)));
    assert!(!is_retryable(false, None));
}

#[test]
fn transmit_compressed_encodes_given_stream() {
    let mut out = Vec::new();
    assert!(transmit_compressed(&mut out, b"a=T,i=7", b"abc").is_ok());
    assert_eq!(out, b"\x1b_Ga=T,i=7,m=0;YWJj\x1b\\".to_vec());
    let mut empty = Vec::new();
    assert!(transmit_compressed(&mut empty, b"a=T", b"").is_ok());
    assert!(empty.is_empty());
}

#[test]
fn transmit_compressed_pads_short_groups() {
    let mut one = Vec::new();
    assert!(transmit_compressed(&mut one, b"q=2", b"a").is_ok());
    assert_eq!(one, b"\x1b_Gq=2,m=0;YQ==\x1b\\".to_vec());
    let mut two = Vec::new();
    assert!(transmit_compressed(&mut two, b"q=2", b"ab").is_ok());
    assert_eq!(two, b"\x1b_Gq=2,m=0;YWI=\x1b\\".to_vec());
    let data: Vec<u8> = (0..3100u32).map(|i| (i % 251) as u8).collect();
    let mut long = Vec::new();
    assert!(transmit_compressed(&mut long, b"a=T", &data).is_ok());
    let expected = base64::engine::general_purpose::STANDARD.encode(&data);
    let mut want = Vec::new();
    want.extend_from_slice(b"\x1b_Ga=T,m=1;");
    want.extend_from_slice(&expected.as_bytes()[..4096]);
    want.extend_from_slice(b"\x1b\\\x1b_Gq=2,m=0;");
    want.extend_from_slice(&expected.as_bytes()[4096..]);
    want.extend_from_slice(b"\x1b\\");
    assert_eq!(long, want);
}
