use pod_pool::placeholder::{placeholder_codes, CODE_COUNT};

#[test]
fn a_short_image_gives_one_code_for_each_byte() {
    let codes = placeholder_codes(b"fake image data");
    assert_eq!(codes.len(), CODE_COUNT);
    assert_eq!(codes.len(), 512);
    assert_eq!(codes[0], Some(102));
    assert_eq!(codes[1], Some(97));
    assert_eq!(codes[4], Some(32));
    assert_eq!(codes[14], Some(97));
    assert_eq!(codes[15], None);
    assert_eq!(codes[511], None);
}

#[test]
fn an_empty_image_gives_no_code() {
    let codes = placeholder_codes(b"");
    assert_eq!(codes.len(), 512);
    assert!(codes.iter().all(|code| code.is_none()));
}

#[test]
fn a_long_image_is_cut_into_equal_chunks() {
    // 1536 bytes: chunks of three bytes, 512 of them.
    let data: Vec<u8> = (0..1536).map(|i| (i % 256) as u8).collect();
    let codes = placeholder_codes(&data);
    assert_eq!(codes[0], Some(0 + 1 + 2));
    assert_eq!(codes[1], Some(3 + 4 + 5));
    assert_eq!(codes[511], Some(253 + 254 + 255));
    assert!(codes.iter().all(|code| code.is_some()));
}

#[test]
fn what_lies_behind_the_last_chunk_is_left_out() {
    // 1030 bytes: chunks of two bytes, of which only the first 512 count.
    let data = vec![255u8; 1030];
    let codes = placeholder_codes(&data);
    assert!(codes.iter().all(|code| *code == Some(510)));
    // 600 bytes: chunks of one byte.
    let data = vec![7u8; 600];
    let codes = placeholder_codes(&data);
    assert!(codes.iter().all(|code| *code == Some(7)));
}

#[test]
fn sums_are_taken_modulo_two_thousand() {
    // 5120 bytes of 255: chunks of ten bytes, each summing to 2550.
    let data = vec![255u8; 5120];
    let codes = placeholder_codes(&data);
    assert!(codes.iter().all(|code| *code == Some(550)));
}

#[test]
fn codes_agree_with_chunked_sums() {
    let data: Vec<u8> = (0..5000u32).map(|i| (i * 31 % 251) as u8).collect();
    let codes = placeholder_codes(&data);
    let chunk_size = (data.len() / 512).max(1);
    let mut expected = vec![None; 512];
    for (i, chunk) in data.chunks(chunk_size).enumerate() {
        if i >= 512 {
            break;
        }
        let sum: u32 = chunk.iter().map(|&b| b as u32).sum();
        expected[i] = Some(sum % 2000);
    }
    assert_eq!(codes, expected);
}
