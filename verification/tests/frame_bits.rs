use ft8lib::bits::{
    bits_to_int, bits_to_usize, check_crc14, compute_crc14, i3_n3, is_valid_message_type,
    message_type, slice_bits,
};
use ft8lib::tones::{
    costas_index, count_matches, data_symbol_index, data_symbols, extend_matches,
    get_ft8_tones_from_codeword, in_part, RefPart, ICOS7,
};

fn sample_message() -> Vec<u8> {
    (0..77).map(|i| ((i * 7 + i / 3) % 2) as u8).collect()
}

#[test]
fn bits_pack_most_significant_first() {
    assert_eq!(bits_to_int(&[1, 0, 1]), 5);
    assert_eq!(bits_to_int(&[]), 0);
    assert_eq!(bits_to_usize(&[1, 1, 0, 1]), 13);
    assert_eq!(slice_bits(&[1, 0, 0, 1, 1], 1, 4), vec![0, 0, 1]);
}

#[test]
fn crc_of_zero_message_is_zero() {
    assert_eq!(compute_crc14(&[0u8; 77]), 0);
    assert!(check_crc14(&[0u8; 91]));
}

#[test]
fn appended_crc_passes_and_a_flipped_bit_fails() {
    let msg = sample_message();
    let crc = compute_crc14(&msg);
    assert!(crc < 0x4000);
    let mut word = msg.clone();
    for i in 0..14 {
        word.push(((crc >> (13 - i)) & 1) as u8);
    }
    assert!(check_crc14(&word));
    word[10] ^= 1;
    assert!(!check_crc14(&word));
    word[10] ^= 1;
    word[80] ^= 1;
    assert!(!check_crc14(&word));
}

#[test]
fn message_type_fields() {
    let mut m = vec![0u8; 77];
    m[71] = 1;
    m[73] = 1;
    m[76] = 1;
    assert_eq!(message_type(&m), (5, 1));
    assert_eq!(i3_n3(&m), (1, 5));
    assert!(is_valid_message_type(&m));
    let mut free_text_bad = vec![0u8; 77];
    free_text_bad[72] = 1;
    assert!(!is_valid_message_type(&free_text_bad));
    let mut i3_seven = vec![0u8; 77];
    i3_seven[74] = 1;
    i3_seven[75] = 1;
    i3_seven[76] = 1;
    assert!(!is_valid_message_type(&i3_seven));
}

#[test]
fn frame_layout_puts_sync_and_data_apart() {
    assert_eq!(costas_index(3), Some(3));
    assert_eq!(costas_index(40), Some(4));
    assert_eq!(costas_index(78), Some(6));
    assert_eq!(costas_index(7), None);
    assert_eq!(data_symbol_index(0), 7);
    assert_eq!(data_symbol_index(29), 43);
    let positions = data_symbols();
    for (i, &k) in positions.iter().enumerate() {
        assert_eq!(costas_index(k), None, "data symbol {i}");
    }
    let mut seen = [false; 79];
    for &k in positions.iter() {
        assert!(!seen[k]);
        seen[k] = true;
    }
    assert_eq!(seen.iter().filter(|s| !**s).count(), 21);
}

#[test]
fn codeword_tones_follow_costas_and_gray_code() {
    let mut cw = vec![0u8; 174];
    cw[0] = 1;
    cw[1] = 1;
    cw[2] = 1;
    cw[3] = 0;
    cw[4] = 1;
    cw[5] = 1;
    let tones = get_ft8_tones_from_codeword(&cw);
    assert_eq!(&tones[0..7], &ICOS7);
    assert_eq!(&tones[36..43], &ICOS7);
    assert_eq!(&tones[72..79], &ICOS7);
    assert_eq!(tones[7], 7);
    assert_eq!(tones[8], 2);
    assert_eq!(tones[9], 0);
}

#[test]
fn tone_matches_are_counted_once() {
    let a = [1i32; 58];
    let mut b = [1i32; 58];
    b[0] = 2;
    b[30] = 2;
    assert_eq!(count_matches(&a, &a, None), (58, 33));
    assert_eq!(count_matches(&a, &b, None), (56, 32));
    let mut matched = [false; 58];
    matched[1] = true;
    assert_eq!(count_matches(&a, &b, Some(&matched)), (55, 32));
    let (n, c) = extend_matches(&a, &b, &mut matched, 10, 20);
    assert_eq!((n, c), (65, 52));
    assert!(matched[1] && matched[2] && !matched[0] && !matched[30]);
    let (n2, c2) = extend_matches(&a, &b, &mut matched, 0, 0);
    assert_eq!((n2, c2), (0, 0));
}

#[test]
fn reference_parts() {
    assert!(in_part(30, None));
    assert!(in_part(26, Some(RefPart::Parity)));
    assert!(!in_part(25, Some(RefPart::Parity)));
    assert!(in_part(8, Some(RefPart::MyCall)));
    assert!(!in_part(9, Some(RefPart::MyCall)));
    assert!(in_part(30, Some(RefPart::Other)) && !in_part(12, Some(RefPart::Other)));
}
