use ft8lib::bits::{check_crc14, compute_crc14};
use ft8lib::ldpc::{encode174_91, generate_ldpc_g_matrix, get_ft8_tones_from_77bits};
use ft8lib::tones::get_ft8_tones_from_codeword;

const ZERO_ROW: &str = "00000000000000000000000";

fn table(first: &str, second: &str) -> Vec<&'static str> {
    let mut rows: Vec<&'static str> = vec![ZERO_ROW; 83];
    rows[0] = Box::leak(first.to_string().into_boxed_str());
    rows[1] = Box::leak(second.to_string().into_boxed_str());
    rows
}

fn message(seed: u32) -> Vec<u8> {
    (0..77u32).map(|i| ((i * 7 + seed) % 3 == 0) as u8).collect()
}

#[test]
fn hex_rows_become_generator_bits() {
    let rows = table("a000000000000000000000F", "0000000000000000000000z");
    let g = generate_ldpc_g_matrix(&rows);
    assert_eq!(g.len(), 83);
    assert!(g.iter().all(|row| row.len() == 91));
    assert_eq!(&g[0][..4], &[1, 0, 1, 0]);
    assert!(g[0][4..88].iter().all(|&b| b == 0));
    // The last digit carries only its top three bits.
    assert_eq!(&g[0][88..91], &[1, 1, 1]);
    // A byte that is no hex digit counts as zero.
    assert!(g[1].iter().all(|&b| b == 0));
}

#[test]
fn codeword_is_message_crc_and_parity() {
    let rows = table("80000000000000000000000", "fffffffffffffffffffffff");
    let msg = message(1);
    let cw = encode174_91(&msg, &rows);
    assert_eq!(cw.len(), 174);
    assert_eq!(&cw[..77], &msg[..]);
    let crc = compute_crc14(&msg);
    for i in 0..14 {
        assert_eq!(cw[77 + i] as u16, (crc >> (13 - i)) & 1);
    }
    // Row 0 picks the first bit, row 1 sums all 91, the rest pick none.
    assert_eq!(cw[91], msg[0]);
    let ones: u32 = cw[..91].iter().map(|&b| b as u32).sum();
    assert_eq!(cw[92] as u32, ones % 2);
    assert!(cw[93..].iter().all(|&b| b == 0));
}

#[test]
fn encoded_words_pass_the_crc_check() {
    let rows = table("8329ce11bf31eaf509f27fc", "761c264e25c259335493132");
    for seed in 0..5 {
        let msg = message(seed);
        let cw = encode174_91(&msg, &rows);
        assert!(check_crc14(&cw[..91]));
        let mut corrupted = cw.clone();
        corrupted[3] ^= 1;
        assert!(!check_crc14(&corrupted[..91]));
    }
}

#[test]
fn tones_of_77_bits_go_through_the_codeword() {
    let rows = table("dc265902fb277c6410a1bdc", "1b3f417858cd2dd33ec7f62");
    let msg = message(2);
    let cw = encode174_91(&msg, &rows);
    assert_eq!(get_ft8_tones_from_77bits(&msg, &rows), get_ft8_tones_from_codeword(&cw));
    let tones = get_ft8_tones_from_77bits(&msg, &rows);
    assert_eq!(&tones[..7], &[3, 1, 4, 0, 6, 5, 2]);
    assert!(tones.iter().all(|&t| (0..8).contains(&t)));
}

#[test]
fn every_single_bit_error_fails_the_crc() {
    let rows = table("8329ce11bf31eaf509f27fc", "761c264e25c259335493132");
    let msg = message(4);
    let cw = encode174_91(&msg, &rows);
    assert!(check_crc14(&cw[..91]));
    for k in 0..91 {
        let mut word = cw[..91].to_vec();
        word[k] ^= 1;
        assert!(!check_crc14(&word), "bit {k}");
    }
}

#[test]
fn encoder_is_linear_over_gf2() {
    let rows = table("dc265902fb277c6410a1bdc", "fffffffffffffffffffffff");
    let a = message(1);
    let b = message(2);
    let x: Vec<u8> = a.iter().zip(&b).map(|(p, q)| p ^ q).collect();
    let ca = encode174_91(&a, &rows);
    let cb = encode174_91(&b, &rows);
    let cx = encode174_91(&x, &rows);
    let xored: Vec<u8> = ca.iter().zip(&cb).map(|(p, q)| p ^ q).collect();
    assert_eq!(cx, xored);
    assert!(ca.iter().all(|&bit| bit <= 1));
}
