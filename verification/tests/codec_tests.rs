use xenium_filter_transcripts::codec::{
    convert_hex_array_to_int, decode_cell_id, parse_decimal, shifted_hex_to_hex_array,
};

#[test]
fn reverse_cell_id() {
    let cell_id = "ffkpbaba-1";

    let decoded = decode_cell_id(cell_id).unwrap();

    assert_eq!(decoded.dataset_suffix, 1);
    assert_eq!(decoded.cell_id_prefix, 1437536272);
}

#[test]
fn malformed_inputs_signal_an_error() {
    assert!(decode_cell_id("").is_err());
    assert!(decode_cell_id("noseparator").is_err());
    assert!(decode_cell_id("abc-xyz").is_err());
}

#[test]
fn empty_runs_are_malformed() {
    // Empty letter run, empty digit run, and the bare separator.
    assert!(decode_cell_id("-1").is_err());
    assert!(decode_cell_id("ab-").is_err());
    assert!(decode_cell_id("-").is_err());
}

#[test]
fn letters_outside_the_alphabet_are_malformed() {
    // 'q' and 'z' lie past 'p'; upper case and digits are out too.
    assert!(decode_cell_id("q-1").is_err());
    assert!(decode_cell_id("az-1").is_err());
    assert!(decode_cell_id("A-1").is_err());
    assert!(decode_cell_id("a1-1").is_err());
}

#[test]
fn trailing_text_after_the_suffix_is_malformed() {
    // Everything after the first separator must be digits.
    assert!(decode_cell_id("ab-1-2").is_err());
    assert!(decode_cell_id("ab-1x").is_err());
    assert!(decode_cell_id("ab-+1").is_err());
    assert!(decode_cell_id("ab- 1").is_err());
}

#[test]
fn single_letter_values() {
    // 'a' stands for nibble 0 and 'p' for nibble 15.
    let low = decode_cell_id("a-0").unwrap();
    assert_eq!(low.cell_id_prefix, 0);
    assert_eq!(low.dataset_suffix, 0);

    let high = decode_cell_id("p-7").unwrap();
    assert_eq!(high.cell_id_prefix, 15);
    assert_eq!(high.dataset_suffix, 7);
}

#[test]
fn letters_read_most_significant_first() {
    // "ba" is nibbles 1, 0: hex 0x10.
    let decoded = decode_cell_id("ba-1").unwrap();
    assert_eq!(decoded.cell_id_prefix, 16);
}

#[test]
fn prefix_overflow_is_malformed() {
    // Seventeen letters starting with 'b': hex 1 followed by sixteen
    // zeros, one nibble past what usize holds.
    assert!(decode_cell_id("baaaaaaaaaaaaaaaa-1").is_err());
    // Sixteen 'p' letters: exactly usize::MAX, still well formed.
    let max = decode_cell_id("pppppppppppppppp-1").unwrap();
    assert_eq!(max.cell_id_prefix, usize::MAX);
}

#[test]
fn suffix_overflow_is_malformed() {
    assert!(decode_cell_id("ab-18446744073709551616").is_err());
    let max = decode_cell_id("ab-18446744073709551615").unwrap();
    assert_eq!(max.dataset_suffix, usize::MAX);
}

#[test]
fn shifted_hex_maps_letters_to_nibbles() {
    let nibbles = shifted_hex_to_hex_array("ffkpbaba").unwrap();
    assert_eq!(nibbles, vec![5, 5, 10, 15, 1, 0, 1, 0]);
    assert!(shifted_hex_to_hex_array("ffz").is_err());
    // An empty run maps to an empty array; emptiness is rejected later.
    assert_eq!(shifted_hex_to_hex_array("").unwrap(), Vec::<i32>::new());
}

#[test]
fn hex_array_reads_as_base_sixteen() {
    let value = convert_hex_array_to_int(&[5, 5, 10, 15, 1, 0, 1, 0]).unwrap();
    assert_eq!(value, 0x55AF1010);
    assert_eq!(value, 1437536272);
    assert!(convert_hex_array_to_int(&[]).is_err());
}

#[test]
fn decimal_suffix_parsing() {
    assert_eq!(parse_decimal("0").unwrap(), 0);
    assert_eq!(parse_decimal("0042").unwrap(), 42);
    assert!(parse_decimal("").is_err());
    assert!(parse_decimal("4x2").is_err());
}
