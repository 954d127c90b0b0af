use hartree_fock::error::ScfError;
use hartree_fock::records::{parse_index, parse_record, split_fields, zero_based, Field};

fn texts<'a>(line: &'a [u8], fields: &[Field]) -> Vec<&'a [u8]> {
    fields.iter().map(|f| &line[f.start..f.end]).collect()
}

#[test]
fn split_fields_of_a_one_electron_record() {
    let line = b"  3 1   -0.0000000000000039\n";
    let fields = split_fields(line);
    assert_eq!(
        fields,
        vec![
            Field { start: 2, end: 3 },
            Field { start: 4, end: 5 },
            Field { start: 8, end: 27 },
        ]
    );
    let expected: Vec<&[u8]> = vec![b"3", b"1", b"-0.0000000000000039"];
    assert_eq!(texts(line, &fields), expected);
}

#[test]
fn split_fields_of_lines_without_fields() {
    assert_eq!(split_fields(b""), Vec::<Field>::new());
    assert_eq!(split_fields(b" "), Vec::<Field>::new());
    assert_eq!(split_fields(b" \t\r\n\x0b\x0c"), Vec::<Field>::new());
}

#[test]
fn split_fields_at_the_ends_of_a_line() {
    assert_eq!(split_fields(b"a"), vec![Field { start: 0, end: 1 }]);
    assert_eq!(split_fields(b"ab"), vec![Field { start: 0, end: 2 }]);
    assert_eq!(split_fields(b" ab"), vec![Field { start: 1, end: 3 }]);
    assert_eq!(split_fields(b"ab "), vec![Field { start: 0, end: 2 }]);
    assert_eq!(
        split_fields(b"a b"),
        vec![Field { start: 0, end: 1 }, Field { start: 2, end: 3 }]
    );
}

#[test]
fn split_fields_treats_every_blank_alike() {
    let line = b"1\t2\x0b3\x0c4\r5\n6 7";
    let fields = split_fields(line);
    let expected: Vec<&[u8]> = vec![b"1", b"2", b"3", b"4", b"5", b"6", b"7"];
    assert_eq!(texts(line, &fields), expected);
    let other = b"1\x002\x1f3\x7f4\xa05";
    assert_eq!(split_fields(other), vec![Field { start: 0, end: other.len() }]);
}

#[test]
fn split_fields_agrees_with_splitting_on_whitespace() {
    let lines: [&str; 5] = [
        "1 1 1 1 4.7850654047",
        "\t7  7 7\t7   0.8801590934 \r\n",
        "8.002367061810450",
        "   ",
        "x  yy   zzz    wwww",
    ];
    for line in lines {
        let bytes = line.as_bytes();
        let expected: Vec<&[u8]> = line.split_whitespace().map(|t| t.as_bytes()).collect();
        assert_eq!(texts(bytes, &split_fields(bytes)), expected);
    }
}

#[test]
fn parse_index_reads_decimal_digits() {
    assert_eq!(parse_index(b"0"), Some(0));
    assert_eq!(parse_index(b"7"), Some(7));
    assert_eq!(parse_index(b"12"), Some(12));
    assert_eq!(parse_index(b"007"), Some(7));
    assert_eq!(parse_index(b"4096"), Some(4096));
    assert_eq!(parse_index(b"1234567890"), Some(1234567890));
}

#[test]
fn parse_index_rejects_what_is_not_a_number() {
    assert_eq!(parse_index(b""), None);
    assert_eq!(parse_index(b" "), None);
    assert_eq!(parse_index(b"-1"), None);
    assert_eq!(parse_index(b"+1"), None);
    assert_eq!(parse_index(b"1a"), None);
    assert_eq!(parse_index(b"a1"), None);
    assert_eq!(parse_index(b"1.0"), None);
    assert_eq!(parse_index(b"1 "), None);
    assert_eq!(parse_index(b"/"), None);
    assert_eq!(parse_index(b":"), None);
}

#[test]
fn parse_index_at_the_limit_of_usize() {
    let max = format!("{}", usize::MAX);
    assert_eq!(parse_index(max.as_bytes()), Some(usize::MAX));
    let padded = format!("000{}", usize::MAX);
    assert_eq!(parse_index(padded.as_bytes()), Some(usize::MAX));
    let ten_times = format!("{}0", usize::MAX);
    assert_eq!(parse_index(ten_times.as_bytes()), None);
    let one_more = format!("{}", usize::MAX as u128 + 1);
    assert_eq!(parse_index(one_more.as_bytes()), None);
    let then_letter = format!("{}0x", usize::MAX);
    assert_eq!(parse_index(then_letter.as_bytes()), None);
}

#[test]
fn zero_based_shifts_indices_within_the_basis() {
    assert_eq!(zero_based(1, 7), Ok(0));
    assert_eq!(zero_based(7, 7), Ok(6));
    assert_eq!(zero_based(1, 1), Ok(0));
    assert_eq!(zero_based(usize::MAX, usize::MAX), Ok(usize::MAX - 1));
}

#[test]
fn zero_based_rejects_indices_outside_the_basis() {
    assert_eq!(zero_based(0, 7), Err(ScfError::DimensionMismatch));
    assert_eq!(zero_based(8, 7), Err(ScfError::DimensionMismatch));
    assert_eq!(zero_based(1, 0), Err(ScfError::DimensionMismatch));
    assert_eq!(zero_based(0, 0), Err(ScfError::DimensionMismatch));
}

#[test]
fn parse_record_of_an_integral() {
    let line = b"  2   1   1   1        0.4441076580\n";
    let record = parse_record(line, 4).unwrap();
    assert_eq!(record.indices, vec![2, 1, 1, 1]);
    assert_eq!(&line[record.value.start..record.value.end], b"0.4441076580");
}

#[test]
fn parse_record_of_a_matrix_element() {
    let line = b"7 3 -0.0018335626";
    let record = parse_record(line, 2).unwrap();
    assert_eq!(record.indices, vec![7, 3]);
    assert_eq!(record.value, Field { start: 4, end: 17 });
}

#[test]
fn parse_record_of_a_lone_scalar() {
    let line = b"8.002367061810450\n";
    let record = parse_record(line, 0).unwrap();
    assert_eq!(record.indices, Vec::<usize>::new());
    assert_eq!(record.value, Field { start: 0, end: 17 });
}

#[test]
fn parse_record_rejects_the_wrong_number_of_fields() {
    assert!(parse_record(b"1 2 0.5", 4).is_none());
    assert!(parse_record(b"1 2 3 4 0.5", 2).is_none());
    assert!(parse_record(b"1 2", 2).is_none());
    assert!(parse_record(b"", 0).is_none());
    assert!(parse_record(b"   ", 0).is_none());
    assert!(parse_record(b"1 0.5", 0).is_none());
    assert!(parse_record(b"1 0.5", usize::MAX).is_none());
}

#[test]
fn parse_record_rejects_indices_that_are_not_numbers() {
    assert!(parse_record(b"1 x 0.5", 2).is_none());
    assert!(parse_record(b"-1 2 0.5", 2).is_none());
    assert!(parse_record(b"1.0 2 0.5", 2).is_none());
    assert!(parse_record(b"1 2 3 99999999999999999999999999 0.5", 4).is_none());
    assert!(parse_record(b"1 2 x", 2).is_some());
}
