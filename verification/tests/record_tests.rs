use logistic_regression::record::parse_record;
use logistic_regression::record::parse_records;
use logistic_regression::record::split_fields;
use logistic_regression::record::COMMA;

fn bytes(words: &[&str]) -> Vec<Vec<u8>> {
    words.iter().map(|word| word.as_bytes().to_vec()).collect()
}

#[test]
fn comma_is_the_ascii_comma() {
    assert_eq!(COMMA, b',');
}

#[test]
fn fields_of_a_plain_line() {
    assert_eq!(split_fields(b"34.6,78.0,0"), bytes(&["34.6", "78.0", "0"]));
}

#[test]
fn fields_of_a_line_without_comma() {
    assert_eq!(split_fields(b"hello"), bytes(&["hello"]));
}

#[test]
fn fields_of_the_empty_line() {
    assert_eq!(split_fields(b""), bytes(&[""]));
}

#[test]
fn fields_keep_empty_stretches() {
    assert_eq!(split_fields(b","), bytes(&["", ""]));
    assert_eq!(split_fields(b"a,,b,"), bytes(&["a", "", "b", ""]));
    assert_eq!(split_fields(b",a"), bytes(&["", "a"]));
}

#[test]
fn fields_keep_other_bytes() {
    assert_eq!(split_fields(b" 1 ;2\t,\x00\xff"), vec![b" 1 ;2\t".to_vec(), b"\x00\xff".to_vec()]);
}

#[test]
fn record_label_follows_the_last_comma() {
    let record = parse_record(b"34.6,78.0,1").unwrap();
    assert_eq!(record.features, bytes(&["34.6", "78.0"]));
    assert_eq!(record.label, b"1".to_vec());
}

#[test]
fn record_of_one_feature() {
    let record = parse_record(b"10,0").unwrap();
    assert_eq!(record.features, bytes(&["10"]));
    assert_eq!(record.label, b"0".to_vec());
}

#[test]
fn record_of_a_lone_comma() {
    let record = parse_record(b",").unwrap();
    assert_eq!(record.features, bytes(&[""]));
    assert_eq!(record.label, b"".to_vec());
}

#[test]
fn record_with_trailing_comma_has_empty_label() {
    let record = parse_record(b"1,2,").unwrap();
    assert_eq!(record.features, bytes(&["1", "2"]));
    assert_eq!(record.label, b"".to_vec());
}

#[test]
fn line_without_comma_holds_no_record() {
    assert!(parse_record(b"").is_none());
    assert!(parse_record(b"42").is_none());
    assert!(parse_record(b"no comma here").is_none());
}

#[test]
fn records_pass_over_lines_without_comma() {
    let lines = bytes(&["1,2,0", "", "# note", "3,4,1", "5"]);
    let records = parse_records(&lines);
    assert_eq!(records.len(), 2);
    assert_eq!(records[0].features, bytes(&["1", "2"]));
    assert_eq!(records[0].label, b"0".to_vec());
    assert_eq!(records[1].features, bytes(&["3", "4"]));
    assert_eq!(records[1].label, b"1".to_vec());
}

#[test]
fn records_of_no_lines() {
    assert!(parse_records(&[]).is_empty());
}

#[test]
fn records_join_back_to_their_lines() {
    let lines = bytes(&["0.5,1.5,2.5,1", ",,", "x,y"]);
    let records = parse_records(&lines);
    assert_eq!(records.len(), 3);
    for (record, line) in records.iter().zip(lines.iter()) {
        let mut fields = record.features.clone();
        fields.push(record.label.clone());
        assert_eq!(&fields.join(&b','), line);
        assert!(fields.iter().all(|field| !field.contains(&b',')));
    }
}
