use csv_sniffer::field_type::{classify_value, join_types, Type};
use csv_sniffer::metadata::{Comment, Escape, Quote};
use csv_sniffer::schema::{has_header_row, infer_names, infer_types};
use csv_sniffer::sniffer::{sniff, sniff_with, SniffError, SniffLimits};

fn records(rows: &[&[&str]]) -> Vec<Vec<Vec<u8>>> {
    rows.iter()
        .map(|r| r.iter().map(|f| f.as_bytes().to_vec()).collect())
        .collect()
}

fn column_type(values: &[&str]) -> Option<Type> {
    let mut acc = None;
    for v in values {
        acc = join_types(acc, classify_value(v.as_bytes()));
    }
    acc
}

#[test]
fn end_to_end_report() {
    let sample = b"Report generated 2023-01-01\n\nid,name,active\n1,Alice,true\n2,Bob,false\n";
    let m = sniff(sample).unwrap();
    assert_eq!(m.dialect.header.num_preamble_rows, 2);
    assert_eq!(m.dialect.delimiter, b',');
    assert!(m.dialect.header.has_header_row);
    assert_eq!(m.fields, vec!["id".to_string(), "name".to_string(), "active".to_string()]);
    assert_eq!(m.types, vec![Type::Integer, Type::Text, Type::Boolean]);
    assert_eq!(m.num_fields, 3);
    assert_eq!(m.avg_record_len, 12);
    assert_eq!(m.dialect.quote, Quote::Disabled);
    assert!(!m.dialect.flexible);
    assert!(m.dialect.is_utf8);
    assert_eq!(m.dialect.escape, Escape::Disabled);
    assert_eq!(m.dialect.comment, Comment::Disabled);
    assert!(!m.dialect.double_quote);
}

#[test]
fn preamble_of_two_title_lines() {
    let sample = b"Quarterly figures\nAll regions\na,b,c,d\n1,2,3,4\n5,6,7,8\n9,10,11,12\n";
    let m = sniff(sample).unwrap();
    assert_eq!(m.dialect.header.num_preamble_rows, 2);
    assert_eq!(m.num_fields, 4);
}

#[test]
fn no_preamble() {
    let m = sniff(b"1,2\n3,4\n5,6\n").unwrap();
    assert_eq!(m.dialect.header.num_preamble_rows, 0);
    assert!(!m.dialect.header.has_header_row);
    assert_eq!(m.fields, vec!["field 0".to_string(), "field 1".to_string()]);
    assert_eq!(m.types, vec![Type::Integer, Type::Integer]);
}

#[test]
fn consistent_semicolon_delimiter() {
    let m = sniff(b"a;b;c\n1;2;3\n4;5;6\n").unwrap();
    assert_eq!(m.dialect.delimiter, b';');
    assert!(!m.dialect.flexible);
}

#[test]
fn consistent_tab_and_pipe_delimiters() {
    let m = sniff(b"x\ty\n1\t2\n3\t4\n").unwrap();
    assert_eq!(m.dialect.delimiter, b'\t');
    let m = sniff(b"x|y|z\n1|2|3\n").unwrap();
    assert_eq!(m.dialect.delimiter, b'|');
    assert!(!m.dialect.flexible);
}

#[test]
fn crlf_line_endings() {
    let m = sniff(b"a,b\r\n1,2\r\n3,4\r\n").unwrap();
    assert_eq!(m.dialect.delimiter, b',');
    assert_eq!(m.fields, vec!["a".to_string(), "b".to_string()]);
    assert_eq!(m.avg_record_len, 3);
}

#[test]
fn ragged_rows_are_flexible() {
    let m = sniff(b"a,b,c\n1,2,3\n4,5,6\n7,8\n").unwrap();
    assert_eq!(m.dialect.delimiter, b',');
    assert!(m.dialect.flexible);
    assert_eq!(m.num_fields, 3);
}

#[test]
fn single_quote_detected() {
    let m = sniff(b"id,text\n1,'a,b'\n2,'c,d'\n3,more\n4,x\n5,y\n").unwrap();
    assert_eq!(m.dialect.delimiter, b',');
    assert_eq!(m.dialect.quote, Quote::Enabled(b'\''));
    assert!(!m.dialect.flexible);
}

#[test]
fn double_quote_detected() {
    let m = sniff(b"name,city\n\"Smith, J\",Oslo\n\"Doe, A\",Lima\nLee,Rome\nKim,Bern\n").unwrap();
    assert_eq!(m.dialect.quote, Quote::Enabled(b'"'));
    assert!(m.dialect.header.has_header_row == false);
    assert_eq!(m.fields.len(), 2);
}

#[test]
fn sniffing_is_deterministic() {
    let sample = b"Report\n\nid,name,active\n1,Alice,true\n2,Bob,false\n";
    assert_eq!(sniff(sample).unwrap(), sniff(sample).unwrap());
}

#[test]
fn header_of_labels_over_integers() {
    let recs = records(&[&["a", "b", "c"], &["1", "2", "3"], &["4", "5", "6"]]);
    assert!(has_header_row(&recs));
    let names = infer_names(&recs, true);
    assert_eq!(names, vec!["a".to_string(), "b".to_string(), "c".to_string()]);
    assert_eq!(infer_types(&recs, true), vec![Type::Integer; 3]);
}

#[test]
fn no_header_when_all_integers() {
    let recs = records(&[&["7", "8", "9"], &["1", "2", "3"], &["4", "5", "6"]]);
    assert!(!has_header_row(&recs));
    assert_eq!(infer_names(&recs, false)[2], "field 2".to_string());
}

#[test]
fn no_header_for_single_column() {
    let recs = records(&[&["name"], &["1"], &["2"]]);
    assert!(!has_header_row(&recs));
}

#[test]
fn type_join_examples() {
    assert_eq!(column_type(&["1", "2.5", ""]), Some(Type::Float));
    assert_eq!(column_type(&["true", "false"]), Some(Type::Boolean));
    assert_eq!(column_type(&["1", "abc"]), Some(Type::Text));
    assert_eq!(column_type(&["", ""]), None);
}

#[test]
fn value_classification() {
    assert_eq!(classify_value(b""), None);
    assert_eq!(classify_value(b"TRUE"), Some(Type::Boolean));
    assert_eq!(classify_value(b"False"), Some(Type::Boolean));
    assert_eq!(classify_value(b"-42"), Some(Type::Integer));
    assert_eq!(classify_value(b"+7"), Some(Type::Integer));
    assert_eq!(classify_value(b"9223372036854775807"), Some(Type::Integer));
    assert_eq!(classify_value(b"9223372036854775808"), Some(Type::Float));
    assert_eq!(classify_value(b"-9223372036854775808"), Some(Type::Integer));
    assert_eq!(classify_value(b"-9223372036854775809"), Some(Type::Float));
    assert_eq!(classify_value(b"3.25"), Some(Type::Float));
    assert_eq!(classify_value(b".5"), Some(Type::Float));
    assert_eq!(classify_value(b"1e10"), Some(Type::Float));
    assert_eq!(classify_value(b"1.5E-3"), Some(Type::Float));
    assert_eq!(classify_value(b"1e"), Some(Type::Text));
    assert_eq!(classify_value(b"."), Some(Type::Text));
    assert_eq!(classify_value(b"-"), Some(Type::Text));
    assert_eq!(classify_value(b"abc"), Some(Type::Text));
}

#[test]
fn join_is_least_specific() {
    assert_eq!(Type::Boolean.join(Type::Integer), Type::Integer);
    assert_eq!(Type::Float.join(Type::Integer), Type::Float);
    assert_eq!(Type::Text.join(Type::Boolean), Type::Text);
    assert_eq!(join_types(None, Some(Type::Float)), Some(Type::Float));
    assert_eq!(join_types(Some(Type::Integer), None), Some(Type::Integer));
}

#[test]
fn empty_sample_is_an_error() {
    assert_eq!(sniff(b""), Err(SniffError::EmptySample));
}

#[test]
fn inconsistent_delimiter_is_an_error() {
    let sample = b"a\tb\nc\td\te\nf\tg\th\ti\nj\tk\tl\tm\tn\n";
    assert_eq!(sniff(sample), Err(SniffError::NoConsistentDelimiter));
}

#[test]
fn invalid_utf8_is_reported() {
    let m = sniff(b"a,b\n1,\xff\n2,3\n").unwrap();
    assert!(!m.dialect.is_utf8);
}

#[test]
fn utf8_header_names_are_decoded() {
    let m = sniff("café,prix\n1,2\n3,4\n".as_bytes()).unwrap();
    assert!(m.dialect.is_utf8);
    assert_eq!(m.fields[0], "café".to_string());
}

#[test]
fn single_column_sample() {
    let m = sniff(b"alpha\nbeta\ngamma\n").unwrap();
    assert_eq!(m.num_fields, 1);
    assert_eq!(m.dialect.header.num_preamble_rows, 0);
    assert_eq!(m.types, vec![Type::Text]);
}

#[test]
fn join_laws_on_values() {
    let all = [None, Some(Type::Boolean), Some(Type::Integer), Some(Type::Float), Some(Type::Text)];
    for a in all {
        assert_eq!(join_types(None, a), a);
        assert_eq!(join_types(a, Some(Type::Text)), Some(Type::Text));
        assert_eq!(join_types(a, a), a);
        for b in all {
            assert_eq!(join_types(a, b), join_types(b, a));
            for c in all {
                assert_eq!(join_types(join_types(a, b), c), join_types(a, join_types(b, c)));
            }
        }
    }
}

#[test]
fn escape_and_comment_conversions() {
    assert_eq!(Option::<u8>::from(Escape::Enabled(b'\\')), Some(b'\\'));
    assert_eq!(Option::<u8>::from(Escape::Disabled), None);
    assert_eq!(Option::<u8>::from(Comment::Enabled(b'#')), Some(b'#'));
    assert_eq!(Option::<u8>::from(Comment::Disabled), None);
    assert_eq!(Quote::Enabled(b'"').byte(), Some(b'"'));
    assert_eq!(Quote::from_byte(None), Quote::Disabled);
}

#[test]
fn double_quote_recovered_with_pipe_delimiter() {
    let m = sniff(b"id|note\n1|\"a|b\"\n2|\"c|d\"\n3|more\n4|text\n5|rest\n").unwrap();
    assert_eq!(m.dialect.delimiter, b'|');
    assert_eq!(m.dialect.quote, Quote::Enabled(b'"'));
    assert!(!m.dialect.flexible);
    // one label-like column of two is no strict majority
    assert!(!m.dialect.header.has_header_row);
    assert_eq!(m.types, vec![Type::Text, Type::Text]);
}

#[test]
fn doubled_quotes_are_reported() {
    let m = sniff(b"id,quote\n1,\"say \"\"hi\"\"\"\n2,\"x\"\n3,more\n").unwrap();
    assert_eq!(m.dialect.quote, Quote::Enabled(b'"'));
    assert!(m.dialect.double_quote);
    let m = sniff(b"id,text\n1,'a,b'\n2,plain\n3,more\n").unwrap();
    assert!(!m.dialect.double_quote);
}

#[test]
fn one_quoted_row_does_not_enable_quoting() {
    let m = sniff(b"\"a\",1\nb,2\nc,3\n").unwrap();
    assert_eq!(m.dialect.quote, Quote::Disabled);
}

#[test]
fn other_punctuation_quote_detected() {
    let m = sniff(b"~a,b~,1\n~c,d~,2\nx,3\n").unwrap();
    assert_eq!(m.dialect.delimiter, b',');
    assert_eq!(m.dialect.quote, Quote::Enabled(b'~'));
    assert!(!m.dialect.flexible);
    assert_eq!(m.num_fields, 2);
}

#[test]
fn single_quoted_preamble_count() {
    let m = sniff(b"Title line\nid;name\n1;'a;b'\n2;'c;d'\n3;e\n4;f\n5;g\n").unwrap();
    assert_eq!(m.dialect.header.num_preamble_rows, 1);
    assert_eq!(m.dialect.delimiter, b';');
}

#[test]
fn limits_bound_the_examined_rows() {
    let sample = b"a,b\n1,2\n3,4\n5,6\n7,8\n9\n";
    assert!(sniff(sample).unwrap().dialect.flexible);
    let lim = SniffLimits { max_rows: 5, max_preamble: 20, window: 10 };
    let m = sniff_with(sample, lim).unwrap();
    assert_eq!(m.dialect.delimiter, b',');
    assert!(!m.dialect.flexible);
    assert_eq!(m.num_fields, 2);
    let none = SniffLimits { max_rows: 0, max_preamble: 20, window: 10 };
    assert_eq!(sniff_with(sample, none), Err(SniffError::EmptySample));
}

#[test]
fn limits_bound_the_preamble_search() {
    let sample = b"Title\nSubtitle\na,b\n1,2\n3,4\n";
    let m = sniff_with(sample, SniffLimits::standard()).unwrap();
    assert_eq!(m.dialect.header.num_preamble_rows, 2);
    let short = SniffLimits { max_rows: usize::MAX, max_preamble: 1, window: 10 };
    let m = sniff_with(sample, short).unwrap();
    assert_eq!(m.dialect.header.num_preamble_rows, 0);
}
