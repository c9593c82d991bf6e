use csvnorm::{
    decode, encode, header_line, join, lex_precedes, normalize_table, parse_record,
    restore_record, sniff_delimiter, sort_records, split, title_layout, to_title, FieldIterator,
};

fn strings(v: &[&str]) -> Vec<String> {
    v.iter().map(|s| s.to_string()).collect()
}

#[test]
fn test_ascii_to_title() {
    let input = "TOTAL__SPEND";
    let expected = "Total Spend";
    let title = to_title(input);
    assert_eq!(&title, expected);
}

#[test]
fn test_unicode_to_title() {
    let input = " TEST   今日の一枚 test  ";
    let expected = "Test 今日の一枚 Test";
    let title = to_title(input);
    assert_eq!(&title, expected);
}

#[test]
fn test_parse_record() {
    let input = "abc,def,ghi";
    let expected = "abc\x1Fdef\x1Fghi";
    let output = parse_record(input, ',');
    assert_eq!(&output, expected);
}

#[test]
fn test_parse_record_quotes() {
    let input = "abc,\"d,e,f\",jhi";
    let expected = "abc\x1Fd,e,f\x1Fjhi";
    let output = parse_record(input, ',');
    assert_eq!(&output, expected);
}

#[test]
fn test_parse_record_empty_quotes() {
    let input = "x,\"\",z";
    let expected = "x\x1F\x1Fz";
    let output = parse_record(input, ',');
    assert_eq!(&output, expected);
}

#[test]
fn test_parse_record_escaped_quotes() {
    let input = "x,\"\"\"\",z";
    let expected = "x\x1F\"\x1Fz";
    let output = parse_record(input, ',');
    assert_eq!(&output, expected);
}

#[test]
fn parse_and_restore() {
    let input = "abc,def,ghi";
    let expected = "abc;def;ghi";
    let output = restore_record(&parse_record(input, ','), ';');
    assert_eq!(&output, expected);
}

#[test]
fn parse_and_restore_quotes() {
    let input = "abc,\"d,e,f\",ghi";
    let expected = "abc,\"d,e,f\",ghi";
    let output = restore_record(&parse_record(input, ','), ',');
    assert_eq!(&output, expected);
}

#[test]
fn parse_and_restore_no_quotes() {
    let input = "abc,\"d,e,f\",ghi";
    let expected = "abc;d,e,f;ghi";
    let output = restore_record(&parse_record(input, ','), ';');
    assert_eq!(&output, expected);
}

#[test]
fn split_plain_fields() {
    assert_eq!(split("abc,def,ghi", ','), strings(&["abc", "def", "ghi"]));
}

#[test]
fn split_delimiter_inside_quotes() {
    assert_eq!(split("abc,\"d,e,f\",jhi", ','), strings(&["abc", "d,e,f", "jhi"]));
}

#[test]
fn split_empty_quoted_field() {
    assert_eq!(split("x,\"\",z", ','), strings(&["x", "", "z"]));
}

#[test]
fn split_doubled_quote_inside_quotes() {
    assert_eq!(split("x,\"\"\"\",z", ','), strings(&["x", "\"", "z"]));
}

#[test]
fn split_empty_record_gives_one_empty_field() {
    assert_eq!(split("", ','), strings(&[""]));
}

#[test]
fn split_trailing_delimiter_gives_trailing_empty_field() {
    assert_eq!(split("a,", ','), strings(&["a", ""]));
    assert_eq!(split(",", ','), strings(&["", ""]));
}

#[test]
fn split_quotes_toggle_mid_field() {
    assert_eq!(split("a\"b,c\"d,e", ','), strings(&["ab,cd", "e"]));
}

#[test]
fn split_unterminated_quote_keeps_rest() {
    assert_eq!(split("a,\"b,c", ','), strings(&["a", "b,c"]));
}

#[test]
fn split_triple_quote_opens_field_with_quote() {
    assert_eq!(split("\"\"\"x\",y", ','), strings(&["\"x", "y"]));
}

#[test]
fn split_tab_delimiter() {
    assert_eq!(split("a\tb,c\t", '\t'), strings(&["a", "b,c", ""]));
}

#[test]
fn field_iterator_hands_out_fields_then_none() {
    let mut it = FieldIterator::new("p;q", ';');
    assert_eq!(it.next(), Some("p".to_string()));
    assert_eq!(it.next(), Some("q".to_string()));
    assert_eq!(it.next(), None);
    assert_eq!(it.next(), None);
}

#[test]
fn join_and_encode() {
    let fields = strings(&["a", "", "b"]);
    assert_eq!(join(&fields, ','), "a,,b");
    assert_eq!(encode(&fields), "a\x1F\x1Fb");
    assert_eq!(join(&Vec::new(), ','), "");
}

#[test]
fn decode_keeps_empty_fields() {
    assert_eq!(decode("\x1Fa\x1F\x1F"), strings(&["", "a", "", ""]));
    assert_eq!(decode(""), strings(&[""]));
}

#[test]
fn unquoted_round_trip() {
    let raw = "one,,two,three,";
    let fields = decode(&parse_record(raw, ','));
    assert_eq!(join(&fields, ','), raw);
}

#[test]
fn restore_quotes_only_when_needed() {
    let internal = encode(&strings(&["a;b", "\"q\"", "plain", ""]));
    assert_eq!(restore_record(&internal, ';'), "\"a;b\";\"\"q\"\";plain;");
}

#[test]
fn restore_keeps_empty_fields() {
    assert_eq!(restore_record(&"x\x1F\x1Fz".to_string(), ';'), "x;;z");
    assert_eq!(restore_record(&"\x1Fz".to_string(), ';'), ";z");
}

#[test]
fn title_drops_bom_and_newline() {
    assert_eq!(to_title("\u{feff}first_NAME\n"), "First Name");
}

#[test]
fn title_multi_char_uppercase() {
    assert_eq!(to_title("ßtraße"), "SStraße");
}

#[test]
fn title_layout_marks_word_starts() {
    assert_eq!(
        title_layout(" a_B\nc "),
        vec![('a', true), (' ', false), ('B', true), ('c', false), (' ', false)]
    );
}

#[test]
fn sniff_tab_or_comma() {
    assert_eq!(sniff_delimiter("a\tb,c"), '\t');
    assert_eq!(sniff_delimiter("a,b"), ',');
    assert_eq!(sniff_delimiter(""), ',');
}

#[test]
fn lexicographic_order() {
    assert!(lex_precedes(&"a".to_string(), &"a\x1Fb".to_string()));
    assert!(lex_precedes(&"a\x1Fz".to_string(), &"a,".to_string()));
    assert!(!lex_precedes(&"b".to_string(), &"a".to_string()));
    assert!(lex_precedes(&"".to_string(), &"".to_string()));
}

#[test]
fn sort_puts_shorter_field_prefix_first() {
    let rows = strings(&["ab", "a\x1Fc", "10", "9", "a"]);
    assert_eq!(sort_records(rows), strings(&["10", "9", "a", "a\x1Fc", "ab"]));
}

#[test]
fn header_line_title_cases_and_quotes() {
    assert_eq!(header_line("first_name,LAST;NAME\n", ','), "First Name;\"Last;name\"");
}

#[test]
fn end_to_end_sorts_by_encoded_text() {
    let (head, rows) = normalize_table("A,B", &strings(&["b,2", "a,1"]));
    assert_eq!(head, "A;B");
    assert_eq!(rows, strings(&["a;1", "b;2"]));
}

#[test]
fn end_to_end_not_numeric() {
    let (head, rows) = normalize_table("n\tm\n", &strings(&["10\tx", "9\ty;z", "1\t"]));
    assert_eq!(head, "N;M");
    assert_eq!(rows, strings(&["1;", "10;x", "9;\"y;z\""]));
}
