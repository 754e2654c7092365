use jsonformat::{format_bytes, format_json, Indentation};

#[test]
fn echoes_primitive() {
    let json = "1.35";
    assert_eq!(json, format_json(json, Indentation::Default));
}

#[test]
fn ignore_whitespace_in_string() {
    let json = "\" hallo \"";
    assert_eq!(json, format_json(json, Indentation::Default));
}

#[test]
fn remove_leading_whitespace() {
    let json = "   0";
    let expected = "0";
    assert_eq!(expected, format_json(json, Indentation::Default));
}

#[test]
fn handle_escaped_strings() {
    let json = "  \" hallo \\\" \" ";
    let expected = "\" hallo \\\" \"";
    assert_eq!(expected, format_json(json, Indentation::Default));
}

#[test]
fn simple_object() {
    let json = "{\"a\":0}";
    let expected = "{
  \"a\": 0
}";
    assert_eq!(expected, format_json(json, Indentation::Default));
}

#[test]
fn simple_array() {
    let json = "[1,2,null]";
    let expected = "[
  1,
  2,
  null
]";
    assert_eq!(expected, format_json(json, Indentation::Default));
}

#[test]
fn array_of_object() {
    let json = "[{\"a\": 0}, {}, {\"a\": null}]";
    let expected = "[
  {
    \"a\": 0
  },
  {},
  {
    \"a\": null
  }
]";

    assert_eq!(expected, format_json(json, Indentation::Default));
}

#[test]
fn already_formatted() {
    let expected = "[
  {
    \"a\": 0
  },
  {},
  {
    \"a\": null
  }
]";

    assert_eq!(expected, format_json(expected, Indentation::Default));
}

#[test]
fn custom_tab_indentation() {
    let json = "{\"a\":0}";
    assert_eq!("{\n\t\"a\": 0\n}", format_json(json, Indentation::Custom("\t")));
}

#[test]
fn custom_multi_char_indentation() {
    let json = "{\"a\":[1]}";
    assert_eq!(
        "{\n--\"a\": [\n----1\n--]\n}",
        format_json(json, Indentation::Custom("--"))
    );
}

#[test]
fn empty_input_gives_empty_output() {
    assert_eq!("", format_json("", Indentation::Default));
    assert_eq!(Vec::<u8>::new(), format_bytes(b"", Indentation::Default));
}

#[test]
fn empty_containers_stay_on_one_line() {
    assert_eq!("[\n  {},\n  []\n]", format_json("[ { } , [ ] ]", Indentation::Default));
}

#[test]
fn string_contents_kept_verbatim() {
    let json = "{\"k\":\" {a}, [b]: \\\\\"}";
    let expected = "{\n  \"k\": \" {a}, [b]: \\\\\"\n}";
    assert_eq!(expected, format_json(json, Indentation::Default));
}

#[test]
fn escaped_backslash_ends_before_quote() {
    // the quote after an escaped backslash closes the string
    let json = "[\"a\\\\\",1]";
    assert_eq!("[\n  \"a\\\\\",\n  1\n]", format_json(json, Indentation::Default));
}

#[test]
fn whitespace_between_tokens_is_ignored() {
    let a = format_json("{\"a\":[1,2],\"b\":{}}", Indentation::Default);
    let b = format_json(" {\n\t\"a\" :\t[ 1 ,2 ] ,\n \"b\": { } }\n", Indentation::Default);
    assert_eq!(a, b);
}

#[test]
fn formatting_twice_changes_nothing() {
    let once = format_json("[{\"a\":{\"b\":[1,{}]}},\"x y\"]", Indentation::Default);
    let twice = format_json(&once, Indentation::Default);
    assert_eq!(once, twice);
    let tabbed = format_json("{\"a\":[1]}", Indentation::Custom("\t"));
    assert_eq!(tabbed, format_json(&tabbed, Indentation::Custom("\t")));
}

#[test]
fn unbalanced_closing_clamps_at_zero() {
    assert_eq!("\n]\n}[\n  1\n]", format_json("]}[1]", Indentation::Default));
}

#[test]
fn indentation_follows_depth() {
    let out = format_json("[[[1]]]", Indentation::Default);
    assert_eq!("[\n  [\n    [\n      1\n    ]\n  ]\n]", out);
}

#[test]
fn bytes_match_text_on_utf8() {
    let json = "{\"ä\":[\"ö ü\",{}]}";
    let text = format_json(json, Indentation::Default);
    let bytes = format_bytes(json.as_bytes(), Indentation::Default);
    assert_eq!(text.as_bytes(), bytes.as_slice());
}

#[test]
fn bytes_pass_invalid_utf8_through() {
    let input: Vec<u8> = vec![b'[', 0xff, b',', 0xfe, b']'];
    let expected: Vec<u8> = vec![b'[', b'\n', b' ', b' ', 0xff, b',', b'\n', b' ', b' ', 0xfe, b'\n', b']'];
    assert_eq!(expected, format_bytes(&input, Indentation::Default));
}

#[test]
fn custom_unit_in_bytes() {
    assert_eq!(b"{\n\t\"a\": 0\n}".to_vec(), format_bytes(b"{\"a\":0}", Indentation::Custom("\t")));
}

#[test]
fn pending_line_break_comes_before_colon() {
    assert_eq!("[\n  : 1\n]", format_json("[:1]", Indentation::Default));
}

#[test]
fn closing_after_comma_stays_on_line() {
    assert_eq!("[\n  1,]", format_json("[1,]", Indentation::Default));
}
