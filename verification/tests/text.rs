use csv2xml::text::{
    decimal_string, is_whitespace, lines_in, parse_line, to_chars, trimmed_span,
};

#[test]
fn white_space_is_what_the_standard_library_says() {
    for code in 0..=0x10ffffu32 {
        if let Some(c) = char::from_u32(code) {
            assert_eq!(is_whitespace(c), c.is_whitespace(), "U+{:04X}", code);
        }
    }
}

#[test]
fn the_characters_of_a_string() {
    assert_eq!(to_chars(""), Vec::<char>::new());
    assert_eq!(to_chars("aé日\u{1f600}"), vec!['a', 'é', '日', '\u{1f600}']);
}

#[test]
fn trimming_is_what_the_standard_library_does() {
    let samples = [
        "",
        " ",
        "a",
        "  a  ",
        "\t a b \r\n",
        "\u{a0}x\u{3000}",
        "\u{2003}\u{2028}mid dle\u{205f}\u{1680}",
        "x\u{200b}",
        "\u{feff}x",
        "   \t\n",
    ];
    for s in samples {
        let chars: Vec<char> = s.chars().collect();
        let (a, b) = trimmed_span(&chars);
        let got: String = chars[a..b].iter().collect();
        assert_eq!(got, s.trim(), "{:?}", s);
    }
}

#[test]
fn fields_are_the_pieces_of_the_line_itself() {
    let samples = [
        ("a,b,c", ','),
        ("a,,c", ','),
        (",a,", ','),
        (",", ','),
        ("  a , b  ", ','),
        ("a\tb\t\t", '\t'),
        ("\ta\tb", '\t'),
        ("\t\ta\t\t", '\t'),
        (" a\t b \t", '\t'),
        ("one|two|three", '|'),
        ("no delimiter here", ','),
        ("é;日本;\u{1f600}", ';'),
        ("a日b日c", '日'),
        ("a,b\r", ','),
    ];
    for (line, d) in samples {
        let expected: Vec<String> = line.split(d).map(|s| s.to_string()).collect();
        assert_eq!(parse_line(line, d), Some(expected), "{:?}", line);
    }
}

#[test]
fn empty_fields_at_either_end_are_kept() {
    let fields = |items: &[&str]| Some(items.iter().map(|s| s.to_string()).collect::<Vec<_>>());
    assert_eq!(parse_line("1\t\t", '\t'), fields(&["1", "", ""]));
    assert_eq!(parse_line("\ta\tb", '\t'), fields(&["", "a", "b"]));
    assert_eq!(parse_line("\t\tx\t", '\t'), fields(&["", "", "x", ""]));
    assert_eq!(parse_line(" a , b ", ','), fields(&[" a ", " b "]));
}

#[test]
fn a_blank_line_has_no_fields() {
    assert_eq!(parse_line("", ','), None);
    assert_eq!(parse_line("   ", ','), None);
    assert_eq!(parse_line("\t\t", '\t'), None);
    assert_eq!(parse_line("\r", ','), None);
    assert_eq!(parse_line("\u{3000}\u{a0}", ','), None);
    assert_eq!(parse_line(",", ','), Some(vec![String::new(), String::new()]));
}

#[test]
fn lines_are_what_the_standard_library_gives() {
    let samples = [
        "",
        "a",
        "a\n",
        "a\nb",
        "a\r\nb\r\n",
        "a\nb\r\n\nc",
        "\n",
        "\n\n",
        "\r\n",
        "\r",
        "a\r",
        "a\r\r\n",
        "a\rb\nc",
        "x\n\r\ny\r",
        "é\n日本\r\n\u{1f600}",
        " \t \n  ",
    ];
    for s in samples {
        let expected: Vec<String> = s.lines().map(|l| l.to_string()).collect();
        assert_eq!(lines_in(s), expected, "{:?}", s);
    }
    assert_eq!(lines_in("a\nb\r\n\nc"), ["a", "b", "", "c"]);
    assert_eq!(lines_in("a\r"), ["a\r"]);
    assert_eq!(lines_in("a\n"), ["a"]);
    assert!(lines_in("").is_empty());
}

#[test]
fn numbers_in_decimal() {
    assert_eq!(decimal_string(0), "0");
    assert_eq!(decimal_string(7), "7");
    assert_eq!(decimal_string(10), "10");
    assert_eq!(decimal_string(131072), "131072");
    assert_eq!(decimal_string(usize::MAX), usize::MAX.to_string());
    for n in 0..2000usize {
        assert_eq!(decimal_string(n), n.to_string());
    }
}
