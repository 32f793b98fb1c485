use better_replacements_core::{escape_yaml_value, is_blank_str, is_space_char, parses_as_float};

#[test]
fn test_escape_yaml_value() {
    assert_eq!(escape_yaml_value(""), "''");
    assert_eq!(escape_yaml_value("hello"), "hello");
    assert_eq!(escape_yaml_value("key: value"), "'key: value'");
    assert_eq!(escape_yaml_value("don't"), "'don''t'");
    assert_eq!(escape_yaml_value("true"), "'true'");
    assert_eq!(escape_yaml_value("false"), "'false'");
    assert_eq!(escape_yaml_value("123"), "'123'");
    assert_eq!(escape_yaml_value("line1\nline2"), "|\n  line1\n  line2");
    assert_eq!(escape_yaml_value(" hello "), "' hello '");
}

#[test]
fn escape_scenario_two_line_block() {
    assert_eq!(escape_yaml_value("a\nb"), "|\n  a\n  b");
}

#[test]
fn escape_reserved_words_and_numbers() {
    assert_eq!(escape_yaml_value("null"), "'null'");
    assert_eq!(escape_yaml_value("~"), "'~'");
    assert_eq!(escape_yaml_value("1.5e3"), "'1.5e3'");
    assert_eq!(escape_yaml_value("+7"), "'+7'");
    assert_eq!(escape_yaml_value("NaN"), "'NaN'");
    assert_eq!(escape_yaml_value("Infinity"), "'Infinity'");
    assert_eq!(escape_yaml_value("1.2.3"), "1.2.3");
    assert_eq!(escape_yaml_value("e5"), "e5");
    assert_eq!(escape_yaml_value("tab\there"), "'tab\there'");
    assert_eq!(escape_yaml_value("[x"), "'[x'");
    assert_eq!(escape_yaml_value("{a"), "'{a'");
    assert_eq!(escape_yaml_value("True"), "'True'");
    assert_eq!(escape_yaml_value("NULL"), "'NULL'");
    assert_eq!(escape_yaml_value("0x1F"), "'0x1F'");
    assert_eq!(escape_yaml_value(".inf"), "'.inf'");
    assert_eq!(escape_yaml_value(" a\nb"), "|2\n   a\n  b");
    assert_eq!(escape_yaml_value("0b101"), "'0b101'");
    assert_eq!(escape_yaml_value("? a"), "'? a'");
    assert_eq!(escape_yaml_value(",x"), "',x'");
}

#[test]
fn float_syntax_matches_std() {
    let samples = [
        "0", "12", "1.", ".5", ".", "1e5", "1E+5", "1e-5", "1e", "e1", "+1", "-1", "+", "inf",
        "INF", "-infinity", "nan", "NaN", "nana", "1.5x", "١", "", " 1", "0x10", "1_000", "+.5e2",
    ];
    for s in samples {
        assert_eq!(parses_as_float(s), s.parse::<f64>().is_ok(), "{:?}", s);
    }
}

fn read_scalar(t: &str) -> String {
    if t == "''" {
        String::new()
    } else if let Some(body) = t.strip_prefix("|\n  ").or_else(|| t.strip_prefix("|2\n  ")) {
        body.replace("\n  ", "\n")
    } else if t.len() >= 2 && t.starts_with('\'') && t.ends_with('\'') {
        t[1..t.len() - 1].replace("''", "'")
    } else {
        t.to_string()
    }
}

#[test]
fn escape_round_trip_samples() {
    let samples = [
        "", "plain", "key: value", "it's", "''", "a\nb", "  lead", "trail ", "42", "a\n  b\n",
        "'quoted'", "x\n'y'", " lead\nline", "a\n b", "[x", "True", ".nan",
    ];
    for s in samples {
        assert_eq!(read_scalar(&escape_yaml_value(s)), s, "{:?}", s);
    }
}

#[test]
fn escape_output_reads_back_through_yaml() {
    for s in [
        "key: value", "don't", "true", "123", " hello ", "#tag", "@me", "a - b", "[x", "{a", "True",
        "NULL", "0x1F", ".inf", "a, b", "0b101", "? a", ",x", "?x",
    ] {
        let doc = format!("v: {}\n", escape_yaml_value(s));
        let parsed: serde_yaml::Value = serde_yaml::from_str(&doc).unwrap();
        assert_eq!(parsed["v"].as_str(), Some(s));
    }
}

#[test]
fn white_space_matches_std() {
    for u in 0u32..0x3100 {
        if let Some(c) = char::from_u32(u) {
            assert_eq!(is_space_char(c), c.is_whitespace(), "{:#x}", u);
        }
    }
    for t in ["", "  ", "\t\n", "\u{3000}", " x ", "\u{200B}"] {
        assert_eq!(is_blank_str(t), t.trim().is_empty(), "{:?}", t);
    }
}

#[test]
fn block_output_reads_back_through_yaml() {
    for s in ["a\nb\n", " a\nb\n", "x\n  y\n"] {
        let doc = format!("v: {}\n", escape_yaml_value(s));
        let parsed: serde_yaml::Value = serde_yaml::from_str(&doc).unwrap();
        assert_eq!(parsed["v"].as_str(), Some(s), "{:?}", s);
    }
}
