use std::str::FromStr;

use wsc::{ConfigError, Indentation};

#[test]
fn test_indentation_from_str() {
    let cases = vec![
        ("TABS=4", Indentation::Tabs(4)),
        ("tabs=4", Indentation::Tabs(4)),
        ("SPACES=4", Indentation::Spaces(4)),
        ("spaces=4", Indentation::Spaces(4)),
    ];
    for (input, expected) in cases {
        let actual = Indentation::from_str(input).unwrap();
        assert_eq!(actual, expected);
    }
}

#[test]
fn test_make_indentation_transformation() {
    let cases = vec![
        (Indentation::Tabs(4), "    Lorem ipsum", "\tLorem ipsum"),
        (Indentation::Tabs(2), "    Lorem ipsum", "\t\tLorem ipsum"),
        (Indentation::Spaces(4), "\tLorem ipsum", "    Lorem ipsum"),
        (Indentation::Spaces(2), "\t\tLorem ipsum", "    Lorem ipsum"),
        (Indentation::Tabs(4), "\tLorem ipsum", "\tLorem ipsum"),
        (Indentation::Spaces(4), "    Lorem ipsum", "    Lorem ipsum"),
        (Indentation::Tabs(2), "\t  Lorem ipsum", "\t\tLorem ipsum"),
        (Indentation::Spaces(2), "  \tLorem ipsum", "    Lorem ipsum"),
    ];
    for (style, input, expected) in cases {
        let actual = style.make_transformation(String::from(input));
        assert_eq!(actual.as_str(), expected);
    }
}

#[test]
fn parse_mixed_case_keys() {
    assert_eq!(Indentation::parse("Tabs=4"), Ok(Indentation::Tabs(4)));
    assert_eq!(Indentation::parse("sPaCeS=8"), Ok(Indentation::Spaces(8)));
    assert_eq!(Indentation::parse("tabs=+3"), Ok(Indentation::Tabs(3)));
    assert_eq!(Indentation::parse("tabs=007"), Ok(Indentation::Tabs(7)));
}

#[test]
fn parse_zero_width_is_invalid() {
    assert_eq!(Indentation::parse("tabs=0"), Err(ConfigError::InvalidConfiguration));
    assert_eq!(Indentation::parse("spaces=0"), Err(ConfigError::InvalidConfiguration));
    assert_eq!(Indentation::parse("TABS=00"), Err(ConfigError::InvalidConfiguration));
}

#[test]
fn parse_malformed_tokens() {
    let bad = vec![
        "tabs", "tabs4", "", "=4", "tabs=", "tabs=+", "tabs=-1", "tabs=four", "tabs=4 ",
        " tabs=4", "tab=4", "indent=4", "tabs=4=4", "tabs==4", "zero=0",
        "tabs=99999999999999999999999999",
    ];
    for token in bad {
        assert_eq!(
            Indentation::parse(token),
            Err(ConfigError::ConfigurationParse),
            "token {:?}",
            token
        );
    }
}

#[test]
fn parse_largest_width() {
    let token = format!("spaces={}", usize::MAX);
    assert_eq!(Indentation::parse(&token), Ok(Indentation::Spaces(usize::MAX)));
    let over = format!("tabs={}0", usize::MAX);
    assert_eq!(Indentation::parse(&over), Err(ConfigError::ConfigurationParse));
}

#[test]
fn indentation_idempotent_on_samples() {
    let lines = vec![
        "      x", "\t \t  y", "   ", "\t\t\n", "z", "", "  \t\u{e9}t\u{e9}", " \t a b\t",
    ];
    for target in [Indentation::Tabs(4), Indentation::Tabs(3), Indentation::Spaces(2), Indentation::Spaces(5)] {
        for line in &lines {
            let once = target.make_transformation(line.to_string());
            let twice = target.make_transformation(once.clone());
            assert_eq!(once, twice, "{:?} on {:?}", target, line);
        }
    }
}

#[test]
fn mixed_indentation_round_trip_is_lossy() {
    let original = "\t  Lorem ipsum";
    let spaced = Indentation::Spaces(2).make_transformation(String::from(original));
    assert_eq!(spaced, "    Lorem ipsum");
    let back = Indentation::Tabs(2).make_transformation(spaced);
    assert_eq!(back, "\t\tLorem ipsum");
    assert_ne!(back, original);
}

#[test]
fn unindented_lines_unchanged() {
    for target in [Indentation::Tabs(4), Indentation::Spaces(4), Indentation::Tabs(1)] {
        for line in ["Lorem ipsum", "", "x \t", "\r\n", "\n"] {
            assert_eq!(target.make_transformation(line.to_string()), line);
        }
    }
}

#[test]
fn spaces_to_tabs_drops_remainder() {
    for width in 1..6usize {
        for k in 0..13usize {
            let line = format!("{}x y", " ".repeat(k));
            let expected = format!("{}x y", "\t".repeat(k / width));
            assert_eq!(Indentation::Tabs(width).make_transformation(line), expected);
        }
    }
    assert_eq!(Indentation::Tabs(4).make_transformation(String::from("       a")), "\ta");
    assert_eq!(Indentation::Tabs(4).make_transformation(String::from("   a")), "a");
}

#[test]
fn whitespace_only_line() {
    assert_eq!(Indentation::Tabs(2).make_transformation(String::from("  \t  ")), "\t\t\t");
    assert_eq!(Indentation::Spaces(3).make_transformation(String::from("\t ")), "    ");
    assert_eq!(Indentation::Spaces(2).make_transformation(String::from(" \t\n")), "   \n");
}

#[test]
fn content_after_indentation_kept() {
    assert_eq!(
        Indentation::Spaces(2).make_transformation(String::from("\tfn x() {\t  }\r\n")),
        "  fn x() {\t  }\r\n"
    );
    assert_eq!(
        Indentation::Tabs(2).make_transformation(String::from("  \u{3bb} \u{3bc}")),
        "\t\u{3bb} \u{3bc}"
    );
}
