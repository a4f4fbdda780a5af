use highlight_diff::config::{
    parse_colors, parse_output_kind, parse_u8_token, resolve_config, Color, ColorAssignment,
    ConfigError, OutputKind,
};

fn chars(s: &str) -> Vec<char> {
    s.chars().collect()
}

#[test]
fn output_kind_tokens() {
    assert_eq!(parse_output_kind("terminal"), Ok(OutputKind::Terminal));
    assert_eq!(parse_output_kind("txt"), Ok(OutputKind::Txt));
    assert_eq!(parse_output_kind("html"), Ok(OutputKind::Html));
    assert_eq!(parse_output_kind("json"), Err(ConfigError::UnknownOutputKind));
    assert_eq!(parse_output_kind("Terminal"), Err(ConfigError::UnknownOutputKind));
}

#[test]
fn named_color_triples() {
    assert_eq!(
        parse_colors("Red:White:Green"),
        Ok(ColorAssignment { left: Color::Red, both: Color::White, right: Color::Green })
    );
    assert_eq!(
        parse_colors("Black:Magenta:Cyan"),
        Ok(ColorAssignment { left: Color::Black, both: Color::Magenta, right: Color::Cyan })
    );
    assert_eq!(
        parse_colors("Blue:Yellow:White"),
        Ok(ColorAssignment { left: Color::Blue, both: Color::Yellow, right: Color::White })
    );
}

#[test]
fn rgb_color_tokens() {
    assert_eq!(
        parse_colors("Blue:rgb,255,0,127:Yellow"),
        Ok(ColorAssignment {
            left: Color::Blue,
            both: Color::Rgb(255, 0, 127),
            right: Color::Yellow
        })
    );
    assert_eq!(
        parse_colors("rgb,0,0,0:rgb,1,2,3:rgb,255,255,255"),
        Ok(ColorAssignment {
            left: Color::Rgb(0, 0, 0),
            both: Color::Rgb(1, 2, 3),
            right: Color::Rgb(255, 255, 255)
        })
    );
    assert_eq!(
        parse_colors("Red:White:rgb,+1,2,3"),
        Ok(ColorAssignment {
            left: Color::Red,
            both: Color::White,
            right: Color::Rgb(1, 2, 3)
        })
    );
}

#[test]
fn wrong_token_count_is_rejected() {
    assert_eq!(parse_colors("Red:White"), Err(ConfigError::WrongColorCount));
    assert_eq!(parse_colors("Red"), Err(ConfigError::WrongColorCount));
    assert_eq!(
        parse_colors("Red:White:Green:Blue"),
        Err(ConfigError::WrongColorCount)
    );
    assert_eq!(parse_colors(""), Err(ConfigError::WrongColorCount));
}

#[test]
fn unknown_color_names_are_rejected() {
    assert_eq!(
        parse_colors("Red:White:Chartreuse"),
        Err(ConfigError::UnknownColor)
    );
    assert_eq!(parse_colors("red:White:Green"), Err(ConfigError::UnknownColor));
    assert_eq!(parse_colors("::"), Err(ConfigError::UnknownColor));
}

#[test]
fn malformed_rgb_tokens_are_rejected() {
    assert_eq!(
        parse_colors("Red:White:rgb,256,0,0"),
        Err(ConfigError::BadRgb)
    );
    assert_eq!(
        parse_colors("rgb,1,2,3,4:White:Green"),
        Err(ConfigError::BadRgb)
    );
    assert_eq!(parse_colors("Red:rgb,:Green"), Err(ConfigError::BadRgb));
    assert_eq!(parse_colors("Red:White:rgb,1,2"), Err(ConfigError::BadRgb));
    assert_eq!(
        parse_colors("Red:White:rgb,300,1,2,3"),
        Err(ConfigError::BadRgb)
    );
    assert_eq!(
        parse_colors("Red:White:rgb,1,2,3,"),
        Err(ConfigError::BadRgb)
    );
}

#[test]
fn rgb_tokens_with_unparsable_pieces_are_rejected() {
    assert_eq!(
        parse_colors("rgb,9,x,8:White:Green"),
        Err(ConfigError::BadRgb)
    );
    assert_eq!(
        parse_colors("rgb,9,x,8,7:White:Green"),
        Err(ConfigError::BadRgb)
    );
}

#[test]
fn u8_tokens() {
    assert_eq!(parse_u8_token(&chars("0")), Some(0));
    assert_eq!(parse_u8_token(&chars("255")), Some(255));
    assert_eq!(parse_u8_token(&chars("007")), Some(7));
    assert_eq!(parse_u8_token(&chars("+12")), Some(12));
    assert_eq!(parse_u8_token(&chars("256")), None);
    assert_eq!(parse_u8_token(&chars("99999999999999999999")), None);
    assert_eq!(parse_u8_token(&chars("")), None);
    assert_eq!(parse_u8_token(&chars("+")), None);
    assert_eq!(parse_u8_token(&chars("-1")), None);
    assert_eq!(parse_u8_token(&chars("1 2")), None);
}

#[test]
fn config_defaults() {
    let (kind, cfg) = resolve_config(None, None, None, None, false).unwrap();
    assert_eq!(kind, OutputKind::Terminal);
    assert_eq!(cfg.width, 5);
    assert_eq!(cfg.batch, usize::MAX);
    assert!(cfg.show_unchanged);
    assert_eq!(
        cfg.colors,
        ColorAssignment { left: Color::Red, both: Color::White, right: Color::Green }
    );
}

#[test]
fn config_explicit_values() {
    let (kind, cfg) = resolve_config(
        Some("html"),
        Some("Black:Blue:Cyan"),
        Some(3),
        Some(7),
        true,
    )
    .unwrap();
    assert_eq!(kind, OutputKind::Html);
    assert_eq!(cfg.width, 3);
    assert_eq!(cfg.batch, 7);
    assert!(!cfg.show_unchanged);
    assert_eq!(
        cfg.colors,
        ColorAssignment { left: Color::Black, both: Color::Blue, right: Color::Cyan }
    );
}

#[test]
fn batch_zero_means_unbounded() {
    let (_, cfg) = resolve_config(None, None, None, Some(0), false).unwrap();
    assert_eq!(cfg.batch, usize::MAX);
}

#[test]
fn bad_kind_reported_before_bad_colors() {
    assert_eq!(
        resolve_config(Some("nope"), Some("Red:White"), None, None, false),
        Err(ConfigError::UnknownOutputKind)
    );
    assert_eq!(
        resolve_config(Some("txt"), Some("Red:White"), None, None, false),
        Err(ConfigError::WrongColorCount)
    );
}
