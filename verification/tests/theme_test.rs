use emma::theme::{expand_var, parse_color, ForeAndBack, ItemColors, Rgb, ThemeError};

fn some(s: &str) -> Option<String> {
    Some(s.to_owned())
}

#[test]
fn theme_parse_color_lower_and_upper_case() {
    assert_eq!(parse_color(&some("#ff0080")), Ok(Some(Rgb { r: 255, g: 0, b: 128 })));
    assert_eq!(parse_color(&some("#A0b1C2")), Ok(Some(Rgb { r: 0xa0, g: 0xb1, b: 0xc2 })));
}

#[test]
fn theme_parse_color_none() {
    assert_eq!(parse_color(&None), Ok(None));
}

#[test]
fn theme_parse_color_plus_sign_fields() {
    // A field is read as a base-16 number, which may carry a `+` sign.
    assert_eq!(parse_color(&some("#+f+1+0")), Ok(Some(Rgb { r: 15, g: 1, b: 0 })));
}

#[test]
fn theme_parse_color_errors() {
    assert_eq!(
        parse_color(&some("ff0080")),
        Err(ThemeError::ColorWithoutHash("ff0080".to_owned()))
    );
    assert_eq!(parse_color(&some("")), Err(ThemeError::ColorWithoutHash(String::new())));
    assert_eq!(parse_color(&some("#fff")), Err(ThemeError::ColorTooShort("#fff".to_owned())));
    assert_eq!(
        parse_color(&some("#ff00800")),
        Err(ThemeError::ColorTooShort("#ff00800".to_owned()))
    );
    assert_eq!(parse_color(&some("#gg0000")), Err(ThemeError::InvalidDigit));
    assert_eq!(parse_color(&some("#00-100")), Err(ThemeError::InvalidDigit));
    // Two bytes of one char make a field that is no number.
    assert_eq!(parse_color(&some("#\u{e9}0000")), Err(ThemeError::InvalidDigit));
}

#[test]
fn theme_error_messages() {
    assert_eq!(
        ThemeError::ColorTooShort("#fff".to_owned()).to_string(),
        "color is too short: #fff"
    );
    assert_eq!(
        ThemeError::ColorWithoutHash("red".to_owned()).to_string(),
        "color does not start with '#': red"
    );
    assert_eq!(ThemeError::InvalidDigit.to_string(), "invalid digit found in string");
    assert_eq!(
        ThemeError::InvalidVariable("bg".to_owned()).to_string(),
        "invalid variable: bg"
    );
}

fn vars() -> Vec<(String, String)> {
    vec![
        ("bg".to_owned(), "#000000".to_owned()),
        ("fg".to_owned(), "#ffffff".to_owned()),
    ]
}

#[test]
fn theme_expand_var() {
    assert_eq!(expand_var(&some("$fg"), &vars()), Ok(some("#ffffff")));
    assert_eq!(expand_var(&some("#123456"), &vars()), Ok(some("#123456")));
    assert_eq!(expand_var(&None, &vars()), Ok(None));
    assert_eq!(
        expand_var(&some("$nope"), &vars()),
        Err(ThemeError::InvalidVariable("nope".to_owned()))
    );
    // Only a whole value names a variable.
    assert_eq!(expand_var(&some("x$fg"), &vars()), Ok(some("x$fg")));
}

#[test]
fn theme_fore_and_back_defaults() {
    let white = Rgb { r: 255, g: 255, b: 255 };
    let red = Rgb { r: 255, g: 0, b: 0 };
    assert_eq!(
        ForeAndBack::parse_with_default(&None, white, red),
        Ok(ForeAndBack { foreground: white, background: red })
    );
    let item = ItemColors { foreground: some("#010203"), background: None };
    assert_eq!(
        ForeAndBack::parse_with_default(&Some(item), white, red),
        Ok(ForeAndBack { foreground: Rgb { r: 1, g: 2, b: 3 }, background: red })
    );
    let bad = ItemColors { foreground: None, background: some("blue") };
    assert_eq!(
        ForeAndBack::parse_with_default(&Some(bad), white, red),
        Err(ThemeError::ColorWithoutHash("blue".to_owned()))
    );
}
