//! The colors of a theme file: `#rrggbb` colors and `$name` variables.
use vstd::prelude::*;

verus! {

/// A color read from a theme, fully opaque.
#[derive(Clone, Copy, Debug, PartialEq, Eq, Structural)]
pub struct Rgb {
    pub r: u8,
    pub g: u8,
    pub b: u8,
}

/// Why a theme's colors could not be read.
#[derive(Debug, PartialEq, Eq)]
pub enum ThemeError {
    /// The color does not have six digits after its `#`.
    ColorTooShort(String),
    /// The color does not start with `#`.
    ColorWithoutHash(String),
    /// A field of the color is not a hexadecimal number.
    InvalidDigit,
    /// The theme uses a variable that it does not define.
    InvalidVariable(String),
}

impl ThemeError {
    pub fn to_string(&self) -> (res: String)
        ensures
            self matches ThemeError::ColorTooShort(s) ==> res@ == "color is too short: "@ + s@,
            self matches ThemeError::ColorWithoutHash(s) ==> res@ == "color does not start with '#': "@
                + s@,
            self is InvalidDigit ==> res@ == "invalid digit found in string"@,
            self matches ThemeError::InvalidVariable(s) ==> res@ == "invalid variable: "@ + s@,
    {
        match self {
            ThemeError::ColorTooShort(s) => String::from_str("color is too short: ").concat(
                s.as_str(),
            ),
            ThemeError::ColorWithoutHash(s) => String::from_str(
                "color does not start with '#': ",
            ).concat(s.as_str()),
            ThemeError::InvalidDigit => String::from_str("invalid digit found in string"),
            ThemeError::InvalidVariable(s) => String::from_str("invalid variable: ").concat(
                s.as_str(),
            ),
        }
    }
}

/// The value of a hexadecimal digit, upper or lower case.
pub open spec fn hex_digit(b: u8) -> Option<u8> {
    if 48 <= b <= 57 {
        Some((b - 48) as u8)
    } else if 97 <= b <= 102 {
        Some((b - 87) as u8)
    } else if 65 <= b <= 70 {
        Some((b - 55) as u8)
    } else {
        None
    }
}

/// The value of a two-byte field read as a base-16 `u8`: two digits, or a
/// `+` sign and one digit.
pub open spec fn hex_pair(hi: u8, lo: u8) -> Option<u8> {
    if hi == 43 {
        hex_digit(lo)
    } else {
        match (hex_digit(hi), hex_digit(lo)) {
            (Some(h), Some(l)) => Some((h * 16 + l) as u8),
            _ => None,
        }
    }
}

/// The color that the bytes `#rrggbb` of `b` give, when each field is a
/// number.
pub open spec fn color_fields(b: Seq<u8>) -> Option<Rgb> {
    match (hex_pair(b[1], b[2]), hex_pair(b[3], b[4]), hex_pair(b[5], b[6])) {
        (Some(r), Some(g), Some(bl)) => Some(Rgb { r, g, b: bl }),
        _ => None,
    }
}

/// `b` starts with `#`.
pub open spec fn has_hash(b: Seq<u8>) -> bool {
    b.len() > 0 && b[0] == 35
}

/// A color whose first field ends inside a char: its fourth byte
/// continues a char's encoding.
pub open spec fn splits_char(b: Seq<u8>) -> bool {
    has_hash(b) && b.len() == 7 && 128 <= b[3] < 192
}

/// The hexadecimal digits, `0` to `9`, `a` to `f` and `A` to `F`, are
/// exactly the bytes that have a value. A digit's value is below 16: the
/// digits count from 0 and the letters from 10, and an upper-case letter
/// has the value of its lower-case form.
pub proof fn law_hex_digits(b: u8)
    ensures
        (48 <= b <= 57 || 97 <= b <= 102 || 65 <= b <= 70) <==> hex_digit(b) is Some,
        hex_digit(b) matches Some(v) ==> v < 16,
        48 <= b <= 57 ==> hex_digit(b) == Some((b - 48) as u8),
        97 <= b <= 102 ==> hex_digit(b) == Some((b - 97 + 10) as u8),
        65 <= b <= 90 ==> hex_digit(b) == hex_digit((b + 32) as u8),
{
}

/// A color's digits may be written in either case: lowering the ASCII
/// letters of `#rrggbb` gives the same color.
pub proof fn law_color_case_insensitive(b: Seq<u8>)
    requires
        b.len() == 7,
    ensures
        color_fields(b) == color_fields(b.map_values(|x: u8| if 65 <= x <= 90 { (x + 32) as u8 } else { x })),
{
    let lb = b.map_values(|x: u8| if 65 <= x <= 90 { (x + 32) as u8 } else { x });
    assert forall|i: int| 1 <= i < 7 implies hex_digit(#[trigger] lb[i]) == hex_digit(b[i]) by {
        law_hex_digits(b[i]);
    }
    assert forall|i: int| 1 <= i < 7 implies (#[trigger] lb[i] == 43) == (b[i] == 43) by {
    }
    assert(hex_pair(lb[1], lb[2]) == hex_pair(b[1], b[2]));
    assert(hex_pair(lb[3], lb[4]) == hex_pair(b[3], b[4]));
    assert(hex_pair(lb[5], lb[6]) == hex_pair(b[5], b[6]));
}

fn digit_value(b: u8) -> (res: Option<u8>)
    ensures
        res == hex_digit(b),
{
    if 48 <= b && b <= 57 {
        Some(b - 48)
    } else if 97 <= b && b <= 102 {
        Some(b - 87)
    } else if 65 <= b && b <= 70 {
        Some(b - 55)
    } else {
        None
    }
}

fn pair_value(hi: u8, lo: u8) -> (res: Option<u8>)
    ensures
        res == hex_pair(hi, lo),
{
    if hi == 43 {
        return digit_value(lo);
    }
    match (digit_value(hi), digit_value(lo)) {
        (Some(h), Some(l)) => Some(h * 16 + l),
        _ => None,
    }
}

/// Read a color written `#rrggbb` in hexadecimal; no color where none is
/// given.
pub fn parse_color(s: &Option<String>) -> (res: Result<Option<Rgb>, ThemeError>)
    requires
        s matches Some(t) ==> !splits_char(vstd::utf8::encode_utf8(t@)),
    ensures
        s is None ==> res == Ok::<Option<Rgb>, ThemeError>(None),
        s matches Some(t) ==> match spec_parse_color(*s) {
            Ok(c) => res == Ok::<Option<Rgb>, ThemeError>(c),
            Err(_) => res matches Err(e) && color_error(*t, e),
        },
{
    match s {
        None => Ok(None),
        Some(t) => {
            let b = t.as_str().as_bytes();
            if b.len() == 0 || b[0] != 35 {
                return Err(ThemeError::ColorWithoutHash(t.clone()));
            }
            if b.len() != 7 {
                return Err(ThemeError::ColorTooShort(t.clone()));
            }
            let r = pair_value(b[1], b[2]);
            let g = pair_value(b[3], b[4]);
            let bl = pair_value(b[5], b[6]);
            match (r, g, bl) {
                (Some(r), Some(g), Some(bl)) => Ok(Some(Rgb { r, g, b: bl })),
                _ => Err(ThemeError::InvalidDigit),
            }
        },
    }
}

/// The value of the first variable named `name` in `vars`.
pub open spec fn var_value(vars: Seq<(String, String)>, name: Seq<char>) -> Option<Seq<char>>
    decreases vars.len(),
{
    if vars.len() == 0 {
        None
    } else if vars[0].0@ == name {
        Some(vars[0].1@)
    } else {
        var_value(vars.drop_first(), name)
    }
}

/// What `expand_var` makes of the value `v`.
pub open spec fn expanded(v: Seq<char>, vars: Seq<(String, String)>) -> Option<Seq<char>> {
    if v.len() > 0 && v[0] == '$' {
        var_value(vars, v.drop_first())
    } else {
        Some(v)
    }
}

/// A value that names a variable, `$name`, becomes the variable's value;
/// another value stays as it is.
pub fn expand_var(s: &Option<String>, vars: &Vec<(String, String)>) -> (res: Result<
    Option<String>,
    ThemeError,
>)
    ensures
        s is None ==> res == Ok::<Option<String>, ThemeError>(None),
        s matches Some(v) ==> match expanded(v@, vars@) {
            Some(x) => res matches Ok(Some(r)) && r@ == x,
            None => res matches Err(ThemeError::InvalidVariable(n)) && n@ == v@.drop_first(),
        },
{
    match s {
        None => Ok(None),
        Some(v) => {
            let len = v.as_str().unicode_len();
            if len == 0 || v.as_str().get_char(0) != '$' {
                return Ok(Some(v.clone()));
            }
            let name = String::from_str(v.as_str().substring_char(1, len));
            assert(name@ == v@.drop_first());
            assert(vars@.skip(0) =~= vars@);
            let mut i: usize = 0;
            while i < vars.len()
                invariant
                    *s == Some(*v),
                    v@.len() > 0 && v@[0] == '$',
                    name@ == v@.drop_first(),
                    i <= vars@.len(),
                    var_value(vars@, name@) == var_value(vars@.skip(i as int), name@),
                decreases vars@.len() - i,
            {
                assert(vars@.skip(i as int).drop_first() =~= vars@.skip(i + 1));
                if vars[i].0 == name {
                    return Ok(Some(vars[i].1.clone()));
                }
                i = i + 1;
            }
            assert(vars@.skip(i as int) =~= Seq::<(String, String)>::empty());
            Err(ThemeError::InvalidVariable(name))
        },
    }
}

/// The colors of a theme item: foreground and background.
#[derive(Clone, Copy, Debug, PartialEq, Eq, Structural)]
pub struct ForeAndBack {
    pub foreground: Rgb,
    pub background: Rgb,
}

/// The colors that a theme item gives, as text.
pub struct ItemColors {
    pub foreground: Option<String>,
    pub background: Option<String>,
}

impl ForeAndBack {
    /// The colors of `item`, each of which falls back to the default
    /// given when the item, or its color, is absent.
    pub fn parse_with_default(item: &Option<ItemColors>, foreground: Rgb, background: Rgb) -> (res:
        Result<ForeAndBack, ThemeError>)
        requires
            item matches Some(it) ==> {
                &&& it.foreground matches Some(t) ==> !splits_char(vstd::utf8::encode_utf8(t@))
                &&& it.background matches Some(t) ==> !splits_char(vstd::utf8::encode_utf8(t@))
            },
        ensures
            item is None ==> res == Ok::<ForeAndBack, ThemeError>(ForeAndBack { foreground, background }),
            item matches Some(it) ==> match (
                spec_parse_color(it.foreground),
                spec_parse_color(it.background),
            ) {
                (Ok(f), Ok(b)) => res == Ok::<ForeAndBack, ThemeError>(
                    ForeAndBack {
                        foreground: match f {
                            Some(c) => c,
                            None => foreground,
                        },
                        background: match b {
                            Some(c) => c,
                            None => background,
                        },
                    },
                ),
                (Err(_), _) => res matches Err(e) && color_error(it.foreground->0, e),
                (Ok(_), Err(_)) => res matches Err(e) && color_error(it.background->0, e),
            },
    {
        match item {
            None => Ok(ForeAndBack { foreground, background }),
            Some(it) => {
                let f = match parse_color(&it.foreground) {
                    Ok(f) => f,
                    Err(e) => return Err(e),
                };
                let b = match parse_color(&it.background) {
                    Ok(b) => b,
                    Err(e) => return Err(e),
                };
                Ok(
                    ForeAndBack {
                        foreground: match f {
                            Some(c) => c,
                            None => foreground,
                        },
                        background: match b {
                            Some(c) => c,
                            None => background,
                        },
                    },
                )
            },
        }
    }
}

/// `e` is the error that `parse_color` gives for the color `t`.
pub open spec fn color_error(t: String, e: ThemeError) -> bool {
    let b = vstd::utf8::encode_utf8(t@);
    if !has_hash(b) {
        e matches ThemeError::ColorWithoutHash(x) && x@ == t@
    } else if b.len() != 7 {
        e matches ThemeError::ColorTooShort(x) && x@ == t@
    } else {
        e is InvalidDigit
    }
}

/// Whether `parse_color` succeeds on `s`, and with which color: the
/// error itself is left out.
pub open spec fn spec_parse_color(s: Option<String>) -> Result<Option<Rgb>, ()> {
    match s {
        None => Ok(None),
        Some(t) => {
            let b = vstd::utf8::encode_utf8(t@);
            if has_hash(b) && b.len() == 7 {
                match color_fields(b) {
                    Some(c) => Ok(Some(c)),
                    None => Err(()),
                }
            } else {
                Err(())
            }
        },
    }
}

} // verus!
