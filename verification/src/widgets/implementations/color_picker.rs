//! Color picker widget: colors written as hex, rgb(a) or hsl(a) strings.
//!
//! Colors here are bytes; alpha is the byte `a` of a `#rrggbbaa` color
//! (255 when the color has none), which a front end divides by 255.

use vstd::prelude::*;
use vstd::utf8::encode_utf8;
use crate::ast::{Annotation, param_bool_or, param_string_or};
use crate::error::{WezzteError, ErrorView};
use crate::hex::{hex_pair, parse_hex_pair, skip_leading, strip_leading, pairs_slice_cleanly};
use crate::lexer::{byte_pos, lemma_byte_pos_step, lemma_byte_pos_mono, utf8_width};
use crate::text::{
    all_digits, chars_of, digits_value, ends_with, is_hex_digit, lowercase_of, parse_digits,
    push_char, push_range, split_bounds, split_char, starts_with, str_eq, str_to_lowercase, string_of_range,
    to_owned_string, trim, trim_bounds, vec_ends_with, vec_starts_with,
};
use crate::widgets::traits::{WidgetConfig, WidgetConfigView, WidgetValue, WVal, config_from_annotation};
use crate::widgets::implementations::select::with_current;

verus! {

/// Supported color formats.
#[derive(Debug, Clone, Copy, PartialEq, Eq, Structural)]
pub enum ColorFormat {
    Hex,
    Rgb,
    Rgba,
    Hsl,
    Hsla,
}

/// The name of a color format.
pub open spec fn format_name(f: ColorFormat) -> Seq<char> {
    match f {
        ColorFormat::Hex => "hex"@,
        ColorFormat::Rgb => "rgb"@,
        ColorFormat::Rgba => "rgba"@,
        ColorFormat::Hsl => "hsl"@,
        ColorFormat::Hsla => "hsla"@,
    }
}

/// The format a lowercased name denotes; hex for any other name.
pub open spec fn format_of_lowercase(lower: Seq<char>) -> ColorFormat {
    if lower == "rgb"@ {
        ColorFormat::Rgb
    } else if lower == "rgba"@ {
        ColorFormat::Rgba
    } else if lower == "hsl"@ {
        ColorFormat::Hsl
    } else if lower == "hsla"@ {
        ColorFormat::Hsla
    } else {
        ColorFormat::Hex
    }
}

impl ColorFormat {
    /// The format named by `s`, ignoring case; hex for an unknown name.
    pub fn from_str(s: &str) -> (r: ColorFormat)
        ensures
            r == format_of_lowercase(lowercase_of(s@)),
    {
        let lower = str_to_lowercase(s);
        Self::from_lowercase(lower.as_str())
    }

    /// The format named by an already lowercased name.
    pub fn from_lowercase(lower: &str) -> (r: ColorFormat)
        ensures
            r == format_of_lowercase(lower@),
    {
        if str_eq(lower, "rgb") {
            ColorFormat::Rgb
        } else if str_eq(lower, "rgba") {
            ColorFormat::Rgba
        } else if str_eq(lower, "hsl") {
            ColorFormat::Hsl
        } else if str_eq(lower, "hsla") {
            ColorFormat::Hsla
        } else {
            ColorFormat::Hex
        }
    }

    /// The name of the format.
    pub fn as_str(&self) -> (r: &'static str)
        ensures
            r@ == format_name(*self),
    {
        match self {
            ColorFormat::Hex => "hex",
            ColorFormat::Rgb => "rgb",
            ColorFormat::Rgba => "rgba",
            ColorFormat::Hsl => "hsl",
            ColorFormat::Hsla => "hsla",
        }
    }
}

/// Reading the name of a format gives the format back.
pub proof fn law_format_name_roundtrip(f: ColorFormat)
    ensures
        format_of_lowercase(format_name(f)) == f,
{
    reveal_strlit("hex");
    reveal_strlit("rgb");
    reveal_strlit("rgba");
    reveal_strlit("hsl");
    reveal_strlit("hsla");
    assert("hex"@[0] != "rgb"@[0]);
    assert("hex"@.len() != "rgba"@.len());
    assert("hex"@[0] != "hsl"@[1]);
    assert("hex"@.len() != "hsla"@.len());
    assert("rgb"@.len() != "rgba"@.len());
    assert("rgba"@[0] != "hsla"@[0]);
    assert("hsl"@[0] != "rgb"@[0]);
    assert("hsl"@.len() != "rgba"@.len());
    assert("hsl"@.len() != "hsla"@.len());
    assert("hsla"@.len() != "rgb"@.len());
}

// ---------------------------------------------------------------------
// Parsed colors
// ---------------------------------------------------------------------

/// A color as bytes, with its `#` hex text.
#[derive(Debug)]
pub struct ParsedColor {
    pub hex: String,
    pub r: u8,
    pub g: u8,
    pub b: u8,
    /// Alpha byte; 255 is opaque
    pub alpha: u8,
}

/// Model of [`ParsedColor`].
pub struct ParsedColorView {
    pub hex: Seq<char>,
    pub r: u8,
    pub g: u8,
    pub b: u8,
    pub alpha: u8,
}

impl View for ParsedColor {
    type V = ParsedColorView;

    open spec fn view(&self) -> ParsedColorView {
        ParsedColorView { hex: self.hex@, r: self.r, g: self.g, b: self.b, alpha: self.alpha }
    }
}

/// The color of a hex string: `#rrggbb` or `#rrggbbaa` (leading `#`s optional).
pub open spec fn hex_color(s: Seq<char>) -> Option<ParsedColorView> {
    let h = strip_leading(s, '#');
    if h.len() == 6 && hex_pair(h[0], h[1]) is Some && hex_pair(h[2], h[3]) is Some && hex_pair(
        h[4],
        h[5],
    ) is Some {
        Some(
            ParsedColorView {
                hex: seq!['#'] + h,
                r: hex_pair(h[0], h[1])->0,
                g: hex_pair(h[2], h[3])->0,
                b: hex_pair(h[4], h[5])->0,
                alpha: 255,
            },
        )
    } else if h.len() == 8 && hex_pair(h[0], h[1]) is Some && hex_pair(h[2], h[3]) is Some
        && hex_pair(h[4], h[5]) is Some && hex_pair(h[6], h[7]) is Some {
        Some(
            ParsedColorView {
                hex: seq!['#'] + h,
                r: hex_pair(h[0], h[1])->0,
                g: hex_pair(h[2], h[3])->0,
                b: hex_pair(h[4], h[5])->0,
                alpha: hex_pair(h[6], h[7])->0,
            },
        )
    } else {
        None
    }
}

/// What `str::parse::<u8>` gives: an optional `+`, then decimal digits
/// whose value is at most 255.
pub open spec fn dec_u8(t: Seq<char>) -> Option<u8> {
    let d = if t.len() > 0 && t[0] == '+' {
        t.drop_first()
    } else {
        t
    };
    if d.len() > 0 && all_digits(d) && digits_value(d) <= 255 {
        Some(digits_value(d) as u8)
    } else {
        None
    }
}

/// Lowercase hexadecimal digit of `n < 16`.
pub open spec fn hex_char(n: nat) -> char {
    if n < 10 {
        ('0' as nat + n) as char
    } else {
        ('a' as nat + n - 10) as char
    }
}

/// Two lowercase hexadecimal digits of a byte (`{:02x}`).
pub open spec fn hex2(b: u8) -> Seq<char> {
    seq![hex_char(b as nat / 16), hex_char(b as nat % 16)]
}

/// The color of an `rgb(r, g, b)` string with decimal bytes.
pub open spec fn rgb_color(s: Seq<char>) -> Option<ParsedColorView> {
    if starts_with(s, "rgb("@) && ends_with(s, ")"@) {
        let parts = split_char(s.subrange(4, s.len() - 1), ',');
        if parts.len() == 3 && dec_u8(trim(parts[0])) is Some && dec_u8(trim(parts[1])) is Some
            && dec_u8(trim(parts[2])) is Some {
            let r = dec_u8(trim(parts[0]))->0;
            let g = dec_u8(trim(parts[1]))->0;
            let b = dec_u8(trim(parts[2]))->0;
            Some(ParsedColorView { hex: seq!['#'] + hex2(r) + hex2(g) + hex2(b), r, g, b, alpha: 255 })
        } else {
            None
        }
    } else {
        None
    }
}

/// The byte components and the trimmed alpha text of an
/// `rgba(r, g, b, a)` string; the alpha, a fraction, is read by the caller.
pub open spec fn rgba_parts_of(s: Seq<char>) -> Option<(u8, u8, u8, Seq<char>)> {
    if starts_with(s, "rgba("@) && ends_with(s, ")"@) {
        let parts = split_char(s.subrange(5, s.len() - 1), ',');
        if parts.len() == 4 && dec_u8(trim(parts[0])) is Some && dec_u8(trim(parts[1])) is Some
            && dec_u8(trim(parts[2])) is Some {
            Some((dec_u8(trim(parts[0]))->0, dec_u8(trim(parts[1]))->0, dec_u8(trim(parts[2]))->0, trim(parts[3])))
        } else {
            None
        }
    } else {
        None
    }
}

/// The three trimmed component texts of an `hsl(h, s, l)` string; the
/// numbers themselves are read by the caller.
pub open spec fn hsl_parts_of(s: Seq<char>) -> Option<(Seq<char>, Seq<char>, Seq<char>)> {
    if starts_with(s, "hsl("@) && ends_with(s, ")"@) {
        let parts = split_char(s.subrange(4, s.len() - 1), ',');
        if parts.len() == 3 {
            Some((trim(parts[0]), trim(parts[1]), trim(parts[2])))
        } else {
            None
        }
    } else {
        None
    }
}

/// Parses `v[lo..hi]` as a `u8` (see [`dec_u8`]).
fn parse_u8_range(v: &Vec<char>, lo: usize, hi: usize) -> (r: Option<u8>)
    requires
        lo <= hi <= v@.len(),
    ensures
        r == dec_u8(v@.subrange(lo as int, hi as int)),
{
    let ghost t = v@.subrange(lo as int, hi as int);
    let start = if lo < hi && v[lo] == '+' {
        lo + 1
    } else {
        lo
    };
    proof {
        if lo < hi && v@[lo as int] == '+' {
            assert(t.drop_first() =~= v@.subrange(start as int, hi as int));
        }
    }
    if start == hi {
        return None;
    }
    match parse_digits(v, start, hi, 255) {
        Some(n) => Some(n as u8),
        None => None,
    }
}

/// Lowercase hexadecimal digit of `n < 16`.
fn hex_digit_char(n: u8) -> (c: char)
    requires
        n < 16,
    ensures
        c == hex_char(n as nat),
{
    if n < 10 {
        ((48 + n) as u8) as char
    } else {
        ((87 + n) as u8) as char
    }
}

/// Appends the two lowercase hex digits of `b`.
fn push_hex2(out: &mut String, b: u8)
    ensures
        final(out)@ == old(out)@ + hex2(b),
{
    push_char(out, hex_digit_char(b / 16));
    push_char(out, hex_digit_char(b % 16));
    assert(final(out)@ =~= old(out)@ + hex2(b));
}

// ---------------------------------------------------------------------
// Validation
// ---------------------------------------------------------------------

/// An invalid `color` parameter error.
pub open spec fn color_error(message: Seq<char>) -> Result<(), ErrorView> {
    Err(ErrorView::InvalidParameter { param: "color"@, message })
}

/// Outcome of validating a color string for a format: hex colors are `#`
/// and 6 or 8 bytes of hexadecimal digits (8 only with alpha enabled);
/// the other formats are `name(` .. `)`.
pub open spec fn color_check(f: ColorFormat, alpha_enabled: bool, c: Seq<char>) -> Result<(), ErrorView> {
    match f {
        ColorFormat::Hex => if !starts_with(c, "#"@) {
            color_error("hex colors must start with #"@)
        } else {
            let h = c.drop_first();
            let n = encode_utf8(h).len();
            if n != 6 && n != 8 {
                color_error("hex colors must be 6 or 8 characters after #"@)
            } else if exists|i: int| 0 <= i < h.len() && !is_hex_digit(#[trigger] h[i]) {
                color_error("hex colors must contain only hexadecimal characters"@)
            } else if n == 8 && !alpha_enabled {
                color_error("alpha channel not enabled for this color picker"@)
            } else {
                Ok(())
            }
        },
        ColorFormat::Rgb => if starts_with(c, "rgb("@) && ends_with(c, ")"@) {
            Ok(())
        } else {
            color_error("RGB colors must be in format rgb(r, g, b)"@)
        },
        ColorFormat::Rgba => if starts_with(c, "rgba("@) && ends_with(c, ")"@) {
            Ok(())
        } else {
            color_error("RGBA colors must be in format rgba(r, g, b, a)"@)
        },
        ColorFormat::Hsl => if starts_with(c, "hsl("@) && ends_with(c, ")"@) {
            Ok(())
        } else {
            color_error("HSL colors must be in format hsl(h, s%, l%)"@)
        },
        ColorFormat::Hsla => if starts_with(c, "hsla("@) && ends_with(c, ")"@) {
            Ok(())
        } else {
            color_error("HSLA colors must be in format hsla(h, s%, l%, a)"@)
        },
    }
}

/// Outcome of validating a value for a color picker.
pub open spec fn color_value_check(f: ColorFormat, alpha_enabled: bool, x: WVal) -> Result<
    (),
    ErrorView,
> {
    match x {
        WVal::Str(s) => color_check(f, alpha_enabled, s),
        _ => Err(
            ErrorView::InvalidParameter { param: "value"@, message: "color picker requires string value"@ },
        ),
    }
}

/// The UTF-8 length of `v[lo..hi]`, or 9 when it exceeds 8.
fn byte_len_capped(v: &Vec<char>, lo: usize, hi: usize) -> (r: usize)
    requires
        lo <= hi <= v@.len(),
    ensures
        ({
            let n = encode_utf8(v@.subrange(lo as int, hi as int)).len();
            (n <= 8 && r == n) || (n > 8 && r == 9)
        }),
{
    let ghost s = v@.subrange(lo as int, hi as int);
    let mut total: usize = 0;
    let mut i = lo;
    assert(s.take(0) =~= Seq::<char>::empty());
    while i < hi && total <= 8
        invariant
            lo <= i <= hi <= v@.len(),
            s == v@.subrange(lo as int, hi as int),
            total == byte_pos(s, i - lo),
            total <= 12,
        decreases hi - i,
    {
        proof {
            lemma_byte_pos_step(s, i - lo);
        }
        assert(s[i - lo] == v@[i as int]);
        total = total + utf8_width(v[i]);
        i = i + 1;
    }
    proof {
        lemma_byte_pos_mono(s, i - lo, s.len() as int);
        assert(s.take(s.len() as int) =~= s);
    }
    if total > 8 {
        9
    } else {
        total
    }
}

/// Color picker widget for color selection.
#[derive(Debug)]
pub struct ColorPickerWidget {
    config: WidgetConfig,
    initial_value: WidgetValue,
    format: ColorFormat,
    alpha_enabled: bool,
}

/// Model of [`ColorPickerWidget`].
pub struct ColorPickerView {
    pub config: WidgetConfigView,
    pub initial_value: WVal,
    pub format: ColorFormat,
    pub alpha_enabled: bool,
}

impl View for ColorPickerWidget {
    type V = ColorPickerView;

    closed spec fn view(&self) -> ColorPickerView {
        ColorPickerView {
            config: self.config@,
            initial_value: self.initial_value@,
            format: self.format,
            alpha_enabled: self.alpha_enabled,
        }
    }
}

/// The color picker with its current value replaced.
pub open spec fn picker_with_value(w: ColorPickerView, v: WVal) -> ColorPickerView {
    ColorPickerView { config: with_current(w.config, v), ..w }
}

/// A color picker whose current and initial values are valid colors.
pub open spec fn picker_wf(v: ColorPickerView) -> bool {
    &&& color_value_check(v.format, v.alpha_enabled, v.config.current_value) is Ok
    &&& color_value_check(v.format, v.alpha_enabled, v.initial_value) is Ok
}

/// Outcome of creating a color picker.
pub open spec fn picker_new(c: WidgetConfigView, f: ColorFormat, alpha_enabled: bool) -> Result<
    ColorPickerView,
    ErrorView,
> {
    if !(c.current_value is Str) {
        Err(
            ErrorView::InvalidParameter {
                param: "current_value"@,
                message: "color picker requires string value"@,
            },
        )
    } else {
        match color_value_check(f, alpha_enabled, c.current_value) {
            Err(e) => Err(e),
            Ok(()) => Ok(
                ColorPickerView { config: c, initial_value: c.current_value, format: f, alpha_enabled },
            ),
        }
    }
}

/// An invalid `color` parameter error with a literal message.
fn color_err(message: &str) -> (e: WezzteError)
    ensures
        color_error(message@) == Err::<(), ErrorView>(e@),
{
    WezzteError::invalid_param("color", to_owned_string(message))
}

impl ColorPickerWidget {
    /// Create a new color picker widget; the current value must be a valid
    /// color string for the format.
    pub fn new(config: WidgetConfig, format: ColorFormat, alpha_enabled: bool) -> (r: Result<
        ColorPickerWidget,
        WezzteError,
    >)
        ensures
            match picker_new(config@, format, alpha_enabled) {
                Ok(v) => r matches Ok(w) && w@ == v && picker_wf(w@),
                Err(e) => r matches Err(x) && x@ == e,
            },
    {
        if !matches!(config.current_value, WidgetValue::String(_)) {
            return Err(
                WezzteError::invalid_param(
                    "current_value",
                    to_owned_string("color picker requires string value"),
                ),
            );
        }
        let initial_value = config.current_value.copy();
        let widget = ColorPickerWidget { config, initial_value, format, alpha_enabled };
        match widget.validate_value(&widget.config.current_value) {
            Ok(()) => Ok(widget),
            Err(e) => Err(e),
        }
    }

    /// The color as a string (`#000000` when the value is not a string).
    pub fn color_string(&self) -> (r: &str)
        ensures
            match self@.config.current_value {
                WVal::Str(s) => r@ == s,
                _ => r@ == "#000000"@,
            },
    {
        match &self.config.current_value {
            WidgetValue::String(s) => s.as_str(),
            _ => "#000000",
        }
    }

    /// The format colors are written in.
    pub fn format(&self) -> (r: ColorFormat)
        ensures
            r == self@.format,
    {
        self.format
    }

    /// Whether colors may carry an alpha channel.
    pub fn alpha_enabled(&self) -> (r: bool)
        ensures
            r == self@.alpha_enabled,
    {
        self.alpha_enabled
    }

    /// Parse a hex color string into its components.
    pub fn parse_hex_color(hex: &str) -> (r: Option<ParsedColor>)
        requires
            pairs_slice_cleanly(strip_leading(hex@, '#'), 6),
            pairs_slice_cleanly(strip_leading(hex@, '#'), 8),
        ensures
            match hex_color(hex@) {
                Some(p) => r matches Some(c) && c@ == p,
                None => r is None,
            },
    {
        let v = chars_of(hex);
        let i = skip_leading(&v, '#');
        let n = v.len() - i;
        let ghost h = v@.skip(i as int);
        proof {
            assert forall|k: int| 0 <= k < h.len() implies h[k] == v@[i + k] by {}
        }
        if n != 6 && n != 8 {
            return None;
        }
        let p0 = parse_hex_pair(v[i], v[i + 1]);
        let p1 = parse_hex_pair(v[i + 2], v[i + 3]);
        let p2 = parse_hex_pair(v[i + 4], v[i + 5]);
        if p0.is_none() || p1.is_none() || p2.is_none() {
            return None;
        }
        let r = p0.unwrap();
        let g = p1.unwrap();
        let b = p2.unwrap();
        let alpha = if n == 6 {
            255u8
        } else {
            match parse_hex_pair(v[i + 6], v[i + 7]) {
                Some(a) => a,
                None => {
                    return None;
                },
            }
        };
        let mut text = String::new();
        push_char(&mut text, '#');
        push_range(&mut text, &v, i, v.len());
        assert(v@.subrange(i as int, v@.len() as int) =~= h);
        assert(text@ =~= seq!['#'] + h);
        Some(ParsedColor { hex: text, r, g, b, alpha })
    }

    /// Parse an `rgb(r, g, b)` string into its components.
    pub fn parse_rgb_color(rgb: &str) -> (r: Option<ParsedColor>)
        ensures
            match rgb_color(rgb@) {
                Some(p) => r matches Some(c) && c@ == p,
                None => r is None,
            },
    {
        let v = chars_of(rgb);
        let pre = chars_of("rgb(");
        let post = chars_of(")");
        if !vec_starts_with(&v, &pre) || !vec_ends_with(&v, &post) {
            return None;
        }
        proof {
            reveal_strlit("rgb(");
            reveal_strlit(")");
            assert(v@.take(4)[3] == '(');
            assert(v@.len() >= 5) by {
                if v@.len() == 4 {
                    assert(v@.skip(3)[0] == ')');
                }
            }
        }
        let hi = v.len() - 1;
        let bounds = split_bounds(&v, 4, hi, ',');
        let ghost parts = split_char(v@.subrange(4, hi as int), ',');
        if bounds.len() != 3 {
            return None;
        }
        let (a0, b0) = bounds[0];
        let (a1, b1) = bounds[1];
        let (a2, b2) = bounds[2];
        let (c0, d0) = trim_bounds(&v, a0, b0);
        let (c1, d1) = trim_bounds(&v, a1, b1);
        let (c2, d2) = trim_bounds(&v, a2, b2);
        let r = match parse_u8_range(&v, c0, d0) {
            Some(x) => x,
            None => {
                return None;
            },
        };
        let g = match parse_u8_range(&v, c1, d1) {
            Some(x) => x,
            None => {
                return None;
            },
        };
        let b = match parse_u8_range(&v, c2, d2) {
            Some(x) => x,
            None => {
                return None;
            },
        };
        let mut text = String::new();
        push_char(&mut text, '#');
        push_hex2(&mut text, r);
        push_hex2(&mut text, g);
        push_hex2(&mut text, b);
        assert(text@ =~= seq!['#'] + hex2(r) + hex2(g) + hex2(b));
        Some(ParsedColor { hex: text, r, g, b, alpha: 255 })
    }

    /// Split an `rgba(r, g, b, a)` string into its bytes and its alpha text.
    pub fn rgba_parts(rgba: &str) -> (r: Option<(u8, u8, u8, String)>)
        ensures
            match rgba_parts_of(rgba@) {
                Some((pr, pg, pb, pa)) => r matches Some((x, y, z, w)) && x == pr && y == pg && z == pb
                    && w@ == pa,
                None => r is None,
            },
    {
        let v = chars_of(rgba);
        let pre = chars_of("rgba(");
        let post = chars_of(")");
        if !vec_starts_with(&v, &pre) || !vec_ends_with(&v, &post) {
            return None;
        }
        proof {
            reveal_strlit("rgba(");
            reveal_strlit(")");
            assert(v@.take(5)[4] == '(');
            assert(v@.len() >= 6) by {
                if v@.len() == 5 {
                    assert(v@.skip(4)[0] == ')');
                }
            }
        }
        let hi = v.len() - 1;
        let bounds = split_bounds(&v, 5, hi, ',');
        let ghost parts = split_char(v@.subrange(5, hi as int), ',');
        if bounds.len() != 4 {
            return None;
        }
        let (a0, b0) = bounds[0];
        let (a1, b1) = bounds[1];
        let (a2, b2) = bounds[2];
        let (a3, b3) = bounds[3];
        let (c0, d0) = trim_bounds(&v, a0, b0);
        let (c1, d1) = trim_bounds(&v, a1, b1);
        let (c2, d2) = trim_bounds(&v, a2, b2);
        let (c3, d3) = trim_bounds(&v, a3, b3);
        let r = match parse_u8_range(&v, c0, d0) {
            Some(x) => x,
            None => {
                return None;
            },
        };
        let g = match parse_u8_range(&v, c1, d1) {
            Some(x) => x,
            None => {
                return None;
            },
        };
        let b = match parse_u8_range(&v, c2, d2) {
            Some(x) => x,
            None => {
                return None;
            },
        };
        Some((r, g, b, string_of_range(&v, c3, d3)))
    }

    /// Split an `hsl(h, s, l)` string into its three component texts.
    pub fn hsl_parts(hsl: &str) -> (r: Option<(String, String, String)>)
        ensures
            match hsl_parts_of(hsl@) {
                Some((ph, ps, pl)) => r matches Some((x, y, z)) && x@ == ph && y@ == ps && z@ == pl,
                None => r is None,
            },
    {
        let v = chars_of(hsl);
        let pre = chars_of("hsl(");
        let post = chars_of(")");
        if !vec_starts_with(&v, &pre) || !vec_ends_with(&v, &post) {
            return None;
        }
        proof {
            reveal_strlit("hsl(");
            reveal_strlit(")");
            assert(v@.take(4)[3] == '(');
            assert(v@.len() >= 5) by {
                if v@.len() == 4 {
                    assert(v@.skip(3)[0] == ')');
                }
            }
        }
        let hi = v.len() - 1;
        let bounds = split_bounds(&v, 4, hi, ',');
        let ghost parts = split_char(v@.subrange(4, hi as int), ',');
        if bounds.len() != 3 {
            return None;
        }
        let (a0, b0) = bounds[0];
        let (a1, b1) = bounds[1];
        let (a2, b2) = bounds[2];
        let (c0, d0) = trim_bounds(&v, a0, b0);
        let (c1, d1) = trim_bounds(&v, a1, b1);
        let (c2, d2) = trim_bounds(&v, a2, b2);
        Some((string_of_range(&v, c0, d0), string_of_range(&v, c1, d1), string_of_range(&v, c2, d2)))
    }

    /// Validate a color string based on the picker's format.
    pub fn validate_color_string(&self, color: &str) -> (r: Result<(), WezzteError>)
        ensures
            match color_check(self@.format, self@.alpha_enabled, color@) {
                Ok(()) => r is Ok,
                Err(e) => r matches Err(x) && x@ == e,
            },
    {
        let v = chars_of(color);
        match self.format {
            ColorFormat::Hex => {
                proof {
                    reveal_strlit("#");
                }
                if v.len() == 0 || v[0] != '#' {
                    proof {
                        assert("#"@.len() == 1 && "#"@[0] == '#');
                        if v@.len() > 0 {
                            assert(color@.take(1)[0] == v@[0]);
                        }
                    }
                    return Err(color_err("hex colors must start with #"));
                }
                assert(v@.take(1) =~= seq!['#']);
                assert("#"@ =~= seq!['#']);
                assert(starts_with(color@, "#"@));
                let ghost h = color@.drop_first();
                assert(v@.subrange(1, v@.len() as int) =~= h);
                let n = byte_len_capped(&v, 1, v.len());
                if n != 6 && n != 8 {
                    return Err(color_err("hex colors must be 6 or 8 characters after #"));
                }
                let mut k: usize = 1;
                while k < v.len()
                    invariant
                        1 <= k <= v@.len(),
                        v@ == color@,
                        h == color@.drop_first(),
                        n == encode_utf8(h).len(),
                        n == 6 || n == 8,
                        self@.format == ColorFormat::Hex,
                        starts_with(color@, "#"@),
                        forall|j: int| 0 <= j < k - 1 ==> is_hex_digit(#[trigger] h[j]),
                    decreases v.len() - k,
                {
                    let c = v[k];
                    if !(('0' <= c && c <= '9') || ('a' <= c && c <= 'f') || ('A' <= c && c <= 'F')) {
                        assert(!is_hex_digit(h[k - 1]));
                        assert(exists|i: int| 0 <= i < h.len() && !is_hex_digit(#[trigger] h[i]));
                        return Err(color_err("hex colors must contain only hexadecimal characters"));
                    }
                    k = k + 1;
                }
                if n == 8 && !self.alpha_enabled {
                    return Err(color_err("alpha channel not enabled for this color picker"));
                }
                Ok(())
            },
            ColorFormat::Rgb => {
                if vec_starts_with(&v, &chars_of("rgb(")) && vec_ends_with(&v, &chars_of(")")) {
                    Ok(())
                } else {
                    Err(color_err("RGB colors must be in format rgb(r, g, b)"))
                }
            },
            ColorFormat::Rgba => {
                if vec_starts_with(&v, &chars_of("rgba(")) && vec_ends_with(&v, &chars_of(")")) {
                    Ok(())
                } else {
                    Err(color_err("RGBA colors must be in format rgba(r, g, b, a)"))
                }
            },
            ColorFormat::Hsl => {
                if vec_starts_with(&v, &chars_of("hsl(")) && vec_ends_with(&v, &chars_of(")")) {
                    Ok(())
                } else {
                    Err(color_err("HSL colors must be in format hsl(h, s%, l%)"))
                }
            },
            ColorFormat::Hsla => {
                if vec_starts_with(&v, &chars_of("hsla(")) && vec_ends_with(&v, &chars_of(")")) {
                    Ok(())
                } else {
                    Err(color_err("HSLA colors must be in format hsla(h, s%, l%, a)"))
                }
            },
        }
    }

    /// The widget's configuration.
    pub fn config(&self) -> (r: &WidgetConfig)
        ensures
            r@ == self@.config,
    {
        &self.config
    }

    /// The current value.
    pub fn get_value(&self) -> (r: &WidgetValue)
        ensures
            r@ == self@.config.current_value,
    {
        &self.config.current_value
    }

    /// Set the value: it must be a valid color string; on an error the
    /// widget is unchanged.
    pub fn set_value(&mut self, value: WidgetValue) -> (r: Result<(), WezzteError>)
        ensures
            match color_value_check(old(self)@.format, old(self)@.alpha_enabled, value@) {
                Ok(()) => r is Ok && final(self)@ == picker_with_value(old(self)@, value@),
                Err(e) => r matches Err(x) && x@ == e && final(self)@ == old(self)@,
            },
            picker_wf(old(self)@) ==> picker_wf(final(self)@),
    {
        match self.validate_value(&value) {
            Ok(()) => {
                self.config.current_value = value;
                Ok(())
            },
            Err(e) => Err(e),
        }
    }

    /// Validate a potential value for this widget.
    pub fn validate_value(&self, value: &WidgetValue) -> (r: Result<(), WezzteError>)
        ensures
            match color_value_check(self@.format, self@.alpha_enabled, value@) {
                Ok(()) => r is Ok,
                Err(e) => r matches Err(x) && x@ == e,
            },
    {
        match value {
            WidgetValue::String(s) => self.validate_color_string(s.as_str()),
            _ => Err(
                WezzteError::invalid_param("value", to_owned_string("color picker requires string value")),
            ),
        }
    }

    /// The configuration text of the current value.
    pub fn to_config_string(&self) -> (r: String)
        ensures
            r@ == crate::widgets::traits::config_text(self@.config.current_value),
    {
        self.config.current_value.to_config_string()
    }

    /// Whether the value differs from the initial one.
    pub fn has_changed(&self) -> (r: bool)
        ensures
            r == (self@.config.current_value != self@.initial_value),
    {
        !self.config.current_value.same_as(&self.initial_value)
    }

    /// Reset the widget to its initial value.
    pub fn reset(&mut self) -> (r: Result<(), WezzteError>)
        ensures
            r is Ok,
            final(self)@ == picker_with_value(old(self)@, old(self)@.initial_value),
            picker_wf(old(self)@) ==> picker_wf(final(self)@),
    {
        self.config.current_value = self.initial_value.copy();
        Ok(())
    }

    /// Create a color picker from an annotation: the `format` parameter
    /// (hex by default) and the `alpha` parameter (false by default).
    pub fn from_annotation(
        id: String,
        config_key: String,
        annotation: &Annotation,
        current_value: WidgetValue,
    ) -> (r: Result<ColorPickerWidget, WezzteError>)
        ensures
            match picker_new(
                config_from_annotation(id@, config_key@, annotation.params@, current_value@),
                format_of_lowercase(lowercase_of(param_string_or(annotation.params@, "format"@, "hex"@))),
                param_bool_or(annotation.params@, "alpha"@, false),
            ) {
                Ok(v) => r matches Ok(w) && w@ == v && picker_wf(w@),
                Err(e) => r matches Err(x) && x@ == e,
            },
    {
        let config = WidgetConfig::from_annotation(id, config_key, annotation, current_value);
        let format_str = annotation.get_param_as_string("format", "hex");
        let format = ColorFormat::from_str(format_str.as_str());
        let alpha_enabled = annotation.get_param_as_bool("alpha", false);
        Self::new(config, format, alpha_enabled)
    }

    /// The UI type this widget handles.
    pub fn ui_type() -> (r: &'static str)
        ensures
            r@ == "color_picker"@,
    {
        "color_picker"
    }
}

/// The two digits of a byte read back as that byte.
proof fn lemma_hex2_reads_back(b: u8)
    ensures
        hex_pair(hex2(b)[0], hex2(b)[1]) == Some(b),
        hex2(b)[0] != '#',
{
    let hi = b as nat / 16;
    let lo = b as nat % 16;
    assert(hi < 16 && lo < 16);
    assert(16 * hi + lo == b as nat);
}

/// The hex text of a parsed `rgb(..)` color parses back to the same color.
pub proof fn law_rgb_hex_round_trip(s: Seq<char>)
    requires
        rgb_color(s) is Some,
    ensures
        hex_color(rgb_color(s)->0.hex) == rgb_color(s),
{
    let p = rgb_color(s)->0;
    lemma_hex2_reads_back(p.r);
    lemma_hex2_reads_back(p.g);
    lemma_hex2_reads_back(p.b);
    let h = hex2(p.r) + hex2(p.g) + hex2(p.b);
    assert(p.hex =~= seq!['#'] + h);
    assert((seq!['#'] + h).drop_first() =~= h);
    assert(strip_leading(h, '#') == h);
    assert(strip_leading(seq!['#'] + h, '#') == strip_leading(h, '#'));
    assert(h[0] == hex2(p.r)[0] && h[1] == hex2(p.r)[1]);
    assert(h[2] == hex2(p.g)[0] && h[3] == hex2(p.g)[1]);
    assert(h[4] == hex2(p.b)[0] && h[5] == hex2(p.b)[1]);
    assert(hex_color(p.hex) == Some(p));
}

/// Resetting a color picker after setting a value gives back its initial
/// value, whatever was set.
pub proof fn law_picker_reset_after_set(w: ColorPickerView, v: WVal)
    ensures
        ({
            let after = picker_with_value(w, v);
            let reset = picker_with_value(after, after.initial_value);
            reset == picker_with_value(w, w.initial_value) && reset.config.current_value
                == reset.initial_value
        }),
{
}

/// Each format accepts a color by its shape alone: for `hsl`, any text that
/// starts with `hsl(` and ends with `)` is accepted and any other is
/// refused; likewise `rgb(..)`, `rgba(..)` and `hsla(..)` for their formats.
pub proof fn law_functional_colors_by_shape(alpha_enabled: bool, c: Seq<char>)
    ensures
        color_check(ColorFormat::Hsl, alpha_enabled, c) is Ok <==> (starts_with(c, "hsl("@) && ends_with(c, ")"@)),
        color_check(ColorFormat::Hsla, alpha_enabled, c) is Ok <==> (starts_with(c, "hsla("@) && ends_with(c, ")"@)),
        color_check(ColorFormat::Rgb, alpha_enabled, c) is Ok <==> (starts_with(c, "rgb("@) && ends_with(c, ")"@)),
        color_check(ColorFormat::Rgba, alpha_enabled, c) is Ok <==> (starts_with(c, "rgba("@) && ends_with(c, ")"@)),
        (starts_with(c, "hsl("@) && ends_with(c, ")"@)) ==> color_value_check(ColorFormat::Hsl, alpha_enabled, WVal::Str(c)) is Ok,
{
}

} // verus!
