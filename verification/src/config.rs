//! Render configuration: output kind, colors, field width, pagination
//! batch size, and the parsing of their textual forms.

use vstd::prelude::*;
use vstd::string::StrSliceExecFns;
use crate::textfmt::chars_of;

verus! {

/// A terminal foreground color: a named palette entry or an RGB triple.
#[derive(Clone, Copy, Debug, PartialEq, Eq, Structural)]
pub enum Color {
    Black,
    Blue,
    Green,
    Red,
    Cyan,
    Magenta,
    Yellow,
    White,
    Rgb(u8, u8, u8),
}

/// Which output surface the run renders to.
#[derive(Clone, Copy, Debug, PartialEq, Eq, Structural)]
pub enum OutputKind {
    Terminal,
    Txt,
    Html,
}

/// The three-slot color assignment, one slot per operation kind.
#[derive(Clone, Copy, Debug, PartialEq, Eq, Structural)]
pub struct ColorAssignment {
    pub left: Color,
    pub both: Color,
    pub right: Color,
}

/// The default assignment: left red, both white, right green.
pub fn default_colors() -> (c: ColorAssignment)
    ensures
        c == (ColorAssignment { left: Color::Red, both: Color::White, right: Color::Green }),
{
    ColorAssignment { left: Color::Red, both: Color::White, right: Color::Green }
}

/// Everything the render strategies read: numeric field width, color
/// assignment, whether unchanged lines are rendered, and the terminal
/// pagination batch size (`usize::MAX` means never pause).
#[derive(Clone, Copy, Debug, PartialEq, Eq, Structural)]
pub struct RenderConfig {
    pub width: usize,
    pub colors: ColorAssignment,
    pub show_unchanged: bool,
    pub batch: usize,
}

/// Why a configuration string was rejected.
#[derive(Clone, Copy, Debug, PartialEq, Eq, Structural)]
pub enum ConfigError {
    UnknownOutputKind,
    WrongColorCount,
    UnknownColor,
    BadRgb,
}

/// The segments of `s` between occurrences of `sep`: always at least
/// one segment, and empty segments where separators touch.
pub open spec fn spec_split(s: Seq<char>, sep: char) -> Seq<Seq<char>>
    decreases s.len(),
{
    if s.len() == 0 {
        seq![Seq::<char>::empty()]
    } else if s[0] == sep {
        seq![Seq::<char>::empty()] + spec_split(s.drop_first(), sep)
    } else {
        let rest = spec_split(s.drop_first(), sep);
        seq![seq![s[0]] + rest[0]] + rest.drop_first()
    }
}

/// The numeric value of a decimal digit character.
pub open spec fn digit_val(c: char) -> Option<nat> {
    if c == '0' {
        Some(0nat)
    } else if c == '1' {
        Some(1nat)
    } else if c == '2' {
        Some(2nat)
    } else if c == '3' {
        Some(3nat)
    } else if c == '4' {
        Some(4nat)
    } else if c == '5' {
        Some(5nat)
    } else if c == '6' {
        Some(6nat)
    } else if c == '7' {
        Some(7nat)
    } else if c == '8' {
        Some(8nat)
    } else if c == '9' {
        Some(9nat)
    } else {
        None
    }
}

/// The value of a run of decimal digits; `None` as soon as any
/// character is not a digit. The empty run reads as zero.
pub open spec fn digits_val(s: Seq<char>) -> Option<nat>
    decreases s.len(),
{
    if s.len() == 0 {
        Some(0nat)
    } else {
        match (digits_val(s.drop_last()), digit_val(s.last())) {
            (Some(v), Some(d)) => Some(v * 10 + d),
            _ => None,
        }
    }
}

/// A run with a non-digit character has no value.
pub proof fn lemma_digits_val_none(s: Seq<char>, k: int)
    requires
        0 <= k < s.len(),
        digit_val(s[k]) is None,
    ensures
        digits_val(s) is None,
    decreases s.len(),
{
    if k == s.len() - 1 {
    } else {
        lemma_digits_val_none(s.drop_last(), k);
    }
}

/// How `u8` reads from decimal text: an optional leading `+`, then at
/// least one digit, with a value that fits in the type.
pub open spec fn spec_parse_digits(s: Seq<char>) -> Option<u8> {
    if s.len() == 0 {
        None
    } else {
        match digits_val(s) {
            Some(v) => if v <= 255 {
                Some(v as u8)
            } else {
                None
            },
            None => None,
        }
    }
}

/// The value `u8::from_str` gives a token, if any.
pub open spec fn spec_parse_u8(s: Seq<char>) -> Option<u8> {
    if s.len() > 0 && s[0] == '+' {
        spec_parse_digits(s.drop_first())
    } else {
        spec_parse_digits(s)
    }
}

/// Whether a color token takes the `rgb,` form.
pub open spec fn is_rgb_form(t: Seq<char>) -> bool {
    t.len() >= 4 && t[0] == 'r' && t[1] == 'g' && t[2] == 'b' && t[3] == ','
}

/// The color a single token names: one of the eight palette names, or
/// an explicit triple `rgb,r,g,b` — exactly four comma-separated
/// pieces, `rgb` and three byte values; anything else in the `rgb,`
/// form is malformed.
pub open spec fn spec_parse_color(t: Seq<char>) -> Option<Color> {
    if t == "Black"@ {
        Some(Color::Black)
    } else if t == "Blue"@ {
        Some(Color::Blue)
    } else if t == "Green"@ {
        Some(Color::Green)
    } else if t == "Red"@ {
        Some(Color::Red)
    } else if t == "Cyan"@ {
        Some(Color::Cyan)
    } else if t == "Magenta"@ {
        Some(Color::Magenta)
    } else if t == "Yellow"@ {
        Some(Color::Yellow)
    } else if t == "White"@ {
        Some(Color::White)
    } else if is_rgb_form(t) {
        let parts = spec_split(t, ',');
        if parts.len() == 4 && parts[0] == "rgb"@ && spec_parse_u8(parts[1]) is Some
            && spec_parse_u8(parts[2]) is Some && spec_parse_u8(parts[3]) is Some {
            Some(
                Color::Rgb(
                    spec_parse_u8(parts[1]).unwrap(),
                    spec_parse_u8(parts[2]).unwrap(),
                    spec_parse_u8(parts[3]).unwrap(),
                ),
            )
        } else {
            None
        }
    } else {
        None
    }
}

/// The error a bad color token earns: `BadRgb` for a malformed `rgb,`
/// token, `UnknownColor` for anything else.
pub open spec fn spec_color_error(t: Seq<char>) -> ConfigError {
    if is_rgb_form(t) {
        ConfigError::BadRgb
    } else {
        ConfigError::UnknownColor
    }
}

/// How a whole color specification reads: three `:`-separated tokens,
/// each a color, reported in slot order left, both, right; the first
/// offending token decides the error.
pub open spec fn spec_parse_colors(s: Seq<char>) -> Result<ColorAssignment, ConfigError> {
    let toks = spec_split(s, ':');
    if toks.len() != 3 {
        Err(ConfigError::WrongColorCount)
    } else if spec_parse_color(toks[0]) is None {
        Err(spec_color_error(toks[0]))
    } else if spec_parse_color(toks[1]) is None {
        Err(spec_color_error(toks[1]))
    } else if spec_parse_color(toks[2]) is None {
        Err(spec_color_error(toks[2]))
    } else {
        Ok(
            ColorAssignment {
                left: spec_parse_color(toks[0]).unwrap(),
                both: spec_parse_color(toks[1]).unwrap(),
                right: spec_parse_color(toks[2]).unwrap(),
            },
        )
    }
}

/// The output kind a token names.
pub open spec fn spec_parse_kind(s: Seq<char>) -> Option<OutputKind> {
    if s == "terminal"@ {
        Some(OutputKind::Terminal)
    } else if s == "txt"@ {
        Some(OutputKind::Txt)
    } else if s == "html"@ {
        Some(OutputKind::Html)
    } else {
        None
    }
}

/// Whether two string slices hold the same characters.
pub fn str_eq(a: &str, b: &str) -> (r: bool)
    ensures
        r == (a@ == b@),
{
    let n = a.unicode_len();
    if n != b.unicode_len() {
        return false;
    }
    let mut i: usize = 0;
    while i < n
        invariant
            i <= n,
            n == a@.len(),
            n == b@.len(),
            forall|j: int| 0 <= j < i ==> a@[j] == b@[j],
        decreases n - i,
    {
        if a.get_char(i) != b.get_char(i) {
            return false;
        }
        i = i + 1;
    }
    proof {
        assert(a@ =~= b@);
    }
    true
}

/// Whether a character vector holds exactly the characters of a slice.
fn chars_eq_str(v: &Vec<char>, s: &str) -> (r: bool)
    ensures
        r == (v@ == s@),
{
    let n = s.unicode_len();
    if v.len() != n {
        return false;
    }
    let mut i: usize = 0;
    while i < n
        invariant
            i <= n,
            n == s@.len(),
            v@.len() == n,
            forall|j: int| 0 <= j < i ==> v@[j] == s@[j],
        decreases n - i,
    {
        if v[i] != s.get_char(i) {
            return false;
        }
        i = i + 1;
    }
    proof {
        assert(v@ =~= s@);
    }
    true
}

/// Split a character vector at every occurrence of `sep`.
pub fn split_chars(v: &Vec<char>, sep: char) -> (toks: Vec<Vec<char>>)
    ensures
        toks.deep_view() == spec_split(v@, sep),
{
    let mut cur: Vec<char> = Vec::new();
    let mut rest: Vec<Vec<char>> = Vec::new();
    let mut i: usize = v.len();
    proof {
        assert(v@.skip(v@.len() as int) =~= Seq::<char>::empty());
        assert(seq![cur@] + rest.deep_view() =~~= spec_split(v@.skip(v@.len() as int), sep));
    }
    while i > 0
        invariant
            i <= v.len(),
            seq![cur@] + rest.deep_view() == spec_split(v@.skip(i as int), sep),
        decreases i,
    {
        let ghost pre = v@.skip(i as int - 1);
        proof {
            assert(pre[0] == v@[i as int - 1]);
            assert(pre.drop_first() =~= v@.skip(i as int));
        }
        let c = v[i - 1];
        if c == sep {
            let ghost old_cur = cur@;
            let ghost old_deep = rest.deep_view();
            let done = cur;
            cur = Vec::new();
            rest.insert(0, done);
            proof {
                assert(rest.deep_view() =~~= seq![old_cur] + old_deep);
                assert(seq![cur@] + rest.deep_view() =~~= spec_split(pre, sep));
            }
        } else {
            let ghost old_cur = cur@;
            cur.insert(0, c);
            proof {
                assert(cur@ =~= seq![c] + old_cur);
                let sp = spec_split(v@.skip(i as int), sep);
                assert(sp[0] == old_cur);
                assert(sp.drop_first() =~~= rest.deep_view());
                assert(seq![cur@] + rest.deep_view() =~~= spec_split(pre, sep));
            }
        }
        i = i - 1;
    }
    proof {
        assert(v@.skip(0) =~= v@);
    }
    let ghost final_cur = cur@;
    let ghost final_deep = rest.deep_view();
    let mut toks = rest;
    toks.insert(0, cur);
    proof {
        assert(toks.deep_view() =~~= seq![final_cur] + final_deep);
    }
    toks
}

fn digit_value(c: char) -> (r: Option<u8>)
    ensures
        (match digit_val(c) {
            Some(d) => r == Some(d as u8),
            None => r is None,
        }),
{
    if c == '0' {
        Some(0)
    } else if c == '1' {
        Some(1)
    } else if c == '2' {
        Some(2)
    } else if c == '3' {
        Some(3)
    } else if c == '4' {
        Some(4)
    } else if c == '5' {
        Some(5)
    } else if c == '6' {
        Some(6)
    } else if c == '7' {
        Some(7)
    } else if c == '8' {
        Some(8)
    } else if c == '9' {
        Some(9)
    } else {
        None
    }
}

/// Read the digits of `t` from `start` on as a byte value.
fn parse_digits_from(t: &Vec<char>, start: usize) -> (r: Option<u8>)
    requires
        start <= t@.len(),
    ensures
        r == spec_parse_digits(t@.skip(start as int)),
{
    let ghost whole = t@.skip(start as int);
    if start == t.len() {
        proof {
            assert(whole.len() == 0);
        }
        return None;
    }
    let mut acc: u32 = 0;
    let mut i: usize = start;
    proof {
        assert(whole.subrange(0, 0) =~= Seq::<char>::empty());
    }
    while i < t.len()
        invariant
            start <= i <= t@.len(),
            whole == t@.skip(start as int),
            whole.len() == t@.len() - start,
            digits_val(whole.subrange(0, i - start)) is Some,
            acc <= 256,
            (digits_val(whole.subrange(0, i - start)) matches Some(v) ==> ((v <= 255 ==> acc == v)
                && (v > 255 ==> acc == 256))),
        decreases t@.len() - i,
    {
        let ghost seen = whole.subrange(0, i - start);
        proof {
            assert(whole.subrange(0, i - start + 1).drop_last() =~= seen);
            assert(whole.subrange(0, i - start + 1).last() == whole[i - start]);
            assert(whole[i - start] == t@[i as int]);
        }
        let c = t[i];
        match digit_value(c) {
            Some(d) => {
                acc = acc * 10 + (d as u32);
                if acc > 255 {
                    acc = 256;
                }
            },
            None => {
                proof {
                    lemma_digits_val_none(whole, i - start);
                }
                return None;
            },
        }
        i = i + 1;
    }
    proof {
        assert(whole.subrange(0, whole.len() as int) =~= whole);
    }
    if acc > 255 {
        None
    } else {
        Some(acc as u8)
    }
}

/// Read a whole token as `u8::from_str` does: an optional `+`, then
/// digits whose value fits.
pub fn parse_u8_token(t: &Vec<char>) -> (r: Option<u8>)
    ensures
        r == spec_parse_u8(t@),
{
    if t.len() > 0 && t[0] == '+' {
        proof {
            assert(t@.skip(1) =~= t@.drop_first());
        }
        parse_digits_from(t, 1)
    } else {
        proof {
            assert(t@.skip(0) =~= t@);
        }
        parse_digits_from(t, 0)
    }
}

/// Read one color token: a palette name or an `rgb,` triple.
pub fn parse_color(t: &Vec<char>) -> (r: Result<Color, ConfigError>)
    ensures
        (match spec_parse_color(t@) {
            Some(c) => r == Ok::<Color, ConfigError>(c),
            None => r == Err::<Color, ConfigError>(spec_color_error(t@)),
        }),
{
    if chars_eq_str(t, "Black") {
        Ok(Color::Black)
    } else if chars_eq_str(t, "Blue") {
        Ok(Color::Blue)
    } else if chars_eq_str(t, "Green") {
        Ok(Color::Green)
    } else if chars_eq_str(t, "Red") {
        Ok(Color::Red)
    } else if chars_eq_str(t, "Cyan") {
        Ok(Color::Cyan)
    } else if chars_eq_str(t, "Magenta") {
        Ok(Color::Magenta)
    } else if chars_eq_str(t, "Yellow") {
        Ok(Color::Yellow)
    } else if chars_eq_str(t, "White") {
        Ok(Color::White)
    } else if t.len() >= 4 && t[0] == 'r' && t[1] == 'g' && t[2] == 'b' && t[3] == ',' {
        let parts = split_chars(t, ',');
        let ghost all_parts = parts.deep_view();
        proof {
            assert(all_parts.len() == parts@.len());
        }
        if parts.len() != 4 {
            return Err(ConfigError::BadRgb);
        }
        proof {
            assert(all_parts[0] =~= parts@[0]@);
            assert(all_parts[1] =~= parts@[1]@);
            assert(all_parts[2] =~= parts@[2]@);
            assert(all_parts[3] =~= parts@[3]@);
        }
        if !chars_eq_str(&parts[0], "rgb") {
            return Err(ConfigError::BadRgb);
        }
        let rv = parse_u8_token(&parts[1]);
        let gv = parse_u8_token(&parts[2]);
        let bv = parse_u8_token(&parts[3]);
        match (rv, gv, bv) {
            (Some(rb), Some(gb), Some(bb)) => Ok(Color::Rgb(rb, gb, bb)),
            _ => Err(ConfigError::BadRgb),
        }
    } else {
        Err(ConfigError::UnknownColor)
    }
}

/// Read a whole `:`-separated color specification into the three-slot
/// assignment.
pub fn parse_colors(s: &str) -> (r: Result<ColorAssignment, ConfigError>)
    ensures
        r == spec_parse_colors(s@),
{
    let cs = chars_of(s);
    let toks = split_chars(&cs, ':');
    proof {
        assert(toks@.len() == toks.deep_view().len());
    }
    if toks.len() != 3 {
        return Err(ConfigError::WrongColorCount);
    }
    proof {
        assert(toks.deep_view()[0] =~= toks@[0]@);
        assert(toks.deep_view()[1] =~= toks@[1]@);
        assert(toks.deep_view()[2] =~= toks@[2]@);
    }
    let left = match parse_color(&toks[0]) {
        Ok(c) => c,
        Err(e) => {
            return Err(e);
        },
    };
    let both = match parse_color(&toks[1]) {
        Ok(c) => c,
        Err(e) => {
            return Err(e);
        },
    };
    let right = match parse_color(&toks[2]) {
        Ok(c) => c,
        Err(e) => {
            return Err(e);
        },
    };
    Ok(ColorAssignment { left, both, right })
}

/// Read the output-kind token.
pub fn parse_output_kind(s: &str) -> (r: Result<OutputKind, ConfigError>)
    ensures
        (match spec_parse_kind(s@) {
            Some(k) => r == Ok::<OutputKind, ConfigError>(k),
            None => r == Err::<OutputKind, ConfigError>(ConfigError::UnknownOutputKind),
        }),
{
    if str_eq(s, "terminal") {
        Ok(OutputKind::Terminal)
    } else if str_eq(s, "txt") {
        Ok(OutputKind::Txt)
    } else if str_eq(s, "html") {
        Ok(OutputKind::Html)
    } else {
        Err(ConfigError::UnknownOutputKind)
    }
}

/// Resolve the raw option values into an output kind and a render
/// configuration, with the defaults of the command line: kind
/// `terminal`, colors red/white/green, width 5, batch unbounded
/// (`usize::MAX`, also for an explicit 0), and unchanged rows shown
/// unless the diff-only switch is set. A bad kind token is reported
/// before a bad color token.
pub fn resolve_config(
    res: Option<&str>,
    color: Option<&str>,
    width: Option<usize>,
    batch: Option<usize>,
    diff_only: bool,
) -> (r: Result<(OutputKind, RenderConfig), ConfigError>)
    ensures
        (match res {
            Some(s) => spec_parse_kind(s@) is None ==> r == Err::<
                (OutputKind, RenderConfig),
                ConfigError,
            >(ConfigError::UnknownOutputKind),
            None => true,
        }),
        (match (res, color) {
            (Some(s), Some(c)) => (spec_parse_kind(s@) is Some && spec_parse_colors(c@) is Err)
                ==> r == Err::<(OutputKind, RenderConfig), ConfigError>(
                spec_parse_colors(c@)->Err_0,
            ),
            (None, Some(c)) => spec_parse_colors(c@) is Err ==> r == Err::<
                (OutputKind, RenderConfig),
                ConfigError,
            >(spec_parse_colors(c@)->Err_0),
            _ => true,
        }),
        r matches Ok(pair) ==> {
            &&& pair.0 == (match res {
                Some(s) => spec_parse_kind(s@)->0,
                None => OutputKind::Terminal,
            })
            &&& pair.1.colors == (match color {
                Some(c) => spec_parse_colors(c@)->Ok_0,
                None => (ColorAssignment {
                    left: Color::Red,
                    both: Color::White,
                    right: Color::Green,
                }),
            })
            &&& pair.1.width == (match width {
                Some(w) => w,
                None => 5usize,
            })
            &&& pair.1.batch == (match batch {
                Some(t) => if t == 0 {
                    usize::MAX
                } else {
                    t
                },
                None => usize::MAX,
            })
            &&& pair.1.batch >= 1
            &&& pair.1.show_unchanged == !diff_only
        },
        r is Ok <==> ((match res {
            Some(s) => spec_parse_kind(s@) is Some,
            None => true,
        }) && (match color {
            Some(c) => spec_parse_colors(c@) is Ok,
            None => true,
        })),
{
    let kind = match res {
        Some(s) => match parse_output_kind(s) {
            Ok(k) => k,
            Err(e) => {
                return Err(e);
            },
        },
        None => OutputKind::Terminal,
    };
    let colors = match color {
        Some(c) => match parse_colors(c) {
            Ok(a) => a,
            Err(e) => {
                return Err(e);
            },
        },
        None => default_colors(),
    };
    let width_val = match width {
        Some(w) => w,
        None => 5,
    };
    let batch_val = match batch {
        Some(t) => if t == 0 {
            usize::MAX
        } else {
            t
        },
        None => usize::MAX,
    };
    Ok(
        (
            kind,
            RenderConfig {
                width: width_val,
                colors,
                show_unchanged: !diff_only,
                batch: batch_val,
            },
        ),
    )
}

} // verus!
