use vstd::prelude::*;
use vstd::string::StrSliceExecFns;
use vstd::string::StringExecFns;

use crate::error::CliError;
use crate::error::ParseIntErrorKind;
use crate::matcher::Matcher;

verus! {

/// Colors applied to parts of the output: matched text is red, line numbers
/// are green, group separators are blue.
pub enum Colors {
    Red,
    Green,
    Blue,
}

/// The ANSI escape that switches to the given color.
pub open spec fn color_start(color: Colors) -> Seq<char> {
    match color {
        Colors::Red => seq!['\u{1b}', '[', '3', '1', 'm'],
        Colors::Green => seq!['\u{1b}', '[', '3', '2', 'm'],
        Colors::Blue => seq!['\u{1b}', '[', '3', '4', 'm'],
    }
}

/// The ANSI escape that resets the color.
pub open spec fn color_reset() -> Seq<char> {
    seq!['\u{1b}', '[', '0', 'm']
}

/// `text` wrapped in the start and reset escapes of `color`.
pub open spec fn color_wrapped(color: Colors, text: Seq<char>) -> Seq<char> {
    color_start(color) + text + color_reset()
}

impl Colors {
    /// Wraps `pattern` in the ANSI escapes of the chosen color.
    pub fn colorize_pattern(color: Self, pattern: &str) -> (r: String)
        ensures
            r@ == color_wrapped(color, pattern@),
    {
        proof {
            reveal_strlit("\u{1b}[31m");
            reveal_strlit("\u{1b}[32m");
            reveal_strlit("\u{1b}[34m");
            reveal_strlit("\u{1b}[0m");
        }
        let start: &str = match color {
            Colors::Red => "\u{1b}[31m",
            Colors::Green => "\u{1b}[32m",
            Colors::Blue => "\u{1b}[34m",
        };
        assert(start@ =~= color_start(color));
        let mut s = String::from_str(start);
        s.append(pattern);
        s.append("\u{1b}[0m");
        assert("\u{1b}[0m"@ =~= color_reset());
        assert(s@ =~= color_wrapped(color, pattern@));
        s
    }
}

/// Wraps `pattern` in the red highlight used for matched text.
pub fn colorize_pattern(pattern: &str) -> (r: String)
    ensures
        r@ == color_wrapped(Colors::Red, pattern@),
{
    Colors::colorize_pattern(Colors::Red, pattern)
}

/// The decimal digit character for `d` (meaningful for 0 through 9).
pub open spec fn dec_digit(d: int) -> char {
    if d == 0 {
        '0'
    } else if d == 1 {
        '1'
    } else if d == 2 {
        '2'
    } else if d == 3 {
        '3'
    } else if d == 4 {
        '4'
    } else if d == 5 {
        '5'
    } else if d == 6 {
        '6'
    } else if d == 7 {
        '7'
    } else if d == 8 {
        '8'
    } else {
        '9'
    }
}

/// The decimal representation of `n`, most significant digit first, without
/// sign, padding or leading zeros (a single `'0'` for zero).
pub open spec fn dec_str(n: nat) -> Seq<char>
    decreases n,
{
    if n < 10 {
        seq![dec_digit(n as int)]
    } else {
        dec_str((n / 10) as nat).push(dec_digit((n % 10) as int))
    }
}

/// The one-character string for the decimal digit `d`.
fn digit_str(d: usize) -> (r: &'static str)
    requires
        d < 10,
    ensures
        r@ == seq![dec_digit(d as int)],
{
    proof {
        reveal_strlit("0");
        reveal_strlit("1");
        reveal_strlit("2");
        reveal_strlit("3");
        reveal_strlit("4");
        reveal_strlit("5");
        reveal_strlit("6");
        reveal_strlit("7");
        reveal_strlit("8");
        reveal_strlit("9");
    }
    let r: &'static str = match d {
        0 => "0",
        1 => "1",
        2 => "2",
        3 => "3",
        4 => "4",
        5 => "5",
        6 => "6",
        7 => "7",
        8 => "8",
        _ => "9",
    };
    assert(r@ =~= seq![dec_digit(d as int)]);
    r
}

/// Renders `n` in decimal, most significant digit first.
pub(crate) fn usize_to_string(n: usize) -> (r: String)
    ensures
        r@ == dec_str(n as nat),
    decreases n,
{
    if n < 10 {
        let mut s = String::new();
        s.append(digit_str(n));
        proof {
            assert(s@ =~= dec_str(n as nat));
        }
        s
    } else {
        let mut s = usize_to_string(n / 10);
        s.append(digit_str(n % 10));
        proof {
            assert(s@ =~= dec_str(n as nat));
        }
        s
    }
}

/// Is `c` a decimal digit?
pub open spec fn is_dec_digit(c: char) -> bool {
    48 <= c as int <= 57
}

/// The numeric value of the digit character `c`.
pub open spec fn digit_val(c: char) -> int {
    c as int - 48
}

/// Parsing the characters `s` left to right onto the accumulator `acc`, as
/// the standard library parses unsigned integers: the first non-digit stops
/// with `InvalidDigit`, and a value that leaves `usize` stops with
/// `PosOverflow` at the digit where it happens.
pub open spec fn parse_digits(s: Seq<char>, acc: nat) -> Result<nat, ParseIntErrorKind>
    decreases s.len(),
{
    if s.len() == 0 {
        Ok(acc)
    } else if !is_dec_digit(s[0]) {
        Err(ParseIntErrorKind::InvalidDigit)
    } else if acc * 10 + digit_val(s[0]) > usize::MAX {
        Err(ParseIntErrorKind::PosOverflow)
    } else {
        parse_digits(s.drop_first(), (acc * 10 + digit_val(s[0])) as nat)
    }
}

/// What parsing `s` as a non-negative integer yields: an optional leading
/// `'+'`, then at least one decimal digit, and a value that fits in `usize`.
pub open spec fn parse_usize(s: Seq<char>) -> Result<nat, ParseIntErrorKind> {
    if s.len() == 0 {
        Err(ParseIntErrorKind::Empty)
    } else {
        let digits = if s[0] == '+' {
            s.drop_first()
        } else {
            s
        };
        if digits.len() == 0 {
            Err(ParseIntErrorKind::InvalidDigit)
        } else {
            parse_digits(digits, 0)
        }
    }
}

/// Tries to parse the context number, exactly as the standard library parses
/// a `usize`.
pub fn parse_context_number(ctx: &str) -> (r: Result<usize, CliError>)
    ensures
        r matches Ok(n) ==> parse_usize(ctx@) == Ok::<nat, ParseIntErrorKind>(n as nat),
        r matches Err(e) ==> e matches CliError::Parse(k) && parse_usize(ctx@) == Err::<
            nat,
            ParseIntErrorKind,
        >(k),
{
    let n = ctx.unicode_len();
    if n == 0 {
        return Err(CliError::Parse(ParseIntErrorKind::Empty));
    }
    let first = ctx.get_char(0);
    let start: usize = if first == '+' {
        1
    } else {
        0
    };
    if n == start {
        return Err(CliError::Parse(ParseIntErrorKind::InvalidDigit));
    }
    let ghost digits: Seq<char> = ctx@.skip(start as int);
    proof {
        assert(digits =~= if ctx@[0] == '+' {
            ctx@.drop_first()
        } else {
            ctx@
        });
    }
    let mut acc: usize = 0;
    let mut i: usize = start;
    while i < n
        invariant
            start <= i <= n,
            n == ctx@.len(),
            digits == ctx@.skip(start as int),
            parse_usize(ctx@) == parse_digits(ctx@.skip(i as int), acc as nat),
        decreases n - i,
    {
        let c = ctx.get_char(i);
        let u = c as u32;
        assert(u == c as int);
        if u < 48 || u > 57 {
            assert(ctx@.skip(i as int)[0] == c);
            return Err(CliError::Parse(ParseIntErrorKind::InvalidDigit));
        }
        let d = (u - 48) as usize;
        let next = match acc.checked_mul(10) {
            Some(v) => v.checked_add(d),
            None => None,
        };
        assert(ctx@.skip(i as int)[0] == c);
        match next {
            None => {
                return Err(CliError::Parse(ParseIntErrorKind::PosOverflow));
            },
            Some(v) => {
                assert(ctx@.skip(i as int).drop_first() =~= ctx@.skip(i + 1));
                acc = v;
            },
        }
        i = i + 1;
    }
    assert(ctx@.skip(i as int).len() == 0);
    Ok(acc)
}

/// Compiles the regular expression given by `p`: succeeds exactly when the
/// pattern is one the matcher accepts.
pub fn compile_regex(p: &str, is_case_insensitive: bool) -> (r: Result<Matcher, CliError>)
    ensures
        (r is Ok) == crate::matcher::pattern_compiles(p@, is_case_insensitive),
        r matches Ok(m) ==> m.pattern() == p@ && m.is_ci() == is_case_insensitive,
        r matches Err(e) ==> e is Regex,
{
    match Matcher::build(p, is_case_insensitive) {
        Ok(m) => Ok(m),
        Err(e) => Err(CliError::Regex(e)),
    }
}

} // verus!
