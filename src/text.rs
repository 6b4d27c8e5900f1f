//! Terminal text styling: color names and `rgb(r,g,b)` literals, bold, italic and
//! underline, rendered through ANSI escape sequences.

use colored::Colorize;
use vstd::prelude::*;
use vstd::string::*;

verus! {

/// A foreground or background color.
#[derive(Clone, Copy, Debug, PartialEq, Eq, Structural)]
pub enum Color {
    Black,
    Red,
    Green,
    Yellow,
    Blue,
    Magenta,
    Cyan,
    White,
    BrightBlack,
    BrightRed,
    BrightGreen,
    BrightYellow,
    BrightBlue,
    BrightMagenta,
    BrightCyan,
    BrightWhite,
    TrueColor { r: u8, g: u8, b: u8 },
}

/// The color a name stands for, if it is one of the fixed names.
pub open spec fn named_color(s: Seq<char>) -> Option<Color> {
    if s == "black"@ {
        Some(Color::Black)
    } else if s == "red"@ {
        Some(Color::Red)
    } else if s == "green"@ {
        Some(Color::Green)
    } else if s == "yellow"@ {
        Some(Color::Yellow)
    } else if s == "blue"@ {
        Some(Color::Blue)
    } else if s == "magenta"@ || s == "purple"@ {
        Some(Color::Magenta)
    } else if s == "cyan"@ {
        Some(Color::Cyan)
    } else if s == "white"@ {
        Some(Color::White)
    } else if s == "bright_black"@ {
        Some(Color::BrightBlack)
    } else if s == "bright_red"@ {
        Some(Color::BrightRed)
    } else if s == "bright_green"@ {
        Some(Color::BrightGreen)
    } else if s == "bright_yellow"@ {
        Some(Color::BrightYellow)
    } else if s == "bright_blue"@ {
        Some(Color::BrightBlue)
    } else if s == "bright_magenta"@ {
        Some(Color::BrightMagenta)
    } else if s == "bright_cyan"@ {
        Some(Color::BrightCyan)
    } else if s == "bright_white"@ {
        Some(Color::BrightWhite)
    } else {
        None
    }
}

/// The color a text denotes: a fixed name, else an `rgb(...)` literal, else white.
pub open spec fn color_of(s: Seq<char>) -> Color {
    match named_color(s) {
        Some(c) => c,
        None => rgb_color_of(s),
    }
}

/// The pieces of `s` between commas; a text without commas is one piece.
pub open spec fn comma_pieces(s: Seq<char>) -> Seq<Seq<char>>
    decreases s.len(),
{
    if s.len() == 0 {
        seq![Seq::empty()]
    } else {
        let p = comma_pieces(s.drop_last());
        if s.last() == ',' {
            p.push(Seq::empty())
        } else {
            p.update(p.len() - 1, p.last().push(s.last()))
        }
    }
}

/// Unicode White_Space, the set that `char::is_whitespace` tests.
pub open spec fn is_white_space(c: char) -> bool {
    let u = c as u32;
    (9 <= u <= 13) || u == 32 || u == 0x85 || u == 0xa0 || u == 0x1680 || (0x2000 <= u <= 0x200a)
        || u == 0x2028 || u == 0x2029 || u == 0x202f || u == 0x205f || u == 0x3000
}

pub open spec fn trim_start(s: Seq<char>) -> Seq<char>
    decreases s.len(),
{
    if s.len() > 0 && is_white_space(s[0]) {
        trim_start(s.drop_first())
    } else {
        s
    }
}

pub open spec fn trim_end(s: Seq<char>) -> Seq<char>
    decreases s.len(),
{
    if s.len() > 0 && is_white_space(s.last()) {
        trim_end(s.drop_last())
    } else {
        s
    }
}

/// `s` without leading and trailing white space.
pub open spec fn trimmed(s: Seq<char>) -> Seq<char> {
    trim_end(trim_start(s))
}

pub open spec fn is_digit(c: char) -> bool {
    48 <= (c as u32) <= 57
}

pub open spec fn all_digits(d: Seq<char>) -> bool {
    forall|i: int| 0 <= i < d.len() ==> is_digit(#[trigger] d[i])
}

/// The decimal value of a run of digits.
pub open spec fn digits_value(d: Seq<char>) -> int
    decreases d.len(),
{
    if d.len() == 0 {
        0
    } else {
        digits_value(d.drop_last()) * 10 + ((d.last() as u32) - 48)
    }
}

/// A `u8` written as an optional `+` and at least one decimal digit.
pub open spec fn parse_u8(t: Seq<char>) -> Option<u8> {
    let d = if t.len() > 0 && t[0] == '+' {
        t.drop_first()
    } else {
        t
    };
    if d.len() > 0 && all_digits(d) && digits_value(d) <= 255 {
        Some(digits_value(d) as u8)
    } else {
        None
    }
}

/// A channel of an `rgb(...)` literal: its trimmed text read as a `u8`, else 255.
pub open spec fn channel_value(p: Seq<char>) -> u8 {
    match parse_u8(trimmed(p)) {
        Some(v) => v,
        None => 255,
    }
}

/// The color of an `rgb(r,g,b)` literal; any other text is white.
pub open spec fn rgb_color_of(s: Seq<char>) -> Color {
    if s.len() >= 5 && s.take(4) == seq!['r', 'g', 'b', '('] && s.last() == ')' {
        let parts = comma_pieces(s.subrange(4, s.len() - 1));
        if parts.len() == 3 {
            Color::TrueColor {
                r: channel_value(parts[0]),
                g: channel_value(parts[1]),
                b: channel_value(parts[2]),
            }
        } else {
            Color::White
        }
    } else {
        Color::White
    }
}

/// The characters of `s`.
fn chars_of(s: &str) -> (v: Vec<char>)
    ensures
        v@ == s@,
{
    let n = s.unicode_len();
    let mut v: Vec<char> = Vec::new();
    let mut i: usize = 0;
    while i < n
        invariant
            n == s@.len(),
            i <= n,
            v@ == s@.take(i as int),
        decreases n - i,
    {
        v.push(s.get_char(i));
        i = i + 1;
        assert(v@ =~= s@.take(i as int));
    }
    assert(v@ =~= s@);
    v
}

/// Whether `s` and `lit` hold the same characters.
fn same_text(s: &Vec<char>, lit: &str) -> (r: bool)
    ensures
        r == (s@ == lit@),
{
    let n = lit.unicode_len();
    if s.len() != n {
        return false;
    }
    let mut i: usize = 0;
    while i < n
        invariant
            n == lit@.len(),
            n == s@.len(),
            i <= n,
            forall|j: int| 0 <= j < i ==> s@[j] == lit@[j],
        decreases n - i,
    {
        if s[i] != lit.get_char(i) {
            return false;
        }
        i = i + 1;
    }
    assert(s@ =~= lit@);
    true
}

fn is_white_space_char(c: char) -> (r: bool)
    ensures
        r == is_white_space(c),
{
    let u = c as u32;
    (9 <= u && u <= 13) || u == 32 || u == 0x85 || u == 0xa0 || u == 0x1680 || (0x2000 <= u && u
        <= 0x200a) || u == 0x2028 || u == 0x2029 || u == 0x202f || u == 0x205f || u == 0x3000
}

proof fn lemma_value_nonneg(d: Seq<char>)
    requires
        all_digits(d),
    ensures
        digits_value(d) >= 0,
    decreases d.len(),
{
    if d.len() > 0 {
        let dl = d.drop_last();
        assert forall|i: int| 0 <= i < dl.len() implies is_digit(#[trigger] dl[i]) by {
            assert(dl[i] == d[i]);
        }
        lemma_value_nonneg(dl);
        assert(is_digit(d.last()));
    }
}

proof fn lemma_prefix_value_le(d: Seq<char>, k: int)
    requires
        0 <= k <= d.len(),
        all_digits(d),
    ensures
        digits_value(d.take(k)) <= digits_value(d),
    decreases d.len(),
{
    if k < d.len() {
        let dl = d.drop_last();
        assert(all_digits(dl)) by {
            assert forall|i: int| 0 <= i < dl.len() implies is_digit(#[trigger] dl[i]) by {
                assert(dl[i] == d[i]);
            }
        }
        lemma_prefix_value_le(dl, k);
        lemma_value_nonneg(dl);
        assert(dl.take(k) =~= d.take(k));
        assert(is_digit(d.last()));
    }
    assert(d.take(d.len() as int) =~= d);
}

/// Reads `s[lo..hi]` as a `u8` the way `str::parse::<u8>` does.
fn parse_u8_in(s: &Vec<char>, lo: usize, hi: usize) -> (r: Option<u8>)
    requires
        lo <= hi <= s.len(),
    ensures
        r == parse_u8(s@.subrange(lo as int, hi as int)),
{
    let ghost t = s@.subrange(lo as int, hi as int);
    let mut i: usize = lo;
    if i < hi && s[i] == '+' {
        i = i + 1;
    }
    let ghost d = s@.subrange(i as int, hi as int);
    assert(d =~= (if t.len() > 0 && t[0] == '+' { t.drop_first() } else { t }));
    assert(parse_u8(t) == (if d.len() > 0 && all_digits(d) && digits_value(d) <= 255 {
        Some(digits_value(d) as u8)
    } else {
        None
    }));
    if i == hi {
        return None;
    }
    let start = i;
    let mut acc: u32 = 0;
    while i < hi
        invariant
            start <= i <= hi <= s.len(),
            d == s@.subrange(start as int, hi as int),
            t == s@.subrange(lo as int, hi as int),
            parse_u8(t) == (if d.len() > 0 && all_digits(d) && digits_value(d) <= 255 {
                Some(digits_value(d) as u8)
            } else {
                None
            }),
            acc <= 255,
            acc == digits_value(s@.subrange(start as int, i as int)),
            all_digits(s@.subrange(start as int, i as int)),
        decreases hi - i,
    {
        let c = s[i];
        let u = #[verifier::truncate] (c as u32);
        if u < 48 || u > 57 {
            assert(d[i - start] == c);
            assert(!is_digit(d[i - start]));
            assert(!all_digits(d));
            assert(parse_u8(t) is None);
            return None;
        }
        let ghost p = s@.subrange(start as int, i as int + 1);
        assert(p.drop_last() =~= s@.subrange(start as int, i as int));
        assert(p.last() == c);
        acc = acc * 10 + (u - 48);
        assert(acc == digits_value(p));
        i = i + 1;
        assert(all_digits(p)) by {
            assert forall|j: int| 0 <= j < p.len() implies is_digit(#[trigger] p[j]) by {
                if j < p.len() - 1 {
                    assert(p[j] == p.drop_last()[j]);
                }
            }
        }
        if acc > 255 {
            proof {
                if all_digits(d) {
                    assert(d.take(p.len() as int) =~= p);
                    lemma_prefix_value_le(d, p.len() as int);
                }
                assert(!(all_digits(d) && digits_value(d) <= 255));
            }
            return None;
        }
    }
    assert(s@.subrange(start as int, i as int) =~= d);
    Some(acc as u8)
}


/// The bounds of `s[lo..hi]` with leading and trailing white space left out.
fn trim_bounds(s: &Vec<char>, lo: usize, hi: usize) -> (r: (usize, usize))
    requires
        lo <= hi <= s.len(),
    ensures
        lo <= r.0 <= r.1 <= hi,
        s@.subrange(r.0 as int, r.1 as int) == trimmed(s@.subrange(lo as int, hi as int)),
{
    let ghost whole = s@.subrange(lo as int, hi as int);
    let mut a: usize = lo;
    while a < hi && is_white_space_char(s[a])
        invariant
            lo <= a <= hi <= s.len(),
            trim_start(whole) == trim_start(s@.subrange(a as int, hi as int)),
        decreases hi - a,
    {
        assert(s@.subrange(a as int, hi as int).drop_first() =~= s@.subrange(a as int + 1, hi as int));
        a = a + 1;
    }
    let ghost front = s@.subrange(a as int, hi as int);
    assert(trim_start(whole) == front);
    let mut b: usize = hi;
    while b > a && is_white_space_char(s[b - 1])
        invariant
            lo <= a <= b <= hi <= s.len(),
            trim_end(front) == trim_end(s@.subrange(a as int, b as int)),
            front == s@.subrange(a as int, hi as int),
        decreases b - a,
    {
        assert(s@.subrange(a as int, b as int).drop_last() =~= s@.subrange(a as int, b as int - 1));
        b = b - 1;
    }
    (a, b)
}

/// The bounds of each comma-separated piece of `s[lo..hi]`, in order.
fn comma_ranges(s: &Vec<char>, lo: usize, hi: usize) -> (r: Vec<(usize, usize)>)
    requires
        lo <= hi <= s.len(),
    ensures
        r@.len() == comma_pieces(s@.subrange(lo as int, hi as int)).len(),
        forall|k: int|
            0 <= k < r@.len() ==> lo <= (#[trigger] r@[k]).0 <= r@[k].1 <= hi && s@.subrange(
                r@[k].0 as int,
                r@[k].1 as int,
            ) == comma_pieces(s@.subrange(lo as int, hi as int))[k],
{
    let mut r: Vec<(usize, usize)> = Vec::new();
    let mut start: usize = lo;
    let mut i: usize = lo;
    assert(s@.subrange(lo as int, lo as int) =~= Seq::<char>::empty());
    assert(s@.subrange(start as int, i as int) =~= Seq::<char>::empty());
    while i < hi
        invariant
            lo <= start <= i <= hi <= s.len(),
            comma_pieces(s@.subrange(lo as int, i as int)).len() == r@.len() + 1,
            forall|k: int|
                0 <= k < r@.len() ==> lo <= (#[trigger] r@[k]).0 <= r@[k].1 <= hi && s@.subrange(
                    r@[k].0 as int,
                    r@[k].1 as int,
                ) == comma_pieces(s@.subrange(lo as int, i as int))[k],
            comma_pieces(s@.subrange(lo as int, i as int))[r@.len() as int] == s@.subrange(
                start as int,
                i as int,
            ),
        decreases hi - i,
    {
        let ghost prev = comma_pieces(s@.subrange(lo as int, i as int));
        assert(s@.subrange(lo as int, i as int + 1).drop_last() =~= s@.subrange(lo as int, i as int));
        assert(s@.subrange(lo as int, i as int + 1).last() == s@[i as int]);
        if s[i] == ',' {
            r.push((start, i));
            start = i + 1;
            assert(s@.subrange(start as int, i as int + 1) =~= Seq::<char>::empty());
        } else {
            assert(s@.subrange(start as int, i as int).push(s@[i as int]) =~= s@.subrange(
                start as int,
                i as int + 1,
            ));
        }
        i = i + 1;
    }
    r.push((start, hi));
    r
}

/// One channel of an `rgb(...)` literal held in `s[lo..hi]`.
fn channel_in(s: &Vec<char>, lo: usize, hi: usize) -> (v: u8)
    requires
        lo <= hi <= s.len(),
    ensures
        v == channel_value(s@.subrange(lo as int, hi as int)),
{
    let (a, b) = trim_bounds(s, lo, hi);
    match parse_u8_in(s, a, b) {
        Some(v) => v,
        None => 255,
    }
}

fn rgb_of_chars(s: &Vec<char>) -> (c: Color)
    ensures
        c == rgb_color_of(s@),
{
    let n = s.len();
    if n >= 5 && s[0] == 'r' && s[1] == 'g' && s[2] == 'b' && s[3] == '(' && s[n - 1] == ')' {
        assert(s@.take(4) =~= seq!['r', 'g', 'b', '(']);
        let parts = comma_ranges(s, 4, n - 1);
        if parts.len() == 3 {
            let (r0, r1) = parts[0];
            let (g0, g1) = parts[1];
            let (b0, b1) = parts[2];
            Color::TrueColor {
                r: channel_in(s, r0, r1),
                g: channel_in(s, g0, g1),
                b: channel_in(s, b0, b1),
            }
        } else {
            Color::White
        }
    } else {
        proof {
            if s@.len() >= 5 && s@.take(4) == seq!['r', 'g', 'b', '('] {
                assert(s@.take(4)[0] == 'r' && s@.take(4)[1] == 'g');
                assert(s@.take(4)[2] == 'b' && s@.take(4)[3] == '(');
            }
        }
        Color::White
    }
}

/// Reads an `rgb(r,g,b)` literal. A channel that is not a decimal `u8` once
/// trimmed becomes 255; text that is not such a literal, or has other than three
/// channels, gives white.
pub fn parse_rgb(color: &str) -> (c: Color)
    ensures
        c == rgb_color_of(color@),
{
    rgb_of_chars(&chars_of(color))
}

/// Reads a color: one of the fixed names (`purple` is magenta), else an
/// `rgb(r,g,b)` literal, else white.
pub fn parse_color(color: &str) -> (c: Color)
    ensures
        c == color_of(color@),
{
    let s = chars_of(color);
    if same_text(&s, "black") {
        Color::Black
    } else if same_text(&s, "red") {
        Color::Red
    } else if same_text(&s, "green") {
        Color::Green
    } else if same_text(&s, "yellow") {
        Color::Yellow
    } else if same_text(&s, "blue") {
        Color::Blue
    } else if same_text(&s, "magenta") || same_text(&s, "purple") {
        Color::Magenta
    } else if same_text(&s, "cyan") {
        Color::Cyan
    } else if same_text(&s, "white") {
        Color::White
    } else if same_text(&s, "bright_black") {
        Color::BrightBlack
    } else if same_text(&s, "bright_red") {
        Color::BrightRed
    } else if same_text(&s, "bright_green") {
        Color::BrightGreen
    } else if same_text(&s, "bright_yellow") {
        Color::BrightYellow
    } else if same_text(&s, "bright_blue") {
        Color::BrightBlue
    } else if same_text(&s, "bright_magenta") {
        Color::BrightMagenta
    } else if same_text(&s, "bright_cyan") {
        Color::BrightCyan
    } else if same_text(&s, "bright_white") {
        Color::BrightWhite
    } else {
        rgb_of_chars(&s)
    }
}


/// One styling step, as colored applies it to a whole text.
#[derive(Clone, Copy, Debug, PartialEq, Eq, Structural)]
pub enum StyleStep {
    Bold,
    Italic,
    Underline,
    Foreground(Color),
    Background(Color),
}

/// The character of the decimal digit `x`.
pub open spec fn digit_char(x: int) -> char {
    ((48 + x) as u32) as char
}

/// The decimal digits of `v`, without leading zeros.
pub open spec fn decimal(v: u8) -> Seq<char> {
    let n = v as int;
    if n < 10 {
        seq![digit_char(n)]
    } else if n < 100 {
        seq![digit_char(n / 10), digit_char(n % 10)]
    } else {
        seq![digit_char(n / 100), digit_char((n / 10) % 10), digit_char(n % 10)]
    }
}

/// The SGR parameters colored writes for a foreground color: 30 to 37 and 90 to
/// 97 for the fixed colors, `38;2;r;g;b` for a true color.
pub open spec fn fg_code(c: Color) -> Seq<char> {
    match c {
        Color::Black => seq!['3', '0'],
        Color::Red => seq!['3', '1'],
        Color::Green => seq!['3', '2'],
        Color::Yellow => seq!['3', '3'],
        Color::Blue => seq!['3', '4'],
        Color::Magenta => seq!['3', '5'],
        Color::Cyan => seq!['3', '6'],
        Color::White => seq!['3', '7'],
        Color::BrightBlack => seq!['9', '0'],
        Color::BrightRed => seq!['9', '1'],
        Color::BrightGreen => seq!['9', '2'],
        Color::BrightYellow => seq!['9', '3'],
        Color::BrightBlue => seq!['9', '4'],
        Color::BrightMagenta => seq!['9', '5'],
        Color::BrightCyan => seq!['9', '6'],
        Color::BrightWhite => seq!['9', '7'],
        Color::TrueColor { r, g, b } => seq!['3', '8', ';', '2', ';'] + decimal(r) + seq![';']
            + decimal(g) + seq![';'] + decimal(b),
    }
}

/// The SGR parameters colored writes for a background color: 40 to 47 and 100
/// to 107 for the fixed colors, `48;2;r;g;b` for a true color.
pub open spec fn bg_code(c: Color) -> Seq<char> {
    match c {
        Color::Black => seq!['4', '0'],
        Color::Red => seq!['4', '1'],
        Color::Green => seq!['4', '2'],
        Color::Yellow => seq!['4', '3'],
        Color::Blue => seq!['4', '4'],
        Color::Magenta => seq!['4', '5'],
        Color::Cyan => seq!['4', '6'],
        Color::White => seq!['4', '7'],
        Color::BrightBlack => seq!['1', '0', '0'],
        Color::BrightRed => seq!['1', '0', '1'],
        Color::BrightGreen => seq!['1', '0', '2'],
        Color::BrightYellow => seq!['1', '0', '3'],
        Color::BrightBlue => seq!['1', '0', '4'],
        Color::BrightMagenta => seq!['1', '0', '5'],
        Color::BrightCyan => seq!['1', '0', '6'],
        Color::BrightWhite => seq!['1', '0', '7'],
        Color::TrueColor { r, g, b } => seq!['4', '8', ';', '2', ';'] + decimal(r) + seq![';']
            + decimal(g) + seq![';'] + decimal(b),
    }
}

/// `code` is a parameter list colored may write for `step`. A true color is
/// written as such where the terminal announces support for it, else as the
/// code of some fixed color (the nearest one).
pub open spec fn step_code(step: StyleStep, code: Seq<char>) -> bool {
    match step {
        StyleStep::Bold => code == seq!['1'],
        StyleStep::Italic => code == seq!['3'],
        StyleStep::Underline => code == seq!['4'],
        StyleStep::Foreground(c) => code == fg_code(c) || (c is TrueColor && exists|n: Color|
            !(n is TrueColor) && code == #[trigger] fg_code(n)),
        StyleStep::Background(c) => code == bg_code(c) || (c is TrueColor && exists|n: Color|
            !(n is TrueColor) && code == #[trigger] bg_code(n)),
    }
}

/// The escape sequence that selects the parameters `code`.
pub open spec fn sgr(code: Seq<char>) -> Seq<char> {
    seq!['\u{1b}', '['] + code + seq!['m']
}

/// The escape sequence that resets all styling.
pub open spec fn sgr_reset() -> Seq<char> {
    seq!['\u{1b}', '[', '0', 'm']
}

/// `s` with `style` written again after each reset inside it, so that the outer
/// style still holds after an inner styled part ends.
pub open spec fn escape_resets(s: Seq<char>, style: Seq<char>) -> Seq<char>
    decreases s.len(),
{
    if s.len() == 0 {
        s
    } else if s.len() >= 4 && s.take(4) == sgr_reset() {
        sgr_reset() + style + escape_resets(s.skip(4), style)
    } else {
        seq![s[0]] + escape_resets(s.drop_first(), style)
    }
}

/// `s` styled with the parameters `code`, as colored renders it.
pub open spec fn wrapped(s: Seq<char>, code: Seq<char>) -> Seq<char> {
    sgr(code) + escape_resets(s, sgr(code)) + sgr_reset()
}

/// `r` is what one step can make of `s`: `s` itself where coloring is off, else
/// `s` wrapped in a code of that step.
pub open spec fn step_outcome(r: Seq<char>, s: Seq<char>, step: StyleStep) -> bool {
    r == s || exists|code: Seq<char>| step_code(step, code) && r == #[trigger] wrapped(s, code)
}

/// `mids` lists the texts the steps go through: `s` first, then what each step
/// made of the one before.
pub open spec fn step_chain(mids: Seq<Seq<char>>, s: Seq<char>, steps: Seq<StyleStep>) -> bool {
    &&& mids.len() == steps.len() + 1
    &&& mids[0] == s
    &&& forall|i: int|
        0 <= i < steps.len() ==> step_outcome(mids[i + 1], mids[i], #[trigger] steps[i])
}

/// `r` is what the steps, applied to `s` one after another in order, can make.
pub open spec fn steps_outcome(r: Seq<char>, s: Seq<char>, steps: Seq<StyleStep>) -> bool {
    exists|mids: Seq<Seq<char>>| #[trigger] step_chain(mids, s, steps) && mids.last() == r
}

proof fn lemma_one_more_step(
    r: Seq<char>,
    mids: Seq<Seq<char>>,
    s: Seq<char>,
    steps: Seq<StyleStep>,
    step: StyleStep,
)
    requires
        step_chain(mids, s, steps),
        step_outcome(r, mids.last(), step),
    ensures
        step_chain(mids.push(r), s, steps.push(step)),
{
    let m2 = mids.push(r);
    let s2 = steps.push(step);
    assert forall|i: int| 0 <= i < s2.len() implies step_outcome(m2[i + 1], m2[i], #[trigger] s2[i]) by {
        if i < steps.len() {
            assert(s2[i] == steps[i]);
            assert(step_outcome(mids[i + 1], mids[i], steps[i]));
        }
    }
}

/// The color that colored's `Color: From<&str>` reads from a name, for the names
/// this library hands it.
pub open spec fn colored_color_of_name(name: Seq<char>) -> Option<Color> {
    if name == "black"@ {
        Some(Color::Black)
    } else if name == "red"@ {
        Some(Color::Red)
    } else if name == "green"@ {
        Some(Color::Green)
    } else if name == "yellow"@ {
        Some(Color::Yellow)
    } else if name == "blue"@ {
        Some(Color::Blue)
    } else if name == "magenta"@ {
        Some(Color::Magenta)
    } else if name == "cyan"@ {
        Some(Color::Cyan)
    } else if name == "white"@ {
        Some(Color::White)
    } else if name == "bright black"@ {
        Some(Color::BrightBlack)
    } else if name == "bright red"@ {
        Some(Color::BrightRed)
    } else if name == "bright green"@ {
        Some(Color::BrightGreen)
    } else if name == "bright yellow"@ {
        Some(Color::BrightYellow)
    } else if name == "bright blue"@ {
        Some(Color::BrightBlue)
    } else if name == "bright magenta"@ {
        Some(Color::BrightMagenta)
    } else if name == "bright cyan"@ {
        Some(Color::BrightCyan)
    } else if name == "bright white"@ {
        Some(Color::BrightWhite)
    } else {
        None
    }
}

/// Relies on colored's `Colorize::bold` and the `Display` of `ColoredString`: the
/// text unchanged when coloring is off, else `ESC[1m`, the text with its inner
/// resets followed by that sequence again, and `ESC[0m`.
#[verifier::external_body]
fn with_bold(s: &str) -> (r: String)
    ensures
        step_outcome(r@, s@, StyleStep::Bold),
{
    s.bold().to_string()
}

/// Relies on colored's `Colorize::italic`, rendered as for `with_bold` with `ESC[3m`.
#[verifier::external_body]
fn with_italic(s: &str) -> (r: String)
    ensures
        step_outcome(r@, s@, StyleStep::Italic),
{
    s.italic().to_string()
}

/// Relies on colored's `Colorize::underline`, rendered as for `with_bold` with `ESC[4m`.
#[verifier::external_body]
fn with_underline(s: &str) -> (r: String)
    ensures
        step_outcome(r@, s@, StyleStep::Underline),
{
    s.underline().to_string()
}

/// Relies on colored's `Colorize::color` with a name that colored's
/// `Color: From<&str>` reads, and on `Color::to_fg_str` for its code.
#[verifier::external_body]
fn with_named_color(s: &str, name: &str) -> (r: String)
    requires
        colored_color_of_name(name@) is Some,
    ensures
        step_outcome(r@, s@, StyleStep::Foreground(colored_color_of_name(name@)->Some_0)),
{
    s.color(name).to_string()
}

/// Relies on colored's `Colorize::truecolor` and `Color::to_fg_str` for its code.
#[verifier::external_body]
fn with_truecolor(s: &str, r: u8, g: u8, b: u8) -> (out: String)
    ensures
        step_outcome(out@, s@, StyleStep::Foreground(Color::TrueColor { r, g, b })),
{
    s.truecolor(r, g, b).to_string()
}

/// Relies on colored's `Colorize::on_color` with a name that colored's
/// `Color: From<&str>` reads, and on `Color::to_bg_str` for its code.
#[verifier::external_body]
fn with_named_background(s: &str, name: &str) -> (r: String)
    requires
        colored_color_of_name(name@) is Some,
    ensures
        step_outcome(r@, s@, StyleStep::Background(colored_color_of_name(name@)->Some_0)),
{
    s.on_color(name).to_string()
}

/// Relies on colored's `Colorize::on_truecolor` and `Color::to_bg_str` for its code.
#[verifier::external_body]
fn with_true_background(s: &str, r: u8, g: u8, b: u8) -> (out: String)
    ensures
        step_outcome(out@, s@, StyleStep::Background(Color::TrueColor { r, g, b })),
{
    s.on_truecolor(r, g, b).to_string()
}

proof fn lemma_colored_names()
    ensures
        colored_color_of_name("black"@) == Some(Color::Black),
        colored_color_of_name("red"@) == Some(Color::Red),
        colored_color_of_name("green"@) == Some(Color::Green),
        colored_color_of_name("yellow"@) == Some(Color::Yellow),
        colored_color_of_name("blue"@) == Some(Color::Blue),
        colored_color_of_name("magenta"@) == Some(Color::Magenta),
        colored_color_of_name("cyan"@) == Some(Color::Cyan),
        colored_color_of_name("white"@) == Some(Color::White),
        colored_color_of_name("bright black"@) == Some(Color::BrightBlack),
        colored_color_of_name("bright red"@) == Some(Color::BrightRed),
        colored_color_of_name("bright green"@) == Some(Color::BrightGreen),
        colored_color_of_name("bright yellow"@) == Some(Color::BrightYellow),
        colored_color_of_name("bright blue"@) == Some(Color::BrightBlue),
        colored_color_of_name("bright magenta"@) == Some(Color::BrightMagenta),
        colored_color_of_name("bright cyan"@) == Some(Color::BrightCyan),
        colored_color_of_name("bright white"@) == Some(Color::BrightWhite),
{
    reveal_strlit("black");
    assert("black"@ =~= seq!['b', 'l', 'a', 'c', 'k']);
    reveal_strlit("red");
    assert("red"@ =~= seq!['r', 'e', 'd']);
    reveal_strlit("green");
    assert("green"@ =~= seq!['g', 'r', 'e', 'e', 'n']);
    reveal_strlit("yellow");
    assert("yellow"@ =~= seq!['y', 'e', 'l', 'l', 'o', 'w']);
    reveal_strlit("blue");
    assert("blue"@ =~= seq!['b', 'l', 'u', 'e']);
    reveal_strlit("magenta");
    assert("magenta"@ =~= seq!['m', 'a', 'g', 'e', 'n', 't', 'a']);
    reveal_strlit("cyan");
    assert("cyan"@ =~= seq!['c', 'y', 'a', 'n']);
    reveal_strlit("white");
    assert("white"@ =~= seq!['w', 'h', 'i', 't', 'e']);
    reveal_strlit("bright black");
    assert("bright black"@ =~= seq!['b', 'r', 'i', 'g', 'h', 't', ' ', 'b', 'l', 'a', 'c', 'k']);
    reveal_strlit("bright red");
    assert("bright red"@ =~= seq!['b', 'r', 'i', 'g', 'h', 't', ' ', 'r', 'e', 'd']);
    reveal_strlit("bright green");
    assert("bright green"@ =~= seq!['b', 'r', 'i', 'g', 'h', 't', ' ', 'g', 'r', 'e', 'e', 'n']);
    reveal_strlit("bright yellow");
    assert("bright yellow"@ =~= seq!['b', 'r', 'i', 'g', 'h', 't', ' ', 'y', 'e', 'l', 'l', 'o', 'w']);
    reveal_strlit("bright blue");
    assert("bright blue"@ =~= seq!['b', 'r', 'i', 'g', 'h', 't', ' ', 'b', 'l', 'u', 'e']);
    reveal_strlit("bright magenta");
    assert("bright magenta"@ =~= seq!['b', 'r', 'i', 'g', 'h', 't', ' ', 'm', 'a', 'g', 'e', 'n', 't', 'a']);
    reveal_strlit("bright cyan");
    assert("bright cyan"@ =~= seq!['b', 'r', 'i', 'g', 'h', 't', ' ', 'c', 'y', 'a', 'n']);
    reveal_strlit("bright white");
    assert("bright white"@ =~= seq!['b', 'r', 'i', 'g', 'h', 't', ' ', 'w', 'h', 'i', 't', 'e']);
}

/// The name colored reads as `c`, for a color of the fixed set.
fn colored_name(c: Color) -> (name: &'static str)
    requires
        !(c is TrueColor),
    ensures
        colored_color_of_name(name@) == Some(c),
{
    proof {
        lemma_colored_names();
    }
    match c {
        Color::Black => "black",
        Color::Red => "red",
        Color::Green => "green",
        Color::Yellow => "yellow",
        Color::Blue => "blue",
        Color::Magenta => "magenta",
        Color::Cyan => "cyan",
        Color::White => "white",
        Color::BrightBlack => "bright black",
        Color::BrightRed => "bright red",
        Color::BrightGreen => "bright green",
        Color::BrightYellow => "bright yellow",
        Color::BrightBlue => "bright blue",
        Color::BrightMagenta => "bright magenta",
        Color::BrightCyan => "bright cyan",
        Color::BrightWhite => "bright white",
        Color::TrueColor { .. } => "white",
    }
}

/// Applies `c` as the foreground color, or as the background color.
fn paint(s: &str, c: Color, background: bool) -> (r: String)
    ensures
        step_outcome(
            r@,
            s@,
            if background {
                StyleStep::Background(c)
            } else {
                StyleStep::Foreground(c)
            },
        ),
{
    match c {
        Color::TrueColor { r, g, b } => {
            if background {
                with_true_background(s, r, g, b)
            } else {
                with_truecolor(s, r, g, b)
            }
        },
        _ => {
            if background {
                with_named_background(s, colored_name(c))
            } else {
                with_named_color(s, colored_name(c))
            }
        },
    }
}


/// How text is to be styled.
#[derive(Clone, Copy, Debug, PartialEq, Eq, Structural)]
pub struct TextStyle {
    pub color: Option<Color>,
    pub background: Option<Color>,
    pub bold: bool,
    pub italic: bool,
    pub underline: bool,
}

/// The view of an optional text.
pub open spec fn text_view(o: Option<&str>) -> Option<Seq<char>> {
    match o {
        Some(t) => Some(t@),
        None => None,
    }
}

/// The style that the given options describe.
pub open spec fn style_of(
    color: Option<Seq<char>>,
    background: Option<Seq<char>>,
    bold: bool,
    italic: bool,
    underline: bool,
) -> TextStyle {
    TextStyle {
        color: match color {
            Some(c) => Some(color_of(c)),
            None => None,
        },
        background: match background {
            Some(c) => Some(color_of(c)),
            None => None,
        },
        bold,
        italic,
        underline,
    }
}

impl TextStyle {
    /// The style leaves text as it is.
    pub open spec fn is_plain(&self) -> bool {
        self.color is None && self.background is None && !self.bold && !self.italic
            && !self.underline
    }

    /// The style described by optional color texts and the three flags.
    pub fn from_options(
        color: Option<&str>,
        background: Option<&str>,
        bold: bool,
        italic: bool,
        underline: bool,
    ) -> (t: TextStyle)
        ensures
            t == style_of(text_view(color), text_view(background), bold, italic, underline),
    {
        TextStyle {
            color: match color {
                Some(c) => Some(parse_color(c)),
                None => None,
            },
            background: match background {
                Some(c) => Some(parse_color(c)),
                None => None,
            },
            bold,
            italic,
            underline,
        }
    }

    /// The steps of this style, in the order they are applied: bold, italic,
    /// underline, foreground color, background color.
    pub open spec fn steps(&self) -> Seq<StyleStep> {
        (if self.bold { seq![StyleStep::Bold] } else { Seq::empty() }) + (if self.italic {
            seq![StyleStep::Italic]
        } else {
            Seq::empty()
        }) + (if self.underline { seq![StyleStep::Underline] } else { Seq::empty() }) + (
        match self.color {
            Some(c) => seq![StyleStep::Foreground(c)],
            None => Seq::empty(),
        }) + (match self.background {
            Some(c) => seq![StyleStep::Background(c)],
            None => Seq::empty(),
        })
    }

    /// Styles `message`: each step of the style in turn, each applied to what the
    /// steps before it made.
    pub fn apply(&self, message: &str) -> (r: String)
        ensures
            steps_outcome(r@, message@, self.steps()),
            self.is_plain() ==> r@ == message@,
    {
        let ghost done: Seq<StyleStep> = Seq::empty();
        let mut out = String::from_str(message);
        let ghost mids: Seq<Seq<char>> = seq![message@];
        assert(step_chain(mids, message@, done));
        assert(mids.last() == out@);
        if self.bold {
            let next = with_bold(out.as_str());
            proof {
                lemma_one_more_step(next@, mids, message@, done, StyleStep::Bold);
                done = done.push(StyleStep::Bold);
                mids = mids.push(next@);
            }
            out = next;
        }
        if self.italic {
            let next = with_italic(out.as_str());
            proof {
                lemma_one_more_step(next@, mids, message@, done, StyleStep::Italic);
                done = done.push(StyleStep::Italic);
                mids = mids.push(next@);
            }
            out = next;
        }
        if self.underline {
            let next = with_underline(out.as_str());
            proof {
                lemma_one_more_step(next@, mids, message@, done, StyleStep::Underline);
                done = done.push(StyleStep::Underline);
                mids = mids.push(next@);
            }
            out = next;
        }
        if let Some(c) = self.color {
            let next = paint(out.as_str(), c, false);
            proof {
                lemma_one_more_step(next@, mids, message@, done, StyleStep::Foreground(c));
                done = done.push(StyleStep::Foreground(c));
                mids = mids.push(next@);
            }
            out = next;
        }
        if let Some(c) = self.background {
            let next = paint(out.as_str(), c, true);
            proof {
                lemma_one_more_step(next@, mids, message@, done, StyleStep::Background(c));
                done = done.push(StyleStep::Background(c));
                mids = mids.push(next@);
            }
            out = next;
        }
        assert(done =~= self.steps());
        assert(step_chain(mids, message@, self.steps()) && mids.last() == out@);
        out
    }
}

/// Styles `message` with the given color and background texts (each read by
/// `parse_color`) and flags, in the order bold, italic, underline, color,
/// background.
pub fn format_text(
    message: &str,
    color: Option<&str>,
    background: Option<&str>,
    bold: bool,
    italic: bool,
    underline: bool,
) -> (r: String)
    ensures
        steps_outcome(
            r@,
            message@,
            style_of(text_view(color), text_view(background), bold, italic, underline).steps(),
        ),
        style_of(text_view(color), text_view(background), bold, italic, underline).is_plain()
            ==> r@ == message@,
{
    TextStyle::from_options(color, background, bold, italic, underline).apply(message)
}

/// Styles each of `items` as `format_text` does, keeping their order.
pub fn format_list(
    items: Vec<String>,
    color: Option<&str>,
    background: Option<&str>,
    bold: bool,
    italic: bool,
    underline: bool,
) -> (r: Vec<String>)
    ensures
        r@.len() == items@.len(),
        forall|i: int|
            0 <= i < items@.len() ==> steps_outcome(
                #[trigger] r@[i]@,
                items@[i]@,
                style_of(text_view(color), text_view(background), bold, italic, underline).steps(),
            ),
        style_of(text_view(color), text_view(background), bold, italic, underline).is_plain()
            ==> forall|i: int| 0 <= i < items@.len() ==> #[trigger] r@[i]@ == items@[i]@,
{
    let style = TextStyle::from_options(color, background, bold, italic, underline);
    let mut out: Vec<String> = Vec::new();
    let mut i: usize = 0;
    while i < items.len()
        invariant
            i <= items@.len(),
            out@.len() == i,
            style == style_of(text_view(color), text_view(background), bold, italic, underline),
            forall|k: int|
                0 <= k < i ==> steps_outcome(#[trigger] out@[k]@, items@[k]@, style.steps()),
            style.is_plain() ==> forall|k: int| 0 <= k < i ==> #[trigger] out@[k]@ == items@[k]@,
        decreases items@.len() - i,
    {
        out.push(style.apply(items[i].as_str()));
        i = i + 1;
    }
    out
}

/// `purple` is another name for magenta: as a foreground or a background, with
/// any other option, the two give the same style.
pub proof fn lemma_purple_is_magenta(
    other: Option<Seq<char>>,
    bold: bool,
    italic: bool,
    underline: bool,
)
    ensures
        color_of("purple"@) == Color::Magenta,
        color_of("magenta"@) == Color::Magenta,
        style_of(Some("purple"@), other, bold, italic, underline) == style_of(
            Some("magenta"@),
            other,
            bold,
            italic,
            underline,
        ),
        style_of(other, Some("purple"@), bold, italic, underline) == style_of(
            other,
            Some("magenta"@),
            bold,
            italic,
            underline,
        ),
{
    reveal_strlit("black");
    reveal_strlit("red");
    reveal_strlit("green");
    reveal_strlit("yellow");
    reveal_strlit("blue");
    reveal_strlit("magenta");
    reveal_strlit("purple");
}

} // verus!
