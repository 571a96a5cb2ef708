//! Bare words and what they stand for: the keywords, numeric literals
//! with their unit suffixes, and plain strings.

use vstd::prelude::*;
use crate::decimal::{decimal_parts, magnitude_of, Decimal};
use crate::error::ParseErrorKind;
use crate::scan::{hex_digit, hex_digit_of};
use crate::text::string_of;
use crate::tree::{Tree, Value};

verus! {

/// The unit suffix of a numeric literal.
#[derive(Clone, Copy, Debug, PartialEq, Eq, Structural)]
pub enum Unit {
    /// No suffix.
    Plain,
    /// `k`, a thousand.
    Kilo,
    /// `m`, a million.
    Mega,
    /// `g`, a thousand millions.
    Giga,
    /// `kb`, 1024.
    Kibi,
    /// `mb`, 1024 * 1024.
    Mebi,
    /// `gb`, 1024 * 1024 * 1024.
    Gibi,
    /// `ms`, a thousandth of a second.
    Millis,
    /// `s`, a second.
    Seconds,
    /// `min`, sixty seconds.
    Minutes,
    /// `h` or `hour`.
    Hours,
    /// `d` or `day`.
    Days,
    /// `w`, seven days.
    Weeks,
}

impl Unit {
    /// The whole number that the unit multiplies by.
    pub open spec fn factor(self) -> nat {
        match self {
            Unit::Plain => 1,
            Unit::Kilo => 1000,
            Unit::Mega => 1000000,
            Unit::Giga => 1000000000,
            Unit::Kibi => 1024,
            Unit::Mebi => 1048576,
            Unit::Gibi => 1073741824,
            Unit::Millis => 1,
            Unit::Seconds => 1,
            Unit::Minutes => 60,
            Unit::Hours => 3600,
            Unit::Days => 86400,
            Unit::Weeks => 604800,
        }
    }

    /// The power of ten that the unit multiplies by besides.
    pub open spec fn shift(self) -> int {
        match self {
            Unit::Millis => -3,
            _ => 0,
        }
    }

    /// Whether the unit measures time: such a literal is a float of
    /// seconds, whatever its numeral looks like.
    pub open spec fn is_time(self) -> bool {
        match self {
            Unit::Millis | Unit::Seconds | Unit::Minutes | Unit::Hours | Unit::Days | Unit::Weeks
            => true,
            _ => false,
        }
    }

    fn multiplier(&self) -> (r: u32)
        ensures
            r == self.factor(),
    {
        match self {
            Unit::Plain => 1,
            Unit::Kilo => 1000,
            Unit::Mega => 1000000,
            Unit::Giga => 1000000000,
            Unit::Kibi => 1024,
            Unit::Mebi => 1048576,
            Unit::Gibi => 1073741824,
            Unit::Millis => 1,
            Unit::Seconds => 1,
            Unit::Minutes => 60,
            Unit::Hours => 3600,
            Unit::Days => 86400,
            Unit::Weeks => 604800,
        }
    }

    fn power(&self) -> (r: i32)
        ensures
            r == self.shift(),
    {
        match self {
            Unit::Millis => -3,
            _ => 0,
        }
    }

    fn measures_time(&self) -> (r: bool)
        ensures
            r == self.is_time(),
    {
        match self {
            Unit::Millis | Unit::Seconds | Unit::Minutes | Unit::Hours | Unit::Days | Unit::Weeks
            => true,
            _ => false,
        }
    }
}

/// The unit that a suffix spells; the empty suffix spells the plain
/// unit, and most texts spell none.
pub open spec fn unit_of(x: Seq<char>) -> Option<Unit> {
    if x.len() == 0 {
        Some(Unit::Plain)
    } else if x.len() == 1 {
        if x[0] == 'k' {
            Some(Unit::Kilo)
        } else if x[0] == 'm' {
            Some(Unit::Mega)
        } else if x[0] == 'g' {
            Some(Unit::Giga)
        } else if x[0] == 's' {
            Some(Unit::Seconds)
        } else if x[0] == 'h' {
            Some(Unit::Hours)
        } else if x[0] == 'd' {
            Some(Unit::Days)
        } else if x[0] == 'w' {
            Some(Unit::Weeks)
        } else {
            None
        }
    } else if x.len() == 2 {
        if x[0] == 'k' && x[1] == 'b' {
            Some(Unit::Kibi)
        } else if x[0] == 'm' && x[1] == 'b' {
            Some(Unit::Mebi)
        } else if x[0] == 'g' && x[1] == 'b' {
            Some(Unit::Gibi)
        } else if x[0] == 'm' && x[1] == 's' {
            Some(Unit::Millis)
        } else {
            None
        }
    } else if x.len() == 3 {
        if x[0] == 'm' && x[1] == 'i' && x[2] == 'n' {
            Some(Unit::Minutes)
        } else if x[0] == 'd' && x[1] == 'a' && x[2] == 'y' {
            Some(Unit::Days)
        } else {
            None
        }
    } else if x.len() == 4 {
        if x[0] == 'h' && x[1] == 'o' && x[2] == 'u' && x[3] == 'r' {
            Some(Unit::Hours)
        } else {
            None
        }
    } else {
        None
    }
}

/// A decimal digit.
pub open spec fn is_digit(c: char) -> bool {
    '0' <= c <= '9'
}

/// The value of a decimal digit.
pub open spec fn digit(c: char) -> nat {
    (c as int - '0' as int) as nat
}

/// The end of the longest run of decimal digits that starts at `p`.
pub open spec fn digits_end(w: Seq<char>, p: int) -> int
    decreases w.len() - p,
{
    if p >= w.len() || !is_digit(w[p]) {
        p
    } else {
        digits_end(w, p + 1)
    }
}

/// The end of the longest run of hexadecimal digits that starts at `p`.
pub open spec fn hex_end(w: Seq<char>, p: int) -> int
    decreases w.len() - p,
{
    if p >= w.len() || hex_digit(w[p]) is None {
        p
    } else {
        hex_end(w, p + 1)
    }
}

/// The number that the decimal digits among `w[a..b]` spell; what is
/// no digit, such as the point, is passed over.
pub open spec fn decimal_value(w: Seq<char>, a: int, b: int) -> nat
    decreases b - a,
{
    if b <= a {
        0
    } else if is_digit(w[b - 1]) {
        decimal_value(w, a, b - 1) * 10 + digit(w[b - 1])
    } else {
        decimal_value(w, a, b - 1)
    }
}

/// The number that the hexadecimal digits `w[a..b]` spell.
pub open spec fn hex_value(w: Seq<char>, a: int, b: int) -> nat
    decreases b - a,
{
    if b <= a {
        0
    } else {
        match hex_digit(w[b - 1]) {
            Some(d) => hex_value(w, a, b - 1) * 16 + d as nat,
            None => hex_value(w, a, b - 1),
        }
    }
}

/// A numeric literal, taken apart.
pub struct Numeral {
    pub negative: bool,
    /// The digits of the numeral, before and behind the point, taken as
    /// one whole number.
    pub digits: nat,
    /// How many digits stand behind the point.
    pub fraction: nat,
    /// The exponent as written, zero where none is.
    pub exponent: int,
    /// Whether the numeral has neither point nor exponent.
    pub integral: bool,
    pub unit: Unit,
}

/// The end of the exponent part that may start at `f`, and the
/// exponent; without a digit behind the `e` there is no such part.
pub open spec fn exponent_part(w: Seq<char>, f: int) -> (int, int) {
    if f < w.len() && (w[f] == 'e' || w[f] == 'E') {
        let signed = f + 1 < w.len() && (w[f + 1] == '+' || w[f + 1] == '-');
        let from = if signed {
            f + 2
        } else {
            f + 1
        };
        let to = digits_end(w, from);
        if to > from {
            (
                to,
                if signed && w[f + 1] == '-' {
                    -(decimal_value(w, from, to) as int)
                } else {
                    decimal_value(w, from, to) as int
                },
            )
        } else {
            (f, 0)
        }
    } else {
        (f, 0)
    }
}

/// Whether a hexadecimal numeral starts at `p`.
pub open spec fn hex_starts(w: Seq<char>, p: int) -> bool {
    p + 2 < w.len() && w[p] == '0' && (w[p + 1] == 'x' || w[p + 1] == 'X') && hex_digit(w[p + 2])
        is Some
}

/// A hexadecimal numeral whose `0x` stands at `start`, with a unit
/// suffix up to the end of the word.
pub open spec fn read_hex(w: Seq<char>, start: int, negative: bool) -> Option<Numeral> {
    let e = hex_end(w, start + 2);
    match unit_of(w.subrange(e, w.len() as int)) {
        Some(unit) => Some(
            Numeral {
                negative,
                digits: hex_value(w, start + 2, e),
                fraction: 0,
                exponent: 0,
                integral: true,
                unit,
            },
        ),
        None => None,
    }
}

/// A decimal numeral that starts at `start`: digits, an optional
/// fraction, an optional exponent, and a unit suffix up to the end of
/// the word.
pub open spec fn read_decimal(w: Seq<char>, start: int, negative: bool) -> Option<Numeral> {
    let d = digits_end(w, start);
    let f = if d + 1 < w.len() && w[d] == '.' && is_digit(w[d + 1]) {
        digits_end(w, d + 1)
    } else {
        d
    };
    let (x, exponent) = exponent_part(w, f);
    if d == start {
        None
    } else {
        match unit_of(w.subrange(x, w.len() as int)) {
            Some(unit) => Some(
                Numeral {
                    negative,
                    digits: decimal_value(w, start, f),
                    fraction: if f > d {
                        (f - d - 1) as nat
                    } else {
                        0
                    },
                    exponent,
                    integral: x == d,
                    unit,
                },
            ),
            None => None,
        }
    }
}

/// Reads a whole word as a numeric literal: an optional sign; then
/// `0x` and hexadecimal digits, or decimal digits with an optional
/// fraction and an optional exponent; then a unit suffix up to the end
/// of the word. Gives nothing where the word is not of that form.
pub open spec fn read_numeral(w: Seq<char>) -> Option<Numeral> {
    let start: int = if w.len() > 0 && (w[0] == '-' || w[0] == '+') {
        1
    } else {
        0
    };
    let negative = w.len() > 0 && w[0] == '-';
    if hex_starts(w, start) {
        read_hex(w, start, negative)
    } else {
        read_decimal(w, start, negative)
    }
}

/// The largest whole number that the digits of a literal may spell.
pub const DIGITS_LIMIT: u64 = 0x8000_0000_0000_0000;

/// The largest exponent, of either sign, that a literal may be written
/// with.
pub const EXPONENT_LIMIT: u64 = 0x7fff_ffff;

/// The value of a numeral. Without a point, an exponent or a unit of
/// time it is a whole number, times what the unit says. Otherwise it is
/// a float: under a unit of time the number of seconds. Gives nothing
/// where the digits or the written exponent exceed their limits, or
/// the value does not fit.
pub open spec fn evaluate(n: Numeral) -> Option<Tree> {
    if n.digits > DIGITS_LIMIT || magnitude_of(n.exponent) > EXPONENT_LIMIT {
        None
    } else if n.integral && !n.unit.is_time() {
        let v = if n.negative {
            -(n.digits * n.unit.factor())
        } else {
            (n.digits * n.unit.factor()) as int
        };
        if i64::MIN <= v <= i64::MAX {
            Some(Tree::Number(v))
        } else {
            None
        }
    } else {
        match decimal_parts(
            n.negative,
            n.digits * n.unit.factor(),
            n.exponent - n.fraction + n.unit.shift(),
        ) {
            Some((m, e)) => Some(Tree::Float(m, e)),
            None => None,
        }
    }
}

/// Which kind of number a numeral is: a whole number exactly where it
/// has neither point nor exponent nor a unit of time, and then the
/// digits times what the unit says; a float in every other case.
pub proof fn lemma_kind_of_numeral(n: Numeral)
    requires
        evaluate(n) is Some,
    ensures
        match evaluate(n)->0 {
            Tree::Number(v) => n.integral && !n.unit.is_time() && v == if n.negative {
                -(n.digits * n.unit.factor())
            } else {
                (n.digits * n.unit.factor()) as int
            },
            Tree::Float(m, e) => !(n.integral && !n.unit.is_time()) && decimal_parts(
                n.negative,
                n.digits * n.unit.factor(),
                n.exponent - n.fraction + n.unit.shift(),
            ) == Some((m, e)),
            _ => false,
        },
{
}

/// The word `true`.
pub open spec fn is_true(w: Seq<char>) -> bool {
    w.len() == 4 && w[0] == 't' && w[1] == 'r' && w[2] == 'u' && w[3] == 'e'
}

/// The word `false`.
pub open spec fn is_false(w: Seq<char>) -> bool {
    w.len() == 5 && w[0] == 'f' && w[1] == 'a' && w[2] == 'l' && w[3] == 's' && w[4] == 'e'
}

/// The word `null`.
pub open spec fn is_null(w: Seq<char>) -> bool {
    w.len() == 4 && w[0] == 'n' && w[1] == 'u' && w[2] == 'l' && w[3] == 'l'
}

/// What a bare word stands for: `true`, `false` and `null` for
/// themselves, a numeric literal for its value, any other word for the
/// string that it is. Gives nothing for a numeric literal without a
/// value.
pub open spec fn classify(w: Seq<char>) -> Option<Tree> {
    if is_true(w) {
        Some(Tree::Boolean(true))
    } else if is_false(w) {
        Some(Tree::Boolean(false))
    } else if is_null(w) {
        Some(Tree::Null)
    } else {
        match read_numeral(w) {
            Some(n) => evaluate(n),
            None => Some(Tree::String(w)),
        }
    }
}

/// Whether the word is written as canonical JSON writes its numbers,
/// as far as sign and base go.
pub open spec fn plain_form(w: Seq<char>) -> bool {
    w.len() > 0 && w[0] != '+' && !hex_starts(
        w,
        if w[0] == '-' {
            1int
        } else {
            0int
        },
    )
}

/// Whether a word is a number as canonical JSON writes them: a numeral
/// without a plus sign, hexadecimal digits or a unit.
pub open spec fn is_json_number(w: Seq<char>) -> bool {
    plain_form(w) && read_numeral(w) is Some && read_numeral(w)->0.unit == Unit::Plain
}

/// What a bare word stands for where only canonical JSON is taken: the
/// three keywords and the numbers. A number without a value is an
/// invalid number; any other word has no place in JSON.
pub open spec fn classify_json(w: Seq<char>) -> Result<Tree, ParseErrorKind> {
    if is_true(w) {
        Ok(Tree::Boolean(true))
    } else if is_false(w) {
        Ok(Tree::Boolean(false))
    } else if is_null(w) {
        Ok(Tree::Null)
    } else if is_json_number(w) {
        match evaluate(read_numeral(w)->0) {
            Some(tree) => Ok(tree),
            None => Err(ParseErrorKind::InvalidNumber),
        }
    } else {
        Err(ParseErrorKind::UnexpectedToken)
    }
}

fn is_digit_char(c: char) -> (r: bool)
    ensures
        r == is_digit(c),
{
    '0' <= c && c <= '9'
}

fn end_of_digits(w: &[char], from: usize) -> (r: usize)
    requires
        from <= w@.len(),
    ensures
        r == digits_end(w@, from as int),
        from <= r <= w@.len(),
{
    let mut p = from;
    while p < w.len() && is_digit_char(w[p])
        invariant
            from <= p <= w@.len(),
            digits_end(w@, from as int) == digits_end(w@, p as int),
        decreases w@.len() - p,
    {
        p += 1;
    }
    p
}

fn end_of_hex(w: &[char], from: usize) -> (r: usize)
    requires
        from <= w@.len(),
    ensures
        r == hex_end(w@, from as int),
        from <= r <= w@.len(),
{
    let mut p = from;
    while p < w.len() && hex_digit_of(w[p]).is_some()
        invariant
            from <= p <= w@.len(),
            hex_end(w@, from as int) == hex_end(w@, p as int),
        decreases w@.len() - p,
    {
        p += 1;
    }
    p
}

/// Whether `value` and `huge` hold the number `n`: the number itself,
/// or the fact that it is beyond the limit.
spec fn holds(value: u64, huge: bool, n: nat) -> bool {
    if huge {
        n > DIGITS_LIMIT
    } else {
        value == n && n <= DIGITS_LIMIT
    }
}

/// Goes on from `from` to `to` with reading the decimal digits that
/// began at `origin`.
fn gather(w: &[char], origin: usize, from: usize, to: usize, value: u64, huge: bool) -> (r: (
    u64,
    bool,
))
    requires
        origin <= from <= to <= w@.len(),
        holds(value, huge, decimal_value(w@, origin as int, from as int)),
    ensures
        holds(r.0, r.1, decimal_value(w@, origin as int, to as int)),
{
    let mut value = value;
    let mut huge = huge;
    let mut i = from;
    while i < to
        invariant
            origin <= from <= i <= to <= w@.len(),
            holds(value, huge, decimal_value(w@, origin as int, i as int)),
        decreases to - i,
    {
        let c = w[i];
        if is_digit_char(c) && !huge {
            let d: u64 = (c as u32 - '0' as u32) as u64;
            let next: u128 = value as u128 * 10 + d as u128;
            if next > DIGITS_LIMIT as u128 {
                huge = true;
            } else {
                value = next as u64;
            }
        }
        i += 1;
    }
    (value, huge)
}

fn gather_hex(w: &[char], from: usize, to: usize) -> (r: (u64, bool))
    requires
        from <= to <= w@.len(),
    ensures
        holds(r.0, r.1, hex_value(w@, from as int, to as int)),
{
    let mut value: u64 = 0;
    let mut huge = false;
    let mut i = from;
    while i < to
        invariant
            from <= i <= to <= w@.len(),
            holds(value, huge, hex_value(w@, from as int, i as int)),
        decreases to - i,
    {
        match hex_digit_of(w[i]) {
            Some(d) => {
                if !huge {
                    let next: u128 = value as u128 * 16 + d as u128;
                    if next > DIGITS_LIMIT as u128 {
                        huge = true;
                    } else {
                        value = next as u64;
                    }
                }
            },
            None => {},
        }
        i += 1;
    }
    (value, huge)
}

fn read_unit(w: &[char], from: usize) -> (r: Option<Unit>)
    requires
        from <= w@.len(),
    ensures
        r == unit_of(w@.subrange(from as int, w@.len() as int)),
{
    let n = w.len() - from;
    let ghost x = w@.subrange(from as int, w@.len() as int);
    assert(forall|i: int| 0 <= i < n ==> x[i] == w@[from + i]);
    if n == 0 {
        Some(Unit::Plain)
    } else if n == 1 {
        let a = w[from];
        if a == 'k' {
            Some(Unit::Kilo)
        } else if a == 'm' {
            Some(Unit::Mega)
        } else if a == 'g' {
            Some(Unit::Giga)
        } else if a == 's' {
            Some(Unit::Seconds)
        } else if a == 'h' {
            Some(Unit::Hours)
        } else if a == 'd' {
            Some(Unit::Days)
        } else if a == 'w' {
            Some(Unit::Weeks)
        } else {
            None
        }
    } else if n == 2 {
        let a = w[from];
        let b = w[from + 1];
        if a == 'k' && b == 'b' {
            Some(Unit::Kibi)
        } else if a == 'm' && b == 'b' {
            Some(Unit::Mebi)
        } else if a == 'g' && b == 'b' {
            Some(Unit::Gibi)
        } else if a == 'm' && b == 's' {
            Some(Unit::Millis)
        } else {
            None
        }
    } else if n == 3 {
        let a = w[from];
        let b = w[from + 1];
        let c = w[from + 2];
        if a == 'm' && b == 'i' && c == 'n' {
            Some(Unit::Minutes)
        } else if a == 'd' && b == 'a' && c == 'y' {
            Some(Unit::Days)
        } else {
            None
        }
    } else if n == 4 {
        if w[from] == 'h' && w[from + 1] == 'o' && w[from + 2] == 'u' && w[from + 3] == 'r' {
            Some(Unit::Hours)
        } else {
            None
        }
    } else {
        None
    }
}

/// A numeral as the parser holds it: the numbers themselves, or the
/// fact that they are beyond their limits.
struct Reading {
    negative: bool,
    digits: u64,
    huge: bool,
    fraction: usize,
    exponent: i64,
    steep: bool,
    integral: bool,
    plain_form: bool,
    unit: Unit,
}

impl Reading {
    spec fn renders(self, n: Numeral) -> bool {
        &&& self.negative == n.negative
        &&& holds(self.digits, self.huge, n.digits)
        &&& self.fraction == n.fraction
        &&& self.steep == (magnitude_of(n.exponent) > EXPONENT_LIMIT)
        &&& !self.steep ==> self.exponent == n.exponent
        &&& self.integral == n.integral
        &&& self.unit == n.unit
    }
}

fn recognize_hex(w: &[char], start: usize, negative: bool) -> (r: Option<Reading>)
    requires
        start + 2 <= w@.len(),
    ensures
        match r {
            Some(x) => read_hex(w@, start as int, negative) is Some && x.renders(
                read_hex(w@, start as int, negative)->0,
            ) && !x.plain_form,
            None => read_hex(w@, start as int, negative) is None,
        },
{
    let len = w.len();
    let e = end_of_hex(w, start + 2);
    let (digits, huge) = gather_hex(w, start + 2, e);
    match read_unit(w, e) {
        Some(unit) => Some(
            Reading {
                negative,
                digits,
                huge,
                fraction: 0,
                exponent: 0,
                steep: false,
                integral: true,
                plain_form: false,
                unit,
            },
        ),
        None => None,
    }
}

/// The end of the exponent part that may start at `f`, the exponent,
/// and whether it is beyond its limit.
fn read_exponent(w: &[char], f: usize) -> (r: (usize, i64, bool))
    requires
        f <= w@.len(),
    ensures
        r.0 == exponent_part(w@, f as int).0,
        f <= r.0 <= w@.len(),
        r.2 == (magnitude_of(exponent_part(w@, f as int).1) > EXPONENT_LIMIT),
        !r.2 ==> r.1 == exponent_part(w@, f as int).1,
{
    let len = w.len();
    if f < len && (w[f] == 'e' || w[f] == 'E') {
        let marked = len - f > 1 && (w[f + 1] == '+' || w[f + 1] == '-');
        let from = if marked {
            f + 2
        } else {
            f + 1
        };
        let to = end_of_digits(w, from);
        if to > from {
            let (size, big) = gather(w, from, from, to, 0, false);
            if big || size > EXPONENT_LIMIT {
                (to, 0, true)
            } else if marked && w[f + 1] == '-' {
                (to, -(size as i64), false)
            } else {
                (to, size as i64, false)
            }
        } else {
            (f, 0, false)
        }
    } else {
        (f, 0, false)
    }
}

fn recognize_decimal(w: &[char], start: usize, negative: bool, plain: bool) -> (r: Option<Reading>)
    requires
        start <= w@.len(),
    ensures
        match r {
            Some(x) => read_decimal(w@, start as int, negative) is Some && x.renders(
                read_decimal(w@, start as int, negative)->0,
            ) && x.plain_form == plain,
            None => read_decimal(w@, start as int, negative) is None,
        },
{
    let len = w.len();
    let d = end_of_digits(w, start);
    if d == start {
        return None;
    }
    let f = if len - d > 1 && w[d] == '.' && is_digit_char(w[d + 1]) {
        end_of_digits(w, d + 1)
    } else {
        d
    };
    let (digits, huge) = gather(w, start, start, f, 0, false);
    let (x, exponent, steep) = read_exponent(w, f);
    match read_unit(w, x) {
        Some(unit) => Some(
            Reading {
                negative,
                digits,
                huge,
                fraction: if f > d {
                    f - d - 1
                } else {
                    0
                },
                exponent,
                steep,
                integral: x == d,
                plain_form: plain,
                unit,
            },
        ),
        None => None,
    }
}

fn recognize(w: &[char]) -> (r: Option<Reading>)
    ensures
        match r {
            Some(x) => read_numeral(w@) is Some && x.renders(read_numeral(w@)->0) && x.plain_form
                == plain_form(w@),
            None => read_numeral(w@) is None,
        },
{
    let len = w.len();
    let signed = len > 0 && (w[0] == '-' || w[0] == '+');
    let negative = len > 0 && w[0] == '-';
    let start: usize = if signed {
        1
    } else {
        0
    };
    if len - start > 2 && w[start] == '0' && (w[start + 1] == 'x' || w[start + 1] == 'X')
        && hex_digit_of(w[start + 2]).is_some() {
        recognize_hex(w, start, negative)
    } else {
        recognize_decimal(w, start, negative, !(len > 0 && w[0] == '+'))
    }
}

fn value_of(x: &Reading, Ghost(n): Ghost<Numeral>) -> (r: Option<Value>)
    requires
        x.renders(n),
    ensures
        match r {
            Some(v) => evaluate(n) == Some(v@),
            None => evaluate(n) is None,
        },
{
    if x.huge || x.steep {
        return None;
    }
    let factor = x.unit.multiplier();
    assert(x.digits * factor <= 0x8000_0000_0000_0000 * 0x1_0000_0000) by (nonlinear_arith)
        requires
            x.digits <= 0x8000_0000_0000_0000,
            factor < 0x1_0000_0000,
    ;
    let product: u128 = x.digits as u128 * factor as u128;
    if x.integral && !x.unit.measures_time() {
        if x.negative {
            if product > 0x8000_0000_0000_0000 {
                None
            } else {
                let v: i128 = -(product as i128);
                Some(Value::Number(v as i64))
            }
        } else {
            if product > 0x7fff_ffff_ffff_ffff {
                None
            } else {
                Some(Value::Number(product as i64))
            }
        }
    } else {
        let scale: i128 = x.exponent as i128 - x.fraction as i128 + x.unit.power() as i128;
        match Decimal::from_parts(x.negative, product, scale) {
            Some(d) => Some(Value::Float(d)),
            None => None,
        }
    }
}

fn spells_true(w: &[char]) -> (r: bool)
    ensures
        r == is_true(w@),
{
    w.len() == 4 && w[0] == 't' && w[1] == 'r' && w[2] == 'u' && w[3] == 'e'
}

fn spells_false(w: &[char]) -> (r: bool)
    ensures
        r == is_false(w@),
{
    w.len() == 5 && w[0] == 'f' && w[1] == 'a' && w[2] == 'l' && w[3] == 's' && w[4] == 'e'
}

fn spells_null(w: &[char]) -> (r: bool)
    ensures
        r == is_null(w@),
{
    w.len() == 4 && w[0] == 'n' && w[1] == 'u' && w[2] == 'l' && w[3] == 'l'
}

/// The value that a bare word stands for, or nothing for a numeric
/// literal without a value.
pub(crate) fn classify_word(w: &[char]) -> (r: Option<Value>)
    ensures
        match r {
            Some(v) => classify(w@) == Some(v@),
            None => classify(w@) is None,
        },
{
    if spells_true(w) {
        Some(Value::Boolean(true))
    } else if spells_false(w) {
        Some(Value::Boolean(false))
    } else if spells_null(w) {
        Some(Value::Null)
    } else {
        match recognize(w) {
            Some(x) => value_of(&x, Ghost(read_numeral(w@)->0)),
            None => {
                let s = string_of(w, 0, w.len());
                assert(w@.subrange(0, w@.len() as int) =~= w@);
                Some(Value::String(s))
            },
        }
    }
}

/// The value that a bare word stands for in canonical JSON, or why it
/// stands for none.
pub(crate) fn classify_json_word(w: &[char]) -> (r: Result<Value, ParseErrorKind>)
    ensures
        match r {
            Ok(v) => classify_json(w@) == Ok::<Tree, ParseErrorKind>(v@),
            Err(kind) => classify_json(w@) == Err::<Tree, ParseErrorKind>(kind),
        },
{
    if spells_true(w) {
        Ok(Value::Boolean(true))
    } else if spells_false(w) {
        Ok(Value::Boolean(false))
    } else if spells_null(w) {
        Ok(Value::Null)
    } else {
        match recognize(w) {
            Some(x) => {
                if x.plain_form && x.unit == Unit::Plain {
                    match value_of(&x, Ghost(read_numeral(w@)->0)) {
                        Some(v) => Ok(v),
                        None => Err(ParseErrorKind::InvalidNumber),
                    }
                } else {
                    Err(ParseErrorKind::UnexpectedToken)
                }
            },
            None => Err(ParseErrorKind::UnexpectedToken),
        }
    }
}

} // verus!
