use vstd::prelude::*;
use crate::date::CalendarDate;

verus! {

pub open spec fn is_digit(c: char) -> bool {
    '0' <= c && c <= '9'
}

/// One or more decimal digits.
pub open spec fn is_digits(s: Seq<char>) -> bool {
    s.len() > 0 && forall|i: int| 0 <= i < s.len() ==> is_digit(#[trigger] s[i])
}

/// Digits, optionally followed by a point and more digits.
pub open spec fn is_unsigned_decimal(s: Seq<char>) -> bool {
    is_digits(s) || exists|p: int| 0 < p < s.len() && #[trigger] s[p] == '.'
        && is_digits(s.subrange(0, p)) && is_digits(s.subrange(p + 1, s.len() as int))
}

/// A plain decimal number: an optional minus sign, digits, and optionally a
/// point followed by digits (`10`, `-0.5`).
pub open spec fn is_number_text(s: Seq<char>) -> bool {
    if s.len() > 0 && s[0] == '-' {
        is_unsigned_decimal(s.drop_first())
    } else {
        is_unsigned_decimal(s)
    }
}

/// Whether `s` from position `start` on is an unsigned decimal.
fn unsigned_decimal_from(s: &str, n: usize, start: usize) -> (r: bool)
    requires
        n == s@.len(),
        start <= n,
    ensures
        r == is_unsigned_decimal(s@.subrange(start as int, n as int)),
{
    let ghost t = s@.subrange(start as int, n as int);
    let mut j: usize = start;
    while j < n && is_digit_char(s.get_char(j))
        invariant
            n == s@.len(),
            start <= j <= n,
            forall|k: int| start <= k < j ==> is_digit(#[trigger] s@[k]),
        decreases n - j,
    {
        j = j + 1;
    }
    let p = j - start;
    if j == n {
        if p == 0 {
            proof {
                assert(t.len() == 0);
                assert(!is_digits(t));
            }
            return false;
        }
        proof {
            assert forall|i: int| 0 <= i < t.len() implies is_digit(#[trigger] t[i]) by {
                assert(t[i] == s@[start + i]);
            }
        }
        return true;
    }
    let c = s.get_char(j);
    proof {
        assert(t[p as int] == c);
        assert(!is_digits(t));
    }
    if c != '.' || p == 0 || j + 1 >= n {
        proof {
            assert forall|q: int| 0 < q < t.len() && #[trigger] t[q] == '.'
                && is_digits(t.subrange(0, q)) implies !is_digits(t.subrange(q + 1, t.len() as int)) by {
                if q < p {
                    assert(is_digit(s@[start + q]));
                    assert(t[q] == s@[start + q]);
                } else if q > p {
                    assert(t.subrange(0, q)[p as int] == c);
                } else {
                    assert(j + 1 >= n);
                    assert(t.subrange(q + 1, t.len() as int).len() == 0);
                }
            }
        }
        return false;
    }
    let mut k: usize = j + 1;
    while k < n && is_digit_char(s.get_char(k))
        invariant
            n == s@.len(),
            j + 1 <= k <= n,
            forall|m: int| j + 1 <= m < k ==> is_digit(#[trigger] s@[m]),
        decreases n - k,
    {
        k = k + 1;
    }
    proof {
        assert(t.subrange(0, p as int) =~= s@.subrange(start as int, j as int));
        assert(t.subrange(p + 1, t.len() as int) =~= s@.subrange(j + 1, n as int));
    }
    if k == n {
        proof {
            assert forall|i: int| 0 <= i < p implies is_digit(#[trigger] t.subrange(0, p as int)[i]) by {
                assert(t.subrange(0, p as int)[i] == s@[start + i]);
            }
            let u = t.subrange(p + 1, t.len() as int);
            assert forall|i: int| 0 <= i < u.len() implies is_digit(#[trigger] u[i]) by {
                assert(u[i] == s@[j + 1 + i]);
            }
            assert(t[p as int] == '.');
        }
        true
    } else {
        proof {
            assert(!is_digit(s@[k as int]));
            assert forall|q: int| 0 < q < t.len() && #[trigger] t[q] == '.'
                && is_digits(t.subrange(0, q)) implies !is_digits(t.subrange(q + 1, t.len() as int)) by {
                if q < p {
                    assert(is_digit(s@[start + q]));
                    assert(t[q] == s@[start + q]);
                } else if q > p {
                    assert(t.subrange(0, q)[p as int] == c);
                } else {
                    assert(t.subrange(q + 1, t.len() as int)[k - j - 1] == s@[k as int]);
                }
            }
        }
        false
    }
}

fn is_digit_char(c: char) -> (r: bool)
    ensures
        r == is_digit(c),
{
    '0' <= c && c <= '9'
}

/// A measured quantity, held as its plain decimal rendering (`10`, `-0.5`).
#[derive(Clone, Debug)]
pub struct Number {
    text: String,
}

impl View for Number {
    type V = Seq<char>;

    closed spec fn view(&self) -> Seq<char> {
        self.text@
    }
}

impl Number {
    pub open spec fn wf(&self) -> bool {
        is_number_text(self@)
    }

    /// The number written as `s`, if `s` is a plain decimal number.
    pub fn from_text(s: &str) -> (r: Option<Number>)
        ensures
            r is Some <==> is_number_text(s@),
            r matches Some(n) ==> n@ == s@,
    {
        let n = s.unicode_len();
        let neg = n > 0 && s.get_char(0) == '-';
        let start: usize = if neg { 1 } else { 0 };
        proof {
            if neg {
                assert(s@.drop_first() =~= s@.subrange(1, n as int));
            } else {
                assert(s@ =~= s@.subrange(0, n as int));
            }
        }
        if unsigned_decimal_from(s, n, start) {
            Some(Number { text: s.to_string() })
        } else {
            None
        }
    }

    /// The decimal rendering of the number.
    pub fn as_text(&self) -> (r: &str)
        ensures
            r@ == self@,
    {
        self.text.as_str()
    }
}

/// One worksheet cell, with the type the worksheet gave it.
#[derive(Clone, Debug)]
pub enum Cell {
    Empty,
    Error,
    Number(Number),
    Text(String),
    Date(CalendarDate),
}

impl Cell {
    pub open spec fn wf(&self) -> bool {
        match self {
            Cell::Number(n) => n.wf(),
            Cell::Date(d) => d.wf(),
            _ => true,
        }
    }
}

/// What an optional-number cell reads as: numbers are kept, everything else is absent.
pub open spec fn number_of(c: Cell) -> Option<Seq<char>> {
    match c {
        Cell::Number(n) => Some(n@),
        _ => None,
    }
}

/// What a date cell reads as: only a cell that already holds a date gives one.
pub open spec fn date_of(c: Cell) -> Option<CalendarDate> {
    match c {
        Cell::Date(d) => Some(d),
        _ => None,
    }
}

/// What a text cell reads as.
pub open spec fn text_of(c: Cell) -> Option<Seq<char>> {
    match c {
        Cell::Text(s) => Some(s@),
        _ => None,
    }
}

/// Reads a cell as an optional number; never fails.
pub fn coerce_number(c: &Cell) -> (r: Option<Number>)
    ensures
        number_of(*c) == (match r {
            Some(n) => Some(n@),
            None => None::<Seq<char>>,
        }),
        c.wf() ==> (r matches Some(n) ==> n.wf()),
{
    match c {
        Cell::Number(n) => Some(n.clone_number()),
        _ => None,
    }
}

/// Reads a cell as a calendar date.
pub fn coerce_date(c: &Cell) -> (r: Option<CalendarDate>)
    ensures
        r == date_of(*c),
{
    match c {
        Cell::Date(d) => Some(*d),
        _ => None,
    }
}

impl Number {
    pub fn clone_number(&self) -> (r: Number)
        ensures
            r@ == self@,
    {
        Number { text: self.text.clone() }
    }
}

} // verus!
