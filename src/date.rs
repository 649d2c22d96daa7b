use vstd::prelude::*;

verus! {

/// A calendar day of the proleptic Gregorian calendar, years 0 through 9999.
#[derive(Clone, Copy, Debug, PartialEq, Eq, Structural)]
pub struct CalendarDate {
    pub year: u16,
    pub month: u8,
    pub day: u8,
}

pub open spec fn is_leap_year(y: int) -> bool {
    (y % 4 == 0 && y % 100 != 0) || y % 400 == 0
}

pub open spec fn days_in_month(y: int, m: int) -> int {
    if m == 2 {
        if is_leap_year(y) { 29 } else { 28 }
    } else if m == 4 || m == 6 || m == 9 || m == 11 {
        30
    } else {
        31
    }
}

pub open spec fn valid_ymd(y: int, m: int, d: int) -> bool {
    0 <= y <= 9999 && 1 <= m <= 12 && 1 <= d <= days_in_month(y, m)
}

impl CalendarDate {
    pub open spec fn wf(self) -> bool {
        valid_ymd(self.year as int, self.month as int, self.day as int)
    }

    /// The date with the given year, month and day, if that day exists.
    pub fn new(year: u16, month: u8, day: u8) -> (r: Option<CalendarDate>)
        ensures
            r is Some <==> valid_ymd(year as int, month as int, day as int),
            r matches Some(d) ==> d.year == year && d.month == month && d.day == day,
    {
        if year > 9999 || month < 1 || month > 12 || day < 1 {
            return None;
        }
        let leap = (year % 4 == 0 && year % 100 != 0) || year % 400 == 0;
        let last: u8 = if month == 2 {
            if leap { 29 } else { 28 }
        } else if month == 4 || month == 6 || month == 9 || month == 11 {
            30
        } else {
            31
        };
        if day > last {
            None
        } else {
            Some(CalendarDate { year, month, day })
        }
    }
}

pub open spec fn digit_char(n: int) -> char {
    if n == 0 { '0' } else if n == 1 { '1' } else if n == 2 { '2' } else if n == 3 { '3' }
    else if n == 4 { '4' } else if n == 5 { '5' } else if n == 6 { '6' } else if n == 7 { '7' }
    else if n == 8 { '8' } else { '9' }
}

/// The date written `YYYY-MM-DD`.
pub open spec fn iso_text(d: CalendarDate) -> Seq<char> {
    let y = d.year as int;
    let m = d.month as int;
    let dd = d.day as int;
    seq![
        digit_char(y / 1000), digit_char(y / 100 % 10), digit_char(y / 10 % 10), digit_char(y % 10),
        '-', digit_char(m / 10), digit_char(m % 10), '-', digit_char(dd / 10), digit_char(dd % 10),
    ]
}

fn digit_str(n: u16) -> (r: &'static str)
    requires
        n < 10,
    ensures
        r@ == seq![digit_char(n as int)],
{
    proof {
        reveal_strlit("0"); reveal_strlit("1"); reveal_strlit("2"); reveal_strlit("3");
        reveal_strlit("4"); reveal_strlit("5"); reveal_strlit("6"); reveal_strlit("7");
        reveal_strlit("8"); reveal_strlit("9");
    }
    let r = if n == 0 { "0" } else if n == 1 { "1" } else if n == 2 { "2" } else if n == 3 { "3" }
    else if n == 4 { "4" } else if n == 5 { "5" } else if n == 6 { "6" } else if n == 7 { "7" }
    else if n == 8 { "8" } else { "9" };
    assert(r@ =~= seq![digit_char(n as int)]);
    r
}

fn digit_value(c: char) -> (r: Option<u16>)
    ensures
        r matches Some(v) ==> v < 10 && digit_char(v as int) == c,
        r is None ==> forall|v: int| 0 <= v < 10 ==> digit_char(v) != c,
{
    if '0' <= c && c <= '9' {
        let v = (c as u32 - '0' as u32) as u16;
        Some(v)
    } else {
        None
    }
}

proof fn lemma_digits_recombine(y: u16)
    requires
        y <= 9999,
    ensures
        1000 * (y / 1000) + 100 * (y / 100 % 10) + 10 * (y / 10 % 10) + y % 10 == y,
{
    assert(1000 * (y / 1000) + 100 * (y / 100 % 10) + 10 * (y / 10 % 10) + y % 10 == y) by (bit_vector)
        requires y <= 9999u16;
}

proof fn lemma_digits_split(a: u16, b: u16, c: u16, e: u16)
    requires
        a < 10, b < 10, c < 10, e < 10,
    ensures
        (1000 * a + 100 * b + 10 * c + e) / 1000 == a,
        (1000 * a + 100 * b + 10 * c + e) / 100 % 10 == b,
        (1000 * a + 100 * b + 10 * c + e) / 10 % 10 == c,
        (1000 * a + 100 * b + 10 * c + e) % 10 == e,
        (10 * c + e) / 10 == c,
        (10 * c + e) % 10 == e,
{
    assert((1000 * a + 100 * b + 10 * c + e) / 1000 == a) by (bit_vector)
        requires a < 10u16, b < 10u16, c < 10u16, e < 10u16;
    assert((1000 * a + 100 * b + 10 * c + e) / 100 % 10 == b) by (bit_vector)
        requires a < 10u16, b < 10u16, c < 10u16, e < 10u16;
    assert((1000 * a + 100 * b + 10 * c + e) / 10 % 10 == c) by (bit_vector)
        requires a < 10u16, b < 10u16, c < 10u16, e < 10u16;
    assert((1000 * a + 100 * b + 10 * c + e) % 10 == e) by (bit_vector)
        requires a < 10u16, b < 10u16, c < 10u16, e < 10u16;
    assert((10 * c + e) / 10 == c) by (bit_vector)
        requires c < 10u16, e < 10u16;
    assert((10 * c + e) % 10 == e) by (bit_vector)
        requires c < 10u16, e < 10u16;
}

impl CalendarDate {
    /// The date written `YYYY-MM-DD`.
    pub fn to_iso_string(&self) -> (r: String)
        requires
            self.wf(),
        ensures
            r@ == iso_text(*self),
    {
        let y = self.year;
        let m = self.month as u16;
        let d = self.day as u16;
        proof { reveal_strlit("-"); }
        let mut s = String::new();
        s.append(digit_str(y / 1000));
        s.append(digit_str(y / 100 % 10));
        s.append(digit_str(y / 10 % 10));
        s.append(digit_str(y % 10));
        s.append("-");
        s.append(digit_str(m / 10));
        s.append(digit_str(m % 10));
        s.append("-");
        s.append(digit_str(d / 10));
        s.append(digit_str(d % 10));
        assert(s@ =~= iso_text(*self));
        s
    }

    /// The date that `s` writes as `YYYY-MM-DD`, if it is one.
    pub fn parse_iso(s: &str) -> (r: Option<CalendarDate>)
        ensures
            r matches Some(d) ==> d.wf() && iso_text(d) == s@,
            forall|d: CalendarDate| d.wf() && iso_text(d) == s@ ==> r == Some(d),
    {
        if s.unicode_len() != 10 || s.get_char(4) != '-' || s.get_char(7) != '-' {
            proof {
                assert forall|d: CalendarDate| d.wf() && iso_text(d) == s@ implies false by {
                    assert(iso_text(d).len() == 10);
                    assert(iso_text(d)[4] == '-');
                    assert(iso_text(d)[7] == '-');
                }
            }
            return None;
        }
        let y0 = digit_value(s.get_char(0));
        let y1 = digit_value(s.get_char(1));
        let y2 = digit_value(s.get_char(2));
        let y3 = digit_value(s.get_char(3));
        let m0 = digit_value(s.get_char(5));
        let m1 = digit_value(s.get_char(6));
        let d0 = digit_value(s.get_char(8));
        let d1 = digit_value(s.get_char(9));
        match (y0, y1, y2, y3, m0, m1, d0, d1) {
            (Some(a), Some(b), Some(c), Some(e), Some(f), Some(g), Some(h), Some(k)) => {
                let year = 1000 * a + 100 * b + 10 * c + e;
                let month = 10 * f + g;
                let day = 10 * h + k;
                proof {
                    lemma_digits_split(a, b, c, e);
                    lemma_digits_split(0, 0, f, g);
                    lemma_digits_split(0, 0, h, k);
                }
                let r = CalendarDate::new(year, month as u8, day as u8);
                proof {
                    if r is Some {
                        assert(iso_text(r->0) =~= s@);
                    }
                    assert forall|d: CalendarDate| d.wf() && iso_text(d) == s@ implies r == Some(d) by {
                        let t = iso_text(d);
                        assert(t[0] == s@[0] && t[1] == s@[1] && t[2] == s@[2] && t[3] == s@[3]);
                        assert(t[5] == s@[5] && t[6] == s@[6] && t[8] == s@[8] && t[9] == s@[9]);
                        lemma_digit_char_injective(d.year as int / 1000, a as int);
                        lemma_digit_char_injective(d.year as int / 100 % 10, b as int);
                        lemma_digit_char_injective(d.year as int / 10 % 10, c as int);
                        lemma_digit_char_injective(d.year as int % 10, e as int);
                        lemma_digit_char_injective(d.month as int / 10, f as int);
                        lemma_digit_char_injective(d.month as int % 10, g as int);
                        lemma_digit_char_injective(d.day as int / 10, h as int);
                        lemma_digit_char_injective(d.day as int % 10, k as int);
                        lemma_digits_recombine(d.year);
                        lemma_digits_recombine(d.month as u16);
                        lemma_digits_recombine(d.day as u16);
                    }
                }
                r
            },
            _ => {
                proof {
                    assert forall|d: CalendarDate| d.wf() && iso_text(d) == s@ implies false by {
                        let t = iso_text(d);
                        assert(t[0] == s@[0] && t[1] == s@[1] && t[2] == s@[2] && t[3] == s@[3]);
                        assert(t[5] == s@[5] && t[6] == s@[6] && t[8] == s@[8] && t[9] == s@[9]);
                    }
                }
                None
            },
        }
    }
}

proof fn lemma_digit_char_injective(x: int, y: int)
    requires
        0 <= x < 10,
        0 <= y < 10,
        digit_char(x) == digit_char(y),
    ensures
        x == y,
{
}

/// Two valid dates written alike are the same date.
pub proof fn lemma_iso_text_injective(a: CalendarDate, b: CalendarDate)
    requires
        a.wf(),
        b.wf(),
        iso_text(a) == iso_text(b),
    ensures
        a == b,
{
    let (ta, tb) = (iso_text(a), iso_text(b));
    assert(ta[0] == tb[0] && ta[1] == tb[1] && ta[2] == tb[2] && ta[3] == tb[3]);
    assert(ta[5] == tb[5] && ta[6] == tb[6] && ta[8] == tb[8] && ta[9] == tb[9]);
    lemma_digit_char_injective(a.year as int / 1000, b.year as int / 1000);
    lemma_digit_char_injective(a.year as int / 100 % 10, b.year as int / 100 % 10);
    lemma_digit_char_injective(a.year as int / 10 % 10, b.year as int / 10 % 10);
    lemma_digit_char_injective(a.year as int % 10, b.year as int % 10);
    lemma_digit_char_injective(a.month as int / 10, b.month as int / 10);
    lemma_digit_char_injective(a.month as int % 10, b.month as int % 10);
    lemma_digit_char_injective(a.day as int / 10, b.day as int / 10);
    lemma_digit_char_injective(a.day as int % 10, b.day as int % 10);
    lemma_digits_recombine(a.year);
    lemma_digits_recombine(b.year);
    lemma_digits_recombine(a.month as u16);
    lemma_digits_recombine(b.month as u16);
    lemma_digits_recombine(a.day as u16);
    lemma_digits_recombine(b.day as u16);
}

} // verus!
