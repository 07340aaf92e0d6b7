//! Clock text for the lock screen and the status bar, and the deadlines
//! at which the clock has to be redrawn.
use vstd::prelude::*;

use crate::text::string_from_chars;
use crate::timer::{event_id, TimerEvent, TimerId};

verus! {

/// How often the clock text changes.
#[derive(Clone, Copy, Debug, PartialEq, Eq, Structural)]
pub enum Precision {
    Minutes,
    Seconds,
}

/// `a / b` rounded toward zero, as Rust's `/` on integers.
pub open spec fn trunc_div(a: int, b: int) -> int {
    if a >= 0 {
        a / b
    } else {
        -((-a) / b)
    }
}

/// `v` reduced into the range of `u64`, as `v as u64` does for an `i64`.
pub open spec fn wrap_u64(v: int) -> int {
    if v >= 0 {
        v
    } else {
        v + 0x1_0000_0000_0000_0000
    }
}

/// The second (since the epoch) at which the clock next changes, given
/// the current second `now`: the start of the next minute or the next
/// second.
pub open spec fn deadline_secs(precision: Precision, now: int) -> int {
    match precision {
        Precision::Minutes => wrap_u64((trunc_div(now, 60) + 1) * 60),
        Precision::Seconds => wrap_u64(now + 1),
    }
}

fn i64_as_u64(v: i64) -> (r: u64)
    ensures
        r == wrap_u64(v as int),
{
    if v >= 0 {
        v as u64
    } else {
        let m: i64 = -(v + 1);
        u64::MAX - (m as u64)
    }
}

/// The second at which a clock of `precision` has to be redrawn, `now`
/// being the current time in seconds since the epoch.
pub fn next_deadline(precision: Precision, now: i64) -> (r: u64)
    requires
        now < i64::MAX - 60,
    ensures
        r == deadline_secs(precision, now as int),
{
    match precision {
        Precision::Minutes => {
            let q: i64 = if now >= 0 {
                now / 60
            } else {
                let a: i64 = -(now + 1);
                let q0: i64 = if a % 60 == 59 { a / 60 + 1 } else { a / 60 };
                assert(q0 == (a + 1) / 60);
                -q0
            };
            proof {
                if now < 0 {
                    assert(-(now + 1) + 1 == -now);
                }
            }
            assert(q == trunc_div(now as int, 60));
            assert(-153722867280912930 <= q <= 153722867280912930) by (nonlinear_arith)
                requires
                    q == trunc_div(now as int, 60),
                    i64::MIN <= now <= i64::MAX,
            ;
            i64_as_u64((q + 1) * 60)
        },
        Precision::Seconds => i64_as_u64(now + 1),
    }
}

/// The local time `(hour, minute, second, day, month)` when `ev` is the
/// tick of the clock timer `id`; `None` for any other timer.
pub fn try_clock_tick(id: Option<TimerId>, ev: &TimerEvent, local: (u32, u32, u32, u32, u32)) -> (r: Option<(u32, u32, u32, u32, u32)>)
    ensures
        r == (if id == Some(event_id(*ev)) { Some(local) } else { None::<(u32, u32, u32, u32, u32)> }),
{
    let eid = ev.id();
    match id {
        Some(t) => if t.0 == eid.0 {
            Some(local)
        } else {
            None
        },
        None => None,
    }
}

/// The character of decimal digit `d`.
pub open spec fn digit(d: int) -> char {
    (d + 48) as char
}

/// The decimal digits of `n`, without leading zeros.
pub open spec fn decimal(n: nat) -> Seq<char>
    decreases n,
{
    if n < 10 {
        seq![digit(n as int)]
    } else {
        decimal(n / 10).push(digit((n % 10) as int))
    }
}

/// `n` with at least two digits (`{:02}`).
pub open spec fn pad2(n: nat) -> Seq<char> {
    if n < 10 {
        seq!['0', digit(n as int)]
    } else {
        decimal(n)
    }
}

/// The hour on a 12-hour dial: 0 and 12 show as 12.
pub open spec fn hour12(h: int) -> int {
    (h + 11) % 12 + 1
}

/// `AM` before noon, `PM` from noon on.
pub open spec fn am_pm(h: int) -> Seq<char> {
    if h < 12 {
        seq!['A', 'M']
    } else {
        seq!['P', 'M']
    }
}

fn digit_char(d: u32) -> (c: char)
    requires
        d < 10,
    ensures
        c == digit(d as int),
{
    let b: u8 = (d as u8) + 48;
    b as char
}

/// Appends the decimal digits of `n`.
fn push_decimal(out: &mut Vec<char>, n: u32)
    ensures
        final(out)@ == old(out)@ + decimal(n as nat),
    decreases n,
{
    if n < 10 {
        out.push(digit_char(n));
        assert(out@ =~= old(out)@ + decimal(n as nat));
    } else {
        push_decimal(out, n / 10);
        out.push(digit_char(n % 10));
        assert(out@ =~= old(out)@ + decimal(n as nat));
    }
}

/// Appends `n` with at least two digits.
fn push_pad2(out: &mut Vec<char>, n: u32)
    ensures
        final(out)@ == old(out)@ + pad2(n as nat),
{
    if n < 10 {
        out.push('0');
        out.push(digit_char(n));
        assert(out@ =~= old(out)@ + pad2(n as nat));
    } else {
        push_decimal(out, n);
    }
}

fn push_am_pm(out: &mut Vec<char>, h: u32)
    ensures
        final(out)@ == old(out)@ + am_pm(h as int),
{
    if h < 12 {
        out.push('A');
    } else {
        out.push('P');
    }
    out.push('M');
    assert(out@ =~= old(out)@ + am_pm(h as int));
}

/// The clock text: `HH:MM` on a 24-hour dial, else `HH:MM AM` or
/// `HH:MM PM` on a 12-hour dial.
pub open spec fn clock_text(h: int, m: int, format_24h: bool) -> Seq<char> {
    if format_24h {
        pad2(h as nat) + seq![':'] + pad2(m as nat)
    } else {
        pad2(hour12(h) as nat) + seq![':'] + pad2(m as nat) + seq![' '] + am_pm(h)
    }
}

/// The clock changed its text.
#[derive(Debug)]
pub struct ClockChanged;

/// The local time `(hour, minute, second, day, month)` was read.
#[derive(Debug)]
pub struct ClockUpdate(pub u32, pub u32, pub u32, pub u32, pub u32);

/// The lock screen's clock: its text and dial.
#[derive(Debug)]
pub struct ClockWidget {
    pub time_str: String,
    pub format_24h: bool,
}

impl ClockWidget {
    /// A 24-hour clock showing `h:m`.
    pub fn new(h: u32, m: u32) -> (w: Self)
        ensures
            w.format_24h,
            w.time_str@ == clock_text(h as int, m as int, true),
    {
        let mut w = ClockWidget { time_str: String::new(), format_24h: true };
        w.time_str = w.formatted_text(h, m);
        w
    }

    /// The clock shows minutes.
    pub fn precision(&self) -> (p: Precision)
        ensures
            p == Precision::Minutes,
    {
        Precision::Minutes
    }

    /// The text for `h:m` on this clock's dial.
    pub fn formatted_text(&self, h: u32, m: u32) -> (s: String)
        requires
            self.format_24h || h <= u32::MAX - 11,
        ensures
            s@ == clock_text(h as int, m as int, self.format_24h),
    {
        let mut cs: Vec<char> = Vec::new();
        if self.format_24h {
            push_pad2(&mut cs, h);
            cs.push(':');
            push_pad2(&mut cs, m);
        } else {
            let hour = (h + 11) % 12 + 1;
            push_pad2(&mut cs, hour);
            cs.push(':');
            push_pad2(&mut cs, m);
            cs.push(' ');
            push_am_pm(&mut cs, h);
        }
        assert(cs@ =~= clock_text(h as int, m as int, self.format_24h));
        string_from_chars(cs)
    }

    /// Shows the time of `ev`; reports a change when the text differs.
    pub fn update(&mut self, ev: &ClockUpdate) -> (r: Option<ClockChanged>)
        requires
            old(self).format_24h || ev.0 <= u32::MAX - 11,
        ensures
            final(self).format_24h == old(self).format_24h,
            final(self).time_str@ == clock_text(ev.0 as int, ev.1 as int, old(self).format_24h),
            r is Some <==> old(self).time_str@ != clock_text(ev.0 as int, ev.1 as int, old(self).format_24h),
    {
        let new = self.formatted_text(ev.0, ev.1);
        if self.time_str != new {
            self.time_str = new;
            return Some(ClockChanged);
        }
        None
    }
}

/// The three-letter name of month `mon` (0 is January).
pub open spec fn month_name(mon: int) -> Seq<char> {
    if mon == 0 {
        seq!['J', 'a', 'n']
    } else if mon == 1 {
        seq!['F', 'e', 'b']
    } else if mon == 2 {
        seq!['M', 'a', 'r']
    } else if mon == 3 {
        seq!['A', 'p', 'r']
    } else if mon == 4 {
        seq!['M', 'a', 'y']
    } else if mon == 5 {
        seq!['J', 'u', 'n']
    } else if mon == 6 {
        seq!['J', 'u', 'l']
    } else if mon == 7 {
        seq!['A', 'u', 'g']
    } else if mon == 8 {
        seq!['S', 'e', 'p']
    } else if mon == 9 {
        seq!['O', 'c', 't']
    } else if mon == 10 {
        seq!['N', 'o', 'v']
    } else {
        seq!['D', 'e', 'c']
    }
}

fn push_month(out: &mut Vec<char>, mon: u32)
    requires
        mon < 12,
    ensures
        final(out)@ == old(out)@ + month_name(mon as int),
{
    let (a, b, c) = if mon == 0 {
        ('J', 'a', 'n')
    } else if mon == 1 {
        ('F', 'e', 'b')
    } else if mon == 2 {
        ('M', 'a', 'r')
    } else if mon == 3 {
        ('A', 'p', 'r')
    } else if mon == 4 {
        ('M', 'a', 'y')
    } else if mon == 5 {
        ('J', 'u', 'n')
    } else if mon == 6 {
        ('J', 'u', 'l')
    } else if mon == 7 {
        ('A', 'u', 'g')
    } else if mon == 8 {
        ('S', 'e', 'p')
    } else if mon == 9 {
        ('O', 'c', 't')
    } else if mon == 10 {
        ('N', 'o', 'v')
    } else {
        ('D', 'e', 'c')
    };
    out.push(a);
    out.push(b);
    out.push(c);
    assert(out@ =~= old(out)@ + month_name(mon as int));
}

/// The English month abbreviations, January first.
pub open spec fn english_months() -> Seq<Seq<char>> {
    seq![
        seq!['J', 'a', 'n'], seq!['F', 'e', 'b'], seq!['M', 'a', 'r'], seq!['A', 'p', 'r'],
        seq!['M', 'a', 'y'], seq!['J', 'u', 'n'], seq!['J', 'u', 'l'], seq!['A', 'u', 'g'],
        seq!['S', 'e', 'p'], seq!['O', 'c', 't'], seq!['N', 'o', 'v'], seq!['D', 'e', 'c'],
    ]
}

/// Month `mon` is named by its entry in the English abbreviations,
/// January first; every name has three letters and no two months share
/// one.
pub proof fn lemma_month_names(m1: int, m2: int)
    requires
        0 <= m1 < 12,
        0 <= m2 < 12,
    ensures
        month_name(m1) == english_months()[m1],
        month_name(m1).len() == 3,
        m1 != m2 ==> month_name(m1) != month_name(m2),
{
    let n1 = month_name(m1);
    let n2 = month_name(m2);
    assert(n1 =~= english_months()[m1]);
    if m1 != m2 {
        assert(n1[0] != n2[0] || n1[1] != n2[1] || n1[2] != n2[2]);
    }
}

/// The status bar tells months apart: the same time and day in two
/// different months read differently.
pub proof fn lemma_status_text_tells_months_apart(h: int, m: int, day: int, m1: int, m2: int)
    requires
        0 <= m1 < 12,
        0 <= m2 < 12,
        m1 != m2,
    ensures
        status_clock_text(h, m, day, m1) != status_clock_text(h, m, day, m2),
{
    lemma_month_names(m1, m2);
    let pre = decimal(day as nat) + seq![' '];
    let t1 = status_clock_text(h, m, day, m1);
    let t2 = status_clock_text(h, m, day, m2);
    if t1 == t2 {
        assert forall|k: int| 0 <= k < 3 implies month_name(m1)[k] == month_name(m2)[k] by {
            assert(t1[pre.len() + k] == month_name(m1)[k]);
            assert(t2[pre.len() + k] == month_name(m2)[k]);
        }
        lemma_month_names(m2, m1);
        assert(month_name(m1) =~= month_name(m2));
    }
}

/// The status bar's clock text: `D Mon  HH:MM AM` on a 12-hour dial.
pub open spec fn status_clock_text(h: int, m: int, day: int, mon: int) -> Seq<char> {
    decimal(day as nat) + seq![' '] + month_name(mon) + seq![' ', ' '] + pad2(hour12(h) as nat) + seq![':']
        + pad2(m as nat) + seq![' '] + am_pm(h)
}

/// The status bar's clock text for `h:m` on day `day` of month `mon`
/// (0 is January).
pub fn format_clock(h: u32, m: u32, day: u32, mon: u32) -> (s: String)
    requires
        mon < 12,
        h <= u32::MAX - 11,
    ensures
        s@ == status_clock_text(h as int, m as int, day as int, mon as int),
{
    let mut cs: Vec<char> = Vec::new();
    push_decimal(&mut cs, day);
    cs.push(' ');
    push_month(&mut cs, mon);
    cs.push(' ');
    cs.push(' ');
    let hour = (h + 11) % 12 + 1;
    push_pad2(&mut cs, hour);
    cs.push(':');
    push_pad2(&mut cs, m);
    cs.push(' ');
    push_am_pm(&mut cs, h);
    assert(cs@ =~= status_clock_text(h as int, m as int, day as int, mon as int));
    string_from_chars(cs)
}

/// On a 24-hour dial every valid time reads as five characters, `HH:MM`.
pub proof fn lemma_clock_text_24h_len(h: int, m: int)
    requires
        0 <= h < 24,
        0 <= m < 60,
    ensures
        clock_text(h, m, true).len() == 5,
        clock_text(h, m, true)[2] == ':',
{
    lemma_pad2_len(h as nat);
    lemma_pad2_len(m as nat);
}

/// A number below 100 shows as its tens digit and then its units digit.
pub proof fn lemma_pad2_digits(n: nat)
    requires
        n < 100,
    ensures
        pad2(n) == seq![digit((n / 10) as int), digit((n % 10) as int)],
{
    if n >= 10 {
        assert(decimal(n / 10) == seq![digit((n / 10) as int)]);
        assert(pad2(n) =~= seq![digit((n / 10) as int), digit((n % 10) as int)]);
    } else {
        assert(n / 10 == 0);
        assert(pad2(n) =~= seq![digit((n / 10) as int), digit((n % 10) as int)]);
    }
}

/// On the 12-hour dial an hour of the day shows as 1 to 12, the same hour
/// modulo 12 (so midnight and noon show as 12); the hours 1 to 12 show as
/// themselves.
pub proof fn lemma_hour12(h: int)
    requires
        0 <= h < 24,
    ensures
        1 <= hour12(h) <= 12,
        hour12(h) % 12 == h % 12,
        1 <= h <= 12 ==> hour12(h) == h,
{
}

proof fn lemma_pad2_len(n: nat)
    requires
        n < 100,
    ensures
        pad2(n).len() == 2,
{
    if n >= 10 {
        assert(decimal(n / 10).len() == 1);
    }
}

} // verus!
