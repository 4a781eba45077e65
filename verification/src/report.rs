//! The progress line and the text of its parts.

use vstd::prelude::*;
use vstd::string::StringExecFns;

verus! {

/// What one progress line shows.
#[derive(Clone, Copy, Debug, PartialEq, Eq)]
pub struct Report {
    /// The bytes seen since the run started.
    pub total_bytes: u64,
    /// The whole seconds since the run started.
    pub elapsed_secs: u64,
    /// The bytes per second at which the last chunk arrived.
    pub rate: u128,
}

/// The character of a decimal digit.
pub open spec fn digit_char(digit: nat) -> char {
    if digit == 0 {
        '0'
    } else if digit == 1 {
        '1'
    } else if digit == 2 {
        '2'
    } else if digit == 3 {
        '3'
    } else if digit == 4 {
        '4'
    } else if digit == 5 {
        '5'
    } else if digit == 6 {
        '6'
    } else if digit == 7 {
        '7'
    } else if digit == 8 {
        '8'
    } else {
        '9'
    }
}

/// The decimal numeral of a number, without leading zeros.
pub open spec fn decimal(n: nat) -> Seq<char>
    decreases n,
{
    if n < 10 {
        seq![digit_char(n)]
    } else {
        decimal(n / 10).push(digit_char(n % 10))
    }
}

/// The numeral of a number below a hundred, in two digits.
pub open spec fn two_digits(n: nat) -> Seq<char> {
    seq![digit_char(n / 10 % 10), digit_char(n % 10)]
}

/// A number of seconds as hours, minutes and seconds: the hours as they
/// are, then the minutes and the seconds in two digits each, with colons
/// between them.
pub open spec fn time_text(secs: u64) -> Seq<char> {
    decimal((secs / 3600) as nat) + seq![':'] + two_digits((secs % 3600 / 60) as nat) + seq![':']
        + two_digits((secs % 60) as nat)
}

/// The text of a decimal digit.
fn digit_str(digit: u8) -> (text: &'static str)
    requires
        digit < 10,
    ensures
        text@ == seq![digit_char(digit as nat)],
{
    proof {
        reveal_strlit("0");
        reveal_strlit("1");
        reveal_strlit("2");
        reveal_strlit("3");
        reveal_strlit("4");
        reveal_strlit("5");
        reveal_strlit("6");
        reveal_strlit("7");
        reveal_strlit("8");
        reveal_strlit("9");
    }
    let text: &'static str = match digit {
        0 => "0",
        1 => "1",
        2 => "2",
        3 => "3",
        4 => "4",
        5 => "5",
        6 => "6",
        7 => "7",
        8 => "8",
        _ => "9",
    };
    assert(text@ =~= seq![digit_char(digit as nat)]);
    text
}

/// Appends the decimal numeral of `n` to `out`.
fn push_decimal(out: &mut String, n: u128)
    ensures
        final(out)@ == old(out)@ + decimal(n as nat),
    decreases n,
{
    if n >= 10 {
        push_decimal(out, n / 10);
    }
    let digit: u8 = (n % 10) as u8;
    out.append(digit_str(digit));
    assert(final(out)@ =~= old(out)@ + decimal(n as nat));
}

/// Appends the numeral of `n` in two digits to `out`.
fn push_two_digits(out: &mut String, n: u64)
    requires
        n < 100,
    ensures
        final(out)@ == old(out)@ + two_digits(n as nat),
{
    let tens: u8 = (n / 10) as u8;
    let units: u8 = (n % 10) as u8;
    out.append(digit_str(tens));
    out.append(digit_str(units));
    assert(final(out)@ =~= old(out)@ + two_digits(n as nat));
}

/// Appends the hours, minutes and seconds of `secs` to `out`.
fn push_time(out: &mut String, secs: u64)
    ensures
        final(out)@ == old(out)@ + time_text(secs),
{
    proof {
        reveal_strlit(":");
    }
    let hours: u64 = secs / 3600;
    let left: u64 = secs % 3600;
    let minutes: u64 = left / 60;
    let seconds: u64 = left % 60;
    assert(seconds == secs % 60) by (nonlinear_arith)
        requires
            seconds == (secs % 3600) % 60,
    ;
    let ghost colon: Seq<char> = seq![':'];
    let ghost h: Seq<char> = decimal(hours as nat);
    let ghost m: Seq<char> = two_digits(minutes as nat);
    let ghost s: Seq<char> = two_digits(seconds as nat);
    assert(":"@ =~= colon);
    push_decimal(out, hours as u128);
    out.append(":");
    push_two_digits(out, minutes);
    out.append(":");
    push_two_digits(out, seconds);
    assert(out@ == old(out)@ + h + colon + m + colon + s);
    assert(time_text(secs) == h + colon + m + colon + s);
    assert(old(out)@ + h + colon + m + colon + s =~= old(out)@ + (h + colon + m + colon + s));
}

/// The decimal numeral of `n`.
pub fn decimal_string(n: u128) -> (text: String)
    ensures
        text@ == decimal(n as nat),
{
    let mut text = String::new();
    push_decimal(&mut text, n);
    assert(text@ =~= decimal(n as nat));
    text
}

/// A duration in seconds as a text of hours, minutes and seconds.
pub trait TimeOut {
    /// The text that `as_time` gives.
    spec fn as_time_text(&self) -> Seq<char>;

    /// Renders the duration as `H:MM:SS`.
    fn as_time(&self) -> (text: String)
        ensures
            text@ == self.as_time_text(),
    ;
}

impl TimeOut for u64 {
    open spec fn as_time_text(&self) -> Seq<char> {
        time_text(*self)
    }

    fn as_time(&self) -> (text: String) {
        let mut text = String::new();
        push_time(&mut text, *self);
        assert(text@ =~= time_text(*self));
        text
    }
}

impl Report {
    /// The first part of the line: the total and a space.
    pub open spec fn bytes_part(self) -> Seq<char> {
        decimal(self.total_bytes as nat) + seq![' ']
    }

    /// The second part of the line: the time since the start.
    pub open spec fn elapsed_part(self) -> Seq<char> {
        time_text(self.elapsed_secs)
    }

    /// The third part of the line: the rate and its unit, in brackets
    /// after a space.
    pub open spec fn rate_part(self) -> Seq<char> {
        seq![' ', '['] + decimal(self.rate as nat) + seq![' ', 'b', '/', 's', ']']
    }

    /// The whole line: total, time and rate.
    pub open spec fn text(self) -> Seq<char> {
        self.bytes_part() + self.elapsed_part() + self.rate_part()
    }

    /// Renders the total of the line, with the space that follows it.
    pub fn bytes_text(&self) -> (text: String)
        ensures
            text@ == self.bytes_part(),
    {
        proof {
            reveal_strlit(" ");
        }
        let mut text = String::new();
        push_decimal(&mut text, self.total_bytes as u128);
        text.append(" ");
        assert(" "@ =~= seq![' ']);
        assert(text@ =~= self.bytes_part());
        text
    }

    /// Renders the time of the line.
    pub fn elapsed_text(&self) -> (text: String)
        ensures
            text@ == self.elapsed_part(),
    {
        self.elapsed_secs.as_time()
    }

    /// Renders the rate of the line, with its brackets and its unit.
    pub fn rate_text(&self) -> (text: String)
        ensures
            text@ == self.rate_part(),
    {
        proof {
            reveal_strlit(" [");
            reveal_strlit(" b/s]");
        }
        let mut text = String::new();
        text.append(" [");
        push_decimal(&mut text, self.rate);
        text.append(" b/s]");
        assert(" ["@ =~= seq![' ', '[']);
        assert(" b/s]"@ =~= seq![' ', 'b', '/', 's', ']']);
        assert(text@ =~= self.rate_part());
        text
    }

    /// Renders the whole progress line: the total, the time since the start
    /// and the rate.
    pub fn line(&self) -> (text: String)
        ensures
            text@ == self.text(),
    {
        let mut text = self.bytes_text();
        let elapsed = self.elapsed_text();
        let rate = self.rate_text();
        text.append(elapsed.as_str());
        text.append(rate.as_str());
        text
    }
}

} // verus!
