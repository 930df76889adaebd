//! The report of one test window: its mean current and the line that
//! announces it.

use vstd::prelude::*;
use vstd::arithmetic::div_mod::lemma_fundamental_div_mod;
use vstd::arithmetic::div_mod::lemma_fundamental_div_mod_converse;
use vstd::arithmetic::div_mod::lemma_mod_bound;
use vstd::arithmetic::div_mod::lemma_multiply_divide_lt;

verus! {

/// A report as mathematical values. The window's mean current is
/// `total / samples`.
pub struct ReportModel {
    /// 1-based rank of the window among the reported windows.
    pub index: nat,
    /// Sum of the window's samples, in picoamperes.
    pub total: int,
    /// Number of samples in the window.
    pub samples: nat,
}

/// `total` can be the sum of `samples` currents of 64 bits each.
pub open spec fn within_sample_range(total: int, samples: nat) -> bool {
    -(samples * 0x8000_0000_0000_0000) <= total <= samples * 0x7fff_ffff_ffff_ffff
}

/// The integer nearest to `numerator / denominator`, halves rounded away
/// from zero.
pub open spec fn rounded_quotient(numerator: int, denominator: int) -> int
    recommends
        denominator > 0,
{
    if numerator >= 0 {
        (2 * numerator + denominator) / (2 * denominator)
    } else {
        -((denominator - 2 * numerator) / (2 * denominator))
    }
}

/// The rounded quotient is a nearest integer: it is off the exact quotient
/// by half a unit at most.
pub proof fn lemma_rounded_quotient_nearest(numerator: int, denominator: int)
    requires
        denominator > 0,
    ensures
        -denominator <= 2 * (rounded_quotient(numerator, denominator) * denominator - numerator)
            <= denominator,
{
    let d = denominator;
    if numerator >= 0 {
        let x = 2 * numerator + d;
        lemma_fundamental_div_mod(x, 2 * d);
        lemma_mod_bound(x, 2 * d);
        assert(2 * ((x / (2 * d)) * d - numerator) == d - x % (2 * d)) by (nonlinear_arith)
            requires
                x == (2 * d) * (x / (2 * d)) + x % (2 * d),
                x == 2 * numerator + d,
        ;
    } else {
        let x = d - 2 * numerator;
        lemma_fundamental_div_mod(x, 2 * d);
        lemma_mod_bound(x, 2 * d);
        assert(2 * ((-(x / (2 * d))) * d - numerator) == x % (2 * d) - d) by (nonlinear_arith)
            requires
                x == (2 * d) * (x / (2 * d)) + x % (2 * d),
                x == d - 2 * numerator,
        ;
    }
}

/// Picoamperes in one unit of the last printed decimal, 0.00000001 mA.
pub const PICO_AMPS_PER_PRINTED_UNIT: u64 = 10;

/// Printed units in one milliampere.
pub const PRINTED_UNITS_PER_MILLI_AMP: u64 = 100_000_000;

/// The character of one decimal digit.
pub open spec fn digit_char(digit: nat) -> char {
    if digit == 0 {
        '0'
    } else if digit == 1 {
        '1'
    } else if digit == 2 {
        '2'
    } else if digit == 3 {
        '3'
    } else if digit == 4 {
        '4'
    } else if digit == 5 {
        '5'
    } else if digit == 6 {
        '6'
    } else if digit == 7 {
        '7'
    } else if digit == 8 {
        '8'
    } else {
        '9'
    }
}

/// `number` in decimal, without leading zeros.
pub open spec fn decimal(number: nat) -> Seq<char>
    decreases number,
{
    if number < 10 {
        seq![digit_char(number)]
    } else {
        decimal(number / 10).push(digit_char(number % 10))
    }
}

/// The last `width` decimal digits of `number`, with leading zeros.
pub open spec fn zero_padded(number: nat, width: nat) -> Seq<char>
    decreases width,
{
    if width == 0 {
        Seq::empty()
    } else {
        zero_padded(number / 10, (width - 1) as nat).push(digit_char(number % 10))
    }
}

/// A current of `units` hundred-millionths of a milliampere, written in
/// milliamperes with eight decimals.
pub open spec fn milli_amps_text(units: int) -> Seq<char> {
    let magnitude = if units < 0 {
        (-units) as nat
    } else {
        units as nat
    };
    let sign = if units < 0 {
        seq!['-']
    } else {
        Seq::empty()
    };
    sign + decimal(magnitude / 100_000_000) + seq!['.'] + zero_padded(magnitude % 100_000_000, 8)
}

impl ReportModel {
    /// Index, sample count and total are those of a window of 64-bit
    /// samples.
    pub open spec fn valid(self) -> bool {
        &&& self.index >= 1
        &&& self.samples >= 1
        &&& within_sample_range(self.total, self.samples)
    }

    /// The window's mean current in picoamperes, rounded to the nearest.
    pub open spec fn mean_pico_amps(self) -> int {
        rounded_quotient(self.total, self.samples as int)
    }

    /// The window's mean current in hundred-millionths of a milliampere,
    /// rounded to the nearest.
    pub open spec fn mean_printed_units(self) -> int {
        rounded_quotient(self.total, PICO_AMPS_PER_PRINTED_UNIT * self.samples)
    }

    /// The line that announces the report.
    pub open spec fn log_line(self) -> Seq<char> {
        "Average current for report "@ + decimal(self.index) + ": "@ + milli_amps_text(
            self.mean_printed_units(),
        ) + " mA"@
    }
}

/// Mean current of one completed test window.
#[derive(Clone, Copy, Debug)]
pub struct Report {
    index: u64,
    total_pico_amps: i128,
    samples: u64,
}

impl View for Report {
    type V = ReportModel;

    closed spec fn view(&self) -> ReportModel {
        ReportModel {
            index: self.index as nat,
            total: self.total_pico_amps as int,
            samples: self.samples as nat,
        }
    }
}

/// The model of an optional report.
pub open spec fn report_model(report: Option<Report>) -> Option<ReportModel> {
    match report {
        Some(r) => Some(r@),
        None => None,
    }
}

/// The models of a list of reports, in order.
pub open spec fn report_models(reports: Seq<Report>) -> Seq<ReportModel> {
    reports.map_values(|r: Report| r@)
}

/// The text of one decimal digit.
fn digit_text(digit: u64) -> (text: &'static str)
    requires
        digit < 10,
    ensures
        text@ == seq![digit_char(digit as nat)],
{
    proof {
        reveal_strlit("0");
        reveal_strlit("1");
        reveal_strlit("2");
        reveal_strlit("3");
        reveal_strlit("4");
        reveal_strlit("5");
        reveal_strlit("6");
        reveal_strlit("7");
        reveal_strlit("8");
        reveal_strlit("9");
    }
    let text = if digit == 0 {
        "0"
    } else if digit == 1 {
        "1"
    } else if digit == 2 {
        "2"
    } else if digit == 3 {
        "3"
    } else if digit == 4 {
        "4"
    } else if digit == 5 {
        "5"
    } else if digit == 6 {
        "6"
    } else if digit == 7 {
        "7"
    } else if digit == 8 {
        "8"
    } else {
        "9"
    };
    assert(text@ =~= seq![digit_char(digit as nat)]);
    text
}

/// Appends `number` in decimal to `out`.
fn push_decimal(out: &mut String, number: u64)
    ensures
        final(out)@ == old(out)@ + decimal(number as nat),
    decreases number,
{
    if number >= 10 {
        push_decimal(out, number / 10);
    }
    out.append(digit_text(number % 10));
    assert(out@ =~= old(out)@ + decimal(number as nat));
}

/// Appends the last `width` decimal digits of `number` to `out`.
fn push_zero_padded(out: &mut String, number: u64, width: u8)
    ensures
        final(out)@ == old(out)@ + zero_padded(number as nat, width as nat),
    decreases width,
{
    if width > 0 {
        push_zero_padded(out, number / 10, width - 1);
        out.append(digit_text(number % 10));
    }
    assert(out@ =~= old(out)@ + zero_padded(number as nat, width as nat));
}

/// Divides and rounds to the nearest, halves upwards.
fn rounded_div(numerator: u128, denominator: u128) -> (quotient: u128)
    requires
        denominator > 0,
        numerator <= 0x8000_0000_0000_0000_0000_0000_0000_0000,
    ensures
        quotient == rounded_quotient(numerator as int, denominator as int),
{
    let whole = numerator / denominator;
    let rest = numerator % denominator;
    proof {
        let n = numerator as int;
        let d = denominator as int;
        lemma_fundamental_div_mod(n, d);
        lemma_mod_bound(n, d);
        let w = whole as int;
        assert(d * w >= w) by (nonlinear_arith)
            requires
                d >= 1,
                w >= 0,
        ;
        if rest >= denominator - rest {
            assert(2 * n + d == (whole + 1) * (2 * d) + (2 * rest - d)) by (nonlinear_arith)
                requires
                    n == d * whole + rest,
            ;
            lemma_fundamental_div_mod_converse(2 * n + d, 2 * d, whole + 1, 2 * rest - d);
        } else {
            assert(2 * n + d == whole * (2 * d) + (2 * rest + d)) by (nonlinear_arith)
                requires
                    n == d * whole + rest,
            ;
            lemma_fundamental_div_mod_converse(2 * n + d, 2 * d, whole as int, 2 * rest + d);
        }
    }
    if rest >= denominator - rest {
        whole + 1
    } else {
        whole
    }
}

impl Report {
    #[verifier::type_invariant]
    spec fn well_formed(self) -> bool {
        self@.valid()
    }

    /// The report of the window of rank `index` with `samples` samples
    /// that sum to `total_pico_amps`.
    pub(crate) fn new(index: u64, total_pico_amps: i128, samples: u64) -> (report: Report)
        requires
            (ReportModel {
                index: index as nat,
                total: total_pico_amps as int,
                samples: samples as nat,
            }).valid(),
        ensures
            report@ == (ReportModel {
                index: index as nat,
                total: total_pico_amps as int,
                samples: samples as nat,
            }),
        no_unwind
    {
        Report { index, total_pico_amps, samples }
    }

    /// 1-based rank of the window among the reported windows.
    pub fn index(&self) -> (index: u64)
        ensures
            index == self@.index,
            self@.valid(),
    {
        proof {
            use_type_invariant(self);
        }
        self.index
    }

    /// Sum of the window's samples, in picoamperes.
    pub fn total_pico_amps(&self) -> (total: i128)
        ensures
            total == self@.total,
            self@.valid(),
    {
        proof {
            use_type_invariant(self);
        }
        self.total_pico_amps
    }

    /// Number of samples in the window.
    pub fn samples(&self) -> (samples: u64)
        ensures
            samples == self@.samples,
            self@.valid(),
    {
        proof {
            use_type_invariant(self);
        }
        self.samples
    }

    /// Whether the total is below zero.
    fn is_negative(&self) -> (negative: bool)
        ensures
            negative == (self@.total < 0),
    {
        self.total_pico_amps < 0
    }

    /// The size of the total, without its sign.
    fn magnitude(&self) -> (magnitude: u128)
        ensures
            self@.total >= 0 ==> magnitude == self@.total,
            self@.total < 0 ==> magnitude == -self@.total,
            magnitude <= self@.samples * 0x8000_0000_0000_0000,
            self@.total >= 0 ==> magnitude <= self@.samples * 0x7fff_ffff_ffff_ffff,
    {
        proof {
            use_type_invariant(self);
        }
        if self.total_pico_amps >= 0 {
            self.total_pico_amps as u128
        } else {
            (-self.total_pico_amps) as u128
        }
    }

    /// The window's mean current in picoamperes, rounded to the nearest
    /// with halves away from zero.
    pub fn mean_pico_amps(&self) -> (mean: i64)
        ensures
            mean == self@.mean_pico_amps(),
    {
        proof {
            use_type_invariant(self);
        }
        let magnitude = self.magnitude();
        let samples = self.samples as u128;
        let rounded = rounded_div(magnitude, samples);
        proof {
            let m = magnitude as int;
            let s = samples as int;
            if self@.total >= 0 {
                assert(2 * m + s < (2 * s) * 0x8000_0000_0000_0000) by (nonlinear_arith)
                    requires
                        m <= s * 0x7fff_ffff_ffff_ffff,
                        s >= 1,
                ;
                lemma_multiply_divide_lt(2 * m + s, 2 * s, 0x8000_0000_0000_0000);
            } else {
                assert(2 * m + s < (2 * s) * 0x8000_0000_0000_0001) by (nonlinear_arith)
                    requires
                        m <= s * 0x8000_0000_0000_0000,
                        s >= 1,
                ;
                lemma_multiply_divide_lt(2 * m + s, 2 * s, 0x8000_0000_0000_0001);
            }
        }
        if !self.is_negative() {
            rounded as i64
        } else if rounded == 0x8000_0000_0000_0000 {
            i64::MIN
        } else {
            -(rounded as i64)
        }
    }

    /// The size of the window's mean current in hundred-millionths of a
    /// milliampere, rounded to the nearest.
    fn mean_printed_magnitude(&self) -> (units: u64)
        ensures
            self@.total >= 0 ==> units == self@.mean_printed_units(),
            self@.total < 0 ==> units == -self@.mean_printed_units(),
    {
        proof {
            use_type_invariant(self);
        }
        let magnitude = self.magnitude();
        let denominator = (self.samples as u128) * (PICO_AMPS_PER_PRINTED_UNIT as u128);
        let rounded = rounded_div(magnitude, denominator);
        proof {
            let m = magnitude as int;
            let d = denominator as int;
            assert(2 * m + d < (2 * d) * 0x8000_0000_0000_0000) by (nonlinear_arith)
                requires
                    m <= self@.samples * 0x8000_0000_0000_0000,
                    d == self@.samples * 10,
                    self@.samples >= 1,
            ;
            lemma_multiply_divide_lt(2 * m + d, 2 * d, 0x8000_0000_0000_0000);
        }
        rounded as u64
    }

    /// The window's mean current in milliamperes with eight decimals.
    pub fn milli_amps(&self) -> (text: String)
        ensures
            text@ == milli_amps_text(self@.mean_printed_units()),
    {
        let units = self.mean_printed_magnitude();
        let mut text = String::new();
        proof {
            reveal_strlit("-");
            reveal_strlit(".");
        }
        if self.is_negative() && units > 0 {
            text.append("-");
        }
        push_decimal(&mut text, units / PRINTED_UNITS_PER_MILLI_AMP);
        text.append(".");
        push_zero_padded(&mut text, units % PRINTED_UNITS_PER_MILLI_AMP, 8);
        assert(text@ =~= milli_amps_text(self@.mean_printed_units()));
        text
    }

    /// The line that announces the report.
    pub fn log_line(&self) -> (line: String)
        ensures
            line@ == self@.log_line(),
    {
        let mut line = "Average current for report ".to_owned();
        push_decimal(&mut line, self.index());
        line.append(": ");
        let current = self.milli_amps();
        line.append(current.as_str());
        line.append(" mA");
        line
    }
}

} // verus!
