//! Exact frame formats, Q32 positions, rational rates and timecode labels.
use vstd::prelude::*;

use crate::arith::{
    abs, expand_frame, gcd, lemma_clock_decompose, lemma_collapse, lemma_expand,
    lemma_gcd_reduced, lemma_trunc_div_scaled, trunc_div, trunc_rem,
};
use crate::text::{decimal2, push_decimal2, push_str};
use crate::Error;

verus! {

/// One frame in Q32 fixed point.
pub open spec fn unit() -> int {
    4294967296
}

/// Whether `(numerator, denominator, drop_frame)` names one of the supported formats.
pub open spec fn supported_format(numerator: u32, denominator: u32, drop_frame: bool) -> bool {
    let standard = (denominator == 1001 && (numerator == 24000 || numerator == 30000
        || numerator == 48000 || numerator == 60000)) || (denominator == 1 && (numerator == 24
        || numerator == 25 || numerator == 30 || numerator == 48 || numerator == 50
        || numerator == 60));
    standard && (drop_frame ==> denominator == 1001 && (numerator == 30000 || numerator == 60000))
}

/// Exact frame rate; fields are private to preserve arithmetic invariants.
#[derive(Clone, Copy, Debug, PartialEq, Eq, Structural)]
pub struct FrameFormat {
    numerator: u32,
    denominator: u32,
    drop_frame: bool,
}

/// A timecode label; hours wrap at 24.
#[derive(Clone, Copy, Debug, PartialEq, Eq, Structural)]
pub struct Label {
    pub hours: u8,
    pub minutes: u8,
    pub seconds: u8,
    pub frames: u8,
    pub drop_frame: bool,
}

/// Signed unwrapped frames with Q32 subframes; -0.5 is (-1, 0x80000000).
#[derive(Clone, Copy, Debug, Default, PartialEq, Eq, Structural, PartialOrd, Ord)]
pub struct Position {
    pub frames: i64,
    pub subframe: u32,
}

/// A reduced rational playback speed with magnitude at most 64.
#[derive(Clone, Copy, Debug, PartialEq, Eq, Structural)]
pub struct Rate {
    numerator: i32,
    denominator: u32,
}

/// The rates that `Rate::new` accepts.
/// Rust's signed `/` and `%` for a positive divisor: quotient rounded toward zero,
/// remainder with the sign of the dividend.
pub proof fn lemma_exec_division(a: int, b: int, q: int, t: int)
    requires
        b > 0,
        q == trunc_div(a, b),
        t == (if a >= 0 { a % b } else { -((-a) % b) }),
    ensures
        a == b * q + t,
        t == trunc_rem(a, b),
        -b < t < b,
        a >= 0 ==> t >= 0,
{
    if a >= 0 {
        vstd::arithmetic::div_mod::lemma_fundamental_div_mod(a, b);
    } else {
        vstd::arithmetic::div_mod::lemma_fundamental_div_mod(-a, b);
        assert(a == b * q + t) by (nonlinear_arith)
            requires
                -a == b * ((-a) / b) + (-a) % b,
                q == -((-a) / b),
                t == -((-a) % b),
        ;
    }
}

pub open spec fn rate_in_range(numerator: int, denominator: int) -> bool {
    &&& 0 < denominator <= 1_000_000
    &&& abs(numerator) <= 1_000_000
    &&& abs(numerator) <= 64 * denominator
}

/// The greatest common divisor that `Rate::new` cancels.
pub open spec fn rate_gcd(numerator: int, denominator: int) -> int {
    gcd(abs(numerator) as nat, denominator as nat) as int
}

/// The lowest fixed-point value a `Position` can hold.
pub open spec fn min_fixed() -> int {
    i64::MIN * unit()
}

/// The highest fixed-point value a `Position` can hold.
pub open spec fn max_fixed() -> int {
    i64::MAX * unit() + u32::MAX
}

/// Saturation into the range of `Position`.
pub open spec fn clamp_fixed(v: int) -> int {
    if v < min_fixed() {
        min_fixed()
    } else if v > max_fixed() {
        max_fixed()
    } else {
        v
    }
}

/// Nominal integer frames per second, the frame rate rounded up.
pub open spec fn nominal_of(numerator: int, denominator: int) -> int {
    (numerator + denominator - 1) / denominator
}

/// Euclidean remainder for a positive divisor.
fn rem_euclid(a: i64, b: i64) -> (r: i64)
    requires
        b > 0,
    ensures
        r == a as int % b as int,
        0 <= r < b,
{
    let q = a / b;
    let t = a % b;
    proof {
        lemma_exec_division(a as int, b as int, q as int, t as int);
    }
    if t < 0 {
        proof {
            assert(a as int == (q - 1) * b + (t + b)) by (nonlinear_arith)
                requires
                    a as int == b * q + t,
            ;
            vstd::arithmetic::div_mod::lemma_fundamental_div_mod_converse(
                a as int,
                b as int,
                q - 1,
                t + b,
            );
        }
        t + b
    } else {
        proof {
            assert(a as int == q * b + t) by (nonlinear_arith)
                requires
                    a as int == b * q + t,
            ;
            vstd::arithmetic::div_mod::lemma_fundamental_div_mod_converse(
                a as int,
                b as int,
                q as int,
                t as int,
            );
        }
        t
    }
}

/// The label count of a frame count within one day (see `expand_frame`).
fn expand_count(n: i64, d: i64, f: i64) -> (e: i64)
    requires
        1 <= n <= 60,
        0 <= d <= 4,
        60 * n > 10 * d,
        0 <= f < 144 * (600 * n - 9 * d),
    ensures
        e == expand_frame(n as int, d as int, f as int),
        0 <= e < 86400 * n,
{
    let ten = 600 * n - 9 * d;
    let rem = f % ten;
    let q = f / ten;
    proof {
        lemma_expand(n as int, d as int, f as int);
    }
    let k = if rem >= d {
        (rem - d) / (60 * n - d)
    } else {
        0
    };
    f + d * (9 * q + k)
}

impl FrameFormat {
    pub closed spec fn spec_numerator(self) -> u32 {
        self.numerator
    }

    pub closed spec fn spec_denominator(self) -> u32 {
        self.denominator
    }

    pub closed spec fn spec_drop_frame(self) -> bool {
        self.drop_frame
    }

    /// The format is one of the supported ones.
    pub open spec fn wf(self) -> bool {
        supported_format(self.spec_numerator(), self.spec_denominator(), self.spec_drop_frame())
    }

    #[verifier::type_invariant]
    closed spec fn inv(self) -> bool {
        supported_format(self.numerator, self.denominator, self.drop_frame)
    }

    pub open spec fn spec_nominal(self) -> int {
        nominal_of(self.spec_numerator() as int, self.spec_denominator() as int)
    }

    /// Labels skipped at the start of each minute not divisible by ten.
    pub open spec fn spec_dropped(self) -> int {
        if self.spec_drop_frame() {
            self.spec_nominal() / 15
        } else {
            0
        }
    }

    pub open spec fn spec_frames_per_day(self) -> int {
        86400 * self.spec_nominal() - 1296 * self.spec_dropped()
    }

    /// The label of an unwrapped frame count; display wraps every 24 hours.
    pub open spec fn spec_label(self, frames: int) -> Label {
        let n = self.spec_nominal();
        let e = expand_frame(n, self.spec_dropped(), frames % self.spec_frames_per_day());
        Label {
            hours: (e / (3600 * n)) as u8,
            minutes: ((e / (60 * n)) % 60) as u8,
            seconds: ((e / n) % 60) as u8,
            frames: (e % n) as u8,
            drop_frame: self.spec_drop_frame(),
        }
    }

    /// Whether `position` accepts the label fields in this format.
    pub open spec fn label_accepted(self, hours: int, minutes: int, seconds: int, frames: int) -> bool {
        &&& 0 <= hours < 24
        &&& 0 <= minutes < 60
        &&& 0 <= seconds < 60
        &&& 0 <= frames < self.spec_nominal()
        &&& !(minutes % 10 != 0 && seconds == 0 && frames < self.spec_dropped())
    }

    /// The frame count that a label denotes.
    pub open spec fn label_frames(self, hours: int, minutes: int, seconds: int, frames: int) -> int {
        let mins = hours * 60 + minutes;
        (mins * 60 + seconds) * self.spec_nominal() + frames - self.spec_dropped() * (mins - mins / 10)
    }

    proof fn lemma_shape(self)
        requires
            self.wf(),
        ensures
            self.spec_nominal() == 24 || self.spec_nominal() == 25 || self.spec_nominal() == 30
                || self.spec_nominal() == 48 || self.spec_nominal() == 50 || self.spec_nominal()
                == 60,
            self.spec_drop_frame() ==> self.spec_nominal() == 30 || self.spec_nominal() == 60,
            self.spec_dropped() == 0 || self.spec_dropped() == 2 || self.spec_dropped() == 4,
            self.spec_frames_per_day() == 144 * (600 * self.spec_nominal() - 9
                * self.spec_dropped()),
            self.spec_frames_per_day() > 0,
    {
    }

    pub fn new(numerator: u32, denominator: u32, drop_frame: bool) -> (r: Result<Self, Error>)
        ensures
            match r {
                Ok(f) => supported_format(numerator, denominator, drop_frame)
                    && f.spec_numerator() == numerator && f.spec_denominator() == denominator
                    && f.spec_drop_frame() == drop_frame,
                Err(e) => !supported_format(numerator, denominator, drop_frame) && e
                    == Error::Invalid("frame format"),
            },
    {
        let standard = match (numerator, denominator) {
            (24000, 1001) | (24, 1) | (25, 1) | (30000, 1001) | (30, 1) | (48000, 1001) | (48, 1)
            | (50, 1) | (60000, 1001) | (60, 1) => true,
            _ => false,
        };
        let drop_ok = match (numerator, denominator) {
            (30000, 1001) | (60000, 1001) => true,
            _ => false,
        };
        if !standard || (drop_frame && !drop_ok) {
            return Err(Error::Invalid("frame format"));
        }
        Ok(FrameFormat { numerator, denominator, drop_frame })
    }

    pub fn numerator(self) -> (r: u32)
        ensures
            r == self.spec_numerator(),
            self.wf(),
    {
        proof {
            use_type_invariant(&self);
        }
        self.numerator
    }

    pub fn denominator(self) -> (r: u32)
        ensures
            r == self.spec_denominator(),
            self.wf(),
    {
        proof {
            use_type_invariant(&self);
        }
        self.denominator
    }

    pub fn drop_frame(self) -> (r: bool)
        ensures
            r == self.spec_drop_frame(),
            self.wf(),
    {
        proof {
            use_type_invariant(&self);
        }
        self.drop_frame
    }

    /// Nominal integer frames per second (the rate rounded up).
    pub fn nominal(self) -> (r: u32)
        ensures
            r == self.spec_nominal(),
            self.wf(),
    {
        proof {
            use_type_invariant(&self);
        }
        (self.numerator + self.denominator - 1) / self.denominator
    }

    /// Labels in one 24-hour day.
    pub fn frames_per_day(self) -> (r: i64)
        ensures
            r == self.spec_frames_per_day(),
            r > 0,
            self.wf(),
    {
        proof {
            use_type_invariant(&self);
            self.lemma_shape();
        }
        let nominal = self.nominal() as i64;
        86400 * nominal - if self.drop_frame {
            nominal / 15 * 1296
        } else {
            0
        }
    }

    /// Display wraps at 24 hours. Negative positions use Euclidean wrapping.
    pub fn label(self, position: Position) -> (l: Label)
        ensures
            l == self.spec_label(position.frames as int),
            self.label_accepted(l.hours as int, l.minutes as int, l.seconds as int, l.frames as int),
    {
        proof {
            use_type_invariant(&self);
            self.lemma_shape();
        }
        let n = self.nominal() as i64;
        let fpd = self.frames_per_day();
        let f = rem_euclid(position.frames, fpd);
        let d: i64 = if self.drop_frame {
            n / 15
        } else {
            0
        };
        let e = expand_count(n, d, f);
        proof {
            lemma_clock_decompose(n as int, e as int);
            self.lemma_label_accepted(f as int);
        }
        Label {
            hours: (e / (3600 * n)) as u8,
            minutes: (e / (60 * n) % 60) as u8,
            seconds: (e / n % 60) as u8,
            frames: (e % n) as u8,
            drop_frame: self.drop_frame,
        }
    }

    proof fn lemma_label_accepted(self, f: int)
        requires
            self.wf(),
            0 <= f < self.spec_frames_per_day(),
        ensures
            ({
                let n = self.spec_nominal();
                let e = expand_frame(n, self.spec_dropped(), f);
                self.label_accepted(e / (3600 * n), (e / (60 * n)) % 60, (e / n) % 60, e % n)
            }),
    {
        self.lemma_shape();
        let n = self.spec_nominal();
        let d = self.spec_dropped();
        lemma_expand(n, d, f);
        let e = expand_frame(n, d, f);
        lemma_clock_decompose(n, e);
        let ten = 600 * n - 9 * d;
        let q = f / ten;
        let k = crate::arith::expand_minute(n, d, f);
        let mins = e / (60 * n);
        assert(mins == 10 * q + k);
        assert(mins % 10 == k) by {
            vstd::arithmetic::div_mod::lemma_fundamental_div_mod_converse(mins, 10, q, k);
        }
        let m = (e / (60 * n)) % 60;
        let h = e / (3600 * n);
        assert(m % 10 == k) by {
            vstd::arithmetic::div_mod::lemma_fundamental_div_mod(mins, 60);
            assert(mins == 60 * h + m);
            assert(mins == 10 * (6 * h) + m);
            vstd::arithmetic::div_mod::lemma_fundamental_div_mod(m, 10);
            vstd::arithmetic::div_mod::lemma_fundamental_div_mod_converse(
                mins,
                10,
                6 * h + m / 10,
                m % 10,
            );
        }
        if k >= 1 {
            let s = (e / n) % 60;
            let fr = e % n;
            assert(e % (60 * n) == s * n + fr);
            if s == 0 {
                assert(fr >= d);
            }
        }
    }

    pub fn position(self, hours: u8, minutes: u8, seconds: u8, frames: u8) -> (r: Result<
        Position,
        Error,
    >)
        ensures
            match r {
                Ok(p) => self.label_accepted(hours as int, minutes as int, seconds as int, frames as int)
                    && p.subframe == 0 && p.frames == self.label_frames(
                    hours as int,
                    minutes as int,
                    seconds as int,
                    frames as int,
                ),
                Err(e) => !self.label_accepted(hours as int, minutes as int, seconds as int, frames as int)
                    && e == Error::Invalid("timecode label"),
            },
    {
        proof {
            use_type_invariant(&self);
            self.lemma_shape();
        }
        let n = self.nominal() as i64;
        let d: i64 = if self.drop_frame {
            n / 15
        } else {
            0
        };
        if hours >= 24 || minutes >= 60 || seconds >= 60 || frames as i64 >= n || (minutes % 10
            != 0 && seconds == 0 && (frames as i64) < d) {
            return Err(Error::Invalid("timecode label"));
        }
        let mins = hours as i64 * 60 + minutes as i64;
        assert(0 <= (mins * 60 + seconds) * n + frames <= 1440 * 60 * 60 + 60) by (nonlinear_arith)
            requires
                0 <= mins < 1440,
                0 <= seconds < 60,
                0 <= frames < n,
                n <= 60,
        ;
        assert(0 <= d * (mins - mins / 10) <= 4 * 1440) by (nonlinear_arith)
            requires
                0 <= d <= 4,
                0 <= mins < 1440,
                0 <= mins / 10 <= mins,
        ;
        Ok(Position::from_frames((mins * 60 + seconds as i64) * n + frames as i64 - d * (mins - mins
            / 10)))
    }

    /// Every frame count labels to an accepted label that denotes the same frame within
    /// its day: labels and positions round-trip modulo 24 hours.
    /// Labels repeat every day: a position and one whole days away from it read the same.
    pub proof fn lemma_label_daily(self, frames: int, days: int)
        requires
            self.wf(),
        ensures
            self.spec_label(frames + days * self.spec_frames_per_day()) == self.spec_label(frames),
    {
        self.lemma_shape();
        let d = self.spec_frames_per_day();
        assert(d > 0) by (nonlinear_arith)
            requires
                d == 144 * (600 * self.spec_nominal() - 9 * self.spec_dropped()),
                self.spec_nominal() >= 24,
                self.spec_dropped() <= 4,
        ;
        assert(frames + days * d == d * days + frames) by (nonlinear_arith);
        vstd::arithmetic::div_mod::lemma_mod_multiples_vanish(days, frames, d);
    }

    pub proof fn lemma_label_roundtrip(self, frames: int)
        requires
            self.wf(),
        ensures
            ({
                let l = self.spec_label(frames);
                &&& self.label_accepted(l.hours as int, l.minutes as int, l.seconds as int, l.frames as int)
                &&& self.label_frames(l.hours as int, l.minutes as int, l.seconds as int, l.frames as int)
                    == frames % self.spec_frames_per_day()
            }),
    {
        self.lemma_shape();
        let n = self.spec_nominal();
        let d = self.spec_dropped();
        let f = frames % self.spec_frames_per_day();
        lemma_expand(n, d, f);
        let e = expand_frame(n, d, f);
        lemma_clock_decompose(n, e);
        self.lemma_label_accepted(f);
        let l = self.spec_label(frames);
        let h = e / (3600 * n);
        let m = (e / (60 * n)) % 60;
        let s = (e / n) % 60;
        let fr = e % n;
        assert(l.hours as int == h && l.minutes as int == m && l.seconds as int == s && l.frames
            as int == fr);
        let ten = 600 * n - 9 * d;
        let q = f / ten;
        let k = crate::arith::expand_minute(n, d, f);
        let mins = h * 60 + m;
        assert(mins == 10 * q + k);
        assert(mins / 10 == q) by {
            vstd::arithmetic::div_mod::lemma_fundamental_div_mod_converse(mins, 10, q, k);
        }
        assert(e == (mins * 60 + s) * n + fr) by (nonlinear_arith)
            requires
                e == ((h * 60 + m) * 60 + s) * n + fr,
                mins == h * 60 + m,
        ;
        assert(e == f + d * (9 * q + k));
        assert(d * (mins - mins / 10) == d * (9 * q + k));
    }

    /// Every accepted label denotes a frame whose label is that same label.
    pub proof fn lemma_position_roundtrip(self, hours: int, minutes: int, seconds: int, frames: int)
        requires
            self.wf(),
            self.label_accepted(hours, minutes, seconds, frames),
        ensures
            ({
                let p = self.label_frames(hours, minutes, seconds, frames);
                &&& 0 <= p < self.spec_frames_per_day()
                &&& self.spec_label(p) == Label {
                    hours: hours as u8,
                    minutes: minutes as u8,
                    seconds: seconds as u8,
                    frames: frames as u8,
                    drop_frame: self.spec_drop_frame(),
                }
            }),
    {
        self.lemma_shape();
        let n = self.spec_nominal();
        let d = self.spec_dropped();
        let mins = hours * 60 + minutes;
        let t = seconds * n + frames;
        assert(0 <= t < 60 * n) by (nonlinear_arith)
            requires
                0 <= seconds < 60,
                0 <= frames < n,
                n >= 1,
                t == seconds * n + frames,
        ;
        if mins % 10 != 0 {
            assert(minutes % 10 != 0) by {
                vstd::arithmetic::div_mod::lemma_fundamental_div_mod(minutes, 10);
                vstd::arithmetic::div_mod::lemma_fundamental_div_mod_converse(
                    mins,
                    10,
                    hours * 6 + minutes / 10,
                    minutes % 10,
                );
            }
            if seconds == 0 {
                assert(frames >= d);
            } else {
                assert(t >= n) by (nonlinear_arith)
                    requires
                        n >= 1,
                        seconds >= 1,
                        t == seconds * n + frames,
                        frames >= 0,
                ;
            }
        }
        lemma_collapse(n, d, mins, t);
        let p = self.label_frames(hours, minutes, seconds, frames);
        assert(p == mins * (60 * n) + t - d * (mins - mins / 10)) by (nonlinear_arith)
            requires
                p == (mins * 60 + seconds) * n + frames - d * (mins - mins / 10),
                t == seconds * n + frames,
        ;
        let e = mins * (60 * n) + t;
        assert(p % self.spec_frames_per_day() == p) by {
            vstd::arithmetic::div_mod::lemma_fundamental_div_mod_converse(
                p,
                self.spec_frames_per_day(),
                0,
                p,
            );
        }
        assert(expand_frame(n, d, p) == e);
        assert(e == ((hours * 60 + minutes) * 60 + seconds) * n + frames) by (nonlinear_arith)
            requires
                e == mins * (60 * n) + t,
                mins == hours * 60 + minutes,
                t == seconds * n + frames,
        ;
        assert(0 <= e < 86400 * n) by (nonlinear_arith)
            requires
                e == mins * (60 * n) + t,
                0 <= mins < 1440,
                0 <= t < 60 * n,
        ;
        lemma_clock_decompose(n, e);
        // Uniqueness of the mixed-radix digits.
        vstd::arithmetic::div_mod::lemma_fundamental_div_mod_converse(e, n, mins * 60 + seconds, frames);
        assert(e == n * (mins * 60 + seconds) + frames) by (nonlinear_arith)
            requires
                e == ((hours * 60 + minutes) * 60 + seconds) * n + frames,
                mins == hours * 60 + minutes,
        ;
        vstd::arithmetic::div_mod::lemma_fundamental_div_mod_converse(
            mins * 60 + seconds,
            60,
            mins,
            seconds,
        );
        vstd::arithmetic::div_mod::lemma_fundamental_div_mod_converse(mins, 60, hours, minutes);
        vstd::arithmetic::div_mod::lemma_div_denominator(e, n, 60);
        vstd::arithmetic::div_mod::lemma_div_denominator(e, 60 * n, 60);
        assert(n * 60 == 60 * n);
        assert((60 * n) * 60 == 3600 * n) by (nonlinear_arith);
        vstd::arithmetic::div_mod::lemma_div_denominator(e / n, 60, 60);
    }
}

/// The position whose Q32 value is `v`, which must be in range.
pub open spec fn fixed_position(v: int) -> Position {
    Position { frames: (v / unit()) as i64, subframe: (v % unit()) as u32 }
}

/// Saturation into the range of `i64`.
pub open spec fn clamp_i64(v: int) -> int {
    if v < i64::MIN {
        i64::MIN as int
    } else if v > i64::MAX {
        i64::MAX as int
    } else {
        v
    }
}

/// `p` advanced by `elapsed_ns` at `rate` in `format`, saturating at the position range.
pub open spec fn spec_advance(p: Position, elapsed_ns: int, format: FrameFormat, rate: Rate) -> Position {
    fixed_position(clamp_fixed(p.spec_fixed() + advance_delta(elapsed_ns, format, rate)))
}

/// Q32 frames gained after `elapsed_ns` at `rate` in `format`, truncated toward zero.
pub open spec fn advance_delta(elapsed_ns: int, format: FrameFormat, rate: Rate) -> int {
    trunc_div(
        elapsed_ns * format.spec_numerator() * rate.spec_numerator() * unit(),
        1_000_000_000 * format.spec_denominator() * rate.spec_denominator(),
    )
}

/// A position is exactly its fixed-point value: splitting that value gives it back.
pub proof fn lemma_fixed_roundtrip(p: Position)
    ensures
        min_fixed() <= p.spec_fixed() <= max_fixed(),
        fixed_position(clamp_fixed(p.spec_fixed())) == p,
{
    let v = p.spec_fixed();
    assert(min_fixed() <= v <= max_fixed()) by (nonlinear_arith)
        requires
            v == p.frames * unit() + p.subframe,
            i64::MIN <= p.frames <= i64::MAX,
            0 <= p.subframe <= u32::MAX,
            unit() == 4294967296,
    ;
    vstd::arithmetic::div_mod::lemma_fundamental_div_mod_converse(
        v,
        unit(),
        p.frames as int,
        p.subframe as int,
    );
}

/// A paused timeline does not move, however much time passes.
pub proof fn lemma_paused_holds(p: Position, elapsed_ns: int, format: FrameFormat, rate: Rate)
    requires
        format.wf(),
        rate.wf(),
        rate.spec_numerator() == 0,
    ensures
        spec_advance(p, elapsed_ns, format, rate) == p,
{
    lemma_advance_direction(if elapsed_ns >= 0 { elapsed_ns } else { 0 }, format, rate);
    let den = 1_000_000_000 * format.spec_denominator() * rate.spec_denominator();
    assert(den > 0) by (nonlinear_arith)
        requires
            format.spec_denominator() >= 1,
            rate.spec_denominator() >= 1,
            den == 1_000_000_000 * format.spec_denominator() * rate.spec_denominator(),
    ;
    assert(elapsed_ns * format.spec_numerator() * rate.spec_numerator() * unit() == 0) by (nonlinear_arith)
        requires
            rate.spec_numerator() == 0,
    ;
    assert(advance_delta(elapsed_ns, format, rate) == 0);
    lemma_fixed_roundtrip(p);
}

/// Playback moves in the direction of its rate: forward rates never move a position back
/// as time passes, reverse rates never move it forward.
pub proof fn lemma_advance_direction(elapsed_ns: int, format: FrameFormat, rate: Rate)
    requires
        format.wf(),
        rate.wf(),
        elapsed_ns >= 0,
    ensures
        rate.spec_numerator() >= 0 ==> advance_delta(elapsed_ns, format, rate) >= 0,
        rate.spec_numerator() <= 0 ==> advance_delta(elapsed_ns, format, rate) <= 0,
{
    let num = elapsed_ns * format.spec_numerator() * rate.spec_numerator() * unit();
    let den = 1_000_000_000 * format.spec_denominator() * rate.spec_denominator();
    assert(den > 0) by (nonlinear_arith)
        requires
            format.spec_denominator() >= 1,
            rate.spec_denominator() >= 1,
            den == 1_000_000_000 * format.spec_denominator() * rate.spec_denominator(),
    ;
    assert(rate.spec_numerator() >= 0 ==> num >= 0) by (nonlinear_arith)
        requires
            elapsed_ns >= 0,
            format.spec_numerator() >= 0,
            unit() > 0,
            num == elapsed_ns * format.spec_numerator() * rate.spec_numerator() * unit(),
    ;
    assert(rate.spec_numerator() <= 0 ==> num <= 0) by (nonlinear_arith)
        requires
            elapsed_ns >= 0,
            format.spec_numerator() >= 0,
            unit() > 0,
            num == elapsed_ns * format.spec_numerator() * rate.spec_numerator() * unit(),
    ;
    if num >= 0 {
        assert(num / den >= 0) by (nonlinear_arith)
            requires
                num >= 0,
                den > 0,
        ;
    } else {
        assert((-num) / den >= 0) by (nonlinear_arith)
            requires
                num < 0,
                den > 0,
        ;
    }
}

/// Truncating division by a positive divisor keeps the order of its dividends.
proof fn lemma_trunc_div_monotone(a: int, b: int, d: int)
    requires
        a <= b,
        d > 0,
    ensures
        trunc_div(a, d) <= trunc_div(b, d),
{
    if a >= 0 {
        vstd::arithmetic::div_mod::lemma_div_is_ordered(a, b, d);
    } else if b >= 0 {
        assert((-a) / d >= 0) by (nonlinear_arith)
            requires
                -a > 0,
                d > 0,
        ;
        assert(b / d >= 0) by (nonlinear_arith)
            requires
                b >= 0,
                d > 0,
        ;
    } else {
        vstd::arithmetic::div_mod::lemma_div_is_ordered(-b, -a, d);
    }
}

/// An in-range fixed-point value is the value of the position it splits into.
proof fn lemma_fixed_position_value(v: int)
    requires
        min_fixed() <= v <= max_fixed(),
    ensures
        fixed_position(v).spec_fixed() == v,
{
    let u = unit();
    let q = v / u;
    let r = v % u;
    vstd::arithmetic::div_mod::lemma_fundamental_div_mod(v, u);
    assert(i64::MIN <= q <= i64::MAX) by (nonlinear_arith)
        requires
            v == u * q + r,
            0 <= r < u,
            u == 4294967296,
            i64::MIN * u <= v <= i64::MAX * u + u32::MAX,
    ;
}

/// Advancing by no elapsed time leaves a position where it is.
pub proof fn lemma_advance_zero(p: Position, format: FrameFormat, rate: Rate)
    requires
        format.wf(),
        rate.wf(),
    ensures
        spec_advance(p, 0, format, rate) == p,
{
    let num = 0 * format.spec_numerator() * rate.spec_numerator() * unit();
    assert(num == 0);
    lemma_advance_direction(0, format, rate);
    let den = 1_000_000_000 * format.spec_denominator() * rate.spec_denominator();
    assert(den > 0) by (nonlinear_arith)
        requires
            format.spec_denominator() >= 1,
            rate.spec_denominator() >= 1,
            den == 1_000_000_000 * format.spec_denominator() * rate.spec_denominator(),
    ;
    assert(advance_delta(0, format, rate) == 0);
    lemma_fixed_roundtrip(p);
}

/// Playback keeps its direction as time goes on: at a forward rate a position advanced by
/// a longer elapsed time is never behind the same position advanced by a shorter one, and
/// at a reverse rate never ahead of it.
pub proof fn lemma_advance_monotone(p: Position, e1: int, e2: int, format: FrameFormat, rate: Rate)
    requires
        format.wf(),
        rate.wf(),
        e1 <= e2,
    ensures
        rate.spec_numerator() >= 0 ==> spec_advance(p, e1, format, rate).spec_fixed() <= spec_advance(
            p,
            e2,
            format,
            rate,
        ).spec_fixed(),
        rate.spec_numerator() <= 0 ==> spec_advance(p, e1, format, rate).spec_fixed() >= spec_advance(
            p,
            e2,
            format,
            rate,
        ).spec_fixed(),
{
    let k = format.spec_numerator() * rate.spec_numerator() * unit();
    let n1 = e1 * format.spec_numerator() * rate.spec_numerator() * unit();
    let n2 = e2 * format.spec_numerator() * rate.spec_numerator() * unit();
    assert(n1 == e1 * k && n2 == e2 * k) by (nonlinear_arith)
        requires
            k == format.spec_numerator() * rate.spec_numerator() * unit(),
            n1 == e1 * format.spec_numerator() * rate.spec_numerator() * unit(),
            n2 == e2 * format.spec_numerator() * rate.spec_numerator() * unit(),
    ;
    assert(rate.spec_numerator() >= 0 ==> k >= 0) by (nonlinear_arith)
        requires
            format.spec_numerator() >= 0,
            unit() > 0,
            k == format.spec_numerator() * rate.spec_numerator() * unit(),
    ;
    assert(rate.spec_numerator() <= 0 ==> k <= 0) by (nonlinear_arith)
        requires
            format.spec_numerator() >= 0,
            unit() > 0,
            k == format.spec_numerator() * rate.spec_numerator() * unit(),
    ;
    assert(k >= 0 ==> e1 * k <= e2 * k) by (nonlinear_arith)
        requires
            e1 <= e2,
    ;
    assert(k <= 0 ==> e1 * k >= e2 * k) by (nonlinear_arith)
        requires
            e1 <= e2,
    ;
    let den = 1_000_000_000 * format.spec_denominator() * rate.spec_denominator();
    assert(den > 0) by (nonlinear_arith)
        requires
            format.spec_denominator() >= 1,
            rate.spec_denominator() >= 1,
            den == 1_000_000_000 * format.spec_denominator() * rate.spec_denominator(),
    ;
    if n1 <= n2 {
        lemma_trunc_div_monotone(n1, n2, den);
    }
    if n2 <= n1 {
        lemma_trunc_div_monotone(n2, n1, den);
    }
    let v1 = clamp_fixed(p.spec_fixed() + advance_delta(e1, format, rate));
    let v2 = clamp_fixed(p.spec_fixed() + advance_delta(e2, format, rate));
    lemma_fixed_position_value(v1);
    lemma_fixed_position_value(v2);
}

impl Position {
    /// Frame zero.
    pub fn zero() -> (p: Self)
        ensures
            p.frames == 0,
            p.subframe == 0,
    {
        Position { frames: 0, subframe: 0 }
    }

    /// The position as a Q32 fixed-point number of frames.
    pub open spec fn spec_fixed(self) -> int {
        self.frames * unit() + self.subframe
    }

    pub fn from_frames(frames: i64) -> (p: Self)
        ensures
            p.frames == frames,
            p.subframe == 0,
    {
        Position { frames, subframe: 0 }
    }

    pub fn fixed(self) -> (r: i128)
        ensures
            r == self.spec_fixed(),
            min_fixed() <= r <= max_fixed(),
    {
        (self.frames as i128) * 4294967296 + self.subframe as i128
    }

    /// Saturates to the representable range, then splits into frames and Q32 subframe.
    pub fn from_fixed(value: i128) -> (p: Self)
        ensures
            p == fixed_position(clamp_fixed(value as int)),
            p.spec_fixed() == clamp_fixed(value as int),
            p.frames == clamp_fixed(value as int) / unit(),
            p.subframe == clamp_fixed(value as int) % unit(),
    {
        let lo: i128 = (i64::MIN as i128) * 4294967296;
        let hi: i128 = (i64::MAX as i128) * 4294967296 + 4294967295;
        let v = if value < lo {
            lo
        } else if value > hi {
            hi
        } else {
            value
        };
        let q = v / 4294967296;
        let r = v % 4294967296;
        let (frames, subframe) = if r < 0 {
            (q - 1, r + 4294967296)
        } else {
            (q, r)
        };
        proof {
            vstd::arithmetic::div_mod::lemma_fundamental_div_mod_converse(
                v as int,
                unit(),
                frames as int,
                subframe as int,
            );
        }
        Position { frames: frames as i64, subframe: subframe as u32 }
    }

    /// Advance by elapsed real time at a playback rate, exactly, truncating below Q32.
    pub fn advance(self, elapsed_ns: i64, format: FrameFormat, rate: Rate) -> (p: Self)
        ensures
            p == fixed_position(
                clamp_fixed(self.spec_fixed() + advance_delta(elapsed_ns as int, format, rate)),
            ),
            p.spec_fixed() == clamp_fixed(
                self.spec_fixed() + advance_delta(elapsed_ns as int, format, rate),
            ),
    {
        let fnum = format.numerator() as i128;
        let fden = format.denominator() as i128;
        let rnum = rate.numerator() as i128;
        let rden = rate.denominator() as i128;
        let e = elapsed_ns as i128;
        assert(-(1_000_000 * 60000) <= fnum * rnum <= 1_000_000 * 60000) by (nonlinear_arith)
            requires
                0 <= fnum <= 60000,
                -1_000_000 <= rnum <= 1_000_000,
        ;
        let fr = fnum * rnum;
        assert(-0x8000_0000_0000_0000 * 60_000_000_000 <= e * fr <= 0x8000_0000_0000_0000
            * 60_000_000_000) by (nonlinear_arith)
            requires
                -0x8000_0000_0000_0000 <= e < 0x8000_0000_0000_0000,
                -60_000_000_000 <= fr <= 60_000_000_000,
        ;
        let num = e * fr;
        assert(1 <= fden * rden <= 1001 * 1_000_000) by (nonlinear_arith)
            requires
                1 <= fden <= 1001,
                1 <= rden <= 1_000_000,
        ;
        let den = 1_000_000_000 * (fden * rden);
        let q = num / den;
        let r = num % den;
        assert(-0x8000_0000_0000_0000 * 60 <= q <= 0x8000_0000_0000_0000 * 60)
            by (nonlinear_arith)
            requires
                den >= 1_000_000_000,
                -0x8000_0000_0000_0000 * 60_000_000_000 <= num <= 0x8000_0000_0000_0000
                    * 60_000_000_000,
                q == trunc_div(num as int, den as int),
        ;
        assert(-den < r < den);
        proof {
            lemma_exec_division(num as int, den as int, q as int, r as int);
        }
        let delta = q * 4294967296 + r * 4294967296 / den;
        assert(delta == trunc_div(num as int, den as int) * unit() + trunc_div(
            trunc_rem(num as int, den as int) * unit(),
            den as int,
        ));
        proof {
            lemma_trunc_div_scaled(num as int, den as int, unit());
            assert(num * unit() == elapsed_ns * format.spec_numerator() * rate.spec_numerator()
                * unit()) by (nonlinear_arith)
                requires
                    num == e * fr,
                    fr == fnum * rnum,
                    e == elapsed_ns,
                    fnum == format.spec_numerator(),
                    rnum == rate.spec_numerator(),
            ;
            assert(den == 1_000_000_000 * format.spec_denominator() * rate.spec_denominator())
                by (nonlinear_arith)
                requires
                    den == 1_000_000_000 * (fden * rden),
                    fden == format.spec_denominator(),
                    rden == rate.spec_denominator(),
            ;
        }
        Self::from_fixed(self.fixed() + delta)
    }
}

impl Rate {
    /// Speed zero.
    pub fn paused() -> (r: Self)
        ensures
            r.spec_numerator() == 0,
            r.spec_denominator() == 1,
    {
        proof {
            reveal_with_fuel(gcd, 2);
        }
        Rate { numerator: 0, denominator: 1 }
    }

    /// Real-time forward playback.
    pub closed spec fn normal_spec() -> Self {
        Rate { numerator: 1, denominator: 1 }
    }

    /// Real-time forward playback.
    pub fn normal() -> (r: Self)
        ensures
            r.spec_numerator() == 1,
            r.spec_denominator() == 1,
            r == Self::normal_spec(),
    {
        proof {
            reveal_with_fuel(gcd, 2);
        }
        Rate { numerator: 1, denominator: 1 }
    }

    pub closed spec fn spec_numerator(self) -> i32 {
        self.numerator
    }

    pub closed spec fn spec_denominator(self) -> u32 {
        self.denominator
    }

    /// In range and in lowest terms.
    pub open spec fn wf(self) -> bool {
        rate_in_range(self.spec_numerator() as int, self.spec_denominator() as int) && rate_gcd(
            self.spec_numerator() as int,
            self.spec_denominator() as int,
        ) == 1
    }

    #[verifier::type_invariant]
    closed spec fn inv(self) -> bool {
        rate_in_range(self.numerator as int, self.denominator as int) && rate_gcd(
            self.numerator as int,
            self.denominator as int,
        ) == 1
    }

    /// Validates the range (magnitude at most 64) and reduces to lowest terms.
    pub fn new(numerator: i32, denominator: u32) -> (r: Result<Self, Error>)
        ensures
            match r {
                Ok(rate) => rate_in_range(numerator as int, denominator as int)
                    && rate.spec_numerator() * rate_gcd(numerator as int, denominator as int)
                    == numerator && rate.spec_denominator() * rate_gcd(
                    numerator as int,
                    denominator as int,
                ) == denominator,
                Err(e) => !rate_in_range(numerator as int, denominator as int) && e == Error::Invalid(
                    "rate (maximum magnitude 64)",
                ),
            },
    {
        if denominator == 0 || denominator > 1_000_000 {
            return Err(Error::Invalid("rate (maximum magnitude 64)"));
        }
        let magnitude: u32 = if numerator < 0 {
            (0 - (numerator as i64)) as u32
        } else {
            numerator as u32
        };
        if magnitude > 1_000_000 || magnitude as u64 > denominator as u64 * 64 {
            return Err(Error::Invalid("rate (maximum magnitude 64)"));
        }
        let mut a = magnitude;
        let mut b = denominator;
        while b != 0
            invariant
                gcd(a as nat, b as nat) == gcd(magnitude as nat, denominator as nat),
            decreases b,
        {
            let r = a % b;
            a = b;
            b = r;
        }
        proof {
            lemma_gcd_reduced(magnitude as nat, denominator as nat);
            let g = a as int;
            vstd::arithmetic::div_mod::lemma_fundamental_div_mod(denominator as int, g);
            vstd::arithmetic::div_mod::lemma_fundamental_div_mod(magnitude as int, g);
            let kd = denominator as int / g;
            let km = magnitude as int / g;
            assert(kd >= 1 && g <= denominator) by (nonlinear_arith)
                requires
                    denominator as int == g * kd,
                    g > 0,
                    denominator > 0,
            ;
            assert(km <= magnitude && km <= 64 * kd) by (nonlinear_arith)
                requires
                    magnitude as int == g * km,
                    denominator as int == g * kd,
                    g > 0,
                    magnitude <= 64 * denominator,
                    km >= 0,
            ;
        }
        let rn = numerator / (a as i32);
        let rd = denominator / a;
        proof {
            let g = a as int;
            let km = magnitude as int / g;
            vstd::arithmetic::div_mod::lemma_fundamental_div_mod(magnitude as int, g);
            vstd::arithmetic::div_mod::lemma_fundamental_div_mod(denominator as int, g);
            if numerator >= 0 {
                assert(rn == km);
            } else {
                assert(rn == -km);
            }
            assert(abs(rn as int) == km);
            assert(rn * g == numerator) by (nonlinear_arith)
                requires
                    magnitude as int == g * km,
                    rn == km || rn == -km,
                    numerator >= 0 ==> rn == km && numerator == magnitude,
                    numerator < 0 ==> rn == -km && numerator == -magnitude,
            ;
        }
        proof {
            let g = a as int;
            assert(rd * g == denominator) by (nonlinear_arith)
                requires
                    denominator as int == g * (denominator as int / g),
                    rd == denominator as int / g,
            ;
            assert(abs(numerator as int) == magnitude);
            assert(rate_gcd(numerator as int, denominator as int) == g);
        }
        let rate = Rate { numerator: rn, denominator: rd };
        Ok(rate)
    }

    pub fn numerator(self) -> (r: i32)
        ensures
            r == self.spec_numerator(),
            self.wf(),
    {
        proof {
            use_type_invariant(&self);
        }
        self.numerator
    }

    pub fn denominator(self) -> (r: u32)
        ensures
            r == self.spec_denominator(),
            self.wf(),
    {
        proof {
            use_type_invariant(&self);
        }
        self.denominator
    }
}

impl Label {
    /// The label as `HH:MM:SS:FF`, with `;` before the frames in drop-frame formats.
    pub open spec fn text(self) -> Seq<char> {
        decimal2(self.hours as nat) + seq![':'] + decimal2(self.minutes as nat) + seq![':']
            + decimal2(self.seconds as nat) + seq![
            if self.drop_frame {
                ';'
            } else {
                ':'
            },
        ] + decimal2(self.frames as nat)
    }

    pub fn to_string(&self) -> (r: String)
        ensures
            r@ == self.text(),
    {
        let mut s = String::new();
        proof {
            reveal_strlit(":");
            reveal_strlit(";");
        }
        push_decimal2(&mut s, self.hours as u64);
        push_str(&mut s, ":");
        push_decimal2(&mut s, self.minutes as u64);
        push_str(&mut s, ":");
        push_decimal2(&mut s, self.seconds as u64);
        push_str(
            &mut s,
            if self.drop_frame {
                ";"
            } else {
                ":"
            },
        );
        push_decimal2(&mut s, self.frames as u64);
        assert(s@ =~= self.text());
        s
    }
}

/// Two rates with the same numerator and denominator are the same rate.
pub proof fn lemma_rate_ext(a: Rate, b: Rate)
    requires
        a.spec_numerator() == b.spec_numerator(),
        a.spec_denominator() == b.spec_denominator(),
    ensures
        a == b,
{
}

/// Two formats with the same fields are the same format.
pub proof fn lemma_format_ext(a: FrameFormat, b: FrameFormat)
    requires
        a.spec_numerator() == b.spec_numerator(),
        a.spec_denominator() == b.spec_denominator(),
        a.spec_drop_frame() == b.spec_drop_frame(),
    ensures
        a == b,
{
}

impl Default for FrameFormat {
    fn default() -> (r: Self)
        ensures
            r.spec_numerator() == 30 && r.spec_denominator() == 1 && !r.spec_drop_frame(),
    {
        FrameFormat { numerator: 30, denominator: 1, drop_frame: false }
    }
}

} // verus!
