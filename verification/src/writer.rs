//! Frame persistence, split at the I/O boundary: this module renders a
//! numbered frame — its file path and its `x,y`-per-line contents —
//! exactly, and hands it to the caller, which performs the actual
//! writing. Frames are numbered by a counter starting at zero that
//! advances once per written frame and is never reused.

use vstd::prelude::*;
use vstd::string::StringExecFns;

use crate::geometry::Point;

verus! {

/// The character for one decimal digit.
pub open spec fn digit_char(d: int) -> char {
    if d == 0 {
        '0'
    } else if d == 1 {
        '1'
    } else if d == 2 {
        '2'
    } else if d == 3 {
        '3'
    } else if d == 4 {
        '4'
    } else if d == 5 {
        '5'
    } else if d == 6 {
        '6'
    } else if d == 7 {
        '7'
    } else if d == 8 {
        '8'
    } else {
        '9'
    }
}

/// Decimal digits of a nonnegative integer, most significant first.
pub open spec fn dec_digits(n: int) -> Seq<char>
    decreases n,
{
    if n < 10 {
        seq![digit_char(n)]
    } else {
        dec_digits(n / 10) + seq![digit_char(n % 10)]
    }
}

/// The fractional part of a milli-unit magnitude, with trailing zeros
/// trimmed and nothing at all for a whole number.
pub open spec fn frac_chars(f: int) -> Seq<char> {
    if f == 0 {
        Seq::<char>::empty()
    } else if f % 100 == 0 {
        seq!['.', digit_char(f / 100)]
    } else if f % 10 == 0 {
        seq!['.', digit_char(f / 100), digit_char((f / 10) % 10)]
    } else {
        seq!['.', digit_char(f / 100), digit_char((f / 10) % 10), digit_char(f % 10)]
    }
}

/// A nonnegative milli-unit value as decimal text.
pub open spec fn fix_chars_mag(m: int) -> Seq<char> {
    dec_digits(m / 1000) + frac_chars(m % 1000)
}

/// A milli-unit value as decimal text, sign included.
pub open spec fn fix_chars(v: int) -> Seq<char> {
    if v < 0 {
        seq!['-'] + fix_chars_mag(-v)
    } else {
        fix_chars_mag(v)
    }
}

/// One rendered frame line: `x,y` and a newline.
pub open spec fn line_chars(p: Point) -> Seq<char> {
    fix_chars(p.x as int) + seq![','] + fix_chars(p.y as int) + seq!['\n']
}

/// The full frame contents: one line per point, in order.
pub open spec fn render_points(s: Seq<Point>) -> Seq<char>
    decreases s.len(),
{
    if s.len() == 0 {
        Seq::<char>::empty()
    } else {
        render_points(s.drop_last()) + line_chars(s.last())
    }
}

/// One decimal digit as text.
fn digit_str(d: u64) -> (s: &'static str)
    requires
        d < 10,
    ensures
        s@ == seq![digit_char(d as int)],
{
    let s: &'static str = match d {
        0u64 => "0",
        1u64 => "1",
        2u64 => "2",
        3u64 => "3",
        4u64 => "4",
        5u64 => "5",
        6u64 => "6",
        7u64 => "7",
        8u64 => "8",
        _ => "9",
    };
    proof {
        reveal_strlit("0");
        reveal_strlit("1");
        reveal_strlit("2");
        reveal_strlit("3");
        reveal_strlit("4");
        reveal_strlit("5");
        reveal_strlit("6");
        reveal_strlit("7");
        reveal_strlit("8");
        reveal_strlit("9");
        assert(s@ =~= seq![digit_char(d as int)]);
    }
    s
}

/// Appends the decimal digits of `n`.
fn push_dec(out: &mut String, n: u64)
    ensures
        final(out)@ == old(out)@ + dec_digits(n as int),
    decreases n,
{
    if n < 10 {
        out.append(digit_str(n));
    } else {
        push_dec(out, n / 10);
        out.append(digit_str(n % 10));
        proof {
            assert(final(out)@ =~= old(out)@ + dec_digits(n as int));
        }
    }
}

/// Appends a milli-unit value as decimal text.
fn push_fix(out: &mut String, v: i64)
    ensures
        final(out)@ == old(out)@ + fix_chars(v as int),
{
    let m: u64 = if v < 0 {
        proof {
            reveal_strlit("-");
        }
        out.append("-");
        proof {
            assert("-"@ =~= seq!['-']);
        }
        (-(v as i128)) as u64
    } else {
        v as u64
    };
    let ip: u64 = m / 1000;
    let fr: u64 = m % 1000;
    push_dec(out, ip);
    if fr != 0 {
        proof {
            reveal_strlit(".");
        }
        out.append(".");
        proof {
            assert("."@ =~= seq!['.']);
        }
        out.append(digit_str(fr / 100));
        if fr % 100 != 0 {
            out.append(digit_str((fr / 10) % 10));
            if fr % 10 != 0 {
                out.append(digit_str(fr % 10));
            }
        }
    }
    proof {
        assert(final(out)@ =~= old(out)@ + fix_chars(v as int));
    }
}

/// A rendered frame: where it belongs and what it holds.
pub struct Frame {
    /// The file path, `<directory>/frame-<number>.txt`.
    pub path: String,
    /// The contents, one `x,y` line per point.
    pub content: String,
}

/// Renders point data into sequentially numbered frames. Each call to
/// `write` yields one new frame; the caller persists it. The counter
/// starts at zero and advances by one per frame.
pub struct DataWriter {
    directory: String,
    counter: u32,
}

impl DataWriter {
    /// The directory frames are named under.
    pub closed spec fn spec_directory(&self) -> Seq<char> {
        self.directory@
    }

    /// The number of the next frame.
    pub closed spec fn spec_counter(&self) -> int {
        self.counter as int
    }

    /// A writer for the given directory, starting at frame zero.
    pub fn new(directory: &str) -> (w: DataWriter)
        ensures
            w.spec_directory() == directory@,
            w.spec_counter() == 0,
    {
        DataWriter { directory: String::from_str(directory), counter: 0 }
    }

    /// Renders the next numbered frame from the given points, one
    /// `x,y` line per point in order, and advances the counter.
    pub fn write(&mut self, points: Vec<Point>) -> (frame: Frame)
        requires
            old(self).spec_counter() < u32::MAX,
        ensures
            final(self).spec_directory() == old(self).spec_directory(),
            final(self).spec_counter() == old(self).spec_counter() + 1,
            frame.path@ == old(self).spec_directory() + "/frame-"@ + dec_digits(
                old(self).spec_counter(),
            ) + ".txt"@,
            frame.content@ == render_points(points@),
    {
        let mut path = self.directory.clone();
        path.append("/frame-");
        push_dec(&mut path, self.counter as u64);
        path.append(".txt");
        let mut content = String::new();
        let n = points.len();
        let mut k: usize = 0;
        proof {
            reveal_strlit(",");
            reveal_strlit("\n");
            assert(","@ =~= seq![',']);
            assert("\n"@ =~= seq!['\n']);
        }
        while k < n
            invariant
                n == points.len(),
                k <= n,
                content@ == render_points(points@.take(k as int)),
            decreases n - k,
        {
            let p = points[k];
            push_fix(&mut content, p.x);
            proof {
                reveal_strlit(",");
                assert(","@ =~= seq![',']);
            }
            content.append(",");
            push_fix(&mut content, p.y);
            proof {
                reveal_strlit("\n");
                assert("\n"@ =~= seq!['\n']);
            }
            content.append("\n");
            proof {
                assert(points@.take(k + 1).drop_last() =~= points@.take(k as int));
                assert(points@.take(k + 1).last() == points[k as int]);
                assert(content@ =~= render_points(points@.take(k + 1)));
            }
            k = k + 1;
        }
        proof {
            assert(points@.take(n as int) =~= points@);
        }
        self.counter = self.counter + 1;
        Frame { path, content }
    }
}

} // verus!
