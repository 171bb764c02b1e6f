//! The lines of the log.

use vstd::prelude::*;

use crate::text::{pad, push_decimal};
#[allow(unused_imports)]
use crate::text::{decimal, padded};

verus! {

/// A log that is longer than this is set aside.
pub const MAX_BYTES: u64 = 2 * 1024 * 1024;

/// A moment in local time.
#[derive(Clone, Copy, Debug, PartialEq, Eq, Structural)]
pub struct LocalTime {
    pub year: u16,
    pub month: u16,
    pub day: u16,
    pub hour: u16,
    pub minute: u16,
    pub second: u16,
    pub milliseconds: u16,
}

/// A number in decimal, with zeros in front up to `width` digits.
pub open spec fn zero_padded(n: nat, width: nat) -> Seq<char> {
    let d = decimal(n);
    Seq::new(if d.len() < width { (width - d.len()) as nat } else { 0 }, |i: int| '0') + d
}

fn push_padded(out: &mut String, n: u16, width: usize)
    ensures
        final(out)@ == old(out)@ + zero_padded(n as nat, width as nat),
{
    let ghost start = out@;
    let mut digits = String::new();
    push_decimal(&mut digits, n as u64);
    assert(digits@ =~= decimal(n as nat));
    let mut have: usize = digits.as_str().unicode_len();
    let ghost first = have;
    while have < width
        invariant
            first <= have,
            have <= width || have == first,
            out@ == start + Seq::new((have - first) as nat, |i: int| '0'),
        decreases width - have,
    {
        out.push('0');
        have += 1;
        assert(Seq::new((have - first) as nat, |i: int| '0') =~= Seq::new(
            (have - first - 1) as nat,
            |i: int| '0',
        ).push('0'));
    }
    out.append(digits.as_str());
    assert(out@ =~= start + zero_padded(n as nat, width as nat));
}

/// A moment as the log writes it.
pub open spec fn stamp(t: LocalTime) -> Seq<char> {
    zero_padded(t.year as nat, 4) + "-"@ + zero_padded(t.month as nat, 2) + "-"@ + zero_padded(
        t.day as nat,
        2,
    ) + " "@ + zero_padded(t.hour as nat, 2) + ":"@ + zero_padded(t.minute as nat, 2) + ":"@
        + zero_padded(t.second as nat, 2) + "."@ + zero_padded(t.milliseconds as nat, 3)
}

/// Writes a moment.
pub fn now(t: &LocalTime) -> (r: String)
    ensures
        r@ == stamp(*t),
{
    let mut out = String::new();
    push_padded(&mut out, t.year, 4);
    assert(out@ =~= zero_padded(t.year as nat, 4));
    out.append("-");
    push_padded(&mut out, t.month, 2);
    out.append("-");
    push_padded(&mut out, t.day, 2);
    out.append(" ");
    push_padded(&mut out, t.hour, 2);
    out.append(":");
    push_padded(&mut out, t.minute, 2);
    out.append(":");
    push_padded(&mut out, t.second, 2);
    out.append(".");
    push_padded(&mut out, t.milliseconds, 3);
    out
}

/// A line of the log: when, how grave, from where, and what.
pub open spec fn line(when: Seq<char>, level: Seq<char>, target: Seq<char>, text: Seq<char>) -> Seq<
    char,
> {
    when + " "@ + padded(level, 5) + " "@ + target + ": "@ + text + "\r\n"@
}

/// Writes a line of the log.
pub fn log_line(t: &LocalTime, level: &str, target: &str, text: &str) -> (r: String)
    ensures
        r@ == line(stamp(*t), level@, target@, text@),
{
    let mut out = now(t);
    out.append(" ");
    out.append(pad(level.to_owned(), 5).as_str());
    out.append(" ");
    out.append(target);
    out.append(": ");
    out.append(text);
    out.append("\r\n");
    out
}

/// Whether a log of this many bytes is set aside before the next line.
pub fn rolls(len: u64) -> (r: bool)
    ensures
        r == (len > 2_097_152),
{
    len > MAX_BYTES
}

/// A number in at least so many places is its digits, with zeros in front where there are fewer.
pub proof fn law_numbers_in_places(n: nat, width: nat, i: int)
    ensures
        zero_padded(n, width).len() >= width,
        zero_padded(n, width).len() == width || zero_padded(n, width) == decimal(n),
        decimal(n).is_suffix_of(zero_padded(n, width)),
        0 <= i < zero_padded(n, width).len() - decimal(n).len() ==> zero_padded(n, width)[i] == '0',
{
    let s = zero_padded(n, width);
    let d = decimal(n);
    assert(s.subrange(s.len() - d.len(), s.len() as int) =~= d);
    if d.len() >= width {
        assert(s =~= d);
    }
}

/// A moment is written from the largest part of it to the smallest, each in its places.
pub proof fn law_moments_in_the_journal(t: LocalTime)
    ensures
        ({
            let y = zero_padded(t.year as nat, 4).len() as int;
            let s = stamp(t);
            &&& zero_padded(t.year as nat, 4).is_prefix_of(s)
            &&& t.month < 100 && t.day < 100 && t.hour < 100 && t.minute < 100 && t.second < 100
                && t.milliseconds < 1000 ==> {
                &&& s.len() == y + 19
                &&& s[y] == '-' && s[y + 3] == '-' && s[y + 6] == ' ' && s[y + 9] == ':' && s[y + 12]
                    == ':' && s[y + 15] == '.'
                &&& s.subrange(y + 1, y + 3) == zero_padded(t.month as nat, 2)
                &&& s.subrange(y + 4, y + 6) == zero_padded(t.day as nat, 2)
                &&& s.subrange(y + 7, y + 9) == zero_padded(t.hour as nat, 2)
                &&& s.subrange(y + 10, y + 12) == zero_padded(t.minute as nat, 2)
                &&& s.subrange(y + 13, y + 15) == zero_padded(t.second as nat, 2)
                &&& s.subrange(y + 16, y + 19) == zero_padded(t.milliseconds as nat, 3)
            }
        }),
{
    reveal_strlit("-");
    reveal_strlit(" ");
    reveal_strlit(":");
    reveal_strlit(".");
    let y = zero_padded(t.year as nat, 4).len() as int;
    let s = stamp(t);
    assert(s.subrange(0, y) =~= zero_padded(t.year as nat, 4));
    if t.month < 100 && t.day < 100 && t.hour < 100 && t.minute < 100 && t.second < 100
        && t.milliseconds < 1000 {
        lemma_two_places(t.month as nat);
        lemma_two_places(t.day as nat);
        lemma_two_places(t.hour as nat);
        lemma_two_places(t.minute as nat);
        lemma_two_places(t.second as nat);
        lemma_three_places(t.milliseconds as nat);
        assert(s.subrange(y + 1, y + 3) =~= zero_padded(t.month as nat, 2));
        assert(s.subrange(y + 4, y + 6) =~= zero_padded(t.day as nat, 2));
        assert(s.subrange(y + 7, y + 9) =~= zero_padded(t.hour as nat, 2));
        assert(s.subrange(y + 10, y + 12) =~= zero_padded(t.minute as nat, 2));
        assert(s.subrange(y + 13, y + 15) =~= zero_padded(t.second as nat, 2));
        assert(s.subrange(y + 16, y + 19) =~= zero_padded(t.milliseconds as nat, 3));
    }
}

proof fn lemma_two_places(n: nat)
    requires
        n < 100,
    ensures
        zero_padded(n, 2).len() == 2,
{
    reveal_with_fuel(decimal, 3);
}

proof fn lemma_three_places(n: nat)
    requires
        n < 1000,
    ensures
        zero_padded(n, 3).len() == 3,
{
    reveal_with_fuel(decimal, 4);
}

/// A line of the journal: when, how grave in five places, from where, and what.
pub proof fn law_lines_of_the_journal(
    when: Seq<char>,
    level: Seq<char>,
    target: Seq<char>,
    text: Seq<char>,
)
    ensures
        line(when, level, target, text) == when + " "@ + padded(level, 5) + " "@ + target + ": "@ + text
            + seq!['\r', '\n'],
        MAX_BYTES == 2097152,
{
    reveal_strlit("\r\n");
    assert("\r\n"@ =~= seq!['\r', '\n']);
}

} // verus!
