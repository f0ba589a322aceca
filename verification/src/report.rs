//! Pointing at a place in a text.

use vstd::prelude::*;
use crate::token::push_char;

verus! {

/// `count` times the character `c`.
pub open spec fn repeated(c: char, count: int) -> Seq<char> {
    Seq::new(count as nat, |i: int| c)
}

/// The line that marks the range `[start, end)` of the text above it: a
/// space under each character before the range, a caret under each
/// character in it.
pub open spec fn marker(start: int, end: int) -> Seq<char> {
    repeated(' ', start) + repeated('^', end - start)
}

/// Writes the line that, printed under a text, marks its characters from
/// `start` up to, not including, `end`.
pub fn underline(start: u32, end: u32) -> (line: String)
    requires
        start <= end,
    ensures
        line@ == marker(start as int, end as int),
{
    let mut line = String::new();
    let mut at: u32 = 0;
    while at < start
        invariant
            at <= start,
            line@ == repeated(' ', at as int),
        decreases start - at,
    {
        push_char(&mut line, ' ');
        at += 1;
        assert(line@ =~= repeated(' ', at as int));
    }
    while at < end
        invariant
            start <= at <= end,
            line@ == repeated(' ', start as int) + repeated('^', at - start),
        decreases end - at,
    {
        push_char(&mut line, '^');
        at += 1;
        assert(line@ =~= repeated(' ', start as int) + repeated('^', at - start));
    }
    line
}

} // verus!
