//! Support for the interactive front end: deciding when buffered input forms
//! a complete expression.

use vstd::prelude::*;
use vstd::string::StrSliceExecFns;

verus! {

/// How often a character occurs in a sequence.
pub open spec fn count_char(s: Seq<char>, c: char) -> int
    decreases s.len(),
{
    if s.len() == 0 {
        0
    } else {
        count_char(s.drop_last(), c) + if s.last() == c {
            1int
        } else {
            0int
        }
    }
}

/// Whether the buffered input is a complete expression: its opening and
/// closing parentheses balance in number.
pub fn is_complete_expression(input: &str) -> (r: bool)
    ensures
        r == (count_char(input@, '(') == count_char(input@, ')')),
{
    let ghost s = input@;
    let n = input.unicode_len();
    let mut opens: usize = 0;
    let mut closes: usize = 0;
    let mut i: usize = 0;
    proof {
        assert(s.take(0) =~= Seq::<char>::empty());
    }
    while i < n
        invariant
            0 <= i <= n,
            n == s.len(),
            s == input@,
            opens <= i,
            closes <= i,
            opens == count_char(s.take(i as int), '('),
            closes == count_char(s.take(i as int), ')'),
        decreases n - i,
    {
        let c = input.get_char(i);
        proof {
            assert(s.take(i + 1).drop_last() =~= s.take(i as int));
            assert(s.take(i + 1).last() == s[i as int]);
        }
        if c == '(' {
            opens = opens + 1;
        }
        if c == ')' {
            closes = closes + 1;
        }
        i = i + 1;
    }
    proof {
        assert(s.take(n as int) =~= s);
    }
    opens == closes
}

} // verus!
