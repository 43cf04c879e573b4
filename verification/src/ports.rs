//! The port-range argument of the service: either a single port or an
//! inclusive `start-end` range, both written in decimal.

use vstd::prelude::*;
use vstd::string::StrSliceExecFns;

verus! {

pub open spec fn digit(c: char) -> bool {
    48 <= c as u32 <= 57
}

pub open spec fn digit_val(c: char) -> nat {
    (c as u32 - 48) as nat
}

/// A non-empty run of decimal digits.
pub open spec fn digits1(s: Seq<char>) -> bool {
    s.len() > 0 && forall|i: int| 0 <= i < s.len() ==> digit(#[trigger] s[i])
}

/// The number a digit run denotes.
pub open spec fn digits_val(s: Seq<char>) -> nat
    decreases s.len(),
{
    if s.len() == 0 {
        0
    } else {
        digits_val(s.drop_last()) * 10 + digit_val(s.last())
    }
}

/// First position of a dash (meaningful when one occurs).
pub open spec fn first_dash(s: Seq<char>) -> int
    decreases s.len(),
{
    if s.len() == 0 {
        0
    } else if s[0] == '-' {
        0
    } else {
        1 + first_dash(s.drop_first())
    }
}

/// What the port-range grammar accepts: `digits` for a single port, or
/// `digits-digits` for an inclusive range, each value fitting a port
/// number.
pub open spec fn port_range_spec(s: Seq<char>) -> Option<(u16, u16)> {
    if !s.contains('-') {
        if digits1(s) && digits_val(s) <= 65535 {
            Some((digits_val(s) as u16, digits_val(s) as u16))
        } else {
            None
        }
    } else {
        let i = first_dash(s);
        let a = s.take(i);
        let b = s.skip(i + 1);
        if digits1(a) && digits1(b) && digits_val(a) <= 65535 && digits_val(b) <= 65535 {
            Some((digits_val(a) as u16, digits_val(b) as u16))
        } else {
            None
        }
    }
}

pub proof fn lemma_first_dash(s: Seq<char>, i: int)
    requires
        0 <= i < s.len(),
        s[i] == '-',
        forall|j: int| 0 <= j < i ==> s[j] != '-',
    ensures
        first_dash(s) == i,
    decreases s.len(),
{
    if s[0] != '-' {
        lemma_first_dash(s.drop_first(), i - 1);
    }
}

/// A longer digit run denotes at least as large a number.
pub proof fn lemma_digits_val_mono(s: Seq<char>, i: int, j: int)
    requires
        0 <= i <= j <= s.len(),
    ensures
        digits_val(s.take(i)) <= digits_val(s.take(j)),
    decreases j - i,
{
    if i < j {
        lemma_digits_val_mono(s, i, j - 1);
        assert(s.take(j).drop_last() =~= s.take(j - 1));
    }
}

/// Parse the digit run `s[from..to]`; `None` when it is empty, holds a
/// non-digit, or overflows a port number.
fn parse_num(s: &str, from: usize, to: usize) -> (r: Option<u16>)
    requires
        from <= to <= s@.len(),
    ensures
        match r {
            Some(v) => digits1(s@.subrange(from as int, to as int)) && digits_val(
                s@.subrange(from as int, to as int),
            ) == v && v <= 65535,
            None => !(digits1(s@.subrange(from as int, to as int)) && digits_val(
                s@.subrange(from as int, to as int),
            ) <= 65535),
        },
{
    let ghost sub = s@.subrange(from as int, to as int);
    if from == to {
        return None;
    }
    let mut v: u32 = 0;
    let mut i: usize = from;
    while i < to
        invariant
            from <= i <= to <= s@.len(),
            sub == s@.subrange(from as int, to as int),
            sub.len() == to - from,
            forall|j: int| 0 <= j < i - from ==> digit(#[trigger] sub[j]),
            v == digits_val(sub.take(i - from)),
            v <= 65535,
        decreases to - i,
    {
        let c = s.get_char(i);
        proof {
            assert(sub[i - from] == s@[i as int]);
        }
        let cu = c as u32;
        if cu < 48 || cu > 57 {
            return None;
        }
        let d = cu - 48;
        proof {
            assert(sub.take(i - from + 1).drop_last() =~= sub.take(i - from));
            assert(sub.take(i - from + 1).last() == sub[i - from]);
        }
        let next = v * 10 + d;
        if next > 65535 {
            proof {
                lemma_digits_val_mono(sub, i - from + 1, sub.len() as int);
                assert(sub.take(sub.len() as int) =~= sub);
            }
            return None;
        }
        v = next;
        i += 1;
    }
    proof {
        assert(sub.take(sub.len() as int) =~= sub);
    }
    Some(v as u16)
}

/// Parse a port-range argument: a single decimal port, or an inclusive
/// `start-end` range.
pub fn parse_port_range(arg: &str) -> (r: Option<(u16, u16)>)
    ensures
        r == port_range_spec(arg@),
{
    let n = arg.unicode_len();
    let mut dash: usize = n;
    let mut i: usize = 0;
    while i < n && dash == n
        invariant
            n == arg@.len(),
            i <= n,
            dash <= n,
            dash == n ==> forall|j: int| 0 <= j < i ==> arg@[j] != '-',
            dash < n ==> arg@[dash as int] == '-' && (forall|j: int|
                0 <= j < dash ==> arg@[j] != '-'),
        decreases n - i,
    {
        if arg.get_char(i) == '-' {
            dash = i;
        }
        i += 1;
    }
    if dash == n {
        proof {
            assert(!arg@.contains('-')) by {
                if arg@.contains('-') {
                    let j = choose|j: int| 0 <= j < arg@.len() && arg@[j] == '-';
                }
            }
            assert(arg@.subrange(0, n as int) =~= arg@);
        }
        match parse_num(arg, 0, n) {
            Some(v) => Some((v, v)),
            None => None,
        }
    } else {
        proof {
            assert(arg@.contains('-'));
            lemma_first_dash(arg@, dash as int);
            assert(arg@.subrange(0, dash as int) =~= arg@.take(dash as int));
            assert(arg@.subrange(dash + 1, n as int) =~= arg@.skip(dash + 1));
        }
        let a = parse_num(arg, 0, dash);
        let b = parse_num(arg, dash + 1, n);
        match (a, b) {
            (Some(va), Some(vb)) => Some((va, vb)),
            _ => None,
        }
    }
}

} // verus!
