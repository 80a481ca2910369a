use vstd::prelude::*;
use vstd::string::StringExecFns;

verus! {

/// The decimal digit character for `d` in `0 ..= 9`.
pub open spec fn digit_char(d: int) -> char {
    if d == 0 {
        '0'
    } else if d == 1 {
        '1'
    } else if d == 2 {
        '2'
    } else if d == 3 {
        '3'
    } else if d == 4 {
        '4'
    } else if d == 5 {
        '5'
    } else if d == 6 {
        '6'
    } else if d == 7 {
        '7'
    } else if d == 8 {
        '8'
    } else {
        '9'
    }
}

/// The decimal text of a natural number, most significant digit first,
/// without a sign and without leading zeros (except for `0` itself).
pub open spec fn dec_str(n: nat) -> Seq<char>
    decreases n,
{
    if n < 10 {
        seq![digit_char(n as int)]
    } else {
        dec_str(n / 10) + seq![digit_char((n % 10) as int)]
    }
}

/// The decimal text of an integer, with a leading `-` when negative.
pub open spec fn int_str(n: int) -> Seq<char> {
    if n < 0 {
        seq!['-'] + dec_str((-n) as nat)
    } else {
        dec_str(n as nat)
    }
}

/// Appends the single decimal digit `d` to `out`.
fn append_digit(out: &mut String, d: u64)
    requires
        d < 10,
    ensures
        final(out)@ == old(out)@ + seq![digit_char(d as int)],
{
    if d == 0 {
        out.append("0");
        proof {
            reveal_strlit("0");
            assert(final(out)@ =~= old(out)@ + seq![digit_char(d as int)]);
        }
    } else if d == 1 {
        out.append("1");
        proof {
            reveal_strlit("1");
            assert(final(out)@ =~= old(out)@ + seq![digit_char(d as int)]);
        }
    } else if d == 2 {
        out.append("2");
        proof {
            reveal_strlit("2");
            assert(final(out)@ =~= old(out)@ + seq![digit_char(d as int)]);
        }
    } else if d == 3 {
        out.append("3");
        proof {
            reveal_strlit("3");
            assert(final(out)@ =~= old(out)@ + seq![digit_char(d as int)]);
        }
    } else if d == 4 {
        out.append("4");
        proof {
            reveal_strlit("4");
            assert(final(out)@ =~= old(out)@ + seq![digit_char(d as int)]);
        }
    } else if d == 5 {
        out.append("5");
        proof {
            reveal_strlit("5");
            assert(final(out)@ =~= old(out)@ + seq![digit_char(d as int)]);
        }
    } else if d == 6 {
        out.append("6");
        proof {
            reveal_strlit("6");
            assert(final(out)@ =~= old(out)@ + seq![digit_char(d as int)]);
        }
    } else if d == 7 {
        out.append("7");
        proof {
            reveal_strlit("7");
            assert(final(out)@ =~= old(out)@ + seq![digit_char(d as int)]);
        }
    } else if d == 8 {
        out.append("8");
        proof {
            reveal_strlit("8");
            assert(final(out)@ =~= old(out)@ + seq![digit_char(d as int)]);
        }
    } else {
        out.append("9");
        proof {
            reveal_strlit("9");
            assert(final(out)@ =~= old(out)@ + seq![digit_char(d as int)]);
        }
    }
}

/// Appends the decimal text of `n` to `out`.
pub fn append_u64(out: &mut String, n: u64)
    ensures
        final(out)@ == old(out)@ + dec_str(n as nat),
    decreases n,
{
    if n >= 10 {
        append_u64(out, n / 10);
        append_digit(out, n % 10);
        proof {
            assert(final(out)@ =~= old(out)@ + dec_str(n as nat));
        }
    } else {
        append_digit(out, n);
    }
}

/// Appends the decimal text of `n` to `out`.
pub fn append_usize(out: &mut String, n: usize)
    ensures
        final(out)@ == old(out)@ + dec_str(n as nat),
{
    append_u64(out, n as u64);
}

/// Appends the decimal text of `n` to `out`, with a leading `-` when negative.
pub fn append_i64(out: &mut String, n: i64)
    ensures
        final(out)@ == old(out)@ + int_str(n as int),
{
    if n < 0 {
        out.append("-");
        let m: u64 = if n == i64::MIN {
            9223372036854775808u64
        } else {
            (-n) as u64
        };
        append_u64(out, m);
        proof {
            reveal_strlit("-");
            assert("-"@ =~= seq!['-']);
            assert(final(out)@ =~= old(out)@ + int_str(n as int));
        }
    } else {
        append_u64(out, n as u64);
    }
}

} // verus!
