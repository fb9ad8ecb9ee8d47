//! Plain-text building blocks of the renderer: decimal renderings of line
//! numbers, space padding and repeated highlight marks, each with an exact
//! mathematical description.

use vstd::prelude::*;
use vstd::string::{StrSliceExecFns, StringExecFns};

verus! {

/// The character for one decimal digit value.
pub open spec fn digit_char(d: nat) -> char {
    if d == 0 {
        '0'
    } else if d == 1 {
        '1'
    } else if d == 2 {
        '2'
    } else if d == 3 {
        '3'
    } else if d == 4 {
        '4'
    } else if d == 5 {
        '5'
    } else if d == 6 {
        '6'
    } else if d == 7 {
        '7'
    } else if d == 8 {
        '8'
    } else {
        '9'
    }
}

/// Decimal digit count of `n`.
pub open spec fn num_digits(n: nat) -> nat
    decreases n,
{
    if n < 10 {
        1
    } else {
        1 + num_digits(n / 10)
    }
}

/// The decimal rendering of `n`, most significant digit first.
pub open spec fn dec_str(n: nat) -> Seq<char>
    decreases n,
{
    if n < 10 {
        seq![digit_char(n)]
    } else {
        dec_str(n / 10).push(digit_char(n % 10))
    }
}

/// `n` spaces.
pub open spec fn spaces(n: nat) -> Seq<char> {
    Seq::new(n, |i: int| ' ')
}

/// `n` copies of `c`.
pub open spec fn repeat_char(c: char, n: nat) -> Seq<char> {
    Seq::new(n, |i: int| c)
}

/// The decimal rendering of a number is exactly as long as its digit count.
pub proof fn lemma_dec_str_len(n: nat)
    ensures
        dec_str(n).len() == num_digits(n),
    decreases n,
{
    if n >= 10 {
        lemma_dec_str_len(n / 10);
    }
}

/// Decimal digit count, executable.
pub fn count_digits(n: usize) -> (r: usize)
    ensures
        r == num_digits(n as nat),
{
    let s = usize_to_string(n);
    proof {
        lemma_dec_str_len(n as nat);
    }
    s.as_str().unicode_len()
}

/// The single-character text of one digit value.
fn digit_str(d: usize) -> (r: &'static str)
    requires
        d < 10,
    ensures
        r@ == seq![digit_char(d as nat)],
{
    proof {
        reveal_strlit("0");
        reveal_strlit("1");
        reveal_strlit("2");
        reveal_strlit("3");
        reveal_strlit("4");
        reveal_strlit("5");
        reveal_strlit("6");
        reveal_strlit("7");
        reveal_strlit("8");
        reveal_strlit("9");
    }
    let r = match d {
        0 => "0",
        1 => "1",
        2 => "2",
        3 => "3",
        4 => "4",
        5 => "5",
        6 => "6",
        7 => "7",
        8 => "8",
        _ => "9",
    };
    proof {
        assert(r@ =~= seq![digit_char(d as nat)]);
    }
    r
}

/// Builds a string of `n` spaces.
pub fn make_spaces(n: usize) -> (r: String)
    ensures
        r@ == spaces(n as nat),
{
    let mut r = String::new();
    proof {
        assert(r@ =~= spaces(0));
    }
    let mut i: usize = 0;
    while i < n
        invariant
            i <= n,
            r@ == spaces(i as nat),
        decreases n - i,
    {
        r.append(" ");
        i = i + 1;
        proof {
            reveal_strlit(" ");
            assert(r@ =~= spaces(i as nat));
        }
    }
    r
}

/// Builds the run of highlight marks: `^` for a primary span, `-` otherwise.
pub fn repeat_mark(is_primary: bool, n: usize) -> (r: String)
    ensures
        r@ == repeat_char(if is_primary { '^' } else { '-' }, n as nat),
{
    let ghost c: char = if is_primary { '^' } else { '-' };
    let mark: &str = if is_primary { "^" } else { "-" };
    proof {
        reveal_strlit("^");
        reveal_strlit("-");
        assert(mark@ =~= seq![c]);
    }
    let mut r = String::new();
    proof {
        assert(r@ =~= repeat_char(c, 0));
    }
    let mut i: usize = 0;
    while i < n
        invariant
            i <= n,
            mark@ == seq![c],
            c == (if is_primary { '^' } else { '-' }),
            r@ == repeat_char(c, i as nat),
        decreases n - i,
    {
        r.append(mark);
        i = i + 1;
        proof {
            assert(r@ =~= repeat_char(c, i as nat));
        }
    }
    r
}

/// The reversal of a digit list, as characters: digits are collected least
/// significant first, so the text reads them back to front.
spec fn rev_digit_chars(ds: Seq<usize>) -> Seq<char> {
    Seq::new(ds.len(), |i: int| digit_char(ds[ds.len() - 1 - i] as nat))
}

/// Renders `n` in decimal.
pub fn usize_to_string(n: usize) -> (r: String)
    ensures
        r@ == dec_str(n as nat),
{
    let mut ds: Vec<usize> = Vec::new();
    let mut rem: usize = n;
    proof {
        assert(dec_str(n as nat) =~= dec_str(rem as nat) + rev_digit_chars(ds@));
    }
    while rem >= 10
        invariant
            dec_str(n as nat) == dec_str(rem as nat) + rev_digit_chars(ds@),
            forall|k: int| 0 <= k < ds@.len() ==> ds@[k] < 10,
        decreases rem,
    {
        let ghost pre = ds@;
        let d = rem % 10;
        ds.push(d);
        proof {
            assert(rev_digit_chars(ds@) =~= seq![digit_char(d as nat)] + rev_digit_chars(pre));
            assert(dec_str(rem as nat) =~= dec_str((rem / 10) as nat).push(digit_char((rem % 10) as nat)));
            assert(dec_str((rem / 10) as nat).push(digit_char(d as nat)) =~= dec_str((rem / 10) as nat)
                + seq![digit_char(d as nat)]);
            assert(dec_str((rem / 10) as nat) + seq![digit_char(d as nat)] + rev_digit_chars(pre)
                =~= dec_str((rem / 10) as nat) + (seq![digit_char(d as nat)] + rev_digit_chars(pre)));
        }
        rem = rem / 10;
    }
    let ghost pre = ds@;
    ds.push(rem);
    proof {
        assert(rev_digit_chars(ds@) =~= seq![digit_char(rem as nat)] + rev_digit_chars(pre));
        assert(dec_str(rem as nat) =~= seq![digit_char(rem as nat)]);
        assert(dec_str(n as nat) =~= rev_digit_chars(ds@));
    }
    let mut r = String::new();
    let mut i: usize = ds.len();
    proof {
        assert(r@ =~= rev_digit_chars(ds@).take(0));
    }
    while i > 0
        invariant
            i <= ds@.len(),
            dec_str(n as nat) == rev_digit_chars(ds@),
            forall|k: int| 0 <= k < ds@.len() ==> ds@[k] < 10,
            r@ == rev_digit_chars(ds@).take(ds@.len() - i),
        decreases i,
    {
        i = i - 1;
        let s = digit_str(ds[i]);
        r.append(s);
        proof {
            assert(rev_digit_chars(ds@)[ds@.len() - 1 - i] == digit_char(ds@[i as int] as nat));
            assert(r@ =~= rev_digit_chars(ds@).take(ds@.len() - i));
        }
    }
    proof {
        assert(rev_digit_chars(ds@).take(ds@.len() - 0) =~= rev_digit_chars(ds@));
    }
    r
}

} // verus!
