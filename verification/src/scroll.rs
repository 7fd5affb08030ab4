//! Scroll position: a non-negative pixel offset preserved across reloads.
//!
//! The stager embeds the offset into each staged page as a decimal numeral,
//! and the display surface reports the current offset back through a text
//! side channel (its page-title field). Parsing that text recovers the
//! offset; absent or malformed text means offset zero.

use crate::markdown::push_char;
use vstd::prelude::*;

verus! {

/// The decimal digit character of `d` (`d < 10`; larger values clamp to `9`).
pub open spec fn digit_char(d: nat) -> char {
    if d == 0 {
        '0'
    } else if d == 1 {
        '1'
    } else if d == 2 {
        '2'
    } else if d == 3 {
        '3'
    } else if d == 4 {
        '4'
    } else if d == 5 {
        '5'
    } else if d == 6 {
        '6'
    } else if d == 7 {
        '7'
    } else if d == 8 {
        '8'
    } else {
        '9'
    }
}

pub open spec fn is_digit(c: char) -> bool {
    ||| c == '0'
    ||| c == '1'
    ||| c == '2'
    ||| c == '3'
    ||| c == '4'
    ||| c == '5'
    ||| c == '6'
    ||| c == '7'
    ||| c == '8'
    ||| c == '9'
}

/// The value of a digit character (non-digits clamp to `9`).
pub open spec fn digit_val(c: char) -> nat {
    if c == '0' {
        0
    } else if c == '1' {
        1
    } else if c == '2' {
        2
    } else if c == '3' {
        3
    } else if c == '4' {
        4
    } else if c == '5' {
        5
    } else if c == '6' {
        6
    } else if c == '7' {
        7
    } else if c == '8' {
        8
    } else {
        9
    }
}

/// The decimal numeral of `n`, most significant digit first.
pub open spec fn dec_seq(n: nat) -> Seq<char>
    decreases n,
{
    if n < 10 {
        seq![digit_char(n)]
    } else {
        dec_seq(n / 10) + seq![digit_char(n % 10)]
    }
}

/// The value of a sequence of digit characters.
pub open spec fn dec_value(s: Seq<char>) -> nat
    decreases s.len(),
{
    if s.len() == 0 {
        0
    } else {
        dec_value(s.drop_last()) * 10 + digit_val(s.last())
    }
}

pub open spec fn pow10(k: nat) -> nat
    decreases k,
{
    if k == 0 {
        1
    } else {
        10 * pow10((k - 1) as nat)
    }
}

proof fn lemma_pow10_pos(k: nat)
    ensures
        pow10(k) >= 1,
    decreases k,
{
    if k > 0 {
        lemma_pow10_pos((k - 1) as nat);
    }
}

proof fn lemma_pow10_mono(a: nat, b: nat)
    requires
        a <= b,
    ensures
        pow10(a) <= pow10(b),
    decreases b,
{
    if a < b {
        lemma_pow10_mono(a, (b - 1) as nat);
        lemma_pow10_pos((b - 1) as nat);
    }
}

proof fn lemma_pow10_values()
    ensures
        pow10(18) == 1000000000000000000,
        pow10(19) == 10000000000000000000,
{
    assert(pow10(0) == 1);
    assert(pow10(1) == 10);
    assert(pow10(2) == 100);
    assert(pow10(3) == 1000);
    assert(pow10(4) == 10000);
    assert(pow10(5) == 100000);
    assert(pow10(6) == 1000000);
    assert(pow10(7) == 10000000);
    assert(pow10(8) == 100000000);
    assert(pow10(9) == 1000000000);
    assert(pow10(10) == 10000000000);
    assert(pow10(11) == 100000000000);
    assert(pow10(12) == 1000000000000);
    assert(pow10(13) == 10000000000000);
    assert(pow10(14) == 100000000000000);
    assert(pow10(15) == 1000000000000000);
    assert(pow10(16) == 10000000000000000);
    assert(pow10(17) == 100000000000000000);
    assert(pow10(18) == 1000000000000000000);
    assert(pow10(19) == 10000000000000000000);
}

proof fn lemma_dec_value_bound(s: Seq<char>)
    ensures
        dec_value(s) < pow10(s.len()),
    decreases s.len(),
{
    if s.len() > 0 {
        lemma_dec_value_bound(s.drop_last());
        assert(pow10(s.len()) == 10 * pow10(s.drop_last().len()));
    }
}

pub(crate) proof fn lemma_dec_seq_digits(n: nat)
    ensures
        dec_seq(n).len() >= 1,
        forall|i: int| 0 <= i < dec_seq(n).len() ==> is_digit(#[trigger] dec_seq(n)[i]),
    decreases n,
{
    if n < 10 {
    } else {
        lemma_dec_seq_digits(n / 10);
    }
}

pub(crate) proof fn lemma_dec_value_of_dec_seq(n: nat)
    ensures
        dec_value(dec_seq(n)) == n,
    decreases n,
{
    if n < 10 {
        let s = dec_seq(n);
        assert(s.len() == 1);
        assert(s.drop_last() =~= Seq::<char>::empty());
        assert(dec_value(s.drop_last()) == 0);
        assert(s.last() == digit_char(n));
        assert(digit_val(digit_char(n)) == n);
    } else {
        lemma_dec_value_of_dec_seq(n / 10);
        let s = dec_seq(n);
        assert(s.drop_last() =~= dec_seq(n / 10));
        assert(s.last() == digit_char(n % 10));
        assert(digit_val(digit_char(n % 10)) == n % 10);
        assert((n / 10) * 10 + n % 10 == n);
    }
}

proof fn lemma_dec_seq_len(n: nat, k: nat)
    requires
        k >= 1,
        n < pow10(k),
    ensures
        dec_seq(n).len() <= k,
    decreases k,
{
    if n < 10 {
    } else {
        if k == 1 {
            assert(pow10(0) == 1);
            assert(pow10(1) == 10);
            assert(false);
        }
        assert(pow10(k) == 10 * pow10((k - 1) as nat));
        assert(n / 10 < pow10((k - 1) as nat)) by (nonlinear_arith)
            requires
                n < 10 * pow10((k - 1) as nat),
        ;
        lemma_dec_seq_len(n / 10, (k - 1) as nat);
    }
}

/// The length of the leading run of decimal digit characters.
pub open spec fn digit_prefix_len(t: Seq<char>) -> nat
    decreases t.len(),
{
    if t.len() == 0 || !is_digit(t[0]) {
        0
    } else {
        1 + digit_prefix_len(t.skip(1))
    }
}

proof fn lemma_digit_prefix_is(t: Seq<char>, k: nat)
    requires
        k <= t.len(),
        forall|i: int| 0 <= i < k ==> is_digit(t[i]),
        k == t.len() || !is_digit(t[k as int]),
    ensures
        digit_prefix_len(t) == k,
    decreases k,
{
    if k == 0 {
    } else {
        assert(is_digit(t[0]));
        assert forall|i: int| 0 <= i < k - 1 implies is_digit(t.skip(1)[i]) by {
            assert(t.skip(1)[i] == t[i + 1]);
        }
        lemma_digit_prefix_is(t.skip(1), (k - 1) as nat);
    }
}

/// A title text carrying a scroll offset: a decimal numeral of at most 19
/// digits, optionally followed by a fractional part (a dot, then digits).
pub open spec fn is_scroll_text(t: Seq<char>) -> bool {
    let k = digit_prefix_len(t);
    &&& 1 <= k <= 19
    &&& (k == t.len() || (t[k as int] == '.' && forall|i: int|
        k < i < t.len() ==> is_digit(t[i])))
}

/// The scroll offset a title text stands for: the value of its integer part,
/// or zero when the text is not a numeral.
pub open spec fn scroll_of_text(t: Seq<char>) -> nat {
    if is_scroll_text(t) {
        dec_value(t.take(digit_prefix_len(t) as int))
    } else {
        0
    }
}

/// The scroll offset carried by the display surface's optional title text.
pub open spec fn scroll_of_title(title: Option<&str>) -> nat {
    match title {
        Some(t) => scroll_of_text(t@),
        None => 0,
    }
}

fn is_digit_char(c: char) -> (r: bool)
    ensures
        r == is_digit(c),
{
    c == '0' || c == '1' || c == '2' || c == '3' || c == '4' || c == '5' || c == '6' || c == '7'
        || c == '8' || c == '9'
}

fn digit_char_val(c: char) -> (d: u64)
    requires
        is_digit(c),
    ensures
        d as nat == digit_val(c),
{
    if c == '0' {
        0
    } else if c == '1' {
        1
    } else if c == '2' {
        2
    } else if c == '3' {
        3
    } else if c == '4' {
        4
    } else if c == '5' {
        5
    } else if c == '6' {
        6
    } else if c == '7' {
        7
    } else if c == '8' {
        8
    } else {
        9
    }
}

fn digit_char_of(d: u64) -> (c: char)
    requires
        d < 10,
    ensures
        c == digit_char(d as nat),
{
    if d == 0 {
        '0'
    } else if d == 1 {
        '1'
    } else if d == 2 {
        '2'
    } else if d == 3 {
        '3'
    } else if d == 4 {
        '4'
    } else if d == 5 {
        '5'
    } else if d == 6 {
        '6'
    } else if d == 7 {
        '7'
    } else if d == 8 {
        '8'
    } else {
        '9'
    }
}

/// Appends the decimal numeral of `n` to `out`.
pub fn push_dec(out: &mut String, n: u64)
    ensures
        final(out)@ == old(out)@ + dec_seq(n as nat),
    decreases n,
{
    if n < 10 {
        push_char(out, digit_char_of(n));
    } else {
        push_dec(out, n / 10);
        let ghost mid = out@;
        push_char(out, digit_char_of(n % 10));
        proof {
            assert(out@ =~= old(out)@ + (dec_seq(n as nat / 10) + seq![
                digit_char((n % 10) as nat),
            ]));
        }
    }
}

/// Parses the scroll offset out of the display surface's title text.
///
/// The offset is the integer part of the decimal numeral the text holds;
/// an absent title or any text that is not such a numeral yields zero, so
/// the first page of a session always opens at the top.
pub fn parse_scroll(title: Option<&str>) -> (s: u64)
    ensures
        s as nat == scroll_of_title(title),
{
    let t = match title {
        None => { return 0; },
        Some(t) => t,
    };
    let n = t.unicode_len();
    let mut k: usize = 0;
    while k < n && is_digit_char(t.get_char(k))
        invariant
            k <= n,
            n == t@.len(),
            forall|i: int| 0 <= i < k ==> is_digit(t@[i]),
        decreases n - k,
    {
        k = k + 1;
    }
    proof {
        lemma_digit_prefix_is(t@, k as nat);
    }
    if k < 1 || k > 19 {
        return 0;
    }
    if k < n {
        if t.get_char(k) != '.' {
            return 0;
        }
        let mut i: usize = k + 1;
        while i < n
            invariant
                title == Some(t),
                k < i <= n,
                n == t@.len(),
                digit_prefix_len(t@) == k as nat,
                t@[k as int] == '.',
                forall|j: int| k < j < i ==> is_digit(t@[j]),
            decreases n - i,
        {
            if !is_digit_char(t.get_char(i)) {
                return 0;
            }
            i = i + 1;
        }
    }
    assert(is_scroll_text(t@));
    let mut acc: u64 = 0;
    let mut i: usize = 0;
    proof {
        assert(t@.subrange(0, 0) =~= Seq::<char>::empty());
    }
    while i < k
        invariant
            i <= k <= 19,
            k <= n == t@.len(),
            forall|j: int| 0 <= j < k ==> is_digit(t@[j]),
            acc as nat == dec_value(t@.subrange(0, i as int)),
        decreases k - i,
    {
        let c = t.get_char(i);
        let d = digit_char_val(c);
        proof {
            lemma_dec_value_bound(t@.subrange(0, i as int));
            lemma_pow10_mono(i as nat, 18);
            lemma_pow10_values();
            assert(t@.subrange(0, i as int + 1).drop_last() =~= t@.subrange(0, i as int));
            assert(t@.subrange(0, i as int + 1).last() == c);
        }
        acc = acc * 10 + d;
        i = i + 1;
    }
    proof {
        assert(t@.subrange(0, k as int) =~= t@.take(k as int));
    }
    acc
}

/// Law: a scroll offset embedded into a page as a decimal numeral and later
/// handed back through the title side channel is recovered exactly.
///
/// The bound keeps the numeral within the 19 digits the parser accepts.
pub proof fn lemma_scroll_round_trip(s: u64)
    requires
        s < 10000000000000000000,
    ensures
        scroll_of_text(dec_seq(s as nat)) == s as nat,
{
    let t = dec_seq(s as nat);
    lemma_pow10_values();
    lemma_dec_seq_len(s as nat, 19);
    lemma_dec_seq_digits(s as nat);
    lemma_digit_prefix_is(t, t.len());
    assert(is_scroll_text(t));
    assert(t.take(t.len() as int) =~= t);
    lemma_dec_value_of_dec_seq(s as nat);
}

} // verus!
