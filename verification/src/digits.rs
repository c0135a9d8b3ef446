//! Decimal digit strings: the spec-level encoding of unsigned numbers as
//! sequences of ASCII digit characters, and the lemmas that connect a digit
//! string back to its numeric value.
use vstd::prelude::*;

verus! {

/// The digit character for a value below ten.
pub open spec fn digit_char(d: int) -> char {
    if d == 0 {
        '0'
    } else if d == 1 {
        '1'
    } else if d == 2 {
        '2'
    } else if d == 3 {
        '3'
    } else if d == 4 {
        '4'
    } else if d == 5 {
        '5'
    } else if d == 6 {
        '6'
    } else if d == 7 {
        '7'
    } else if d == 8 {
        '8'
    } else {
        '9'
    }
}

pub open spec fn is_digit(c: char) -> bool {
    c == '0' || c == '1' || c == '2' || c == '3' || c == '4' || c == '5' || c == '6' || c == '7'
        || c == '8' || c == '9'
}

/// The numeric value of a digit character; ten for anything else.
pub open spec fn digit_val(c: char) -> nat {
    if c == '0' {
        0
    } else if c == '1' {
        1
    } else if c == '2' {
        2
    } else if c == '3' {
        3
    } else if c == '4' {
        4
    } else if c == '5' {
        5
    } else if c == '6' {
        6
    } else if c == '7' {
        7
    } else if c == '8' {
        8
    } else if c == '9' {
        9
    } else {
        10
    }
}

/// The decimal rendering of `n`: most significant digit first, no leading
/// zeros (a single `'0'` for zero itself).
pub open spec fn dec(n: nat) -> Seq<char>
    decreases n,
{
    if n < 10 {
        seq![digit_char(n as int)]
    } else {
        dec(n / 10) + seq![digit_char((n % 10) as int)]
    }
}

/// The value of a digit string, read in base ten.
pub open spec fn val(s: Seq<char>) -> nat
    decreases s.len(),
{
    if s.len() == 0 {
        0
    } else {
        val(s.drop_last()) * 10 + digit_val(s.last())
    }
}

pub open spec fn all_digits(s: Seq<char>) -> bool {
    forall|i: int| 0 <= i < s.len() ==> is_digit(s[i])
}

/// The length of the longest digit prefix of `t`.
pub open spec fn digit_run(t: Seq<char>) -> nat
    decreases t.len(),
{
    if t.len() == 0 || !is_digit(t[0]) {
        0
    } else {
        1 + digit_run(t.skip(1))
    }
}

pub proof fn lemma_val_snoc(s: Seq<char>, c: char)
    ensures
        val(s.push(c)) == val(s) * 10 + digit_val(c),
{
    assert(s.push(c).drop_last() =~= s);
    assert(s.push(c).last() == c);
}

/// `dec(n)` is a non-empty digit string without a leading zero (unless `n`
/// itself is zero) whose value is `n`.
pub proof fn lemma_dec_props(n: nat)
    ensures
        dec(n).len() >= 1,
        all_digits(dec(n)),
        n >= 1 ==> dec(n)[0] != '0',
        n >= 10 ==> dec(n).len() >= 2,
        val(dec(n)) == n,
    decreases n,
{
    if n < 10 {
        let s = seq![digit_char(n as int)];
        assert(s.drop_last() =~= Seq::<char>::empty());
        assert(val(Seq::<char>::empty()) == 0);
        assert(s.last() == digit_char(n as int));
        assert(val(s) == val(s.drop_last()) * 10 + digit_val(s.last()));
        assert(val(s) == digit_val(digit_char(n as int)));
    } else {
        lemma_dec_props(n / 10);
        let pre = dec(n / 10);
        let d = digit_char((n % 10) as int);
        assert(dec(n) =~= pre.push(d));
        lemma_val_snoc(pre, d);
        assert(val(dec(n)) == (n / 10) * 10 + n % 10);
        assert((n / 10) * 10 + n % 10 == n) by (nonlinear_arith);
        assert(dec(n)[0] == pre[0]);
    }
}

/// The value of a digit string never goes down when more digits follow.
pub proof fn lemma_val_prefix(s: Seq<char>, k: int)
    requires
        0 <= k <= s.len(),
    ensures
        val(s.take(k)) <= val(s),
    decreases s.len(),
{
    if k < s.len() {
        assert(s.drop_last().take(k) =~= s.take(k));
        lemma_val_prefix(s.drop_last(), k);
        assert(val(s.drop_last()) * 10 + digit_val(s.last()) >= val(s.drop_last()));
    } else {
        assert(s.take(k) =~= s);
    }
}

/// A digit string followed by a non-digit (or by nothing) is exactly the
/// digit run of the whole.
pub proof fn lemma_digit_run_of(ds: Seq<char>, rest: Seq<char>)
    requires
        all_digits(ds),
        rest.len() == 0 || !is_digit(rest[0]),
    ensures
        digit_run(ds + rest) == ds.len(),
    decreases ds.len(),
{
    if ds.len() == 0 {
        assert(ds + rest =~= rest);
    } else {
        assert((ds + rest)[0] == ds[0]);
        assert((ds + rest).skip(1) =~= ds.skip(1) + rest);
        lemma_digit_run_of(ds.skip(1), rest);
    }
}

} // verus!
