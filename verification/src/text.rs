use vstd::prelude::*;

verus! {

/// The character of a decimal digit.
pub open spec fn digit_char(d: nat) -> char {
    if d == 0 { '0' }
    else if d == 1 { '1' }
    else if d == 2 { '2' }
    else if d == 3 { '3' }
    else if d == 4 { '4' }
    else if d == 5 { '5' }
    else if d == 6 { '6' }
    else if d == 7 { '7' }
    else if d == 8 { '8' }
    else { '9' }
}

/// The decimal representation of a natural number, without leading zeros.
pub open spec fn nat_text(n: nat) -> Seq<char>
    decreases n,
{
    if n < 10 {
        seq![digit_char(n)]
    } else {
        nat_text(n / 10).push(digit_char(n % 10))
    }
}

/// The decimal representation of an integer, with a leading '-' when negative.
pub open spec fn int_text(n: int) -> Seq<char> {
    if n < 0 {
        seq!['-'] + nat_text((-n) as nat)
    } else {
        nat_text(n as nat)
    }
}

fn digit_str(d: u64) -> (s: &'static str)
    requires
        d < 10,
    ensures
        s@ == seq![digit_char(d as nat)],
{
    proof {
        reveal_strlit("0");
        reveal_strlit("1");
        reveal_strlit("2");
        reveal_strlit("3");
        reveal_strlit("4");
        reveal_strlit("5");
        reveal_strlit("6");
        reveal_strlit("7");
        reveal_strlit("8");
        reveal_strlit("9");
    }
    if d == 0 { "0" }
    else if d == 1 { "1" }
    else if d == 2 { "2" }
    else if d == 3 { "3" }
    else if d == 4 { "4" }
    else if d == 5 { "5" }
    else if d == 6 { "6" }
    else if d == 7 { "7" }
    else if d == 8 { "8" }
    else { "9" }
}

/// Appends the decimal representation of `n`.
pub fn push_nat(s: &mut String, n: u64)
    ensures
        final(s)@ == old(s)@ + nat_text(n as nat),
    decreases n,
{
    if n >= 10 {
        push_nat(s, n / 10);
    }
    s.append(digit_str(n % 10));
    proof {
        if n >= 10 {
            assert(old(s)@ + nat_text(n as nat) =~= old(s)@ + nat_text((n / 10) as nat) + seq![digit_char((n % 10) as nat)]);
        } else {
            assert(nat_text(n as nat) =~= seq![digit_char((n % 10) as nat)]);
        }
    }
}

/// Appends the decimal representation of a signed integer.
pub fn push_int(s: &mut String, n: i64)
    ensures
        final(s)@ == old(s)@ + int_text(n as int),
{
    if n < 0 {
        proof { reveal_strlit("-"); }
        s.append("-");
        let m: u64 = ((-(n + 1)) as u64) + 1;
        push_nat(s, m);
        assert(final(s)@ =~= old(s)@ + int_text(n as int));
    } else {
        push_nat(s, n as u64);
    }
}

/// Appends a string literal.
pub fn push_str(s: &mut String, t: &str)
    ensures
        final(s)@ == old(s)@ + t@,
{
    s.append(t);
}

/// `x` followed by '_' and the decimal form of `n`.
pub open spec fn suffixed(x: Seq<char>, n: int) -> Seq<char> {
    x + seq!['_'] + int_text(n)
}

/// Builds `x_n`.
pub fn name_with_suffix(x: &str, n: u64) -> (res: String)
    ensures
        res@ == suffixed(x@, n as int),
{
    let mut s = String::from_str(x);
    proof { reveal_strlit("_"); }
    s.append("_");
    push_nat(&mut s, n);
    assert(s@ =~= suffixed(x@, n as int));
    s
}

} // verus!

verus! {

pub open spec fn is_digit(ch: char) -> bool {
    '0' <= ch && ch <= '9'
}

/// The number that the trailing decimal digits of `s` spell (0 when `s`
/// does not end with a digit).
pub open spec fn trailing_number(s: Seq<char>) -> int
    decreases s.len(),
{
    if s.len() == 0 || !is_digit(s.last()) {
        0
    } else {
        trailing_number(s.drop_last()) * 10 + (s.last() as int - '0' as int)
    }
}

proof fn lemma_digit_char(d: nat)
    requires
        d < 10,
    ensures
        is_digit(digit_char(d)),
        digit_char(d) as int - '0' as int == d,
{
}

/// Decimal digits written after a non-digit spell back their number.
pub proof fn lemma_trailing_nat_text(p: Seq<char>, n: nat)
    requires
        p.len() > 0,
        !is_digit(p.last()),
    ensures
        trailing_number(p + nat_text(n)) == n,
    decreases n,
{
    let s = p + nat_text(n);
    if n < 10 {
        lemma_digit_char(n);
        assert(s.drop_last() =~= p);
        assert(s.last() == digit_char(n));
        assert(trailing_number(p) == 0);
        assert(trailing_number(s) == trailing_number(s.drop_last()) * 10 + (s.last() as int - '0' as int));
    } else {
        lemma_trailing_nat_text(p, n / 10);
        lemma_digit_char(n % 10);
        assert(s.drop_last() =~= p + nat_text(n / 10));
        assert(s.last() == digit_char(n % 10));
        assert(trailing_number(s) == trailing_number(s.drop_last()) * 10 + (s.last() as int - '0' as int));
    }
}

/// The number a suffixed name ends with is its suffix.
pub proof fn lemma_suffixed_number(x: Seq<char>, n: int)
    requires
        n >= 0,
    ensures
        trailing_number(suffixed(x, n)) == n,
{
    let p = x + seq!['_'];
    assert(p.last() == '_');
    lemma_trailing_nat_text(p, n as nat);
    assert(suffixed(x, n) =~= p + nat_text(n as nat));
}

} // verus!
