use vstd::prelude::*;
use vstd::string::{StringExecFns, StrSliceExecFns};

verus! {

/// Appends one character; relies on `String::push`, which adds the character at the end.
#[verifier::external_body]
pub(crate) fn push_char(s: &mut String, c: char)
    ensures
        final(s)@ == old(s)@.push(c),
{
    s.push(c)
}

/// Sequence concatenation regroups freely.
pub broadcast proof fn lemma_concat_assoc<A>(a: Seq<A>, b: Seq<A>, c: Seq<A>)
    ensures
        #[trigger] ((a + b) + c) == a + (b + c),
{
    assert((a + b) + c =~= a + (b + c));
}

/// The decimal digit characters of `n`, most significant first.
pub open spec fn decimal(n: nat) -> Seq<char>
    decreases n,
{
    if n < 10 {
        seq![digit_char(n)]
    } else {
        decimal(n / 10).push(digit_char(n % 10))
    }
}

pub open spec fn digit_char(d: nat) -> char {
    ((d + 48) as u8) as char
}

/// Appends the decimal text of `n` to `out`.
pub fn push_decimal(out: &mut String, n: usize)
    ensures
        final(out)@ == old(out)@ + decimal(n as nat),
    decreases n,
{
    if n < 10 {
        let c = ((n as u8) + 48u8) as char;
        push_char(out, c);
        assert(seq![c] =~= decimal(n as nat));
    } else {
        push_decimal(out, n / 10);
        let c = (((n % 10) as u8) + 48u8) as char;
        push_char(out, c);
        assert(decimal(n as nat) == decimal((n / 10) as nat).push(digit_char((n % 10) as nat)));
    }
}

} // verus!
verus! {

/// A decimal digit character, `0` to `9`.
pub open spec fn is_digit_char(c: char) -> bool {
    48 <= (c as u32) <= 57
}

pub open spec fn digit_value(c: char) -> nat {
    ((c as u32) - 48) as nat
}

pub open spec fn all_digits(s: Seq<char>) -> bool {
    forall|i: int| 0 <= i < s.len() ==> is_digit_char(#[trigger] s[i])
}

/// The number that the decimal digits `s` spell.
pub open spec fn value_of(s: Seq<char>) -> nat
    decreases s.len(),
{
    if s.len() == 0 {
        0
    } else {
        value_of(s.drop_last()) * 10 + digit_value(s.last())
    }
}

proof fn lemma_zero_prefix(s: Seq<char>, k: int, m: int)
    requires
        0 <= k <= m <= s.len(),
        forall|i: int| 0 <= i < k ==> (#[trigger] s[i] as u32) == 48,
    ensures
        value_of(s.subrange(0, m)) == value_of(s.subrange(k, m)),
        k == m ==> value_of(s.subrange(0, m)) == 0,
    decreases m,
{
    if m == 0 {
    } else if m == k {
        lemma_zero_prefix(s, k - 1, m - 1);
        assert(s.subrange(0, m).drop_last() =~= s.subrange(0, m - 1));
        assert(s.subrange(k, m) =~= Seq::<char>::empty());
    } else {
        lemma_zero_prefix(s, k, m - 1);
        assert(s.subrange(0, m).drop_last() =~= s.subrange(0, m - 1));
        assert(s.subrange(k, m).drop_last() =~= s.subrange(k, m - 1));
    }
}

proof fn lemma_value_positive(t: Seq<char>)
    requires
        t.len() >= 1,
        all_digits(t),
        (t[0] as u32) != 48,
    ensures
        value_of(t) >= 1,
    decreases t.len(),
{
    if t.len() > 1 {
        let p = t.drop_last();
        lemma_value_positive(p);
    }
}

proof fn lemma_digit(c: char)
    requires
        is_digit_char(c),
    ensures
        digit_value(c) < 10,
        digit_char(digit_value(c)) == c,
{
}

/// Digits without a leading zero (or a lone zero) are the decimal numeral of their value.
proof fn lemma_canonical(t: Seq<char>)
    requires
        t.len() >= 1,
        all_digits(t),
        (t[0] as u32) != 48 || t.len() == 1,
    ensures
        decimal(value_of(t)) == t,
    decreases t.len(),
{
    let c = t[t.len() - 1];
    assert(is_digit_char(c));
    lemma_digit(c);
    let d = digit_value(c);
    if t.len() == 1 {
        assert(t.drop_last() =~= Seq::<char>::empty());
        assert(value_of(Seq::<char>::empty()) == 0);
        assert(value_of(t) == d);
        assert(decimal(d) == seq![digit_char(d)]);
        assert(seq![digit_char(d)] =~= t);
    } else {
        let p = t.drop_last();
        lemma_canonical(p);
        lemma_value_positive(p);
        let v = value_of(t);
        let a = value_of(p);
        assert(v == a * 10 + d);
        assert(v / 10 == a && v % 10 == d) by (nonlinear_arith)
            requires
                v == a * 10 + d,
                d < 10,
        ;
        assert(p.push(t.last()) =~= t);
    }
}

/// Appends the decimal numeral of the value of the digits `s`: `s` without its leading
/// zeros, or `0`.
pub fn push_numeral(out: &mut String, s: &String)
    requires
        s@.len() >= 1,
        all_digits(s@),
    ensures
        final(out)@ == old(out)@ + decimal(value_of(s@)),
{
    let n = s.as_str().unicode_len();
    let mut k: usize = 0;
    while k + 1 < n && s.as_str().get_char(k) == '0'
        invariant
            n == s@.len(),
            k < n,
            forall|i: int| 0 <= i < k ==> (#[trigger] s@[i] as u32) == 48,
        decreases n - k,
    {
        k = k + 1;
    }
    proof {
        lemma_zero_prefix(s@, k as int, n as int);
        assert(s@.subrange(0, n as int) =~= s@);
        let t = s@.subrange(k as int, n as int);
        assert(all_digits(t));
        lemma_canonical(t);
    }
    out.append(s.as_str().substring_char(k, n));
}

/// Whether every character of `s` is a decimal digit.
pub fn all_digit_chars(s: &String) -> (r: bool)
    ensures
        r == all_digits(s@),
{
    let n = s.as_str().unicode_len();
    let mut i: usize = 0;
    while i < n
        invariant
            n == s@.len(),
            i <= n,
            forall|j: int| 0 <= j < i ==> is_digit_char(#[trigger] s@[j]),
        decreases n - i,
    {
        let c = s.as_str().get_char(i);
        if !(48 <= (c as u32) && (c as u32) <= 57) {
            return false;
        }
        i = i + 1;
    }
    true
}

} // verus!
