//! Human-readable rendering of hashrates.
use vstd::prelude::*;

verus! {

/// The ASCII digit for a value below ten.
pub open spec fn digit_char(d: nat) -> char
    recommends
        d < 10,
{
    ((d + 48) as u8) as char
}

/// Decimal representation of `n`, most significant digit first, without leading zeros
/// (zero itself is `"0"`).
pub open spec fn decimal_digits(n: nat) -> Seq<char>
    decreases n,
{
    if n < 10 {
        seq![digit_char(n)]
    } else {
        decimal_digits(n / 10).push(digit_char(n % 10))
    }
}

/// The first `k` characters of `digits`, with an underscore put in front of every character
/// that is followed by a multiple of three characters, except the first one.
pub open spec fn grouped_prefix(digits: Seq<char>, k: nat) -> Seq<char>
    decreases k,
{
    if k == 0 {
        Seq::empty()
    } else {
        let i = (k - 1) as nat;
        let before = grouped_prefix(digits, i);
        let sep = if i > 0 && (digits.len() - i) % 3 == 0 {
            seq!['_']
        } else {
            Seq::empty()
        };
        before + sep + seq![digits[i as int]]
    }
}

/// `digits` with underscores separating groups of three, counted from the right.
pub open spec fn grouped(digits: Seq<char>) -> Seq<char> {
    grouped_prefix(digits, digits.len())
}

#[verifier::external_body]
fn push_char(s: &mut String, c: char)
    ensures
        final(s)@ == old(s)@.push(c),
{
    s.push(c)
}

fn digit_of(d: u64) -> (c: char)
    requires
        d < 10,
    ensures
        c == digit_char(d as nat),
{
    ((d as u8) + 48u8) as char
}

/// The decimal digits of `num`, most significant first.
fn decimal_digits_of(num: u64) -> (digits: Vec<char>)
    ensures
        digits@ == decimal_digits(num as nat),
{
    let mut rev: Vec<char> = Vec::new();
    let mut n: u64 = num;
    // rev holds the low digits of num in reverse; decimal_digits(n) + reverse(rev) == whole
    while n >= 10
        invariant
            decimal_digits(n as nat) + rev@.reverse() == decimal_digits(num as nat),
        decreases n,
    {
        let d = n % 10;
        let c = digit_of(d);
        assert(decimal_digits(n as nat) == decimal_digits((n / 10) as nat).push(c));
        let ghost old_rev = rev@;
        rev.push(c);
        assert(rev@.reverse() =~= seq![c] + old_rev.reverse());
        assert(decimal_digits((n / 10) as nat) + rev@.reverse() =~= decimal_digits(n as nat)
            + old_rev.reverse());
        n = n / 10;
    }
    let c = digit_of(n);
    let ghost old_rev = rev@;
    rev.push(c);
    assert(rev@.reverse() =~= seq![c] + old_rev.reverse());
    assert(rev@.reverse() =~= decimal_digits(num as nat));
    let mut digits: Vec<char> = Vec::new();
    let len = rev.len();
    let mut i: usize = len;
    while i > 0
        invariant
            i <= len,
            len == rev@.len(),
            digits@ =~= rev@.reverse().subrange(0, (len - i) as int),
        decreases i,
    {
        i = i - 1;
        digits.push(rev[i]);
    }
    assert(digits@ =~= rev@.reverse());
    digits
}

/// Formats a number with underscores for better readability,
/// e.g. 1000 -> "1_000", 1000000 -> "1_000_000".
pub fn format_number_with_underscores(num: u64) -> (result: String)
    ensures
        result@ == grouped(decimal_digits(num as nat)),
{
    let chars = decimal_digits_of(num);
    let mut result = String::new();
    let n = chars.len();
    let mut i: usize = 0;
    while i < n
        invariant
            i <= n,
            n == chars@.len(),
            result@ == grouped_prefix(chars@, i as nat),
        decreases n - i,
    {
        if i > 0 && (n - i) % 3 == 0 {
            push_char(&mut result, '_');
        }
        push_char(&mut result, chars[i]);
        i = i + 1;
        assert(result@ =~= grouped_prefix(chars@, i as nat));
    }
    result
}

/// `s` with its underscores taken out.
pub open spec fn without_underscores(s: Seq<char>) -> Seq<char> {
    s.filter(|c: char| c != '_')
}

proof fn lemma_digits_have_no_underscore(n: nat)
    ensures
        forall|i: int| 0 <= i < decimal_digits(n).len() ==> decimal_digits(n)[i] != '_',
        decimal_digits(n).len() >= 1,
    decreases n,
{
    if n >= 10 {
        lemma_digits_have_no_underscore(n / 10);
        assert(digit_char(n % 10) != '_');
        let d = decimal_digits(n);
        assert forall|i: int| 0 <= i < d.len() implies d[i] != '_' by {
            if i < d.len() - 1 {
                assert(d[i] == decimal_digits(n / 10)[i]);
            }
        }
    } else {
        assert(digit_char(n) != '_');
    }
}

proof fn lemma_grouped_prefix(digits: Seq<char>, k: nat)
    requires
        k <= digits.len(),
        forall|i: int| 0 <= i < digits.len() ==> digits[i] != '_',
    ensures
        without_underscores(grouped_prefix(digits, k)) == digits.take(k as int),
        k >= 1 ==> grouped_prefix(digits, k).len() == k + (digits.len() - 1) / 3 - (digits.len() - k) / 3,
        k == 0 ==> grouped_prefix(digits, k).len() == 0,
    decreases k,
{
    broadcast use vstd::seq_lib::group_filter_ensures;
    if k > 0 {
        let i = (k - 1) as nat;
        lemma_grouped_prefix(digits, i);
        let before = grouped_prefix(digits, i);
        let pred = |c: char| c != '_';
        let sep = if i > 0 && (digits.len() - i) % 3 == 0 {
            seq!['_']
        } else {
            Seq::empty()
        };
        Seq::filter_distributes_over_add(before + sep, seq![digits[i as int]], pred);
        Seq::filter_distributes_over_add(before, sep, pred);
        assert(sep.filter(pred) =~= Seq::<char>::empty()) by {
            if i > 0 && (digits.len() - i) % 3 == 0 {
                reveal_with_fuel(Seq::filter, 2);
                assert(sep =~= seq!['_']);
            } else {
                assert(sep =~= Seq::<char>::empty());
            }
        }
        assert(seq![digits[i as int]].filter(pred) =~= seq![digits[i as int]]) by {
            reveal_with_fuel(Seq::filter, 2);
            assert(seq![digits[i as int]].drop_last() =~= Seq::<char>::empty());
        }
        assert(digits.take(k as int) =~= digits.take(i as int).push(digits[i as int]));
        assert(grouped_prefix(digits, k) == before + sep + seq![digits[i as int]]);
        let n = digits.len() as int;
        if i > 0 {
            assert((n - i) / 3 == (n - k) / 3 + (if (n - i) % 3 == 0 { 1int } else { 0int }));
        } else {
            assert((n - 1) / 3 - (n - k) / 3 == 0);
        }
    }
}

/// Taking the underscores out of a formatted number gives its decimal digits back, and the
/// formatting adds exactly one underscore per full group of three digits after the first
/// digit: `len + (len - 1) / 3` characters in all.
pub proof fn law_formatting_only_inserts_separators(num: u64)
    ensures
        without_underscores(grouped(decimal_digits(num as nat))) == decimal_digits(num as nat),
        grouped(decimal_digits(num as nat)).len() == decimal_digits(num as nat).len() + (
        decimal_digits(num as nat).len() - 1) / 3,
{
    let d = decimal_digits(num as nat);
    lemma_digits_have_no_underscore(num as nat);
    lemma_grouped_prefix(d, d.len());
    assert(d.take(d.len() as int) =~= d);
}

} // verus!
