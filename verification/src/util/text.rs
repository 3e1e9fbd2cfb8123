//! Text primitives over `Seq<char>` views.
//!
//! Strings are modelled by their sequence of Unicode scalar values. Everything
//! here is verified except four thin bindings to the standard library: pushing
//! a `char` onto a `String`, and the three functions of `char` that read the
//! Unicode case tables.

use vstd::prelude::*;
use vstd::string::StringExecFns;

verus! {

/// Whether `c` has the Unicode `Uppercase` property, as `char::is_uppercase`
/// reports it.
pub uninterp spec fn is_uppercase_char(c: char) -> bool;

/// The uppercase mapping of `c`, as `char::to_uppercase` yields it.
pub uninterp spec fn uppercase_of(c: char) -> Seq<char>;

/// The lowercase mapping of `c`, as `char::to_lowercase` yields it.
pub uninterp spec fn lowercase_of(c: char) -> Seq<char>;

/// Binding to `String::push`: appends one scalar value to the end of `s`.
/// Trusted, not proved.
#[verifier::external_body]
pub(crate) fn push_char(s: &mut String, c: char)
    ensures
        final(s)@ == old(s)@.push(c),
{
    s.push(c)
}

/// Binding to `char::is_uppercase`. Trusted: the result is only given the
/// name [`is_uppercase_char`], nothing is claimed about which characters
/// are uppercase.
#[verifier::external_body]
pub(crate) fn char_is_uppercase(c: char) -> (r: bool)
    ensures
        r == is_uppercase_char(c),
{
    c.is_uppercase()
}

/// Binding to `char::to_uppercase`, collecting the characters it yields.
/// Trusted: the result is only given the name [`uppercase_of`].
#[verifier::external_body]
pub(crate) fn char_to_uppercase(c: char) -> (r: Vec<char>)
    ensures
        r@ == uppercase_of(c),
{
    c.to_uppercase().collect()
}

/// Binding to `char::to_lowercase`, collecting the characters it yields.
/// Trusted: the result is only given the name [`lowercase_of`].
#[verifier::external_body]
pub(crate) fn char_to_lowercase(c: char) -> (r: Vec<char>)
    ensures
        r@ == lowercase_of(c),
{
    c.to_lowercase().collect()
}

/// The scalar values of `s`, in order.
pub fn chars_of(s: &str) -> (v: Vec<char>)
    ensures
        v@ == s@,
{
    let mut v: Vec<char> = Vec::new();
    for c in it: s.chars()
        invariant
            it.seq() == s@,
            v@ == s@.take(it.index() as int),
    {
        v.push(c);
        assert(s@.take(it.index() + 1) =~= s@.take(it.index() as int).push(c));
    }
    assert(s@.take(s@.len() as int) =~= s@);
    v
}

/// Appends every character of `v` to `s`.
pub fn push_chars(s: &mut String, v: &Vec<char>)
    ensures
        final(s)@ == old(s)@ + v@,
{
    let mut i: usize = 0;
    while i < v.len()
        invariant
            0 <= i <= v.len(),
            s@ == old(s)@ + v@.take(i as int),
        decreases v.len() - i,
    {
        push_char(s, v[i]);
        assert(v@.take(i + 1) =~= v@.take(i as int).push(v@[i as int]));
        assert(old(s)@ + v@.take(i + 1) =~= (old(s)@ + v@.take(i as int)).push(v@[i as int]));
        i = i + 1;
    }
    assert(v@.take(v@.len() as int) =~= v@);
}

/// Whether two strings hold the same characters.
pub fn text_eq(a: &str, b: &str) -> (r: bool)
    ensures
        r == (a@ == b@),
{
    let x = a.to_owned();
    let y = b.to_owned();
    x == y
}

/// Strict lexicographic order on character sequences: the order of `str`.
pub open spec fn lex_less(a: Seq<char>, b: Seq<char>) -> bool
    decreases a.len(),
{
    if b.len() == 0 {
        false
    } else if a.len() == 0 {
        true
    } else if a[0] == b[0] {
        lex_less(a.drop_first(), b.drop_first())
    } else {
        (a[0] as int) < (b[0] as int)
    }
}

/// Sequences that agree on their first `i` characters compare as their
/// remainders do.
pub proof fn lemma_lex_less_skip(a: Seq<char>, b: Seq<char>, i: int)
    requires
        0 <= i <= a.len(),
        i <= b.len(),
        forall|j: int| 0 <= j < i ==> a[j] == b[j],
    ensures
        lex_less(a, b) == lex_less(a.skip(i), b.skip(i)),
    decreases i,
{
    if i == 0 {
        assert(a.skip(0) =~= a);
        assert(b.skip(0) =~= b);
    } else {
        lemma_lex_less_skip(a.drop_first(), b.drop_first(), i - 1);
        assert(a.drop_first().skip(i - 1) =~= a.skip(i));
        assert(b.drop_first().skip(i - 1) =~= b.skip(i));
    }
}

/// No sequence is below itself.
pub proof fn lemma_lex_less_irreflexive(a: Seq<char>)
    ensures
        !lex_less(a, a),
    decreases a.len(),
{
    if a.len() > 0 {
        lemma_lex_less_irreflexive(a.drop_first());
    }
}

/// The order is transitive.
pub proof fn lemma_lex_less_transitive(a: Seq<char>, b: Seq<char>, c: Seq<char>)
    requires
        lex_less(a, b),
        lex_less(b, c),
    ensures
        lex_less(a, c),
    decreases a.len(),
{
    if a.len() > 0 && a[0] == b[0] && b[0] == c[0] {
        lemma_lex_less_transitive(a.drop_first(), b.drop_first(), c.drop_first());
    }
}

/// Two different sequences are ordered one way or the other.
pub proof fn lemma_lex_less_total(a: Seq<char>, b: Seq<char>)
    ensures
        a == b || lex_less(a, b) || lex_less(b, a),
    decreases a.len(),
{
    if a.len() > 0 && b.len() > 0 {
        if a[0] == b[0] {
            lemma_lex_less_total(a.drop_first(), b.drop_first());
            if a.drop_first() == b.drop_first() {
                assert(a =~= seq![a[0]] + a.drop_first());
                assert(b =~= seq![b[0]] + b.drop_first());
            }
        } else {
            assert(a[0] as int != b[0] as int);
        }
    } else if a.len() == 0 && b.len() == 0 {
        assert(a =~= b);
    }
}

/// Whether `a` sorts strictly before `b`.
pub fn text_less(a: &str, b: &str) -> (r: bool)
    ensures
        r == lex_less(a@, b@),
{
    let x = chars_of(a);
    let y = chars_of(b);
    let mut i: usize = 0;
    while i < x.len() && i < y.len() && x[i] == y[i]
        invariant
            0 <= i <= x.len(),
            i <= y.len(),
            forall|j: int| 0 <= j < i ==> x@[j] == y@[j],
        decreases x.len() - i,
    {
        i = i + 1;
    }
    proof {
        lemma_lex_less_skip(x@, y@, i as int);
        if i < x.len() {
            assert(x@.skip(i as int)[0] == x@[i as int]);
        }
        if i < y.len() {
            assert(y@.skip(i as int)[0] == y@[i as int]);
        }
    }
    if i >= y.len() {
        false
    } else if i >= x.len() {
        true
    } else {
        let cx: char = x[i];
        let cy: char = y[i];
        cx < cy
    }
}

/// Whether `s` begins with `prefix`.
pub fn starts_with(s: &str, prefix: &str) -> (r: bool)
    ensures
        r == prefix@.is_prefix_of(s@),
{
    let x = chars_of(s);
    let p = chars_of(prefix);
    if p.len() > x.len() {
        return false;
    }
    let mut i: usize = 0;
    while i < p.len()
        invariant
            0 <= i <= p.len(),
            p.len() <= x.len(),
            x@ == s@,
            p@ == prefix@,
            forall|j: int| 0 <= j < i ==> x@[j] == p@[j],
        decreases p.len() - i,
    {
        if x[i] != p[i] {
            assert(x@.subrange(0, p@.len() as int)[i as int] != p@[i as int]);
            return false;
        }
        i = i + 1;
    }
    assert(p@ =~= x@.subrange(0, p@.len() as int));
    true
}

/// The decimal digit for `d`, which is below ten.
pub open spec fn digit_char(d: nat) -> char {
    if d == 0 {
        '0'
    } else if d == 1 {
        '1'
    } else if d == 2 {
        '2'
    } else if d == 3 {
        '3'
    } else if d == 4 {
        '4'
    } else if d == 5 {
        '5'
    } else if d == 6 {
        '6'
    } else if d == 7 {
        '7'
    } else if d == 8 {
        '8'
    } else {
        '9'
    }
}

/// The decimal numeral of `n`, without sign or leading zeros.
pub open spec fn decimal(n: nat) -> Seq<char>
    decreases n,
{
    if n < 10 {
        seq![digit_char(n)]
    } else {
        decimal(n / 10).push(digit_char(n % 10))
    }
}

/// Different numbers have different numerals.
pub proof fn lemma_decimal_injective(a: nat, b: nat)
    requires
        decimal(a) == decimal(b),
    ensures
        a == b,
    decreases a,
{
    lemma_decimal_nonempty(a / 10);
    lemma_decimal_nonempty(b / 10);
    if a < 10 && b < 10 {
        assert(decimal(a)[0] == digit_char(a));
        assert(decimal(b)[0] == digit_char(b));
    } else if a >= 10 && b >= 10 {
        let x = decimal(a / 10);
        let y = decimal(b / 10);
        assert(x.push(digit_char(a % 10)).last() == digit_char(a % 10));
        assert(y.push(digit_char(b % 10)).last() == digit_char(b % 10));
        assert(x.push(digit_char(a % 10)).drop_last() =~= x);
        assert(y.push(digit_char(b % 10)).drop_last() =~= y);
        lemma_decimal_injective(a / 10, b / 10);
    } else if a >= 10 {
        assert(decimal(a).len() >= 2);
        assert(decimal(b).len() == 1);
    } else {
        assert(decimal(b).len() >= 2);
        assert(decimal(a).len() == 1);
    }
}

/// A numeral has at least one digit.
pub proof fn lemma_decimal_nonempty(n: nat)
    ensures
        decimal(n).len() >= 1,
    decreases n,
{
    if n >= 10 {
        lemma_decimal_nonempty(n / 10);
    }
}

fn digit_of(d: u64) -> (c: char)
    requires
        d < 10,
    ensures
        c == digit_char(d as nat),
{
    if d == 0 {
        '0'
    } else if d == 1 {
        '1'
    } else if d == 2 {
        '2'
    } else if d == 3 {
        '3'
    } else if d == 4 {
        '4'
    } else if d == 5 {
        '5'
    } else if d == 6 {
        '6'
    } else if d == 7 {
        '7'
    } else if d == 8 {
        '8'
    } else {
        '9'
    }
}

/// Appends the decimal numeral of `n` to `s`.
pub fn push_decimal(s: &mut String, n: u64)
    ensures
        final(s)@ == old(s)@ + decimal(n as nat),
    decreases n,
{
    if n >= 10 {
        push_decimal(s, n / 10);
    }
    push_char(s, digit_of(n % 10));
    assert(s@ =~= old(s)@ + decimal(n as nat));
}

/// The concatenation of two strings.
pub fn concat(a: &str, b: &str) -> (s: String)
    ensures
        s@ == a@ + b@,
{
    let mut s = a.to_owned();
    s.append(b);
    s
}

/// The digit after `c`; a character other than `0` to `8` is left alone.
pub open spec fn next_digit(c: char) -> char {
    if c == '0' {
        '1'
    } else if c == '1' {
        '2'
    } else if c == '2' {
        '3'
    } else if c == '3' {
        '4'
    } else if c == '4' {
        '5'
    } else if c == '5' {
        '6'
    } else if c == '6' {
        '7'
    } else if c == '7' {
        '8'
    } else if c == '8' {
        '9'
    } else {
        c
    }
}

/// The numeral that follows `s`, by schoolbook carrying from the right.
pub open spec fn successor(s: Seq<char>) -> Seq<char>
    decreases s.len(),
{
    if s.len() == 0 {
        seq!['1']
    } else if s.last() == '9' {
        successor(s.drop_last()).push('0')
    } else {
        s.drop_last().push(next_digit(s.last()))
    }
}

/// Carrying from the right counts: the successor of the numeral of `n` is
/// the numeral of `n + 1`.
pub proof fn lemma_successor_counts(n: nat)
    ensures
        successor(decimal(n)) == decimal(n + 1),
    decreases n,
{
    let s = decimal(n);
    if n < 10 {
        assert(s.last() == digit_char(n));
        assert(s.drop_last() =~= Seq::<char>::empty());
        if n == 9 {
            assert(successor(s.drop_last()) =~= seq!['1']);
            assert(decimal(1) =~= seq!['1']);
            assert(decimal(10) =~= decimal(1).push('0'));
        } else {
            assert(Seq::<char>::empty().push(next_digit(s.last())) =~= decimal(n + 1));
        }
    } else {
        let init = decimal(n / 10);
        assert(s.last() == digit_char(n % 10));
        assert(s.drop_last() =~= init);
        if n % 10 == 9 {
            lemma_successor_counts(n / 10);
            assert((n + 1) / 10 == n / 10 + 1);
            assert((n + 1) % 10 == 0);
        } else {
            assert((n + 1) / 10 == n / 10);
            assert((n + 1) % 10 == n % 10 + 1);
        }
    }
}

fn digit_after(c: char) -> (r: char)
    ensures
        r == next_digit(c),
{
    if c == '0' {
        '1'
    } else if c == '1' {
        '2'
    } else if c == '2' {
        '3'
    } else if c == '3' {
        '4'
    } else if c == '4' {
        '5'
    } else if c == '5' {
        '6'
    } else if c == '6' {
        '7'
    } else if c == '7' {
        '8'
    } else if c == '8' {
        '9'
    } else {
        c
    }
}

/// Replaces the numeral in `digits` by the one that follows it. Counting in
/// numerals needs no bound on the count.
pub fn increment(digits: &mut Vec<char>)
    ensures
        final(digits)@ == successor(old(digits)@),
    decreases old(digits).len(),
{
    match digits.pop() {
        None => {
            digits.push('1');
            assert(digits@ =~= seq!['1']);
        },
        Some(c) => {
            assert(old(digits)@.drop_last() =~= digits@);
            if c == '9' {
                increment(digits);
                digits.push('0');
            } else {
                digits.push(digit_after(c));
            }
        },
    }
}

} // verus!
