//! Text building blocks: the order on descriptions and names, and the
//! decimal rendering and reading of numbers.

use vstd::prelude::*;

verus! {

/// `a` comes strictly before `b` in the lexicographic order by code point:
/// they agree on the first `k` characters, and there either `a` ends while
/// `b` goes on, or `a` has the smaller character.
pub open spec fn lex_lt(a: Seq<char>, b: Seq<char>) -> bool {
    exists|k: int| #[trigger] lex_lt_at(a, b, k)
}

/// `k` is the place at which `a` is seen to come before `b`.
pub open spec fn lex_lt_at(a: Seq<char>, b: Seq<char>, k: int) -> bool {
    &&& 0 <= k <= a.len()
    &&& k < b.len()
    &&& forall|j: int| 0 <= j < k ==> a[j] == b[j]
    &&& (k < a.len() ==> (a[k] as int) < (b[k] as int))
}

/// Compares two strings by code point, character by character.
pub fn str_lt(a: &str, b: &str) -> (r: bool)
    ensures
        r == lex_lt(a@, b@),
{
    let la: usize = a.unicode_len();
    let lb: usize = b.unicode_len();
    let mut i: usize = 0;
    while i < la && i < lb
        invariant
            la == a@.len(),
            lb == b@.len(),
            i <= la,
            i <= lb,
            forall|j: int| 0 <= j < i ==> a@[j] == b@[j],
        decreases la - i,
    {
        let ca: char = a.get_char(i);
        let cb: char = b.get_char(i);
        if ca != cb {
            let r: bool = (ca as u32) < (cb as u32);
            proof {
                if r {
                    assert(lex_lt_at(a@, b@, i as int));
                } else {
                    assert forall|k: int| !lex_lt_at(a@, b@, k) by {
                        if lex_lt_at(a@, b@, k) {
                            if k > i {
                                assert(a@[i as int] == b@[i as int]);
                            }
                        }
                    }
                }
            }
            return r;
        }
        i = i + 1;
    }
    let r: bool = la < lb;
    proof {
        if r {
            assert(lex_lt_at(a@, b@, la as int));
        } else {
            assert forall|k: int| !lex_lt_at(a@, b@, k) by {
                if lex_lt_at(a@, b@, k) {
                    if k < a@.len() {
                        assert(a@[k] == b@[k]);
                    }
                }
            }
        }
    }
    r
}

/// No string comes before itself.
pub proof fn lemma_lex_irreflexive(a: Seq<char>)
    ensures
        !lex_lt(a, a),
{
}

/// The order is transitive.
pub proof fn lemma_lex_transitive(a: Seq<char>, b: Seq<char>, c: Seq<char>)
    requires
        lex_lt(a, b),
        lex_lt(b, c),
    ensures
        lex_lt(a, c),
{
    let k1 = choose|k: int| lex_lt_at(a, b, k);
    let k2 = choose|k: int| lex_lt_at(b, c, k);
    if k1 <= k2 {
        assert(lex_lt_at(a, c, k1));
    } else {
        assert(lex_lt_at(a, c, k2));
    }
}

/// Two different strings are ordered one way or the other.
pub proof fn lemma_lex_total(a: Seq<char>, b: Seq<char>)
    ensures
        a == b || lex_lt(a, b) || lex_lt(b, a),
{
    lemma_lex_total_from(a, b, 0);
}

proof fn lemma_lex_total_from(a: Seq<char>, b: Seq<char>, i: int)
    requires
        0 <= i <= a.len(),
        i <= b.len(),
        forall|j: int| 0 <= j < i ==> a[j] == b[j],
    ensures
        a == b || lex_lt(a, b) || lex_lt(b, a),
    decreases a.len() - i,
{
    if i == a.len() {
        if i == b.len() {
            assert(a =~= b);
        } else {
            assert(lex_lt_at(a, b, i));
        }
    } else if i == b.len() {
        assert(lex_lt_at(b, a, i));
    } else if a[i] == b[i] {
        lemma_lex_total_from(a, b, i + 1);
    } else if (a[i] as int) < (b[i] as int) {
        assert(lex_lt_at(a, b, i));
    } else {
        assert(lex_lt_at(b, a, i));
    }
}

/// The character of one decimal digit.
pub open spec fn digit_char(d: int) -> char {
    if d == 0 {
        '0'
    } else if d == 1 {
        '1'
    } else if d == 2 {
        '2'
    } else if d == 3 {
        '3'
    } else if d == 4 {
        '4'
    } else if d == 5 {
        '5'
    } else if d == 6 {
        '6'
    } else if d == 7 {
        '7'
    } else if d == 8 {
        '8'
    } else {
        '9'
    }
}

/// A natural number in decimal, without leading zeros.
pub open spec fn decimal(n: nat) -> Seq<char>
    decreases n,
{
    if n < 10 {
        seq![digit_char(n as int)]
    } else {
        decimal(n / 10).push(digit_char((n % 10) as int))
    }
}

/// An integer in decimal, with a minus sign where it is negative.
pub open spec fn int_text(v: int) -> Seq<char> {
    if v < 0 {
        seq!['-'] + decimal((-v) as nat)
    } else {
        decimal(v as nat)
    }
}

fn digit_str(d: u8) -> (r: &'static str)
    requires
        d < 10,
    ensures
        r@ == seq![digit_char(d as int)],
{
    proof {
        reveal_strlit("0");
        reveal_strlit("1");
        reveal_strlit("2");
        reveal_strlit("3");
        reveal_strlit("4");
        reveal_strlit("5");
        reveal_strlit("6");
        reveal_strlit("7");
        reveal_strlit("8");
        reveal_strlit("9");
    }
    let r: &'static str = if d == 0 {
        "0"
    } else if d == 1 {
        "1"
    } else if d == 2 {
        "2"
    } else if d == 3 {
        "3"
    } else if d == 4 {
        "4"
    } else if d == 5 {
        "5"
    } else if d == 6 {
        "6"
    } else if d == 7 {
        "7"
    } else if d == 8 {
        "8"
    } else {
        "9"
    };
    assert(r@ =~= seq![digit_char(d as int)]);
    r
}

/// Appends `n` in decimal to `out`.
pub fn push_decimal(out: &mut String, n: u128)
    ensures
        final(out)@ == old(out)@ + decimal(n as nat),
    decreases n,
{
    if n >= 10 {
        push_decimal(out, n / 10);
    }
    let d: u8 = (n % 10) as u8;
    out.append(digit_str(d));
    proof {
        if n >= 10 {
            assert(old(out)@ + decimal((n / 10) as nat) + seq![digit_char(d as int)] =~= old(out)@
                + decimal(n as nat));
        }
    }
}

/// Appends `v` in decimal to `out`, with its sign.
pub fn push_int(out: &mut String, v: i64)
    ensures
        final(out)@ == old(out)@ + int_text(v as int),
{
    if v < 0 {
        proof {
            reveal_strlit("-");
        }
        out.append("-");
        let m: u128 = (-(v as i128)) as u128;
        push_decimal(out, m);
        assert(old(out)@ + "-"@ + decimal(m as nat) =~= old(out)@ + int_text(v as int));
    } else {
        push_decimal(out, v as u128);
    }
}

/// Whether `c` is a control character: one below the space, the delete
/// character, or one of the 32 that follow it.
pub open spec fn is_control(c: char) -> bool {
    (c as int) < 0x20 || 0x7f <= (c as int) <= 0x9f
}

/// Whether `c` is a control character.
pub fn is_control_char(c: char) -> (r: bool)
    ensures
        r == is_control(c),
{
    let v: u32 = c as u32;
    v < 0x20 || (0x7f <= v && v <= 0x9f)
}

/// The value of a decimal digit.
pub open spec fn digit_value(c: char) -> int {
    c as int - '0' as int
}

/// Whether `c` is one of the digits `0` to `9`.
pub open spec fn is_digit(c: char) -> bool {
    '0' as int <= c as int <= '9' as int
}

/// The number that the digits of `s` stand for; 0 for the empty string.
pub open spec fn number(s: Seq<char>) -> int
    decreases s.len(),
{
    if s.len() == 0 {
        0
    } else {
        number(s.drop_last()) * 10 + digit_value(s.last())
    }
}

/// The number that `s` stands for, where `s` is made of one or more decimal
/// digits and that number fits into 64 bits with a sign.
pub open spec fn parsed_i64(s: Seq<char>) -> Option<i64> {
    if s.len() > 0 && (forall|i: int| 0 <= i < s.len() ==> is_digit(#[trigger] s[i])) && number(s)
        <= i64::MAX {
        Some(number(s) as i64)
    } else {
        None
    }
}

proof fn lemma_number_grows(s: Seq<char>, j: int)
    requires
        0 <= j <= s.len(),
        forall|i: int| 0 <= i < s.len() ==> is_digit(#[trigger] s[i]),
    ensures
        0 <= number(s.take(j)) <= number(s),
    decreases s.len() - j,
{
    if j < s.len() {
        assert(s.take(j + 1).drop_last() =~= s.take(j));
        lemma_number_grows(s, j + 1);
        lemma_number_grows_start(s.take(j));
    } else {
        assert(s.take(j) =~= s);
        lemma_number_grows_start(s);
    }
}

proof fn lemma_number_grows_start(s: Seq<char>)
    requires
        forall|i: int| 0 <= i < s.len() ==> is_digit(#[trigger] s[i]),
    ensures
        0 <= number(s),
    decreases s.len(),
{
    if s.len() > 0 {
        lemma_number_grows_start(s.drop_last());
    }
}

/// The number that `s` stands for, where `s` is made of one or more decimal
/// digits and that number is at most `max`.
pub open spec fn parsed_number(s: Seq<char>, max: u64) -> Option<u64> {
    if s.len() > 0 && (forall|i: int| 0 <= i < s.len() ==> is_digit(#[trigger] s[i])) && number(s)
        <= max {
        Some(number(s) as u64)
    } else {
        None
    }
}

/// Reads a number of at most `max` that is written in decimal digits.
pub fn parse_number(s: &str, max: u64) -> (r: Option<u64>)
    ensures
        r == parsed_number(s@, max),
{
    let n: usize = s.unicode_len();
    if n == 0 {
        return None;
    }
    let mut acc: u64 = 0;
    let mut i: usize = 0;
    assert(s@.take(0) =~= Seq::<char>::empty());
    while i < n
        invariant
            i <= n,
            n == s@.len(),
            forall|j: int| 0 <= j < i ==> is_digit(#[trigger] s@[j]),
            acc == number(s@.take(i as int)),
            acc <= max,
        decreases n - i,
    {
        let c: char = s.get_char(i);
        let v: u32 = c as u32;
        if v < 48 || v > 57 {
            return None;
        }
        let d: u64 = (v - 48) as u64;
        assert(s@.take(i + 1).drop_last() =~= s@.take(i as int));
        assert(number(s@.take(i + 1)) == acc * 10 + d);
        if d > max || acc > (max - d) / 10 {
            proof {
                if forall|j: int| 0 <= j < s@.len() ==> is_digit(#[trigger] s@[j]) {
                    lemma_number_grows(s@, i + 1);
                }
            }
            return None;
        }
        acc = acc * 10 + d;
        i = i + 1;
    }
    assert(s@.take(i as int) =~= s@);
    Some(acc)
}

/// Reads a number written in decimal digits.
pub fn parse_i64(s: &str) -> (r: Option<i64>)
    ensures
        r == parsed_i64(s@),
{
    proof {
        if forall|j: int| 0 <= j < s@.len() ==> is_digit(#[trigger] s@[j]) {
            lemma_number_grows_start(s@);
        }
    }
    match parse_number(s, 0x7fff_ffff_ffff_ffff) {
        Some(v) => Some(v as i64),
        None => None,
    }
}

/// The number that `s` stands for, where `s` is made of one or more decimal
/// digits, a plus sign before them or none, and that number fits into 64
/// bits.
pub open spec fn parsed_u64(s: Seq<char>) -> Option<u64> {
    if s.len() > 0 && s[0] == '+' {
        parsed_number(s.subrange(1, s.len() as int), u64::MAX)
    } else {
        parsed_number(s, u64::MAX)
    }
}

/// Reads a number written in decimal digits, with a plus sign or without.
pub fn parse_u64(s: &str) -> (r: Option<u64>)
    ensures
        r == parsed_u64(s@),
{
    let n: usize = s.unicode_len();
    if n > 0 && s.get_char(0) == '+' {
        parse_number(s.substring_char(1, n), u64::MAX)
    } else {
        parse_number(s, u64::MAX)
    }
}

} // verus!
