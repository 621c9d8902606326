//! Decimal numbers in move notation.
use vstd::prelude::*;

verus! {

pub open spec fn is_digit(c: char) -> bool {
    '0' <= c && c <= '9'
}

pub open spec fn digit_value(c: char) -> nat {
    ((c as u32) - ('0' as u32)) as nat
}

/// The character of a decimal digit.
pub open spec fn digit_char(d: nat) -> char {
    if d == 0 {
        '0'
    } else if d == 1 {
        '1'
    } else if d == 2 {
        '2'
    } else if d == 3 {
        '3'
    } else if d == 4 {
        '4'
    } else if d == 5 {
        '5'
    } else if d == 6 {
        '6'
    } else if d == 7 {
        '7'
    } else if d == 8 {
        '8'
    } else {
        '9'
    }
}

/// The decimal writing of `n`, without leading zeros.
pub open spec fn decimal_of(n: nat) -> Seq<char>
    decreases n,
{
    if n < 10 {
        seq![digit_char(n)]
    } else {
        decimal_of(n / 10).push(digit_char(n % 10))
    }
}

/// The value of a string of decimal digits.
pub open spec fn value_of(s: Seq<char>) -> nat
    decreases s.len(),
{
    if s.len() == 0 {
        0
    } else {
        value_of(s.drop_last()) * 10 + digit_value(s.last())
    }
}

pub open spec fn all_digits(s: Seq<char>) -> bool {
    forall|i: int| 0 <= i < s.len() ==> #[trigger] is_digit(s[i])
}

/// A non-negative integer that fits in `usize`, in decimal with an optional
/// leading `+`.
pub open spec fn parse_number(s: Seq<char>) -> Option<nat> {
    let body = if s.len() > 0 && s[0] == '+' {
        s.subrange(1, s.len() as int)
    } else {
        s
    };
    if body.len() > 0 && all_digits(body) && value_of(body) <= usize::MAX {
        Some(value_of(body))
    } else {
        None
    }
}

/// The index of the first `-` at or after `i`, or the length if there is none.
pub open spec fn first_dash(s: Seq<char>, i: int) -> int
    decreases s.len() - i,
{
    if i >= s.len() {
        s.len() as int
    } else if s[i] == '-' {
        i
    } else {
        first_dash(s, i + 1)
    }
}

/// Words joined with single spaces.
pub open spec fn join_words(ws: Seq<Seq<char>>) -> Seq<char>
    decreases ws.len(),
{
    if ws.len() == 0 {
        Seq::empty()
    } else if ws.len() == 1 {
        ws[0]
    } else {
        join_words(ws.drop_last()) + seq![' '] + ws.last()
    }
}

/// The one-character string of a decimal digit.
pub fn digit_str(d: usize) -> (r: &'static str)
    requires
        d < 10,
    ensures
        r@ == seq![digit_char(d as nat)],
{
    proof {
        reveal_strlit("0");
        reveal_strlit("1");
        reveal_strlit("2");
        reveal_strlit("3");
        reveal_strlit("4");
        reveal_strlit("5");
        reveal_strlit("6");
        reveal_strlit("7");
        reveal_strlit("8");
        reveal_strlit("9");
    }
    if d == 0 {
        "0"
    } else if d == 1 {
        "1"
    } else if d == 2 {
        "2"
    } else if d == 3 {
        "3"
    } else if d == 4 {
        "4"
    } else if d == 5 {
        "5"
    } else if d == 6 {
        "6"
    } else if d == 7 {
        "7"
    } else if d == 8 {
        "8"
    } else {
        "9"
    }
}

/// Append the decimal writing of `n`.
pub fn push_decimal(s: &mut String, n: usize)
    ensures
        final(s)@ == old(s)@ + decimal_of(n as nat),
    decreases n,
{
    if n < 10 {
        s.append(digit_str(n));
    } else {
        push_decimal(s, n / 10);
        s.append(digit_str(n % 10));
        assert(decimal_of(n as nat) == decimal_of((n / 10) as nat).push(digit_char((n % 10) as nat)));
        assert(final(s)@ =~= old(s)@ + decimal_of(n as nat));
    }
}

/// The number written in `s[lo..hi]`, as `parse_number` reads it.
pub fn parse_number_in(s: &str, lo: usize, hi: usize) -> (r: Option<usize>)
    requires
        lo <= hi <= s@.len(),
    ensures
        r == (match parse_number(s@.subrange(lo as int, hi as int)) {
            Some(v) => Some(v as usize),
            None => None,
        }),
{
    let ghost t = s@.subrange(lo as int, hi as int);
    let mut start = lo;
    if lo < hi && s.get_char(lo) == '+' {
        start = lo + 1;
    }
    let ghost body = s@.subrange(start as int, hi as int);
    assert(body =~= (if t.len() > 0 && t[0] == '+' {
        t.subrange(1, t.len() as int)
    } else {
        t
    }));
    if start == hi {
        return None;
    }
    let limit: u128 = 0x1_0000_0000_0000_0000;
    let mut acc: u128 = 0;
    let mut i = start;
    while i < hi
        invariant
            lo <= start <= i <= hi <= s@.len(),
            body == s@.subrange(start as int, hi as int),
            t == s@.subrange(lo as int, hi as int),
            body == (if t.len() > 0 && t[0] == '+' {
                t.subrange(1, t.len() as int)
            } else {
                t
            }),
            all_digits(s@.subrange(start as int, i as int)),
            acc == (if value_of(s@.subrange(start as int, i as int)) < limit {
                value_of(s@.subrange(start as int, i as int))
            } else {
                limit as nat
            }),
            limit == 0x1_0000_0000_0000_0000u128,
        decreases hi - i,
    {
        let c = s.get_char(i);
        if !('0' <= c && c <= '9') {
            assert(body[i - start] == c);
            assert(!is_digit(body[i - start]));
            assert(!all_digits(body));
            return None;
        }
        let ghost prev = s@.subrange(start as int, i as int);
        let ghost next = s@.subrange(start as int, i + 1);
        assert(next.drop_last() =~= prev);
        assert(next.last() == c);
        let d = ((c as u32) - ('0' as u32)) as u128;
        let ghost v = value_of(prev);
        assert(value_of(next) == v * 10 + d);
        if acc < limit {
            let x = acc * 10 + d;
            acc = if x < limit {
                x
            } else {
                limit
            };
        } else {
            assert(v >= limit);
            assert(v * 10 + d >= limit) by (nonlinear_arith)
                requires
                    v >= limit,
                    d >= 0,
            ;
        }
        i = i + 1;
        assert(all_digits(next)) by {
            assert forall|j: int| 0 <= j < next.len() implies #[trigger] is_digit(next[j]) by {
                if j < prev.len() {
                    assert(next[j] == prev[j]);
                }
            }
        }
    }
    assert(s@.subrange(start as int, i as int) =~= body);
    if acc <= usize::MAX as u128 {
        Some(acc as usize)
    } else {
        None
    }
}

/// The decimal writing of a number is a non-empty string of digits whose
/// value is the number.
pub proof fn lemma_decimal_reads_back(n: nat)
    ensures
        decimal_of(n).len() >= 1,
        all_digits(decimal_of(n)),
        value_of(decimal_of(n)) == n,
        decimal_of(n)[0] != '+',
        decimal_of(n)[0] != '!',
    decreases n,
{
    if n < 10 {
        let s = decimal_of(n);
        assert(s.drop_last() =~= Seq::<char>::empty());
        assert(value_of(s) == value_of(s.drop_last()) * 10 + digit_value(s.last()));
        assert(is_digit(s[0]));
    } else {
        lemma_decimal_reads_back(n / 10);
        let p = decimal_of(n / 10);
        let s = decimal_of(n);
        assert(s == p.push(digit_char(n % 10)));
        assert(s.drop_last() =~= p);
        assert(value_of(s) == value_of(p) * 10 + digit_value(digit_char(n % 10)));
        assert forall|i: int| 0 <= i < s.len() implies #[trigger] is_digit(s[i]) by {
            if i < p.len() {
                assert(s[i] == p[i]);
            }
        }
        assert(s[0] == p[0]);
    }
}

/// Without a `-` from index `i` on, `first_dash` finds none.
pub proof fn lemma_no_dash_from(s: Seq<char>, i: int)
    requires
        0 <= i <= s.len(),
        forall|j: int| i <= j < s.len() ==> s[j] != '-',
    ensures
        first_dash(s, i) == s.len(),
    decreases s.len() - i,
{
    if i < s.len() {
        lemma_no_dash_from(s, i + 1);
    }
}

/// No `-` in a string of digits.
pub proof fn lemma_no_dash_in_digits(s: Seq<char>, i: int)
    requires
        all_digits(s),
        0 <= i <= s.len(),
    ensures
        first_dash(s, i) == s.len(),
{
    assert forall|j: int| i <= j < s.len() implies s[j] != '-' by {
        assert(is_digit(s[j]));
    }
    lemma_no_dash_from(s, i);
}

/// In digits, a dash, and more, the first dash is the one after the digits.
pub proof fn lemma_dash_after_digits(a: Seq<char>, b: Seq<char>, i: int)
    requires
        all_digits(a),
        0 <= i <= a.len(),
    ensures
        first_dash(a + seq!['-'] + b, i) == a.len(),
    decreases a.len() - i,
{
    let s = a + seq!['-'] + b;
    if i < a.len() {
        assert(s[i] == a[i]);
        assert(is_digit(a[i]));
        lemma_dash_after_digits(a, b, i + 1);
    } else {
        assert(s[i] == '-');
    }
}

} // verus!
