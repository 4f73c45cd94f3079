//! Decimal numbers, padding and joining, as shells print them.

use vstd::prelude::*;

use crate::text::{chars_of, push_char, words};

verus! {

/// The decimal digit for `d` (`0 <= d < 10`).
pub open spec fn digit_char(d: nat) -> char {
    (48 + d) as char
}

/// The decimal representation of `n`, without leading zeros.
pub open spec fn spec_dec(n: nat) -> Seq<char>
    decreases n,
{
    if n < 10 {
        seq![digit_char(n)]
    } else {
        spec_dec(n / 10).push(digit_char(n % 10))
    }
}

/// Appends the decimal representation of `n` to `s`.
pub fn push_dec(s: &mut String, n: u64)
    ensures
        final(s)@ == old(s)@ + spec_dec(n as nat),
    decreases n,
{
    if n < 10 {
        let c = ((n as u8) + 48) as char;
        assert(c == digit_char(n as nat));
        push_char(s, c);
        assert(final(s)@ =~= old(s)@ + spec_dec(n as nat)) by {
            assert(spec_dec(n as nat) == seq![digit_char(n as nat)]);
        }
    } else {
        push_dec(s, n / 10);
        let d = n % 10;
        let c = ((d as u8) + 48) as char;
        assert(c == digit_char(d as nat));
        push_char(s, c);
        assert(final(s)@ =~= old(s)@ + spec_dec(n as nat));
    }
}

/// `k` spaces.
pub open spec fn spaces(k: int) -> Seq<char> {
    Seq::new(if k < 0 { 0 } else { k as nat }, |_i: int| ' ')
}

/// `t` preceded by spaces up to a width of `w` (no padding when `t` is
/// already that wide), like `{:>w}`.
pub open spec fn pad_left(t: Seq<char>, w: int) -> Seq<char> {
    spaces(w - t.len()) + t
}

/// `t` followed by spaces up to a width of `w`, like `{:<w}`.
pub open spec fn pad_right(t: Seq<char>, w: int) -> Seq<char> {
    t + spaces(w - t.len())
}

/// Appends `k` spaces to `s`.
pub fn push_spaces(s: &mut String, k: usize)
    ensures
        final(s)@ == old(s)@ + spaces(k as int),
{
    let mut i: usize = 0;
    while i < k
        invariant
            i <= k,
            s@ == old(s)@ + spaces(i as int),
        decreases k - i,
    {
        push_char(s, ' ');
        i = i + 1;
        assert(s@ =~= old(s)@ + spaces(i as int));
    }
}

/// Appends `t` to `s`, right-aligned in a field of width `w`.
pub fn push_padded_left(s: &mut String, t: &str, w: usize)
    ensures
        final(s)@ == old(s)@ + pad_left(t@, w as int),
{
    let n = t.unicode_len();
    if n < w {
        push_spaces(s, w - n);
    } else {
        assert(spaces(w - t@.len()) =~= Seq::<char>::empty());
    }
    s.append(t);
    assert(s@ =~= old(s)@ + pad_left(t@, w as int));
}

/// Appends `t` to `s`, left-aligned in a field of width `w`.
pub fn push_padded_right(s: &mut String, t: &str, w: usize)
    ensures
        final(s)@ == old(s)@ + pad_right(t@, w as int),
{
    let n = t.unicode_len();
    s.append(t);
    if n < w {
        push_spaces(s, w - n);
    } else {
        assert(spaces(w - t@.len()) =~= Seq::<char>::empty());
    }
    assert(s@ =~= old(s)@ + pad_right(t@, w as int));
}

/// The words of `ws` separated by `sep`.
pub open spec fn join(ws: Seq<Seq<char>>, sep: Seq<char>) -> Seq<char>
    decreases ws.len(),
{
    if ws.len() == 0 {
        seq![]
    } else if ws.len() == 1 {
        ws[0]
    } else {
        join(ws.drop_last(), sep) + sep + ws.last()
    }
}

/// Appends the strings of `ws` separated by `sep`.
pub fn push_joined(s: &mut String, ws: &[String], sep: &str)
    ensures
        final(s)@ == old(s)@ + join(words(ws@), sep@),
{
    let ghost v = words(ws@);
    let mut i: usize = 0;
    while i < ws.len()
        invariant
            i <= ws@.len(),
            v == words(ws@),
            s@ == old(s)@ + join(v.take(i as int), sep@),
        decreases ws@.len() - i,
    {
        if i > 0 {
            s.append(sep);
        }
        s.append(ws[i].as_str());
        i = i + 1;
        assert(v.take(i as int).drop_last() =~= v.take(i - 1));
        assert(s@ =~= old(s)@ + join(v.take(i as int), sep@));
    }
    assert(v.take(ws@.len() as int) =~= v);
}

/// Whether every character of `s` is an ASCII digit.
pub open spec fn all_digits(s: Seq<char>) -> bool {
    forall|i: int| 0 <= i < s.len() ==> '0' <= #[trigger] s[i] <= '9'
}

/// The number that the decimal digits `s` denote.
pub open spec fn digits_value(s: Seq<char>) -> nat
    decreases s.len(),
{
    if s.len() == 0 {
        0
    } else {
        digits_value(s.drop_last()) * 10 + ((s.last() as u32) - 48) as nat
    }
}

/// What `usize::from_str` accepts: an optional `+` and at least one ASCII
/// digit, for a value that fits in `usize`.
pub open spec fn spec_parse_usize(s: Seq<char>) -> Option<usize> {
    let body = if s.len() > 0 && s[0] == '+' {
        s.drop_first()
    } else {
        s
    };
    if body.len() > 0 && all_digits(body) && digits_value(body) <= usize::MAX {
        Some(digits_value(body) as usize)
    } else {
        None
    }
}

pub proof fn lemma_digits_value_prefix(s: Seq<char>, k: int)
    requires
        all_digits(s),
        0 <= k <= s.len(),
    ensures
        digits_value(s.take(k)) <= digits_value(s),
    decreases s.len() - k,
{
    if k < s.len() {
        lemma_digits_value_prefix(s, k + 1);
        assert(s.take(k + 1).drop_last() =~= s.take(k));
    } else {
        assert(s.take(k) =~= s);
    }
}

/// Reads a non-negative decimal number the way `usize::from_str` does.
pub fn parse_usize(t: &str) -> (r: Option<usize>)
    ensures
        r == spec_parse_usize(t@),
{
    let cs = chars_of(t);
    let ghost s = t@;
    let start: usize = if cs.len() > 0 && cs[0] == '+' {
        1
    } else {
        0
    };
    let ghost body = s.subrange(start as int, s.len() as int);
    assert(body == if s.len() > 0 && s[0] == '+' { s.drop_first() } else { s });
    if cs.len() == start {
        return None;
    }
    let mut acc: usize = 0;
    let mut i = start;
    while i < cs.len()
        invariant
            cs@ == s,
            s == t@,
            start <= i <= cs@.len(),
            body == s.subrange(start as int, s.len() as int),
            body == if s.len() > 0 && s[0] == '+' { s.drop_first() } else { s },
            all_digits(body.take(i - start)),
            acc == digits_value(body.take(i - start)),
        decreases cs@.len() - i,
    {
        let c = cs[i];
        if c < '0' || c > '9' {
            assert(body[i - start] == c);
            return None;
        }
        let d = (c as u32 - 48) as usize;
        assert(body.take(i + 1 - start).drop_last() =~= body.take(i - start));
        assert(body.take(i + 1 - start).last() == c);
        match acc.checked_mul(10) {
            Some(m) => match m.checked_add(d) {
                Some(v) => {
                    acc = v;
                },
                None => {
                    proof {
                        if all_digits(body) {
                            lemma_digits_value_prefix(body, i + 1 - start);
                        }
                    }
                    return None;
                },
            },
            None => {
                proof {
                    if all_digits(body) {
                        lemma_digits_value_prefix(body, i + 1 - start);
                    }
                }
                return None;
            },
        }
        i = i + 1;
    }
    assert(body.take(cs@.len() - start) =~= body);
    Some(acc)
}

/// What `i32::from_str` accepts: an optional sign and at least one ASCII
/// digit, for a value in the range of `i32`.
pub open spec fn spec_parse_i32(s: Seq<char>) -> Option<i32> {
    let neg = s.len() > 0 && s[0] == '-';
    let body = if s.len() > 0 && (s[0] == '+' || s[0] == '-') {
        s.drop_first()
    } else {
        s
    };
    if body.len() == 0 || !all_digits(body) {
        None
    } else if neg {
        if digits_value(body) <= 0x8000_0000 {
            Some((0 - digits_value(body)) as i32)
        } else {
            None
        }
    } else if digits_value(body) <= 0x7fff_ffff {
        Some(digits_value(body) as i32)
    } else {
        None
    }
}

/// Reads a decimal number the way `i32::from_str` does.
pub fn parse_i32(t: &str) -> (r: Option<i32>)
    ensures
        r == spec_parse_i32(t@),
{
    let cs = chars_of(t);
    let ghost s = t@;
    let neg = cs.len() > 0 && cs[0] == '-';
    let start: usize = if cs.len() > 0 && (cs[0] == '+' || cs[0] == '-') {
        1
    } else {
        0
    };
    let ghost body = s.subrange(start as int, s.len() as int);
    assert(body == if s.len() > 0 && (s[0] == '+' || s[0] == '-') { s.drop_first() } else { s });
    if cs.len() == start {
        return None;
    }
    let mut acc: u64 = 0;
    let mut i = start;
    while i < cs.len()
        invariant
            cs@ == s,
            s == t@,
            start <= i <= cs@.len(),
            body == s.subrange(start as int, s.len() as int),
            body == if s.len() > 0 && (s[0] == '+' || s[0] == '-') { s.drop_first() } else { s },
            all_digits(body.take(i - start)),
            acc == digits_value(body.take(i - start)),
            acc <= 0x8000_0000,
        decreases cs@.len() - i,
    {
        let c = cs[i];
        if c < '0' || c > '9' {
            assert(body[i - start] == c);
            return None;
        }
        let d = (c as u32 - 48) as u64;
        assert(body.take(i + 1 - start).drop_last() =~= body.take(i - start));
        assert(body.take(i + 1 - start).last() == c);
        let v = acc * 10 + d;
        if v > 0x8000_0000 {
            proof {
                if all_digits(body) {
                    lemma_digits_value_prefix(body, i + 1 - start);
                }
            }
            return None;
        }
        acc = v;
        i = i + 1;
    }
    assert(body.take(cs@.len() - start) =~= body);
    if neg {
        Some((0 - (acc as i64)) as i32)
    } else if acc <= 0x7fff_ffff {
        Some(acc as i32)
    } else {
        None
    }
}

} // verus!
