//! Small character-level helpers shared by the notation and FEN code.
use vstd::prelude::*;

verus! {

/// Appends one character to a string.
///
/// Wraps `String::push`; the contract states that the string's characters
/// are the old ones followed by `c`, as the standard library documents.
#[verifier::external_body]
pub(crate) fn push_char(s: &mut String, c: char)
    ensures
        final(s)@ == old(s)@.push(c),
{
    s.push(c);
}

/// The characters of a string slice, in order.
pub fn chars_of(s: &str) -> (r: Vec<char>)
    ensures
        r@ == s@,
{
    let mut v: Vec<char> = Vec::new();
    for c in it: s.chars()
        invariant
            v@ == it.history(),
    {
        v.push(c);
    }
    v
}

/// Whether two string slices hold the same characters.
pub fn str_eq(a: &str, b: &str) -> (r: bool)
    ensures
        r == (a@ == b@),
{
    let x = chars_of(a);
    let y = chars_of(b);
    if x.len() != y.len() {
        proof {
            assert(x@.len() != y@.len());
        }
        return false;
    }
    let n = x.len();
    let mut i: usize = 0;
    while i < n
        invariant
            n == x@.len(),
            n == y@.len(),
            x@ == a@,
            y@ == b@,
            i <= n,
            forall|k: int| 0 <= k < i ==> x@[k] == y@[k],
        decreases n - i,
    {
        if x[i] != y[i] {
            proof {
                assert(x@[i as int] != y@[i as int]);
                assert(x@ != y@);
            }
            return false;
        }
        i += 1;
    }
    assert(x@ =~= y@);
    true
}

/// A fresh string holding exactly the given characters.
pub fn string_of(cs: &Vec<char>) -> (r: String)
    ensures
        r@ == cs@,
{
    let mut s = String::new();
    let mut i: usize = 0;
    while i < cs.len()
        invariant
            i <= cs.len(),
            s@ == cs@.subrange(0, i as int),
        decreases cs.len() - i,
    {
        push_char(&mut s, cs[i]);
        i += 1;
        assert(s@ =~= cs@.subrange(0, i as int));
    }
    assert(cs@.subrange(0, cs.len() as int) =~= cs@);
    s
}


/// Unicode white space (the `White_Space` property), which separates fields.
pub open spec fn is_ws(c: char) -> bool {
    ||| c == ' '
    ||| ('\u{9}' <= c <= '\u{d}')
    ||| c == '\u{85}'
    ||| c == '\u{a0}'
    ||| c == '\u{1680}'
    ||| ('\u{2000}' <= c <= '\u{200a}')
    ||| c == '\u{2028}'
    ||| c == '\u{2029}'
    ||| c == '\u{202f}'
    ||| c == '\u{205f}'
    ||| c == '\u{3000}'
}

/// Whether `c` is white space.
pub fn is_ws_char(c: char) -> (r: bool)
    ensures
        r == is_ws(c),
{
    c == ' ' || ('\u{9}' <= c && c <= '\u{d}') || c == '\u{85}' || c == '\u{a0}' || c == '\u{1680}'
        || ('\u{2000}' <= c && c <= '\u{200a}') || c == '\u{2028}' || c == '\u{2029}' || c
        == '\u{202f}' || c == '\u{205f}' || c == '\u{3000}'
}

/// `s` without its leading white space.
pub open spec fn trim_start(s: Seq<char>) -> Seq<char>
    decreases s.len(),
{
    if s.len() > 0 && is_ws(s[0]) {
        trim_start(s.drop_first())
    } else {
        s
    }
}

/// `s` without its trailing white space.
pub open spec fn trim_end(s: Seq<char>) -> Seq<char>
    decreases s.len(),
{
    if s.len() > 0 && is_ws(s.last()) {
        trim_end(s.drop_last())
    } else {
        s
    }
}

/// `s` without leading and trailing white space.
pub open spec fn trim(s: Seq<char>) -> Seq<char> {
    trim_end(trim_start(s))
}

/// The characters of `cs` without leading and trailing white space.
pub fn trimmed(cs: &Vec<char>) -> (r: Vec<char>)
    ensures
        r@ == trim(cs@),
{
    let n = cs.len();
    let mut a: usize = 0;
    assert(cs@.subrange(0, n as int) =~= cs@);
    while a < n && is_ws_char(cs[a])
        invariant
            n == cs@.len(),
            a <= n,
            trim_start(cs@) == trim_start(cs@.subrange(a as int, n as int)),
        decreases n - a,
    {
        assert(cs@.subrange(a as int, n as int).drop_first() =~= cs@.subrange(
            a + 1,
            n as int,
        ));
        a += 1;
    }
    assert(trim_start(cs@) == cs@.subrange(a as int, n as int));
    let mut b: usize = n;
    while b > a && is_ws_char(cs[b - 1])
        invariant
            n == cs@.len(),
            a <= b <= n,
            trim(cs@) == trim_end(cs@.subrange(a as int, b as int)),
        decreases b - a,
    {
        assert(cs@.subrange(a as int, b as int).drop_last() =~= cs@.subrange(
            a as int,
            b - 1,
        ));
        b -= 1;
    }
    assert(trim(cs@) == cs@.subrange(a as int, b as int));
    let mut out: Vec<char> = Vec::new();
    let mut k: usize = a;
    while k < b
        invariant
            n == cs@.len(),
            a <= k <= b <= n,
            out@ == cs@.subrange(a as int, k as int),
        decreases b - k,
    {
        out.push(cs[k]);
        k += 1;
        assert(out@ =~= cs@.subrange(a as int, k as int));
    }
    out
}

/// Maximal runs of non-white-space characters of `s` from position `i` on,
/// appended to `acc`, with `cur` the run in progress.
pub open spec fn fields_from(s: Seq<char>, i: int, cur: Seq<char>, acc: Seq<Seq<char>>) -> Seq<
    Seq<char>,
>
    decreases s.len() - i,
{
    if i >= s.len() {
        if cur.len() > 0 {
            acc.push(cur)
        } else {
            acc
        }
    } else if is_ws(s[i]) {
        fields_from(
            s,
            i + 1,
            Seq::empty(),
            if cur.len() > 0 {
                acc.push(cur)
            } else {
                acc
            },
        )
    } else {
        fields_from(s, i + 1, cur.push(s[i]), acc)
    }
}

/// The white-space separated fields of `s`.
pub open spec fn fields(s: Seq<char>) -> Seq<Seq<char>> {
    fields_from(s, 0, Seq::empty(), Seq::empty())
}

/// Pieces of `s` from position `i` on between occurrences of `sep`, appended
/// to `acc`, with `cur` the piece in progress; empty pieces are kept.
pub open spec fn split_from(s: Seq<char>, sep: char, i: int, cur: Seq<char>, acc: Seq<Seq<char>>) -> Seq<
    Seq<char>,
>
    decreases s.len() - i,
{
    if i >= s.len() {
        acc.push(cur)
    } else if s[i] == sep {
        split_from(s, sep, i + 1, Seq::empty(), acc.push(cur))
    } else {
        split_from(s, sep, i + 1, cur.push(s[i]), acc)
    }
}

/// The pieces of `s` between occurrences of `sep` (there is always at least one).
pub open spec fn split_on(s: Seq<char>, sep: char) -> Seq<Seq<char>> {
    split_from(s, sep, 0, Seq::empty(), Seq::empty())
}

/// The character sequences held by a vector of character vectors.
pub open spec fn texts(v: Seq<Vec<char>>) -> Seq<Seq<char>> {
    v.map_values(|x: Vec<char>| x@)
}

/// Splits characters into white-space separated fields.
pub fn split_fields(cs: &Vec<char>) -> (r: Vec<Vec<char>>)
    ensures
        texts(r@) == fields(cs@),
{
    let mut acc: Vec<Vec<char>> = Vec::new();
    let mut cur: Vec<char> = Vec::new();
    let mut i: usize = 0;
    assert(texts(acc@) =~= Seq::<Seq<char>>::empty());
    assert(cur@ =~= Seq::<char>::empty());
    while i < cs.len()
        invariant
            i <= cs.len(),
            fields(cs@) == fields_from(cs@, i as int, cur@, texts(acc@)),
        decreases cs.len() - i,
    {
        let c = cs[i];
        if is_ws_char(c) {
            if cur.len() > 0 {
                let ghost a0 = texts(acc@);
                let done = cur;
                acc.push(done);
                assert(texts(acc@) =~= a0.push(done@));
            }
            cur = Vec::new();
        } else {
            cur.push(c);
        }
        i += 1;
    }
    if cur.len() > 0 {
        let ghost a0 = texts(acc@);
        let done = cur;
        acc.push(done);
        assert(texts(acc@) =~= a0.push(done@));
    }
    acc
}

/// Splits characters at each `sep`.
pub fn split_at_char(cs: &Vec<char>, sep: char) -> (r: Vec<Vec<char>>)
    ensures
        texts(r@) == split_on(cs@, sep),
{
    let mut acc: Vec<Vec<char>> = Vec::new();
    let mut cur: Vec<char> = Vec::new();
    let mut i: usize = 0;
    assert(texts(acc@) =~= Seq::<Seq<char>>::empty());
    assert(cur@ =~= Seq::<char>::empty());
    while i < cs.len()
        invariant
            i <= cs.len(),
            split_on(cs@, sep) == split_from(cs@, sep, i as int, cur@, texts(acc@)),
        decreases cs.len() - i,
    {
        let c = cs[i];
        if c == sep {
            let ghost a0 = texts(acc@);
            let done = cur;
            acc.push(done);
            assert(texts(acc@) =~= a0.push(done@));
            cur = Vec::new();
        } else {
            cur.push(c);
        }
        i += 1;
    }
    let ghost a0 = texts(acc@);
    let done = cur;
    acc.push(done);
    assert(texts(acc@) =~= a0.push(done@));
    acc
}

/// Whether `c` is an ASCII decimal digit.
pub open spec fn is_digit(c: char) -> bool {
    '0' <= c <= '9'
}

/// Value of the ASCII digit `c`.
pub open spec fn digit_value(c: char) -> int {
    c as int - 48
}

/// Value of `ch` if it is a decimal digit.
pub fn digit_of(ch: char) -> (r: Option<u8>)
    ensures
        r matches Some(d) ==> is_digit(ch) && d == digit_value(ch),
        r is None ==> !is_digit(ch),
{
    match ch {
        '0' => Some(0),
        '1' => Some(1),
        '2' => Some(2),
        '3' => Some(3),
        '4' => Some(4),
        '5' => Some(5),
        '6' => Some(6),
        '7' => Some(7),
        '8' => Some(8),
        '9' => Some(9),
        _ => None,
    }
}

/// Value of a string of decimal digits (0 for the empty string).
pub open spec fn digits_value(t: Seq<char>) -> int
    decreases t.len(),
{
    if t.len() == 0 {
        0
    } else {
        digits_value(t.drop_last()) * 10 + digit_value(t.last())
    }
}

/// Whether every character of `t` is a decimal digit.
pub open spec fn all_digits(t: Seq<char>) -> bool {
    forall|i: int| 0 <= i < t.len() ==> is_digit(#[trigger] t[i])
}

/// The unsigned 16-bit number written in `t`: an optional `+`, then one or
/// more decimal digits, of value at most 65535.
pub open spec fn u16_of(t: Seq<char>) -> Option<u16> {
    let d = if t.len() > 0 && t[0] == '+' {
        t.skip(1)
    } else {
        t
    };
    if d.len() > 0 && all_digits(d) && digits_value(d) <= 0xffff {
        Some(digits_value(d) as u16)
    } else {
        None
    }
}

/// Digit values never decrease as digits are added.
proof fn lemma_digits_value_prefix(t: Seq<char>, n: int)
    requires
        0 <= n <= t.len(),
        all_digits(t),
    ensures
        0 <= digits_value(t.take(n)) <= digits_value(t),
    decreases t.len() - n,
{
    if n < t.len() {
        lemma_digits_value_prefix(t, n + 1);
        assert(t.take(n + 1).drop_last() =~= t.take(n));
        assert(is_digit(t[n]));
    } else {
        assert(t.take(n) =~= t);
    }
    lemma_digits_value_nonneg(t.take(n));
}

/// Digit values are not negative.
proof fn lemma_digits_value_nonneg(t: Seq<char>)
    requires
        all_digits(t),
    ensures
        digits_value(t) >= 0,
    decreases t.len(),
{
    if t.len() > 0 {
        assert(all_digits(t.drop_last()));
        lemma_digits_value_nonneg(t.drop_last());
        assert(is_digit(t[t.len() - 1]));
    }
}

/// Parses an unsigned 16-bit number written in decimal.
pub fn parse_u16(t: &Vec<char>) -> (r: Option<u16>)
    ensures
        r == u16_of(t@),
{
    let mut start: usize = 0;
    if t.len() > 0 && t[0] == '+' {
        start = 1;
    }
    let ghost d = if t@.len() > 0 && t@[0] == '+' {
        t@.skip(1)
    } else {
        t@
    };
    assert(d =~= t@.skip(start as int));
    if start >= t.len() {
        return None;
    }
    let mut v: u32 = 0;
    let mut i: usize = start;
    while i < t.len()
        invariant
            start <= i <= t.len(),
            d =~= t@.skip(start as int),
            d == (if t@.len() > 0 && t@[0] == '+' {
                t@.skip(1)
            } else {
                t@
            }),
            all_digits(d.take(i - start)),
            v == digits_value(d.take(i - start)),
            v <= 0xffff,
        decreases t.len() - i,
    {
        let c = t[i];
        if !('0' <= c && c <= '9') {
            assert(d[i - start] == c);
            assert(!is_digit(d[i - start]));
            return None;
        }
        assert(d.take(i - start + 1).drop_last() =~= d.take(i - start));
        assert(d.take(i - start + 1).last() == c);
        let nv = v * 10 + (c as u32 - 48);
        assert(digits_value(d.take(i - start + 1)) == nv);
        assert(all_digits(d.take(i - start + 1)));
        if nv > 0xffff {
            proof {
                assert(all_digits(d.take(i - start + 1)));
                if all_digits(d) {
                    lemma_digits_value_prefix(d, i - start + 1);
                }
            }
            return None;
        }
        v = nv;
        i += 1;
    }
    assert(d.take(i - start) =~= d);
    Some(v as u16)
}

/// Decimal digits of `n`, most significant first, without leading zeros.
pub open spec fn decimal(n: nat) -> Seq<char>
    decreases n,
{
    if n < 10 {
        seq![(n + 48) as char]
    } else {
        decimal(n / 10).push(((n % 10) + 48) as char)
    }
}

/// Appends the decimal digits of `n`.
pub fn push_decimal(s: &mut String, n: u16)
    ensures
        final(s)@ == old(s)@ + decimal(n as nat),
    decreases n,
{
    if n >= 10 {
        push_decimal(s, n / 10);
    }
    let d = ((n % 10) as u8 + 48) as char;
    push_char(s, d);
    proof {
        if n < 10 {
            assert(old(s)@ + decimal(n as nat) =~= old(s)@.push(d));
        } else {
            assert(old(s)@ + decimal((n / 10) as nat) + seq![d] =~= old(s)@ + decimal(n as nat));
        }
    }
}

/// Appends the characters of `t` to `s`.
pub fn push_str(s: &mut String, t: &str)
    ensures
        final(s)@ == old(s)@ + t@,
{
    let cs = chars_of(t);
    let mut k: usize = 0;
    while k < cs.len()
        invariant
            k <= cs@.len(),
            cs@ == t@,
            s@ == old(s)@ + cs@.take(k as int),
        decreases cs@.len() - k,
    {
        push_char(s, cs[k]);
        k += 1;
        assert(s@ =~= old(s)@ + cs@.take(k as int));
    }
    assert(cs@.take(cs@.len() as int) =~= cs@);
}

/// Appends the decimal digits of `n` to `s`.
pub fn push_number(s: &mut String, n: u64)
    ensures
        final(s)@ == old(s)@ + decimal(n as nat),
    decreases n,
{
    if n >= 10 {
        push_number(s, n / 10);
    }
    let d = ((n % 10) as u8 + 48) as char;
    push_char(s, d);
    proof {
        if n < 10 {
            assert(old(s)@ + decimal(n as nat) =~= old(s)@.push(d));
        } else {
            assert(old(s)@ + decimal((n / 10) as nat) + seq![d] =~= old(s)@ + decimal(n as nat));
        }
    }
}

/// A fresh string holding the characters of `t`.
pub fn owned(t: &str) -> (r: String)
    ensures
        r@ == t@,
{
    t.to_owned()
}

} // verus!
