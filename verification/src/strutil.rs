//! Verified helpers on strings: decimal rendering of integers, character
//! escaping, lexicographic comparison, and integer parsing.

use vstd::prelude::*;

verus! {

/// The decimal digit character for `d` in 0..10.
pub open spec fn spec_digit(d: int) -> char {
    if d == 0 { '0' }
    else if d == 1 { '1' }
    else if d == 2 { '2' }
    else if d == 3 { '3' }
    else if d == 4 { '4' }
    else if d == 5 { '5' }
    else if d == 6 { '6' }
    else if d == 7 { '7' }
    else if d == 8 { '8' }
    else { '9' }
}

/// The decimal rendering of `n`, without padding.
pub open spec fn spec_dec(n: nat) -> Seq<char>
    decreases n,
{
    if n < 10 {
        seq![spec_digit(n as int)]
    } else {
        spec_dec(n / 10).push(spec_digit((n % 10) as int))
    }
}

/// The last `w` decimal digits of `n`; for `n < 10^w` this is `n`
/// zero-padded on the left to exactly `w` digits.
pub open spec fn spec_dec_pad(n: nat, w: nat) -> Seq<char>
    decreases w,
{
    if w == 0 {
        Seq::empty()
    } else {
        spec_dec_pad(n / 10, (w - 1) as nat).push(spec_digit((n % 10) as int))
    }
}

/// Append one decimal digit to `s`.
pub fn push_digit(s: &mut String, d: u32)
    requires
        d < 10,
    ensures
        final(s)@ == old(s)@.push(spec_digit(d as int)),
{
    proof {
        reveal_strlit("0");
        reveal_strlit("1");
        reveal_strlit("2");
        reveal_strlit("3");
        reveal_strlit("4");
        reveal_strlit("5");
        reveal_strlit("6");
        reveal_strlit("7");
        reveal_strlit("8");
        reveal_strlit("9");
    }
    match d {
        0 => s.append("0"),
        1 => s.append("1"),
        2 => s.append("2"),
        3 => s.append("3"),
        4 => s.append("4"),
        5 => s.append("5"),
        6 => s.append("6"),
        7 => s.append("7"),
        8 => s.append("8"),
        _ => s.append("9"),
    }
    proof {
        assert(final(s)@ =~= old(s)@.push(spec_digit(d as int)));
    }
}

/// Append the decimal rendering of `n` to `s`.
pub fn push_dec_u128(s: &mut String, n: u128)
    ensures
        final(s)@ == old(s)@ + spec_dec(n as nat),
    decreases n,
{
    if n < 10 {
        push_digit(s, n as u32);
        proof {
            assert(final(s)@ =~= old(s)@ + spec_dec(n as nat));
        }
    } else {
        push_dec_u128(s, n / 10);
        push_digit(s, (n % 10) as u32);
        proof {
            assert(final(s)@ =~= old(s)@ + spec_dec(n as nat));
        }
    }
}

/// Append the decimal rendering of `n` to `s`.
pub fn push_dec_u32(s: &mut String, n: u32)
    ensures
        final(s)@ == old(s)@ + spec_dec(n as nat),
{
    push_dec_u128(s, n as u128);
}

/// Append the last `w` decimal digits of `n` to `s` (zero-padded when
/// `n` has fewer than `w` digits).
pub fn push_dec_pad_u128(s: &mut String, n: u128, w: u32)
    ensures
        final(s)@ == old(s)@ + spec_dec_pad(n as nat, w as nat),
    decreases w,
{
    if w == 0 {
        proof {
            assert(final(s)@ =~= old(s)@ + spec_dec_pad(n as nat, 0));
        }
    } else {
        push_dec_pad_u128(s, n / 10, w - 1);
        push_digit(s, (n % 10) as u32);
        proof {
            assert(final(s)@ =~= old(s)@ + spec_dec_pad(n as nat, w as nat));
        }
    }
}

/// Append the last `w` decimal digits of `n` to `s`.
pub fn push_dec_pad_u32(s: &mut String, n: u32, w: u32)
    ensures
        final(s)@ == old(s)@ + spec_dec_pad(n as nat, w as nat),
{
    push_dec_pad_u128(s, n as u128, w);
}

/// Append the single character at index `i` of `t` to `s`.
pub fn push_char_at(s: &mut String, t: &str, i: usize)
    requires
        i < t@.len(),
        i + 1 <= usize::MAX,
    ensures
        final(s)@ == old(s)@.push(t@[i as int]),
{
    let piece = t.substring_char(i, i + 1);
    s.append(piece);
    proof {
        assert(piece@ =~= seq![t@[i as int]]);
        assert(final(s)@ =~= old(s)@.push(t@[i as int]));
    }
}

/// Whether two strings hold the same characters.
pub fn str_eq(a: &str, b: &str) -> (r: bool)
    ensures
        r == (a@ == b@),
{
    let la = a.unicode_len();
    let lb = b.unicode_len();
    if la != lb {
        return false;
    }
    let mut i: usize = 0;
    while i < la
        invariant
            la == a@.len(),
            la == b@.len(),
            i <= la,
            forall|j: int| 0 <= j < i ==> a@[j] == b@[j],
        decreases la - i,
    {
        if a.get_char(i) != b.get_char(i) {
            return false;
        }
        i = i + 1;
    }
    proof {
        assert(a@ =~= b@);
    }
    true
}

/// Whether a `String` and a `&str` hold the same characters.
pub fn string_eq_str(a: &String, b: &str) -> (r: bool)
    ensures
        r == (a@ == b@),
{
    str_eq(a.as_str(), b)
}

/// Lexicographic order on character sequences, by code point.
pub open spec fn spec_str_le(a: Seq<char>, b: Seq<char>) -> bool
    decreases a.len(),
{
    if a.len() == 0 {
        true
    } else if b.len() == 0 {
        false
    } else if a[0] == b[0] {
        spec_str_le(a.subrange(1, a.len() as int), b.subrange(1, b.len() as int))
    } else {
        (a[0] as u32) < (b[0] as u32)
    }
}

/// Strict lexicographic order on character sequences.
pub open spec fn spec_str_lt(a: Seq<char>, b: Seq<char>) -> bool {
    spec_str_le(a, b) && a != b
}

proof fn lemma_str_le_step(a: Seq<char>, b: Seq<char>, i: int)
    requires
        0 <= i < a.len(),
        0 <= i < b.len(),
        a[i] == b[i],
    ensures
        spec_str_le(a.subrange(i, a.len() as int), b.subrange(i, b.len() as int))
            == spec_str_le(a.subrange(i + 1, a.len() as int), b.subrange(i + 1, b.len() as int)),
{
    let sa = a.subrange(i, a.len() as int);
    let sb = b.subrange(i, b.len() as int);
    assert(sa[0] == a[i]);
    assert(sb[0] == b[i]);
    assert(sa.subrange(1, sa.len() as int) =~= a.subrange(i + 1, a.len() as int));
    assert(sb.subrange(1, sb.len() as int) =~= b.subrange(i + 1, b.len() as int));
}

/// Whether `a <= b` lexicographically.
pub fn str_le(a: &str, b: &str) -> (r: bool)
    ensures
        r == spec_str_le(a@, b@),
{
    let la = a.unicode_len();
    let lb = b.unicode_len();
    let mut i: usize = 0;
    proof {
        assert(a@.subrange(0, la as int) =~= a@);
        assert(b@.subrange(0, lb as int) =~= b@);
    }
    loop
        invariant
            la == a@.len(),
            lb == b@.len(),
            i <= la,
            i <= lb,
            forall|j: int| 0 <= j < i ==> a@[j] == b@[j],
            spec_str_le(a@, b@) == spec_str_le(
                a@.subrange(i as int, la as int),
                b@.subrange(i as int, lb as int),
            ),
        decreases la - i,
    {
        if i >= la {
            proof {
                assert(a@.subrange(i as int, la as int).len() == 0);
            }
            return true;
        }
        if i >= lb {
            proof {
                assert(b@.subrange(i as int, lb as int).len() == 0);
                assert(a@.subrange(i as int, la as int).len() > 0);
            }
            return false;
        }
        let ca = a.get_char(i);
        let cb = b.get_char(i);
        if ca != cb {
            proof {
                assert(a@.subrange(i as int, la as int)[0] == ca);
                assert(b@.subrange(i as int, lb as int)[0] == cb);
            }
            return (ca as u32) < (cb as u32);
        }
        proof {
            lemma_str_le_step(a@, b@, i as int);
        }
        i = i + 1;
    }
}

/// Whether `a < b` lexicographically.
pub fn str_lt(a: &str, b: &str) -> (r: bool)
    ensures
        r == spec_str_lt(a@, b@),
{
    let le = str_le(a, b);
    let eq = str_eq(a, b);
    proof {
        if a@ == b@ {
            assert(a@ == b@);
        }
    }
    le && !eq
}

/// Whether `c` is a decimal digit.
pub open spec fn spec_is_digit(c: char) -> bool {
    48 <= (c as u32) <= 57
}

/// The numeric value of a digit character.
pub open spec fn spec_digit_val(c: char) -> int {
    (c as u32) - 48
}

/// Whether every character of `s` is a decimal digit.
pub open spec fn spec_all_digits(s: Seq<char>) -> bool {
    forall|i: int| 0 <= i < s.len() ==> spec_is_digit(#[trigger] s[i])
}

/// The numeric value of a digit string.
pub open spec fn spec_digits_val(s: Seq<char>) -> int
    decreases s.len(),
{
    if s.len() == 0 {
        0
    } else {
        spec_digits_val(s.drop_last()) * 10 + spec_digit_val(s.last())
    }
}

proof fn lemma_digits_val_nonneg(s: Seq<char>)
    requires
        spec_all_digits(s),
    ensures
        spec_digits_val(s) >= 0,
    decreases s.len(),
{
    if s.len() > 0 {
        assert(spec_all_digits(s.drop_last())) by {
            assert(forall|i: int| 0 <= i < s.len() - 1 ==> spec_is_digit(#[trigger] s.drop_last()[i]));
        }
        lemma_digits_val_nonneg(s.drop_last());
    }
}

proof fn lemma_digits_val_prefix(s: Seq<char>, i: int)
    requires
        spec_all_digits(s),
        0 <= i <= s.len(),
    ensures
        spec_digits_val(s.subrange(0, i)) <= spec_digits_val(s),
    decreases s.len() - i,
{
    if i < s.len() {
        let t = s.subrange(0, i + 1);
        assert(t.drop_last() =~= s.subrange(0, i));
        assert(spec_all_digits(t)) by {
            assert(forall|j: int| 0 <= j < t.len() ==> t[j] == s[j] && spec_is_digit(#[trigger] t[j]));
        }
        lemma_digits_val_nonneg(s.subrange(0, i));
        assert(spec_digits_val(t) == spec_digits_val(s.subrange(0, i)) * 10 + spec_digit_val(t.last()));
        assert(spec_digit_val(t.last()) >= 0);
        assert(spec_digits_val(s.subrange(0, i)) * 10 >= spec_digits_val(s.subrange(0, i))) by (nonlinear_arith)
            requires spec_digits_val(s.subrange(0, i)) >= 0;
        lemma_digits_val_prefix(s, i + 1);
        assert(s.subrange(0, s.len() as int) =~= s);
    } else {
        assert(s.subrange(0, i) =~= s);
    }
}

/// The result of reading `s` as an unsigned 32-bit integer: a leading `+`
/// is allowed, at least one digit is required, every further character
/// must be a digit, and the value must fit.
pub open spec fn spec_parse_u32(s: Seq<char>) -> Option<u32> {
    let t = if s.len() > 0 && s[0] == '+' { s.subrange(1, s.len() as int) } else { s };
    if t.len() > 0 && spec_all_digits(t) && spec_digits_val(t) <= u32::MAX {
        Some(spec_digits_val(t) as u32)
    } else {
        None
    }
}

fn parse_digits_u32(t: &str, start: usize) -> (r: Option<u32>)
    requires
        start <= t@.len(),
    ensures
        ({
            let d = t@.subrange(start as int, t@.len() as int);
            match r {
                Some(v) => d.len() > 0 && spec_all_digits(d) && spec_digits_val(d) == v as int,
                None => !(d.len() > 0 && spec_all_digits(d) && spec_digits_val(d) <= u32::MAX),
            }
        }),
{
    let ghost d = t@.subrange(start as int, t@.len() as int);
    let len = t.unicode_len();
    if start >= len {
        return None;
    }
    let mut acc: u32 = 0;
    let mut i: usize = start;
    while i < len
        invariant
            len == t@.len(),
            start <= i <= len,
            d == t@.subrange(start as int, t@.len() as int),
            spec_all_digits(d.subrange(0, i - start)),
            acc as int == spec_digits_val(d.subrange(0, i - start)),
        decreases len - i,
    {
        let c = t.get_char(i);
        let cv = c as u32;
        if cv < 48 || cv > 57 {
            proof {
                assert(d[i - start] == t@[i as int]);
                assert(!spec_is_digit(d[i - start]));
            }
            return None;
        }
        let dv: u32 = cv - 48;
        let ghost pre = d.subrange(0, i - start);
        let ghost cur = d.subrange(0, i + 1 - start);
        proof {
            assert(cur.drop_last() =~= pre);
            assert(cur.last() == t@[i as int]);
            assert(spec_all_digits(cur)) by {
                assert(forall|j: int| 0 <= j < cur.len() - 1 ==> cur[j] == pre[j]);
            }
        }
        let step = match acc.checked_mul(10) {
            Some(m) => m.checked_add(dv),
            None => None,
        };
        match step {
            Some(v) => {
                acc = v;
            }
            None => {
                proof {
                    assert(spec_digits_val(cur) == acc as int * 10 + dv);
                    assert(spec_digits_val(cur) > u32::MAX);
                    lemma_digits_val_prefix_full(d, (i + 1 - start) as int);
                }
                return None;
            }
        }
        i = i + 1;
    }
    proof {
        assert(d.subrange(0, i - start) =~= d);
    }
    Some(acc)
}

proof fn lemma_digits_val_prefix_full(d: Seq<char>, i: int)
    requires
        0 <= i <= d.len(),
        spec_all_digits(d.subrange(0, i)),
        spec_digits_val(d.subrange(0, i)) > u32::MAX,
    ensures
        !(spec_all_digits(d) && spec_digits_val(d) <= u32::MAX),
{
    if spec_all_digits(d) {
        lemma_digits_val_prefix(d, i);
    }
}

/// Read `s` as an unsigned 32-bit integer, as the standard library does.
pub fn parse_u32(s: &str) -> (r: Option<u32>)
    ensures
        r == spec_parse_u32(s@),
{
    let len = s.unicode_len();
    if len > 0 && s.get_char(0) == '+' {
        parse_digits_u32(s, 1)
    } else {
        let r = parse_digits_u32(s, 0);
        proof {
            assert(s@.subrange(0, s@.len() as int) =~= s@);
        }
        r
    }
}

/// One character, escaped for inclusion in a quoted string: quotes,
/// backslashes and the common control characters take a backslash form;
/// every other character stands for itself.
pub open spec fn spec_escape_char(c: char) -> Seq<char> {
    if c == '"' { seq!['\\', '"'] }
    else if c == '\\' { seq!['\\', '\\'] }
    else if c == '\n' { seq!['\\', 'n'] }
    else if c == '\r' { seq!['\\', 'r'] }
    else if c == '\t' { seq!['\\', 't'] }
    else { seq![c] }
}

/// `s` with each character escaped.
pub open spec fn spec_escape(s: Seq<char>) -> Seq<char>
    decreases s.len(),
{
    if s.len() == 0 {
        Seq::empty()
    } else {
        spec_escape(s.drop_last()) + spec_escape_char(s.last())
    }
}

/// `s` quoted and escaped, as it appears inside error messages and
/// serialized output.
pub open spec fn spec_quoted(s: Seq<char>) -> Seq<char> {
    seq!['"'] + spec_escape(s) + seq!['"']
}

/// Append the escaped form of `t` to `s`.
pub fn push_escaped(s: &mut String, t: &str)
    ensures
        final(s)@ == old(s)@ + spec_escape(t@),
{
    let len = t.unicode_len();
    let mut i: usize = 0;
    proof {
        assert(t@.subrange(0, 0) =~= Seq::<char>::empty());
        assert(spec_escape(t@.subrange(0, 0)) =~= Seq::<char>::empty());
        assert(s@ =~= old(s)@ + spec_escape(t@.subrange(0, 0)));
    }
    while i < len
        invariant
            len == t@.len(),
            i <= len,
            s@ == old(s)@ + spec_escape(t@.subrange(0, i as int)),
        decreases len - i,
    {
        let c = t.get_char(i);
        proof {
            reveal_strlit("\\");
            reveal_strlit("\"");
            reveal_strlit("n");
            reveal_strlit("r");
            reveal_strlit("t");
        }
        if c == '"' {
            s.append("\\");
            s.append("\"");
        } else if c == '\\' {
            s.append("\\");
            s.append("\\");
        } else if c == '\n' {
            s.append("\\");
            s.append("n");
        } else if c == '\r' {
            s.append("\\");
            s.append("r");
        } else if c == '\t' {
            s.append("\\");
            s.append("t");
        } else {
            push_char_at(s, t, i);
        }
        proof {
            let pre = t@.subrange(0, i as int);
            let cur = t@.subrange(0, i + 1);
            assert(cur.drop_last() =~= pre);
            assert(cur.last() == t@[i as int]);
            assert(s@ =~= old(s)@ + spec_escape(cur));
        }
        i = i + 1;
    }
    proof {
        assert(t@.subrange(0, len as int) =~= t@);
    }
}

/// Append `t` quoted and escaped to `s`.
pub fn push_quoted(s: &mut String, t: &str)
    ensures
        final(s)@ == old(s)@ + spec_quoted(t@),
{
    proof {
        reveal_strlit("\"");
    }
    s.append("\"");
    push_escaped(s, t);
    s.append("\"");
    proof {
        assert(final(s)@ =~= old(s)@ + spec_quoted(t@));
    }
}

} // verus!
