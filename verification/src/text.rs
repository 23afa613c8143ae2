//! Character-level utilities shared by the text codecs.

use vstd::prelude::*;
use vstd::string::StrSliceExecFns;

verus! {

/// The characters of a string slice, in order.
pub fn str_to_chars(s: &str) -> (r: Vec<char>)
    ensures
        r@ == s@,
{
    let len = s.unicode_len();
    let mut r: Vec<char> = Vec::new();
    let mut i: usize = 0;
    while i < len
        invariant
            i <= len,
            len == s@.len(),
            r@ == s@.subrange(0, i as int),
        decreases len - i,
    {
        r.push(s.get_char(i));
        assert(s@.subrange(0, i as int).push(s@[i as int]) =~= s@.subrange(0, i + 1 as int));
        i += 1;
    }
    assert(r@ =~= s@);
    r
}

/// Relies on std's `FromIterator<char>` for `String`: collecting characters
/// yields the string of exactly those characters, in order.
#[verifier::external_body]
pub fn chars_to_string(v: &Vec<char>) -> (r: String)
    ensures
        r@ == v@,
{
    v.iter().collect()
}

/// Whether `s` has `prefix` at offset `from`.
pub open spec fn has_at(s: Seq<char>, from: int, prefix: Seq<char>) -> bool {
    &&& 0 <= from
    &&& from + prefix.len() <= s.len()
    &&& s.subrange(from, from + prefix.len()) == prefix
}

/// Exec check that `s` has the characters of `prefix` at offset `from`.
pub fn chars_have_at(s: &Vec<char>, from: usize, prefix: &Vec<char>) -> (r: bool)
    ensures
        r == has_at(s@, from as int, prefix@),
{
    if from > s.len() || prefix.len() > s.len() - from {
        return false;
    }
    let mut i: usize = 0;
    while i < prefix.len()
        invariant
            0 <= i <= prefix.len(),
            from + prefix.len() <= s.len(),
            forall|j: int| 0 <= j < i ==> s@[from + j] == prefix@[j],
        decreases prefix.len() - i,
    {
        if s[from + i] != prefix[i] {
            assert(s@.subrange(from as int, from + prefix@.len()) != prefix@) by {
                assert(s@.subrange(from as int, from + prefix@.len())[i as int] != prefix@[i as int]);
            }
            return false;
        }
        i += 1;
    }
    assert(s@.subrange(from as int, from + prefix@.len()) =~= prefix@);
    true
}

/// A copy of the characters of `s` from `from` to `to`.
pub fn chars_slice(s: &Vec<char>, from: usize, to: usize) -> (r: Vec<char>)
    requires
        from <= to <= s@.len(),
    ensures
        r@ == s@.subrange(from as int, to as int),
{
    let mut r: Vec<char> = Vec::new();
    let mut i: usize = from;
    while i < to
        invariant
            from <= i <= to <= s@.len(),
            r@ == s@.subrange(from as int, i as int),
        decreases to - i,
    {
        r.push(s[i]);
        assert(s@.subrange(from as int, i as int).push(s@[i as int]) =~= s@.subrange(
            from as int,
            i + 1 as int,
        ));
        i += 1;
    }
    r
}

/// Appends the characters of `tail` to `out`.
pub fn push_chars(out: &mut Vec<char>, tail: &str)
    ensures
        final(out)@ == old(out)@ + tail@,
{
    let chars = str_to_chars(tail);
    let mut i: usize = 0;
    while i < chars.len()
        invariant
            i <= chars@.len(),
            chars@ == tail@,
            out@ == old(out)@ + tail@.subrange(0, i as int),
        decreases chars@.len() - i,
    {
        out.push(chars[i]);
        assert((old(out)@ + tail@.subrange(0, i as int)).push(tail@[i as int]) =~= old(out)@
            + tail@.subrange(0, i + 1 as int));
        i += 1;
    }
    assert(out@ =~= old(out)@ + tail@);
}

/// Appends a copy of the characters of `tail` to `out`.
pub fn push_char_vec(out: &mut Vec<char>, tail: &Vec<char>)
    ensures
        final(out)@ == old(out)@ + tail@,
{
    let mut i: usize = 0;
    while i < tail.len()
        invariant
            i <= tail@.len(),
            out@ == old(out)@ + tail@.subrange(0, i as int),
        decreases tail@.len() - i,
    {
        out.push(tail[i]);
        assert((old(out)@ + tail@.subrange(0, i as int)).push(tail@[i as int]) =~= old(out)@
            + tail@.subrange(0, i + 1 as int));
        i += 1;
    }
    assert(out@ =~= old(out)@ + tail@);
}

/// The value of a decimal digit character, or -1 for any other character.
pub open spec fn digit_value(c: char) -> int {
    if '0' <= c && c <= '9' {
        c as int - 48
    } else {
        -1
    }
}

/// Whether `c` is a decimal digit.
pub open spec fn is_digit(c: char) -> bool {
    digit_value(c) >= 0
}

/// Exec mirror of [`digit_value`], as an option.
pub fn digit_of(c: char) -> (r: Option<u8>)
    ensures
        match r {
            Some(d) => is_digit(c) && d == digit_value(c),
            None => !is_digit(c),
        },
{
    if '0' <= c && c <= '9' {
        Some((c as u8) - 48)
    } else {
        None
    }
}

/// The digit character for a value below ten.
pub open spec fn digit_char(d: int) -> char
    recommends
        0 <= d < 10,
{
    ((d + 48) as u8) as char
}

/// Exec mirror of [`digit_char`].
pub fn digit_to_char(d: u8) -> (r: char)
    requires
        d < 10,
    ensures
        r == digit_char(d as int),
{
    (d + 48) as char
}

/// The number denoted by a sequence of decimal digits, most significant first.
pub open spec fn decimal_value(s: Seq<char>) -> int
    decreases s.len(),
{
    if s.len() == 0 {
        0
    } else {
        decimal_value(s.drop_last()) * 10 + digit_value(s.last())
    }
}

/// Whether every character of `s` is a decimal digit.
pub open spec fn all_digits(s: Seq<char>) -> bool {
    forall|i: int| 0 <= i < s.len() ==> is_digit(#[trigger] s[i])
}


/// `s` with every non-overlapping occurrence of `pat` replaced by `rep`,
/// scanning left to right; an empty pattern replaces nothing.
pub open spec fn replace_all(s: Seq<char>, pat: Seq<char>, rep: Seq<char>) -> Seq<char>
    decreases s.len(),
{
    if pat.len() == 0 || s.len() < pat.len() {
        s
    } else if s.take(pat.len() as int) == pat {
        rep + replace_all(s.skip(pat.len() as int), pat, rep)
    } else {
        seq![s[0]] + replace_all(s.drop_first(), pat, rep)
    }
}

/// Exec mirror of [`replace_all`].
pub fn replace_chars(s: &Vec<char>, pat: &Vec<char>, rep: &Vec<char>) -> (r: Vec<char>)
    ensures
        r@ == replace_all(s@, pat@, rep@),
{
    let n = s.len();
    let plen = pat.len();
    let mut out: Vec<char> = Vec::new();
    let mut i: usize = 0;
    proof {
        assert(s@.skip(0) =~= s@);
    }
    while i < n
        invariant
            0 <= i <= n,
            n == s@.len(),
            plen == pat@.len(),
            replace_all(s@, pat@, rep@) == out@ + replace_all(s@.skip(i as int), pat@, rep@),
        decreases n - i,
    {
        let ghost tail = s@.skip(i as int);
        if plen > 0 && plen <= n - i && chars_have_at(s, i, pat) {
            proof {
                assert(tail.take(plen as int) =~= s@.subrange(i as int, i + plen));
                assert(tail.skip(plen as int) =~= s@.skip(i + plen));
            }
            push_char_vec(&mut out, rep);
            i += plen;
        } else {
            proof {
                if plen > 0 && plen <= tail.len() {
                    assert(tail.take(plen as int) =~= s@.subrange(i as int, i + plen));
                }
                assert(tail.drop_first() =~= s@.skip(i + 1));
                assert(seq![tail[0]] =~= seq![s@[i as int]]);
            }
            out.push(s[i]);
            proof {
                assert(out@ =~= out@.drop_last() + seq![s@[i as int]]);
            }
            i += 1;
        }
    }
    proof {
        assert(s@.skip(n as int) =~= Seq::<char>::empty());
        assert(out@ + Seq::<char>::empty() =~= out@);
    }
    out
}

/// Lexicographic order on character sequences, by code point.
pub open spec fn chars_le(a: Seq<char>, b: Seq<char>) -> bool
    decreases a.len(),
{
    if a.len() == 0 {
        true
    } else if b.len() == 0 {
        false
    } else if a[0] < b[0] {
        true
    } else if a[0] > b[0] {
        false
    } else {
        chars_le(a.drop_first(), b.drop_first())
    }
}

/// Exec mirror of [`chars_le`] on strings.
pub fn str_le(a: &str, b: &str) -> (r: bool)
    ensures
        r == chars_le(a@, b@),
{
    let av = str_to_chars(a);
    let bv = str_to_chars(b);
    let mut i: usize = 0;
    proof {
        assert(a@.skip(0) =~= a@);
        assert(b@.skip(0) =~= b@);
    }
    loop
        invariant
            0 <= i <= av@.len(),
            i <= bv@.len(),
            av@ == a@,
            bv@ == b@,
            chars_le(a@, b@) == chars_le(a@.skip(i as int), b@.skip(i as int)),
        ensures
            ({
                let ra = a@.skip(i as int);
                let rb = b@.skip(i as int);
                chars_le(a@, b@) == chars_le(ra, rb) && (ra.len() == 0 || rb.len() == 0 || ra[0]
                    != rb[0])
            }),
        decreases av@.len() - i,
    {
        if i >= av.len() || i >= bv.len() {
            break;
        }
        if av[i] != bv[i] {
            break;
        }
        proof {
            let ra = a@.skip(i as int);
            let rb = b@.skip(i as int);
            assert(ra[0] == a@[i as int] && rb[0] == b@[i as int]);
            assert(ra.drop_first() =~= a@.skip(i + 1));
            assert(rb.drop_first() =~= b@.skip(i + 1));
        }
        i += 1;
    }
    proof {
        let ra = a@.skip(i as int);
        let rb = b@.skip(i as int);
        if ra.len() > 0 && rb.len() > 0 {
            assert(ra[0] == a@[i as int] && rb[0] == b@[i as int]);
        }
    }
    if i >= av.len() {
        true
    } else if i >= bv.len() {
        false
    } else {
        av[i] < bv[i]
    }
}


/// Whether two character vectors hold the same characters.
pub fn chars_eq(a: &Vec<char>, b: &Vec<char>) -> (r: bool)
    ensures
        r == (a@ == b@),
{
    if a.len() != b.len() {
        return false;
    }
    let mut i: usize = 0;
    while i < a.len()
        invariant
            0 <= i <= a@.len(),
            a@.len() == b@.len(),
            forall|j: int| 0 <= j < i ==> a@[j] == b@[j],
        decreases a@.len() - i,
    {
        if a[i] != b[i] {
            assert(a@[i as int] != b@[i as int]);
            return false;
        }
        i += 1;
    }
    assert(a@ =~= b@);
    true
}


/// Ten to the `n`.
pub open spec fn pow10(n: int) -> int
    decreases n,
{
    if n <= 0 {
        1
    } else {
        10 * pow10(n - 1)
    }
}

proof fn lemma_decimal_bounds(s: Seq<char>)
    requires
        all_digits(s),
    ensures
        0 <= decimal_value(s) < pow10(s.len() as int),
        s.len() > 0 && digit_value(s[0]) > 0 ==> decimal_value(s) >= pow10(s.len() - 1),
    decreases s.len(),
{
    if s.len() > 0 {
        let head = s.drop_last();
        assert(all_digits(head)) by {
            assert(forall|i: int| 0 <= i < head.len() ==> head[i] == s[i]);
        }
        lemma_decimal_bounds(head);
        assert(0 <= digit_value(s.last()) <= 9);
    }
}

proof fn lemma_decimal_strip_zero(s: Seq<char>)
    requires
        s.len() > 0,
        s[0] == '0',
        all_digits(s),
    ensures
        decimal_value(s) == decimal_value(s.drop_first()),
    decreases s.len(),
{
    if s.len() == 1 {
        assert(s.drop_first() =~= Seq::<char>::empty());
        assert(decimal_value(s) == decimal_value(s.drop_last()) * 10 + digit_value(s.last()));
        assert(s.drop_last() =~= Seq::<char>::empty());
        assert(digit_value(s.last()) == 0);
    } else {
        let head = s.drop_last();
        assert(head[0] == '0' && all_digits(head)) by {
            assert(forall|i: int| 0 <= i < head.len() ==> head[i] == s[i]);
        }
        lemma_decimal_strip_zero(head);
        let rest = s.drop_first();
        assert(rest.drop_last() =~= head.drop_first());
        assert(rest.last() == s.last());
        assert(decimal_value(s) == decimal_value(head) * 10 + digit_value(s.last()));
        assert(decimal_value(rest) == decimal_value(rest.drop_last()) * 10 + digit_value(
            rest.last(),
        ));
    }
}

/// The unsigned 64-bit value of decimal digit text: nonempty, digits only,
/// and within range.
pub open spec fn u64_of_chars(s: Seq<char>) -> Option<u64> {
    if s.len() > 0 && all_digits(s) && decimal_value(s) <= u64::MAX {
        Some(decimal_value(s) as u64)
    } else {
        None
    }
}

/// Parses decimal digit text as an unsigned 64-bit value.
#[verifier::loop_isolation(false)]
pub fn parse_u64(s: &Vec<char>) -> (r: Option<u64>)
    ensures
        r == u64_of_chars(s@),
{
    let n = s.len();
    if n == 0 {
        return None;
    }
    let mut start: usize = 0;
    while start < n - 1 && s[start] == '0'
        invariant
            0 <= start <= n - 1,
            forall|j: int| 0 <= j < start ==> s@[j] == '0',
        decreases n - start,
    {
        start += 1;
    }
    let ghost tail = s@.skip(start as int);
    proof {
        if all_digits(s@) {
            assert forall|k: int| 0 <= k <= start implies decimal_value(s@.skip(k)) == decimal_value(
                s@,
            ) by {
                lemma_decimal_skip_zeros(s@, k);
            }
            assert(decimal_value(tail) == decimal_value(s@));
            assert(all_digits(tail)) by {
                assert(forall|i: int| 0 <= i < tail.len() ==> tail[i] == s@[start + i]);
            }
        }
    }
    let m = n - start;
    if m > 20 {
        proof {
            if all_digits(s@) {
                assert(tail[0] != '0');
                assert(digit_value(tail[0]) > 0);
                lemma_decimal_bounds(tail);
                assert(pow10(tail.len() - 1) >= pow10(20)) by {
                    lemma_pow10_mono(20, tail.len() - 1);
                }
                assert(pow10(20) > u64::MAX as int) by {
                    lemma_pow10_values();
                }
            }
        }
        let c = s[start];
        if '0' <= c && c <= '9' {
            let mut i: usize = 0;
            while i < n
                invariant
                    0 <= i <= n,
                    forall|j: int| 0 <= j < i ==> is_digit(s@[j]),
                decreases n - i,
            {
                if digit_of(s[i]).is_none() {
                    return None;
                }
                i += 1;
            }
            assert(all_digits(s@));
            return None;
        } else {
            assert(!is_digit(s@[start as int]));
            return None;
        }
    }
    let mut acc: u64 = 0;
    let mut i: usize = start;
    proof {
        assert(tail.take(0) =~= Seq::<char>::empty());
        lemma_pow10_values();
        lemma_pow10_pos(0);
    }
    while i < n
        invariant
            start <= i <= n,
            forall|j: int| 0 <= j < i ==> is_digit(s@[j]),
            acc == decimal_value(s@.skip(start as int).take(i - start)),
            acc < pow10(i - start),
            i - start < 20 ==> acc < pow10(19),
        decreases n - i,
    {
        let d = match digit_of(s[i]) {
            Some(d) => d,
            None => {
                return None;
            },
        };
        let ghost taken = s@.skip(start as int).take(i - start);
        let ghost taken1 = s@.skip(start as int).take(i + 1 - start);
        proof {
            assert(taken1.drop_last() =~= taken);
            assert(taken1.last() == s@[i as int]);
            assert(all_digits(taken1)) by {
                assert(forall|k: int| 0 <= k < taken1.len() ==> taken1[k] == s@[start + k]);
            }
            lemma_decimal_bounds(taken1);
            lemma_pow10_values();
            assert(i - start <= 19);
        }
        if i - start == 19 {
            if acc > (u64::MAX - (d as u64)) / 10 {
                proof {
                    assert(acc * 10 + d > u64::MAX) by (nonlinear_arith)
                        requires
                            acc > (u64::MAX - (d as u64)) / 10,
                            0 <= d <= 9,
                    ;
                    assert(decimal_value(taken1) > u64::MAX);
                    assert(taken1 =~= tail);
                }
                return None;
            }
            proof {
                assert(acc * 10 + d <= u64::MAX) by (nonlinear_arith)
                    requires
                        acc <= (u64::MAX - (d as u64)) / 10,
                        0 <= d <= 9,
                ;
            }
        } else {
            proof {
                assert(acc < pow10(19));
                assert(pow10(i - start) <= pow10(18)) by {
                    lemma_pow10_mono(i - start, 18);
                }
                lemma_pow10_values();
                assert(acc * 10 + d < pow10(19)) by (nonlinear_arith)
                    requires
                        0 <= acc,
                        acc + 1 <= pow10(18),
                        pow10(19) == 10 * pow10(18),
                        0 <= d <= 9,
                ;
            }
        }
        acc = acc * 10 + (d as u64);
        proof {
            assert(acc == decimal_value(taken1));
        }
        i += 1;
    }
    proof {
        assert(s@.skip(start as int).take(n - start) =~= tail);
        assert(all_digits(s@)) by {
            assert(forall|j: int| 0 <= j < n ==> is_digit(s@[j]));
        }
        assert(decimal_value(s@) == acc);
        assert(decimal_value(s@) <= u64::MAX);
    }
    Some(acc)
}

proof fn lemma_pow10_values()
    ensures
        pow10(18) == 1000000000000000000,
        pow10(19) == 10000000000000000000,
        pow10(20) == 100000000000000000000,
{
    assert(pow10(0) == 1);
    assert(pow10(1) == 10);
    assert(pow10(2) == 100);
    assert(pow10(3) == 1000);
    assert(pow10(4) == 10000);
    assert(pow10(5) == 100000);
    assert(pow10(6) == 1000000);
    assert(pow10(7) == 10000000);
    assert(pow10(8) == 100000000);
    assert(pow10(9) == 1000000000);
    assert(pow10(10) == 10000000000);
    assert(pow10(11) == 100000000000);
    assert(pow10(12) == 1000000000000);
    assert(pow10(13) == 10000000000000);
    assert(pow10(14) == 100000000000000);
    assert(pow10(15) == 1000000000000000);
    assert(pow10(16) == 10000000000000000);
    assert(pow10(17) == 100000000000000000);
    assert(pow10(18) == 1000000000000000000);
    assert(pow10(19) == 10000000000000000000);
    assert(pow10(20) == 100000000000000000000);
}

proof fn lemma_pow10_mono(a: int, b: int)
    requires
        a <= b,
    ensures
        pow10(a) <= pow10(b),
        pow10(a) >= 1,
    decreases b - a,
{
    if a < b {
        lemma_pow10_mono(a, b - 1);
    } else if a == b {
        lemma_pow10_pos(a);
    }
}

proof fn lemma_pow10_pos(a: int)
    ensures
        pow10(a) >= 1,
    decreases a,
{
    if a > 0 {
        lemma_pow10_pos(a - 1);
    }
}

proof fn lemma_decimal_skip_zeros(s: Seq<char>, k: int)
    requires
        all_digits(s),
        0 <= k < s.len(),
        forall|j: int| 0 <= j < k ==> s[j] == '0',
    ensures
        decimal_value(s.skip(k)) == decimal_value(s),
    decreases k,
{
    if k > 0 {
        lemma_decimal_strip_zero(s);
        let rest = s.drop_first();
        assert(all_digits(rest)) by {
            assert(forall|i: int| 0 <= i < rest.len() ==> rest[i] == s[i + 1]);
        }
        assert(forall|j: int| 0 <= j < k - 1 ==> rest[j] == s[j + 1]);
        lemma_decimal_skip_zeros(rest, k - 1);
        assert(rest.skip(k - 1) =~= s.skip(k));
    } else {
        assert(s.skip(0) =~= s);
    }
}



/// The decimal digits of a number, most significant first.
pub open spec fn u64_chars(v: int) -> Seq<char>
    recommends
        v >= 0,
    decreases v,
{
    if v < 10 {
        seq![digit_char(v)]
    } else {
        u64_chars(v / 10) + seq![digit_char(v % 10)]
    }
}

/// Appends the decimal digits of `v` to `out`.
pub fn push_u64(out: &mut Vec<char>, v: u64)
    ensures
        final(out)@ == old(out)@ + u64_chars(v as int),
    decreases v,
{
    if v < 10 {
        out.push(digit_to_char(v as u8));
        assert(out@ =~= old(out)@ + u64_chars(v as int));
    } else {
        push_u64(out, v / 10);
        out.push(digit_to_char((v % 10) as u8));
        assert(out@ =~= old(out)@ + u64_chars(v as int));
    }
}

} // verus!
