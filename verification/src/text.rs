//! Text building for rendered output.
//!
//! All rendered text is assembled character by character, so that every
//! formatting rule (decimal, fixed-width hexadecimal, padding) is stated and
//! proved over sequences of characters.
use vstd::prelude::*;

verus! {

/// The characters that a byte string denotes: each byte maps 1:1 to the
/// character with the same code (no UTF-8 decoding).
pub open spec fn chars_of(s: Seq<u8>) -> Seq<char> {
    s.map_values(|b: u8| b as char)
}

/// Relies on `String::push`: appends exactly the one character to the string.
#[verifier::external_body]
pub fn push_char(s: &mut String, c: char)
    ensures
        final(s)@ == old(s)@.push(c),
{
    s.push(c);
}

/// The decimal digit character for a value below ten.
pub open spec fn dec_digit(n: nat) -> char {
    if n == 0 {
        '0'
    } else if n == 1 {
        '1'
    } else if n == 2 {
        '2'
    } else if n == 3 {
        '3'
    } else if n == 4 {
        '4'
    } else if n == 5 {
        '5'
    } else if n == 6 {
        '6'
    } else if n == 7 {
        '7'
    } else if n == 8 {
        '8'
    } else {
        '9'
    }
}

/// The hexadecimal digit character (lower case) for a value below sixteen.
pub open spec fn hex_digit(n: nat) -> char {
    if n < 10 {
        dec_digit(n)
    } else if n == 10 {
        'a'
    } else if n == 11 {
        'b'
    } else if n == 12 {
        'c'
    } else if n == 13 {
        'd'
    } else if n == 14 {
        'e'
    } else {
        'f'
    }
}

/// The decimal representation of a number, most significant digit first.
pub open spec fn dec_chars(n: nat) -> Seq<char>
    decreases n,
{
    if n < 10 {
        seq![dec_digit(n)]
    } else {
        dec_chars(n / 10) + seq![dec_digit(n % 10)]
    }
}

/// The hexadecimal representation of a number in exactly `w` digits
/// (the number taken modulo 16^w, zero padded on the left).
pub open spec fn hex_chars_w(n: nat, w: nat) -> Seq<char>
    decreases w,
{
    if w == 0 {
        Seq::empty()
    } else {
        hex_chars_w(n / 16, (w - 1) as nat) + seq![hex_digit(n % 16)]
    }
}

/// A sequence of `n` copies of the character `c`.
pub open spec fn fill_chars(n: nat, c: char) -> Seq<char> {
    Seq::new(n, |i: int| c)
}

fn dec_digit_char(n: u64) -> (r: char)
    requires
        n < 10,
    ensures
        r == dec_digit(n as nat),
{
    match n {
        0 => '0',
        1 => '1',
        2 => '2',
        3 => '3',
        4 => '4',
        5 => '5',
        6 => '6',
        7 => '7',
        8 => '8',
        _ => '9',
    }
}

fn hex_digit_char(n: u64) -> (r: char)
    requires
        n < 16,
    ensures
        r == hex_digit(n as nat),
{
    if n < 10 {
        dec_digit_char(n)
    } else {
        match n {
            10 => 'a',
            11 => 'b',
            12 => 'c',
            13 => 'd',
            14 => 'e',
            _ => 'f',
        }
    }
}

/// Appends the decimal representation of `n`.
pub fn push_dec(s: &mut String, n: u64)
    ensures
        final(s)@ == old(s)@ + dec_chars(n as nat),
    decreases n,
{
    if n >= 10 {
        push_dec(s, n / 10);
    }
    push_char(s, dec_digit_char(n % 10));
    assert(final(s)@ == old(s)@ + dec_chars(n as nat));
}

/// The number of characters in the decimal representation of `n`.
pub fn dec_width(n: u64) -> (r: usize)
    ensures
        r == dec_chars(n as nat).len(),
    decreases n,
{
    if n < 10 {
        1
    } else {
        let w = dec_width(n / 10);
        assert(dec_chars(n as nat).len() == dec_chars((n / 10) as nat).len() + 1);
        proof {
            assert(pow10(20) > u64::MAX) by {
                reveal_with_fuel(pow10, 21);
            }
            lemma_dec_chars_len_bound(n as nat, 20);
        }
        w + 1
    }
}

/// Ten to the power `k`.
pub open spec fn pow10(k: nat) -> nat
    decreases k,
{
    if k == 0 {
        1
    } else {
        10 * pow10((k - 1) as nat)
    }
}

proof fn lemma_dec_chars_len_bound(n: nat, k: nat)
    requires
        1 <= k,
        n < pow10(k),
    ensures
        dec_chars(n).len() <= k,
    decreases k,
{
    if n >= 10 {
        assert(pow10(1) == 10) by {
            reveal_with_fuel(pow10, 2);
        }
        assert(k >= 2) by {
            if k == 1 {
                assert(n < pow10(1));
            }
        }
        assert(n / 10 < pow10((k - 1) as nat)) by (nonlinear_arith)
            requires
                n < 10 * pow10((k - 1) as nat),
        ;
        lemma_dec_chars_len_bound(n / 10, (k - 1) as nat);
    }
}

/// Appends the hexadecimal representation of `n`, zero padded to exactly
/// `w` digits (lower case).
pub fn push_hex(s: &mut String, n: u64, w: usize)
    ensures
        final(s)@ == old(s)@ + hex_chars_w(n as nat, w as nat),
    decreases w,
{
    if w > 0 {
        push_hex(s, n / 16, w - 1);
        push_char(s, hex_digit_char(n % 16));
    }
    assert(final(s)@ =~= old(s)@ + hex_chars_w(n as nat, w as nat));
}

/// Appends `n` copies of the character `c`.
pub fn push_fill(s: &mut String, n: usize, c: char)
    ensures
        final(s)@ == old(s)@ + fill_chars(n as nat, c),
{
    let mut i: usize = 0;
    while i < n
        invariant
            i <= n,
            s@ == old(s)@ + fill_chars(i as nat, c),
        decreases n - i,
    {
        push_char(s, c);
        assert(old(s)@ + fill_chars((i + 1) as nat, c) =~= (old(s)@ + fill_chars(
            i as nat,
            c,
        )).push(c));
        i = i + 1;
    }
    assert(s@ =~= old(s)@ + fill_chars(n as nat, c));
}

/// Appends the decimal representation of `n`, right aligned in a field of
/// `width` characters filled with `fill` (never truncated).
pub fn push_dec_aligned(s: &mut String, n: u64, width: usize, fill: char)
    ensures
        final(s)@ == old(s)@ + aligned_dec_chars(n as nat, width as nat, fill),
{
    let digits = dec_width(n);
    if digits < width {
        push_fill(s, width - digits, fill);
    }
    push_dec(s, n);
    assert(final(s)@ =~= old(s)@ + aligned_dec_chars(n as nat, width as nat, fill));
}

/// The decimal representation of `n` right aligned to `width` characters.
pub open spec fn aligned_dec_chars(n: nat, width: nat, fill: char) -> Seq<char> {
    let d = dec_chars(n);
    if d.len() < width {
        fill_chars((width - d.len()) as nat, fill) + d
    } else {
        d
    }
}

/// Appends the characters that the given byte range denotes, one character
/// per byte.
pub fn push_byte_chars(s: &mut String, bytes: &Vec<u8>, from: usize, to: usize)
    requires
        from <= to <= bytes@.len(),
    ensures
        final(s)@ == old(s)@ + chars_of(bytes@.subrange(from as int, to as int)),
{
    let mut i: usize = from;
    while i < to
        invariant
            from <= i <= to <= bytes@.len(),
            s@ == old(s)@ + chars_of(bytes@.subrange(from as int, i as int)),
        decreases to - i,
    {
        let b = bytes[i];
        push_char(s, b as char);
        assert(old(s)@ + chars_of(bytes@.subrange(from as int, (i + 1) as int)) =~= (old(s)@
            + chars_of(bytes@.subrange(from as int, i as int))).push(b as char));
        i = i + 1;
    }
    assert(s@ =~= old(s)@ + chars_of(bytes@.subrange(from as int, to as int)));
}

/// Appends every character of `t` to `s`.
pub fn push_string(s: &mut String, t: &String)
    ensures
        final(s)@ == old(s)@ + t@,
{
    let n = t.as_str().unicode_len();
    let mut i: usize = 0;
    while i < n
        invariant
            i <= n == t@.len(),
            s@ == old(s)@ + t@.take(i as int),
        decreases n - i,
    {
        let c = t.as_str().get_char(i);
        push_char(s, c);
        assert(old(s)@ + t@.take((i + 1) as int) =~= (old(s)@ + t@.take(i as int)).push(c));
        i = i + 1;
    }
    assert(s@ =~= old(s)@ + t@);
}

/// True iff the string begins with the character `c`.
pub fn starts_with_char(s: &String, c: char) -> (r: bool)
    ensures
        r == (s@.len() > 0 && s@[0] == c),
{
    let n = s.as_str().unicode_len();
    if n == 0 {
        false
    } else {
        s.as_str().get_char(0) == c
    }
}

/// The needle occurs contiguously somewhere in the haystack.
pub open spec fn spec_contains_sub(hay: Seq<char>, needle: Seq<char>) -> bool {
    exists|off: int|
        0 <= off && off + needle.len() <= hay.len() && #[trigger] hay.subrange(
            off,
            off + needle.len(),
        ) == needle
}

/// There is a position in the needle at which the haystack, laid over it at
/// offset `o`, disagrees with it.
pub open spec fn sub_mismatch_at(hay: Seq<char>, needle: Seq<char>, o: int) -> bool {
    exists|q: int| 0 <= q < needle.len() && hay[o + q] != #[trigger] needle[q]
}

/// True iff `needle` occurs contiguously in `hay`.
pub fn contains_substring(hay: &String, needle: &String) -> (r: bool)
    ensures
        r == spec_contains_sub(hay@, needle@),
{
    let n = hay.as_str().unicode_len();
    let m = needle.as_str().unicode_len();
    if m > n {
        proof {
            assert forall|off: int|
                0 <= off && off + needle@.len() <= hay@.len() implies #[trigger] hay@.subrange(
                off,
                off + needle@.len(),
            ) != needle@ by {}
        }
        return false;
    }
    let mut off: usize = 0;
    while off <= n - m
        invariant
            n == hay@.len(),
            m == needle@.len(),
            m <= n,
            off <= n - m + 1,
            forall|o: int| 0 <= o < off ==> #[trigger] sub_mismatch_at(hay@, needle@, o),
        decreases n - m + 1 - off,
    {
        let mut p: usize = 0;
        let mut mismatch = false;
        while p < m && !mismatch
            invariant
                n == hay@.len(),
                m == needle@.len(),
                off + m <= n,
                p <= m,
                !mismatch ==> forall|q: int| 0 <= q < p ==> hay@[off + q] == (#[trigger] needle@[q]),
                mismatch ==> sub_mismatch_at(hay@, needle@, off as int),
            decreases m - p + if mismatch {
                0int
            } else {
                1int
            },
        {
            if hay.as_str().get_char(off + p) != needle.as_str().get_char(p) {
                mismatch = true;
                proof {
                    assert(hay@[off + p] != needle@[p as int]);
                }
            } else {
                p = p + 1;
            }
        }
        if !mismatch {
            proof {
                assert(hay@.subrange(off as int, off + m) =~= needle@);
            }
            return true;
        }
        off = off + 1;
    }
    proof {
        assert forall|o: int|
            0 <= o && o + needle@.len() <= hay@.len() implies #[trigger] hay@.subrange(
            o,
            o + needle@.len(),
        ) != needle@ by {
            assert(sub_mismatch_at(hay@, needle@, o));
            let q = choose|q: int| 0 <= q < needle@.len() && hay@[o + q] != #[trigger] needle@[q];
            assert(hay@.subrange(o, o + needle@.len())[q] == hay@[o + q]);
        }
    }
    false
}

/// The character code with an uppercase ASCII letter folded to lowercase.
pub open spec fn spec_fold_char(c: char) -> u32 {
    if 65 <= c as u32 <= 90 {
        (c as u32 + 32) as u32
    } else {
        c as u32
    }
}

/// Two texts are equal up to ASCII letter case.
pub open spec fn spec_eq_ignore_ascii_case(x: Seq<char>, y: Seq<char>) -> bool {
    x.len() == y.len() && forall|i: int|
        0 <= i < x.len() ==> spec_fold_char(#[trigger] x[i]) == spec_fold_char(y[i])
}

/// True iff the two texts are equal up to ASCII letter case.
pub fn eq_ignore_ascii_case(a: &String, b: &str) -> (r: bool)
    ensures
        r == spec_eq_ignore_ascii_case(a@, b@),
{
    let n = a.as_str().unicode_len();
    let m = b.unicode_len();
    if n != m {
        return false;
    }
    let mut i: usize = 0;
    while i < n
        invariant
            n == a@.len(),
            n == b@.len(),
            i <= n,
            forall|j: int| 0 <= j < i ==> spec_fold_char(#[trigger] a@[j]) == spec_fold_char(b@[j]),
        decreases n - i,
    {
        let ca = a.as_str().get_char(i) as u32;
        let cb = b.get_char(i) as u32;
        let fa = if 65 <= ca && ca <= 90 {
            ca + 32
        } else {
            ca
        };
        let fb = if 65 <= cb && cb <= 90 {
            cb + 32
        } else {
            cb
        };
        if fa != fb {
            return false;
        }
        i = i + 1;
    }
    true
}

/// The position of the first occurrence of `c` at or after `k`, or the
/// length of `s` where there is none.
pub open spec fn char_index_from(s: Seq<char>, c: char, k: int) -> int
    decreases s.len() - k,
{
    if k < 0 || k >= s.len() {
        s.len() as int
    } else if s[k] == c {
        k
    } else {
        char_index_from(s, c, k + 1)
    }
}

/// The position of the first occurrence of `c` in `s`, or the length of `s`.
pub open spec fn first_occ(s: Seq<char>, c: char) -> int {
    char_index_from(s, c, 0)
}

/// Finds the position of the first occurrence of `c`, or the string's length
/// where there is none.
pub fn find_char(s: &String, c: char) -> (r: usize)
    ensures
        r == first_occ(s@, c),
{
    let n = s.as_str().unicode_len();
    let mut k: usize = 0;
    while k < n
        invariant
            n == s@.len(),
            k <= n,
            char_index_from(s@, c, 0) == char_index_from(s@, c, k as int),
        decreases n - k,
    {
        if s.as_str().get_char(k) == c {
            return k;
        }
        k = k + 1;
    }
    n
}

/// Builds the prefix of `s` that precedes the first occurrence of `c`
/// (the whole string where `c` does not occur).
pub fn prefix_before_char(s: &String, c: char) -> (r: String)
    ensures
        r@ == s@.take(first_occ(s@, c)),
{
    let k = find_char(s, c);
    let mut out = String::new();
    proof {
        lemma_char_index_bounds(s@, c, 0);
    }
    let mut m: usize = 0;
    while m < k
        invariant
            k <= s@.len(),
            m <= k,
            out@ == s@.take(m as int),
        decreases k - m,
    {
        let ch = s.as_str().get_char(m);
        push_char(&mut out, ch);
        assert(s@.take((m + 1) as int) =~= s@.take(m as int).push(ch));
        m = m + 1;
    }
    out
}

proof fn lemma_char_index_bounds(s: Seq<char>, c: char, k: int)
    requires
        0 <= k <= s.len(),
    ensures
        k <= char_index_from(s, c, k) <= s.len(),
    decreases s.len() - k,
{
    if k < s.len() && s[k] != c {
        lemma_char_index_bounds(s, c, k + 1);
    }
}

/// True iff the string contains the character `c` anywhere.
pub fn contains_char(s: &String, c: char) -> (r: bool)
    ensures
        r == s@.contains(c),
{
    let n = s.as_str().unicode_len();
    let mut i: usize = 0;
    while i < n
        invariant
            i <= n == s@.len(),
            forall|j: int| 0 <= j < i ==> s@[j] != c,
        decreases n - i,
    {
        if s.as_str().get_char(i) == c {
            assert(s@.contains(c));
            return true;
        }
        i = i + 1;
    }
    assert(forall|j: int| 0 <= j < s@.len() ==> s@[j] != c);
    false
}

} // verus!
