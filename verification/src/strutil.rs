//! Character-level helpers for the path and name manipulation that the
//! logging core performs: searching, prefix/suffix tests, decimal rendering,
//! and a lexicographic order on strings used to sort archive names.

use vstd::prelude::*;
use vstd::string::StrSliceExecFns;
use vstd::string::StringExecFns;

verus! {

/// Relies on std's `String::push`: appends one character at the end.
#[verifier::external_body]
pub fn push_char(s: &mut String, c: char)
    ensures
        final(s)@ == old(s)@.push(c),
{
    s.push(c);
}

/// String equality, decided through the standard library's `String` equality.
pub fn eq_str(a: &str, b: &str) -> (r: bool)
    ensures
        r == (a@ == b@),
{
    let x = a.to_owned();
    let y = b.to_owned();
    x == y
}

pub open spec fn spec_starts_with(s: Seq<char>, p: Seq<char>) -> bool {
    p.len() <= s.len() && s.subrange(0, p.len() as int) == p
}

pub fn starts_with(s: &str, p: &str) -> (r: bool)
    ensures
        r == spec_starts_with(s@, p@),
{
    let sn = s.unicode_len();
    let pn = p.unicode_len();
    if pn > sn {
        return false;
    }
    let mut i: usize = 0;
    while i < pn
        invariant
            i <= pn,
            pn <= sn,
            sn == s@.len(),
            pn == p@.len(),
            forall|j: int| 0 <= j < i ==> s@[j] == p@[j],
        decreases pn - i,
    {
        if s.get_char(i) != p.get_char(i) {
            assert(s@.subrange(0, p@.len() as int)[i as int] != p@[i as int]);
            return false;
        }
        i += 1;
    }
    proof {
        assert(s@.subrange(0, p@.len() as int) =~= p@);
    }
    true
}

pub open spec fn spec_ends_with(s: Seq<char>, p: Seq<char>) -> bool {
    p.len() <= s.len() && s.subrange(s.len() - p.len(), s.len() as int) == p
}

pub fn ends_with(s: &str, p: &str) -> (r: bool)
    ensures
        r == spec_ends_with(s@, p@),
{
    let sn = s.unicode_len();
    let pn = p.unicode_len();
    if pn > sn {
        return false;
    }
    let base = sn - pn;
    let mut i: usize = 0;
    while i < pn
        invariant
            i <= pn,
            pn <= sn,
            base == sn - pn,
            sn == s@.len(),
            pn == p@.len(),
            forall|j: int| 0 <= j < i ==> s@[base + j] == p@[j],
        decreases pn - i,
    {
        if s.get_char(base + i) != p.get_char(i) {
            assert(s@.subrange(s@.len() - p@.len(), s@.len() as int)[i as int] != p@[i as int]);
            return false;
        }
        i += 1;
    }
    proof {
        assert(s@.subrange(s@.len() - p@.len(), s@.len() as int) =~= p@);
    }
    true
}

/// Index of the last occurrence of `c1` or `c2` in `s`, if any.
pub fn last_index_of_either(s: &str, c1: char, c2: char) -> (r: Option<usize>)
    ensures
        match r {
            Some(i) => i < s@.len() && (s@[i as int] == c1 || s@[i as int] == c2) && forall|j: int|
                i < j < s@.len() ==> s@[j] != c1 && s@[j] != c2,
            None => forall|j: int| 0 <= j < s@.len() ==> s@[j] != c1 && s@[j] != c2,
        },
{
    let n = s.unicode_len();
    let mut i = n;
    while i > 0
        invariant
            i <= n,
            n == s@.len(),
            forall|j: int| i <= j < s@.len() ==> s@[j] != c1 && s@[j] != c2,
        decreases i,
    {
        i = i - 1;
        let c = s.get_char(i);
        if c == c1 || c == c2 {
            return Some(i);
        }
    }
    None
}

/// Index of the last `.` in `s`, if any.
pub fn last_dot(s: &str) -> (r: Option<usize>)
    ensures
        match r {
            Some(i) => i < s@.len() && s@[i as int] == '.' && forall|j: int|
                i < j < s@.len() ==> s@[j] != '.',
            None => forall|j: int| 0 <= j < s@.len() ==> s@[j] != '.',
        },
{
    last_index_of_either(s, '.', '.')
}

/// Copies the character range `[from, to)` of `s` into a fresh `String`.
pub fn substr_string(s: &str, from: usize, to: usize) -> (r: String)
    requires
        from <= to <= s@.len(),
    ensures
        r@ == s@.subrange(from as int, to as int),
{
    s.substring_char(from, to).to_owned()
}

pub open spec fn spec_digit(d: int) -> char {
    if d == 0 {
        '0'
    } else if d == 1 {
        '1'
    } else if d == 2 {
        '2'
    } else if d == 3 {
        '3'
    } else if d == 4 {
        '4'
    } else if d == 5 {
        '5'
    } else if d == 6 {
        '6'
    } else if d == 7 {
        '7'
    } else if d == 8 {
        '8'
    } else {
        '9'
    }
}

pub fn digit_char(d: u32) -> (c: char)
    requires
        d < 10,
    ensures
        c == spec_digit(d as int),
{
    match d {
        0 => '0',
        1 => '1',
        2 => '2',
        3 => '3',
        4 => '4',
        5 => '5',
        6 => '6',
        7 => '7',
        8 => '8',
        _ => '9',
    }
}

/// Two decimal digits, zero padded.
pub open spec fn spec_dec2(n: int) -> Seq<char> {
    seq![spec_digit(n / 10), spec_digit(n % 10)]
}

/// Four decimal digits, zero padded.
pub open spec fn spec_dec4(n: int) -> Seq<char> {
    spec_dec2(n / 100) + spec_dec2(n % 100)
}

/// Three decimal digits, zero padded.
pub open spec fn spec_dec3(n: int) -> Seq<char> {
    seq![spec_digit(n / 100), spec_digit((n / 10) % 10), spec_digit(n % 10)]
}

/// Six decimal digits, zero padded.
pub open spec fn spec_dec6(n: int) -> Seq<char> {
    spec_dec2(n / 10000) + spec_dec2((n / 100) % 100) + spec_dec2(n % 100)
}

pub fn push_dec2(s: &mut String, n: u32)
    requires
        n < 100,
    ensures
        final(s)@ == old(s)@ + spec_dec2(n as int),
{
    push_char(s, digit_char(n / 10));
    push_char(s, digit_char(n % 10));
    proof {
        assert(final(s)@ =~= old(s)@ + spec_dec2(n as int));
    }
}

pub fn push_dec4(s: &mut String, n: u32)
    requires
        n < 10000,
    ensures
        final(s)@ == old(s)@ + spec_dec4(n as int),
{
    push_dec2(s, n / 100);
    push_dec2(s, n % 100);
    proof {
        assert(final(s)@ =~= old(s)@ + spec_dec4(n as int));
    }
}

pub fn push_dec3(s: &mut String, n: u32)
    requires
        n < 1000,
    ensures
        final(s)@ == old(s)@ + spec_dec3(n as int),
{
    push_char(s, digit_char(n / 100));
    push_char(s, digit_char((n / 10) % 10));
    push_char(s, digit_char(n % 10));
    proof {
        assert(final(s)@ =~= old(s)@ + spec_dec3(n as int));
    }
}

pub fn push_dec6(s: &mut String, n: u32)
    requires
        n < 1000000,
    ensures
        final(s)@ == old(s)@ + spec_dec6(n as int),
{
    push_dec2(s, n / 10000);
    push_dec2(s, (n / 100) % 100);
    push_dec2(s, n % 100);
    proof {
        assert(final(s)@ =~= old(s)@ + spec_dec6(n as int));
    }
}

/// Unpadded decimal rendering of a natural number.
pub open spec fn spec_dec(n: int) -> Seq<char>
    decreases n,
{
    if n < 10 {
        seq![spec_digit(n)]
    } else {
        spec_dec(n / 10).push(spec_digit(n % 10))
    }
}

pub fn push_dec_u32(s: &mut String, n: u32)
    ensures
        final(s)@ == old(s)@ + spec_dec(n as int),
    decreases n,
{
    if n < 10 {
        push_char(s, digit_char(n));
        proof {
            assert(final(s)@ =~= old(s)@ + spec_dec(n as int));
        }
    } else {
        push_dec_u32(s, n / 10);
        push_char(s, digit_char(n % 10));
        proof {
            assert(final(s)@ =~= old(s)@ + spec_dec(n as int));
        }
    }
}

/// Lexicographic order on character sequences: `a` comes no later than `b`.
pub open spec fn chars_le(a: Seq<char>, b: Seq<char>) -> bool
    decreases a.len(),
{
    if a.len() == 0 {
        true
    } else if b.len() == 0 {
        false
    } else if a[0] != b[0] {
        (a[0] as int) < (b[0] as int)
    } else {
        chars_le(a.drop_first(), b.drop_first())
    }
}

/// Dropping a shared prefix does not change the order of two strings.
pub proof fn lemma_chars_le_common_prefix(a: Seq<char>, b: Seq<char>, k: int)
    requires
        0 <= k <= a.len(),
        k <= b.len(),
        forall|j: int| 0 <= j < k ==> a[j] == b[j],
    ensures
        chars_le(a, b) == chars_le(a.skip(k), b.skip(k)),
    decreases k,
{
    if k == 0 {
        assert(a.skip(0) =~= a);
        assert(b.skip(0) =~= b);
    } else {
        assert(a[0] == b[0]);
        lemma_chars_le_common_prefix(a.drop_first(), b.drop_first(), k - 1);
        assert(a.drop_first().skip(k - 1) =~= a.skip(k));
        assert(b.drop_first().skip(k - 1) =~= b.skip(k));
    }
}

/// The order is total: of any two strings, one comes no later than the other.
pub proof fn lemma_chars_le_total(a: Seq<char>, b: Seq<char>)
    ensures
        chars_le(a, b) || chars_le(b, a),
    decreases a.len(),
{
    if a.len() > 0 && b.len() > 0 {
        if a[0] == b[0] {
            lemma_chars_le_total(a.drop_first(), b.drop_first());
        } else {
            assert((a[0] as int) != (b[0] as int));
        }
    }
}

/// The order is transitive.
pub proof fn lemma_chars_le_trans(a: Seq<char>, b: Seq<char>, c: Seq<char>)
    requires
        chars_le(a, b),
        chars_le(b, c),
    ensures
        chars_le(a, c),
    decreases a.len(),
{
    if a.len() > 0 && b.len() > 0 && c.len() > 0 {
        if a[0] == b[0] && b[0] == c[0] {
            lemma_chars_le_trans(a.drop_first(), b.drop_first(), c.drop_first());
        }
    }
}

/// The order is reflexive.
pub proof fn lemma_chars_le_refl(a: Seq<char>)
    ensures
        chars_le(a, a),
    decreases a.len(),
{
    if a.len() > 0 {
        lemma_chars_le_refl(a.drop_first());
    }
}

/// How the order and equality of two concatenations follow from their parts
/// when the leading parts have one length: equal heads defer to the tails,
/// different heads decide.
pub proof fn lemma_chars_le_concat(a1: Seq<char>, b1: Seq<char>, a2: Seq<char>, b2: Seq<char>)
    requires
        a1.len() == a2.len(),
    ensures
        a1 == a2 ==> chars_le(a1 + b1, a2 + b2) == chars_le(b1, b2),
        a1 != a2 ==> chars_le(a1 + b1, a2 + b2) == chars_le(a1, a2),
        (a1 + b1 == a2 + b2) <==> (a1 == a2 && b1 == b2),
    decreases a1.len(),
{
    if a1.len() == 0 {
        assert(a1 =~= a2);
        assert(a1 + b1 =~= b1);
        assert(a2 + b2 =~= b2);
    } else {
        assert((a1 + b1)[0] == a1[0]);
        assert((a2 + b2)[0] == a2[0]);
        assert((a1 + b1).drop_first() =~= a1.drop_first() + b1);
        assert((a2 + b2).drop_first() =~= a2.drop_first() + b2);
        lemma_chars_le_concat(a1.drop_first(), b1, a2.drop_first(), b2);
        if a1[0] == a2[0] {
            assert((a1 == a2) == (a1.drop_first() == a2.drop_first())) by {
                if a1.drop_first() == a2.drop_first() {
                    assert forall|k: int| 0 <= k < a1.len() implies a1[k] == a2[k] by {
                        if k > 0 {
                            assert(a1[k] == a1.drop_first()[k - 1]);
                            assert(a2[k] == a2.drop_first()[k - 1]);
                        }
                    }
                    assert(a1 =~= a2);
                }
            }
        } else {
            assert((a1[0] as int) != (a2[0] as int));
            assert(a1 != a2);
            assert(a1 + b1 != a2 + b2);
        }
    }
}

/// Zero-padded two-digit rendering preserves numeric order and equality.
pub proof fn lemma_dec2_le(m: int, n: int)
    requires
        0 <= m < 100,
        0 <= n < 100,
        m <= n,
    ensures
        chars_le(spec_dec2(m), spec_dec2(n)),
        (spec_dec2(m) == spec_dec2(n)) <==> (m == n),
{
    let s1 = spec_dec2(m);
    let s2 = spec_dec2(n);
    assert(s1.drop_first() =~= seq![spec_digit(m % 10)]);
    assert(s2.drop_first() =~= seq![spec_digit(n % 10)]);
    assert(seq![spec_digit(m % 10)].drop_first() =~= Seq::<char>::empty());
    if m == n {
        assert(s1 =~= s2);
        lemma_chars_le_refl(s1);
    } else {
        if m / 10 == n / 10 {
            assert(m % 10 < n % 10);
            assert((spec_digit(m % 10) as int) < (spec_digit(n % 10) as int));
            assert(s1[1] != s2[1]);
            assert(s1 != s2);
            assert(s1[0] == s2[0]);
            assert(chars_le(seq![spec_digit(m % 10)], seq![spec_digit(n % 10)]));
            assert(chars_le(s1.drop_first(), s2.drop_first()));
            assert(chars_le(s1, s2));
        } else {
            assert(m / 10 < n / 10);
            assert((spec_digit(m / 10) as int) < (spec_digit(n / 10) as int));
            assert(s1[0] != s2[0]);
            assert(s1 != s2);
            assert(chars_le(s1, s2));
        }
    }
}

/// Zero-padded four-digit rendering preserves numeric order and equality.
pub proof fn lemma_dec4_le(m: int, n: int)
    requires
        0 <= m < 10000,
        0 <= n < 10000,
        m <= n,
    ensures
        chars_le(spec_dec4(m), spec_dec4(n)),
        (spec_dec4(m) == spec_dec4(n)) <==> (m == n),
{
    lemma_dec2_le(m / 100, n / 100);
    lemma_chars_le_concat(spec_dec2(m / 100), spec_dec2(m % 100), spec_dec2(n / 100), spec_dec2(n % 100));
    if m / 100 == n / 100 {
        assert(m % 100 <= n % 100);
        lemma_dec2_le(m % 100, n % 100);
    }
}

/// Zero-padded six-digit rendering preserves numeric order and equality.
#[verifier::rlimit(60)]
pub proof fn lemma_dec6_le(m: int, n: int)
    requires
        0 <= m < 1000000,
        0 <= n < 1000000,
        m <= n,
    ensures
        chars_le(spec_dec6(m), spec_dec6(n)),
        (spec_dec6(m) == spec_dec6(n)) <==> (m == n),
{
    let lo1 = spec_dec2((m / 100) % 100) + spec_dec2(m % 100);
    let lo2 = spec_dec2((n / 100) % 100) + spec_dec2(n % 100);
    assert(spec_dec6(m) =~= spec_dec2(m / 10000) + lo1);
    assert(spec_dec6(n) =~= spec_dec2(n / 10000) + lo2);
    lemma_dec2_le(m / 10000, n / 10000);
    lemma_chars_le_concat(spec_dec2(m / 10000), lo1, spec_dec2(n / 10000), lo2);
    if m / 10000 == n / 10000 {
        assert(m / 100 <= n / 100);
        assert((m / 100) % 100 <= (n / 100) % 100);
        lemma_dec2_le((m / 100) % 100, (n / 100) % 100);
        lemma_chars_le_concat(
            spec_dec2((m / 100) % 100),
            spec_dec2(m % 100),
            spec_dec2((n / 100) % 100),
            spec_dec2(n % 100),
        );
        if (m / 100) % 100 == (n / 100) % 100 {
            assert(m / 100 == n / 100);
            assert(m % 100 <= n % 100);
            lemma_dec2_le(m % 100, n % 100);
        }
    }
}

/// Decides `chars_le(a@, b@)` on string slices.
pub fn str_le(a: &str, b: &str) -> (r: bool)
    ensures
        r == chars_le(a@, b@),
{
    let an = a.unicode_len();
    let bn = b.unicode_len();
    let mut i: usize = 0;
    loop
        invariant
            i <= an,
            i <= bn,
            an == a@.len(),
            bn == b@.len(),
            forall|j: int| 0 <= j < i ==> a@[j] == b@[j],
        decreases an - i,
    {
        if i >= an {
            proof {
                lemma_chars_le_common_prefix(a@, b@, i as int);
            }
            return true;
        }
        if i >= bn {
            proof {
                lemma_chars_le_common_prefix(a@, b@, i as int);
            }
            return false;
        }
        let ca = a.get_char(i);
        let cb = b.get_char(i);
        if ca != cb {
            proof {
                lemma_chars_le_common_prefix(a@, b@, i as int);
                assert((ca as u32) as int == ca as int);
                assert((cb as u32) as int == cb as int);
            }
            return (ca as u32) < (cb as u32);
        }
        i += 1;
    }
}

} // verus!
