//! Verified text helpers shared across the crate: decimal rendering,
//! character-sequence search and comparison, and trusted wrappers for the
//! few `std` string operations that vstd gives no specification.

use vstd::prelude::*;

verus! {

// ─── decimal rendering ───────────────────────────────────────────────────────

/// The decimal digit character for a value in `0..10`.
pub open spec fn spec_digit(d: int) -> char {
    if d == 0 {
        '0'
    } else if d == 1 {
        '1'
    } else if d == 2 {
        '2'
    } else if d == 3 {
        '3'
    } else if d == 4 {
        '4'
    } else if d == 5 {
        '5'
    } else if d == 6 {
        '6'
    } else if d == 7 {
        '7'
    } else if d == 8 {
        '8'
    } else {
        '9'
    }
}

/// Decimal representation of a natural number, most significant digit first.
pub open spec fn spec_dec_nat(n: nat) -> Seq<char>
    decreases n,
{
    if n < 10 {
        seq![spec_digit(n as int)]
    } else {
        spec_dec_nat(n / 10).push(spec_digit((n % 10) as int))
    }
}

/// Decimal representation of a signed number: a `-` sign, then the magnitude.
pub open spec fn spec_dec_i64(n: int) -> Seq<char> {
    if n < 0 {
        seq!['-'] + spec_dec_nat((-n) as nat)
    } else {
        spec_dec_nat(n as nat)
    }
}

/// Relies on `String::push`: appends the given character to the end.
#[verifier::external_body]
pub fn push_char(s: &mut String, c: char)
    ensures
        final(s)@ == old(s)@.push(c),
{
    s.push(c);
}

fn digit_char(d: u64) -> (c: char)
    requires
        d < 10,
    ensures
        c == spec_digit(d as int),
{
    if d == 0 {
        '0'
    } else if d == 1 {
        '1'
    } else if d == 2 {
        '2'
    } else if d == 3 {
        '3'
    } else if d == 4 {
        '4'
    } else if d == 5 {
        '5'
    } else if d == 6 {
        '6'
    } else if d == 7 {
        '7'
    } else if d == 8 {
        '8'
    } else {
        '9'
    }
}

/// Renders an unsigned number in decimal.
pub fn fmt_u64(n: u64) -> (r: String)
    ensures
        r@ == spec_dec_nat(n as nat),
{
    let mut s = String::new();
    if n == 0 {
        push_char(&mut s, '0');
        proof {
            assert(spec_dec_nat(0) =~= seq!['0']);
            assert(s@ =~= seq!['0']);
        }
        return s;
    }
    let mut digits: Vec<char> = Vec::new();
    let mut m: u64 = n;
    while m > 0
        invariant
            m > 0 ==> spec_dec_nat(n as nat) == spec_dec_nat(m as nat) + digits@.reverse(),
            m == 0 ==> spec_dec_nat(n as nat) == digits@.reverse(),
        decreases m,
    {
        let d: u64 = m % 10;
        let ghost pre = digits@;
        digits.push(digit_char(d));
        proof {
            assert(digits@.reverse() =~= seq![spec_digit(d as int)] + pre.reverse());
            if m >= 10 {
                assert(spec_dec_nat(m as nat) == spec_dec_nat((m / 10) as nat).push(
                    spec_digit((m % 10) as int),
                ));
                assert(spec_dec_nat((m / 10) as nat).push(spec_digit(d as int)) =~= spec_dec_nat(
                    (m / 10) as nat,
                ) + seq![spec_digit(d as int)]);
                assert(spec_dec_nat(n as nat) =~= spec_dec_nat((m / 10) as nat) + digits@.reverse());
            } else {
                assert(spec_dec_nat(m as nat) =~= seq![spec_digit(d as int)]);
                assert(spec_dec_nat(n as nat) =~= digits@.reverse());
            }
        }
        m = m / 10;
    }
    let mut i: usize = digits.len();
    while i > 0
        invariant
            i <= digits.len(),
            s@ == digits@.subrange(i as int, digits@.len() as int).reverse(),
        decreases i,
    {
        i = i - 1;
        let c = digits[i];
        push_char(&mut s, c);
        proof {
            assert(s@ =~= digits@.subrange(i as int, digits@.len() as int).reverse());
        }
    }
    proof {
        assert(digits@.subrange(0, digits@.len() as int) =~= digits@);
    }
    s
}

/// Renders a signed number in decimal.
pub fn fmt_i64(n: i64) -> (r: String)
    ensures
        r@ == spec_dec_i64(n as int),
{
    if n >= 0 {
        let r = fmt_u64(n as u64);
        r
    } else {
        let mag: u64 = if n == i64::MIN {
            9223372036854775808u64
        } else {
            (-n) as u64
        };
        let mut s = String::new();
        push_char(&mut s, '-');
        let tail = fmt_u64(mag);
        let r = s.concat(tail.as_str());
        proof {
            assert(r@ =~= seq!['-'] + spec_dec_nat(mag as nat));
        }
        r
    }
}

// ─── character vectors ───────────────────────────────────────────────────────

/// Collects the characters of a string slice into a vector.
pub fn str_chars(s: &str) -> (v: Vec<char>)
    ensures
        v@ == s@,
{
    let len = s.unicode_len();
    let mut v: Vec<char> = Vec::new();
    let mut i: usize = 0;
    while i < len
        invariant
            i <= len,
            len == s@.len(),
            v@ == s@.subrange(0, i as int),
        decreases len - i,
    {
        let c = s.get_char(i);
        v.push(c);
        proof {
            assert(v@ =~= s@.subrange(0, i + 1));
        }
        i = i + 1;
    }
    proof {
        assert(s@.subrange(0, s@.len() as int) =~= s@);
    }
    v
}

/// Builds a string from a vector of characters.
pub fn chars_to_string(v: &Vec<char>) -> (r: String)
    ensures
        r@ == v@,
{
    let mut s = String::new();
    let mut i: usize = 0;
    while i < v.len()
        invariant
            i <= v@.len(),
            s@ == v@.subrange(0, i as int),
        decreases v@.len() - i,
    {
        push_char(&mut s, v[i]);
        proof {
            assert(s@ =~= v@.subrange(0, i + 1));
        }
        i = i + 1;
    }
    proof {
        assert(v@.subrange(0, v@.len() as int) =~= v@);
    }
    s
}

// ─── substring search ────────────────────────────────────────────────────────

/// `n` occurs in `h` starting at position `i`.
pub open spec fn spec_contains_at(h: Seq<char>, n: Seq<char>, i: int) -> bool {
    0 <= i && i + n.len() <= h.len() && h.subrange(i, i + n.len() as int) == n
}

/// `n` occurs somewhere in `h` as a contiguous subsequence.
pub open spec fn spec_contains(h: Seq<char>, n: Seq<char>) -> bool {
    exists|i: int| spec_contains_at(h, n, i)
}

fn match_at(h: &Vec<char>, n: &Vec<char>, i: usize) -> (r: bool)
    requires
        i + n@.len() <= h@.len(),
    ensures
        r == spec_contains_at(h@, n@, i as int),
{
    let nlen = n.len();
    let hlen = h.len();
    let mut j: usize = 0;
    while j < nlen
        invariant
            j <= nlen,
            nlen == n@.len(),
            hlen == h@.len(),
            i + nlen <= hlen,
            forall|k: int| 0 <= k < j ==> h@[i + k] == n@[k],
        decreases nlen - j,
    {
        if h[i + j] != n[j] {
            proof {
                assert(h@.subrange(i as int, i + n@.len() as int)[j as int] == h@[i + j]);
                assert(h@.subrange(i as int, i + n@.len() as int) != n@);
            }
            return false;
        }
        j = j + 1;
    }
    proof {
        assert(h@.subrange(i as int, i + n@.len() as int) =~= n@);
    }
    true
}

/// Naive search for `n` inside `h`, character by character.
pub fn contains_chars(h: &Vec<char>, n: &Vec<char>) -> (r: bool)
    ensures
        r == spec_contains(h@, n@),
{
    let hlen = h.len();
    let nlen = n.len();
    if nlen > hlen {
        proof {
            assert(forall|i: int| !spec_contains_at(h@, n@, i));
        }
        return false;
    }
    if nlen == 0 {
        proof {
            assert(h@.subrange(0, 0) =~= n@);
            assert(spec_contains_at(h@, n@, 0));
        }
        return true;
    }
    let last: usize = hlen - nlen;
    let mut i: usize = 0;
    while i <= last
        invariant
            i <= last + 1,
            1 <= nlen == n@.len(),
            hlen == h@.len(),
            last == hlen - nlen,
            forall|k: int| 0 <= k < i ==> !spec_contains_at(h@, n@, k),
        decreases last + 1 - i,
    {
        if match_at(h, n, i) {
            return true;
        }
        i = i + 1;
    }
    proof {
        assert(forall|k: int| spec_contains_at(h@, n@, k) ==> 0 <= k <= last);
    }
    false
}

/// Substring containment on string slices.
pub fn str_contains(h: &str, n: &str) -> (r: bool)
    ensures
        r == spec_contains(h@, n@),
{
    let hv = str_chars(h);
    let nv = str_chars(n);
    contains_chars(&hv, &nv)
}

/// Character-for-character equality of string slices.
pub fn str_eq(a: &str, b: &str) -> (r: bool)
    ensures
        r == (a@ == b@),
{
    let alen = a.unicode_len();
    let blen = b.unicode_len();
    if alen != blen {
        return false;
    }
    let mut i: usize = 0;
    while i < alen
        invariant
            i <= alen,
            alen == a@.len(),
            alen == b@.len(),
            forall|k: int| 0 <= k < i ==> a@[k] == b@[k],
        decreases alen - i,
    {
        if a.get_char(i) != b.get_char(i) {
            return false;
        }
        i = i + 1;
    }
    proof {
        assert(a@ =~= b@);
    }
    true
}

// ─── prefix test ─────────────────────────────────────────────────────────────

/// `p` is a prefix of `s`.
pub open spec fn spec_starts_with(s: Seq<char>, p: Seq<char>) -> bool {
    p.len() <= s.len() && s.subrange(0, p.len() as int) == p
}

/// Prefix test on string slices.
pub fn str_starts_with(s: &str, p: &str) -> (r: bool)
    ensures
        r == spec_starts_with(s@, p@),
{
    let sv = str_chars(s);
    let pv = str_chars(p);
    if pv.len() > sv.len() {
        return false;
    }
    let r = match_at(&sv, &pv, 0);
    proof {
        if spec_contains_at(sv@, pv@, 0) {
            assert(spec_starts_with(s@, p@));
        }
    }
    r
}

// ─── lexicographic order on character sequences ──────────────────────────────

/// Lexicographic order by Unicode code point; equal prefixes fall through to
/// length comparison. Matches byte order of the UTF-8 encodings.
pub open spec fn lex_le(a: Seq<char>, b: Seq<char>) -> bool
    decreases a.len(),
{
    if a.len() == 0 {
        true
    } else if b.len() == 0 {
        false
    } else if (a[0] as u32) != (b[0] as u32) {
        (a[0] as u32) < (b[0] as u32)
    } else {
        lex_le(a.skip(1), b.skip(1))
    }
}

pub proof fn lex_le_reflexive(a: Seq<char>)
    ensures
        lex_le(a, a),
    decreases a.len(),
{
    if a.len() > 0 {
        lex_le_reflexive(a.skip(1));
    }
}

pub proof fn lex_le_total(a: Seq<char>, b: Seq<char>)
    ensures
        lex_le(a, b) || lex_le(b, a),
    decreases a.len(),
{
    if a.len() == 0 || b.len() == 0 {
    } else if (a[0] as u32) != (b[0] as u32) {
    } else {
        lex_le_total(a.skip(1), b.skip(1));
    }
}

pub proof fn lex_le_transitive(a: Seq<char>, b: Seq<char>, c: Seq<char>)
    requires
        lex_le(a, b),
        lex_le(b, c),
    ensures
        lex_le(a, c),
    decreases a.len(),
{
    if a.len() == 0 {
    } else if b.len() == 0 {
    } else if c.len() == 0 {
    } else {
        if (a[0] as u32) == (b[0] as u32) && (b[0] as u32) == (c[0] as u32) {
            lex_le_transitive(a.skip(1), b.skip(1), c.skip(1));
        }
    }
}

/// Character-sequence comparison deciding `lex_le`.
pub fn chars_le(a: &Vec<char>, b: &Vec<char>) -> (r: bool)
    ensures
        r == lex_le(a@, b@),
{
    let mut i: usize = 0;
    let alen = a.len();
    let blen = b.len();
    proof {
        assert(a@.skip(0) =~= a@);
        assert(b@.skip(0) =~= b@);
    }
    while i < alen && i < blen
        invariant
            i <= alen,
            i <= blen,
            alen == a@.len(),
            blen == b@.len(),
            lex_le(a@, b@) == lex_le(a@.skip(i as int), b@.skip(i as int)),
            lex_le(b@, a@) == lex_le(b@.skip(i as int), a@.skip(i as int)),
        decreases alen - i,
    {
        let ua = a[i] as u32;
        let ub = b[i] as u32;
        proof {
            assert(a@.skip(i as int)[0] == a@[i as int]);
            assert(b@.skip(i as int)[0] == b@[i as int]);
        }
        if ua != ub {
            return ua < ub;
        }
        proof {
            assert(a@.skip(i as int).skip(1) =~= a@.skip(i + 1));
            assert(b@.skip(i as int).skip(1) =~= b@.skip(i + 1));
        }
        i = i + 1;
    }
    proof {
        if i >= alen {
            assert(a@.skip(i as int).len() == 0);
        } else {
            assert(b@.skip(i as int).len() == 0);
            assert(a@.skip(i as int).len() > 0);
        }
    }
    alen <= blen
}

/// Lexicographic comparison of string slices.
pub fn str_le(a: &str, b: &str) -> (r: bool)
    ensures
        r == lex_le(a@, b@),
{
    let av = str_chars(a);
    let bv = str_chars(b);
    chars_le(&av, &bv)
}

// ─── trusted wrappers over std string functions ──────────────────────────────

/// What `str::to_lowercase` returns: the result depends on the characters alone.
pub uninterp spec fn lower_of(s: Seq<char>) -> Seq<char>;

/// Relies on `str::to_lowercase`: Unicode lowercase mapping of the text.
#[verifier::external_body]
pub fn lowercase(s: &str) -> (r: String)
    ensures
        r@ == lower_of(s@),
        s@.len() == 0 ==> r@.len() == 0,
{
    s.to_lowercase()
}

/// What `str::trim` returns: the text without leading and trailing whitespace.
pub uninterp spec fn trimmed_of(s: Seq<char>) -> Seq<char>;

/// Relies on `str::trim`: returns a subslice, so the result is never longer
/// than the input, and trimming empty text yields empty text.
#[verifier::external_body]
pub fn trim_str(s: &str) -> (r: &str)
    ensures
        r@ == trimmed_of(s@),
        r@.len() <= s@.len(),
        s@.len() == 0 ==> r@.len() == 0,
{
    s.trim()
}

} // verus!
