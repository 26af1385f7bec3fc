//! Verified text helpers: decimal rendering and parsing, lexicographic
//! comparison, substring search, and single-separator splitting.  These are
//! the only string operations the manager needs.

use vstd::prelude::*;
use vstd::string::*;

verus! {

/// Relies on `String::push`: appends exactly the one character.
pub assume_specification[ String::push ](s: &mut String, ch: char)
    ensures
        final(s)@ == old(s)@.push(ch),
;

/// Decimal digit character for a value below ten.
pub open spec fn dec_digit(d: int) -> char {
    if d == 0 {
        '0'
    } else if d == 1 {
        '1'
    } else if d == 2 {
        '2'
    } else if d == 3 {
        '3'
    } else if d == 4 {
        '4'
    } else if d == 5 {
        '5'
    } else if d == 6 {
        '6'
    } else if d == 7 {
        '7'
    } else if d == 8 {
        '8'
    } else {
        '9'
    }
}

/// Decimal rendering of `v`, most significant digit first, no sign and no
/// leading zero (except for zero itself).
pub open spec fn spec_u32_dec(v: nat) -> Seq<char>
    decreases v,
{
    if v < 10 {
        seq![dec_digit(v as int)]
    } else {
        spec_u32_dec(v / 10).push(dec_digit((v % 10) as int))
    }
}

pub fn push_digit(s: &mut String, d: u32)
    requires
        d < 10,
    ensures
        final(s)@ == old(s)@.push(dec_digit(d as int)),
{
    let c: char = match d {
        0 => '0',
        1 => '1',
        2 => '2',
        3 => '3',
        4 => '4',
        5 => '5',
        6 => '6',
        7 => '7',
        8 => '8',
        _ => '9',
    };
    s.push(c);
}

/// Appends the decimal rendering of `v` to `s`.
pub fn push_dec_u32(s: &mut String, v: u32)
    ensures
        final(s)@ == old(s)@ + spec_u32_dec(v as nat),
    decreases v,
{
    if v >= 10 {
        push_dec_u32(s, v / 10);
    }
    push_digit(s, v % 10);
    proof {
        if v < 10 {
            assert(old(s)@ + spec_u32_dec(v as nat) =~= old(s)@.push(dec_digit(v as int)));
        } else {
            assert(old(s)@ + spec_u32_dec(v as nat) =~= (old(s)@ + spec_u32_dec(
                (v / 10) as nat,
            )).push(dec_digit((v % 10) as int)));
        }
    }
}

/// Decimal text of `v`.
pub fn u32_to_string(v: u32) -> (r: String)
    ensures
        r@ == spec_u32_dec(v as nat),
{
    let mut s = String::new();
    push_dec_u32(&mut s, v);
    proof {
        assert(Seq::<char>::empty() + spec_u32_dec(v as nat) =~= spec_u32_dec(v as nat));
    }
    s
}

/// Whether `c` is a decimal digit.
pub open spec fn is_dec_digit(c: char) -> bool {
    48 <= c as u32 <= 57
}

/// Whether every character of `s` is a decimal digit.
pub open spec fn all_dec_digits(s: Seq<char>) -> bool {
    forall|i: int| 0 <= i < s.len() ==> is_dec_digit(#[trigger] s[i])
}

/// Numeric value of a digit string (zero for the empty string).
pub open spec fn spec_dec_val(s: Seq<char>) -> nat
    decreases s.len(),
{
    if s.len() == 0 {
        0
    } else {
        spec_dec_val(s.drop_last()) * 10 + (if s.last() as u32 >= 48 {
            (s.last() as u32 - 48) as nat
        } else {
            0
        })
    }
}

/// What `try_parse_u32` accepts: a non-empty all-digit string whose value
/// fits in 32 bits.
pub open spec fn spec_parse_u32(s: Seq<char>) -> Option<u32> {
    if s.len() > 0 && all_dec_digits(s) && spec_dec_val(s) <= u32::MAX {
        Some(spec_dec_val(s) as u32)
    } else {
        None
    }
}

proof fn lemma_dec_val_grows(s: Seq<char>, i: int)
    requires
        0 <= i <= s.len(),
    ensures
        spec_dec_val(s.take(i)) <= spec_dec_val(s),
    decreases s.len() - i,
{
    if i < s.len() {
        assert(s.take(i + 1).drop_last() =~= s.take(i));
        assert(s.take(i + 1).last() == s[i]);
        lemma_dec_val_grows(s, i + 1);
        assert(spec_dec_val(s.take(i)) <= spec_dec_val(s.take(i + 1))) by {
            assert(spec_dec_val(s.take(i + 1)) == spec_dec_val(s.take(i)) * 10 + (if s[i]
                as u32 >= 48 {
                (s[i] as u32 - 48) as nat
            } else {
                0
            }));
        }
    } else {
        assert(s.take(i) =~= s);
    }
}

/// Parses decimal text as a 32-bit value, accepting exactly the non-empty
/// all-digit strings whose value fits.
pub fn try_parse_u32(s: &str) -> (r: Option<u32>)
    ensures
        r == spec_parse_u32(s@),
{
    let n = s.unicode_len();
    if n == 0 {
        return None;
    }
    let mut acc: u64 = 0;
    let mut i: usize = 0;
    proof {
        assert(s@.take(0) =~= Seq::<char>::empty());
    }
    while i < n
        invariant
            0 <= i <= n,
            n == s@.len(),
            all_dec_digits(s@.take(i as int)),
            acc == spec_dec_val(s@.take(i as int)),
            acc <= u32::MAX,
        decreases n - i,
    {
        let c = s.get_char(i);
        let cv = c as u32;
        if cv < 48 || cv > 57 {
            return None;
        }
        let d = cv - 48;
        let next: u64 = acc * 10 + (d as u64);
        proof {
            assert(s@.take(i + 1).drop_last() =~= s@.take(i as int));
            assert(s@.take(i + 1).last() == s@[i as int]);
        }
        if next > u32::MAX as u64 {
            proof {
                lemma_dec_val_grows(s@, i + 1);
            }
            return None;
        }
        acc = next;
        i = i + 1;
    }
    proof {
        assert(s@.take(n as int) =~= s@);
    }
    Some(acc as u32)
}

/// Scalar value of each decimal digit character.
pub proof fn lemma_dec_digit_val(d: int)
    requires
        0 <= d < 10,
    ensures
        dec_digit(d) as u32 == 48 + d,
        is_dec_digit(dec_digit(d)),
{
    if d == 0 {
        assert('0' as u32 == 48);
    } else if d == 1 {
        assert('1' as u32 == 49);
    } else if d == 2 {
        assert('2' as u32 == 50);
    } else if d == 3 {
        assert('3' as u32 == 51);
    } else if d == 4 {
        assert('4' as u32 == 52);
    } else if d == 5 {
        assert('5' as u32 == 53);
    } else if d == 6 {
        assert('6' as u32 == 54);
    } else if d == 7 {
        assert('7' as u32 == 55);
    } else if d == 8 {
        assert('8' as u32 == 56);
    } else {
        assert('9' as u32 == 57);
    }
}

/// Round trip: the decimal rendering of a value parses back to it.
pub proof fn lemma_dec_roundtrip(v: u32)
    ensures
        spec_parse_u32(spec_u32_dec(v as nat)) == Some(v),
    decreases v,
{
    let s = spec_u32_dec(v as nat);
    proof_digit_facts(v);
    if v < 10 {
        assert(s =~= seq![dec_digit(v as int)]);
        assert(s.drop_last() =~= Seq::<char>::empty());
        assert(spec_dec_val(s.drop_last()) == 0);
        assert(s.last() == dec_digit(v as int));
        assert(s.last() as u32 == 48 + v);
        assert(spec_dec_val(s) == spec_dec_val(s.drop_last()) * 10 + (s.last() as u32 - 48));
        assert(spec_dec_val(s) == v);
        assert(all_dec_digits(s));
    } else {
        lemma_dec_roundtrip(v / 10);
        let p = spec_u32_dec((v / 10) as nat);
        assert(s == p.push(dec_digit((v % 10) as int)));
        assert(s.drop_last() =~= p);
        assert(s.last() == dec_digit((v % 10) as int));
        assert(spec_dec_val(s) == spec_dec_val(p) * 10 + (v % 10));
        assert(spec_dec_val(s) == v);
        assert forall|i: int| 0 <= i < s.len() implies is_dec_digit(#[trigger] s[i]) by {
            if i < p.len() {
                assert(s[i] == p[i]);
            } else {
                assert(s[i] == dec_digit((v % 10) as int));
            }
        }
    }
}

proof fn proof_digit_facts(v: u32)
    ensures
        dec_digit((v % 10) as int) as u32 == 48 + (v % 10),
        is_dec_digit(dec_digit((v % 10) as int)),
        v < 10 ==> dec_digit(v as int) as u32 == 48 + v && is_dec_digit(dec_digit(v as int)),
{
    lemma_dec_digit_val((v % 10) as int);
    if v < 10 {
        lemma_dec_digit_val(v as int);
    }
}

/// Lexicographic order on character sequences by scalar value; matches the
/// ordering of Rust strings.
pub open spec fn lex_le(a: Seq<char>, b: Seq<char>) -> bool
    decreases a.len(),
{
    if a.len() == 0 {
        true
    } else if b.len() == 0 {
        false
    } else if (a[0] as u32) < (b[0] as u32) {
        true
    } else if (a[0] as u32) > (b[0] as u32) {
        false
    } else {
        lex_le(a.drop_first(), b.drop_first())
    }
}

/// Whether `a` sorts at or before `b`.
pub fn str_le(a: &str, b: &str) -> (r: bool)
    ensures
        r == lex_le(a@, b@),
{
    let an = a.unicode_len();
    let bn = b.unicode_len();
    let mut i: usize = 0;
    proof {
        assert(a@.skip(0) =~= a@);
        assert(b@.skip(0) =~= b@);
    }
    loop
        invariant
            0 <= i <= an,
            0 <= i <= bn,
            an == a@.len(),
            bn == b@.len(),
            lex_le(a@, b@) == lex_le(a@.skip(i as int), b@.skip(i as int)),
        ensures
            lex_le(a@, b@) == lex_le(a@.skip(i as int), b@.skip(i as int)),
            (i >= an || i >= bn) || a@[i as int] != b@[i as int],
            i <= an && i <= bn,
        decreases an - i,
    {
        if i >= an || i >= bn {
            break;
        }
        let ca = a.get_char(i);
        let cb = b.get_char(i);
        if ca != cb {
            break;
        }
        proof {
            let sa = a@.skip(i as int);
            let sb = b@.skip(i as int);
            assert(sa[0] == a@[i as int]);
            assert(sb[0] == b@[i as int]);
            assert(sa.drop_first() =~= a@.skip(i + 1));
            assert(sb.drop_first() =~= b@.skip(i + 1));
        }
        i = i + 1;
    }
    proof {
        let sa = a@.skip(i as int);
        let sb = b@.skip(i as int);
        if i >= an {
            assert(sa.len() == 0);
        } else if i >= bn {
            assert(sb.len() == 0);
        } else {
            assert(sa[0] == a@[i as int]);
            assert(sb[0] == b@[i as int]);
        }
    }
    if i >= an {
        true
    } else if i >= bn {
        false
    } else {
        let ca = a.get_char(i);
        let cb = b.get_char(i);
        (ca as u32) < (cb as u32)
    }
}

/// Whether `needle` occurs in `hay` as a contiguous run.
pub open spec fn has_subseq(hay: Seq<char>, needle: Seq<char>) -> bool {
    exists|i: int|
        0 <= i && i + needle.len() <= hay.len() && #[trigger] hay.subrange(i, i + needle.len())
            == needle
}

/// Whether `needle` stands at position `i` of `hay`.
fn match_at(hay: &str, i: usize, needle: &str) -> (r: bool)
    requires
        i + needle@.len() <= hay@.len(),
    ensures
        r == (hay@.subrange(i as int, i + needle@.len()) == needle@),
{
    let nn = needle.unicode_len();
    let hn = hay.unicode_len();
    let ghost win = hay@.subrange(i as int, i + needle@.len());
    let mut j: usize = 0;
    while j < nn
        invariant
            0 <= j <= nn,
            i + nn <= hn,
            hn == hay@.len(),
            nn == needle@.len(),
            win == hay@.subrange(i as int, i + needle@.len()),
            forall|k: int| 0 <= k < j ==> win[k] == needle@[k],
        decreases nn - j,
    {
        let hc = hay.get_char(i + j);
        let nc = needle.get_char(j);
        proof {
            assert(win[j as int] == hay@[i + j]);
        }
        if hc != nc {
            return false;
        }
        j = j + 1;
    }
    proof {
        assert(win =~= needle@);
    }
    true
}

/// Whether `needle` occurs in `hay`, as `str::contains` reports it.
pub fn str_contains(hay: &str, needle: &str) -> (r: bool)
    ensures
        r == has_subseq(hay@, needle@),
{
    let hn = hay.unicode_len();
    let nn = needle.unicode_len();
    if nn > hn {
        return false;
    }
    if nn == 0 {
        proof {
            assert(hay@.subrange(0, 0 + needle@.len() as int) =~= needle@);
        }
        return true;
    }
    let mut i: usize = 0;
    while i <= hn - nn
        invariant
            0 <= i <= hn - nn + 1,
            0 < nn <= hn,
            hn == hay@.len(),
            nn == needle@.len(),
            forall|k: int|
                0 <= k < i ==> #[trigger] hay@.subrange(k, k + needle@.len()) != needle@,
        decreases hn - nn - i + 1,
    {
        if match_at(hay, i, needle) {
            return true;
        }
        i = i + 1;
    }
    proof {
        assert forall|k: int| 0 <= k && k + needle@.len() <= hay@.len() implies #[trigger] hay@.subrange(
            k,
            k + needle@.len(),
        ) != needle@ by {
            assert(k < i);
        }
    }
    false
}

/// Whether `i` is the only index of `c` in `s`.
pub open spec fn only_index_of(s: Seq<char>, c: char, i: int) -> bool {
    0 <= i < s.len() && s[i] == c && forall|j: int| 0 <= j < s.len() && #[trigger] s[j] == c ==> j
        == i
}

/// Index of the first occurrence of `c` in `s`, if any.
pub fn find_char(s: &str, c: char) -> (r: Option<usize>)
    ensures
        r matches Some(i) ==> 0 <= i < s@.len() && s@[i as int] == c && forall|j: int|
            0 <= j < i ==> s@[j] != c,
        r is None ==> forall|j: int| 0 <= j < s@.len() ==> s@[j] != c,
{
    let n = s.unicode_len();
    let mut i: usize = 0;
    while i < n
        invariant
            0 <= i <= n,
            n == s@.len(),
            forall|j: int| 0 <= j < i ==> s@[j] != c,
        decreases n - i,
    {
        if s.get_char(i) == c {
            return Some(i);
        }
        i = i + 1;
    }
    None
}

/// Splits `s` at its single occurrence of `c`; yields nothing when `c`
/// occurs zero or several times.
pub fn split_once_unique(s: &str, c: char) -> (r: Option<(String, String)>)
    ensures
        r is Some <==> exists|i: int| only_index_of(s@, c, i),
        r matches Some(p) ==> exists|i: int|
            #[trigger] only_index_of(s@, c, i) && p.0@ == s@.take(i) && p.1@ == s@.skip(i + 1),
{
    let n = s.unicode_len();
    let first = match find_char(s, c) {
        Some(i) => i,
        None => {
            proof {
                assert forall|w: int| !only_index_of(s@, c, w) by {
                    if 0 <= w < s@.len() {
                        assert(s@[w] != c);
                    }
                }
            }
            return None;
        },
    };
    let mut j: usize = first + 1;
    while j < n
        invariant
            0 <= first < j <= n,
            n == s@.len(),
            s@[first as int] == c,
            forall|k: int| 0 <= k < first ==> s@[k] != c,
            forall|k: int| first < k < j ==> s@[k] != c,
        decreases n - j,
    {
        if s.get_char(j) == c {
            proof {
                assert forall|w: int| !only_index_of(s@, c, w) by {
                    if only_index_of(s@, c, w) {
                        assert(s@[first as int] == c);
                        assert(s@[j as int] == c);
                    }
                }
            }
            return None;
        }
        j = j + 1;
    }
    let left = s.substring_char(0, first);
    let right = s.substring_char(first + 1, n);
    proof {
        assert(only_index_of(s@, c, first as int));
        assert(left@ =~= s@.take(first as int));
        assert(right@ =~= s@.skip(first + 1));
    }
    Some((String::from_str(left), String::from_str(right)))
}

/// `s` with every occurrence of `pat` replaced by `rep`.
pub fn replace_char(s: &str, pat: char, rep: char) -> (r: String)
    ensures
        r@ == s@.map_values(|c: char| if c == pat { rep } else { c }),
{
    let n = s.unicode_len();
    let mut r = String::new();
    let mut i: usize = 0;
    while i < n
        invariant
            0 <= i <= n,
            n == s@.len(),
            r@ =~= s@.take(i as int).map_values(|c: char| if c == pat { rep } else { c }),
        decreases n - i,
    {
        let ch = s.get_char(i);
        if ch == pat {
            r.push(rep);
        } else {
            r.push(ch);
        }
        proof {
            assert(s@.take(i + 1) =~= s@.take(i as int).push(s@[i as int]));
            assert(s@.take(i + 1).map_values(|c: char| if c == pat { rep } else { c }) =~= s@.take(
                i as int,
            ).map_values(|c: char| if c == pat { rep } else { c }).push(
                if s@[i as int] == pat { rep } else { s@[i as int] },
            ));
        }
        i = i + 1;
    }
    proof {
        assert(s@.take(n as int) =~= s@);
    }
    r
}

} // verus!

verus! {

/// The lexicographic order relates every pair, one way or the other.
pub proof fn lemma_lex_le_total(a: Seq<char>, b: Seq<char>)
    ensures
        lex_le(a, b) || lex_le(b, a),
    decreases a.len(),
{
    if a.len() > 0 && b.len() > 0 {
        if (a[0] as u32) == (b[0] as u32) {
            lemma_lex_le_total(a.drop_first(), b.drop_first());
        }
    }
}

/// The lexicographic order is transitive.
pub proof fn lemma_lex_le_trans(a: Seq<char>, b: Seq<char>, c: Seq<char>)
    requires
        lex_le(a, b),
        lex_le(b, c),
    ensures
        lex_le(a, c),
    decreases a.len(),
{
    if a.len() > 0 {
        if b.len() > 0 && c.len() > 0 {
            if (a[0] as u32) == (b[0] as u32) && (b[0] as u32) == (c[0] as u32) {
                lemma_lex_le_trans(a.drop_first(), b.drop_first(), c.drop_first());
            }
        }
    }
}

} // verus!

verus! {

/// Decimal rendering of a signed value: a minus sign for negatives, then
/// the magnitude's digits.
pub open spec fn spec_i32_dec(v: int) -> Seq<char> {
    if v >= 0 {
        spec_u32_dec(v as nat)
    } else {
        seq!['-'] + spec_u32_dec((-v) as nat)
    }
}

/// Decimal text of a signed value.
pub fn i32_to_string(v: i32) -> (r: String)
    ensures
        r@ == spec_i32_dec(v as int),
{
    if v >= 0 {
        u32_to_string(v as u32)
    } else {
        let mut s = String::from_str("-");
        let m = (-(v as i64)) as u32;
        proof {
            reveal_strlit("-");
            assert("-"@.len() == 1);
            assert("-"@[0] == '-');
            assert("-"@ =~= seq!['-']);
        }
        push_dec_u32(&mut s, m);
        s
    }
}

} // verus!

verus! {

/// Appends the decimal rendering of a 64-bit value to `s`.
pub fn push_dec_u64(s: &mut String, v: u64)
    ensures
        final(s)@ == old(s)@ + spec_u32_dec(v as nat),
    decreases v,
{
    if v >= 10 {
        push_dec_u64(s, v / 10);
    }
    push_digit(s, (v % 10) as u32);
    proof {
        if v < 10 {
            assert(old(s)@ + spec_u32_dec(v as nat) =~= old(s)@.push(dec_digit(v as int)));
        } else {
            assert(old(s)@ + spec_u32_dec(v as nat) =~= (old(s)@ + spec_u32_dec(
                (v / 10) as nat,
            )).push(dec_digit((v % 10) as int)));
        }
    }
}

/// Decimal text of a 64-bit value.
pub fn u64_to_string(v: u64) -> (r: String)
    ensures
        r@ == spec_u32_dec(v as nat),
{
    let mut s = String::new();
    push_dec_u64(&mut s, v);
    proof {
        assert(Seq::<char>::empty() + spec_u32_dec(v as nat) =~= spec_u32_dec(v as nat));
    }
    s
}

} // verus!
