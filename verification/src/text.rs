//! Verified text utilities: ASCII case-insensitive comparison and substring
//! search over `&str`, used by the status parser and the filter projector.

use vstd::prelude::*;
use vstd::string::StrSliceExecFns;

verus! {

/// Code point of a character with ASCII upper case letters folded to lower
/// case; all other characters are left as they are.
pub open spec fn lower_u32(c: char) -> u32 {
    if 65 <= c as u32 && c as u32 <= 90 {
        (c as u32 + 32) as u32
    } else {
        c as u32
    }
}

/// Two character sequences are equal up to ASCII case.
pub open spec fn eq_ci(a: Seq<char>, b: Seq<char>) -> bool {
    a.len() == b.len() && forall|i: int| 0 <= i < a.len() ==> lower_u32(a[i]) == lower_u32(b[i])
}

/// The needle `n` occurs in the haystack `h` at position `i`, up to ASCII case.
pub open spec fn ci_matches_at(h: Seq<char>, n: Seq<char>, i: int) -> bool {
    0 <= i && i + n.len() <= h.len() && eq_ci(h.subrange(i, i + n.len() as int), n)
}

/// The needle `n` occurs somewhere in the haystack `h`, up to ASCII case.
pub open spec fn contains_ci(h: Seq<char>, n: Seq<char>) -> bool {
    exists|i: int| ci_matches_at(h, n, i)
}

/// The needle `n` occurs in the haystack `h` exactly at position `i`.
pub open spec fn matches_at(h: Seq<char>, n: Seq<char>, i: int) -> bool {
    0 <= i && i + n.len() <= h.len() && h.subrange(i, i + n.len() as int) == n
}

/// The needle `n` occurs somewhere in the haystack `h`.
pub open spec fn contains_seq(h: Seq<char>, n: Seq<char>) -> bool {
    exists|i: int| matches_at(h, n, i)
}

/// Case-folded code point of one character, executable form.
pub fn lower_code(c: char) -> (r: u32)
    ensures
        r == lower_u32(c),
{
    let u = c as u32;
    if 65 <= u && u <= 90 {
        u + 32
    } else {
        u
    }
}

/// Equality of two strings up to ASCII case.
pub fn eq_ignore_ascii_case(a: &str, b: &str) -> (r: bool)
    ensures
        r == eq_ci(a@, b@),
{
    let alen = a.unicode_len();
    let blen = b.unicode_len();
    if alen != blen {
        return false;
    }
    let mut i: usize = 0;
    while i < alen
        invariant
            alen == a@.len(),
            blen == b@.len(),
            alen == blen,
            0 <= i <= alen,
            forall|k: int| 0 <= k < i ==> lower_u32(a@[k]) == lower_u32(b@[k]),
        decreases alen - i,
    {
        if lower_code(a.get_char(i)) != lower_code(b.get_char(i)) {
            return false;
        }
        i = i + 1;
    }
    true
}

/// Whether `n` occurs at position `i` of `h`, up to ASCII case.
fn ci_check_at(h: &str, n: &str, i: usize) -> (r: bool)
    requires
        i + n@.len() <= h@.len(),
    ensures
        r == ci_matches_at(h@, n@, i as int),
{
    let hlen = h.unicode_len();
    let nlen = n.unicode_len();
    let mut k: usize = 0;
    while k < nlen
        invariant
            hlen == h@.len(),
            nlen == n@.len(),
            i + nlen <= hlen,
            0 <= k <= nlen,
            forall|j: int| 0 <= j < k ==> lower_u32(h@[i + j]) == lower_u32(n@[j]),
        decreases nlen - k,
    {
        if lower_code(h.get_char(i + k)) != lower_code(n.get_char(k)) {
            assert(!eq_ci(h@.subrange(i as int, i + n@.len() as int), n@));
            return false;
        }
        k = k + 1;
    }
    assert(eq_ci(h@.subrange(i as int, i + n@.len() as int), n@));
    true
}

/// Case-insensitive substring search.
pub fn contains_ignore_ascii_case(h: &str, n: &str) -> (r: bool)
    ensures
        r == contains_ci(h@, n@),
{
    let hlen = h.unicode_len();
    let nlen = n.unicode_len();
    if nlen > hlen {
        assert forall|j: int| !ci_matches_at(h@, n@, j) by {}
        return false;
    }
    if nlen == 0 {
        assert(ci_matches_at(h@, n@, 0)) by {
            assert(h@.subrange(0, 0) =~= n@);
        }
        return true;
    }
    let mut i: usize = 0;
    while i <= hlen - nlen
        invariant
            hlen == h@.len(),
            nlen == n@.len(),
            1 <= nlen <= hlen,
            0 <= i <= hlen - nlen + 1,
            forall|j: int| 0 <= j < i ==> !ci_matches_at(h@, n@, j),
        decreases hlen - nlen - i + 1,
    {
        if ci_check_at(h, n, i) {
            return true;
        }
        i = i + 1;
    }
    assert forall|j: int| !ci_matches_at(h@, n@, j) by {}
    false
}

/// Whether `n` occurs at position `i` of `h`, exactly.
fn check_at(h: &str, n: &str, i: usize) -> (r: bool)
    requires
        i + n@.len() <= h@.len(),
    ensures
        r == matches_at(h@, n@, i as int),
{
    let hlen = h.unicode_len();
    let nlen = n.unicode_len();
    let mut k: usize = 0;
    while k < nlen
        invariant
            hlen == h@.len(),
            nlen == n@.len(),
            i + nlen <= hlen,
            0 <= k <= nlen,
            forall|j: int| 0 <= j < k ==> h@[i + j] == n@[j],
        decreases nlen - k,
    {
        if h.get_char(i + k) != n.get_char(k) {
            assert(h@.subrange(i as int, i + n@.len() as int)[k as int] != n@[k as int]);
            return false;
        }
        k = k + 1;
    }
    assert(h@.subrange(i as int, i + n@.len() as int) =~= n@);
    true
}

/// Position of the first exact occurrence of `n` in `h`, if any.
pub fn find_first(h: &str, n: &str) -> (r: Option<usize>)
    ensures
        match r {
            Some(i) => matches_at(h@, n@, i as int) && forall|j: int|
                0 <= j < i ==> !matches_at(h@, n@, j),
            None => !contains_seq(h@, n@),
        },
{
    let hlen = h.unicode_len();
    let nlen = n.unicode_len();
    if nlen > hlen {
        assert forall|j: int| !matches_at(h@, n@, j) by {}
        return None;
    }
    if nlen == 0 {
        assert(matches_at(h@, n@, 0)) by {
            assert(h@.subrange(0, 0) =~= n@);
        }
        return Some(0);
    }
    let mut i: usize = 0;
    while i <= hlen - nlen
        invariant
            hlen == h@.len(),
            nlen == n@.len(),
            1 <= nlen <= hlen,
            0 <= i <= hlen - nlen + 1,
            forall|j: int| 0 <= j < i ==> !matches_at(h@, n@, j),
        decreases hlen - nlen - i + 1,
    {
        if check_at(h, n, i) {
            return Some(i);
        }
        i = i + 1;
    }
    assert forall|j: int| !matches_at(h@, n@, j) by {}
    None
}

/// Exact string equality, stated over the views.
pub fn str_eq(a: &str, b: &str) -> (r: bool)
    ensures
        r == (a@ == b@),
{
    let alen = a.unicode_len();
    let blen = b.unicode_len();
    if alen != blen {
        return false;
    }
    let mut i: usize = 0;
    while i < alen
        invariant
            alen == a@.len(),
            blen == b@.len(),
            alen == blen,
            0 <= i <= alen,
            forall|k: int| 0 <= k < i ==> a@[k] == b@[k],
        decreases alen - i,
    {
        if h_neq(a.get_char(i), b.get_char(i)) {
            return false;
        }
        i = i + 1;
    }
    assert(a@ =~= b@);
    true
}

/// Character inequality by code point.
fn h_neq(a: char, b: char) -> (r: bool)
    ensures
        r == (a != b),
{
    a as u32 != b as u32
}

/// Decimal digit character for a value below ten.
pub open spec fn digit_char(d: int) -> char {
    if d == 0 {
        '0'
    } else if d == 1 {
        '1'
    } else if d == 2 {
        '2'
    } else if d == 3 {
        '3'
    } else if d == 4 {
        '4'
    } else if d == 5 {
        '5'
    } else if d == 6 {
        '6'
    } else if d == 7 {
        '7'
    } else if d == 8 {
        '8'
    } else {
        '9'
    }
}

/// Decimal representation of a non-negative integer, without leading zeros
/// (except for zero itself).
pub open spec fn dec_digits(n: int) -> Seq<char>
    decreases n,
{
    if n < 10 {
        seq![digit_char(n)]
    } else {
        dec_digits(n / 10).push(digit_char(n % 10))
    }
}

/// One-character string for a decimal digit.
fn digit_str(d: u64) -> (r: &'static str)
    requires
        d < 10,
    ensures
        r@ =~= seq![digit_char(d as int)],
{
    proof {
        reveal_strlit("0");
        reveal_strlit("1");
        reveal_strlit("2");
        reveal_strlit("3");
        reveal_strlit("4");
        reveal_strlit("5");
        reveal_strlit("6");
        reveal_strlit("7");
        reveal_strlit("8");
        reveal_strlit("9");
    }
    match d {
        0 => "0",
        1 => "1",
        2 => "2",
        3 => "3",
        4 => "4",
        5 => "5",
        6 => "6",
        7 => "7",
        8 => "8",
        _ => "9",
    }
}

/// Decimal rendering of an unsigned integer.
pub fn u64_to_string(n: u64) -> (r: String)
    ensures
        r@ == dec_digits(n as int),
    decreases n,
{
    if n < 10 {
        String::from_str(digit_str(n))
    } else {
        let mut s = u64_to_string(n / 10);
        s.append(digit_str(n % 10));
        proof {
            assert(dec_digits((n / 10) as int) + seq![digit_char((n % 10) as int)] =~= dec_digits(
                (n / 10) as int,
            ).push(digit_char((n % 10) as int)));
        }
        s
    }
}

/// Every character of `s` is a decimal digit.
pub open spec fn is_digits(s: Seq<char>) -> bool {
    forall|i: int| 0 <= i < s.len() ==> 48 <= #[trigger] (s[i] as u32) && s[i] as u32 <= 57
}

/// Numeric value of a sequence of decimal digit characters.
pub open spec fn dec_val(s: Seq<char>) -> int
    decreases s.len(),
{
    if s.len() == 0 {
        0
    } else {
        dec_val(s.drop_last()) * 10 + (s.last() as u32 - 48)
    }
}

proof fn lemma_dec_val_nonneg(s: Seq<char>)
    requires
        is_digits(s),
    ensures
        dec_val(s) >= 0,
    decreases s.len(),
{
    if s.len() > 0 {
        assert(is_digits(s.drop_last()));
        lemma_dec_val_nonneg(s.drop_last());
    }
}

proof fn lemma_dec_val_prefix(s: Seq<char>, i: int)
    requires
        is_digits(s),
        0 <= i <= s.len(),
    ensures
        dec_val(s.subrange(0, i)) <= dec_val(s),
    decreases s.len() - i,
{
    if i == s.len() {
        assert(s.subrange(0, i) =~= s);
    } else {
        lemma_dec_val_prefix(s, i + 1);
        let p = s.subrange(0, i + 1);
        assert(is_digits(p));
        assert(p.drop_last() =~= s.subrange(0, i));
        lemma_dec_val_nonneg(p.drop_last());
        assert(dec_val(p) == dec_val(p.drop_last()) * 10 + (p.last() as u32 - 48));
        assert(dec_val(p.drop_last()) * 10 >= dec_val(p.drop_last())) by {
            assert(dec_val(p.drop_last()) >= 0);
        }
    }
}

/// Parse a decimal unsigned integer.
///
/// Returns the value exactly when the string is non-empty, consists of
/// decimal digits only, and the value fits in a `u64`.
pub fn parse_u64(s: &str) -> (r: Option<u64>)
    ensures
        match r {
            Some(v) => s@.len() > 0 && is_digits(s@) && v as int == dec_val(s@),
            None => !(s@.len() > 0 && is_digits(s@) && dec_val(s@) <= u64::MAX),
        },
{
    let len = s.unicode_len();
    if len == 0 {
        return None;
    }
    let mut acc: u64 = 0;
    let mut i: usize = 0;
    while i < len
        invariant
            len == s@.len(),
            0 <= i <= len,
            is_digits(s@.subrange(0, i as int)),
            acc as int == dec_val(s@.subrange(0, i as int)),
        decreases len - i,
    {
        let c = s.get_char(i);
        let u = c as u32;
        if u < 48 || u > 57 {
            assert(!is_digits(s@));
            return None;
        }
        let d = (u - 48) as u64;
        if acc > (u64::MAX - d) / 10 {
            proof {
                let p = s@.subrange(0, i + 1);
                assert(is_digits(p));
                assert(p.drop_last() =~= s@.subrange(0, i as int));
                assert(dec_val(p) == acc * 10 + d);
                if is_digits(s@) {
                    lemma_dec_val_prefix(s@, i + 1);
                    assert(dec_val(s@) >= dec_val(p));
                    assert(acc * 10 + d > u64::MAX) by {
                        assert(acc > (u64::MAX - d) / 10);
                    };
                }
            }
            return None;
        }
        acc = acc * 10 + d;
        proof {
            assert(s@.subrange(0, i + 1).drop_last() =~= s@.subrange(0, i as int));
        }
        i = i + 1;
    }
    proof {
        assert(s@.subrange(0, len as int) =~= s@);
    }
    Some(acc)
}

/// `s` with leading space characters removed.
pub open spec fn trim_front(s: Seq<char>) -> Seq<char>
    decreases s.len(),
{
    if s.len() > 0 && s[0] == ' ' {
        trim_front(s.drop_first())
    } else {
        s
    }
}

/// `s` with trailing space characters removed.
pub open spec fn trim_back(s: Seq<char>) -> Seq<char>
    decreases s.len(),
{
    if s.len() > 0 && s.last() == ' ' {
        trim_back(s.drop_last())
    } else {
        s
    }
}

/// `s` with leading and trailing spaces removed.
pub open spec fn trimmed(s: Seq<char>) -> Seq<char> {
    trim_back(trim_front(s))
}

proof fn lemma_trim_front_subrange(s: Seq<char>, k: int)
    requires
        0 <= k <= s.len(),
        forall|i: int| 0 <= i < k ==> s[i] == ' ',
        k < s.len() ==> s[k] != ' ',
    ensures
        trim_front(s) =~= s.subrange(k, s.len() as int),
    decreases k,
{
    if k == 0 {
        if s.len() > 0 {
            assert(s[0] != ' ');
        }
        assert(trim_front(s) =~= s.subrange(0, s.len() as int));
    } else {
        let t = s.drop_first();
        assert(s[0] == ' ');
        lemma_trim_front_subrange(t, k - 1);
        assert(t.subrange(k - 1, t.len() as int) =~= s.subrange(k, s.len() as int));
    }
}

proof fn lemma_trim_back_subrange(s: Seq<char>, k: int)
    requires
        0 <= k <= s.len(),
        forall|i: int| k <= i < s.len() ==> s[i] == ' ',
        k > 0 ==> s[k - 1] != ' ',
    ensures
        trim_back(s) =~= s.subrange(0, k),
    decreases s.len() - k,
{
    if k == s.len() {
        if s.len() > 0 {
            assert(s.last() != ' ');
        }
        assert(trim_back(s) =~= s.subrange(0, s.len() as int));
    } else {
        let t = s.drop_last();
        assert(s.last() == ' ');
        lemma_trim_back_subrange(t, k);
        assert(t.subrange(0, k) =~= s.subrange(0, k));
    }
}

/// Remove leading and trailing space characters.
pub fn trim_spaces(s: &str) -> (r: &str)
    ensures
        r@ == trimmed(s@),
{
    let len = s.unicode_len();
    let mut a: usize = 0;
    while a < len && s.get_char(a) == ' '
        invariant
            len == s@.len(),
            0 <= a <= len,
            forall|i: int| 0 <= i < a ==> s@[i] == ' ',
        decreases len - a,
    {
        a = a + 1;
    }
    let mut b: usize = len;
    while b > a && s.get_char(b - 1) == ' '
        invariant
            len == s@.len(),
            a <= b <= len,
            forall|i: int| 0 <= i < a ==> s@[i] == ' ',
            a < len ==> s@[a as int] != ' ',
            forall|i: int| b <= i < len ==> s@[i] == ' ',
        decreases b,
    {
        b = b - 1;
    }
    proof {
        lemma_trim_front_subrange(s@, a as int);
        let f = s@.subrange(a as int, len as int);
        lemma_trim_back_subrange(f, b - a);
        assert(f.subrange(0, b - a) =~= s@.subrange(a as int, b as int));
    }
    s.substring_char(a, b)
}

/// Split `s` at every occurrence of the character `c`; a string without `c`
/// yields one piece, and every separator contributes a boundary.
pub open spec fn split_seq(s: Seq<char>, c: char) -> Seq<Seq<char>>
    decreases s.len(),
{
    if s.len() == 0 {
        seq![Seq::<char>::empty()]
    } else if s[0] == c {
        seq![Seq::<char>::empty()] + split_seq(s.drop_first(), c)
    } else {
        let rest = split_seq(s.drop_first(), c);
        seq![seq![s[0]] + rest[0]] + rest.drop_first()
    }
}

pub proof fn lemma_split_len(s: Seq<char>, c: char)
    ensures
        split_seq(s, c).len() >= 1,
    decreases s.len(),
{
    if s.len() > 0 {
        lemma_split_len(s.drop_first(), c);
    }
}

proof fn lemma_split_no_sep(s: Seq<char>, c: char)
    requires
        forall|i: int| 0 <= i < s.len() ==> s[i] != c,
    ensures
        split_seq(s, c) =~= seq![s],
    decreases s.len(),
{
    if s.len() == 0 {
        assert(s =~= Seq::<char>::empty());
        assert(split_seq(s, c) =~= seq![s]);
    } else {
        let t = s.drop_first();
        assert(forall|i: int| 0 <= i < t.len() ==> t[i] != c);
        lemma_split_no_sep(t, c);
        assert(seq![s[0]] + t =~= s);
        assert(split_seq(s, c) =~= seq![seq![s[0]] + t]);
    }
}

proof fn lemma_split_at_first(s: Seq<char>, c: char, w: int)
    requires
        0 <= w < s.len(),
        s[w] == c,
        forall|j: int| 0 <= j < w ==> s[j] != c,
    ensures
        split_seq(s, c) =~= seq![s.subrange(0, w)] + split_seq(
            s.subrange(w + 1, s.len() as int),
            c,
        ),
    decreases w,
{
    let t = s.drop_first();
    if w == 0 {
        assert(t =~= s.subrange(1, s.len() as int));
        assert(s.subrange(0, 0) =~= Seq::<char>::empty());
        assert(split_seq(s, c) =~= seq![s.subrange(0, w)] + split_seq(
            s.subrange(w + 1, s.len() as int),
            c,
        ));
    } else {
        assert(s[0] != c);
        assert(t[w - 1] == c);
        lemma_split_at_first(t, c, w - 1);
        lemma_split_len(t.subrange(w, t.len() as int), c);
        let rest = split_seq(t, c);
        assert(rest[0] == t.subrange(0, w - 1));
        assert(seq![s[0]] + t.subrange(0, w - 1) =~= s.subrange(0, w));
        assert(rest.drop_first() =~= split_seq(t.subrange(w, t.len() as int), c));
        assert(t.subrange(w, t.len() as int) =~= s.subrange(w + 1, s.len() as int));
        assert(split_seq(s, c) =~= seq![s.subrange(0, w)] + split_seq(
            s.subrange(w + 1, s.len() as int),
            c,
        ));
    }
}

/// Split a string at a separator character.
pub fn split_char(s: &str, c: char) -> (r: Vec<String>)
    ensures
        r@.map_values(|p: String| p@) == split_seq(s@, c),
        r@.len() >= 1,
    decreases s@.len(),
{
    let len = s.unicode_len();
    let mut w: usize = 0;
    let mut found = false;
    while w < len && !found
        invariant
            len == s@.len(),
            0 <= w <= len,
            forall|j: int| 0 <= j < w ==> s@[j] != c,
            found ==> w < len && s@[w as int] == c,
        decreases len - w, (if found { 0int } else { 1int }),
    {
        if s.get_char(w) == c {
            found = true;
        } else {
            w = w + 1;
        }
    }
    if !found {
        proof {
            lemma_split_no_sep(s@, c);
        }
        let mut r: Vec<String> = Vec::new();
        r.push(String::from_str(s));
        proof {
            assert(r@.map_values(|p: String| p@) =~= split_seq(s@, c));
        }
        return r;
    }
    proof {
        lemma_split_at_first(s@, c, w as int);
    }
    let head = s.substring_char(0, w);
    let tail = s.substring_char(w + 1, len);
    let mut r = split_char(tail, c);
    r.insert(0, String::from_str(head));
    proof {
        assert(r@.map_values(|p: String| p@) =~= split_seq(s@, c));
    }
    r
}

/// Append one character to a string.
///
/// Relies on `String::push`: appends the character at the end.
#[verifier::external_body]
pub fn push_char(s: &mut String, c: char)
    ensures
        final(s)@ == old(s)@.push(c),
{
    s.push(c)
}

/// Remove the last character of a string, if any.
///
/// Relies on `String::pop`: removes and returns the last character, `None`
/// on an empty string.
#[verifier::external_body]
pub fn pop_char(s: &mut String) -> (r: Option<char>)
    ensures
        old(s)@.len() == 0 ==> r is None && final(s)@ == old(s)@,
        old(s)@.len() > 0 ==> r == Some(old(s)@.last()) && final(s)@ == old(s)@.drop_last(),
{
    s.pop()
}

/// Lexicographic order on character sequences by code point, with a prefix
/// ordered before its extensions; matches the order `str` sorts in.
pub open spec fn lex_le(a: Seq<char>, b: Seq<char>) -> bool
    decreases a.len(),
{
    if a.len() == 0 {
        true
    } else if b.len() == 0 {
        false
    } else if (a[0] as u32) < (b[0] as u32) {
        true
    } else if (a[0] as u32) > (b[0] as u32) {
        false
    } else {
        lex_le(a.drop_first(), b.drop_first())
    }
}

/// The lexicographic order is total.
pub proof fn lemma_lex_total(a: Seq<char>, b: Seq<char>)
    ensures
        lex_le(a, b) || lex_le(b, a),
    decreases a.len(),
{
    if a.len() > 0 && b.len() > 0 && a[0] as u32 == b[0] as u32 {
        lemma_lex_total(a.drop_first(), b.drop_first());
    }
}

proof fn lemma_lex_skip(a: Seq<char>, b: Seq<char>, i: int)
    requires
        0 <= i <= a.len(),
        i <= b.len(),
        forall|j: int| 0 <= j < i ==> a[j] == b[j],
    ensures
        lex_le(a, b) == lex_le(
            a.subrange(i, a.len() as int),
            b.subrange(i, b.len() as int),
        ),
    decreases i,
{
    if i == 0 {
        assert(a.subrange(0, a.len() as int) =~= a);
        assert(b.subrange(0, b.len() as int) =~= b);
    } else {
        assert(a.len() > 0 && b.len() > 0 && a[0] == b[0]);
        let a1 = a.drop_first();
        let b1 = b.drop_first();
        lemma_lex_skip(a1, b1, i - 1);
        assert(a1.subrange(i - 1, a1.len() as int) =~= a.subrange(i, a.len() as int));
        assert(b1.subrange(i - 1, b1.len() as int) =~= b.subrange(i, b.len() as int));
    }
}

/// Lexicographic comparison of two strings.
pub fn str_le(a: &str, b: &str) -> (r: bool)
    ensures
        r == lex_le(a@, b@),
{
    let alen = a.unicode_len();
    let blen = b.unicode_len();
    let min: usize = if alen < blen {
        alen
    } else {
        blen
    };
    let mut i: usize = 0;
    while i < min
        invariant
            alen == a@.len(),
            blen == b@.len(),
            min == if alen < blen {
                alen
            } else {
                blen
            },
            0 <= i <= min,
            forall|j: int| 0 <= j < i ==> a@[j] == b@[j],
        decreases min - i,
    {
        let ca = a.get_char(i) as u32;
        let cb = b.get_char(i) as u32;
        if ca < cb {
            proof {
                lemma_lex_skip(a@, b@, i as int);
            }
            return true;
        }
        if ca > cb {
            proof {
                lemma_lex_skip(a@, b@, i as int);
            }
            return false;
        }
        proof {
            assert(a@[i as int] == b@[i as int]) by {
                assert(a@[i as int] as u32 == b@[i as int] as u32);
            }
        }
        i = i + 1;
    }
    proof {
        lemma_lex_skip(a@, b@, min as int);
    }
    alen <= blen
}

/// `s` with every leading occurrence of `c` removed.
pub open spec fn skip_leading(s: Seq<char>, c: char) -> Seq<char>
    decreases s.len(),
{
    if s.len() > 0 && s[0] == c {
        skip_leading(s.drop_first(), c)
    } else {
        s
    }
}

proof fn lemma_skip_leading_subrange(s: Seq<char>, c: char, k: int)
    requires
        0 <= k <= s.len(),
        forall|i: int| 0 <= i < k ==> s[i] == c,
        k < s.len() ==> s[k] != c,
    ensures
        skip_leading(s, c) =~= s.subrange(k, s.len() as int),
    decreases k,
{
    if k == 0 {
        assert(skip_leading(s, c) =~= s.subrange(0, s.len() as int));
    } else {
        let t = s.drop_first();
        assert(s[0] == c);
        lemma_skip_leading_subrange(t, c, k - 1);
        assert(t.subrange(k - 1, t.len() as int) =~= s.subrange(k, s.len() as int));
    }
}

/// Remove every leading occurrence of a character.
pub fn strip_leading(s: &str, c: char) -> (r: &str)
    ensures
        r@ == skip_leading(s@, c),
{
    let len = s.unicode_len();
    let mut a: usize = 0;
    while a < len && s.get_char(a) == c
        invariant
            len == s@.len(),
            0 <= a <= len,
            forall|i: int| 0 <= i < a ==> s@[i] == c,
        decreases len - a,
    {
        a = a + 1;
    }
    proof {
        lemma_skip_leading_subrange(s@, c, a as int);
    }
    s.substring_char(a, len)
}

/// `p` is a prefix of `s`.
pub open spec fn is_prefix(p: Seq<char>, s: Seq<char>) -> bool {
    p.len() <= s.len() && s.subrange(0, p.len() as int) == p
}

/// Prefix test, stated over the views.
pub fn str_starts_with(s: &str, p: &str) -> (r: bool)
    ensures
        r == is_prefix(p@, s@),
{
    let plen = p.unicode_len();
    let slen = s.unicode_len();
    if plen > slen {
        return false;
    }
    let r = check_at(s, p, 0);
    assert(matches_at(s@, p@, 0) == is_prefix(p@, s@));
    r
}

} // verus!
