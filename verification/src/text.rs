//! Character and string helpers shared by the parser and the filters.
//!
//! Everything here is ASCII-oriented: the RBN wire format and the filter
//! patterns are ASCII, and case-insensitivity throughout the crate means
//! ASCII case-insensitivity.

use vstd::prelude::*;

verus! {

/// ASCII uppercase of one character: `a..z` map to `A..Z`, everything else
/// is unchanged.
pub open spec fn spec_upper(c: char) -> char {
    if 'a' <= c && c <= 'z' {
        ((c as int) - 32) as char
    } else {
        c
    }
}

/// ASCII lowercase of one character: `A..Z` map to `a..z`, everything else
/// is unchanged.
pub open spec fn spec_lower(c: char) -> char {
    if 'A' <= c && c <= 'Z' {
        ((c as int) + 32) as char
    } else {
        c
    }
}

/// ASCII uppercase of a character sequence.
pub open spec fn upper_seq(s: Seq<char>) -> Seq<char> {
    s.map_values(|c: char| spec_upper(c))
}

/// ASCII lowercase of a character sequence.
pub open spec fn lower_seq(s: Seq<char>) -> Seq<char> {
    s.map_values(|c: char| spec_lower(c))
}

/// Relies on `str::to_ascii_uppercase`: ASCII letters are mapped to their
/// uppercase counterparts and every other character is unchanged.
#[verifier::external_body]
pub fn ascii_upper(s: &str) -> (r: String)
    ensures
        r@ == upper_seq(s@),
{
    s.to_ascii_uppercase()
}

/// Character-for-character string equality.
pub fn str_eq(a: &str, b: &str) -> (r: bool)
    ensures
        r == (a@ == b@),
{
    let alen = a.unicode_len();
    let blen = b.unicode_len();
    if alen != blen {
        return false;
    }
    let mut i: usize = 0;
    while i < alen
        invariant
            i <= alen,
            alen == a@.len(),
            alen == b@.len(),
            forall|j: int| 0 <= j < i ==> a@[j] == b@[j],
        decreases alen - i,
    {
        if a.get_char(i) != b.get_char(i) {
            return false;
        }
        i = i + 1;
    }
    proof {
        assert(a@ =~= b@);
    }
    true
}

/// Whether `v` begins with the characters of `p`.
pub fn str_starts_with(v: &str, p: &str) -> (r: bool)
    ensures
        r == (v@.len() >= p@.len() && v@.subrange(0, p@.len() as int) == p@),
{
    let vlen = v.unicode_len();
    let plen = p.unicode_len();
    if vlen < plen {
        return false;
    }
    let mut i: usize = 0;
    while i < plen
        invariant
            i <= plen,
            plen <= vlen,
            vlen == v@.len(),
            plen == p@.len(),
            forall|j: int| 0 <= j < i ==> v@[j] == p@[j],
        decreases plen - i,
    {
        if v.get_char(i) != p.get_char(i) {
            proof {
                assert(v@.subrange(0, p@.len() as int)[i as int] != p@[i as int]);
            }
            return false;
        }
        i = i + 1;
    }
    proof {
        assert(v@.subrange(0, p@.len() as int) =~= p@);
    }
    true
}

/// Whether `v` ends with the characters of `s`.
pub fn str_ends_with(v: &str, s: &str) -> (r: bool)
    ensures
        r == (v@.len() >= s@.len() && v@.subrange(
            v@.len() - s@.len(),
            v@.len() as int,
        ) == s@),
{
    let vlen = v.unicode_len();
    let slen = s.unicode_len();
    if vlen < slen {
        return false;
    }
    let off = vlen - slen;
    let mut i: usize = 0;
    while i < slen
        invariant
            i <= slen,
            off == vlen - slen,
            slen <= vlen,
            vlen == v@.len(),
            slen == s@.len(),
            forall|j: int| 0 <= j < i ==> v@[off + j] == s@[j],
        decreases slen - i,
    {
        if v.get_char(off + i) != s.get_char(i) {
            proof {
                assert(v@.subrange(v@.len() - s@.len(), v@.len() as int)[i as int] != s@[
                    i as int
                ]);
            }
            return false;
        }
        i = i + 1;
    }
    proof {
        assert(v@.subrange(v@.len() - s@.len(), v@.len() as int) =~= s@);
    }
    true
}

/// ASCII whitespace: space, tab, line feed, vertical tab, form feed,
/// carriage return.
pub open spec fn spec_is_ws(c: char) -> bool {
    c == ' ' || c == '\t' || c == '\n' || c == '\u{b}' || c == '\u{c}' || c == '\r'
}

/// Whether `c` is ASCII whitespace.
pub fn is_ws(c: char) -> (r: bool)
    ensures
        r == spec_is_ws(c),
{
    c == ' ' || c == '\t' || c == '\n' || c == '\u{b}' || c == '\u{c}' || c == '\r'
}

/// `s` without its leading whitespace.
pub open spec fn trim_front(s: Seq<char>) -> Seq<char>
    decreases s.len(),
{
    if s.len() > 0 && spec_is_ws(s[0]) {
        trim_front(s.drop_first())
    } else {
        s
    }
}

/// `s` without its trailing whitespace.
pub open spec fn trim_back(s: Seq<char>) -> Seq<char>
    decreases s.len(),
{
    if s.len() > 0 && spec_is_ws(s.last()) {
        trim_back(s.drop_last())
    } else {
        s
    }
}

/// `s` without leading and trailing whitespace.
pub open spec fn spec_trim(s: Seq<char>) -> Seq<char> {
    trim_back(trim_front(s))
}

/// When the first `k` characters are whitespace and the character at `k`
/// (if any) is not, trimming the front keeps exactly the characters from
/// `k` on.
proof fn lemma_trim_front_at(s: Seq<char>, k: int)
    requires
        0 <= k <= s.len(),
        forall|j: int| 0 <= j < k ==> spec_is_ws(#[trigger] s[j]),
        k < s.len() ==> !spec_is_ws(s[k]),
    ensures
        trim_front(s) == s.subrange(k, s.len() as int),
    decreases k,
{
    if k == 0 {
        assert(s.subrange(0, s.len() as int) =~= s);
        if s.len() > 0 {
            assert(!spec_is_ws(s[0]));
        }
    } else {
        assert(spec_is_ws(s[0]));
        let t = s.drop_first();
        assert(forall|j: int| 0 <= j < k - 1 ==> spec_is_ws(#[trigger] t[j]));
        lemma_trim_front_at(t, k - 1);
        assert(t.subrange(k - 1, t.len() as int) =~= s.subrange(k, s.len() as int));
    }
}

/// When the characters from `k` on are whitespace and the character before
/// `k` (if any) is not, trimming the back keeps exactly the first `k`
/// characters.
proof fn lemma_trim_back_at(s: Seq<char>, k: int)
    requires
        0 <= k <= s.len(),
        forall|j: int| k <= j < s.len() ==> spec_is_ws(#[trigger] s[j]),
        k > 0 ==> !spec_is_ws(s[k - 1]),
    ensures
        trim_back(s) == s.subrange(0, k),
    decreases s.len() - k,
{
    if k == s.len() {
        if k == 0 {
            assert(s.subrange(0, 0) =~= s);
        } else {
            assert(!spec_is_ws(s.last()));
            assert(s.subrange(0, k) =~= s);
        }
    } else {
        assert(spec_is_ws(s.last()));
        let t = s.drop_last();
        assert(forall|j: int| k <= j < t.len() ==> spec_is_ws(#[trigger] t[j]));
        lemma_trim_back_at(t, k);
        assert(t.subrange(0, k) =~= s.subrange(0, k));
    }
}

/// Trimming the front never lengthens a sequence.
pub proof fn lemma_trim_front_len(s: Seq<char>)
    ensures
        trim_front(s).len() <= s.len(),
    decreases s.len(),
{
    if s.len() > 0 && spec_is_ws(s[0]) {
        lemma_trim_front_len(s.drop_first());
    }
}

/// Trimming the back never lengthens a sequence.
pub proof fn lemma_trim_back_len(s: Seq<char>)
    ensures
        trim_back(s).len() <= s.len(),
    decreases s.len(),
{
    if s.len() > 0 && spec_is_ws(s.last()) {
        lemma_trim_back_len(s.drop_last());
    }
}

/// Trimming never lengthens a sequence.
pub proof fn lemma_trim_len(s: Seq<char>)
    ensures
        spec_trim(s).len() <= s.len(),
{
    lemma_trim_front_len(s);
    lemma_trim_back_len(trim_front(s));
}

/// Strip leading and trailing ASCII whitespace.
pub fn trim(s: &str) -> (r: &str)
    ensures
        r@ == spec_trim(s@),
{
    let len = s.unicode_len();
    let mut start: usize = 0;
    while start < len && is_ws(s.get_char(start))
        invariant
            start <= len,
            len == s@.len(),
            forall|j: int| 0 <= j < start ==> spec_is_ws(#[trigger] s@[j]),
        decreases len - start,
    {
        start = start + 1;
    }
    proof {
        lemma_trim_front_at(s@, start as int);
    }
    let mut end: usize = len;
    while end > start && is_ws(s.get_char(end - 1))
        invariant
            start <= end <= len,
            len == s@.len(),
            forall|j: int| end <= j < len ==> spec_is_ws(#[trigger] s@[j]),
        decreases end,
    {
        end = end - 1;
    }
    let r = s.substring_char(start, end);
    proof {
        let f = trim_front(s@);
        assert(f == s@.subrange(start as int, len as int));
        assert(forall|j: int|
            end - start <= j < f.len() ==> spec_is_ws(#[trigger] f[j]) && f[j] == s@[
                j + start
            ]);
        if end > start {
            assert(f[end - start - 1] == s@[end - 1]);
        }
        lemma_trim_back_at(f, end - start);
        assert(f.subrange(0, end - start) =~= s@.subrange(start as int, end as int));
    }
    r
}

/// Strip trailing ASCII whitespace only.
pub fn trim_end(s: &str) -> (r: &str)
    ensures
        r@ == trim_back(s@),
{
    let len = s.unicode_len();
    let mut end: usize = len;
    while end > 0 && is_ws(s.get_char(end - 1))
        invariant
            end <= len,
            len == s@.len(),
            forall|j: int| end <= j < len ==> spec_is_ws(#[trigger] s@[j]),
        decreases end,
    {
        end = end - 1;
    }
    proof {
        lemma_trim_back_at(s@, end as int);
    }
    s.substring_char(0, end)
}

/// Case-insensitive (ASCII) string equality.
pub fn str_eq_ignore_case(a: &str, b: &str) -> (r: bool)
    ensures
        r == (upper_seq(a@) == upper_seq(b@)),
{
    let au = ascii_upper(a);
    let bu = ascii_upper(b);
    str_eq(au.as_str(), bu.as_str())
}

} // verus!

verus! {

/// Every character of the sequence is whitespace.
pub open spec fn all_ws(s: Seq<char>) -> bool {
    forall|i: int| 0 <= i < s.len() ==> spec_is_ws(#[trigger] s[i])
}

/// Trimming the front of an all-whitespace sequence leaves nothing.
pub proof fn lemma_trim_front_all_ws(s: Seq<char>)
    requires
        all_ws(s),
    ensures
        trim_front(s) == Seq::<char>::empty(),
    decreases s.len(),
{
    if s.len() == 0 {
        assert(s =~= Seq::<char>::empty());
    } else {
        assert(spec_is_ws(s[0]));
        assert(all_ws(s.drop_first()));
        lemma_trim_front_all_ws(s.drop_first());
    }
}

/// A whitespace prefix does not change the front-trimmed sequence.
pub proof fn lemma_trim_front_ws_prefix(w: Seq<char>, s: Seq<char>)
    requires
        all_ws(w),
    ensures
        trim_front(w + s) == trim_front(s),
    decreases w.len(),
{
    if w.len() == 0 {
        assert(w + s =~= s);
    } else {
        assert((w + s)[0] == w[0]);
        assert((w + s).drop_first() =~= w.drop_first() + s);
        assert(all_ws(w.drop_first()));
        lemma_trim_front_ws_prefix(w.drop_first(), s);
    }
}

/// A whitespace suffix does not change the back-trimmed sequence.
pub proof fn lemma_trim_back_ws_suffix(s: Seq<char>, w: Seq<char>)
    requires
        all_ws(w),
    ensures
        trim_back(s + w) == trim_back(s),
    decreases w.len(),
{
    if w.len() == 0 {
        assert(s + w =~= s);
    } else {
        assert((s + w).last() == w.last());
        assert((s + w).drop_last() =~= s + w.drop_last());
        assert(all_ws(w.drop_last()));
        lemma_trim_back_ws_suffix(s, w.drop_last());
    }
}

/// Front-trimming a concatenation: when the first part trims to nothing
/// the result is the trimmed second part, otherwise the second part is
/// carried along unchanged.
pub proof fn lemma_trim_front_concat(s: Seq<char>, w: Seq<char>)
    ensures
        trim_front(s + w) == if trim_front(s).len() == 0 {
            trim_front(w)
        } else {
            trim_front(s) + w
        },
    decreases s.len(),
{
    if s.len() == 0 {
        assert(s + w =~= w);
    } else if spec_is_ws(s[0]) {
        assert((s + w)[0] == s[0]);
        assert((s + w).drop_first() =~= s.drop_first() + w);
        lemma_trim_front_concat(s.drop_first(), w);
    } else {
        assert(trim_front(s) == s);
        assert((s + w)[0] == s[0]);
        assert(trim_front(s + w) == s + w);
    }
}

/// Whitespace padding on either side does not change the trimmed line.
pub proof fn lemma_trim_pad(pad1: Seq<char>, s: Seq<char>, pad2: Seq<char>)
    requires
        all_ws(pad1),
        all_ws(pad2),
    ensures
        spec_trim(pad1 + s + pad2) == spec_trim(s),
{
    assert(pad1 + s + pad2 =~= pad1 + (s + pad2));
    lemma_trim_front_ws_prefix(pad1, s + pad2);
    lemma_trim_front_concat(s, pad2);
    if trim_front(s).len() == 0 {
        lemma_trim_front_all_ws(pad2);
        assert(trim_front(s) =~= Seq::<char>::empty());
        // Both sides trim to the empty sequence.
        assert(spec_trim(pad1 + s + pad2) == trim_back(trim_front(pad2)));
        assert(trim_front(pad2) =~= Seq::<char>::empty());
    } else {
        lemma_trim_back_ws_suffix(trim_front(s), pad2);
    }
}

/// Lowercasing then uppercasing a character gives the same result as
/// uppercasing it directly.
pub proof fn lemma_upper_of_lower(c: char)
    ensures
        spec_upper(spec_lower(c)) == spec_upper(c),
{
}

/// Lowercasing preserves whitespace exactly.
pub proof fn lemma_lower_ws(c: char)
    ensures
        spec_is_ws(spec_lower(c)) == spec_is_ws(c),
{
}

/// Lowercasing commutes with trimming.
pub proof fn lemma_lower_trim_front(s: Seq<char>)
    ensures
        trim_front(lower_seq(s)) == lower_seq(trim_front(s)),
    decreases s.len(),
{
    let ls = lower_seq(s);
    if s.len() == 0 {
    } else {
        assert(ls[0] == spec_lower(s[0]));
        if spec_is_ws(s[0]) {
            assert(ls.drop_first() =~= lower_seq(s.drop_first()));
            lemma_lower_trim_front(s.drop_first());
        } else {
            assert(!spec_is_ws(ls[0]));
        }
    }
}

/// Lowercasing commutes with trimming.
pub proof fn lemma_lower_trim_back(s: Seq<char>)
    ensures
        trim_back(lower_seq(s)) == lower_seq(trim_back(s)),
    decreases s.len(),
{
    let ls = lower_seq(s);
    if s.len() == 0 {
    } else {
        assert(ls.last() == spec_lower(s.last()));
        if spec_is_ws(s.last()) {
            assert(ls.drop_last() =~= lower_seq(s.drop_last()));
            lemma_lower_trim_back(s.drop_last());
        } else {
            assert(!spec_is_ws(ls.last()));
        }
    }
}

/// Lowercasing commutes with trimming.
pub proof fn lemma_lower_trim(s: Seq<char>)
    ensures
        spec_trim(lower_seq(s)) == lower_seq(spec_trim(s)),
{
    lemma_lower_trim_front(s);
    lemma_lower_trim_back(trim_front(s));
}

} // verus!

verus! {

/// Lexicographic order on character sequences, by scalar value.
pub open spec fn lex_lt(a: Seq<char>, b: Seq<char>) -> bool
    decreases a.len(),
{
    if b.len() == 0 {
        false
    } else if a.len() == 0 {
        true
    } else if a[0] != b[0] {
        (a[0] as int) < (b[0] as int)
    } else {
        lex_lt(a.drop_first(), b.drop_first())
    }
}

/// Lexicographic comparison of two strings.
pub fn str_lt(a: &str, b: &str) -> (r: bool)
    ensures
        r == lex_lt(a@, b@),
{
    let alen = a.unicode_len();
    let blen = b.unicode_len();
    proof {
        assert(a@.subrange(0, alen as int) =~= a@);
        assert(b@.subrange(0, blen as int) =~= b@);
    }
    let mut i: usize = 0;
    loop
        invariant
            i <= alen,
            i <= blen,
            alen == a@.len(),
            blen == b@.len(),
            lex_lt(a@, b@) == lex_lt(
                a@.subrange(i as int, alen as int),
                b@.subrange(i as int, blen as int),
            ),
        decreases alen - i,
    {
        if i == blen {
            proof {
                assert(b@.subrange(i as int, blen as int).len() == 0);
            }
            return false;
        }
        if i == alen {
            proof {
                assert(a@.subrange(i as int, alen as int).len() == 0);
            }
            return true;
        }
        let ca = a.get_char(i);
        let cb = b.get_char(i);
        proof {
            let suba = a@.subrange(i as int, alen as int);
            let subb = b@.subrange(i as int, blen as int);
            assert(suba[0] == a@[i as int]);
            assert(subb[0] == b@[i as int]);
            assert(suba.drop_first() =~= a@.subrange(i + 1, alen as int));
            assert(subb.drop_first() =~= b@.subrange(i + 1, blen as int));
        }
        if ca != cb {
            return (ca as u32) < (cb as u32);
        }
        i = i + 1;
    }
}

} // verus!

verus! {

/// Lexicographic order is total on distinct sequences.
pub proof fn lemma_lex_total(a: Seq<char>, b: Seq<char>)
    requires
        a != b,
    ensures
        lex_lt(a, b) || lex_lt(b, a),
    decreases a.len(),
{
    if b.len() == 0 {
        if a.len() == 0 {
            assert(a =~= b);
        }
    } else if a.len() == 0 {
    } else if a[0] != b[0] {
    } else {
        if a.drop_first() == b.drop_first() {
            assert(a.drop_first().len() == b.drop_first().len());
            assert(a.len() == b.len());
            assert forall|i: int| 0 <= i < a.len() implies a[i] == b[i] by {
                if i > 0 {
                    assert(a.drop_first()[i - 1] == b.drop_first()[i - 1]);
                }
            }
            assert(a =~= b);
        } else {
            lemma_lex_total(a.drop_first(), b.drop_first());
        }
    }
}

/// Lexicographic order is transitive.
pub proof fn lemma_lex_trans(a: Seq<char>, b: Seq<char>, c: Seq<char>)
    requires
        lex_lt(a, b),
        lex_lt(b, c),
    ensures
        lex_lt(a, c),
    decreases a.len(),
{
    if c.len() == 0 {
    } else if a.len() == 0 {
    } else {
        if b.len() == 0 {
        } else {
            if a[0] != b[0] {
                if b[0] != c[0] {
                } else {
                }
            } else {
                if b[0] != c[0] {
                } else {
                    lemma_lex_trans(a.drop_first(), b.drop_first(), c.drop_first());
                }
            }
        }
    }
}

} // verus!

verus! {

/// Decimal digit characters.
pub open spec fn spec_digit_char(d: nat) -> char {
    if d == 0 {
        '0'
    } else if d == 1 {
        '1'
    } else if d == 2 {
        '2'
    } else if d == 3 {
        '3'
    } else if d == 4 {
        '4'
    } else if d == 5 {
        '5'
    } else if d == 6 {
        '6'
    } else if d == 7 {
        '7'
    } else if d == 8 {
        '8'
    } else {
        '9'
    }
}

/// The decimal rendering of `n`.
pub open spec fn spec_u64_digits(n: nat) -> Seq<char>
    decreases n,
{
    if n < 10 {
        seq![spec_digit_char(n)]
    } else {
        spec_u64_digits(n / 10).push(spec_digit_char(n % 10))
    }
}

/// A one-character string for a decimal digit.
fn digit_str(d: u64) -> (r: &'static str)
    requires
        d < 10,
    ensures
        r@ == seq![spec_digit_char(d as nat)],
{
    proof {
        reveal_strlit("0");
        reveal_strlit("1");
        reveal_strlit("2");
        reveal_strlit("3");
        reveal_strlit("4");
        reveal_strlit("5");
        reveal_strlit("6");
        reveal_strlit("7");
        reveal_strlit("8");
        reveal_strlit("9");
    }
    let r = if d == 0 {
        "0"
    } else if d == 1 {
        "1"
    } else if d == 2 {
        "2"
    } else if d == 3 {
        "3"
    } else if d == 4 {
        "4"
    } else if d == 5 {
        "5"
    } else if d == 6 {
        "6"
    } else if d == 7 {
        "7"
    } else if d == 8 {
        "8"
    } else {
        "9"
    };
    proof {
        assert(r@ =~= seq![spec_digit_char(d as nat)]);
    }
    r
}

/// Render `n` in decimal.
pub fn u64_to_string(n: u64) -> (r: String)
    ensures
        r@ == spec_u64_digits(n as nat),
    decreases n,
{
    if n < 10 {
        String::from_str(digit_str(n))
    } else {
        let mut s = u64_to_string(n / 10);
        s.append(digit_str(n % 10));
        proof {
            assert(s@ =~= spec_u64_digits(n as nat));
        }
        s
    }
}

} // verus!
