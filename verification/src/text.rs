//! Lexicographic order on names, dotted-name prefix matching, and small
//! text-building helpers shared by the rest of the engine.
//!
//! Module names and map keys throughout the engine are compared by their
//! scalar-value sequence; staging maps iterate in this order, which is what
//! makes every emitted artifact deterministic.

use vstd::prelude::*;

verus! {

/// Strict lexicographic order on character sequences, by Unicode scalar value.
/// A proper prefix sorts before every extension of itself.
pub open spec fn lex_lt(a: Seq<char>, b: Seq<char>) -> bool
    decreases a.len(),
{
    if b.len() == 0 {
        false
    } else if a.len() == 0 {
        true
    } else if (a[0] as u32) < (b[0] as u32) {
        true
    } else if a[0] == b[0] {
        lex_lt(a.skip(1), b.skip(1))
    } else {
        false
    }
}

/// Exactly one of `lex_lt(a, b)`, `a == b`, `lex_lt(b, a)` holds.
pub proof fn lemma_lex_lt_trichotomy(a: Seq<char>, b: Seq<char>)
    ensures
        lex_lt(a, b) || lex_lt(b, a) || a =~= b,
        lex_lt(a, b) ==> !lex_lt(b, a) && !(a =~= b),
        lex_lt(b, a) ==> !lex_lt(a, b) && !(a =~= b),
    decreases a.len(),
{
    if a.len() == 0 || b.len() == 0 {
    } else {
        vstd::utf8::char_u32_cast(a[0], a[0] as u32);
        vstd::utf8::char_u32_cast(b[0], b[0] as u32);
        lemma_lex_lt_trichotomy(a.skip(1), b.skip(1));
        if a.skip(1) =~= b.skip(1) && a[0] == b[0] {
            assert(a =~= b) by {
                assert(a.len() == b.len());
                assert forall|j: int| 0 <= j < a.len() implies a[j] == b[j] by {
                    if j > 0 {
                        assert(a.skip(1)[j - 1] == a[j]);
                        assert(b.skip(1)[j - 1] == b[j]);
                    }
                }
            }
        }
        if a =~= b {
            assert(a.skip(1) =~= b.skip(1));
        }
    }
}

pub proof fn lemma_lex_lt_transitive(a: Seq<char>, b: Seq<char>, c: Seq<char>)
    requires
        lex_lt(a, b),
        lex_lt(b, c),
    ensures
        lex_lt(a, c),
    decreases a.len(),
{
    if a.len() == 0 || b.len() == 0 || c.len() == 0 {
    } else {
        vstd::utf8::char_u32_cast(a[0], a[0] as u32);
        vstd::utf8::char_u32_cast(b[0], b[0] as u32);
        vstd::utf8::char_u32_cast(c[0], c[0] as u32);
        if a[0] == b[0] && b[0] == c[0] {
            lemma_lex_lt_transitive(a.skip(1), b.skip(1), c.skip(1));
        }
    }
}

/// Equal prefixes do not decide the order: it is settled by the suffixes.
pub proof fn lemma_lex_lt_common_prefix(a: Seq<char>, b: Seq<char>, i: int)
    requires
        0 <= i <= a.len(),
        i <= b.len(),
        a.take(i) =~= b.take(i),
    ensures
        lex_lt(a, b) == lex_lt(a.skip(i), b.skip(i)),
    decreases i,
{
    if i <= 0 {
        assert(a.skip(0) =~= a);
        assert(b.skip(0) =~= b);
    } else {
        assert(a[0] == b[0]) by {
            assert(a.take(i)[0] == a[0]);
            assert(b.take(i)[0] == b[0]);
        }
        assert(a.skip(1).take(i - 1) =~= b.skip(1).take(i - 1)) by {
            assert forall|j: int| 0 <= j < i - 1 implies #[trigger] a.skip(1)[j] == b.skip(1)[j] by {
                assert(a.take(i)[j + 1] == a[j + 1]);
                assert(b.take(i)[j + 1] == b[j + 1]);
            }
        }
        lemma_lex_lt_common_prefix(a.skip(1), b.skip(1), i - 1);
        assert(a.skip(1).skip(i - 1) =~= a.skip(i));
        assert(b.skip(1).skip(i - 1) =~= b.skip(i));
        assert(lex_lt(a, b) == lex_lt(a.skip(1), b.skip(1)));
    }
}

/// Executable test for `lex_lt` on string slices.
pub fn str_lt(a: &str, b: &str) -> (r: bool)
    ensures
        r == lex_lt(a@, b@),
{
    let alen = a.unicode_len();
    let blen = b.unicode_len();
    let min: usize = if alen < blen {
        alen
    } else {
        blen
    };
    let mut i: usize = 0;
    while i < min
        invariant
            0 <= i <= min,
            min <= alen,
            min <= blen,
            alen == a@.len(),
            blen == b@.len(),
            min == if alen < blen {
                alen
            } else {
                blen
            },
            a@.take(i as int) =~= b@.take(i as int),
        decreases min - i,
    {
        let ca = a.get_char(i);
        let cb = b.get_char(i);
        if (ca as u32) < (cb as u32) {
            proof {
                lemma_lex_lt_common_prefix(a@, b@, i as int);
            }
            return true;
        }
        if (ca as u32) > (cb as u32) {
            proof {
                lemma_lex_lt_common_prefix(a@, b@, i as int);
                vstd::utf8::char_u32_cast(ca, ca as u32);
                vstd::utf8::char_u32_cast(cb, cb as u32);
            }
            return false;
        }
        proof {
            vstd::utf8::char_u32_cast(ca, ca as u32);
            vstd::utf8::char_u32_cast(cb, cb as u32);
            assert(a@.take(i + 1) =~= b@.take(i + 1));
        }
        i = i + 1;
    }
    proof {
        lemma_lex_lt_common_prefix(a@, b@, min as int);
    }
    alen < blen
}

/// An element-for-element copy of a byte vector.
pub fn clone_bytes(v: &Vec<u8>) -> (out: Vec<u8>)
    ensures
        out@ =~= v@,
{
    let mut out: Vec<u8> = Vec::new();
    let n = v.len();
    let mut i: usize = 0;
    while i < n
        invariant
            0 <= i <= n,
            n == v@.len(),
            out@ =~= v@.take(i as int),
        decreases n - i,
    {
        let b = v[i];
        out.push(b);
        proof {
            assert(v@.take(i + 1) =~= v@.take(i as int) + seq![v@[i as int]]);
        }
        i = i + 1;
    }
    proof {
        assert(v@.take(n as int) =~= v@);
    }
    out
}

/// Equality of string slices, decided through the order.
pub fn str_eq(a: &str, b: &str) -> (r: bool)
    ensures
        r == (a@ == b@),
{
    proof {
        lemma_lex_lt_trichotomy(a@, b@);
    }
    if str_lt(a, b) {
        false
    } else if str_lt(b, a) {
        false
    } else {
        true
    }
}

/// The dotted-name prefix rule: a name `n` is covered by a pattern `p`
/// exactly when `n == p` or `n` begins with `p` followed by a dot.
/// `foo.barbell` is therefore never covered by `foo.bar`.
pub open spec fn name_matches_prefix(n: Seq<char>, p: Seq<char>) -> bool {
    n =~= p || (n.len() > p.len() && n.take(p.len() as int) =~= p && n[p.len() as int] == '.')
}

/// A name longer than a pattern it is covered by continues with a dot right
/// after the pattern, so `foo.barbell` is not covered by `foo.bar`.
pub proof fn lemma_prefix_safety(n: Seq<char>, p: Seq<char>)
    requires
        name_matches_prefix(n, p),
        n.len() > p.len(),
    ensures
        n[p.len() as int] == '.',
{
}

/// Executable test for `name_matches_prefix`.
pub fn matches_prefix(n: &str, p: &str) -> (r: bool)
    ensures
        r == name_matches_prefix(n@, p@),
{
    let nlen = n.unicode_len();
    let plen = p.unicode_len();
    if nlen < plen {
        proof {
            if n@ =~= p@ {
                assert(n@.len() == p@.len());
            }
        }
        return false;
    }
    let mut i: usize = 0;
    while i < plen
        invariant
            0 <= i <= plen,
            plen <= nlen,
            nlen == n@.len(),
            plen == p@.len(),
            n@.take(i as int) =~= p@.take(i as int),
        decreases plen - i,
    {
        let cn = n.get_char(i);
        let cp = p.get_char(i);
        if (cn as u32) != (cp as u32) {
            proof {
                vstd::utf8::char_u32_cast(cn, cn as u32);
                vstd::utf8::char_u32_cast(cp, cp as u32);
                if n@ =~= p@ {
                    assert(n@[i as int] == p@[i as int]);
                }
                if n@.take(plen as int) =~= p@ {
                    assert(n@.take(plen as int)[i as int] == p@[i as int]);
                }
            }
            return false;
        }
        proof {
            vstd::utf8::char_u32_cast(cn, cn as u32);
            vstd::utf8::char_u32_cast(cp, cp as u32);
            assert(n@.take(i + 1) =~= p@.take(i + 1));
        }
        i = i + 1;
    }
    if nlen == plen {
        proof {
            assert(n@.take(plen as int) =~= n@);
            assert(n@ =~= p@);
        }
        true
    } else {
        let c = n.get_char(plen);
        proof {
            if n@ =~= p@ {
                assert(n@.len() == p@.len());
            }
        }
        c == '.'
    }
}

/// Whether `s` ends with the suffix `suf`.
pub open spec fn ends_with(s: Seq<char>, suf: Seq<char>) -> bool {
    s.len() >= suf.len() && s.skip(s.len() - suf.len()) =~= suf
}

/// Executable test for `ends_with`.
pub fn str_ends_with(s: &str, suf: &str) -> (r: bool)
    ensures
        r == ends_with(s@, suf@),
{
    let slen = s.unicode_len();
    let suflen = suf.unicode_len();
    if slen < suflen {
        return false;
    }
    let off: usize = slen - suflen;
    let mut j: usize = 0;
    while j < suflen
        invariant
            0 <= j <= suflen,
            off == slen - suflen,
            slen == s@.len(),
            suflen == suf@.len(),
            forall|k: int| 0 <= k < j ==> s@[off + k] == suf@[k],
        decreases suflen - j,
    {
        let cs = s.get_char(off + j);
        let cf = suf.get_char(j);
        if (cs as u32) != (cf as u32) {
            proof {
                vstd::utf8::char_u32_cast(cs, cs as u32);
                vstd::utf8::char_u32_cast(cf, cf as u32);
                if s@.skip(off as int) =~= suf@ {
                    assert(s@.skip(off as int)[j as int] == s@[off + j]);
                }
            }
            return false;
        }
        proof {
            vstd::utf8::char_u32_cast(cs, cs as u32);
            vstd::utf8::char_u32_cast(cf, cf as u32);
        }
        j = j + 1;
    }
    proof {
        assert(s@.skip(off as int) =~= suf@) by {
            assert forall|k: int| 0 <= k < suflen implies s@.skip(off as int)[k] == suf@[k] by {
                assert(s@.skip(off as int)[k] == s@[off + k]);
            }
        }
    }
    true
}

/// The character for a single decimal digit.
pub open spec fn dec_digit_char(d: nat) -> char
    recommends
        d < 10,
{
    if d == 0 {
        '0'
    } else if d == 1 {
        '1'
    } else if d == 2 {
        '2'
    } else if d == 3 {
        '3'
    } else if d == 4 {
        '4'
    } else if d == 5 {
        '5'
    } else if d == 6 {
        '6'
    } else if d == 7 {
        '7'
    } else if d == 8 {
        '8'
    } else {
        '9'
    }
}

/// The decimal digits of `n`, most significant first, with no leading zeros
/// (a single `'0'` for zero).
pub open spec fn dec_chars(n: nat) -> Seq<char>
    decreases n,
{
    if n < 10 {
        seq![dec_digit_char(n)]
    } else {
        dec_chars(n / 10).push(dec_digit_char(n % 10))
    }
}

/// The decimal rendering of a signed value: a leading `'-'` when negative.
pub open spec fn int_chars(v: int) -> Seq<char> {
    if v >= 0 {
        dec_chars(v as nat)
    } else {
        seq!['-'] + dec_chars((-v) as nat)
    }
}

fn digit_str(d: u64) -> (r: &'static str)
    requires
        d < 10,
    ensures
        r@ =~= seq![dec_digit_char(d as nat)],
{
    proof {
        reveal_strlit("0");
        reveal_strlit("1");
        reveal_strlit("2");
        reveal_strlit("3");
        reveal_strlit("4");
        reveal_strlit("5");
        reveal_strlit("6");
        reveal_strlit("7");
        reveal_strlit("8");
        reveal_strlit("9");
    }
    if d == 0 {
        "0"
    } else if d == 1 {
        "1"
    } else if d == 2 {
        "2"
    } else if d == 3 {
        "3"
    } else if d == 4 {
        "4"
    } else if d == 5 {
        "5"
    } else if d == 6 {
        "6"
    } else if d == 7 {
        "7"
    } else if d == 8 {
        "8"
    } else {
        "9"
    }
}

/// Renders `n` in decimal.
pub fn u64_to_string(n: u64) -> (s: String)
    ensures
        s@ =~= dec_chars(n as nat),
    decreases n,
{
    if n < 10 {
        digit_str(n).to_owned()
    } else {
        let mut s = u64_to_string(n / 10);
        s.append(digit_str(n % 10));
        proof {
            assert(s@ =~= dec_chars((n / 10) as nat).push(dec_digit_char((n % 10) as nat)));
        }
        s
    }
}

/// Renders `v` in decimal, with a leading minus sign when negative.
pub fn i64_to_string(v: i64) -> (s: String)
    ensures
        s@ =~= int_chars(v as int),
{
    if v >= 0 {
        u64_to_string(v as u64)
    } else {
        let m: u64 = ((-(v + 1)) as u64) + 1;
        proof {
            assert(m as nat == -(v as int));
        }
        let mut s = "-".to_owned();
        let digits = u64_to_string(m);
        s.append(digits.as_str());
        proof {
            reveal_strlit("-");
            assert(s@ =~= seq!['-'] + dec_chars(m as nat));
        }
        s
    }
}

/// `s` with every double quote replaced by a backslash-escaped double quote.
pub open spec fn escape_double_quotes_chars(s: Seq<char>) -> Seq<char>
    decreases s.len(),
{
    if s.len() == 0 {
        Seq::empty()
    } else {
        (if s[0] == '"' {
            seq!['\\', '"']
        } else {
            seq![s[0]]
        }) + escape_double_quotes_chars(s.skip(1))
    }
}

/// Escaping distributes over concatenation.
pub proof fn lemma_escape_append(a: Seq<char>, b: Seq<char>)
    ensures
        escape_double_quotes_chars(a + b) =~= escape_double_quotes_chars(a)
            + escape_double_quotes_chars(b),
    decreases a.len(),
{
    if a.len() == 0 {
        assert(a + b =~= b);
    } else {
        lemma_escape_append(a.skip(1), b);
        assert((a + b).skip(1) =~= a.skip(1) + b);
        assert((a + b)[0] == a[0]);
    }
}

/// Replaces each `"` in `s` with `\"`.
pub fn escape_double_quotes(s: &str) -> (r: String)
    ensures
        r@ =~= escape_double_quotes_chars(s@),
{
    let len = s.unicode_len();
    let mut out = String::new();
    let mut i: usize = 0;
    while i < len
        invariant
            0 <= i <= len,
            len == s@.len(),
            out@ =~= escape_double_quotes_chars(s@.take(i as int)),
        decreases len - i,
    {
        let c = s.get_char(i);
        if c == '"' {
            out.append("\\\"");
        } else {
            let piece = s.substring_char(i, i + 1);
            out.append(piece);
        }
        proof {
            lemma_escape_append(s@.take(i as int), seq![s@[i as int]]);
            assert(s@.take(i + 1) =~= s@.take(i as int) + seq![s@[i as int]]);
            reveal_strlit("\\\"");
            assert(seq![s@[i as int]].skip(1) =~= Seq::<char>::empty());
            assert(escape_double_quotes_chars(Seq::<char>::empty()) =~= Seq::<char>::empty());
            assert(escape_double_quotes_chars(seq![s@[i as int]]) =~= if s@[i as int] == '"' {
                seq!['\\', '"']
            } else {
                seq![s@[i as int]]
            });
        }
        i = i + 1;
    }
    proof {
        assert(s@.take(len as int) =~= s@);
    }
    out
}

/// Whether `pat` occurs in `s` at position `i`.
pub open spec fn is_match_at(s: Seq<char>, pat: Seq<char>, i: int) -> bool {
    0 <= i && i + pat.len() <= s.len() && s.subrange(i, i + pat.len()) =~= pat
}

/// The first position at or after `from` where `pat` occurs in `s`.
pub open spec fn first_match_from(s: Seq<char>, pat: Seq<char>, from: int) -> Option<int>
    decreases s.len() - from,
{
    if from < 0 || from + pat.len() > s.len() {
        None
    } else if is_match_at(s, pat, from) {
        Some(from)
    } else {
        first_match_from(s, pat, from + 1)
    }
}

/// Tests a match at one position.
fn match_at(s: &str, pat: &str, i: usize) -> (r: bool)
    requires
        i + pat@.len() <= s@.len(),
    ensures
        r == is_match_at(s@, pat@, i as int),
{
    let slen = s.unicode_len();
    let plen = pat.unicode_len();
    let mut k: usize = 0;
    while k < plen
        invariant
            0 <= k <= plen,
            plen == pat@.len(),
            i + plen <= s@.len(),
            slen == s@.len(),
            plen == pat@.len(),
            forall|j: int| 0 <= j < k ==> s@[i + j] == pat@[j],
        decreases plen - k,
    {
        let cs = s.get_char(i + k);
        let cp = pat.get_char(k);
        if (cs as u32) != (cp as u32) {
            proof {
                vstd::utf8::char_u32_cast(cs, cs as u32);
                vstd::utf8::char_u32_cast(cp, cp as u32);
                if s@.subrange(i as int, i + pat@.len()) =~= pat@ {
                    assert(s@.subrange(i as int, i + pat@.len())[k as int] == s@[i + k]);
                }
            }
            return false;
        }
        proof {
            vstd::utf8::char_u32_cast(cs, cs as u32);
            vstd::utf8::char_u32_cast(cp, cp as u32);
        }
        k = k + 1;
    }
    proof {
        assert(s@.subrange(i as int, i + pat@.len()) =~= pat@) by {
            assert forall|j: int| 0 <= j < plen implies s@.subrange(i as int, i + pat@.len())[j]
                == pat@[j] by {
                assert(s@.subrange(i as int, i + pat@.len())[j] == s@[i + j]);
            }
        }
    }
    true
}

/// The first occurrence of `pat` in `s` at or after `from`.
pub fn find_substring_from(s: &str, pat: &str, from: usize) -> (r: Option<usize>)
    ensures
        match r {
            Some(i) => Some(i as int) == first_match_from(s@, pat@, from as int),
            None => first_match_from(s@, pat@, from as int) is None,
        },
{
    let len = s.unicode_len();
    let plen = pat.unicode_len();
    if from > len || plen > len - from {
        proof {
            assert(first_match_from(s@, pat@, from as int) is None);
        }
        return None;
    }
    let last: usize = len - plen;
    let mut i: usize = from;
    while i <= last
        invariant
            from <= i <= last + 1,
            last == len - plen,
            len == s@.len(),
            plen == pat@.len(),
            first_match_from(s@, pat@, from as int) == first_match_from(s@, pat@, i as int),
        decreases last + 1 - i,
    {
        let hit = match_at(s, pat, i);
        if hit {
            proof {
                assert(first_match_from(s@, pat@, i as int) == Some(i as int));
            }
            return Some(i);
        }
        proof {
            assert(first_match_from(s@, pat@, i as int) == first_match_from(
                s@,
                pat@,
                i as int + 1,
            ));
        }
        i = i + 1;
    }
    proof {
        assert(first_match_from(s@, pat@, i as int) is None);
    }
    None
}

/// A found occurrence is a match, at or after where the search began.
pub proof fn lemma_first_match_is_match(s: Seq<char>, pat: Seq<char>, from: int)
    requires
        first_match_from(s, pat, from) is Some,
    ensures
        is_match_at(s, pat, first_match_from(s, pat, from).unwrap()),
        from <= first_match_from(s, pat, from).unwrap(),
    decreases s.len() - from,
{
    if from < 0 || from + pat.len() > s.len() {
    } else if is_match_at(s, pat, from) {
    } else {
        lemma_first_match_is_match(s, pat, from + 1);
    }
}

/// One line with a trailing carriage return stripped.
pub open spec fn strip_cr(l: Seq<char>) -> Seq<char> {
    if l.len() > 0 && l.last() == '\r' {
        l.drop_last()
    } else {
        l
    }
}

/// The lines of `s` after the open segment `cur`: segments split on `'\n'`
/// with a `'\r'` before the newline dropped; a final unterminated segment is
/// kept as it stands, and a trailing newline adds no empty line.
pub open spec fn lines_from(s: Seq<char>, cur: Seq<char>) -> Seq<Seq<char>>
    decreases s.len(),
{
    if s.len() == 0 {
        if cur.len() == 0 {
            Seq::empty()
        } else {
            seq![cur]
        }
    } else if s[0] == '\n' {
        seq![strip_cr(cur)] + lines_from(s.skip(1), Seq::empty())
    } else {
        lines_from(s.skip(1), cur.push(s[0]))
    }
}

/// The lines of `s`, as `str::lines` cuts them.
pub open spec fn str_lines(s: Seq<char>) -> Seq<Seq<char>> {
    lines_from(s, Seq::empty())
}

/// The views of a vector of strings.
pub open spec fn strings_view(v: Seq<String>) -> Seq<Seq<char>> {
    v.map_values(|x: String| x@)
}

/// Splits `s` into lines.
pub fn split_lines(s: &str) -> (r: Vec<String>)
    ensures
        strings_view(r@) =~= str_lines(s@),
{
    let len = s.unicode_len();
    let mut out: Vec<String> = Vec::new();
    let mut start: usize = 0;
    let mut i: usize = 0;
    proof {
        assert(s@.skip(0) =~= s@);
        assert(s@.subrange(0, 0) =~= Seq::<char>::empty());
        assert(strings_view(out@) =~= Seq::<Seq<char>>::empty());
    }
    while i < len
        invariant
            0 <= start <= i <= len,
            len == s@.len(),
            str_lines(s@) =~= strings_view(out@) + lines_from(
                s@.skip(i as int),
                s@.subrange(start as int, i as int),
            ),
            forall|j: int| start <= j < i ==> s@[j] != '\n',
        decreases len - i,
    {
        let c = s.get_char(i);
        if c == '\n' {
            let mut end: usize = i;
            if end > start && s.get_char(end - 1) == '\r' {
                end = end - 1;
            }
            let line = s.substring_char(start, end).to_owned();
            proof {
                assert(line@ =~= strip_cr(s@.subrange(start as int, i as int)));
            }
            let ghost prev = out@;
            out.push(line);
            proof {
                assert(strings_view(out@) =~= strings_view(prev) + seq![line@]);
                assert(s@.skip(i as int)[0] == s@[i as int]);
                assert(s@.skip(i as int).len() == len - i);
                assert(s@.skip(i as int).skip(1) =~= s@.skip(i + 1));
                assert(lines_from(s@.skip(i as int), s@.subrange(start as int, i as int)) =~= seq![
                    strip_cr(s@.subrange(start as int, i as int)),
                ] + lines_from(s@.skip(i + 1), Seq::empty()));
                assert(s@.subrange(i + 1, i + 1) =~= Seq::<char>::empty());
            }
            start = i + 1;
        } else {
            proof {
                assert(s@.skip(i as int).skip(1) =~= s@.skip(i + 1));
                assert(s@.subrange(start as int, i as int).push(s@[i as int]) =~= s@.subrange(
                    start as int,
                    i + 1,
                ));
            }
        }
        i = i + 1;
    }
    if start < len {
        let line = s.substring_char(start, len).to_owned();
        let ghost prev = out@;
        out.push(line);
        proof {
            assert(s@.skip(len as int) =~= Seq::<char>::empty());
            assert(strings_view(out@) =~= strings_view(prev) + seq![line@]);
            assert(lines_from(Seq::<char>::empty(), s@.subrange(start as int, len as int)) =~= seq![
                s@.subrange(start as int, len as int),
            ]);
        }
    } else {
        proof {
            assert(s@.skip(len as int) =~= Seq::<char>::empty());
            assert(s@.subrange(start as int, len as int) =~= Seq::<char>::empty());
            assert(lines_from(Seq::<char>::empty(), Seq::<char>::empty()) =~= Seq::<
                Seq<char>,
            >::empty());
        }
    }
    out
}

} // verus!
