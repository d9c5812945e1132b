//! Verified text utilities: decimal digit conversion, rendering and parsing
//! of decimal numbers, lexicographic comparison, and splitting on separators.

use vstd::prelude::*;

verus! {

/// A decimal digit character, `'0'` through `'9'`.
pub open spec fn is_dec_digit(c: char) -> bool {
    48 <= c as u32 <= 57
}

/// Numeric value of a decimal digit character.
pub open spec fn digit_val(c: char) -> nat {
    (c as u32 - 48) as nat
}

/// The decimal digit character for a value below ten.
pub open spec fn digit_of(d: nat) -> char
    recommends
        d < 10,
{
    ((48 + d) as u32) as char
}

/// Decimal rendering of a natural number, most significant digit first.
pub open spec fn dec_str(n: nat) -> Seq<char>
    decreases n,
{
    if n < 10 {
        seq![digit_of(n)]
    } else {
        dec_str(n / 10).push(digit_of(n % 10))
    }
}

/// Every character of `s` is a decimal digit.
pub open spec fn all_digits(s: Seq<char>) -> bool {
    forall|i: int| 0 <= i < s.len() ==> is_dec_digit(#[trigger] s[i])
}

/// Numeric value of a sequence of decimal digit characters.
pub open spec fn dec_val(s: Seq<char>) -> nat
    decreases s.len(),
{
    if s.len() == 0 {
        0
    } else {
        dec_val(s.drop_last()) * 10 + digit_val(s.last())
    }
}

/// A decimal rendering is nonempty, consists of digits, and reads back to
/// the number it was made from.
pub proof fn lemma_dec_str_val(n: nat)
    ensures
        dec_str(n).len() >= 1,
        all_digits(dec_str(n)),
        dec_val(dec_str(n)) == n,
    decreases n,
{
    if n < 10 {
        assert(dec_str(n).drop_last() =~= Seq::<char>::empty());
        assert(dec_val(Seq::<char>::empty()) == 0);
        assert(digit_of(n) as u32 == 48 + n);
    } else {
        lemma_dec_str_val(n / 10);
        assert(dec_str(n).drop_last() =~= dec_str(n / 10));
        assert(digit_of(n % 10) as u32 == 48 + n % 10);
        assert(dec_val(dec_str(n)) == (n / 10) * 10 + n % 10);
    }
}

/// Extending a digit string on the right can only increase its value.
pub proof fn lemma_dec_val_take_le(s: Seq<char>, i: int)
    requires
        0 <= i <= s.len(),
    ensures
        dec_val(s.take(i)) <= dec_val(s),
    decreases s.len() - i,
{
    if i < s.len() {
        assert(s.take(i + 1).drop_last() =~= s.take(i));
        assert(dec_val(s.take(i + 1)) == dec_val(s.take(i)) * 10 + digit_val(s.take(i + 1).last()));
        lemma_dec_val_take_le(s, i + 1);
        assert(s.take(s.len() as int) =~= s);
    } else {
        assert(s.take(i) =~= s);
    }
}

/// The decimal digit character for a value below ten, as a string slice.
pub fn digit_to_str(d: u8) -> (r: &'static str)
    requires
        d < 10,
    ensures
        r@ =~= seq![digit_of(d as nat)],
{
    proof {
        reveal_strlit("0");
        reveal_strlit("1");
        reveal_strlit("2");
        reveal_strlit("3");
        reveal_strlit("4");
        reveal_strlit("5");
        reveal_strlit("6");
        reveal_strlit("7");
        reveal_strlit("8");
        reveal_strlit("9");
    }
    match d {
        0 => "0",
        1 => "1",
        2 => "2",
        3 => "3",
        4 => "4",
        5 => "5",
        6 => "6",
        7 => "7",
        8 => "8",
        _ => "9",
    }
}

/// Renders a number in decimal.
pub fn usize_to_string(n: usize) -> (r: String)
    ensures
        r@ == dec_str(n as nat),
    decreases n,
{
    if n < 10 {
        String::from_str(digit_to_str(n as u8))
    } else {
        let prefix = usize_to_string(n / 10);
        let r = prefix.concat(digit_to_str((n % 10) as u8));
        r
    }
}

/// Parses a decimal number: `Some` exactly when `s` is nonempty, all digits,
/// and the value fits in `usize`.
pub fn parse_usize(s: &str) -> (r: Option<usize>)
    ensures
        r is Some <==> s@.len() > 0 && all_digits(s@) && dec_val(s@) <= usize::MAX,
        r is Some ==> r->0 == dec_val(s@),
{
    let len = s.unicode_len();
    if len == 0 {
        return None;
    }
    let mut acc: usize = 0;
    let mut i: usize = 0;
    while i < len
        invariant
            0 <= i <= len,
            len == s@.len(),
            all_digits(s@.take(i as int)),
            acc == dec_val(s@.take(i as int)),
        decreases len - i,
    {
        let c = s.get_char(i);
        let code = c as u32;
        if code < 48 || code > 57 {
            assert(!is_dec_digit(s@[i as int]));
            return None;
        }
        let d = (code - 48) as usize;
        if acc > (usize::MAX - d) / 10 {
            proof {
                assert(s@.take(i as int + 1).drop_last() =~= s@.take(i as int));
                assert(dec_val(s@.take(i as int + 1)) > usize::MAX);
                lemma_dec_val_take_le(s@, i as int + 1);
            }
            return None;
        }
        acc = acc * 10 + d;
        proof {
            assert(s@.take(i as int + 1).drop_last() =~= s@.take(i as int));
        }
        i = i + 1;
    }
    proof {
        assert(s@.take(len as int) =~= s@);
    }
    Some(acc)
}

/// Character-sequence equality of two string slices.
pub fn str_eq(a: &str, b: &str) -> (r: bool)
    ensures
        r == (a@ == b@),
{
    let alen = a.unicode_len();
    let blen = b.unicode_len();
    if alen != blen {
        return false;
    }
    let mut i: usize = 0;
    while i < alen
        invariant
            0 <= i <= alen,
            alen == a@.len(),
            alen == b@.len(),
            forall|j: int| 0 <= j < i ==> a@[j] == b@[j],
        decreases alen - i,
    {
        if a.get_char(i) as u32 != b.get_char(i) as u32 {
            return false;
        }
        i = i + 1;
    }
    proof {
        assert(a@ =~= b@);
    }
    true
}

/// `pre` is an initial segment of `s`.
pub open spec fn has_prefix(s: Seq<char>, pre: Seq<char>) -> bool {
    pre.len() <= s.len() && s.take(pre.len() as int) == pre
}

/// `suf` is a final segment of `s`.
pub open spec fn has_suffix(s: Seq<char>, suf: Seq<char>) -> bool {
    suf.len() <= s.len() && s.skip(s.len() - suf.len()) == suf
}

/// Whether `s` starts with `pre`.
pub fn str_has_prefix(s: &str, pre: &str) -> (r: bool)
    ensures
        r == has_prefix(s@, pre@),
{
    let slen = s.unicode_len();
    let plen = pre.unicode_len();
    if plen > slen {
        return false;
    }
    let mut i: usize = 0;
    while i < plen
        invariant
            0 <= i <= plen <= slen,
            slen == s@.len(),
            plen == pre@.len(),
            forall|j: int| 0 <= j < i ==> s@[j] == pre@[j],
        decreases plen - i,
    {
        if s.get_char(i) as u32 != pre.get_char(i) as u32 {
            proof {
                assert(s@.take(plen as int)[i as int] != pre@[i as int]);
            }
            return false;
        }
        i = i + 1;
    }
    proof {
        assert(s@.take(plen as int) =~= pre@);
    }
    true
}

/// The remainder of `s` after an initial segment `pre`, if `s` starts with it.
pub fn strip_prefix_str<'a>(s: &'a str, pre: &str) -> (r: Option<&'a str>)
    ensures
        r is Some <==> has_prefix(s@, pre@),
        r is Some ==> r->0@ == s@.skip(pre@.len() as int),
{
    if str_has_prefix(s, pre) {
        Some(s.substring_char(pre.unicode_len(), s.unicode_len()))
    } else {
        None
    }
}

/// The front of `s` before a final segment `suf`, if `s` ends with it.
pub fn strip_suffix_str<'a>(s: &'a str, suf: &str) -> (r: Option<&'a str>)
    ensures
        r is Some <==> has_suffix(s@, suf@),
        r is Some ==> r->0@ == s@.take(s@.len() - suf@.len()),
{
    let slen = s.unicode_len();
    let flen = suf.unicode_len();
    if flen > slen {
        return None;
    }
    let start = slen - flen;
    let mut i: usize = 0;
    while i < flen
        invariant
            0 <= i <= flen <= slen,
            start == slen - flen,
            slen == s@.len(),
            flen == suf@.len(),
            forall|j: int| 0 <= j < i ==> s@[start + j] == suf@[j],
        decreases flen - i,
    {
        if s.get_char(start + i) as u32 != suf.get_char(i) as u32 {
            proof {
                assert(s@.skip(start as int)[i as int] != suf@[i as int]);
            }
            return None;
        }
        i = i + 1;
    }
    proof {
        assert(s@.skip(start as int) =~= suf@);
    }
    Some(s.substring_char(0, start))
}

/// Lexicographic order on character sequences, by code point.
pub open spec fn lex_le(a: Seq<char>, b: Seq<char>) -> bool
    decreases a.len(),
{
    if a.len() == 0 {
        true
    } else if b.len() == 0 {
        false
    } else if (a[0] as u32) < (b[0] as u32) {
        true
    } else if (b[0] as u32) < (a[0] as u32) {
        false
    } else {
        lex_le(a.drop_first(), b.drop_first())
    }
}

/// The lexicographic order is total.
pub proof fn lemma_lex_le_total(a: Seq<char>, b: Seq<char>)
    ensures
        lex_le(a, b) || lex_le(b, a),
    decreases a.len(),
{
    if a.len() > 0 && b.len() > 0 && a[0] as u32 == b[0] as u32 {
        lemma_lex_le_total(a.drop_first(), b.drop_first());
    }
}

/// Two characters with the same code point are the same character.
proof fn lemma_char_code_injective(c1: char, c2: char)
    requires
        c1 as u32 == c2 as u32,
    ensures
        c1 == c2,
{
}


/// The lexicographic order is reflexive.
pub proof fn lemma_lex_le_refl(a: Seq<char>)
    ensures
        lex_le(a, a),
    decreases a.len(),
{
    if a.len() > 0 {
        lemma_lex_le_refl(a.drop_first());
    }
}

/// The lexicographic order is antisymmetric.
pub proof fn lemma_lex_le_antisym(a: Seq<char>, b: Seq<char>)
    requires
        lex_le(a, b),
        lex_le(b, a),
    ensures
        a == b,
    decreases a.len(),
{
    if a.len() == 0 {
        assert(b.len() == 0);
        assert(a =~= b);
    } else {
        assert(b.len() > 0);
        if (a[0] as u32) < (b[0] as u32) {
            assert(!lex_le(b, a));
            assert(false);
        } else if (b[0] as u32) < (a[0] as u32) {
            assert(!lex_le(a, b));
            assert(false);
        }
        let c1 = a[0];
        let c2 = b[0];
        assert(c1 as u32 == c2 as u32);
        assert(c1 == c2) by {
            lemma_char_code_injective(c1, c2);
        }
        lemma_lex_le_antisym(a.drop_first(), b.drop_first());
        assert(a =~= b) by {
            assert(forall|i: int|
                1 <= i < a.len() ==> #[trigger] a[i] == a.drop_first()[i - 1] && b[i]
                    == b.drop_first()[i - 1]);
        }
    }
}

/// The lexicographic order is transitive.
pub proof fn lemma_lex_le_trans(a: Seq<char>, b: Seq<char>, c: Seq<char>)
    requires
        lex_le(a, b),
        lex_le(b, c),
    ensures
        lex_le(a, c),
    decreases a.len(),
{
    if a.len() > 0 && b.len() > 0 && c.len() > 0 && a[0] as u32 == b[0] as u32 && b[0] as u32
        == c[0] as u32 {
        lemma_lex_le_trans(a.drop_first(), b.drop_first(), c.drop_first());
    }
}

/// A shared front segment does not affect the lexicographic comparison of
/// what remains.
proof fn lemma_lex_le_skip(a: Seq<char>, b: Seq<char>, i: int)
    requires
        0 <= i <= a.len(),
        i <= b.len(),
        a.take(i) == b.take(i),
    ensures
        lex_le(a, b) == lex_le(a.skip(i), b.skip(i)),
    decreases i,
{
    if i > 0 {
        assert(a[0] == b[0]) by {
            assert(a.take(i)[0] == a[0] && b.take(i)[0] == b[0]);
        }
        assert(a.len() > 0 && b.len() > 0);
        assert(a.drop_first().take(i - 1) =~= b.drop_first().take(i - 1)) by {
            assert(forall|j: int|
                0 <= j < i - 1 ==> #[trigger] a.drop_first().take(i - 1)[j] == a.take(i)[j + 1]
                    && b.drop_first().take(i - 1)[j] == b.take(i)[j + 1]);
        }
        lemma_lex_le_skip(a.drop_first(), b.drop_first(), i - 1);
        assert(a.drop_first().skip(i - 1) =~= a.skip(i));
        assert(b.drop_first().skip(i - 1) =~= b.skip(i));
    } else {
        assert(a.skip(0) =~= a);
        assert(b.skip(0) =~= b);
    }
}

/// Lexicographic comparison of two string slices.
pub fn str_le(a: &str, b: &str) -> (r: bool)
    ensures
        r == lex_le(a@, b@),
{
    let alen = a.unicode_len();
    let blen = b.unicode_len();
    let mut i: usize = 0;
    while i < alen && i < blen
        invariant
            0 <= i <= alen,
            i <= blen,
            alen == a@.len(),
            blen == b@.len(),
            a@.take(i as int) == b@.take(i as int),
        decreases alen - i,
    {
        let ca = a.get_char(i) as u32;
        let cb = b.get_char(i) as u32;
        if ca < cb {
            proof {
                lemma_lex_le_skip(a@, b@, i as int);
            }
            return true;
        }
        if cb < ca {
            proof {
                lemma_lex_le_skip(a@, b@, i as int);
            }
            return false;
        }
        proof {
            assert(a@.take(i + 1) =~= b@.take(i + 1));
        }
        i = i + 1;
    }
    proof {
        lemma_lex_le_skip(a@, b@, i as int);
    }
    alen <= blen
}

/// `nee` occurs as a contiguous run somewhere inside `hay`.
pub open spec fn contains_seq(hay: Seq<char>, nee: Seq<char>) -> bool {
    exists|k: int|
        0 <= k <= hay.len() - nee.len() && #[trigger] hay.subrange(k, k + nee.len()) == nee
}

/// Substring search: whether `nee` occurs inside `hay`.
pub fn str_contains(hay: &str, nee: &str) -> (r: bool)
    ensures
        r == contains_seq(hay@, nee@),
{
    let hlen = hay.unicode_len();
    let nlen = nee.unicode_len();
    if nlen > hlen {
        return false;
    }
    if nlen == 0 {
        proof {
            assert(hay@.subrange(0, 0 + nee@.len() as int) =~= nee@);
        }
        return true;
    }
    let last = hlen - nlen;
    let mut k: usize = 0;
    while k <= last
        invariant
            0 <= k <= last + 1,
            last == hlen - nlen,
            hlen == hay@.len(),
            nlen == nee@.len(),
            1 <= nlen <= hlen,
            forall|kk: int| 0 <= kk < k ==> #[trigger] hay@.subrange(kk, kk + nee@.len()) != nee@,
        decreases last + 1 - k,
    {
        let mut j: usize = 0;
        let mut matched = true;
        while j < nlen
            invariant
                0 <= j <= nlen,
                0 <= k <= last,
                last == hlen - nlen,
                hlen == hay@.len(),
                nlen == nee@.len(),
                matched ==> (forall|jj: int| 0 <= jj < j ==> hay@[k + jj] == nee@[jj]),
                !matched ==> hay@.subrange(k as int, k + nee@.len()) != nee@,
            decreases nlen - j,
        {
            if hay.get_char(k + j) as u32 != nee.get_char(j) as u32 {
                matched = false;
                proof {
                    assert(hay@.subrange(k as int, k + nee@.len())[j as int] == hay@[k + j]);
                    assert(hay@[k + j] != nee@[j as int]);
                }
                j = nlen;
            } else {
                proof {
                    assert(hay@[k + j as int] == nee@[j as int]);
                }
                j = j + 1;
            }
        }
        if matched {
            proof {
                assert(hay@.subrange(k as int, k + nee@.len()) =~= nee@);
            }
            return true;
        }
        k = k + 1;
    }
    false
}



/// The pieces of `s` between occurrences of `'_'`, in order. There is always
/// at least one piece; separators at the ends or next to each other give
/// empty pieces.
pub open spec fn split_parts(s: Seq<char>) -> Seq<Seq<char>>
    decreases s.len(),
{
    if s.len() == 0 {
        seq![Seq::<char>::empty()]
    } else if s[0] == '_' {
        seq![Seq::<char>::empty()] + split_parts(s.drop_first())
    } else {
        let p = split_parts(s.drop_first());
        seq![seq![s[0]] + p[0]] + p.drop_first()
    }
}

/// Splitting yields at least one piece.
pub proof fn lemma_split_parts_len(s: Seq<char>)
    ensures
        split_parts(s).len() >= 1,
    decreases s.len(),
{
    if s.len() > 0 {
        lemma_split_parts_len(s.drop_first());
    }
}

/// How a separator-free chunk at the front relates to the split of the rest.
proof fn lemma_split_chunk(t: Seq<char>, rest: Seq<char>)
    requires
        forall|i: int| 0 <= i < t.len() ==> t[i] != '_',
    ensures
        split_parts(t + rest).len() == split_parts(rest).len(),
        split_parts(t + rest)[0] == t + split_parts(rest)[0],
        split_parts(t + rest).drop_first() == split_parts(rest).drop_first(),
    decreases t.len(),
{
    lemma_split_parts_len(rest);
    if t.len() == 0 {
        assert(t + rest =~= rest);
        assert(t + split_parts(rest)[0] =~= split_parts(rest)[0]);
    } else {
        let u = t + rest;
        assert(u[0] == t[0]);
        assert(u.len() > 0 && u[0] != '_');
        assert(u.drop_first() =~= t.drop_first() + rest);
        lemma_split_chunk(t.drop_first(), rest);
        let p = split_parts(u.drop_first());
        assert(split_parts(u) == seq![seq![u[0]] + p[0]] + p.drop_first());
        assert(seq![u[0]] + p[0] =~= t + split_parts(rest)[0]);
        assert((seq![seq![u[0]] + p[0]] + p.drop_first()).drop_first() =~= p.drop_first());
        assert(split_parts(u)[0] == seq![u[0]] + p[0]);
    }
}

/// A separator-free piece, a separator, and the rest: splitting gives the
/// piece followed by the split of the rest.
pub proof fn lemma_split_join(t: Seq<char>, rest: Seq<char>)
    requires
        forall|i: int| 0 <= i < t.len() ==> t[i] != '_',
    ensures
        split_parts(t + seq!['_'] + rest) == seq![t] + split_parts(rest),
{
    let sep = seq!['_'];
    assert((sep + rest)[0] == '_');
    assert((sep + rest).drop_first() =~= rest);
    assert(split_parts(sep + rest) == seq![Seq::<char>::empty()] + split_parts(rest));
    lemma_split_chunk(t, sep + rest);
    lemma_split_parts_len(rest);
    assert(t + seq!['_'] + rest =~= t + (sep + rest));
    let whole = split_parts(t + (sep + rest));
    assert(whole[0] == t + (seq![Seq::<char>::empty()] + split_parts(rest))[0]);
    assert(whole[0] =~= t);
    assert(whole.drop_first() == (seq![Seq::<char>::empty()] + split_parts(rest)).drop_first());
    assert(whole.drop_first() =~= split_parts(rest));
    assert(whole =~= seq![t] + split_parts(rest)) by {
        assert(whole.len() == 1 + split_parts(rest).len());
        assert(forall|i: int|
            1 <= i < whole.len() ==> whole[i] == #[trigger] whole.drop_first()[i - 1]);
    }
}

/// A sequence without separators splits into just itself.
pub proof fn lemma_split_solo(t: Seq<char>)
    requires
        forall|i: int| 0 <= i < t.len() ==> t[i] != '_',
    ensures
        split_parts(t) == seq![t],
{
    lemma_split_chunk(t, Seq::<char>::empty());
    assert(t + Seq::<char>::empty() =~= t);
    assert(split_parts(Seq::<char>::empty()) == seq![Seq::<char>::empty()]);
    let p = split_parts(t);
    assert(p[0] =~= t);
    assert(p.len() == 1);
    assert(p =~= seq![t]);
}

/// Glues a pending chunk onto the first piece of an already-split remainder.
spec fn glue(t: Seq<char>, ps: Seq<Seq<char>>) -> Seq<Seq<char>>
    recommends
        ps.len() >= 1,
{
    seq![t + ps[0]] + ps.drop_first()
}

/// Splits `s` at every `'_'`.
pub fn split_underscores(s: &str) -> (r: Vec<String>)
    ensures
        r.deep_view() == split_parts(s@),
{
    let len = s.unicode_len();
    let mut parts: Vec<String> = Vec::new();
    let mut start: usize = 0;
    let mut i: usize = 0;
    proof {
        assert(s@.skip(0) =~= s@);
        lemma_split_parts_len(s@);
        let p = split_parts(s@);
        assert(s@.subrange(0, 0) + p[0] =~= p[0]);
        assert(glue(s@.subrange(0, 0), p) =~= p) by {
            assert(forall|q: int| 1 <= q < p.len() ==> #[trigger] p[q] == p.drop_first()[q - 1]);
        }
        assert(parts.deep_view() =~= Seq::<Seq<char>>::empty());
        assert(Seq::<Seq<char>>::empty() + p =~= p);
    }
    while i < len
        invariant
            0 <= start <= i <= len,
            len == s@.len(),
            split_parts(s@) == parts.deep_view() + glue(
                s@.subrange(start as int, i as int),
                split_parts(s@.skip(i as int)),
            ),
            split_parts(s@.skip(i as int)).len() >= 1,
        decreases len - i,
    {
        let ghost chunk = s@.subrange(start as int, i as int);
        let ghost ps_i = split_parts(s@.skip(i as int));
        let ghost rest = s@.skip(i as int + 1);
        proof {
            lemma_split_parts_len(rest);
            assert(s@.skip(i as int)[0] == s@[i as int]);
            assert(s@.skip(i as int).drop_first() =~= rest);
        }
        let c = s.get_char(i);
        if c == '_' {
            proof {
                assert(ps_i == seq![Seq::<char>::empty()] + split_parts(rest));
                assert(glue(chunk, ps_i) =~= seq![chunk + Seq::<char>::empty()] + split_parts(
                    rest,
                ));
                assert(chunk + Seq::<char>::empty() =~= chunk);
                assert(glue(chunk, ps_i)[0] == chunk);
            }
            let ghost old_dv = parts.deep_view();
            let piece = s.substring_char(start, i);
            let piece_string = String::from_str(piece);
            parts.push(piece_string);
            proof {
                assert(parts.deep_view() =~= old_dv.push(chunk));
                assert(glue(chunk, ps_i) =~= seq![chunk] + split_parts(rest));
                assert(glue(
                    s@.subrange(i as int + 1, i as int + 1),
                    split_parts(rest),
                ) =~= split_parts(rest)) by {
                    assert(s@.subrange(i as int + 1, i as int + 1) + split_parts(rest)[0]
                        =~= split_parts(rest)[0]);
                    assert(forall|q: int|
                        1 <= q < split_parts(rest).len() ==> #[trigger] split_parts(rest)[q]
                            == split_parts(rest).drop_first()[q - 1]);
                }
                assert(old_dv + glue(chunk, ps_i) =~= parts.deep_view() + split_parts(rest));
            }
            start = i + 1;
        } else {
            proof {
                let p = split_parts(rest);
                assert(ps_i == seq![seq![s@[i as int]] + p[0]] + p.drop_first());
                assert(glue(chunk, ps_i)[0] == chunk + (seq![s@[i as int]] + p[0]));
                assert(glue(chunk, ps_i).drop_first() =~= p.drop_first());
                assert(s@.subrange(start as int, i as int + 1) + p[0] =~= chunk + (seq![
                    s@[i as int],
                ] + p[0]));
                assert(glue(s@.subrange(start as int, i as int + 1), p) =~= glue(chunk, ps_i));
            }
        }
        i = i + 1;
    }
    proof {
        assert(s@.skip(len as int) =~= Seq::<char>::empty());
        assert(split_parts(s@.skip(len as int)) == seq![Seq::<char>::empty()]);
        assert(glue(s@.subrange(start as int, len as int), seq![Seq::<char>::empty()])[0]
            =~= s@.subrange(start as int, len as int));
    }
    let piece = s.substring_char(start, len);
    let piece_string = String::from_str(piece);
    parts.push(piece_string);
    proof {
        assert(parts.deep_view() =~= split_parts(s@));
    }
    parts
}

} // verus!
