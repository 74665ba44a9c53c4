//! Selector parameters: an ordered name-to-value string multimap with a
//! URI-query-like textual form. Entries are separated by `;`, a name and its
//! value by the first `=`; names and values are percent-decoded on read and
//! percent-encoded on write. Keyed accessors reject duplicate names instead
//! of silently picking one.

use vstd::prelude::*;

verus! {

/// Errors of selector and parameter handling.
#[derive(Clone, Copy, Debug, PartialEq, Eq, Structural)]
pub enum SelectorError {
    /// The part before `?` is not a valid key expression.
    InvalidKeyExpr,
    /// A `%` escape is not followed by two hexadecimal digits.
    MalformedEscape,
    /// A semantically keyed accessor found more than one entry for the
    /// queried name.
    DuplicateParameter,
    /// The reserved time-range parameter does not parse in the external
    /// time-range grammar.
    InvalidTimeRange,
}

/// Whether `c` is in the unreserved set written without escaping:
/// alphanumerics and `-` `.` `_` `~`.
pub open spec fn is_unreserved(c: char) -> bool {
    (48 <= (c as u32) && (c as u32) <= 57) || (65 <= (c as u32) && (c as u32) <= 90) || (97 <= (c as u32)
        && (c as u32) <= 122) || (c as u32) == 45 || (c as u32) == 46 || (c as u32) == 95 || (c as u32)
        == 126
}

/// Whether `c` is written as a `%` escape: every ASCII character outside the
/// unreserved set, the delimiter, `=` and `%` among them.
pub open spec fn needs_escape(c: char) -> bool {
    (c as u32) < 128 && !is_unreserved(c)
}

/// The lower-case hexadecimal digit for `n`.
pub open spec fn hex_digit(n: u8) -> char
    recommends
        n < 16,
{
    if n < 10 {
        ((48 + n) as u8) as char
    } else {
        ((87 + n) as u8) as char
    }
}

/// The value of a hexadecimal digit, upper or lower case, if `c` is one.
pub open spec fn hex_val(c: char) -> Option<u8> {
    if 48 <= (c as u32) && (c as u32) <= 57 {
        Some(((c as u32) - 48) as u8)
    } else if 97 <= (c as u32) && (c as u32) <= 102 {
        Some(((c as u32) - 87) as u8)
    } else if 65 <= (c as u32) && (c as u32) <= 70 {
        Some(((c as u32) - 55) as u8)
    } else {
        None
    }
}

/// The encoded form of one character: itself, or `%` and two hex digits.
pub open spec fn enc_char(c: char) -> Seq<char> {
    if needs_escape(c) {
        seq!['%', hex_digit(((c as u32) / 16) as u8), hex_digit(((c as u32) % 16) as u8)]
    } else {
        seq![c]
    }
}

/// The percent-encoded form of a string.
pub open spec fn penc(s: Seq<char>) -> Seq<char>
    decreases s.len(),
{
    if s.len() == 0 {
        Seq::empty()
    } else {
        enc_char(s[0]) + penc(s.skip(1))
    }
}

/// The percent-decoded form of a string, or nothing on a malformed escape.
pub open spec fn pdec(s: Seq<char>) -> Option<Seq<char>>
    decreases s.len(),
{
    if s.len() == 0 {
        Some(Seq::empty())
    } else if s[0] == '%' {
        if s.len() >= 3 && hex_val(s[1]) is Some && hex_val(s[2]) is Some {
            let c = ((16 * hex_val(s[1]).unwrap() + hex_val(s[2]).unwrap()) as u8) as char;
            match pdec(s.skip(3)) {
                Some(t) => Some(seq![c] + t),
                None => None,
            }
        } else {
            None
        }
    } else {
        match pdec(s.skip(1)) {
            Some(t) => Some(seq![s[0]] + t),
            None => None,
        }
    }
}

proof fn lemma_hex_val_of_digit(n: u8)
    requires
        n < 16,
    ensures
        hex_val(hex_digit(n)) == Some(n),
{
}

/// Decoding inverts encoding.
pub proof fn lemma_pdec_penc(s: Seq<char>)
    ensures
        pdec(penc(s)) == Some(s),
    decreases s.len(),
{
    if s.len() > 0 {
        let c = s[0];
        lemma_pdec_penc(s.skip(1));
        if needs_escape(c) {
            assert((c as u32) < 128);
            let hi = ((c as u32) / 16) as u8;
            let lo = ((c as u32) % 16) as u8;
            lemma_hex_val_of_digit(hi);
            lemma_hex_val_of_digit(lo);
            let e = penc(s);
            assert(e =~= seq!['%', hex_digit(hi), hex_digit(lo)] + penc(s.skip(1)));
            assert(e[0] == '%' && e[1] == hex_digit(hi) && e[2] == hex_digit(lo));
            assert(e.skip(3) =~= penc(s.skip(1)));
            assert(16 * ((c as u32) / 16) + (c as u32) % 16 == (c as u32));
            assert(hex_val(e[1]).unwrap() == hi);
            assert(hex_val(e[2]).unwrap() == lo);
            assert(hi as int == ((c as u32) / 16) as int);
            assert(lo as int == ((c as u32) % 16) as int);
            assert(16 * hex_val(e[1]).unwrap() + hex_val(e[2]).unwrap() == (c as u32));
            let ch2 = ((16 * hex_val(e[1]).unwrap() + hex_val(e[2]).unwrap()) as u8) as char;
            assert(ch2 as u32 == (c as u32));
            vstd::utf8::char_u32_cast(c, c as u32);
            vstd::utf8::char_u32_cast(ch2, ch2 as u32);
            assert(ch2 == c);
            assert(seq![c] + s.skip(1) =~= s);
        } else {
            let e = penc(s);
            assert(e =~= seq![c] + penc(s.skip(1)));
            assert(e[0] == c);
            assert(e.skip(1) =~= penc(s.skip(1)));
            assert(seq![c] + s.skip(1) =~= s);
        }
    }
}

/// Encoded text never holds a bare delimiter, `=` or `%` except as an
/// escape head.
pub proof fn lemma_penc_no_sep(s: Seq<char>)
    ensures
        forall|i: int|
            0 <= i < penc(s).len() ==> penc(s)[i] != ';' && penc(s)[i] != '=',
    decreases s.len(),
{
    if s.len() > 0 {
        lemma_penc_no_sep(s.skip(1));
        assert(forall|i: int|
            0 <= i < enc_char(s[0]).len() ==> enc_char(s[0])[i] != ';' && enc_char(s[0])[i]
                != '=');
        assert(forall|i: int|
            0 <= i < penc(s).len() ==> penc(s)[i] == (if i < enc_char(s[0]).len() {
                enc_char(s[0])[i]
            } else {
                penc(s.skip(1))[i - enc_char(s[0]).len()]
            }));
    }
}

/// Encoding a non-empty string yields a non-empty string.
pub proof fn lemma_penc_nonempty(s: Seq<char>)
    ensures
        penc(s).len() >= s.len(),
    decreases s.len(),
{
    if s.len() > 0 {
        lemma_penc_nonempty(s.skip(1));
    }
}

/// Appends one encoded character.
pub proof fn lemma_penc_push(s: Seq<char>, c: char)
    ensures
        penc(s.push(c)) == penc(s) + enc_char(c),
    decreases s.len(),
{
    if s.len() == 0 {
        assert(s.push(c) =~= seq![c]);
        assert(seq![c].skip(1) =~= Seq::<char>::empty());
        assert(penc(seq![c]) == enc_char(c) + penc(seq![c].skip(1)));
        assert(penc(seq![c].skip(1)).len() == 0);
        assert(enc_char(c) + penc(seq![c].skip(1)) =~= enc_char(c));
        assert(penc(s) + enc_char(c) =~= enc_char(c));
    } else {
        lemma_penc_push(s.skip(1), c);
        assert(s.push(c).skip(1) =~= s.skip(1).push(c));
        assert(s.push(c)[0] == s[0]);
        assert(enc_char(s[0]) + (penc(s.skip(1)) + enc_char(c)) =~= (enc_char(s[0]) + penc(
            s.skip(1),
        )) + enc_char(c));
    }
}

/// The lower-case hexadecimal digit for `n`.
fn hex_digit_exec(n: u8) -> (r: char)
    requires
        n < 16,
    ensures
        r == hex_digit(n),
{
    if n < 10 {
        (48 + n) as char
    } else {
        (87 + n) as char
    }
}

/// The value of a hexadecimal digit, if `c` is one.
fn hex_val_exec(c: char) -> (r: Option<u8>)
    ensures
        r == hex_val(c),
{
    let u = (c as u32);
    if 48 <= u && u <= 57 {
        Some((u - 48) as u8)
    } else if 97 <= u && u <= 102 {
        Some((u - 87) as u8)
    } else if 65 <= u && u <= 70 {
        Some((u - 55) as u8)
    } else {
        None
    }
}

/// Relies on `String::push`: appends one character to the string.
#[verifier::external_body]
pub(crate) fn push_char(s: &mut String, c: char)
    ensures
        final(s)@ == old(s)@.push(c),
{
    s.push(c);
}

/// Percent-encodes a string.
pub fn penc_str(s: &str) -> (r: String)
    ensures
        r@ == penc(s@),
{
    let n = s.unicode_len();
    let mut out = String::new();
    let mut i: usize = 0;
    proof {
        assert(s@.take(0) =~= Seq::<char>::empty());
    }
    while i < n
        invariant
            n == s@.len(),
            i <= n,
            out@ == penc(s@.take(i as int)),
        decreases n - i,
    {
        let c = s.get_char(i);
        proof {
            lemma_penc_push(s@.take(i as int), c);
            assert(s@.take(i as int).push(c) =~= s@.take(i as int + 1));
        }
        let u = (c as u32);
        let unreserved = (48 <= u && u <= 57) || (65 <= u && u <= 90) || (97 <= u && u <= 122)
            || u == 45 || u == 46 || u == 95 || u == 126;
        if u < 128 && !unreserved {
            push_char(&mut out, '%');
            push_char(&mut out, hex_digit_exec((u / 16) as u8));
            push_char(&mut out, hex_digit_exec((u % 16) as u8));
            proof {
                assert(out@ =~= penc(s@.take(i as int)) + enc_char(c));
            }
        } else {
            push_char(&mut out, c);
            proof {
                assert(out@ =~= penc(s@.take(i as int)) + enc_char(c));
            }
        }
        i = i + 1;
    }
    proof {
        assert(s@.take(n as int) =~= s@);
    }
    out
}

/// Percent-decodes a string; fails on a malformed escape.
pub fn pdec_str(s: &str) -> (r: Option<String>)
    ensures
        match r {
            Some(d) => pdec(s@) == Some(d@),
            None => pdec(s@) is None,
        },
{
    let n = s.unicode_len();
    let mut out = String::new();
    let mut i: usize = 0;
    proof {
        assert(s@.skip(0) =~= s@);
        if let Some(t) = pdec(s@) {
            assert(Seq::<char>::empty() + t =~= t);
        }
    }
    loop
        invariant
            n == s@.len(),
            i <= n,
            match pdec(s@.skip(i as int)) {
                Some(t) => pdec(s@) == Some(out@ + t),
                None => pdec(s@) is None,
            },
        decreases n - i,
    {
        if i >= n {
            proof {
                assert(s@.skip(i as int).len() == 0);
                assert(out@ + Seq::<char>::empty() =~= out@);
            }
            return Some(out);
        }
        let c = s.get_char(i);
        proof {
            assert(s@.skip(i as int)[0] == s@[i as int]);
        }
        if c == '%' {
            if n - i < 3 {
                proof {
                    assert(s@.skip(i as int).len() < 3);
                }
                return None;
            }
            let h1 = hex_val_exec(s.get_char(i + 1));
            let h2 = hex_val_exec(s.get_char(i + 2));
            proof {
                assert(s@.skip(i as int)[1] == s@[i as int + 1]);
                assert(s@.skip(i as int)[2] == s@[i as int + 2]);
            }
            match (h1, h2) {
                (Some(a), Some(b)) => {
                    let d = (16 * a + b) as char;
                    let ghost pre = out@;
                    push_char(&mut out, d);
                    proof {
                        assert(s@.skip(i as int).skip(3) =~= s@.skip(i as int + 3));
                        assert(out@ =~= pre + seq![d]);
                        if let Some(t2) = pdec(s@.skip(i as int + 3)) {
                            assert(pre + (seq![d] + t2) =~= (pre + seq![d]) + t2);
                        }
                    }
                    i = i + 3;
                },
                _ => {
                    return None;
                },
            }
        } else {
            let ghost pre = out@;
            push_char(&mut out, c);
            proof {
                assert(s@.skip(i as int).skip(1) =~= s@.skip(i as int + 1));
                assert(out@ =~= pre + seq![c]);
                if let Some(t2) = pdec(s@.skip(i as int + 1)) {
                    assert(pre + (seq![c] + t2) =~= (pre + seq![c]) + t2);
                }
            }
            i = i + 1;
        }
    }
}

/// The index of the first occurrence of `c` in `s`, or `s.len()` when absent.
pub open spec fn find(s: Seq<char>, c: char) -> int
    decreases s.len(),
{
    if s.len() == 0 {
        0
    } else if s[0] == c {
        0
    } else {
        1 + find(s.skip(1), c)
    }
}

pub proof fn lemma_find(s: Seq<char>, c: char)
    ensures
        0 <= find(s, c) <= s.len(),
        find(s, c) < s.len() ==> s[find(s, c)] == c,
        forall|j: int| 0 <= j < find(s, c) ==> s[j] != c,
    decreases s.len(),
{
    if s.len() > 0 && s[0] != c {
        lemma_find(s.skip(1), c);
        assert(forall|j: int| 0 <= j < find(s.skip(1), c) ==> s.skip(1)[j] != c);
        assert(forall|j: int| 1 <= j < find(s, c) ==> s[j] == s.skip(1)[j - 1]);
    }
}

/// Skipping a prefix free of `c` shifts the first occurrence.
pub proof fn lemma_find_prefix(a: Seq<char>, rest: Seq<char>, c: char)
    requires
        forall|j: int| 0 <= j < a.len() ==> a[j] != c,
    ensures
        find(a + rest, c) == a.len() + find(rest, c),
    decreases a.len(),
{
    if a.len() == 0 {
        assert(a + rest =~= rest);
    } else {
        lemma_find_prefix(a.skip(1), rest, c);
        assert((a + rest).skip(1) =~= a.skip(1) + rest);
        assert((a + rest)[0] == a[0]);
    }
}

/// The textual form of one entry: the encoded name, and `=` with the
/// encoded value when the value is not empty.
pub open spec fn enc_entry(p: (Seq<char>, Seq<char>)) -> Seq<char> {
    if p.1.len() == 0 {
        penc(p.0)
    } else {
        penc(p.0) + seq!['='] + penc(p.1)
    }
}

/// The textual form of a parameter list: entries joined by `;`.
pub open spec fn params_ser(ps: Seq<(Seq<char>, Seq<char>)>) -> Seq<char>
    decreases ps.len(),
{
    if ps.len() == 0 {
        Seq::empty()
    } else if ps.len() == 1 {
        enc_entry(ps[0])
    } else {
        enc_entry(ps[0]) + seq![';'] + params_ser(ps.skip(1))
    }
}

/// Parses one non-empty entry: split on the first `=` (no `=` means an
/// empty value), percent-decode both sides.
pub open spec fn parse_chunk(c: Seq<char>) -> Option<(Seq<char>, Seq<char>)>
    recommends
        c.len() > 0,
{
    let e = find(c, '=');
    if e == c.len() {
        match pdec(c) {
            Some(n) => Some((n, Seq::empty())),
            None => None,
        }
    } else {
        match (pdec(c.take(e)), pdec(c.skip(e + 1))) {
            (Some(n), Some(v)) => Some((n, v)),
            _ => None,
        }
    }
}

/// Parses a parameter section: entries separated by `;`, empty chunks
/// dropped; fails only on a malformed percent escape.
pub open spec fn params_parse(s: Seq<char>) -> Option<Seq<(Seq<char>, Seq<char>)>>
    decreases s.len(),
    via params_parse_decreases
{
    if s.len() == 0 {
        Some(Seq::empty())
    } else {
        let f = find(s, ';');
        let chunk = s.take(f);
        let restopt = if f == s.len() {
            Some(Seq::empty())
        } else {
            params_parse(s.skip(f + 1))
        };
        match restopt {
            None => None,
            Some(t) => if chunk.len() == 0 {
                Some(t)
            } else {
                match parse_chunk(chunk) {
                    None => None,
                    Some(p) => Some(seq![p] + t),
                }
            },
        }
    }
}

#[via_fn]
proof fn params_parse_decreases(s: Seq<char>) {
    lemma_find(s, ';');
}

/// A pair round-trips only when it is not the fully empty pair, whose
/// textual form vanishes.
pub open spec fn pair_ok(p: (Seq<char>, Seq<char>)) -> bool {
    p.0.len() > 0 || p.1.len() > 0
}

pub open spec fn all_pairs_ok(ps: Seq<(Seq<char>, Seq<char>)>) -> bool {
    forall|i: int| 0 <= i < ps.len() ==> pair_ok(#[trigger] ps[i])
}

proof fn lemma_enc_entry_no_semi(p: (Seq<char>, Seq<char>))
    ensures
        forall|i: int| 0 <= i < enc_entry(p).len() ==> enc_entry(p)[i] != ';',
{
    lemma_penc_no_sep(p.0);
    lemma_penc_no_sep(p.1);
    if p.1.len() != 0 {
        assert(forall|i: int|
            0 <= i < enc_entry(p).len() ==> enc_entry(p)[i] == (if i < penc(p.0).len() {
                penc(p.0)[i]
            } else if i == penc(p.0).len() {
                '='
            } else {
                penc(p.1)[i - penc(p.0).len() - 1]
            }));
    }
}

proof fn lemma_parse_chunk_entry(p: (Seq<char>, Seq<char>))
    requires
        pair_ok(p),
    ensures
        enc_entry(p).len() > 0,
        parse_chunk(enc_entry(p)) == Some(p),
{
    lemma_penc_no_sep(p.0);
    lemma_penc_nonempty(p.0);
    lemma_penc_nonempty(p.1);
    lemma_pdec_penc(p.0);
    lemma_pdec_penc(p.1);
    let e = enc_entry(p);
    lemma_find(e, '=');
    if p.1.len() == 0 {
        let f = find(e, '=');
        if f < e.len() {
            assert(e[f] == '=');
            assert(false);
        }
        assert(p.1 =~= Seq::<char>::empty());
        assert(p == (p.0, p.1));
    } else {
        lemma_find_prefix(penc(p.0), seq!['='] + penc(p.1), '=');
        assert(e =~= penc(p.0) + (seq!['='] + penc(p.1)));
        assert((seq!['='] + penc(p.1))[0] == '=');
        assert(find(seq!['='] + penc(p.1), '=') == 0);
        let f = find(e, '=');
        assert(f == penc(p.0).len());
        assert(e.take(f) =~= penc(p.0));
        assert(e.skip(f + 1) =~= penc(p.1));
        assert(p == (p.0, p.1));
    }
}

/// Serializing a parameter list and parsing the result reproduces the
/// list, for any list (duplicate-free or not) whose pairs are not fully
/// empty.
pub proof fn lemma_params_round_trip(ps: Seq<(Seq<char>, Seq<char>)>)
    requires
        all_pairs_ok(ps),
    ensures
        params_parse(params_ser(ps)) == Some(ps),
{
    lemma_params_round(ps);
}

proof fn lemma_params_round(ps: Seq<(Seq<char>, Seq<char>)>)
    requires
        all_pairs_ok(ps),
    ensures
        params_parse(params_ser(ps)) == Some(ps),
    decreases ps.len(),
{
    if ps.len() == 0 {
        assert(params_ser(ps) =~= Seq::<char>::empty());
        assert(ps =~= Seq::<(Seq<char>, Seq<char>)>::empty());
    } else if ps.len() == 1 {
        assert(pair_ok(ps[0]));
        lemma_parse_chunk_entry(ps[0]);
        lemma_enc_entry_no_semi(ps[0]);
        let e = enc_entry(ps[0]);
        lemma_find(e, ';');
        let f = find(e, ';');
        if f < e.len() {
            assert(e[f] == ';');
            assert(false);
        }
        assert(e.take(f) =~= e);
        assert(seq![ps[0]] + Seq::<(Seq<char>, Seq<char>)>::empty() =~= ps);
    } else {
        assert(pair_ok(ps[0]));
        lemma_params_round(ps.skip(1));
        lemma_parse_chunk_entry(ps[0]);
        lemma_enc_entry_no_semi(ps[0]);
        let e0 = enc_entry(ps[0]);
        let rest = params_ser(ps.skip(1));
        let s = params_ser(ps);
        assert(s == e0 + seq![';'] + rest);
        lemma_find_prefix(e0, seq![';'] + rest, ';');
        assert(s =~= e0 + (seq![';'] + rest));
        assert((seq![';'] + rest)[0] == ';');
        assert(find(seq![';'] + rest, ';') == 0);
        let f = find(s, ';');
        assert(f == e0.len());
        assert(s.take(f) =~= e0);
        assert(s.len() == e0.len() + 1 + rest.len());
        lemma_penc_nonempty(ps[0].0);
        lemma_penc_nonempty(ps[0].1);
        assert(e0.len() > 0);
        assert(f < s.len());
        assert(s.skip(f + 1) =~= rest);
        assert(seq![ps[0]] + ps.skip(1) =~= ps);
    }
}


/// The character-sequence pairs a pair vector stands for.
pub open spec fn pairs_view(v: Seq<(String, String)>) -> Seq<(Seq<char>, Seq<char>)> {
    Seq::new(v.len(), |i: int| (v[i].0@, v[i].1@))
}

/// How many entries carry the name `n`.
pub open spec fn count_name(ps: Seq<(Seq<char>, Seq<char>)>, n: Seq<char>) -> nat
    decreases ps.len(),
{
    if ps.len() == 0 {
        0
    } else {
        (if ps[0].0 == n {
            1nat
        } else {
            0nat
        }) + count_name(ps.skip(1), n)
    }
}

/// The value of the first entry named `n`, if any.
pub open spec fn lookup_name(ps: Seq<(Seq<char>, Seq<char>)>, n: Seq<char>) -> Option<Seq<char>>
    decreases ps.len(),
{
    if ps.len() == 0 {
        None
    } else if ps[0].0 == n {
        Some(ps[0].1)
    } else {
        lookup_name(ps.skip(1), n)
    }
}

/// The list without the entries named `n`, order preserved.
pub open spec fn remove_name(ps: Seq<(Seq<char>, Seq<char>)>, n: Seq<char>) -> Seq<
    (Seq<char>, Seq<char>),
>
    decreases ps.len(),
{
    if ps.len() == 0 {
        Seq::empty()
    } else if ps[0].0 == n {
        remove_name(ps.skip(1), n)
    } else {
        seq![ps[0]] + remove_name(ps.skip(1), n)
    }
}

/// Serializing with one more entry at the end.
proof fn lemma_ser_push(ps: Seq<(Seq<char>, Seq<char>)>, p: (Seq<char>, Seq<char>))
    ensures
        ps.len() == 0 ==> params_ser(ps.push(p)) == enc_entry(p),
        ps.len() > 0 ==> params_ser(ps.push(p)) == params_ser(ps) + seq![';'] + enc_entry(p),
    decreases ps.len(),
{
    if ps.len() == 0 {
        assert(ps.push(p) =~= seq![p]);
    } else {
        lemma_ser_push(ps.skip(1), p);
        assert(ps.push(p).skip(1) =~= ps.skip(1).push(p));
        assert(ps.push(p)[0] == ps[0]);
        assert(ps.push(p).len() == ps.len() + 1);
        if ps.len() == 1 {
            assert(ps.skip(1).len() == 0);
            assert(params_ser(ps.skip(1).push(p)) == enc_entry(p));
            assert(params_ser(ps) == enc_entry(ps[0]));
        } else {
            assert(enc_entry(ps[0]) + seq![';'] + (params_ser(ps.skip(1)) + seq![';']
                + enc_entry(p)) =~= (enc_entry(ps[0]) + seq![';'] + params_ser(ps.skip(1)))
                + seq![';'] + enc_entry(p));
        }
    }
}

/// The index of the first occurrence of `c`, or the length when absent.
pub(crate) fn find_char(s: &str, c: char) -> (r: usize)
    ensures
        r == find(s@, c),
{
    let n = s.unicode_len();
    let mut i: usize = 0;
    proof {
        lemma_find(s@, c);
    }
    while i < n
        invariant
            n == s@.len(),
            i <= n,
            forall|j: int| 0 <= j < i ==> s@[j] != c,
            0 <= find(s@, c) <= s@.len(),
            find(s@, c) < s@.len() ==> s@[find(s@, c)] == c,
            forall|j: int| 0 <= j < find(s@, c) ==> s@[j] != c,
        decreases n - i,
    {
        if s.get_char(i) == c {
            return i;
        }
        i = i + 1;
    }
    n
}

/// Relies on `str` equality: equal slices hold equal character sequences.
#[verifier::external_body]
pub(crate) fn str_eq(a: &str, b: &str) -> (r: bool)
    ensures
        r == (a@ == b@),
{
    a == b
}

/// Parses one non-empty entry.
fn parse_chunk_exec(c: &str) -> (r: Option<(String, String)>)
    requires
        c@.len() > 0,
    ensures
        match r {
            Some(p) => parse_chunk(c@) == Some((p.0@, p.1@)),
            None => parse_chunk(c@) is None,
        },
{
    let n = c.unicode_len();
    let e = find_char(c, '=');
    proof {
        lemma_find(c@, '=');
    }
    if e == n {
        match pdec_str(c) {
            Some(name) => Some((name, String::new())),
            None => None,
        }
    } else {
        let nm = c.substring_char(0, e);
        let vl = c.substring_char(e + 1, n);
        proof {
            assert(nm@ =~= c@.take(e as int));
            assert(vl@ =~= c@.skip(e as int + 1));
        }
        match (pdec_str(nm), pdec_str(vl)) {
            (Some(a), Some(b)) => Some((a, b)),
            _ => None,
        }
    }
}

/// Parses a parameter section.
fn parse_entries_exec(s: &str) -> (r: Option<Vec<(String, String)>>)
    ensures
        match r {
            Some(v) => params_parse(s@) == Some(pairs_view(v@)),
            None => params_parse(s@) is None,
        },
    decreases s@.len(),
{
    let n = s.unicode_len();
    if n == 0 {
        let v: Vec<(String, String)> = Vec::new();
        proof {
            assert(pairs_view(v@) =~= Seq::<(Seq<char>, Seq<char>)>::empty());
        }
        return Some(v);
    }
    let f = find_char(s, ';');
    proof {
        lemma_find(s@, ';');
    }
    let chunk = s.substring_char(0, f);
    proof {
        assert(chunk@ =~= s@.take(f as int));
    }
    let restopt: Option<Vec<(String, String)>> = if f == n {
        Some(Vec::new())
    } else {
        let tail = s.substring_char(f + 1, n);
        proof {
            assert(tail@ =~= s@.skip(f as int + 1));
        }
        parse_entries_exec(tail)
    };
    proof {
        if f == n {
            assert(pairs_view(Seq::<(String, String)>::empty())
                =~= Seq::<(Seq<char>, Seq<char>)>::empty());
        }
    }
    match restopt {
        None => None,
        Some(mut t) => {
            if chunk.unicode_len() == 0 {
                Some(t)
            } else {
                match parse_chunk_exec(chunk) {
                    None => None,
                    Some(p) => {
                        let ghost tview = pairs_view(t@);
                        let ghost pv = (p.0@, p.1@);
                        t.insert(0, p);
                        proof {
                            assert(pairs_view(t@) =~= seq![pv] + tview);
                        }
                        Some(t)
                    },
                }
            }
        },
    }
}

/// An ordered name-to-value string multimap addressed by name, with a
/// URI-query-like textual form. Raw parsing may introduce duplicate names;
/// keyed accessors reject them.
#[derive(Debug)]
pub struct Parameters {
    pairs: Vec<(String, String)>,
}

impl View for Parameters {
    type V = Seq<(Seq<char>, Seq<char>)>;

    /// The entry list, as character-sequence pairs, names and values in
    /// decoded form.
    closed spec fn view(&self) -> Seq<(Seq<char>, Seq<char>)> {
        pairs_view(self.pairs@)
    }
}

impl Parameters {
    /// Creates an empty parameter list.
    pub fn new() -> (r: Self)
        ensures
            r@ == Seq::<(Seq<char>, Seq<char>)>::empty(),
    {
        let r = Parameters { pairs: Vec::new() };
        proof {
            assert(r@ =~= Seq::<(Seq<char>, Seq<char>)>::empty());
        }
        r
    }

    /// Parses a parameter section: entries separated by `;`, split on the
    /// first `=`, percent-decoded; empty chunks are dropped, duplicate names
    /// are kept. Fails exactly on a malformed percent escape.
    pub fn parse(s: &str) -> (r: Result<Parameters, SelectorError>)
        ensures
            match r {
                Ok(p) => params_parse(s@) == Some(p@),
                Err(e) => params_parse(s@) is None && e == SelectorError::MalformedEscape,
            },
    {
        match parse_entries_exec(s) {
            Some(v) => Ok(Parameters { pairs: v }),
            None => Err(SelectorError::MalformedEscape),
        }
    }

    /// The canonical textual form: entries joined by `;`, names and values
    /// percent-encoded, `=` omitted for empty values.
    pub fn to_string(&self) -> (r: String)
        ensures
            r@ == params_ser(self@),
    {
        let mut out = String::new();
        let mut i: usize = 0;
        proof {
            assert(self@.take(0) =~= Seq::<(Seq<char>, Seq<char>)>::empty());
        }
        while i < self.pairs.len()
            invariant
                i <= self.pairs@.len(),
                self@ == pairs_view(self.pairs@),
                self@.len() == self.pairs@.len(),
                out@ == params_ser(self@.take(i as int)),
            decreases self.pairs@.len() - i,
        {
            let ghost pre = self@.take(i as int);
            let ghost pv = self@[i as int];
            proof {
                lemma_ser_push(pre, pv);
                assert(pre.push(pv) =~= self@.take(i as int + 1));
            }
            if i > 0 {
                push_char(&mut out, ';');
            }
            let name_enc = penc_str(self.pairs[i].0.as_str());
            out.append(name_enc.as_str());
            if self.pairs[i].1.unicode_len() > 0 {
                push_char(&mut out, '=');
                let val_enc = penc_str(self.pairs[i].1.as_str());
                out.append(val_enc.as_str());
                proof {
                    assert(enc_entry(pv) == penc(pv.0) + seq!['='] + penc(pv.1));
                    if i == 0 {
                        assert(out@ =~= params_ser(pre) + (penc(pv.0) + seq!['='] + penc(pv.1)));
                        assert(params_ser(pre).len() == 0);
                        assert(out@ =~= params_ser(pre.push(pv)));
                    } else {
                        assert(out@ =~= params_ser(pre) + seq![';'] + (penc(pv.0) + seq!['=']
                            + penc(pv.1)));
                        assert(out@ =~= params_ser(pre.push(pv)));
                    }
                }
            } else {
                proof {
                    assert(pv.1.len() == 0);
                    assert(enc_entry(pv) == penc(pv.0));
                    if i == 0 {
                        assert(params_ser(pre).len() == 0);
                        assert(out@ =~= params_ser(pre.push(pv)));
                    } else {
                        assert(out@ =~= params_ser(pre) + seq![';'] + penc(pv.0));
                        assert(out@ =~= params_ser(pre.push(pv)));
                    }
                }
            }
            i = i + 1;
        }
        proof {
            assert(self@.take(self@.len() as int) =~= self@);
        }
        out
    }

    /// Whether the list holds no entry.
    pub fn is_empty(&self) -> (r: bool)
        ensures
            r == (self@.len() == 0),
    {
        self.pairs.len() == 0
    }

    /// The number of entries, duplicates counted.
    pub fn len(&self) -> (r: usize)
        ensures
            r == self@.len(),
    {
        self.pairs.len()
    }

    /// This value as an independently owned parameter list. Parameters are
    /// stored owned, so this is the materialize-as-owned operation of the
    /// borrow-or-own interface and costs nothing.
    pub fn into_owned(self) -> (r: Parameters)
        ensures
            r@ == self@,
    {
        self
    }

    /// A copy of the entries, in order, names and values decoded.
    pub fn entries(&self) -> (r: Vec<(String, String)>)
        ensures
            pairs_view(r@) == self@,
    {
        let mut out: Vec<(String, String)> = Vec::new();
        let mut i: usize = 0;
        while i < self.pairs.len()
            invariant
                i <= self.pairs@.len(),
                self@ == pairs_view(self.pairs@),
                out@.len() == i,
                forall|j: int|
                    0 <= j < i ==> out@[j].0@ == self@[j].0 && out@[j].1@ == self@[j].1,
            decreases self.pairs@.len() - i,
        {
            let name = self.pairs[i].0.clone();
            let value = self.pairs[i].1.clone();
            out.push((name, value));
            i = i + 1;
        }
        proof {
            assert(pairs_view(out@) =~= self@);
        }
        out
    }

    /// The value of the entry named `name`: the error when several entries
    /// carry that name, the single value when exactly one does, nothing when
    /// none does.
    pub fn get(&self, name: &str) -> (r: Result<Option<String>, SelectorError>)
        ensures
            count_name(self@, name@) >= 2 <==> r == Err::<Option<String>, SelectorError>(
                SelectorError::DuplicateParameter,
            ),
            match r {
                Ok(o) => match o {
                    Some(v) => lookup_name(self@, name@) == Some(v@),
                    None => lookup_name(self@, name@) is None,
                },
                Err(e) => e == SelectorError::DuplicateParameter,
            },
    {
        let mut i: usize = 0;
        let mut found: Option<usize> = None;
        proof {
            assert(self@.skip(0) =~= self@);
        }
        while i < self.pairs.len()
            invariant
                i <= self.pairs@.len(),
                self@ == pairs_view(self.pairs@),
                self@.len() == self.pairs@.len(),
                match found {
                    None => count_name(self@, name@) == count_name(self@.skip(i as int), name@)
                        && lookup_name(self@, name@) == lookup_name(self@.skip(i as int), name@),
                    Some(j) => j < i && self@[j as int].0 == name@ && count_name(self@, name@)
                        == 1 + count_name(self@.skip(i as int), name@) && lookup_name(
                        self@,
                        name@,
                    ) == Some(self@[j as int].1),
                },
            decreases self.pairs@.len() - i,
        {
            proof {
                assert(self@.skip(i as int)[0] == self@[i as int]);
                assert(self@.skip(i as int).skip(1) =~= self@.skip(i as int + 1));
            }
            if str_eq(self.pairs[i].0.as_str(), name) {
                match found {
                    Some(_) => {
                        proof {
                            assert(count_name(self@, name@) >= 2);
                        }
                        return Err(SelectorError::DuplicateParameter);
                    },
                    None => {
                        found = Some(i);
                    },
                }
            }
            i = i + 1;
        }
        proof {
            assert(self@.skip(self@.len() as int).len() == 0);
        }
        match found {
            Some(j) => Ok(Some(self.pairs[j].1.clone())),
            None => Ok(None),
        }
    }

    /// Removes every entry named `name`, keeping the order of the others.
    pub fn remove(&mut self, name: &str)
        ensures
            final(self)@ == remove_name(old(self)@, name@),
    {
        let mut out: Vec<(String, String)> = Vec::new();
        let mut i: usize = 0;
        proof {
            assert(old(self)@.skip(0) =~= old(self)@);
        }
        while i < self.pairs.len()
            invariant
                i <= self.pairs@.len(),
                self@ == old(self)@,
                self@ == pairs_view(self.pairs@),
                self@.len() == self.pairs@.len(),
                remove_name(old(self)@, name@) == pairs_view(out@) + remove_name(
                    self@.skip(i as int),
                    name@,
                ),
            decreases self.pairs@.len() - i,
        {
            proof {
                assert(self@.skip(i as int)[0] == self@[i as int]);
                assert(self@.skip(i as int).skip(1) =~= self@.skip(i as int + 1));
            }
            let ghost preout = pairs_view(out@);
            if !str_eq(self.pairs[i].0.as_str(), name) {
                let nm = self.pairs[i].0.clone();
                let vl = self.pairs[i].1.clone();
                out.push((nm, vl));
                proof {
                    assert(pairs_view(out@) =~= preout.push(self@[i as int]));
                    assert(preout + (seq![self@[i as int]] + remove_name(
                        self@.skip(i as int + 1),
                        name@,
                    )) =~= preout.push(self@[i as int]) + remove_name(
                        self@.skip(i as int + 1),
                        name@,
                    ));
                }
            }
            i = i + 1;
        }
        proof {
            assert(self@.skip(self@.len() as int).len() == 0);
            assert(pairs_view(out@) + Seq::<(Seq<char>, Seq<char>)>::empty() =~= pairs_view(
                out@,
            ));
        }
        self.pairs = out;
    }

    /// Sets `name` to `value`: removes every entry with that name, then
    /// appends the pair, so insertion never introduces a duplicate.
    pub fn insert(&mut self, name: &str, value: &str)
        ensures
            final(self)@ == remove_name(old(self)@, name@).push((name@, value@)),
    {
        self.remove(name);
        let nm = name.to_owned();
        let vl = value.to_owned();
        let ghost pre = self@;
        self.pairs.push((nm, vl));
        proof {
            assert(pairs_view(self.pairs@) =~= pre.push((name@, value@)));
        }
    }
}

impl Default for Parameters {
    /// An empty parameter list.
    fn default() -> (r: Self)
        ensures
            r@ == Seq::<(Seq<char>, Seq<char>)>::empty(),
    {
        Parameters::new()
    }
}

} // verus!
