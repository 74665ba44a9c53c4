//! Selectors address queries: a validated key expression paired with
//! parameters, with the canonical string form `key_expr['?' parameters]`.
//! The key-expression grammar itself is an external collaborator, consumed
//! as an opaque validation; the parameter text is parsed and serialized
//! here. The reserved parameter `_time` carries a value of the external
//! time-range mini-language; `_anyke` is presence-only.

use crate::params::{
    all_pairs_ok, count_name, find, lemma_find, lemma_find_prefix, lookup_name, params_parse,
    params_ser, lemma_params_round_trip, remove_name, Parameters, SelectorError,
};
use vstd::prelude::*;
use zenoh_util::time_range::{TimeBound, TimeExpr, TimeRange};

verus! {

/// The reserved parameter carrying a time-range filter in the external
/// time-range mini-language.
pub const TIME_RANGE_KEY: &'static str = "_time";

/// The reserved presence-only parameter asking that replies be accepted
/// whatever their key expression.
pub const REPLY_KEY_EXPR_ANY_SEL_PARAM: &'static str = "_anyke";

/// Whether the external key-expression grammar accepts `s` as a canonical
/// key expression.
pub uninterp spec fn is_valid_key_expr(s: Seq<char>) -> bool;

/// Relies on zenoh-keyexpr's `keyexpr` validation (its `TryFrom<&str>`):
/// it accepts exactly the canonical key expressions, and what it accepts is
/// non-empty (empty chunks are rejected) and never contains `?` (a
/// forbidden character there).
#[verifier::external_body]
fn validate_key_expr(s: &str) -> (r: bool)
    ensures
        r == is_valid_key_expr(s@),
        r ==> s@.len() > 0 && (forall|i: int| 0 <= i < s@.len() ==> s@[i] != '?'),
{
    <&zenoh_keyexpr::keyexpr as core::convert::TryFrom<&str>>::try_from(s).is_ok()
}

/// A key expression: a non-empty, `/`-segmented, path-like string accepted
/// by the external grammar; immutable once constructed.
#[derive(Debug, Clone)]
pub struct KeyExpr {
    inner: String,
}

impl View for KeyExpr {
    type V = Seq<char>;

    /// The key expression's text.
    closed spec fn view(&self) -> Seq<char> {
        self.inner@
    }
}

impl KeyExpr {
    /// A constructed key expression is accepted by the grammar, non-empty,
    /// and free of `?`.
    pub open spec fn wf(self) -> bool {
        is_valid_key_expr(self@) && self@.len() > 0 && (forall|i: int|
            0 <= i < self@.len() ==> self@[i] != '?')
    }

    /// Validates `s` against the external grammar; rejection is the
    /// `InvalidKeyExpr` error.
    pub fn new(s: &str) -> (r: Result<KeyExpr, SelectorError>)
        ensures
            match r {
                Ok(k) => is_valid_key_expr(s@) && k@ == s@ && k.wf(),
                Err(e) => !is_valid_key_expr(s@) && e == SelectorError::InvalidKeyExpr,
            },
    {
        if validate_key_expr(s) {
            Ok(KeyExpr { inner: s.to_owned() })
        } else {
            Err(SelectorError::InvalidKeyExpr)
        }
    }

    /// The key expression's text.
    pub fn as_str(&self) -> (r: &str)
        ensures
            r@ == self@,
    {
        self.inner.as_str()
    }
}

/// The canonical string form of a selector: the key expression, and `?`
/// with the parameter section when parameters are present.
pub open spec fn sel_ser(k: Seq<char>, ps: Seq<(Seq<char>, Seq<char>)>) -> Seq<char> {
    if ps.len() == 0 {
        k
    } else {
        k + seq!['?'] + params_ser(ps)
    }
}

/// A selector: a key expression, which defines the set of keys relevant to
/// an operation, paired with parameters.
#[derive(Debug)]
pub struct Selector(pub KeyExpr, pub Parameters);

impl Selector {
    /// Parses a selector string: everything before the first `?` must be a
    /// valid key expression, everything after it is the parameter section;
    /// absence of `?` means empty parameters. An invalid key expression is
    /// `InvalidKeyExpr`; a malformed escape in the parameters is
    /// `MalformedEscape`.
    pub fn parse(s: &str) -> (r: Result<Selector, SelectorError>)
        ensures
            ({
                let q = find(s@, '?');
                match r {
                    Ok(sel) => sel.0@ == s@.take(q) && sel.0.wf() && is_valid_key_expr(s@.take(q))
                        && (q == s@.len() ==> sel.1@ == Seq::<(Seq<char>, Seq<char>)>::empty())
                        && (q < s@.len() ==> params_parse(s@.skip(q + 1)) == Some(sel.1@)),
                    Err(e) => (e == SelectorError::InvalidKeyExpr && !is_valid_key_expr(
                        s@.take(q),
                    )) || (e == SelectorError::MalformedEscape && is_valid_key_expr(s@.take(q))
                        && q < s@.len() && params_parse(s@.skip(q + 1)) is None),
                }
            }),
    {
        let n = s.unicode_len();
        let q = crate::params::find_char(s, '?');
        proof {
            lemma_find(s@, '?');
        }
        let key_part = s.substring_char(0, q);
        proof {
            assert(key_part@ =~= s@.take(q as int));
        }
        let key = match KeyExpr::new(key_part) {
            Ok(k) => k,
            Err(e) => {
                return Err(e);
            },
        };
        if q == n {
            Ok(Selector(key, Parameters::new()))
        } else {
            let tail = s.substring_char(q + 1, n);
            proof {
                assert(tail@ =~= s@.skip(q as int + 1));
            }
            match Parameters::parse(tail) {
                Ok(ps) => Ok(Selector(key, ps)),
                Err(e) => Err(e),
            }
        }
    }

    /// Wraps a key expression as a selector with empty parameters.
    pub fn from_key_expr(key_expr: KeyExpr) -> (r: Selector)
        ensures
            r.0 == key_expr,
            r.1@ == Seq::<(Seq<char>, Seq<char>)>::empty(),
    {
        Selector(key_expr, Parameters::new())
    }

    /// The canonical string form: the key expression, then `?` and the
    /// serialized parameters when any are present.
    pub fn to_string(&self) -> (r: String)
        ensures
            r@ == sel_ser(self.0@, self.1@),
    {
        let mut out = self.0.as_str().to_owned();
        if !self.1.is_empty() {
            crate::params::push_char(&mut out, '?');
            proof {
                assert(out@ =~= self.0@ + seq!['?']);
            }
            let ps = self.1.to_string();
            out.append(ps.as_str());
            proof {
                assert(out@ =~= self.0@ + seq!['?'] + params_ser(self.1@));
            }
        }
        out
    }
}

/// Serializing a selector and parsing the result reproduces the key
/// expression exactly and the parameters as the same pair list, for any
/// well-formed key expression and any parameter list (duplicate-free or
/// not) whose pairs are not fully empty.
pub proof fn lemma_selector_round_trip(sel: Selector)
    requires
        sel.0.wf(),
        all_pairs_ok(sel.1@),
    ensures
        ({
            let s = sel_ser(sel.0@, sel.1@);
            let q = find(s, '?');
            s.take(q) == sel.0@ && is_valid_key_expr(s.take(q)) && (q == s.len() ==> sel.1@
                == Seq::<(Seq<char>, Seq<char>)>::empty()) && (q < s.len() ==> params_parse(
                s.skip(q + 1),
            ) == Some(sel.1@))
        }),
{
    let k = sel.0@;
    let ps = sel.1@;
    let s = sel_ser(k, ps);
    if ps.len() == 0 {
        lemma_find(s, '?');
        let q = find(s, '?');
        if q < s.len() {
            assert(s[q] == '?');
            assert(false);
        }
        assert(s.take(q) =~= k);
        assert(ps =~= Seq::<(Seq<char>, Seq<char>)>::empty());
    } else {
        let rest = seq!['?'] + params_ser(ps);
        lemma_find_prefix(k, rest, '?');
        assert(s =~= k + rest);
        assert(rest[0] == '?');
        assert(find(rest, '?') == 0);
        let q = find(s, '?');
        assert(q == k.len());
        assert(s.take(q) =~= k);
        assert(s.len() == k.len() + 1 + params_ser(ps).len());
        assert(q < s.len());
        assert(s.skip(q + 1) =~= params_ser(ps));
        lemma_params_round_trip(ps);
    }
}

/// Whether the external time-range grammar accepts `s`.
pub uninterp spec fn time_range_accepted(s: Seq<char>) -> bool;

/// The index of the first adjacent pair `a`,`b` in `s`, or `s.len()` when
/// there is none.
pub open spec fn find2(s: Seq<char>, a: char, b: char) -> int
    decreases s.len(),
{
    if s.len() < 2 {
        s.len() as int
    } else if s[0] == a && s[1] == b {
        0
    } else {
        1 + find2(s.skip(1), a, b)
    }
}

pub proof fn lemma_find2(s: Seq<char>, a: char, b: char)
    ensures
        0 <= find2(s, a, b) <= s.len(),
        find2(s, a, b) < s.len() ==> find2(s, a, b) + 2 <= s.len() && s[find2(s, a, b)] == a
            && s[find2(s, a, b) + 1] == b,
        forall|j: int|
            0 <= j < find2(s, a, b) && j + 1 < s.len() ==> !((#[trigger] s[j]) == a && s[j + 1]
                == b),
    decreases s.len(),
{
    if s.len() >= 2 && !(s[0] == a && s[1] == b) {
        lemma_find2(s.skip(1), a, b);
        assert(forall|j: int|
            0 <= j < find2(s.skip(1), a, b) && j + 1 < s.skip(1).len() ==> !((#[trigger] s.skip(
                1,
            )[j]) == a && s.skip(1)[j + 1] == b));
        assert(forall|j: int| 1 <= j && j + 1 < s.len() ==> s[j] == s.skip(1)[j - 1]);
        assert(forall|j: int| 1 <= j < s.len() ==> s[j] == s.skip(1)[j - 1]);
    }
}

/// Whether `e` has the shape of a clock-offset expression, `now(` ... `)`.
pub open spec fn is_now_shape(e: Seq<char>) -> bool {
    e.len() >= 5 && e[0] == 'n' && e[1] == 'o' && e[2] == 'w' && e[3] == '(' && e[e.len() - 1]
        == ')'
}

/// Whether a single time expression is safe to hand to the external
/// parser: inside `now(...)`, the offset text (after an optional sign) is
/// not the lone letter `s`, on which that parser's unit scan panics; any
/// other shape is parsed as a fixed instant, which errors but never
/// panics.
pub open spec fn expr_text_safe(e: Seq<char>) -> bool {
    if is_now_shape(e) {
        let inner = e.subrange(4, e.len() - 1);
        inner.len() == 0 || ({
            let arg = if inner[0] == '-' {
                inner.skip(1)
            } else {
                inner
            };
            arg != seq!['s']
        })
    } else {
        true
    }
}

/// The number part of a duration text, with the trailing unit letter (or
/// `ms`) removed the way the external parser removes it.
pub open spec fn strip_unit(d: Seq<char>) -> Seq<char>
    recommends
        d.len() >= 1,
{
    let last = d[d.len() - 1];
    if last == 'u' || last == 'm' || last == 'h' || last == 'd' || last == 'w' {
        d.drop_last()
    } else if last == 's' {
        if d.len() >= 2 && d[d.len() - 2] == 'm' {
            d.take(d.len() - 2)
        } else {
            d.drop_last()
        }
    } else {
        d
    }
}

/// Whether a duration's number text can only read as a bounded
/// non-negative value: digits and dots alone (no sign, exponent or word
/// forms), with at most thirteen digits before the first dot. Such text
/// either fails to parse as a number (an error, not a panic) or yields a
/// value below 10^13 + 1 seconds-per-unit — at most about 6.05e18 seconds
/// after the largest unit multiplier (a week), inside what
/// `Duration::from_secs_f64` and a sum with a four-digit-year instant can
/// hold.
pub open spec fn num_shape_bounded(num: Seq<char>) -> bool {
    (forall|i: int|
        0 <= i < num.len() ==> (48 <= (#[trigger] num[i]) as u32 && (num[i] as u32) <= 57)
            || num[i] == '.') && find(num, '.') <= 13
}

/// Whether a duration text is safe to combine with a fixed start instant.
pub open spec fn duration_bounded_shape(d: Seq<char>) -> bool {
    d.len() == 0 || num_shape_bounded(strip_unit(d))
}

/// Whether a time-range text is safe to hand to the external parser: on
/// every admitted text the parser returns normally (accepting or
/// rejecting); the excluded texts would drive it into a panic. The
/// structure mirrors the parser: brackets, then a split on the first `..`,
/// else on the first `;` into a start expression and a duration that is
/// added to a fixed start.
pub open spec fn time_range_text_safe(s: Seq<char>) -> bool {
    if s.len() < 4 {
        true
    } else if s[0] != '[' && s[0] != ']' {
        true
    } else if s[s.len() - 1] != '[' && s[s.len() - 1] != ']' {
        true
    } else {
        let body = s.subrange(1, s.len() - 1);
        let i = find2(body, '.', '.');
        if i < body.len() {
            expr_text_safe(body.take(i)) && expr_text_safe(body.skip(i + 2))
        } else {
            let j = find(body, ';');
            if j == body.len() {
                true
            } else {
                let start = body.take(j);
                let dur = body.skip(j + 1);
                expr_text_safe(start) && dur != seq!['s'] && (start.len() == 0 || is_now_shape(
                    start,
                ) || duration_bounded_shape(dur))
            }
        }
    }
}

/// The index of the first `..`, or the length when there is none.
fn find_dotdot(s: &str) -> (r: usize)
    ensures
        r == find2(s@, '.', '.'),
{
    let n = s.unicode_len();
    proof {
        lemma_find2(s@, '.', '.');
    }
    if n < 2 {
        return n;
    }
    let mut i: usize = 0;
    while i + 1 < n
        invariant
            n == s@.len(),
            n >= 2,
            i < n,
            forall|j: int| 0 <= j < i ==> !((#[trigger] s@[j]) == '.' && s@[j + 1] == '.'),
            0 <= find2(s@, '.', '.') <= s@.len(),
            find2(s@, '.', '.') < s@.len() ==> find2(s@, '.', '.') + 2 <= s@.len() && s@[find2(
                s@,
                '.',
                '.',
            )] == '.' && s@[find2(s@, '.', '.') + 1] == '.',
            forall|j: int|
                0 <= j < find2(s@, '.', '.') && j + 1 < s@.len() ==> !((#[trigger] s@[j]) == '.'
                    && s@[j + 1] == '.'),
        decreases n - i,
    {
        if s.get_char(i) == '.' && s.get_char(i + 1) == '.' {
            return i;
        }
        i = i + 1;
    }
    n
}

/// Whether `e` has the shape of a clock-offset expression.
fn is_now_shape_exec(e: &str) -> (r: bool)
    ensures
        r == is_now_shape(e@),
{
    let n = e.unicode_len();
    n >= 5 && e.get_char(0) == 'n' && e.get_char(1) == 'o' && e.get_char(2) == 'w'
        && e.get_char(3) == '(' && e.get_char(n - 1) == ')'
}

/// Whether a single time expression is safe to hand to the external
/// parser.
fn expr_text_safe_exec(e: &str) -> (r: bool)
    ensures
        r == expr_text_safe(e@),
{
    let n = e.unicode_len();
    if !is_now_shape_exec(e) {
        return true;
    }
    let ghost inner = e@.subrange(4, n as int - 1);
    if n == 5 {
        return true;
    }
    let first = e.get_char(4);
    proof {
        assert(inner[0] == e@[4]);
    }
    if first == '-' {
        let is_s = n == 7 && e.get_char(5) == 's';
        proof {
            let arg = inner.skip(1);
            assert(arg =~= e@.subrange(5, n as int - 1));
            if n == 7 && e@[5] == 's' {
                assert(arg =~= seq!['s']);
            }
            if arg == seq!['s'] {
                assert(arg.len() == 1 && arg[0] == 's');
            }
        }
        !is_s
    } else {
        let is_s = n == 6 && first == 's';
        proof {
            if n == 6 && e@[4] == 's' {
                assert(inner =~= seq!['s']);
            }
            if inner == seq!['s'] {
                assert(inner.len() == 1 && inner[0] == 's');
            }
        }
        !is_s
    }
}

/// Whether a duration text is safe to combine with a fixed start instant.
fn duration_bounded_shape_exec(d: &str) -> (r: bool)
    ensures
        r == duration_bounded_shape(d@),
{
    let n = d.unicode_len();
    if n == 0 {
        return true;
    }
    let last = d.get_char(n - 1);
    let m: usize = if last == 'u' || last == 'm' || last == 'h' || last == 'd' || last == 'w' {
        n - 1
    } else if last == 's' {
        if n >= 2 && d.get_char(n - 2) == 'm' {
            n - 2
        } else {
            n - 1
        }
    } else {
        n
    };
    let ghost num = strip_unit(d@);
    proof {
        assert(d@.drop_last() =~= d@.take(n as int - 1));
        assert(d@ =~= d@.take(n as int));
        assert(num == d@.take(m as int));
    }
    let mut i: usize = 0;
    let mut fd: usize = m;
    let mut ok = true;
    while i < m
        invariant
            m <= n,
            n == d@.len(),
            i <= m,
            num == d@.take(m as int),
            ok == (forall|k: int|
                0 <= k < i ==> (48 <= (#[trigger] num[k]) as u32 && (num[k] as u32) <= 57)
                    || num[k] == '.'),
            (fd == m && (forall|k: int| 0 <= k < i ==> num[k] != '.')) || (fd < i && num[fd as int]
                == '.' && (forall|k: int| 0 <= k < fd ==> num[k] != '.')),
        decreases m - i,
    {
        let c = d.get_char(i);
        proof {
            assert(num[i as int] == d@[i as int]);
        }
        let u = c as u32;
        let dig = 48 <= u && u <= 57;
        if !dig && c != '.' {
            ok = false;
        }
        if c == '.' && fd == m {
            fd = i;
        }
        i = i + 1;
    }
    proof {
        lemma_find(num, '.');
        if fd == m {
            if find(num, '.') < num.len() {
                assert(num[find(num, '.')] == '.');
                assert(false);
            }
        } else {
            if find(num, '.') < fd {
                assert(num[find(num, '.')] == '.');
                assert(false);
            }
            if find(num, '.') > fd {
                assert(num[fd as int] != '.');
                assert(false);
            }
        }
    }
    ok && fd <= 13
}

/// Whether a time-range text is safe to hand to the external parser.
fn time_range_text_safe_exec(s: &str) -> (r: bool)
    ensures
        r == time_range_text_safe(s@),
{
    let n = s.unicode_len();
    if n < 4 {
        return true;
    }
    let c0 = s.get_char(0);
    if c0 != '[' && c0 != ']' {
        return true;
    }
    let cl = s.get_char(n - 1);
    if cl != '[' && cl != ']' {
        return true;
    }
    let body = s.substring_char(1, n - 1);
    proof {
        assert(body@ =~= s@.subrange(1, n as int - 1));
    }
    let bn = body.unicode_len();
    let i = find_dotdot(body);
    proof {
        lemma_find2(body@, '.', '.');
    }
    if i < bn {
        let start = body.substring_char(0, i);
        let end = body.substring_char(i + 2, bn);
        proof {
            assert(start@ =~= body@.take(i as int));
            assert(end@ =~= body@.skip(i as int + 2));
        }
        let sa = expr_text_safe_exec(start);
        let sb = expr_text_safe_exec(end);
        sa && sb
    } else {
        let j = crate::params::find_char(body, ';');
        proof {
            lemma_find(body@, ';');
        }
        if j == bn {
            true
        } else {
            let start = body.substring_char(0, j);
            let dur = body.substring_char(j + 1, bn);
            proof {
                assert(start@ =~= body@.take(j as int));
                assert(dur@ =~= body@.skip(j as int + 1));
            }
            if !expr_text_safe_exec(start) {
                return false;
            }
            let dn = dur.unicode_len();
            let dur_is_s = dn == 1 && dur.get_char(0) == 's';
            proof {
                if dn == 1 && dur@[0] == 's' {
                    assert(dur@ =~= seq!['s']);
                }
                if dur@ == seq!['s'] {
                    assert(dur@.len() == 1 && dur@[0] == 's');
                }
            }
            if dur_is_s {
                return false;
            }
            if start.unicode_len() == 0 {
                return true;
            }
            if is_now_shape_exec(start) {
                return true;
            }
            duration_bounded_shape_exec(dur)
        }
    }
}

/// Relies on the external time-range parser (`TimeRange`'s `FromStr`): on
/// the admitted inputs it returns normally and accepts exactly the strings
/// of the time-range mini-language, a deterministic function of the text
/// alone. The precondition excludes the inputs on which that parser panics
/// instead of erring: an offset or duration written as the lone letter `s`
/// (its unit scan unwraps a second byte that is not there), and, in the
/// time-and-duration form whose start can read as a fixed instant,
/// duration text that could read as a negative or astronomically large
/// number (it is added to the instant through `Duration::from_secs_f64`,
/// which panics outside `[0, u64::MAX]` seconds).
#[verifier::external_body]
fn parse_time_range(s: &str) -> (r: Option<TimeRange>)
    requires
        time_range_text_safe(s@),
    ensures
        r is Some <==> time_range_accepted(s@),
{
    match s.parse::<TimeRange>() {
        Ok(t) => Some(t),
        Err(_) => None,
    }
}

/// Relies on `TimeRange`'s `Display`: formats a time range back into the
/// external mini-language, or yields nothing for a range holding a fixed
/// instant the formatter cannot render — it writes fixed instants through
/// an RFC 3339 writer that unwraps their distance from the epoch (a panic
/// for pre-epoch instants) and reports a formatting error from year 10000
/// on (253 402 300 800 seconds since the epoch), which `format!` turns
/// into a panic. Nothing is stated of the text.
#[verifier::external_body]
fn format_time_range(t: &TimeRange) -> Option<String> {
    let bound_formats = |b: &TimeBound<TimeExpr>| match b {
        TimeBound::Inclusive(TimeExpr::Fixed(ft)) | TimeBound::Exclusive(TimeExpr::Fixed(ft)) => {
            match ft.duration_since(std::time::SystemTime::UNIX_EPOCH) {
                Ok(d) => d.as_secs() < 253_402_300_800,
                Err(_) => false,
            }
        },
        _ => true,
    };
    if bound_formats(&t.0) && bound_formats(&t.1) {
        Some(format!("{}", t))
    } else {
        None
    }
}

#[verifier::external_type_specification]
#[verifier::external_body]
#[verifier::reject_recursive_types(T)]
pub struct ExTimeRange<T>(TimeRange<T>);

#[verifier::external_type_specification]
#[verifier::external_body]
pub struct ExTimeExpr(TimeExpr);

impl Parameters {
    /// Sets the reserved `_time` parameter to the formatted time range, or
    /// removes it; any previous `_time` entries are removed either way, so
    /// no duplicate is introduced. Fails, leaving the parameters unchanged,
    /// exactly when the range cannot be formatted: it holds a fixed
    /// instant before the Unix epoch or from year 10000 on, outside what
    /// the external formatter renders.
    pub fn set_time_range(&mut self, time_range: Option<TimeRange>) -> (r:
        Result<(), SelectorError>)
        ensures
            time_range is None ==> r is Ok && final(self)@ == remove_name(old(self)@, "_time"@),
            time_range is Some && r is Ok ==> final(self)@.len() > 0 && final(self)@
                == remove_name(old(self)@, "_time"@).push(("_time"@, final(self)@.last().1)),
            r is Err ==> time_range is Some && final(self)@ == old(self)@ && (r matches Err(e)
                && e == SelectorError::InvalidTimeRange),
    {
        match time_range {
            Some(tr) => match format_time_range(&tr) {
                Some(s) => {
                    self.insert("_time", s.as_str());
                    Ok(())
                },
                None => Err(SelectorError::InvalidTimeRange),
            },
            None => {
                self.remove("_time");
                Ok(())
            },
        }
    }

    /// Extracts the reserved `_time` parameter: the duplicate error when
    /// several `_time` entries exist, nothing when none does, the parsed
    /// time range when the single value is safe and accepted by the
    /// external grammar, and `InvalidTimeRange` otherwise — both when the
    /// grammar rejects the value and when the value is one of the texts
    /// that would drive the external parser into a panic (those are
    /// screened first and treated as invalid).
    pub fn time_range(&self) -> (r: Result<
        Option<TimeRange>,
        SelectorError,
    >)
        ensures
            count_name(self@, "_time"@) >= 2 ==> (r matches Err(e) && e
                == SelectorError::DuplicateParameter),
            count_name(self@, "_time"@) < 2 ==> match lookup_name(self@, "_time"@) {
                None => (r matches Ok(o) && o is None),
                Some(v) => (time_range_text_safe(v) && time_range_accepted(v) ==> (r matches Ok(o)
                    && o is Some)) && (!(time_range_text_safe(v) && time_range_accepted(v)) ==> (
                r matches Err(e) && e == SelectorError::InvalidTimeRange)),
            },
    {
        match self.get("_time") {
            Err(e) => Err(e),
            Ok(None) => Ok(None),
            Ok(Some(v)) => {
                if !time_range_text_safe_exec(v.as_str()) {
                    Err(SelectorError::InvalidTimeRange)
                } else {
                    match parse_time_range(v.as_str()) {
                        Some(t) => Ok(Some(t)),
                        None => Err(SelectorError::InvalidTimeRange),
                    }
                }
            },
        }
    }
}

} // verus!
