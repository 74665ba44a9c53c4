//! Build compatibility descriptors for dynamically loaded plugins: an
//! immutable snapshot of the compiler version and of declared struct
//! layouts, compared structurally, field by field — never by identity or
//! by nominal type name alone.

use crate::params::{find, find_char, lemma_find, str_eq};
use vstd::prelude::*;

verus! {

/// Whether `s` is a non-empty string of decimal digits.
pub open spec fn dec_digits(s: Seq<char>) -> bool {
    s.len() > 0 && (forall|i: int|
        0 <= i < s.len() ==> 48 <= (#[trigger] s[i]) as u32 <= 57)
}

/// The value of a decimal digit string.
pub open spec fn dec_val(s: Seq<char>) -> nat
    recommends
        forall|i: int| 0 <= i < s.len() ==> 48 <= (#[trigger] s[i]) as u32 <= 57,
    decreases s.len(),
{
    if s.len() == 0 {
        0
    } else {
        (dec_val(s.drop_last()) * 10 + ((s.last() as u32) - 48)) as nat
    }
}

proof fn lemma_dec_val_monotone(s: Seq<char>, j: int)
    requires
        0 <= j <= s.len(),
        forall|i: int| 0 <= i < s.len() ==> 48 <= (#[trigger] s[i]) as u32 <= 57,
    ensures
        dec_val(s.take(j)) <= dec_val(s),
    decreases s.len() - j,
{
    if j == s.len() {
        assert(s.take(j) =~= s);
    } else {
        lemma_dec_val_monotone(s, j + 1);
        assert(s.take(j + 1).drop_last() =~= s.take(j));
        assert(s.take(j + 1).last() == s[j]);
        assert(dec_val(s.take(j + 1)) == dec_val(s.take(j)) * 10 + ((s[j] as u32) - 48));
    }
}

/// Parses a non-empty decimal digit string into a 64-bit value; fails on
/// any other character and on overflow.
pub fn parse_u64(s: &str) -> (r: Option<u64>)
    ensures
        match r {
            Some(v) => dec_digits(s@) && v == dec_val(s@),
            None => !dec_digits(s@) || dec_val(s@) > u64::MAX,
        },
{
    let n = s.unicode_len();
    if n == 0 {
        return None;
    }
    let mut val: u64 = 0;
    let mut i: usize = 0;
    proof {
        assert(s@.take(0) =~= Seq::<char>::empty());
    }
    while i < n
        invariant
            n == s@.len(),
            i <= n,
            forall|j: int| 0 <= j < i ==> 48 <= (#[trigger] s@[j]) as u32 <= 57,
            val == dec_val(s@.take(i as int)),
        decreases n - i,
    {
        let c = s.get_char(i);
        let u = c as u32;
        if !(48 <= u && u <= 57) {
            return None;
        }
        let d: u64 = (u - 48) as u64;
        proof {
            assert(s@.take(i as int + 1).drop_last() =~= s@.take(i as int));
            assert(s@.take(i as int + 1).last() == s@[i as int]);
        }
        if val > (u64::MAX - d) / 10 {
            proof {
                assert((u64::MAX - d) == 10 * ((u64::MAX - d) / 10) + (u64::MAX - d) % 10);
                assert(val * 10 + d > u64::MAX);
                assert(dec_val(s@.take(i as int + 1)) > u64::MAX);
                if dec_digits(s@) {
                    lemma_dec_val_monotone(s@, i as int + 1);
                }
            }
            return None;
        }
        proof {
            assert((u64::MAX - d) == 10 * ((u64::MAX - d) / 10) + (u64::MAX - d) % 10);
            assert(val * 10 + d <= u64::MAX);
        }
        val = val * 10 + d;
        i = i + 1;
    }
    proof {
        assert(s@.take(n as int) =~= s@);
    }
    Some(val)
}

/// The layout of one field of a struct: its name, offset and size.
#[derive(Debug, Clone)]
pub struct StructField {
    pub name: String,
    pub offset: usize,
    pub size: usize,
}

/// The layout of one struct: its name, size, alignment, and the ordered
/// layouts of its fields.
#[derive(Debug, Clone)]
pub struct StructLayout {
    pub name: String,
    pub size: usize,
    pub alignment: usize,
    pub fields_count: usize,
    pub fields: Vec<StructField>,
}

/// A compatibility descriptor: the compiler version it was built with, the
/// commit it was built from, and the declared struct layouts.
#[derive(Debug, Clone)]
pub struct Compatibility {
    pub major: u64,
    pub minor: u64,
    pub patch: u64,
    pub stable: bool,
    pub commit: String,
    pub structs: Vec<StructLayout>,
}

/// Structural equality of field layouts.
pub open spec fn sf_eq(a: StructField, b: StructField) -> bool {
    a.name@ == b.name@ && a.offset == b.offset && a.size == b.size
}

/// Structural equality of struct layouts: same name, size, alignment,
/// declared field count, and fields pairwise equal in order.
pub open spec fn sl_eq(a: StructLayout, b: StructLayout) -> bool {
    a.name@ == b.name@ && a.size == b.size && a.alignment == b.alignment && a.fields_count
        == b.fields_count && a.fields@.len() == b.fields@.len() && (forall|i: int|
        0 <= i < a.fields@.len() ==> sf_eq(#[trigger] a.fields@[i], b.fields@[i]))
}

/// Structural equality of whole descriptors.
pub open spec fn compat_eq(a: Compatibility, b: Compatibility) -> bool {
    a.major == b.major && a.minor == b.minor && a.patch == b.patch && a.stable == b.stable
        && a.commit@ == b.commit@ && a.structs@.len() == b.structs@.len() && (forall|i: int|
        0 <= i < a.structs@.len() ==> sl_eq(#[trigger] a.structs@[i], b.structs@[i]))
}

/// When two descriptors are compatible: for two stable builds the version
/// triple must match, otherwise the descriptors must be structurally equal;
/// and the declared struct layouts must match in count and pairwise.
pub open spec fn are_compatible_spec(a: Compatibility, b: Compatibility) -> bool {
    (if a.stable && b.stable {
        a.major == b.major && a.minor == b.minor && a.patch == b.patch
    } else {
        compat_eq(a, b)
    }) && a.structs@.len() == b.structs@.len() && (forall|i: int|
        0 <= i < a.structs@.len() ==> sl_eq(#[trigger] a.structs@[i], b.structs@[i]))
}

fn field_eq(a: &StructField, b: &StructField) -> (r: bool)
    ensures
        r == sf_eq(*a, *b),
{
    str_eq(a.name.as_str(), b.name.as_str()) && a.offset == b.offset && a.size == b.size
}

fn layout_eq(a: &StructLayout, b: &StructLayout) -> (r: bool)
    ensures
        r == sl_eq(*a, *b),
{
    if !(str_eq(a.name.as_str(), b.name.as_str()) && a.size == b.size && a.alignment
        == b.alignment && a.fields_count == b.fields_count && a.fields.len()
        == b.fields.len()) {
        return false;
    }
    let mut i: usize = 0;
    while i < a.fields.len()
        invariant
            i <= a.fields@.len(),
            a.fields@.len() == b.fields@.len(),
            forall|j: int| 0 <= j < i ==> sf_eq(#[trigger] a.fields@[j], b.fields@[j]),
        decreases a.fields@.len() - i,
    {
        if !field_eq(&a.fields[i], &b.fields[i]) {
            return false;
        }
        i = i + 1;
    }
    true
}

fn compat_full_eq(a: &Compatibility, b: &Compatibility) -> (r: bool)
    ensures
        r == compat_eq(*a, *b),
{
    if !(a.major == b.major && a.minor == b.minor && a.patch == b.patch && a.stable == b.stable
        && str_eq(a.commit.as_str(), b.commit.as_str()) && a.structs.len()
        == b.structs.len()) {
        return false;
    }
    let mut i: usize = 0;
    while i < a.structs.len()
        invariant
            i <= a.structs@.len(),
            a.structs@.len() == b.structs@.len(),
            forall|j: int| 0 <= j < i ==> sl_eq(#[trigger] a.structs@[j], b.structs@[j]),
        decreases a.structs@.len() - i,
    {
        if !layout_eq(&a.structs[i], &b.structs[i]) {
            return false;
        }
        i = i + 1;
    }
    true
}

/// How a compiler release string reads: `major.minor.patch` before any
/// `-`, each part decimal, parts past the third ignored; a `-` marks a
/// pre-release (not stable).
pub open spec fn version_spec(s: Seq<char>) -> Option<(u64, u64, u64, bool)> {
    let p = find(s, '-');
    let stable = p == s.len();
    let core = s.take(p);
    let d1 = find(core, '.');
    if d1 == core.len() {
        None
    } else {
        let p1 = core.take(d1);
        let rest1 = core.skip(d1 + 1);
        let d2 = find(rest1, '.');
        if d2 == rest1.len() {
            None
        } else {
            let p2 = rest1.take(d2);
            let rest2 = rest1.skip(d2 + 1);
            let d3 = find(rest2, '.');
            let p3 = rest2.take(d3);
            if dec_digits(p1) && dec_val(p1) <= u64::MAX && dec_digits(p2) && dec_val(p2)
                <= u64::MAX && dec_digits(p3) && dec_val(p3) <= u64::MAX {
                Some((dec_val(p1) as u64, dec_val(p2) as u64, dec_val(p3) as u64, stable))
            } else {
                None
            }
        }
    }
}

impl Compatibility {
    /// Builds a descriptor from a compiler release string (such as
    /// `1.70.0` or `1.72.0-nightly`) and a commit string, with no declared
    /// struct layouts; fails exactly when the version triple does not
    /// parse.
    pub fn new(release: &str, commit: &str) -> (r: Option<Compatibility>)
        ensures
            match r {
                Some(c) => version_spec(release@) == Some((c.major, c.minor, c.patch, c.stable))
                    && c.commit@ == commit@ && c.structs@.len() == 0,
                None => version_spec(release@) is None,
            },
    {
        let n = release.unicode_len();
        let p = find_char(release, '-');
        proof {
            lemma_find(release@, '-');
        }
        let stable = p == n;
        let core = release.substring_char(0, p);
        proof {
            assert(core@ =~= release@.take(p as int));
        }
        let cn = core.unicode_len();
        let d1 = find_char(core, '.');
        proof {
            lemma_find(core@, '.');
        }
        if d1 == cn {
            return None;
        }
        let p1 = core.substring_char(0, d1);
        let rest1 = core.substring_char(d1 + 1, cn);
        proof {
            assert(p1@ =~= core@.take(d1 as int));
            assert(rest1@ =~= core@.skip(d1 as int + 1));
        }
        let r1n = rest1.unicode_len();
        let d2 = find_char(rest1, '.');
        proof {
            lemma_find(rest1@, '.');
        }
        if d2 == r1n {
            return None;
        }
        let p2 = rest1.substring_char(0, d2);
        let rest2 = rest1.substring_char(d2 + 1, r1n);
        proof {
            assert(p2@ =~= rest1@.take(d2 as int));
            assert(rest2@ =~= rest1@.skip(d2 as int + 1));
        }
        let r2n = rest2.unicode_len();
        let d3 = find_char(rest2, '.');
        proof {
            lemma_find(rest2@, '.');
        }
        let p3 = rest2.substring_char(0, d3);
        proof {
            assert(p3@ =~= rest2@.take(d3 as int));
        }
        let major = match parse_u64(p1) {
            Some(v) => v,
            None => {
                return None;
            },
        };
        let minor = match parse_u64(p2) {
            Some(v) => v,
            None => {
                return None;
            },
        };
        let patch = match parse_u64(p3) {
            Some(v) => v,
            None => {
                return None;
            },
        };
        Some(
            Compatibility {
                major,
                minor,
                patch,
                stable,
                commit: commit.to_owned(),
                structs: Vec::new(),
            },
        )
    }

    /// Whether two descriptors are compatible: stable builds compare by
    /// version triple, any other pair must be structurally equal, and the
    /// declared struct layouts must match in count and field by field.
    pub fn are_compatible(a: &Self, b: &Self) -> (r: bool)
        ensures
            r == are_compatible_spec(*a, *b),
    {
        if a.stable && b.stable {
            if a.major != b.major || a.minor != b.minor || a.patch != b.patch {
                return false;
            }
        } else {
            if !compat_full_eq(a, b) {
                return false;
            }
        }
        if a.structs.len() != b.structs.len() {
            return false;
        }
        let mut i: usize = 0;
        while i < a.structs.len()
            invariant
                i <= a.structs@.len(),
                a.structs@.len() == b.structs@.len(),
                forall|j: int| 0 <= j < i ==> sl_eq(#[trigger] a.structs@[j], b.structs@[j]),
            decreases a.structs@.len() - i,
        {
            if !layout_eq(&a.structs[i], &b.structs[i]) {
                return false;
            }
            i = i + 1;
        }
        true
    }
}

} // verus!
