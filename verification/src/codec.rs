//! The attachment wire format: each field is a length-prefixed byte string,
//! where the length is an unsigned variable-length integer (7 payload bits
//! per byte, high bit set on every byte but the last, little-endian
//! accumulation); an attachment stream is a flat concatenation of
//! key-field/value-field pairs with no count prefix.
//!
//! Decoding is lenient: a trailing partial field at the end of a stream ends
//! the pair list instead of failing.

use vstd::prelude::*;

verus! {

/// The variable-length encoding of an unsigned integer: 7 bits per byte,
/// least significant group first, high bit set on all bytes but the last.
pub open spec fn varint_enc(n: nat) -> Seq<u8>
    decreases n,
{
    if n < 128 {
        seq![n as u8]
    } else {
        seq![(128 + (n % 128)) as u8] + varint_enc(n / 128)
    }
}

/// Reads one variable-length integer from the front of `s`; yields the value
/// and the remaining bytes, or nothing when the stream ends mid-integer.
pub open spec fn varint_dec(s: Seq<u8>) -> Option<(nat, Seq<u8>)>
    decreases s.len(),
{
    if s.len() == 0 {
        None
    } else if s[0] < 128 {
        Some((s[0] as nat, s.skip(1)))
    } else {
        match varint_dec(s.skip(1)) {
            Some(p) => Some((((s[0] - 128) + 128 * p.0) as nat, p.1)),
            None => None,
        }
    }
}

/// A length-prefixed field: the variable-length byte count, then the bytes.
pub open spec fn field_enc(b: Seq<u8>) -> Seq<u8> {
    varint_enc(b.len()) + b
}

/// Reads one length-prefixed field from the front of `s`; yields the field
/// bytes and the remaining bytes, or nothing when the stream ends inside the
/// length or inside the announced bytes.
pub open spec fn field_dec(s: Seq<u8>) -> Option<(Seq<u8>, Seq<u8>)> {
    match varint_dec(s) {
        Some(p) => if p.0 <= p.1.len() {
            Some((p.1.take(p.0 as int), p.1.skip(p.0 as int)))
        } else {
            None
        },
        None => None,
    }
}

pub proof fn lemma_varint_dec_shrinks(s: Seq<u8>)
    ensures
        varint_dec(s) matches Some(p) ==> p.1.len() < s.len(),
    decreases s.len(),
{
    if s.len() > 0 && s[0] >= 128 {
        lemma_varint_dec_shrinks(s.skip(1));
    }
}

pub proof fn lemma_field_dec_shrinks(s: Seq<u8>)
    ensures
        field_dec(s) matches Some(p) ==> p.1.len() < s.len(),
{
    lemma_varint_dec_shrinks(s);
}

pub proof fn lemma_varint_round(n: nat, rest: Seq<u8>)
    ensures
        varint_dec(varint_enc(n) + rest) == Some((n, rest)),
    decreases n,
{
    let s = varint_enc(n) + rest;
    if n < 128 {
        assert(s[0] == n as u8);
        assert(s.skip(1) =~= rest);
    } else {
        lemma_varint_round(n / 128, rest);
        assert(s.skip(1) =~= varint_enc(n / 128) + rest);
        assert(s[0] == (128 + (n % 128)) as u8);
        assert(n % 128 + 128 * (n / 128) == n) by (nonlinear_arith);
    }
}

pub proof fn lemma_field_round(b: Seq<u8>, rest: Seq<u8>)
    ensures
        field_dec(field_enc(b) + rest) == Some((b, rest)),
{
    lemma_varint_round(b.len(), b + rest);
    assert(field_enc(b) + rest =~= varint_enc(b.len()) + (b + rest));
    assert((b + rest).take(b.len() as int) =~= b);
    assert((b + rest).skip(b.len() as int) =~= rest);
}

/// The pairs encoded at the front of a byte stream: key field, value field,
/// repeated; a trailing partial field (or a key field whose value field is
/// incomplete) ends the list.
pub open spec fn pairs_dec(s: Seq<u8>) -> Seq<(Seq<u8>, Seq<u8>)>
    decreases s.len(),
    via pairs_dec_decreases
{
    match field_dec(s) {
        Some(kp) => match field_dec(kp.1) {
            Some(vp) => seq![(kp.0, vp.0)] + pairs_dec(vp.1),
            None => Seq::empty(),
        },
        None => Seq::empty(),
    }
}

#[via_fn]
proof fn pairs_dec_decreases(s: Seq<u8>) {
    lemma_field_dec_shrinks(s);
    if let Some(kp) = field_dec(s) {
        lemma_field_dec_shrinks(kp.1);
    }
}

/// The byte stream that carries a pair list: two length-prefixed fields per
/// pair, concatenated in order.
pub open spec fn pairs_enc(ps: Seq<(Seq<u8>, Seq<u8>)>) -> Seq<u8>
    decreases ps.len(),
{
    if ps.len() == 0 {
        Seq::empty()
    } else {
        field_enc(ps[0].0) + field_enc(ps[0].1) + pairs_enc(ps.skip(1))
    }
}

/// A stream is well formed when it is exactly the encoding of the pairs read
/// from it: no trailing partial field.
pub open spec fn wf_stream(s: Seq<u8>) -> bool {
    pairs_enc(pairs_dec(s)) == s
}

/// Decoding a pair list encoded in front of an arbitrary tail reads exactly
/// those pairs and then whatever the tail holds.
pub proof fn lemma_pairs_dec_prefix(ps: Seq<(Seq<u8>, Seq<u8>)>, t: Seq<u8>)
    ensures
        pairs_dec(pairs_enc(ps) + t) == ps + pairs_dec(t),
    decreases ps.len(),
{
    if ps.len() == 0 {
        assert(pairs_enc(ps) + t =~= t);
        assert(ps + pairs_dec(t) =~= pairs_dec(t));
    } else {
        let k = ps[0].0;
        let v = ps[0].1;
        let tail = pairs_enc(ps.skip(1)) + t;
        lemma_pairs_dec_prefix(ps.skip(1), t);
        lemma_field_round(k, field_enc(v) + tail);
        lemma_field_round(v, tail);
        assert(pairs_enc(ps) + t =~= field_enc(k) + (field_enc(v) + tail));
        assert(seq![(k, v)] + (ps.skip(1) + pairs_dec(t)) =~= ps + pairs_dec(t));
    }
}

/// Encode then decode is the identity on pair lists.
pub proof fn lemma_pairs_round(ps: Seq<(Seq<u8>, Seq<u8>)>)
    ensures
        pairs_dec(pairs_enc(ps)) == ps,
        wf_stream(pairs_enc(ps)),
{
    lemma_pairs_dec_prefix(ps, Seq::empty());
    assert(pairs_enc(ps) + Seq::<u8>::empty() =~= pairs_enc(ps));
    assert(ps + pairs_dec(Seq::<u8>::empty()) =~= ps);
}

/// Encoding distributes over concatenation of pair lists.
pub proof fn lemma_pairs_enc_concat(x: Seq<(Seq<u8>, Seq<u8>)>, y: Seq<(Seq<u8>, Seq<u8>)>)
    ensures
        pairs_enc(x + y) == pairs_enc(x) + pairs_enc(y),
    decreases x.len(),
{
    if x.len() == 0 {
        assert(x + y =~= y);
        assert(pairs_enc(x) + pairs_enc(y) =~= pairs_enc(y));
    } else {
        lemma_pairs_enc_concat(x.skip(1), y);
        assert((x + y).skip(1) =~= x.skip(1) + y);
        assert((x + y)[0] == x[0]);
        assert(field_enc(x[0].0) + field_enc(x[0].1) + (pairs_enc(x.skip(1)) + pairs_enc(y))
            =~= (field_enc(x[0].0) + field_enc(x[0].1) + pairs_enc(x.skip(1))) + pairs_enc(y));
    }
}

/// Concatenating two well-formed streams concatenates their pair lists.
pub proof fn lemma_wf_concat(a: Seq<u8>, b: Seq<u8>)
    requires
        wf_stream(a),
        wf_stream(b),
    ensures
        pairs_dec(a + b) == pairs_dec(a) + pairs_dec(b),
        wf_stream(a + b),
{
    lemma_pairs_dec_prefix(pairs_dec(a), b);
    assert(pairs_enc(pairs_dec(a)) + b =~= a + b);
    lemma_pairs_enc_concat(pairs_dec(a), pairs_dec(b));
}

/// Appending an encoded pair to a well-formed stream appends that pair to
/// the decoded list.
pub proof fn lemma_append_pair(s: Seq<u8>, k: Seq<u8>, v: Seq<u8>)
    requires
        wf_stream(s),
    ensures
        pairs_dec(s + field_enc(k) + field_enc(v)) == pairs_dec(s).push((k, v)),
        wf_stream(s + field_enc(k) + field_enc(v)),
{
    let pair = seq![(k, v)];
    assert(pair.skip(1) =~= Seq::<(Seq<u8>, Seq<u8>)>::empty());
    assert(pairs_enc(pair.skip(1)) == Seq::<u8>::empty());
    assert(pair[0] == (k, v));
    assert(field_enc(k) + field_enc(v) + Seq::<u8>::empty() =~= field_enc(k) + field_enc(v));
    assert(pairs_enc(pair) == field_enc(k) + field_enc(v));
    lemma_pairs_round(pair);
    lemma_wf_concat(s, field_enc(k) + field_enc(v));
    assert(s + field_enc(k) + field_enc(v) =~= s + (field_enc(k) + field_enc(v)));
    assert(pairs_dec(s) + pair =~= pairs_dec(s).push((k, v)));
}

/// A well-formed pair stream followed by a truncated trailing field decodes
/// to exactly the complete pairs: corrupt tails end the list, they do not
/// fail it.
pub proof fn lemma_lenient_decode(ps: Seq<(Seq<u8>, Seq<u8>)>, t: Seq<u8>)
    requires
        field_dec(t) is None || (field_dec(t) matches Some(kp) && field_dec(kp.1) is None),
    ensures
        pairs_dec(pairs_enc(ps) + t) == ps,
{
    lemma_pairs_dec_prefix(ps, t);
    assert(pairs_dec(t) =~= Seq::<(Seq<u8>, Seq<u8>)>::empty());
    assert(ps + Seq::<(Seq<u8>, Seq<u8>)>::empty() =~= ps);
}

/// Appends the variable-length encoding of `n` to `buf`.
pub(crate) fn write_varint(buf: &mut Vec<u8>, n: usize)
    ensures
        final(buf)@ == old(buf)@ + varint_enc(n as nat),
{
    let mut m: usize = n;
    while m >= 128
        invariant
            buf@ + varint_enc(m as nat) == old(buf)@ + varint_enc(n as nat),
        decreases m,
    {
        let b: u8 = (m % 128) as u8 + 128;
        let ghost pre = buf@;
        buf.push(b);
        proof {
            assert(varint_enc(m as nat) == seq![b] + varint_enc((m / 128) as nat));
            assert(buf@ + varint_enc((m / 128) as nat) =~= pre + varint_enc(m as nat));
        }
        m = m / 128;
    }
    let ghost pre = buf@;
    buf.push(m as u8);
    proof {
        assert(varint_enc(m as nat) =~= seq![m as u8]);
        assert(buf@ =~= pre + varint_enc(m as nat));
        assert(buf@ =~= old(buf)@ + varint_enc(n as nat));
    }
}

/// Appends the length-prefixed encoding of the field `b` to `buf`.
pub(crate) fn write_field(buf: &mut Vec<u8>, b: &[u8])
    ensures
        final(buf)@ == old(buf)@ + field_enc(b@),
{
    write_varint(buf, b.len());
    let ghost mid = buf@;
    let mut j: usize = 0;
    while j < b.len()
        invariant
            j <= b@.len(),
            buf@ == mid + b@.subrange(0, j as int),
            mid == old(buf)@ + varint_enc(b@.len()),
        decreases b@.len() - j,
    {
        let ghost pre = buf@;
        buf.push(b[j]);
        proof {
            assert(b@.subrange(0, (j + 1) as int) =~= b@.subrange(0, j as int).push(b@[j as int]));
            assert(buf@ =~= mid + b@.subrange(0, (j + 1) as int));
        }
        j = j + 1;
    }
    proof {
        assert(b@.subrange(0, b@.len() as int) =~= b@);
        assert(buf@ =~= old(buf)@ + field_enc(b@));
    }
}

/// Copies `buf[start..end]` into a fresh vector.
pub(crate) fn copy_range(buf: &[u8], start: usize, end: usize) -> (r: Vec<u8>)
    requires
        start <= end <= buf@.len(),
    ensures
        r@ == buf@.subrange(start as int, end as int),
{
    let mut v: Vec<u8> = Vec::new();
    let mut j: usize = start;
    while j < end
        invariant
            start <= j <= end <= buf@.len(),
            v@ == buf@.subrange(start as int, j as int),
        decreases end - j,
    {
        v.push(buf[j]);
        proof {
            assert(buf@.subrange(start as int, (j + 1) as int) =~= buf@.subrange(
                start as int,
                j as int,
            ).push(buf@[j as int]));
        }
        j = j + 1;
    }
    v
}

/// Whether two byte slices hold the same bytes.
pub(crate) fn bytes_eq(a: &[u8], b: &[u8]) -> (r: bool)
    ensures
        r == (a@ == b@),
{
    if a.len() != b.len() {
        return false;
    }
    let mut j: usize = 0;
    while j < a.len()
        invariant
            j <= a@.len(),
            a@.len() == b@.len(),
            forall|k: int| 0 <= k < j ==> a@[k] == b@[k],
        decreases a@.len() - j,
    {
        if a[j] != b[j] {
            return false;
        }
        j = j + 1;
    }
    proof {
        assert(a@ =~= b@);
    }
    true
}

/// Locates the next length-prefixed field of `buf` starting at `pos`:
/// returns the bounds of the field's bytes (their start, and the position
/// just past them), or nothing when the stream ends inside the length or
/// inside the announced bytes.
pub(crate) fn read_field_bounds(buf: &[u8], pos: usize) -> (r: Option<(usize, usize)>)
    requires
        pos <= buf@.len(),
    ensures
        match r {
            Some(se) => pos <= se.0 <= se.1 <= buf@.len() && field_dec(buf@.skip(pos as int))
                == Some(
                (buf@.subrange(se.0 as int, se.1 as int), buf@.skip(se.1 as int)),
            ),
            None => field_dec(buf@.skip(pos as int)) is None,
        },
{
    let ghost s0 = buf@.skip(pos as int);
    let mut i: usize = pos;
    let mut val: usize = 0;
    let mut mul: usize = 1;
    let mut mul_ok: bool = true;
    let mut of: bool = false;
    let ghost mut val_g: nat = 0;
    let ghost mut mul_g: nat = 1;

    loop
        invariant
            pos <= i <= buf@.len(),
            s0 == buf@.skip(pos as int),
            mul_ok ==> mul == mul_g,
            !mul_ok ==> mul_g > usize::MAX,
            !of ==> val == val_g,
            of ==> val_g > usize::MAX,
            mul_g >= 1,
            varint_dec(s0) == match varint_dec(buf@.skip(i as int)) {
                Some(p) => Some(((val_g + mul_g * p.0) as nat, p.1)),
                None => None::<(nat, Seq<u8>)>,
            },
        decreases buf@.len() - i,
    {
        if i >= buf.len() {
            proof {
                assert(buf@.skip(i as int).len() == 0);
            }
            return None;
        }
        let b = buf[i];
        let low: u8 = b & 127;
        proof {
            assert(b & 127 == b % 128) by (bit_vector);
        }
        let ghost old_val_g = val_g;
        proof {
            val_g = val_g + mul_g * (low as nat);
        }
        if low > 0 {
            if !mul_ok {
                proof {
                    assert(mul_g * (low as nat) >= mul_g) by (nonlinear_arith)
                        requires
                            low >= 1,
                            mul_g >= 1,
                    ;
                }
                of = true;
            } else {
                if mul > usize::MAX / (low as usize) {
                    proof {
                        assert(mul_g * (low as nat) > usize::MAX as nat) by (nonlinear_arith)
                            requires
                                mul_g > (usize::MAX as nat) / (low as nat),
                                low >= 1,
                        ;
                    }
                    of = true;
                } else {
                    proof {
                        assert(mul_g * (low as nat) <= usize::MAX as nat) by (nonlinear_arith)
                            requires
                                mul_g <= (usize::MAX as nat) / (low as nat),
                                low >= 1,
                        ;
                        assert((low as usize) * mul == mul_g * (low as nat)) by (nonlinear_arith)
                            requires
                                mul == mul_g,
                        ;
                    }
                    let c: usize = (low as usize) * mul;
                    if val > usize::MAX - c {
                        of = true;
                    } else if !of {
                        val = val + c;
                    }
                }
            }
        } else {
            proof {
                assert(mul_g * (low as nat) == 0) by (nonlinear_arith)
                    requires
                        low == 0,
                ;
            }
        }
        let ghost old_mul_g = mul_g;
        proof {
            mul_g = mul_g * 128;
        }
        if mul_ok {
            if mul > usize::MAX / 128 {
                proof {
                    assert(old_mul_g * 128 > usize::MAX as nat) by (nonlinear_arith)
                        requires
                            old_mul_g > (usize::MAX as nat) / 128,
                    ;
                }
                mul_ok = false;
            } else {
                proof {
                    assert(old_mul_g * 128 <= usize::MAX as nat) by (nonlinear_arith)
                        requires
                            old_mul_g <= (usize::MAX as nat) / 128,
                    ;
                    assert(mul * 128 == old_mul_g * 128) by (nonlinear_arith)
                        requires
                            mul == old_mul_g,
                    ;
                }
                mul = mul * 128;
            }
        }
        proof {
            assert(buf@.skip(i as int).skip(1) =~= buf@.skip(i as int + 1));
            if b >= 128 {
                if let Some(p) = varint_dec(buf@.skip(i as int + 1)) {
                    assert(old_val_g + old_mul_g * ((low as nat) + 128 * p.0) == (old_val_g
                        + old_mul_g * (low as nat)) + (old_mul_g * 128) * p.0) by (nonlinear_arith);
                }
            }
        }
        i = i + 1;
        if b < 128 {
            // The final group: the integer is complete.
            proof {
                assert(varint_dec(buf@.skip(i as int - 1)) == Some((b as nat, buf@.skip(i as int))));
                assert(val_g == old_val_g + old_mul_g * (low as nat));
                assert(low == b);
                assert(varint_dec(s0) == Some((val_g, buf@.skip(i as int))));
            }
            if of {
                proof {
                    assert(buf@.skip(i as int).len() <= usize::MAX as nat);
                }
                return None;
            }
            let remaining = buf.len() - i;
            if val <= remaining {
                proof {
                    assert(buf@.skip(i as int).take(val as int) =~= buf@.subrange(
                        i as int,
                        i as int + val as int,
                    ));
                    assert(buf@.skip(i as int).skip(val as int) =~= buf@.skip(
                        i as int + val as int,
                    ));
                }
                return Some((i, i + val));
            } else {
                return None;
            }
        }
    }
}

} // verus!
