//! Attachments: ordered lists of raw key/value byte pairs carried alongside
//! a message, stored in their wire encoding. `AttachmentBuilder` is the
//! growable pre-freeze accumulator; `Attachment` is the frozen, immutable
//! pair list; `AttachmentIterator` is a fresh read cursor over it.
//!
//! Duplicate keys are allowed and preserved, unlike selector parameters.

use crate::codec::{
    bytes_eq, copy_range, field_enc, lemma_append_pair, lemma_field_dec_shrinks,
    lemma_pairs_dec_prefix, lemma_pairs_round, lemma_wf_concat, pairs_dec, pairs_enc,
    read_field_bounds, wf_stream, write_field,
};
use vstd::prelude::*;

verus! {

/// Append-only accumulator of encoded pairs; freezes into an [`Attachment`]
/// without copying the already-written bytes.
#[derive(Debug)]
pub struct AttachmentBuilder {
    inner: Vec<u8>,
}

impl AttachmentBuilder {
    /// The encoded bytes accumulated so far.
    pub closed spec fn bytes(self) -> Seq<u8> {
        self.inner@
    }

    /// A builder always holds a well-formed stream: exactly the encoding of
    /// its pairs.
    pub open spec fn wf(self) -> bool {
        wf_stream(self.bytes())
    }

    /// Creates an empty builder.
    pub fn new() -> (r: Self)
        ensures
            r@ == Seq::<(Seq<u8>, Seq<u8>)>::empty(),
            r.wf(),
    {
        AttachmentBuilder { inner: Vec::new() }
    }

    /// Inserts a key-value pair. Pairs are not unique: inserting the same
    /// key twice keeps both pairs.
    pub fn insert(&mut self, key: &[u8], value: &[u8])
        requires
            old(self).wf(),
        ensures
            final(self)@ == old(self)@.push((key@, value@)),
            final(self).wf(),
    {
        write_field(&mut self.inner, key);
        write_field(&mut self.inner, value);
        proof {
            lemma_append_pair(old(self).bytes(), key@, value@);
        }
    }

    /// Freezes the accumulated pairs into an immutable attachment.
    pub fn build(self) -> (r: Attachment)
        requires
            self.wf(),
        ensures
            r@ == self@,
            r.bytes() == self.bytes(),
            r.wf(),
    {
        Attachment { inner: self.inner }
    }
}

impl View for AttachmentBuilder {
    type V = Seq<(Seq<u8>, Seq<u8>)>;

    /// The pair list accumulated so far.
    open spec fn view(&self) -> Seq<(Seq<u8>, Seq<u8>)> {
        pairs_dec(self.bytes())
    }
}

impl Default for AttachmentBuilder {
    /// An empty builder.
    fn default() -> (r: Self)
        ensures
            r@ == Seq::<(Seq<u8>, Seq<u8>)>::empty(),
            r.wf(),
    {
        AttachmentBuilder::new()
    }
}

/// A frozen, immutable, ordered list of raw key/value byte pairs, stored as
/// its wire encoding: two length-prefixed fields per pair, no count prefix.
#[derive(Debug, Clone)]
pub struct Attachment {
    inner: Vec<u8>,
}

impl View for Attachment {
    type V = Seq<(Seq<u8>, Seq<u8>)>;

    /// The pair list this attachment carries: the pairs read leniently from
    /// its bytes.
    open spec fn view(&self) -> Seq<(Seq<u8>, Seq<u8>)> {
        pairs_dec(self.bytes())
    }
}

/// The first value paired with `k`, if any.
pub open spec fn spec_get(ps: Seq<(Seq<u8>, Seq<u8>)>, k: Seq<u8>) -> Option<Seq<u8>>
    decreases ps.len(),
{
    if ps.len() == 0 {
        None
    } else if ps[0].0 == k {
        Some(ps[0].1)
    } else {
        spec_get(ps.skip(1), k)
    }
}

impl Attachment {
    /// The backing byte stream.
    pub closed spec fn bytes(self) -> Seq<u8> {
        self.inner@
    }

    /// Whether the byte stream is exactly the encoding of its pairs, with no
    /// trailing partial field. Attachments frozen from a builder are well
    /// formed; one taken from foreign bytes need not be.
    pub open spec fn wf(self) -> bool {
        wf_stream(self.bytes())
    }

    /// Creates an empty attachment.
    pub fn new() -> (r: Self)
        ensures
            r@ == Seq::<(Seq<u8>, Seq<u8>)>::empty(),
            r.bytes() == Seq::<u8>::empty(),
            r.wf(),
    {
        Attachment { inner: Vec::new() }
    }

    /// Wraps received bytes without validating them; decoding is lenient, a
    /// trailing partial field ends the pair list.
    pub fn from_bytes(bytes: Vec<u8>) -> (r: Self)
        ensures
            r.bytes() == bytes@,
            r@ == pairs_dec(bytes@),
    {
        Attachment { inner: bytes }
    }

    /// The raw encoded bytes, as sent on the wire.
    pub fn as_encoded_bytes(&self) -> (r: &[u8])
        ensures
            r@ == self.bytes(),
    {
        self.inner.as_slice()
    }

    /// Whether the attachment holds no complete pair.
    pub fn is_empty(&self) -> (r: bool)
        ensures
            r == (self@.len() == 0),
    {
        self.len() == 0
    }

    /// The number of complete pairs, counted by a full scan.
    pub fn len(&self) -> (r: usize)
        ensures
            r == self@.len(),
    {
        proof {
            assert(self.bytes().skip(0) =~= self.bytes());
        }
        let mut pos: usize = 0;
        let mut count: usize = 0;
        loop
            invariant
                pos <= self.bytes().len(),
                2 * count <= pos,
                self@.len() == count + pairs_dec(self.bytes().skip(pos as int)).len(),
            decreases self.bytes().len() - pos,
        {
            match read_field_bounds(self.inner.as_slice(), pos) {
                None => {
                    return count;
                },
                Some(kb) => {
                    match read_field_bounds(self.inner.as_slice(), kb.1) {
                        None => {
                            return count;
                        },
                        Some(vb) => {
                            proof {
                                lemma_field_dec_shrinks(self.bytes().skip(pos as int));
                                lemma_field_dec_shrinks(self.bytes().skip(kb.1 as int));
                            }
                            count = count + 1;
                            pos = vb.1;
                        },
                    }
                },
            }
        }
    }

    /// Opens a fresh read cursor over the pairs.
    pub fn iter(&self) -> (r: AttachmentIterator<'_>)
        ensures
            r.remaining() == self@,
            r.wf(),
    {
        proof {
            assert(self.bytes().skip(0) =~= self.bytes());
        }
        AttachmentIterator { buf: self.inner.as_slice(), pos: 0 }
    }

    /// The value of the first pair whose key equals `key`, found by linear
    /// scan, or nothing when no pair has that key.
    pub fn get(&self, key: &[u8]) -> (r: Option<Vec<u8>>)
        ensures
            match r {
                Some(v) => spec_get(self@, key@) == Some(v@),
                None => spec_get(self@, key@) is None,
            },
    {
        let mut it = self.iter();
        loop
            invariant
                it.wf(),
                spec_get(self@, key@) == spec_get(it.remaining(), key@),
            decreases it.remaining().len(),
        {
            match it.next() {
                None => {
                    return None;
                },
                Some(kv) => {
                    if bytes_eq(kv.0.as_slice(), key) {
                        return Some(kv.1);
                    }
                },
            }
        }
    }

    /// Appends a single pair. Pairs are not unique: inserting the same key
    /// twice keeps both pairs. For several inserts, accumulating in an
    /// [`AttachmentBuilder`] and extending is cheaper.
    pub fn insert(&mut self, key: &[u8], value: &[u8])
        ensures
            final(self).bytes() == old(self).bytes() + field_enc(key@) + field_enc(value@),
            old(self).wf() ==> final(self)@ == old(self)@.push((key@, value@)) && final(self).wf(),
    {
        write_field(&mut self.inner, key);
        write_field(&mut self.inner, value);
        proof {
            if old(self).wf() {
                lemma_append_pair(old(self).bytes(), key@, value@);
            }
        }
    }

    /// Appends all of `with`'s bytes, preserving pair order; on well-formed
    /// attachments this concatenates the pair lists.
    pub fn extend(&mut self, with: &Attachment)
        ensures
            final(self).bytes() == old(self).bytes() + with.bytes(),
            old(self).wf() && with.wf() ==> final(self)@ == old(self)@ + with@ && final(self).wf(),
    {
        let ghost pre = self.inner@;
        let mut j: usize = 0;
        while j < with.inner.len()
            invariant
                j <= with.bytes().len(),
                self.inner@ == pre + with.bytes().subrange(0, j as int),
                pre == old(self).bytes(),
            decreases with.bytes().len() - j,
        {
            self.inner.push(with.inner[j]);
            proof {
                assert(with.bytes().subrange(0, (j + 1) as int) =~= with.bytes().subrange(
                    0,
                    j as int,
                ).push(with.bytes()[j as int]));
            }
            j = j + 1;
        }
        proof {
            assert(with.bytes().subrange(0, with.bytes().len() as int) =~= with.bytes());
            if old(self).wf() && with.wf() {
                lemma_wf_concat(old(self).bytes(), with.bytes());
            }
        }
    }
}

impl Default for Attachment {
    /// An empty attachment.
    fn default() -> (r: Self)
        ensures
            r@ == Seq::<(Seq<u8>, Seq<u8>)>::empty(),
            r.wf(),
    {
        Attachment::new()
    }
}

/// A lazy, restartable read cursor over an attachment's pairs.
pub struct AttachmentIterator<'a> {
    buf: &'a [u8],
    pos: usize,
}

impl<'a> AttachmentIterator<'a> {
    /// The pairs not yet yielded.
    pub closed spec fn remaining(self) -> Seq<(Seq<u8>, Seq<u8>)> {
        pairs_dec(self.buf@.skip(self.pos as int))
    }

    /// The cursor stays inside its buffer.
    pub closed spec fn wf(self) -> bool {
        self.pos <= self.buf@.len()
    }

    /// Yields the next complete pair, or nothing once the stream holds no
    /// further complete pair (a trailing partial field ends the iteration,
    /// it is not an error).
    pub fn next(&mut self) -> (r: Option<(Vec<u8>, Vec<u8>)>)
        requires
            old(self).wf(),
        ensures
            final(self).wf(),
            match r {
                Some(kv) => old(self).remaining().len() > 0 && kv.0@ == old(self).remaining()[0].0 && kv.1@ == old(self).remaining()[0].1 && final(self).remaining() == old(self).remaining().skip(1),
                None => old(self).remaining().len() == 0 && final(self).remaining() == old(self).remaining(),
            },
    {
        match read_field_bounds(self.buf, self.pos) {
            None => None,
            Some(kb) => {
                match read_field_bounds(self.buf, kb.1) {
                    None => None,
                    Some(vb) => {
                        let k = copy_range(self.buf, kb.0, kb.1);
                        let v = copy_range(self.buf, vb.0, vb.1);
                        proof {
                            assert(old(self).remaining().skip(1) =~= pairs_dec(
                                self.buf@.skip(vb.1 as int),
                            ));
                        }
                        self.pos = vb.1;
                        Some((k, v))
                    },
                }
            },
        }
    }
}

/// Extending `a` with `b` and then with `c` yields the same logical pair
/// sequence as a single attachment built from a's, b's and c's pairs in
/// order, provided `a` and `b` are well formed (their streams end on a pair
/// boundary).
pub proof fn lemma_extend_associative(a: Attachment, b: Attachment, c: Attachment)
    requires
        a.wf(),
        b.wf(),
    ensures
        pairs_dec(a.bytes() + b.bytes() + c.bytes()) == a@ + b@ + c@,
        pairs_dec(pairs_enc(a@ + b@ + c@)) == a@ + b@ + c@,
{
    lemma_wf_concat(a.bytes(), b.bytes());
    lemma_pairs_dec_prefix(pairs_dec(a.bytes() + b.bytes()), c.bytes());
    assert(pairs_enc(pairs_dec(a.bytes() + b.bytes())) + c.bytes() =~= a.bytes() + b.bytes()
        + c.bytes());
    assert((a@ + b@) + (c@) =~= a@ + b@ + c@);
    lemma_pairs_round(a@ + b@ + c@);
}


/// Whether every byte is ASCII.
pub open spec fn all_ascii(b: Seq<u8>) -> bool {
    forall|i: int| 0 <= i < b.len() ==> (#[trigger] b[i]) < 128
}

/// The upper-case hexadecimal digit for `n`.
pub open spec fn hex_upper(n: u8) -> char
    recommends
        n < 16,
{
    if n < 10 {
        ((48 + n) as u8) as char
    } else {
        ((55 + n) as u8) as char
    }
}

/// Bytes as upper-case hexadecimal text, two digits each.
pub open spec fn hex_text(b: Seq<u8>) -> Seq<char>
    decreases b.len(),
{
    if b.len() == 0 {
        Seq::empty()
    } else {
        seq![hex_upper(b[0] / 16), hex_upper(b[0] % 16)] + hex_text(b.skip(1))
    }
}

proof fn lemma_hex_text_push(b: Seq<u8>, x: u8)
    ensures
        hex_text(b.push(x)) == hex_text(b) + seq![hex_upper(x / 16), hex_upper(x % 16)],
    decreases b.len(),
{
    if b.len() == 0 {
        assert(b.push(x) =~= seq![x]);
        assert(seq![x].skip(1) =~= Seq::<u8>::empty());
        assert(hex_text(seq![x].skip(1)).len() == 0);
        assert(seq![hex_upper(x / 16), hex_upper(x % 16)] + hex_text(seq![x].skip(1))
            =~= seq![hex_upper(x / 16), hex_upper(x % 16)]);
        assert(hex_text(b) + seq![hex_upper(x / 16), hex_upper(x % 16)] =~= seq![
            hex_upper(x / 16),
            hex_upper(x % 16),
        ]);
    } else {
        lemma_hex_text_push(b.skip(1), x);
        assert(b.push(x).skip(1) =~= b.skip(1).push(x));
        assert(b.push(x)[0] == b[0]);
        assert(seq![hex_upper(b[0] / 16), hex_upper(b[0] % 16)] + (hex_text(b.skip(1)) + seq![
            hex_upper(x / 16),
            hex_upper(x % 16),
        ]) =~= (seq![hex_upper(b[0] / 16), hex_upper(b[0] % 16)] + hex_text(b.skip(1))) + seq![
            hex_upper(x / 16),
            hex_upper(x % 16),
        ]);
    }
}

/// ASCII bytes as the characters they stand for.
pub open spec fn ascii_text(b: Seq<u8>) -> Seq<char> {
    Seq::new(b.len(), |i: int| b[i] as char)
}

/// The rendering of one byte string: quoted text when all bytes are ASCII,
/// otherwise `0x` and upper-case hexadecimal.
pub open spec fn bytes_repr(b: Seq<u8>) -> Seq<char> {
    if all_ascii(b) {
        seq!['"'] + ascii_text(b) + seq!['"']
    } else {
        seq!['0', 'x'] + hex_text(b)
    }
}

/// The rendering of a pair list: each key, `: `, its value, `, `.
pub open spec fn entries_repr(ps: Seq<(Seq<u8>, Seq<u8>)>) -> Seq<char>
    decreases ps.len(),
{
    if ps.len() == 0 {
        Seq::empty()
    } else {
        bytes_repr(ps[0].0) + seq![':', ' '] + bytes_repr(ps[0].1) + seq![',', ' ']
            + entries_repr(ps.skip(1))
    }
}

/// The rendering of an attachment: its pairs between braces.
pub open spec fn attachment_repr(ps: Seq<(Seq<u8>, Seq<u8>)>) -> Seq<char> {
    seq!['{'] + entries_repr(ps) + seq!['}']
}

fn is_all_ascii(b: &Vec<u8>) -> (r: bool)
    ensures
        r == all_ascii(b@),
{
    let mut j: usize = 0;
    while j < b.len()
        invariant
            j <= b@.len(),
            forall|k: int| 0 <= k < j ==> (#[trigger] b@[k]) < 128,
        decreases b@.len() - j,
    {
        if b[j] >= 128 {
            return false;
        }
        j = j + 1;
    }
    true
}

/// Appends the rendering of one byte string.
fn render_bytes(out: &mut String, b: &Vec<u8>)
    ensures
        final(out)@ == old(out)@ + bytes_repr(b@),
{
    if is_all_ascii(b) {
        crate::params::push_char(out, '"');
        let ghost mid = out@;
        let mut i: usize = 0;
        proof {
            assert(ascii_text(b@.take(0)) =~= Seq::<char>::empty());
            assert(mid + ascii_text(b@.take(0)) =~= mid);
        }
        while i < b.len()
            invariant
                i <= b@.len(),
                out@ == mid + ascii_text(b@.take(i as int)),
            decreases b@.len() - i,
        {
            let ghost pre = out@;
            crate::params::push_char(out, b[i] as char);
            proof {
                assert(ascii_text(b@.take(i as int + 1)) =~= ascii_text(b@.take(i as int)).push(
                    b@[i as int] as char,
                ));
                assert(out@ =~= mid + ascii_text(b@.take(i as int + 1)));
            }
            i = i + 1;
        }
        crate::params::push_char(out, '"');
        proof {
            assert(b@.take(b@.len() as int) =~= b@);
            assert(out@ =~= old(out)@ + (seq!['"'] + ascii_text(b@) + seq!['"']));
        }
    } else {
        crate::params::push_char(out, '0');
        crate::params::push_char(out, 'x');
        let ghost mid = out@;
        let mut i: usize = 0;
        proof {
            assert(hex_text(b@.take(0)) =~= Seq::<char>::empty());
            assert(mid + hex_text(b@.take(0)) =~= mid);
        }
        while i < b.len()
            invariant
                i <= b@.len(),
                out@ == mid + hex_text(b@.take(i as int)),
            decreases b@.len() - i,
        {
            let x = b[i];
            let hi: char = if x / 16 < 10 {
                (48 + x / 16) as char
            } else {
                (55 + x / 16) as char
            };
            let lo: char = if x % 16 < 10 {
                (48 + x % 16) as char
            } else {
                (55 + x % 16) as char
            };
            crate::params::push_char(out, hi);
            crate::params::push_char(out, lo);
            proof {
                lemma_hex_text_push(b@.take(i as int), x);
                assert(b@.take(i as int).push(x) =~= b@.take(i as int + 1));
                assert(out@ =~= mid + hex_text(b@.take(i as int + 1)));
            }
            i = i + 1;
        }
        proof {
            assert(b@.take(b@.len() as int) =~= b@);
            assert(out@ =~= old(out)@ + (seq!['0', 'x'] + hex_text(b@)));
        }
    }
}

impl Attachment {
    /// A human-readable rendering of the pairs, between braces: each key
    /// and value quoted when its bytes are ASCII, in upper-case
    /// hexadecimal with a `0x` prefix otherwise.
    pub fn to_debug_string(&self) -> (r: String)
        ensures
            r@ == attachment_repr(self@),
    {
        let mut out = String::new();
        crate::params::push_char(&mut out, '{');
        let mut it = self.iter();
        proof {
            assert(out@ =~= seq!['{']);
        }
        loop
            invariant
                it.wf(),
                out@ + entries_repr(it.remaining()) == seq!['{'] + entries_repr(self@),
            ensures
                it.remaining().len() == 0,
                out@ + entries_repr(it.remaining()) == seq!['{'] + entries_repr(self@),
            decreases it.remaining().len(),
        {
            let ghost rem = it.remaining();
            match it.next() {
                None => {
                    break;
                },
                Some(kv) => {
                    let ghost pre = out@;
                    render_bytes(&mut out, &kv.0);
                    crate::params::push_char(&mut out, ':');
                    crate::params::push_char(&mut out, ' ');
                    render_bytes(&mut out, &kv.1);
                    crate::params::push_char(&mut out, ',');
                    crate::params::push_char(&mut out, ' ');
                    proof {
                        assert(out@ =~= pre + (bytes_repr(rem[0].0) + seq![':', ' ']
                            + bytes_repr(rem[0].1) + seq![',', ' ']));
                        assert(entries_repr(rem) == bytes_repr(rem[0].0) + seq![':', ' ']
                            + bytes_repr(rem[0].1) + seq![',', ' '] + entries_repr(rem.skip(1)));
                        assert(out@ + entries_repr(it.remaining()) =~= pre + entries_repr(rem));
                    }
                },
            }
        }
        crate::params::push_char(&mut out, '}');
        proof {
            assert(entries_repr(it.remaining()).len() == 0);
            assert(out@ =~= attachment_repr(self@));
        }
        out
    }
}

impl AttachmentBuilder {
    /// Accumulates every pair of `pairs`, in order.
    pub fn from_pairs(pairs: &Vec<(Vec<u8>, Vec<u8>)>) -> (r: AttachmentBuilder)
        ensures
            r.wf(),
            r@.len() == pairs@.len(),
            forall|i: int|
                0 <= i < pairs@.len() ==> r@[i] == (pairs@[i].0@, pairs@[i].1@),
    {
        let mut b = AttachmentBuilder::new();
        let mut i: usize = 0;
        while i < pairs.len()
            invariant
                i <= pairs@.len(),
                b.wf(),
                b@.len() == i,
                forall|j: int| 0 <= j < i ==> b@[j] == (pairs@[j].0@, pairs@[j].1@),
            decreases pairs@.len() - i,
        {
            b.insert(pairs[i].0.as_slice(), pairs[i].1.as_slice());
            i = i + 1;
        }
        b
    }
}

} // verus!
