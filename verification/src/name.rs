//! Resource names: at most 16 raw bytes, stored on disk as a fixed
//! 16-byte field, zero-padded on the right.

use vstd::prelude::*;

verus! {

/// A resource name: a byte string of at most 16 bytes.
pub struct WadName {
    bytes: Vec<u8>,
}

impl View for WadName {
    type V = Seq<u8>;

    closed spec fn view(&self) -> Seq<u8> {
        self.bytes@
    }
}

/// Strict lexicographic order on raw name bytes; a proper prefix sorts
/// first. This is the archive's key order.
pub open spec fn lex_lt(a: Seq<u8>, b: Seq<u8>) -> bool
    decreases a.len(),
{
    if b.len() == 0 {
        false
    } else if a.len() == 0 {
        true
    } else if a[0] < b[0] {
        true
    } else if a[0] > b[0] {
        false
    } else {
        lex_lt(a.drop_first(), b.drop_first())
    }
}

/// The order is total: two byte strings are equal or one sorts first.
pub proof fn lemma_lex_total(a: Seq<u8>, b: Seq<u8>)
    ensures
        lex_lt(a, b) || lex_lt(b, a) || a == b,
    decreases a.len(),
{
    if a.len() == 0 && b.len() == 0 {
        assert(a =~= b);
    } else if a.len() > 0 && b.len() > 0 && a[0] == b[0] {
        lemma_lex_total(a.drop_first(), b.drop_first());
        if a.drop_first() == b.drop_first() {
            assert(a.len() == b.len());
            assert forall|k: int| 0 <= k < a.len() implies a[k] == b[k] by {
                if k > 0 {
                    assert(a.drop_first()[k - 1] == b.drop_first()[k - 1]);
                    assert(a.drop_first()[k - 1] == a[k]);
                    assert(b.drop_first()[k - 1] == b[k]);
                }
            }
            assert(a =~= b);
        }
    }
}

/// No byte string sorts before itself.
pub proof fn lemma_lex_irrefl(a: Seq<u8>)
    ensures
        !lex_lt(a, a),
    decreases a.len(),
{
    if a.len() > 0 {
        lemma_lex_irrefl(a.drop_first());
    }
}

/// The order is transitive.
pub proof fn lemma_lex_trans(a: Seq<u8>, b: Seq<u8>, c: Seq<u8>)
    requires
        lex_lt(a, b),
        lex_lt(b, c),
    ensures
        lex_lt(a, c),
    decreases a.len(),
{
    if c.len() == 0 || a.len() == 0 {
        // lex_lt(b, c) forces c nonempty; an empty a sorts before any
        // nonempty c.
    } else {
        // lex_lt(a, b) forces b nonempty and a[0] <= b[0]; likewise
        // b[0] <= c[0].
        if a[0] == c[0] {
            lemma_lex_trans(a.drop_first(), b.drop_first(), c.drop_first());
        }
    }
}

/// Whether `a` sorts strictly before `b` in raw byte order.
pub fn name_lt_bytes(a: &[u8], b: &[u8]) -> (r: bool)
    ensures
        r == lex_lt(a@, b@),
{
    proof {
        assert(a@.skip(0) =~= a@);
        assert(b@.skip(0) =~= b@);
    }
    let mut i: usize = 0;
    while i < a.len() && i < b.len()
        invariant
            i <= a@.len(),
            i <= b@.len(),
            lex_lt(a@, b@) == lex_lt(a@.skip(i as int), b@.skip(i as int)),
        decreases a@.len() - i,
    {
        if a[i] < b[i] {
            return true;
        }
        if a[i] > b[i] {
            return false;
        }
        i = i + 1;
        proof {
            assert(a@.skip(i - 1).drop_first() =~= a@.skip(i as int));
            assert(b@.skip(i - 1).drop_first() =~= b@.skip(i as int));
        }
    }
    a.len() < b.len()
}

/// Whether `a` and `b` hold the same bytes.
pub fn bytes_eq(a: &[u8], b: &[u8]) -> (r: bool)
    ensures
        r == (a@ == b@),
{
    if a.len() != b.len() {
        return false;
    }
    let mut i: usize = 0;
    while i < a.len()
        invariant
            a@.len() == b@.len(),
            i <= a@.len(),
            forall|j: int| 0 <= j < i ==> a@[j] == b@[j],
        decreases a@.len() - i,
    {
        if a[i] != b[i] {
            return false;
        }
        i = i + 1;
    }
    proof {
        assert(a@ =~= b@);
    }
    true
}

/// The fixed 16-byte on-disk form of a name: the name's bytes followed
/// by zero bytes up to length 16.
pub open spec fn name_field(n: Seq<u8>) -> Seq<u8>
    recommends
        n.len() <= 16,
{
    n + Seq::new((16 - n.len()) as nat, |i: int| 0u8)
}

impl WadName {
    /// A name is well formed when it fits the fixed on-disk field.
    pub open spec fn wf(&self) -> bool {
        self@.len() <= 16
    }

    pub fn new(bytes: Vec<u8>) -> (r: Self)
        requires
            bytes@.len() <= 16,
        ensures
            r@ == bytes@,
            r.wf(),
    {
        WadName { bytes }
    }

    pub fn as_bytes(&self) -> (r: &[u8])
        ensures
            r@ == self@,
    {
        self.bytes.as_slice()
    }

    pub fn len(&self) -> (r: usize)
        ensures
            r == self@.len(),
    {
        self.bytes.len()
    }

    /// Whether this name sorts strictly before `other` in key order.
    pub fn precedes(&self, other: &WadName) -> (r: bool)
        ensures
            r == lex_lt(self@, other@),
    {
        name_lt_bytes(self.bytes.as_slice(), other.bytes.as_slice())
    }

    /// Whether this name holds the same bytes as `other`.
    pub fn same_as(&self, other: &WadName) -> (r: bool)
        ensures
            r == (self@ == other@),
    {
        bytes_eq(self.bytes.as_slice(), other.bytes.as_slice())
    }
}

/// Appends the fixed 16-byte form of `name` to `out`.
pub fn write_name_field(out: &mut Vec<u8>, name: &WadName) -> (n: usize)
    requires
        name.wf(),
    ensures
        final(out)@ == old(out)@ + name_field(name@),
        n == 16,
{
    let start: usize = out.len();
    out.extend_from_slice(name.as_bytes());
    let mut pad: usize = name.bytes.len();
    while pad < 16
        invariant
            name.wf(),
            pad <= 16,
            name@.len() <= pad,
            out@.len() == start + pad,
            start == old(out)@.len(),
            out@ == old(out)@ + name@ + Seq::new((pad - name@.len()) as nat, |i: int| 0u8),
        decreases 16 - pad,
    {
        out.push(0u8);
        pad = pad + 1;
        proof {
            assert(out@ =~= old(out)@ + name@ + Seq::new((pad - name@.len()) as nat, |i: int| 0u8));
        }
    }
    proof {
        assert(out@ =~= old(out)@ + name_field(name@));
    }
    16
}

/// The on-disk name field holds the name's bytes verbatim, then zeros:
/// for a name of length `L <= 16`, the field is exactly 16 bytes, its
/// first `L` bytes are the name, and its remaining `16 - L` bytes are 0.
pub proof fn lemma_name_field_padding(n: Seq<u8>)
    requires
        n.len() <= 16,
    ensures
        name_field(n).len() == 16,
        forall|i: int| 0 <= i < n.len() ==> name_field(n)[i] == n[i],
        forall|i: int| n.len() <= i < 16 ==> name_field(n)[i] == 0u8,
{
}

} // verus!
