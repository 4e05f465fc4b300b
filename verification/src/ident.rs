//! Validated participant identities and the total order the stores use.
//!
//! An `Identity` is the opaque, already-validated form of a participant
//! address: the raw bytes the host's identity validator accepted. The member
//! roster is kept sorted by the lexicographic order on those bytes, so the
//! order relation and an executable three-way comparison live here.

use vstd::prelude::*;

verus! {

/// A validated participant address, held as its raw bytes.
#[derive(Debug)]
pub struct Identity {
    pub bytes: Vec<u8>,
}

impl View for Identity {
    type V = Seq<u8>;

    open spec fn view(&self) -> Seq<u8> {
        self.bytes@
    }
}

impl DeepView for Identity {
    type V = Seq<u8>;

    open spec fn deep_view(&self) -> Seq<u8> {
        self.bytes@
    }
}

impl Identity {
    /// Wraps address bytes the host's validator has accepted.
    pub fn new(bytes: Vec<u8>) -> (r: Identity)
        ensures
            r@ == bytes@,
    {
        Identity { bytes }
    }

    /// A fresh `Identity` holding the same address.
    pub fn duplicate(&self) -> (r: Identity)
        ensures
            r@ == self@,
    {
        let mut bytes: Vec<u8> = Vec::new();
        let mut i: usize = 0;
        while i < self.bytes.len()
            invariant
                i <= self.bytes.len(),
                bytes@ == self.bytes@.take(i as int),
            decreases self.bytes.len() - i,
        {
            bytes.push(self.bytes[i]);
            proof {
                assert(bytes@ =~= self.bytes@.take(i + 1));
            }
            i = i + 1;
        }
        proof {
            assert(bytes@ =~= self.bytes@);
        }
        Identity { bytes }
    }
}

/// Strict lexicographic order on address bytes: the order in which the
/// member roster is kept and listed.
pub open spec fn lex_lt(a: Seq<u8>, b: Seq<u8>) -> bool
    decreases a.len(),
{
    if b.len() == 0 {
        false
    } else if a.len() == 0 {
        true
    } else if a[0] < b[0] {
        true
    } else if a[0] > b[0] {
        false
    } else {
        lex_lt(a.drop_first(), b.drop_first())
    }
}

/// `lex_lt` never relates an address to itself.
pub proof fn lemma_lex_irreflexive(a: Seq<u8>)
    ensures
        !lex_lt(a, a),
    decreases a.len(),
{
    if a.len() > 0 {
        lemma_lex_irreflexive(a.drop_first());
    }
}

/// `lex_lt` is transitive.
pub proof fn lemma_lex_transitive(a: Seq<u8>, b: Seq<u8>, c: Seq<u8>)
    requires
        lex_lt(a, b),
        lex_lt(b, c),
    ensures
        lex_lt(a, c),
    decreases a.len(),
{
    if a.len() > 0 && b.len() > 0 && c.len() > 0 && a[0] == b[0] && b[0] == c[0] {
        lemma_lex_transitive(a.drop_first(), b.drop_first(), c.drop_first());
    }
}

/// `lex_lt` is total: two addresses are ordered one way, the other, or equal.
pub proof fn lemma_lex_total(a: Seq<u8>, b: Seq<u8>)
    ensures
        lex_lt(a, b) || lex_lt(b, a) || a == b,
    decreases a.len(),
{
    if a.len() > 0 && b.len() > 0 && a[0] == b[0] {
        lemma_lex_total(a.drop_first(), b.drop_first());
        if a.drop_first() == b.drop_first() {
            assert(a =~= seq![a[0]] + a.drop_first());
            assert(b =~= seq![b[0]] + b.drop_first());
            assert(a == b);
        }
    }
}

/// A strictly smaller address is neither equal nor greater.
pub proof fn lemma_lex_strict(a: Seq<u8>, b: Seq<u8>)
    requires
        lex_lt(a, b),
    ensures
        !lex_lt(b, a),
        a != b,
{
    lemma_lex_irreflexive(a);
    if lex_lt(b, a) {
        lemma_lex_transitive(a, b, a);
    }
}

/// Result of a three-way comparison of two addresses.
pub enum KeyOrder {
    Less,
    Equal,
    Greater,
}

fn lex_cmp_from(a: &Vec<u8>, b: &Vec<u8>, i: usize) -> (o: KeyOrder)
    requires
        i <= a.len(),
        i <= b.len(),
    ensures
        o is Less <==> lex_lt(a@.skip(i as int), b@.skip(i as int)),
        o is Equal <==> a@.skip(i as int) == b@.skip(i as int),
        o is Greater <==> lex_lt(b@.skip(i as int), a@.skip(i as int)),
    decreases a.len() - i,
{
    proof {
        if i < a.len() {
            assert(a@.skip(i as int)[0] == a@[i as int]);
            assert(a@.skip(i as int).drop_first() =~= a@.skip(i + 1));
        }
        if i < b.len() {
            assert(b@.skip(i as int)[0] == b@[i as int]);
            assert(b@.skip(i as int).drop_first() =~= b@.skip(i + 1));
        }
    }
    if i == b.len() {
        if i == a.len() {
            proof {
                assert(a@.skip(i as int) =~= b@.skip(i as int));
            }
            KeyOrder::Equal
        } else {
            KeyOrder::Greater
        }
    } else if i == a.len() {
        KeyOrder::Less
    } else if a[i] < b[i] {
        KeyOrder::Less
    } else if a[i] > b[i] {
        KeyOrder::Greater
    } else {
        let o = lex_cmp_from(a, b, i + 1);
        proof {
            if a@.skip(i + 1) == b@.skip(i + 1) {
                assert(a@.skip(i as int) =~= seq![a@[i as int]] + a@.skip(i + 1));
                assert(b@.skip(i as int) =~= seq![b@[i as int]] + b@.skip(i + 1));
                assert(a@.skip(i as int) == b@.skip(i as int));
            }
            if a@.skip(i as int) == b@.skip(i as int) {
                assert(a@.skip(i + 1) =~= a@.skip(i as int).drop_first());
            }
        }
        o
    }
}

/// Three-way comparison of two addresses under `lex_lt`.
pub fn identity_cmp(a: &Identity, b: &Identity) -> (o: KeyOrder)
    ensures
        o is Less <==> lex_lt(a@, b@),
        o is Equal <==> a@ == b@,
        o is Greater <==> lex_lt(b@, a@),
{
    proof {
        assert(a.bytes@.skip(0) =~= a@);
        assert(b.bytes@.skip(0) =~= b@);
    }
    lex_cmp_from(&a.bytes, &b.bytes, 0)
}

} // verus!
