//! Token identifiers.

use vstd::prelude::*;

use crate::assoc::{bytes_eq, DeepEq};

verus! {

/// A token identifier: an unsigned integer of one of five widths, or a raw
/// byte sequence.  Identifiers of different variants are distinct even
/// when they carry the same number.
#[derive(Debug, PartialEq, Eq, PartialOrd, Ord)]
pub enum Id {
    U8(u8),
    U16(u16),
    U32(u32),
    U64(u64),
    U128(u128),
    Bytes(Vec<u8>),
}

/// The mathematical value of a token identifier.
pub enum IdView {
    U8(u8),
    U16(u16),
    U32(u32),
    U64(u64),
    U128(u128),
    Bytes(Seq<u8>),
}

impl View for Id {
    type V = IdView;

    open spec fn view(&self) -> IdView {
        match *self {
            Id::U8(v) => IdView::U8(v),
            Id::U16(v) => IdView::U16(v),
            Id::U32(v) => IdView::U32(v),
            Id::U64(v) => IdView::U64(v),
            Id::U128(v) => IdView::U128(v),
            Id::Bytes(ref v) => IdView::Bytes(v@),
        }
    }
}

impl DeepView for Id {
    type V = IdView;

    open spec fn deep_view(&self) -> IdView {
        self.view()
    }
}

impl Clone for Id {
    /// The clone stands for the same identifier.
    fn clone(&self) -> (r: Self)
        ensures
            r@ == self@,
    {
        match self {
            Id::U8(v) => Id::U8(*v),
            Id::U16(v) => Id::U16(*v),
            Id::U32(v) => Id::U32(*v),
            Id::U64(v) => Id::U64(*v),
            Id::U128(v) => Id::U128(*v),
            Id::Bytes(v) => {
                let w = clone_bytes(v);
                Id::Bytes(w)
            },
        }
    }
}

/// Copies a byte vector, element by element.
pub fn clone_bytes(v: &Vec<u8>) -> (r: Vec<u8>)
    ensures
        r@ == v@,
{
    let mut r: Vec<u8> = Vec::new();
    let mut i: usize = 0;
    while i < v.len()
        invariant
            0 <= i <= v@.len(),
            r@ == v@.subrange(0, i as int),
        decreases v@.len() - i,
    {
        r.push(v[i]);
        proof {
            assert(r@ =~= v@.subrange(0, i + 1));
        }
        i = i + 1;
    }
    proof {
        assert(r@ =~= v@);
    }
    r
}

impl DeepEq for Id {
    fn deep_eq(&self, other: &Self) -> (r: bool) {
        match (self, other) {
            (Id::U8(a), Id::U8(b)) => *a == *b,
            (Id::U16(a), Id::U16(b)) => *a == *b,
            (Id::U32(a), Id::U32(b)) => *a == *b,
            (Id::U64(a), Id::U64(b)) => *a == *b,
            (Id::U128(a), Id::U128(b)) => *a == *b,
            (Id::Bytes(a), Id::Bytes(b)) => bytes_eq(a, b),
            _ => false,
        }
    }
}

impl Default for Id {
    /// The default identifier, as ledger users expect it.
    fn default() -> (r: Self)
        ensures
            r@ == IdView::U128(0),
    {
        Id::U128(0)
    }
}


/// The big-endian numeric value of a byte sequence.
pub open spec fn be_bytes_value(s: Seq<u8>) -> nat
    decreases s.len(),
{
    if s.len() == 0 {
        0
    } else {
        (be_bytes_value(s.drop_last()) * 256 + s.last()) as nat
    }
}

/// The numeric value an identifier stands for: the number it carries, or
/// the big-endian value of its bytes.
pub open spec fn id_value(v: IdView) -> nat {
    match v {
        IdView::U8(x) => x as nat,
        IdView::U16(x) => x as nat,
        IdView::U32(x) => x as nat,
        IdView::U64(x) => x as nat,
        IdView::U128(x) => x as nat,
        IdView::Bytes(b) => be_bytes_value(b),
    }
}

/// One more than the largest value `n` bytes can carry.
pub open spec fn byte_cap(n: nat) -> nat
    decreases n,
{
    if n == 0 {
        1
    } else {
        256 * byte_cap((n - 1) as nat)
    }
}

/// A byte sequence's value lies below the cap of its length.
proof fn lemma_be_bytes_value_bound(s: Seq<u8>)
    ensures
        be_bytes_value(s) < byte_cap(s.len()),
    decreases s.len(),
{
    if s.len() > 0 {
        lemma_be_bytes_value_bound(s.drop_last());
    }
}

/// The cap grows with the length.
proof fn lemma_byte_cap_increases(a: nat, b: nat)
    requires
        a <= b,
    ensures
        byte_cap(a) <= byte_cap(b),
    decreases b,
{
    if a < b {
        lemma_byte_cap_increases(a, (b - 1) as nat);
        assert(byte_cap(b) == 256 * byte_cap((b - 1) as nat));
    }
}

/// The numeric value of an identifier, as a `u128`.  A byte identifier
/// is read as a big-endian number and must hold exactly sixteen bytes.
pub fn id_to_u128(id: &Id) -> (r: u128)
    requires
        id@ matches IdView::Bytes(b) ==> b.len() == 16,
    ensures
        r == id_value(id@),
{
    match id {
        Id::U8(v) => *v as u128,
        Id::U16(v) => *v as u128,
        Id::U32(v) => *v as u128,
        Id::U64(v) => *v as u128,
        Id::U128(v) => *v,
        Id::Bytes(b) => {
            let mut acc: u128 = 0;
            let mut i: usize = 0;
            proof {
                assert(b@.subrange(0, 0) =~= Seq::<u8>::empty());
            }
            while i < 16
                invariant
                    0 <= i <= 16,
                    b@.len() == 16,
                    acc == be_bytes_value(b@.subrange(0, i as int)),
                    acc < byte_cap(i as nat),
                decreases 16 - i,
            {
                proof {
                    reveal_with_fuel(byte_cap, 17);
                    assert(byte_cap(16) == 0x100000000000000000000000000000000);
                    assert(byte_cap((i + 1) as nat) == 256 * byte_cap(i as nat));
                    lemma_byte_cap_increases(i as nat + 1, 16);
                    assert(b@.subrange(0, i + 1).drop_last() =~= b@.subrange(0, i as int));
                    assert(b@.subrange(0, i + 1).last() == b@[i as int]);
                }
                acc = acc * 256 + (b[i] as u128);
                i = i + 1;
            }
            proof {
                assert(b@.subrange(0, 16) =~= b@);
            }
            acc
        },
    }
}

} // verus!
