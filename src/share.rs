//! A share: one x-coordinate and the values of every byte polynomial there.
use vstd::prelude::*;

use crate::gf256::GF256;

verus! {

/// The bytes of a share: its x-coordinate followed by its y-values.
pub open spec fn share_encoding(x: u8, y: Seq<GF256>) -> Seq<u8> {
    seq![x] + y.map_values(|g: GF256| g.0)
}

/// The share that a byte buffer decodes to, if any: buffers shorter than two
/// bytes are rejected, since a share carries at least one y-value.
pub open spec fn share_decoding(bytes: Seq<u8>) -> Option<(u8, Seq<GF256>)> {
    if bytes.len() < 2 {
        None
    } else {
        Some((bytes[0], bytes.skip(1).map_values(|b: u8| GF256(b))))
    }
}

/// A share of a split secret.
#[derive(Clone, Debug)]
pub struct Share {
    /// The x-coordinate (evaluation point).
    pub x: GF256,
    /// The value of each byte polynomial at `x`.
    pub y: Vec<GF256>,
}

impl Share {
    pub fn new(x: GF256, y: Vec<GF256>) -> (r: Share)
        ensures
            r.x == x,
            r.y@ == y@,
    {
        Share { x, y }
    }

    pub fn x(&self) -> (r: GF256)
        ensures
            r == self.x,
    {
        self.x
    }

    pub fn y(&self) -> (r: &[GF256])
        ensures
            r@ == self.y@,
    {
        self.y.as_slice()
    }

    /// The encoded length: one byte for x and one per y-value.
    pub fn len(&self) -> (r: usize)
        requires
            self.y@.len() < usize::MAX,
        ensures
            r == self.y@.len() + 1,
    {
        self.y.len() + 1
    }

    /// Whether the share holds no y-values.
    pub fn is_empty(&self) -> (r: bool)
        ensures
            r == (self.y@.len() == 0),
    {
        self.y.len() == 0
    }

    /// Encodes the share as `[x, y_0, y_1, ...]`.
    pub fn to_bytes(&self) -> (r: Vec<u8>)
        ensures
            r@ == share_encoding(self.x.0, self.y@),
    {
        let mut bytes: Vec<u8> = Vec::new();
        bytes.push(self.x.0);
        let mut i: usize = 0;
        while i < self.y.len()
            invariant
                i <= self.y@.len(),
                bytes@ == share_encoding(self.x.0, self.y@.take(i as int)),
            decreases self.y@.len() - i,
        {
            bytes.push(self.y[i].0);
            i += 1;
            proof {
                assert(self.y@.take(i as int).map_values(|g: GF256| g.0) =~= self.y@.take(
                    (i - 1) as int,
                ).map_values(|g: GF256| g.0).push(self.y@[i - 1].0));
            }
        }
        proof {
            assert(self.y@.take(i as int) =~= self.y@);
        }
        bytes
    }

    /// Decodes a share from `[x, y_0, y_1, ...]`; fails on fewer than two bytes.
    pub fn from_bytes(bytes: &[u8]) -> (r: Result<Share, &'static str>)
        ensures
            match r {
                Ok(s) => share_decoding(bytes@) == Some((s.x.0, s.y@)),
                Err(_) => share_decoding(bytes@) is None,
            },
    {
        if bytes.len() < 2 {
            return Err("A Share must be at least 2 bytes long");
        }
        let x = GF256(bytes[0]);
        let mut y: Vec<GF256> = Vec::new();
        let mut i: usize = 1;
        while i < bytes.len()
            invariant
                1 <= i <= bytes@.len(),
                y@ == bytes@.subrange(1, i as int).map_values(|b: u8| GF256(b)),
            decreases bytes@.len() - i,
        {
            y.push(GF256(bytes[i]));
            i += 1;
            proof {
                assert(bytes@.subrange(1, i as int).map_values(|b: u8| GF256(b)) =~= bytes@.subrange(
                    1,
                    (i - 1) as int,
                ).map_values(|b: u8| GF256(b)).push(GF256(bytes@[i - 1])));
            }
        }
        proof {
            assert(bytes@.subrange(1, i as int) =~= bytes@.skip(1));
        }
        Ok(Share { x, y })
    }
}

impl PartialEq for Share {
    fn eq(&self, other: &Share) -> (r: bool) {
        if self.x.0 != other.x.0 || self.y.len() != other.y.len() {
            return false;
        }
        let mut i: usize = 0;
        while i < self.y.len()
            invariant
                i <= self.y@.len(),
                self.y@.len() == other.y@.len(),
                self.x == other.x,
                forall|k: int| 0 <= k < i ==> self.y@[k] == other.y@[k],
            decreases self.y@.len() - i,
        {
            if self.y[i].0 != other.y[i].0 {
                return false;
            }
            i += 1;
        }
        proof {
            assert(self.y@ =~= other.y@);
        }
        true
    }
}

impl vstd::std_specs::cmp::PartialEqSpecImpl for Share {
    open spec fn obeys_eq_spec() -> bool {
        true
    }

    open spec fn eq_spec(&self, other: &Share) -> bool {
        self.x == other.x && self.y@ == other.y@
    }
}

impl Eq for Share {

}

impl TryFrom<&[u8]> for Share {
    type Error = &'static str;

    fn try_from(bytes: &[u8]) -> (r: Result<Share, &'static str>)
        ensures
            match r {
                Ok(s) => share_decoding(bytes@) == Some((s.x.0, s.y@)),
                Err(_) => share_decoding(bytes@) is None,
            },
    {
        Share::from_bytes(bytes)
    }
}

/// The generic conversion contract would have to build a share, which holds a
/// vector, in a spec function; the `ensures` of `try_from` and `from` state
/// their results over the views instead.
impl vstd::std_specs::convert::TryFromSpecImpl<&[u8]> for Share {
    open spec fn obeys_try_from_spec() -> bool {
        false
    }

    open spec fn try_from_spec(bytes: &[u8]) -> Result<Share, &'static str> {
        arbitrary()
    }
}

impl From<&Share> for Vec<u8> {
    fn from(share: &Share) -> (r: Vec<u8>)
        ensures
            r@ == share_encoding(share.x.0, share.y@),
    {
        share.to_bytes()
    }
}

impl vstd::std_specs::convert::FromSpecImpl<&Share> for Vec<u8> {
    open spec fn obeys_from_spec() -> bool {
        false
    }

    open spec fn from_spec(share: &Share) -> Vec<u8> {
        arbitrary()
    }
}

/// Encoding a share and decoding the bytes gives the share back, for every
/// share that holds at least one y-value; and every buffer of two or more bytes
/// is the encoding of what it decodes to.
pub proof fn lemma_share_bytes_round_trip(x: u8, y: Seq<GF256>, bytes: Seq<u8>)
    ensures
        y.len() >= 1 ==> share_decoding(share_encoding(x, y)) == Some((x, y)),
        y.len() == 0 ==> share_decoding(share_encoding(x, y)) is None,
        bytes.len() >= 2 ==> share_encoding(
            share_decoding(bytes).unwrap().0,
            share_decoding(bytes).unwrap().1,
        ) == bytes,
{
    let e = share_encoding(x, y);
    if y.len() >= 1 {
        assert(e.skip(1).map_values(|b: u8| GF256(b)) =~= y);
    }
    if bytes.len() >= 2 {
        let d = share_decoding(bytes).unwrap();
        assert(share_encoding(d.0, d.1) =~= bytes);
    }
}

} // verus!
