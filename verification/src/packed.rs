//! Packed field elements.
//!
//! The working field's scalars travel in groups of `WIDTH` lanes, the model
//! of the SIMD grouping used by the evaluation storage. A packed vector
//! shorter than the domain it stands for is padded, lane by lane, with a
//! designated suffix scalar.

use vstd::prelude::*;

verus! {

/// Base-two logarithm of the packing width.
pub const LOG_WIDTH: usize = 2;

/// Number of scalar lanes in one packed element.
pub const WIDTH: usize = 4;

/// One packed field element: `WIDTH` scalar lanes.
#[derive(Clone, Copy, Debug, PartialEq, Eq, Structural)]
pub struct PackedElem {
    pub l0: u16,
    pub l1: u16,
    pub l2: u16,
    pub l3: u16,
}

impl PackedElem {
    /// The lanes of this element, low lane first.
    pub open spec fn lanes(self) -> Seq<u16> {
        seq![self.l0, self.l1, self.l2, self.l3]
    }
}

/// Scalar at flat position `j` of a packed vector, `j < 4 * s.len()`.
pub open spec fn packed_get(s: Seq<PackedElem>, j: int) -> u16 {
    s[j / 4].lanes()[j % 4]
}

/// Scalar at flat position `j` of a packed vector padded with `suffix`
/// beyond its stored lanes.
pub open spec fn padded_get(s: Seq<PackedElem>, suffix: u16, j: int) -> u16 {
    if j < 4 * s.len() {
        packed_get(s, j)
    } else {
        suffix
    }
}

/// `scalars[j]`, or `pad` once `j` runs past the end.
pub open spec fn scalar_or(scalars: Seq<u16>, pad: u16, j: int) -> u16 {
    if 0 <= j < scalars.len() {
        scalars[j]
    } else {
        pad
    }
}

/// Read the scalar at flat position `j`.
pub fn packed_read(v: &Vec<PackedElem>, j: usize) -> (r: u16)
    requires
        j < 4 * v@.len(),
    ensures
        r == packed_get(v@, j as int),
{
    let p = v[j / 4];
    match j % 4 {
        0 => p.l0,
        1 => p.l1,
        2 => p.l2,
        _ => p.l3,
    }
}

/// Read the scalar at flat position `j` of the padded view.
pub fn padded_read(v: &Vec<PackedElem>, suffix: u16, j: usize) -> (r: u16)
    ensures
        r == padded_get(v@, suffix, j as int),
{
    if j / 4 < v.len() {
        packed_read(v, j)
    } else {
        suffix
    }
}

/// Pack a scalar vector into whole packed elements, padding the last one
/// with `pad`.
pub fn pack_scalars(scalars: &Vec<u16>, pad: u16) -> (r: Vec<PackedElem>)
    requires
        scalars@.len() + 4 < usize::MAX,
    ensures
        4 * r@.len() == 4 * ((scalars@.len() + 3) / 4),
        forall|j: int|
            0 <= j < 4 * r@.len() ==> packed_get(r@, j) == scalar_or(scalars@, pad, j),
{
    let n: usize = scalars.len();
    let n_packs: usize = n / 4 + if n % 4 == 0 { 0 } else { 1 };
    let mut out: Vec<PackedElem> = Vec::new();
    let mut i: usize = 0;
    while i < n_packs
        invariant
            i <= n_packs,
            n == scalars@.len(),
            n_packs == (n + 3) / 4,
            out@.len() == i,
            forall|j: int|
                0 <= j < 4 * i ==> packed_get(out@, j) == scalar_or(scalars@, pad, j),
        decreases n_packs - i,
    {
        let base: usize = i * 4;
        let p = PackedElem {
            l0: if base < n { scalars[base] } else { pad },
            l1: if base + 1 < n { scalars[base + 1] } else { pad },
            l2: if base + 2 < n { scalars[base + 2] } else { pad },
            l3: if base + 3 < n { scalars[base + 3] } else { pad },
        };
        let ghost prev = out@;
        out.push(p);
        proof {
            assert forall|j: int| 0 <= j < 4 * (i + 1) implies packed_get(out@, j)
                == scalar_or(scalars@, pad, j) by {
                assert(j == 4 * (j / 4) + j % 4);
                assert(0 <= j % 4 < 4);
                if j < 4 * i {
                    assert(j / 4 < i as int);
                    assert(out@[j / 4] == prev[j / 4]);
                    assert(packed_get(prev, j) == scalar_or(scalars@, pad, j));
                    assert(packed_get(out@, j) == packed_get(prev, j));
                } else {
                    assert(j / 4 == i as int);
                    assert(out@[j / 4] == p);
                    assert(j == 4 * (i as int) + j % 4);
                    if j % 4 == 0 {
                        assert(p.lanes()[j % 4] == p.l0);
                    } else if j % 4 == 1 {
                        assert(p.lanes()[j % 4] == p.l1);
                    } else if j % 4 == 2 {
                        assert(p.lanes()[j % 4] == p.l2);
                    } else {
                        assert(p.lanes()[j % 4] == p.l3);
                    }
                }
            }
        }
        i = i + 1;
    }
    out
}

} // verus!
