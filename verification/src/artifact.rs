//! The array artifact: a flat buffer of 32-bit cells with its shape.

use vstd::prelude::*;

verus! {

/// Product of the dimensions of a shape; the empty shape has product 1.
pub open spec fn shape_product(shape: Seq<u64>) -> nat
    decreases shape.len(),
{
    if shape.len() == 0 {
        1
    } else {
        shape_product(shape.drop_last()) * (shape.last() as nat)
    }
}

/// Mathematical model of an artifact.
pub struct ArtifactView {
    pub data: Seq<u32>,
    pub shape: Seq<u64>,
}

impl ArtifactView {
    /// The cells fill the shape exactly.
    pub open spec fn wf(self) -> bool {
        shape_product(self.shape) == self.data.len()
    }
}

/// A flat array in row-major order with its shape. Each cell holds the bit
/// pattern of an IEEE-754 single-precision number.
#[derive(Clone, Debug, PartialEq, Eq)]
pub struct NpyData {
    /// Cell bit patterns, last index varying fastest.
    pub data: Vec<u32>,
    /// Extent of each dimension.
    pub shape: Vec<u64>,
}

impl View for NpyData {
    type V = ArtifactView;

    open spec fn view(&self) -> ArtifactView {
        ArtifactView { data: self.data@, shape: self.shape@ }
    }
}

/// The product of a shape after one more dimension.
pub proof fn lemma_product_push(shape: Seq<u64>, d: u64)
    ensures
        shape_product(shape.push(d)) == shape_product(shape) * (d as nat),
{
    assert(shape.push(d).drop_last() =~= shape);
}

/// A shape with a dimension of zero has product zero.
pub proof fn lemma_product_zero(shape: Seq<u64>, k: int)
    requires
        0 <= k < shape.len(),
        shape[k] == 0,
    ensures
        shape_product(shape) == 0,
    decreases shape.len(),
{
    if k < shape.len() - 1 {
        lemma_product_zero(shape.drop_last(), k);
        assert(shape_product(shape.drop_last()) * (shape.last() as nat) == 0) by (nonlinear_arith)
            requires
                shape_product(shape.drop_last()) == 0,
        ;
    } else {
        assert(shape_product(shape.drop_last()) * (shape.last() as nat) == 0) by (nonlinear_arith)
            requires
                shape.last() == 0,
        ;
    }
}

/// Without a dimension of zero, the product of a shape is at least the
/// product of each of its prefixes, and at least one.
pub proof fn lemma_product_prefix(shape: Seq<u64>, k: int)
    requires
        0 <= k <= shape.len(),
        forall|j: int| 0 <= j < shape.len() ==> shape[j] >= 1,
    ensures
        1 <= shape_product(shape.take(k)) <= shape_product(shape),
    decreases shape.len() - k,
{
    if k < shape.len() {
        lemma_product_prefix(shape, k + 1);
        assert(shape.take(k + 1).drop_last() =~= shape.take(k));
        let p = shape_product(shape.take(k));
        let d = shape[k] as nat;
        assert(p <= p * d && (p * d >= 1 ==> p >= 1)) by (nonlinear_arith)
            requires
                d >= 1,
        ;
    } else {
        assert(shape.take(k) =~= shape);
        lemma_product_at_least_one(shape);
    }
}

/// Without a dimension of zero, the product of a shape is at least one.
pub proof fn lemma_product_at_least_one(shape: Seq<u64>)
    requires
        forall|j: int| 0 <= j < shape.len() ==> shape[j] >= 1,
    ensures
        shape_product(shape) >= 1,
    decreases shape.len(),
{
    if shape.len() > 0 {
        lemma_product_at_least_one(shape.drop_last());
        let p = shape_product(shape.drop_last());
        let d = shape.last() as nat;
        assert(p * d >= 1) by (nonlinear_arith)
            requires
                p >= 1,
                d >= 1,
        ;
    }
}

/// Whether the dimensions of `shape` multiply to `cells`. No product is
/// formed that does not fit the machine word.
pub fn shape_holds(shape: &Vec<u64>, cells: usize) -> (r: bool)
    ensures
        r == (shape_product(shape@) == cells),
{
    let mut k: usize = 0;
    while k < shape.len()
        invariant
            k <= shape.len(),
            forall|j: int| 0 <= j < k ==> shape@[j] >= 1,
        decreases shape.len() - k,
    {
        if shape[k] == 0 {
            proof {
                lemma_product_zero(shape@, k as int);
            }
            return cells == 0;
        }
        k += 1;
    }
    if cells == 0 {
        proof {
            lemma_product_at_least_one(shape@);
        }
        return false;
    }
    let mut acc: u64 = 1;
    let mut i: usize = 0;
    while i < shape.len()
        invariant
            i <= shape.len(),
            forall|j: int| 0 <= j < shape.len() ==> shape@[j] >= 1,
            acc == shape_product(shape@.take(i as int)),
            acc <= cells,
        decreases shape.len() - i,
    {
        proof {
            assert(shape@.take(i + 1).drop_last() =~= shape@.take(i as int));
            lemma_product_prefix(shape@, i + 1);
        }
        match acc.checked_mul(shape[i]) {
            None => {
                return false;
            },
            Some(p) => {
                if p > cells as u64 {
                    return false;
                }
                acc = p;
            },
        }
        i += 1;
    }
    proof {
        assert(shape@.take(i as int) =~= shape@);
    }
    acc == cells as u64
}

impl NpyData {
    /// The cells fill the shape exactly.
    pub open spec fn wf(&self) -> bool {
        self@.wf()
    }

    /// A copy with the same cells and shape.
    pub fn duplicate(&self) -> (r: NpyData)
        ensures
            r@ == self@,
    {
        let data = self.data.clone();
        let shape = self.shape.clone();
        proof {
            assert(data@ =~= self.data@);
            assert(shape@ =~= self.shape@);
        }
        NpyData { data, shape }
    }

    /// Whether the cells fill the shape exactly.
    pub fn is_valid(&self) -> (r: bool)
        ensures
            r == self.wf(),
    {
        shape_holds(&self.shape, self.data.len())
    }
}

} // verus!
