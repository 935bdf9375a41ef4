use vstd::prelude::*;
use vstd::std_specs::ops::{AddSpec, DivSpec, MulSpec, NegSpec, SubSpec};
use std::fmt::Debug;
use std::ops::{Add, Div, Mul, Neg, Sub};

verus! {

/// A scalar that vectors can be made of: any copyable type with the
/// arithmetic operators, each of which yields the same type.
pub trait VectorElement: Copy + Debug + Add<Output = Self> + Sub<Output = Self> + Mul<
    Output = Self,
> + Div<Output = Self> + Neg<Output = Self> {

}

impl<T> VectorElement for T where
    T: Copy + Debug + Add<Output = T> + Sub<Output = T> + Mul<Output = T> + Div<Output = T> + Neg<
        Output = T,
    >,
 {

}

/// A vector of `N` components.
#[derive(Clone, Copy, Debug)]
pub struct Vector<T, const N: usize> where T: VectorElement {
    pub data: [T; N],
}

impl<T, const N: usize> Vector<T, N> where T: VectorElement {
    pub fn new(data: [T; N]) -> (v: Self)
        ensures
            v.data == data,
    {
        Vector { data }
    }

    /// Componentwise sum.
    pub fn add(&self, other: &Self) -> (r: Self)
        requires
            forall|i: int| 0 <= i < N ==> (#[trigger] self.data[i]).add_req(other.data[i]),
        ensures
            T::obeys_add_spec() ==> forall|i: int|
                0 <= i < N ==> #[trigger] r.data[i] == self.data[i].add_spec(other.data[i]),
    {
        let mut data = self.data;
        let mut i: usize = 0;
        while i < N
            invariant
                i <= N,
                forall|j: int| 0 <= j < N ==> (#[trigger] self.data[j]).add_req(other.data[j]),
                forall|j: int|
                    0 <= j < i ==> T::obeys_add_spec() ==> #[trigger] data[j] == self.data[j].add_spec(
                        other.data[j],
                    ),
            decreases N - i,
        {
            data[i] = self.data[i] + other.data[i];
            i += 1;
        }
        Vector { data }
    }

    /// Componentwise difference.
    pub fn sub(&self, other: &Self) -> (r: Self)
        requires
            forall|i: int| 0 <= i < N ==> (#[trigger] self.data[i]).sub_req(other.data[i]),
        ensures
            T::obeys_sub_spec() ==> forall|i: int|
                0 <= i < N ==> #[trigger] r.data[i] == self.data[i].sub_spec(other.data[i]),
    {
        let mut data = self.data;
        let mut i: usize = 0;
        while i < N
            invariant
                i <= N,
                forall|j: int| 0 <= j < N ==> (#[trigger] self.data[j]).sub_req(other.data[j]),
                forall|j: int|
                    0 <= j < i ==> T::obeys_sub_spec() ==> #[trigger] data[j] == self.data[j].sub_spec(
                        other.data[j],
                    ),
            decreases N - i,
        {
            data[i] = self.data[i] - other.data[i];
            i += 1;
        }
        Vector { data }
    }

    /// Componentwise product.
    pub fn mul(&self, other: &Self) -> (r: Self)
        requires
            forall|i: int| 0 <= i < N ==> (#[trigger] self.data[i]).mul_req(other.data[i]),
        ensures
            T::obeys_mul_spec() ==> forall|i: int|
                0 <= i < N ==> #[trigger] r.data[i] == self.data[i].mul_spec(other.data[i]),
    {
        let mut data = self.data;
        let mut i: usize = 0;
        while i < N
            invariant
                i <= N,
                forall|j: int| 0 <= j < N ==> (#[trigger] self.data[j]).mul_req(other.data[j]),
                forall|j: int|
                    0 <= j < i ==> T::obeys_mul_spec() ==> #[trigger] data[j] == self.data[j].mul_spec(
                        other.data[j],
                    ),
            decreases N - i,
        {
            data[i] = self.data[i] * other.data[i];
            i += 1;
        }
        Vector { data }
    }

    /// Componentwise quotient.
    pub fn div(&self, other: &Self) -> (r: Self)
        requires
            forall|i: int| 0 <= i < N ==> (#[trigger] self.data[i]).div_req(other.data[i]),
        ensures
            T::obeys_div_spec() ==> forall|i: int|
                0 <= i < N ==> #[trigger] r.data[i] == self.data[i].div_spec(other.data[i]),
    {
        let mut data = self.data;
        let mut i: usize = 0;
        while i < N
            invariant
                i <= N,
                forall|j: int| 0 <= j < N ==> (#[trigger] self.data[j]).div_req(other.data[j]),
                forall|j: int|
                    0 <= j < i ==> T::obeys_div_spec() ==> #[trigger] data[j] == self.data[j].div_spec(
                        other.data[j],
                    ),
            decreases N - i,
        {
            data[i] = self.data[i] / other.data[i];
            i += 1;
        }
        Vector { data }
    }
}


impl<T> Vector<T, 2> where T: VectorElement {
    pub fn x(&self) -> (c: T)
        ensures
            c == self.data[0],
    {
        self.data[0]
    }

    pub fn y(&self) -> (c: T)
        ensures
            c == self.data[1],
    {
        self.data[1]
    }
}

impl<T> Vector<T, 3> where T: VectorElement {
    pub fn x(&self) -> (c: T)
        ensures
            c == self.data[0],
    {
        self.data[0]
    }

    pub fn y(&self) -> (c: T)
        ensures
            c == self.data[1],
    {
        self.data[1]
    }

    pub fn z(&self) -> (c: T)
        ensures
            c == self.data[2],
    {
        self.data[2]
    }
}

impl<T> Vector<T, 4> where T: VectorElement {
    pub fn x(&self) -> (c: T)
        ensures
            c == self.data[0],
    {
        self.data[0]
    }

    pub fn y(&self) -> (c: T)
        ensures
            c == self.data[1],
    {
        self.data[1]
    }

    pub fn z(&self) -> (c: T)
        ensures
            c == self.data[2],
    {
        self.data[2]
    }

    pub fn w(&self) -> (c: T)
        ensures
            c == self.data[3],
    {
        self.data[3]
    }
}

/// The running sum `u[0]*v[0] + ... + u[k-1]*v[k-1]`, added up from the left.
pub open spec fn dot_prefix<T: VectorElement>(u: Seq<T>, v: Seq<T>, k: nat) -> T
    decreases k,
{
    if k <= 1 {
        u[0].mul_spec(v[0])
    } else {
        dot_prefix(u, v, (k - 1) as nat).add_spec(u[k - 1].mul_spec(v[k - 1]))
    }
}

/// Every product and every partial sum of the dot product of the first `n`
/// components can be computed.
pub open spec fn dot_defined<T: VectorElement>(u: Seq<T>, v: Seq<T>, n: nat) -> bool {
    &&& forall|i: int| 0 <= i < n ==> (#[trigger] u[i]).mul_req(v[i])
    &&& forall|k: int|
        1 <= k < n ==> (#[trigger] dot_prefix(u, v, k as nat)).add_req(u[k].mul_spec(v[k]))
}

/// Dot product of two vectors of at least one component.
pub fn dot<T, const N: usize>(u: &Vector<T, N>, v: &Vector<T, N>) -> (r: T) where
    T: VectorElement,

    requires
        N > 0,
        T::obeys_add_spec(),
        T::obeys_mul_spec(),
        dot_defined(u.data@, v.data@, N as nat),
    ensures
        r == dot_prefix(u.data@, v.data@, N as nat),
{
    let mut acc = u.data[0] * v.data[0];
    let mut i: usize = 1;
    while i < N
        invariant
            1 <= i <= N,
            T::obeys_add_spec(),
            T::obeys_mul_spec(),
            dot_defined(u.data@, v.data@, N as nat),
            acc == dot_prefix(u.data@, v.data@, i as nat),
        decreases N - i,
    {
        assert(u.data@[i as int].mul_req(v.data@[i as int]));
        let p = u.data[i] * v.data[i];
        let ghost k: int = i as int;
        assert(dot_prefix(u.data@, v.data@, k as nat).add_req(u.data@[k].mul_spec(v.data@[k])));
        acc = acc + p;
        i += 1;
    }
    acc
}

/// The component of `u × v` on axis `i`:
/// `(u.y*v.z - u.z*v.y, -(u.x*v.z - u.z*v.x), u.x*v.y - u.y*v.x)`.
pub open spec fn cross_component<T: VectorElement>(u: Seq<T>, v: Seq<T>, i: int) -> T {
    if i == 0 {
        u[1].mul_spec(v[2]).sub_spec(u[2].mul_spec(v[1]))
    } else if i == 1 {
        u[0].mul_spec(v[2]).sub_spec(u[2].mul_spec(v[0])).neg_spec()
    } else {
        u[0].mul_spec(v[1]).sub_spec(u[1].mul_spec(v[0]))
    }
}

/// Every product, difference and negation in `u × v` can be computed.
pub open spec fn cross_defined<T: VectorElement>(u: Seq<T>, v: Seq<T>) -> bool {
    &&& u[1].mul_req(v[2])
    &&& u[2].mul_req(v[1])
    &&& u[1].mul_spec(v[2]).sub_req(u[2].mul_spec(v[1]))
    &&& u[0].mul_req(v[2])
    &&& u[2].mul_req(v[0])
    &&& u[0].mul_spec(v[2]).sub_req(u[2].mul_spec(v[0]))
    &&& u[0].mul_spec(v[2]).sub_spec(u[2].mul_spec(v[0])).neg_req()
    &&& u[0].mul_req(v[1])
    &&& u[1].mul_req(v[0])
    &&& u[0].mul_spec(v[1]).sub_req(u[1].mul_spec(v[0]))
}

/// Cross product of two three-component vectors.
pub fn cross<T>(u: &Vector<T, 3>, v: &Vector<T, 3>) -> (r: Vector<T, 3>) where T: VectorElement
    requires
        T::obeys_sub_spec(),
        T::obeys_mul_spec(),
        T::obeys_neg_spec(),
        cross_defined(u.data@, v.data@),
    ensures
        forall|i: int| 0 <= i < 3 ==> #[trigger] r.data[i] == cross_component(u.data@, v.data@, i),
{
    let x = u.data[1] * v.data[2] - u.data[2] * v.data[1];
    let y = (u.data[0] * v.data[2] - u.data[2] * v.data[0]).neg();
    let z = u.data[0] * v.data[1] - u.data[1] * v.data[0];
    let r = Vector::<T, 3>::new([x, y, z]);
    assert(r.data[0] == cross_component(u.data@, v.data@, 0));
    assert(r.data[1] == cross_component(u.data@, v.data@, 1));
    assert(r.data[2] == cross_component(u.data@, v.data@, 2));
    r
}

/// The cross product of integer vectors is anti-commutative: wherever both
/// `u × v` and `v × u` can be computed, each component of one is the negation
/// of the same component of the other.
pub proof fn lemma_cross_anticommutative(u: Vector<i64, 3>, v: Vector<i64, 3>)
    requires
        cross_defined(u.data@, v.data@),
        cross_defined(v.data@, u.data@),
    ensures
        forall|i: int|
            0 <= i < 3 ==> #[trigger] cross_component(u.data@, v.data@, i) as int == -(
            cross_component(v.data@, u.data@, i) as int),
{
    let (a, b) = (u.data@, v.data@);
    assert(a[1] * b[2] == b[2] * a[1]) by (nonlinear_arith);
    assert(a[2] * b[1] == b[1] * a[2]) by (nonlinear_arith);
    assert(a[0] * b[2] == b[2] * a[0]) by (nonlinear_arith);
    assert(a[2] * b[0] == b[0] * a[2]) by (nonlinear_arith);
    assert(a[0] * b[1] == b[1] * a[0]) by (nonlinear_arith);
    assert(a[1] * b[0] == b[0] * a[1]) by (nonlinear_arith);
}

} // verus!
