use vstd::prelude::*;
use crate::renderer::Color;

verus! {

/// A face of a mesh: its vertices, in order, and its color.
pub struct Triangle<V> {
    pub vertices: Vec<V>,
    pub color: Color,
}

impl<V> View for Triangle<V> {
    type V = (Seq<V>, Color);

    open spec fn view(&self) -> (Seq<V>, Color) {
        (self.vertices@, self.color)
    }
}

impl<V> Triangle<V> {
    pub fn new(a: V, b: V, c: V, color: &Color) -> (t: Triangle<V>)
        ensures
            t@ == (seq![a, b, c], *color),
    {
        let mut vertices: Vec<V> = Vec::new();
        vertices.push(a);
        vertices.push(b);
        vertices.push(c);
        proof {
            assert(vertices@ =~= seq![a, b, c]);
        }
        Triangle { vertices, color: *color }
    }
}

/// An ordered sequence of triangles.
pub struct Mesh<V> {
    pub triangles: Vec<Triangle<V>>,
}

impl<V> View for Mesh<V> {
    type V = Seq<(Seq<V>, Color)>;

    open spec fn view(&self) -> Seq<(Seq<V>, Color)> {
        self.triangles@.map_values(|t: Triangle<V>| t@)
    }
}

/// The values held by the `Some` entries of `rs`, in order.
pub open spec fn somes<V>(rs: Seq<Option<V>>) -> Seq<V>
    decreases rs.len(),
{
    if rs.len() == 0 {
        seq![]
    } else {
        let init = somes(rs.drop_last());
        match rs.last() {
            Some(v) => init.push(v),
            None => init,
        }
    }
}

/// The faces that remain when the `i`-th face, of color `colors[i]`, keeps the
/// vertices that survived among `rs[i]`: a face with fewer than three
/// survivors is left out.
pub open spec fn clipped<V>(colors: Seq<Color>, rs: Seq<Seq<Option<V>>>) -> Seq<(Seq<V>, Color)>
    decreases rs.len(),
{
    if rs.len() == 0 || colors.len() == 0 {
        seq![]
    } else {
        let rest = clipped(colors.drop_last(), rs.drop_last());
        let vs = somes(rs.last());
        if vs.len() < 3 {
            rest
        } else {
            rest.push((vs, colors.last()))
        }
    }
}


/// No value survives from entries that are all `None`.
pub proof fn lemma_somes_of_nones<V>(rs: Seq<Option<V>>)
    requires
        forall|j: int| 0 <= j < rs.len() ==> (#[trigger] rs[j]) is None,
    ensures
        somes(rs).len() == 0,
    decreases rs.len(),
{
    if rs.len() > 0 {
        lemma_somes_of_nones(rs.drop_last());
    }
}

/// A face none of whose vertices survived is absent from the clipped faces:
/// they are the same as if that face had never been there.
pub proof fn lemma_rejected_face_absent<V>(colors: Seq<Color>, rs: Seq<Seq<Option<V>>>, i: int)
    requires
        colors.len() == rs.len(),
        0 <= i < rs.len(),
        forall|j: int| 0 <= j < rs[i].len() ==> (#[trigger] rs[i][j]) is None,
    ensures
        clipped(colors, rs) == clipped(colors.remove(i), rs.remove(i)),
    decreases rs.len(),
{
    lemma_somes_of_nones(rs[i]);
    if i == rs.len() - 1 {
        assert(colors.remove(i) =~= colors.drop_last());
        assert(rs.remove(i) =~= rs.drop_last());
    } else {
        lemma_rejected_face_absent(colors.drop_last(), rs.drop_last(), i);
        assert(colors.remove(i).drop_last() =~= colors.drop_last().remove(i));
        assert(rs.remove(i).drop_last() =~= rs.drop_last().remove(i));
        assert(colors.remove(i).last() == colors.last());
        assert(rs.remove(i).last() == rs.last());
    }
}

impl<V> Mesh<V> {
    /// The colors of the faces, in order.
    pub open spec fn colors(&self) -> Seq<Color> {
        self@.map_values(|t: (Seq<V>, Color)| t.1)
    }

    /// A new mesh whose every vertex is `f` of the vertex at the same place;
    /// the faces keep their order and colors.
    pub fn map_vertices<F: Fn(&V) -> V>(&self, f: F) -> (m: Mesh<V>)
        requires
            forall|i: int, j: int|
                0 <= i < self@.len() && 0 <= j < self@[i].0.len() ==> f.requires(
                    (&#[trigger] self@[i].0[j],),
                ),
        ensures
            m@.len() == self@.len(),
            forall|i: int|
                0 <= i < self@.len() ==> {
                    &&& (#[trigger] m@[i]).1 == self@[i].1
                    &&& m@[i].0.len() == self@[i].0.len()
                    &&& forall|j: int|
                        0 <= j < self@[i].0.len() ==> f.ensures(
                            (&self@[i].0[j],),
                            #[trigger] m@[i].0[j],
                        )
                },
    {
        let mut out: Vec<Triangle<V>> = Vec::new();
        let mut i: usize = 0;
        while i < self.triangles.len()
            invariant
                i <= self@.len(),
                self@.len() == self.triangles@.len(),
                forall|i: int, j: int|
                    0 <= i < self@.len() && 0 <= j < self@[i].0.len() ==> f.requires(
                        (&#[trigger] self@[i].0[j],),
                    ),
                out@.len() == i,
                forall|k: int|
                    0 <= k < i ==> {
                        &&& (#[trigger] out@[k]).color == self@[k].1
                        &&& out@[k].vertices@.len() == self@[k].0.len()
                        &&& forall|j: int|
                            0 <= j < self@[k].0.len() ==> f.ensures(
                                (&self@[k].0[j],),
                                #[trigger] out@[k].vertices@[j],
                            )
                    },
            decreases self@.len() - i,
        {
            let t = &self.triangles[i];
            assert(t@ == self@[i as int]);
            let mut vs: Vec<V> = Vec::new();
            let mut j: usize = 0;
            while j < t.vertices.len()
                invariant
                    j <= t.vertices@.len(),
                    t@ == self@[i as int],
                    0 <= i < self@.len(),
                    forall|i: int, j: int|
                        0 <= i < self@.len() && 0 <= j < self@[i].0.len() ==> f.requires(
                            (&#[trigger] self@[i].0[j],),
                        ),
                    vs@.len() == j,
                    forall|k: int|
                        0 <= k < j ==> f.ensures((&t.vertices@[k],), #[trigger] vs@[k]),
                decreases t.vertices@.len() - j,
            {
                assert(f.requires((&self@[i as int].0[j as int],)));
                let v = f(&t.vertices[j]);
                vs.push(v);
                j += 1;
            }
            out.push(Triangle { vertices: vs, color: t.color });
            i += 1;
        }
        let m = Mesh { triangles: out };
        assert forall|i: int| 0 <= i < self@.len() implies {
            &&& (#[trigger] m@[i]).1 == self@[i].1
            &&& m@[i].0.len() == self@[i].0.len()
            &&& forall|j: int|
                0 <= j < self@[i].0.len() ==> f.ensures((&self@[i].0[j],), #[trigger] m@[i].0[j])
        } by {
            assert(m@[i] == out@[i]@);
        }
        m
    }

    /// A new mesh in which each vertex is replaced by what `f` gives for it,
    /// where that is `Some`; a face left with fewer than three vertices is
    /// dropped, the others keep their order and colors.
    pub fn filter_map_vertices<F: Fn(&V) -> Option<V>>(&self, f: F) -> (m: Mesh<V>)
        requires
            forall|i: int, j: int|
                0 <= i < self@.len() && 0 <= j < self@[i].0.len() ==> f.requires(
                    (&#[trigger] self@[i].0[j],),
                ),
        ensures
            exists|rs: Seq<Seq<Option<V>>>|
                {
                    &&& rs.len() == self@.len()
                    &&& forall|i: int|
                        0 <= i < self@.len() ==> (#[trigger] rs[i]).len() == self@[i].0.len()
                    &&& forall|i: int, j: int|
                        0 <= i < self@.len() && 0 <= j < self@[i].0.len() ==> f.ensures(
                            (&self@[i].0[j],),
                            #[trigger] rs[i][j],
                        )
                    &&& m@ == clipped(self.colors(), rs)
                },
    {
        let mut out: Vec<Triangle<V>> = Vec::new();
        let ghost mut rs: Seq<Seq<Option<V>>> = seq![];
        let mut i: usize = 0;
        while i < self.triangles.len()
            invariant
                i <= self@.len(),
                self@.len() == self.triangles@.len(),
                forall|i: int, j: int|
                    0 <= i < self@.len() && 0 <= j < self@[i].0.len() ==> f.requires(
                        (&#[trigger] self@[i].0[j],),
                    ),
                rs.len() == i,
                forall|k: int| 0 <= k < i ==> (#[trigger] rs[k]).len() == self@[k].0.len(),
                forall|k: int, j: int|
                    0 <= k < i && 0 <= j < self@[k].0.len() ==> f.ensures(
                        (&self@[k].0[j],),
                        #[trigger] rs[k][j],
                    ),
                out@.map_values(|t: Triangle<V>| t@) == clipped(self.colors().take(i as int), rs),
            decreases self@.len() - i,
        {
            let t = &self.triangles[i];
            assert(t@ == self@[i as int]);
            let mut vs: Vec<V> = Vec::new();
            let ghost mut r: Seq<Option<V>> = seq![];
            let mut j: usize = 0;
            while j < t.vertices.len()
                invariant
                    j <= t.vertices@.len(),
                    t@ == self@[i as int],
                    0 <= i < self@.len(),
                    forall|i: int, j: int|
                        0 <= i < self@.len() && 0 <= j < self@[i].0.len() ==> f.requires(
                            (&#[trigger] self@[i].0[j],),
                        ),
                    r.len() == j,
                    forall|k: int| 0 <= k < j ==> f.ensures((&t.vertices@[k],), #[trigger] r[k]),
                    vs@ == somes(r),
                decreases t.vertices@.len() - j,
            {
                assert(f.requires((&self@[i as int].0[j as int],)));
                let o = f(&t.vertices[j]);
                proof {
                    assert(r.push(o).drop_last() =~= r);
                    r = r.push(o);
                }
                match o {
                    Some(v) => {
                        vs.push(v);
                    },
                    None => {},
                }
                j += 1;
            }
            let ghost before = out@.map_values(|t: Triangle<V>| t@);
            proof {
                let cs = self.colors();
                assert(cs.take(i + 1).drop_last() =~= cs.take(i as int));
                assert(rs.push(r).drop_last() =~= rs);
                assert(cs.take(i + 1).last() == t.color);
            }
            if vs.len() >= 3 {
                out.push(Triangle { vertices: vs, color: t.color });
                assert(out@.map_values(|t: Triangle<V>| t@) =~= before.push((somes(r), t.color)));
            }
            proof {
                rs = rs.push(r);
            }
            i += 1;
        }
        proof {
            assert(self.colors().take(i as int) =~= self.colors());
        }
        Mesh { triangles: out }
    }
}

} // verus!
