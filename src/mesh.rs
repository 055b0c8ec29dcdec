use vstd::prelude::*;

use crate::hit::HitRecord;
use crate::ray::{at3, in_range, in_box, lemma_lt_le_trans, lemma_lt_trans, lemma_narrow, lemma_not_lt_trans, valid_range, Ratio, Ray};
use crate::triangle::{lemma_terms_bounded, Triangle};
use crate::vec3::Vec3;

verus! {

/// A collection of triangles that share one material.
#[derive(Clone, Debug)]
pub struct Mesh {
    pub triangles: Vec<Triangle>,
}

impl Mesh {
    pub open spec fn wf(&self) -> bool {
        forall|i: int| 0 <= i < self.triangles@.len() ==> (#[trigger] self.triangles@[i]).wf()
    }

    /// Whether `ray` meets some triangle of the mesh inside `(t_min, t_max)`.
    pub open spec fn hits(&self, ray: Ray, t_min: Ratio, t_max: Ratio) -> bool {
        exists|k: int| 0 <= k < self.triangles@.len() && (#[trigger] self.triangles@[k]).hits(ray, t_min, t_max)
    }

    /// `h` is the record of triangle `k`, which `ray` meets inside
    /// `(t_min, t_max)`, and every earlier triangle met there is met at a
    /// larger parameter.
    pub open spec fn first_at(&self, ray: Ray, t_min: Ratio, t_max: Ratio, h: HitRecord, k: int) -> bool {
        &&& 0 <= k < self.triangles@.len()
        &&& self.triangles@[k].hits(ray, t_min, t_max)
        &&& self.triangles@[k].record_ok(ray, h)
        &&& forall|j: int| 0 <= j < k && (#[trigger] self.triangles@[j]).hits(ray, t_min, t_max)
                ==> h.t.lt(&self.triangles@[j].t_of(ray))
    }

    /// `h` is the record of a triangle that `ray` meets inside `(t_min, t_max)`,
    /// no triangle is met at a smaller parameter in that interval, and of
    /// triangles met at the same parameter it is the first.
    pub open spec fn record_ok(&self, ray: Ray, t_min: Ratio, t_max: Ratio, h: HitRecord) -> bool {
        &&& exists|k: int| #[trigger] self.first_at(ray, t_min, t_max, h, k)
        &&& forall|j: int|
            0 <= j < self.triangles@.len() && (#[trigger] self.triangles@[j]).hits(ray, t_min, t_max)
                ==> !self.triangles@[j].t_of(ray).lt(&h.t)
    }

    /// Builds one triangle per index triple: the triple selects three
    /// vertices and the three normals at the same positions.
    pub fn new(vertices: Vec<Vec3>, indices: Vec<[usize; 3]>, normals: Vec<Vec3>, material: usize) -> (r: Mesh)
        requires
            forall|i: int, k: int| 0 <= i < indices@.len() && 0 <= k < 3 ==>
                (#[trigger] indices@[i][k]) < vertices@.len() && indices@[i][k] < normals@.len(),
        ensures
            r.triangles@.len() == indices@.len(),
            forall|i: int| 0 <= i < indices@.len() ==> {
                let ix = #[trigger] indices@[i];
                r.triangles@[i] == (Triangle {
                    v0: vertices@[ix[0] as int],
                    v1: vertices@[ix[1] as int],
                    v2: vertices@[ix[2] as int],
                    n0: normals@[ix[0] as int],
                    n1: normals@[ix[1] as int],
                    n2: normals@[ix[2] as int],
                    material,
                })
            },
    {
        let mut triangles: Vec<Triangle> = Vec::new();
        let mut i: usize = 0;
        while i < indices.len()
            invariant
                i <= indices@.len(),
                triangles@.len() == i,
                forall|i: int, k: int| 0 <= i < indices@.len() && 0 <= k < 3 ==>
                    (#[trigger] indices@[i][k]) < vertices@.len() && indices@[i][k] < normals@.len(),
                forall|j: int| 0 <= j < i ==> {
                    let ix = #[trigger] indices@[j];
                    triangles@[j] == (Triangle {
                        v0: vertices@[ix[0] as int],
                        v1: vertices@[ix[1] as int],
                        v2: vertices@[ix[2] as int],
                        n0: normals@[ix[0] as int],
                        n1: normals@[ix[1] as int],
                        n2: normals@[ix[2] as int],
                        material,
                    })
                },
            decreases indices@.len() - i,
        {
            let ix = indices[i];
            assert(ix[0] < vertices@.len() && ix[0] < normals@.len()) by {
                assert(indices@[i as int][0] < vertices@.len());
            }
            assert(ix[1] < vertices@.len() && ix[1] < normals@.len()) by {
                assert(indices@[i as int][1] < vertices@.len());
            }
            assert(ix[2] < vertices@.len() && ix[2] < normals@.len()) by {
                assert(indices@[i as int][2] < vertices@.len());
            }
            let t = Triangle::new(
                vertices[ix[0]],
                vertices[ix[1]],
                vertices[ix[2]],
                normals[ix[0]],
                normals[ix[1]],
                normals[ix[2]],
                material,
            );
            triangles.push(t);
            i = i + 1;
        }
        Mesh { triangles }
    }

    /// The nearest intersection with any triangle inside `(t_min, t_max)`;
    /// among triangles met at the same parameter, the first.
    pub fn hit(&self, ray: &Ray, t_min: &Ratio, t_max: &Ratio) -> (r: Option<HitRecord>)
        requires
            self.wf(),
            ray.wf(),
            valid_range(*t_min, *t_max),
        ensures
            r.is_some() == self.hits(*ray, *t_min, *t_max),
            r.is_some() ==> in_range(r.unwrap().t, *t_min, *t_max)
                && r.unwrap().point@ == at3(ray.origin@, ray.direction@, r.unwrap().t),
            r.is_some() ==> self.record_ok(*ray, *t_min, *t_max, r.unwrap()) && r.unwrap().wf(),
    {
        let mut best: Option<HitRecord> = None;
        let mut closest: Ratio = *t_max;
        let mut i: usize = 0;
        let ghost mut bk: int = 0;
        while i < self.triangles.len()
            invariant
                self.wf(),
                ray.wf(),
                valid_range(*t_min, *t_max),
                i <= self.triangles@.len(),
                valid_range(*t_min, closest),
                best.is_some() ==> bk < i && self.first_at(*ray, *t_min, *t_max, best.unwrap(), bk),
                best.is_some() ==> in_range(best.unwrap().t, *t_min, *t_max)
                    && best.unwrap().point@ == at3(ray.origin@, ray.direction@, best.unwrap().t),
                best.is_none() ==> closest == *t_max,
                best.is_some() ==> closest.lt(t_max),
                best.is_none() ==> forall|j: int| 0 <= j < i ==> !(#[trigger] self.triangles@[j]).hits(*ray, *t_min, *t_max),
                best.is_some() ==> {
                    let h = best.unwrap();
                    &&& h.wf()
                    &&& closest == h.t
                    &&& forall|j: int| 0 <= j < i && (#[trigger] self.triangles@[j]).hits(*ray, *t_min, *t_max)
                            ==> !self.triangles@[j].t_of(*ray).lt(&h.t)
                },
            decreases self.triangles@.len() - i,
        {
            let tri = &self.triangles[i];
            assert(tri.wf());
            let found = tri.hit(ray, t_min, &closest);
            match found {
                Some(h) => {
                    proof {
                        // A hit below `closest` is a hit in the whole interval, and it is
                        // below every parameter found so far.
                        lemma_terms_bounded(tri.v0@, tri.v1@, tri.v2@, ray.origin@, ray.direction@);
                        lemma_narrow(*t_min, h.t, closest);
                        if best.is_some() {
                            let old = best.unwrap();
                            assert forall|j: int| 0 <= j < i && (#[trigger] self.triangles@[j]).hits(*ray, *t_min, *t_max)
                                implies !self.triangles@[j].t_of(*ray).lt(&h.t) by {
                                let tj = self.triangles@[j];
                                assert(tj.wf());
                                lemma_terms_bounded(tj.v0@, tj.v1@, tj.v2@, ray.origin@, ray.direction@);
                                lemma_not_lt_trans(old.t, h.t, self.triangles@[j].t_of(*ray));
                            }
                        }
                        assert(self.triangles@[i as int].hits(*ray, *t_min, *t_max)) by {
                            assert(t_min.lt(&h.t) && h.t.lt(&closest));
                            if best.is_some() {
                                lemma_lt_trans(h.t, closest, *t_max);
                            }
                        }
                        // Every earlier triangle that is met lies strictly beyond `h`.
                        assert forall|j: int| 0 <= j < i && (#[trigger] self.triangles@[j]).hits(*ray, *t_min, *t_max)
                            implies h.t.lt(&self.triangles@[j].t_of(*ray)) by {
                            let old = best.unwrap();
                            let tj = self.triangles@[j];
                            assert(tj.wf());
                            lemma_terms_bounded(tj.v0@, tj.v1@, tj.v2@, ray.origin@, ray.direction@);
                            lemma_lt_le_trans(h.t, old.t, tj.t_of(*ray));
                        }
                        bk = i as int;
                    }
                    closest = h.t;
                    best = Some(h);
                },
                None => {
                    proof {
                        lemma_terms_bounded(tri.v0@, tri.v1@, tri.v2@, ray.origin@, ray.direction@);
                        if best.is_some() {
                            assert(self.triangles@[i as int].hits(*ray, *t_min, *t_max)
                                ==> !self.triangles@[i as int].t_of(*ray).lt(&closest));
                        }
                    }
                },
            }
            i = i + 1;
        }
        proof {
            if best.is_some() {
                assert(self.first_at(*ray, *t_min, *t_max, best.unwrap(), bk));
            }
        }
        best
    }
}

/// For a mesh of two triangles: a ray that meets only the second gets the
/// second's record, and a ray that meets both gets the nearer parameter.
pub proof fn lemma_two_triangles(m: Mesh, ray: Ray, t_min: Ratio, t_max: Ratio, h: HitRecord)
    requires
        m.triangles@.len() == 2,
        m.record_ok(ray, t_min, t_max, h),
    ensures
        !m.triangles@[0].hits(ray, t_min, t_max) && m.triangles@[1].hits(ray, t_min, t_max)
            ==> m.triangles@[1].record_ok(ray, h),
        m.triangles@[0].hits(ray, t_min, t_max) && m.triangles@[1].hits(ray, t_min, t_max) ==> {
            &&& h.t == m.triangles@[0].t_of(ray) || h.t == m.triangles@[1].t_of(ray)
            &&& !m.triangles@[0].t_of(ray).lt(&h.t)
            &&& !m.triangles@[1].t_of(ray).lt(&h.t)
        },
{
    let k = choose|k: int| #[trigger] m.first_at(ray, t_min, t_max, h, k);
    assert(k == 0 || k == 1);
    assert(m.triangles@[0].hits(ray, t_min, t_max) ==> !m.triangles@[0].t_of(ray).lt(&h.t));
    assert(m.triangles@[1].hits(ray, t_min, t_max) ==> !m.triangles@[1].t_of(ray).lt(&h.t));
}

} // verus!
