use vstd::prelude::*;

verus! {

/// A run of vertices and a run of faces within a geometry.
#[derive(Copy, Clone, Debug, PartialEq, Eq, Structural)]
pub struct GeometrySlice {
    pub first_vertex: usize,
    pub vertex_count: usize,
    pub first_face: usize,
    pub face_count: usize,
}

/// The vertices of a geometry and its triangles, kept as a flat list of
/// vertex indices, three to a triangle.
pub struct Geometry<V> {
    vertices: Vec<V>,
    elements: Vec<u32>,
}

/// The vertex indices of triangles, three to a triangle, each moved up by
/// `offset`.
pub open spec fn face_elements_from(faces: Seq<(u32, u32, u32)>, offset: int) -> Seq<u32> {
    Seq::new(
        3 * faces.len(),
        |i: int|
            (offset + if i % 3 == 0 {
                faces[i / 3].0
            } else if i % 3 == 1 {
                faces[i / 3].1
            } else {
                faces[i / 3].2
            }) as u32,
    )
}

/// Every vertex index of the triangles, moved up by `offset`, still fits in
/// a `u32`.
pub open spec fn faces_fit(faces: Seq<(u32, u32, u32)>, offset: int) -> bool {
    forall|i: int|
        0 <= i < faces.len() ==> #[trigger] faces[i].0 + offset <= u32::MAX && faces[i].1 + offset <= u32::MAX
            && faces[i].2 + offset <= u32::MAX
}

/// Vertex indices moved up by `offset`.
pub open spec fn offset_elements(elements: Seq<u32>, offset: int) -> Seq<u32> {
    Seq::new(elements.len(), |i: int| (elements[i] + offset) as u32)
}

impl<V: Copy> Geometry<V> {
    pub closed spec fn vertices_view(&self) -> Seq<V> {
        self.vertices@
    }

    pub closed spec fn elements_view(&self) -> Seq<u32> {
        self.elements@
    }

    pub open spec fn wf(&self) -> bool {
        self.elements_view().len() % 3 == 0
    }

    pub open spec fn vertex_count_spec(&self) -> nat {
        self.vertices_view().len()
    }

    pub open spec fn face_count_spec(&self) -> nat {
        self.elements_view().len() / 3
    }

    pub fn new() -> (r: Self)
        ensures
            r.wf(),
            r.vertices_view() == Seq::<V>::empty(),
            r.elements_view() == Seq::<u32>::empty(),
    {
        Geometry { vertices: Vec::new(), elements: Vec::new() }
    }

    pub fn vertex_count(&self) -> (r: usize)
        ensures
            r == self.vertex_count_spec(),
    {
        self.vertices.len()
    }

    pub fn face_count(&self) -> (r: usize)
        ensures
            r == self.face_count_spec(),
    {
        self.elements.len() / 3
    }

    pub fn is_empty(&self) -> (r: bool)
        ensures
            r == (self.vertices_view().len() == 0 && self.elements_view().len() == 0),
    {
        self.vertices.len() == 0 && self.elements.len() == 0
    }

    /// The vertex indices of all triangles, three to a triangle.
    pub fn face_elements(&self) -> (r: &[u32])
        ensures
            r@ == self.elements_view(),
    {
        self.elements.as_slice()
    }

    /// The vertices, in order.
    pub fn vertices(&self) -> (r: &[V])
        ensures
            r@ == self.vertices_view(),
    {
        self.vertices.as_slice()
    }

    pub fn get_vertex(&self, index: usize) -> (r: V)
        requires
            index < self.vertex_count_spec(),
        ensures
            r == self.vertices_view()[index as int],
    {
        self.vertices[index]
    }

    pub fn set_vertex(&mut self, index: usize, vertex: V)
        requires
            index < old(self).vertex_count_spec(),
        ensures
            final(self).vertices_view() == old(self).vertices_view().update(index as int, vertex),
            final(self).elements_view() == old(self).elements_view(),
    {
        self.vertices.set(index, vertex);
    }

    /// Removes every vertex and triangle.
    pub fn clear(&mut self)
        ensures
            final(self).wf(),
            final(self).vertices_view() == Seq::<V>::empty(),
            final(self).elements_view() == Seq::<u32>::empty(),
    {
        self.vertices.clear();
        self.elements.clear();
    }

    /// The slice that covers the whole geometry.
    pub fn as_slice(&self) -> (r: GeometrySlice)
        requires
            self.wf(),
        ensures
            r == (GeometrySlice {
                first_vertex: 0,
                vertex_count: self.vertex_count_spec() as usize,
                first_face: 0,
                face_count: self.face_count_spec() as usize,
            }),
    {
        GeometrySlice { first_vertex: 0, vertex_count: self.vertices.len(), first_face: 0, face_count: self.elements.len() / 3 }
    }

    /// Adds vertices and the triangles between them (whose indices count
    /// from the first of the new vertices); returns where they went.
    pub fn add(&mut self, vertices: &[V], faces: &[(u32, u32, u32)]) -> (r: GeometrySlice)
        requires
            old(self).wf(),
            faces_fit(faces@, old(self).vertex_count_spec() as u32 as int),
        ensures
            final(self).wf(),
            final(self).vertices_view() == old(self).vertices_view() + vertices@,
            final(self).elements_view() == old(self).elements_view() + face_elements_from(
                faces@,
                old(self).vertex_count_spec() as u32 as int,
            ),
            r == (GeometrySlice {
                first_vertex: old(self).vertex_count_spec() as usize,
                vertex_count: vertices@.len() as usize,
                first_face: old(self).face_count_spec() as usize,
                face_count: faces@.len() as usize,
            }),
    {
        let first_vertex = self.vertices.len();
        let first_face = self.elements.len() / 3;
        let offset = first_vertex as u32;
        let ghost start = self.elements@;
        let mut i: usize = 0;
        while i < faces.len()
            invariant
                i <= faces@.len(),
                start.len() % 3 == 0,
                faces_fit(faces@, offset as int),
                self.elements@ == start + face_elements_from(faces@.take(i as int), offset as int),
                self.vertices@ == old(self).vertices_view(),
            decreases faces@.len() - i,
        {
            let f = faces[i];
            proof {
                assert(faces@[i as int] == f);
            }
            let ghost before = self.elements@;
            self.elements.push(f.0 + offset);
            self.elements.push(f.1 + offset);
            self.elements.push(f.2 + offset);
            proof {
                let done = faces@.take(i + 1);
                assert(done.take(i as int) =~= faces@.take(i as int));
                assert(self.elements@ =~= start + face_elements_from(done, offset as int)) by {
                    assert forall|k: int| 0 <= k < 3 * (i + 1) implies #[trigger] face_elements_from(done, offset as int)[k]
                        == (if k < 3 * i {
                        face_elements_from(faces@.take(i as int), offset as int)[k]
                    } else if k == 3 * i {
                        (f.0 + offset) as u32
                    } else if k == 3 * i + 1 {
                        (f.1 + offset) as u32
                    } else {
                        (f.2 + offset) as u32
                    }) by {
                        if k < 3 * i {
                            assert(done[k / 3] == faces@.take(i as int)[k / 3]);
                        } else {
                            assert(k / 3 == i);
                        }
                    }
                }
            }
            i = i + 1;
        }
        proof {
            assert(faces@.take(i as int) =~= faces@);
        }
        let mut j: usize = 0;
        while j < vertices.len()
            invariant
                j <= vertices@.len(),
                self.vertices@ == old(self).vertices_view() + vertices@.take(j as int),
                self.elements@ == start + face_elements_from(faces@, offset as int),
                start.len() % 3 == 0,
            decreases vertices@.len() - j,
        {
            self.vertices.push(vertices[j]);
            proof {
                assert(vertices@.take(j + 1) =~= vertices@.take(j as int).push(vertices@[j as int]));
            }
            j = j + 1;
        }
        proof {
            assert(vertices@.take(j as int) =~= vertices@);
        }
        GeometrySlice { first_vertex, vertex_count: vertices.len(), first_face, face_count: faces.len() }
    }

    /// A geometry that holds the given vertices and triangles.
    pub fn from_data(vertices: &[V], faces: &[(u32, u32, u32)]) -> (r: Self)
        requires
            faces_fit(faces@, 0),
        ensures
            r.wf(),
            r.vertices_view() == vertices@,
            r.elements_view() == face_elements_from(faces@, 0),
    {
        let mut geometry = Geometry::new();
        geometry.add(vertices, faces);
        proof {
            assert(Seq::<V>::empty() + vertices@ =~= vertices@);
            assert(Seq::<u32>::empty() + face_elements_from(faces@, 0) =~= face_elements_from(faces@, 0));
        }
        geometry
    }

    /// Adds all of another geometry; returns where it went.
    pub fn append(&mut self, geometry: Geometry<V>) -> (r: GeometrySlice)
        requires
            old(self).wf(),
            geometry.wf(),
            forall|i: int|
                0 <= i < geometry.elements_view().len() ==> #[trigger] geometry.elements_view()[i]
                    + (old(self).vertex_count_spec() as u32) <= u32::MAX,
        ensures
            final(self).wf(),
            final(self).vertices_view() == old(self).vertices_view() + geometry.vertices_view(),
            final(self).elements_view() == old(self).elements_view() + offset_elements(
                geometry.elements_view(),
                old(self).vertex_count_spec() as u32 as int,
            ),
            r == (GeometrySlice {
                first_vertex: old(self).vertex_count_spec() as usize,
                vertex_count: geometry.vertex_count_spec() as usize,
                first_face: old(self).face_count_spec() as usize,
                face_count: geometry.face_count_spec() as usize,
            }),
    {
        let first_vertex = self.vertices.len();
        let first_face = self.elements.len() / 3;
        let vertex_count = geometry.vertices.len();
        let face_count = geometry.elements.len() / 3;
        let offset = first_vertex as u32;
        let ghost start = self.elements@;
        let ghost other = geometry.elements@;
        let mut i: usize = 0;
        while i < geometry.elements.len()
            invariant
                i <= other.len(),
                other == geometry.elements@,
                forall|k: int| 0 <= k < other.len() ==> #[trigger] other[k] + offset <= u32::MAX,
                self.elements@ == start + offset_elements(other.take(i as int), offset as int),
                self.vertices@ == old(self).vertices_view(),
            decreases other.len() - i,
        {
            self.elements.push(geometry.elements[i] + offset);
            proof {
                assert(offset_elements(other.take(i + 1), offset as int) =~= offset_elements(
                    other.take(i as int),
                    offset as int,
                ).push((other[i as int] + offset) as u32));
            }
            i = i + 1;
        }
        proof {
            assert(other.take(i as int) =~= other);
        }
        let mut j: usize = 0;
        while j < geometry.vertices.len()
            invariant
                j <= geometry.vertices@.len(),
                self.vertices@ == old(self).vertices_view() + geometry.vertices@.take(j as int),
                self.elements@ == start + offset_elements(other, offset as int),
            decreases geometry.vertices@.len() - j,
        {
            self.vertices.push(geometry.vertices[j]);
            proof {
                assert(geometry.vertices@.take(j + 1) =~= geometry.vertices@.take(j as int).push(
                    geometry.vertices@[j as int],
                ));
            }
            j = j + 1;
        }
        proof {
            assert(geometry.vertices@.take(j as int) =~= geometry.vertices@);
        }
        GeometrySlice { first_vertex, vertex_count, first_face, face_count }
    }
}

/// Every vertex index is one of the `vertex_count` vertices.
pub open spec fn elements_within(elements: Seq<u32>, vertex_count: nat) -> bool {
    forall|i: int| 0 <= i < elements.len() ==> #[trigger] elements[i] < vertex_count
}

/// Adding vertices with triangles between them keeps every triangle on the
/// geometry's own vertices, when the vertex count fits in a `u32`.
pub proof fn law_add_stays_within(
    elements: Seq<u32>,
    vertex_count: nat,
    faces: Seq<(u32, u32, u32)>,
    added: nat,
)
    requires
        elements_within(elements, vertex_count),
        vertex_count + added <= u32::MAX,
        forall|i: int| 0 <= i < faces.len() ==> #[trigger] faces[i].0 < added && faces[i].1 < added && faces[i].2 < added,
    ensures
        elements_within(elements + face_elements_from(faces, vertex_count as u32 as int), vertex_count + added),
{
    let all = elements + face_elements_from(faces, vertex_count as u32 as int);
    assert forall|i: int| 0 <= i < all.len() implies #[trigger] all[i] < vertex_count + added by {
        if i >= elements.len() {
            let k = i - elements.len();
            let f = faces[k / 3];
            assert(f.0 < added && f.1 < added && f.2 < added);
        }
    }
}

} // verus!
