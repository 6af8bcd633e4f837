use vstd::prelude::*;

verus! {

/// An edge with its ends in increasing order.
pub open spec fn edge_key(a: u32, b: u32) -> (u32, u32) {
    if a > b {
        (b, a)
    } else {
        (a, b)
    }
}

/// The three edges of a triangle, in the order they are split.
pub open spec fn face_edge(f: (u32, u32, u32), j: int) -> (u32, u32) {
    if j == 0 {
        edge_key(f.0, f.1)
    } else if j == 1 {
        edge_key(f.1, f.2)
    } else {
        edge_key(f.2, f.0)
    }
}

/// `edges` with `e` added at the end unless it is already there.
pub open spec fn add_edge(edges: Seq<(u32, u32)>, e: (u32, u32)) -> Seq<(u32, u32)> {
    if edges.contains(e) {
        edges
    } else {
        edges.push(e)
    }
}

/// The distinct edges of the first `n` triangles, in the order they are
/// first met.
pub open spec fn split_edges(faces: Seq<(u32, u32, u32)>, n: int) -> Seq<(u32, u32)>
    decreases n,
{
    if n <= 0 {
        Seq::empty()
    } else {
        let f = faces[n - 1];
        let e = split_edges(faces, n - 1);
        add_edge(add_edge(add_edge(e, face_edge(f, 0)), face_edge(f, 1)), face_edge(f, 2))
    }
}

/// The position of the first `e` in `edges`, or `edges.len()` when there is
/// none.
pub open spec fn edge_position(edges: Seq<(u32, u32)>, e: (u32, u32)) -> int
    decreases edges.len(),
{
    if edges.len() == 0 {
        0
    } else if edges[0] == e {
        0
    } else {
        1 + edge_position(edges.drop_first(), e)
    }
}

/// The index of the vertex in the middle of edge `a`-`b`: new vertices are
/// numbered from `vertex_count` on, one per distinct edge.
pub open spec fn midpoint(vertex_count: nat, edges: Seq<(u32, u32)>, a: u32, b: u32) -> u32 {
    (vertex_count + edge_position(edges, edge_key(a, b))) as u32
}

/// Triangle `i` of the subdivided mesh: each triangle `(a, b, c)` becomes
/// `(a, ab, ca)`, `(b, bc, ab)`, `(c, ca, bc)` and `(ab, bc, ca)`, where `ab`
/// is the vertex in the middle of edge `a`-`b`.
pub open spec fn subdivided_face(vertex_count: nat, faces: Seq<(u32, u32, u32)>, i: int) -> (u32, u32, u32) {
    let edges = split_edges(faces, faces.len() as int);
    let f = faces[i / 4];
    let ab = midpoint(vertex_count, edges, f.0, f.1);
    let bc = midpoint(vertex_count, edges, f.1, f.2);
    let ca = midpoint(vertex_count, edges, f.2, f.0);
    if i % 4 == 0 {
        (f.0, ab, ca)
    } else if i % 4 == 1 {
        (f.1, bc, ab)
    } else if i % 4 == 2 {
        (f.2, ca, bc)
    } else {
        (ab, bc, ca)
    }
}

proof fn lemma_position_first(edges: Seq<(u32, u32)>, e: (u32, u32), j: int)
    requires
        0 <= j < edges.len(),
        edges[j] == e,
        forall|t: int| 0 <= t < j ==> edges[t] != e,
    ensures
        edge_position(edges, e) == j,
    decreases j,
{
    if j > 0 {
        lemma_position_first(edges.drop_first(), e, j - 1);
    }
}

proof fn lemma_position_absent(edges: Seq<(u32, u32)>, e: (u32, u32))
    requires
        !edges.contains(e),
    ensures
        edge_position(edges, e) == edges.len(),
    decreases edges.len(),
{
    if edges.len() > 0 {
        assert(edges[0] != e);
        assert forall|t: int| 0 <= t < edges.drop_first().len() implies edges.drop_first()[t] != e by {
            assert(edges.drop_first()[t] == edges[t + 1]);
        }
        lemma_position_absent(edges.drop_first(), e);
    }
}

/// The position of an edge that a prefix holds is the same in the whole.
proof fn lemma_position_prefix(p: Seq<(u32, u32)>, s: Seq<(u32, u32)>, e: (u32, u32))
    requires
        p.len() <= s.len(),
        p == s.take(p.len() as int),
        p.contains(e),
    ensures
        edge_position(s, e) == edge_position(p, e),
        edge_position(p, e) < p.len(),
    decreases p.len(),
{
    if p[0] != e {
        assert(p.drop_first() == s.drop_first().take(p.len() - 1));
        let t = choose|t: int| 0 <= t < p.len() && p[t] == e;
        assert(p.drop_first()[t - 1] == e);
        lemma_position_prefix(p.drop_first(), s.drop_first(), e);
    } else {
        assert(s[0] == p[0]);
    }
}

proof fn lemma_add_edge_prefix(edges: Seq<(u32, u32)>, e: (u32, u32))
    ensures
        edges == add_edge(edges, e).take(edges.len() as int),
        add_edge(edges, e).contains(e),
        add_edge(edges, e).len() <= edges.len() + 1,
{
    if !edges.contains(e) {
        assert(edges.push(e)[edges.len() as int] == e);
    }
    assert(edges =~= add_edge(edges, e).take(edges.len() as int));
}

proof fn lemma_split_edges_grow(faces: Seq<(u32, u32, u32)>, k: int, n: int)
    requires
        0 <= k <= n,
    ensures
        split_edges(faces, k) == split_edges(faces, n).take(split_edges(faces, k).len() as int),
        split_edges(faces, k).len() <= split_edges(faces, n).len(),
        split_edges(faces, n).len() <= split_edges(faces, k).len() + 3 * (n - k),
    decreases n - k,
{
    if k < n {
        lemma_split_edges_grow(faces, k, n - 1);
        let f = faces[n - 1];
        let e0 = split_edges(faces, n - 1);
        let e1 = add_edge(e0, face_edge(f, 0));
        let e2 = add_edge(e1, face_edge(f, 1));
        lemma_add_edge_prefix(e0, face_edge(f, 0));
        lemma_add_edge_prefix(e1, face_edge(f, 1));
        lemma_add_edge_prefix(e2, face_edge(f, 2));
        let ek = split_edges(faces, k);
        assert(ek =~= split_edges(faces, n).take(ek.len() as int));
    } else {
        assert(split_edges(faces, k) =~= split_edges(faces, k).take(split_edges(faces, k).len() as int));
    }
}

/// Splits edge `a`-`b`: the index of its middle vertex, added to `edges` if
/// the edge is new.
fn split_edge(edges: &mut Vec<(u32, u32)>, a: u32, b: u32, vertex_count: usize) -> (r: u32)
    requires
        vertex_count + old(edges)@.len() < usize::MAX,
    ensures
        final(edges)@ == add_edge(old(edges)@, edge_key(a, b)),
        r == (vertex_count + edge_position(final(edges)@, edge_key(a, b))) as u32,
{
    let key = if a > b {
        (b, a)
    } else {
        (a, b)
    };
    let mut j: usize = 0;
    while j < edges.len()
        invariant
            j <= edges@.len(),
            edges@ == old(edges)@,
            vertex_count + old(edges)@.len() < usize::MAX,
            key == edge_key(a, b),
            forall|t: int| 0 <= t < j ==> edges@[t] != key,
        decreases edges@.len() - j,
    {
        let e = edges[j];
        if e.0 == key.0 && e.1 == key.1 {
            proof {
                assert(edges@.contains(key));
                lemma_position_first(edges@, key, j as int);
            }
            return (vertex_count + j) as u32;
        }
        j = j + 1;
    }
    proof {
        assert(!edges@.contains(key));
    }
    let n = edges.len();
    edges.push(key);
    proof {
        lemma_position_first(edges@, key, n as int);
    }
    (vertex_count + n) as u32
}

/// Splits every triangle of a mesh with `vertex_count` vertices into four:
/// returns the new triangles and, for the new vertices numbered from
/// `vertex_count` on, the edge whose middle each one is.
pub fn subdivide_faces(vertex_count: usize, faces: &Vec<(u32, u32, u32)>) -> (r: (Vec<(u32, u32, u32)>, Vec<(u32, u32)>))
    requires
        vertex_count + 3 * faces@.len() < usize::MAX,
    ensures
        r.1@ == split_edges(faces@, faces@.len() as int),
        r.1@.len() <= 3 * faces@.len(),
        r.0@.len() == 4 * faces@.len(),
        forall|i: int| 0 <= i < r.0@.len() ==> #[trigger] r.0@[i] == subdivided_face(vertex_count as nat, faces@, i),
{
    let ghost all = split_edges(faces@, faces@.len() as int);
    let mut edges: Vec<(u32, u32)> = Vec::new();
    let mut out: Vec<(u32, u32, u32)> = Vec::new();
    let mut i: usize = 0;
    while i < faces.len()
        invariant
            i <= faces@.len(),
            vertex_count + 3 * faces@.len() < usize::MAX,
            all == split_edges(faces@, faces@.len() as int),
            edges@ == split_edges(faces@, i as int),
            edges@.len() <= 3 * i,
            out@.len() == 4 * i,
            forall|t: int| 0 <= t < out@.len() ==> #[trigger] out@[t] == subdivided_face(vertex_count as nat, faces@, t),
        decreases faces@.len() - i,
    {
        let f = faces[i];
        let ghost e0 = edges@;
        let ab = split_edge(&mut edges, f.0, f.1, vertex_count);
        let ghost e1 = edges@;
        let bc = split_edge(&mut edges, f.1, f.2, vertex_count);
        let ghost e2 = edges@;
        let ca = split_edge(&mut edges, f.2, f.0, vertex_count);
        proof {
            lemma_add_edge_prefix(e0, face_edge(f, 0));
            lemma_add_edge_prefix(e1, face_edge(f, 1));
            lemma_add_edge_prefix(e2, face_edge(f, 2));
            assert(edges@ == split_edges(faces@, i + 1));
            lemma_split_edges_grow(faces@, i + 1, faces@.len() as int);
            assert(e1 == e2.take(e1.len() as int));
            assert(e1 =~= edges@.take(e1.len() as int));
            lemma_position_prefix(e1, edges@, edge_key(f.0, f.1));
            lemma_position_prefix(e2, edges@, edge_key(f.1, f.2));
            lemma_position_prefix(edges@, all, edge_key(f.0, f.1));
            lemma_position_prefix(edges@, all, edge_key(f.1, f.2));
            lemma_position_prefix(edges@, all, edge_key(f.2, f.0));
            assert(edge_key(f.2, f.0) == face_edge(f, 2));
            assert(ab == midpoint(vertex_count as nat, all, f.0, f.1));
            assert(bc == midpoint(vertex_count as nat, all, f.1, f.2));
            assert(ca == midpoint(vertex_count as nat, all, f.2, f.0));
        }
        let ghost before = out@;
        out.push((f.0, ab, ca));
        out.push((f.1, bc, ab));
        out.push((f.2, ca, bc));
        out.push((ab, bc, ca));
        proof {
            assert forall|t: int| 0 <= t < out@.len() implies #[trigger] out@[t] == subdivided_face(
                vertex_count as nat,
                faces@,
                t,
            ) by {
                if t >= 4 * i {
                    assert(t / 4 == i as int);
                } else {
                    assert(out@[t] == before[t]);
                }
            }
        }
        i = i + 1;
    }
    (out, edges)
}

/// The triangles after one subdivision of `faces`, whose new vertices are
/// numbered from `vertex_count` on.
pub open spec fn subdivided(vertex_count: nat, faces: Seq<(u32, u32, u32)>) -> Seq<(u32, u32, u32)> {
    Seq::new(4 * faces.len(), |i: int| subdivided_face(vertex_count, faces, i))
}

/// The vertex count and the triangles after `k` subdivisions.
pub open spec fn subdivided_levels(vertex_count: nat, faces: Seq<(u32, u32, u32)>, k: nat) -> (nat, Seq<
    (u32, u32, u32),
>)
    decreases k,
{
    if k == 0 {
        (vertex_count, faces)
    } else {
        let prev = subdivided_levels(vertex_count, faces, (k - 1) as nat);
        (prev.0 + split_edges(prev.1, prev.1.len() as int).len(), subdivided(prev.0, prev.1))
    }
}

/// Four to the power `k`.
pub open spec fn pow4(k: nat) -> nat
    decreases k,
{
    if k == 0 {
        1
    } else {
        4 * pow4((k - 1) as nat)
    }
}

proof fn lemma_pow4_positive(k: nat)
    ensures
        pow4(k) >= 1,
    decreases k,
{
    if k > 0 {
        lemma_pow4_positive((k - 1) as nat);
    }
}

proof fn lemma_pow4_split(j: nat, k: nat)
    requires
        j <= k,
    ensures
        pow4(k) == pow4(j) * pow4((k - j) as nat),
    decreases j,
{
    if j > 0 {
        lemma_pow4_split((j - 1) as nat, (k - 1) as nat);
        assert(pow4(j) == 4 * pow4((j - 1) as nat));
        assert(pow4(k) == 4 * pow4((k - 1) as nat));
        assert((k - 1 - (j - 1)) as nat == (k - j) as nat);
        vstd::arithmetic::mul::lemma_mul_is_associative(4, pow4((j - 1) as nat) as int, pow4((k - j) as nat) as int);
    } else {
        assert(pow4(0) == 1);
        vstd::arithmetic::mul::lemma_mul_basics(pow4(k) as int);
    }
}

/// Subdivides the triangles `levels` times, as `subdivide_faces` does once;
/// returns the final triangles and, for each level, the edges split there
/// (their midpoints are that level's new vertices, in order). Each level
/// multiplies the number of triangles by four.
pub fn subdivide_levels(vertex_count: usize, faces: Vec<(u32, u32, u32)>, levels: u32) -> (r: (
    Vec<(u32, u32, u32)>,
    Vec<Vec<(u32, u32)>>,
))
    requires
        vertex_count + faces@.len() * pow4(levels as nat) < usize::MAX,
    ensures
        r.0@ == subdivided_levels(vertex_count as nat, faces@, levels as nat).1,
        r.0@.len() == faces@.len() * pow4(levels as nat),
        r.1@.len() == levels,
        forall|j: int|
            0 <= j < levels ==> (#[trigger] r.1@[j])@ == split_edges(
                subdivided_levels(vertex_count as nat, faces@, j as nat).1,
                subdivided_levels(vertex_count as nat, faces@, j as nat).1.len() as int,
            ),
{
    let ghost f0 = faces@.len();
    let ghost total = pow4(levels as nat);
    let mut current = faces;
    let mut count: usize = vertex_count;
    let mut split: Vec<Vec<(u32, u32)>> = Vec::new();
    let mut j: u32 = 0;
    proof {
        lemma_pow4_split(0, levels as nat);
        lemma_pow4_positive(levels as nat);
    }
    while j < levels
        invariant
            j <= levels,
            vertex_count + f0 * total < usize::MAX,
            total == pow4(levels as nat),
            (count as nat, current@) == subdivided_levels(vertex_count as nat, faces@, j as nat),
            current@.len() * pow4((levels - j) as nat) == f0 * total,
            count + f0 <= vertex_count + current@.len(),
            split@.len() == j,
            forall|t: int|
                0 <= t < j ==> (#[trigger] split@[t])@ == split_edges(
                    subdivided_levels(vertex_count as nat, faces@, t as nat).1,
                    subdivided_levels(vertex_count as nat, faces@, t as nat).1.len() as int,
                ),
        decreases levels - j,
    {
        let ghost len = current@.len();
        proof {
            let rest = (levels - j - 1) as nat;
            lemma_pow4_split(1, (levels - j) as nat);
            lemma_pow4_positive(rest);
            assert(pow4(1) == 4) by {
                assert(pow4(0) == 1);
            }
            vstd::arithmetic::mul::lemma_mul_is_associative(len as int, 4, pow4(rest) as int);
            vstd::arithmetic::mul::lemma_mul_inequality(1, pow4(rest) as int, (len * 4) as int);
            vstd::arithmetic::mul::lemma_mul_is_commutative((len * 4) as int, pow4(rest) as int);
        }
        let (next, edges) = subdivide_faces(count, &current);
        proof {
            assert(next@ =~= subdivided(count as nat, current@));
        }
        count = count + edges.len();
        current = next;
        split.push(edges);
        j = j + 1;
    }
    proof {
        assert(pow4(0) == 1);
        assert(current@.len() * pow4(0) == current@.len());
    }
    (current, split)
}

/// Every corner of every triangle is one of the `vertex_count` vertices.
pub open spec fn faces_within(faces: Seq<(u32, u32, u32)>, vertex_count: nat) -> bool {
    forall|i: int|
        0 <= i < faces.len() ==> #[trigger] faces[i].0 < vertex_count && faces[i].1 < vertex_count && faces[i].2
            < vertex_count
}

proof fn lemma_face_edges_split(faces: Seq<(u32, u32, u32)>, n: int, i: int)
    requires
        0 <= i < n <= faces.len(),
    ensures
        split_edges(faces, n).contains(face_edge(faces[i], 0)),
        split_edges(faces, n).contains(face_edge(faces[i], 1)),
        split_edges(faces, n).contains(face_edge(faces[i], 2)),
    decreases n,
{
    let f = faces[n - 1];
    let e0 = split_edges(faces, n - 1);
    let e1 = add_edge(e0, face_edge(f, 0));
    let e2 = add_edge(e1, face_edge(f, 1));
    lemma_add_edge_prefix(e0, face_edge(f, 0));
    lemma_add_edge_prefix(e1, face_edge(f, 1));
    lemma_add_edge_prefix(e2, face_edge(f, 2));
    let all = split_edges(faces, n);
    assert forall|e: (u32, u32)| e0.contains(e) implies all.contains(e) by {
        let t = choose|t: int| 0 <= t < e0.len() && e0[t] == e;
        assert(e1[t] == e);
        assert(e2[t] == e);
        assert(all[t] == e);
    }
    assert(e1[e1.len() - 1] == face_edge(f, 0) || e0.contains(face_edge(f, 0)));
    assert forall|e: (u32, u32)| e1.contains(e) implies all.contains(e) by {
        let t = choose|t: int| 0 <= t < e1.len() && e1[t] == e;
        assert(e2[t] == e);
        assert(all[t] == e);
    }
    assert forall|e: (u32, u32)| e2.contains(e) implies all.contains(e) by {
        let t = choose|t: int| 0 <= t < e2.len() && e2[t] == e;
        assert(all[t] == e);
    }
    if i < n - 1 {
        lemma_face_edges_split(faces, n - 1, i);
    }
}

proof fn lemma_position_within(edges: Seq<(u32, u32)>, e: (u32, u32))
    requires
        edges.contains(e),
    ensures
        0 <= edge_position(edges, e) < edges.len(),
    decreases edges.len(),
{
    if edges[0] != e {
        let t = choose|t: int| 0 <= t < edges.len() && edges[t] == e;
        assert(edges.drop_first()[t - 1] == e);
        lemma_position_within(edges.drop_first(), e);
    }
}

/// Subdividing keeps a mesh whole: when every corner of the old triangles
/// is an old vertex, every corner of the new ones is an old vertex or one of
/// the new middle vertices.
pub proof fn law_subdivision_stays_within(vertex_count: nat, faces: Seq<(u32, u32, u32)>)
    requires
        faces_within(faces, vertex_count),
        vertex_count + split_edges(faces, faces.len() as int).len() <= u32::MAX,
    ensures
        faces_within(
            Seq::new(4 * faces.len(), |i: int| subdivided_face(vertex_count, faces, i)),
            vertex_count + split_edges(faces, faces.len() as int).len(),
        ),
{
    let n = faces.len() as int;
    let all = split_edges(faces, n);
    let new_faces = Seq::new(4 * faces.len(), |i: int| subdivided_face(vertex_count, faces, i));
    assert forall|i: int| 0 <= i < new_faces.len() implies #[trigger] new_faces[i].0 < vertex_count + all.len()
        && new_faces[i].1 < vertex_count + all.len() && new_faces[i].2 < vertex_count + all.len() by {
        let k = i / 4;
        assert(0 <= k < faces.len());
        let f = faces[k];
        assert(f.0 < vertex_count && f.1 < vertex_count && f.2 < vertex_count);
        lemma_face_edges_split(faces, n, k);
        lemma_position_within(all, face_edge(f, 0));
        lemma_position_within(all, face_edge(f, 1));
        lemma_position_within(all, face_edge(f, 2));
    }
}

/// The triangles of the icosahedron whose 12 vertices the caller places.
pub open spec fn icosahedron_face_table() -> Seq<(u32, u32, u32)> {
    seq![
        (0u32, 1u32, 4u32),
        (0, 4, 9),
        (9, 4, 5),
        (4, 8, 5),
        (4, 1, 8),
        (8, 1, 10),
        (8, 10, 3),
        (5, 8, 3),
        (5, 3, 2),
        (2, 3, 7),
        (7, 3, 10),
        (7, 10, 6),
        (7, 6, 11),
        (11, 6, 0),
        (0, 6, 1),
        (6, 10, 1),
        (9, 11, 0),
        (9, 2, 11),
        (9, 5, 2),
        (7, 11, 2),
    ]
}

/// The triangles of the icosahedron, over its vertices numbered 0 to 11.
pub fn icosahedron_faces() -> (r: Vec<(u32, u32, u32)>)
    ensures
        r@ == icosahedron_face_table(),
{
    let r = vec![
        (0u32, 1u32, 4u32),
        (0, 4, 9),
        (9, 4, 5),
        (4, 8, 5),
        (4, 1, 8),
        (8, 1, 10),
        (8, 10, 3),
        (5, 8, 3),
        (5, 3, 2),
        (2, 3, 7),
        (7, 3, 10),
        (7, 10, 6),
        (7, 6, 11),
        (11, 6, 0),
        (0, 6, 1),
        (6, 10, 1),
        (9, 11, 0),
        (9, 2, 11),
        (9, 5, 2),
        (7, 11, 2),
    ];
    proof {
        assert(r@ =~= icosahedron_face_table());
    }
    r
}

/// The triangles of a sphere made from the icosahedron by `levels`
/// subdivisions, with the edges split at each level: 20 times four to the
/// power `levels` triangles.
pub fn icosphere_faces(levels: u32) -> (r: (Vec<(u32, u32, u32)>, Vec<Vec<(u32, u32)>>))
    requires
        12 + 20 * pow4(levels as nat) < usize::MAX,
    ensures
        r.0@ == subdivided_levels(12, icosahedron_face_table(), levels as nat).1,
        r.0@.len() == 20 * pow4(levels as nat),
        r.1@.len() == levels,
        forall|j: int|
            0 <= j < levels ==> (#[trigger] r.1@[j])@ == split_edges(
                subdivided_levels(12, icosahedron_face_table(), j as nat).1,
                subdivided_levels(12, icosahedron_face_table(), j as nat).1.len() as int,
            ),
{
    let faces = icosahedron_faces();
    assert(faces@.len() == 20);
    subdivide_levels(12, faces, levels)
}

/// The icosahedron's triangles use only its 12 vertices.
pub proof fn law_icosahedron_within()
    ensures
        faces_within(icosahedron_face_table(), 12),
{
    let t = icosahedron_face_table();
    assert forall|i: int| 0 <= i < t.len() implies #[trigger] t[i].0 < 12 && t[i].1 < 12 && t[i].2 < 12 by {
        assert(t[i] == icosahedron_face_table()[i]);
    }
}

proof fn lemma_add_edge_distinct(edges: Seq<(u32, u32)>, e: (u32, u32))
    requires
        edges.no_duplicates(),
    ensures
        add_edge(edges, e).no_duplicates(),
{
    if !edges.contains(e) {
        let s = edges.push(e);
        assert forall|i: int, j: int| 0 <= i < s.len() && 0 <= j < s.len() && i != j implies s[i] != s[j] by {
            if i == edges.len() {
                assert(edges[j] != e);
            } else if j == edges.len() {
                assert(edges[i] != e);
            }
        }
    }
}

/// Each edge is split once: the middle vertices stand for distinct edges.
pub proof fn law_split_edges_distinct(faces: Seq<(u32, u32, u32)>, n: int)
    ensures
        split_edges(faces, n).no_duplicates(),
    decreases n,
{
    if n > 0 {
        law_split_edges_distinct(faces, n - 1);
        let f = faces[n - 1];
        let e0 = split_edges(faces, n - 1);
        lemma_add_edge_distinct(e0, face_edge(f, 0));
        let e1 = add_edge(e0, face_edge(f, 0));
        lemma_add_edge_distinct(e1, face_edge(f, 1));
        let e2 = add_edge(e1, face_edge(f, 1));
        lemma_add_edge_distinct(e2, face_edge(f, 2));
    }
}

} // verus!
