use innovus::glyph::{glyph_width_of, layout_text, quad_faces, GlyphPlacement, GlyphSet};
use innovus::mesh::{icosahedron_faces, icosphere_faces, subdivide_faces, subdivide_levels};

#[test]
fn subdivide_one_triangle() {
    let (faces, edges) = subdivide_faces(3, &vec![(0, 1, 2)]);
    assert_eq!(edges, vec![(0, 1), (1, 2), (0, 2)]);
    assert_eq!(faces, vec![(0, 3, 5), (1, 4, 3), (2, 5, 4), (3, 4, 5)]);
}

#[test]
fn subdivide_shares_edges() {
    let (faces, edges) = subdivide_faces(4, &vec![(0, 1, 2), (2, 1, 3)]);
    assert_eq!(edges, vec![(0, 1), (1, 2), (0, 2), (1, 3), (2, 3)]);
    assert_eq!(faces.len(), 8);
    assert_eq!(faces[4], (2, 5, 8));
    assert_eq!(faces[5], (1, 7, 5));
    assert_eq!(faces[6], (3, 8, 7));
    assert_eq!(faces[7], (5, 7, 8));
}

#[test]
fn icosphere_counts() {
    let faces = icosahedron_faces();
    assert_eq!(faces.len(), 20);
    assert!(faces.iter().all(|f| f.0 < 12 && f.1 < 12 && f.2 < 12));
    let (faces1, edges1) = subdivide_faces(12, &faces);
    assert_eq!(edges1.len(), 30);
    assert_eq!(faces1.len(), 80);
    let (faces2, edges2) = subdivide_faces(12 + edges1.len(), &faces1);
    assert_eq!(edges2.len(), 120);
    assert_eq!(faces2.len(), 320);
    let limit = (12 + edges1.len() + edges2.len()) as u32;
    assert!(faces2.iter().all(|f| f.0 < limit && f.1 < limit && f.2 < limit));
}

#[test]
fn glyph_widths() {
    assert_eq!(glyph_width_of(GlyphSet::Gui, b' '), 4);
    assert_eq!(glyph_width_of(GlyphSet::World, b' '), 5);
    assert_eq!(glyph_width_of(GlyphSet::World, b'i'), 1);
    assert_eq!(glyph_width_of(GlyphSet::World, b'l'), 2);
    assert_eq!(glyph_width_of(GlyphSet::World, b'I'), 3);
    assert_eq!(glyph_width_of(GlyphSet::World, b'f'), 4);
    assert_eq!(glyph_width_of(GlyphSet::World, b'A'), 5);
    assert_eq!(glyph_width_of(GlyphSet::World, 0x7f), 0);
    assert_eq!(glyph_width_of(GlyphSet::World, 0xad), 0);
    assert_eq!(glyph_width_of(GlyphSet::World, 0xef), 3);
}

#[test]
fn text_layout_positions() {
    let layout = layout_text(GlyphSet::Gui, b"Hi !");
    // 3 + (5+1) + (1+1) + (4+1) + (1+1)
    assert_eq!(layout.width, 18);
    assert_eq!(
        layout.glyphs,
        vec![
            GlyphPlacement { x: 2, atlas_x: 64, atlas_y: 32 },
            GlyphPlacement { x: 8, atlas_x: 72, atlas_y: 48 },
            GlyphPlacement { x: 10, atlas_x: 0, atlas_y: 16 },
            GlyphPlacement { x: 15, atlas_x: 8, atlas_y: 16 },
        ]
    );
    assert_eq!(layout_text(GlyphSet::World, b"").width, 3);
}

#[test]
fn quads() {
    assert_eq!(quad_faces(2), vec![(0, 1, 2), (2, 3, 0), (4, 5, 6), (6, 7, 4)]);
    assert!(quad_faces(0).is_empty());
}

use innovus::geometry::{Geometry, GeometrySlice};

#[test]
fn geometry_add_offsets_faces() {
    let mut g: Geometry<u8> = Geometry::new();
    assert!(g.is_empty());
    let s1 = g.add(&[10, 11, 12], &[(0, 1, 2)]);
    assert_eq!(s1, GeometrySlice { first_vertex: 0, vertex_count: 3, first_face: 0, face_count: 1 });
    let s2 = g.add(&[20, 21, 22, 23], &[(0, 1, 2), (2, 3, 0)]);
    assert_eq!(s2, GeometrySlice { first_vertex: 3, vertex_count: 4, first_face: 1, face_count: 2 });
    assert_eq!(g.face_elements(), &[0, 1, 2, 3, 4, 5, 5, 6, 3]);
    assert_eq!(g.vertex_count(), 7);
    assert_eq!(g.face_count(), 3);
    assert_eq!(g.get_vertex(4), 21);
    g.set_vertex(4, 99);
    assert_eq!(g.vertices(), &[10, 11, 12, 20, 99, 22, 23]);
    assert_eq!(g.as_slice(), GeometrySlice { first_vertex: 0, vertex_count: 7, first_face: 0, face_count: 3 });
    let other = Geometry::from_data(&[1u8, 2, 3], &[(2, 1, 0)]);
    let s3 = g.append(other);
    assert_eq!(s3, GeometrySlice { first_vertex: 7, vertex_count: 3, first_face: 3, face_count: 1 });
    assert_eq!(&g.face_elements()[9..], &[9, 8, 7]);
    g.clear();
    assert!(g.is_empty());
}

#[test]
fn icosphere_levels_match_repeated_subdivision() {
    let (faces0, levels0) = icosphere_faces(0);
    assert_eq!(faces0, icosahedron_faces());
    assert!(levels0.is_empty());

    let (faces1, edges1) = subdivide_faces(12, &icosahedron_faces());
    let (faces2, edges2) = subdivide_faces(12 + edges1.len(), &faces1);
    let (faces, levels) = icosphere_faces(2);
    assert_eq!(faces.len(), 320);
    assert_eq!(faces, faces2);
    assert_eq!(levels, vec![edges1, edges2]);
    assert_eq!(levels[0].len(), 30);
    assert_eq!(levels[1].len(), 120);
    assert_eq!(12 + levels[0].len() + levels[1].len(), 10 * 16 + 2);
}

#[test]
fn subdivide_levels_counts_triangles() {
    let (faces, levels) = subdivide_levels(3, vec![(0, 1, 2)], 3);
    assert_eq!(faces.len(), 64);
    assert_eq!(levels.len(), 3);
    assert_eq!(levels[0], vec![(0, 1), (1, 2), (0, 2)]);
    let (once, _) = subdivide_levels(3, vec![(0, 1, 2)], 1);
    assert_eq!(once, subdivide_faces(3, &vec![(0, 1, 2)]).0);
}
