use raw_util::render::{text_glyphs, VertexBufCPU};
use raw_util::ivec2;

#[test]
fn glyphs_of_printable_ascii_only() {
    let chars: Vec<char> = "Hi !é~".chars().collect();
    assert_eq!(
        text_glyphs(&chars),
        vec![(0, ivec2(8, 2)), (1, ivec2(9, 4)), (3, ivec2(1, 0)), (5, ivec2(14, 5))]
    );
    assert_eq!(text_glyphs(&[]), vec![]);
}

#[test]
fn extend_offsets_indices_past_held_vertices() {
    let mut buf: VertexBufCPU<u8> = VertexBufCPU { verts: vec![], inds: vec![] };
    buf.extend(vec![10, 11, 12, 13], vec![0, 1, 2, 0, 2, 3]);
    buf.extend(vec![20, 21, 22, 23], vec![0, 1, 2, 0, 2, 3]);
    assert_eq!(buf.verts, vec![10, 11, 12, 13, 20, 21, 22, 23]);
    assert_eq!(buf.inds, vec![0, 1, 2, 0, 2, 3, 4, 5, 6, 4, 6, 7]);
}
