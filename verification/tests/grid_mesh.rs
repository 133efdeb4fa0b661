use voxel_mesh::mesh::Vertex;
use voxel_mesh::voxel_data::Color;
use voxel_mesh::voxel_data::VoxelData;
use voxel_mesh::voxel_data::VoxelError;
use voxel_mesh::voxel_data::txt::Coord;
use voxel_mesh::voxel_data::txt::Rgb;

#[test]
fn grid_round_trip_bounds() {
    let recs = vec![
        (Rgb::new(1, 2, 3), Coord::new(-1, 2, 5)),
        (Rgb::new(9, 8, 7), Coord::new(1, 0, 3)),
    ];
    let g = VoxelData::from_records(&recs).unwrap();
    assert_eq!(g.width, 3); // x spans [-1, 1]
    assert_eq!(g.height, 3); // y spans [0, 2]
    assert_eq!(g.depth, 3); // z spans [3, 5]
    assert_eq!(g.cell(0, 2, 2), Color::new(1, 2, 3));
    assert_eq!(g.cell(2, 0, 0), Color::new(9, 8, 7));
    for x in 0..3u32 {
        for y in 0..3u32 {
            for z in 0..3u32 {
                if (x, y, z) != (0, 2, 2) && (x, y, z) != (2, 0, 0) {
                    assert_eq!(g.cell(x, y, z), Color::clear());
                }
            }
        }
    }
}

#[test]
fn duplicate_position_last_record_wins() {
    let recs = vec![
        (Rgb::new(1, 1, 1), Coord::new(0, 0, 0)),
        (Rgb::new(2, 2, 2), Coord::new(0, 0, 0)),
    ];
    let g = VoxelData::from_records(&recs).unwrap();
    assert_eq!(g.width, 1);
    assert_eq!(g.height, 1);
    assert_eq!(g.depth, 1);
    assert_eq!(g.cell(0, 0, 0), Color::new(2, 2, 2));
}

#[test]
fn empty_record_list_rejected() {
    let recs: Vec<(Rgb, Coord)> = vec![];
    assert!(matches!(
        VoxelData::from_records(&recs),
        Err(VoxelError::EmptyInput)
    ));
}

#[test]
fn oversized_bounding_box_rejected() {
    let recs = vec![
        (Rgb::new(1, 1, 1), Coord::new(0, 0, 0)),
        (Rgb::new(1, 1, 1), Coord::new(4294967295, 0, 0)),
    ];
    assert!(matches!(
        VoxelData::from_records(&recs),
        Err(VoxelError::GridTooLarge)
    ));
}

#[test]
fn from_txt_builds_grid() {
    let g = VoxelData::from_txt("0 0 0 ff0000\n1 1 -1 00ff00\n").unwrap();
    assert_eq!(g.width, 2);
    assert_eq!(g.height, 2);
    assert_eq!(g.depth, 2);
    assert_eq!(g.cell(0, 0, 0), Color::new(0xff, 0, 0));
    assert_eq!(g.cell(1, 1, 1), Color::new(0, 0xff, 0));
    assert_eq!(g.cell(0, 1, 0), Color::clear());
}

#[test]
fn from_txt_propagates_errors() {
    assert!(matches!(
        VoxelData::from_txt("bogus"),
        Err(VoxelError::Parse)
    ));
    assert!(matches!(
        VoxelData::from_txt("# only a comment"),
        Err(VoxelError::EmptyInput)
    ));
}

#[test]
fn single_voxel_mesh() {
    let g = VoxelData::new(vec![Color::new(10, 20, 30)], 1, 1, 1);
    let m = g.verts();
    assert_eq!(m.vertices.len(), 8);
    assert_eq!(m.indices.len(), 36);
    assert_eq!(m.texels, vec![10, 20, 30, 0xFF]);
    assert_eq!(m.atlas_width, 1);
    assert_eq!(m.atlas_height, 1);
    // the fixed corner-to-face topology table, verbatim
    let expected: Vec<u16> = vec![
        0, 1, 3, 0, 3, 2, // left face
        0, 4, 5, 0, 5, 1, // bottom face
        0, 2, 4, 2, 7, 4, // back face
        1, 3, 5, 3, 6, 5, // front face
        4, 5, 6, 4, 6, 7, // right face
        2, 7, 6, 2, 6, 3, // top face
    ];
    assert_eq!(m.indices, expected);
    // all 8 vertices address atlas texel 0 of a 1-texel atlas: uv.x == 0.0
    for v in &m.vertices {
        assert_eq!(v.uv_num, 0);
        assert_eq!(v.uv_den, 1);
        assert!(v.uv_y_half);
    }
    // the 8 unit-cube corners, in emission order
    let corners: Vec<(u32, u32, u32)> = m.vertices.iter().map(|v| (v.x, v.y, v.z)).collect();
    assert_eq!(
        corners,
        vec![
            (0, 0, 0),
            (0, 0, 1),
            (0, 1, 0),
            (0, 1, 1),
            (1, 0, 0),
            (1, 0, 1),
            (1, 1, 1),
            (1, 1, 0),
        ]
    );
}

#[test]
fn mesh_cardinality_and_uv_bounds() {
    let mut colors = vec![Color::clear(); 8];
    colors[0] = Color::new(1, 2, 3); // cell (0, 0, 0)
    colors[7] = Color::new(4, 5, 6); // cell (1, 1, 1)
    let g = VoxelData::new(colors, 2, 2, 2);
    let m = g.verts();
    assert_eq!(m.vertices.len(), 16);
    assert_eq!(m.indices.len(), 72);
    assert_eq!(m.texels.len(), 8);
    assert_eq!(m.atlas_width, 2);
    assert_eq!(m.indices.len() % 3, 0);
    for &i in &m.indices {
        assert!((i as usize) < m.vertices.len());
    }
    for v in &m.vertices {
        assert!(v.uv_num < v.uv_den);
        assert_eq!(v.uv_den, 2);
        assert!(v.uv_y_half);
    }
    // the second visible voxel's block: texel, atlas index, base corner
    assert_eq!(&m.texels[4..8], &[4, 5, 6, 0xFF]);
    assert_eq!(m.vertices[8].uv_num, 1);
    assert_eq!((m.vertices[8].x, m.vertices[8].y, m.vertices[8].z), (1, 1, 1));
    // its index entries are offset by the 8 vertices already emitted
    assert_eq!(m.indices[36], 8);
    assert_eq!(m.indices[37], 9);
    assert_eq!(m.indices[38], 11);
}

#[test]
fn empty_grid_compiles_to_empty_buffers() {
    let g = VoxelData::new(vec![Color::clear(); 27], 3, 3, 3);
    let m = g.verts();
    assert_eq!(m.vertices.len(), 0);
    assert_eq!(m.indices.len(), 0);
    assert_eq!(m.texels.len(), 0);
    assert_eq!(m.atlas_width, 0);
    assert_eq!(m.atlas_height, 1);
}

#[test]
fn traversal_order_is_x_then_y_then_z() {
    // grid 2x1x2, all visible: flat order (0,0,0), (0,0,1), (1,0,0), (1,0,1)
    let g = VoxelData::new(
        vec![
            Color::new(0, 0, 1),
            Color::new(0, 0, 2),
            Color::new(0, 0, 3),
            Color::new(0, 0, 4),
        ],
        2,
        1,
        2,
    );
    let m = g.verts();
    assert_eq!(m.atlas_width, 4);
    assert_eq!(m.texels[2], 1);
    assert_eq!(m.texels[6], 2);
    assert_eq!(m.texels[10], 3);
    assert_eq!(m.texels[14], 4);
    // blocks follow the traversal: base corner of block 2 is cell (1, 0, 0)
    assert_eq!((m.vertices[16].x, m.vertices[16].y, m.vertices[16].z), (1, 0, 0));
    assert_eq!(m.vertices[16].uv_num, 2);
}

#[test]
fn index_entries_wrap_at_u16_but_stay_in_range() {
    // more than 8192 visible voxels: vertex positions past 65535 no longer fit
    // an index entry, which reduces modulo 2^16 yet stays below the count
    let n: usize = 8200;
    let g = VoxelData::new(vec![Color::new(7, 7, 7); n], 1, 1, n as u32);
    let m = g.verts();
    assert_eq!(m.vertices.len(), 8 * n);
    assert_eq!(m.indices.len(), 36 * n);
    for &i in &m.indices {
        assert!((i as usize) < m.vertices.len());
    }
    // the first wrapped entry: voxel 8192's block starts at vertex 65536
    assert_eq!(m.indices[36 * 8192], 0);
}

#[test]
fn raw_vertex_carries_atlas_index() {
    let v = Vertex::new(3, 4, 5, 2);
    assert_eq!((v.x, v.y, v.z), (3, 4, 5));
    assert_eq!(v.uv_num, 2);
    assert_eq!(v.uv_den, 0);
    assert!(!v.uv_y_half);
}
