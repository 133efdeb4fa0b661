//! Mesh data model: vertices, index topology and the compiled mesh buffers.
//!
//! Vertex positions are exact integers (unit-cube corners offset by the voxel's
//! grid coordinates) and texture coordinates are exact rationals, so the whole
//! mesh can be reasoned about without floating point. A caller that uploads the
//! mesh to a graphics device converts each coordinate to a float at the edge.

use vstd::prelude::*;

use crate::voxel_data::Color;
use crate::voxel_data::flat;

verus! {

/// One mesh vertex.
///
/// `uv_num` and `uv_den` encode the horizontal texture coordinate as the exact
/// rational `uv_num / uv_den`. While the mesh is being compiled, `uv_den` is 0
/// and `uv_num` carries the raw atlas-texel index of the vertex's voxel; the
/// normalization pass divides by the final atlas width, recorded by setting
/// `uv_den`. The vertical texture coordinate is 0 while `uv_y_half` is false
/// and 1/2 (the vertical center of the one-row atlas) once it is true.
#[derive(Clone, Copy, Debug, PartialEq, Eq, Structural)]
pub struct Vertex {
    pub x: u32,
    pub y: u32,
    pub z: u32,
    pub uv_num: u32,
    pub uv_den: u32,
    pub uv_y_half: bool,
}

impl Vertex {
    /// A raw (pre-normalization) vertex at position `(x, y, z)` whose
    /// horizontal texture coordinate still carries the atlas-texel index `u`.
    pub fn new(x: u32, y: u32, z: u32, u: u32) -> (v: Vertex)
        ensures
            v == (Vertex { x, y, z, uv_num: u, uv_den: 0, uv_y_half: false }),
    {
        Vertex { x, y, z, uv_num: u, uv_den: 0, uv_y_half: false }
    }
}

/// The compiled mesh: interleaved vertices, a triangle-list index buffer and a
/// one-row RGBA8 color atlas with one texel per visible voxel.
pub struct MeshBuffers {
    pub vertices: Vec<Vertex>,
    pub indices: Vec<u16>,
    pub texels: Vec<u8>,
    pub atlas_width: u32,
    pub atlas_height: u32,
}

/// Offset (0 or 1) along the x axis of corner `c` of a unit cube.
pub open spec fn corner_dx(c: int) -> int {
    if 4 <= c < 8 {
        1
    } else {
        0
    }
}

/// Offset (0 or 1) along the y axis of corner `c` of a unit cube.
pub open spec fn corner_dy(c: int) -> int {
    if c == 2 || c == 3 || c == 6 || c == 7 {
        1
    } else {
        0
    }
}

/// Offset (0 or 1) along the z axis of corner `c` of a unit cube.
pub open spec fn corner_dz(c: int) -> int {
    if c == 1 || c == 3 || c == 5 || c == 6 {
        1
    } else {
        0
    }
}

/// The fixed corner-to-face topology of a voxel cube: entry `t` of the 36-entry
/// index table that builds 12 triangles (two per face) from the cube's 8
/// corners. The table is a deliberate constant: its exact values fix the face
/// winding and must not be rederived.
pub open spec fn cube_local(t: int) -> int {
    if t == 0 {
        0  // left face
    } else if t == 1 {
        1
    } else if t == 2 {
        3
    } else if t == 3 {
        0
    } else if t == 4 {
        3
    } else if t == 5 {
        2
    } else if t == 6 {
        0  // bottom face
    } else if t == 7 {
        4
    } else if t == 8 {
        5
    } else if t == 9 {
        0
    } else if t == 10 {
        5
    } else if t == 11 {
        1
    } else if t == 12 {
        0  // back face
    } else if t == 13 {
        2
    } else if t == 14 {
        4
    } else if t == 15 {
        2
    } else if t == 16 {
        7
    } else if t == 17 {
        4
    } else if t == 18 {
        1  // front face
    } else if t == 19 {
        3
    } else if t == 20 {
        5
    } else if t == 21 {
        3
    } else if t == 22 {
        6
    } else if t == 23 {
        5
    } else if t == 24 {
        4  // right face
    } else if t == 25 {
        5
    } else if t == 26 {
        6
    } else if t == 27 {
        4
    } else if t == 28 {
        6
    } else if t == 29 {
        7
    } else if t == 30 {
        2  // top face
    } else if t == 31 {
        7
    } else if t == 32 {
        6
    } else if t == 33 {
        2
    } else if t == 34 {
        6
    } else {
        3
    }
}

/// Number of visible cells among the first `n` entries of a grid's flat color
/// array: the atlas-texel index of the cell at flat index `n`, if visible.
pub open spec fn vc(colors: Seq<Color>, n: int) -> int
    decreases n,
    when n >= 0
{
    if n <= 0 {
        0
    } else {
        vc(colors, n - 1) + if colors[n - 1].visible {
            1int
        } else {
            0int
        }
    }
}

/// The visible count is monotone and grows at most one per cell.
pub proof fn lemma_vc_mono(colors: Seq<Color>, a: int, b: int)
    requires
        0 <= a <= b,
    ensures
        vc(colors, a) <= vc(colors, b) <= vc(colors, a) + (b - a),
    decreases b,
{
    if a < b {
        lemma_vc_mono(colors, a, b - 1);
    }
}

/// The visible count never exceeds the number of cells counted.
pub proof fn lemma_vc_le(colors: Seq<Color>, n: int)
    requires
        n >= 0,
    ensures
        0 <= vc(colors, n) <= n,
{
    lemma_vc_mono(colors, 0, n);
}

/// Distinct in-bounds grid coordinates have distinct flat indices.
pub proof fn lemma_flat_inj(
    x1: int,
    y1: int,
    z1: int,
    x2: int,
    y2: int,
    z2: int,
    w: int,
    h: int,
    d: int,
)
    requires
        0 <= x1 < w,
        0 <= y1 < h,
        0 <= z1 < d,
        0 <= x2 < w,
        0 <= y2 < h,
        0 <= z2 < d,
        flat(x1, y1, z1, h, d) == flat(x2, y2, z2, h, d),
    ensures
        x1 == x2,
        y1 == y2,
        z1 == z2,
{
    assert(y1 * d + z1 < h * d && y2 * d + z2 < h * d) by (nonlinear_arith)
        requires
            0 <= y1 < h,
            0 <= z1 < d,
            0 <= y2 < h,
            0 <= z2 < d,
    ;
    if x1 < x2 {
        assert(x1 * h * d + h * d <= x2 * h * d) by (nonlinear_arith)
            requires
                x1 + 1 <= x2,
                h >= 0,
                d >= 0,
        ;
        assert(false);
    }
    if x2 < x1 {
        assert(x2 * h * d + h * d <= x1 * h * d) by (nonlinear_arith)
            requires
                x2 + 1 <= x1,
                h >= 0,
                d >= 0,
        ;
        assert(false);
    }
    assert(x1 * h * d == x2 * h * d);
    if y1 < y2 {
        assert(y1 * d + d <= y2 * d) by (nonlinear_arith)
            requires
                y1 + 1 <= y2,
                d >= 0,
        ;
        assert(false);
    }
    if y2 < y1 {
        assert(y2 * d + d <= y1 * d) by (nonlinear_arith)
            requires
                y2 + 1 <= y1,
                d >= 0,
        ;
        assert(false);
    }
    assert(y1 * d == y2 * d);
}

/// The mesh block of the visible cell `(x, y, z)`: its 8 cube-corner vertices,
/// its 36 index entries and its atlas texel, at the positions its atlas-texel
/// index `vc(colors, flat(..))` assigns, with the given normalization state of
/// the texture coordinates. An index entry is the vertex's position in the
/// whole buffer reduced to `u16`, as the index buffer's element type forces.
pub open spec fn block_ok(
    colors: Seq<Color>,
    h: int,
    d: int,
    x: int,
    y: int,
    z: int,
    verts: Seq<Vertex>,
    indices: Seq<u16>,
    texels: Seq<u8>,
    den: int,
    y_half: bool,
) -> bool {
    let i = flat(x, y, z, h, d);
    let j = vc(colors, i);
    &&& forall|c: int|
        0 <= c < 8 ==> #[trigger] verts[8 * j + c] == (Vertex {
            x: (x + corner_dx(c)) as u32,
            y: (y + corner_dy(c)) as u32,
            z: (z + corner_dz(c)) as u32,
            uv_num: j as u32,
            uv_den: den as u32,
            uv_y_half: y_half,
        })
    &&& forall|t: int|
        0 <= t < 36 ==> (#[trigger] indices[36 * j + t]) as int == (8 * j + cube_local(t))
            % 0x10000
    &&& texels[4 * j] == colors[i].red
    &&& texels[4 * j + 1] == colors[i].green
    &&& texels[4 * j + 2] == colors[i].blue
    &&& texels[4 * j + 3] == 255
}

/// A cell's block only mentions buffer positions below its end, so extending
/// the buffers (or rewriting entries past them) leaves the block in place.
pub proof fn lemma_block_preserved(
    colors: Seq<Color>,
    h: int,
    d: int,
    x: int,
    y: int,
    z: int,
    verts0: Seq<Vertex>,
    inds0: Seq<u16>,
    tex0: Seq<u8>,
    verts1: Seq<Vertex>,
    inds1: Seq<u16>,
    tex1: Seq<u8>,
)
    requires
        block_ok(colors, h, d, x, y, z, verts0, inds0, tex0, 0, false),
        0 <= flat(x, y, z, h, d),
        8 * vc(colors, flat(x, y, z, h, d)) + 8 <= verts0.len(),
        36 * vc(colors, flat(x, y, z, h, d)) + 36 <= inds0.len(),
        4 * vc(colors, flat(x, y, z, h, d)) + 4 <= tex0.len(),
        forall|q: int| 0 <= q < verts0.len() ==> verts1[q] == verts0[q],
        forall|q: int| 0 <= q < inds0.len() ==> inds1[q] == inds0[q],
        forall|q: int| 0 <= q < tex0.len() ==> tex1[q] == tex0[q],
    ensures
        block_ok(colors, h, d, x, y, z, verts1, inds1, tex1, 0, false),
{
    lemma_vc_le(colors, flat(x, y, z, h, d));
    let j = vc(colors, flat(x, y, z, h, d));
    assert forall|c: int| 0 <= c < 8 implies #[trigger] verts1[8 * j + c] == (Vertex {
        x: (x + corner_dx(c)) as u32,
        y: (y + corner_dy(c)) as u32,
        z: (z + corner_dz(c)) as u32,
        uv_num: j as u32,
        uv_den: 0u32,
        uv_y_half: false,
    }) by {
        assert(verts1[8 * j + c] == verts0[8 * j + c]);
    };
    assert forall|t: int| 0 <= t < 36 implies (#[trigger] inds1[36 * j + t]) as int == (8 * j
        + cube_local(t)) % 0x10000 by {
        assert(inds1[36 * j + t] == inds0[36 * j + t]);
    };
    assert(tex1[4 * j] == tex0[4 * j]);
    assert(tex1[4 * j + 1] == tex0[4 * j + 1]);
    assert(tex1[4 * j + 2] == tex0[4 * j + 2]);
    assert(tex1[4 * j + 3] == tex0[4 * j + 3]);
}

/// The compiler's state after the first `n` cells of the grid's traversal:
/// every visible cell seen so far has its block in place, texture coordinates
/// are still raw, every raw atlas index is below the running texel count, and
/// every index entry references an existing vertex.
pub open spec fn mesh_partial(
    colors: Seq<Color>,
    w: int,
    h: int,
    d: int,
    n: int,
    verts: Seq<Vertex>,
    indices: Seq<u16>,
    texels: Seq<u8>,
) -> bool {
    &&& verts.len() == 8 * vc(colors, n)
    &&& indices.len() == 36 * vc(colors, n)
    &&& texels.len() == 4 * vc(colors, n)
    &&& forall|x: int, y: int, z: int|
        #![trigger flat(x, y, z, h, d)]
        0 <= x < w && 0 <= y < h && 0 <= z < d && 0 <= flat(x, y, z, h, d) < n && colors[flat(
            x,
            y,
            z,
            h,
            d,
        )].visible ==> block_ok(colors, h, d, x, y, z, verts, indices, texels, 0, false)
    &&& forall|vi: int|
        0 <= vi < verts.len() ==> (#[trigger] verts[vi]).uv_num < vc(colors, n)
            && verts[vi].uv_den == 0 && !verts[vi].uv_y_half
    &&& forall|t: int| 0 <= t < indices.len() ==> ((#[trigger] indices[t]) as int) < verts.len()
}

/// After the visible cell `(x, y, z)` at flat index `f` appends its block —
/// 8 vertices, 36 index entries and 4 texel bytes, all at the positions its
/// ordinal `j` assigns — the compiler's state covers `f + 1` cells.
pub proof fn lemma_establish_after_cell(
    colors: Seq<Color>,
    w: int,
    h: int,
    d: int,
    x: int,
    y: int,
    z: int,
    j: int,
    verts0: Seq<Vertex>,
    inds0: Seq<u16>,
    tex0: Seq<u8>,
    verts1: Seq<Vertex>,
    inds1: Seq<u16>,
    tex1: Seq<u8>,
)
    requires
        0 <= x < w,
        0 <= y < h,
        0 <= z < d,
        w * h * d <= u32::MAX,
        colors.len() == w * h * d,
        j == vc(colors, flat(x, y, z, h, d)),
        colors[flat(x, y, z, h, d)].visible,
        mesh_partial(colors, w, h, d, flat(x, y, z, h, d), verts0, inds0, tex0),
        verts1.len() == 8 * j + 8,
        forall|q: int| 0 <= q < 8 * j ==> verts1[q] == verts0[q],
        forall|c: int|
            0 <= c < 8 ==> #[trigger] verts1[8 * j + c] == (Vertex {
                x: (x + corner_dx(c)) as u32,
                y: (y + corner_dy(c)) as u32,
                z: (z + corner_dz(c)) as u32,
                uv_num: j as u32,
                uv_den: 0u32,
                uv_y_half: false,
            }),
        inds1.len() == 36 * j + 36,
        forall|q: int| 0 <= q < 36 * j ==> inds1[q] == inds0[q],
        forall|t: int|
            0 <= t < 36 ==> (#[trigger] inds1[36 * j + t]) as int == (8 * j + cube_local(t))
                % 0x10000,
        tex1.len() == 4 * j + 4,
        forall|q: int| 0 <= q < 4 * j ==> tex1[q] == tex0[q],
        tex1[4 * j] == colors[flat(x, y, z, h, d)].red,
        tex1[4 * j + 1] == colors[flat(x, y, z, h, d)].green,
        tex1[4 * j + 2] == colors[flat(x, y, z, h, d)].blue,
        tex1[4 * j + 3] == 255,
    ensures
        mesh_partial(colors, w, h, d, flat(x, y, z, h, d) + 1, verts1, inds1, tex1),
{
    let f = flat(x, y, z, h, d);
    crate::voxel_data::lemma_flat_in_bounds(x, y, z, w, h, d);
    lemma_vc_le(colors, f);
    assert(vc(colors, f + 1) == j + 1);
    // Every visible cell already seen keeps its block.
    assert forall|xx: int, yy: int, zz: int|
        #![trigger flat(xx, yy, zz, h, d)]
        0 <= xx < w && 0 <= yy < h && 0 <= zz < d && 0 <= flat(xx, yy, zz, h, d) < f + 1
            && colors[flat(xx, yy, zz, h, d)].visible implies block_ok(
        colors,
        h,
        d,
        xx,
        yy,
        zz,
        verts1,
        inds1,
        tex1,
        0,
        false,
    ) by {
        let fp = flat(xx, yy, zz, h, d);
        let jp = vc(colors, fp);
        if fp < f {
            crate::voxel_data::lemma_flat_in_bounds(xx, yy, zz, w, h, d);
            lemma_vc_le(colors, fp);
            assert(block_ok(colors, h, d, xx, yy, zz, verts0, inds0, tex0, 0, false));
            assert(vc(colors, fp + 1) == jp + 1);
            lemma_vc_mono(colors, fp + 1, f);
            lemma_block_preserved(
                colors,
                h,
                d,
                xx,
                yy,
                zz,
                verts0,
                inds0,
                tex0,
                verts1,
                inds1,
                tex1,
            );
        } else {
            lemma_flat_inj(xx, yy, zz, x, y, z, w, h, d);
        }
    };
    // Raw atlas indices stay below the new texel count.
    assert forall|vi: int| 0 <= vi < verts1.len() implies (#[trigger] verts1[vi]).uv_num < vc(
        colors,
        f + 1,
    ) && verts1[vi].uv_den == 0 && !verts1[vi].uv_y_half by {
        if vi < 8 * j {
            assert(verts1[vi] == verts0[vi]);
        } else {
            let c = vi - 8 * j;
            assert(verts1[8 * j + c] == (Vertex {
                x: (x + corner_dx(c)) as u32,
                y: (y + corner_dy(c)) as u32,
                z: (z + corner_dz(c)) as u32,
                uv_num: j as u32,
                uv_den: 0u32,
                uv_y_half: false,
            }));
        }
    };
    // Every index entry references an existing vertex.
    assert forall|t: int| 0 <= t < inds1.len() implies ((#[trigger] inds1[t]) as int)
        < verts1.len() by {
        if t < 36 * j {
            assert(inds1[t] == inds0[t]);
        } else {
            let tt = t - 36 * j;
            assert((inds1[36 * j + tt]) as int == (8 * j + cube_local(tt)) % 0x10000);
            assert(0 <= cube_local(tt) <= 7);
            if 8 * j + cube_local(tt) < 0x10000 {
                assert((8 * j + cube_local(tt)) % 0x10000 == 8 * j + cube_local(tt));
            } else {
                assert((8 * j + cube_local(tt)) % 0x10000 < 0x10000);
            }
        }
    };
}

/// The compiled mesh of a whole grid, `k = vc(colors, colors.len())` being its
/// visible-voxel count: `8 k` vertices, `36 k` indices and `k` atlas texels;
/// every visible cell's block in place with every texture coordinate
/// normalized (`uv.x = uv_num / k` in `[0, 1)`, `uv.y = 1/2`); and every index
/// entry below the vertex count, their number a multiple of 3.
pub open spec fn mesh_of(colors: Seq<Color>, w: int, h: int, d: int, m: MeshBuffers) -> bool {
    let k = vc(colors, colors.len() as int);
    &&& m.vertices@.len() == 8 * k
    &&& m.indices@.len() == 36 * k
    &&& m.texels@.len() == 4 * k
    &&& m.atlas_width as int == k
    &&& m.atlas_height == 1
    &&& forall|x: int, y: int, z: int|
        #![trigger flat(x, y, z, h, d)]
        0 <= x < w && 0 <= y < h && 0 <= z < d && colors[flat(x, y, z, h, d)].visible ==> block_ok(
            colors,
            h,
            d,
            x,
            y,
            z,
            m.vertices@,
            m.indices@,
            m.texels@,
            k,
            true,
        )
    &&& forall|vi: int|
        0 <= vi < m.vertices@.len() ==> (#[trigger] m.vertices@[vi]).uv_num < k
            && m.vertices@[vi].uv_den as int == k && m.vertices@[vi].uv_y_half
    &&& forall|t: int|
        0 <= t < m.indices@.len() ==> ((#[trigger] m.indices@[t]) as int) < m.vertices@.len()
    &&& m.indices@.len() % 3 == 0
}

/// Executable form of [`cube_local`].
pub fn cube_local_at(t: usize) -> (r: u16)
    requires
        t < 36,
    ensures
        r as int == cube_local(t as int),
        r < 8,
{
    match t {
        0 => 0,
        1 => 1,
        2 => 3,
        3 => 0,
        4 => 3,
        5 => 2,
        6 => 0,
        7 => 4,
        8 => 5,
        9 => 0,
        10 => 5,
        11 => 1,
        12 => 0,
        13 => 2,
        14 => 4,
        15 => 2,
        16 => 7,
        17 => 4,
        18 => 1,
        19 => 3,
        20 => 5,
        21 => 3,
        22 => 6,
        23 => 5,
        24 => 4,
        25 => 5,
        26 => 6,
        27 => 4,
        28 => 6,
        29 => 7,
        30 => 2,
        31 => 7,
        32 => 6,
        33 => 2,
        34 => 6,
        _ => 3,
    }
}

} // verus!
