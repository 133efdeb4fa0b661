//! The dense voxel grid and its compilation into mesh buffers.

use vstd::prelude::*;
use vstd::string::StringSliceAdditionalSpecFns;

pub mod txt;

use crate::mesh::MeshBuffers;
use crate::mesh::Vertex;
use crate::mesh::block_ok;
use crate::mesh::corner_dx;
use crate::mesh::corner_dy;
use crate::mesh::corner_dz;
use crate::mesh::cube_local;
use crate::mesh::cube_local_at;
use crate::mesh::lemma_establish_after_cell;
use crate::mesh::lemma_vc_le;
use crate::mesh::lemma_vc_mono;
use crate::mesh::mesh_of;
use crate::mesh::mesh_partial;
use crate::mesh::vc;

verus! {

/// One cell of the dense voxel grid: an RGB color plus a visibility flag.
/// The distinguished clear value `(0, 0, 0, invisible)` denotes empty space.
#[derive(Clone, Copy, Debug, PartialEq, Eq, Structural)]
pub struct Color {
    pub red: u8,
    pub green: u8,
    pub blue: u8,
    pub visible: bool,
}

/// The clear color: black and invisible, denoting empty space.
pub open spec fn spec_clear() -> Color {
    Color { red: 0, green: 0, blue: 0, visible: false }
}

impl Color {
    /// A visible voxel color.
    pub fn new(red: u8, green: u8, blue: u8) -> (c: Color)
        ensures
            c == (Color { red, green, blue, visible: true }),
    {
        Color { red, green, blue, visible: true }
    }

    /// The clear color, denoting empty space.
    pub fn clear() -> (c: Color)
        ensures
            c == spec_clear(),
    {
        Color { red: 0, green: 0, blue: 0, visible: false }
    }

}

/// Why a voxel description could not be turned into a grid.
#[derive(Clone, Copy, Debug, PartialEq, Eq, Structural)]
pub enum VoxelError {
    /// The textual description does not match the grammar.
    Parse,
    /// The sparse record list is empty, so the bounding box is undefined.
    EmptyInput,
    /// The bounding box holds more cells than the atlas width (a `u32`) can
    /// count, so the dense grid cannot be addressed.
    GridTooLarge,
}

/// A dense voxel grid of `width * height * depth` cells, stored as one flat
/// sequence. Cell `(x, y, z)` lives at index `x * height * depth + y * depth + z`.
pub struct VoxelData {
    pub colors: Vec<Color>,
    pub width: u32,
    pub height: u32,
    pub depth: u32,
}

/// Flat index of cell `(x, y, z)` in a grid of height `h` and depth `d`.
pub open spec fn flat(x: int, y: int, z: int, h: int, d: int) -> int {
    x * h * d + y * d + z
}

impl VoxelData {
    /// The grid's structural invariant: the flat color array covers exactly
    /// the advertised dimensions, and the cell count fits the `u32` atlas
    /// width used by the mesh compiler.
    pub open spec fn wf(&self) -> bool {
        &&& self.colors@.len() == self.width * self.height * self.depth
        &&& self.width * self.height * self.depth <= u32::MAX
    }

    /// A grid from an explicit dense color array.
    pub fn new(colors: Vec<Color>, width: u32, height: u32, depth: u32) -> (g: VoxelData)
        requires
            colors@.len() == width * height * depth,
            width * height * depth <= u32::MAX,
        ensures
            g.wf(),
            g.colors@ == colors@,
            g.width == width,
            g.height == height,
            g.depth == depth,
    {
        VoxelData { colors, width, height, depth }
    }

    /// Build the dense grid of a non-empty sparse record list: the dimensions
    /// are the per-axis bounding-box extents, every record is shifted by the
    /// per-axis minimum and written to its cell (later records win), and every
    /// other cell stays clear.
    pub fn from_records(records: &Vec<(txt::Rgb, txt::Coord)>) -> (r: Result<
        VoxelData,
        VoxelError,
    >)
        ensures
            match r {
                Ok(g) => records@.len() > 0 && spec_fits(records@) && grid_of(records@, g),
                Err(e) => {
                    &&& (e == VoxelError::EmptyInput <==> records@.len() == 0)
                    &&& (e == VoxelError::GridTooLarge <==> records@.len() > 0 && !spec_fits(
                        records@,
                    ))
                    &&& (e == VoxelError::EmptyInput || e == VoxelError::GridTooLarge)
                },
            },
    {
        let n = records.len();
        if n == 0 {
            return Err(VoxelError::EmptyInput);
        }
        let first = records[0];
        let mut lo_x: i64 = first.1.x;
        let mut hi_x: i64 = first.1.x;
        let mut lo_y: i64 = first.1.y;
        let mut hi_y: i64 = first.1.y;
        let mut lo_z: i64 = first.1.z;
        let mut hi_z: i64 = first.1.z;
        let mut k: usize = 1;
        proof {
            assert(xs_of(records@).take(1)[0] == first.1.x as int);
            assert(ys_of(records@).take(1)[0] == first.1.y as int);
            assert(zs_of(records@).take(1)[0] == first.1.z as int);
        }
        while k < n
            invariant
                1 <= k <= n == records@.len(),
                lo_x as int == seq_lo(xs_of(records@).take(k as int)),
                hi_x as int == seq_hi(xs_of(records@).take(k as int)),
                lo_y as int == seq_lo(ys_of(records@).take(k as int)),
                hi_y as int == seq_hi(ys_of(records@).take(k as int)),
                lo_z as int == seq_lo(zs_of(records@).take(k as int)),
                hi_z as int == seq_hi(zs_of(records@).take(k as int)),
            decreases n - k,
        {
            let p = records[k];
            proof {
                assert(xs_of(records@).take(k as int + 1).drop_last() =~= xs_of(
                    records@,
                ).take(k as int));
                assert(ys_of(records@).take(k as int + 1).drop_last() =~= ys_of(
                    records@,
                ).take(k as int));
                assert(zs_of(records@).take(k as int + 1).drop_last() =~= zs_of(
                    records@,
                ).take(k as int));
                assert(xs_of(records@).take(k as int + 1).last() == p.1.x as int);
                assert(ys_of(records@).take(k as int + 1).last() == p.1.y as int);
                assert(zs_of(records@).take(k as int + 1).last() == p.1.z as int);
            }
            if p.1.x < lo_x {
                lo_x = p.1.x;
            }
            if p.1.x > hi_x {
                hi_x = p.1.x;
            }
            if p.1.y < lo_y {
                lo_y = p.1.y;
            }
            if p.1.y > hi_y {
                hi_y = p.1.y;
            }
            if p.1.z < lo_z {
                lo_z = p.1.z;
            }
            if p.1.z > hi_z {
                hi_z = p.1.z;
            }
            k += 1;
        }
        proof {
            assert(xs_of(records@).take(n as int) =~= xs_of(records@));
            assert(ys_of(records@).take(n as int) =~= ys_of(records@));
            assert(zs_of(records@).take(n as int) =~= zs_of(records@));
            lemma_seq_lo_hi(xs_of(records@), 0);
            lemma_seq_lo_hi(ys_of(records@), 0);
            lemma_seq_lo_hi(zs_of(records@), 0);
        }
        let ghost recs = records@;
        let ghost sw = spec_width(recs);
        let ghost sh = spec_height(recs);
        let ghost sd = spec_depth(recs);
        let width = match axis_extent(lo_x, hi_x) {
            None => {
                proof {
                    assert(sw * sh * sd > u32::MAX) by (nonlinear_arith)
                        requires
                            sw > u32::MAX,
                            sh >= 1,
                            sd >= 1,
                    ;
                }
                return Err(VoxelError::GridTooLarge);
            },
            Some(w) => w,
        };
        let height = match axis_extent(lo_y, hi_y) {
            None => {
                proof {
                    assert(sw * sh * sd > u32::MAX) by (nonlinear_arith)
                        requires
                            sw >= 1,
                            sh > u32::MAX,
                            sd >= 1,
                    ;
                }
                return Err(VoxelError::GridTooLarge);
            },
            Some(h) => h,
        };
        let depth = match axis_extent(lo_z, hi_z) {
            None => {
                proof {
                    assert(sw * sh * sd > u32::MAX) by (nonlinear_arith)
                        requires
                            sw >= 1,
                            sh >= 1,
                            sd > u32::MAX,
                    ;
                }
                return Err(VoxelError::GridTooLarge);
            },
            Some(d) => d,
        };
        proof {
            assert((width as int) * (height as int) < 0x1_0000_0000_0000_0000) by (nonlinear_arith)
                requires
                    width <= 0xFFFF_FFFFu32,
                    height <= 0xFFFF_FFFFu32,
            ;
        }
        let m1: u64 = (width as u64) * (height as u64);
        if m1 > 0xFFFF_FFFFu64 {
            proof {
                assert(sw * sh * sd >= sw * sh) by (nonlinear_arith)
                    requires
                        sw >= 0,
                        sh >= 0,
                        sd >= 1,
                ;
            }
            return Err(VoxelError::GridTooLarge);
        }
        proof {
            assert((m1 as int) * (depth as int) < 0x1_0000_0000_0000_0000) by (nonlinear_arith)
                requires
                    m1 <= 0xFFFF_FFFFu64,
                    depth <= 0xFFFF_FFFFu32,
            ;
        }
        let m2: u64 = m1 * (depth as u64);
        proof {
            assert(m2 == sw * sh * sd) by (nonlinear_arith)
                requires
                    m1 == sw * sh,
                    m2 == m1 * sd,
            ;
        }
        if m2 > 0xFFFF_FFFFu64 {
            return Err(VoxelError::GridTooLarge);
        }
        let len = m2 as usize;
        let mut colors: Vec<Color> = vec![Color::clear(); len];
        let mut j: usize = 0;
        while j < n
            invariant
                0 <= j <= n == recs.len(),
                recs == records@,
                lo_x as int == spec_lo_x(recs),
                lo_y as int == spec_lo_y(recs),
                lo_z as int == spec_lo_z(recs),
                width as int == spec_width(recs),
                height as int == spec_height(recs),
                depth as int == spec_depth(recs),
                colors@.len() == len,
                len == spec_width(recs) * spec_height(recs) * spec_depth(recs),
                len <= u32::MAX,
                forall|p: int| 0 <= p < len ==> colors@[p] == cell_at(recs, j as int, p),
            decreases n - j,
        {
            let rec = records[j];
            proof {
                lemma_seq_lo_hi(xs_of(recs), j as int);
                lemma_seq_lo_hi(ys_of(recs), j as int);
                lemma_seq_lo_hi(zs_of(recs), j as int);
                assert(xs_of(recs)[j as int] == rec.1.x as int);
                assert(ys_of(recs)[j as int] == rec.1.y as int);
                assert(zs_of(recs)[j as int] == rec.1.z as int);
                lemma_flat_in_bounds(
                    rec.1.x - lo_x,
                    rec.1.y - lo_y,
                    rec.1.z - lo_z,
                    width as int,
                    height as int,
                    depth as int,
                );
            }
            let ox: u64 = (rec.1.x - lo_x) as u64;
            let oy: u64 = (rec.1.y - lo_y) as u64;
            let oz: u64 = (rec.1.z - lo_z) as u64;
            let hd: u64 = (height as u64) * (depth as u64);
            let ind64: u64 = ox * hd + oy * (depth as u64) + oz;
            let ind = ind64 as usize;
            let ghost prev = colors@;
            colors[ind] = Color::new(rec.0.r, rec.0.g, rec.0.b);
            proof {
                assert(ind as int == rec_flat(recs, j as int));
                assert forall|p: int| 0 <= p < len implies colors@[p] == cell_at(
                    recs,
                    j as int + 1,
                    p,
                ) by {
                    if p != ind as int {
                        assert(colors@[p] == prev[p]);
                    }
                };
            }
            j += 1;
        }
        proof {
            assert forall|kk: int| 0 <= kk < recs.len() implies 0 <= #[trigger] rec_flat(recs, kk)
                < len && colors@[rec_flat(recs, kk)].visible by {
                lemma_seq_lo_hi(xs_of(recs), kk);
                lemma_seq_lo_hi(ys_of(recs), kk);
                lemma_seq_lo_hi(zs_of(recs), kk);
                assert(xs_of(recs)[kk] == recs[kk].1.x as int);
                assert(ys_of(recs)[kk] == recs[kk].1.y as int);
                assert(zs_of(recs)[kk] == recs[kk].1.z as int);
                lemma_flat_in_bounds(
                    recs[kk].1.x - spec_lo_x(recs),
                    recs[kk].1.y - spec_lo_y(recs),
                    recs[kk].1.z - spec_lo_z(recs),
                    spec_width(recs),
                    spec_height(recs),
                    spec_depth(recs),
                );
                lemma_cell_at_hit(recs, recs.len() as int, rec_flat(recs, kk));
            };
            assert forall|p: int|
                0 <= p < len && (forall|kk: int|
                    0 <= kk < recs.len() ==> rec_flat(recs, kk) != p) implies colors@[p]
                == spec_clear() by {
                lemma_cell_at_miss(recs, recs.len() as int, p);
            };
        }
        Ok(VoxelData::new(colors, width, height, depth))
    }

    /// Parse a textual voxel description ([`txt::import_txt`]) and build the
    /// dense grid of the parsed records.
    pub fn from_txt(input: &str) -> (r: Result<VoxelData, VoxelError>)
        ensures
            match r {
                Ok(g) => {
                    let recs = txt::spec_import(input.spec_bytes(), 0)->Some_0;
                    &&& txt::spec_import(input.spec_bytes(), 0) is Some
                    &&& recs.len() > 0
                    &&& spec_fits(recs)
                    &&& grid_of(recs, g)
                },
                Err(e) => {
                    let parsed = txt::spec_import(input.spec_bytes(), 0);
                    &&& (e == VoxelError::Parse <==> parsed is None)
                    &&& (e == VoxelError::EmptyInput <==> parsed is Some && parsed->Some_0.len()
                        == 0)
                    &&& (e == VoxelError::GridTooLarge <==> parsed is Some && parsed->Some_0.len()
                        > 0 && !spec_fits(parsed->Some_0))
                },
            },
    {
        match txt::import_txt(input) {
            Err(_) => Err(VoxelError::Parse),
            Ok(v) => VoxelData::from_records(&v),
        }
    }

    /// Compile the grid into mesh buffers.
    ///
    /// The traversal is fixed: outer loop over x, then y, then z, matching the
    /// grid's index formula. Every visible cell emits its 8 unit-cube corner
    /// vertices, its 36 index entries per the fixed topology table
    /// ([`cube_local`]) and one RGBA8 atlas texel; a second pass over all
    /// emitted vertices then normalizes the texture coordinates against the
    /// final atlas width, which is only known once the traversal is complete.
    #[verifier::loop_isolation(false)]
    #[verifier::rlimit(60)]
    pub fn verts(&self) -> (m: MeshBuffers)
        requires
            self.wf(),
        ensures
            mesh_of(self.colors@, self.width as int, self.height as int, self.depth as int, m),
    {
        let ghost cs = self.colors@;
        let ghost ww = self.width as int;
        let ghost hh = self.height as int;
        let ghost dd = self.depth as int;
        let mut verts: Vec<Vertex> = Vec::new();
        let mut indices: Vec<u16> = Vec::new();
        let mut texels: Vec<u8> = Vec::new();
        let w = self.width;
        let h = self.height;
        let d = self.depth;
        proof {
            // products of variables are opaque to the solver: pin the zero
            // product the loop invariant needs at entry
            assert(0 * hh * dd == 0) by (nonlinear_arith);
        }
        for x in 0..w
            invariant
                mesh_partial(cs, ww, hh, dd, x as int * hh * dd, verts@, indices@, texels@),
        {
            proof {
                assert(0 * dd == 0) by (nonlinear_arith);
            }
            for y in 0..h
                invariant
                    mesh_partial(
                        cs,
                        ww,
                        hh,
                        dd,
                        x as int * hh * dd + y as int * dd,
                        verts@,
                        indices@,
                        texels@,
                    ),
            {
                for z in 0..d
                    invariant
                        mesh_partial(
                            cs,
                            ww,
                            hh,
                            dd,
                            x as int * hh * dd + y as int * dd + z as int,
                            verts@,
                            indices@,
                            texels@,
                        ),
                {
                    let ghost cur = x as int * hh * dd + y as int * dd + z as int;
                    proof {
                        lemma_flat_in_bounds(x as int, y as int, z as int, ww, hh, dd);
                        lemma_vc_le(cs, cur);
                    }
                    let index: u32 = x * d * h + y * d + z;
                    let voxel = self.colors[index as usize];
                    proof {
                        assert(index as int == cur);
                        assert(voxel == cs[cur]);
                    }
                    if voxel.visible {
                        let ghost j = vc(cs, cur);
                        let ghost verts0 = verts@;
                        let ghost inds0 = indices@;
                        let ghost tex0 = texels@;
                        let base: usize = verts.len();
                        let ord: usize = texels.len() / 4;
                        proof {
                            assert(base == 8 * j);
                            assert(ord == j);
                        }
                        texels.push(voxel.red);
                        texels.push(voxel.green);
                        texels.push(voxel.blue);
                        texels.push(0xFF);
                        let u = ord as u32;
                        verts.push(Vertex::new(x, y, z, u));
                        verts.push(Vertex::new(x, y, z + 1, u));
                        verts.push(Vertex::new(x, y + 1, z, u));
                        verts.push(Vertex::new(x, y + 1, z + 1, u));
                        verts.push(Vertex::new(x + 1, y, z, u));
                        verts.push(Vertex::new(x + 1, y, z + 1, u));
                        verts.push(Vertex::new(x + 1, y + 1, z + 1, u));
                        verts.push(Vertex::new(x + 1, y + 1, z, u));
                        let mut t: usize = 0;
                        while t < 36
                            invariant
                                t <= 36,
                                indices@.len() == 36 * j + t,
                                forall|q: int| 0 <= q < 36 * j ==> indices@[q] == inds0[q],
                                forall|tt: int|
                                    0 <= tt < t ==> (#[trigger] indices@[36 * j + tt]) as int == (
                                    8 * j + cube_local(tt)) % 0x10000,
                            decreases 36 - t,
                        {
                            let loc = cube_local_at(t);
                            let val: u16 = ((base + loc as usize) % 0x10000) as u16;
                            proof {
                                assert(base + loc as usize == 8 * j + cube_local(t as int));
                            }
                            indices.push(val);
                            t += 1;
                        }
                        proof {
                            assert(vc(cs, cur + 1) == j + 1);
                            lemma_establish_after_cell(
                                cs,
                                ww,
                                hh,
                                dd,
                                x as int,
                                y as int,
                                z as int,
                                j,
                                verts0,
                                inds0,
                                tex0,
                                verts@,
                                indices@,
                                texels@,
                            );
                        }
                    }
                }
                proof {
                    assert(x as int * hh * dd + y as int * dd + dd == x as int * hh * dd + (
                    y as int + 1) * dd) by (nonlinear_arith);
                }
            }
            proof {
                assert(x as int * hh * dd + hh * dd == (x as int + 1) * hh * dd)
                    by (nonlinear_arith);
            }
        }
        proof {
            assert(cs.len() as int == ww * hh * dd);
            lemma_vc_le(cs, cs.len() as int);
        }
        let ghost kk = vc(cs, cs.len() as int);
        let total: usize = texels.len() / 4;
        let tw: u32 = total as u32;
        proof {
            assert(tw as int == kk);
        }
        let mut out: Vec<Vertex> = Vec::new();
        let mut vi: usize = 0;
        while vi < verts.len()
            invariant
                vi <= verts@.len(),
                out@.len() == vi as int,
                forall|q: int|
                    0 <= q < vi ==> #[trigger] out@[q] == (Vertex {
                        x: verts@[q].x,
                        y: verts@[q].y,
                        z: verts@[q].z,
                        uv_num: verts@[q].uv_num,
                        uv_den: tw,
                        uv_y_half: true,
                    }),
            decreases verts@.len() - vi,
        {
            let v = verts[vi];
            out.push(
                Vertex { x: v.x, y: v.y, z: v.z, uv_num: v.uv_num, uv_den: tw, uv_y_half: true },
            );
            vi += 1;
        }
        let ghost outv = out@;
        let m = MeshBuffers { vertices: out, indices, texels, atlas_width: tw, atlas_height: 1 };
        proof {
            assert(m.vertices@ == outv);
            assert(forall|q: int|
                0 <= q < outv.len() ==> #[trigger] outv[q] == (Vertex {
                    x: verts@[q].x,
                    y: verts@[q].y,
                    z: verts@[q].z,
                    uv_num: verts@[q].uv_num,
                    uv_den: tw,
                    uv_y_half: true,
                }));
            assert forall|xx: int, yy: int, zz: int|
                0 <= xx < ww && 0 <= yy < hh && 0 <= zz < dd && cs[#[trigger] flat(
                    xx,
                    yy,
                    zz,
                    hh,
                    dd,
                )].visible implies block_ok(
                cs,
                hh,
                dd,
                xx,
                yy,
                zz,
                m.vertices@,
                m.indices@,
                m.texels@,
                kk,
                true,
            ) by {
                lemma_flat_in_bounds(xx, yy, zz, ww, hh, dd);
                let f = flat(xx, yy, zz, hh, dd);
                let jp = vc(cs, f);
                lemma_vc_le(cs, f);
                assert(block_ok(cs, hh, dd, xx, yy, zz, verts@, indices@, texels@, 0, false));
                assert(vc(cs, f + 1) == jp + 1);
                lemma_vc_mono(cs, f + 1, cs.len() as int);
                assert forall|c: int| 0 <= c < 8 implies #[trigger] m.vertices@[8 * jp + c] == (
                Vertex {
                    x: (xx + corner_dx(c)) as u32,
                    y: (yy + corner_dy(c)) as u32,
                    z: (zz + corner_dz(c)) as u32,
                    uv_num: jp as u32,
                    uv_den: kk as u32,
                    uv_y_half: true,
                }) by {
                    assert(8 * jp + 8 <= verts@.len());
                    assert(verts@[8 * jp + c] == (Vertex {
                        x: (xx + corner_dx(c)) as u32,
                        y: (yy + corner_dy(c)) as u32,
                        z: (zz + corner_dz(c)) as u32,
                        uv_num: jp as u32,
                        uv_den: 0u32,
                        uv_y_half: false,
                    }));
                    assert(outv[8 * jp + c] == (Vertex {
                        x: verts@[8 * jp + c].x,
                        y: verts@[8 * jp + c].y,
                        z: verts@[8 * jp + c].z,
                        uv_num: verts@[8 * jp + c].uv_num,
                        uv_den: tw,
                        uv_y_half: true,
                    }));
                    assert(kk as u32 == tw);
                };
            };
            assert(m.indices@.len() == 36 * kk);
            assert(36 * kk % 3 == 0) by (nonlinear_arith);
        }
        m
    }

    /// The color of cell `(x, y, z)`.
    pub fn cell(&self, x: u32, y: u32, z: u32) -> (c: Color)
        requires
            self.wf(),
            x < self.width,
            y < self.height,
            z < self.depth,
        ensures
            c == self.colors@[flat(x as int, y as int, z as int, self.height as int, self.depth as int)],
    {
        proof {
            lemma_flat_in_bounds(
                x as int,
                y as int,
                z as int,
                self.width as int,
                self.height as int,
                self.depth as int,
            );
        }
        let index: usize = (x as usize) * (self.height as usize) * (self.depth as usize) + (
        y as usize) * (self.depth as usize) + (z as usize);
        self.colors[index]
    }
}

/// For in-bounds coordinates the flat index is in `[0, w * h * d)`, and so are
/// the intermediate products that compute it.
pub proof fn lemma_flat_in_bounds(x: int, y: int, z: int, w: int, h: int, d: int)
    requires
        0 <= x < w,
        0 <= y < h,
        0 <= z < d,
    ensures
        0 <= flat(x, y, z, h, d) < w * h * d,
        x * h * d + y * d + z == flat(x, y, z, h, d),
        0 <= x * h <= w * h * d,
        0 <= x * d <= w * h * d,
        0 <= x * h * d <= w * h * d,
        0 <= x * d * h <= w * h * d,
        x * d * h == x * h * d,
        x * (h * d) == x * h * d,
        0 <= h * d <= w * h * d,
        0 <= y * d <= w * h * d,
        x * h * d + y * d <= w * h * d,
{
    assert((0 <= x * h * d + y * d + z < w * h * d) && (0 <= x * h <= w * h * d) && (0 <= x * d
        <= w * h * d) && (0 <= x * h * d <= w * h * d) && (x * d * h == x * h * d) && (x * (h * d)
        == x * h * d) && (0 <= h * d <= w * h * d) && (0 <= y * d <= w * h * d) && (x * h * d + y
        * d <= w * h * d)) by (nonlinear_arith)
        requires
            0 <= x < w,
            0 <= y < h,
            0 <= z < d,
    ;
}

/// Smallest value in a non-empty integer sequence.
pub open spec fn seq_lo(s: Seq<int>) -> int
    decreases s.len(),
    when s.len() > 0
{
    if s.len() == 1 {
        s[0]
    } else if seq_lo(s.drop_last()) <= s.last() {
        seq_lo(s.drop_last())
    } else {
        s.last()
    }
}

/// Largest value in a non-empty integer sequence.
pub open spec fn seq_hi(s: Seq<int>) -> int
    decreases s.len(),
    when s.len() > 0
{
    if s.len() == 1 {
        s[0]
    } else if seq_hi(s.drop_last()) >= s.last() {
        seq_hi(s.drop_last())
    } else {
        s.last()
    }
}

/// Every element of a non-empty sequence lies between its minimum and maximum.
pub proof fn lemma_seq_lo_hi(s: Seq<int>, k: int)
    requires
        0 <= k < s.len(),
    ensures
        seq_lo(s) <= s[k] <= seq_hi(s),
    decreases s.len(),
{
    if s.len() > 1 {
        if k < s.len() - 1 {
            lemma_seq_lo_hi(s.drop_last(), k);
            assert(s.drop_last()[k] == s[k]);
        }
    }
}

/// The x coordinates of a record list, as mathematical integers.
pub open spec fn xs_of(recs: Seq<(txt::Rgb, txt::Coord)>) -> Seq<int> {
    recs.map_values(|r: (txt::Rgb, txt::Coord)| r.1.x as int)
}

/// The y coordinates of a record list, as mathematical integers.
pub open spec fn ys_of(recs: Seq<(txt::Rgb, txt::Coord)>) -> Seq<int> {
    recs.map_values(|r: (txt::Rgb, txt::Coord)| r.1.y as int)
}

/// The z coordinates of a record list, as mathematical integers.
pub open spec fn zs_of(recs: Seq<(txt::Rgb, txt::Coord)>) -> Seq<int> {
    recs.map_values(|r: (txt::Rgb, txt::Coord)| r.1.z as int)
}

/// Per-axis minima of a non-empty record list.
pub open spec fn spec_lo_x(recs: Seq<(txt::Rgb, txt::Coord)>) -> int {
    seq_lo(xs_of(recs))
}

pub open spec fn spec_lo_y(recs: Seq<(txt::Rgb, txt::Coord)>) -> int {
    seq_lo(ys_of(recs))
}

pub open spec fn spec_lo_z(recs: Seq<(txt::Rgb, txt::Coord)>) -> int {
    seq_lo(zs_of(recs))
}

/// Per-axis maxima of a non-empty record list.
pub open spec fn spec_hi_x(recs: Seq<(txt::Rgb, txt::Coord)>) -> int {
    seq_hi(xs_of(recs))
}

pub open spec fn spec_hi_y(recs: Seq<(txt::Rgb, txt::Coord)>) -> int {
    seq_hi(ys_of(recs))
}

pub open spec fn spec_hi_z(recs: Seq<(txt::Rgb, txt::Coord)>) -> int {
    seq_hi(zs_of(recs))
}

/// Grid width derived from a record list: the x extent of its bounding box.
pub open spec fn spec_width(recs: Seq<(txt::Rgb, txt::Coord)>) -> int {
    spec_hi_x(recs) - spec_lo_x(recs) + 1
}

/// Grid height derived from a record list: the y extent of its bounding box.
pub open spec fn spec_height(recs: Seq<(txt::Rgb, txt::Coord)>) -> int {
    spec_hi_y(recs) - spec_lo_y(recs) + 1
}

/// Grid depth derived from a record list: the z extent of its bounding box.
pub open spec fn spec_depth(recs: Seq<(txt::Rgb, txt::Coord)>) -> int {
    spec_hi_z(recs) - spec_lo_z(recs) + 1
}

/// Whether the bounding box of a record list fits the grid's `u32` cell budget.
pub open spec fn spec_fits(recs: Seq<(txt::Rgb, txt::Coord)>) -> bool {
    spec_width(recs) * spec_height(recs) * spec_depth(recs) <= u32::MAX
}

/// Flat grid index of record `k` after the shift into the zero-based grid.
pub open spec fn rec_flat(recs: Seq<(txt::Rgb, txt::Coord)>, k: int) -> int {
    flat(
        recs[k].1.x - spec_lo_x(recs),
        recs[k].1.y - spec_lo_y(recs),
        recs[k].1.z - spec_lo_z(recs),
        spec_height(recs),
        spec_depth(recs),
    )
}

/// The color of grid cell `p` after the first `n` records have been written:
/// the last record that maps to `p` wins, and cells no record maps to stay
/// clear.
pub open spec fn cell_at(recs: Seq<(txt::Rgb, txt::Coord)>, n: int, p: int) -> Color
    decreases n,
    when n >= 0
{
    if n <= 0 {
        spec_clear()
    } else if rec_flat(recs, n - 1) == p {
        Color {
            red: recs[n - 1].0.r,
            green: recs[n - 1].0.g,
            blue: recs[n - 1].0.b,
            visible: true,
        }
    } else {
        cell_at(recs, n - 1, p)
    }
}

/// The grid that a record list builds: bounding-box dimensions, every
/// record's cell written (with later records winning), all other cells clear.
pub open spec fn grid_of(recs: Seq<(txt::Rgb, txt::Coord)>, g: VoxelData) -> bool {
    &&& g.wf()
    &&& g.width as int == spec_width(recs)
    &&& g.height as int == spec_height(recs)
    &&& g.depth as int == spec_depth(recs)
    &&& forall|p: int|
        0 <= p < g.colors@.len() ==> g.colors@[p] == cell_at(recs, recs.len() as int, p)
    &&& forall|k: int|
        0 <= k < recs.len() ==> 0 <= #[trigger] rec_flat(recs, k) < g.colors@.len()
            && g.colors@[rec_flat(recs, k)].visible
    &&& forall|p: int|
        0 <= p < g.colors@.len() && (forall|k: int|
            0 <= k < recs.len() ==> rec_flat(recs, k) != p) ==> g.colors@[p] == spec_clear()
}

/// A cell that some record maps to is visible.
pub proof fn lemma_cell_at_hit(recs: Seq<(txt::Rgb, txt::Coord)>, n: int, p: int)
    requires
        0 <= n <= recs.len(),
        exists|k: int| 0 <= k < n && rec_flat(recs, k) == p,
    ensures
        cell_at(recs, n, p).visible,
    decreases n,
{
    if rec_flat(recs, n - 1) != p {
        lemma_cell_at_hit(recs, n - 1, p);
    }
}

/// The cell count of one axis of the bounding box `[lo, hi]`, or `None` if it
/// exceeds the `u32` cell budget. The extent `hi - lo + 1` can reach `2^64`,
/// so it is computed in `u64` by cases on the signs.
fn axis_extent(lo: i64, hi: i64) -> (r: Option<u32>)
    requires
        lo <= hi,
    ensures
        match r {
            Some(w) => w as int == hi - lo + 1 && w >= 1,
            None => hi - lo + 1 > u32::MAX,
        },
{
    let span: u64 = if lo < 0 {
        let neg: u64 = ((-(lo + 1)) as u64) + 1;
        if hi >= 0 {
            (hi as u64) + neg
        } else {
            neg - (((-(hi + 1)) as u64) + 1)
        }
    } else {
        (hi - lo) as u64
    };
    if span > 0xFFFF_FFFEu64 {
        None
    } else {
        Some((span as u32) + 1)
    }
}

/// A cell that no record maps to stays clear.
pub proof fn lemma_cell_at_miss(recs: Seq<(txt::Rgb, txt::Coord)>, n: int, p: int)
    requires
        0 <= n <= recs.len(),
        forall|k: int| 0 <= k < n ==> rec_flat(recs, k) != p,
    ensures
        cell_at(recs, n, p) == spec_clear(),
    decreases n,
{
    if n > 0 {
        lemma_cell_at_miss(recs, n - 1, p);
    }
}

} // verus!
