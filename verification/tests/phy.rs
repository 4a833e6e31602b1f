use std::collections::HashMap;

use mdlc::bytes::{read_i16, read_i32, read_u16, read_u32};
use mdlc::phy::bounds::{node_geometry, Bounds};
use mdlc::phy::compact::compact_corners;
use mdlc::phy::check::{check_invariants, PHY_HEADER_SIZE, SOLID_HEADER_SIZE, VPHYSICS_ID};
use mdlc::phy::edges::build_reverse_edges;
use mdlc::phy::error::PhyError;
use mdlc::phy::joints::physics_bone_table;
use mdlc::phy::making::build_phy_from_smd;
use mdlc::phy::mass::SolidMeasures;
use mdlc::phy::params::{
    AnimatedFriction, JointConstraint, JointLimitType, PhyIdentity, PhyParams, PhySolid,
};
use mdlc::phy::pieces::connected_pieces;
use mdlc::phy::placed::place_hulls;
use mdlc::phy::ragdoll::{group_by_bone, group_by_bone_merged, would_cycle};
use mdlc::phy::shape::{check_mesh, check_points, keep_bodies, keep_spanned};
use mdlc::phy::solid::{
    local_tris, prepare_solid, PhyHull, COMPACT_SURFACE_SIZE, LEDGE_HEADER_SIZE, MAX_TRIANGLES_PER_HULL,
    POINT_SIZE, TRIANGLE_SIZE,
};
use mdlc::phy::surface::IVP_COMPACT_SURFACE_ID;
use mdlc::phy::tree::LEDGETREE_NODE_SIZE;
use mdlc::phy::weld::weld_smd_triangles;
use mdlc::phy::write::{write_phy, write_phy_multi};
use mdlc::qc::model::Physics;
use mdlc::smd::{parse_smd, Smd};
use parry3d::mass_properties::MassProperties;
use parry3d::math::Vector;
use parry3d::transformation::vhacd::{VHACDParameters, VHACD};

const SOURCE_TO_IVP: f32 = 0.0254;

/// A hull in inches and in the axes of a model.
#[derive(Clone)]
struct Hull {
    vertices: Vec<[f32; 3]>,
    faces: Vec<[u32; 3]>,
}

/// The names that a file is written with.
struct Ident {
    model_name: &'static str,
    collision_smd_name: &'static str,
    surface_prop: &'static str,
}

fn bits_of(list: &[[f32; 3]]) -> Vec<[u32; 3]> {
    list.iter()
        .map(|v| [v[0].to_bits(), v[1].to_bits(), v[2].to_bits()])
        .collect()
}

fn floats_of(list: &[[u32; 3]]) -> Vec<[f32; 3]> {
    list.iter()
        .map(|v| [f32::from_bits(v[0]), f32::from_bits(v[1]), f32::from_bits(v[2])])
        .collect()
}

fn vectors_of(list: &[[u32; 3]]) -> Vec<Vector> {
    floats_of(list)
        .iter()
        .map(|p| Vector::new(p[0], p[1], p[2]))
        .collect()
}

fn in_bits(h: &Hull) -> PhyHull {
    PhyHull {
        vertices: bits_of(&h.vertices),
        faces: h.faces.clone(),
    }
}

fn read_f32(b: &[u8], o: usize) -> f32 {
    f32::from_bits(read_u32(b, o))
}

/// What is integrated over the hulls of a solid.
fn measures_of(hulls: &Vec<PhyHull>) -> SolidMeasures {
    let p = match prepare_solid(0, &place_hulls(hulls)) {
        Ok(p) => p,
        Err(_) => {
            return SolidMeasures {
                mass_center: [0; 3],
                inertia: [0; 3],
                masses: vec![0; hulls.len()],
            };
        }
    };
    let mut masses = Vec::new();
    let mut tris: Vec<[u32; 3]> = Vec::new();
    for h in &p.hulls {
        let points: Vec<[u32; 3]> = h.used.iter().map(|&i| p.points[i as usize]).collect();
        let m = MassProperties::from_convex_polyhedron(1.0, &vectors_of(&points), &local_tris(h));
        masses.push(m.mass().to_bits());
        tris.extend(h.tris.iter());
    }
    let all = MassProperties::from_trimesh(1.0, &vectors_of(&p.points), &tris);
    let m = all.reconstruct_inertia_matrix();
    SolidMeasures {
        mass_center: [
            all.local_com.x.to_bits(),
            all.local_com.y.to_bits(),
            all.local_com.z.to_bits(),
        ],
        inertia: [
            m.x_axis.x.to_bits(),
            m.y_axis.y.to_bits(),
            m.z_axis.z.to_bits(),
        ],
        masses,
    }
}

fn write(hulls: &[Hull], solids: &[PhySolid], p: &PhyParams) -> Result<Vec<u8>, PhyError> {
    let list: Vec<PhyHull> = hulls.iter().map(in_bits).collect();
    let measures: Vec<SolidMeasures> = list.iter().map(|h| measures_of(&vec![h.clone()])).collect();
    write_phy(list, &measures, &solids.to_vec(), p)
}

fn write_multi(hulls: &[Vec<Hull>], solids: &[PhySolid], p: &PhyParams) -> Result<Vec<u8>, PhyError> {
    let lists: Vec<Vec<PhyHull>> = hulls
        .iter()
        .map(|h| h.iter().map(in_bits).collect())
        .collect();
    let measures: Vec<SolidMeasures> = lists.iter().map(measures_of).collect();
    write_phy_multi(&lists, &measures, &solids.to_vec(), p)
}

/// The convex hull of points.
fn hull_around(points: &[[u32; 3]]) -> Result<PhyHull, PhyError> {
    check_points(&points.to_vec())?;
    match parry3d::transformation::try_convex_hull(&vectors_of(points)) {
        Ok((vertices, faces)) => Ok(PhyHull {
            vertices: vertices
                .iter()
                .map(|v| [v.x.to_bits(), v.y.to_bits(), v.z.to_bits()])
                .collect(),
            faces,
        }),
        Err(e) => Err(PhyError::HullDegenerate {
            solid: 0,
            detail: e.to_string(),
        }),
    }
}

/// The convex hull of points, in inches.
fn from_points(points: &[[f32; 3]]) -> Result<PhyHull, PhyError> {
    hull_around(&bits_of(points))
}

/// The hull around the corners of a hull, of which near ones count as one.
fn compact_outer_hull(hull: &PhyHull) -> PhyHull {
    match compact_corners(hull) {
        Some(corners) => hull_around(&corners).unwrap_or_else(|_| hull.clone()),
        None => hull.clone(),
    }
}

fn welded(smd: &Smd) -> (Vec<[f32; 3]>, Vec<[u32; 3]>) {
    let m = weld_smd_triangles(smd).expect("应能焊接");
    (floats_of(&m.vertices), m.faces)
}

/// The collision file of a prop whose mesh has one hull.
fn build_prop(smd: &Smd, ident: Ident, checksum: u32, mass: f32, phys: &Physics) -> Result<Vec<u8>, String> {
    let mesh = weld_smd_triangles(smd)?;
    let hull = hull_around(&mesh.vertices).map_err(|e| e.describe())?;
    let hulls = vec![hull];
    let measures = measures_of(&hulls);
    let ident = PhyIdentity {
        model_name: ident.model_name.to_owned(),
        collision_smd_name: ident.collision_smd_name.to_owned(),
        surface_prop: ident.surface_prop.to_owned(),
    };
    build_phy_from_smd(smd, &ident, checksum, mass.to_bits(), phys, hulls, measures)
}

/// The hulls of the parts of a concave mesh.
fn shells(smd: &Smd) -> Result<Vec<PhyHull>, String> {
    let mut points = Vec::new();
    let mut normals = Vec::new();
    for t in &smd.triangles {
        for v in &t.vertices {
            points.push(v.position);
            normals.push(v.normal);
        }
    }
    match connected_pieces(&points, &normals)? {
        None => Ok(vec![hull_around(&points).map_err(|e| e.describe())?]),
        Some(parts) => {
            let hulls = parts
                .iter()
                .map(|part| {
                    let list: Vec<[u32; 3]> = part.iter().map(|&i| points[i]).collect();
                    hull_around(&list).ok()
                })
                .collect();
            match keep_spanned(hulls) {
                Some(list) => Ok(list),
                None => Ok(vec![hull_around(&points).map_err(|e| e.describe())?]),
            }
        }
    }
}

fn decompose_concave(
    vertices: &[[f32; 3]],
    faces: &[[u32; 3]],
    resolution: u32,
    max_hulls: u32,
) -> Result<Vec<Hull>, PhyError> {
    check_mesh(&bits_of(vertices), &faces.to_vec())?;
    let params = VHACDParameters {
        resolution: resolution.max(8),
        max_convex_hulls: max_hulls.max(1),
        ..Default::default()
    };
    let parts = VHACD::decompose(&params, &vectors_of(&bits_of(vertices)), faces, false)
        .compute_convex_hulls(1);
    let list: Vec<PhyHull> = parts
        .iter()
        .map(|(points, faces)| PhyHull {
            vertices: points
                .iter()
                .map(|v| [v.x.to_bits(), v.y.to_bits(), v.z.to_bits()])
                .collect(),
            faces: faces.clone(),
        })
        .collect();
    Ok(keep_bodies(list)?
        .iter()
        .map(|h| Hull {
            vertices: floats_of(&h.vertices),
            faces: h.faces.clone(),
        })
        .collect())
}

fn geometry_of_box(low: [f32; 3], high: [f32; 3]) -> ([f32; 3], f32, [u8; 3]) {
    let g = node_geometry(Bounds {
        low: bits_of(&[low])[0],
        high: bits_of(&[high])[0],
    });
    (floats_of(&[g.center])[0], f32::from_bits(g.radius), g.box_sizes)
}

fn no_physics() -> Physics {
    Physics::default()
}

/// The solid of each bone, where the triangles of every bone span a volume.
fn solid_of_bones(smd: &Smd, bones: usize, parents: &[i32]) -> Option<Vec<i32>> {
    let spans = vec![true; group_by_bone(smd).len()];
    physics_bone_table(smd, &HashMap::new(), &spans, bones, &parents.to_vec())
}

#[test]
fn build_phy_rejects_empty_smd() {
    let smd = parse_smd(
        "version 1\nnodes\n0 \"root\" -1\nend\nskeleton\nend\ntriangles\nend\n",
    )
    .expect("SMD 应能解析");
    assert!(build_prop(
        &smd,
        Ident {
            model_name: "x",
            collision_smd_name: "x",
            surface_prop: "default",
        },
        0,
        1.0,
        &no_physics(),
    )
    .is_err());
}

#[test]
fn build_phy_from_smd_produces_valid_file() {
    let mut smd_text = String::from("version 1\nnodes\n0 \"root\" -1\nend\nskeleton\ntime 0\n0 0 0 0 0 0 0\nend\ntriangles\nphys\n");
    let v = cube_vertices();
    for f in cube_faces() {
        for &i in &f {
            let p = v[i as usize];
            smd_text.push_str(&format!(
                "0 {} {} {} 0 0 1 0 0 1 0 1\n",
                p[0], p[1], p[2]
            ));
        }
    }
    smd_text.push_str("end\n");
    let smd = parse_smd(&smd_text).expect("SMD 应能解析");
    let bytes = build_prop(
        &smd,
        Ident {
            model_name: "testprop",
            collision_smd_name: "testprop",
            surface_prop: "metal",
        },
        0xDEAD_BEEF,
        1.0,
        &no_physics(),
    )
    .expect("应能写出 PHY");
    let layout = check_invariants(&bytes).expect("写出的 PHY 应通过硬约束");
    assert_eq!(layout.solid_count, 1, "prop 形态只有 1 个 solid");
    assert_eq!(
        u32::from_le_bytes(bytes[0x0C..0x10].try_into().unwrap()),
        0xDEAD_BEEF,
        "checksum 写在 +0x0C"
    );
    assert_eq!(i32::from_le_bytes(bytes[0..4].try_into().unwrap()), 16);
    assert_eq!(i32::from_le_bytes(bytes[4..8].try_into().unwrap()), 0);
}

#[test]
fn concave_splits_disconnected_shells() {
    let smd = parse_two_cubes();
    let hulls = shells(&smd).expect("应能分解");
    assert_eq!(hulls.len(), 2, "两个分离的壳应产出 2 个凸块");
}

#[test]
fn concave_keeps_connected_concave_body_as_single_hull() {
    let smd = parse_u_prism();
    let hulls = shells(&smd).expect("应能分解");
    assert_eq!(hulls.len(), 1, "连通的凹体是 1 个凸块");
    let (verts, faces) = welded(&smd);
    let vhacd = decompose_concave(&verts, &faces, 64, 16).expect("VHACD 应能分解");
    assert!(
        vhacd.len() > 1,
        "VHACD 应把凹体拆成多块（实际 {}）",
        vhacd.len()
    );
}

#[test]
fn default_total_mass_is_one() {
    let p = PhyParams::new("m", 0);
    assert_eq!(p.total_mass, 1.0f32.to_bits());
    let b = write_cube();
    let layout = check_invariants(&b).unwrap();
    let text = std::str::from_utf8(&b[layout.solids_end..b.len() - 1]).unwrap();
    assert!(text.contains("\"totalmass\" \"1.000000\""));
}

fn parse_two_cubes() -> Smd {
    let mut s = String::from("version 1\nnodes\n0 \"root\" -1\nend\nskeleton\ntime 0\n0 0 0 0 0 0 0\nend\ntriangles\n");
    for offset in [[0.0f32, 0.0, 0.0], [100.0, 0.0, 0.0]] {
        let v = cube_vertices();
        for f in cube_faces() {
            s.push_str("phys\n");
            for &i in &f {
                let p = v[i as usize];
                s.push_str(&format!(
                    "0 {} {} {} 0 0 1 0 0 1 0 1\n",
                    p[0] + offset[0],
                    p[1] + offset[1],
                    p[2] + offset[2]
                ));
            }
        }
    }
    s.push_str("end\n");
    parse_smd(&s).expect("SMD 应能解析")
}

fn parse_u_prism() -> Smd {
    let poly: [[f32; 2]; 8] = [
        [-2.0, -2.0], [2.0, -2.0], [2.0, 2.0], [1.0, 2.0],
        [1.0, 0.0], [-1.0, 0.0], [-1.0, 2.0], [-2.0, 2.0],
    ];
    let y0 = -1.0f32;
    let y1 = 1.0f32;
    let n = poly.len();
    let mut tris: Vec<[[f32; 3]; 3]> = Vec::new();
    let bot = |i: usize| [poly[i][0], y0, poly[i][1]];
    let top = |i: usize| [poly[i][0], y1, poly[i][1]];
    for i in 1..n - 1 {
        tris.push([bot(0), bot(i), bot(i + 1)]);
        tris.push([top(0), top(i + 1), top(i)]);
    }
    for i in 0..n {
        let j = (i + 1) % n;
        tris.push([top(i), top(j), bot(j)]);
        tris.push([top(i), bot(j), bot(i)]);
    }
    let mut s = String::from("version 1\nnodes\n0 \"root\" -1\nend\nskeleton\ntime 0\n0 0 0 0 0 0 0\nend\ntriangles\n");
    for t in &tris {
        s.push_str("phys\n");
        for p in t {
            s.push_str(&format!(
                "0 {} {} {} 0 0 1 0 0 1 0 1\n",
                p[0], p[1], p[2]
            ));
        }
    }
    s.push_str("end\n");
    parse_smd(&s).expect("SMD 应能解析")
}

fn cube_vertices() -> Vec<[f32; 3]> {
    vec![
        [-1.0, -1.0, -1.0],
        [1.0, -1.0, -1.0],
        [1.0, 1.0, -1.0],
        [-1.0, 1.0, -1.0],
        [-1.0, -1.0, 1.0],
        [1.0, -1.0, 1.0],
        [1.0, 1.0, 1.0],
        [-1.0, 1.0, 1.0],
    ]
}

fn cube_faces() -> Vec<[u32; 3]> {
    vec![
        [4, 5, 6],
        [4, 6, 7],
        [1, 0, 3],
        [1, 3, 2],
        [5, 1, 2],
        [5, 2, 6],
        [0, 4, 7],
        [0, 7, 3],
        [7, 6, 2],
        [7, 2, 3],
        [0, 1, 5],
        [0, 5, 4],
    ]
}

fn cube() -> Hull {
    Hull {
        vertices: cube_vertices(),
        faces: cube_faces(),
    }
}

fn write_cube() -> Vec<u8> {
    let h = cube();
    let s = [PhySolid::prop("cube")];
    let p = PhyParams::new("cube", 0xdead_beef);
    write(&[h.clone()], &s, &p).expect("立方体必须能写出")
}

#[test]
fn cube_passes_all_hard_constraints() {
    let bytes = write_cube();
    let layout = check_invariants(&bytes).expect("硬约束必须全部通过");
    assert_eq!(layout.solid_count, 1);
    assert_eq!(layout.file_size, bytes.len());
    assert_eq!(layout.text_size, bytes.len() - layout.solids_end);
}

#[test]
fn cube_header_matches_reference_bytes() {
    let b = write_cube();
    assert_eq!(read_i32(&b, 0), 16, "phyheader.size 恒为 16");
    assert_eq!(read_i32(&b, 4), 0, "phyheader.id 恒为 0");
    assert_eq!(read_i32(&b, 8), 1, "solidCount");
    assert_eq!(read_u32(&b, 12), 0xdead_beef, "checksum 必须原样写入");
}

#[test]
fn cube_matches_reference_implementation_layout() {
    let b = write_cube();
    assert_eq!(read_i32(&b, 16 + 12), 412, "surfaceSize");
    assert_eq!(read_i32(&b, 16), 440, "size == surfaceSize + 28");
    assert_eq!(440 + 4, 412 + 32, "solid 步长恒等式");
    let body = 16 + SOLID_HEADER_SIZE;
    assert_eq!(read_u32(&b, 16 + 4), VPHYSICS_ID, "vphysicsID == 'VPHY'");
    assert_eq!(read_u16(&b, 16 + 8), 0x0100, "version");
    assert_eq!(read_i16(&b, 16 + 10), 0, "modelType == COLLIDE_POLY");
    assert_eq!(read_i32(&b, 16 + 28), 0, "axisMapSize");
    assert_eq!(read_u32(&b, body + 44), IVP_COMPACT_SURFACE_ID, "dummy[2] == 'IVPS'");
    assert_eq!(read_i32(&b, body + 32), 384, "offset_ledgetree_root");
    let node = body + 384;
    assert_eq!(read_i32(&b, node), 0, "单节点树的 offset_right_node == 0");
    assert_eq!(
        read_i32(&b, node + 4),
        48 - 384,
        "offset_compact_ledge 相对节点自身"
    );
    assert_eq!(read_i32(&b, node + 4), -336);
}

#[test]
fn cube_ledge_fields_are_exact() {
    let b = write_cube();
    let region = 16 + SOLID_HEADER_SIZE + COMPACT_SURFACE_SIZE;
    let n_tri = read_i16(&b, region + 12) as usize;
    assert_eq!(n_tri, 12);
    assert_eq!(
        read_i32(&b, region),
        (16 + 16 * n_tri) as i32,
        "单 hull 的 c_point_offset == 16 + 16×nTri"
    );
    let l2 = read_u32(&b, region + 8);
    assert_eq!(l2 & 3, 0, "has_chilren_flag == 0（终结 ledge）");
    assert_eq!((l2 >> 2) & 3, 1, "is_compact_flag == 1");
    assert_eq!((l2 >> 4) & 0xF, 0, "dummy == 0");
    assert_eq!((l2 >> 8) & 0x00FF_FFFF, 1 + 12 + 8, "size_div_16");
    assert_eq!(read_i16(&b, region + 14), 0, "for_future_use == 0");
}

#[test]
fn cube_tri_indices_are_sequential() {
    let b = write_cube();
    let region = 16 + SOLID_HEADER_SIZE + COMPACT_SURFACE_SIZE;
    for k in 0..12usize {
        let w0 = read_u32(&b, region + 16 + k * 16);
        assert_eq!(w0 & 0x0FFF, k as u32, "tri_index[{k}]");
        assert_eq!((w0 >> 12) & 0x0FFF, k as u32, "pierce_index[{k}]");
        assert_eq!((w0 >> 24) & 0x7F, 0, "material_index[{k}]");
        assert_eq!(w0 >> 31, 0, "is_virtual[{k}]");
    }
}

#[test]
fn opposite_index_hand_computed_tetrahedron() {
    let verts = [
        [1.0f32, 1.0, 1.0],
        [1.0, -1.0, -1.0],
        [-1.0, 1.0, -1.0],
        [-1.0, -1.0, 1.0],
    ];
    assert_eq!(verts.len(), 4);
    let faces = [[0u32, 1, 2], [0, 3, 1], [0, 2, 3], [1, 3, 2]];
    let dir: HashMap<(u32, u32), (usize, usize)> = [
        ((0, 1), (0usize, 0usize)),
        ((1, 2), (0, 1)),
        ((2, 0), (0, 2)),
        ((0, 3), (1, 0)),
        ((3, 1), (1, 1)),
        ((1, 0), (1, 2)),
        ((0, 2), (2, 0)),
        ((2, 3), (2, 1)),
        ((3, 0), (2, 2)),
        ((1, 3), (3, 0)),
        ((3, 2), (3, 1)),
        ((2, 1), (3, 2)),
    ]
    .into_iter()
    .collect();
    let expect: [((usize, usize), (usize, usize)); 12] = [
        ((0, 0), (1, 2)),
        ((0, 1), (3, 2)),
        ((0, 2), (2, 0)),
        ((1, 0), (2, 2)),
        ((1, 1), (3, 0)),
        ((1, 2), (0, 0)),
        ((2, 0), (0, 2)),
        ((2, 1), (3, 1)),
        ((2, 2), (1, 0)),
        ((3, 0), (1, 1)),
        ((3, 1), (2, 1)),
        ((3, 2), (0, 1)),
    ];
    for (k, f) in faces.iter().enumerate() {
        for i in 0..3 {
            let key = (f[i], f[(i + 1) % 3]);
            assert_eq!(dir[&key], (k, i), "手写边表与面表不符：{key:?}");
        }
    }
    for ((k, i), (k2, i2)) in expect {
        let id = |k: usize, i: usize| 4 * k as i32 + 1 + i as i32;
        let hand = id(k2, i2) - id(k, i);
        let reverse = build_reverse_edges(&faces.to_vec(), 0).unwrap();
        let got_pair = reverse[3 * k + i];
        assert_eq!(
            (got_pair[0] as usize, got_pair[1] as usize),
            (k2, i2),
            "边 ({k},{i}) 的反向边"
        );
        let got = id(got_pair[0] as usize, got_pair[1] as usize) - id(k, i);
        assert_eq!(got, hand, "边 ({k},{i}) 的 opposite_index");
        assert!(
            (-16384..16384).contains(&got),
            "opposite_index {got} 必须塞进 15 位有符号"
        );
    }
    let id = |k: i32, i: i32| 4 * k + 1 + i;
    assert_eq!(id(1, 2) - id(0, 0), 6);
    assert_eq!(id(0, 1) - id(3, 2), -13);
    assert_eq!(id(0, 0), 1);
    assert_eq!(id(3, 2), 15);
}

#[test]
fn tetrahedron_written_opposite_indices_match_hand_computation() {
    let h = Hull {
        vertices: vec![
            [1.0f32, 1.0, 1.0],
            [1.0, -1.0, -1.0],
            [-1.0, 1.0, -1.0],
            [-1.0, -1.0, 1.0],
        ],
        faces: vec![[0, 1, 2], [0, 3, 1], [0, 2, 3], [1, 3, 2]],
    };
    let s = [PhySolid::prop("tetra")];
    let p = PhyParams::new("tetra", 1);
    let b = write(&[h.clone()], &s, &p).unwrap();
    let region = 16 + SOLID_HEADER_SIZE + COMPACT_SURFACE_SIZE;
    let edge = |k: usize, i: usize| read_u32(&b, region + 16 + k * 16 + 4 + i * 4);
    let opp = |k: usize, i: usize| {
        let raw = (edge(k, i) >> 16) & 0x7FFF;
        if raw & 0x4000 != 0 {
            raw as i32 - 0x8000
        } else {
            raw as i32
        }
    };
    assert_eq!(opp(0, 0), 6);
    assert_eq!(opp(3, 2), -13);
    assert_eq!(opp(0, 0), -opp(1, 2));
    assert_eq!(opp(3, 2), -opp(0, 1));
}

#[test]
fn opposite_index_bound_justifies_max_triangles() {
    let max_delta = |n_tri: i64| 4 * (n_tri - 1);
    assert!(
        max_delta(MAX_TRIANGLES_PER_HULL as i64) <= 16383,
        "nTri={MAX_TRIANGLES_PER_HULL} 时最大编号差 {} 必须 ≤ 16383",
        max_delta(MAX_TRIANGLES_PER_HULL as i64)
    );
    assert!(
        max_delta(8192) > 16383,
        "8192 个三角形时最大编号差 {} 超出 15 位有符号",
        max_delta(8192)
    );
}

#[test]
fn empty_input_is_rejected() {
    let p = PhyParams::new("x", 0);
    let err = write(&[], &[], &p).unwrap_err();
    assert!(matches!(err, PhyError::BadParameter { .. }), "实际：{err:?}");
    let s = [PhySolid::prop("x")];
    let err = write(&[], &s, &p).unwrap_err();
    assert!(matches!(err, PhyError::BadParameter { .. }), "实际：{err:?}");
}

#[test]
fn mismatched_counts_are_rejected() {
    let h = cube();
    let p = PhyParams::new("x", 0);
    let err = write(&[h.clone()], &[], &p).unwrap_err();
    assert!(matches!(err, PhyError::BadParameter { .. }), "实际：{err:?}");
}

#[test]
fn too_few_vertices_is_rejected() {
    let h = Hull {
        vertices: vec![[0.0; 3], [1.0, 0.0, 0.0], [0.0, 1.0, 0.0]],
        faces: vec![[0, 1, 2]],
    };
    let s = [PhySolid::prop("x")];
    let p = PhyParams::new("x", 0);
    let err = write(&[h.clone()], &s, &p).unwrap_err();
    assert!(
        matches!(err, PhyError::HullTooFewPoints { points: 3, .. }),
        "实际：{err:?}"
    );
}

#[test]
fn degenerate_triangle_is_rejected() {
    let h = Hull {
        vertices: cube_vertices(),
        faces: vec![[0, 0, 1]],
    };
    let s = [PhySolid::prop("x")];
    let p = PhyParams::new("x", 0);
    let err = write(&[h.clone()], &s, &p).unwrap_err();
    assert!(
        matches!(err, PhyError::DuplicateEdge { from: 0, to: 0, .. }),
        "实际：{err:?}"
    );
}

#[test]
fn duplicated_directed_edge_is_rejected() {
    let h = Hull {
        vertices: cube_vertices(),
        faces: vec![[0, 1, 2], [0, 1, 2]],
    };
    let s = [PhySolid::prop("x")];
    let p = PhyParams::new("x", 0);
    let err = write(&[h.clone()], &s, &p).unwrap_err();
    assert!(matches!(err, PhyError::DuplicateEdge { .. }), "实际：{err:?}");
}

#[test]
fn open_mesh_is_rejected() {
    let mut faces = cube_faces();
    faces.pop();
    let h = Hull {
        vertices: cube_vertices(),
        faces,
    };
    let s = [PhySolid::prop("x")];
    let p = PhyParams::new("x", 0);
    let err = write(&[h.clone()], &s, &p).unwrap_err();
    assert!(matches!(err, PhyError::OpenMesh { .. }), "实际：{err:?}");
}

#[test]
fn out_of_range_index_is_rejected() {
    let h = Hull {
        vertices: cube_vertices(),
        faces: vec![[0, 1, 99]],
    };
    let s = [PhySolid::prop("x")];
    let p = PhyParams::new("x", 0);
    let err = write(&[h.clone()], &s, &p).unwrap_err();
    assert!(
        matches!(
            err,
            PhyError::IndexOutOfRange {
                index: 99,
                vertex_count: 8,
                ..
            }
        ),
        "实际：{err:?}"
    );
}

#[test]
fn non_finite_coordinates_are_rejected() {
    let s = [PhySolid::prop("x")];
    let p = PhyParams::new("x", 0);
    for bad in [f32::NAN, f32::INFINITY, f32::NEG_INFINITY] {
        let mut vs = cube_vertices();
        vs[3][1] = bad;
        let h = Hull {
            vertices: vs,
            faces: cube_faces(),
        };
        let err = write(&[h.clone()], &s, &p).unwrap_err();
        assert!(
            matches!(err, PhyError::NonFinitePoint { point: 3, .. }),
            "值 {bad} 应被拒绝，实际：{err:?}"
        );
    }
}

#[test]
fn degenerate_bounds_are_rejected() {
    let v = vec![[1.0f32, 2.0, 3.0]; 8];
    let h = Hull {
        vertices: v,
        faces: cube_faces(),
    };
    let s = [PhySolid::prop("x")];
    let p = PhyParams::new("x", 0);
    let err = write(&[h.clone()], &s, &p).unwrap_err();
    assert!(
        matches!(
            err,
            PhyError::DegenerateBounds { .. } | PhyError::DuplicateEdge { .. }
        ),
        "退化的包围盒必须被拒绝，实际：{err:?}"
    );
    let (center, radius, boxes) = geometry_of_box([1.0, 2.0, 3.0], [1.0, 2.0, 3.0]);
    assert_eq!(center, [1.0, 2.0, 3.0]);
    assert_eq!(radius, 0.0);
    assert_eq!(boxes, [0, 0, 0], "半径 0 时 box_sizes 全 0，不做除零");
}

#[test]
fn empty_faces_are_rejected() {
    let h = Hull {
        vertices: cube_vertices(),
        faces: Vec::new(),
    };
    let s = [PhySolid::prop("x")];
    let p = PhyParams::new("x", 0);
    let err = write(&[h.clone()], &s, &p).unwrap_err();
    assert!(
        matches!(err, PhyError::HullDegenerate { .. }),
        "实际：{err:?}"
    );
}

#[test]
fn bad_parameters_are_rejected() {
    let h = cube();
    let s = [PhySolid::prop("x")];
    for mass in [0.0f32, -1.0, f32::NAN] {
        let mut p = PhyParams::new("x", 0);
        p.total_mass = mass.to_bits();
        assert!(
            matches!(
                write(&[h.clone()], &s, &p),
                Err(PhyError::BadParameter { .. })
            ),
            "total_mass={mass} 应被拒绝"
        );
    }
    let mut p = PhyParams::new("x", 0);
    p.inertia_scale = (-1.0f32).to_bits();
    assert!(matches!(
        write(&[h.clone()], &s, &p),
        Err(PhyError::BadParameter { .. })
    ));
}

#[test]
fn nul_in_name_is_rejected() {
    let h = cube();
    let s = [PhySolid {
        bone_index: None,
        name: "bad\0name".into(),
        parent: None,
        mass_bias: (1.0f32).to_bits(),
        damping: None,
        rot_damping: None,
        inertia: None,
    }];
    let p = PhyParams::new("x", 0);
    let err = write(&[h.clone()], &s, &p).unwrap_err();
    assert!(matches!(err, PhyError::BadParameter { .. }), "实际：{err:?}");
}

#[test]
fn truncated_bytes_are_reported_not_panicking() {
    let b = write_cube();
    for cut in 0..b.len().min(200) {
        let _ = check_invariants(&b[..cut]);
    }
    assert!(matches!(
        check_invariants(&b[..16]),
        Err(PhyError::SelfCheck(_))
    ));
    assert!(matches!(
        check_invariants(&[]),
        Err(PhyError::SelfCheck(_))
    ));
}

#[test]
fn tampered_bytes_are_caught() {
    let good = write_cube();
    let mut b = good.clone();
    b[0] = 99;
    assert!(matches!(
        check_invariants(&b),
        Err(PhyError::SelfCheck(_))
    ));
    let mut b = good.clone();
    b[4] = 1;
    assert!(matches!(
        check_invariants(&b),
        Err(PhyError::SelfCheck(_))
    ));
    let mut b = good.clone();
    b[16 + 4] = 0;
    assert!(matches!(
        check_invariants(&b),
        Err(PhyError::SelfCheck(_))
    ));
    let mut b = good.clone();
    let size = read_i32(&b, 16) + 1;
    b[16..20].copy_from_slice(&size.to_le_bytes());
    assert!(matches!(
        check_invariants(&b),
        Err(PhyError::SelfCheck(_))
    ));
    let body = 16 + SOLID_HEADER_SIZE;
    let mut b = good.clone();
    b[body + 44] = 0;
    assert!(matches!(
        check_invariants(&b),
        Err(PhyError::SelfCheck(_))
    ));
    let node = body + read_i32(&good, body + 32) as usize;
    let mut b = good.clone();
    let wrong = -read_i32(&good, body + 32);
    b[node + 4..node + 8].copy_from_slice(&wrong.to_le_bytes());
    assert!(
        matches!(check_invariants(&b), Err(PhyError::SelfCheck(_))),
        "offset_compact_ledge 写错基准必须被自检抓到"
    );
    let mut b = good.clone();
    let last = b.len() - 1;
    b[last] = b'x';
    assert!(matches!(
        check_invariants(&b),
        Err(PhyError::SelfCheck(_))
    ));
}

#[test]
fn text_volume_is_inches_cubed_while_points_are_metres() {
    let b = write_cube();
    let text = String::from_utf8_lossy(&b[b.len() - 400..]);
    let m = text
        .find("\"volume\"")
        .expect("text 段必须有 volume");
    let rest = &text[m + "\"volume\"".len()..];
    let q1 = rest.find('"').expect("volume 后应有引号");
    let q2 = rest[q1 + 1..].find('"').expect("volume 值应有结束引号");
    let v: f32 = rest[q1 + 1..q1 + 1 + q2].parse().expect("volume 应是数字");
    assert!(
        (v - 8.0).abs() < 1e-3,
        "±1 立方体的 text volume 应为 **8 in³**（不是 8×0.0254³），实际 {v}"
    );
    let body = 16 + SOLID_HEADER_SIZE;
    let ledge = body + COMPACT_SURFACE_SIZE;
    let n_tri = read_i16(&b, ledge + 0x0C) as usize;
    let pt_base = ledge + LEDGE_HEADER_SIZE + TRIANGLE_SIZE * n_tri;
    let v0 = read_f32(&b, pt_base);
    assert!(
        (v0.abs() - 0.0254).abs() < 1e-9,
        "点数组必须是米（±0.0254），实际 {v0}"
    );
}

#[test]
fn surface_size_identity_holds() {
    let b = write_cube();
    let layout = check_invariants(&b).unwrap();
    for si in 0..layout.solid_count {
        assert_eq!(
            layout.surface_sizes[si] as usize,
            COMPACT_SURFACE_SIZE
                + layout.ledge_region_sizes[si]
                + LEDGETREE_NODE_SIZE * layout.node_counts[si],
            "solid[{si}] 的 surfaceSize 恒等式"
        );
    }
}

#[test]
fn file_layout_identities_hold() {
    let b = write_cube();
    let layout = check_invariants(&b).unwrap();
    let size = read_i32(&b, 16);
    assert_eq!(size as usize, layout.surface_sizes[0] as usize + 28);
    assert_eq!(size as usize + 4, layout.surface_sizes[0] as usize + 32);
    let mut expect_end = PHY_HEADER_SIZE;
    let mut base = PHY_HEADER_SIZE;
    for _ in 0..layout.solid_count {
        let s = read_i32(&b, base);
        expect_end += s as usize + 4;
        base += s as usize + 4;
    }
    assert_eq!(layout.solids_end, expect_end, "solidsEnd");
    assert_eq!(
        layout.solids_end + layout.text_size,
        layout.file_size,
        "solidsEnd + textSize == fileSize"
    );
    assert_eq!(layout.file_size, b.len());
}

#[test]
fn cube_lengths_are_hand_computable() {
    let b = write_cube();
    let layout = check_invariants(&b).unwrap();
    let n_tri = 12usize;
    let n_pts = 8usize;
    let expect_ledge = LEDGE_HEADER_SIZE + TRIANGLE_SIZE * n_tri + POINT_SIZE * n_pts;
    assert_eq!(expect_ledge, 336);
    assert_eq!(layout.ledge_region_sizes[0], expect_ledge);
    let expect_surface = COMPACT_SURFACE_SIZE + expect_ledge + LEDGETREE_NODE_SIZE;
    assert_eq!(expect_surface, 412);
    assert_eq!(layout.surface_sizes[0] as usize, expect_surface);
    assert_eq!(layout.node_counts[0], 1);
}

#[test]
fn client_data_encodes_bone_index_plus_one() {
    let h = cube();
    let p = PhyParams::new("x", 0);
    let region = 16 + SOLID_HEADER_SIZE + COMPACT_SURFACE_SIZE;
    let s = [PhySolid::prop("x")];
    let b = write(&[h.clone()], &s, &p).unwrap();
    assert_eq!(read_i32(&b, region + 4), 0, "单 solid prop 的 client_data 必须是 0");
    for bone in [0u32, 1, 5, 71] {
        let s = [PhySolid::ragdoll(bone, format!("bone{bone}"), None)];
        let b = write(&[h.clone()], &s, &p).unwrap();
        assert_eq!(
            read_i32(&b, region + 4),
            bone as i32 + 1,
            "boneIndex={bone} 的 client_data 应为 boneIndex+1"
        );
    }
}

#[test]
fn text_section_shape_matches_spec() {
    let b = write_cube();
    let layout = check_invariants(&b).unwrap();
    let text = &b[layout.solids_end..];
    assert_eq!(*text.last().unwrap(), 0, "末尾单个 NUL");
    assert!(!text[..text.len() - 1].contains(&0), "内部无 NUL");
    let body = std::str::from_utf8(&text[..text.len() - 1]).unwrap();
    assert!(body.starts_with("solid {"));
    assert!(body.ends_with("}\n"));
    assert!(!body.contains(','), "KeyValues 里不该有逗号");
    assert!(!body.contains(';'), "KeyValues 里不该有分号");
    assert!(body.contains("\"name\" \"cube\""));
    assert!(body.contains("\"index\" \"0\""));
    assert!(body.contains("editparams {"));
    assert!(body.contains("\"mass\" \"1.000000\""));
    assert!(body.contains("\"totalmass\" \"1.000000\""));
    assert!(!body.contains("concave"));
}

#[test]
fn multi_solid_text_section_and_constraints() {
    let h = cube();
    let hulls = vec![h.clone(), h.clone(), h];
    let solids = vec![
        PhySolid::ragdoll(3, "root_bone".to_owned(), None),
        PhySolid::ragdoll(7, "mid_bone".to_owned(), Some("root_bone".into())),
        PhySolid::ragdoll(9, "leaf_bone".to_owned(), Some("mid_bone".into())),
    ];
    let p = PhyParams::new("rag", 0x1234);
    let b = write(&hulls, &solids, &p).unwrap();
    let layout = check_invariants(&b).unwrap();
    assert_eq!(layout.solid_count, 3);
    let body = std::str::from_utf8(&b[layout.solids_end..b.len() - 1]).unwrap();
    assert_eq!(body.matches("solid {").count(), 3);
    assert_eq!(body.matches("ragdollconstraint {").count(), 2);
    assert!(body.contains("\"parent\" \"0\"\n\"child\" \"1\""));
    assert!(body.contains("\"parent\" \"1\"\n\"child\" \"2\""));
    assert!(body.contains("\"name\" \"mid_bone\""));
    assert!(body.contains("\"parent\" \"root_bone\""));
    let mut base = PHY_HEADER_SIZE;
    for (i, bone) in [3i32, 7, 9].into_iter().enumerate() {
        let surf = read_i32(&b, base + 12);
        let region = base + SOLID_HEADER_SIZE + COMPACT_SURFACE_SIZE;
        assert_eq!(read_i32(&b, region + 4), bone + 1, "solid[{i}] 的 client_data");
        base += surf as usize + SOLID_HEADER_SIZE;
    }
}

fn ragdoll_three() -> (Vec<Hull>, Vec<PhySolid>) {
    let h = cube();
    let hulls = vec![h.clone(), h.clone(), h];
    let solids = vec![
        PhySolid::ragdoll(0, "bone_root".to_owned(), None),
        PhySolid::ragdoll(1, "bone_mid".to_owned(), Some("bone_root".into())),
        PhySolid::ragdoll(2, "bone_tip".to_owned(), Some("bone_mid".into())),
    ];
    (hulls, solids)
}

fn text_of(hulls: &[Hull], solids: &[PhySolid], p: &PhyParams) -> String {
    let b = write(hulls, solids, p).unwrap();
    check_invariants(&b).unwrap();
    std::str::from_utf8(&b[check_invariants(&b).unwrap().solids_end..b.len() - 1])
        .unwrap()
        .to_string()
}

#[test]
fn jointconstrain_limit_divides_friction_by_five() {
    let (hulls, solids) = ragdoll_three();
    let mut p = PhyParams::new("x", 0);
    p.constraints = vec![JointConstraint {
        bone: "bone_mid".into(),
        axis: 0,
        kind: JointLimitType::Limit,
        min: (-10.0f32).to_bits(),
        max: (10.0f32).to_bits(),
        friction: (5.0f32).to_bits(),
    }];
    let body = text_of(&hulls, &solids, &p);
    assert!(
        body.contains(
            "\"parent\" \"0\"\n\"child\" \"1\"\n\
             \"xmin\" \"-10.000000\"\n\"xmax\" \"10.000000\"\n\"xfriction\" \"1.000000\""
        ),
        "limit 约束落盘应为 (-10, 10, 5/5=1)；实际：\n{body}"
    );
    assert!(body.contains("\"ymin\" \"0.000000\"\n\"ymax\" \"0.000000\"\n\"yfriction\" \"0.000000\""));
    assert!(body.contains("\"zmin\" \"0.000000\"\n\"zmax\" \"0.000000\"\n\"zfriction\" \"0.000000\""));
    assert!(body.contains("\"parent\" \"1\"\n\"child\" \"2\"\n\"xmin\" \"0.000000\""));
}

#[test]
fn jointconstrain_free_and_fixed_ignore_min_max() {
    let (hulls, solids) = ragdoll_three();
    let mut p = PhyParams::new("x", 0);
    p.constraints = vec![JointConstraint {
        bone: "bone_mid".into(),
        axis: 0,
        kind: JointLimitType::Free,
        min: (7.0f32).to_bits(),
        max: (9.0f32).to_bits(),
        friction: (0.0f32).to_bits(),
    }];
    let body = text_of(&hulls, &solids, &p);
    assert!(
        body.contains("\"xmin\" \"-360.000000\"\n\"xmax\" \"360.000000\""),
        "free 必须落盘 ±360（忽略 min/max=7/9）；实际：\n{body}"
    );
    let mut p2 = PhyParams::new("x", 0);
    p2.constraints = vec![JointConstraint {
        bone: "bone_mid".into(),
        axis: 0,
        kind: JointLimitType::Fixed,
        min: (7.0f32).to_bits(),
        max: (9.0f32).to_bits(),
        friction: (5.0f32).to_bits(),
    }];
    let body2 = text_of(&hulls, &solids, &p2);
    assert!(
        body2.contains(
            "\"xmin\" \"0.000000\"\n\"xmax\" \"0.000000\"\n\"xfriction\" \"0.000000\""
        ),
        "fixed 必须落盘全 0（忽略 min/max/friction）；实际：\n{body2}"
    );
}

#[test]
fn jointconstrain_three_axes_are_independent() {
    let (hulls, solids) = ragdoll_three();
    let mut p = PhyParams::new("x", 0);
    p.constraints = vec![
        JointConstraint { bone: "bone_mid".into(), axis: 0, kind: JointLimitType::Limit, min: (-10.0f32).to_bits(), max: (10.0f32).to_bits(), friction: (5.0f32).to_bits() },
        JointConstraint { bone: "bone_mid".into(), axis: 1, kind: JointLimitType::Limit, min: (-20.0f32).to_bits(), max: (20.0f32).to_bits(), friction: (10.0f32).to_bits() },
        JointConstraint { bone: "bone_mid".into(), axis: 2, kind: JointLimitType::Limit, min: (-30.0f32).to_bits(), max: (30.0f32).to_bits(), friction: (15.0f32).to_bits() },
    ];
    let body = text_of(&hulls, &solids, &p);
    assert!(body.contains("\"xmin\" \"-10.000000\"\n\"xmax\" \"10.000000\"\n\"xfriction\" \"1.000000\""));
    assert!(body.contains("\"ymin\" \"-20.000000\"\n\"ymax\" \"20.000000\"\n\"yfriction\" \"2.000000\""));
    assert!(body.contains("\"zmin\" \"-30.000000\"\n\"zmax\" \"30.000000\"\n\"zfriction\" \"3.000000\""));
}

#[test]
fn jointconstrain_attaches_to_child_solid() {
    let (hulls, solids) = ragdoll_three();
    let mut p = PhyParams::new("x", 0);
    p.constraints = vec![JointConstraint {
        bone: "bone_tip".into(),
        axis: 0,
        kind: JointLimitType::Limit,
        min: (-7.0f32).to_bits(),
        max: (7.0f32).to_bits(),
        friction: (5.0f32).to_bits(),
    }];
    let body = text_of(&hulls, &solids, &p);
    assert!(body.contains("\"parent\" \"1\"\n\"child\" \"2\"\n\"xmin\" \"-7.000000\""));
    assert!(body.contains("\"parent\" \"0\"\n\"child\" \"1\"\n\"xmin\" \"0.000000\""));
}

#[test]
fn no_self_collisions_writes_collisionrules() {
    let (hulls, solids) = ragdoll_three();
    let mut p = PhyParams::new("x", 0);
    p.no_self_collisions = true;
    let body = text_of(&hulls, &solids, &p);
    assert!(body.contains("collisionrules {\n\"selfcollisions\" \"0\"\n}\n"));
    let rc = body.find("ragdollconstraint").unwrap();
    let cr = body.find("collisionrules").unwrap();
    let ep = body.find("editparams").unwrap();
    assert!(rc < cr && cr < ep, "collisionrules 必须夹在 ragdollconstraint 与 editparams 之间");
}

#[test]
fn jointcollide_writes_solid_indices_in_order() {
    let (hulls, solids) = ragdoll_three();
    let mut p = PhyParams::new("x", 0);
    p.collision_pairs = vec![("bone_mid".into(), "bone_tip".into())];
    let body = text_of(&hulls, &solids, &p);
    assert!(body.contains("collisionrules {\n\"collisionpair\" \"1,2\"\n}\n"), "{body}");
    let mut p2 = PhyParams::new("x", 0);
    p2.collision_pairs = vec![("bone_tip".into(), "bone_root".into())];
    let body2 = text_of(&hulls, &solids, &p2);
    assert!(
        body2.contains("\"collisionpair\" \"2,0\""),
        "顺序必须保持 A,B（不能排序）；实际：\n{body2}"
    );
}

#[test]
fn no_self_collisions_wins_over_collision_pairs() {
    let (hulls, solids) = ragdoll_three();
    let mut p = PhyParams::new("x", 0);
    p.no_self_collisions = true;
    p.collision_pairs = vec![("bone_mid".into(), "bone_tip".into())];
    let body = text_of(&hulls, &solids, &p);
    assert!(body.contains("\"selfcollisions\" \"0\""));
    assert!(!body.contains("collisionpair"), "noself 优先时不该写 collisionpair");
}

#[test]
fn animated_friction_block_and_field_order() {
    let (hulls, solids) = ragdoll_three();
    let mut p = PhyParams::new("x", 0);
    p.animated_friction = Some(AnimatedFriction {
        min: 100,
        max: 500,
        time_in: (0.1f32).to_bits(),
        time_out: (1.0f32).to_bits(),
        time_hold: (0.2f32).to_bits(),
    });
    let body = text_of(&hulls, &solids, &p);
    assert!(body.contains(
        "animatedfriction {\n\
         \"animfrictionmin\" \"100.000000\"\n\
         \"animfrictionmax\" \"500.000000\"\n\
         \"animfrictiontimein\" \"0.100000\"\n\
         \"animfrictiontimeout\" \"1.000000\"\n\
         \"animfrictiontimehold\" \"0.200000\"\n\
         }\n"
    ), "{body}");
}

#[test]
fn jointmerge_writes_raw_name_pair() {
    let (hulls, solids) = ragdoll_three();
    let mut p = PhyParams::new("x", 0);
    p.merge_list = vec![("bone_mid".into(), "bone_tip".into())];
    let body = text_of(&hulls, &solids, &p);
    assert!(body.contains("\"jointmerge\" \"bone_mid,bone_tip\"\n"), "{body}");
}

#[test]
fn jointmerge_merges_child_faces_into_parent() {
    let mut s = String::from("version 1\nnodes\n");
    s.push_str("0 \"bone_root\" -1\n1 \"bone_mid\" 0\n2 \"bone_tip\" 1\n");
    s.push_str("end\nskeleton\ntime 0\n");
    s.push_str("0 0 0 0 0 0 0\n1 0 0 10 0 0 0\n2 0 0 20 0 0 0\n");
    s.push_str("end\ntriangles\n");
    for (bone, cz) in [(0, 0), (1, 10), (2, 20)] {
        let c = cz as f32;
        let v = [
            [-1.0, -1.0, -1.0], [1.0, -1.0, -1.0], [1.0, 1.0, -1.0], [-1.0, 1.0, -1.0],
            [-1.0, -1.0, 1.0], [1.0, -1.0, 1.0], [1.0, 1.0, 1.0], [-1.0, 1.0, 1.0],
        ];
        let quads = [
            [0, 3, 2, 1], [4, 5, 6, 7], [0, 1, 5, 4],
            [2, 3, 7, 6], [1, 2, 6, 5], [0, 4, 7, 3],
        ];
        for q in quads {
            for tri in [[q[0], q[1], q[2]], [q[0], q[2], q[3]]] {
                s.push_str("phy\n");
                for i in tri {
                    s.push_str(&format!(
                        "{bone} {} {} {} 0 0 1 0 0 1 {bone} 1\n",
                        v[i][0], v[i][1], v[i][2] + c
                    ));
                }
            }
        }
    }
    s.push_str("end\n");
    let smd = parse_smd(&s).expect("SMD 应能解析");
    assert_eq!(group_by_bone(&smd).len(), 3, "不归并时应是 3 根骨骼各一组");
    let mut merged = std::collections::HashMap::new();
    merged.insert(2i32, 1i32);
    let g = group_by_bone_merged(&smd, &merged);
    assert_eq!(g.len(), 2, "归并后应只剩 2 组；实际 {g:?}");
    let mid = g.iter().find(|x| x.name == "bone_mid").expect("应有 bone_mid");
    assert_eq!(
        mid.faces.len(),
        24,
        "bone_mid 应并吞 bone_tip 的 12 个面（12 自己 + 12 子 = 24）"
    );
    assert!(g.iter().all(|x| x.name != "bone_tip"), "bone_tip 不该再单独成组");
}

#[test]
fn jointmerge_cycle_is_rejected() {
    let mut merged = std::collections::HashMap::new();
    merged.insert(2i32, 1i32);
    assert!(would_cycle(&merged, 2, 1, 10), "1→2 与已有的 2→1 成环");
    assert!(!would_cycle(&merged, 1, 2, 10), "重复边不算环");
    assert!(!would_cycle(&merged, 1, 0, 10), "0→1 不成环");
    assert!(would_cycle(&merged, 1, 1, 10), "自环应判成环（调用方另行跳过）");
}

#[test]
fn physics_bone_maps_solids_and_walks_up_parents() {
    let build = |bones: [i32; 3]| {
        let mut s = String::from("version 1\nnodes\n");
        s.push_str("0 \"bone_root\" -1\n1 \"bone_mid\" 0\n2 \"bone_tip\" 1\n");
        s.push_str("end\nskeleton\ntime 0\n");
        s.push_str("0 0 0 0 0 0 0\n1 0 0 10 0 0 0\n2 0 0 20 0 0 0\n");
        s.push_str("end\ntriangles\nphys\n");
        for (k, &bone) in bones.iter().enumerate() {
            if bone < 0 {
                continue;
            }
            let z = k as f32 * 20.0;
            let verts: Vec<[f32; 3]> = vec![
                [-5.0, -5.0, z - 5.0], [5.0, -5.0, z - 5.0], [5.0, 5.0, z - 5.0], [-5.0, 5.0, z - 5.0],
                [-5.0, -5.0, z + 5.0], [5.0, -5.0, z + 5.0], [5.0, 5.0, z + 5.0], [-5.0, 5.0, z + 5.0],
            ];
            let faces: [[usize; 3]; 12] = [
                [0, 1, 2], [0, 2, 3], [4, 6, 5], [4, 7, 6],
                [0, 4, 5], [0, 5, 1], [1, 5, 6], [1, 6, 2],
                [2, 6, 7], [2, 7, 3], [3, 7, 4], [3, 4, 0],
            ];
            for f in faces.iter() {
                for &vi in f {
                    let p = verts[vi];
                    s.push_str(&format!(
                        "{bone} {} {} {} 0 0 1 0 0 1 {bone} 1\n",
                        p[0], p[1], p[2]
                    ));
                }
            }
        }
        s.push_str("end\n");
        parse_smd(&s).expect("SMD 应能解析")
    };
    let parents = [-1i32, 0, 1];
    let smd = build([0, 1, 2]);
    let pb = solid_of_bones(&smd, 3, &parents).expect("应有表");
    assert_eq!(pb, vec![0, 1, 2], "rjd1 形态：physicsbone = [0,1,2]");
    let smd = build([0, -1, 2]);
    let pb = solid_of_bones(&smd, 3, &parents).expect("应有表");
    assert_eq!(pb, vec![0, 0, 1], "rjd2 形态：中间骨骼上溯到父，下标不跳号");
    let empty = parse_smd(
        "version 1\nnodes\n0 \"root\" -1\nend\nskeleton\nend\ntriangles\nend\n",
    )
    .expect("SMD 应能解析");
    assert!(solid_of_bones(&empty, 1, &[-1]).is_none());
}

#[test]
fn physics_bone_is_all_zero_for_single_solid() {
    let s = {
        let mut s = String::from("version 1\nnodes\n0 \"bone_root\" -1\n1 \"bone_mid\" 0\n2 \"bone_tip\" 1\n");
        s.push_str("end\nskeleton\ntime 0\n0 0 0 0 0 0 0\n1 0 0 10 0 0 0\n2 0 0 20 0 0 0\nend\ntriangles\nphys\n");
        let verts: Vec<[f32; 3]> = vec![
            [-5.0, -5.0, -5.0], [5.0, -5.0, -5.0], [5.0, 5.0, -5.0], [-5.0, 5.0, -5.0],
            [-5.0, -5.0, 5.0], [5.0, -5.0, 5.0], [5.0, 5.0, 5.0], [-5.0, 5.0, 5.0],
        ];
        let faces: [[usize; 3]; 12] = [
            [0, 1, 2], [0, 2, 3], [4, 6, 5], [4, 7, 6],
            [0, 4, 5], [0, 5, 1], [1, 5, 6], [1, 6, 2],
            [2, 6, 7], [2, 7, 3], [3, 7, 4], [3, 4, 0],
        ];
        for f in faces.iter() {
            for &vi in f {
                let p = verts[vi];
                s.push_str(&format!("0 {} {} {} 0 0 1 0 0 1 0 1\n", p[0], p[1], p[2]));
            }
        }
        s.push_str("end\n");
        parse_smd(&s).expect("SMD 应能解析")
    };
    let pb = solid_of_bones(&s, 3, &[-1, 0, 1]).expect("应有表");
    assert_eq!(pb, vec![0, 0, 0], "单 solid ⟹ 全 0");
}

#[test]
fn optional_text_fields_follow_measured_rules() {
    let h = cube();
    let p_base = PhyParams::new("x", 0);
    let s = [PhySolid::prop("x")];
    let b = write(&[h.clone()], &s, &p_base).unwrap();
    let layout = check_invariants(&b).unwrap();
    let body = std::str::from_utf8(&b[layout.solids_end..b.len() - 1]).unwrap();
    assert!(!body.contains("massbias"));
    assert!(!body.contains("drag"));
    assert!(!body.contains("concave"));
    let mut p = PhyParams::new("x", 0);
    p.drag = Some(0.25f32.to_bits());
    p.concave = true;
    let s = [PhySolid {
        bone_index: None,
        name: "x_physbox".into(),
        parent: None,
        mass_bias: (8.0f32).to_bits(),
        damping: None,
        rot_damping: None,
        inertia: None,
    }];
    let b = write(&[h.clone()], &s, &p).unwrap();
    let layout = check_invariants(&b).unwrap();
    let body = std::str::from_utf8(&b[layout.solids_end..b.len() - 1]).unwrap();
    assert!(body.contains("\"massbias\" \"8.000000\""));
    assert!(body.contains("\"drag\" \"0.250000\""));
    assert!(body.contains("\"concave\" \"1\""));
}

#[test]
fn multi_hull_solid_writes_recursive_tree() {
    let a = cube();
    let mut b_verts = cube_vertices();
    for v in &mut b_verts {
        v[0] += 10.0;
    }
    let b = Hull {
        vertices: b_verts,
        faces: cube_faces(),
    };
    let solids = [PhySolid::prop("two")];
    let p = PhyParams::new("two", 0);
    let bytes = write_multi(&[vec![a, b]], &solids, &p).unwrap();
    let layout = check_invariants(&bytes).unwrap();
    assert_eq!(layout.solid_count, 1);
    assert_eq!(layout.node_counts[0], 3);
    assert_eq!(layout.node_counts[0] % 2, 1, "节点数恒为奇数");
    let body = PHY_HEADER_SIZE + SOLID_HEADER_SIZE;
    let node_off = body + read_i32(&bytes, body + 32) as usize;
    let right = read_i32(&bytes, node_off);
    assert_ne!(right, 0, "两个凸块时根节点必须是内部节点");
    assert_eq!(right % LEDGETREE_NODE_SIZE as i32, 0, "右子偏移是 28 的倍数");
    assert_eq!(
        layout.surface_sizes[0] as usize,
        COMPACT_SURFACE_SIZE
            + layout.ledge_region_sizes[0]
            + LEDGETREE_NODE_SIZE * layout.node_counts[0]
    );
    let region = body + COMPACT_SURFACE_SIZE;
    let n_tri0 = read_i16(&bytes, region + 12) as usize;
    let hull1 = region + LEDGE_HEADER_SIZE + TRIANGLE_SIZE * n_tri0;
    let n_tri1 = read_i16(&bytes, hull1 + 12) as usize;
    let shared = hull1 + LEDGE_HEADER_SIZE + TRIANGLE_SIZE * n_tri1;
    assert_eq!(
        region as i64 + read_i32(&bytes, region) as i64,
        shared as i64,
        "第一个 hull 的 c_point_offset 指向共享数组起点"
    );
    assert_eq!(
        hull1 as i64 + read_i32(&bytes, hull1) as i64,
        shared as i64,
        "第二个 hull 的 c_point_offset 也指向同一个共享数组起点"
    );
    let cpo0 = read_i32(&bytes, region);
    let cpo1 = read_i32(&bytes, hull1);
    assert_eq!(
        cpo0 as usize,
        (LEDGE_HEADER_SIZE + TRIANGLE_SIZE * n_tri0)
            + (LEDGE_HEADER_SIZE + TRIANGLE_SIZE * n_tri1),
        "第一个 hull 的 c_point_offset 必须把后续 ledge 也算进去"
    );
    assert_eq!(
        cpo1 as usize,
        LEDGE_HEADER_SIZE + TRIANGLE_SIZE * n_tri1,
        "最后一个 hull 的 c_point_offset 退化成 16 + 16×nTri"
    );
    assert_ne!(
        cpo0 as usize,
        LEDGE_HEADER_SIZE + TRIANGLE_SIZE * n_tri0,
        "多 hull 时第一个 hull 的 c_point_offset 不应等于 16 + 16×nTri"
    );
}

#[test]
fn five_hulls_produce_nine_nodes() {
    let mut hulls = Vec::new();
    for i in 0..5 {
        let mut vs = cube_vertices();
        for v in &mut vs {
            v[0] += i as f32 * 5.0;
        }
        hulls.push(Hull {
            vertices: vs,
            faces: cube_faces(),
        });
    }
    let solids = [PhySolid::prop("five")];
    let p = PhyParams::new("five", 0);
    let bytes = write_multi(&[hulls], &solids, &p).unwrap();
    let layout = check_invariants(&bytes).unwrap();
    assert_eq!(layout.node_counts[0], 9, "5 个凸块 → 2×5−1 = 9 个节点");
}

#[test]
fn merged_hulls_stay_closed() {
    let a = cube();
    let mut b_verts = cube_vertices();
    for v in &mut b_verts {
        v[0] += 10.0;
    }
    let b = Hull {
        vertices: b_verts,
        faces: cube_faces(),
    };
    let merged = Hull {
        vertices: [a.vertices.clone(), b.vertices.clone()].concat(),
        faces: [
            a.faces.clone(),
            b.faces.iter().map(|f| [f[0] + 8, f[1] + 8, f[2] + 8]).collect(),
        ]
        .concat(),
    };
    let solids = [PhySolid::prop("m")];
    let p = PhyParams::new("m", 0);
    let bytes = write_multi(&[vec![merged]], &solids, &p).unwrap();
    check_invariants(&bytes).unwrap();
}

#[test]
fn phy_points_are_converted_from_inches_to_metres() {
    let b = write_cube();
    let body = 16 + SOLID_HEADER_SIZE;
    let ledge = body + COMPACT_SURFACE_SIZE;
    let sz_div = read_u32(&b, ledge + 8) >> 8;
    let n_tri = read_i16(&b, ledge + 0x0C) as usize;
    let n_pts = sz_div as usize - 1 - n_tri;
    assert!(n_pts > 0, "立方体应有顶点");
    let pt_base = ledge + LEDGE_HEADER_SIZE + TRIANGLE_SIZE * n_tri;
    const EXPECT: f32 = 0.0254;
    let mut seen_pos = false;
    let mut seen_neg = false;
    for i in 0..n_pts {
        let o = pt_base + i * POINT_SIZE;
        for k in 0..3 {
            let v = read_f32(&b, o + k * 4);
            let want = if v > 0.0 { EXPECT } else { -EXPECT };
            assert!(
                (v - want).abs() < 1e-9,
                "点[{i}][{k}] = {v}，应为 ±{EXPECT}（inch→米）。\
                 若这里失败，说明单位换算丢了 —— 而 check_invariants 查不出它"
            );
            if v > 0.0 { seen_pos = true } else { seen_neg = true }
        }
    }
    assert!(seen_pos && seen_neg, "±1 立方体应当正负都有");
}

#[test]
fn phy_points_use_official_axis_mapping() {
    const V: [[f32; 3]; 4] = [
        [3.0, -1.0, -2.0],
        [-4.0, 6.0, -1.0],
        [1.0, 2.0, 7.0],
        [-2.0, -5.0, 3.0],
    ];
    const FACES: [[u32; 3]; 4] = [[0, 1, 2], [0, 3, 1], [0, 2, 3], [1, 3, 2]];
    let mut s = String::from("version 1\nnodes\n0 \"root\" -1\nend\nskeleton\ntime 0\n0 0 0 0 0 0 0\nend\ntriangles\n");
    for f in FACES {
        s.push_str("phy\n");
        for &i in &f {
            let p = V[i as usize];
            s.push_str(&format!("0 {} {} {} 0 0 1 0 0 1 0 1\n", p[0], p[1], p[2]));
        }
    }
    s.push_str("end\n");
    let smd = parse_smd(&s).expect("SMD 应能解析");
    let bytes = build_prop(
        &smd,
        Ident {
            model_name: "physign",
            collision_smd_name: "physign",
            surface_prop: "metal",
        },
        0,
        1.0,
        &no_physics(),
    )
    .expect("应能写出 PHY");
    let body = 16 + SOLID_HEADER_SIZE;
    let ledge = body + COMPACT_SURFACE_SIZE;
    let sz_div = read_u32(&bytes, ledge + 8) >> 8;
    let n_tri = read_i16(&bytes, ledge + 0x0C) as usize;
    let n_pts = sz_div as usize - 1 - n_tri;
    assert_eq!(n_pts, 4, "四面体应有 4 个点");
    const WANT: [[f32; 3]; 4] = [
        [-2.0, -7.0, 1.0],
        [5.0, -3.0, -2.0],
        [1.0, 2.0, 3.0],
        [-6.0, 1.0, -4.0],
    ];
    let pt_base = ledge + LEDGE_HEADER_SIZE + TRIANGLE_SIZE * n_tri;
    let got: Vec<[f32; 3]> = (0..n_pts)
        .map(|i| {
            let o = pt_base + i * POINT_SIZE;
            [
                read_f32(&bytes, o) / SOURCE_TO_IVP,
                read_f32(&bytes, o + 4) / SOURCE_TO_IVP,
                read_f32(&bytes, o + 8) / SOURCE_TO_IVP,
            ]
        })
        .collect();
    for w in WANT {
        assert!(
            got.iter().any(|g| (0..3).all(|k| (g[k] - w[k]).abs() < 1e-4)),
            "落盘点里找不到 {w:?}。实际点集：{got:?}"
        );
    }
}

#[test]
fn compact_outer_hull_keeps_well_separated_points() {
    let pts: Vec<[f32; 3]> = vec![
        [3.0, -1.0, -2.0],
        [-4.0, 6.0, -1.0],
        [1.0, 2.0, 7.0],
        [-2.0, -5.0, 3.0],
    ];
    let h = from_points(&pts).expect("四面体应能成凸包");
    assert_eq!(h.vertices.len(), 4);
    let c = compact_outer_hull(&h);
    assert_eq!(c.vertices.len(), 4, "点距远大于 1cm，不该被合并");
    assert_eq!(c.faces.len(), 4, "四面体有 4 个面");
}

#[test]
fn compact_outer_hull_merges_points_within_one_centimetre() {
    let mut pts: Vec<[f32; 3]> = Vec::new();
    for &x in &[-1.0f32, 1.0] {
        for &y in &[-1.0f32, 1.0] {
            for &z in &[-1.0f32, 1.0] {
                pts.push([x, y, z]);
                pts.push([x + 0.1, y + 0.1, z + 0.1]);
            }
        }
    }
    let h = from_points(&pts).expect("应能成凸包");
    let c = compact_outer_hull(&h);
    assert!(
        c.vertices.len() < h.vertices.len(),
        "16 个两两相距 0.1 inch（= 0.00254 m < r=0.01 m）的点应当被压实，\
         实际 {} → {}",
        h.vertices.len(),
        c.vertices.len()
    );
    assert!(
        c.vertices.len() >= 4,
        "压实后仍应是个立体，实际 {} 点",
        c.vertices.len()
    );
}

#[test]
fn compact_radius_is_metres_not_inches() {
    let mut pts: Vec<[f32; 3]> = Vec::new();
    for &x in &[-10.0f32, 10.0] {
        for &y in &[-10.0f32, 10.0] {
            pts.push([x, y, 0.0]);
        }
    }
    pts.push([0.0, 0.0, 10.0]);
    pts.push([0.0, 0.2, 10.0]);
    let h = from_points(&pts).expect("双锥应能成凸包");
    assert_eq!(h.vertices.len(), 6, "底面 4 角 + 2 顶点");
    let c = compact_outer_hull(&h);
    assert_eq!(
        c.vertices.len(),
        5,
        "0.2 inch = 0.00508 m < r=0.01 m，两个顶点应当被合并（6 → 5）。\
         实际 {} 点 —— 若没合并，多半是把 0.01 当成 inch 用了。",
        c.vertices.len()
    );
}

#[test]
fn cube_leaf_node_geometry_is_hand_computable() {
    let b = write_cube();
    let body = 16 + SOLID_HEADER_SIZE;
    let node = body + read_i32(&b, body + 32) as usize;
    let center = [
        read_f32(&b, node + 8),
        read_f32(&b, node + 12),
        read_f32(&b, node + 16),
    ];
    assert_eq!(center, [0.0, 0.0, 0.0], "±1 立方体的 AABB 中心是原点");
    let radius = read_f32(&b, node + 20);
    let want = 3.0f32.sqrt() * SOURCE_TO_IVP;
    assert!(
        (radius - want).abs() < 1e-7,
        "radius 应为 √3 × 0.0254 ≈ {want}，实际 {radius}"
    );
    let expect = ((1.0f64 / (3.0f64.sqrt() / 250.0)).trunc() + 1.0) as u8;
    assert_eq!(expect, 145);
    assert_eq!([b[node + 24], b[node + 25], b[node + 26]], [145, 145, 145]);
    assert_eq!(b[node + 27], 0, "free_0 == 0");
}

#[test]
fn cube_upper_limit_radius_is_hand_computable() {
    let b = write_cube();
    let body = 16 + SOLID_HEADER_SIZE;
    let mc = [
        read_f32(&b, body),
        read_f32(&b, body + 4),
        read_f32(&b, body + 8),
    ];
    assert!(mc.iter().all(|c| c.abs() < 1e-8), "立方体质心在原点，实际 {mc:?}");
    let r = read_f32(&b, body + 24);
    let want = 3.0f32.sqrt() * SOURCE_TO_IVP;
    assert!(
        (r - want).abs() < 1e-7,
        "upper_limit_radius 应为 √3 × 0.0254 ≈ {want}，实际 {r}"
    );
}

#[test]
fn max_factor_surface_deviation_is_250() {
    let b = write_cube();
    let body = 16 + SOLID_HEADER_SIZE;
    assert_eq!(read_u32(&b, body + 28) & 0xFF, 250);
    assert_eq!(
        (read_u32(&b, body + 28) >> 8) & 0x00FF_FFFF,
        read_i32(&b, 16 + 12) as u32
    );
}

#[test]
fn vhacd_decomposes_concave_mesh() {
    let outline: [[f32; 2]; 6] = [
        [0.0, 0.0],
        [2.0, 0.0],
        [2.0, 1.0],
        [1.0, 1.0],
        [1.0, 2.0],
        [0.0, 2.0],
    ];
    let mut vertices: Vec<[f32; 3]> = Vec::new();
    for z in [0.0f32, 1.0] {
        for p in &outline {
            vertices.push([p[0], p[1], z]);
        }
    }
    let n = outline.len() as u32;
    let mut faces: Vec<[u32; 3]> = Vec::new();
    for i in 1..n - 1 {
        faces.push([0, i + 1, i]);
        faces.push([n, n + i, n + i + 1]);
    }
    for i in 0..n {
        let j = (i + 1) % n;
        faces.push([i, j, n + j]);
        faces.push([i, n + j, n + i]);
    }
    let parts = decompose_concave(&vertices, &faces, 32, 8).expect("L 形必须能分解");
    assert!(parts.len() >= 2, "凹形状应拆成 ≥2 块，实际 {}", parts.len());
    for (i, p) in parts.iter().enumerate() {
        assert!(p.vertices.len() >= 4, "第 {i} 块的顶点数");
        assert!(!p.faces.is_empty(), "第 {i} 块的面表");
    }
    let solids = [PhySolid::prop("lshape")];
    let mut params = PhyParams::new("lshape", 0);
    params.concave = true;
    let bytes = write_multi(&[parts], &solids, &params).expect("分解结果必须能写出");
    let layout = check_invariants(&bytes).unwrap();
    assert_eq!(layout.solid_count, 1);
    assert_eq!(layout.node_counts[0] % 2, 1, "节点数恒为奇数");
}

#[test]
fn decompose_rejects_bad_input() {
    assert!(matches!(
        decompose_concave(&[], &[], 32, 8),
        Err(PhyError::BadParameter { .. })
    ));
    assert!(matches!(
        decompose_concave(&[[0.0; 3], [1.0, 0.0, 0.0]], &[[0, 1, 0]], 32, 8),
        Err(PhyError::HullTooFewPoints { .. })
    ));
    assert!(matches!(
        decompose_concave(
            &cube_vertices(),
            &[[0u32, 1, 99]],
            32,
            8
        ),
        Err(PhyError::IndexOutOfRange { index: 99, .. })
    ));
}

#[test]
fn output_is_deterministic() {
    let first = write_cube();
    for _ in 0..8 {
        assert_eq!(write_cube(), first, "重复写出必须逐字节相同");
    }
}

#[test]
fn permuted_vertices_still_valid() {
    let map: Vec<u32> = (0..8).rev().collect();
    let mut vs = cube_vertices();
    vs.reverse();
    let faces = cube_faces()
        .into_iter()
        .map(|f| [map[f[0] as usize], map[f[1] as usize], map[f[2] as usize]])
        .collect();
    let h = Hull {
        vertices: vs,
        faces,
    };
    let s = [PhySolid::prop("perm")];
    let p = PhyParams::new("perm", 7);
    let b = write(&[h.clone()], &s, &p).unwrap();
    let layout = check_invariants(&b).unwrap();
    assert_eq!(layout.surface_sizes[0], 412);
}

#[test]
fn inertia_scale_zero_writes_zeros() {
    let h = cube();
    let s = [PhySolid::prop("x")];
    let mut p = PhyParams::new("x", 0);
    p.inertia_scale = (0.0f32).to_bits();
    let b = write(&[h.clone()], &s, &p).unwrap();
    let body = 16 + SOLID_HEADER_SIZE;
    for a in 0..3 {
        assert_eq!(read_f32(&b, body + 12 + a * 4), 0.0, "rotation_inertia[{a}]");
    }
}

#[test]
fn cube_rotation_inertia_matches_density_one_tensor() {
    let b = write_cube();
    let body = 16 + SOLID_HEADER_SIZE;
    let expect = 16.0f32 / 3.0 * SOURCE_TO_IVP.powi(5);
    for a in 0..3 {
        let got = read_f32(&b, body + 12 + a * 4);
        let rel = if expect != 0.0 { (got - expect).abs() / expect } else { 0.0 };
        assert!(
            rel < 1e-4,
            "立方体密度 1 的 I 应为 16/3 × 0.0254⁵ ≈ {expect}，rotation_inertia[{a}] = {got}"
        );
    }
    let i0 = read_f32(&b, body + 12);
    let i1 = read_f32(&b, body + 16);
    let i2 = read_f32(&b, body + 20);
    assert!(
        (i0 - i1).abs() < 1e-4 && (i1 - i2).abs() < 1e-4,
        "立方体各向同性：I = ({i0}, {i1}, {i2})"
    );
}

#[test]
fn box_rotation_inertia_is_anisotropic() {
    let mut vs = cube_vertices();
    for v in &mut vs {
        v[0] *= 4.0;
    }
    let h = Hull {
        vertices: vs,
        faces: cube_faces(),
    };
    let s = [PhySolid::prop("box")];
    let p = PhyParams::new("box", 0);
    let b = write(&[h.clone()], &s, &p).unwrap();
    let body = 16 + SOLID_HEADER_SIZE;
    let (ix, iy, iz) = (
        read_f32(&b, body + 12),
        read_f32(&b, body + 16),
        read_f32(&b, body + 20),
    );
    assert!(ix < iy, "绕长轴的惯量应最小：Ix={ix} Iy={iy}");
    assert!((iy - iz).abs() < 1e-3, "另外两轴应相同：Iy={iy} Iz={iz}");
}

#[test]
fn mass_is_distributed_by_volume_with_floor() {
    let big = cube();
    let mut small_vs = cube_vertices();
    for v in &mut small_vs {
        for c in v.iter_mut() {
            *c *= 0.1;
        }
    }
    let small = Hull {
        vertices: small_vs,
        faces: cube_faces(),
    };
    let solids = [PhySolid::prop("big"), PhySolid::prop("small")];
    let mut p = PhyParams::new("two", 0);
    p.total_mass = 100.0f32.to_bits();
    let b = write(&[big, small], &solids, &p).unwrap();
    let layout = check_invariants(&b).unwrap();
    let body = std::str::from_utf8(&b[layout.solids_end..b.len() - 1]).unwrap();
    let masses: Vec<f32> = body
        .lines()
        .filter_map(|l| l.strip_prefix("\"mass\" \""))
        .filter_map(|v| v.strip_suffix('"'))
        .filter_map(|v| v.parse::<f32>().ok())
        .collect();
    assert_eq!(masses.len(), 2);
    assert!(masses[0] > 99.0, "大块的质量应接近 100，实际 {}", masses[0]);
    assert_eq!(masses[1], 1.0, "小块的质量应被钳到 1.0");
}
