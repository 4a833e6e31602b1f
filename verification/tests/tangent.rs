use mdlc::tangent::{
    fallback_tangent_from_normal, orthonormalize, tangents_for_mesh as tangents_of_bits,
    tangents_for_mesh_with_fallback as tangents_of_bits_with_fallback,
    triangle_tangent_space as space_of_bits, Vertex, VvdTangent,
};

#[derive(Debug)]
struct Tangent {
    xyz: [f32; 3],
    w: f32,
}

#[derive(Clone, Copy)]
struct Corner {
    pos: [f32; 3],
    normal: [f32; 3],
    uv: [f32; 2],
}

fn v(pos: [f32; 3], normal: [f32; 3], uv: [f32; 2]) -> Corner {
    Corner { pos, normal, uv }
}

fn bits(v: [f32; 3]) -> [u32; 3] {
    [v[0].to_bits(), v[1].to_bits(), v[2].to_bits()]
}

fn bits2(v: [f32; 2]) -> [u32; 2] {
    [v[0].to_bits(), v[1].to_bits()]
}

fn floats(v: [u32; 3]) -> [f32; 3] {
    [f32::from_bits(v[0]), f32::from_bits(v[1]), f32::from_bits(v[2])]
}

fn tangent(t: &VvdTangent) -> Tangent {
    Tangent {
        xyz: floats(t.xyz),
        w: f32::from_bits(t.w),
    }
}

fn vertices(list: &[Corner]) -> Vec<Vertex> {
    list.iter()
        .map(|c| Vertex {
            pos: bits(c.pos),
            normal: bits(c.normal),
            uv: bits2(c.uv),
        })
        .collect()
}

fn tangents_for_mesh(list: &[Corner], tris: &[[u32; 3]]) -> Vec<Tangent> {
    tangents_of_bits(&vertices(list), &tris.to_vec())
        .iter()
        .map(tangent)
        .collect()
}

fn tangents_for_mesh_with_fallback(list: &[Corner], tris: &[[u32; 3]]) -> Vec<Tangent> {
    tangents_of_bits_with_fallback(&vertices(list), &tris.to_vec())
        .iter()
        .map(tangent)
        .collect()
}

fn triangle_tangent_space(
    p0: [f32; 3],
    p1: [f32; 3],
    p2: [f32; 3],
    t0: [f32; 2],
    t1: [f32; 2],
    t2: [f32; 2],
) -> ([f32; 3], [f32; 3]) {
    let (s, t) = space_of_bits(bits(p0), bits(p1), bits(p2), bits2(t0), bits2(t1), bits2(t2));
    (floats(s), floats(t))
}

#[test]
fn axis_aligned_quad_gives_plus_x_tangent() {
    let verts = vec![
        v([0.0, 0.0, 0.0], [0.0, 0.0, 1.0], [0.0, 0.0]),
        v([1.0, 0.0, 0.0], [0.0, 0.0, 1.0], [1.0, 0.0]),
        v([1.0, 1.0, 0.0], [0.0, 0.0, 1.0], [1.0, 1.0]),
        v([0.0, 1.0, 0.0], [0.0, 0.0, 1.0], [0.0, 1.0]),
    ];
    let tris = vec![[0u32, 1, 2], [0, 2, 3]];
    let t = tangents_for_mesh(&verts, &tris);
    assert_eq!(t.len(), 4);
    for (i, tan) in t.iter().enumerate() {
        assert!(
            (tan.xyz[0] - 1.0).abs() < 1e-6
                && tan.xyz[1].abs() < 1e-6
                && tan.xyz[2].abs() < 1e-6,
            "顶点 {i} 切线应为 +X，实际 {:?}",
            tan.xyz
        );
        assert_eq!(tan.w, 1.0, "顶点 {i} 手性应为 +1");
    }
}

#[test]
fn flipped_v_flips_handedness() {
    let verts = vec![
        v([0.0, 0.0, 0.0], [0.0, 0.0, 1.0], [0.0, 1.0]),
        v([1.0, 0.0, 0.0], [0.0, 0.0, 1.0], [1.0, 1.0]),
        v([1.0, 1.0, 0.0], [0.0, 0.0, 1.0], [1.0, 0.0]),
    ];
    let t = tangents_for_mesh(&verts, &[[0u32, 1, 2]]);
    assert_eq!(t[0].w, -1.0, "V 翻转后手性应为 -1：{:?}", t[0]);
}

#[test]
fn shared_vertices_accumulate_across_triangles() {
    let verts = vec![
        v([0.0, 0.0, 0.0], [0.0, 0.0, 1.0], [0.0, 0.0]),
        v([1.0, 0.0, 0.0], [0.0, 0.0, 1.0], [1.0, 0.0]),
        v([0.0, 1.0, 0.0], [0.0, 0.0, 1.0], [0.0, 1.0]),
        v([1.0, 0.0, 1.0], [0.0, 0.0, 1.0], [1.0, 1.0]),
    ];
    let tris = vec![[0u32, 1, 2], [0, 3, 1]];
    let t = tangents_for_mesh(&verts, &tris);
    for (i, tan) in t.iter().enumerate() {
        assert!(
            tan.xyz[0].abs() > 0.99,
            "顶点 {i} 切线应≈±X，实际 {:?}",
            tan.xyz
        );
    }
    let mut a_s = [0.0f32; 3];
    let mut a_t = [0.0f32; 3];
    for tri in &tris {
        let (s, tt) = triangle_tangent_space(
            verts[tri[0] as usize].pos,
            verts[tri[1] as usize].pos,
            verts[tri[2] as usize].pos,
            verts[tri[0] as usize].uv,
            verts[tri[1] as usize].uv,
            verts[tri[2] as usize].uv,
        );
        if tri.contains(&0) {
            for k in 0..3 {
                a_s[k] += s[k];
                a_t[k] += tt[k];
            }
        }
    }
    let single = triangle_tangent_space(
        verts[0].pos, verts[1].pos, verts[2].pos, verts[0].uv, verts[1].uv, verts[2].uv,
    );
    assert!(
        a_s[0].abs() > single.0[0].abs() * 1.5,
        "共享顶点的累加量应大于单三角形：{:?} vs {:?}",
        a_s,
        single.0
    );
}

#[test]
fn degenerate_uv_yields_zero_tangent_like_studiomdl() {
    let verts = vec![
        v([0.0, 0.0, 0.0], [0.0, 0.0, 1.0], [0.5, 0.5]),
        v([1.0, 0.0, 0.0], [0.0, 0.0, 1.0], [0.5, 0.5]),
        v([0.0, 1.0, 0.0], [0.0, 0.0, 1.0], [0.5, 0.5]),
    ];
    let t = tangents_for_mesh(&verts, &[[0u32, 1, 2]]);
    for tan in &t {
        assert_eq!(tan.xyz, [0.0, 0.0, 0.0], "退化 UV 应给零切线：{tan:?}");
        assert_eq!(tan.w, 1.0, "退化顶点的手性应为 +1：{tan:?}");
    }
}

#[test]
fn fallback_replaces_zero_tangent() {
    let verts = vec![
        v([0.0, 0.0, 0.0], [0.0, 0.0, 1.0], [0.5, 0.5]),
        v([1.0, 0.0, 0.0], [0.0, 0.0, 1.0], [0.5, 0.5]),
        v([0.0, 1.0, 0.0], [0.0, 0.0, 1.0], [0.5, 0.5]),
    ];
    let t = tangents_for_mesh_with_fallback(&verts, &[[0u32, 1, 2]]);
    for tan in &t {
        let len = (tan.xyz[0].powi(2) + tan.xyz[1].powi(2) + tan.xyz[2].powi(2)).sqrt();
        assert!((len - 1.0).abs() < 1e-6, "回退切线应是单位向量：{tan:?}");
        let d = tan.xyz[2];
        assert!(d.abs() < 1e-6, "回退切线应与法线正交：{tan:?}");
    }
}

#[test]
fn orphan_vertex_gets_zero_tangent() {
    let verts = vec![
        v([0.0, 0.0, 0.0], [0.0, 0.0, 1.0], [0.0, 0.0]),
        v([1.0, 0.0, 0.0], [0.0, 0.0, 1.0], [1.0, 0.0]),
        v([0.0, 1.0, 0.0], [0.0, 0.0, 1.0], [0.0, 1.0]),
        v([9.0, 9.0, 9.0], [0.0, 0.0, 1.0], [0.0, 0.0]),
    ];
    let t = tangents_for_mesh(&verts, &[[0u32, 1, 2]]);
    assert_eq!(t.len(), 4);
    assert_eq!(t[3].xyz, [0.0, 0.0, 0.0], "孤立顶点应为零切线");
}

#[test]
fn out_of_range_index_is_skipped() {
    let verts = vec![
        v([0.0, 0.0, 0.0], [0.0, 0.0, 1.0], [0.0, 0.0]),
        v([1.0, 0.0, 0.0], [0.0, 0.0, 1.0], [1.0, 0.0]),
    ];
    let t = tangents_for_mesh(&verts, &[[0u32, 1, 99]]);
    assert_eq!(t.len(), 2);
}

#[test]
fn per_triangle_normalization_happens_before_accumulation() {
    let verts = vec![
        v([0.0, 0.0, 0.0], [0.0, 0.0, 1.0], [0.0, 0.0]),
        v([1.0, 0.0, 0.0], [0.0, 0.0, 1.0], [1.0, 0.0]),
        v([0.0, 1.0, 0.0], [0.0, 0.0, 1.0], [0.0, 1.0]),
        v([0.0, 0.0, 0.0], [0.0, 0.0, 1.0], [0.0, 0.0]),
        v([100.0, 0.0, 0.0], [0.0, 0.0, 1.0], [100.0, 0.0]),
        v([0.0, 100.0, 0.0], [0.0, 0.0, 1.0], [0.0, 100.0]),
    ];
    let t = tangents_for_mesh(&verts, &[[0u32, 1, 2], [3, 4, 5]]);
    assert!((t[0].xyz[0] - 1.0).abs() < 1e-5, "{:?}", t[0]);
    let (s_small, _) = triangle_tangent_space(
        verts[0].pos, verts[1].pos, verts[2].pos, verts[0].uv, verts[1].uv, verts[2].uv,
    );
    assert!(
        (s_small[0] - 1.0).abs() < 1e-6,
        "单三角形的 sVect 应已归一化为单位向量：{s_small:?}"
    );
}

#[test]
fn normal_flip_flips_handedness() {
    let make = |nz: f32| {
        vec![
            v([0.0, 0.0, 0.0], [0.0, 0.0, nz], [0.0, 0.0]),
            v([1.0, 0.0, 0.0], [0.0, 0.0, nz], [1.0, 0.0]),
            v([1.0, 1.0, 0.0], [0.0, 0.0, nz], [1.0, 1.0]),
        ]
    };
    let up = tangents_for_mesh(&make(1.0), &[[0u32, 1, 2]]);
    let down = tangents_for_mesh(&make(-1.0), &[[0u32, 1, 2]]);
    assert_eq!(up[0].w, 1.0);
    assert_eq!(down[0].w, -1.0);
}

#[test]
fn exact_tangent_of_a_skewed_triangle() {
    let (s, t) = triangle_tangent_space(
        [0.0, 0.0, 0.0],
        [3.0, 4.0, 0.0],
        [0.0, 0.0, 2.0],
        [0.0, 0.0],
        [1.0, 0.0],
        [0.0, 1.0],
    );
    assert_eq!(s, [3.0 / 5.0, 4.0 / 5.0, 0.0]);
    assert_eq!(t, [0.0, 0.0, 1.0]);
}

#[test]
fn fallback_of_some_normals() {
    let up = tangent(&fallback_tangent_from_normal(bits([0.0, 0.0, 2.0])));
    assert_eq!(up.xyz, [0.0, -1.0, 0.0]);
    assert_eq!(up.w, 1.0);
    let ahead = tangent(&fallback_tangent_from_normal(bits([1.0, 0.0, 0.0])));
    assert_eq!(ahead.xyz, [0.0, 0.0, -1.0]);
    let none = tangent(&fallback_tangent_from_normal(bits([0.0, 0.0, 0.0])));
    assert_eq!(none.xyz, [1.0, 0.0, 0.0]);
    assert_eq!(none.w, 1.0);
}

#[test]
fn left_handed_sums_give_minus_one() {
    let t = tangent(&orthonormalize(
        bits([2.0, 0.0, 0.0]),
        bits([0.0, -2.0, 0.0]),
        bits([0.0, 0.0, 1.0]),
    ));
    assert_eq!(t.xyz, [1.0, 0.0, 0.0]);
    assert_eq!(t.w, -1.0);
}

#[test]
fn replaced_tangents_have_length_one_and_stand_across() {
    let mut x: u32 = 12345;
    for _ in 0..500 {
        let mut n = [0.0f32; 3];
        for c in n.iter_mut() {
            x = x.wrapping_mul(1664525).wrapping_add(1013904223);
            *c = (x >> 8) as f32 / 8388608.0 - 1.0;
        }
        let len = (n[0] * n[0] + n[1] * n[1] + n[2] * n[2]).sqrt();
        if len < 0.1 {
            continue;
        }
        let n = [n[0] / len, n[1] / len, n[2] / len];
        let t = tangent(&fallback_tangent_from_normal(bits(n))).xyz;
        let dot = |a: [f32; 3], b: [f32; 3]| -> f64 {
            (0..3).map(|i| a[i] as f64 * b[i] as f64).sum()
        };
        assert!((dot(t, t) - 1.0).abs() <= 1e-6, "{n:?} {t:?}");
        assert!(dot(t, n).abs() <= 1e-6, "{n:?} {t:?}");
    }
}
