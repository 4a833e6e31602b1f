use std::collections::HashMap;

use mdlc::arith::{from_count, from_integer, to_radians};
use mdlc::bytes::read_u32;
use mdlc::decimals::print_six;
use mdlc::double::{minus, narrow, over, plus, sqrt, times, widen};
use mdlc::phy::bounds::{aabb_of, farthest};
use mdlc::phy::check::check_invariants;
use mdlc::phy::compact::{compact_corners, push_unique};
use mdlc::phy::error::PhyError;
use mdlc::phy::joints::physics_bone_table;
use mdlc::phy::making::{build_phy_from_smd, build_ragdoll_phy_from_smd, joint_constraints};
use mdlc::phy::mass::{count_whole_volume, share_mass, SolidMeasures};
use mdlc::phy::names::list_names;
use mdlc::phy::params::{JointConstraint, JointLimitType, PhyIdentity, PhyParams, PhySolid};
use mdlc::phy::parts::{connected_parts, mark_connected_meshes};
use mdlc::phy::pieces::{build_weld_table, connected_pieces, is_approximately_planar};
use mdlc::phy::placed::{source_to_ivp_axis, to_ivp};
use mdlc::phy::plan::{check_auto_mass, check_prop, merge_table, ragdoll_groups, resolve_joint};
use mdlc::phy::pose::{sequence_pose_world, smd_rest_pose, vertex_bone_weights, BoneWeight};
use mdlc::phy::ragdoll::{group_by_bone, group_by_bone_merged};
use mdlc::phy::shape::{check_points, keep_bodies};
use mdlc::phy::solid::{local_tris, prepare_solid, PhyHull};
use mdlc::phy::weld::weld_smd_triangles;
use mdlc::phy::world::{transform_point, world_point, world_space_verts, BoneMatrix, RestPose};
use mdlc::phy::write::write_phy;
use mdlc::plain::print_plain;
use mdlc::qc::model::{JointConstraintSpec, JointOverride, Pair, Physics, Vector};
use mdlc::smd::{parse_smd, Smd};

fn bits(v: [f32; 3]) -> [u32; 3] {
    [v[0].to_bits(), v[1].to_bits(), v[2].to_bits()]
}

fn floats(v: [u32; 3]) -> [f32; 3] {
    [
        f32::from_bits(v[0]),
        f32::from_bits(v[1]),
        f32::from_bits(v[2]),
    ]
}

fn cube(at: f32) -> PhyHull {
    let v = [
        [-1.0, -1.0, -1.0],
        [1.0, -1.0, -1.0],
        [1.0, 1.0, -1.0],
        [-1.0, 1.0, -1.0],
        [-1.0, -1.0, 1.0],
        [1.0, -1.0, 1.0],
        [1.0, 1.0, 1.0],
        [-1.0, 1.0, 1.0],
    ];
    PhyHull {
        vertices: v.iter().map(|p| bits([p[0] + at, p[1], p[2]])).collect(),
        faces: vec![
            [4, 5, 6],
            [4, 6, 7],
            [1, 0, 3],
            [1, 3, 2],
            [5, 1, 2],
            [5, 2, 6],
            [0, 4, 7],
            [0, 7, 3],
            [7, 6, 2],
            [7, 2, 3],
            [0, 1, 5],
            [0, 5, 4],
        ],
    }
}

fn measures(mass: f32) -> SolidMeasures {
    SolidMeasures {
        mass_center: [0; 3],
        inertia: bits([1.0, 2.0, 3.0]),
        masses: vec![mass.to_bits()],
    }
}

/// A mesh with a box of triangles on each of three bones.
fn limbs() -> Smd {
    let mut s = String::from(
        "version 1\nnodes\n0 \"root\" -1\n1 \"mid\" 0\n2 \"tip\" 1\nend\nskeleton\ntime 0\n\
         0 0 0 0 0 0 0\n1 0 0 10 0 0 0\n2 0 0 20 0 0 0\nend\ntriangles\n",
    );
    for bone in 0..3 {
        let h = cube(10.0 * bone as f32);
        for f in &h.faces {
            s.push_str("phy\n");
            for &i in f {
                let p = floats(h.vertices[i as usize]);
                s.push_str(&format!(
                    "{bone} {} {} {} 0 0 1 0 0 1 {bone} 1\n",
                    p[0], p[1], p[2]
                ));
            }
        }
    }
    s.push_str("end\n");
    parse_smd(&s).unwrap()
}

fn ident() -> PhyIdentity {
    PhyIdentity {
        model_name: "m".to_string(),
        collision_smd_name: "m_phys".to_string(),
        surface_prop: "flesh".to_string(),
    }
}

fn text_of(bytes: &[u8]) -> String {
    let l = check_invariants(bytes).unwrap();
    String::from_utf8(bytes[l.solids_end..bytes.len() - 1].to_vec()).unwrap()
}

#[test]
fn numbers_print_as_the_standard_library_prints_them() {
    let mut x: u32 = 77;
    let mut list: Vec<u32> = vec![
        0,
        0x8000_0000,
        (1.0f32 / 128.0).to_bits(),
        (3.0f32 / 128.0).to_bits(),
        0.9999999f32.to_bits(),
        f32::MAX.to_bits(),
        f32::MIN_POSITIVE.to_bits(),
        1,
        f32::INFINITY.to_bits(),
        f32::NEG_INFINITY.to_bits(),
        f32::NAN.to_bits(),
        16777216.0f32.to_bits(),
        (-360.0f32).to_bits(),
    ];
    for _ in 0..400 {
        x = x.wrapping_mul(1664525).wrapping_add(1013904223);
        list.push(x);
        list.push((x & 0x87FF_FFFF) | 0x3800_0000);
    }
    for b in list {
        assert_eq!(print_six(b), format!("{:.6}", f32::from_bits(b)), "{b:#x}");
        assert_eq!(print_plain(b), format!("{}", f32::from_bits(b)), "{b:#x}");
    }
}

#[test]
fn plain_numbers_have_the_fewest_digits() {
    let list = [
        0.1f32, 1.0, -0.0, 0.3, 9.9999998e9, 1e-45, 3.4028235e38, 1.17549435e-38, 16777216.0, 33554432.0, 1e10,
        0.5, 2.5e-5, 123456.79, 8388608.5, 1e23, 4.0e-39, 0.99999994,
    ];
    for v in list {
        assert_eq!(print_plain(v.to_bits()), format!("{v}"));
    }
    let p = PhyParams {
        total_mass: (-0.5f32).to_bits(),
        ..PhyParams::new("x", 0)
    };
    let e = write_phy(vec![cube(0.0)], &vec![measures(1.0)], &vec![PhySolid::prop("a")], &p).unwrap_err();
    assert_eq!(e.describe(), "参数 total_mass 非法：必须是正的有限数，实际 -0.5");
}

#[test]
fn double_operations_agree_with_the_machine() {
    let list = [
        0.0f64, -0.0, 1.0, -1.0, 0.1, 3.5e10, -2.0e-20, 1.0 / 3.0, 1e300, 5e-324, f64::MAX,
        f64::INFINITY, f64::NAN,
    ];
    let same = |got: u64, want: f64| {
        if want.is_nan() {
            f64::from_bits(got).is_nan()
        } else {
            got == want.to_bits()
        }
    };
    for &x in &list {
        for &y in &list {
            let (a, b) = (x.to_bits(), y.to_bits());
            assert!(same(plus(a, b), x + y), "{x} + {y}");
            assert!(same(minus(a, b), x - y), "{x} - {y}");
            assert!(same(times(a, b), x * y), "{x} * {y}");
            assert!(same(over(a, b), x / y), "{x} / {y}");
        }
        assert!(same(sqrt(x.to_bits()), x.sqrt()), "{x}");
        let n = f32::from_bits(narrow(x.to_bits()));
        assert!(n == x as f32 || n.is_nan() && x.is_nan(), "{x}");
        let w = f64::from_bits(widen((x as f32).to_bits()));
        assert!(w == (x as f32) as f64 || w.is_nan() && x.is_nan(), "{x}");
    }
}

#[test]
fn whole_numbers_become_floats() {
    for n in [0, 1, -1, 7, 16777217, i32::MAX, i32::MIN] {
        assert_eq!(from_integer(n), (n as f32).to_bits());
    }
    assert_eq!(from_count(24), 24.0f32.to_bits());
    assert_eq!(to_radians(90.0f32.to_bits()), 90.0f32.to_radians().to_bits());
}

#[test]
fn axes_are_turned_and_inches_become_metres() {
    let v = bits([3.0, -1.0, -2.0]);
    assert_eq!(floats(source_to_ivp_axis(v)), [1.0, 2.0, 3.0]);
    assert_eq!(floats(to_ivp(v)), [1.0 * 0.0254, 2.0 * 0.0254, 3.0 * 0.0254]);
}

#[test]
fn boxes_hold_the_points_that_are_used() {
    let points = vec![
        bits([9.0, 9.0, 9.0]),
        bits([-1.0, 5.0, 0.0]),
        bits([2.0, -4.0, 1.0]),
    ];
    let b = aabb_of(&points, &vec![1, 2]);
    assert_eq!(floats(b.low), [-1.0, -4.0, 0.0]);
    assert_eq!(floats(b.high), [2.0, 5.0, 1.0]);
    assert_eq!(
        f32::from_bits(farthest(&vec![bits([3.0, 4.0, 0.0]), bits([1.0, 0.0, 0.0])], [0; 3])),
        5.0
    );
}

#[test]
fn masses_follow_volumes() {
    let whole = count_whole_volume(&vec![measures(0.0)]);
    assert_eq!(f32::from_bits(whole), 1.0);
    let share = share_mass(
        2.0f32.to_bits(),
        1.0f32.to_bits(),
        8.0f32.to_bits(),
        100.0f32.to_bits(),
    );
    assert_eq!(f32::from_bits(share), 25.0);
    let least = share_mass(
        1.0f32.to_bits(),
        1.0f32.to_bits(),
        1000.0f32.to_bits(),
        10.0f32.to_bits(),
    );
    assert_eq!(f32::from_bits(least), 1.0);
}

#[test]
fn written_numbers_are_measured() {
    let solids = vec![PhySolid::prop("one")];
    let mut p = PhyParams::new("one", 7);
    p.inertia_scale = 2.0f32.to_bits();
    let inch = 0.0254f32 * 0.0254 * 0.0254;
    let b = write_phy(vec![cube(0.0)], &vec![measures(8.0 * inch)], &solids, &p).unwrap();
    assert_eq!(f32::from_bits(read_u32(&b, 16 + 32 + 12)), 2.0);
    assert_eq!(f32::from_bits(read_u32(&b, 16 + 32 + 20)), 6.0);
    assert!(text_of(&b).contains("\"volume\" \"8.000000\""));
}

#[test]
fn wrong_measures_are_found_when_read_back() {
    let solids = vec![PhySolid::prop("one")];
    let p = PhyParams::new("one", 7);
    let good = write_phy(vec![cube(0.0)], &vec![measures(1.0)], &solids, &p).unwrap();
    assert!(check_invariants(&good).is_ok());
    let node = 16 + 32 + 384;
    for at in [node + 8, node + 20, node + 24, node + 27, 16 + 32 + 24] {
        let mut b = good.clone();
        b[at + if at == node + 24 || at == node + 27 { 0 } else { 3 }] ^= 0x41;
        assert!(
            matches!(check_invariants(&b), Err(PhyError::SelfCheck(_))),
            "byte {at}"
        );
    }
}

#[test]
fn complaints_say_what_is_wrong() {
    let p = PhyParams::new("x", 0);
    let none = write_phy(Vec::new(), &Vec::new(), &Vec::new(), &p).unwrap_err();
    assert_eq!(none.describe(), "参数 hulls 非法：至少需要一个 solid");
    let e = write_phy(vec![cube(0.0)], &vec![measures(1.0)], &Vec::new(), &p).unwrap_err();
    assert_eq!(
        e.describe(),
        "参数 solids 非法：1 个 solid 凸块组但 0 个 solid 参数"
    );
    let solids = vec![PhySolid::ragdoll(u32::MAX, "a".to_string(), None)];
    let e = write_phy(vec![cube(0.0)], &vec![measures(1.0)], &solids, &p).unwrap_err();
    assert_eq!(
        e.describe(),
        "参数 bone_index 非法：骨骼下标 4294967295 +1 溢出 u32"
    );
    let solids = vec![PhySolid::ragdoll(1, "a".to_string(), Some("b\0".to_string()))];
    let e = write_phy(vec![cube(0.0)], &vec![measures(1.0)], &solids, &p).unwrap_err();
    assert_eq!(
        e.describe(),
        "参数 solids[].name/parent 非法：solid[0] 的 parent 里有 NUL 字节"
    );
    let e = write_phy(
        vec![cube(0.0)],
        &Vec::new(),
        &vec![PhySolid::prop("a")],
        &p,
    )
    .unwrap_err();
    assert!(matches!(e, PhyError::BadParameter { what: "measures", .. }));
    let mut h = cube(0.0);
    h.faces = vec![[0, 1, 2]; 4097];
    let e = write_phy(vec![h], &vec![measures(1.0)], &vec![PhySolid::prop("a")], &p).unwrap_err();
    assert_eq!(
        e,
        PhyError::TooManyTriangles {
            solid: 0,
            triangles: 4097,
            max: 4096
        }
    );
}

#[test]
fn ragdolls_are_built_from_their_hulls() {
    let smd = limbs();
    let mut phys = Physics::default();
    phys.joint_overrides.push(JointOverride {
        bone: "tip".to_string(),
        damping: Some(9.0f32.to_bits()),
        rot_damping: None,
        inertia: None,
        mass_bias: Some(2.0f32.to_bits()),
    });
    phys.constraints.push(JointConstraintSpec {
        bone: "mid".to_string(),
        axis: "Y".to_string(),
        kind: "Limit".to_string(),
        min: (-5.0f32).to_bits(),
        max: 5.0f32.to_bits(),
        friction: 10.0f32.to_bits(),
    });
    let hulls = vec![Some(cube(0.0)), Some(cube(10.0)), Some(cube(20.0))];
    let ms = vec![measures(1.0), measures(1.0), measures(1.0)];
    let mass = 30.0f32.to_bits();
    let b = build_ragdoll_phy_from_smd(&smd, &ident(), 5, mass, &phys, &hulls, &ms).unwrap();
    let text = text_of(&b);
    assert_eq!(text.matches("solid {").count(), 3);
    assert!(text.contains("\"name\" \"tip\"\n\"parent\" \"mid\"\n\"mass\" \"20.000000\""));
    assert!(text.contains("\"damping\" \"9.000000\""));
    assert!(text.contains("\"massbias\" \"2.000000\""));
    assert!(text.contains("\"ymin\" \"-5.000000\"\n\"ymax\" \"5.000000\"\n\"yfriction\" \"2.000000\""));
    assert!(text.contains("\"surfaceprop\" \"flesh\""));
    assert!(text.contains("\"totalmass\" \"30.000000\""));

    let few = vec![Some(cube(0.0)), None, Some(cube(20.0))];
    let ms = vec![measures(1.0), measures(1.0)];
    let b = build_ragdoll_phy_from_smd(&smd, &ident(), 5, mass, &phys, &few, &ms).unwrap();
    let text = text_of(&b);
    assert!(text.contains("\"name\" \"tip\"\n\"parent\" \"root\""));

    let none = vec![None, None, None];
    let e = build_ragdoll_phy_from_smd(&smd, &ident(), 5, mass, &phys, &none, &Vec::new());
    assert_eq!(e.unwrap_err(), "所有骨骼的碰撞几何都张不成凸包");

    phys.auto_mass = true;
    let e = build_ragdoll_phy_from_smd(&smd, &ident(), 5, mass, &phys, &few, &ms);
    assert!(e.unwrap_err().contains("auto_mass"));
    assert!(check_auto_mass(&phys).is_err());

    phys.constraints[0].axis = "w".to_string();
    assert!(joint_constraints(&phys.constraints).is_err());
}

#[test]
fn props_refuse_what_only_joints_have() {
    let mut phys = Physics::default();
    assert!(check_prop(&phys).is_ok());
    phys.no_self_collisions = true;
    assert!(check_prop(&phys).unwrap_err().contains("no_self_collisions"));
    phys.collision_pairs.push(Pair {
        a: "a".to_string(),
        b: "b".to_string(),
    });
    phys.constraints.push(JointConstraintSpec {
        bone: "a".to_string(),
        axis: "x".to_string(),
        kind: "free".to_string(),
        min: 0,
        max: 0,
        friction: 0,
    });
    assert!(check_prop(&phys)
        .unwrap_err()
        .starts_with("[physics.constraints] 有 1 项"));
}

#[test]
fn merged_bones_must_be_there_and_form_no_circle() {
    let smd = limbs();
    let pair = |a: &str, b: &str| Pair {
        a: a.to_string(),
        b: b.to_string(),
    };
    let table = merge_table(&smd, &vec![pair("mid", "tip"), pair("root", "root")]).unwrap();
    assert_eq!(table.len(), 1);
    assert_eq!(table.get(&2), Some(&1));
    let e = merge_table(&smd, &vec![pair("mid", "nowhere")]).unwrap_err();
    assert!(e.contains("\"nowhere\"") && e.contains("mid, root, tip"), "{e}");
    let e = merge_table(&smd, &vec![pair("mid", "tip"), pair("tip", "mid")]).unwrap_err();
    assert!(e.contains("会形成归并环"), "{e}");

    let mut phys = Physics::default();
    phys.joint_overrides.push(JointOverride {
        bone: "tail".to_string(),
        damping: None,
        rot_damping: None,
        inertia: None,
        mass_bias: None,
    });
    let e = ragdoll_groups(&smd, &phys).unwrap_err();
    assert!(e.contains("\"tail\"") && e.contains("mid, root, tip"), "{e}");
    assert_eq!(resolve_joint(&phys, "mid").inertia, 1.0f32.to_bits());
    assert_eq!(
        list_names(&vec!["b".to_string(), "a".to_string(), "b".to_string()]),
        "a, b"
    );
}

#[test]
fn groups_hang_from_the_nearest_group() {
    let g = group_by_bone(&limbs());
    assert_eq!(g.len(), 3);
    assert_eq!(g[0].parent, None);
    assert_eq!(g[2].parent.as_deref(), Some("mid"));
    assert_eq!(g[1].faces.len(), 12);
}

#[test]
fn limits_have_axes_and_kinds() {
    assert_eq!(JointLimitType::parse("FREE"), Some(JointLimitType::Free));
    assert_eq!(JointLimitType::parse("loose"), None);
    assert_eq!(JointConstraint::axis_from_char('Z'), Some(2));
    assert_eq!(JointConstraint::axis_from_char('w'), None);
    let limit = JointConstraint {
        bone: "mid".to_string(),
        axis: 1,
        kind: JointLimitType::Fixed,
        min: 0,
        max: 0,
        friction: 0,
    };
    assert_eq!(limit.axis_char(), 'y');
    let (a, b, c) = JointLimitType::Free.axis_values(0, 0, 5.0f32.to_bits());
    assert_eq!(
        (f32::from_bits(a), f32::from_bits(b), f32::from_bits(c)),
        (-360.0, 360.0, 1.0)
    );
}

#[test]
fn connected_parts_are_found() {
    let weld = vec![0u32, 1, 2, 3, 4, 5, 0, 7, 8];
    let faces = vec![[0u32, 1, 2], [3, 4, 5], [6, 7, 8]];
    let marks = mark_connected_meshes(&weld, &faces);
    assert_eq!(marks, [0, 0, 0, 1, 1, 1, -1, 0, 0]);
    assert_eq!(
        connected_parts(&marks, 3),
        [vec![0, 1, 2, 7, 8], vec![3, 4, 5]]
    );
}

#[test]
fn vertices_are_welded_where_place_and_normal_agree() {
    let p = vec![
        bits([0.0, 0.0, 0.0]),
        bits([0.0, 0.0, 0.0]),
        bits([0.0, 0.0, 0.0]),
        bits([1.0, 0.0, 0.0]),
    ];
    let n = vec![
        bits([0.0, 0.0, 1.0]),
        bits([1.0, 0.0, 0.0]),
        bits([0.0, 0.0, 1.0]),
        bits([0.0, 0.0, 1.0]),
    ];
    assert_eq!(build_weld_table(&p, &n), [0, 1, 0, 3]);
}

#[test]
fn flat_points_lie_in_a_plane() {
    let flat: Vec<[u32; 3]> = [[0.0, 0.0, 0.0], [9.0, 0.0, 0.0], [0.0, 9.0, 0.0], [9.0, 9.0, 0.0]]
        .iter()
        .map(|&p| bits(p))
        .collect();
    let half = 0.5f32.to_bits();
    assert!(is_approximately_planar(&flat, half));
    assert!(is_approximately_planar(&flat[..3].to_vec(), half));
    assert!(!is_approximately_planar(&cube(0.0).vertices, half));
    let up = vec![bits([0.0, 0.0, 1.0]); 3];
    assert_eq!(
        connected_pieces(&flat[..3].to_vec(), &up).unwrap_err(),
        "只有 3 个顶点，凸包至少要 4 个"
    );
}

#[test]
fn points_of_a_hull_are_checked() {
    let three = vec![[0u32; 3]; 3];
    assert_eq!(
        check_points(&three).unwrap_err(),
        PhyError::HullTooFewPoints {
            solid: 0,
            points: 3
        }
    );
    let mut four = vec![[0u32; 3]; 4];
    four[2][1] = f32::NAN.to_bits();
    assert!(matches!(
        check_points(&four).unwrap_err(),
        PhyError::HullDegenerate { solid: 0, .. }
    ));
    four[2][1] = f32::INFINITY.to_bits();
    assert_eq!(
        check_points(&four).unwrap_err(),
        PhyError::NonFinitePoint { solid: 0, point: 2 }
    );
    let small = PhyHull {
        vertices: vec![[0; 3]; 3],
        faces: vec![[0, 1, 2]],
    };
    let kept = keep_bodies(vec![small.clone(), cube(0.0)]).unwrap();
    assert_eq!(kept.len(), 1);
    assert!(matches!(
        keep_bodies(vec![small]),
        Err(PhyError::HullDegenerate { solid: 0, .. })
    ));
}

#[test]
fn equal_corners_are_one_point() {
    let m = weld_smd_triangles(&limbs()).unwrap();
    assert_eq!(m.vertices.len(), 24);
    assert_eq!(m.faces.len(), 36);
    assert_eq!(m.faces[0], [0, 1, 2]);
}

#[test]
fn bones_carry_points() {
    let one = 1.0f32.to_bits();
    let shift = |z: f32| -> [u32; 12] {
        [one, 0, 0, 0, 0, one, 0, 0, 0, 0, one, z.to_bits()]
    };
    let p = bits([1.0, 2.0, 3.0]);
    assert_eq!(floats(transform_point(&shift(5.0), p)), [1.0, 2.0, 8.0]);
    let named = |name: &str, rows: [u32; 12]| BoneMatrix {
        name: name.to_string(),
        rows,
    };
    let rest = RestPose {
        world: vec![named("root", shift(10.0))],
        inverse: vec![named("root", shift(-10.0))],
    };
    let link = |name: &str, w: f32| BoneWeight {
        name: name.to_string(),
        weight: w.to_bits(),
    };
    let pose = vec![named("root", shift(14.0))];
    let none: Vec<BoneMatrix> = Vec::new();
    assert_eq!(floats(world_point(p, &Vec::new(), &rest, &pose)), [1.0, 2.0, 3.0]);
    assert_eq!(
        floats(world_point(p, &vec![link("root", 1.0)], &rest, &none)),
        [1.0, 2.0, 3.0]
    );
    assert_eq!(
        floats(world_point(p, &vec![link("root", 1.0)], &rest, &pose)),
        [1.0, 2.0, 7.0]
    );
    assert_eq!(
        floats(world_point(
            p,
            &vec![link("root", 0.5), link("other", 0.5)],
            &rest,
            &pose
        )),
        [1.0, 2.0, 5.0]
    );
    let smd = limbs();
    assert_eq!(vertex_bone_weights(&smd).len(), 108);
    assert_eq!(vertex_bone_weights(&smd)[40][0].name, "mid");
    let v = weld_smd_triangles(&smd).unwrap().vertices;
    let moved = world_space_verts(&smd, &v, &rest, &pose);
    assert_eq!(floats(moved[0])[2], floats(v[0])[2] + 4.0);
    assert_eq!(moved[8], v[8]);
    assert_eq!(smd.reference_frame().map(|f| f.poses.len()), Some(3));
    let posed = smd_rest_pose(&smd);
    assert_eq!(posed[1].parent, 0);
    assert_eq!(floats(posed[1].position), [0.0, 0.0, 10.0]);
    assert!(sequence_pose_world(&Vec::new(), &Vec::new()).is_empty());
}

#[test]
fn merge_tables_lead_back() {
    let mut m: HashMap<i32, i32> = HashMap::new();
    m.insert(3, 2);
    m.insert(2, 1);
    assert!(mdlc::phy::ragdoll::would_cycle(&m, 3, 1, 10));
    assert!(!mdlc::phy::ragdoll::would_cycle(&m, 1, 4, 10));
}

#[test]
fn compact_corners_lie_apart() {
    let mut h = cube(0.0);
    let list = compact_corners(&h).unwrap();
    assert_eq!(list.len(), 8);
    for v in &list {
        assert!(floats(*v).iter().all(|x| (x.abs() - 1.0).abs() < 1e-5));
    }
    h.faces.truncate(2);
    assert!(compact_corners(&h).is_none());
    let mut reps = Vec::new();
    push_unique(&mut reps, bits([0.0, 0.0, 0.0]), 1.0f32.to_bits());
    push_unique(&mut reps, bits([0.5, 0.0, 0.0]), 1.0f32.to_bits());
    push_unique(&mut reps, bits([1.0, 0.0, 0.0]), 1.0f32.to_bits());
    assert_eq!(reps.len(), 2);
}

#[test]
fn given_centre_of_mass_is_written() {
    let p = PhyParams::new("x", 0);
    let q = PhyParams {
        mass_center: Some(bits([10.0, 20.0, 30.0])),
        ..PhyParams::new("x", 0)
    };
    let solids = vec![PhySolid::prop("a")];
    let a = write_phy(vec![cube(0.0)], &vec![measures(1.0)], &solids, &p).unwrap();
    let b = write_phy(vec![cube(0.0)], &vec![measures(1.0)], &solids, &q).unwrap();
    assert_eq!(text_of(&a), text_of(&b));
    let want = to_ivp(bits([10.0, 20.0, 30.0]));
    for k in 0..3 {
        assert_eq!(read_u32(&b, 48 + 4 * k), want[k]);
    }
    assert_ne!(a[48..60], b[48..60]);
    assert_ne!(a[72..76], b[72..76]);
}

#[test]
fn bone_tables_number_the_solids_that_are_written() {
    let smd = limbs();
    let mut phys = Physics::default();
    phys.merge.push(Pair {
        a: "root".to_string(),
        b: "mid".to_string(),
    });
    let merged = merge_table(&smd, &phys.merge).unwrap();
    assert_eq!(group_by_bone_merged(&smd, &merged).len(), 2);
    let parents = vec![-1, 0, 1];
    assert_eq!(
        physics_bone_table(&smd, &merged, &vec![true; 2], 3, &parents),
        Some(vec![0, 0, 1])
    );
    assert_eq!(
        physics_bone_table(&smd, &HashMap::new(), &vec![true; 3], 3, &parents),
        Some(vec![0, 1, 2])
    );
    let hulls = vec![Some(cube(0.0)), Some(cube(20.0))];
    let ms = vec![measures(1.0), measures(1.0)];
    let mass = 30.0f32.to_bits();
    let b = build_ragdoll_phy_from_smd(&smd, &ident(), 5, mass, &phys, &hulls, &ms).unwrap();
    let text = text_of(&b);
    assert!(text.contains("\"index\" \"0\"\n\"name\" \"root\""));
    assert!(text.contains("\"index\" \"1\"\n\"name\" \"tip\""));
}

#[test]
fn triangles_name_the_points_of_their_hull() {
    let p = prepare_solid(0, &vec![cube(0.0), cube(5.0)]).unwrap();
    for h in &p.hulls {
        let local = local_tris(h);
        assert_eq!(local.len(), h.tris.len());
        for (l, t) in local.iter().zip(&h.tris) {
            for c in 0..3 {
                assert_eq!(h.used[l[c] as usize], t[c]);
            }
        }
    }
    assert_ne!(local_tris(&p.hulls[1]), p.hulls[1].tris);
}

#[test]
fn broken_files_are_told_in_words() {
    let p = PhyParams::new("x", 0);
    let good = write_phy(
        vec![cube(0.0)],
        &vec![measures(1.0)],
        &vec![PhySolid::prop("a")],
        &p,
    )
    .unwrap();
    let end = check_invariants(&good).unwrap().solids_end;
    let said = |b: &[u8]| match check_invariants(b) {
        Err(PhyError::SelfCheck(m)) => m,
        other => panic!("{other:?}"),
    };
    let with = |at: usize, v: u8| {
        let mut b = good.clone();
        b[at] = v;
        said(&b)
    };
    assert_eq!(said(&[]), "文件只有 0 字节，连 16 字节头都放不下");
    assert_eq!(with(0, 17), "phyheader.size 应为 16，实际 17");
    assert_eq!(with(4, 9), "phyheader.id 应为 0，实际 9");
    assert_eq!(with(11, 0xFF), format!("phyheader.solidCount 为负：{}", 1i32 | (0xFFu32 << 24) as i32));
    assert_eq!(with(20, 0), "solid[0] vphysicsID 应为 'VPHY'，实际 0x59485000");
    assert_eq!(with(24, 0xAB), "solid[0] version 应为 0x0100，实际 0x01ab");
    assert_eq!(with(26, 1), "solid[0] modelType 应为 0，实际 1");
    assert_eq!(with(44, 2), "solid[0] axisMapSize 应为 0，实际 2");
    assert!(said(&good[..end - 1]).starts_with("solid[0] 越过文件末尾（需要 "));
    assert_eq!(said(&good[..end]), "没有 text section");
    assert_eq!(with(good.len() - 1, 1), "text section 末尾不是单个 0x00");
    assert_eq!(with(end, 0), "text section 内部有 NUL 字节");
    assert_eq!(with(end, b'S'), "text section 没有以 \"solid {\" 开头");
    assert_eq!(with(good.len() - 2, b' '), "text section 没有以 \"}\\n\" 结尾");
    let mut b = good.clone();
    b[end + 3] = 0xFF;
    let fault = std::str::from_utf8(&b[end..b.len() - 1]).unwrap_err().to_string();
    assert_eq!(said(&b), format!("text section 不是 UTF-8：{fault}"));
    let mut b = good[..end].to_vec();
    b.extend_from_slice(b"solid {\n}\nsolid {\n}\n\0");
    assert_eq!(
        said(&b),
        "text section 里有 2 个 \"solid {\" 块，但 solidCount=1"
    );
    assert_eq!(with(96 + 14, 1), "solid[0] hull @96 的 for_future_use != 0");
    assert_eq!(with(96 + 8, 5), "solid[0] hull @96 的 has_chilren_flag != 0");
    assert_eq!(with(96 + 16, 7), "solid[0] hull @96 第 0 个三角形的 tri_index != 0");
    assert_eq!(
        with(96 + 20, 200),
        "solid[0] hull @96 引用了点 200，但共享数组只有 8 个点"
    );
    let got = f32::from_bits(read_u32(&good, 72)) + 1.0;
    let mut b = good.clone();
    b[72..76].copy_from_slice(&got.to_le_bytes());
    let want = f32::from_bits(read_u32(&good, 72));
    assert_eq!(
        said(&b),
        format!("solid[0] upper_limit_radius 应为 {want}，实际 {got}")
    );
}

#[test]
fn props_keep_the_centre_of_mass_that_was_measured() {
    let smd = limbs();
    let mut ms = measures(1.0);
    ms.mass_center = bits([0.25, 0.5, 0.75]);
    let build = |phys: &Physics| {
        let mass = 1.0f32.to_bits();
        build_phy_from_smd(&smd, &ident(), 5, mass, phys, vec![cube(0.0)], ms.clone()).unwrap()
    };
    let plain = build(&Physics::default());
    for k in 0..3 {
        assert_eq!(read_u32(&plain, 48 + 4 * k), ms.mass_center[k]);
    }
    let mut phys = Physics::default();
    phys.mass_center = Some(Vector {
        x: 1.0f32.to_bits(),
        y: 2.0f32.to_bits(),
        z: 3.0f32.to_bits(),
    });
    assert_eq!(build(&phys), plain);
}
