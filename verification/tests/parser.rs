use mdlc::phy::pose::sequence_pose_world;
use mdlc::qc::error::QcError;
use mdlc::qc::lexer::{Lexer, ReadFailure, Source};
use mdlc::qc::model::{ModelDesc, PoseLoop, Vector};
use mdlc::qc::parse::{parse_qc_file, parse_qc_str, Parser};
use mdlc::qc::procedural::parse_vrd;
use mdlc::qc::read::{parse_f, parse_i};

const MESH: &str = "version 1
nodes
0 \"root\" -1
1 \"hip\" 0
2 \"knee\" 1
end
skeleton
time 0
0 0 0 0 0 0 0
1 0 0 10 0 0 0
2 0 0 20 0 0 0
end
triangles
skin_a
0 0 0 0 0 0 1 0 0 1 0 1
1 1 0 0 0 0 1 1 0 1 1 1
2 0 1 0 0 0 1 0 1 1 2 1
skin_b
0 0 0 0 0 0 1 0 0 1 0 1
1 1 0 0 0 0 1 1 0 1 1 1
2 0 1 0 0 0 1 0 1 1 2 1
end
";

const WALK: &str = "version 1
nodes
0 \"root\" -1
1 \"hip\" 0
2 \"knee\" 1
end
skeleton
time 0
0 0 0 0 0 0 0
time 1
0 0 0 1 0 0 0
time 2
0 0 0 2 0 0 0
time 3
0 0 0 3 0 0 0
time 4
0 0 0 4 0 0 0
end
";

fn source(path: &str, text: &str) -> Source {
    Source {
        path: path.to_string(),
        bytes: text.as_bytes().to_vec(),
        failure: None,
    }
}

fn sources() -> Vec<Source> {
    vec![
        source("./mesh.smd", MESH),
        source("./far.smd", MESH),
        source("./phys.smd", MESH),
        source("./walk.smd", WALK),
    ]
}

fn read(text: &str) -> Result<ModelDesc, Vec<QcError>> {
    parse_qc_str(text, ".", sources())
}

fn ok(text: &str) -> ModelDesc {
    match read(text) {
        Ok(d) => d,
        Err(e) => panic!("{}", e[0].describe()),
    }
}

fn fails(text: &str, part: &str) {
    match read(text) {
        Ok(_) => panic!("{text:?} must not be accepted"),
        Err(e) => {
            let all: Vec<String> = e.iter().map(|e| e.describe()).collect();
            assert!(all.iter().any(|m| m.contains(part)), "{all:?}");
        }
    }
}

fn bits(v: f32) -> u32 {
    v.to_bits()
}

fn vector(x: f32, y: f32, z: f32) -> Vector {
    Vector {
        x: bits(x),
        y: bits(y),
        z: bits(z),
    }
}

#[test]
fn model_settings_are_kept() {
    let d = ok("$modelname \"props/box.mdl\"\n$surfaceprop \"metal\"\n$eyeposition 0 1 70\n\
                $bbox -1 -2 -3 1 2 3\n$staticprop\n$cdmaterials \"models/props/\"\n");
    assert_eq!(d.name, "props/box.mdl");
    assert_eq!(d.surface_prop.as_deref(), Some("metal"));
    assert!(d.static_prop);
    assert_eq!(d.hull_min, Some(vector(-1.0, -2.0, -3.0)));
    assert_eq!(d.hull_max, Some(vector(1.0, 2.0, 3.0)));
    assert_eq!(d.materials.search_paths.len(), 1);
}

#[test]
fn nothing_said_is_a_solid_model() {
    let d = ok("");
    assert_eq!(d.contents, 1);
    assert!(!d.static_prop);
    assert!(d.bones.is_empty());
    assert_eq!(d.name, "<memory>.mdl");
}

#[test]
fn unknown_commands_are_errors() {
    fails("$nosuchcommand 1 2\n", "$nosuchcommand");
}

#[test]
fn missing_numbers_are_errors() {
    assert!(read("$bbox 1 2 3\n").is_err());
    assert!(read("$scale abc\n").is_err());
}

#[test]
fn bodies_bring_bones_and_materials() {
    let d = ok("$modelname a.mdl\n$body studio \"mesh.smd\"\n");
    let names: Vec<&str> = d.bones.iter().map(|b| b.name.as_str()).collect();
    assert_eq!(names, ["root", "hip", "knee"]);
    assert_eq!(d.bones[0].parent, None);
    assert_eq!(d.bones[1].parent.as_deref(), Some("root"));
    assert_eq!(d.bones[2].parent.as_deref(), Some("hip"));
    assert_eq!(d.materials.textures, ["skin_a", "skin_b"]);
    assert_eq!(d.bodyparts.len(), 1);
    assert_eq!(d.bodyparts[0].name, "studio");
    assert_eq!(d.bodyparts[0].models.len(), 1);
}

#[test]
fn body_groups_count_their_models() {
    let d = ok("$bodygroup hats {\nstudio \"mesh.smd\"\nstudio \"far.smd\"\n}\n$bodygroup ties {\nstudio \"mesh.smd\"\n}\n");
    assert_eq!(d.bodyparts.len(), 2);
    assert_eq!(d.bodyparts[0].models.len(), 2);
    assert_eq!(d.bodyparts[0].base, 1);
    assert_eq!(d.bodyparts[1].base, 2);
}

#[test]
fn empty_members_are_refused() {
    fails("$bodygroup hats {\nblank\n}\n", "blank");
}

#[test]
fn meshes_that_are_not_there_are_errors() {
    fails("$body studio \"nowhere.smd\"\n", "读不到 SMD");
}

#[test]
fn skins_replace_textures_of_the_first_row() {
    let d = ok("$body studio \"mesh.smd\"\n$texturegroup skins {\n{ \"skin_a\" \"skin_b\" }\n\
                { \"skin_c\" \"skin_d\" }\n}\n");
    assert_eq!(d.materials.textures, ["skin_a", "skin_b", "skin_c", "skin_d"]);
    assert_eq!(
        d.materials.skin_families,
        [vec![0, 1, 2, 3], vec![2, 3, 2, 3]]
    );
}

#[test]
fn sequences_take_their_options() {
    let d = ok("$body studio \"mesh.smd\"\n$sequence walk \"walk.smd\" loop fps 24 fadein 0.3 fadeout 0.4 \
                activity ACT_WALK 2\n");
    assert_eq!(d.sequences.len(), 1);
    let q = &d.sequences[0];
    assert_eq!(q.name, "walk");
    assert!(q.looping);
    assert_eq!(q.fade_in, bits(0.3));
    assert_eq!(q.fade_out, bits(0.4));
    assert_eq!(q.activity.as_deref(), Some("ACT_WALK"));
    assert_eq!(q.activity_weight, 2);
}

#[test]
fn events_are_placed_within_the_sequence() {
    let d = ok("$body studio \"mesh.smd\"\n$sequence walk {\n\"walk.smd\"\n{ event AE_STEP 1 \"left\" }\n\
                { event 5004 4 }\n{ event AE_LATE 9 }\n}\n");
    let q = &d.sequences[0];
    assert_eq!(q.events.len(), 3);
    assert_eq!(q.events[0].cycle, bits(0.25));
    assert_eq!(q.events[0].name, "AE_STEP");
    assert_eq!(q.events[0].options, "left");
    assert_eq!(q.events[0].event_type, 1024);
    assert_eq!(q.events[1].cycle, bits(1.0));
    assert_eq!(q.events[1].event, 5004);
    assert_eq!(q.events[1].event_type, 0);
    assert_eq!(q.events[2].cycle, bits(0.0));
}

#[test]
fn collision_blocks_fill_the_physics() {
    let d = ok("$collisionmodel \"phys.smd\" {\n$mass 80\n$concave\n$inertia 2\n$damping 0.5\n\
                $rotdamping 3\n}\n");
    let p = &d.physics;
    assert!(p.smd.is_some());
    assert!(!p.joints);
    assert!(p.concave);
    assert_eq!(p.mass, Some(bits(80.0)));
    assert_eq!(p.inertia, Some(bits(2.0)));
    assert_eq!(p.damping, Some(bits(0.5)));
    assert_eq!(p.rot_damping, Some(bits(3.0)));
}

#[test]
fn joints_take_limits_and_overrides() {
    let d = ok("$collisionjoints \"phys.smd\" {\n$jointconstrain \"hip\" x limit -10 10 0.5\n\
                $jointconstrain \"hip\" y free 0 0\n$jointdamping \"HIP\" 4\n$jointinertia \"hip\" 7\n\
                $jointmerge \"hip\" \"knee\"\n$noselfcollisions\n\
                $animatedfriction 100 500 0.1 0.2 1.0\n}\n");
    let p = &d.physics;
    assert!(p.joints);
    assert!(p.no_self_collisions);
    assert_eq!(p.constraints.len(), 2);
    assert_eq!(p.constraints[0].bone, "hip");
    assert_eq!(p.constraints[0].axis, "x");
    assert_eq!(p.constraints[0].kind, "limit");
    assert_eq!(p.constraints[0].min, bits(-10.0));
    assert_eq!(p.constraints[0].friction, bits(0.5));
    assert_eq!(p.constraints[1].friction, bits(0.0));
    assert_eq!(p.joint_overrides.len(), 1);
    assert_eq!(p.joint_overrides[0].damping, Some(bits(4.0)));
    assert_eq!(p.joint_overrides[0].inertia, Some(bits(7.0)));
    assert_eq!(p.merge[0].a, "hip");
    assert_eq!(p.merge[0].b, "knee");
    let f = p.animated_friction.as_ref().unwrap();
    assert_eq!((f.min, f.max), (100, 500));
    assert_eq!(f.time_in, bits(0.1));
    assert_eq!(f.time_hold, bits(0.2));
    assert_eq!(f.time_out, bits(1.0));
}

#[test]
fn distances_drop_bones_that_are_not_there() {
    let d = ok("$body studio \"mesh.smd\"\n$lod 20 {\nreplacemodel \"mesh.smd\" \"far.smd\"\n\
                bonetreecollapse \"hip\"\nbonetreecollapse \"tip\"\n}\n");
    let lods = &d.bodyparts[0].models[0].lods;
    assert_eq!(lods.len(), 1);
    assert_eq!(lods[0].switch_point, Some(bits(20.0)));
    assert_eq!(lods[0].bone_tree_collapse, ["hip"]);
}

#[test]
fn pose_parameters_start_over() {
    let d = ok("$poseparameter a -180 180 loop 360\n$poseparameter b 0 1 wrap\n$poseparameter c 0 1\n");
    assert_eq!(d.pose_parameters.len(), 3);
    assert_eq!(d.pose_parameters[0].start, bits(-180.0));
    assert!(matches!(
        d.pose_parameters[0].loop_mode,
        Some(PoseLoop::Explicit(v)) if v == bits(360.0)
    ));
    assert!(matches!(d.pose_parameters[1].loop_mode, Some(PoseLoop::Wrap)));
    assert!(d.pose_parameters[2].loop_mode.is_none());
}

#[test]
fn wobbling_bones_turn_angles_into_radians() {
    let d = ok("$body studio \"mesh.smd\"\n$jigglebone \"knee\" {\nis_flexible {\nlength 10\n\
                angle_constraint 90\nyaw_constraint -45 45\n}\nhas_base_spring {\nbase_mass 3\n\
                base_left -2 2\n}\n}\n");
    let j = &d.jiggle_bones[0];
    assert_eq!(j.bone, "knee");
    let f = j.is_flexible.unwrap();
    assert_eq!(f.length, Some(bits(10.0)));
    assert_eq!(f.angle_constraint, Some(bits(90.0f32.to_radians())));
    let yaw = f.yaw_constraint.unwrap();
    assert_eq!(yaw.min, bits((-45.0f32).to_radians()));
    assert_eq!(yaw.max, bits(45.0f32.to_radians()));
    let b = j.has_base_spring.unwrap();
    assert_eq!(b.base_mass, Some(bits(3.0)));
}

#[test]
fn eyeballs_scale_their_iris() {
    let d = ok("$model head \"mesh.smd\" {\neyeball righteye \"root\" 1 2 3 \"eye_r\" 1.5 4 \"iris\" 0.5\n\
                eyeball lefteye \"root\" -1 2 3 \"eye_l\" 1.5 -4 \"iris\" 0\n}\n");
    let eyes = &d.bodyparts[0].models[0].eyeballs;
    assert_eq!(eyes.len(), 2);
    assert_eq!(eyes[0].name.as_deref(), Some("righteye"));
    assert_eq!(eyes[0].org, vector(1.0, 2.0, 3.0));
    assert_eq!(eyes[0].radius, bits(1.5));
    assert_eq!(eyes[0].zangle, bits(4.0));
    assert_eq!(eyes[0].iris_scale, bits(2.0));
    assert_eq!(eyes[1].iris_scale, bits(1.0));
}

#[test]
fn attachments_and_hitboxes_name_bones() {
    let d = ok("$body studio \"mesh.smd\"\n$attachment \"eyes\" \"hip\" 1 2 3 rotate 0 90 0\n\
                $hboxset \"default\"\n$hbox 2 \"knee\" -1 -1 -1 1 1 1\n");
    assert_eq!(d.attachments[0].name, "eyes");
    assert_eq!(d.attachments[0].bone, "hip");
    assert_eq!(d.attachments[0].position, vector(1.0, 2.0, 3.0));
    assert_eq!(d.hitbox_set.as_deref(), Some("default"));
    assert_eq!(d.hitboxes[0].group, 2);
    assert_eq!(d.hitboxes[0].bone, "knee");
    assert_eq!(d.hitboxes[0].bbmax, vector(1.0, 1.0, 1.0));
}

#[test]
fn defined_bones_come_with_their_parents_first() {
    let d = ok("$definebone \"c\" \"b\" 0 0 0 0 0 0\n$definebone \"b\" \"a\" 0 0 0 0 0 0\n\
                $definebone \"a\" \"\" 0 0 0 0 0 0\n");
    let names: Vec<&str> = d.bones.iter().map(|b| b.name.as_str()).collect();
    assert_eq!(names, ["a", "b", "c"]);
}

#[test]
fn chains_and_locks_are_kept() {
    let d = ok("$body studio \"mesh.smd\"\n$ikchain \"foot\" \"knee\" knee 0 1 0\n\
                $ikautoplaylock \"foot\" 0.5 0.25\n");
    assert_eq!(d.ikchains[0].name, "foot");
    assert_eq!(d.ikchains[0].bone, "knee");
    assert_eq!(d.ikchains[0].knee_dir, Some(vector(0.0, 1.0, 0.0)));
    assert_eq!(d.ik_autoplay_locks[0].chain, "foot");
    assert_eq!(d.ik_autoplay_locks[0].pos_weight, bits(0.5));
    assert_eq!(d.ik_autoplay_locks[0].local_q_weight, bits(0.25));
}

#[test]
fn weight_lists_hold_bones_once() {
    let d = ok("$body studio \"mesh.smd\"\n$weightlist upper {\n\"hip\" 0.5\n\"knee\" 1\n}\n");
    assert_eq!(d.weight_lists.len(), 1);
    assert_eq!(d.weight_lists[0].name, "upper");
    assert_eq!(d.weight_lists[0].bones.len(), 2);
    assert_eq!(d.weight_lists[0].bones[0].bone, "hip");
    assert_eq!(d.weight_lists[0].bones[0].weight, bits(0.5));
}

#[test]
fn joined_models_and_key_values_are_kept() {
    let d = ok("$includemodel \"shared.mdl\"\n$keyvalues {\n  prop_data { base \"Wood\" }\n}\n");
    assert_eq!(d.joined_models.len(), 1);
    assert!(d.joined_models[0].contains("shared.mdl"));
    assert!(d.key_values.unwrap().contains("prop_data"));
}

#[test]
fn files_are_read_from_their_directory() {
    let list = vec![
        source("dir/a.qc", "$modelname \"x.mdl\"\n$include \"b.qci\"\n"),
        source("dir/b.qci", "$surfaceprop \"wood\"\n"),
    ];
    match parse_qc_file("dir/a.qc", list) {
        Ok(d) => {
            assert_eq!(d.name, "x.mdl");
            assert_eq!(d.surface_prop.as_deref(), Some("wood"));
        }
        Err(e) => panic!("{}", e[0].describe()),
    }
}

#[test]
fn scripts_that_are_not_there_are_errors() {
    match parse_qc_file("none.qc", Vec::new()) {
        Ok(_) => panic!("there is no such script"),
        Err(e) => {
            assert_eq!(e[0].line, 0);
            assert!(e[0].message.contains("读不到 QC 文件"));
        }
    }
}

#[test]
fn errors_name_the_line() {
    match read("$modelname a.mdl\n\n$bogus\n") {
        Ok(_) => panic!("must fail"),
        Err(e) => assert_eq!(e[0].line, 3),
    }
}

#[test]
fn driven_bones_are_read() {
    let list = parse_vrd(
        "// driven\nbone elbow arm\nbasepos 1 2 3\ntrigger 90 0 0 0 0 0 0\n\
         trigger 45 0 90 0 0 45 0 1 2 3\nTRIGGER 1 2\n",
    );
    assert_eq!(list.len(), 1);
    assert_eq!(list[0].base_pos, Some(vector(1.0, 2.0, 3.0)));
    assert_eq!(list[0].triggers.len(), 2);
    assert_eq!(list[0].bone, "elbow");
    assert_eq!(list[0].control, "arm");
    assert_eq!(list[0].triggers[0].pos, None);
    assert_eq!(list[0].triggers[1].tolerance, bits(45.0));
    assert_eq!(list[0].triggers[1].angles, vector(0.0, 45.0, 0.0));
    assert_eq!(list[0].triggers[1].pos, Some(vector(1.0, 2.0, 3.0)));
}

#[test]
fn numbers_are_read_as_the_standard_library_reads_them() {
    for s in [
        "0", "-0", "1", "1.5", "-2.25", "1e10", "1e-10", "3.4028236e38", "1e39", "1e-46", ".5",
        "5.", "0.1", "16777217", "0.000000059604645", "123456789.123456789", "1.17549435e-38",
        "inf", "-infinity", "abc", "", "1e", "--1", "1 2",
    ] {
        let want = s.parse::<f32>().ok();
        let got = mdlc::single::parse(s);
        assert_eq!(got, want.map(f32::to_bits), "{s:?}");
    }
    assert_eq!(parse_i("12"), Some(12));
    assert_eq!(parse_i("x"), Some(0));
    assert_eq!(parse_i("30fps"), Some(30));
    assert_eq!(parse_i("abc"), Some(0));
    assert_eq!(parse_i("-7"), Some(-7));
    assert_eq!(parse_f("2.5"), Some(bits(2.5)));
}

#[test]
fn commands_for_other_tools_are_passed_over() {
    ok("$skinnedLODs\n");
    ok("$minlod\n");
    ok("\"$fakevta \" a b\n");
}

#[test]
fn parents_are_found_by_their_number() {
    let mesh = "version 1\nnodes\n1 tip 0\n0 root -1\nend\n";
    let d = match parse_qc_str("$body b m.smd\n", ".", vec![source("./m.smd", mesh)]) {
        Ok(d) => d,
        Err(e) => panic!("{}", e[0].describe()),
    };
    let names: Vec<&str> = d.bones.iter().map(|b| b.name.as_str()).collect();
    assert_eq!(names, vec!["root", "tip"]);
    assert_eq!(d.bones[0].parent, None);
    assert_eq!(d.bones[1].parent.as_deref(), Some("root"));
}

#[test]
fn bones_that_a_frame_leaves_out_stand_at_rest_in_radians() {
    let d = ok("$definebone a \"\" 1 2 3 90 0 -180\n$body b mesh.smd\n");
    let i = d.bones.iter().position(|b| b.name == "a").unwrap();
    let p = &sequence_pose_world(&d.bones, &Vec::new())[i];
    let turned = d.bones[i].rotation.clone().unwrap();
    let want = [turned.x, turned.y, turned.z];
    for k in 0..3 {
        assert_eq!(
            f32::from_bits(p.rotation[k]),
            f32::from_bits(want[k]).to_radians()
        );
    }
    assert!(p.rotation.iter().any(|&r| r != 0));
}

#[test]
fn files_that_cannot_be_read_tell_the_reason() {
    let failed = |path: &str, missing: bool, reason: &str| Source {
        path: path.to_string(),
        bytes: Vec::new(),
        failure: Some(ReadFailure {
            missing,
            reason: reason.to_string(),
        }),
    };
    let e = match parse_qc_str(
        "$body b m.smd\n",
        ".",
        vec![failed("./m.smd", true, "No such file or directory (os error 2)")],
    ) {
        Ok(_) => panic!("there is no such mesh"),
        Err(e) => e,
    };
    assert_eq!(
        e[0].message,
        "读不到 SMD（QC 里引用了它）：No such file or directory (os error 2)"
    );
    let text = "$proceduralbones a.vrd\n";
    assert!(parse_qc_str(text, ".", vec![failed("./a.vrd", true, "gone")]).is_ok());
    let e = match parse_qc_str(text, ".", vec![failed("./a.vrd", false, "locked")]) {
        Ok(_) => panic!("the file is locked"),
        Err(e) => e,
    };
    assert_eq!(e[0].message, "读不到 VRD ./a.vrd：locked");
    match parse_qc_file("a.qc", vec![failed("a.qc", false, "locked")]) {
        Ok(_) => panic!("the file is locked"),
        Err(e) => assert_eq!(e[0].message, "读不到 QC 文件：locked"),
    }
}

#[test]
fn bones_that_are_not_there_are_told_once_each_in_order() {
    let text = "$body b mesh.smd\n$lod 10 {\n bonetreecollapse zoe\n bonetreecollapse ann\n replacebone ann bob\n}\n$lod 20 {\n bonetreecollapse ann\n}\n";
    let mut lex = Lexer::new(".".to_string(), sources());
    lex.load_from_memory(text, "<test>");
    let mut p = Parser::new(lex, "<test>");
    match p.run() {
        Ok(_) => {}
        Err(e) => panic!("{}", e[0].describe()),
    }
    assert_eq!(p.skipped_bones, vec!["ann", "ann → bob", "zoe"]);
}

#[test]
fn weights_of_places_are_told() {
    fails(
        "$weightlist w {\n a 0\n posweight 0.25\n}\n",
        "骨骼 \"a\" 的旋转权重为 0 而位置权重为 0.25 —— 官方不允许",
    );
}
