use mdlc::vta::parse_vta;

fn bits<const N: usize>(v: [f32; N]) -> [u32; N] {
    v.map(|x| x.to_bits())
}

const MIN: &str = "\
version 1
nodes
0 \"ValveBiped.world\" -1
end
skeleton
time 0
0 0.000000 0.000000 0.000000 0.000000 0.000000 0.000000
time 1
0 0.000000 0.000000 0.000000 0.000000 0.000000 0.000000
end
vertexanimation
time 0
0 1.000000 2.000000 3.000000 0.000000 0.000000 1.000000
time 1
0 1.000000 2.000000 13.000000 0.000000 0.600000 0.800000
end
";

#[test]
fn parses_minimal_vta() {
    let v = parse_vta(MIN).expect("应能解析");
    assert_eq!(v.start_frame, 0);
    assert_eq!(v.end_frame, 1);
    assert_eq!(v.num_frames(), 2);
    assert_eq!(v.num_vertices, 1);
    assert_eq!(v.frames[0][0].pos, bits([1.0, 2.0, 3.0]));
    assert_eq!(v.frames[1][0].pos, bits([1.0, 2.0, 13.0]));
    assert_eq!(v.frames[1][0].normal, bits([0.0, 0.6, 0.8]));
    assert!(v.warnings.is_empty(), "不该有警告：{:?}", v.warnings);
}

#[test]
fn four_field_vertex_line_is_rejected() {
    let bad = MIN.replace(
        "0 1.000000 2.000000 3.000000 0.000000 0.000000 1.000000",
        "0 1.000000 2.000000 3.000000",
    );
    let e = parse_vta(&bad).expect_err("4 字段行必须报错");
    assert!(
        e.message.contains("7 个字段"),
        "错误信息应说明字段数要求，实际：{}",
        e.message
    );
}
#[test]
fn version_must_be_one() {
    let bad = MIN.replace("version 1", "version 2");
    let e = parse_vta(&bad).expect_err("version 2 必须报错");
    assert!(e.message.contains("bad version"), "{}", e.message);
}

#[test]
fn time_out_of_skeleton_range_is_rejected() {
    let bad = MIN.replace("time 1\n0 1.000000", "time 5\n0 1.000000");
    let e = parse_vta(&bad).expect_err("超范围必须报错");
    assert!(e.message.contains("超出 skeleton 范围"), "{}", e.message);
}

#[test]
fn frames_are_relative_to_start_frame() {
    let shifted = "\
version 1
nodes
0 \"w\" -1
end
skeleton
time 2
0 0 0 0 0 0 0
time 3
0 0 0 0 0 0 0
end
vertexanimation
time 2
0 0.000000 0.000000 0.000000 0.000000 0.000000 1.000000
time 3
0 0.000000 0.000000 9.000000 0.000000 0.000000 1.000000
end
";
    let v = parse_vta(shifted).expect("应能解析");
    assert_eq!(v.start_frame, 2);
    assert_eq!(v.num_frames(), 2);
    assert_eq!(v.frame(0).unwrap()[0].pos[2], 0.0f32.to_bits());
    assert_eq!(v.frame(1).unwrap()[0].pos[2], 9.0f32.to_bits());
    assert!(v.frame(2).is_none(), "越界应返回 None");
}

#[test]
fn skeleton_gap_is_rejected() {
    let bad = MIN.replace("time 1\n0 0.000000 0.000000 0.000000 0.000000 0.000000 0.000000", "time 2\n0 0.000000 0.000000 0.000000 0.000000 0.000000 0.000000");
    let e = parse_vta(&bad).expect_err("跳号必须报错");
    assert!(e.message.contains("缺帧"), "{}", e.message);
}

#[test]
fn top_level_unknown_command_is_warning_not_error() {
    let with_extra = MIN.replace("vertexanimation\n", "bogus 1\nvertexanimation\n");
    let v = parse_vta(&with_extra).expect("顶层未知命令不应致命");
    assert!(
        v.warnings.iter().any(|w| w.contains("bogus")),
        "应记录未知命令：{:?}",
        v.warnings
    );
}

#[test]
fn comments_produce_no_warnings() {
    let with_comments = format!("// Created by Crowbar 0.74\n{}", MIN);
    let v = parse_vta(&with_comments).expect("整行注释不应致命");
    assert!(
        v.warnings.is_empty(),
        "整行注释不该产生警告：{:?}",
        v.warnings
    );
    assert_eq!(v.num_frames(), 2, "注释不该影响帧解析");
}

#[test]
fn trailing_hash_comment_is_stripped() {
    let with_hash = MIN
        .replace(
            "time 0\n0 0.000000",
            "time 0 # basis shape key\n0 0.000000",
        )
        .replace("time 1\n0 0.000000", "time 1 # frame01\n0 0.000000");
    let v = parse_vta(&with_hash).expect("行尾 # 注释不该致命");
    assert!(v.warnings.is_empty(), "不该有警告：{:?}", v.warnings);
    assert_eq!(v.start_frame, 0);
    assert_eq!(v.end_frame, 1);
}

#[test]
fn inner_unknown_command_is_fatal() {
    let bad = MIN.replace("vertexanimation\ntime 0", "vertexanimation\nbogus 1\ntime 0");
    let e = parse_vta(&bad).expect_err("块内未知命令必须致命");
    assert!(
        e.message.contains("未知命令"),
        "错误信息应指明是未知命令，实际：{}",
        e.message
    );
}

#[test]
fn missing_skeleton_is_rejected() {
    let no_skel = "\
version 1
vertexanimation
time 0
0 0 0 0 0 0 1
end
";
    assert!(parse_vta(no_skel).is_err());
}

#[test]
fn data_before_time_is_rejected() {
    let bad = MIN.replace(
        "vertexanimation\ntime 0\n",
        "vertexanimation\n0 1.000000 2.000000 3.000000 0.000000 0.000000 1.000000\n",
    );
    let e = parse_vta(&bad).expect_err("缺 time 必须报错");
    assert!(e.message.contains("`time` 之前"), "{}", e.message);
}

#[test]
fn num_vertices_is_max_index_plus_one() {
    let v = parse_vta(MIN).unwrap();
    assert_eq!(v.num_vertices, 1);
    let bigger = MIN.replace("time 1\n0 1.000000", "time 1\n7 1.000000");
    let v2 = parse_vta(&bigger).unwrap();
    assert_eq!(v2.num_vertices, 8);
}

#[test]
fn absent_frame_is_empty_not_error() {
    let sparse = MIN.replace(
        "time 1\n0 1.000000 2.000000 13.000000 0.000000 0.600000 0.800000\n",
        "",
    );
    let v = parse_vta(&sparse).expect("vertexanimation 允许缺帧");
    assert!(v.frame(0).is_some());
    assert!(v.frame(1).unwrap().is_empty(), "缺数据的帧应为空");
}
