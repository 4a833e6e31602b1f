use mdlc::smd::parse_smd;

fn bits<const N: usize>(v: [f32; N]) -> [u32; N] {
    v.map(|x| x.to_bits())
}

const MINIMAL: &str = r#"version 1
nodes
  0 "root" -1
  1 "tip" 0
end
skeleton
  time 0
    0 0.000000 0.000000 0.000000 0.000000 0.000000 0.000000
    1 0.000000 0.000000 8.000000 0.000000 0.000000 0.000000
end
triangles
myprop
  1 -8.000000 -8.000000 0.000000 0.000000 0.000000 1.000000 0.000000 0.000000 1 1 1.000000
  1 8.000000 -8.000000 0.000000 0.000000 0.000000 1.000000 1.000000 0.000000 1 1 1.000000
  1 0.000000 8.000000 0.000000 0.000000 0.000000 1.000000 0.500000 1.000000 1 1 1.000000
end
"#;

#[test]
fn parses_minimal_smd() {
    let s = parse_smd(MINIMAL).expect("最小 SMD 必须能解析");
    assert_eq!(s.version, 1);
    assert_eq!(s.nodes.len(), 2);
    assert_eq!(s.nodes[0].name, "root");
    assert_eq!(s.nodes[0].parent, -1);
    assert_eq!(s.nodes[1].parent, 0);
    assert_eq!(s.frames.len(), 1);
    assert_eq!(s.frames[0].poses.len(), 2);
    assert_eq!(s.frames[0].poses[1].position, bits([0.0, 0.0, 8.0]));
    assert_eq!(s.triangles.len(), 1);
    assert_eq!(s.triangles[0].material, "myprop");
    assert_eq!(s.triangles[0].vertices[0].position, bits([-8.0, -8.0, 0.0]));
    assert_eq!(s.triangles[0].vertices[0].normal, bits([0.0, 0.0, 1.0]));
    assert_eq!(s.triangles[0].vertices[0].uv, bits([0.0, 1.0]));
    assert_eq!(s.triangles[0].vertices[0].parent_bone, 1);
    assert_eq!(s.triangles[0].vertices[0].links.len(), 1);
    assert_eq!(s.triangles[0].vertices[0].links[0].bone, 1);
    assert_eq!(s.triangles[0].vertices[0].links[0].weight, 1.0f32.to_bits());
}

#[test]
fn rotation_is_radians_not_degrees() {
    let text = MINIMAL.replace(
        "0 0.000000 0.000000 0.000000 0.000000 0.000000 0.000000",
        "0 0.000000 0.000000 0.000000 1.570796 0.000000 0.000000",
    );
    let s = parse_smd(&text).unwrap();
    assert!((f32::from_bits(s.frames[0].poses[0].rotation[0]) - std::f32::consts::FRAC_PI_2).abs() < 1e-5);
}

#[test]
fn multiple_materials_are_collected_in_first_appearance_order() {
    let text = MINIMAL.replace(
        "myprop\n  1 -8.000000",
        "b_mat\n  1 -8.000000",
    ) + "triangles\nz_mat\n  1 0 0 0 0 0 1 0 0 1 1 1.0\n  1 1 0 0 0 0 1 1 0 1 1 1.0\n  1 0 1 0 0 0 1 0 1 1 1 1.0\na_mat\n  1 0 0 0 0 0 1 0 0 1 1 1.0\n  1 1 0 0 0 0 1 1 0 1 1 1.0\n  1 0 1 0 0 0 1 0 1 1 1 1.0\nend\n";
    let s = parse_smd(&text).unwrap();
    assert_eq!(s.materials_in_order(), vec!["b_mat", "z_mat", "a_mat"]);
}

#[test]
fn rejects_index_lines_instead_of_vertices() {
    let bad = MINIMAL.replace(
        "  1 -8.000000 -8.000000 0.000000 0.000000 0.000000 1.000000 0.000000 0.000000 1 1 1.000000\n  1 8.000000 -8.000000 0.000000 0.000000 0.000000 1.000000 1.000000 0.000000 1 1 1.000000\n  1 0.000000 8.000000 0.000000 0.000000 0.000000 1.000000 0.500000 1.000000 1 1 1.000000",
        "0 1 2",
    );
    let e = parse_smd(&bad).unwrap_err();
    assert!(e.message.contains("12 个 token"), "{}", e.describe());
}

#[test]
fn rejects_vertex_line_with_11_tokens() {
    let bad = MINIMAL.replace(
        "  1 -8.000000 -8.000000 0.000000 0.000000 0.000000 1.000000 0.000000 0.000000 1 1 1.000000",
        "  -8.000000 -8.000000 0.000000 0.000000 0.000000 1.000000 0.000000 0.000000 1 1 1.000000",
    );
    let e = parse_smd(&bad).unwrap_err();
    assert!(e.message.contains("12 个 token"), "{}", e.describe());
}

#[test]
fn rejects_incomplete_triangle() {
    let bad = MINIMAL.replace(
        "  1 0.000000 8.000000 0.000000 0.000000 0.000000 1.000000 0.500000 1.000000 1 1 1.000000\n",
        "",
    );
    let e = parse_smd(&bad).unwrap_err();
    assert!(e.message.contains("未成组"), "{}", e.describe());
}

#[test]
fn rejects_missing_version() {
    let bad = MINIMAL.replace("version 1\n", "");
    let e = parse_smd(&bad).unwrap_err();
    assert!(e.message.contains("version"), "{}", e.describe());
}

#[test]
fn rejects_unsupported_version() {
    let bad = MINIMAL.replace("version 1", "version 2");
    let e = parse_smd(&bad).unwrap_err();
    assert!(e.message.contains("只支持 version 1"), "{}", e.describe());
}

#[test]
fn rejects_empty_nodes() {
    let bad = MINIMAL.replace("  0 \"root\" -1\n  1 \"tip\" 0\n", "");
    let e = parse_smd(&bad).unwrap_err();
    assert!(e.message.contains("nodes"), "{}", e.describe());
}

#[test]
fn tolerates_crlf_and_comments_and_missing_final_end() {
    let text = MINIMAL
        .replace('\n', "\r\n")
        .replace("version 1", "// 由某导出器生成\r\nversion 1")
        .trim_end()
        .trim_end_matches("end")
        .to_string();
    let s = parse_smd(&text).expect("CRLF + 注释 + 省略末尾 end 都应容忍");
    assert_eq!(s.triangles.len(), 1);
    assert_eq!(s.frames.len(), 1);
}

#[test]
fn parses_multi_link_weights() {
    let text = MINIMAL.replace(
        "1 1 1.000000\n  1 8.000000",
        "2 1 0.500000 0 0.500000\n  1 8.000000",
    );
    let s = parse_smd(&text).unwrap();
    let l = &s.triangles[0].vertices[0].links;
    assert_eq!(l.len(), 2);
    assert_eq!(l[0].bone, 1);
    assert_eq!(l[0].weight, 0.5f32.to_bits());
    assert_eq!(l[1].bone, 0);
    assert_eq!(l[1].weight, 0.5f32.to_bits());
}

#[test]
fn counts_links_correctly_when_extra_tokens_present() {
    let text = MINIMAL.replace(
        "1 1 1.000000\n  1 8.000000",
        "1 1 1.000000 99 99\n  1 8.000000",
    );
    let s = parse_smd(&text).unwrap();
    assert_eq!(s.triangles[0].vertices[0].links.len(), 1);
    assert_eq!(s.triangles[0].vertices[0].links[0].weight, 1.0f32.to_bits());
}
