use mdlc::qc::error::QcError;
use mdlc::qc::flexrule::{
    c_atof_prefix, parse_flexrule, FlexOp, FlexOpKind, FlexRule, MAX_OPS,
};
use mdlc::qc::lexer::{Lexer, Source};
use mdlc::qc::parse::parse_qc_str;

fn c(v: f32) -> FlexOp {
    FlexOp {
        op: FlexOpKind::Const,
        value: Some(v.to_bits()),
        controller: None,
        flexdesc: None,
    }
}

fn f1(name: &str) -> FlexOp {
    FlexOp {
        op: FlexOpKind::Fetch1,
        value: None,
        controller: Some(name.to_string()),
        flexdesc: None,
    }
}

fn f2(name: &str) -> FlexOp {
    FlexOp {
        op: FlexOpKind::Fetch2,
        value: None,
        controller: None,
        flexdesc: Some(name.to_string()),
    }
}

fn o(kind: FlexOpKind) -> FlexOp {
    FlexOp {
        op: kind,
        value: None,
        controller: None,
        flexdesc: None,
    }
}

fn run(text: &str, controllers: &[&str], flexdescs: &[&str]) -> Result<FlexRule, QcError> {
    let mut lex = Lexer::new(".".to_string(), Vec::new());
    lex.load_from_memory(text, "<test>");
    let head = lex.expect_token(false).expect("夹具应能取到 %name");
    assert_eq!(head.text, "%a", "夹具必须真的以 `%a` 开头");
    let ctrls: Vec<String> = controllers.iter().map(|s| s.to_string()).collect();
    let descs: Vec<String> = flexdescs.iter().map(|s| s.to_string()).collect();
    parse_flexrule(&mut lex, "a", &ctrls, &descs)
}

fn expect_ops(text: &str, controllers: &[&str], flexdescs: &[&str], want: &[FlexOp]) {
    assert!(
        !want.is_empty(),
        "测试夹具本身不能是空序列（否则断言恒真）：{text}"
    );
    let r = run(text, controllers, flexdescs)
        .unwrap_or_else(|e| panic!("`{text}`: {}", e.describe()));
    assert_eq!(r.flex, "a", "flex 名应原样回填");
    assert!(
        !r.ops.is_empty(),
        "`{text}` 必须产出非空 op 序列（空序列会让下面的断言失去意义）"
    );
    assert_eq!(r.ops, want, "`{text}` 的 op 序列不符");
}

fn expect_err(text: &str, controllers: &[&str], flexdescs: &[&str], needle: &str) {
    match run(text, controllers, flexdescs) {
        Ok(r) => panic!(
            "`{text}` 应报错，实际得到 {} 个 op：{:?}",
            r.ops.len(),
            r.ops
        ),
        Err(e) => assert!(
            e.message.contains(needle),
            "`{text}` 的错误信息应含 {needle:?}，实际：{}",
            e.message
        ),
    }
}

const CTRLS: &[&str] = &["ctrl"];
const DESCS: &[&str] = &["b", "c", "d"];

#[test]
fn plain_constant() {
    expect_ops("%a = 0.5\n", CTRLS, DESCS, &[c(0.5)]);
}

#[test]
fn fetch2_times_constant() {
    expect_ops(
        "%a = %b * 0.5\n",
        CTRLS,
        DESCS,
        &[f2("b"), c(0.5), o(FlexOpKind::Mul)],
    );
}

#[test]
fn fetch2_plus_fetch2() {
    expect_ops(
        "%a = %b + %c\n",
        CTRLS,
        DESCS,
        &[f2("b"), f2("c"), o(FlexOpKind::Add)],
    );
}

#[test]
fn multiplication_binds_tighter_than_addition() {
    expect_ops(
        "%a = %b + %c * 0.5\n",
        CTRLS,
        DESCS,
        &[
            f2("b"),
            f2("c"),
            c(0.5),
            o(FlexOpKind::Mul),
            o(FlexOpKind::Add),
        ],
    );
}

#[test]
fn subtraction_is_left_associative() {
    expect_ops(
        "%a = %b - %c - %d\n",
        CTRLS,
        DESCS,
        &[
            f2("b"),
            f2("c"),
            o(FlexOpKind::Sub),
            f2("d"),
            o(FlexOpKind::Sub),
        ],
    );
}

#[test]
fn division_is_left_associative() {
    expect_ops(
        "%a = %b / %c / 0.5\n",
        CTRLS,
        DESCS,
        &[
            f2("b"),
            f2("c"),
            o(FlexOpKind::Div),
            c(0.5),
            o(FlexOpKind::Div),
        ],
    );
}

#[test]
fn leading_minus_stays_binary_sub_not_neg() {
    expect_ops("%a = -%b\n", CTRLS, DESCS, &[f2("b"), o(FlexOpKind::Sub)]);
}

#[test]
fn leading_minus_on_constant_is_not_negated() {
    expect_ops("%a = -0.5\n", CTRLS, DESCS, &[c(0.5), o(FlexOpKind::Sub)]);
}

#[test]
fn neg_before_constant_folds_into_the_constant() {
    expect_ops(
        "%a = 0 + -0.5\n",
        CTRLS,
        DESCS,
        &[c(0.0), c(-0.5), o(FlexOpKind::Add)],
    );
}

#[test]
fn neg_folding_works_after_mul() {
    expect_ops(
        "%a = %b * -0.5\n",
        CTRLS,
        DESCS,
        &[f2("b"), c(-0.5), o(FlexOpKind::Mul)],
    );
}

#[test]
fn neg_is_emitted_when_followed_by_a_fetch() {
    expect_ops(
        "%a = %b * -%c\n",
        CTRLS,
        DESCS,
        &[f2("b"), f2("c"), o(FlexOpKind::Neg), o(FlexOpKind::Mul)],
    );
}

#[test]
fn neg_is_popped_by_a_lower_precedence_operator() {
    expect_ops(
        "%a = 0 + -%b * %c\n",
        CTRLS,
        DESCS,
        &[
            c(0.0),
            f2("b"),
            o(FlexOpKind::Neg),
            f2("c"),
            o(FlexOpKind::Mul),
            o(FlexOpKind::Add),
        ],
    );
}

#[test]
fn max_eats_its_comma() {
    expect_ops(
        "%a = max(%b, %c)\n",
        CTRLS,
        DESCS,
        &[f2("b"), f2("c"), o(FlexOpKind::Max)],
    );
}

#[test]
fn min_eats_its_comma() {
    expect_ops(
        "%a = min(%b, %c)\n",
        CTRLS,
        DESCS,
        &[f2("b"), f2("c"), o(FlexOpKind::Min)],
    );
}

#[test]
fn max_keyword_is_case_insensitive() {
    expect_ops(
        "%a = MAX(%b, %c)\n",
        CTRLS,
        DESCS,
        &[f2("b"), f2("c"), o(FlexOpKind::Max)],
    );
    expect_ops(
        "%a = MiN(%b, %c)\n",
        CTRLS,
        DESCS,
        &[f2("b"), f2("c"), o(FlexOpKind::Min)],
    );
}

#[test]
fn max_combined_with_arithmetic() {
    expect_ops(
        "%a = max(%b, %c) * 0.5\n",
        CTRLS,
        DESCS,
        &[
            f2("b"),
            f2("c"),
            o(FlexOpKind::Max),
            c(0.5),
            o(FlexOpKind::Mul),
        ],
    );
}

#[test]
fn nested_max_eats_both_commas() {
    expect_ops(
        "%a = max(min(%b, %c), %d)\n",
        CTRLS,
        DESCS,
        &[
            f2("b"),
            f2("c"),
            o(FlexOpKind::Min),
            f2("d"),
            o(FlexOpKind::Max),
        ],
    );
}

#[test]
fn max_without_comma_is_missing_comma() {
    expect_err("%a = max(%b)\n", CTRLS, DESCS, "missing comma");
}

#[test]
fn surplus_comma_is_rejected() {
    expect_err("%a = max(%b, %c, %d)\n", CTRLS, DESCS, "too many comma's");
}

#[test]
fn bare_comma_is_rejected() {
    expect_err("%a = %b, %c\n", CTRLS, DESCS, "too many comma's");
}

#[test]
fn parentheses_override_precedence() {
    expect_ops(
        "%a = (%b + %c) * 0.5\n",
        CTRLS,
        DESCS,
        &[
            f2("b"),
            f2("c"),
            o(FlexOpKind::Add),
            c(0.5),
            o(FlexOpKind::Mul),
        ],
    );
}

#[test]
fn nested_parentheses() {
    expect_ops(
        "%a = ((%b + %c) * %d)\n",
        CTRLS,
        DESCS,
        &[
            f2("b"),
            f2("c"),
            o(FlexOpKind::Add),
            f2("d"),
            o(FlexOpKind::Mul),
        ],
    );
}

#[test]
fn unmatched_close_paren_is_rejected() {
    expect_err("%a = %b)\n", CTRLS, DESCS, "unmatched closed parentheses");
}

#[test]
fn unclosed_open_paren_is_emitted_as_an_op() {
    expect_ops(
        "%a = (%b + %c\n",
        CTRLS,
        DESCS,
        &[f2("b"), f2("c"), o(FlexOpKind::Add), o(FlexOpKind::Open)],
    );
}

#[test]
fn bare_identifier_is_a_flexcontroller_fetch() {
    expect_ops(
        "%a = ctrl * 0.5\n",
        CTRLS,
        DESCS,
        &[f1("ctrl"), c(0.5), o(FlexOpKind::Mul)],
    );
}

#[test]
fn controller_lookup_is_case_insensitive_but_returns_registered_name() {
    expect_ops(
        "%a = CTRL * 0.5\n",
        CTRLS,
        DESCS,
        &[f1("ctrl"), c(0.5), o(FlexOpKind::Mul)],
    );
}

#[test]
fn flexdesc_lookup_is_case_insensitive() {
    expect_ops(
        "%a = %B * 0.5\n",
        CTRLS,
        DESCS,
        &[f2("b"), c(0.5), o(FlexOpKind::Mul)],
    );
}

#[test]
fn controller_index_follows_registration_order() {
    expect_ops(
        "%a = mid * 0.5\n",
        &["first", "mid", "last"],
        DESCS,
        &[f1("mid"), c(0.5), o(FlexOpKind::Mul)],
    );
}

#[test]
fn unknown_controller_is_rejected() {
    expect_err("%a = nope * 0.5\n", CTRLS, DESCS, "unknown controller nope");
}

#[test]
fn unknown_flex_is_rejected() {
    expect_err("%a = %nope * 0.5\n", CTRLS, DESCS, "unknown flex nope");
}

#[test]
fn leading_dot_number_is_not_a_constant() {
    expect_err("%a = .5\n", CTRLS, DESCS, "unknown controller .5");
}

#[test]
fn malformed_number_takes_the_longest_valid_prefix() {
    expect_ops("%a = 1.2.3\n", CTRLS, DESCS, &[c(1.2)]);
}

#[test]
fn trailing_dot_is_accepted() {
    expect_ops("%a = 12.\n", CTRLS, DESCS, &[c(12.0)]);
}

#[test]
fn integer_constant() {
    expect_ops("%a = 3\n", CTRLS, DESCS, &[c(3.0)]);
}

#[test]
fn expression_without_spaces_is_split_by_c_operator_rules() {
    expect_ops(
        "%a = %b+%c\n",
        CTRLS,
        DESCS,
        &[f2("b"), f2("c"), o(FlexOpKind::Add)],
    );
}

#[test]
fn no_space_between_operator_and_number() {
    expect_ops(
        "%a = %b*0.5\n",
        CTRLS,
        DESCS,
        &[f2("b"), c(0.5), o(FlexOpKind::Mul)],
    );
}

#[test]
fn fully_unspaced_max_call() {
    expect_ops(
        "%a = max(%b,%c)\n",
        CTRLS,
        DESCS,
        &[f2("b"), f2("c"), o(FlexOpKind::Max)],
    );
}

#[test]
fn hash_terminates_the_expression_mid_token() {
    expect_ops("%a = %b#c\n", CTRLS, DESCS, &[f2("b")]);
}

#[test]
fn double_slash_terminates_the_expression() {
    expect_ops("%a = %b//c\n", CTRLS, DESCS, &[f2("b")]);
}

#[test]
fn spaced_hash_comment_is_ignored() {
    expect_ops("%a = %b # 随便写点什么\n", CTRLS, DESCS, &[f2("b")]);
}

#[test]
fn expression_ends_at_end_of_line() {
    let mut lex = Lexer::new(".".to_string(), Vec::new());
    lex.load_from_memory("%a = %b * 0.5\n$modelname \"x\"\n", "<test>");
    assert_eq!(lex.expect_token(false).unwrap().text, "%a");
    let r = parse_flexrule(&mut lex, "a", &Vec::new(), &vec!["b".to_string()]).unwrap();
    assert!(!r.ops.is_empty(), "必须产出非空 op 序列");
    assert_eq!(r.ops, vec![f2("b"), c(0.5), o(FlexOpKind::Mul)]);
    assert_eq!(lex.expect_token(true).unwrap().text, "$modelname");
}

#[test]
fn backslash_backslash_continues_the_expression() {
    expect_ops(
        "%a = %b + \\\\\n     %c\n",
        CTRLS,
        DESCS,
        &[f2("b"), f2("c"), o(FlexOpKind::Add)],
    );
}

#[test]
fn chained_continuations() {
    expect_ops(
        "%a = %b + \\\\\n     %c * \\\\\n     0.5\n",
        CTRLS,
        DESCS,
        &[
            f2("b"),
            f2("c"),
            c(0.5),
            o(FlexOpKind::Mul),
            o(FlexOpKind::Add),
        ],
    );
}

#[test]
fn single_backslash_is_not_a_continuation() {
    expect_err(
        "%a = %b + \\ %c\n",
        CTRLS,
        DESCS,
        "unknown expression token",
    );
}

#[test]
fn backslash_letter_is_not_a_continuation() {
    expect_err(
        "%a = %b + \\foo\n",
        CTRLS,
        DESCS,
        "unknown expression token",
    );
}

#[test]
fn continuation_inside_a_shared_token() {
    expect_ops(
        "%a = %b+\\\\\n     %c\n",
        CTRLS,
        DESCS,
        &[f2("b"), f2("c"), o(FlexOpKind::Add)],
    );
}

#[test]
fn continuation_with_space_between_backslashes() {
    expect_ops(
        "%a = %b + \\ \\\n     %c\n",
        CTRLS,
        DESCS,
        &[f2("b"), f2("c"), o(FlexOpKind::Add)],
    );
}

#[test]
fn empty_expression_yields_zero_ops_without_error() {
    let r = run("%a =\n", CTRLS, DESCS).expect("空表达式不报错");
    assert_eq!(r.ops, Vec::<FlexOp>::new(), "空表达式应恰好产出 0 个 op");
    assert_eq!(r.flex, "a");
}

#[test]
fn runaway_open_parens_are_capped() {
    let text = format!("%a = {}%b\n", "(".repeat(MAX_OPS + 10));
    match run(&text, CTRLS, DESCS) {
        Ok(r) => panic!("应报 too complicated，实际成功并产出 {} 个 op", r.ops.len()),
        Err(e) => assert!(
            e.message.contains("too complicated"),
            "应报 too complicated，实际：{}",
            e.message
        ),
    }
}

#[test]
fn percent_and_name_may_be_separated_by_space() {
    expect_ops(
        "%a = % b * 0.5\n",
        CTRLS,
        DESCS,
        &[f2("b"), c(0.5), o(FlexOpKind::Mul)],
    );
}

#[test]
fn atof_prefix_edge_cases() {
    assert_eq!(c_atof_prefix("0.5"), 0.5f32.to_bits());
    assert_eq!(c_atof_prefix("12."), 12.0f32.to_bits());
    assert_eq!(c_atof_prefix("1.2.3"), 1.2f32.to_bits());
    assert_eq!(c_atof_prefix("."), 0.0f32.to_bits());
    assert_eq!(c_atof_prefix("007"), 7.0f32.to_bits());
}

#[test]
fn end_to_end_through_parse_qc() {
    const MIN_SMD: &str = "\
version 1
nodes
0 \"root\" -1
end
skeleton
time 0
0 0.0 0.0 0.0 0.0 0.0 0.0
end
triangles
mat
0 0.0 0.0 0.0 0.0 0.0 1.0 0.0 1.0 1 0 1.0
0 1.0 0.0 0.0 0.0 0.0 1.0 1.0 1.0 1 0 1.0
0 0.0 1.0 0.0 0.0 0.0 1.0 0.0 0.0 1 0 1.0
end
";
    let sources = vec![Source { path: "qc/test.smd".to_string(), bytes: MIN_SMD.as_bytes().to_vec(), failure: None }];

    let qc = "\
$modelname \"test.mdl\"\n\
$model \"body\" \"test.smd\" {\n\
localvar b c\n\
flexcontroller lid range 0 1 ctrl\n\
%a = %b * 0.5 + ctrl\n\
}\n";
    let result = parse_qc_str(qc, "qc", sources);
    let desc = result.unwrap_or_else(|errs| panic!("QC 应解析成功，实际：{errs:?}"));

    assert_eq!(
        desc.flex_descriptors
            .iter()
            .map(|d| d.as_str())
            .collect::<Vec<_>>(),
        vec!["b", "c"],
        "`$localvar` 应注册两个 flexdesc"
    );
    assert_eq!(
        desc.flex_controllers
            .iter()
            .map(|c| c.name.as_str())
            .collect::<Vec<_>>(),
        vec!["ctrl"],
        "`flexcontroller` 应注册一个控制器"
    );

    assert_eq!(desc.flex_rules.len(), 1, "应恰好解析出 1 条 flexrule");
    let rule = &desc.flex_rules[0];
    assert_eq!(rule.flex, "a", "目标 flex 名应为 `a`（`%` 已剥掉）");
    assert!(!rule.ops.is_empty(), "op 序列必须非空");
    assert_eq!(
        rule.ops,
        vec![
            f2("b"),
            c(0.5),
            o(FlexOpKind::Mul),
            f1("ctrl"),
            o(FlexOpKind::Add)
        ],
        "`%b * 0.5 + ctrl` 的后缀序列不符"
    );
}

#[test]
fn a_rule_on_two_lines_is_the_rule_on_one() {
    let ops = [f2("b"), f2("c"), c(0.5), o(FlexOpKind::Mul), o(FlexOpKind::Add)];
    expect_ops("%a = %b + %c * 0.5\n", CTRLS, DESCS, &ops);
    expect_ops("%a = \\\\\n%b + %c * 0.5\n", CTRLS, DESCS, &ops);
    expect_ops("%a = %b \\\\\n+ %c * 0.5\n", CTRLS, DESCS, &ops);
    expect_ops("%a = %b + %c * \\\\\n0.5\n", CTRLS, DESCS, &ops);
}

#[test]
fn numbers_at_the_start_may_have_a_sign() {
    assert_eq!(c_atof_prefix("-1.5"), (-1.5f32).to_bits());
    assert_eq!(c_atof_prefix("+2x"), 2.0f32.to_bits());
    assert_eq!(c_atof_prefix("-"), 0);
}

/// The operations of a rule behind the definitions of variables.
fn ops_behind(start: &str, rule: &str) -> Result<Vec<FlexOp>, QcError> {
    let mut lex = Lexer::new(".".to_string(), Vec::new());
    lex.load_from_memory(&format!("{start}{rule}"), "<test>");
    let name = lex.next_token(true).unwrap().unwrap();
    assert_eq!(name.text, "%a");
    let descs = DESCS.iter().map(|s| s.to_string()).collect();
    parse_flexrule(&mut lex, "a", &Vec::new(), &descs).map(|r| r.ops)
}

#[test]
fn references_stand_on_either_line() {
    let ops = vec![f2("b"), c(0.5), o(FlexOpKind::Mul), f2("c"), o(FlexOpKind::Add)];
    let start = "$definevariable half 0.5\n$definevariable see \"%c\"\n";
    for rule in [
        "%a = %b * $half$ + $see$\n",
        "%a = %b * $half$ \\\\\n+ $see$\n",
        "%a = %b * \\\\\n$half$ + $see$\n",
        "%a = %b * \\\\ \\\\\n$half$ + $see$\n",
    ] {
        assert_eq!(ops_behind(start, rule).unwrap(), ops, "{rule}");
    }
}

#[test]
fn names_stand_on_the_line_of_their_percent_sign() {
    let start = "$definevariable sign \"*%\"\n";
    assert_eq!(
        ops_behind(start, "%a = %b $sign$ c\n").unwrap(),
        vec![f2("b"), f2("c"), o(FlexOpKind::Mul)]
    );
    let e = ops_behind(start, "%a = %b $sign$ \\\\\nc\n").unwrap_err();
    assert!(e.message.contains("unknown flex"), "{}", e.message);
}

#[test]
fn letters_above_ascii_are_taken_byte_by_byte() {
    let ops = [f1("\u{fffd}"), f1("\u{fffd}"), f2("b"), o(FlexOpKind::Add)];
    expect_ops("%a = é + %b\n", &["\u{fffd}"], DESCS, &ops);
    expect_ops("%a = é \\\\\n+ %b\n", &["\u{fffd}"], DESCS, &ops);
}
