use mdlc::qc::lexer::{Lexer, ReadFailure, Source};

fn source(path: &str, text: &str) -> Source {
    Source {
        path: path.to_string(),
        bytes: text.as_bytes().to_vec(),
        failure: None,
    }
}

fn lex(text: &str) -> Lexer {
    let mut l = Lexer::new(".".to_string(), Vec::new());
    l.load_from_memory(text, "<test>");
    l
}

fn all(text: &str) -> Vec<String> {
    let mut l = lex(text);
    let mut out = Vec::new();
    loop {
        match l.next_token(true) {
            Ok(Some(t)) => out.push(t.text),
            Ok(None) => break,
            Err(e) => panic!("{}", e.describe()),
        }
    }
    out
}

#[test]
fn bare_cr_is_whitespace_not_newline() {
    let toks = all("$bbox 1 2 3 4 5 6\r$definebone \"tip\" \"root\"\n");
    assert_eq!(
        toks,
        vec!["$bbox", "1", "2", "3", "4", "5", "6", "$definebone", "tip", "root"],
        "裸 CR 不得结束行 —— $definebone 会被 $bbox 吃掉"
    );

    let toks = all("$bbox 1 2 3 4 5 6\r\n$definebone \"tip\"\n");
    assert_eq!(
        toks,
        vec!["$bbox", "1", "2", "3", "4", "5", "6", "$definebone", "tip"],
        "CRLF 必须正常分行"
    );
}

#[test]
fn semicolon_terminates_token_but_hash_does_not() {
    let toks = all("abc;def\nghi\n");
    assert_eq!(toks, vec!["abc", "ghi"], "`;` 必须结束 token 并起注释");

    let toks = all("abc#def\nghi\n");
    assert_eq!(
        toks,
        vec!["abc#def", "ghi"],
        "`#` 不结束 token（只在本行**起始**处才起注释）"
    );

    let toks = all("# comment line\nreal\n");
    assert_eq!(toks, vec!["real"], "行首 `#` 起注释");

    let toks = all("real // trailing\nnext\n");
    assert_eq!(toks, vec!["real", "next"], "`//` 起注释");
}

#[test]
fn include_resolves_against_qdir_not_pushd() {
    let sources = vec![source("models/includes/inner.qci", "$surfaceprop \"metal\"\n")];
    let mut l = Lexer::new("models".to_string(), sources);
    l.load_from_memory("$include includes/inner.qci\n$contents \"solid\"\n", "<test>");
    let mut out = Vec::new();
    loop {
        match l.next_token(true) {
            Ok(Some(t)) => out.push(t.text),
            Ok(None) => break,
            Err(e) => panic!("{}", e.describe()),
        }
    }
    assert_eq!(
        out,
        vec!["$surfaceprop", "metal", "$contents", "solid"],
        "$include 应相对 qdir 解析并展开"
    );
    assert_eq!(l.loaded_files.len(), 1, "应记录被 include 的文件");
}

#[test]
fn files_are_taken_in_from_the_first_directory() {
    let sources = vec![
        source("models/includes/inner.qci", "$surfaceprop \"metal\"\n"),
        source("models/anims/includes/inner.qci", "$surfaceprop \"wood\"\n"),
    ];
    let mut l = Lexer::new("models".to_string(), sources);
    l.load_from_memory("$pushd anims\n$include includes/inner.qci\n$contents \"solid\"\n", "<test>");
    let mut out = Vec::new();
    loop {
        match l.next_token(true) {
            Ok(Some(t)) => out.push(t.text),
            Ok(None) => break,
            Err(e) => panic!("{}", e.describe()),
        }
    }
    assert_eq!(out, vec!["$pushd", "anims", "$surfaceprop", "metal", "$contents", "solid"]);
    assert_eq!(l.loaded_files.len(), 1);
}

#[test]
fn variable_match_compares_only_len_minus_2_chars() {
    let toks = all("$definevariable scale 0.922246\n$contents $sca$\n");
    assert_eq!(
        toks,
        vec!["$contents", "0.922246"],
        "`$sca$` 只比 1 个字符，应与 `scale` 命中"
    );

    let toks = all("$definevariable scale 0.922246\n$contents $scale$\n");
    assert_eq!(toks, vec!["$contents", "0.922246"], "`$scale$` 应正常命中");

    let toks = all("$definevariable scale 0.5\n$contents $z$\n");
    assert_eq!(
        toks,
        vec!["$contents", "0.5"],
        "长度 < 2 的引用名按 0 字符比较 ⟹ 第一个变量总命中"
    );

    let mut l = lex("$definevariable scale 0.9\n$contents $zzzzzzzzzzz$\n");
    let mut err = None;
    loop {
        match l.next_token(true) {
            Ok(Some(_)) => {}
            Ok(None) => break,
            Err(e) => {
                err = Some(e);
                break;
            }
        }
    }
    let e = err.expect("引用名过长必须不命中 ⟹ 报错");
    assert!(
        e.message.contains("未知的变量"),
        "n 由引用名长度决定；引用名过长应不命中，实际：{}",
        e.message
    );

    let mut l = lex("$definevariable scale 0.9\n$contents $other$\n");
    let mut err = None;
    loop {
        match l.next_token(true) {
            Ok(Some(_)) => {}
            Ok(None) => break,
            Err(e) => {
                err = Some(e);
                break;
            }
        }
    }
    let e = err.expect("前缀不同必须报错");
    assert!(
        e.message.contains("未知的变量"),
        "错误信息应指出未知变量，实际：{}",
        e.message
    );
}

#[test]
fn variable_expands_inside_bare_token() {
    let toks = all("$definevariable Bone \"ValveBiped.Bip01_\"\n$bonesaveframe $Bone$Pelvis position\n");
    assert_eq!(
        toks,
        vec!["$bonesaveframe", "ValveBiped.Bip01_Pelvis", "position"],
        "变量应嵌进裸 token 里展开"
    );
}

#[test]
fn variable_is_not_expanded_inside_quotes() {
    let toks =
        all("$definevariable Bone \"ValveBiped.Bip01_\"\n$attachment \"a\" \"$Bone$Hand\"\n");
    assert_eq!(
        toks,
        vec!["$attachment", "a", "$Bone$Hand"],
        "引号里的 `$Bone$` 必须**原样保留**，不展开"
    );
}

#[test]
fn double_backslash_is_a_plain_token_not_a_continuation() {
    let toks = all("%mouth = %A * 0.5 \\\\\n+ %B * 0.35\n");
    assert_eq!(
        toks,
        vec!["%mouth", "=", "%A", "*", "0.5", "\\\\", "+", "%B", "*", "0.35"],
        "`\\\\` 必须是普通 token（只有 flexrule 解析器赋予它续行语义）"
    );
}

#[test]
fn double_backslash_inside_comment_is_harmless() {
    let src = "// ====\\\\\n// table \\\\\n$surfaceprop \"metal\"\n";
    let toks = all(src);
    assert_eq!(
        toks,
        vec!["$surfaceprop", "metal"],
        "注释里的 `\\\\` 不得吃掉下一行"
    );
}

#[test]
fn failed_reads_tell_the_reason() {
    let mut list = vec![source("models/a.qci", "")];
    list[0].failure = Some(ReadFailure {
        missing: false,
        reason: "Permission denied (os error 13)".to_string(),
    });
    let mut l = Lexer::new("models".to_string(), list);
    l.load_from_memory("$include a.qci\n", "<test>");
    let e = l.next_token(true).unwrap_err();
    assert_eq!(
        e.message,
        "$include 找不到 a.qci（models/a.qci）：Permission denied (os error 13)"
    );
    let e = l.load("models/a.qci").unwrap_err();
    assert_eq!(e.message, "读不到 QC 文件：Permission denied (os error 13)");
}

#[test]
fn byte_order_mark_changes_no_token() {
    assert_eq!(all("\u{feff}a b\n"), vec!["a", "b"]);
    let mut l = lex("\u{feff}a\n");
    assert_eq!(l.location(), ("<test>".to_string(), 1));
    assert!(!l.end_of_script.get());
    assert_eq!(l.next_token(true).unwrap().map(|t| t.text), Some("a".to_string()));
    assert!(l.next_token(true).unwrap().is_none());
    assert!(l.end_of_script.get());
}

#[test]
fn missing_include_is_an_error_not_a_silent_skip() {
    let mut l = lex("$include nope_missing_file.qci\n");
    let err = loop {
        match l.next_token(true) {
            Ok(Some(_)) => continue,
            Ok(None) => panic!("必须报错，而不是静默结束"),
            Err(e) => break e,
        }
    };
    assert!(
        err.message.contains("$include 找不到"),
        "应报 $include 找不到，实际：{}",
        err.message
    );
}

#[test]
fn quoted_and_bare_tokens() {
    let mut l = lex("$modelname \"mymod/ip.mdl\"\n$cdmaterials models/mymod\n");
    let t1 = l.next_token(true).unwrap().unwrap();
    assert_eq!(t1.text, "$modelname");
    assert!(!t1.quoted);
    let t2 = l.next_token(true).unwrap().unwrap();
    assert_eq!(t2.text, "mymod/ip.mdl");
    assert!(t2.quoted, "引号 token 必须被标记");
    let t3 = l.next_token(true).unwrap().unwrap();
    assert_eq!(t3.text, "$cdmaterials");
    let t4 = l.next_token(true).unwrap().unwrap();
    assert_eq!(t4.text, "models/mymod");
    assert!(!t4.quoted);
}

#[test]
fn block_comment_spans_lines() {
    let toks = all("$a 1\n/* $b 2\n   $c 3 */\n$d 4\n");
    assert_eq!(toks, vec!["$a", "1", "$d", "4"], "块注释内容不得产出 token");
}

#[test]
fn token_available_respects_line_boundary() {
    let mut l = lex("$a 1 2\n$b\n");
    assert!(l.token_available(), "行首应有 token");
    let _ = l.next_token(true).unwrap(); // $a
    assert!(l.token_available());
    let _ = l.next_token(true).unwrap(); // 1
    assert!(l.token_available());
    let _ = l.next_token(true).unwrap(); // 2
    assert!(!l.token_available(), "行尾（\\n 之后）不应再有 token");
}

#[test]
fn line_numbers_are_tracked() {
    let mut l = lex("$a\n$b\n\n$c\n");
    assert_eq!(l.next_token(true).unwrap().unwrap().line, 1);
    assert_eq!(l.next_token(true).unwrap().unwrap().line, 2);
    assert_eq!(l.next_token(true).unwrap().unwrap().line, 4);
}

#[test]
fn utf8_tokens_survive() {
    let toks = all("$surfaceprop \"金属\"\n// 中文注释\n$contents \"solid\"\n");
    assert_eq!(toks, vec!["$surfaceprop", "金属", "$contents", "solid"]);
}

#[test]
fn file_without_trailing_newline() {
    let toks = all("$surfaceprop \"metal\"");
    assert_eq!(toks, vec!["$surfaceprop", "metal"]);
}

#[test]
fn empty_input_is_fine() {
    assert!(all("").is_empty());
}

#[test]
fn unget_returns_the_same_token() {
    let mut l = lex("$a $b\n");
    let t = l.next_token(true).unwrap().unwrap();
    l.unget(t.clone());
    let again = l.next_token(true).unwrap().unwrap();
    assert_eq!(t, again, "unget 后必须取到同一个 token");
}
