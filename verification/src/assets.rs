//! Where to find files that are not part of the project.
use vstd::prelude::*;

use crate::seqs::viewed_if;

verus! {

/// What is known of a file: what a variable says and whether that is there, and whether the usual
/// place is there.
#[derive(Debug, Clone)]
pub struct Lookup {
    /// What the variable says, if it is set.
    pub given: Option<String>,
    /// Whether what it says is there.
    pub given_exists: bool,
    /// Whether the usual place is there.
    pub default_exists: bool,
}

/// What is wrong where a variable names what is not there.
pub open spec fn bad_variable(env_var: Seq<char>, path: Seq<char>) -> Seq<char> {
    env_var + " 指向的路径不存在："@ + path
        + "\n（环境变量已设置但路径无效 —— 这是配置错误，不是「素材缺失」，故直接失败）"@
}

/// The path of a file: what the variable says, else the usual place; `None` where neither is there.
/// A variable that names what is not there is an error.
pub fn asset(env_var: &str, local_default: &str, found: &Lookup) -> (r: Result<
    Option<String>,
    String,
>)
    ensures
        match (found.given, r) {
            (Some(p), Ok(q)) => found.given_exists && viewed_if(q) == Some(p@),
            (Some(p), Err(e)) => !found.given_exists && e@ == bad_variable(env_var@, p@),
            (None, Ok(q)) => viewed_if(q) == if found.default_exists {
                Some(local_default@)
            } else {
                None
            },
            (None, Err(_)) => false,
        },
{
    if let Some(p) = &found.given {
        if found.given_exists {
            return Ok(Some(p.clone()));
        }
        let mut m: String = env_var.to_owned();
        m.push_str(" 指向的路径不存在：");
        m.push_str(p.as_str());
        m.push_str("\n（环境变量已设置但路径无效 —— 这是配置错误，不是「素材缺失」，故直接失败）");
        return Err(m);
    }
    if found.default_exists {
        return Ok(Some(local_default.to_owned()));
    }
    Ok(None)
}

/// What is wrong where a file is in neither place.
pub open spec fn not_found(what: Seq<char>, env_var: Seq<char>, local_default: Seq<char>) -> Seq<
    char,
> {
    "找不到"@ + what + "。\n请设置环境变量 "@ + env_var
        + " 指向它，例如：\n    PowerShell:  $env:"@ + env_var
        + " = 'D:\\path\\to\\asset'\n    bash:        export "@ + env_var
        + "=/path/to/asset\n本机默认路径（当前不存在）："@ + local_default
}

/// The path of a file that must be there.
pub fn require(env_var: &str, local_default: &str, what: &str, found: &Lookup) -> (r: Result<
    String,
    String,
>)
    ensures
        match (found.given, r) {
            (Some(p), Ok(q)) => found.given_exists && q@ == p@,
            (Some(p), Err(e)) => !found.given_exists && e@ == bad_variable(env_var@, p@),
            (None, Ok(q)) => found.default_exists && q@ == local_default@,
            (None, Err(e)) => !found.default_exists && e@ == not_found(
                what@,
                env_var@,
                local_default@,
            ),
        },
{
    match asset(env_var, local_default, found) {
        Err(e) => Err(e),
        Ok(Some(p)) => Ok(p),
        Ok(None) => {
            let mut m: String = "找不到".to_owned();
            m.push_str(what);
            m.push_str("。\n请设置环境变量 ");
            m.push_str(env_var);
            m.push_str(" 指向它，例如：\n    PowerShell:  $env:");
            m.push_str(env_var);
            m.push_str(" = 'D:\\path\\to\\asset'\n    bash:        export ");
            m.push_str(env_var);
            m.push_str("=/path/to/asset\n本机默认路径（当前不存在）：");
            m.push_str(local_default);
            Err(m)
        },
    }
}

} // verus!
