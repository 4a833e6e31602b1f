//! Lists that say how much bones count.
use vstd::prelude::*;

use super::error::{ErrorView, QcError};
use super::lexer::{left, LexState, Lexer, Token, TokenView};
use super::model::{
    ModelDescView, Script, ScriptView, WeightEntry, WeightEntryView, WeightList, WeightListView,
};
use super::read::{
    around, block_token, deeper, error_for, f, fail_at, into, left_at, num, obeyed, out_of,
    put_around, read_in_block, shallower, tok, token, went_on, At,
};
use crate::plain::{plain_digits, print_plain};
use crate::seqs::{viewed, viewing};
use crate::single::INFINITE;
use crate::text::{lower, same, same_but_case};

verus! {

broadcast use viewing;

/// The most lists that a model may have, with the one that is there by itself.
pub const MAX_WEIGHT_LISTS: usize = 128;

/// The most bones that a list may have.
pub const MAX_WEIGHT_ENTRIES: usize = 128;

/// Whether a number is zero.
pub open spec fn is_zero(bits: u32) -> bool {
    bits == 0 || bits == 0x8000_0000
}

/// Whether a number is above zero.
pub open spec fn is_positive(bits: u32) -> bool {
    0 < bits <= INFINITE
}

/// What is wrong where a bone keeps its place and loses its rotation.
pub open spec fn place_without_rotation(bone: Seq<char>, weight: u32) -> Seq<char> {
    around("骨骼 "@, bone, " 的旋转权重为 0 而位置权重为 "@) + plain_digits(weight) + " —— 官方不允许"@
}

/// A list with the weight of the last bone's place.
pub open spec fn posweight(
    name: Seq<char>,
    bones: Seq<WeightEntryView>,
    t: TokenView,
    s: At,
) -> (Seq<WeightEntryView>, At) {
    let (v, s) = num(s);
    if bones.len() == 0 {
        (
            bones,
            fail_at(s, t, around("posweight 出现在任何骨骼条目之前（weightlist "@, name, "）"@)),
        )
    } else if is_zero(bones.last().weight) && is_positive(v) {
        (bones, fail_at(s, t, place_without_rotation(bones.last().bone, v)))
    } else {
        (
            bones.update(
                bones.len() - 1,
                WeightEntryView { pos_weight: Some(v), ..bones.last() },
            ),
            s,
        )
    }
}

/// What is wrong where a list has too many bones.
pub open spec fn too_many_bones(name: Seq<char>) -> Seq<char> {
    around("权重表 "@, name, " 的条目超过官方上限 128"@)
}

/// A list with one more bone.
pub open spec fn with_weight(
    name: Seq<char>,
    bones: Seq<WeightEntryView>,
    t: TokenView,
    s: At,
) -> (Seq<WeightEntryView>, At) {
    let (weight, s) = num(s);
    if bones.len() >= MAX_WEIGHT_ENTRIES {
        (bones, fail_at(s, t, too_many_bones(name)))
    } else {
        (bones.push(WeightEntryView { bone: t.text, weight, pos_weight: None }), s)
    }
}

/// The bones of a list, on its line and in its block.
pub open spec fn weights(name: Seq<char>, bones: Seq<WeightEntryView>, depth: int, s: At) -> (
    Seq<WeightEntryView>,
    At,
)
    decreases left_at(s),
{
    let (t, n) = block_token(s, depth);
    match t {
        None => (bones, n),
        Some(t) => {
            let inner = if t.text == "{"@ {
                deeper(depth)
            } else if t.text == "}"@ {
                shallower(depth)
            } else {
                depth
            };
            let (list, n) = if t.text == "{"@ || t.text == "}"@ {
                (bones, n)
            } else if lower(t.text) == lower("posweight"@) {
                posweight(name, bones, t, n)
            } else {
                with_weight(name, bones, t, n)
            };
            if t.text == "}"@ && inner <= 0 {
                (list, n)
            } else if went_on(n, s) {
                weights(name, list, inner, n)
            } else {
                (list, n)
            }
        },
    }
}

/// The first list with the given name, in any ASCII case, from `i` on.
pub open spec fn find_weight_list(list: Seq<WeightListView>, name: Seq<char>, i: int) -> Option<int>
    decreases list.len() - i,
{
    if i < 0 || i >= list.len() {
        None
    } else if lower(list[i].name) == lower(name) {
        Some(i)
    } else {
        find_weight_list(list, name, i + 1)
    }
}

/// The first list with the given name, in any ASCII case.
pub fn weight_list_index(list: &Vec<WeightList>, name: &str) -> (r: Option<usize>)
    ensures
        match r {
            Some(i) => i < list@.len() && find_weight_list(viewed(list@), name@, 0) == Some(i as int),
            None => find_weight_list(viewed(list@), name@, 0) is None,
        },
{
    let mut i: usize = 0;
    while i < list.len()
        invariant
            i <= list@.len(),
            find_weight_list(viewed(list@), name@, i as int) == find_weight_list(viewed(list@), name@, 0),
        decreases list@.len() - i,
    {
        assert(viewed(list@)[i as int] == list@[i as int]@);
        if same_but_case(list[i].name.as_str(), name) {
            return Some(i);
        }
        i = i + 1;
    }
    None
}

/// What is wrong where there are too many lists.
pub open spec fn too_many_lists() -> Seq<char> {
    "权重表超过官方上限 128 张（含隐式默认表，手写最多 127 张）"@
}

/// A list that says how much bones count.
pub open spec fn weightlist(d: ScriptView, s: At) -> (ScriptView, At) {
    let (t, s) = token(s, false);
    if d.desc.weight_lists.len() >= MAX_WEIGHT_LISTS - 1 {
        (d, fail_at(s, t, too_many_lists()))
    } else if find_weight_list(d.desc.weight_lists, t.text, 0) is Some {
        (d, fail_at(s, t, around("重复的 $weightlist "@, t.text, ""@)))
    } else {
        let (bones, s) = weights(t.text, Seq::empty(), 0, s);
        (
            ScriptView {
                desc: ModelDescView {
                    weight_lists: d.desc.weight_lists.push(WeightListView { name: t.text, bones }),
                    ..d.desc
                },
                ..d
            },
            s,
        )
    }
}

/// Reads the weight of the last bone's place.
fn read_posweight(lex: &mut Lexer, name: &str, bones: &mut Vec<WeightEntry>, t: &Token) -> (r:
    Result<(), QcError>)
    requires
        old(lex).wf(),
    ensures
        final(lex).wf(),
        obeyed(
            r,
            final(lex)@,
            viewed(final(bones)@),
            posweight(name@, viewed(old(bones)@), t@, Ok(old(lex)@)),
        ),
        left(final(lex)@) <= left(old(lex)@),
{
    let v: u32 = match f(lex) {
        Ok(v) => v,
        Err(e) => {
            return Err(e);
        },
    };
    let n: usize = bones.len();
    if n == 0 {
        return Err(
            error_for(t, put_around("posweight 出现在任何骨骼条目之前（weightlist ", name, "）")),
        );
    }
    assert(viewed(bones@).last() == bones@[n - 1]@);
    let w: u32 = bones[n - 1].weight;
    if (w == 0 || w == 0x8000_0000) && 0 < v && v <= INFINITE {
        let mut m: String = put_around(
            "骨骼 ",
            bones[n - 1].bone.as_str(),
            " 的旋转权重为 0 而位置权重为 ",
        );
        m.push_str(print_plain(v).as_str());
        m.push_str(" —— 官方不允许");
        return Err(error_for(t, m));
    }
    let ghost before = viewed(bones@);
    bones[n - 1].pos_weight = Some(v);
    assert(viewed(bones@) =~= before.update(
        n - 1,
        WeightEntryView { pos_weight: Some(v), ..before.last() },
    ));
    Ok(())
}

/// Reads the bones of a list.
fn read_weights(lex: &mut Lexer, name: &str) -> (r: Result<Vec<WeightEntry>, QcError>)
    requires
        old(lex).wf(),
    ensures
        final(lex).wf(),
        ({
            let (v, s) = weights(name@, Seq::empty(), 0, Ok(old(lex)@));
            match r {
                Ok(x) => viewed(x@) == v && s == Ok::<LexState, ErrorView>(final(lex)@),
                Err(e) => s == Err::<LexState, ErrorView>(e@),
            }
        }),
        left(final(lex)@) <= left(old(lex)@),
{
    let mut bones: Vec<WeightEntry> = Vec::new();
    let mut depth: i32 = 0;
    loop
        invariant
            lex.wf(),
            left(lex@) <= left(old(lex)@),
            weights(name@, viewed(bones@), depth as int, Ok(lex@)) == weights(
                name@,
                Seq::empty(),
                0,
                Ok(old(lex)@),
            ),
        decreases left(lex@),
    {
        let next: Option<Token> = match read_in_block(lex, depth) {
            Ok(v) => v,
            Err(e) => {
                return Err(e);
            },
        };
        let t: Token = match next {
            Some(t) => t,
            None => {
                return Ok(bones);
            },
        };
        proof {
            reveal_strlit("{");
            reveal_strlit("}");
            assert("{"@[0] != "}"@[0]);
        }
        if same(t.text.as_str(), "{") {
            depth = into(depth);
        } else if same(t.text.as_str(), "}") {
            depth = out_of(depth);
            if depth <= 0 {
                return Ok(bones);
            }
        } else if same_but_case(t.text.as_str(), "posweight") {
            match read_posweight(lex, name, &mut bones, &t) {
                Ok(_) => {},
                Err(e) => {
                    return Err(e);
                },
            }
        } else {
            let weight: u32 = match f(lex) {
                Ok(v) => v,
                Err(e) => {
                    return Err(e);
                },
            };
            if bones.len() >= MAX_WEIGHT_ENTRIES {
                return Err(error_for(&t, put_around("权重表 ", name, " 的条目超过官方上限 128")));
            }
            bones.push(WeightEntry { bone: t.text, weight, pos_weight: None });
        }
    }
}

/// Adds a list that says how much bones count.
pub fn cmd_weightlist(lex: &mut Lexer, d: &mut Script) -> (r: Result<(), QcError>)
    requires
        old(lex).wf(),
    ensures
        final(lex).wf(),
        obeyed(r, final(lex)@, final(d)@, weightlist(old(d)@, Ok(old(lex)@))),
        left(final(lex)@) <= left(old(lex)@),
{
    let t: Token = match tok(lex, false) {
        Ok(v) => v,
        Err(e) => {
            return Err(e);
        },
    };
    if d.desc.weight_lists.len() >= MAX_WEIGHT_LISTS - 1 {
        return Err(
            error_for(&t, "权重表超过官方上限 128 张（含隐式默认表，手写最多 127 张）".to_owned()),
        );
    }
    if weight_list_index(&d.desc.weight_lists, t.text.as_str()).is_some() {
        return Err(error_for(&t, put_around("重复的 $weightlist ", t.text.as_str(), "")));
    }
    let bones: Vec<WeightEntry> = match read_weights(lex, t.text.as_str()) {
        Ok(v) => v,
        Err(e) => {
            return Err(e);
        },
    };
    d.desc.weight_lists.push(WeightList { name: t.text, bones });
    Ok(())
}

/// No bone keeps its place and loses its rotation, and there are no more bones than a list may
/// have.
pub open spec fn weights_sound(bones: Seq<WeightEntryView>) -> bool {
    &&& bones.len() <= MAX_WEIGHT_ENTRIES
    &&& forall|i: int|
        0 <= i < bones.len() ==> match (#[trigger] bones[i]).pos_weight {
            Some(v) => !(is_zero(bones[i].weight) && is_positive(v)),
            None => true,
        }
}

/// The bones of a list that was read are sound, whatever the script says.
pub proof fn weights_stay_sound(name: Seq<char>, bones: Seq<WeightEntryView>, depth: int, s: At)
    requires
        weights_sound(bones),
    ensures
        weights_sound(weights(name, bones, depth, s).0),
    decreases left_at(s),
{
    let (t, n) = block_token(s, depth);
    match t {
        None => {},
        Some(t) => {
            let inner = if t.text == "{"@ {
                deeper(depth)
            } else if t.text == "}"@ {
                shallower(depth)
            } else {
                depth
            };
            let (list, n) = if t.text == "{"@ || t.text == "}"@ {
                (bones, n)
            } else if lower(t.text) == lower("posweight"@) {
                posweight(name, bones, t, n)
            } else {
                with_weight(name, bones, t, n)
            };
            if went_on(n, s) {
                weights_stay_sound(name, list, inner, n);
            }
        },
    }
}

} // verus!
