//! Bones that the meshes for distances name and that are not there.
use vstd::prelude::*;

use super::bones::{bone_index, find_bone};
use super::model::{
    BodyModel, BodyModelView, BodyPart, BodyPartView, Bone, BoneView, LodModel, LodModelView, Pair,
    PairView,
};
use crate::phy::names::{add_name, with_name};
use crate::seqs::{viewed, viewing};

verus! {

broadcast use viewing;

/// `seen` with those of the first `n` names that are no names of bones, in order and each once.
pub open spec fn names_dropped(
    seen: Seq<Seq<char>>,
    list: Seq<Seq<char>>,
    bones: Seq<BoneView>,
    n: int,
) -> Seq<Seq<char>>
    decreases n,
{
    if n <= 0 {
        seen
    } else {
        let before = names_dropped(seen, list, bones, n - 1);
        if find_bone(bones, list[n - 1], 0) is Some {
            before
        } else {
            with_name(before, list[n - 1])
        }
    }
}

/// A pair of names as it is told.
pub open spec fn pair_text(p: PairView) -> Seq<char> {
    p.a + " → "@ + p.b
}

/// `seen` with those of the first `n` pairs that do not name two bones, in order and each once.
pub open spec fn pairs_dropped(
    seen: Seq<Seq<char>>,
    list: Seq<PairView>,
    bones: Seq<BoneView>,
    n: int,
) -> Seq<Seq<char>>
    decreases n,
{
    if n <= 0 {
        seen
    } else {
        let before = pairs_dropped(seen, list, bones, n - 1);
        let p = list[n - 1];
        if find_bone(bones, p.a, 0) is Some && find_bone(bones, p.b, 0) is Some {
            before
        } else {
            with_name(before, pair_text(p))
        }
    }
}

/// `seen` with what is dropped of a mesh for a distance.
pub open spec fn lod_dropped(
    seen: Seq<Seq<char>>,
    l: LodModelView,
    bones: Seq<BoneView>,
) -> Seq<Seq<char>> {
    pairs_dropped(
        names_dropped(seen, l.bone_tree_collapse, bones, l.bone_tree_collapse.len() as int),
        l.replace_bone,
        bones,
        l.replace_bone.len() as int,
    )
}

/// `seen` with what is dropped of the first `n` meshes for distances.
pub open spec fn lods_dropped(
    seen: Seq<Seq<char>>,
    list: Seq<LodModelView>,
    bones: Seq<BoneView>,
    n: int,
) -> Seq<Seq<char>>
    decreases n,
{
    if n <= 0 {
        seen
    } else {
        lod_dropped(lods_dropped(seen, list, bones, n - 1), list[n - 1], bones)
    }
}

/// `seen` with what is dropped of the first `n` meshes, each with the meshes for distances that
/// belong to all.
pub open spec fn models_dropped(
    seen: Seq<Seq<char>>,
    list: Seq<BodyModelView>,
    pending: Seq<LodModelView>,
    bones: Seq<BoneView>,
    n: int,
) -> Seq<Seq<char>>
    decreases n,
{
    if n <= 0 {
        seen
    } else {
        let own = list[n - 1].lods;
        let before = models_dropped(seen, list, pending, bones, n - 1);
        let more = lods_dropped(before, own, bones, own.len() as int);
        lods_dropped(more, pending, bones, pending.len() as int)
    }
}

/// `seen` with what is dropped of the first `n` parts of the body.
pub open spec fn parts_dropped(
    seen: Seq<Seq<char>>,
    list: Seq<BodyPartView>,
    pending: Seq<LodModelView>,
    bones: Seq<BoneView>,
    n: int,
) -> Seq<Seq<char>>
    decreases n,
{
    if n <= 0 {
        seen
    } else {
        let models = list[n - 1].models;
        let before = parts_dropped(seen, list, pending, bones, n - 1);
        models_dropped(before, models, pending, bones, models.len() as int)
    }
}

/// Adds the names that are no names of bones.
fn drop_names(seen: &mut Vec<String>, list: &Vec<String>, bones: &Vec<Bone>)
    ensures
        viewed(final(seen)@) == names_dropped(
            viewed(old(seen)@),
            viewed(list@),
            viewed(bones@),
            list@.len() as int,
        ),
{
    let ghost start = viewed(seen@);
    let mut k: usize = 0;
    while k < list.len()
        invariant
            k <= list@.len(),
            viewed(seen@) == names_dropped(start, viewed(list@), viewed(bones@), k as int),
        decreases list@.len() - k,
    {
        assert(viewed(list@)[k as int] == list@[k as int]@);
        if bone_index(bones, list[k].as_str()).is_none() {
            add_name(seen, list[k].as_str());
        }
        k = k + 1;
    }
}

/// Adds the pairs that do not name two bones.
fn drop_pairs(seen: &mut Vec<String>, list: &Vec<Pair>, bones: &Vec<Bone>)
    ensures
        viewed(final(seen)@) == pairs_dropped(
            viewed(old(seen)@),
            viewed(list@),
            viewed(bones@),
            list@.len() as int,
        ),
{
    let ghost start = viewed(seen@);
    let mut k: usize = 0;
    while k < list.len()
        invariant
            k <= list@.len(),
            viewed(seen@) == pairs_dropped(start, viewed(list@), viewed(bones@), k as int),
        decreases list@.len() - k,
    {
        assert(viewed(list@)[k as int] == list@[k as int]@);
        if bone_index(bones, list[k].a.as_str()).is_none() || bone_index(
            bones,
            list[k].b.as_str(),
        ).is_none() {
            let mut text: String = list[k].a.clone();
            text.push_str(" → ");
            text.push_str(list[k].b.as_str());
            add_name(seen, text.as_str());
        }
        k = k + 1;
    }
}

/// Adds what is dropped of meshes for distances.
fn drop_lods(seen: &mut Vec<String>, list: &Vec<LodModel>, bones: &Vec<Bone>)
    ensures
        viewed(final(seen)@) == lods_dropped(
            viewed(old(seen)@),
            viewed(list@),
            viewed(bones@),
            list@.len() as int,
        ),
{
    let ghost start = viewed(seen@);
    let mut k: usize = 0;
    while k < list.len()
        invariant
            k <= list@.len(),
            viewed(seen@) == lods_dropped(start, viewed(list@), viewed(bones@), k as int),
        decreases list@.len() - k,
    {
        assert(viewed(list@)[k as int] == list@[k as int]@);
        drop_names(seen, &list[k].bone_tree_collapse, bones);
        drop_pairs(seen, &list[k].replace_bone, bones);
        k = k + 1;
    }
}

/// Adds what is dropped of meshes.
fn drop_models(
    seen: &mut Vec<String>,
    list: &Vec<BodyModel>,
    pending: &Vec<LodModel>,
    bones: &Vec<Bone>,
)
    ensures
        viewed(final(seen)@) == models_dropped(
            viewed(old(seen)@),
            viewed(list@),
            viewed(pending@),
            viewed(bones@),
            list@.len() as int,
        ),
{
    let ghost start = viewed(seen@);
    let mut k: usize = 0;
    while k < list.len()
        invariant
            k <= list@.len(),
            viewed(seen@) == models_dropped(
                start,
                viewed(list@),
                viewed(pending@),
                viewed(bones@),
                k as int,
            ),
        decreases list@.len() - k,
    {
        assert(viewed(list@)[k as int] == list@[k as int]@);
        drop_lods(seen, &list[k].lods, bones);
        drop_lods(seen, pending, bones);
        k = k + 1;
    }
}

/// The bones that the meshes for distances name and that are not there, in order and each once. A
/// pair of which one is not there is told as a whole.
pub fn dropped_bones(parts: &Vec<BodyPart>, pending: &Vec<LodModel>, bones: &Vec<Bone>) -> (r: Vec<
    String,
>)
    ensures
        viewed(r@) == parts_dropped(
            Seq::empty(),
            viewed(parts@),
            viewed(pending@),
            viewed(bones@),
            parts@.len() as int,
        ),
{
    let mut seen: Vec<String> = Vec::new();
    assert(viewed(seen@) =~= Seq::empty());
    let mut k: usize = 0;
    while k < parts.len()
        invariant
            k <= parts@.len(),
            viewed(seen@) == parts_dropped(
                Seq::empty(),
                viewed(parts@),
                viewed(pending@),
                viewed(bones@),
                k as int,
            ),
        decreases parts@.len() - k,
    {
        assert(viewed(parts@)[k as int] == parts@[k as int]@);
        drop_models(&mut seen, &parts[k].models, pending, bones);
        k = k + 1;
    }
    seen
}

} // verus!
