//! What a finished model holds of what its script and its meshes say.
use vstd::prelude::*;

use super::bones::{
    completed, find_bone, names_differ, parent_among, parent_in, table, with_bone, with_bones,
    with_meshes, with_nodes, with_props,
};

use super::lexer::find_name;
use super::model::{
    AnimationView, BodyModelView, BoneView, FrameRange, LodModelView, PairView, SequenceView,
};
use super::parse::{
    behind_last, cycle_of, directory, find_animation, known_names, known_pairs, lod_done,
    model_done, sequence_done, sequence_frames, stem,
};
use super::skins::{
    identity, noted_all, noted_meshes, noted_rows, place, skin_from, skins, textures,
};
use crate::across::{one, size};
use crate::arith::{at_most, below, difference, exact, of_count, quotient};
use crate::near::{finite_bits, quotients_are_near};
use crate::phy::pose::node_with;
use crate::seqs::{distinct, distinct_holds_each_once};
use crate::single::ONE;
use crate::smd::{materials, NodeView, SmdView};
use crate::text::lower;

verus! {

/// The place of a name that occurs once.
proof fn place_is(order: Seq<Seq<char>>, i: int, k: int)
    requires
        order.no_duplicates(),
        0 <= k <= i < order.len(),
    ensures
        place(order, order[i], k) == Some(i),
    decreases i - k,
{
    if k < i {
        assert(order[k] != order[i]);
        place_is(order, i, k + 1);
    }
}

/// A name that does not occur has no place.
proof fn place_is_none(order: Seq<Seq<char>>, name: Seq<char>, k: int)
    requires
        !order.contains(name),
    ensures
        place(order, name, k) is None,
    decreases order.len() - k,
{
    if 0 <= k < order.len() {
        assert(order[k] != name);
        place_is_none(order, name, k + 1);
    }
}

/// A place that only one column is about.
proof fn one_column_counts(
    row: Seq<i32>,
    order: Seq<Seq<char>>,
    base: Seq<Seq<char>>,
    names: Seq<Seq<char>>,
    k: int,
    slot: int,
)
    requires
        order.no_duplicates(),
        row.len() == order.len() <= i32::MAX,
        0 <= k,
        0 <= slot < order.len(),
        forall|j: int| k <= j < base.len() ==> #[trigger] base[j] != order[slot],
    ensures
        skin_from(row, order, base, names, k)[slot] == row[slot],
    decreases names.len() - k,
{
    if k < names.len() && k < base.len() {
        if order.contains(base[k]) {
            let s = order.index_of(base[k]);
            place_is(order, s, 0);
            assert(s != slot);
            if order.contains(names[k]) {
                place_is(order, order.index_of(names[k]), 0);
                one_column_counts(
                    row.update(s, order.index_of(names[k]) as i32),
                    order,
                    base,
                    names,
                    k + 1,
                    slot,
                );
            } else {
                place_is_none(order, names[k], 0);
                one_column_counts(row.update(s, s as i32), order, base, names, k + 1, slot);
            }
        } else {
            place_is_none(order, base[k], 0);
            one_column_counts(row, order, base, names, k + 1, slot);
        }
    }
}

/// A place that column `j` is about.
proof fn column_counts(
    row: Seq<i32>,
    order: Seq<Seq<char>>,
    base: Seq<Seq<char>>,
    names: Seq<Seq<char>>,
    k: int,
    j: int,
    slot: int,
    i: int,
)
    requires
        order.no_duplicates(),
        base.no_duplicates(),
        row.len() == order.len() <= i32::MAX,
        0 <= k <= j < base.len(),
        j < names.len(),
        0 <= slot < order.len(),
        0 <= i < order.len(),
        order[slot] == base[j],
        order[i] == names[j],
    ensures
        skin_from(row, order, base, names, k)[slot] == i,
    decreases j - k,
{
    place_is(order, slot, 0);
    place_is(order, i, 0);
    if k == j {
        assert forall|l: int| k + 1 <= l < base.len() implies #[trigger] base[l]
            != order[slot] by {
            assert(base[l] != base[j]);
        }
        one_column_counts(row.update(slot, i as i32), order, base, names, k + 1, slot);
    } else if order.contains(base[k]) {
        let s = order.index_of(base[k]);
        place_is(order, s, 0);
        if order.contains(names[k]) {
            place_is(order, order.index_of(names[k]), 0);
            column_counts(
                row.update(s, order.index_of(names[k]) as i32),
                order,
                base,
                names,
                k + 1,
                j,
                slot,
                i,
            );
        } else {
            place_is_none(order, names[k], 0);
            column_counts(row.update(s, s as i32), order, base, names, k + 1, j, slot, i);
        }
    } else {
        place_is_none(order, base[k], 0);
        column_counts(row, order, base, names, k + 1, j, slot, i);
    }
}

/// In each skin, the place of a material of the first row stands for the material that the skin's
/// own row has in that column.
pub proof fn skins_replace_column_by_column(
    order: Seq<Seq<char>>,
    list: Seq<Seq<Seq<char>>>,
    k: int,
    j: int,
    slot: int,
    i: int,
)
    requires
        order.no_duplicates(),
        order.len() <= i32::MAX,
        0 <= k < list.len(),
        list[0].no_duplicates(),
        0 <= j < list[0].len(),
        j < list[k].len(),
        0 <= slot < order.len(),
        0 <= i < order.len(),
        order[slot] == list[0][j],
        order[i] == list[k][j],
    ensures
        skins(order, list)[k][slot] == i,
{
    column_counts(identity(order.len()), order, list[0], list[k], 0, j, slot, i);
}

/// A material that the first row does not name stands for itself in every skin.
pub proof fn other_materials_stay(
    order: Seq<Seq<char>>,
    list: Seq<Seq<Seq<char>>>,
    k: int,
    slot: int,
)
    requires
        order.no_duplicates(),
        order.len() <= i32::MAX,
        0 <= k < list.len(),
        0 <= slot < order.len(),
        !list[0].contains(order[slot]),
    ensures
        skins(order, list)[k][slot] == slot,
{
    assert forall|j: int| 0 <= j < list[0].len() implies #[trigger] list[0][j] != order[slot] by {
        assert(list[0].contains(list[0][j]));
    }
    one_column_counts(identity(order.len()), order, list[0], list[k], 0, slot);
}

proof fn all_are_noted(order: Seq<Seq<char>>, names: Seq<Seq<char>>, k: int)
    requires
        0 <= k,
    ensures
        order.is_prefix_of(noted_all(order, names, k)),
        forall|i: int|
            k <= i < names.len() && (#[trigger] names[i]).len() > 0 ==> noted_all(
                order,
                names,
                k,
            ).contains(names[i]),
        forall|x: Seq<char>| #[trigger]
            noted_all(order, names, k).contains(x) ==> order.contains(x) || (names.contains(x)
                && x.len() > 0),
    decreases names.len() - k,
{
    if k < names.len() {
        let next = super::skins::noted(order, names[k]);
        all_are_noted(next, names, k + 1);
        let all = noted_all(order, names, k);
        assert(names[k].len() > 0 ==> next.contains(names[k])) by {
            if names[k].len() > 0 && !order.contains(names[k]) {
                assert(next[order.len() as int] == names[k]);
            }
        }
        assert forall|x: Seq<char>| next.contains(x) implies #[trigger] all.contains(x) by {
            let i = choose|i: int| 0 <= i < next.len() && next[i] == x;
            assert(all[i] == x);
        }
        assert forall|x: Seq<char>| #[trigger] all.contains(x) implies order.contains(x) || (
        names.contains(x) && x.len() > 0) by {
            if next.contains(x) && !order.contains(x) {
                let i = choose|i: int| 0 <= i < next.len() && next[i] == x;
                if i < order.len() {
                    assert(order[i] == x);
                }
                assert(x == names[k]);
            }
        }
        assert forall|i: int| 0 <= i < order.len() implies order[i] == all[i] by {
            assert(order[i] == next[i]);
        }
        assert(order.is_prefix_of(all));
    }
}

proof fn rows_are_noted(order: Seq<Seq<char>>, list: Seq<Seq<Seq<char>>>, k: int)
    requires
        0 <= k,
    ensures
        order.is_prefix_of(noted_rows(order, list, k)),
        forall|i: int, j: int|
            k <= i < list.len() && 0 <= j < list[i].len() && (#[trigger] list[i][j]).len() > 0
                ==> noted_rows(order, list, k).contains(list[i][j]),
        forall|x: Seq<char>| #[trigger]
            noted_rows(order, list, k).contains(x) ==> order.contains(x) || exists|i: int|
                0 <= i < list.len() && (#[trigger] list[i]).contains(x),
    decreases list.len() - k,
{
    if k < list.len() {
        all_are_noted(order, list[k], 0);
        let next = noted_all(order, list[k], 0);
        rows_are_noted(next, list, k + 1);
        let all = noted_rows(order, list, k);
        assert forall|x: Seq<char>| next.contains(x) implies #[trigger] all.contains(x) by {
            let i = choose|i: int| 0 <= i < next.len() && next[i] == x;
            assert(all[i] == x);
        }
        assert forall|i: int| 0 <= i < order.len() implies order[i] == all[i] by {
            assert(order[i] == next[i]);
        }
        assert(order.is_prefix_of(all));
    }
}

proof fn meshes_are_noted(order: Seq<Seq<char>>, meshes: Seq<SmdView>, k: int)
    requires
        0 <= k,
    ensures
        order.is_prefix_of(noted_meshes(order, meshes, k)),
        forall|i: int, j: int|
            k <= i < meshes.len() && 0 <= j < meshes[i].triangles.len() && (
            #[trigger] meshes[i].triangles[j]).material.len() > 0 ==> noted_meshes(
                order,
                meshes,
                k,
            ).contains(meshes[i].triangles[j].material),
        forall|x: Seq<char>| #[trigger]
            noted_meshes(order, meshes, k).contains(x) ==> order.contains(x) || exists|i: int|
                0 <= i < meshes.len() && materials((#[trigger] meshes[i]).triangles).contains(x),
    decreases meshes.len() - k,
{
    if k < meshes.len() {
        let own = materials(meshes[k].triangles);
        distinct_holds_each_once(own);
        all_are_noted(order, distinct(own), 0);
        let next = noted_all(order, distinct(own), 0);
        meshes_are_noted(next, meshes, k + 1);
        let all = noted_meshes(order, meshes, k);
        assert forall|x: Seq<char>| next.contains(x) implies #[trigger] all.contains(x) by {
            let i = choose|i: int| 0 <= i < next.len() && next[i] == x;
            assert(all[i] == x);
        }
        assert forall|j: int|
            0 <= j < meshes[k].triangles.len() && (
            #[trigger] meshes[k].triangles[j]).material.len() > 0 implies all.contains(
            meshes[k].triangles[j].material,
        ) by {
            assert(own[j] == meshes[k].triangles[j].material);
            assert(own.contains(own[j]));
            assert(distinct(own).contains(own[j]));
            let i = distinct(own).index_of(own[j]);
            assert(next.contains(distinct(own)[i]));
        }
        assert forall|x: Seq<char>| #[trigger] all.contains(x) implies order.contains(x)
            || exists|i: int|
            0 <= i < meshes.len() && materials((#[trigger] meshes[i]).triangles).contains(x) by {
            if next.contains(x) && !order.contains(x) {
                assert(distinct(own).contains(x));
                assert(own.contains(x));
                assert(materials(meshes[k].triangles).contains(x));
            }
        }
        assert forall|i: int| 0 <= i < order.len() implies order[i] == all[i] by {
            assert(order[i] == next[i]);
        }
        assert(order.is_prefix_of(all));
    }
}

/// The textures of a model are what its texture group and the triangles of its meshes name, and
/// nothing else.
pub proof fn textures_are_what_is_used(list: Seq<Seq<Seq<char>>>, meshes: Seq<SmdView>)
    ensures
        forall|i: int, j: int|
            0 <= i < list.len() && 0 <= j < list[i].len() && (#[trigger] list[i][j]).len() > 0
                ==> textures(list, meshes).contains(list[i][j]),
        forall|i: int, j: int|
            0 <= i < meshes.len() && 0 <= j < meshes[i].triangles.len() && (
            #[trigger] meshes[i].triangles[j]).material.len() > 0 ==> textures(
                list,
                meshes,
            ).contains(meshes[i].triangles[j].material),
        forall|x: Seq<char>| #[trigger]
            textures(list, meshes).contains(x) ==> (exists|i: int|
                0 <= i < list.len() && (#[trigger] list[i]).contains(x)) || exists|i: int|
                0 <= i < meshes.len() && materials((#[trigger] meshes[i]).triangles).contains(x),
{
    let none = Seq::<Seq<char>>::empty();
    rows_are_noted(none, list, 0);
    let rows = noted_rows(none, list, 0);
    meshes_are_noted(rows, meshes, 0);
    let all = textures(list, meshes);
    assert forall|x: Seq<char>| rows.contains(x) implies #[trigger] all.contains(x) by {
        let i = choose|i: int| 0 <= i < rows.len() && rows[i] == x;
        assert(all[i] == x);
    }
}

/// The event of a sequence of `n` frames stands at its frame's share of the last frame, but for
/// rounding; behind the last frame, and where there is no frame, it stands at the start.
pub proof fn events_stand_at_their_share(frame: u32, n: nat)
    ensures
        n == 0 ==> cycle_of(frame, n) == 0,
        ({
            let last = difference(of_count(n), ONE);
            let q = exact(cycle_of(frame, n));
            n > 0 && at_most(frame, last) && below(0, last) && finite_bits(last) && finite_bits(
                cycle_of(frame, n),
            ) ==> 16777216 * size(q * exact(last) - exact(frame) * one()) <= size(q * exact(last))
                + 8388608 * size(exact(last))
        }),
        ({
            let last = difference(of_count(n), ONE);
            n > 0 && !at_most(frame, last) ==> cycle_of(frame, n) == 0
        }),
{
    let last = difference(of_count(n), ONE);
    if n > 0 && at_most(frame, last) && below(0, last) && finite_bits(quotient(frame, last))
        && finite_bits(last) {
        quotients_are_near(frame, last);
    }
}

/// Sections that the script sets for all sequences hold for those that have none of their own, and
/// nothing else of a sequence changes but the places of its events.
pub proof fn sections_hold_where_none_are_set(
    q: SequenceView,
    n: nat,
    sections: Option<FrameRange>,
)
    ensures
        ({
            let done = sequence_done(q, n, sections);
            &&& q.section_frames is Some ==> done.section_frames == q.section_frames
                && done.section_threshold == q.section_threshold
            &&& q.section_frames is None && sections is Some ==> done.section_frames == Some(
                sections->0.first,
            ) && done.section_threshold == Some(sections->0.last)
            &&& sections is None ==> done.section_frames == q.section_frames
                && done.section_threshold == q.section_threshold
            &&& done.events.len() == q.events.len()
            &&& forall|i: int|
                0 <= i < q.events.len() ==> (#[trigger] done.events[i]).name == q.events[i].name
                    && done.events[i].event == q.events[i].event && done.events[i].event_type
                    == q.events[i].event_type && done.events[i].options == q.events[i].options
            &&& (SequenceView {
                events: q.events,
                section_frames: q.section_frames,
                section_threshold: q.section_threshold,
                ..done
            }) == q
        }),
{
}

/// A sequence lasts as long as the mesh that it, or the animation that it names first, is made of.
pub proof fn sequences_last_as_long_as_their_mesh(
    q: SequenceView,
    animations: Seq<AnimationView>,
    files: Seq<Seq<char>>,
    meshes: Seq<SmdView>,
    a: int,
    f: int,
)
    requires
        files.no_duplicates(),
        meshes.len() == files.len(),
        0 <= f < files.len(),
        forall|i: int, j: int|
            0 <= i < j < animations.len() ==> lower(#[trigger] animations[i].name) != lower(
                #[trigger] animations[j].name,
            ),
    ensures
        ({
            let first = if q.blends.len() > 0 {
                q.blends[0]
            } else {
                q.smd
            };
            &&& 0 <= a < animations.len() && lower(animations[a].name) == lower(first)
                && animations[a].smd == files[f] ==> sequence_frames(q, animations, files, meshes)
                == meshes[f].frames.len()
            &&& first == files[f] && (forall|i: int|
                0 <= i < animations.len() ==> lower(#[trigger] animations[i].name) != lower(first))
                ==> sequence_frames(q, animations, files, meshes) == meshes[f].frames.len()
        }),
{
    place_is(files, f, 0);
    let first = if q.blends.len() > 0 {
        q.blends[0]
    } else {
        q.smd
    };
    animation_found(animations, first, 0, a);
}

proof fn animation_found(animations: Seq<AnimationView>, name: Seq<char>, k: int, a: int)
    requires
        0 <= k,
        forall|i: int, j: int|
            0 <= i < j < animations.len() ==> lower(#[trigger] animations[i].name) != lower(
                #[trigger] animations[j].name,
            ),
    ensures
        k <= a < animations.len() && lower(animations[a].name) == lower(name) ==> find_animation(
            animations,
            name,
            k,
        ) == Some(a),
        (forall|i: int|
            0 <= i < animations.len() ==> lower(#[trigger] animations[i].name) != lower(name))
            ==> find_animation(animations, name, k) is None,
    decreases animations.len() - k,
{
    if k < animations.len() {
        animation_found(animations, name, k + 1, a);
        if k < a < animations.len() {
            assert(lower(animations[k].name) != lower(animations[a].name));
        }
    }
}

/// Some bone has the name, in any ASCII case.
pub open spec fn has_bone(bones: Seq<BoneView>, name: Seq<char>) -> bool {
    exists|i: int| 0 <= i < bones.len() && lower((#[trigger] bones[i]).name) == lower(name)
}

proof fn bone_found(bones: Seq<BoneView>, name: Seq<char>, k: int)
    requires
        0 <= k,
    ensures
        find_bone(bones, name, k) is Some <==> exists|i: int|
            k <= i < bones.len() && lower((#[trigger] bones[i]).name) == lower(name),
        find_bone(bones, name, k) matches Some(i) ==> k <= i < bones.len() && lower(bones[i].name)
            == lower(name),
    decreases bones.len() - k,
{
    if k < bones.len() {
        bone_found(bones, name, k + 1);
        if lower(bones[k].name) != lower(name) && find_bone(bones, name, k) is None {
            assert forall|i: int| k <= i < bones.len() implies lower((#[trigger] bones[i]).name)
                != lower(name) by {
                if i > k {
                    assert(!(k + 1 <= i < bones.len() && lower(bones[i].name) == lower(name)));
                }
            }
        }
    }
}

proof fn names_are_kept(list: Seq<Seq<char>>, bones: Seq<BoneView>, k: int)
    requires
        0 <= k <= list.len(),
    ensures
        known_names(list, bones, k) == list.skip(k).filter(|x: Seq<char>| has_bone(bones, x)),
    decreases list.len() - k,
{
    let keep = |x: Seq<char>| has_bone(bones, x);
    let rest = list.skip(k);
    if k < list.len() {
        names_are_kept(list, bones, k + 1);
        bone_found(bones, list[k], 0);
        assert(rest =~= seq![list[k]] + list.skip(k + 1));
        Seq::filter_distributes_over_add(seq![list[k]], list.skip(k + 1), keep);
        filter_one(list[k], keep);
        assert(known_names(list, bones, k) =~= rest.filter(keep));
    } else {
        reveal(Seq::filter);
        assert(rest =~= Seq::empty());
        assert(known_names(list, bones, k) =~= rest.filter(keep));
    }
}

proof fn filter_one<A>(x: A, keep: spec_fn(A) -> bool)
    ensures
        seq![x].filter(keep) == if keep(x) {
            seq![x]
        } else {
            Seq::empty()
        },
{
    reveal_with_fuel(Seq::filter, 3);
    assert(seq![x].drop_last() =~= Seq::empty());
    assert(seq![x].filter(keep) =~= if keep(x) {
        seq![x]
    } else {
        Seq::empty()
    });
}

proof fn pairs_are_kept(list: Seq<PairView>, bones: Seq<BoneView>, k: int)
    requires
        0 <= k <= list.len(),
    ensures
        known_pairs(list, bones, k) == list.skip(k).filter(
            |x: PairView| has_bone(bones, x.a) && has_bone(bones, x.b),
        ),
    decreases list.len() - k,
{
    let keep = |x: PairView| has_bone(bones, x.a) && has_bone(bones, x.b);
    let rest = list.skip(k);
    if k < list.len() {
        pairs_are_kept(list, bones, k + 1);
        bone_found(bones, list[k].a, 0);
        bone_found(bones, list[k].b, 0);
        assert(rest =~= seq![list[k]] + list.skip(k + 1));
        Seq::filter_distributes_over_add(seq![list[k]], list.skip(k + 1), keep);
        filter_one(list[k], keep);
        assert(known_pairs(list, bones, k) =~= rest.filter(keep));
    } else {
        reveal(Seq::filter);
        assert(rest =~= Seq::empty());
        assert(known_pairs(list, bones, k) =~= rest.filter(keep));
    }
}

/// A finished distance keeps, in order, the collapsed and replaced bones that the model has, and
/// everything else that it had.
pub proof fn distances_keep_known_bones(l: LodModelView, bones: Seq<BoneView>)
    ensures
        ({
            let done = lod_done(l, bones);
            &&& done.bone_tree_collapse == l.bone_tree_collapse.filter(
                |x: Seq<char>| has_bone(bones, x),
            )
            &&& done.replace_bone == l.replace_bone.filter(
                |x: PairView| has_bone(bones, x.a) && has_bone(bones, x.b),
            )
            &&& done.smd == l.smd
            &&& done.switch_point == l.switch_point
            &&& done.no_facial == l.no_facial
        }),
{
    names_are_kept(l.bone_tree_collapse, bones, 0);
    pairs_are_kept(l.replace_bone, bones, 0);
    assert(l.bone_tree_collapse.skip(0) =~= l.bone_tree_collapse);
    assert(l.replace_bone.skip(0) =~= l.replace_bone);
}

/// A finished body model has its own distances first, and behind them those set for all models.
pub proof fn own_distances_come_first(
    m: BodyModelView,
    pending: Seq<LodModelView>,
    bones: Seq<BoneView>,
)
    ensures
        ({
            let done = model_done(m, pending, bones);
            &&& done.lods.len() == m.lods.len() + pending.len()
            &&& forall|i: int|
                0 <= i < m.lods.len() ==> #[trigger] done.lods[i] == lod_done(m.lods[i], bones)
            &&& forall|i: int|
                0 <= i < pending.len() ==> done.lods[m.lods.len() + i] == #[trigger] lod_done(
                    pending[i],
                    bones,
                )
            &&& done.smd == m.smd
            &&& done.name == m.name
            &&& done.eyeballs == m.eyeballs
            &&& done.flexes == m.flexes
        }),
{
}

proof fn bones_go_before(bones: Seq<BoneView>, list: Seq<BoneView>, k: int)
    requires
        0 <= k,
    ensures
        bones.is_prefix_of(with_bones(bones, list, k)),
        forall|i: int|
            k <= i < list.len() ==> has_bone(with_bones(bones, list, k), (#[trigger] list[i]).name),
        k <= list.len() && names_differ(bones + list.skip(k)) ==> with_bones(bones, list, k) == bones
            + list.skip(k),
    decreases list.len() - k,
{
    if k < list.len() {
        let next = with_bone(bones, list[k]);
        bone_found(bones, list[k].name, 0);
        bones_go_before(next, list, k + 1);
        let all = with_bones(bones, list, k);
        assert forall|i: int| 0 <= i < bones.len() implies bones[i] == all[i] by {
            assert(bones[i] == next[i]);
        }
        assert(bones.is_prefix_of(all));
        assert(has_bone(next, list[k].name)) by {
            if find_bone(bones, list[k].name, 0) is None {
                assert(next[bones.len() as int] == list[k]);
            }
        }
        still_has(next, all, list[k].name);
        if names_differ(bones + list.skip(k)) {
            let both = bones + list.skip(k);
            assert(both[bones.len() as int] == list[k]);
            if find_bone(bones, list[k].name, 0) is Some {
                let i = find_bone(bones, list[k].name, 0)->0;
                assert(both[i] == bones[i]);
                assert(lower(both[i].name) != lower(both[bones.len() as int].name));
            }
            assert(next + list.skip(k + 1) =~= both);
        }
    } else if k == list.len() {
        assert(bones + list.skip(k) =~= bones);
    }
}

proof fn still_has(bones: Seq<BoneView>, all: Seq<BoneView>, name: Seq<char>)
    requires
        bones.is_prefix_of(all),
        has_bone(bones, name),
    ensures
        has_bone(all, name),
{
    let i = choose|i: int| 0 <= i < bones.len() && lower((#[trigger] bones[i]).name) == lower(name);
    assert(all[i] == bones[i]);
}

proof fn nodes_go_behind(bones: Seq<BoneView>, nodes: Seq<NodeView>, k: int)
    requires
        0 <= k,
    ensures
        bones.is_prefix_of(with_nodes(bones, nodes, k)),
        forall|i: int|
            k <= i < nodes.len() ==> has_bone(with_nodes(bones, nodes, k), (
            #[trigger] nodes[i]).name),
        forall|j: int|
            bones.len() <= j < with_nodes(bones, nodes, k).len() ==> exists|i: int|
                0 <= i < nodes.len() && (#[trigger] nodes[i]).name == (#[trigger] with_nodes(
                    bones,
                    nodes,
                    k,
                )[j]).name,
    decreases nodes.len() - k,
{
    if k < nodes.len() {
        let b = super::bones::bare_bone(nodes[k].name);
        let next = with_bone(bones, b);
        bone_found(bones, b.name, 0);
        nodes_go_behind(next, nodes, k + 1);
        let all = with_nodes(bones, nodes, k);
        assert forall|i: int| 0 <= i < bones.len() implies bones[i] == all[i] by {
            assert(bones[i] == next[i]);
        }
        assert(bones.is_prefix_of(all));
        assert(has_bone(next, b.name)) by {
            if find_bone(bones, b.name, 0) is None {
                assert(next[bones.len() as int] == b);
            }
        }
        still_has(next, all, b.name);
        assert forall|j: int| bones.len() <= j < all.len() implies exists|i: int|
            0 <= i < nodes.len() && (#[trigger] nodes[i]).name == (#[trigger] all[j]).name by {
            if j < next.len() {
                assert(all[j] == next[j]);
                assert(nodes[k].name == all[j].name);
            }
        }
    }
}

/// Some bone of some mesh has the name.
pub open spec fn in_some_mesh(meshes: Seq<SmdView>, name: Seq<char>) -> bool {
    exists|m: int, i: int|
        0 <= m < meshes.len() && 0 <= i < meshes[m].nodes.len() && (
        #[trigger] meshes[m].nodes[i]).name == name
}

proof fn meshes_go_behind(bones: Seq<BoneView>, meshes: Seq<SmdView>, k: int)
    requires
        0 <= k,
    ensures
        bones.is_prefix_of(with_meshes(bones, meshes, k)),
        forall|m: int, i: int|
            k <= m < meshes.len() && 0 <= i < meshes[m].nodes.len() ==> has_bone(
                with_meshes(bones, meshes, k),
                (#[trigger] meshes[m].nodes[i]).name,
            ),
        forall|j: int|
            bones.len() <= j < with_meshes(bones, meshes, k).len() ==> in_some_mesh(
                meshes,
                (#[trigger] with_meshes(bones, meshes, k)[j]).name,
            ),
    decreases meshes.len() - k,
{
    if k < meshes.len() {
        let nodes = meshes[k].nodes;
        nodes_go_behind(bones, nodes, 0);
        let next = with_nodes(bones, nodes, 0);
        meshes_go_behind(next, meshes, k + 1);
        let all = with_meshes(bones, meshes, k);
        assert forall|i: int| 0 <= i < bones.len() implies bones[i] == all[i] by {
            assert(bones[i] == next[i]);
        }
        assert(bones.is_prefix_of(all));
        assert forall|m: int, i: int|
            k <= m < meshes.len() && 0 <= i < meshes[m].nodes.len() implies has_bone(
            all,
            (#[trigger] meshes[m].nodes[i]).name,
        ) by {
            if m == k {
                assert(has_bone(next, nodes[i].name));
                still_has(next, all, nodes[i].name);
            }
        }
        assert forall|j: int| bones.len() <= j < all.len() implies in_some_mesh(
            meshes,
            (#[trigger] all[j]).name,
        ) by {
            if j < next.len() {
                assert(all[j] == next[j]);
                let i = choose|i: int|
                    0 <= i < nodes.len() && (#[trigger] nodes[i]).name == next[j].name;
                assert(meshes[k].nodes[i].name == all[j].name);
            }
        }
    }
}

/// A model has the bones that its script defines first, as defined, then those of its meshes, and
/// no others.
pub proof fn bones_are_the_defined_and_the_used(defined: Seq<BoneView>, meshes: Seq<SmdView>)
    requires
        names_differ(defined),
    ensures
        defined.is_prefix_of(table(defined, meshes)),
        forall|m: int, i: int|
            0 <= m < meshes.len() && 0 <= i < meshes[m].nodes.len() ==> has_bone(
                table(defined, meshes),
                (#[trigger] meshes[m].nodes[i]).name,
            ),
        forall|j: int|
            defined.len() <= j < table(defined, meshes).len() ==> in_some_mesh(
                meshes,
                (#[trigger] table(defined, meshes)[j]).name,
            ),
{
    let none = Seq::<BoneView>::empty();
    assert(none + defined.skip(0) =~= defined);
    bones_go_before(none, defined, 0);
    meshes_go_behind(defined, meshes, 0);
}

proof fn numbered(nodes: Seq<NodeView>, p: int, n: int)
    requires
        0 <= p < n <= nodes.len(),
        forall|i: int, j: int|
            0 <= i < j < nodes.len() ==> (#[trigger] nodes[i]).index != (#[trigger] nodes[j]).index,
    ensures
        node_with(nodes, nodes[p].index, n) == Some(p),
    decreases n,
{
    if n - 1 > p {
        assert(nodes[p].index != nodes[n - 1].index);
        numbered(nodes, p, n - 1);
    }
}

proof fn parent_found(nodes: Seq<NodeView>, name: Seq<char>, k: int, i: int, p: int)
    requires
        0 <= k <= i < nodes.len(),
        0 <= p < nodes.len(),
        forall|a: int, b: int|
            0 <= a < b < nodes.len() ==> (#[trigger] nodes[a]).index != (#[trigger] nodes[b]).index,
        forall|a: int| k <= a < i ==> lower((#[trigger] nodes[a]).name) != lower(name),
        lower(nodes[i].name) == lower(name),
        nodes[i].parent == nodes[p].index,
        nodes[i].parent >= 0,
    ensures
        parent_in(nodes, name, k) == Some(nodes[p].name),
    decreases i - k,
{
    if k < i {
        parent_found(nodes, name, k + 1, i, p);
    } else {
        numbered(nodes, p, nodes.len() as int);
    }
}

proof fn no_parent_found(nodes: Seq<NodeView>, name: Seq<char>, k: int)
    requires
        0 <= k,
        forall|a: int| k <= a < nodes.len() ==> lower((#[trigger] nodes[a]).name) != lower(name),
    ensures
        parent_in(nodes, name, k) is None,
    decreases nodes.len() - k,
{
    if k < nodes.len() {
        no_parent_found(nodes, name, k + 1);
    }
}

proof fn parent_found_in(
    meshes: Seq<SmdView>,
    name: Seq<char>,
    k: int,
    m: int,
    i: int,
    p: int,
)
    requires
        0 <= k <= m < meshes.len(),
        0 <= i < meshes[m].nodes.len(),
        0 <= p < meshes[m].nodes.len(),
        forall|a: int, b: int|
            0 <= a < b < meshes[m].nodes.len() ==> (#[trigger] meshes[m].nodes[a]).index != (
            #[trigger] meshes[m].nodes[b]).index,
        forall|l: int, a: int|
            k <= l < m && 0 <= a < meshes[l].nodes.len() ==> lower((
            #[trigger] meshes[l].nodes[a]).name) != lower(name),
        forall|a: int|
            0 <= a < i ==> lower((#[trigger] meshes[m].nodes[a]).name) != lower(name),
        lower(meshes[m].nodes[i].name) == lower(name),
        meshes[m].nodes[i].parent == meshes[m].nodes[p].index,
        meshes[m].nodes[i].parent >= 0,
    ensures
        parent_among(meshes, name, k) == Some(meshes[m].nodes[p].name),
    decreases m - k,
{
    if k < m {
        assert forall|a: int| 0 <= a < meshes[k].nodes.len() implies lower((
        #[trigger] meshes[k].nodes[a]).name) != lower(name) by {}
        no_parent_found(meshes[k].nodes, name, 0);
        parent_found_in(meshes, name, k + 1, m, i, p);
    } else {
        parent_found(meshes[m].nodes, name, 0, i, p);
    }
}

/// A bone hangs where its definition says, else where the first mesh that has it hangs it: from the
/// bone whose number that mesh gives as the parent.
pub proof fn bones_hang_where_meshes_say(
    b: BoneView,
    meshes: Seq<SmdView>,
    merged: Seq<Seq<char>>,
    m: int,
    i: int,
    p: int,
)
    requires
        0 <= m < meshes.len(),
        0 <= i < meshes[m].nodes.len(),
        0 <= p < meshes[m].nodes.len(),
        forall|a: int, b: int|
            0 <= a < b < meshes[m].nodes.len() ==> (#[trigger] meshes[m].nodes[a]).index != (
            #[trigger] meshes[m].nodes[b]).index,
        forall|l: int, a: int|
            0 <= l < m && 0 <= a < meshes[l].nodes.len() ==> lower((
            #[trigger] meshes[l].nodes[a]).name) != lower(b.name),
        forall|a: int|
            0 <= a < i ==> lower((#[trigger] meshes[m].nodes[a]).name) != lower(b.name),
        lower(meshes[m].nodes[i].name) == lower(b.name),
        meshes[m].nodes[i].parent == meshes[m].nodes[p].index,
        meshes[m].nodes[i].parent >= 0,
    ensures
        b.parent is None ==> completed(b, meshes, merged).parent == Some(meshes[m].nodes[p].name),
        b.parent is Some ==> completed(b, meshes, merged).parent == b.parent,
{
    parent_found_in(meshes, b.name, 0, m, i, p);
}

proof fn name_is_found(names: Seq<Seq<char>>, name: Seq<char>, k: int)
    requires
        0 <= k,
    ensures
        find_name(names, name, k) is Some <==> exists|i: int|
            k <= i < names.len() && lower(#[trigger] names[i]) == lower(name),
    decreases names.len() - k,
{
    if k < names.len() {
        name_is_found(names, name, k + 1);
        if lower(names[k]) != lower(name) && find_name(names, name, k) is None {
            assert forall|i: int| k <= i < names.len() implies lower(#[trigger] names[i]) != lower(
                name,
            ) by {
                if i > k {
                    assert(!(k + 1 <= i < names.len() && lower(names[i]) == lower(name)));
                }
            }
        }
    }
}

/// The bones that the script merges are marked, and nothing else of a bone changes but its parent.
pub proof fn merged_bones_are_marked(b: BoneView, meshes: Seq<SmdView>, merged: Seq<Seq<char>>)
    ensures
        ({
            let done = completed(b, meshes, merged);
            &&& done.bonemerge <==> b.bonemerge || exists|i: int|
                0 <= i < merged.len() && lower(#[trigger] merged[i]) == lower(b.name)
            &&& (BoneView { bonemerge: b.bonemerge, parent: b.parent, ..done }) == b
        }),
{
    name_is_found(merged, b.name, 0);
}

/// The last surface that the script gives a bone is the bone's, and nothing else of it changes.
pub proof fn the_last_surface_counts(bones: Seq<BoneView>, props: Seq<PairView>, k: int, i: int)
    requires
        names_differ(bones),
        0 <= k,
        0 <= i < bones.len(),
    ensures
        with_props(bones, props, k).len() == bones.len(),
        ({
            let done = with_props(bones, props, k)[i];
            &&& (BoneView { surface_prop: bones[i].surface_prop, ..done }) == bones[i]
            &&& forall|j: int| #![trigger props[j]]
                k <= j < props.len() && lower(props[j].a) == lower(bones[i].name) && (forall|l: int|
                    j < l < props.len() ==> lower((#[trigger] props[l]).a) != lower(bones[i].name))
                    ==> done.surface_prop == Some(props[j].b)
            &&& (forall|j: int|
                k <= j < props.len() ==> lower((#[trigger] props[j]).a) != lower(bones[i].name))
                ==> done.surface_prop == bones[i].surface_prop
        }),
    decreases props.len() - k,
{
    if k < props.len() {
        bone_found(bones, props[k].a, 0);
        let next = match find_bone(bones, props[k].a, 0) {
            Some(f) => bones.update(f, BoneView { surface_prop: Some(props[k].b), ..bones[f] }),
            None => bones,
        };
        assert(next.len() == bones.len());
        assert forall|a: int, b: int| 0 <= a < b < next.len() implies lower(
            #[trigger] next[a].name,
        ) != lower(#[trigger] next[b].name) by {
            assert(next[a].name == bones[a].name && next[b].name == bones[b].name);
        }
        if lower(props[k].a) == lower(bones[i].name) {
            let f = find_bone(bones, props[k].a, 0)->0;
            assert(f == i) by {
                if f < i {
                    assert(lower(bones[f].name) != lower(bones[i].name));
                } else if i < f {
                    assert(lower(bones[i].name) != lower(bones[f].name));
                }
            }
            assert(next[i].surface_prop == Some(props[k].b));
        } else {
            assert(next[i] == bones[i]);
        }
        the_last_surface_counts(next, props, k + 1, i);
    }
}

proof fn behind_last_is(s: Seq<char>, c: char, at: int, n: int)
    requires
        0 <= at < n <= s.len(),
        s[at] == c,
        forall|i: int| at < i < n ==> #[trigger] s[i] != c,
    ensures
        behind_last(s, c, n) == at + 1,
    decreases n,
{
    if n - 1 > at {
        behind_last_is(s, c, at, n - 1);
    }
}

proof fn behind_last_is_start(s: Seq<char>, c: char, n: int)
    requires
        0 <= n <= s.len(),
        forall|i: int| 0 <= i < n ==> #[trigger] s[i] != c,
    ensures
        behind_last(s, c, n) == 0,
    decreases n,
{
    if n > 0 {
        behind_last_is_start(s, c, n - 1);
    }
}

/// A path that is a directory, a slash, a name, a dot and an ending has that directory and that
/// name.
pub proof fn paths_part_at_slash_and_dot(
    dir: Seq<char>,
    name: Seq<char>,
    ending: Seq<char>,
)
    requires
        dir.len() > 0,
        name.len() > 0,
        ending.len() > 0,
        !name.contains('/'),
        !ending.contains('/'),
        !ending.contains('.'),
    ensures
        directory(dir + seq!['/'] + name + seq!['.'] + ending) == dir,
        stem(dir + seq!['/'] + name + seq!['.'] + ending) == name,
{
    let base = name + seq!['.'] + ending;
    let path = dir + seq!['/'] + name + seq!['.'] + ending;
    let at = dir.len() as int;
    assert forall|i: int| at < i < path.len() implies #[trigger] path[i] != '/' by {
        if i < at + 1 + name.len() {
            assert(path[i] == name[i - at - 1]);
            assert(name.contains(name[i - at - 1]));
        } else if i > at + 1 + name.len() {
            assert(path[i] == ending[i - at - 2 - name.len()]);
            assert(ending.contains(path[i]));
        }
    }
    behind_last_is(path, '/', at, path.len() as int);
    assert(path.take(at) =~= dir);
    assert(path.skip(at + 1) =~= base);
    assert forall|i: int| name.len() < i < base.len() implies #[trigger] base[i] != '.' by {
        assert(base[i] == ending[i - name.len() - 1]);
        assert(ending.contains(base[i]));
    }
    behind_last_is(base, '.', name.len() as int, base.len() as int);
    assert(base.take(name.len() as int) =~= name);
    assert(base.len() >= 3);
    assert("."@.len() == 1 && ".."@.len() == 2) by {
        reveal_strlit(".");
        reveal_strlit("..");
    }
}

} // verus!
