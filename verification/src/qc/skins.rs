//! The table of materials, and the skins.
use vstd::prelude::*;

use super::model::rows;
use crate::seqs::{distinct, viewed, viewing};
use crate::smd::{materials, Smd, SmdView};
use crate::text::same;
use crate::words::views;

verus! {

broadcast use viewing;

/// A material noted, unless it is known or has no name.
pub open spec fn noted(order: Seq<Seq<char>>, name: Seq<char>) -> Seq<Seq<char>> {
    if name.len() == 0 || order.contains(name) {
        order
    } else {
        order.push(name)
    }
}

/// Materials noted, from the `k`-th on.
pub open spec fn noted_all(order: Seq<Seq<char>>, names: Seq<Seq<char>>, k: int) -> Seq<Seq<char>>
    decreases names.len() - k,
{
    if k < 0 || k >= names.len() {
        order
    } else {
        noted_all(noted(order, names[k]), names, k + 1)
    }
}

/// The materials of families noted, from the `k`-th on.
pub open spec fn noted_rows(order: Seq<Seq<char>>, list: Seq<Seq<Seq<char>>>, k: int) -> Seq<
    Seq<char>,
>
    decreases list.len() - k,
{
    if k < 0 || k >= list.len() {
        order
    } else {
        noted_rows(noted_all(order, list[k], 0), list, k + 1)
    }
}

/// The materials of meshes noted, from the `k`-th on.
pub open spec fn noted_meshes(order: Seq<Seq<char>>, meshes: Seq<SmdView>, k: int) -> Seq<
    Seq<char>,
>
    decreases meshes.len() - k,
{
    if k < 0 || k >= meshes.len() {
        order
    } else {
        noted_meshes(
            noted_all(order, distinct(materials(meshes[k].triangles)), 0),
            meshes,
            k + 1,
        )
    }
}

/// The materials: those of the families first, then those of the meshes in order of appearance.
pub open spec fn textures(list: Seq<Seq<Seq<char>>>, meshes: Seq<SmdView>) -> Seq<Seq<char>> {
    noted_meshes(noted_rows(Seq::empty(), list, 0), meshes, 0)
}

/// The families of the first group.
pub open spec fn first_group(groups: Seq<Seq<Seq<Seq<char>>>>) -> Seq<Seq<Seq<char>>> {
    if groups.len() == 0 {
        Seq::empty()
    } else {
        groups[0]
    }
}

/// Where a name stands, from `i` on.
pub open spec fn place(order: Seq<Seq<char>>, name: Seq<char>, i: int) -> Option<int>
    decreases order.len() - i,
{
    if i < 0 || i >= order.len() {
        None
    } else if order[i] == name {
        Some(i)
    } else {
        place(order, name, i + 1)
    }
}

/// Where a name stands.
pub fn place_of(order: &Vec<String>, name: &str) -> (r: Option<usize>)
    ensures
        match r {
            Some(i) => i < order@.len() && place(viewed(order@), name@, 0) == Some(i as int),
            None => place(viewed(order@), name@, 0) is None,
        },
{
    let mut i: usize = 0;
    while i < order.len()
        invariant
            i <= order@.len(),
            place(viewed(order@), name@, i as int) == place(viewed(order@), name@, 0),
        decreases order@.len() - i,
    {
        assert(viewed(order@)[i as int] == order@[i as int]@);
        if same(order[i].as_str(), name) {
            return Some(i);
        }
        i = i + 1;
    }
    None
}

/// A name stands somewhere exactly if it is there.
proof fn place_tells(order: Seq<Seq<char>>, name: Seq<char>, i: int)
    requires
        0 <= i <= order.len(),
    ensures
        place(order, name, i) is Some <==> exists|j: int|
            i <= j < order.len() && #[trigger] order[j] == name,
    decreases order.len() - i,
{
    if i < order.len() && order[i] != name {
        place_tells(order, name, i + 1);
        if place(order, name, i) is Some {
            let j = choose|j: int| i + 1 <= j < order.len() && #[trigger] order[j] == name;
            assert(order[j] == name);
        }
    }
}

/// Notes a material.
fn register_texture(order: &mut Vec<String>, name: &str)
    ensures
        viewed(final(order)@) == noted(viewed(old(order)@), name@),
{
    proof {
        place_tells(viewed(order@), name@, 0);
    }
    if !super::settings::is_blank(name) && place_of(order, name).is_none() {
        order.push(name.to_owned());
    }
}

/// Notes materials.
fn register_all(order: &mut Vec<String>, names: &Vec<String>)
    ensures
        viewed(final(order)@) == noted_all(viewed(old(order)@), viewed(names@), 0),
{
    let mut k: usize = 0;
    while k < names.len()
        invariant
            k <= names@.len(),
            noted_all(viewed(order@), viewed(names@), k as int) == noted_all(
                viewed(old(order)@),
                viewed(names@),
                0,
            ),
        decreases names@.len() - k,
    {
        assert(viewed(names@)[k as int] == names@[k as int]@);
        register_texture(order, names[k].as_str());
        k = k + 1;
    }
}

/// The materials: those of the families first, then those of the meshes in order of appearance.
pub fn list_textures(families: &Vec<Vec<String>>, meshes: &Vec<Smd>) -> (r: Vec<String>)
    ensures
        viewed(r@) == textures(rows(families@), viewed(meshes@)),
{
    let mut order: Vec<String> = Vec::new();
    let mut k: usize = 0;
    while k < families.len()
        invariant
            k <= families@.len(),
            noted_rows(viewed(order@), rows(families@), k as int) == noted_rows(
                Seq::empty(),
                rows(families@),
                0,
            ),
        decreases families@.len() - k,
    {
        assert(rows(families@)[k as int] == viewed(families@[k as int]@));
        register_all(&mut order, &families[k]);
        k = k + 1;
    }
    let mut m: usize = 0;
    while m < meshes.len()
        invariant
            m <= meshes@.len(),
            noted_meshes(viewed(order@), viewed(meshes@), m as int) == textures(
                rows(families@),
                viewed(meshes@),
            ),
        decreases meshes@.len() - m,
    {
        assert(viewed(meshes@)[m as int] == meshes@[m as int]@);
        let names: Vec<String> = meshes[m].materials_in_order();
        assert(viewed(names@) =~= views(names@));
        register_all(&mut order, &names);
        m = m + 1;
    }
    order
}

/// A skin with the materials of a family, from the `j`-th on, in the places that the first family
/// has.
pub open spec fn skin_from(
    row: Seq<i32>,
    order: Seq<Seq<char>>,
    base: Seq<Seq<char>>,
    names: Seq<Seq<char>>,
    j: int,
) -> Seq<i32>
    decreases names.len() - j,
{
    if j < 0 || j >= names.len() || j >= base.len() {
        row
    } else {
        let row = match place(order, base[j], 0) {
            Some(slot) => row.update(
                slot,
                match place(order, names[j], 0) {
                    Some(i) => i as i32,
                    None => slot as i32,
                },
            ),
            None => row,
        };
        skin_from(row, order, base, names, j + 1)
    }
}

/// Each material in its own place.
pub open spec fn identity(n: nat) -> Seq<i32> {
    Seq::new(n, |i: int| i as i32)
}

/// The skins: for each family the material in each place.
pub open spec fn skins(order: Seq<Seq<char>>, list: Seq<Seq<Seq<char>>>) -> Seq<Seq<i32>> {
    Seq::new(list.len(), |i: int| skin_from(identity(order.len()), order, list[0], list[i], 0))
}

/// A skin.
fn build_skin(order: &Vec<String>, base: &Vec<String>, names: &Vec<String>) -> (r: Vec<i32>)
    ensures
        r@ == skin_from(
            identity(order@.len()),
            viewed(order@),
            viewed(base@),
            viewed(names@),
            0,
        ),
{
    let n: usize = order.len();
    let mut row: Vec<i32> = Vec::new();
    let mut k: usize = 0;
    while k < n
        invariant
            k <= n,
            n == order@.len(),
            row@ == identity(n as nat).take(k as int),
        decreases n - k,
    {
        row.push(
            #[verifier::truncate]
            (k as i32),
        );
        assert(row@ =~= identity(n as nat).take(k + 1));
        k = k + 1;
    }
    assert(row@ =~= identity(n as nat));
    let mut j: usize = 0;
    let ghost want = skin_from(
        identity(n as nat),
        viewed(order@),
        viewed(base@),
        viewed(names@),
        0,
    );
    while j < names.len() && j < base.len()
        invariant
            j <= names@.len(),
            n == order@.len() == row@.len(),
            skin_from(row@, viewed(order@), viewed(base@), viewed(names@), j as int) == want,
        decreases names@.len() - j,
    {
        assert(viewed(base@)[j as int] == base@[j as int]@);
        assert(viewed(names@)[j as int] == names@[j as int]@);
        if let Some(slot) = place_of(order, base[j].as_str()) {
            let i: usize = match place_of(order, names[j].as_str()) {
                Some(i) => i,
                None => slot,
            };
            row.set(
                slot,
                #[verifier::truncate]
                (i as i32),
            );
        }
        j = j + 1;
    }
    row
}

/// The skins.
pub fn build_skins(order: &Vec<String>, families: &Vec<Vec<String>>) -> (r: Vec<Vec<i32>>)
    ensures
        viewed(r@) == skins(viewed(order@), rows(families@)),
{
    let mut out: Vec<Vec<i32>> = Vec::new();
    let ghost want = skins(viewed(order@), rows(families@));
    let mut k: usize = 0;
    while k < families.len()
        invariant
            k <= families@.len(),
            want == skins(viewed(order@), rows(families@)),
            viewed(out@) == want.take(k as int),
        decreases families@.len() - k,
    {
        assert(rows(families@)[k as int] == viewed(families@[k as int]@));
        assert(rows(families@)[0] == viewed(families@[0]@));
        let row: Vec<i32> = build_skin(order, &families[0], &families[k]);
        assert(viewed(order@).len() == order@.len());
        assert(row@ == want[k as int]);
        out.push(row);
        assert(viewed(out@) =~= want.take(k + 1));
        k = k + 1;
    }
    assert(viewed(out@) =~= want);
    out
}

/// No material stands twice, and each has a name.
pub open spec fn well_noted(order: Seq<Seq<char>>) -> bool {
    order.no_duplicates() && forall|i: int| 0 <= i < order.len() ==> (#[trigger] order[i]).len() > 0
}

proof fn noted_all_well(order: Seq<Seq<char>>, names: Seq<Seq<char>>, k: int)
    requires
        well_noted(order),
    ensures
        well_noted(noted_all(order, names, k)),
    decreases names.len() - k,
{
    if 0 <= k < names.len() {
        noted_all_well(noted(order, names[k]), names, k + 1);
    }
}

proof fn noted_rows_well(order: Seq<Seq<char>>, list: Seq<Seq<Seq<char>>>, k: int)
    requires
        well_noted(order),
    ensures
        well_noted(noted_rows(order, list, k)),
    decreases list.len() - k,
{
    if 0 <= k < list.len() {
        noted_all_well(order, list[k], 0);
        noted_rows_well(noted_all(order, list[k], 0), list, k + 1);
    }
}

proof fn noted_meshes_well(order: Seq<Seq<char>>, meshes: Seq<SmdView>, k: int)
    requires
        well_noted(order),
    ensures
        well_noted(noted_meshes(order, meshes, k)),
    decreases meshes.len() - k,
{
    if 0 <= k < meshes.len() {
        let names = distinct(materials(meshes[k].triangles));
        noted_all_well(order, names, 0);
        noted_meshes_well(noted_all(order, names, 0), meshes, k + 1);
    }
}

/// The table of materials holds each name once, and no name that is empty.
pub proof fn materials_are_noted_once(list: Seq<Seq<Seq<char>>>, meshes: Seq<SmdView>)
    ensures
        well_noted(textures(list, meshes)),
{
    noted_rows_well(Seq::empty(), list, 0);
    noted_meshes_well(noted_rows(Seq::empty(), list, 0), meshes, 0);
}

proof fn place_is_inside(order: Seq<Seq<char>>, name: Seq<char>, i: int)
    ensures
        place(order, name, i) matches Some(k) ==> i <= k < order.len() && order[k] == name,
    decreases order.len() - i,
{
    if 0 <= i < order.len() && order[i] != name {
        place_is_inside(order, name, i + 1);
    }
}

proof fn skin_stays_inside(
    row: Seq<i32>,
    order: Seq<Seq<char>>,
    base: Seq<Seq<char>>,
    names: Seq<Seq<char>>,
    j: int,
)
    requires
        order.len() <= i32::MAX,
        row.len() == order.len(),
        forall|i: int| 0 <= i < row.len() ==> 0 <= (#[trigger] row[i]) < order.len(),
    ensures
        skin_from(row, order, base, names, j).len() == order.len(),
        forall|i: int|
            0 <= i < order.len() ==> 0 <= (#[trigger] skin_from(row, order, base, names, j)[i])
                < order.len(),
    decreases names.len() - j,
{
    if 0 <= j < names.len() && j < base.len() {
        place_is_inside(order, base[j], 0);
        place_is_inside(order, names[j], 0);
        let next = match place(order, base[j], 0) {
            Some(slot) => row.update(
                slot,
                match place(order, names[j], 0) {
                    Some(i) => i as i32,
                    None => slot as i32,
                },
            ),
            None => row,
        };
        skin_stays_inside(next, order, base, names, j + 1);
    }
}

/// Each skin has a material in each place, and only materials of the table.
pub proof fn skins_stay_in_the_table(order: Seq<Seq<char>>, list: Seq<Seq<Seq<char>>>)
    requires
        order.len() <= i32::MAX,
    ensures
        skins(order, list).len() == list.len(),
        forall|k: int, i: int|
            0 <= k < list.len() && 0 <= i < order.len() ==> 0 <= (#[trigger] skins(
                order,
                list,
            )[k][i]) < order.len(),
{
    assert forall|k: int, i: int| 0 <= k < list.len() && 0 <= i < order.len() implies 0 <= (
    #[trigger] skins(order, list)[k][i]) < order.len() by {
        skin_stays_inside(identity(order.len()), order, list[0], list[k], 0);
    }
}

proof fn same_place(row: Seq<i32>, order: Seq<Seq<char>>, base: Seq<Seq<char>>, j: int)
    requires
        order.len() <= i32::MAX,
        row == identity(order.len()),
    ensures
        skin_from(row, order, base, base, j) == row,
    decreases base.len() - j,
{
    if 0 <= j < base.len() {
        place_is_inside(order, base[j], 0);
        match place(order, base[j], 0) {
            Some(slot) => {
                assert(row.update(slot, slot as i32) =~= row);
            },
            None => {},
        }
        same_place(row, order, base, j + 1);
    }
}

/// The first skin has each material in its own place.
pub proof fn first_skin_is_plain(order: Seq<Seq<char>>, list: Seq<Seq<Seq<char>>>)
    requires
        order.len() <= i32::MAX,
        list.len() > 0,
    ensures
        skins(order, list)[0] == identity(order.len()),
{
    same_place(identity(order.len()), order, list[0], 0);
}

} // verus!
