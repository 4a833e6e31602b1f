//! Writing collision files.
use vstd::prelude::*;

use super::check::{
    check_invariants, phy_ok, COLLIDE_POLY, VPHYSICS_COLLISION_VERSION, VPHYSICS_ID,
};
use super::faults::told;
use super::error::{complains, PhyError};
use super::bounds::{points_exist, prepared_points_exist};
use super::mass::{all_measured, measure_all, SolidMeasures};
use super::params::{PhyParams, PhySolid};
use super::placed::{place_hulls, placed_hulls};
use super::section::{build_text_section, section_bytes};
use super::solid::{
    corners, prepare_solid, prepares, solid_error, solid_good, HullView, PhyHull,
    PreparedSolid,
};
use super::surface::{
    bone_error, build_solid_body, client_data, prepared_is_sound, solid_bytes, SolidGeometry,
};
use super::tree::tree;
use crate::bytes::{le16, le32, put_all, put_i16, put_i32, put_u16, put_u32, wrap16};
use crate::plain::{plain_digits, print_plain};
use crate::single::{finite, is_finite};
use crate::text::{decimal, holds_char, push_decimal};

verus! {

/// The bytes of a solid's header.
pub open spec fn solid_header(size: int) -> Seq<u8> {
    le32((size + 28) as u32) + le32(VPHYSICS_ID) + le16(VPHYSICS_COLLISION_VERSION) + le16(
        wrap16(COLLIDE_POLY),
    ) + le32(size as u32) + le32(0x3F80_0000) + le32(0x3F80_0000) + le32(0x3F80_0000) + le32(0)
}

/// The bytes of the first `n` solids.
pub open spec fn solids_bytes(
    ps: Seq<PreparedSolid>,
    g: Seq<SolidGeometry>,
    solids: Seq<PhySolid>,
    n: int,
) -> Seq<u8>
    decreases n,
{
    if n <= 0 {
        Seq::empty()
    } else {
        solids_bytes(ps, g, solids, n - 1) + solid_header(ps[n - 1].surface_size as int)
            + solid_bytes(ps[n - 1], g[n - 1], solids[n - 1].bone_index)
    }
}

/// The bytes of the file header.
pub open spec fn file_header(n: int, checksum: u32) -> Seq<u8> {
    le32(16) + le32(0) + le32(n as u32) + le32(checksum)
}

/// The bytes of a file: header, solids, text.
pub open spec fn file_bytes(
    ps: Seq<PreparedSolid>,
    g: Seq<SolidGeometry>,
    solids: Seq<PhySolid>,
    params: PhyParams,
) -> Seq<u8> {
    file_header(ps.len() as int, params.checksum) + solids_bytes(ps, g, solids, ps.len() as int)
        + section_bytes(solids, g, params)
}

/// The number is finite and greater than zero.
pub open spec fn is_positive(bits: u32) -> bool {
    0 < bits < 0x7F80_0000
}

/// The number is finite and not less than zero.
pub open spec fn is_not_negative(bits: u32) -> bool {
    is_finite(bits) && (bits < 0x8000_0000 || bits == 0x8000_0000)
}

/// A solid's names hold no zero character.
pub open spec fn names_ok(s: PhySolid) -> bool {
    &&& !s.name@.contains('\0')
    &&& match s.parent {
        Some(p) => !p@.contains('\0'),
        None => true,
    }
}

/// All solids' names hold no zero character.
pub open spec fn all_names_ok(solids: Seq<PhySolid>) -> bool {
    forall|i: int| 0 <= i < solids.len() ==> names_ok(#[trigger] solids[i])
}

/// The hulls of solid `i`, as the file has them.
pub open spec fn hulls_of(hulls: Seq<Vec<PhyHull>>, i: int) -> Seq<HullView> {
    placed_hulls(hulls[i]@)
}

/// The hulls of each solid make up a solid.
pub open spec fn all_solids_good(hulls: Seq<Vec<PhyHull>>) -> bool {
    forall|i: int| 0 <= i < hulls.len() ==> #[trigger] solid_good(hulls_of(hulls, i))
}

/// There are measures for each solid and each of its hulls.
pub open spec fn measures_fit(hulls: Seq<Vec<PhyHull>>, ms: Seq<SolidMeasures>) -> bool {
    &&& ms.len() == hulls.len()
    &&& forall|i: int|
        0 <= i < ms.len() ==> (#[trigger] ms[i]).masses@.len() == hulls[i]@.len()
}

/// Each bone's index fits.
pub open spec fn bones_fit(solids: Seq<PhySolid>) -> bool {
    forall|i: int|
        0 <= i < solids.len() ==> client_data((#[trigger] solids[i]).bone_index) <= i32::MAX
}

/// A file can be made of the hulls and parameters.
pub open spec fn writable(
    hulls: Seq<Vec<PhyHull>>,
    ms: Seq<SolidMeasures>,
    solids: Seq<PhySolid>,
    params: PhyParams,
) -> bool {
    &&& 0 < hulls.len() <= i32::MAX
    &&& hulls.len() == solids.len()
    &&& is_positive(params.total_mass)
    &&& is_not_negative(params.inertia_scale)
    &&& all_names_ok(solids)
    &&& all_solids_good(hulls)
    &&& measures_fit(hulls, ms)
    &&& bones_fit(solids)
}

/// The zero character that the names of solid `i` hold.
pub open spec fn name_error(i: int, s: PhySolid) -> Seq<char> {
    "solid["@ + decimal(i as nat) + "] 的 "@ + (if s.name@.contains('\0') {
        "name"@
    } else {
        "parent"@
    }) + " 里有 NUL 字节"@
}

/// The index of a bone does not fit.
pub open spec fn bones_error(solids: Seq<PhySolid>, e: PhyError) -> bool {
    exists|i: int|
        {
            &&& 0 <= i < solids.len()
            &&& client_data((#[trigger] solids[i]).bone_index) > i32::MAX
            &&& forall|j: int|
                0 <= j < i ==> client_data((#[trigger] solids[j]).bone_index) <= i32::MAX
            &&& complains(e, "bone_index"@, bone_error(solids[i].bone_index->0))
        }
}

/// What keeps a file from being made of the hulls and parameters.
pub open spec fn write_error(
    hulls: Seq<Vec<PhyHull>>,
    ms: Seq<SolidMeasures>,
    solids: Seq<PhySolid>,
    params: PhyParams,
    e: PhyError,
) -> bool {
    if hulls.len() == 0 {
        complains(e, "hulls"@, "至少需要一个 solid"@)
    } else if hulls.len() > i32::MAX {
        complains(e, "hulls"@, "solid 数超出 i32"@)
    } else if hulls.len() != solids.len() {
        complains(
            e,
            "solids"@,
            decimal(hulls.len()) + " 个 solid 凸块组但 "@ + decimal(solids.len())
                + " 个 solid 参数"@,
        )
    } else if !is_positive(params.total_mass) {
        complains(
            e,
            "total_mass"@,
            "必须是正的有限数，实际 "@ + plain_digits(params.total_mass),
        )
    } else if !is_not_negative(params.inertia_scale) {
        complains(
            e,
            "inertia_scale"@,
            "必须是非负有限数，实际 "@ + plain_digits(params.inertia_scale),
        )
    } else if !all_names_ok(solids) {
        exists|i: int|
            {
                &&& 0 <= i < solids.len()
                &&& !names_ok(#[trigger] solids[i])
                &&& forall|j: int| 0 <= j < i ==> names_ok(#[trigger] solids[j])
                &&& complains(e, "solids[].name/parent"@, name_error(i, solids[i]))
            }
    } else if !all_solids_good(hulls) {
        exists|i: int|
            {
                &&& 0 <= i < hulls.len()
                &&& !#[trigger] solid_good(hulls_of(hulls, i))
                &&& forall|j: int| 0 <= j < i ==> #[trigger] solid_good(hulls_of(hulls, j))
                &&& solid_error(i as usize, hulls_of(hulls, i), e)
            }
    } else if !measures_fit(hulls, ms) {
        complains(e, "measures"@, "not one measure for each solid and hull"@)
    } else {
        bones_error(solids, e)
    }
}

/// `ps` are the solids that the hulls make up.
pub open spec fn prepares_all(ps: Seq<PreparedSolid>, hulls: Seq<Vec<PhyHull>>) -> bool {
    &&& ps.len() == hulls.len()
    &&& forall|i: int| 0 <= i < ps.len() ==> prepares(#[trigger] ps[i], hulls_of(hulls, i))
}

/// A complaint.
fn complain(what: &'static str, detail: &str) -> (r: PhyError)
    ensures
        complains(r, what@, detail@),
{
    PhyError::BadParameter { what, detail: detail.to_owned() }
}

/// A complaint about a number.
fn complain_of(what: &'static str, detail: &str, v: u32) -> (r: PhyError)
    ensures
        complains(r, what@, detail@ + plain_digits(v)),
{
    let mut m: String = detail.to_owned();
    let t: String = print_plain(v);
    m.push_str(t.as_str());
    PhyError::BadParameter { what, detail: m }
}

/// A complaint about the number of solids.
fn complain_of_counts(hulls: usize, solids: usize) -> (r: PhyError)
    ensures
        complains(
            r,
            "solids"@,
            decimal(hulls as nat) + " 个 solid 凸块组但 "@ + decimal(solids as nat)
                + " 个 solid 参数"@,
        ),
{
    let mut m: String = String::new();
    push_decimal(&mut m, hulls as u64);
    assert(m@ =~= decimal(hulls as nat));
    m.push_str(" 个 solid 凸块组但 ");
    push_decimal(&mut m, solids as u64);
    m.push_str(" 个 solid 参数");
    PhyError::BadParameter { what: "solids", detail: m }
}

/// A complaint about the names of solid `i`.
fn complain_of_name(i: usize, in_name: bool, Ghost(s): Ghost<PhySolid>) -> (r: PhyError)
    requires
        in_name == s.name@.contains('\0'),
    ensures
        complains(r, "solids[].name/parent"@, name_error(i as int, s)),
{
    let mut m: String = "solid[".to_owned();
    push_decimal(&mut m, i as u64);
    m.push_str("] 的 ");
    if in_name {
        m.push_str("name");
    } else {
        m.push_str("parent");
    }
    m.push_str(" 里有 NUL 字节");
    PhyError::BadParameter { what: "solids[].name/parent", detail: m }
}

/// The complaint about the first names that hold a zero character.
fn check_names(solids: &Vec<PhySolid>) -> (r: Option<PhyError>)
    ensures
        match r {
            Some(e) => {
                &&& !all_names_ok(solids@)
                &&& exists|i: int|
                    {
                        &&& 0 <= i < solids@.len()
                        &&& !names_ok(#[trigger] solids@[i])
                        &&& forall|j: int| 0 <= j < i ==> names_ok(#[trigger] solids@[j])
                        &&& complains(e, "solids[].name/parent"@, name_error(i, solids@[i]))
                    }
            },
            None => all_names_ok(solids@),
        },
{
    let mut i: usize = 0;
    while i < solids.len()
        invariant
            i <= solids@.len(),
            forall|j: int| 0 <= j < i ==> names_ok(#[trigger] solids@[j]),
        decreases solids@.len() - i,
    {
        let s: &PhySolid = &solids[i];
        let parent: bool = match &s.parent {
            Some(p) => holds_char(p.as_str(), '\0'),
            None => false,
        };
        let name: bool = holds_char(s.name.as_str(), '\0');
        if name || parent {
            assert(!names_ok(solids@[i as int]));
            return Some(complain_of_name(i, name, Ghost(solids@[i as int])));
        }
        i = i + 1;
    }
    None
}

/// Tells whether there are measures for each solid and each of its hulls.
fn check_measures(hulls: &Vec<Vec<PhyHull>>, ms: &Vec<SolidMeasures>) -> (r: bool)
    ensures
        r == measures_fit(hulls@, ms@),
{
    if ms.len() != hulls.len() {
        return false;
    }
    let mut i: usize = 0;
    while i < ms.len()
        invariant
            i <= ms@.len(),
            ms@.len() == hulls@.len(),
            forall|j: int| 0 <= j < i ==> (#[trigger] ms@[j]).masses@.len() == hulls@[j]@.len(),
        decreases ms@.len() - i,
    {
        if ms[i].masses.len() != hulls[i].len() {
            assert(ms@[i as int].masses@.len() != hulls@[i as int]@.len());
            return false;
        }
        i = i + 1;
    }
    true
}

/// Prepares each solid.
fn prepare_all(hulls: &Vec<Vec<PhyHull>>) -> (r: Result<Vec<PreparedSolid>, PhyError>)
    requires
        forall|i: int|
            0 <= i < hulls@.len() ==> corners(
                #[trigger] hulls_of(hulls@, i),
                hulls@[i]@.len() as int,
            ).len() < u32::MAX,
    ensures
        match r {
            Ok(ps) => all_solids_good(hulls@) && prepares_all(ps@, hulls@),
            Err(e) => exists|i: int|
                {
                    &&& 0 <= i < hulls@.len()
                    &&& !#[trigger] solid_good(hulls_of(hulls@, i))
                    &&& forall|j: int| 0 <= j < i ==> #[trigger] solid_good(hulls_of(hulls@, j))
                    &&& solid_error(i as usize, hulls_of(hulls@, i), e)
                },
        },
{
    let mut out: Vec<PreparedSolid> = Vec::new();
    let mut i: usize = 0;
    while i < hulls.len()
        invariant
            i <= hulls@.len(),
            out@.len() == i,
            forall|i: int|
                0 <= i < hulls@.len() ==> corners(
                    #[trigger] hulls_of(hulls@, i),
                    hulls@[i]@.len() as int,
                ).len() < u32::MAX,
            forall|j: int| 0 <= j < i ==> prepares(#[trigger] out@[j], hulls_of(hulls@, j)),
            forall|j: int| 0 <= j < i ==> #[trigger] solid_good(hulls_of(hulls@, j)),
        decreases hulls@.len() - i,
    {
        assert(corners(hulls_of(hulls@, i as int), hulls@[i as int]@.len() as int).len()
            < u32::MAX);
        let placed: Vec<PhyHull> = place_hulls(&hulls[i]);
        match prepare_solid(i, &placed) {
            Ok(p) => {
                assert(solid_good(hulls_of(hulls@, i as int)));
                out.push(p);
            },
            Err(e) => {
                assert(!solid_good(hulls_of(hulls@, i as int)));
                return Err(e);
            },
        }
        i = i + 1;
    }
    Ok(out)
}

/// The bytes of each solid.
fn build_bodies(ps: &Vec<PreparedSolid>, g: &Vec<SolidGeometry>, solids: &Vec<PhySolid>) -> (r:
    Result<Vec<Vec<u8>>, PhyError>)
    requires
        ps@.len() == g@.len(),
        ps@.len() == solids@.len(),
        forall|i: int|
            0 <= i < ps@.len() ==> super::surface::solid_sound(#[trigger] ps@[i])
                && g@[i].nodes@.len() == ps@[i].nodes@.len(),
    ensures
        match r {
            Ok(b) => {
                &&& bones_fit(solids@)
                &&& b@.len() == ps@.len()
                &&& forall|i: int|
                    0 <= i < b@.len() ==> (#[trigger] b@[i])@ == solid_bytes(
                        ps@[i],
                        g@[i],
                        solids@[i].bone_index,
                    )
            },
            Err(e) => !bones_fit(solids@) && bones_error(solids@, e),
        },
{
    let mut out: Vec<Vec<u8>> = Vec::new();
    let mut i: usize = 0;
    while i < ps.len()
        invariant
            i <= ps@.len(),
            ps@.len() == g@.len(),
            ps@.len() == solids@.len(),
            forall|i: int|
                0 <= i < ps@.len() ==> super::surface::solid_sound(#[trigger] ps@[i])
                    && g@[i].nodes@.len() == ps@[i].nodes@.len(),
            out@.len() == i,
            forall|j: int|
                0 <= j < i ==> client_data((#[trigger] solids@[j]).bone_index) <= i32::MAX,
            forall|j: int|
                0 <= j < i ==> (#[trigger] out@[j])@ == solid_bytes(
                    ps@[j],
                    g@[j],
                    solids@[j].bone_index,
                ),
        decreases ps@.len() - i,
    {
        assert(super::surface::solid_sound(ps@[i as int]));
        match build_solid_body(&ps[i], &g[i], solids[i].bone_index) {
            Ok(b) => out.push(b),
            Err(e) => {
                assert(client_data(solids@[i as int].bone_index) > i32::MAX);
                return Err(e);
            },
        }
        i = i + 1;
    }
    Ok(out)
}

/// Appends a solid's header.
fn put_solid_header(buf: &mut Vec<u8>, size: i32)
    requires
        0 <= size,
        size + 28 <= u32::MAX,
    ensures
        final(buf)@ == old(buf)@ + solid_header(size as int),
{
    put_u32(buf, size as u32 + 28);
    put_u32(buf, VPHYSICS_ID);
    put_u16(buf, VPHYSICS_COLLISION_VERSION);
    put_i16(buf, COLLIDE_POLY);
    put_i32(buf, size);
    put_u32(buf, 0x3F80_0000);
    put_u32(buf, 0x3F80_0000);
    put_u32(buf, 0x3F80_0000);
    put_u32(buf, 0);
    assert(buf@ =~= old(buf)@ + solid_header(size as int));
}

/// Puts header, solids and text together.
fn join(
    ps: &Vec<PreparedSolid>,
    g: &Vec<SolidGeometry>,
    solids: &Vec<PhySolid>,
    params: &PhyParams,
    bodies: &Vec<Vec<u8>>,
    text: &Vec<u8>,
) -> (r: Vec<u8>)
    requires
        bodies@.len() == ps@.len(),
        ps@.len() <= i32::MAX,
        forall|i: int| 0 <= i < ps@.len() ==> 0 <= (#[trigger] ps@[i]).surface_size,
        forall|i: int|
            0 <= i < bodies@.len() ==> (#[trigger] bodies@[i])@ == solid_bytes(
                ps@[i],
                g@[i],
                solids@[i].bone_index,
            ),
        text@ == section_bytes(solids@, g@, *params),
    ensures
        r@ == file_bytes(ps@, g@, solids@, *params),
{
    let mut out: Vec<u8> = Vec::new();
    put_i32(&mut out, 16);
    put_i32(&mut out, 0);
    put_u32(&mut out, ps.len() as u32);
    put_u32(&mut out, params.checksum);
    let ghost head = file_header(ps@.len() as int, params.checksum);
    assert(out@ =~= head);
    let mut i: usize = 0;
    assert(out@ =~= head + solids_bytes(ps@, g@, solids@, 0));
    while i < ps.len()
        invariant
            i <= ps@.len(),
            bodies@.len() == ps@.len(),
            forall|i: int| 0 <= i < ps@.len() ==> 0 <= (#[trigger] ps@[i]).surface_size,
            forall|j: int|
                0 <= j < bodies@.len() ==> (#[trigger] bodies@[j])@ == solid_bytes(
                    ps@[j],
                    g@[j],
                    solids@[j].bone_index,
                ),
            out@ == head + solids_bytes(ps@, g@, solids@, i as int),
        decreases ps@.len() - i,
    {
        let ghost before = out@;
        put_solid_header(&mut out, ps[i].surface_size);
        put_all(&mut out, &bodies[i]);
        i = i + 1;
        let ghost h = solid_header(ps@[i - 1].surface_size as int);
        let ghost b = solid_bytes(ps@[i - 1], g@[i - 1], solids@[i - 1].bone_index);
        assert(out@ == before + h + b);
        assert(out@ =~= head + (solids_bytes(ps@, g@, solids@, i - 1) + h + b));
    }
    put_all(&mut out, text);
    out
}

/// Writes a file with one hull for each solid.
pub fn write_phy(
    hulls: Vec<PhyHull>,
    ms: &Vec<SolidMeasures>,
    solids: &Vec<PhySolid>,
    params: &PhyParams,
) -> (r: Result<Vec<u8>, PhyError>)
    requires
        forall|i: int|
            0 <= i < hulls@.len() ==> corners(placed_hulls(seq![#[trigger] hulls@[i]]), 1).len()
                < u32::MAX,
    ensures
        exists|grouped: Seq<Vec<PhyHull>>|
            {
                &&& grouped.len() == hulls@.len()
                &&& forall|i: int|
                    0 <= i < grouped.len() ==> (#[trigger] grouped[i])@ == seq![hulls@[i]]
                &&& written(r, grouped, ms@, solids@, *params)
            },
{
    let mut rest: Vec<PhyHull> = hulls;
    let mut grouped: Vec<Vec<PhyHull>> = Vec::new();
    let ghost all = rest@;
    let n: usize = rest.len();
    let mut i: usize = 0;
    while i < n
        invariant
            i <= n,
            n == all.len(),
            rest@ == all.skip(i as int),
            grouped@.len() == i,
            forall|j: int| 0 <= j < i ==> (#[trigger] grouped@[j])@ == seq![all[j]],
        decreases n - i,
    {
        let h: PhyHull = rest.remove(0);
        assert(h == all[i as int]);
        assert(rest@ =~= all.skip(i + 1));
        let mut one: Vec<PhyHull> = Vec::new();
        one.push(h);
        assert(one@ =~= seq![all[i as int]]);
        grouped.push(one);
        i = i + 1;
    }
    assert forall|i: int| 0 <= i < grouped@.len() implies corners(
        #[trigger] hulls_of(grouped@, i),
        grouped@[i]@.len() as int,
    ).len() < u32::MAX by {
        assert(grouped@[i]@ == seq![all[i]]);
    }
    write_phy_multi(&grouped, ms, solids, params)
}

/// `bytes` are those of a file of the solids that the hulls make up.
pub open spec fn file_of(
    bytes: Seq<u8>,
    hulls: Seq<Vec<PhyHull>>,
    ms: Seq<SolidMeasures>,
    solids: Seq<PhySolid>,
    params: PhyParams,
) -> bool {
    exists|ps: Seq<PreparedSolid>, g: Seq<SolidGeometry>|
        {
            &&& #[trigger] prepares_all(ps, hulls)
            &&& #[trigger] all_measured(g, ps, ms, solids, params)
            &&& bytes == file_bytes(ps, g, solids, params)
        }
}

/// What writing a file returns.
pub open spec fn written(
    r: Result<Vec<u8>, PhyError>,
    hulls: Seq<Vec<PhyHull>>,
    ms: Seq<SolidMeasures>,
    solids: Seq<PhySolid>,
    params: PhyParams,
) -> bool {
    match r {
        Ok(bytes) => {
            &&& writable(hulls, ms, solids, params)
            &&& file_of(bytes@, hulls, ms, solids, params)
            &&& phy_ok(bytes@)
        },
        Err(e) => if writable(hulls, ms, solids, params) {
            &&& e is SelfCheck
            &&& exists|bytes: Seq<u8>| #[trigger]
                file_of(bytes, hulls, ms, solids, params) && !phy_ok(bytes) && told(
                    bytes,
                    e->SelfCheck_0@,
                )
        } else {
            write_error(hulls, ms, solids, params, e)
        },
    }
}

/// Writes a file; each solid is made of the hulls in one of the lists.
///
/// The corners of all faces of a solid must be countable in 32 bits.
pub fn write_phy_multi(
    hulls: &Vec<Vec<PhyHull>>,
    ms: &Vec<SolidMeasures>,
    solids: &Vec<PhySolid>,
    params: &PhyParams,
) -> (r: Result<Vec<u8>, PhyError>)
    requires
        forall|i: int|
            0 <= i < hulls@.len() ==> corners(
                #[trigger] hulls_of(hulls@, i),
                hulls@[i]@.len() as int,
            ).len() < u32::MAX,
    ensures
        written(r, hulls@, ms@, solids@, *params),
{
    if hulls.len() == 0 {
        return Err(complain("hulls", "至少需要一个 solid"));
    }
    if hulls.len() > 0x7FFF_FFFF {
        return Err(complain("hulls", "solid 数超出 i32"));
    }
    if hulls.len() != solids.len() {
        return Err(complain_of_counts(hulls.len(), solids.len()));
    }
    let mass: u32 = params.total_mass;
    if !(0 < mass && mass < 0x7F80_0000) {
        return Err(complain_of("total_mass", "必须是正的有限数，实际 ", mass));
    }
    let scale: u32 = params.inertia_scale;
    if !(finite(scale) && scale <= 0x8000_0000) {
        return Err(complain_of("inertia_scale", "必须是非负有限数，实际 ", scale));
    }
    if let Some(e) = check_names(solids) {
        return Err(e);
    }
    let ps: Vec<PreparedSolid> = match prepare_all(hulls) {
        Ok(ps) => ps,
        Err(e) => {
            assert(!all_solids_good(hulls@));
            return Err(e);
        },
    };
    if !check_measures(hulls, ms) {
        return Err(complain("measures", "not one measure for each solid and hull"));
    }
    proof {
        assert forall|i: int| 0 <= i < ps@.len() implies {
            &&& super::surface::solid_sound(#[trigger] ps@[i])
            &&& points_exist(ps@[i])
            &&& ps@[i].hulls@.len() > 0
            &&& ps@[i].nodes@ == tree(0, ps@[i].hulls@.len())
        } by {
            assert(prepares(ps@[i], hulls_of(hulls@, i)));
            prepared_is_sound(ps@[i], hulls_of(hulls@, i));
            prepared_points_exist(ps@[i], hulls_of(hulls@, i));
        }
        assert forall|i: int| 0 <= i < ps@.len() implies {
            &&& points_exist(#[trigger] ps@[i])
            &&& ps@[i].hulls@.len() > 0
            &&& ps@[i].nodes@ == tree(0, ps@[i].hulls@.len())
        } by {
            assert(super::surface::solid_sound(ps@[i]));
        }
    }
    let geometry: Vec<SolidGeometry> = measure_all(&ps, ms, solids, params);
    let g: &Vec<SolidGeometry> = &geometry;
    proof {
        assert forall|i: int| 0 <= i < ps@.len() implies super::surface::solid_sound(
            #[trigger] ps@[i],
        ) && g@[i].nodes@.len() == ps@[i].nodes@.len() by {
            let x = g@[i];
        }
    }
    let bodies: Vec<Vec<u8>> = match build_bodies(&ps, g, solids) {
        Ok(bodies) => bodies,
        Err(e) => {
            return Err(e);
        },
    };
    let text: Vec<u8> = build_text_section(solids, g, params);
    proof {
        assert forall|i: int| 0 <= i < ps@.len() implies 0 <= (#[trigger] ps@[i]).surface_size by {
            assert(super::surface::solid_sound(ps@[i]));
        }
    }
    let out: Vec<u8> = join(&ps, g, solids, params, &bodies, &text);
    assert(prepares_all(ps@, hulls@));
    assert(file_of(out@, hulls@, ms@, solids@, *params));
    match check_invariants(out.as_slice()) {
        Ok(_) => Ok(out),
        Err(e) => Err(e),
    }
}

} // verus!
