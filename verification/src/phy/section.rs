//! The text section of a collision file.
use vstd::prelude::*;

use super::params::{AnimatedFriction, JointConstraint, PhyParams, PhySolid};
use super::surface::SolidGeometry;
use crate::arith::{
    abs, absolute, below, difference, from_integer, less, minus, of_integer,
};
use crate::decimals::{print_six, six_decimals};
use crate::single::ONE;
use crate::text::{decimal, push_decimal, same};

verus! {

/// A line that gives `key` the value `value`.
pub open spec fn line(key: Seq<char>, value: Seq<char>) -> Seq<char> {
    "\""@ + key + "\" \""@ + value + "\"\n"@
}

/// A line, if there is a value.
pub open spec fn line_if(key: Seq<char>, value: Option<u32>) -> Seq<char> {
    match value {
        Some(v) => line(key, six_decimals(v)),
        None => Seq::empty(),
    }
}

/// The own value of a solid, or else that of the file.
pub open spec fn own_or(own: Option<u32>, other: u32) -> Seq<char> {
    match own {
        Some(v) => six_decimals(v),
        None => six_decimals(other),
    }
}

/// The step from one to the next number above it.
pub const EPSILON: u32 = 0x3400_0000;

/// The bias differs from one by more than the step from one to the next number above it.
pub open spec fn bias_counts(bias: u32) -> bool {
    below(EPSILON, absolute(difference(bias, ONE)))
}

/// The block of solid `i`.
pub open spec fn solid_block(i: int, s: PhySolid, g: SolidGeometry, params: PhyParams) -> Seq<char> {
    "solid {\n"@ + line("index"@, decimal(i as nat)) + line("name"@, s.name@) + (match s.parent {
        Some(p) => line("parent"@, p@),
        None => Seq::empty(),
    }) + line("mass"@, six_decimals(g.mass)) + line("surfaceprop"@, params.surface_prop@) + line(
        "damping"@,
        own_or(s.damping, params.damping),
    ) + line("rotdamping"@, own_or(s.rot_damping, params.rot_damping)) + line_if(
        "drag"@,
        params.drag,
    ) + line("inertia"@, own_or(s.inertia, params.inertia)) + line("volume"@, six_decimals(g.volume)) + (if bias_counts(
        s.mass_bias,
    ) {
        line("massbias"@, six_decimals(s.mass_bias))
    } else {
        Seq::empty()
    }) + "}\n"@
}

/// The blocks of the first `n` solids.
pub open spec fn solid_blocks(
    solids: Seq<PhySolid>,
    g: Seq<SolidGeometry>,
    params: PhyParams,
    n: int,
) -> Seq<char>
    decreases n,
{
    if n <= 0 {
        Seq::empty()
    } else {
        solid_blocks(solids, g, params, n - 1) + solid_block(n - 1, solids[n - 1], g[n - 1], params)
    }
}

/// The first solid named `name` among those from `i` on.
pub open spec fn find_solid(solids: Seq<PhySolid>, name: Seq<char>, i: int) -> Option<int>
    decreases solids.len() - i,
{
    if i < 0 || i >= solids.len() {
        None
    } else if solids[i].name@ == name {
        Some(i)
    } else {
        find_solid(solids, name, i + 1)
    }
}

/// The axis of a limit.
pub open spec fn axis_of(c: JointConstraint) -> int {
    if c.axis < 2 {
        c.axis as int
    } else {
        2
    }
}

/// The angles and the friction of bone `bone` about axis `axis`, from the first `n` limits: those
/// of the last that applies, zero where none does.
pub open spec fn axis_limits(
    limits: Seq<JointConstraint>,
    bone: Seq<char>,
    axis: int,
    n: int,
) -> (u32, u32, u32)
    decreases n,
{
    if n <= 0 {
        (0, 0, 0)
    } else {
        let c = limits[n - 1];
        if c.bone@ == bone && axis_of(c) == axis {
            c.kind.values(c.min, c.max, c.friction)
        } else {
            axis_limits(limits, bone, axis, n - 1)
        }
    }
}

/// The three lines of an axis.
pub open spec fn axis_lines(
    min_key: Seq<char>,
    max_key: Seq<char>,
    friction_key: Seq<char>,
    v: (u32, u32, u32),
) -> Seq<char> {
    line(min_key, six_decimals(v.0)) + line(max_key, six_decimals(v.1)) + line(
        friction_key,
        six_decimals(v.2),
    )
}

/// The block of the joint between solid `i` and the solid that it hangs from.
pub open spec fn joint_block(solids: Seq<PhySolid>, limits: Seq<JointConstraint>, i: int) -> Seq<
    char,
> {
    match solids[i].parent {
        None => Seq::empty(),
        Some(p) => {
            let parent = match find_solid(solids, p@, 0) {
                Some(j) => j,
                None => 0,
            };
            let bone = solids[i].name@;
            let n = limits.len() as int;
            "ragdollconstraint {\n"@ + line("parent"@, decimal(parent as nat)) + line(
                "child"@,
                decimal(i as nat),
            ) + axis_lines("xmin"@, "xmax"@, "xfriction"@, axis_limits(limits, bone, 0, n))
                + axis_lines("ymin"@, "ymax"@, "yfriction"@, axis_limits(limits, bone, 1, n))
                + axis_lines("zmin"@, "zmax"@, "zfriction"@, axis_limits(limits, bone, 2, n))
                + "}\n"@
        },
    }
}

/// The blocks of the joints of the first `n` solids.
pub open spec fn joint_blocks(solids: Seq<PhySolid>, limits: Seq<JointConstraint>, n: int) -> Seq<
    char,
>
    decreases n,
{
    if n <= 0 {
        Seq::empty()
    } else {
        joint_blocks(solids, limits, n - 1) + joint_block(solids, limits, n - 1)
    }
}

/// The line of a pair of solids that collide; nothing where they are not two solids.
pub open spec fn pair_line(solids: Seq<PhySolid>, pair: (String, String)) -> Seq<char> {
    match (find_solid(solids, pair.0@, 0), find_solid(solids, pair.1@, 0)) {
        (Some(x), Some(y)) => if x != y {
            line("collisionpair"@, decimal(x as nat) + ","@ + decimal(y as nat))
        } else {
            Seq::empty()
        },
        _ => Seq::empty(),
    }
}

/// The lines of the first `n` pairs of solids that collide.
pub open spec fn pair_lines(solids: Seq<PhySolid>, pairs: Seq<(String, String)>, n: int) -> Seq<
    char,
>
    decreases n,
{
    if n <= 0 {
        Seq::empty()
    } else {
        pair_lines(solids, pairs, n - 1) + pair_line(solids, pairs[n - 1])
    }
}

/// The block that says which solids collide.
pub open spec fn rules_block(solids: Seq<PhySolid>, params: PhyParams) -> Seq<char> {
    if params.no_self_collisions {
        "collisionrules {\n"@ + line("selfcollisions"@, "0"@) + "}\n"@
    } else if params.collision_pairs@.len() > 0 {
        "collisionrules {\n"@ + pair_lines(
            solids,
            params.collision_pairs@,
            params.collision_pairs@.len() as int,
        ) + "}\n"@
    } else {
        Seq::empty()
    }
}

/// The block on friction under animation.
pub open spec fn friction_block(f: Option<AnimatedFriction>) -> Seq<char> {
    match f {
        None => Seq::empty(),
        Some(f) => "animatedfriction {\n"@ + line("animfrictionmin"@, six_decimals(of_integer(f.min))) + line(
            "animfrictionmax"@,
            six_decimals(of_integer(f.max)),
        ) + line("animfrictiontimein"@, six_decimals(f.time_in)) + line(
            "animfrictiontimeout"@,
            six_decimals(f.time_out),
        ) + line("animfrictiontimehold"@, six_decimals(f.time_hold)) + "}\n"@,
    }
}

/// The lines of the first `n` merged bones.
pub open spec fn merge_lines(merges: Seq<(String, String)>, n: int) -> Seq<char>
    decreases n,
{
    if n <= 0 {
        Seq::empty()
    } else {
        merge_lines(merges, n - 1) + line(
            "jointmerge"@,
            merges[n - 1].0@ + ","@ + merges[n - 1].1@,
        )
    }
}

/// The block on how the file was made.
pub open spec fn edit_block(params: PhyParams) -> Seq<char> {
    "editparams {\n"@ + line("rootname"@, params.root_name@) + line(
        "totalmass"@,
        six_decimals(params.total_mass),
    ) + (if params.concave {
        line("concave"@, "1"@)
    } else {
        Seq::empty()
    }) + merge_lines(params.merge_list@, params.merge_list@.len() as int) + "}\n"@
}

/// The whole text.
pub open spec fn section_text(
    solids: Seq<PhySolid>,
    g: Seq<SolidGeometry>,
    params: PhyParams,
) -> Seq<char> {
    solid_blocks(solids, g, params, solids.len() as int) + joint_blocks(
        solids,
        params.constraints@,
        solids.len() as int,
    ) + rules_block(solids, params) + friction_block(params.animated_friction) + edit_block(params)
}

/// Appends a line.
fn put_line(s: &mut String, key: &str, value: &str)
    ensures
        final(s)@ == old(s)@ + line(key@, value@),
{
    s.push_str("\"");
    s.push_str(key);
    s.push_str("\" \"");
    s.push_str(value);
    s.push_str("\"\n");
    assert(s@ =~= old(s)@ + line(key@, value@));
}

/// Appends a line with a number that has six decimals.
fn put_number(s: &mut String, key: &str, v: u32)
    ensures
        final(s)@ == old(s)@ + line(key@, six_decimals(v)),
{
    let text: String = print_six(v);
    put_line(s, key, text.as_str());
}

/// Appends a line with a whole number.
fn put_count(s: &mut String, key: &str, n: u64)
    ensures
        final(s)@ == old(s)@ + line(key@, decimal(n as nat)),
{
    let mut d: String = String::new();
    push_decimal(&mut d, n);
    assert(d@ =~= decimal(n as nat));
    put_line(s, key, d.as_str());
}

/// Appends a line with the own value of a solid, or else that of the file.
fn put_own(s: &mut String, key: &str, own: Option<u32>, other: u32)
    ensures
        final(s)@ == old(s)@ + line(key@, own_or(own, other)),
{
    match own {
        Some(v) => put_number(s, key, v),
        None => put_number(s, key, other),
    }
}

/// Appends the block of solid `i`.
fn put_solid(s: &mut String, i: usize, solid: &PhySolid, g: &SolidGeometry, params: &PhyParams)
    ensures
        final(s)@ == old(s)@ + solid_block(i as int, *solid, *g, *params),
{
    let ghost before = s@;
    let mut b: String = String::new();
    b.push_str("solid {\n");
    put_count(&mut b, "index", i as u64);
    put_line(&mut b, "name", solid.name.as_str());
    match &solid.parent {
        Some(p) => put_line(&mut b, "parent", p.as_str()),
        None => {},
    }
    put_number(&mut b, "mass", g.mass);
    put_line(&mut b, "surfaceprop", params.surface_prop.as_str());
    put_own(&mut b, "damping", solid.damping, params.damping);
    put_own(&mut b, "rotdamping", solid.rot_damping, params.rot_damping);
    match params.drag {
        Some(d) => put_number(&mut b, "drag", d),
        None => {},
    }
    put_own(&mut b, "inertia", solid.inertia, params.inertia);
    put_number(&mut b, "volume", g.volume);
    if less(EPSILON, abs(minus(solid.mass_bias, ONE))) {
        put_number(&mut b, "massbias", solid.mass_bias);
    }
    b.push_str("}\n");
    assert(b@ =~= solid_block(i as int, *solid, *g, *params));
    s.push_str(b.as_str());
}

/// The first solid with the given name.
fn position_of(solids: &Vec<PhySolid>, name: &str) -> (r: Option<usize>)
    ensures
        match r {
            Some(i) => find_solid(solids@, name@, 0) == Some(i as int) && i < solids@.len(),
            None => find_solid(solids@, name@, 0) is None,
        },
{
    let mut i: usize = 0;
    while i < solids.len()
        invariant
            i <= solids@.len(),
            find_solid(solids@, name@, 0) == find_solid(solids@, name@, i as int),
        decreases solids@.len() - i,
    {
        if same(solids[i].name.as_str(), name) {
            return Some(i);
        }
        i = i + 1;
    }
    None
}

/// Appends the lines of the axis `axis` of the joint of `bone`.
fn put_axis(
    s: &mut String,
    limits: &Vec<JointConstraint>,
    bone: &str,
    axis: u8,
    min_key: &str,
    max_key: &str,
    friction_key: &str,
)
    requires
        axis < 3,
    ensures
        final(s)@ == old(s)@ + axis_lines(
            min_key@,
            max_key@,
            friction_key@,
            axis_limits(limits@, bone@, axis as int, limits@.len() as int),
        ),
{
    let mut v: (u32, u32, u32) = (0, 0, 0);
    let mut i: usize = 0;
    while i < limits.len()
        invariant
            i <= limits@.len(),
            axis < 3,
            v == axis_limits(limits@, bone@, axis as int, i as int),
        decreases limits@.len() - i,
    {
        let c: &JointConstraint = &limits[i];
        let a: u8 = if c.axis < 2 {
            c.axis
        } else {
            2
        };
        if same(c.bone.as_str(), bone) && a == axis {
            v = c.kind.axis_values(c.min, c.max, c.friction);
        }
        i = i + 1;
    }
    put_number(s, min_key, v.0);
    put_number(s, max_key, v.1);
    put_number(s, friction_key, v.2);
    assert(s@ =~= old(s)@ + axis_lines(
        min_key@,
        max_key@,
        friction_key@,
        axis_limits(limits@, bone@, axis as int, limits@.len() as int),
    ));
}

/// Appends the block of the joint above solid `i`.
fn put_joint(s: &mut String, solids: &Vec<PhySolid>, limits: &Vec<JointConstraint>, i: usize)
    requires
        i < solids@.len(),
    ensures
        final(s)@ == old(s)@ + joint_block(solids@, limits@, i as int),
{
    match &solids[i].parent {
        None => {
            assert(s@ =~= old(s)@ + joint_block(solids@, limits@, i as int));
        },
        Some(p) => {
            let parent: usize = match position_of(solids, p.as_str()) {
                Some(j) => j,
                None => 0,
            };
            let bone: &str = solids[i].name.as_str();
            let mut b: String = String::new();
            b.push_str("ragdollconstraint {\n");
            put_count(&mut b, "parent", parent as u64);
            put_count(&mut b, "child", i as u64);
            put_axis(&mut b, limits, bone, 0, "xmin", "xmax", "xfriction");
            put_axis(&mut b, limits, bone, 1, "ymin", "ymax", "yfriction");
            put_axis(&mut b, limits, bone, 2, "zmin", "zmax", "zfriction");
            b.push_str("}\n");
            assert(b@ =~= joint_block(solids@, limits@, i as int));
            s.push_str(b.as_str());
        },
    }
}

/// Appends the line of a pair of solids that collide.
fn put_pair(s: &mut String, solids: &Vec<PhySolid>, pair: &(String, String))
    ensures
        final(s)@ == old(s)@ + pair_line(solids@, *pair),
{
    let a: Option<usize> = position_of(solids, pair.0.as_str());
    let b: Option<usize> = position_of(solids, pair.1.as_str());
    let ghost before = s@;
    match (a, b) {
        (Some(x), Some(y)) => {
            if x != y {
                let mut v: String = String::new();
                push_decimal(&mut v, x as u64);
                v.push_str(",");
                push_decimal(&mut v, y as u64);
                assert(v@ =~= decimal(x as nat) + ","@ + decimal(y as nat));
                put_line(s, "collisionpair", v.as_str());
            }
        },
        _ => {},
    }
    assert(s@ =~= before + pair_line(solids@, *pair));
}

/// Appends the block that says which solids collide.
fn put_rules(s: &mut String, solids: &Vec<PhySolid>, params: &PhyParams)
    ensures
        final(s)@ == old(s)@ + rules_block(solids@, *params),
{
    let ghost before = s@;
    if params.no_self_collisions {
        s.push_str("collisionrules {\n");
        put_line(s, "selfcollisions", "0");
        s.push_str("}\n");
    } else if params.collision_pairs.len() > 0 {
        s.push_str("collisionrules {\n");
        let mut i: usize = 0;
        while i < params.collision_pairs.len()
            invariant
                i <= params.collision_pairs@.len(),
                s@ == before + "collisionrules {\n"@ + pair_lines(
                    solids@,
                    params.collision_pairs@,
                    i as int,
                ),
            decreases params.collision_pairs@.len() - i,
        {
            put_pair(s, solids, &params.collision_pairs[i]);
            i = i + 1;
            assert(s@ =~= before + "collisionrules {\n"@ + pair_lines(
                solids@,
                params.collision_pairs@,
                i as int,
            ));
        }
        s.push_str("}\n");
    }
    assert(s@ =~= before + rules_block(solids@, *params));
}

/// Appends the block on friction under animation.
fn put_friction(s: &mut String, f: &Option<AnimatedFriction>)
    ensures
        final(s)@ == old(s)@ + friction_block(*f),
{
    let ghost before = s@;
    match f {
        None => {},
        Some(f) => {
            s.push_str("animatedfriction {\n");
            put_number(s, "animfrictionmin", from_integer(f.min));
            put_number(s, "animfrictionmax", from_integer(f.max));
            put_number(s, "animfrictiontimein", f.time_in);
            put_number(s, "animfrictiontimeout", f.time_out);
            put_number(s, "animfrictiontimehold", f.time_hold);
            s.push_str("}\n");
        },
    }
    assert(s@ =~= before + friction_block(*f));
}

/// Appends the block on how the file was made.
fn put_edit(s: &mut String, params: &PhyParams)
    ensures
        final(s)@ == old(s)@ + edit_block(*params),
{
    let mut b: String = String::new();
    b.push_str("editparams {\n");
    put_line(&mut b, "rootname", params.root_name.as_str());
    put_number(&mut b, "totalmass", params.total_mass);
    if params.concave {
        put_line(&mut b, "concave", "1");
    }
    let ghost head = b@;
    let mut i: usize = 0;
    while i < params.merge_list.len()
        invariant
            i <= params.merge_list@.len(),
            b@ == head + merge_lines(params.merge_list@, i as int),
        decreases params.merge_list@.len() - i,
    {
        let m: &(String, String) = &params.merge_list[i];
        let mut v: String = String::new();
        v.push_str(m.0.as_str());
        v.push_str(",");
        v.push_str(m.1.as_str());
        assert(v@ =~= m.0@ + ","@ + m.1@);
        put_line(&mut b, "jointmerge", v.as_str());
        i = i + 1;
        assert(b@ =~= head + merge_lines(params.merge_list@, i as int));
    }
    b.push_str("}\n");
    assert(b@ =~= edit_block(*params));
    s.push_str(b.as_str());
}

/// The bytes of the text section: the text and a single zero byte.
pub open spec fn section_bytes(
    solids: Seq<PhySolid>,
    g: Seq<SolidGeometry>,
    params: PhyParams,
) -> Seq<u8> {
    vstd::utf8::encode_utf8(section_text(solids, g, params)).push(0)
}

/// The text section of a file.
pub fn build_text_section(
    solids: &Vec<PhySolid>,
    g: &Vec<SolidGeometry>,
    params: &PhyParams,
) -> (r: Vec<u8>)
    requires
        solids@.len() == g@.len(),
    ensures
        r@ == section_bytes(solids@, g@, *params),
{
    let mut s: String = String::new();
    let mut i: usize = 0;
    while i < solids.len()
        invariant
            i <= solids@.len(),
            solids@.len() == g@.len(),
            s@ == solid_blocks(solids@, g@, *params, i as int),
        decreases solids@.len() - i,
    {
        put_solid(&mut s, i, &solids[i], &g[i], params);
        i = i + 1;
    }
    let ghost first = s@;
    let mut i: usize = 0;
    assert(s@ =~= first + joint_blocks(solids@, params.constraints@, 0));
    while i < solids.len()
        invariant
            i <= solids@.len(),
            s@ == first + joint_blocks(solids@, params.constraints@, i as int),
        decreases solids@.len() - i,
    {
        put_joint(&mut s, solids, &params.constraints, i);
        i = i + 1;
        assert(s@ =~= first + joint_blocks(solids@, params.constraints@, i as int));
    }
    put_rules(&mut s, solids, params);
    put_friction(&mut s, &params.animated_friction);
    put_edit(&mut s, params);
    assert(s@ =~= section_text(solids@, g@, *params));
    let bytes: &[u8] = s.as_str().as_bytes();
    let mut out: Vec<u8> = vstd::slice::slice_to_vec(bytes);
    out.push(0);
    out
}

} // verus!
