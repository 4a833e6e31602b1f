//! The text of a file that is written keeps the rules by which it is read.
use vstd::prelude::*;
use vstd::utf8::{encode_scalar, encode_utf8};

use super::check::{block_at, block_mark, blocks, text_ok};
use super::params::{JointConstraint, PhyParams, PhySolid};
use super::section::{
    axis_limits, axis_lines, edit_block, find_solid, friction_block, joint_block, joint_blocks,
    line, line_if, merge_lines, own_or, pair_line, pair_lines, rules_block, section_bytes,
    section_text, solid_block, solid_blocks,
};
use super::surface::SolidGeometry;
use crate::arith::of_integer;
use crate::decimals::{millionths, six_decimals, six_digits};
use crate::single::magnitude_of;
use crate::text::decimal;

verus! {

/// A text that holds no end of a line and no zero character.
pub open spec fn clean(s: Seq<char>) -> bool {
    forall|i: int| 0 <= i < s.len() ==> (#[trigger] s[i]) != '\n' && s[i] != '\0'
}

/// A text holds no end of a line and no zero character from `i` on.
spec fn clean_from(s: Seq<char>, i: int) -> bool
    decreases s.len() - i,
{
    if i < 0 || i >= s.len() {
        true
    } else {
        s[i] != '\n' && s[i] != '\0' && clean_from(s, i + 1)
    }
}

proof fn is_clean(s: Seq<char>, i: int)
    requires
        clean_from(s, i),
        0 <= i,
    ensures
        forall|k: int| i <= k < s.len() ==> (#[trigger] s[k]) != '\n' && s[k] != '\0',
    decreases s.len() - i,
{
    if i < s.len() {
        is_clean(s, i + 1);
    }
}

/// Two texts are written one behind the other.
proof fn encoded_apart(a: Seq<char>, b: Seq<char>)
    ensures
        encode_utf8(a + b) == encode_utf8(a) + encode_utf8(b),
    decreases a.len(),
{
    if a.len() == 0 {
        assert(a + b =~= b);
        assert(encode_utf8(a) + encode_utf8(b) =~= encode_utf8(b));
    } else {
        assert((a + b).drop_first() =~= a.drop_first() + b);
        assert((a + b)[0] == a[0]);
        encoded_apart(a.drop_first(), b);
        assert(encode_utf8(a + b) =~= encode_utf8(a) + encode_utf8(b));
    }
}

/// The bytes of a character: itself, or bytes that stand for no character alone.
proof fn character_bytes(c: char)
    ensures
        (c as u32) < 0x80 ==> encode_scalar(c as u32) == seq![(c as u32) as u8],
        (c as u32) >= 0x80 ==> forall|k: int|
            0 <= k < encode_scalar(c as u32).len() ==> (#[trigger] encode_scalar(c as u32)[k])
                >= 0x80,
        encode_scalar(c as u32).len() > 0,
        c != '\n' ==> c as u32 != 0x0A,
        c != '\0' ==> c as u32 != 0,
        c != 's' ==> c as u32 != 0x73,
{
    let u = c as u32;
    if u < 0x80 {
        assert((u & 0x7F) as u8 == u as u8) by (bit_vector)
            requires
                u < 0x80,
        ;
        assert(encode_scalar(u) =~= seq![u as u8]);
    } else {
        assert(0xC0u8 | ((u >> 6) & 0x1F) as u8 >= 0x80) by (bit_vector);
        assert(0xE0u8 | ((u >> 12) & 0x0F) as u8 >= 0x80) by (bit_vector);
        assert(0xF0u8 | ((u >> 18) & 0x7) as u8 >= 0x80) by (bit_vector);
        assert(0x80u8 | (u & 0x3F) as u8 >= 0x80) by (bit_vector);
        assert(0x80u8 | ((u >> 6) & 0x3F) as u8 >= 0x80) by (bit_vector);
        assert(0x80u8 | ((u >> 12) & 0x3F) as u8 >= 0x80) by (bit_vector);
    }
}

/// The bytes of a clean text hold no end of a line and no zero.
proof fn clean_bytes(s: Seq<char>)
    requires
        clean(s),
    ensures
        forall|k: int|
            0 <= k < encode_utf8(s).len() ==> (#[trigger] encode_utf8(s)[k]) != 0x0A
                && encode_utf8(s)[k] != 0,
        s.len() > 0 ==> encode_utf8(s).len() > 0,
        s.len() > 0 && s[0] != 's' ==> encode_utf8(s)[0] != 0x73,
    decreases s.len(),
{
    if s.len() > 0 {
        let c = s[0];
        let first = encode_scalar(c as u32);
        let rest = encode_utf8(s.drop_first());
        character_bytes(c);
        assert(clean(s.drop_first()));
        clean_bytes(s.drop_first());
        assert forall|k: int| 0 <= k < encode_utf8(s).len() implies (#[trigger] encode_utf8(s)[k])
            != 0x0A && encode_utf8(s)[k] != 0 by {
            if k < first.len() {
                assert(encode_utf8(s)[k] == first[k]);
            } else {
                assert(encode_utf8(s)[k] == rest[k - first.len()]);
            }
        }
        assert(encode_utf8(s)[0] == first[0]);
    }
}

/// Whole lines without a zero byte, `n` of which open the text of a solid.
spec fn whole_lines(t: Seq<u8>, n: nat) -> bool {
    &&& forall|i: int| 0 <= i < t.len() ==> #[trigger] t[i] != 0
    &&& t.len() > 0 ==> t.last() == 0x0A
    &&& blocks(t, t.len() as int) == n
}

proof fn blocks_before(a: Seq<u8>, b: Seq<u8>, n: int)
    requires
        0 <= n <= a.len(),
        a.len() > 0 ==> a.last() == 0x0A,
    ensures
        blocks(a + b, n) == blocks(a, n),
    decreases n,
{
    if n > 0 {
        blocks_before(a, b, n - 1);
        let p = n - 1;
        let t = a + b;
        if p + 7 <= a.len() {
            assert(t.subrange(p, p + 7) =~= a.subrange(p, p + 7));
        } else if p + 7 <= t.len() {
            let s = t.subrange(p, p + 7);
            assert(s[a.len() - 1 - p] == a.last());
            assert(block_mark()[a.len() - 1 - p] != 0x0A);
        }
        assert(block_at(t, p) == block_at(a, p));
    }
}

proof fn blocks_behind(a: Seq<u8>, b: Seq<u8>, n: int)
    requires
        0 <= n <= b.len(),
        a.len() > 0 ==> a.last() == 0x0A,
    ensures
        blocks(a + b, a.len() + n) == blocks(a, a.len() as int) + blocks(b, n),
    decreases n,
{
    if n == 0 {
        blocks_before(a, b, a.len() as int);
    } else {
        blocks_behind(a, b, n - 1);
        let t = a + b;
        let p = a.len() + n - 1;
        if p + 7 <= t.len() {
            assert(t.subrange(p, p + 7) =~= b.subrange(n - 1, n - 1 + 7));
        }
        if n > 1 {
            assert(t[p - 1] == b[n - 2]);
        } else if a.len() > 0 {
            assert(t[p - 1] == a.last());
        }
        assert(block_at(t, p) == block_at(b, n - 1));
    }
}

/// Whole lines behind whole lines are whole lines.
proof fn lines_add_up(a: Seq<u8>, b: Seq<u8>, m: nat, n: nat)
    requires
        whole_lines(a, m),
        whole_lines(b, n),
    ensures
        whole_lines(a + b, m + n),
{
    blocks_behind(a, b, b.len() as int);
    assert forall|i: int| 0 <= i < (a + b).len() implies #[trigger] (a + b)[i] != 0 by {
        if i < a.len() {
            assert((a + b)[i] == a[i]);
        } else {
            assert((a + b)[i] == b[i - a.len()]);
        }
    }
}

proof fn no_block_inside(t: Seq<u8>, n: int)
    requires
        0 <= n <= t.len(),
        t.len() > 0,
        t[0] != 0x73,
        forall|i: int| 0 <= i < t.len() - 1 ==> #[trigger] t[i] != 0x0A,
    ensures
        blocks(t, n) == 0,
    decreases n,
{
    if n > 0 {
        no_block_inside(t, n - 1);
        let p = n - 1;
        if p == 0 && 7 <= t.len() {
            assert(t.subrange(0, 7)[0] == t[0]);
            assert(block_mark()[0] == 0x73);
        } else if p > 0 {
            assert(t[p - 1] != 0x0A);
        }
        assert(!block_at(t, p));
    }
}

/// The text `s` is made of whole lines, `n` of which open the text of a solid.
spec fn told(s: Seq<char>, n: nat) -> bool {
    whole_lines(encode_utf8(s), n)
}

/// No text is no line.
proof fn nothing_told()
    ensures
        told(Seq::empty(), 0),
{
    assert(encode_utf8(Seq::empty()) =~= Seq::<u8>::empty());
}

/// Texts told one behind the other.
proof fn both_told(a: Seq<char>, b: Seq<char>, m: nat, n: nat)
    requires
        told(a, m),
        told(b, n),
    ensures
        told(a + b, m + n),
{
    encoded_apart(a, b);
    lines_add_up(encode_utf8(a), encode_utf8(b), m, n);
}

/// A clean line that does not start like that of a solid.
proof fn line_told(body: Seq<char>)
    requires
        clean(body),
        body.len() > 0,
        body[0] != 's',
    ensures
        told(body.push('\n'), 0),
{
    let end = seq!['\n'];
    assert(body.push('\n') =~= body + end);
    encoded_apart(body, end);
    clean_bytes(body);
    character_bytes('\n');
    assert(end.drop_first() =~= Seq::<char>::empty());
    assert(encode_utf8(end.drop_first()) =~= Seq::<u8>::empty());
    assert(encode_utf8(end) =~= seq![0x0Au8]);
    let t = encode_utf8(body) + seq![0x0Au8];
    assert(t[0] == encode_utf8(body)[0]);
    assert forall|i: int| 0 <= i < t.len() - 1 implies #[trigger] t[i] != 0x0A by {
        assert(t[i] == encode_utf8(body)[i]);
    }
    no_block_inside(t, t.len() as int);
    assert forall|i: int| 0 <= i < t.len() implies #[trigger] t[i] != 0 by {
        if i < t.len() - 1 {
            assert(t[i] == encode_utf8(body)[i]);
        }
    }
}

/// A line that gives a key a value.
proof fn pair_told(key: Seq<char>, value: Seq<char>)
    requires
        clean(key),
        clean(value),
    ensures
        told(line(key, value), 0),
{
    reveal_strlit("\"");
    reveal_strlit("\" \"");
    reveal_strlit("\"\n");
    let body = "\""@ + key + "\" \""@ + value + seq!['"'];
    assert(body.push('\n') =~= line(key, value)) by {
        assert("\"\n"@ =~= seq!['"', '\n']);
    }
    assert("\""@ =~= seq!['"']);
    assert("\" \""@ =~= seq!['"', ' ', '"']);
    assert(clean(body)) by {
        assert forall|i: int| 0 <= i < body.len() implies (#[trigger] body[i]) != '\n' && body[i]
            != '\0' by {
            let k = key.len() as int;
            let v = value.len() as int;
            if i < 1 {
            } else if i < 1 + k {
                assert(body[i] == key[i - 1]);
            } else if i < 4 + k {
                assert(body[i] == seq!['"', ' ', '"'][i - 1 - k]);
            } else if i < 4 + k + v {
                assert(body[i] == value[i - 4 - k]);
            }
        }
    }
    line_told(body);
}

/// Digits are clean.
proof fn decimal_is_clean(n: nat)
    ensures
        clean(decimal(n)),
    decreases n,
{
    if n >= 10 {
        decimal_is_clean(n / 10);
    }
}

/// The keys of a solid are clean.
proof fn solid_keys()
    ensures
        clean("index"@),
        clean("name"@),
        clean("parent"@),
        clean("mass"@),
        clean("surfaceprop"@),
        clean("damping"@),
        clean("rotdamping"@),
        clean("drag"@),
        clean("inertia"@),
        clean("volume"@),
        clean("massbias"@),
{
    assert(clean("index"@)) by {
        reveal_strlit("index");
        reveal_with_fuel(clean_from, 7);
        is_clean("index"@, 0);
    }
    assert(clean("name"@)) by {
        reveal_strlit("name");
        reveal_with_fuel(clean_from, 6);
        is_clean("name"@, 0);
    }
    assert(clean("parent"@)) by {
        reveal_strlit("parent");
        reveal_with_fuel(clean_from, 8);
        is_clean("parent"@, 0);
    }
    assert(clean("mass"@)) by {
        reveal_strlit("mass");
        reveal_with_fuel(clean_from, 6);
        is_clean("mass"@, 0);
    }
    assert(clean("surfaceprop"@)) by {
        reveal_strlit("surfaceprop");
        reveal_with_fuel(clean_from, 13);
        is_clean("surfaceprop"@, 0);
    }
    assert(clean("damping"@)) by {
        reveal_strlit("damping");
        reveal_with_fuel(clean_from, 9);
        is_clean("damping"@, 0);
    }
    assert(clean("rotdamping"@)) by {
        reveal_strlit("rotdamping");
        reveal_with_fuel(clean_from, 12);
        is_clean("rotdamping"@, 0);
    }
    assert(clean("drag"@)) by {
        reveal_strlit("drag");
        reveal_with_fuel(clean_from, 6);
        is_clean("drag"@, 0);
    }
    assert(clean("inertia"@)) by {
        reveal_strlit("inertia");
        reveal_with_fuel(clean_from, 9);
        is_clean("inertia"@, 0);
    }
    assert(clean("volume"@)) by {
        reveal_strlit("volume");
        reveal_with_fuel(clean_from, 8);
        is_clean("volume"@, 0);
    }
    assert(clean("massbias"@)) by {
        reveal_strlit("massbias");
        reveal_with_fuel(clean_from, 10);
        is_clean("massbias"@, 0);
    }
}

/// The keys of a joint are clean.
proof fn joint_keys()
    ensures
        clean("parent"@),
        clean("child"@),
        clean("xmin"@),
        clean("xmax"@),
        clean("xfriction"@),
        clean("ymin"@),
        clean("ymax"@),
        clean("yfriction"@),
        clean("zmin"@),
        clean("zmax"@),
        clean("zfriction"@),
{
    assert(clean("parent"@)) by {
        reveal_strlit("parent");
        reveal_with_fuel(clean_from, 8);
        is_clean("parent"@, 0);
    }
    assert(clean("child"@)) by {
        reveal_strlit("child");
        reveal_with_fuel(clean_from, 7);
        is_clean("child"@, 0);
    }
    assert(clean("xmin"@)) by {
        reveal_strlit("xmin");
        reveal_with_fuel(clean_from, 6);
        is_clean("xmin"@, 0);
    }
    assert(clean("xmax"@)) by {
        reveal_strlit("xmax");
        reveal_with_fuel(clean_from, 6);
        is_clean("xmax"@, 0);
    }
    assert(clean("xfriction"@)) by {
        reveal_strlit("xfriction");
        reveal_with_fuel(clean_from, 11);
        is_clean("xfriction"@, 0);
    }
    assert(clean("ymin"@)) by {
        reveal_strlit("ymin");
        reveal_with_fuel(clean_from, 6);
        is_clean("ymin"@, 0);
    }
    assert(clean("ymax"@)) by {
        reveal_strlit("ymax");
        reveal_with_fuel(clean_from, 6);
        is_clean("ymax"@, 0);
    }
    assert(clean("yfriction"@)) by {
        reveal_strlit("yfriction");
        reveal_with_fuel(clean_from, 11);
        is_clean("yfriction"@, 0);
    }
    assert(clean("zmin"@)) by {
        reveal_strlit("zmin");
        reveal_with_fuel(clean_from, 6);
        is_clean("zmin"@, 0);
    }
    assert(clean("zmax"@)) by {
        reveal_strlit("zmax");
        reveal_with_fuel(clean_from, 6);
        is_clean("zmax"@, 0);
    }
    assert(clean("zfriction"@)) by {
        reveal_strlit("zfriction");
        reveal_with_fuel(clean_from, 11);
        is_clean("zfriction"@, 0);
    }
}

/// The other keys are clean.
proof fn other_keys()
    ensures
        clean("collisionpair"@),
        clean("selfcollisions"@),
        clean("animfrictionmin"@),
        clean("animfrictionmax"@),
        clean("animfrictiontimein"@),
        clean("animfrictiontimeout"@),
        clean("animfrictiontimehold"@),
        clean("rootname"@),
        clean("totalmass"@),
        clean("concave"@),
        clean("jointmerge"@),
{
    assert(clean("collisionpair"@)) by {
        reveal_strlit("collisionpair");
        reveal_with_fuel(clean_from, 15);
        is_clean("collisionpair"@, 0);
    }
    assert(clean("selfcollisions"@)) by {
        reveal_strlit("selfcollisions");
        reveal_with_fuel(clean_from, 16);
        is_clean("selfcollisions"@, 0);
    }
    assert(clean("animfrictionmin"@)) by {
        reveal_strlit("animfrictionmin");
        reveal_with_fuel(clean_from, 17);
        is_clean("animfrictionmin"@, 0);
    }
    assert(clean("animfrictionmax"@)) by {
        reveal_strlit("animfrictionmax");
        reveal_with_fuel(clean_from, 17);
        is_clean("animfrictionmax"@, 0);
    }
    assert(clean("animfrictiontimein"@)) by {
        reveal_strlit("animfrictiontimein");
        reveal_with_fuel(clean_from, 20);
        is_clean("animfrictiontimein"@, 0);
    }
    assert(clean("animfrictiontimeout"@)) by {
        reveal_strlit("animfrictiontimeout");
        reveal_with_fuel(clean_from, 21);
        is_clean("animfrictiontimeout"@, 0);
    }
    assert(clean("animfrictiontimehold"@)) by {
        reveal_strlit("animfrictiontimehold");
        reveal_with_fuel(clean_from, 22);
        is_clean("animfrictiontimehold"@, 0);
    }
    assert(clean("rootname"@)) by {
        reveal_strlit("rootname");
        reveal_with_fuel(clean_from, 10);
        is_clean("rootname"@, 0);
    }
    assert(clean("totalmass"@)) by {
        reveal_strlit("totalmass");
        reveal_with_fuel(clean_from, 11);
        is_clean("totalmass"@, 0);
    }
    assert(clean("concave"@)) by {
        reveal_strlit("concave");
        reveal_with_fuel(clean_from, 9);
        is_clean("concave"@, 0);
    }
    assert(clean("jointmerge"@)) by {
        reveal_strlit("jointmerge");
        reveal_with_fuel(clean_from, 12);
        is_clean("jointmerge"@, 0);
    }
}

/// The values that are always the same are clean.
proof fn plain_values()
    ensures
        clean("0"@),
        clean("1"@),
        clean(","@),
{
    assert(clean("0"@)) by {
        reveal_strlit("0");
        reveal_with_fuel(clean_from, 3);
        is_clean("0"@, 0);
    }
    assert(clean("1"@)) by {
        reveal_strlit("1");
        reveal_with_fuel(clean_from, 3);
        is_clean("1"@, 0);
    }
    assert(clean(","@)) by {
        reveal_strlit(",");
        reveal_with_fuel(clean_from, 3);
        is_clean(","@, 0);
    }
}

/// The lines that open and close blocks, but for those of solids, open no solid.
proof fn openings_told()
    ensures
        told("}\n"@, 0),
        told("ragdollconstraint {\n"@, 0),
        told("collisionrules {\n"@, 0),
        told("animatedfriction {\n"@, 0),
        told("editparams {\n"@, 0),
{
    assert(told("}\n"@, 0)) by {
        reveal_strlit("}\n");
        let body = "}\n"@.drop_last();
        reveal_with_fuel(clean_from, 3);
        is_clean(body, 0);
        line_told(body);
        assert(body.push('\n') =~= "}\n"@);
    }
    assert(told("ragdollconstraint {\n"@, 0)) by {
        reveal_strlit("ragdollconstraint {\n");
        let body = "ragdollconstraint {\n"@.drop_last();
        reveal_with_fuel(clean_from, 21);
        is_clean(body, 0);
        line_told(body);
        assert(body.push('\n') =~= "ragdollconstraint {\n"@);
    }
    assert(told("collisionrules {\n"@, 0)) by {
        reveal_strlit("collisionrules {\n");
        let body = "collisionrules {\n"@.drop_last();
        reveal_with_fuel(clean_from, 18);
        is_clean(body, 0);
        line_told(body);
        assert(body.push('\n') =~= "collisionrules {\n"@);
    }
    assert(told("animatedfriction {\n"@, 0)) by {
        reveal_strlit("animatedfriction {\n");
        let body = "animatedfriction {\n"@.drop_last();
        reveal_with_fuel(clean_from, 20);
        is_clean(body, 0);
        line_told(body);
        assert(body.push('\n') =~= "animatedfriction {\n"@);
    }
    assert(told("editparams {\n"@, 0)) by {
        reveal_strlit("editparams {\n");
        let body = "editparams {\n"@.drop_last();
        reveal_with_fuel(clean_from, 14);
        is_clean(body, 0);
        line_told(body);
        assert(body.push('\n') =~= "editparams {\n"@);
    }
}

/// The line that opens a solid opens one.
proof fn solid_told()
    ensures
        told("solid {\n"@, 1),
        encode_utf8("solid {\n"@) == block_mark().push(0x0A),
{
    reveal_strlit("solid {\n");
    let s = "solid {\n"@;
    let t = block_mark().push(0x0A);
    vstd::utf8::is_ascii_chars_encode_utf8(s);
    assert(encode_utf8(s) =~= t);
    assert(t.subrange(0, 7) =~= block_mark());
    assert(blocks(t, 8) == 1) by {
        reveal_with_fuel(blocks, 10);
        assert(block_at(t, 0));
        assert forall|p: int| 1 <= p < 8 implies !#[trigger] block_at(t, p) by {
            assert(t[p - 1] != 0x0A);
        }
        assert(!block_at(t, 1) && !block_at(t, 2) && !block_at(t, 3) && !block_at(t, 4));
        assert(!block_at(t, 5) && !block_at(t, 6) && !block_at(t, 7));
    }
}

/// The texts of a solid are clean.
pub open spec fn solid_clean(s: PhySolid) -> bool {
    &&& clean(s.name@)
    &&& match s.parent {
        Some(p) => clean(p@),
        None => true,
    }
}

/// The texts that a whole file takes are clean.
pub open spec fn params_clean(p: PhyParams) -> bool {
    &&& clean(p.surface_prop@)
    &&& clean(p.root_name@)
    &&& forall|i: int|
        0 <= i < p.merge_list@.len() ==> clean((#[trigger] p.merge_list@[i]).0@) && clean(
            p.merge_list@[i].1@,
        )
}

/// All texts that go into a file are clean.
pub open spec fn texts_clean(solids: Seq<PhySolid>, params: PhyParams) -> bool {
    &&& params_clean(params)
    &&& forall|i: int| 0 <= i < solids.len() ==> solid_clean(#[trigger] solids[i])
}

/// A number with six decimals is clean.
proof fn number_is_clean(bits: u32)
    ensures
        clean(six_decimals(bits)),
{
    reveal(six_decimals);
    assert(clean("NaN"@)) by {
        reveal_strlit("NaN");
        reveal_with_fuel(clean_from, 5);
        is_clean("NaN"@, 0);
    }
    assert(clean("inf"@)) by {
        reveal_strlit("inf");
        reveal_with_fuel(clean_from, 5);
        is_clean("inf"@, 0);
    }
    assert(clean("-"@)) by {
        reveal_strlit("-");
        reveal_with_fuel(clean_from, 3);
        is_clean("-"@, 0);
    }
    assert(clean("."@)) by {
        reveal_strlit(".");
        reveal_with_fuel(clean_from, 3);
        is_clean("."@, 0);
    }
    let n = millionths(magnitude_of(bits));
    decimal_is_clean(n / 1000000);
    let d = six_digits(n % 1000000);
    assert(clean(d));
}

/// The line of a number.
proof fn number_told(key: Seq<char>, v: u32)
    requires
        clean(key),
    ensures
        told(line(key, six_decimals(v)), 0),
{
    number_is_clean(v);
    pair_told(key, six_decimals(v));
}

/// The own value of a solid, or else that of the file.
spec fn own_number(own: Option<u32>, other: u32) -> u32 {
    match own {
        Some(v) => v,
        None => other,
    }
}

/// The block of a solid.
proof fn solid_block_told(i: int, s: PhySolid, g: SolidGeometry, p: PhyParams)
    requires
        solid_clean(s),
        params_clean(p),
    ensures
        told(solid_block(i, s, g, p), 1),
{
    solid_keys();
    nothing_told();
    solid_told();
    openings_told();
    decimal_is_clean(i as nat);
    let a = "solid {\n"@;
    let b = line("index"@, decimal(i as nat));
    let c = line("name"@, s.name@);
    let d = match s.parent {
        Some(p) => line("parent"@, p@),
        None => Seq::empty(),
    };
    let e = line("mass"@, six_decimals(g.mass));
    let f = line("surfaceprop"@, p.surface_prop@);
    let h = line("damping"@, own_or(s.damping, p.damping));
    let j = line("rotdamping"@, own_or(s.rot_damping, p.rot_damping));
    let k = line_if("drag"@, p.drag);
    let l = line("inertia"@, own_or(s.inertia, p.inertia));
    let m = line("volume"@, six_decimals(g.volume));
    let n = if super::section::bias_counts(s.mass_bias) {
        line("massbias"@, six_decimals(s.mass_bias))
    } else {
        Seq::empty()
    };
    pair_told("index"@, decimal(i as nat));
    pair_told("name"@, s.name@);
    match s.parent {
        Some(q) => {
            pair_told("parent"@, q@);
        },
        None => {},
    }
    number_told("mass"@, g.mass);
    pair_told("surfaceprop"@, p.surface_prop@);
    number_told("damping"@, own_number(s.damping, p.damping));
    number_told("rotdamping"@, own_number(s.rot_damping, p.rot_damping));
    match p.drag {
        Some(q) => {
            number_told("drag"@, q);
        },
        None => {},
    }
    number_told("inertia"@, own_number(s.inertia, p.inertia));
    number_told("volume"@, g.volume);
    number_told("massbias"@, s.mass_bias);
    both_told(a, b, 1, 0);
    both_told(a + b, c, 1, 0);
    both_told(a + b + c, d, 1, 0);
    both_told(a + b + c + d, e, 1, 0);
    both_told(a + b + c + d + e, f, 1, 0);
    both_told(a + b + c + d + e + f, h, 1, 0);
    both_told(a + b + c + d + e + f + h, j, 1, 0);
    both_told(a + b + c + d + e + f + h + j, k, 1, 0);
    both_told(a + b + c + d + e + f + h + j + k, l, 1, 0);
    both_told(a + b + c + d + e + f + h + j + k + l, m, 1, 0);
    both_told(a + b + c + d + e + f + h + j + k + l + m, n, 1, 0);
    both_told(a + b + c + d + e + f + h + j + k + l + m + n, "}\n"@, 1, 0);
}

proof fn solid_blocks_told(
    solids: Seq<PhySolid>,
    g: Seq<SolidGeometry>,
    params: PhyParams,
    n: int,
)
    requires
        texts_clean(solids, params),
        0 <= n <= solids.len(),
        solids.len() == g.len(),
    ensures
        told(solid_blocks(solids, g, params, n), n as nat),
    decreases n,
{
    if n <= 0 {
        nothing_told();
    } else {
        solid_blocks_told(solids, g, params, n - 1);
        assert(solid_clean(solids[n - 1]));
        solid_block_told(n - 1, solids[n - 1], g[n - 1], params);
        both_told(
            solid_blocks(solids, g, params, n - 1),
            solid_block(n - 1, solids[n - 1], g[n - 1], params),
            (n - 1) as nat,
            1,
        );
    }
}

/// The lines of an axis.
proof fn axis_told(a: Seq<char>, b: Seq<char>, c: Seq<char>, v: (u32, u32, u32))
    requires
        clean(a) && clean(b) && clean(c),
    ensures
        told(axis_lines(a, b, c, v), 0),
{
    let x = line(a, six_decimals(v.0));
    let y = line(b, six_decimals(v.1));
    let z = line(c, six_decimals(v.2));
    number_told(a, v.0);
    number_told(b, v.1);
    number_told(c, v.2);
    both_told(x, y, 0, 0);
    both_told(x + y, z, 0, 0);
}

proof fn joint_block_told(solids: Seq<PhySolid>, limits: Seq<JointConstraint>, i: int)
    ensures
        told(joint_block(solids, limits, i), 0),
{
    nothing_told();
    match solids[i].parent {
        None => {},
        Some(p) => {
            joint_keys();
            openings_told();
            let parent = match find_solid(solids, p@, 0) {
                Some(j) => j,
                None => 0,
            };
            let bone = solids[i].name@;
            let n = limits.len() as int;
            let vx = axis_limits(limits, bone, 0, n);
            let vy = axis_limits(limits, bone, 1, n);
            let vz = axis_limits(limits, bone, 2, n);
            decimal_is_clean(parent as nat);
            decimal_is_clean(i as nat);
            let a = "ragdollconstraint {\n"@;
            let b = line("parent"@, decimal(parent as nat));
            let c = line("child"@, decimal(i as nat));
            let x = axis_lines("xmin"@, "xmax"@, "xfriction"@, vx);
            let y = axis_lines("ymin"@, "ymax"@, "yfriction"@, vy);
            let z = axis_lines("zmin"@, "zmax"@, "zfriction"@, vz);
            pair_told("parent"@, decimal(parent as nat));
            pair_told("child"@, decimal(i as nat));
            axis_told("xmin"@, "xmax"@, "xfriction"@, vx);
            axis_told("ymin"@, "ymax"@, "yfriction"@, vy);
            axis_told("zmin"@, "zmax"@, "zfriction"@, vz);
            both_told(a, b, 0, 0);
            both_told(a + b, c, 0, 0);
            both_told(a + b + c, x, 0, 0);
            both_told(a + b + c + x, y, 0, 0);
            both_told(a + b + c + x + y, z, 0, 0);
            both_told(a + b + c + x + y + z, "}\n"@, 0, 0);
        },
    }
}

proof fn joint_blocks_told(solids: Seq<PhySolid>, limits: Seq<JointConstraint>, n: int)
    ensures
        told(joint_blocks(solids, limits, n), 0),
    decreases n,
{
    if n <= 0 {
        nothing_told();
    } else {
        joint_blocks_told(solids, limits, n - 1);
        joint_block_told(solids, limits, n - 1);
        both_told(joint_blocks(solids, limits, n - 1), joint_block(solids, limits, n - 1), 0, 0);
    }
}

proof fn pair_lines_told(solids: Seq<PhySolid>, pairs: Seq<(String, String)>, n: int)
    ensures
        told(pair_lines(solids, pairs, n), 0),
    decreases n,
{
    nothing_told();
    if n > 0 {
        pair_lines_told(solids, pairs, n - 1);
        let pair = pairs[n - 1];
        match (find_solid(solids, pair.0@, 0), find_solid(solids, pair.1@, 0)) {
            (Some(x), Some(y)) => {
                other_keys();
                plain_values();
                decimal_is_clean(x as nat);
                decimal_is_clean(y as nat);
                pair_told("collisionpair"@, decimal(x as nat) + ","@ + decimal(y as nat));
            },
            _ => {},
        }
        both_told(pair_lines(solids, pairs, n - 1), pair_line(solids, pair), 0, 0);
    }
}

proof fn rules_told(solids: Seq<PhySolid>, params: PhyParams)
    ensures
        told(rules_block(solids, params), 0),
{
    nothing_told();
    openings_told();
    other_keys();
    plain_values();
    let a = "collisionrules {\n"@;
    pair_told("selfcollisions"@, "0"@);
    both_told(a, line("selfcollisions"@, "0"@), 0, 0);
    both_told(a + line("selfcollisions"@, "0"@), "}\n"@, 0, 0);
    let pairs = params.collision_pairs@;
    let b = pair_lines(solids, pairs, pairs.len() as int);
    pair_lines_told(solids, pairs, pairs.len() as int);
    both_told(a, b, 0, 0);
    both_told(a + b, "}\n"@, 0, 0);
}

proof fn friction_told(p: PhyParams)
    ensures
        told(friction_block(p.animated_friction), 0),
{
    nothing_told();
    match p.animated_friction {
        None => {},
        Some(f) => {
            openings_told();
            other_keys();
            let a = "animatedfriction {\n"@;
            let b = line("animfrictionmin"@, six_decimals(of_integer(f.min)));
            let c = line("animfrictionmax"@, six_decimals(of_integer(f.max)));
            let d = line("animfrictiontimein"@, six_decimals(f.time_in));
            let e = line("animfrictiontimeout"@, six_decimals(f.time_out));
            let h = line("animfrictiontimehold"@, six_decimals(f.time_hold));
            number_told("animfrictionmin"@, of_integer(f.min));
            number_told("animfrictionmax"@, of_integer(f.max));
            number_told("animfrictiontimein"@, f.time_in);
            number_told("animfrictiontimeout"@, f.time_out);
            number_told("animfrictiontimehold"@, f.time_hold);
            both_told(a, b, 0, 0);
            both_told(a + b, c, 0, 0);
            both_told(a + b + c, d, 0, 0);
            both_told(a + b + c + d, e, 0, 0);
            both_told(a + b + c + d + e, h, 0, 0);
            both_told(a + b + c + d + e + h, "}\n"@, 0, 0);
        },
    }
}

proof fn merges_told(merges: Seq<(String, String)>, n: int)
    requires
        0 <= n <= merges.len(),
        forall|i: int|
            0 <= i < merges.len() ==> clean((#[trigger] merges[i]).0@) && clean(merges[i].1@),
    ensures
        told(merge_lines(merges, n), 0),
    decreases n,
{
    if n <= 0 {
        nothing_told();
    } else {
        merges_told(merges, n - 1);
        other_keys();
        plain_values();
        let m = merges[n - 1];
        assert(clean(m.0@) && clean(m.1@));
        let v = m.0@ + ","@ + m.1@;
        pair_told("jointmerge"@, v);
        both_told(merge_lines(merges, n - 1), line("jointmerge"@, v), 0, 0);
    }
}

proof fn edit_told(p: PhyParams)
    requires
        params_clean(p),
    ensures
        told(edit_block(p), 0),
{
    nothing_told();
    openings_told();
    other_keys();
    plain_values();
    let a = "editparams {\n"@;
    let b = line("rootname"@, p.root_name@);
    let c = line("totalmass"@, six_decimals(p.total_mass));
    let d = if p.concave {
        line("concave"@, "1"@)
    } else {
        Seq::empty()
    };
    let e = merge_lines(p.merge_list@, p.merge_list@.len() as int);
    pair_told("rootname"@, p.root_name@);
    number_told("totalmass"@, p.total_mass);
    pair_told("concave"@, "1"@);
    merges_told(p.merge_list@, p.merge_list@.len() as int);
    both_told(a, b, 0, 0);
    both_told(a + b, c, 0, 0);
    both_told(a + b + c, d, 0, 0);
    both_told(a + b + c + d, e, 0, 0);
    both_told(a + b + c + d + e, "}\n"@, 0, 0);
}

/// The text starts with the line of a solid.
proof fn starts_with_a_solid(
    solids: Seq<PhySolid>,
    g: Seq<SolidGeometry>,
    params: PhyParams,
    n: int,
) -> (rest: Seq<char>)
    requires
        n >= 1,
    ensures
        solid_blocks(solids, g, params, n) == "solid {\n"@ + rest,
    decreases n,
{
    let last = solid_block(n - 1, solids[n - 1], g[n - 1], params);
    if n == 1 {
        let rest = last.skip("solid {\n"@.len() as int);
        assert(solid_blocks(solids, g, params, 0) =~= Seq::empty());
        assert(solid_blocks(solids, g, params, n) =~= "solid {\n"@ + rest);
        rest
    } else {
        let before = starts_with_a_solid(solids, g, params, n - 1);
        assert(solid_blocks(solids, g, params, n) =~= "solid {\n"@ + (before + last));
        before + last
    }
}

/// A text that starts with the line of a solid opens one.
proof fn opens_one(text: Seq<char>, more: Seq<char>)
    requires
        text == "solid {\n"@ + more,
    ensures
        block_at(encode_utf8(text), 0),
{
    encoded_apart("solid {\n"@, more);
    solid_told();
    let body = encode_utf8(text);
    assert(body.subrange(0, 7) =~= block_mark());
}

/// The last bytes of a text that ends with the close of a block.
proof fn closes_last(text: Seq<char>, start: Seq<char>)
    requires
        text == start + "}\n"@,
    ensures
        encode_utf8(text).len() >= 2,
        encode_utf8(text)[encode_utf8(text).len() - 2] == 0x7D,
        encode_utf8(text)[encode_utf8(text).len() - 1] == 0x0A,
{
    reveal_strlit("}\n");
    let end = "}\n"@;
    encoded_apart(start, end);
    vstd::utf8::is_ascii_chars_encode_utf8(end);
    assert(encode_utf8(end) =~= seq![0x7Du8, 0x0A]);
    assert(encode_utf8(text) == encode_utf8(start) + seq![0x7Du8, 0x0A]);
}

/// A text of whole lines that opens and closes as it must keeps the rules.
proof fn rules_from_lines(text: Seq<char>, more: Seq<char>, start: Seq<char>, n: nat)
    requires
        told(text, n),
        text == "solid {\n"@ + more,
        text == start + "}\n"@,
    ensures
        text_ok(encode_utf8(text).push(0), n as int),
{
    opens_one(text, more);
    closes_last(text, start);
    assert(encode_utf8(text).push(0).drop_last() =~= encode_utf8(text));
    vstd::utf8::encode_utf8_valid_utf8(text);
}

/// The whole text is made of whole lines, one of which opens each solid.
proof fn section_told(solids: Seq<PhySolid>, g: Seq<SolidGeometry>, params: PhyParams)
    requires
        solids.len() == g.len(),
        texts_clean(solids, params),
    ensures
        told(section_text(solids, g, params), solids.len()),
{
    let n = solids.len();
    let a = solid_blocks(solids, g, params, n as int);
    let b = joint_blocks(solids, params.constraints@, n as int);
    let c = rules_block(solids, params);
    let d = friction_block(params.animated_friction);
    let e = edit_block(params);
    solid_blocks_told(solids, g, params, n as int);
    joint_blocks_told(solids, params.constraints@, n as int);
    rules_told(solids, params);
    friction_told(params);
    edit_told(params);
    both_told(a, b, n, 0);
    both_told(a + b, c, n, 0);
    both_told(a + b + c, d, n, 0);
    both_told(a + b + c + d, e, n, 0);
}

/// The text ends with the close of a block.
proof fn ends_with_a_close(p: PhyParams, before: Seq<char>) -> (start: Seq<char>)
    ensures
        before + edit_block(p) == start + "}\n"@,
{
    let e = edit_block(p);
    let start = before + e.take(e.len() - "}\n"@.len());
    assert(before + e =~= start + "}\n"@);
    start
}

/// What the first of five parts starts with, all of them start with.
proof fn first_start(
    start: Seq<char>,
    rest: Seq<char>,
    b: Seq<char>,
    c: Seq<char>,
    d: Seq<char>,
    e: Seq<char>,
)
    ensures
        (start + rest) + b + c + d + e == start + (rest + b + c + d + e),
{
    assert((start + rest) + b + c + d + e =~= start + (rest + b + c + d + e));
}

/// The text of a file of `solids` solids keeps the rules by which it is read, if all that goes into
/// it is clean.
pub proof fn clean_texts_keep_the_rules(
    solids: Seq<PhySolid>,
    g: Seq<SolidGeometry>,
    params: PhyParams,
)
    requires
        solids.len() > 0,
        solids.len() == g.len(),
        texts_clean(solids, params),
    ensures
        text_ok(section_bytes(solids, g, params), solids.len() as int),
{
    let n = solids.len() as int;
    let a = solid_blocks(solids, g, params, n);
    let b = joint_blocks(solids, params.constraints@, n);
    let c = rules_block(solids, params);
    let d = friction_block(params.animated_friction);
    let e = edit_block(params);
    let text = section_text(solids, g, params);
    section_told(solids, g, params);
    let rest = starts_with_a_solid(solids, g, params, n);
    let more = rest + b + c + d + e;
    first_start("solid {\n"@, rest, b, c, d, e);
    assert(text == "solid {\n"@ + more);
    let start = ends_with_a_close(params, a + b + c + d);
    rules_from_lines(text, more, start, n as nat);
}

} // verus!
