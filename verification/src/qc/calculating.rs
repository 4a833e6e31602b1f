//! How expressions of flex rules are calculated: what comes first, and what is done with what.
use vstd::prelude::*;

use super::flexrule::{
    commas, emptied, fetched, first_byte, in_number, in_word, is_choice, number_end, operation,
    pieces, plain, postfix, shunt, starts_word, unstack_tighter, unstack_to_open, without_commas,
    word_end, FlexOpKind, Names, OpView,
};
use super::lexer::find_name;
use crate::single::negated;
use crate::text::lower;

verus! {

/// A number, a controller or a flex.
pub open spec fn is_operand(x: OpView) -> bool {
    x.op == FlexOpKind::Const || x.op == FlexOpKind::Fetch1 || x.op == FlexOpKind::Fetch2
}

/// A sum, a difference, a product or a quotient.
pub open spec fn is_binary(b: OpView) -> bool {
    b.op == FlexOpKind::Add || b.op == FlexOpKind::Sub || is_product(b)
}

/// A product or a quotient.
pub open spec fn is_product(b: OpView) -> bool {
    b.op == FlexOpKind::Mul || b.op == FlexOpKind::Div
}

/// The operations on the stack, put out.
proof fn puts_out(flex: Seq<char>, ops: Seq<OpView>, stack: Seq<OpView>, out: Seq<OpView>)
    requires
        shunt(flex, ops, 0, Seq::empty(), Seq::empty()) == Ok::<
            (Seq<OpView>, Seq<OpView>),
            Seq<char>,
        >((stack, out)),
        stack.len() <= 3,
        out.len() <= 6,
        forall|i: int|
            0 <= i < stack.len() ==> (is_binary(#[trigger] stack[i]) || stack[i].op
                == FlexOpKind::Neg),
        forall|i: int|
            0 <= i < out.len() ==> is_operand(#[trigger] out[i]) || is_binary(out[i]) || out[i].op
                == FlexOpKind::Neg,
    ensures
        postfix(flex, ops) == Ok::<Seq<OpView>, Seq<char>>(out + stack.reverse()),
{
    reveal_with_fuel(emptied, 5);
    let all = out + stack.reverse();
    if stack.len() == 0 {
        assert(all =~= out);
    } else if stack.len() == 1 {
        assert(all =~= out.push(stack[0]));
        assert(stack.drop_last() =~= Seq::empty());
    } else if stack.len() == 2 {
        assert(all =~= out.push(stack[1]).push(stack[0]));
        assert(stack.drop_last().drop_last() =~= Seq::empty());
        assert(stack.drop_last().last() == stack[0]);
    } else {
        assert(all =~= out.push(stack[2]).push(stack[1]).push(stack[0]));
        assert(stack.drop_last().drop_last().drop_last() =~= Seq::empty());
        assert(stack.drop_last().last() == stack[1]);
        assert(stack.drop_last().drop_last().last() == stack[0]);
    }
    assert(emptied(flex, stack, out) == Ok::<Seq<OpView>, Seq<char>>(all));
    assert forall|i: int| 0 <= i < all.len() implies !is_choice(#[trigger] all[i]) && all[i].op
        != FlexOpKind::Comma by {
        if i < out.len() {
            assert(all[i] == out[i]);
        } else {
            assert(all[i] == stack[stack.len() - 1 - (i - out.len())]);
        }
    }
    nothing_taken_up(all, all.len() as int);
    assert(all.take(all.len() as int) =~= all);
    no_commas(all);
}

proof fn nothing_taken_up(all: Seq<OpView>, n: int)
    requires
        0 <= n <= all.len(),
        forall|i: int| 0 <= i < all.len() ==> !is_choice(#[trigger] all[i]),
    ensures
        without_commas(all, n) == Some(all.take(n)),
    decreases n,
{
    if n > 0 {
        nothing_taken_up(all, n - 1);
        assert(all.take(n) =~= all.take(n - 1).push(all[n - 1]));
    } else {
        assert(all.take(0) =~= Seq::empty());
    }
}

proof fn no_commas(all: Seq<OpView>)
    requires
        forall|i: int| 0 <= i < all.len() ==> (#[trigger] all[i]).op != FlexOpKind::Comma,
    ensures
        commas(all) == 0,
    decreases all.len(),
{
    if all.len() > 0 {
        no_commas(all.drop_last());
    }
}

/// Two operands come before what is done with them: `x b y` is calculated as `x y b`.
pub proof fn operands_come_first(flex: Seq<char>, x: OpView, b: OpView, y: OpView)
    requires
        is_operand(x),
        is_operand(y),
        is_binary(b),
    ensures
        postfix(flex, seq![x, b, y]) == Ok::<Seq<OpView>, Seq<char>>(seq![x, y, b]),
{
    let ops = seq![x, b, y];
    let none = Seq::<OpView>::empty();
    reveal_with_fuel(shunt, 5);
    reveal_with_fuel(unstack_tighter, 3);
    assert(shunt(flex, ops, 3, none.push(b), none.push(x).push(y)) == Ok::<
        (Seq<OpView>, Seq<OpView>),
        Seq<char>,
    >((none.push(b), none.push(x).push(y))));
    puts_out(flex, ops, none.push(b), none.push(x).push(y));
    assert(none.push(x).push(y) + none.push(b).reverse() =~= seq![x, y, b]);
}

/// Products and quotients come before sums and differences; otherwise what stands first comes
/// first: `x + y * z` is calculated as `x y z * +`, and `x * y + z`, `x - y - z` and `x / y / z`
/// from left to right.
#[verifier::spinoff_prover]
pub proof fn products_come_before_sums(
    flex: Seq<char>,
    x: OpView,
    b: OpView,
    y: OpView,
    c: OpView,
    z: OpView,
)
    requires
        is_operand(x),
        is_operand(y),
        is_operand(z),
        is_binary(b),
        is_binary(c),
    ensures
        postfix(flex, seq![x, b, y, c, z]) == Ok::<Seq<OpView>, Seq<char>>(
            if is_product(c) && !is_product(b) {
                seq![x, y, z, c, b]
            } else {
                seq![x, y, b, z, c]
            },
        ),
{
    let ops = seq![x, b, y, c, z];
    let none = Seq::<OpView>::empty();
    reveal_with_fuel(shunt, 7);
    reveal_with_fuel(unstack_tighter, 3);
    assert(none.push(b).drop_last() =~= none);
    if is_product(c) && !is_product(b) {
        let stack = none.push(b).push(c);
        let out = none.push(x).push(y).push(z);
        assert(shunt(flex, ops, 5, stack, out) == Ok::<(Seq<OpView>, Seq<OpView>), Seq<char>>(
            (stack, out),
        ));
        puts_out(flex, ops, stack, out);
        assert(out + stack.reverse() =~= seq![x, y, z, c, b]);
    } else {
        let stack = none.push(c);
        let out = none.push(x).push(y).push(b).push(z);
        assert(shunt(flex, ops, 5, stack, out) == Ok::<(Seq<OpView>, Seq<OpView>), Seq<char>>(
            (stack, out),
        ));
        puts_out(flex, ops, stack, out);
        assert(out + stack.reverse() =~= seq![x, y, b, z, c]);
    }
}

/// What stands in brackets comes first: `x b ( y c z )` is calculated as `x y z c b`.
#[verifier::spinoff_prover]
pub proof fn brackets_come_first(
    flex: Seq<char>,
    x: OpView,
    b: OpView,
    y: OpView,
    c: OpView,
    z: OpView,
)
    requires
        is_operand(x),
        is_operand(y),
        is_operand(z),
        is_binary(b),
        is_binary(c),
    ensures
        postfix(
            flex,
            seq![x, b, plain(FlexOpKind::Open), y, c, z, plain(FlexOpKind::Close)],
        ) == Ok::<Seq<OpView>, Seq<char>>(seq![x, y, z, c, b]),
{
    let open = plain(FlexOpKind::Open);
    let ops = seq![x, b, open, y, c, z, plain(FlexOpKind::Close)];
    let none = Seq::<OpView>::empty();
    reveal_with_fuel(shunt, 9);
    reveal_with_fuel(unstack_tighter, 3);
    reveal_with_fuel(unstack_to_open, 3);
    let deep = none.push(b).push(open).push(c);
    assert(deep.drop_last() =~= none.push(b).push(open));
    assert(none.push(b).push(open).drop_last() =~= none.push(b));
    let stack = none.push(b);
    let out = none.push(x).push(y).push(z).push(c);
    assert(shunt(flex, ops, 7, stack, out) == Ok::<(Seq<OpView>, Seq<OpView>), Seq<char>>(
        (stack, out),
    ));
    puts_out(flex, ops, stack, out);
    assert(out + stack.reverse() =~= seq![x, y, z, c, b]);
}

/// A closing bracket without an opening one is an error.
pub proof fn closing_brackets_need_opening_ones(flex: Seq<char>, x: OpView)
    requires
        is_operand(x),
    ensures
        postfix(flex, seq![x, plain(FlexOpKind::Close)]) is Err,
{
    reveal_with_fuel(shunt, 4);
    reveal_with_fuel(unstack_to_open, 2);
}

/// The signs of an expression: each stands for its own operation.
pub proof fn signs_stand_for_operations(names: Names, ops: Seq<OpView>)
    ensures
        operation(names, ops, seq!['(']) == Ok::<OpView, Seq<char>>(plain(FlexOpKind::Open)),
        operation(names, ops, seq![')']) == Ok::<OpView, Seq<char>>(plain(FlexOpKind::Close)),
        operation(names, ops, seq!['+']) == Ok::<OpView, Seq<char>>(plain(FlexOpKind::Add)),
        operation(names, ops, seq!['*']) == Ok::<OpView, Seq<char>>(plain(FlexOpKind::Mul)),
        operation(names, ops, seq!['/']) == Ok::<OpView, Seq<char>>(plain(FlexOpKind::Div)),
        operation(names, ops, seq![',']) == Ok::<OpView, Seq<char>>(plain(FlexOpKind::Comma)),
        ops.len() == 0 ==> operation(names, ops, seq!['-']) == Ok::<OpView, Seq<char>>(
            plain(FlexOpKind::Sub),
        ),
        ops.len() > 0 && is_operand(ops.last()) ==> operation(names, ops, seq!['-']) == Ok::<
            OpView,
            Seq<char>,
        >(plain(FlexOpKind::Sub)),
        ops.len() > 0 && is_binary(ops.last()) ==> operation(names, ops, seq!['-']) == Ok::<
            OpView,
            Seq<char>,
        >(plain(FlexOpKind::Neg)),
{
    starts_with('(');
    starts_with(')');
    starts_with('+');
    starts_with('*');
    starts_with('/');
    starts_with(',');
    starts_with('-');
}

/// The first byte of an ASCII character.
proof fn starts_with(c: char)
    requires
        c as u32 <= 0x7F,
    ensures
        first_byte(seq![c]) == c as u8,
{
    assert(vstd::utf8::is_ascii_chars(seq![c]));
    vstd::utf8::is_ascii_chars_encode_utf8(seq![c]);
    assert(seq![c][0] == c);
}

/// A name that is a controller's, in any ASCII case, stands for that controller; a name that is a
/// flex's stands for that flex behind a percent sign.
pub proof fn names_stand_for_what_they_name(names: Names, ops: Seq<OpView>, p: Seq<char>, i: int)
    ensures
        fetched(names, p) matches Ok(op) ==> op.op == FlexOpKind::Fetch2 && (op.flexdesc matches Some(
            d,
        ) && lower(d) == lower(p) && names.flexdescs.contains(d)) && op.value is None
            && op.controller is None,
        0 <= i < names.flexdescs.len() && lower(names.flexdescs[i]) == lower(p) ==> fetched(names, p)
            is Ok,
{
    name_found(names.flexdescs, p, 0, i);
}

proof fn name_found(names: Seq<Seq<char>>, p: Seq<char>, k: int, i: int)
    requires
        0 <= k,
    ensures
        find_name(names, p, k) matches Some(j) ==> k <= j < names.len() && lower(names[j]) == lower(p),
        k <= i < names.len() && lower(names[i]) == lower(p) ==> find_name(names, p, k) is Some,
    decreases names.len() - k,
{
    if k < names.len() && lower(names[k]) != lower(p) {
        name_found(names, p, k + 1, i);
    }
}

/// The larger and the smaller of two come behind both: `max(x, y)` is calculated as `x y max`.
#[verifier::spinoff_prover]
pub proof fn choices_come_behind_both(flex: Seq<char>, m: OpView, x: OpView, y: OpView)
    requires
        is_choice(m),
        is_operand(x),
        is_operand(y),
    ensures
        postfix(
            flex,
            seq![
                m,
                plain(FlexOpKind::Open),
                x,
                plain(FlexOpKind::Comma),
                y,
                plain(FlexOpKind::Close),
            ],
        ) == Ok::<Seq<OpView>, Seq<char>>(seq![x, y, m]),
{
    let open = plain(FlexOpKind::Open);
    let comma = plain(FlexOpKind::Comma);
    let ops = seq![m, open, x, comma, y, plain(FlexOpKind::Close)];
    let none = Seq::<OpView>::empty();
    reveal_with_fuel(shunt, 8);
    reveal_with_fuel(unstack_to_open, 3);
    let deep = none.push(m).push(open).push(comma);
    assert(deep.drop_last() =~= none.push(m).push(open));
    assert(none.push(m).push(open).drop_last() =~= none.push(m));
    let stack = none.push(m);
    let out = none.push(x).push(y).push(comma);
    assert(shunt(flex, ops, 6, stack, out) == Ok::<(Seq<OpView>, Seq<OpView>), Seq<char>>(
        (stack, out),
    ));
    reveal_with_fuel(emptied, 3);
    assert(stack.drop_last() =~= none);
    let all = out.push(m);
    assert(emptied(flex, stack, out) == Ok::<Seq<OpView>, Seq<char>>(all));
    reveal_with_fuel(without_commas, 5);
    assert(none.push(x).push(y).push(comma).drop_last() =~= none.push(x).push(y));
    let done = none.push(x).push(y).push(m);
    assert(without_commas(all, 4) == Some(done));
    assert(done =~= seq![x, y, m]);
    assert forall|i: int| 0 <= i < done.len() implies (#[trigger] done[i]).op
        != FlexOpKind::Comma by {}
    no_commas(done);
}

/// A turned sign goes into a number, and is an operation of its own on anything else.
#[verifier::spinoff_prover]
pub proof fn signs_are_turned_first(flex: Seq<char>, x: OpView, b: OpView, y: OpView)
    requires
        is_operand(x),
        is_binary(b),
        is_operand(y),
    ensures
        y.op != FlexOpKind::Const ==> postfix(flex, seq![x, b, plain(FlexOpKind::Neg), y]) == Ok::<
            Seq<OpView>,
            Seq<char>,
        >(seq![x, y, plain(FlexOpKind::Neg), b]),
        y.op == FlexOpKind::Const && y.value is Some ==> postfix(
            flex,
            seq![x, b, plain(FlexOpKind::Neg), y],
        ) == Ok::<Seq<OpView>, Seq<char>>(
            seq![x, OpView { value: Some(negated(y.value->0)), ..y }, b],
        ),
{
    let neg = plain(FlexOpKind::Neg);
    let ops = seq![x, b, neg, y];
    let none = Seq::<OpView>::empty();
    reveal_with_fuel(shunt, 6);
    reveal_with_fuel(unstack_tighter, 3);
    if y.op != FlexOpKind::Const {
        let stack = none.push(b).push(neg);
        let out = none.push(x).push(y);
        assert(shunt(flex, ops, 4, stack, out) == Ok::<(Seq<OpView>, Seq<OpView>), Seq<char>>(
            (stack, out),
        ));
        puts_out(flex, ops, stack, out);
        assert(out + stack.reverse() =~= seq![x, y, neg, b]);
    } else if y.value is Some {
        let z = OpView { value: Some(negated(y.value->0)), ..y };
        let stack = none.push(b);
        let out = none.push(x).push(z);
        assert(shunt(flex, ops, 4, stack, out) == Ok::<(Seq<OpView>, Seq<OpView>), Seq<char>>(
            (stack, out),
        ));
        puts_out(flex, ops, stack, out);
        assert(out + stack.reverse() =~= seq![x, z, b]);
    }
}

/// A name that no sign and no digit begins stands for the controller of that name, in any ASCII
/// case.
pub proof fn names_stand_for_controllers(names: Names, ops: Seq<OpView>, p: Seq<char>, i: int)
    requires
        p.len() > 0,
        vstd::utf8::is_ascii_chars(p),
        'A' <= p[0] <= 'z',
        0 <= i < names.controllers.len(),
        lower(names.controllers[i]) == lower(p),
        lower(p) != lower("max"@),
        lower(p) != lower("min"@),
    ensures
        operation(names, ops, p) matches Ok(op) && op.op == FlexOpKind::Fetch1 && (op.controller
            matches Some(c) && lower(c) == lower(p) && names.controllers.contains(c)),
{
    name_found(names.controllers, p, 0, i);
    vstd::utf8::is_ascii_chars_encode_utf8(p);
}

proof fn word_ends(b: Seq<u8>, i: int, e: int)
    requires
        0 <= i <= e <= b.len(),
        forall|k: int| i <= k < e ==> in_word(#[trigger] b[k]),
        e < b.len() ==> !in_word(b[e]),
    ensures
        word_end(b, i) == e,
    decreases e - i,
{
    if i < e {
        word_ends(b, i + 1, e);
    }
}

proof fn number_ends(b: Seq<u8>, i: int, e: int)
    requires
        0 <= i <= e <= b.len(),
        forall|k: int| i <= k < e ==> in_number(#[trigger] b[k]),
        e < b.len() ==> !in_number(b[e]),
    ensures
        number_end(b, i) == e,
    decreases e - i,
{
    if i < e {
        number_ends(b, i + 1, e);
    }
}

/// An expression falls into words, numbers and signs: a word goes on as long as letters, digits and
/// underscores follow, a number as long as digits and points do, and any other sign stands alone.
pub proof fn expressions_fall_into_pieces(b: Seq<u8>, i: int, e: int, x: Seq<char>)
    requires
        0 <= i < e <= b.len(),
        b.subrange(i, e) == vstd::utf8::encode_utf8(x),
        b[i] != 0x23 && b[i] != 0x2F,
        ({
            ||| starts_word(b[i]) && (forall|k: int| i <= k < e ==> in_word(#[trigger] b[k])) && (e
                < b.len() ==> !in_word(b[e]))
            ||| (forall|k: int| i <= k < e ==> in_number(#[trigger] b[k])) && (e < b.len()
                ==> !in_number(b[e]))
            ||| !starts_word(b[i]) && !in_number(b[i]) && e == i + 1
        }),
    ensures
        pieces(b, i) == seq![x] + pieces(b, e),
{
    vstd::utf8::encode_utf8_valid_utf8(x);
    vstd::utf8::encode_utf8_decode_utf8(x);
    if starts_word(b[i]) {
        assert(!in_number(b[i]));
        word_ends(b, i + 1, e);
    } else if in_number(b[i]) {
        number_ends(b, i + 1, e);
    }
}

} // verus!
