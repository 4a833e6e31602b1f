//! Commands that describe sequences and animations.
use vstd::prelude::*;

use super::error::{ErrorView, QcError};
use super::lexer::{left, LexState, Lexer, Token, TokenView};
use super::model::{
    Animation, AnimationView, BlendParam, BlendParamView, FrameRange, IkAutoplayLock, IkRange,
    IkRule, IkRuleType, IkRuleView, ModelDescView, PoseParameter, PoseParameterView, Script,
    ScriptView, Sequence, SequenceEvent, SequenceEventView, SequenceView,
};
use super::read::{
    around, block_token, deeper, error_for, f, fail_at, gave, gave_value, given_back, i, int_on,
    bare_number, integer_of, into, left_at, line_skipped, more, num, obeyed, out_of, parse_bare, parse_i, put_around,
    read_in_block, read_word, shallower, skip_rest_of_line, tok, token, v3, vector, went_on, word,
    At,
};
use super::settings::{
    is_blank, iklock, keyvalues, option_keyvalues, read_iklock, resolve_src, resolved,
};
use crate::arith::{from_integer, of_integer};
use crate::seqs::{viewed, viewed_if, viewing};
use crate::single::{larger, max, min, smaller};
use crate::text::{begins, ends, finishes, lower, lowered, same, same_but_case, starts};

verus! {

broadcast use viewing;

/// The most sequences that a model may have.
pub const MAX_SEQUENCES: usize = 1524;

/// One fifth, as a number.
pub const FIFTH: u32 = 0x3E4C_CCCD;

/// A sequence of which only the name is known.
pub open spec fn bare_sequence(name: Seq<char>, fade: u32, declared: bool) -> SequenceView {
    SequenceView {
        name,
        smd: Seq::empty(),
        fps: None,
        looping: false,
        delta: false,
        activity: None,
        activity_weight: 0,
        events: Seq::empty(),
        fade_in: fade,
        fade_out: fade,
        forward_declared: declared,
        no_auto_ik: false,
        ik_rules: Seq::empty(),
        iklocks: Seq::empty(),
        blends: Seq::empty(),
        blend_width: None,
        blend_params: Seq::empty(),
        auto_layers: Seq::empty(),
        section_frames: None,
        section_threshold: None,
        extra_flags: None,
        weight_list: None,
    }
}

/// A sequence of which only the name is known.
fn new_sequence(name: String, fade: u32, declared: bool) -> (r: Sequence)
    ensures
        r@ == bare_sequence(name@, fade, declared),
{
    let smd: String = String::new();
    assert(smd@ =~= Seq::empty());
    Sequence {
        name,
        smd,
        fps: None,
        looping: false,
        delta: false,
        activity: None,
        activity_weight: 0,
        events: Vec::new(),
        fade_in: fade,
        fade_out: fade,
        forward_declared: declared,
        no_auto_ik: false,
        ik_rules: Vec::new(),
        iklocks: Vec::new(),
        blends: Vec::new(),
        blend_width: None,
        blend_params: Vec::new(),
        auto_layers: Vec::new(),
        section_frames: None,
        section_threshold: None,
        extra_flags: None,
        weight_list: None,
    }
}

/// A sequence added.
pub open spec fn with_sequence(d: ScriptView, q: SequenceView) -> ScriptView {
    ScriptView { desc: ModelDescView { sequences: d.desc.sequences.push(q), ..d.desc }, ..d }
}

/// A sequence declared, which another model fills.
pub open spec fn declaresequence(d: ScriptView, s: At) -> (ScriptView, At) {
    let (t, s) = token(s, false);
    if d.desc.sequences.len() >= MAX_SEQUENCES {
        (d, fail_at(s, t, "序列过多：官方上限 1524 条"@))
    } else {
        (with_sequence(d, bare_sequence(t.text, 0, true)), s)
    }
}

/// Declares a sequence, which another model fills.
pub fn cmd_declaresequence(lex: &mut Lexer, d: &mut Script) -> (r: Result<(), QcError>)
    requires
        old(lex).wf(),
    ensures
        final(lex).wf(),
        obeyed(r, final(lex)@, final(d)@, declaresequence(old(d)@, Ok(old(lex)@))),
        left(final(lex)@) <= left(old(lex)@),
{
    let t: Token = match tok(lex, false) {
        Ok(v) => v,
        Err(e) => {
            return Err(e);
        },
    };
    if d.desc.sequences.len() >= MAX_SEQUENCES {
        return Err(error_for(&t, "序列过多：官方上限 1524 条".to_owned()));
    }
    d.desc.sequences.push(new_sequence(t.text, 0, true));
    Ok(())
}

/// The first parameter with the given name, in any ASCII case, from `i` on.
pub open spec fn find_pose(list: Seq<PoseParameterView>, name: Seq<char>, i: int) -> Option<int>
    decreases list.len() - i,
{
    if i < 0 || i >= list.len() {
        None
    } else if lower(list[i].name) == lower(name) {
        Some(i)
    } else {
        find_pose(list, name, i + 1)
    }
}

/// The first parameter with the given name, in any ASCII case.
pub fn pose_index(list: &Vec<PoseParameter>, name: &str) -> (r: Option<usize>)
    ensures
        match r {
            Some(i) => i < list@.len() && find_pose(viewed(list@), name@, 0) == Some(i as int),
            None => find_pose(viewed(list@), name@, 0) is None,
        },
{
    let mut i: usize = 0;
    while i < list.len()
        invariant
            i <= list@.len(),
            find_pose(viewed(list@), name@, i as int) == find_pose(viewed(list@), name@, 0),
        decreases list@.len() - i,
    {
        assert(viewed(list@)[i as int] == list@[i as int]@);
        if same_but_case(list[i].name.as_str(), name) {
            return Some(i);
        }
        i = i + 1;
    }
    None
}

/// Parameters, with the range of one widened to hold two numbers.
pub open spec fn widened(
    list: Seq<PoseParameterView>,
    name: Seq<char>,
    start: u32,
    end: u32,
) -> Seq<PoseParameterView> {
    match find_pose(list, name, 0) {
        None => list,
        Some(i) => list.update(
            i,
            PoseParameterView {
                start: smaller(smaller(list[i].start, start), end),
                end: larger(larger(list[i].end, start), end),
                ..list[i]
            },
        ),
    }
}

/// Widens the range of a parameter.
fn widen(list: &mut Vec<PoseParameter>, name: &str, start: u32, end: u32)
    ensures
        viewed(final(list)@) == widened(viewed(old(list)@), name@, start, end),
{
    if let Some(k) = pose_index(list, name) {
        let ghost before = viewed(list@);
        let low: u32 = min(min(list[k].start, start), end);
        let high: u32 = max(max(list[k].end, start), end);
        list[k].start = low;
        list[k].end = high;
        assert(viewed(list@) =~= widened(before, name@, start, end));
    }
}

/// Something that happens in a sequence.
pub open spec fn event(s: At) -> (SequenceEventView, At) {
    let (name, s) = word(s);
    let (frame, s) = int_on(s);
    let (options, s) = if more(s) {
        word(s)
    } else {
        (Seq::empty(), s)
    };
    let numeric = name.len() > 0 && '0' <= name[0] <= '9';
    (
        SequenceEventView {
            cycle: of_integer(frame),
            event_type: if numeric {
                0i32
            } else {
                1024i32
            },
            event: if numeric {
                integer_of(name)
            } else {
                0i32
            },
            name: if numeric {
                Seq::empty()
            } else {
                name
            },
            options,
        },
        s,
    )
}

/// Reads something that happens in a sequence.
fn option_event(lex: &mut Lexer) -> (r: Result<SequenceEvent, QcError>)
    requires
        old(lex).wf(),
    ensures
        final(lex).wf(),
        ({
            let (v, s) = event(Ok(old(lex)@));
            gave(r, final(lex)@, v, s)
        }),
        left(final(lex)@) <= left(old(lex)@),
{
    let name: String = match read_word(lex) {
        Ok(v) => v,
        Err(e) => {
            return Err(e);
        },
    };
    let frame: i32 = match i(lex) {
        Ok(v) => v,
        Err(e) => {
            return Err(e);
        },
    };
    let mut options: String = String::new();
    assert(options@ =~= Seq::empty());
    if lex.token_available() {
        options = match read_word(lex) {
            Ok(v) => v,
            Err(e) => {
                return Err(e);
            },
        };
    }
    let c: Vec<char> = crate::text::chars_of(name.as_str());
    if c.len() > 0 && '0' <= c[0] && c[0] <= '9' {
        let number: i32 = match parse_i(name.as_str()) {
            Some(v) => v,
            None => 0,
        };
        let none: String = String::new();
        assert(none@ =~= Seq::empty());
        Ok(
            SequenceEvent {
                cycle: from_integer(frame),
                event_type: 0,
                event: number,
                name: none,
                options,
            },
        )
    } else {
        Ok(SequenceEvent { cycle: from_integer(frame), event_type: 1024, event: 0, name, options })
    }
}

/// The way in which a limb keeps its place.
pub open spec fn rule_type(low: Seq<char>) -> Option<IkRuleType> {
    if low == "touch"@ {
        Some(IkRuleType::Touch)
    } else if low == "footstep"@ {
        Some(IkRuleType::Footstep)
    } else if low == "attachment"@ {
        Some(IkRuleType::Attachment)
    } else if low == "release"@ {
        Some(IkRuleType::Release)
    } else if low == "unlatch"@ {
        Some(IkRuleType::Unlatch)
    } else {
        None
    }
}

/// The way in which a limb keeps its place.
fn rule_type_of(low: &str) -> (r: Option<IkRuleType>)
    ensures
        r == rule_type(low@),
{
    if same(low, "touch") {
        Some(IkRuleType::Touch)
    } else if same(low, "footstep") {
        Some(IkRuleType::Footstep)
    } else if same(low, "attachment") {
        Some(IkRuleType::Attachment)
    } else if same(low, "release") {
        Some(IkRuleType::Release)
    } else if same(low, "unlatch") {
        Some(IkRuleType::Unlatch)
    } else {
        None
    }
}

/// A frame that may be left open.
pub open spec fn range_slot(s: At) -> (Option<i32>, At) {
    let (t, s) = word(s);
    (
        if t == "."@ {
            None
        } else {
            Some(integer_of(t))
        },
        s,
    )
}

/// Reads a frame that may be left open.
fn read_slot(lex: &mut Lexer) -> (r: Result<Option<i32>, QcError>)
    requires
        old(lex).wf(),
    ensures
        final(lex).wf(),
        ({
            let (v, s) = range_slot(Ok(old(lex)@));
            gave_value(r, final(lex)@, v, s)
        }),
        left(final(lex)@) <= left(old(lex)@),
{
    let t: String = match read_word(lex) {
        Ok(v) => v,
        Err(e) => {
            return Err(e);
        },
    };
    if same(t.as_str(), ".") {
        Ok(None)
    } else {
        match parse_i(t.as_str()) {
            Some(v) => Ok(Some(v)),
            None => Ok(Some(0)),
        }
    }
}

/// One option of a rule for a limb. An option that is not known says nothing.
pub open spec fn rule_option(r: IkRuleView, low: Seq<char>, s: At) -> (IkRuleView, At) {
    if low == "usesource"@ {
        (IkRuleView { use_source: true, ..r }, s)
    } else if low == "usesequence"@ {
        (IkRuleView { use_source: false, ..r }, s)
    } else if low == "fakeorigin"@ {
        let (v, s) = vector(s);
        (IkRuleView { fake_origin: Some(v), ..r }, s)
    } else if low == "fakerotate"@ {
        let (v, s) = vector(s);
        (IkRuleView { fake_rotate: Some(v), ..r }, s)
    } else if low == "floor"@ {
        let (v, s) = num(s);
        (IkRuleView { floor: Some(v), ..r }, s)
    } else if low == "height"@ {
        let (v, s) = num(s);
        (IkRuleView { height: Some(v), ..r }, s)
    } else if low == "radius"@ {
        let (v, s) = num(s);
        (IkRuleView { radius: Some(v), ..r }, s)
    } else if low == "pad"@ {
        let (v, s) = num(s);
        (IkRuleView { pad: Some(v), ..r }, s)
    } else if low == "target"@ {
        let (v, s) = int_on(s);
        (IkRuleView { target: Some(v), ..r }, s)
    } else if low == "contact"@ {
        let (v, s) = int_on(s);
        (IkRuleView { contact: Some(v), ..r }, s)
    } else if low == "range"@ {
        let (start, s) = range_slot(s);
        let (peak, s) = range_slot(s);
        let (tail, s) = range_slot(s);
        let (end, s) = range_slot(s);
        (IkRuleView { range: Some(IkRange { start, peak, tail, end }), ..r }, s)
    } else {
        (r, s)
    }
}

/// Reads one option of a rule for a limb.
fn read_rule_option(lex: &mut Lexer, d: &mut IkRule, low: &str) -> (r: Result<(), QcError>)
    requires
        old(lex).wf(),
    ensures
        final(lex).wf(),
        obeyed(r, final(lex)@, final(d)@, rule_option(old(d)@, low@, Ok(old(lex)@))),
        left(final(lex)@) <= left(old(lex)@),
{
    if same(low, "usesource") {
        d.use_source = true;
    } else if same(low, "usesequence") {
        d.use_source = false;
    } else if same(low, "fakeorigin") {
        d.fake_origin = match v3(lex) {
            Ok(v) => Some(v),
            Err(e) => {
                return Err(e);
            },
        };
    } else if same(low, "fakerotate") {
        d.fake_rotate = match v3(lex) {
            Ok(v) => Some(v),
            Err(e) => {
                return Err(e);
            },
        };
    } else if same(low, "floor") {
        d.floor = match f(lex) {
            Ok(v) => Some(v),
            Err(e) => {
                return Err(e);
            },
        };
    } else if same(low, "height") {
        d.height = match f(lex) {
            Ok(v) => Some(v),
            Err(e) => {
                return Err(e);
            },
        };
    } else if same(low, "radius") {
        d.radius = match f(lex) {
            Ok(v) => Some(v),
            Err(e) => {
                return Err(e);
            },
        };
    } else if same(low, "pad") {
        d.pad = match f(lex) {
            Ok(v) => Some(v),
            Err(e) => {
                return Err(e);
            },
        };
    } else if same(low, "target") {
        d.target = match i(lex) {
            Ok(v) => Some(v),
            Err(e) => {
                return Err(e);
            },
        };
    } else if same(low, "contact") {
        d.contact = match i(lex) {
            Ok(v) => Some(v),
            Err(e) => {
                return Err(e);
            },
        };
    } else if same(low, "range") {
        let start: Option<i32> = match read_slot(lex) {
            Ok(v) => v,
            Err(e) => {
                return Err(e);
            },
        };
        let peak: Option<i32> = match read_slot(lex) {
            Ok(v) => v,
            Err(e) => {
                return Err(e);
            },
        };
        let tail: Option<i32> = match read_slot(lex) {
            Ok(v) => v,
            Err(e) => {
                return Err(e);
            },
        };
        let end: Option<i32> = match read_slot(lex) {
            Ok(v) => v,
            Err(e) => {
                return Err(e);
            },
        };
        d.range = Some(IkRange { start, peak, tail, end });
    }
    Ok(())
}

/// The options of a rule for a limb.
pub open spec fn rule_options(r: IkRuleView, s: At) -> (IkRuleView, At)
    decreases left_at(s),
{
    if !more(s) {
        (r, s)
    } else {
        let (t, n) = word(s);
        let (r, n) = rule_option(r, lower(t), n);
        if went_on(n, s) {
            rule_options(r, n)
        } else {
            (r, n)
        }
    }
}

/// Reads the options of a rule for a limb.
fn read_rule_options(lex: &mut Lexer, d: &mut IkRule) -> (r: Result<(), QcError>)
    requires
        old(lex).wf(),
    ensures
        final(lex).wf(),
        obeyed(r, final(lex)@, final(d)@, rule_options(old(d)@, Ok(old(lex)@))),
        left(final(lex)@) <= left(old(lex)@),
{
    while lex.token_available()
        invariant
            lex.wf(),
            left(lex@) <= left(old(lex)@),
            rule_options(d@, Ok(lex@)) == rule_options(old(d)@, Ok(old(lex)@)),
        decreases left(lex@),
    {
        let t: String = match read_word(lex) {
            Ok(v) => v,
            Err(e) => {
                return Err(e);
            },
        };
        let low: String = lowered(t.as_str());
        match read_rule_option(lex, d, low.as_str()) {
            Ok(_) => {},
            Err(e) => {
                return Err(e);
            },
        }
    }
    Ok(())
}

/// A rule for a limb of which only the chain and the kind are known.
pub open spec fn bare_rule(chain: Seq<char>, kind: IkRuleType) -> IkRuleView {
    IkRuleView {
        chain,
        kind,
        bone: None,
        attachment: None,
        target: None,
        height: None,
        radius: None,
        pad: None,
        floor: None,
        range: None,
        contact: None,
        fake_origin: None,
        fake_rotate: None,
        use_source: false,
    }
}

/// A rule for a limb.
pub open spec fn ikrule(s: At) -> (IkRuleView, At) {
    let (chain, s) = word(s);
    let (t, s) = token(s, false);
    match rule_type(lower(t.text)) {
        None => (
            bare_rule(chain, IkRuleType::Touch),
            fail_at(s, t, around("未知的 ikrule 类型 "@, lower(t.text), ""@)),
        ),
        Some(kind) => {
            let r = bare_rule(chain, kind);
            if kind == IkRuleType::Touch {
                let (b, s) = word(s);
                rule_options(
                    IkRuleView {
                        bone: if b.len() == 0 {
                            None
                        } else {
                            Some(b)
                        },
                        ..r
                    },
                    s,
                )
            } else if kind == IkRuleType::Attachment {
                let (a, s) = word(s);
                rule_options(IkRuleView { attachment: Some(a), ..r }, s)
            } else {
                rule_options(r, s)
            }
        },
    }
}

/// Reads a rule for a limb.
fn option_ikrule(lex: &mut Lexer) -> (r: Result<IkRule, QcError>)
    requires
        old(lex).wf(),
    ensures
        final(lex).wf(),
        ({
            let (v, s) = ikrule(Ok(old(lex)@));
            gave(r, final(lex)@, v, s)
        }),
        left(final(lex)@) <= left(old(lex)@),
{
    let chain: String = match read_word(lex) {
        Ok(v) => v,
        Err(e) => {
            return Err(e);
        },
    };
    let t: Token = match tok(lex, false) {
        Ok(v) => v,
        Err(e) => {
            return Err(e);
        },
    };
    let low: String = lowered(t.text.as_str());
    let kind: IkRuleType = match rule_type_of(low.as_str()) {
        Some(kind) => kind,
        None => {
            return Err(error_for(&t, put_around("未知的 ikrule 类型 ", low.as_str(), "")));
        },
    };
    let mut rule: IkRule = IkRule {
        chain,
        kind,
        bone: None,
        attachment: None,
        target: None,
        height: None,
        radius: None,
        pad: None,
        floor: None,
        range: None,
        contact: None,
        fake_origin: None,
        fake_rotate: None,
        use_source: false,
    };
    if kind == IkRuleType::Touch {
        let b: String = match read_word(lex) {
            Ok(v) => v,
            Err(e) => {
                return Err(e);
            },
        };
        if !is_blank(b.as_str()) {
            rule.bone = Some(b);
        }
    } else if kind == IkRuleType::Attachment {
        rule.attachment = match read_word(lex) {
            Ok(v) => Some(v),
            Err(e) => {
                return Err(e);
            },
        };
    }
    match read_rule_options(lex, &mut rule) {
        Ok(_) => {},
        Err(e) => {
            return Err(e);
        },
    }
    Ok(rule)
}

/// The mark that a word sets on a sequence.
pub open spec fn sequence_flag(low: Seq<char>) -> Option<i32> {
    if low == "snap"@ {
        Some(0x0002i32)
    } else if low == "autoplay"@ {
        Some(0x0008i32)
    } else if low == "post"@ {
        Some(0x0010i32)
    } else if low == "realtime"@ {
        Some(0x0080i32)
    } else if low == "hidden"@ {
        Some(0x0400i32)
    } else if low == "worldspace"@ {
        Some(0x2000i32)
    } else {
        None
    }
}

/// The mark that a word sets on a sequence.
fn sequence_flag_of(low: &str) -> (r: Option<i32>)
    ensures
        r == sequence_flag(low@),
{
    if same(low, "snap") {
        Some(0x0002)
    } else if same(low, "autoplay") {
        Some(0x0008)
    } else if same(low, "post") {
        Some(0x0010)
    } else if same(low, "realtime") {
        Some(0x0080)
    } else if same(low, "hidden") {
        Some(0x0400)
    } else if same(low, "worldspace") {
        Some(0x2000)
    } else {
        None
    }
}

/// Marks with one more.
pub open spec fn flag_or(flags: Option<i32>, bit: i32) -> i32 {
    match flags {
        Some(f) => f | bit,
        None => 0 | bit,
    }
}

/// What a sequence has while it is read: the script around it, itself, and the animations that it
/// names.
pub struct SequenceState {
    /// The script.
    pub d: ScriptView,
    /// The sequence.
    pub q: SequenceView,
    /// The animations that it names.
    pub names: Seq<Seq<char>>,
}

/// An option of a sequence that changes the sequence alone; `None` where the word is none.
pub open spec fn plain_option(q: SequenceView, low: Seq<char>, s: At) -> Option<
    (SequenceView, At),
> {
    if low == "fps"@ {
        let (v, s) = num(s);
        Some((SequenceView { fps: Some(v), ..q }, s))
    } else if low == "loop"@ {
        Some((SequenceView { looping: true, ..q }, s))
    } else if low == "delta"@ || low == "predelta"@ {
        Some((SequenceView { delta: true, ..q }, s))
    } else if low == "noautoik"@ {
        Some((SequenceView { no_auto_ik: true, ..q }, s))
    } else if low == "autoik"@ {
        Some((SequenceView { no_auto_ik: false, ..q }, s))
    } else if let Some(bit) = sequence_flag(low) {
        Some((SequenceView { extra_flags: Some(flag_or(q.extra_flags, bit)), ..q }, s))
    } else if low == "fadein"@ {
        let (v, s) = num(s);
        Some((SequenceView { fade_in: v, ..q }, s))
    } else if low == "fadeout"@ {
        let (v, s) = num(s);
        Some((SequenceView { fade_out: v, ..q }, s))
    } else if low == "activity"@ {
        let (a, s) = word(s);
        let (w, s) = if more(s) {
            int_on(s)
        } else {
            (0i32, s)
        };
        Some((SequenceView { activity: Some(a), activity_weight: w, ..q }, s))
    } else if low == "blendwidth"@ {
        let (v, s) = int_on(s);
        Some((SequenceView { blend_width: Some(v), ..q }, s))
    } else if low == "addlayer"@ {
        let (l, s) = word(s);
        Some((SequenceView { auto_layers: q.auto_layers.push(l), ..q }, s))
    } else if low == "event"@ {
        let (e, s) = event(s);
        Some((SequenceView { events: q.events.push(e), ..q }, s))
    } else if low == "ikrule"@ {
        let (r, s) = ikrule(s);
        Some((SequenceView { ik_rules: q.ik_rules.push(r), ..q }, s))
    } else if low == "iklock"@ {
        let (l, s) = iklock(s);
        Some((SequenceView { iklocks: q.iklocks.push(l), ..q }, s))
    } else if low == "weightlist"@ {
        let (n, s) = word(s);
        Some((SequenceView { weight_list: Some(n), ..q }, s))
    } else if low == "sectionframes"@ {
        let (v, s) = int_on(s);
        let q = SequenceView { section_frames: Some(v), ..q };
        if more(s) {
            let (w, s) = int_on(s);
            Some((SequenceView { section_threshold: Some(w), ..q }, s))
        } else {
            Some((q, s))
        }
    } else if low == "keyvalues"@ {
        Some((q, keyvalues(s).1))
    } else if low == "frames"@ {
        Some((q, line_skipped(s)))
    } else {
        None
    }
}

/// Reads an option of a sequence that changes the sequence alone; the result tells whether the word
/// is one.
fn read_plain_option(lex: &mut Lexer, q: &mut Sequence, low: &str) -> (r: Result<bool, QcError>)
    requires
        old(lex).wf(),
    ensures
        final(lex).wf(),
        match (r, plain_option(old(q)@, low@, Ok(old(lex)@))) {
            (Ok(true), Some((v, s))) => final(q)@ == v && s == Ok::<LexState, ErrorView>(
                final(lex)@,
            ),
            (Ok(false), None) => final(q)@ == old(q)@ && final(lex)@ == old(lex)@,
            (Err(e), Some((_, s))) => s == Err::<LexState, ErrorView>(e@),
            _ => false,
        },
        left(final(lex)@) <= left(old(lex)@),
{
    if same(low, "fps") {
        q.fps = match f(lex) {
            Ok(v) => Some(v),
            Err(e) => {
                return Err(e);
            },
        };
    } else if same(low, "loop") {
        q.looping = true;
    } else if same(low, "delta") || same(low, "predelta") {
        q.delta = true;
    } else if same(low, "noautoik") {
        q.no_auto_ik = true;
    } else if same(low, "autoik") {
        q.no_auto_ik = false;
    } else if let Some(bit) = sequence_flag_of(low) {
        let flags: i32 = match q.extra_flags {
            Some(f) => f,
            None => 0,
        };
        q.extra_flags = Some(flags | bit);
    } else if same(low, "fadein") {
        q.fade_in = match f(lex) {
            Ok(v) => v,
            Err(e) => {
                return Err(e);
            },
        };
    } else if same(low, "fadeout") {
        q.fade_out = match f(lex) {
            Ok(v) => v,
            Err(e) => {
                return Err(e);
            },
        };
    } else if same(low, "activity") {
        let a: String = match read_word(lex) {
            Ok(v) => v,
            Err(e) => {
                return Err(e);
            },
        };
        let mut w: i32 = 0;
        if lex.token_available() {
            w = match i(lex) {
                Ok(v) => v,
                Err(e) => {
                    return Err(e);
                },
            };
        }
        q.activity = Some(a);
        q.activity_weight = w;
    } else if same(low, "blendwidth") {
        q.blend_width = match i(lex) {
            Ok(v) => Some(v),
            Err(e) => {
                return Err(e);
            },
        };
    } else if same(low, "addlayer") {
        let l: String = match read_word(lex) {
            Ok(v) => v,
            Err(e) => {
                return Err(e);
            },
        };
        q.auto_layers.push(l);
    } else if same(low, "event") {
        let e: SequenceEvent = match option_event(lex) {
            Ok(v) => v,
            Err(e) => {
                return Err(e);
            },
        };
        q.events.push(e);
    } else if same(low, "ikrule") {
        let rule: IkRule = match option_ikrule(lex) {
            Ok(v) => v,
            Err(e) => {
                return Err(e);
            },
        };
        q.ik_rules.push(rule);
    } else if same(low, "iklock") {
        let l: IkAutoplayLock = match read_iklock(lex) {
            Ok(v) => v,
            Err(e) => {
                return Err(e);
            },
        };
        q.iklocks.push(l);
    } else if same(low, "weightlist") {
        q.weight_list = match read_word(lex) {
            Ok(v) => Some(v),
            Err(e) => {
                return Err(e);
            },
        };
    } else if same(low, "sectionframes") {
        q.section_frames = match i(lex) {
            Ok(v) => Some(v),
            Err(e) => {
                return Err(e);
            },
        };
        if lex.token_available() {
            q.section_threshold = match i(lex) {
                Ok(v) => Some(v),
                Err(e) => {
                    return Err(e);
                },
            };
        }
    } else if same(low, "keyvalues") {
        match option_keyvalues(lex) {
            Ok(_) => {},
            Err(e) => {
                return Err(e);
            },
        }
    } else if same(low, "frames") {
        skip_rest_of_line(lex);
    } else {
        return Ok(false);
    }
    Ok(true)
}

/// An animation that a sequence names: the first may be a file, all others are kept by name.
pub open spec fn with_animation(c: SequenceState, text: Seq<char>) -> SequenceState {
    if (ends(text, ".smd"@) || ends(text, ".SMD"@)) && c.names.len() == 0 && c.q.smd.len() == 0 {
        let smd = resolved(c.d, text);
        SequenceState {
            d: ScriptView { referenced_files: c.d.referenced_files.push(smd), ..c.d },
            q: SequenceView { smd, ..c.q },
            ..c
        }
    } else {
        SequenceState { names: c.names.push(text), ..c }
    }
}

/// One option of a sequence.
pub open spec fn sequence_option(c: SequenceState, t: TokenView, s: At) -> (SequenceState, At) {
    let low = lower(t.text);
    if low == "blend"@ {
        let (parameter, s) = word(s);
        let (start, s) = num(s);
        let (end, s) = num(s);
        (
            SequenceState {
                d: ScriptView {
                    desc: ModelDescView {
                        pose_parameters: widened(c.d.desc.pose_parameters, parameter, start, end),
                        ..c.d.desc
                    },
                    ..c.d
                },
                q: SequenceView {
                    blend_params: c.q.blend_params.push(BlendParamView { parameter, start, end }),
                    ..c.q
                },
                ..c
            },
            s,
        )
    } else if let Some((q, s)) = plain_option(c.q, low, s) {
        (SequenceState { q, ..c }, s)
    } else if low == "subtract"@ {
        (SequenceState { names: c.names.push(t.text), ..c }, s)
    } else if begins(low, "act_"@) {
        (
            SequenceState {
                q: SequenceView { activity: Some(t.text), activity_weight: 0, ..c.q },
                ..c
            },
            s,
        )
    } else {
        (with_animation(c, t.text), s)
    }
}

/// A sequence while it is read.
pub open spec fn sequence_state(d: Script, q: Sequence, names: Vec<String>) -> SequenceState {
    SequenceState { d: d@, q: q@, names: viewed(names@) }
}

/// Takes an animation that a sequence names.
fn take_animation(d: &mut Script, q: &mut Sequence, names: &mut Vec<String>, text: String)
    ensures
        sequence_state(*final(d), *final(q), *final(names)) == with_animation(
            sequence_state(*old(d), *old(q), *old(names)),
            text@,
        ),
{
    if (finishes(text.as_str(), ".smd") || finishes(text.as_str(), ".SMD")) && names.len() == 0
        && is_blank(q.smd.as_str()) {
        let smd: String = resolve_src(d, text.as_str());
        d.referenced_files.push(smd.clone());
        q.smd = smd;
    } else {
        names.push(text);
    }
}

/// Reads one option of a sequence.
fn read_sequence_option(
    lex: &mut Lexer,
    d: &mut Script,
    q: &mut Sequence,
    names: &mut Vec<String>,
    t: Token,
) -> (r: Result<(), QcError>)
    requires
        old(lex).wf(),
    ensures
        final(lex).wf(),
        obeyed(
            r,
            final(lex)@,
            sequence_state(*final(d), *final(q), *final(names)),
            sequence_option(sequence_state(*old(d), *old(q), *old(names)), t@, Ok(old(lex)@)),
        ),
        left(final(lex)@) <= left(old(lex)@),
{
    let low: String = lowered(t.text.as_str());
    if same(low.as_str(), "blend") {
        let parameter: String = match read_word(lex) {
            Ok(v) => v,
            Err(e) => {
                return Err(e);
            },
        };
        let start: u32 = match f(lex) {
            Ok(v) => v,
            Err(e) => {
                return Err(e);
            },
        };
        let end: u32 = match f(lex) {
            Ok(v) => v,
            Err(e) => {
                return Err(e);
            },
        };
        widen(&mut d.desc.pose_parameters, parameter.as_str(), start, end);
        q.blend_params.push(BlendParam { parameter, start, end });
        return Ok(());
    }
    let plain: bool = match read_plain_option(lex, q, low.as_str()) {
        Ok(v) => v,
        Err(e) => {
            return Err(e);
        },
    };
    if plain {
        return Ok(());
    }
    if same(low.as_str(), "subtract") {
        names.push(t.text);
    } else if starts(low.as_str(), "act_") {
        q.activity = Some(t.text);
        q.activity_weight = 0;
    } else {
        take_animation(d, q, names, t.text);
    }
    Ok(())
}

/// The options of a sequence, on its line and in its block.
pub open spec fn sequence_options(c: SequenceState, depth: int, s: At) -> (SequenceState, At)
    decreases left_at(s),
{
    let (t, n) = block_token(s, depth);
    match t {
        None => (c, n),
        Some(t) => {
            let inner = if t.text == "{"@ {
                deeper(depth)
            } else if t.text == "}"@ {
                shallower(depth)
            } else {
                depth
            };
            let (c, n) = if t.text == "{"@ || t.text == "}"@ {
                (c, n)
            } else {
                sequence_option(c, t, n)
            };
            if t.text == "}"@ && inner <= 0 {
                (c, n)
            } else if went_on(n, s) {
                sequence_options(c, inner, n)
            } else {
                (c, n)
            }
        },
    }
}

/// A sequence with the animations that it names; `None` where there is none at all.
pub open spec fn sequence_filled(q: SequenceView, names: Seq<Seq<char>>) -> Option<SequenceView> {
    if names.len() == 0 {
        if q.smd.len() == 0 {
            None
        } else {
            Some(q)
        }
    } else if names.len() == 1 && q.smd.len() == 0 && q.blend_params.len() == 0 {
        Some(SequenceView { smd: names[0], ..q })
    } else if q.smd.len() == 0 {
        Some(SequenceView { smd: names[0], blends: names, ..q })
    } else {
        Some(SequenceView { blends: names, ..q })
    }
}

/// A sequence. Its name must be new, and it must have an animation.
pub open spec fn sequence(d: ScriptView, s: At) -> (ScriptView, At) {
    let (t, s) = token(s, false);
    let name = t.text;
    if d.sequence_names.contains(lower(name)) {
        (d, fail_at(s, t, around("重复的序列名 "@, name, "（官方是 Duplicate sequence name）"@)))
    } else {
        let start = SequenceState {
            d: ScriptView { sequence_names: d.sequence_names.push(lower(name)), ..d },
            q: bare_sequence(name, FIFTH, false),
            names: Seq::empty(),
        };
        let (c, s) = sequence_options(start, 0, s);
        match sequence_filled(c.q, c.names) {
            None => (
                c.d,
                fail_at(
                    s,
                    t,
                    around("序列 "@, name, " 没有找到任何动画（官方是 no animations found）"@),
                ),
            ),
            Some(q) => (with_sequence(c.d, q), s),
        }
    }
}

/// Reads the options of a sequence.
fn read_sequence_options(
    lex: &mut Lexer,
    d: &mut Script,
    q: &mut Sequence,
    names: &mut Vec<String>,
) -> (r: Result<(), QcError>)
    requires
        old(lex).wf(),
    ensures
        final(lex).wf(),
        obeyed(
            r,
            final(lex)@,
            sequence_state(*final(d), *final(q), *final(names)),
            sequence_options(sequence_state(*old(d), *old(q), *old(names)), 0, Ok(old(lex)@)),
        ),
        left(final(lex)@) <= left(old(lex)@),
{
    let mut depth: i32 = 0;
    loop
        invariant
            lex.wf(),
            left(lex@) <= left(old(lex)@),
            sequence_options(sequence_state(*d, *q, *names), depth as int, Ok(lex@))
                == sequence_options(
                sequence_state(*old(d), *old(q), *old(names)),
                0,
                Ok(old(lex)@),
            ),
        decreases left(lex@),
    {
        let next: Option<Token> = match read_in_block(lex, depth) {
            Ok(v) => v,
            Err(e) => {
                return Err(e);
            },
        };
        let t: Token = match next {
            Some(t) => t,
            None => {
                return Ok(());
            },
        };
        proof {
            reveal_strlit("{");
            reveal_strlit("}");
            assert("{"@[0] != "}"@[0]);
        }
        if same(t.text.as_str(), "{") {
            depth = into(depth);
        } else if same(t.text.as_str(), "}") {
            depth = out_of(depth);
            if depth <= 0 {
                return Ok(());
            }
        } else {
            match read_sequence_option(lex, d, q, names, t) {
                Ok(_) => {},
                Err(e) => {
                    return Err(e);
                },
            }
        }
    }
}

/// Fills a sequence with the animations that it names.
fn fill_sequence(q: Sequence, names: Vec<String>) -> (r: Option<Sequence>)
    ensures
        viewed_if(r) == sequence_filled(q@, viewed(names@)),
{
    let mut q: Sequence = q;
    let none: bool = is_blank(q.smd.as_str());
    if names.len() == 0 {
        if none {
            return None;
        }
        return Some(q);
    }
    assert(viewed(names@)[0] == names@[0]@);
    if none {
        q.smd = names[0].clone();
    }
    if names.len() > 1 || !none || q.blend_params.len() > 0 {
        q.blends = names;
    }
    Some(q)
}

/// Tells whether a name is among others.
pub fn is_among(names: &Vec<String>, name: &str) -> (r: bool)
    ensures
        r == viewed(names@).contains(name@),
{
    let mut k: usize = 0;
    while k < names.len()
        invariant
            k <= names@.len(),
            forall|j: int| 0 <= j < k ==> #[trigger] viewed(names@)[j] != name@,
        decreases names@.len() - k,
    {
        assert(viewed(names@)[k as int] == names@[k as int]@);
        if same(names[k].as_str(), name) {
            return true;
        }
        k = k + 1;
    }
    false
}

/// Adds a sequence.
pub fn cmd_sequence(lex: &mut Lexer, d: &mut Script) -> (r: Result<(), QcError>)
    requires
        old(lex).wf(),
    ensures
        final(lex).wf(),
        obeyed(r, final(lex)@, final(d)@, sequence(old(d)@, Ok(old(lex)@))),
        left(final(lex)@) <= left(old(lex)@),
{
    let t: Token = match tok(lex, false) {
        Ok(v) => v,
        Err(e) => {
            return Err(e);
        },
    };
    let low: String = lowered(t.text.as_str());
    if is_among(&d.sequence_names, low.as_str()) {
        return Err(
            error_for(
                &t,
                put_around("重复的序列名 ", t.text.as_str(), "（官方是 Duplicate sequence name）"),
            ),
        );
    }
    d.sequence_names.push(low);
    let mut q: Sequence = new_sequence(t.text.clone(), FIFTH, false);
    let mut names: Vec<String> = Vec::new();
    match read_sequence_options(lex, d, &mut q, &mut names) {
        Ok(_) => {},
        Err(e) => {
            return Err(e);
        },
    }
    match fill_sequence(q, names) {
        None => Err(
            error_for(
                &t,
                put_around(
                    "序列 ",
                    t.text.as_str(),
                    " 没有找到任何动画（官方是 no animations found）",
                ),
            ),
        ),
        Some(q) => {
            d.desc.sequences.push(q);
            Ok(())
        },
    }
}

/// One option of an animation.
pub open spec fn animation_option(a: AnimationView, t: TokenView, s: At) -> (AnimationView, At) {
    let low = lower(t.text);
    if low == "fps"@ {
        let (v, s) = num(s);
        (AnimationView { fps: Some(v), ..a }, s)
    } else if low == "origin"@ || low == "angles"@ {
        (a, vector(s).1)
    } else if low == "rotate"@ || low == "scale"@ {
        (a, num(s).1)
    } else if low == "frame"@ || low == "frames"@ {
        let (first, s) = int_on(s);
        let (last, s) = int_on(s);
        (AnimationView { frames: Some(FrameRange { first, last }), ..a }, s)
    } else if low == "subtract"@ {
        let (n, s) = word(s);
        let a = AnimationView { subtract: Some(n), ..a };
        if more(s) {
            let (u, s) = token(s, false);
            match bare_number(u.text) {
                Some(v) => (AnimationView { subtract_frame: Some(v), ..a }, s),
                None => (a, given_back(s, u)),
            }
        } else {
            (a, s)
        }
    } else if low == "noautoik"@ {
        (AnimationView { no_auto_ik: true, ..a }, s)
    } else if low == "autoik"@ {
        (AnimationView { no_auto_ik: false, ..a }, s)
    } else if low == "weightlist"@ {
        let (n, s) = word(s);
        (AnimationView { weight_list: Some(n), ..a }, s)
    } else if low == "ikrule"@ {
        let (r, s) = ikrule(s);
        (AnimationView { ik_rules: a.ik_rules.push(r), ..a }, s)
    } else if begins(low, "loop"@) {
        (AnimationView { looping: true, ..a }, s)
    } else if begins(low, "snap"@) {
        (a, s)
    } else if begins(low, "startloop"@) {
        (AnimationView { looping: true, ..a }, int_on(s).1)
    } else if low == "fudgeloop"@ {
        (AnimationView { looping: true, ..a }, s)
    } else if low == "post"@ || low == "realtime"@ || bare_number(t.text) is Some {
        (a, s)
    } else {
        (a, fail_at(s, t, around("未知的动画选项 "@, low, ""@)))
    }
}

/// Reads one option of an animation.
fn parse_animation_token(lex: &mut Lexer, d: &mut Animation, t: &Token) -> (r: Result<
    (),
    QcError,
>)
    requires
        old(lex).wf(),
    ensures
        final(lex).wf(),
        obeyed(r, final(lex)@, final(d)@, animation_option(old(d)@, t@, Ok(old(lex)@))),
        left(final(lex)@) <= left(old(lex)@),
{
    let low: String = lowered(t.text.as_str());
    if same(low.as_str(), "fps") {
        d.fps = match f(lex) {
            Ok(v) => Some(v),
            Err(e) => {
                return Err(e);
            },
        };
    } else if same(low.as_str(), "origin") || same(low.as_str(), "angles") {
        match v3(lex) {
            Ok(_) => {},
            Err(e) => {
                return Err(e);
            },
        }
    } else if same(low.as_str(), "rotate") || same(low.as_str(), "scale") {
        match f(lex) {
            Ok(_) => {},
            Err(e) => {
                return Err(e);
            },
        }
    } else if same(low.as_str(), "frame") || same(low.as_str(), "frames") {
        let first: i32 = match i(lex) {
            Ok(v) => v,
            Err(e) => {
                return Err(e);
            },
        };
        let last: i32 = match i(lex) {
            Ok(v) => v,
            Err(e) => {
                return Err(e);
            },
        };
        d.frames = Some(FrameRange { first, last });
    } else if same(low.as_str(), "subtract") {
        d.subtract = match read_word(lex) {
            Ok(v) => Some(v),
            Err(e) => {
                return Err(e);
            },
        };
        if lex.token_available() {
            let ghost before = lex@;
            let u: Token = match tok(lex, false) {
                Ok(v) => v,
                Err(e) => {
                    return Err(e);
                },
            };
            match parse_bare(u.text.as_str()) {
                Some(v) => {
                    d.subtract_frame = Some(v);
                },
                None => {
                    proof {
                        super::lexer::next_leaves_less(before, false);
                    }
                    lex.unget(u);
                },
            }
        }
    } else if same(low.as_str(), "noautoik") {
        d.no_auto_ik = true;
    } else if same(low.as_str(), "autoik") {
        d.no_auto_ik = false;
    } else if same(low.as_str(), "weightlist") {
        d.weight_list = match read_word(lex) {
            Ok(v) => Some(v),
            Err(e) => {
                return Err(e);
            },
        };
    } else if same(low.as_str(), "ikrule") {
        let rule: IkRule = match option_ikrule(lex) {
            Ok(v) => v,
            Err(e) => {
                return Err(e);
            },
        };
        d.ik_rules.push(rule);
    } else if starts(low.as_str(), "loop") {
        d.looping = true;
    } else if starts(low.as_str(), "snap") {
    } else if starts(low.as_str(), "startloop") {
        d.looping = true;
        match i(lex) {
            Ok(_) => {},
            Err(e) => {
                return Err(e);
            },
        }
    } else if same(low.as_str(), "fudgeloop") {
        d.looping = true;
    } else if same(low.as_str(), "post") || same(low.as_str(), "realtime") || parse_bare(
        t.text.as_str(),
    ).is_some() {
    } else {
        return Err(error_for(t, put_around("未知的动画选项 ", low.as_str(), "")));
    }
    Ok(())
}

/// The options of an animation, on its line and in its block.
pub open spec fn animation_options(a: AnimationView, depth: int, s: At) -> (AnimationView, At)
    decreases left_at(s),
{
    let (t, n) = block_token(s, depth);
    match t {
        None => (a, n),
        Some(t) => {
            let inner = if t.text == "{"@ {
                deeper(depth)
            } else if t.text == "}"@ {
                shallower(depth)
            } else {
                depth
            };
            let (a, n) = if t.text == "{"@ || t.text == "}"@ {
                (a, n)
            } else {
                animation_option(a, t, n)
            };
            if t.text == "}"@ && inner <= 0 {
                (a, n)
            } else if went_on(n, s) {
                animation_options(a, inner, n)
            } else {
                (a, n)
            }
        },
    }
}

/// An animation. Its name must be new.
pub open spec fn animation(d: ScriptView, s: At) -> (ScriptView, At) {
    let (t, s) = token(s, false);
    let name = t.text;
    if d.animation_names.contains(lower(name)) {
        (d, fail_at(s, t, around("重复的动画名 "@, name, "（官方是 Duplicate animation name）"@)))
    } else {
        let (file, s) = word(s);
        let smd = resolved(d, file);
        let (a, s) = animation_options(
            AnimationView {
                name,
                smd,
                fps: None,
                looping: false,
                frames: None,
                subtract: None,
                subtract_frame: None,
                ik_rules: Seq::empty(),
                no_auto_ik: false,
                weight_list: None,
            },
            0,
            s,
        );
        (
            ScriptView {
                desc: ModelDescView { animations: d.desc.animations.push(a), ..d.desc },
                animation_names: d.animation_names.push(lower(name)),
                referenced_files: d.referenced_files.push(smd),
                ..d
            },
            s,
        )
    }
}

/// Reads the options of an animation.
fn read_animation_options(lex: &mut Lexer, d: &mut Animation) -> (r: Result<(), QcError>)
    requires
        old(lex).wf(),
    ensures
        final(lex).wf(),
        obeyed(r, final(lex)@, final(d)@, animation_options(old(d)@, 0, Ok(old(lex)@))),
        left(final(lex)@) <= left(old(lex)@),
{
    let mut depth: i32 = 0;
    loop
        invariant
            lex.wf(),
            left(lex@) <= left(old(lex)@),
            animation_options(d@, depth as int, Ok(lex@)) == animation_options(
                old(d)@,
                0,
                Ok(old(lex)@),
            ),
        decreases left(lex@),
    {
        let next: Option<Token> = match read_in_block(lex, depth) {
            Ok(v) => v,
            Err(e) => {
                return Err(e);
            },
        };
        let t: Token = match next {
            Some(t) => t,
            None => {
                return Ok(());
            },
        };
        proof {
            reveal_strlit("{");
            reveal_strlit("}");
            assert("{"@[0] != "}"@[0]);
        }
        if same(t.text.as_str(), "{") {
            depth = into(depth);
        } else if same(t.text.as_str(), "}") {
            depth = out_of(depth);
            if depth <= 0 {
                return Ok(());
            }
        } else {
            match parse_animation_token(lex, d, &t) {
                Ok(_) => {},
                Err(e) => {
                    return Err(e);
                },
            }
        }
    }
}

/// Adds an animation.
pub fn cmd_animation(lex: &mut Lexer, d: &mut Script) -> (r: Result<(), QcError>)
    requires
        old(lex).wf(),
    ensures
        final(lex).wf(),
        obeyed(r, final(lex)@, final(d)@, animation(old(d)@, Ok(old(lex)@))),
        left(final(lex)@) <= left(old(lex)@),
{
    let t: Token = match tok(lex, false) {
        Ok(v) => v,
        Err(e) => {
            return Err(e);
        },
    };
    let low: String = lowered(t.text.as_str());
    if is_among(&d.animation_names, low.as_str()) {
        return Err(
            error_for(
                &t,
                put_around("重复的动画名 ", t.text.as_str(), "（官方是 Duplicate animation name）"),
            ),
        );
    }
    let file: String = match read_word(lex) {
        Ok(v) => v,
        Err(e) => {
            return Err(e);
        },
    };
    let smd: String = resolve_src(d, file.as_str());
    d.animation_names.push(low);
    d.referenced_files.push(smd.clone());
    let mut a: Animation = Animation {
        name: t.text,
        smd,
        fps: None,
        looping: false,
        frames: None,
        subtract: None,
        subtract_frame: None,
        ik_rules: Vec::new(),
        no_auto_ik: false,
        weight_list: None,
    };
    match read_animation_options(lex, &mut a) {
        Ok(_) => {},
        Err(e) => {
            return Err(e);
        },
    }
    d.desc.animations.push(a);
    Ok(())
}

} // verus!
