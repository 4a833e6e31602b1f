//! Models: what a script describes.
use vstd::prelude::*;

use super::flexrule::{FlexRule, RuleView};
use crate::seqs::{viewed, viewed_if};

verus! {

/// A place, a direction or three angles, each number by its bits.
#[derive(Debug, Clone, Copy, PartialEq, Eq, Structural)]
pub struct Vector {
    /// The first.
    pub x: u32,
    /// The second.
    pub y: u32,
    /// The third.
    pub z: u32,
}

/// Where a parameter starts over.
#[derive(Debug, Clone, Copy, PartialEq, Eq, Structural)]
pub enum PoseLoop {
    /// At its ends.
    Wrap,
    /// After so much.
    Explicit(u32),
}

/// How a limb keeps its place.
#[derive(Debug, Clone, Copy, PartialEq, Eq, Structural)]
pub enum IkRuleType {
    /// It touches a bone.
    Touch,
    /// It stands on the ground.
    Footstep,
    /// It holds on to an attachment.
    Attachment,
    /// It lets go.
    Release,
    /// It lets go for good.
    Unlatch,
}

/// Four frames, any of which may be left open.
#[derive(Debug, Clone, Copy, PartialEq, Eq, Structural)]
pub struct IkRange {
    /// The first.
    pub start: Option<i32>,
    /// The second.
    pub peak: Option<i32>,
    /// The third.
    pub tail: Option<i32>,
    /// The fourth.
    pub end: Option<i32>,
}

/// Two numbers that belong together.
#[derive(Debug, Clone, Copy, PartialEq, Eq, Structural)]
pub struct FrameRange {
    /// The first.
    pub first: i32,
    /// The second.
    pub last: i32,
}

/// Two angles, in radians.
#[derive(Debug, Clone, Copy, PartialEq, Eq, Structural)]
pub struct Angles {
    /// The lower.
    pub min: u32,
    /// The upper.
    pub max: u32,
}

/// How a bone that wobbles bends. Angles are in radians.
#[derive(Debug, Clone, Copy, PartialEq, Eq, Structural)]
pub struct JiggleFlexible {
    /// The length.
    pub length: Option<u32>,
    /// The mass at the tip.
    pub tip_mass: Option<u32>,
    /// How stiff it is sideways.
    pub yaw_stiffness: Option<u32>,
    /// How damped it is sideways.
    pub yaw_damping: Option<u32>,
    /// How stiff it is up and down.
    pub pitch_stiffness: Option<u32>,
    /// How damped it is up and down.
    pub pitch_damping: Option<u32>,
    /// How stiff it is lengthwise.
    pub along_stiffness: Option<u32>,
    /// How damped it is lengthwise.
    pub along_damping: Option<u32>,
    /// How far it bends.
    pub angle_constraint: Option<u32>,
    /// How far it bends sideways.
    pub yaw_constraint: Option<Angles>,
    /// The friction sideways.
    pub yaw_friction: Option<u32>,
    /// The bounce sideways.
    pub yaw_bounce: Option<u32>,
    /// How far it bends up and down.
    pub pitch_constraint: Option<Angles>,
    /// The friction up and down.
    pub pitch_friction: Option<u32>,
    /// The bounce up and down.
    pub pitch_bounce: Option<u32>,
    /// Whether its length changes.
    pub allow_length_flex: bool,
}

/// How a bone that wobbles swings. Angles are in radians.
#[derive(Debug, Clone, Copy, PartialEq, Eq, Structural)]
pub struct JiggleRigid {
    /// The length.
    pub length: Option<u32>,
    /// The mass at the tip.
    pub tip_mass: Option<u32>,
    /// How far it swings.
    pub angle_constraint: Option<u32>,
}

/// How the base of a bone that wobbles springs. Angles are in radians.
#[derive(Debug, Clone, Copy, PartialEq, Eq, Structural)]
pub struct JiggleBaseSpring {
    /// The mass.
    pub base_mass: Option<u32>,
    /// How stiff it is.
    pub base_stiffness: Option<u32>,
    /// How damped it is.
    pub base_damping: Option<u32>,
    /// How far it goes to the left.
    pub base_left: Option<Angles>,
    /// The friction to the left.
    pub base_left_friction: Option<u32>,
    /// How far it goes up.
    pub base_up: Option<Angles>,
    /// The friction up.
    pub base_up_friction: Option<u32>,
    /// How far it goes forward.
    pub base_forward: Option<Angles>,
    /// The friction forward.
    pub base_forward_friction: Option<u32>,
}

/// A pose that a bone takes when another comes near one.
#[derive(Debug, Clone, Copy, PartialEq, Eq, Structural)]
pub struct QuatInterpTrigger {
    /// How near.
    pub tolerance: u32,
    /// The pose that the other comes near.
    pub trigger: Vector,
    /// The angles that the bone takes.
    pub angles: Vector,
    /// The place that the bone takes.
    pub pos: Option<Vector>,
}

/// How friction changes while an animation drives a body.
#[derive(Debug, Clone, Copy, PartialEq, Eq, Structural)]
pub struct AnimatedFrictionSpec {
    /// The least friction.
    pub min: i32,
    /// The greatest friction.
    pub max: i32,
    /// The time in which friction sets in.
    pub time_in: u32,
    /// The time in which friction wears off.
    pub time_out: u32,
    /// The time for which friction holds.
    pub time_hold: u32,
}

/// Rows of names.
pub open spec fn rows(s: Seq<Vec<String>>) -> Seq<Seq<Seq<char>>> {
    Seq::new(s.len(), |i: int| viewed(s[i]@))
}

/// The families of a group of materials.
#[derive(Debug, Clone)]
pub struct Families {
    /// The materials of each family.
    pub families: Vec<Vec<String>>,
}

impl View for Families {
    type V = Seq<Seq<Seq<char>>>;

    open spec fn view(&self) -> Seq<Seq<Seq<char>>> {
        rows(self.families@)
    }
}

/// Two names.
#[derive(Debug, Clone)]
pub struct Pair {
    /// The first.
    pub a: String,
    /// The second.
    pub b: String,
}

/// Two names. As a mathematical value.
#[verifier::ext_equal]
pub struct PairView {
    /// The first.
    pub a: Seq<char>,
    /// The second.
    pub b: Seq<char>,
}

impl View for Pair {
    type V = PairView;

    open spec fn view(&self) -> PairView {
        PairView {
            a: self.a@,
            b: self.b@,
        }
    }
}

/// A parameter that blends poses.
#[derive(Debug, Clone)]
pub struct PoseParameter {
    /// The name.
    pub name: String,
    /// The lower end.
    pub start: u32,
    /// The upper end.
    pub end: u32,
    /// Where it starts over.
    pub loop_mode: Option<PoseLoop>,
}

/// A parameter that blends poses. As a mathematical value.
#[verifier::ext_equal]
pub struct PoseParameterView {
    /// The name.
    pub name: Seq<char>,
    /// The lower end.
    pub start: u32,
    /// The upper end.
    pub end: u32,
    /// Where it starts over.
    pub loop_mode: Option<PoseLoop>,
}

impl View for PoseParameter {
    type V = PoseParameterView;

    open spec fn view(&self) -> PoseParameterView {
        PoseParameterView {
            name: self.name@,
            start: self.start,
            end: self.end,
            loop_mode: self.loop_mode,
        }
    }
}

/// A mesh for a distance.
#[derive(Debug, Clone)]
pub struct LodModel {
    /// The mesh.
    pub smd: Option<String>,
    /// The distance.
    pub switch_point: Option<u32>,
    /// Bones whose children are folded into them.
    pub bone_tree_collapse: Vec<String>,
    /// Bones that take the place of others.
    pub replace_bone: Vec<Pair>,
    /// Whether faces do not move.
    pub no_facial: bool,
}

/// A mesh for a distance. As a mathematical value.
#[verifier::ext_equal]
pub struct LodModelView {
    /// The mesh.
    pub smd: Option<Seq<char>>,
    /// The distance.
    pub switch_point: Option<u32>,
    /// Bones whose children are folded into them.
    pub bone_tree_collapse: Seq<Seq<char>>,
    /// Bones that take the place of others.
    pub replace_bone: Seq<PairView>,
    /// Whether faces do not move.
    pub no_facial: bool,
}

impl View for LodModel {
    type V = LodModelView;

    open spec fn view(&self) -> LodModelView {
        LodModelView {
            smd: viewed_if(self.smd),
            switch_point: self.switch_point,
            bone_tree_collapse: viewed(self.bone_tree_collapse@),
            replace_bone: viewed(self.replace_bone@),
            no_facial: self.no_facial,
        }
    }
}

/// A shape of a face.
#[derive(Debug, Clone)]
pub struct Flex {
    /// The animation that holds it.
    pub vta: String,
    /// The name.
    pub name: String,
    /// The frame, counted from the first.
    pub frame: i32,
    /// Whether it is split into a left and a right half.
    pub pair: bool,
    /// The width of the seam.
    pub split: u32,
    /// Where it is strongest.
    pub position: u32,
    /// How it wears off.
    pub decay: u32,
}

/// A shape of a face. As a mathematical value.
#[verifier::ext_equal]
pub struct FlexView {
    /// The animation that holds it.
    pub vta: Seq<char>,
    /// The name.
    pub name: Seq<char>,
    /// The frame, counted from the first.
    pub frame: i32,
    /// Whether it is split into a left and a right half.
    pub pair: bool,
    /// The width of the seam.
    pub split: u32,
    /// Where it is strongest.
    pub position: u32,
    /// How it wears off.
    pub decay: u32,
}

impl View for Flex {
    type V = FlexView;

    open spec fn view(&self) -> FlexView {
        FlexView {
            vta: self.vta@,
            name: self.name@,
            frame: self.frame,
            pair: self.pair,
            split: self.split,
            position: self.position,
            decay: self.decay,
        }
    }
}

/// A position of an eyelid.
#[derive(Debug, Clone)]
pub struct LidEntry {
    /// The flex.
    pub flexdesc: String,
    /// How far it goes.
    pub target: u32,
}

/// A position of an eyelid. As a mathematical value.
#[verifier::ext_equal]
pub struct LidEntryView {
    /// The flex.
    pub flexdesc: Seq<char>,
    /// How far it goes.
    pub target: u32,
}

impl View for LidEntry {
    type V = LidEntryView;

    open spec fn view(&self) -> LidEntryView {
        LidEntryView {
            flexdesc: self.flexdesc@,
            target: self.target,
        }
    }
}

/// An eyelid.
#[derive(Debug, Clone)]
pub struct EyeballLid {
    /// The flex of the lid.
    pub lid_flexdesc: String,
    /// Lowered.
    pub lowerer: LidEntry,
    /// At rest.
    pub neutral: LidEntry,
    /// Raised.
    pub raiser: LidEntry,
}

/// An eyelid. As a mathematical value.
#[verifier::ext_equal]
pub struct EyeballLidView {
    /// The flex of the lid.
    pub lid_flexdesc: Seq<char>,
    /// Lowered.
    pub lowerer: LidEntryView,
    /// At rest.
    pub neutral: LidEntryView,
    /// Raised.
    pub raiser: LidEntryView,
}

impl View for EyeballLid {
    type V = EyeballLidView;

    open spec fn view(&self) -> EyeballLidView {
        EyeballLidView {
            lid_flexdesc: self.lid_flexdesc@,
            lowerer: self.lowerer@,
            neutral: self.neutral@,
            raiser: self.raiser@,
        }
    }
}

/// An eyeball.
#[derive(Debug, Clone)]
pub struct Eyeball {
    /// The name.
    pub name: Option<String>,
    /// The bone.
    pub bone: String,
    /// The middle.
    pub org: Vector,
    /// The material.
    pub material: String,
    /// The radius.
    pub radius: u32,
    /// The angle by which it looks aside, in degrees.
    pub zangle: u32,
    /// By how much the iris is scaled: one over the size of the pupil.
    pub iris_scale: u32,
    /// The upper lid.
    pub upper_lid: Option<EyeballLid>,
    /// The lower lid.
    pub lower_lid: Option<EyeballLid>,
}

/// An eyeball. As a mathematical value.
#[verifier::ext_equal]
pub struct EyeballView {
    /// The name.
    pub name: Option<Seq<char>>,
    /// The bone.
    pub bone: Seq<char>,
    /// The middle.
    pub org: Vector,
    /// The material.
    pub material: Seq<char>,
    /// The radius.
    pub radius: u32,
    /// The angle by which it looks aside, in degrees.
    pub zangle: u32,
    /// By how much the iris is scaled: one over the size of the pupil.
    pub iris_scale: u32,
    /// The upper lid.
    pub upper_lid: Option<EyeballLidView>,
    /// The lower lid.
    pub lower_lid: Option<EyeballLidView>,
}

impl View for Eyeball {
    type V = EyeballView;

    open spec fn view(&self) -> EyeballView {
        EyeballView {
            name: viewed_if(self.name),
            bone: self.bone@,
            org: self.org,
            material: self.material@,
            radius: self.radius,
            zangle: self.zangle,
            iris_scale: self.iris_scale,
            upper_lid: viewed_if(self.upper_lid),
            lower_lid: viewed_if(self.lower_lid),
        }
    }
}

/// A mesh of a body part.
#[derive(Debug, Clone)]
pub struct BodyModel {
    /// The mesh.
    pub smd: String,
    /// The name.
    pub name: Option<String>,
    /// The meshes for distances.
    pub lods: Vec<LodModel>,
    /// The eyeballs.
    pub eyeballs: Vec<Eyeball>,
    /// The shapes of the face.
    pub flexes: Vec<Flex>,
}

/// A mesh of a body part. As a mathematical value.
#[verifier::ext_equal]
pub struct BodyModelView {
    /// The mesh.
    pub smd: Seq<char>,
    /// The name.
    pub name: Option<Seq<char>>,
    /// The meshes for distances.
    pub lods: Seq<LodModelView>,
    /// The eyeballs.
    pub eyeballs: Seq<EyeballView>,
    /// The shapes of the face.
    pub flexes: Seq<FlexView>,
}

impl View for BodyModel {
    type V = BodyModelView;

    open spec fn view(&self) -> BodyModelView {
        BodyModelView {
            smd: self.smd@,
            name: viewed_if(self.name),
            lods: viewed(self.lods@),
            eyeballs: viewed(self.eyeballs@),
            flexes: viewed(self.flexes@),
        }
    }
}

/// A part of the body, with a choice of meshes.
#[derive(Debug, Clone)]
pub struct BodyPart {
    /// The name.
    pub name: String,
    /// What a step of the choice counts for.
    pub base: i32,
    /// The meshes.
    pub models: Vec<BodyModel>,
}

/// A part of the body, with a choice of meshes. As a mathematical value.
#[verifier::ext_equal]
pub struct BodyPartView {
    /// The name.
    pub name: Seq<char>,
    /// What a step of the choice counts for.
    pub base: i32,
    /// The meshes.
    pub models: Seq<BodyModelView>,
}

impl View for BodyPart {
    type V = BodyPartView;

    open spec fn view(&self) -> BodyPartView {
        BodyPartView {
            name: self.name@,
            base: self.base,
            models: viewed(self.models@),
        }
    }
}

/// A mouth.
#[derive(Debug, Clone)]
pub struct Mouth {
    /// The number.
    pub index: i32,
    /// The flex.
    pub flexdesc: String,
    /// The bone.
    pub bone: String,
    /// Where it points.
    pub forward: Vector,
}

/// A mouth. As a mathematical value.
#[verifier::ext_equal]
pub struct MouthView {
    /// The number.
    pub index: i32,
    /// The flex.
    pub flexdesc: Seq<char>,
    /// The bone.
    pub bone: Seq<char>,
    /// Where it points.
    pub forward: Vector,
}

impl View for Mouth {
    type V = MouthView;

    open spec fn view(&self) -> MouthView {
        MouthView {
            index: self.index,
            flexdesc: self.flexdesc@,
            bone: self.bone@,
            forward: self.forward,
        }
    }
}

/// A controller of flexes.
#[derive(Debug, Clone)]
pub struct FlexController {
    /// The name.
    pub name: String,
    /// What it moves.
    pub kind: String,
    /// The lower end.
    pub min: u32,
    /// The upper end.
    pub max: u32,
}

/// A controller of flexes. As a mathematical value.
#[verifier::ext_equal]
pub struct FlexControllerView {
    /// The name.
    pub name: Seq<char>,
    /// What it moves.
    pub kind: Seq<char>,
    /// The lower end.
    pub min: u32,
    /// The upper end.
    pub max: u32,
}

impl View for FlexController {
    type V = FlexControllerView;

    open spec fn view(&self) -> FlexControllerView {
        FlexControllerView {
            name: self.name@,
            kind: self.kind@,
            min: self.min,
            max: self.max,
        }
    }
}

/// Something that happens in a sequence.
#[derive(Debug, Clone)]
pub struct SequenceEvent {
    /// When it happens, as a part of the sequence. While a script is read: the frame.
    pub cycle: u32,
    /// Whether it has a name.
    pub event_type: i32,
    /// The number.
    pub event: i32,
    /// The name.
    pub name: String,
    /// What goes with it.
    pub options: String,
}

/// Something that happens in a sequence. As a mathematical value.
#[verifier::ext_equal]
pub struct SequenceEventView {
    /// When it happens, as a part of the sequence. While a script is read: the frame.
    pub cycle: u32,
    /// Whether it has a name.
    pub event_type: i32,
    /// The number.
    pub event: i32,
    /// The name.
    pub name: Seq<char>,
    /// What goes with it.
    pub options: Seq<char>,
}

impl View for SequenceEvent {
    type V = SequenceEventView;

    open spec fn view(&self) -> SequenceEventView {
        SequenceEventView {
            cycle: self.cycle,
            event_type: self.event_type,
            event: self.event,
            name: self.name@,
            options: self.options@,
        }
    }
}

/// How a limb keeps its place.
#[derive(Debug, Clone)]
pub struct IkRule {
    /// The chain of bones.
    pub chain: String,
    /// The kind.
    pub kind: IkRuleType,
    /// The bone that is touched.
    pub bone: Option<String>,
    /// The attachment.
    pub attachment: Option<String>,
    /// The number of the target.
    pub target: Option<i32>,
    /// The height.
    pub height: Option<u32>,
    /// The radius.
    pub radius: Option<u32>,
    /// The padding.
    pub pad: Option<u32>,
    /// The floor.
    pub floor: Option<u32>,
    /// The frames.
    pub range: Option<IkRange>,
    /// The frame of contact.
    pub contact: Option<i32>,
    /// A made-up place.
    pub fake_origin: Option<Vector>,
    /// A made-up rotation.
    pub fake_rotate: Option<Vector>,
    /// Whether the source decides.
    pub use_source: bool,
}

/// How a limb keeps its place. As a mathematical value.
#[verifier::ext_equal]
pub struct IkRuleView {
    /// The chain of bones.
    pub chain: Seq<char>,
    /// The kind.
    pub kind: IkRuleType,
    /// The bone that is touched.
    pub bone: Option<Seq<char>>,
    /// The attachment.
    pub attachment: Option<Seq<char>>,
    /// The number of the target.
    pub target: Option<i32>,
    /// The height.
    pub height: Option<u32>,
    /// The radius.
    pub radius: Option<u32>,
    /// The padding.
    pub pad: Option<u32>,
    /// The floor.
    pub floor: Option<u32>,
    /// The frames.
    pub range: Option<IkRange>,
    /// The frame of contact.
    pub contact: Option<i32>,
    /// A made-up place.
    pub fake_origin: Option<Vector>,
    /// A made-up rotation.
    pub fake_rotate: Option<Vector>,
    /// Whether the source decides.
    pub use_source: bool,
}

impl View for IkRule {
    type V = IkRuleView;

    open spec fn view(&self) -> IkRuleView {
        IkRuleView {
            chain: self.chain@,
            kind: self.kind,
            bone: viewed_if(self.bone),
            attachment: viewed_if(self.attachment),
            target: self.target,
            height: self.height,
            radius: self.radius,
            pad: self.pad,
            floor: self.floor,
            range: self.range,
            contact: self.contact,
            fake_origin: self.fake_origin,
            fake_rotate: self.fake_rotate,
            use_source: self.use_source,
        }
    }
}

/// A chain that stays where it is.
#[derive(Debug, Clone)]
pub struct IkAutoplayLock {
    /// The chain of bones.
    pub chain: String,
    /// How much its place counts.
    pub pos_weight: u32,
    /// How much its rotation counts.
    pub local_q_weight: u32,
}

/// A chain that stays where it is. As a mathematical value.
#[verifier::ext_equal]
pub struct IkAutoplayLockView {
    /// The chain of bones.
    pub chain: Seq<char>,
    /// How much its place counts.
    pub pos_weight: u32,
    /// How much its rotation counts.
    pub local_q_weight: u32,
}

impl View for IkAutoplayLock {
    type V = IkAutoplayLockView;

    open spec fn view(&self) -> IkAutoplayLockView {
        IkAutoplayLockView {
            chain: self.chain@,
            pos_weight: self.pos_weight,
            local_q_weight: self.local_q_weight,
        }
    }
}

/// A parameter that blends the animations of a sequence.
#[derive(Debug, Clone)]
pub struct BlendParam {
    /// The parameter.
    pub parameter: String,
    /// The lower end.
    pub start: u32,
    /// The upper end.
    pub end: u32,
}

/// A parameter that blends the animations of a sequence. As a mathematical value.
#[verifier::ext_equal]
pub struct BlendParamView {
    /// The parameter.
    pub parameter: Seq<char>,
    /// The lower end.
    pub start: u32,
    /// The upper end.
    pub end: u32,
}

impl View for BlendParam {
    type V = BlendParamView;

    open spec fn view(&self) -> BlendParamView {
        BlendParamView {
            parameter: self.parameter@,
            start: self.start,
            end: self.end,
        }
    }
}

/// A sequence.
#[derive(Debug, Clone)]
pub struct Sequence {
    /// The name.
    pub name: String,
    /// The animation, by file or by name.
    pub smd: String,
    /// Frames per second.
    pub fps: Option<u32>,
    /// Whether it starts over.
    pub looping: bool,
    /// Whether it adds to others.
    pub delta: bool,
    /// What it shows.
    pub activity: Option<String>,
    /// How likely it is chosen.
    pub activity_weight: i32,
    /// What happens in it.
    pub events: Vec<SequenceEvent>,
    /// How long it takes to set in.
    pub fade_in: u32,
    /// How long it takes to wear off.
    pub fade_out: u32,
    /// Whether only its name is given.
    pub forward_declared: bool,
    /// Whether limbs are left alone.
    pub no_auto_ik: bool,
    /// How limbs keep their places.
    pub ik_rules: Vec<IkRule>,
    /// The chains that stay where they are.
    pub iklocks: Vec<IkAutoplayLock>,
    /// The animations that are blended.
    pub blends: Vec<String>,
    /// How many of them make a row.
    pub blend_width: Option<i32>,
    /// The parameters that blend them.
    pub blend_params: Vec<BlendParam>,
    /// The sequences that are laid over it.
    pub auto_layers: Vec<String>,
    /// How many frames make a section.
    pub section_frames: Option<i32>,
    /// From how many frames on there are sections.
    pub section_threshold: Option<i32>,
    /// Marks.
    pub extra_flags: Option<i32>,
    /// How much each bone counts.
    pub weight_list: Option<String>,
}

/// A sequence. As a mathematical value.
#[verifier::ext_equal]
pub struct SequenceView {
    /// The name.
    pub name: Seq<char>,
    /// The animation, by file or by name.
    pub smd: Seq<char>,
    /// Frames per second.
    pub fps: Option<u32>,
    /// Whether it starts over.
    pub looping: bool,
    /// Whether it adds to others.
    pub delta: bool,
    /// What it shows.
    pub activity: Option<Seq<char>>,
    /// How likely it is chosen.
    pub activity_weight: i32,
    /// What happens in it.
    pub events: Seq<SequenceEventView>,
    /// How long it takes to set in.
    pub fade_in: u32,
    /// How long it takes to wear off.
    pub fade_out: u32,
    /// Whether only its name is given.
    pub forward_declared: bool,
    /// Whether limbs are left alone.
    pub no_auto_ik: bool,
    /// How limbs keep their places.
    pub ik_rules: Seq<IkRuleView>,
    /// The chains that stay where they are.
    pub iklocks: Seq<IkAutoplayLockView>,
    /// The animations that are blended.
    pub blends: Seq<Seq<char>>,
    /// How many of them make a row.
    pub blend_width: Option<i32>,
    /// The parameters that blend them.
    pub blend_params: Seq<BlendParamView>,
    /// The sequences that are laid over it.
    pub auto_layers: Seq<Seq<char>>,
    /// How many frames make a section.
    pub section_frames: Option<i32>,
    /// From how many frames on there are sections.
    pub section_threshold: Option<i32>,
    /// Marks.
    pub extra_flags: Option<i32>,
    /// How much each bone counts.
    pub weight_list: Option<Seq<char>>,
}

impl View for Sequence {
    type V = SequenceView;

    open spec fn view(&self) -> SequenceView {
        SequenceView {
            name: self.name@,
            smd: self.smd@,
            fps: self.fps,
            looping: self.looping,
            delta: self.delta,
            activity: viewed_if(self.activity),
            activity_weight: self.activity_weight,
            events: viewed(self.events@),
            fade_in: self.fade_in,
            fade_out: self.fade_out,
            forward_declared: self.forward_declared,
            no_auto_ik: self.no_auto_ik,
            ik_rules: viewed(self.ik_rules@),
            iklocks: viewed(self.iklocks@),
            blends: viewed(self.blends@),
            blend_width: self.blend_width,
            blend_params: viewed(self.blend_params@),
            auto_layers: viewed(self.auto_layers@),
            section_frames: self.section_frames,
            section_threshold: self.section_threshold,
            extra_flags: self.extra_flags,
            weight_list: viewed_if(self.weight_list),
        }
    }
}

/// An animation.
#[derive(Debug, Clone)]
pub struct Animation {
    /// The name.
    pub name: String,
    /// The file.
    pub smd: String,
    /// Frames per second.
    pub fps: Option<u32>,
    /// Whether it starts over.
    pub looping: bool,
    /// The frames that are taken.
    pub frames: Option<FrameRange>,
    /// The animation that is taken away.
    pub subtract: Option<String>,
    /// Its frame.
    pub subtract_frame: Option<i32>,
    /// How limbs keep their places.
    pub ik_rules: Vec<IkRule>,
    /// Whether limbs are left alone.
    pub no_auto_ik: bool,
    /// How much each bone counts.
    pub weight_list: Option<String>,
}

/// An animation. As a mathematical value.
#[verifier::ext_equal]
pub struct AnimationView {
    /// The name.
    pub name: Seq<char>,
    /// The file.
    pub smd: Seq<char>,
    /// Frames per second.
    pub fps: Option<u32>,
    /// Whether it starts over.
    pub looping: bool,
    /// The frames that are taken.
    pub frames: Option<FrameRange>,
    /// The animation that is taken away.
    pub subtract: Option<Seq<char>>,
    /// Its frame.
    pub subtract_frame: Option<i32>,
    /// How limbs keep their places.
    pub ik_rules: Seq<IkRuleView>,
    /// Whether limbs are left alone.
    pub no_auto_ik: bool,
    /// How much each bone counts.
    pub weight_list: Option<Seq<char>>,
}

impl View for Animation {
    type V = AnimationView;

    open spec fn view(&self) -> AnimationView {
        AnimationView {
            name: self.name@,
            smd: self.smd@,
            fps: self.fps,
            looping: self.looping,
            frames: self.frames,
            subtract: viewed_if(self.subtract),
            subtract_frame: self.subtract_frame,
            ik_rules: viewed(self.ik_rules@),
            no_auto_ik: self.no_auto_ik,
            weight_list: viewed_if(self.weight_list),
        }
    }
}

/// A bone.
#[derive(Debug, Clone)]
pub struct Bone {
    /// The name.
    pub name: String,
    /// The bone that it hangs from.
    pub parent: Option<String>,
    /// The position.
    pub position: Option<Vector>,
    /// The rotation.
    pub rotation: Option<Vector>,
    /// What it is made of.
    pub surface_prop: Option<String>,
    /// Whether it follows a bone of another model.
    pub bonemerge: bool,
    /// Whether it is aligned beforehand.
    pub pre_aligned: Option<bool>,
    /// The position before.
    pub realign_position: Option<Vector>,
    /// The rotation before.
    pub realign_rotation: Option<Vector>,
}

/// A bone. As a mathematical value.
#[verifier::ext_equal]
pub struct BoneView {
    /// The name.
    pub name: Seq<char>,
    /// The bone that it hangs from.
    pub parent: Option<Seq<char>>,
    /// The position.
    pub position: Option<Vector>,
    /// The rotation.
    pub rotation: Option<Vector>,
    /// What it is made of.
    pub surface_prop: Option<Seq<char>>,
    /// Whether it follows a bone of another model.
    pub bonemerge: bool,
    /// Whether it is aligned beforehand.
    pub pre_aligned: Option<bool>,
    /// The position before.
    pub realign_position: Option<Vector>,
    /// The rotation before.
    pub realign_rotation: Option<Vector>,
}

impl View for Bone {
    type V = BoneView;

    open spec fn view(&self) -> BoneView {
        BoneView {
            name: self.name@,
            parent: viewed_if(self.parent),
            position: self.position,
            rotation: self.rotation,
            surface_prop: viewed_if(self.surface_prop),
            bonemerge: self.bonemerge,
            pre_aligned: self.pre_aligned,
            realign_position: self.realign_position,
            realign_rotation: self.realign_rotation,
        }
    }
}

/// A place to hang things on.
#[derive(Debug, Clone)]
pub struct Attachment {
    /// The name.
    pub name: String,
    /// The bone.
    pub bone: String,
    /// The position.
    pub position: Vector,
    /// The rotation.
    pub rotation: Vector,
    /// Marks.
    pub flags: i32,
}

/// A place to hang things on. As a mathematical value.
#[verifier::ext_equal]
pub struct AttachmentView {
    /// The name.
    pub name: Seq<char>,
    /// The bone.
    pub bone: Seq<char>,
    /// The position.
    pub position: Vector,
    /// The rotation.
    pub rotation: Vector,
    /// Marks.
    pub flags: i32,
}

impl View for Attachment {
    type V = AttachmentView;

    open spec fn view(&self) -> AttachmentView {
        AttachmentView {
            name: self.name@,
            bone: self.bone@,
            position: self.position,
            rotation: self.rotation,
            flags: self.flags,
        }
    }
}

/// A box that is hit.
#[derive(Debug, Clone)]
pub struct Hitbox {
    /// The bone.
    pub bone: String,
    /// The group.
    pub group: i32,
    /// The lower corner.
    pub bbmin: Vector,
    /// The upper corner.
    pub bbmax: Vector,
    /// The name.
    pub name: Option<String>,
}

/// A box that is hit. As a mathematical value.
#[verifier::ext_equal]
pub struct HitboxView {
    /// The bone.
    pub bone: Seq<char>,
    /// The group.
    pub group: i32,
    /// The lower corner.
    pub bbmin: Vector,
    /// The upper corner.
    pub bbmax: Vector,
    /// The name.
    pub name: Option<Seq<char>>,
}

impl View for Hitbox {
    type V = HitboxView;

    open spec fn view(&self) -> HitboxView {
        HitboxView {
            bone: self.bone@,
            group: self.group,
            bbmin: self.bbmin,
            bbmax: self.bbmax,
            name: viewed_if(self.name),
        }
    }
}

/// A chain of bones.
#[derive(Debug, Clone)]
pub struct IkChain {
    /// The name.
    pub name: String,
    /// The last bone.
    pub bone: String,
    /// Where the knee points.
    pub knee_dir: Option<Vector>,
}

/// A chain of bones. As a mathematical value.
#[verifier::ext_equal]
pub struct IkChainView {
    /// The name.
    pub name: Seq<char>,
    /// The last bone.
    pub bone: Seq<char>,
    /// Where the knee points.
    pub knee_dir: Option<Vector>,
}

impl View for IkChain {
    type V = IkChainView;

    open spec fn view(&self) -> IkChainView {
        IkChainView {
            name: self.name@,
            bone: self.bone@,
            knee_dir: self.knee_dir,
        }
    }
}

/// A bone that wobbles.
#[derive(Debug, Clone)]
pub struct JiggleBone {
    /// The bone.
    pub bone: String,
    /// How it bends.
    pub is_flexible: Option<JiggleFlexible>,
    /// How it swings.
    pub is_rigid: Option<JiggleRigid>,
    /// How its base springs.
    pub has_base_spring: Option<JiggleBaseSpring>,
}

/// A bone that wobbles. As a mathematical value.
#[verifier::ext_equal]
pub struct JiggleBoneView {
    /// The bone.
    pub bone: Seq<char>,
    /// How it bends.
    pub is_flexible: Option<JiggleFlexible>,
    /// How it swings.
    pub is_rigid: Option<JiggleRigid>,
    /// How its base springs.
    pub has_base_spring: Option<JiggleBaseSpring>,
}

impl View for JiggleBone {
    type V = JiggleBoneView;

    open spec fn view(&self) -> JiggleBoneView {
        JiggleBoneView {
            bone: self.bone@,
            is_flexible: self.is_flexible,
            is_rigid: self.is_rigid,
            has_base_spring: self.has_base_spring,
        }
    }
}

/// A bone that follows another.
#[derive(Debug, Clone)]
pub struct QuatInterpBone {
    /// The bone.
    pub bone: String,
    /// The bone that it follows.
    pub control: String,
    /// Its place.
    pub base_pos: Option<Vector>,
    /// The poses that it takes.
    pub triggers: Vec<QuatInterpTrigger>,
}

/// A bone that follows another. As a mathematical value.
#[verifier::ext_equal]
pub struct QuatInterpBoneView {
    /// The bone.
    pub bone: Seq<char>,
    /// The bone that it follows.
    pub control: Seq<char>,
    /// Its place.
    pub base_pos: Option<Vector>,
    /// The poses that it takes.
    pub triggers: Seq<QuatInterpTrigger>,
}

impl View for QuatInterpBone {
    type V = QuatInterpBoneView;

    open spec fn view(&self) -> QuatInterpBoneView {
        QuatInterpBoneView {
            bone: self.bone@,
            control: self.control@,
            base_pos: self.base_pos,
            triggers: self.triggers@,
        }
    }
}

/// A limit on a joint.
#[derive(Debug, Clone)]
pub struct JointConstraintSpec {
    /// The bone.
    pub bone: String,
    /// The axis.
    pub axis: String,
    /// The kind.
    pub kind: String,
    /// The lower angle.
    pub min: u32,
    /// The upper angle.
    pub max: u32,
    /// The friction.
    pub friction: u32,
}

/// A limit on a joint. As a mathematical value.
#[verifier::ext_equal]
pub struct JointConstraintSpecView {
    /// The bone.
    pub bone: Seq<char>,
    /// The axis.
    pub axis: Seq<char>,
    /// The kind.
    pub kind: Seq<char>,
    /// The lower angle.
    pub min: u32,
    /// The upper angle.
    pub max: u32,
    /// The friction.
    pub friction: u32,
}

impl View for JointConstraintSpec {
    type V = JointConstraintSpecView;

    open spec fn view(&self) -> JointConstraintSpecView {
        JointConstraintSpecView {
            bone: self.bone@,
            axis: self.axis@,
            kind: self.kind@,
            min: self.min,
            max: self.max,
            friction: self.friction,
        }
    }
}

/// What a joint has of its own.
#[derive(Debug, Clone)]
pub struct JointOverride {
    /// The bone.
    pub bone: String,
    /// The damping.
    pub damping: Option<u32>,
    /// The rotational damping.
    pub rot_damping: Option<u32>,
    /// The inertia.
    pub inertia: Option<u32>,
    /// The weight when mass is handed out.
    pub mass_bias: Option<u32>,
}

/// What a joint has of its own. As a mathematical value.
#[verifier::ext_equal]
pub struct JointOverrideView {
    /// The bone.
    pub bone: Seq<char>,
    /// The damping.
    pub damping: Option<u32>,
    /// The rotational damping.
    pub rot_damping: Option<u32>,
    /// The inertia.
    pub inertia: Option<u32>,
    /// The weight when mass is handed out.
    pub mass_bias: Option<u32>,
}

impl View for JointOverride {
    type V = JointOverrideView;

    open spec fn view(&self) -> JointOverrideView {
        JointOverrideView {
            bone: self.bone@,
            damping: self.damping,
            rot_damping: self.rot_damping,
            inertia: self.inertia,
            mass_bias: self.mass_bias,
        }
    }
}

/// How the model collides.
#[derive(Debug, Clone)]
pub struct Physics {
    /// The collision mesh.
    pub smd: Option<String>,
    /// Whether each bone has its own solid.
    pub joints: bool,
    /// The mass.
    pub mass: Option<u32>,
    /// Whether the mesh is concave.
    pub concave: bool,
    /// The damping.
    pub damping: Option<u32>,
    /// The rotational damping.
    pub rot_damping: Option<u32>,
    /// The inertia.
    pub inertia: Option<u32>,
    /// The drag.
    pub drag: Option<u32>,
    /// The root bone.
    pub root_bone: Option<String>,
    /// Whether no two solids collide.
    pub no_self_collisions: bool,
    /// Whether the mass follows from the volume.
    pub auto_mass: bool,
    /// Where the centre of mass is put.
    pub mass_center: Option<Vector>,
    /// Bones that are merged.
    pub merge: Vec<Pair>,
    /// Solids that collide.
    pub collision_pairs: Vec<Pair>,
    /// The limits of the joints.
    pub constraints: Vec<JointConstraintSpec>,
    /// How friction changes under animation.
    pub animated_friction: Option<AnimatedFrictionSpec>,
    /// What joints have of their own.
    pub joint_overrides: Vec<JointOverride>,
}

/// How the model collides. As a mathematical value.
#[verifier::ext_equal]
pub struct PhysicsView {
    /// The collision mesh.
    pub smd: Option<Seq<char>>,
    /// Whether each bone has its own solid.
    pub joints: bool,
    /// The mass.
    pub mass: Option<u32>,
    /// Whether the mesh is concave.
    pub concave: bool,
    /// The damping.
    pub damping: Option<u32>,
    /// The rotational damping.
    pub rot_damping: Option<u32>,
    /// The inertia.
    pub inertia: Option<u32>,
    /// The drag.
    pub drag: Option<u32>,
    /// The root bone.
    pub root_bone: Option<Seq<char>>,
    /// Whether no two solids collide.
    pub no_self_collisions: bool,
    /// Whether the mass follows from the volume.
    pub auto_mass: bool,
    /// Where the centre of mass is put.
    pub mass_center: Option<Vector>,
    /// Bones that are merged.
    pub merge: Seq<PairView>,
    /// Solids that collide.
    pub collision_pairs: Seq<PairView>,
    /// The limits of the joints.
    pub constraints: Seq<JointConstraintSpecView>,
    /// How friction changes under animation.
    pub animated_friction: Option<AnimatedFrictionSpec>,
    /// What joints have of their own.
    pub joint_overrides: Seq<JointOverrideView>,
}

impl View for Physics {
    type V = PhysicsView;

    open spec fn view(&self) -> PhysicsView {
        PhysicsView {
            smd: viewed_if(self.smd),
            joints: self.joints,
            mass: self.mass,
            concave: self.concave,
            damping: self.damping,
            rot_damping: self.rot_damping,
            inertia: self.inertia,
            drag: self.drag,
            root_bone: viewed_if(self.root_bone),
            no_self_collisions: self.no_self_collisions,
            auto_mass: self.auto_mass,
            mass_center: self.mass_center,
            merge: viewed(self.merge@),
            collision_pairs: viewed(self.collision_pairs@),
            constraints: viewed(self.constraints@),
            animated_friction: self.animated_friction,
            joint_overrides: viewed(self.joint_overrides@),
        }
    }
}

/// How much a bone counts.
#[derive(Debug, Clone)]
pub struct WeightEntry {
    /// The bone.
    pub bone: String,
    /// How much its rotation counts.
    pub weight: u32,
    /// How much its place counts.
    pub pos_weight: Option<u32>,
}

/// How much a bone counts. As a mathematical value.
#[verifier::ext_equal]
pub struct WeightEntryView {
    /// The bone.
    pub bone: Seq<char>,
    /// How much its rotation counts.
    pub weight: u32,
    /// How much its place counts.
    pub pos_weight: Option<u32>,
}

impl View for WeightEntry {
    type V = WeightEntryView;

    open spec fn view(&self) -> WeightEntryView {
        WeightEntryView {
            bone: self.bone@,
            weight: self.weight,
            pos_weight: self.pos_weight,
        }
    }
}

/// How much bones count.
#[derive(Debug, Clone)]
pub struct WeightList {
    /// The name.
    pub name: String,
    /// The bones.
    pub bones: Vec<WeightEntry>,
}

/// How much bones count. As a mathematical value.
#[verifier::ext_equal]
pub struct WeightListView {
    /// The name.
    pub name: Seq<char>,
    /// The bones.
    pub bones: Seq<WeightEntryView>,
}

impl View for WeightList {
    type V = WeightListView;

    open spec fn view(&self) -> WeightListView {
        WeightListView {
            name: self.name@,
            bones: viewed(self.bones@),
        }
    }
}

/// What the model is made of.
#[derive(Debug, Clone)]
pub struct Materials {
    /// Where materials are looked for.
    pub search_paths: Vec<String>,
    /// The materials.
    pub textures: Vec<String>,
    /// For each skin the material in each place.
    pub skin_families: Vec<Vec<i32>>,
}

/// What the model is made of. As a mathematical value.
#[verifier::ext_equal]
pub struct MaterialsView {
    /// Where materials are looked for.
    pub search_paths: Seq<Seq<char>>,
    /// The materials.
    pub textures: Seq<Seq<char>>,
    /// For each skin the material in each place.
    pub skin_families: Seq<Seq<i32>>,
}

impl View for Materials {
    type V = MaterialsView;

    open spec fn view(&self) -> MaterialsView {
        MaterialsView {
            search_paths: viewed(self.search_paths@),
            textures: viewed(self.textures@),
            skin_families: viewed(self.skin_families@),
        }
    }
}

/// A model.
#[derive(Debug, Clone)]
pub struct ModelDesc {
    /// The name.
    pub name: String,
    /// Whether it never moves.
    pub static_prop: bool,
    /// What the surface is made of.
    pub surface_prop: Option<String>,
    /// Where the eyes are.
    pub eye_position: Option<Vector>,
    /// Where light is taken.
    pub illum_position: Option<Vector>,
    /// How far the eyes turn.
    pub max_eye_deflection: Option<u32>,
    /// The lower corner of the hull.
    pub hull_min: Option<Vector>,
    /// The upper corner of the hull.
    pub hull_max: Option<Vector>,
    /// Marks.
    pub extra_flags: Option<i32>,
    /// What it holds back.
    pub contents: i32,
    /// Whether bones are left out of the bounds.
    pub skip_bone_in_bbox: bool,
    /// Free text.
    pub key_values: Option<String>,
    /// The parameters that blend poses.
    pub pose_parameters: Vec<PoseParameter>,
    /// Whether bones are aligned anew.
    pub realign_bones: bool,
    /// The size of a block of animation.
    pub anim_block_size: Option<i32>,
    /// How it collides.
    pub physics: Physics,
    /// What it is made of.
    pub materials: Materials,
    /// The bones.
    pub bones: Vec<Bone>,
    /// The parts of the body.
    pub bodyparts: Vec<BodyPart>,
    /// The name of the set of boxes.
    pub hitbox_set: Option<String>,
    /// The boxes that are hit.
    pub hitboxes: Vec<Hitbox>,
    /// The places to hang things on.
    pub attachments: Vec<Attachment>,
    /// The sequences.
    pub sequences: Vec<Sequence>,
    /// The animations.
    pub animations: Vec<Animation>,
    /// The chains of bones.
    pub ikchains: Vec<IkChain>,
    /// The chains that stay where they are.
    pub ik_autoplay_locks: Vec<IkAutoplayLock>,
    /// The flexes.
    pub flex_descriptors: Vec<String>,
    /// The controllers of flexes.
    pub flex_controllers: Vec<FlexController>,
    /// What flexes are made of.
    pub flex_rules: Vec<FlexRule>,
    /// The mouths.
    pub mouths: Vec<Mouth>,
    /// The bones that wobble.
    pub jiggle_bones: Vec<JiggleBone>,
    /// The bones that follow others.
    pub quat_interp_bones: Vec<QuatInterpBone>,
    /// Models whose sequences are taken in.
    pub joined_models: Vec<String>,
    /// How much bones count.
    pub weight_lists: Vec<WeightList>,
}

/// A model. As a mathematical value.
#[verifier::ext_equal]
pub struct ModelDescView {
    /// The name.
    pub name: Seq<char>,
    /// Whether it never moves.
    pub static_prop: bool,
    /// What the surface is made of.
    pub surface_prop: Option<Seq<char>>,
    /// Where the eyes are.
    pub eye_position: Option<Vector>,
    /// Where light is taken.
    pub illum_position: Option<Vector>,
    /// How far the eyes turn.
    pub max_eye_deflection: Option<u32>,
    /// The lower corner of the hull.
    pub hull_min: Option<Vector>,
    /// The upper corner of the hull.
    pub hull_max: Option<Vector>,
    /// Marks.
    pub extra_flags: Option<i32>,
    /// What it holds back.
    pub contents: i32,
    /// Whether bones are left out of the bounds.
    pub skip_bone_in_bbox: bool,
    /// Free text.
    pub key_values: Option<Seq<char>>,
    /// The parameters that blend poses.
    pub pose_parameters: Seq<PoseParameterView>,
    /// Whether bones are aligned anew.
    pub realign_bones: bool,
    /// The size of a block of animation.
    pub anim_block_size: Option<i32>,
    /// How it collides.
    pub physics: PhysicsView,
    /// What it is made of.
    pub materials: MaterialsView,
    /// The bones.
    pub bones: Seq<BoneView>,
    /// The parts of the body.
    pub bodyparts: Seq<BodyPartView>,
    /// The name of the set of boxes.
    pub hitbox_set: Option<Seq<char>>,
    /// The boxes that are hit.
    pub hitboxes: Seq<HitboxView>,
    /// The places to hang things on.
    pub attachments: Seq<AttachmentView>,
    /// The sequences.
    pub sequences: Seq<SequenceView>,
    /// The animations.
    pub animations: Seq<AnimationView>,
    /// The chains of bones.
    pub ikchains: Seq<IkChainView>,
    /// The chains that stay where they are.
    pub ik_autoplay_locks: Seq<IkAutoplayLockView>,
    /// The flexes.
    pub flex_descriptors: Seq<Seq<char>>,
    /// The controllers of flexes.
    pub flex_controllers: Seq<FlexControllerView>,
    /// What flexes are made of.
    pub flex_rules: Seq<RuleView>,
    /// The mouths.
    pub mouths: Seq<MouthView>,
    /// The bones that wobble.
    pub jiggle_bones: Seq<JiggleBoneView>,
    /// The bones that follow others.
    pub quat_interp_bones: Seq<QuatInterpBoneView>,
    /// Models whose sequences are taken in.
    pub joined_models: Seq<Seq<char>>,
    /// How much bones count.
    pub weight_lists: Seq<WeightListView>,
}

impl View for ModelDesc {
    type V = ModelDescView;

    open spec fn view(&self) -> ModelDescView {
        ModelDescView {
            name: self.name@,
            static_prop: self.static_prop,
            surface_prop: viewed_if(self.surface_prop),
            eye_position: self.eye_position,
            illum_position: self.illum_position,
            max_eye_deflection: self.max_eye_deflection,
            hull_min: self.hull_min,
            hull_max: self.hull_max,
            extra_flags: self.extra_flags,
            contents: self.contents,
            skip_bone_in_bbox: self.skip_bone_in_bbox,
            key_values: viewed_if(self.key_values),
            pose_parameters: viewed(self.pose_parameters@),
            realign_bones: self.realign_bones,
            anim_block_size: self.anim_block_size,
            physics: self.physics@,
            materials: self.materials@,
            bones: viewed(self.bones@),
            bodyparts: viewed(self.bodyparts@),
            hitbox_set: viewed_if(self.hitbox_set),
            hitboxes: viewed(self.hitboxes@),
            attachments: viewed(self.attachments@),
            sequences: viewed(self.sequences@),
            animations: viewed(self.animations@),
            ikchains: viewed(self.ikchains@),
            ik_autoplay_locks: viewed(self.ik_autoplay_locks@),
            flex_descriptors: viewed(self.flex_descriptors@),
            flex_controllers: viewed(self.flex_controllers@),
            flex_rules: viewed(self.flex_rules@),
            mouths: viewed(self.mouths@),
            jiggle_bones: viewed(self.jiggle_bones@),
            quat_interp_bones: viewed(self.quat_interp_bones@),
            joined_models: viewed(self.joined_models@),
            weight_lists: viewed(self.weight_lists@),
        }
    }
}

/// What the commands read so far come to.
#[derive(Debug, Clone)]
pub struct Script {
    /// The model.
    pub desc: ModelDesc,
    /// The bones that were defined.
    pub import_bones: Vec<Bone>,
    /// The directories that were entered, each as a prefix.
    pub cddir: Vec<String>,
    /// The scale.
    pub scale: u32,
    /// Marks.
    pub gflags: i32,
    /// The groups of materials: for each command its families.
    pub texture_groups: Vec<Families>,
    /// The names of the sequences, in small letters.
    pub sequence_names: Vec<String>,
    /// The names of the animations, in small letters.
    pub animation_names: Vec<String>,
    /// The files that are needed.
    pub referenced_files: Vec<String>,
    /// Bones that follow bones of another model.
    pub bonemerge_names: Vec<String>,
    /// For each attachment whether it stands in the world.
    pub attachment_absolute: Vec<bool>,
    /// What bones are made of.
    pub joint_surface_props: Vec<Pair>,
    /// Meshes for distances that belong to no part yet.
    pub pending_lods: Vec<LodModel>,
    /// The vertex animation that was named last.
    pub pending_vta: Option<String>,
    /// The name before a bracket.
    pub last_block_name: Option<String>,
    /// Sections for all sequences.
    pub section_frames: Option<FrameRange>,
    /// Files that were asked for and are not there.
    pub missing_files: Vec<String>,
}

/// What the commands read so far come to. As a mathematical value.
#[verifier::ext_equal]
pub struct ScriptView {
    /// The model.
    pub desc: ModelDescView,
    /// The bones that were defined.
    pub import_bones: Seq<BoneView>,
    /// The directories that were entered, each as a prefix.
    pub cddir: Seq<Seq<char>>,
    /// The scale.
    pub scale: u32,
    /// Marks.
    pub gflags: i32,
    /// The groups of materials: for each command its families.
    pub texture_groups: Seq<Seq<Seq<Seq<char>>>>,
    /// The names of the sequences, in small letters.
    pub sequence_names: Seq<Seq<char>>,
    /// The names of the animations, in small letters.
    pub animation_names: Seq<Seq<char>>,
    /// The files that are needed.
    pub referenced_files: Seq<Seq<char>>,
    /// Bones that follow bones of another model.
    pub bonemerge_names: Seq<Seq<char>>,
    /// For each attachment whether it stands in the world.
    pub attachment_absolute: Seq<bool>,
    /// What bones are made of.
    pub joint_surface_props: Seq<PairView>,
    /// Meshes for distances that belong to no part yet.
    pub pending_lods: Seq<LodModelView>,
    /// The vertex animation that was named last.
    pub pending_vta: Option<Seq<char>>,
    /// The name before a bracket.
    pub last_block_name: Option<Seq<char>>,
    /// Sections for all sequences.
    pub section_frames: Option<FrameRange>,
    /// Files that were asked for and are not there.
    pub missing_files: Seq<Seq<char>>,
}

impl View for Script {
    type V = ScriptView;

    open spec fn view(&self) -> ScriptView {
        ScriptView {
            desc: self.desc@,
            import_bones: viewed(self.import_bones@),
            cddir: viewed(self.cddir@),
            scale: self.scale,
            gflags: self.gflags,
            texture_groups: viewed(self.texture_groups@),
            sequence_names: viewed(self.sequence_names@),
            animation_names: viewed(self.animation_names@),
            referenced_files: viewed(self.referenced_files@),
            bonemerge_names: viewed(self.bonemerge_names@),
            attachment_absolute: self.attachment_absolute@,
            joint_surface_props: viewed(self.joint_surface_props@),
            pending_lods: viewed(self.pending_lods@),
            pending_vta: viewed_if(self.pending_vta),
            last_block_name: viewed_if(self.last_block_name),
            section_frames: self.section_frames,
            missing_files: viewed(self.missing_files@),
        }
    }
}

/// A copy of names.
pub fn copy_names(list: &Vec<String>) -> (r: Vec<String>)
    ensures
        viewed(r@) == viewed(list@),
{
    let mut out: Vec<String> = Vec::new();
    let mut k: usize = 0;
    while k < list.len()
        invariant
            k <= list@.len(),
            viewed(out@) == viewed(list@).take(k as int),
        decreases list@.len() - k,
    {
        let ghost before = out@;
        out.push(list[k].clone());
        assert(viewed(out@) =~= viewed(before).push(list@[k as int]@));
        assert(viewed(out@) =~= viewed(list@).take(k + 1));
        k = k + 1;
    }
    assert(viewed(out@) =~= viewed(list@));
    out
}

/// A copy of pairs of names.
pub fn copy_pairs(list: &Vec<Pair>) -> (r: Vec<Pair>)
    ensures
        viewed(r@) == viewed(list@),
{
    let mut out: Vec<Pair> = Vec::new();
    let mut k: usize = 0;
    while k < list.len()
        invariant
            k <= list@.len(),
            viewed(out@) == viewed(list@).take(k as int),
        decreases list@.len() - k,
    {
        let ghost before = out@;
        out.push(Pair { a: list[k].a.clone(), b: list[k].b.clone() });
        assert(viewed(out@) =~= viewed(before).push(list@[k as int]@));
        assert(viewed(out@) =~= viewed(list@).take(k + 1));
        k = k + 1;
    }
    assert(viewed(out@) =~= viewed(list@));
    out
}

/// A copy of a name, if there is one.
pub fn copy_name_if(name: &Option<String>) -> (r: Option<String>)
    ensures
        viewed_if(r) == viewed_if(*name),
{
    match name {
        Some(n) => Some(n.clone()),
        None => None,
    }
}

impl LodModel {
    /// A copy.
    pub fn copy(&self) -> (r: LodModel)
        ensures
            r@ == self@,
    {
        LodModel {
            smd: copy_name_if(&self.smd),
            switch_point: self.switch_point,
            bone_tree_collapse: copy_names(&self.bone_tree_collapse),
            replace_bone: copy_pairs(&self.replace_bone),
            no_facial: self.no_facial,
        }
    }
}

impl Bone {
    /// A copy.
    pub fn copy(&self) -> (r: Bone)
        ensures
            r@ == self@,
    {
        Bone {
            name: self.name.clone(),
            parent: copy_name_if(&self.parent),
            position: self.position,
            rotation: self.rotation,
            surface_prop: copy_name_if(&self.surface_prop),
            bonemerge: self.bonemerge,
            pre_aligned: self.pre_aligned,
            realign_position: self.realign_position,
            realign_rotation: self.realign_rotation,
        }
    }
}

} // verus!
