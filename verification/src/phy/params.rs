//! What goes into a collision file besides its hulls.
use vstd::prelude::*;

use crate::arith::{over, quotient};
use crate::single::ONE;
use crate::text::{lower, lower_char, lowered, same, to_lower};

verus! {

/// The number five.
pub const FIVE: u32 = 0x40A0_0000;

/// The degrees of a full turn.
pub const ROUND: u32 = 0x43B4_0000;

/// The degrees of a full turn backwards.
pub const MINUS_ROUND: u32 = 0xC3B4_0000;

/// How far a joint turns about an axis.
#[derive(Debug, Clone, Copy, PartialEq, Eq, Structural)]
pub enum JointLimitType {
    /// All the way round.
    Free,
    /// Not at all.
    Fixed,
    /// Between two angles.
    Limit,
}

impl JointLimitType {
    /// The limit that a word names, in any ASCII case.
    pub open spec fn named(word: Seq<char>) -> Option<JointLimitType> {
        if lower(word) == "free"@ {
            Some(JointLimitType::Free)
        } else if lower(word) == "fixed"@ {
            Some(JointLimitType::Fixed)
        } else if lower(word) == "limit"@ {
            Some(JointLimitType::Limit)
        } else {
            None
        }
    }

    /// The limit that a word names, in any ASCII case.
    pub fn parse(s: &str) -> (r: Option<Self>)
        ensures
            r == JointLimitType::named(s@),
    {
        let l: String = lowered(s);
        if same(l.as_str(), "free") {
            Some(JointLimitType::Free)
        } else if same(l.as_str(), "fixed") {
            Some(JointLimitType::Fixed)
        } else if same(l.as_str(), "limit") {
            Some(JointLimitType::Limit)
        } else {
            None
        }
    }

    /// The lower angle, the upper angle and the friction that a file gives for a joint: a fixed
    /// joint has none, a free one turns all the way round, and the friction is the fifth part of
    /// what was asked for.
    pub open spec fn values(self, min: u32, max: u32, friction: u32) -> (u32, u32, u32) {
        match self {
            JointLimitType::Limit => (min, max, quotient(friction, FIVE)),
            JointLimitType::Fixed => (0, 0, 0),
            JointLimitType::Free => (MINUS_ROUND, ROUND, quotient(friction, FIVE)),
        }
    }

    /// The lower angle, the upper angle and the friction that a file gives for a joint.
    pub fn axis_values(self, min: u32, max: u32, friction: u32) -> (r: (u32, u32, u32))
        ensures
            r == self.values(min, max, friction),
    {
        match self {
            JointLimitType::Limit => (min, max, over(friction, FIVE)),
            JointLimitType::Fixed => (0, 0, 0),
            JointLimitType::Free => (MINUS_ROUND, ROUND, over(friction, FIVE)),
        }
    }
}

/// A limit on one axis of a joint.
#[derive(Debug, Clone)]
pub struct JointConstraint {
    /// The bone that the joint moves.
    pub bone: String,
    /// The axis: 0 for x, 1 for y, 2 for z.
    pub axis: u8,
    /// How far the joint turns.
    pub kind: JointLimitType,
    /// The lower angle.
    pub min: u32,
    /// The upper angle.
    pub max: u32,
    /// The friction.
    pub friction: u32,
}

impl JointConstraint {
    /// The axis that a letter names, in either case.
    pub open spec fn axis_named(c: char) -> Option<u8> {
        if lower_char(c) == 'x' {
            Some(0u8)
        } else if lower_char(c) == 'y' {
            Some(1u8)
        } else if lower_char(c) == 'z' {
            Some(2u8)
        } else {
            None
        }
    }

    /// The axis that a letter names, in either case.
    pub fn axis_from_char(c: char) -> (r: Option<u8>)
        ensures
            r == JointConstraint::axis_named(c),
    {
        let l: char = to_lower(c);
        if l == 'x' {
            Some(0)
        } else if l == 'y' {
            Some(1)
        } else if l == 'z' {
            Some(2)
        } else {
            None
        }
    }

    /// The letter of the axis.
    pub fn axis_char(&self) -> (r: char)
        ensures
            r == (if self.axis % 3 == 0 {
                'x'
            } else if self.axis % 3 == 1 {
                'y'
            } else {
                'z'
            }),
    {
        if self.axis % 3 == 0 {
            'x'
        } else if self.axis % 3 == 1 {
            'y'
        } else {
            'z'
        }
    }
}

/// How friction changes while an animation drives a body.
#[derive(Debug, Clone)]
pub struct AnimatedFriction {
    /// The least friction.
    pub min: i32,
    /// The greatest friction.
    pub max: i32,
    /// The time in which friction sets in.
    pub time_in: u32,
    /// The time in which friction wears off.
    pub time_out: u32,
    /// The time for which friction holds.
    pub time_hold: u32,
}

/// A solid, besides its hulls.
#[derive(Debug, Clone)]
pub struct PhySolid {
    /// The bone that the solid belongs to.
    pub bone_index: Option<u32>,
    /// The name of the solid.
    pub name: String,
    /// The name of the solid that it hangs from.
    pub parent: Option<String>,
    /// The weight of the solid when mass is handed out.
    pub mass_bias: u32,
    /// The damping, where it is not that of the file.
    pub damping: Option<u32>,
    /// The rotational damping, where it is not that of the file.
    pub rot_damping: Option<u32>,
    /// The inertia, where it is not that of the file.
    pub inertia: Option<u32>,
}

impl PhySolid {
    /// The one solid of a prop: no bone, and the base name of its collision mesh.
    pub fn prop(collision_smd_name: &str) -> (r: Self)
        ensures
            r.bone_index is None,
            r.name@ == collision_smd_name@,
            r.parent is None,
            r.mass_bias == ONE,
            r.damping is None && r.rot_damping is None && r.inertia is None,
    {
        PhySolid {
            bone_index: None,
            name: collision_smd_name.to_owned(),
            parent: None,
            mass_bias: ONE,
            damping: None,
            rot_damping: None,
            inertia: None,
        }
    }

    /// A solid of a ragdoll: it belongs to a bone and bears its name.
    pub fn ragdoll(bone_index: u32, name: String, parent: Option<String>) -> (r: Self)
        ensures
            r.bone_index == Some(bone_index),
            r.name == name,
            r.parent == parent,
            r.mass_bias == ONE,
            r.damping is None && r.rot_damping is None && r.inertia is None,
    {
        PhySolid {
            bone_index: Some(bone_index),
            name,
            parent,
            mass_bias: ONE,
            damping: None,
            rot_damping: None,
            inertia: None,
        }
    }
}

/// What a whole file takes besides its solids.
#[derive(Debug, Clone)]
pub struct PhyParams {
    /// The name of the model, without extension.
    pub model_name: String,
    /// The checksum of the model.
    pub checksum: u32,
    /// The mass of all solids together.
    pub total_mass: u32,
    /// What the surface is made of.
    pub surface_prop: String,
    /// The damping.
    pub damping: u32,
    /// The rotational damping.
    pub rot_damping: u32,
    /// The inertia.
    pub inertia: u32,
    /// The drag, if any is given.
    pub drag: Option<u32>,
    /// The name of the root bone.
    pub root_name: String,
    /// Whether the hulls come from a concave mesh.
    pub concave: bool,
    /// By how much the inertia tensor is scaled.
    pub inertia_scale: u32,
    /// The limits of the joints.
    pub constraints: Vec<JointConstraint>,
    /// How friction changes while an animation drives the body.
    pub animated_friction: Option<AnimatedFriction>,
    /// Whether no two solids collide.
    pub no_self_collisions: bool,
    /// Pairs of solids that collide, by name.
    pub collision_pairs: Vec<(String, String)>,
    /// Pairs of bones of which the second was merged into the first, by name.
    pub merge_list: Vec<(String, String)>,
    /// Where the centre of mass is put, if it is given.
    pub mass_center: Option<[u32; 3]>,
    /// Whether the mass follows from the volume.
    pub auto_mass: bool,
}

impl PhyParams {
    /// The parameters that hold where nothing is said.
    pub fn new(model_name: &str, checksum: u32) -> (r: Self)
        ensures
            r.model_name@ == model_name@,
            r.checksum == checksum,
            r.total_mass == ONE,
            r.surface_prop@ == "default"@,
            r.damping == 0,
            r.rot_damping == 0,
            r.inertia == ONE,
            r.drag is None,
            r.root_name@ == Seq::<char>::empty(),
            !r.concave,
            r.inertia_scale == ONE,
            r.constraints@ == Seq::<JointConstraint>::empty(),
            r.animated_friction is None,
            !r.no_self_collisions,
            r.collision_pairs@ == Seq::<(String, String)>::empty(),
            r.merge_list@ == Seq::<(String, String)>::empty(),
            r.mass_center is None,
            !r.auto_mass,
    {
        PhyParams {
            model_name: model_name.to_owned(),
            checksum,
            total_mass: ONE,
            surface_prop: "default".to_owned(),
            damping: 0,
            rot_damping: 0,
            inertia: ONE,
            drag: None,
            root_name: String::new(),
            concave: false,
            inertia_scale: ONE,
            constraints: Vec::new(),
            animated_friction: None,
            no_self_collisions: false,
            collision_pairs: Vec::new(),
            merge_list: Vec::new(),
            mass_center: None,
            auto_mass: false,
        }
    }
}

/// Which collision mesh a file is written from, and what for.
#[derive(Debug, Clone)]
pub struct PhyIdentity {
    /// The name of the model, without extension.
    pub model_name: String,
    /// The base name of the collision mesh.
    pub collision_smd_name: String,
    /// What the surface is made of.
    pub surface_prop: String,
}

} // verus!
