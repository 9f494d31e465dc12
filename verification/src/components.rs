//! What the names of replay objects and car components say about them.
use vstd::prelude::*;
use crate::text::{contains_text, has_infix};

verus! {

/// How a car component's activity update changes its player's flags.
#[derive(Clone, Copy, Debug, PartialEq, Eq, Structural)]
pub struct ComponentActivity {
    /// The boost flag, always rewritten: set only by an active boost
    /// component.
    pub boost_active: bool,
    /// The new jump flag (and jumped flag), for a jump component that is not
    /// a double jump.
    pub jump: Option<bool>,
    /// The new double-jump flag, for a double-jump component.
    pub double_jump: Option<bool>,
    /// The new dodge flag (and flipped flag), for a dodge component.
    pub dodge: Option<bool>,
}

/// Which of a player's counters an air-activate count belongs to.
#[derive(Clone, Copy, Debug, PartialEq, Eq, Structural)]
pub enum AirActivateSlot {
    Dodge,
    DoubleJump,
    Jump,
    Other,
}

/// The flag changes of a component activity update, by the component's
/// object name.
pub open spec fn activity_of(name: Seq<char>, active: bool) -> ComponentActivity {
    ComponentActivity {
        boost_active: has_infix(name, "Boost"@) && active,
        jump: if has_infix(name, "Jump"@) && !has_infix(name, "Double"@) {
            Some(active)
        } else {
            None
        },
        double_jump: if has_infix(name, "DoubleJump"@) {
            Some(active)
        } else {
            None
        },
        dodge: if has_infix(name, "Dodge"@) {
            Some(active)
        } else {
            None
        },
    }
}

/// How a component activity update with the given object name changes its
/// player's flags.
pub fn component_activity(component_name: &str, active: bool) -> (res: ComponentActivity)
    ensures
        res == activity_of(component_name@, active),
{
    let boost = contains_text(component_name, "Boost");
    let jump = contains_text(component_name, "Jump");
    let double = contains_text(component_name, "Double");
    let double_jump = contains_text(component_name, "DoubleJump");
    let dodge = contains_text(component_name, "Dodge");
    ComponentActivity {
        boost_active: boost && active,
        jump: if jump && !double {
            Some(active)
        } else {
            None
        },
        double_jump: if double_jump {
            Some(active)
        } else {
            None
        },
        dodge: if dodge {
            Some(active)
        } else {
            None
        },
    }
}

/// The counter an air-activate count of a component belongs to: dodge
/// first, then double jump, then jump.
pub open spec fn air_slot_of(name: Seq<char>) -> AirActivateSlot {
    if has_infix(name, "Dodge"@) {
        AirActivateSlot::Dodge
    } else if has_infix(name, "DoubleJump"@) {
        AirActivateSlot::DoubleJump
    } else if has_infix(name, "Jump"@) {
        AirActivateSlot::Jump
    } else {
        AirActivateSlot::Other
    }
}

/// The counter an air-activate count of the named component belongs to.
pub fn air_activate_slot(component_name: &str) -> (res: AirActivateSlot)
    ensures
        res == air_slot_of(component_name@),
{
    if contains_text(component_name, "Dodge") {
        AirActivateSlot::Dodge
    } else if contains_text(component_name, "DoubleJump") {
        AirActivateSlot::DoubleJump
    } else if contains_text(component_name, "Jump") {
        AirActivateSlot::Jump
    } else {
        AirActivateSlot::Other
    }
}

/// Whether a new actor's object is a ball.
pub fn is_ball_object(object_name: &str) -> (res: bool)
    ensures
        res == has_infix(object_name@, "Ball"@),
{
    contains_text(object_name, "Ball")
}

/// Attributes whose names concern dodges, jumps and flips.
pub open spec fn is_flip_attribute(name: Seq<char>) -> bool {
    has_infix(name, "Dodge"@) || has_infix(name, "Jump"@) || has_infix(name, "Flip"@) || has_infix(
        name,
        "AirActivate"@,
    ) || has_infix(name, "DodgesRefreshedCounter"@) || has_infix(name, "ReplicatedActive"@) || has_infix(
        name,
        "ReplicatedActivityTime"@,
    )
}

/// Whether an attribute's name concerns dodges, jumps or flips, so that
/// the flip inspection shows it.
pub fn flip_inspect_name(name: &str) -> (res: bool)
    ensures
        res == is_flip_attribute(name@),
{
    contains_text(name, "Dodge") || contains_text(name, "Jump") || contains_text(name, "Flip") || contains_text(
        name,
        "AirActivate",
    ) || contains_text(name, "DodgesRefreshedCounter") || contains_text(name, "ReplicatedActive")
        || contains_text(name, "ReplicatedActivityTime")
}

} // verus!
