//! Systems: independent handlers that apply semantic mutation messages to
//! stored component state.

use vstd::prelude::*;

verus! {

use crate::c_data::Vector2;
use crate::component_manager::dense;
use crate::component_manager::kind_index;
use crate::component_manager::packed;
use crate::component_manager::Component;
use crate::component_manager::ComponentData;
use crate::component_manager::ComponentManager;
use crate::component_manager::Find;
use crate::eid_manager::Entity;

/// Names a system that can receive mutation messages.
#[derive(Clone, Copy, Debug, PartialEq, Eq, Hash, Structural)]
pub enum System {
    Position,
}

/// The per-system processing state: a system accepts a message when idle,
/// processes it, and returns to idle; a stop is terminal.
#[derive(Clone, Copy, Debug, PartialEq, Eq, Structural)]
pub enum SystemState {
    Idle,
    Processing,
    Stopped,
}

/// A semantic mutation request passed into a system. `Stop` permanently stops
/// the receiving system; the position messages target the position component
/// of the entity named in the send call.
#[derive(Clone, Copy, Debug, PartialEq, Eq, Structural)]
pub enum SystemMessage {
    Stop,
    Pos2Set(Vector2),
    Pos2Add(Vector2),
    Pos2Sub(Vector2),
    Pos2Mul(Vector2),
    Pos2Div(Vector2),
    Pos2IncX,
    Pos2IncY,
    Pos2DecX,
    Pos2DecY,
    Pos2Inc,
    Pos2Dec,
}

/// The system responsible for the position component.
pub struct PositionSystem {}

/// The component kind a system is responsible for.
pub open spec fn system_kind(s: System) -> Find {
    match s {
        System::Position => Find::Pos2,
    }
}

impl System {
    /// The component kind this system is responsible for.
    pub fn component_kind(&self) -> (f: Find)
        ensures
            f == system_kind(*self),
    {
        match self {
            System::Position => Find::Pos2,
        }
    }
}

impl PositionSystem {
    /// Executes one accepted mutation message as a unit of work against the
    /// shared store, targeting the entity named in the send call: a set
    /// request overwrites the entity's position slot, every other message
    /// leaves the store unchanged, and a failed overwrite is dropped.
    pub fn handle_message(component_data: &mut ComponentData, entity: &Entity, msg: SystemMessage)
        ensures
            (match msg {
                SystemMessage::Pos2Set(v2) => {
                    &&& (kind_index(Find::Pos2) < dense(*old(component_data)).len() && entity.id
                        < dense(*old(component_data))[kind_index(Find::Pos2)].len()) ==> {
                        &&& dense(*final(component_data)) == dense(*old(component_data)).update(
                            kind_index(Find::Pos2),
                            dense(*old(component_data))[kind_index(Find::Pos2)].update(
                                entity.id as int,
                                Component::Pos2(v2),
                            ),
                        )
                        &&& packed(*final(component_data)) == packed(*old(component_data))
                    }
                    &&& !(kind_index(Find::Pos2) < dense(*old(component_data)).len() && entity.id
                        < dense(*old(component_data))[kind_index(Find::Pos2)].len())
                        ==> *final(component_data) == *old(component_data)
                },
                _ => *final(component_data) == *old(component_data),
            }),
    {
        match msg {
            SystemMessage::Pos2Set(v2) => {
                match ComponentManager::set_component(
                    component_data,
                    entity,
                    &Find::Pos2,
                    Component::Pos2(v2),
                ) {
                    Ok(()) => (),
                    Err(_) => (),
                }
            },
            _ => (),
        }
    }
}

} // verus!
