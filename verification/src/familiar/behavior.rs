//! What the pet is doing, and what the pointer makes it do. Where it then stands is worked out
//! by whoever draws it.

use vstd::prelude::*;

verus! {

/// What the pet is doing.
#[derive(Clone, Copy, Debug, PartialEq, Eq, Structural)]
pub enum FsmState {
    Idle,
    Walk,
    Sleep,
    Drag,
    React,
}

impl FsmState {
    /// The pointer was pressed on the pet.
    pub fn on_pointer_down(self) -> (r: Self)
        ensures
            r == FsmState::Drag,
    {
        FsmState::Drag
    }

    /// The pointer was released: a pet that was dragged comes to rest, any other goes on.
    pub fn on_pointer_up(self) -> (r: Self)
        ensures
            self == FsmState::Drag ==> r == FsmState::Idle,
            self != FsmState::Drag ==> r == self,
    {
        match self {
            FsmState::Drag => FsmState::Idle,
            other => other,
        }
    }

    /// Does the pet go where the pointer goes? Otherwise it moves by itself.
    pub fn follows_pointer(self) -> (r: bool)
        ensures
            r == (self == FsmState::Drag),
    {
        match self {
            FsmState::Drag => true,
            _ => false,
        }
    }
}

/// Law: a pet is dragged from the press of the pointer to its release, and follows it meanwhile;
/// then it rests. A release alone changes nothing.
pub proof fn law_a_pet_is_dragged_while_pressed(
    s: FsmState,
    down: FsmState,
    follows: bool,
    up: FsmState,
    alone: FsmState,
)
    requires
        call_ensures(FsmState::on_pointer_down, (s,), down),
        call_ensures(FsmState::follows_pointer, (down,), follows),
        call_ensures(FsmState::on_pointer_up, (down,), up),
        call_ensures(FsmState::on_pointer_up, (s,), alone),
    ensures
        follows,
        up == FsmState::Idle,
        s != FsmState::Drag ==> alone == s,
{
}

} // verus!
