//! The tests of the simple test microkernel that every architecture has.

use vstd::prelude::*;

verus! {

/// One action of a test.
#[derive(Clone, Copy, Debug)]
pub enum GuestAction {
    /// Logs a text.
    Log(&'static str),
    /// Calls what is at an address.
    Call(u64),
    /// Panics with a text.
    Panic(&'static str),
}

/// One action of a test.
pub ghost enum GuestActionView {
    Log(Seq<char>),
    Call(u64),
    Panic(Seq<char>),
}

impl View for GuestAction {
    type V = GuestActionView;

    open spec fn view(&self) -> GuestActionView {
        match self {
            GuestAction::Log(text) => GuestActionView::Log(text@),
            GuestAction::Call(address) => GuestActionView::Call(*address),
            GuestAction::Panic(text) => GuestActionView::Panic(text@),
        }
    }
}

/// The actions of a test.
pub open spec fn actions_view(actions: Seq<GuestAction>) -> Seq<GuestActionView> {
    actions.map_values(|a: GuestAction| a@)
}

/// An address outside of the protected address range.
pub const OUTSIDE_PAR: u64 = 0x0000_ffff_0000_0000;

/// The guest comes up: it greets.
pub fn boot() -> (actions: Vec<GuestAction>)
    ensures
        actions_view(actions@) == seq![GuestActionView::Log("hello world"@)],
{
    let actions = vec![GuestAction::Log("hello world")];
    assert(actions_view(actions@) =~= seq![GuestActionView::Log("hello world"@)]);
    actions
}

/// The guest must not come back from outside of its protected address range: it panics if it does.
pub fn instruction_abort_outside_par() -> (actions: Vec<GuestAction>)
    ensures
        actions_view(actions@) == seq![
            GuestActionView::Log("instruction_abort_outside_par"@),
            GuestActionView::Call(0x0000_ffff_0000_0000),
            GuestActionView::Panic("branch to outside PAR unexpectedly returned"@),
        ],
{
    let actions = vec![
        GuestAction::Log("instruction_abort_outside_par"),
        GuestAction::Call(OUTSIDE_PAR),
        GuestAction::Panic("branch to outside PAR unexpectedly returned"),
    ];
    assert(actions_view(actions@) =~= seq![
        GuestActionView::Log("instruction_abort_outside_par"@),
        GuestActionView::Call(0x0000_ffff_0000_0000),
        GuestActionView::Panic("branch to outside PAR unexpectedly returned"@),
    ]);
    actions
}

} // verus!
