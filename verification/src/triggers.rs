//! Which trigger bindings of a node a fired trigger runs.
//!
//! The engine side keeps each node's bindings and hands the library what matching reads of
//! them: the trigger kind (as the key the engine gives each kind), the hand a binding is
//! limited to, and whether it is disabled. The tracks of the matching bindings are started
//! by the engine side, in the order decided here.
use vstd::prelude::*;

verus! {

/// The hand of a grab.
#[derive(Clone, Copy, Debug, PartialEq, Eq, Structural)]
pub enum XrdsHand {
    Left,
    Right,
}

/// What matching reads of a trigger binding.
#[derive(Clone, Copy, Debug, PartialEq, Eq, Structural)]
pub struct XrdsTriggerBindingKey {
    /// The kind of trigger the binding answers.
    pub trigger: u64,
    /// The hand the binding is limited to, if any.
    pub hand: Option<XrdsHand>,
    /// A disabled binding never runs.
    pub disabled: bool,
}

/// Whether `binding` runs when a trigger of kind `kind` fires with the hand `hand`: it is
/// enabled, answers that kind, and is limited to no hand or to that one.
pub open spec fn binding_matches(binding: XrdsTriggerBindingKey, kind: u64, hand: Option<XrdsHand>) -> bool {
    !binding.disabled && binding.trigger == kind && (binding.hand is None || binding.hand == hand)
}

/// The positions, in order, of the bindings of `bindings` that run.
pub open spec fn matching_positions(bindings: Seq<XrdsTriggerBindingKey>, kind: u64, hand: Option<XrdsHand>) -> Seq<usize>
    decreases bindings.len(),
{
    if bindings.len() == 0 {
        Seq::empty()
    } else {
        let before = matching_positions(bindings.drop_last(), kind, hand);
        if binding_matches(bindings.last(), kind, hand) {
            before.push((bindings.len() - 1) as usize)
        } else {
            before
        }
    }
}

/// The bindings that run when a trigger of kind `kind` fires on a node with the bindings
/// `bindings`, with the hand `hand` (if any): their positions, in order. Their number is how
/// many sequences the firing starts.
pub fn matching_bindings(bindings: &Vec<XrdsTriggerBindingKey>, kind: u64, hand: Option<XrdsHand>) -> (positions: Vec<usize>)
    ensures
        positions@ == matching_positions(bindings@, kind, hand),
{
    let mut positions: Vec<usize> = Vec::new();
    let mut i: usize = 0;
    while i < bindings.len()
        invariant
            i <= bindings.len(),
            positions@ == matching_positions(bindings@.take(i as int), kind, hand),
        decreases bindings.len() - i,
    {
        let b = bindings[i];
        assert(bindings@.take(i + 1).drop_last() =~= bindings@.take(i as int));
        assert(bindings@.take(i + 1).last() == b);
        let hand_fits = match b.hand {
            None => true,
            Some(h) => match hand {
                Some(g) => h == g,
                None => false,
            },
        };
        if !b.disabled && b.trigger == kind && hand_fits {
            positions.push(i);
        }
        i = i + 1;
    }
    assert(bindings@.take(bindings.len() as int) =~= bindings@);
    positions
}

} // verus!
