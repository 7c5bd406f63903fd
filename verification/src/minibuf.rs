//! The minibuffer: the one-line prompt under the panes.

use crate::action::Action;
use crate::key_map::{all_parse, spec_from_pairs, KeyMap};
use crate::key_sequence::{Error, KeySequenceAtom};
use vstd::prelude::*;

verus! {

#[derive(Clone, Copy, Debug, PartialEq, Eq, Structural)]
pub enum MinibufState {
    Inactive,
    SelectBuffer,
    OpenFile,
}

/// The bindings of an active minibuffer: tab completes and return
/// confirms.
pub open spec fn minibuf_bindings() -> Seq<(Seq<char>, Action)> {
    seq![("<ctrl>i"@, Action::Autocomplete), ("<ret>"@, Action::Confirm)]
}

/// The key map of the minibuffer in `state`: none when it is inactive,
/// otherwise completion and confirmation.
pub fn get_minibuf_keymap(state: MinibufState) -> (res: Result<KeyMap, Error>)
    ensures
        state == MinibufState::Inactive ==> (res matches Ok(m) && m@ == Map::<
            Seq<KeySequenceAtom>,
            Action,
        >::empty()),
        state != MinibufState::Inactive ==> (res is Ok <==> all_parse(minibuf_bindings())),
        state != MinibufState::Inactive ==> (res matches Ok(m) ==> m@ == spec_from_pairs(
            minibuf_bindings(),
        )),
{
    match state {
        MinibufState::Inactive => Ok(KeyMap::new("minibuf")),
        _ => {
            let pairs = vec![("<ctrl>i", Action::Autocomplete), ("<ret>", Action::Confirm)];
            proof {
                assert(crate::key_map::pair_views(pairs@) =~= minibuf_bindings());
            }
            KeyMap::from_pairs("minibuf", pairs)
        },
    }
}

} // verus!
