use crate::entropy::{bucket, next_draw, spec_bucket};
use bevy_rand::prelude::ChaCha8Rng;
use vstd::prelude::*;

verus! {

/// Number of flavour texts.
pub const DIALOGS: u32 = 5;

/// The flavour text that is on show, if any.
#[derive(Clone, Copy, Debug)]
pub struct ShownDialog(pub Option<&'static str>);

/// The flavour text at `index`.
pub open spec fn spec_dialog_text(index: int) -> Seq<char> {
    if index == 0 {
        "Humble Bundle again..."@
    } else if index == 1 {
        "Got a gift card!"@
    } else if index == 2 {
        "Couldn't resist"@
    } else if index == 3 {
        "It wasn't on sale, but..."@
    } else {
        "I wanted to revist these."@
    }
}

/// The flavour text at `index`.
pub fn dialog_text(index: u32) -> (text: &'static str)
    requires
        index < DIALOGS,
    ensures
        text@ == spec_dialog_text(index as int),
{
    if index == 0 {
        "Humble Bundle again..."
    } else if index == 1 {
        "Got a gift card!"
    } else if index == 2 {
        "Couldn't resist"
    } else if index == 3 {
        "It wasn't on sale, but..."
    } else {
        "I wanted to revist these."
    }
}

/// The text that is on show after a raw draw picked it: each of the five
/// for a fifth of the draws.
pub open spec fn spec_shown(raw: u32) -> Option<Seq<char>> {
    Some(spec_dialog_text(spec_bucket(raw, DIALOGS)))
}

impl View for ShownDialog {
    type V = Option<Seq<char>>;

    /// The characters of the text on show, if any.
    open spec fn view(&self) -> Option<Seq<char>> {
        match self.0 {
            Some(text) => Some(text@),
            None => None,
        }
    }
}

impl ShownDialog {
    /// Whether this shows the flavour text that the raw draw picks.
    pub open spec fn shows_draw(self, raw: u32) -> bool {
        self@ == spec_shown(raw)
    }

    /// The flavour text that a raw draw picks, each of the five for a fifth
    /// of the draws.
    pub fn for_draw(raw: u32) -> (dialog: Self)
        ensures
            dialog@ == spec_shown(raw),
    {
        ShownDialog(Some(dialog_text(bucket(raw, DIALOGS))))
    }

    /// Picks a flavour text by one draw from the generator.
    pub fn new_random(rng: &mut ChaCha8Rng) -> (dialog: Self)
        ensures
            exists|raw: u32| dialog.shows_draw(raw),
    {
        let raw = next_draw(rng);
        let dialog = ShownDialog::for_draw(raw);
        assert(dialog.shows_draw(raw));
        dialog
    }
}

} // verus!
