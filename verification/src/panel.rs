//! The panel: buttons of any kind, each found by its name, with the writes
//! and reads that the panel's drivers make.

use crate::button::{
    effect_of, written, AsButton, Button, ButtonTrait, GreenButton, RedButton, WriteEffect,
    WriteEffectView,
};
use crate::params::ParamsState;
use crate::text::{pair_views, same_text};
use vstd::prelude::*;
use vstd::string::StringExecFns;

verus! {

/// A button of one of the panel's kinds.
pub enum PanelButton {
    Plain(Button),
    Red(RedButton),
    Green(GreenButton),
}

impl AsButton for PanelButton {
    open spec fn base(&self) -> Button {
        match *self {
            PanelButton::Plain(button) => button,
            PanelButton::Red(red) => red.base(),
            PanelButton::Green(green) => green.base(),
        }
    }

    open spec fn rebased(&self, button: Button) -> PanelButton {
        match *self {
            PanelButton::Plain(_) => PanelButton::Plain(button),
            PanelButton::Red(red) => PanelButton::Red(red.rebased(button)),
            PanelButton::Green(green) => PanelButton::Green(green.rebased(button)),
        }
    }

    proof fn lemma_rebased(&self, button: Button) {
    }

    fn as_button(&self) -> (button: &Button) {
        match self {
            PanelButton::Plain(plain) => plain,
            PanelButton::Red(red) => red.as_button(),
            PanelButton::Green(green) => green.as_button(),
        }
    }

    fn as_button_mut(&mut self) -> (button: &mut Button) {
        match self {
            PanelButton::Plain(plain) => plain,
            PanelButton::Red(red) => red.as_button_mut(),
            PanelButton::Green(green) => green.as_button_mut(),
        }
    }
}

impl ButtonTrait for PanelButton {
    open spec fn audit(&self) -> Option<Seq<char>> {
        match *self {
            PanelButton::Plain(button) => button.audit(),
            PanelButton::Red(red) => red.audit(),
            PanelButton::Green(green) => green.audit(),
        }
    }

    /// Writes as the button's own kind does.
    fn set_state(&mut self, state: i32) -> (effect: WriteEffect) {
        match self {
            PanelButton::Plain(plain) => plain.set_state(state),
            PanelButton::Red(red) => red.set_state(state),
            PanelButton::Green(green) => green.set_state(state),
        }
    }
}

/// The names of the buttons, in the panel's order.
pub open spec fn labels(buttons: Seq<PanelButton>) -> Seq<Seq<char>> {
    Seq::new(buttons.len(), |i: int| buttons[i].base()@.name)
}

/// No two buttons share a name.
pub open spec fn distinct_labels(buttons: Seq<PanelButton>) -> bool {
    forall|i: int, j: int|
        0 <= i < j < buttons.len() ==> buttons[i].base()@.name != buttons[j].base()@.name
}

/// Whether the button at `slot` is named `label`.
pub open spec fn named_at(buttons: Seq<PanelButton>, slot: int, label: Seq<char>) -> bool {
    0 <= slot < buttons.len() && buttons[slot].base()@.name == label
}

/// The place of the button named `label`, if the panel has one.
pub open spec fn index_of(buttons: Seq<PanelButton>, label: Seq<char>) -> Option<int> {
    if exists|slot: int| named_at(buttons, slot, label) {
        Some(choose|slot: int| named_at(buttons, slot, label))
    } else {
        None
    }
}

/// The buttons after `state` has been written to each of them.
pub open spec fn written_all(buttons: Seq<PanelButton>, state: i32) -> Seq<PanelButton> {
    Seq::new(buttons.len(), |i: int| written(buttons[i], state))
}

/// What writing `state` to each button leaves to be carried out, in the
/// panel's order.
pub open spec fn effects_all(buttons: Seq<PanelButton>, state: i32) -> Seq<WriteEffectView> {
    Seq::new(buttons.len(), |i: int| effect_of(buttons[i], state))
}

/// The buttons after `state` has been written to those named in `names`.
pub open spec fn written_where(
    buttons: Seq<PanelButton>,
    names: Seq<Seq<char>>,
    state: i32,
) -> Seq<PanelButton> {
    Seq::new(
        buttons.len(),
        |i: int|
            if names.contains(buttons[i].base()@.name) {
                written(buttons[i], state)
            } else {
                buttons[i]
            },
    )
}

/// What writing `state` to the buttons named in `names` leaves to be
/// carried out, one effect for each name, in the order of the names.
pub open spec fn effects_where(
    buttons: Seq<PanelButton>,
    names: Seq<Seq<char>>,
    state: i32,
) -> Seq<WriteEffectView> {
    Seq::new(
        names.len(),
        |k: int| effect_of(buttons[index_of(buttons, names[k]).unwrap()], state),
    )
}

/// Whether the panel has a button for every name in `names`.
pub open spec fn all_named(buttons: Seq<PanelButton>, names: Seq<Seq<char>>) -> bool {
    forall|k: int| 0 <= k < names.len() ==> index_of(buttons, #[trigger] names[k]).is_some()
}

/// A list of names, each as its characters.
pub open spec fn name_views(names: Seq<String>) -> Seq<Seq<char>> {
    Seq::new(names.len(), |k: int| names[k]@)
}

/// Whether the table has the parameter of every button.
pub open spec fn bound(buttons: Seq<PanelButton>, table: Map<Seq<char>, i32>) -> bool {
    forall|i: int|
        0 <= i < buttons.len() ==> table.contains_key(#[trigger] buttons[i].base()@.dataref)
}

/// For each button, in the panel's order, the name of its parameter and the
/// value that the table holds for it.
pub open spec fn report_lines(buttons: Seq<PanelButton>, table: Map<Seq<char>, i32>) -> Seq<
    (Seq<char>, i32),
> {
    Seq::new(
        buttons.len(),
        |i: int| (buttons[i].base()@.dataref, table[buttons[i].base()@.dataref]),
    )
}

/// A list of effects, as plain values.
pub open spec fn effect_views(effects: Seq<WriteEffect>) -> Seq<WriteEffectView> {
    Seq::new(effects.len(), |i: int| effects[i]@)
}

/// Among buttons with distinct names, the button at a place is the one that
/// its name finds.
pub proof fn lemma_index_of(buttons: Seq<PanelButton>, slot: int)
    requires
        distinct_labels(buttons),
        0 <= slot < buttons.len(),
    ensures
        index_of(buttons, buttons[slot].base()@.name) == Some(slot),
{
    let label = buttons[slot].base()@.name;
    assert(named_at(buttons, slot, label));
    let found = choose|s: int| named_at(buttons, s, label);
    if found < slot {
        assert(buttons[found].base()@.name != buttons[slot].base()@.name);
    } else if slot < found {
        assert(buttons[slot].base()@.name != buttons[found].base()@.name);
    }
}

/// A write changes no button's name.
pub proof fn lemma_written_label(button: PanelButton, state: i32)
    ensures
        written(button, state).base()@.name == button.base()@.name,
        written(button, state).base()@.dataref == button.base()@.dataref,
        written(button, state).base()@.state == state,
        written(button, state).audit() == button.audit(),
{
    button.lemma_rebased(button.base().with_state(state));
    button.base().lemma_with_state(state);
}

/// The buttons of a panel, in the order in which they were put there. No two
/// share a name.
pub struct ButtonPanel {
    buttons: Vec<PanelButton>,
}

impl View for ButtonPanel {
    type V = Seq<PanelButton>;

    closed spec fn view(&self) -> Seq<PanelButton> {
        self.buttons@
    }
}

impl ButtonPanel {
    #[verifier::type_invariant]
    spec fn well_formed(self) -> bool {
        distinct_labels(self.buttons@)
    }

    /// A panel without buttons.
    pub fn new() -> (panel: ButtonPanel)
        ensures
            panel@ == Seq::<PanelButton>::empty(),
    {
        ButtonPanel { buttons: Vec::new() }
    }

    /// Moves the buttons out, leaving an empty panel behind.
    fn take_buttons(&mut self) -> (buttons: Vec<PanelButton>)
        ensures
            buttons == old(self).buttons,
    {
        let mut taken = ButtonPanel { buttons: Vec::new() };
        core::mem::swap(self, &mut taken);
        taken.buttons
    }

    /// The number of buttons. Their names are distinct, whatever was done
    /// to the panel.
    pub fn len(&self) -> (count: usize)
        ensures
            count == self@.len(),
            distinct_labels(self@),
    {
        proof {
            use_type_invariant(self);
        }
        self.buttons.len()
    }

    /// The place of the button named `label`, if the panel has one.
    pub fn position(&self, label: &str) -> (found: Option<usize>)
        ensures
            match found {
                Some(slot) => index_of(self@, label@) == Some(slot as int),
                None => index_of(self@, label@).is_none(),
            },
    {
        proof {
            use_type_invariant(self);
        }
        let mut i: usize = 0;
        while i < self.buttons.len()
            invariant
                i <= self.buttons@.len(),
                distinct_labels(self.buttons@),
                forall|slot: int| 0 <= slot < i ==> !named_at(self.buttons@, slot, label@),
            decreases self.buttons@.len() - i,
        {
            if same_text(self.buttons[i].as_button().label(), label) {
                proof {
                    lemma_index_of(self.buttons@, i as int);
                }
                return Some(i);
            }
            i += 1;
        }
        None
    }

    /// The button named `label`, if the panel has one.
    pub fn button(&self, label: &str) -> (found: Option<&PanelButton>)
        ensures
            match found {
                Some(button) => index_of(self@, label@).is_some() && *button == self@[index_of(
                    self@,
                    label@,
                ).unwrap()],
                None => index_of(self@, label@).is_none(),
            },
    {
        match self.position(label) {
            Some(slot) => Some(&self.buttons[slot]),
            None => None,
        }
    }

    /// Puts `button` on the panel: in the place of the button that has its
    /// name, which is handed back, or else behind the others.
    pub fn insert(&mut self, button: PanelButton) -> (replaced: Option<PanelButton>)
        ensures
            match index_of(old(self)@, button.base()@.name) {
                Some(slot) => final(self)@ == old(self)@.update(slot, button) && replaced == Some(
                    old(self)@[slot],
                ),
                None => final(self)@ == old(self)@.push(button) && replaced.is_none(),
            },
    {
        proof {
            use_type_invariant(&*self);
        }
        let found = self.position(button.as_button().label());
        let mut buttons = self.take_buttons();
        let ghost before = buttons@;
        match found {
            Some(slot) => {
                let mut incoming = button;
                core::mem::swap(&mut buttons[slot], &mut incoming);
                proof {
                    assert(buttons@ =~= before.update(slot as int, button));
                    assert(labels(buttons@) =~= labels(before));
                    lemma_same_labels_distinct(before, buttons@);
                }
                *self = ButtonPanel { buttons };
                Some(incoming)
            },
            None => {
                buttons.push(button);
                proof {
                    assert forall|i: int, j: int| 0 <= i < j < buttons@.len() implies buttons@[i].base()@.name
                        != buttons@[j].base()@.name by {
                        if j < before.len() {
                            assert(before[i].base()@.name != before[j].base()@.name);
                        } else {
                            assert(!named_at(before, i, button.base()@.name));
                        }
                    }
                }
                *self = ButtonPanel { buttons };
                None
            },
        }
    }

    /// Writes `state` to the button named `label` and hands back what the
    /// write leaves to be carried out; a panel without such a button stays
    /// as it is.
    pub fn write(&mut self, label: &str, state: i32) -> (effect: Option<WriteEffect>)
        ensures
            match index_of(old(self)@, label@) {
                Some(slot) => final(self)@ == old(self)@.update(
                    slot,
                    written(old(self)@[slot], state),
                ) && effect.is_some() && effect.unwrap()@ == effect_of(old(self)@[slot], state),
                None => final(self)@ == old(self)@ && effect.is_none(),
            },
    {
        proof {
            use_type_invariant(&*self);
        }
        match self.position(label) {
            Some(slot) => {
                let mut buttons = self.take_buttons();
                let ghost before = buttons@;
                let effect = buttons[slot].set_state(state);
                proof {
                    lemma_written_label(before[slot as int], state);
                    assert(buttons@ =~= before.update(slot as int, written(before[slot as int], state)));
                    assert(labels(buttons@) =~= labels(before));
                    lemma_same_labels_distinct(before, buttons@);
                }
                *self = ButtonPanel { buttons };
                Some(effect)
            },
            None => None,
        }
    }

    /// Writes `state` to every button, in the panel's order, and hands back
    /// what each write leaves to be carried out.
    pub fn write_all(&mut self, state: i32) -> (effects: Vec<WriteEffect>)
        ensures
            final(self)@ == written_all(old(self)@, state),
            effect_views(effects@) == effects_all(old(self)@, state),
    {
        proof {
            use_type_invariant(&*self);
        }
        let mut buttons = self.take_buttons();
        let ghost before = buttons@;
        let mut effects: Vec<WriteEffect> = Vec::new();
        let mut i: usize = 0;
        while i < buttons.len()
            invariant
                i <= buttons@.len(),
                buttons@.len() == before.len(),
                effects@.len() == i,
                forall|j: int| 0 <= j < i ==> buttons@[j] == written(before[j], state),
                forall|j: int| i <= j < before.len() ==> buttons@[j] == before[j],
                forall|j: int| 0 <= j < i ==> (#[trigger] effects@[j])@ == effect_of(before[j], state),
            decreases buttons@.len() - i,
        {
            let effect = buttons[i].set_state(state);
            effects.push(effect);
            i += 1;
        }
        proof {
            assert(buttons@ =~= written_all(before, state));
            assert(effect_views(effects@) =~= effects_all(before, state));
            assert(labels(buttons@) =~= labels(before)) by {
                assert forall|j: int| 0 <= j < before.len() implies labels(buttons@)[j] == labels(
                    before,
                )[j] by {
                    lemma_written_label(before[j], state);
                }
            }
            lemma_same_labels_distinct(before, buttons@);
        }
        *self = ButtonPanel { buttons };
        effects
    }

    /// Whether the panel has a button for every name in `names`.
    pub fn has_all(&self, names: &Vec<String>) -> (all: bool)
        ensures
            all == all_named(self@, name_views(names@)),
    {
        let mut k: usize = 0;
        while k < names.len()
            invariant
                k <= names@.len(),
                forall|n: int| 0 <= n < k ==> index_of(self@, #[trigger] name_views(names@)[n]).is_some(),
            decreases names@.len() - k,
        {
            if self.position(names[k].as_str()).is_none() {
                assert(index_of(self@, name_views(names@)[k as int]).is_none());
                return false;
            }
            k += 1;
        }
        true
    }

    /// Writes `state` to the button of each name in `names`, in their order,
    /// and hands back what each write leaves to be carried out. Where the
    /// panel lacks a button for one of the names, nothing is written.
    pub fn write_each(&mut self, names: &Vec<String>, state: i32) -> (effects: Option<
        Vec<WriteEffect>,
    >)
        ensures
            all_named(old(self)@, name_views(names@)) ==> final(self)@ == written_where(
                old(self)@,
                name_views(names@),
                state,
            ) && effects.is_some() && effect_views(effects.unwrap()@) == effects_where(
                old(self)@,
                name_views(names@),
                state,
            ),
            !all_named(old(self)@, name_views(names@)) ==> final(self)@ == old(self)@
                && effects.is_none(),
    {
        if !self.has_all(names) {
            return None;
        }
        proof {
            use_type_invariant(&*self);
        }
        let ghost before = self@;
        let ghost wanted = name_views(names@);
        let mut effects: Vec<WriteEffect> = Vec::new();
        let mut k: usize = 0;
        proof {
            assert(self@ =~= written_where(before, wanted.take(0), state));
        }
        while k < names.len()
            invariant
                k <= names@.len(),
                wanted == name_views(names@),
                distinct_labels(before),
                all_named(before, wanted),
                self@ == written_where(before, wanted.take(k as int), state),
                effects@.len() == k,
                forall|n: int|
                    0 <= n < k ==> (#[trigger] effects@[n])@ == effect_of(
                        before[index_of(before, wanted[n]).unwrap()],
                        state,
                    ),
            decreases names@.len() - k,
        {
            let ghost current = self@;
            let ghost label = wanted[k as int];
            proof {
                assert(labels(current) =~= labels(before)) by {
                    assert forall|j: int| 0 <= j < before.len() implies labels(current)[j]
                        == labels(before)[j] by {
                        lemma_written_label(before[j], state);
                    }
                }
                lemma_index_of_labels(before, current, label);
                assert(index_of(before, label).is_some());
            }
            let written_one = self.write(names[k].as_str(), state);
            let effect = written_one.unwrap();
            proof {
                let slot = index_of(before, label).unwrap();
                assert(named_at(before, slot, label));
                lemma_written_label(before[slot], state);
                lemma_written_over(before[slot], state, state);
                let upto = wanted.take(k as int + 1);
                assert(upto.drop_last() =~= wanted.take(k as int));
                assert(upto.last() == label);
                assert forall|j: int| 0 <= j < before.len() implies self@[j] == written_where(
                    before,
                    upto,
                    state,
                )[j] by {
                    let name = before[j].base()@.name;
                    if j == slot {
                        assert(upto[k as int] == name);
                    } else {
                        if name == label {
                            lemma_index_of(before, j);
                        }
                        if wanted.take(k as int).contains(name) {
                            let n = choose|n: int|
                                0 <= n < wanted.take(k as int).len() && wanted.take(k as int)[n]
                                    == name;
                            assert(upto[n] == name);
                        }
                        if upto.contains(name) {
                            let n = choose|n: int| 0 <= n < upto.len() && upto[n] == name;
                            assert(n < k);
                            assert(wanted.take(k as int)[n] == name);
                        }
                    }
                }
                assert(self@ =~= written_where(before, upto, state));
            }
            effects.push(effect);
            k += 1;
        }
        proof {
            assert(wanted.take(wanted.len() as int) =~= wanted);
            assert(effect_views(effects@) =~= effects_where(before, wanted, state));
        }
        Some(effects)
    }

    /// Whether the table has the parameter of every button.
    pub fn is_bound(&self, params: &ParamsState) -> (all: bool)
        ensures
            all == bound(self@, params@),
    {
        let mut i: usize = 0;
        while i < self.buttons.len()
            invariant
                i <= self.buttons@.len(),
                forall|j: int|
                    0 <= j < i ==> params@.contains_key(#[trigger] self.buttons@[j].base()@.dataref),
            decreases self.buttons@.len() - i,
        {
            if !params.contains_key(self.buttons[i].name()) {
                return false;
            }
            i += 1;
        }
        true
    }

    /// For each button, in the panel's order, the name of its parameter and
    /// the value that the table holds for it.
    pub fn report(&self, params: &ParamsState) -> (lines: Vec<(String, i32)>)
        requires
            bound(self@, params@),
        ensures
            pair_views(lines@) == report_lines(self@, params@),
    {
        let mut lines: Vec<(String, i32)> = Vec::new();
        let mut i: usize = 0;
        while i < self.buttons.len()
            invariant
                i <= self.buttons@.len(),
                bound(self.buttons@, params@),
                lines@.len() == i,
                forall|j: int|
                    0 <= j < i ==> (#[trigger] lines@[j]).0@ == self.buttons@[j].base()@.dataref
                        && lines@[j].1 == params@[self.buttons@[j].base()@.dataref],
            decreases self.buttons@.len() - i,
        {
            let button = &self.buttons[i];
            let state = button.get_state(params);
            lines.push((String::from_str(button.name()), state));
            i += 1;
        }
        proof {
            assert(pair_views(lines@) =~= report_lines(self@, params@));
        }
        lines
    }
}

/// Where a button is found depends on the names alone.
pub proof fn lemma_index_of_labels(before: Seq<PanelButton>, after: Seq<PanelButton>, label: Seq<char>)
    requires
        distinct_labels(before),
        labels(after) == labels(before),
    ensures
        index_of(after, label) == index_of(before, label),
{
    lemma_same_labels_distinct(before, after);
    assert(labels(after).len() == after.len());
    assert(labels(before).len() == before.len());
    if exists|slot: int| named_at(before, slot, label) {
        let slot = choose|slot: int| named_at(before, slot, label);
        assert(labels(after)[slot] == labels(before)[slot]);
        lemma_index_of(before, slot);
        lemma_index_of(after, slot);
    } else if exists|slot: int| named_at(after, slot, label) {
        let slot = choose|slot: int| named_at(after, slot, label);
        assert(labels(after)[slot] == labels(before)[slot]);
        assert(named_at(before, slot, label));
    }
}

/// A write on top of a write leaves what the second alone leaves.
pub proof fn lemma_written_over(button: PanelButton, first: i32, second: i32)
    ensures
        written(written(button, first), second) == written(button, second),
{
    button.lemma_rebased(button.base().with_state(first));
    button.base().lemma_with_state_twice(first, second);
}

/// Buttons with the names of buttons that have distinct names have distinct
/// names too.
pub proof fn lemma_same_labels_distinct(before: Seq<PanelButton>, after: Seq<PanelButton>)
    requires
        distinct_labels(before),
        labels(after) == labels(before),
    ensures
        distinct_labels(after),
{
    assert forall|i: int, j: int| 0 <= i < j < after.len() implies after[i].base()@.name
        != after[j].base()@.name by {
        assert(labels(after).len() == after.len());
        assert(labels(before).len() == before.len());
        assert(labels(after)[i] == labels(before)[i]);
        assert(labels(after)[j] == labels(before)[j]);
        assert(before[i].base()@.name != before[j].base()@.name);
    }
}

} // verus!
