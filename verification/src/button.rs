//! Buttons: the shared base, the capabilities that every kind offers, and the
//! two coloured kinds built over the base.
//!
//! A button keeps its own copy of its state. A write replaces that copy and
//! yields the message `(dataref, state)` for the propagation channel; the
//! table of parameters follows once the message has been applied to it. A
//! read (`get_state`) asks the table, not the button's own copy, and a
//! button identifies itself (`name`) by its parameter's name.

use crate::params::ParamsState;
use vstd::prelude::*;
use vstd::string::StringExecFns;

verus! {

/// What a button is, as plain values.
pub struct ButtonView {
    pub name: Seq<char>,
    pub state: i32,
    pub dataref: Seq<char>,
}

/// What a write leaves to be carried out, as plain values.
pub struct WriteEffectView {
    pub message: (Seq<char>, i32),
    pub audit: Option<Seq<char>>,
}

/// What a coloured button is, as plain values.
pub struct ColouredView {
    pub button: ButtonView,
    pub color: Seq<char>,
}

/// The base of every button: its name on the panel, its own copy of its
/// state, and the parameter that its state is propagated to.
pub struct Button {
    name: String,
    state: i32,
    dataref: String,
}

impl View for Button {
    type V = ButtonView;

    closed spec fn view(&self) -> ButtonView {
        ButtonView { name: self.name@, state: self.state, dataref: self.dataref@ }
    }
}

/// What one write leaves for the caller to carry out: the message for the
/// propagation channel, and the line that the button's kind wants logged.
pub struct WriteEffect {
    pub message: (String, i32),
    pub audit: Option<String>,
}

impl View for WriteEffect {
    type V = WriteEffectView;

    open spec fn view(&self) -> WriteEffectView {
        WriteEffectView {
            message: (self.message.0@, self.message.1),
            audit: match self.audit {
                Some(line) => Some(line@),
                None => None,
            },
        }
    }
}

impl Button {
    /// A button named `name`, in state `state`, bound to the parameter
    /// `dataref`.
    pub fn new(name: &str, state: i32, dataref: &str) -> (button: Button)
        ensures
            button@ == (ButtonView { name: name@, state, dataref: dataref@ }),
    {
        Button { name: String::from_str(name), state, dataref: String::from_str(dataref) }
    }

    /// The button with its own state replaced by `state`.
    pub closed spec fn with_state(self, state: i32) -> Button {
        Button { name: self.name, state, dataref: self.dataref }
    }

    /// Replacing the state changes neither the name nor the parameter.
    pub broadcast proof fn lemma_with_state(self, state: i32)
        ensures
            #[trigger] self.with_state(state)@ == (ButtonView { state, ..self@ }),
    {
    }

    /// Of two states set one after the other, the second stays.
    pub broadcast proof fn lemma_with_state_twice(self, first: i32, second: i32)
        ensures
            #[trigger] self.with_state(first).with_state(second) == self.with_state(second),
    {
    }

    /// The button's name on the panel.
    pub fn label(&self) -> (label: &str)
        ensures
            label@ == self@.name,
    {
        self.name.as_str()
    }

    /// The button's own copy of its state: the value last written to it.
    pub fn local_state(&self) -> (state: i32)
        ensures
            state == self@.state,
    {
        self.state
    }
}

/// Access to the base of a button of any kind.
pub trait AsButton: Sized {
    /// The base that this button is built over.
    spec fn base(&self) -> Button;

    /// This button with its base replaced by `button`.
    spec fn rebased(&self, button: Button) -> Self;

    /// The base of a rebased button is the base it was given.
    proof fn lemma_rebased(&self, button: Button)
        ensures
            self.rebased(button).base() == button,
    ;

    /// The base, to read.
    fn as_button(&self) -> (button: &Button)
        ensures
            *button == self.base(),
    ;

    /// The base, to change: what is done to it is done to this button's
    /// base, and to nothing else of this button.
    fn as_button_mut(&mut self) -> (button: &mut Button)
        ensures
            *button == old(self).base(),
            *final(self) == old(self).rebased(*final(button)),
    ;
}

/// The button that a write of `state` makes of `button`: its base has the
/// new state, and nothing else differs.
pub open spec fn written<B: AsButton>(button: B, state: i32) -> B {
    button.rebased(button.base().with_state(state))
}

/// The message that a write of `state` to `button` sends: the name of the
/// button's parameter, and the state.
pub open spec fn message_of<B: AsButton>(button: B, state: i32) -> (Seq<char>, i32) {
    (button.base()@.dataref, state)
}

/// What every kind of button can do.
pub trait ButtonTrait: AsButton {
    /// The line that a write to this button asks to have logged, if its kind
    /// logs anything.
    spec fn audit(&self) -> Option<Seq<char>>;

    /// The value that the table holds for this button's parameter.
    fn get_state(&self, params: &ParamsState) -> (state: i32)
        requires
            params@.contains_key(self.base()@.dataref),
        ensures
            state == params@[self.base()@.dataref],
    {
        let btn = self.as_button();
        params.get(btn.dataref.as_str())
    }

    /// The name of the parameter that this button is bound to.
    fn name(&self) -> (name: &str)
        ensures
            name@ == self.base()@.dataref,
    {
        let btn = self.as_button();
        btn.dataref.as_str()
    }

    /// Replaces the button's own state by `state` and hands back what is
    /// left to carry out. Whatever a kind adds, the button's base ends as a
    /// plain button's would, and the message is the one that a plain button
    /// would send.
    fn set_state(&mut self, state: i32) -> (effect: WriteEffect)
        ensures
            *final(self) == written(*old(self), state),
            effect@ == (WriteEffectView {
                message: message_of(*old(self), state),
                audit: old(self).audit(),
            }),
    ;
}

impl AsButton for Button {
    open spec fn base(&self) -> Button {
        *self
    }

    open spec fn rebased(&self, button: Button) -> Button {
        button
    }

    proof fn lemma_rebased(&self, button: Button) {
    }

    fn as_button(&self) -> (button: &Button) {
        self
    }

    fn as_button_mut(&mut self) -> (button: &mut Button) {
        self
    }
}

impl ButtonTrait for Button {
    open spec fn audit(&self) -> Option<Seq<char>> {
        None
    }

    fn set_state(&mut self, state: i32) -> (effect: WriteEffect) {
        self.state = state;
        WriteEffect { message: (self.dataref.clone(), state), audit: None }
    }
}

/// The suffix of the line that a red button logs on each write.
pub open spec fn override_suffix() -> Seq<char> {
    " button set_state override"@
}

/// A red button: on each write it also asks for a line to be logged.
pub struct RedButton {
    pub button: Button,
    pub color: String,
}

impl View for RedButton {
    type V = ColouredView;

    open spec fn view(&self) -> ColouredView {
        ColouredView { button: self.button@, color: self.color@ }
    }
}

impl RedButton {
    /// The red button of the panel: `red_btn`, in state 0, bound to the
    /// parameter `red_dataref`.
    pub fn new() -> (red: RedButton)
        ensures
            red@ == (ColouredView {
                button: ButtonView { name: "red_btn"@, state: 0, dataref: "red_dataref"@ },
                color: "red"@,
            }),
    {
        RedButton { button: Button::new("red_btn", 0, "red_dataref"), color: String::from_str("red") }
    }

    /// A red button over the base `button`.
    pub fn over(button: Button) -> (red: RedButton)
        ensures
            red.button == button,
            red.color@ == "red"@,
    {
        RedButton { button, color: String::from_str("red") }
    }
}

impl AsButton for RedButton {
    open spec fn base(&self) -> Button {
        self.button
    }

    open spec fn rebased(&self, button: Button) -> RedButton {
        RedButton { button, color: self.color }
    }

    proof fn lemma_rebased(&self, button: Button) {
    }

    fn as_button(&self) -> (button: &Button) {
        &self.button
    }

    fn as_button_mut(&mut self) -> (button: &mut Button) {
        &mut self.button
    }
}

impl ButtonTrait for RedButton {
    open spec fn audit(&self) -> Option<Seq<char>> {
        Some(self.color@ + override_suffix())
    }

    /// Writes as a plain button does, then adds the line to log.
    fn set_state(&mut self, state: i32) -> (effect: WriteEffect) {
        let written = self.as_button_mut().set_state(state);
        let line = self.color.clone().concat(" button set_state override");
        WriteEffect { message: written.message, audit: Some(line) }
    }
}

/// A green button: it behaves as a plain button does.
pub struct GreenButton {
    pub button: Button,
    pub color: String,
}

impl View for GreenButton {
    type V = ColouredView;

    open spec fn view(&self) -> ColouredView {
        ColouredView { button: self.button@, color: self.color@ }
    }
}

impl GreenButton {
    /// The green button of the panel: `green_btn`, in state 0, bound to the
    /// parameter `green_dataref`.
    pub fn new() -> (green: GreenButton)
        ensures
            green@ == (ColouredView {
                button: ButtonView { name: "green_btn"@, state: 0, dataref: "green_dataref"@ },
                color: "green"@,
            }),
    {
        GreenButton {
            button: Button::new("green_btn", 0, "green_dataref"),
            color: String::from_str("green"),
        }
    }

    /// A green button over the base `button`.
    pub fn over(button: Button) -> (green: GreenButton)
        ensures
            green.button == button,
            green.color@ == "green"@,
    {
        GreenButton { button, color: String::from_str("green") }
    }
}

impl AsButton for GreenButton {
    open spec fn base(&self) -> Button {
        self.button
    }

    open spec fn rebased(&self, button: Button) -> GreenButton {
        GreenButton { button, color: self.color }
    }

    proof fn lemma_rebased(&self, button: Button) {
    }

    fn as_button(&self) -> (button: &Button) {
        &self.button
    }

    fn as_button_mut(&mut self) -> (button: &mut Button) {
        &mut self.button
    }
}

impl ButtonTrait for GreenButton {
    open spec fn audit(&self) -> Option<Seq<char>> {
        None
    }

    /// Writes as a plain button does, and adds nothing.
    fn set_state(&mut self, state: i32) -> (effect: WriteEffect) {
        self.as_button_mut().set_state(state)
    }
}

/// What a write of `state` to `button` leaves to be carried out: the message
/// to send, and the line that the button's kind logs.
pub open spec fn effect_of<B: ButtonTrait>(button: B, state: i32) -> WriteEffectView {
    WriteEffectView { message: message_of(button, state), audit: button.audit() }
}

/// A write to a button of any kind leaves its base as the same write leaves
/// a plain button with that base, and sends the message that the plain
/// button would send: what a kind layers over the write changes neither.
pub proof fn lemma_write_as_base<B: ButtonTrait>(button: B, state: i32)
    ensures
        written(button, state).base() == written(button.base(), state),
        written(button, state).base()@ == (ButtonView { state, ..button.base()@ }),
        message_of(button, state) == message_of(button.base(), state),
{
    button.lemma_rebased(button.base().with_state(state));
    button.base().lemma_with_state(state);
}

} // verus!
