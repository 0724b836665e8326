//! What holds of a panel under any run of its drivers.
//!
//! A driver works on the panel as a whole, one step at a time: a write to
//! every button, or a write to the buttons of some names. Whoever shares a
//! panel between drivers lets one writer or any number of readers at it at
//! a time, so what a reader sees is the panel after some number of whole
//! steps. The messages that the steps leave are applied to the table in the
//! order in which they were sent.

use crate::button::{message_of, written, AsButton, ButtonTrait, WriteEffectView};
use crate::panel::{
    bound, effects_all, lemma_written_label, lemma_written_over, report_lines, written_all,
    written_where, PanelButton,
};
use crate::propagation::{applied, last_write, lemma_last_write_was_sent, lemma_last_write_wins};
use vstd::prelude::*;

verus! {

/// One step of a driver that writes.
pub enum DriverWrite {
    /// `state` goes to every button.
    All { state: i32 },
    /// `state` goes to the buttons named in `names`.
    Named { names: Seq<Seq<char>>, state: i32 },
}

impl DriverWrite {
    /// The state that the step writes.
    pub open spec fn state(self) -> i32 {
        match self {
            DriverWrite::All { state } => state,
            DriverWrite::Named { state, .. } => state,
        }
    }

    /// The buttons after the step.
    pub open spec fn on(self, buttons: Seq<PanelButton>) -> Seq<PanelButton> {
        match self {
            DriverWrite::All { state } => written_all(buttons, state),
            DriverWrite::Named { names, state } => written_where(buttons, names, state),
        }
    }
}

/// The buttons after `steps`, first to last.
pub open spec fn after_steps(buttons: Seq<PanelButton>, steps: Seq<DriverWrite>) -> Seq<
    PanelButton,
>
    decreases steps.len(),
{
    if steps.len() == 0 {
        buttons
    } else {
        steps.last().on(after_steps(buttons, steps.drop_last()))
    }
}

/// The messages of a list of effects, in their order.
pub open spec fn messages_of(effects: Seq<WriteEffectView>) -> Seq<(Seq<char>, i32)> {
    Seq::new(effects.len(), |i: int| effects[i].message)
}

/// Whatever steps the drivers have made, and in whatever order, each button
/// on the panel is either as it was at first or as one whole write of one
/// of the steps leaves it: no state between two writes is ever there to be
/// seen. The panel has as many buttons as at first.
pub proof fn lemma_steps_leave_whole_writes(
    buttons: Seq<PanelButton>,
    steps: Seq<DriverWrite>,
    place: int,
)
    requires
        0 <= place < buttons.len(),
    ensures
        after_steps(buttons, steps).len() == buttons.len(),
        after_steps(buttons, steps)[place] == buttons[place] || exists|k: int|
            0 <= k < steps.len() && after_steps(buttons, steps)[place] == written(
                buttons[place],
                #[trigger] steps[k].state(),
            ),
    decreases steps.len(),
{
    if steps.len() > 0 {
        let front = steps.drop_last();
        let step = steps.last();
        let end = steps.len() - 1;
        let before = after_steps(buttons, front);
        lemma_steps_leave_whole_writes(buttons, front, place);
        let now = step.on(before)[place];
        if now == before[place] {
            if before[place] != buttons[place] {
                let k = choose|k: int|
                    0 <= k < front.len() && before[place] == written(
                        buttons[place],
                        #[trigger] front[k].state(),
                    );
                assert(steps[k] == front[k]);
            }
        } else {
            assert(now == written(before[place], step.state()));
            if before[place] != buttons[place] {
                let k = choose|k: int|
                    0 <= k < front.len() && before[place] == written(
                        buttons[place],
                        #[trigger] front[k].state(),
                    );
                lemma_written_over(buttons[place], front[k].state(), step.state());
            }
            assert(now == written(buttons[place], steps[end].state()));
        }
    }
}

/// Whatever steps the drivers have made, every button keeps its name, its
/// parameter and its kind's log line.
pub proof fn lemma_steps_keep_identity(
    buttons: Seq<PanelButton>,
    steps: Seq<DriverWrite>,
    place: int,
)
    requires
        0 <= place < buttons.len(),
    ensures
        after_steps(buttons, steps).len() == buttons.len(),
        after_steps(buttons, steps)[place].base()@.name == buttons[place].base()@.name,
        after_steps(buttons, steps)[place].base()@.dataref == buttons[place].base()@.dataref,
        after_steps(buttons, steps)[place].audit() == buttons[place].audit(),
{
    lemma_steps_leave_whole_writes(buttons, steps, place);
    if after_steps(buttons, steps)[place] != buttons[place] {
        let k = choose|k: int|
            0 <= k < steps.len() && after_steps(buttons, steps)[place] == written(
                buttons[place],
                #[trigger] steps[k].state(),
            );
        lemma_written_label(buttons[place], steps[k].state());
    }
}

/// Once the messages of a write to every button have all been applied, the
/// table holds the written state for every button's parameter, so a report
/// shows that state for each of them. The table's names are as before.
pub proof fn lemma_report_follows_write(
    buttons: Seq<PanelButton>,
    table: Map<Seq<char>, i32>,
    state: i32,
)
    requires
        bound(buttons, table),
    ensures
        bound(
            written_all(buttons, state),
            applied(table, messages_of(effects_all(buttons, state))),
        ),
        report_lines(
            written_all(buttons, state),
            applied(table, messages_of(effects_all(buttons, state))),
        ) == Seq::new(buttons.len(), |i: int| (buttons[i].base()@.dataref, state)),
{
    let sent = messages_of(effects_all(buttons, state));
    let after = applied(table, sent);
    assert forall|i: int| 0 <= i < buttons.len() implies after.contains_key(
        buttons[i].base()@.dataref,
    ) && after[buttons[i].base()@.dataref] == state && written_all(
        buttons,
        state,
    )[i].base()@.dataref == buttons[i].base()@.dataref by {
        let key = buttons[i].base()@.dataref;
        lemma_written_label(buttons[i], state);
        lemma_last_write_was_sent(sent, key);
        lemma_last_write_wins(table, sent, key);
        assert(sent[i] == message_of(buttons[i], state));
        assert(sent[i].0 == key);
        match last_write(sent, key) {
            Some(value) => {
                let n = choose|n: int| 0 <= n < sent.len() && sent[n] == (key, value);
                assert(sent[n] == message_of(buttons[n], state));
            },
            None => {},
        }
    }
    assert(bound(written_all(buttons, state), after)) by {
        assert forall|i: int| 0 <= i < written_all(buttons, state).len() implies after.contains_key(
            #[trigger] written_all(buttons, state)[i].base()@.dataref,
        ) by {
            assert(after.contains_key(buttons[i].base()@.dataref));
        }
    }
    assert(report_lines(written_all(buttons, state), after) =~= Seq::new(
        buttons.len(),
        |i: int| (buttons[i].base()@.dataref, state),
    ));
}

} // verus!
