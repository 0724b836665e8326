//! The consuming end of the propagation channel: each message that arrives
//! overwrites one parameter of the table, in the order of arrival.

use crate::button::{message_of, AsButton};
use crate::params::ParamsState;
use crate::text::pair_views;
use vstd::prelude::*;

verus! {

/// The table after `messages` have been applied to it, first to last.
pub open spec fn applied(table: Map<Seq<char>, i32>, messages: Seq<(Seq<char>, i32)>) -> Map<
    Seq<char>,
    i32,
>
    decreases messages.len(),
{
    if messages.len() == 0 {
        table
    } else {
        applied(table, messages.drop_last()).insert(messages.last().0, messages.last().1)
    }
}

/// Whether every message names a parameter that the table has.
pub open spec fn all_known(table: Map<Seq<char>, i32>, messages: Seq<(Seq<char>, i32)>) -> bool {
    forall|i: int| 0 <= i < messages.len() ==> table.contains_key(#[trigger] messages[i].0)
}

/// The value of the last message for `key`, if any message is for it.
pub open spec fn last_write(messages: Seq<(Seq<char>, i32)>, key: Seq<char>) -> Option<i32>
    decreases messages.len(),
{
    if messages.len() == 0 {
        None
    } else if messages.last().0 == key {
        Some(messages.last().1)
    } else {
        last_write(messages.drop_last(), key)
    }
}

/// The messages that one button sends when `values` are written to it in
/// order.
pub open spec fn writes<B: AsButton>(button: B, values: Seq<i32>) -> Seq<(Seq<char>, i32)> {
    Seq::new(values.len(), |i: int| message_of(button, values[i]))
}

/// Applies one message: the parameter it names gets its value.
pub fn apply(params: &mut ParamsState, message: &(String, i32))
    requires
        old(params)@.contains_key(message.0@),
    ensures
        final(params)@ == old(params)@.insert(message.0@, message.1),
{
    params.set(message.0.as_str(), message.1);
}

/// Applies a batch of messages, first to last.
pub fn apply_all(params: &mut ParamsState, messages: &Vec<(String, i32)>)
    requires
        all_known(old(params)@, pair_views(messages@)),
    ensures
        final(params)@ == applied(old(params)@, pair_views(messages@)),
{
    let ghost views = pair_views(messages@);
    let mut i: usize = 0;
    while i < messages.len()
        invariant
            i <= messages@.len(),
            views == pair_views(messages@),
            all_known(old(params)@, views),
            params@ == applied(old(params)@, views.take(i as int)),
        decreases messages@.len() - i,
    {
        proof {
            lemma_applied_keeps_names(old(params)@, views.take(i as int));
            assert(views[i as int].0 == messages@[i as int].0@);
            let upto = views.take(i as int + 1);
            assert(upto.drop_last() =~= views.take(i as int));
            assert(upto.last() == views[i as int]);
        }
        apply(params, &messages[i]);
        i += 1;
    }
    proof {
        assert(views.take(views.len() as int) =~= views);
    }
}

/// Messages for parameters that the table has leave its names as they were:
/// applying them adds no name and removes none.
pub proof fn lemma_applied_keeps_names(table: Map<Seq<char>, i32>, messages: Seq<(Seq<char>, i32)>)
    requires
        all_known(table, messages),
    ensures
        applied(table, messages).dom() == table.dom(),
    decreases messages.len(),
{
    if messages.len() > 0 {
        let front = messages.drop_last();
        assert(all_known(table, front)) by {
            assert forall|i: int| 0 <= i < front.len() implies table.contains_key(
                #[trigger] front[i].0,
            ) by {
                assert(front[i] == messages[i]);
            }
        }
        lemma_applied_keeps_names(table, front);
        assert(table.contains_key(messages[messages.len() - 1].0));
        assert(applied(table, messages).dom() =~= table.dom());
    }
}

/// After any batch, a parameter holds the value of the last message for it,
/// and its earlier value where no message was for it.
pub proof fn lemma_last_write_wins(
    table: Map<Seq<char>, i32>,
    messages: Seq<(Seq<char>, i32)>,
    key: Seq<char>,
)
    ensures
        match last_write(messages, key) {
            Some(value) => applied(table, messages).contains_key(key) && applied(
                table,
                messages,
            )[key] == value,
            None => applied(table, messages).contains_key(key) == table.contains_key(key) && (
            table.contains_key(key) ==> applied(table, messages)[key] == table[key]),
        },
    decreases messages.len(),
{
    if messages.len() > 0 {
        lemma_last_write_wins(table, messages.drop_last(), key);
    }
}

/// The last message for a parameter is one of the messages of the batch: a
/// parameter never takes a value that was not sent for it.
pub proof fn lemma_last_write_was_sent(messages: Seq<(Seq<char>, i32)>, key: Seq<char>)
    ensures
        match last_write(messages, key) {
            Some(value) => exists|i: int| 0 <= i < messages.len() && messages[i] == (key, value),
            None => forall|i: int| 0 <= i < messages.len() ==> (#[trigger] messages[i]).0 != key,
        },
    decreases messages.len(),
{
    if messages.len() > 0 {
        let front = messages.drop_last();
        let end = messages.len() - 1;
        lemma_last_write_was_sent(front, key);
        match last_write(messages, key) {
            Some(value) => {
                if messages.last().0 == key {
                    assert(messages[end] == (key, value));
                } else {
                    let i = choose|i: int| 0 <= i < front.len() && front[i] == (key, value);
                    assert(messages[i] == (key, value));
                }
            },
            None => {
                assert forall|i: int| 0 <= i < messages.len() implies (#[trigger] messages[i]).0
                    != key by {
                    if i < end {
                        assert(front[i] == messages[i]);
                    }
                }
            },
        }
    }
}

/// Writes of `values` to one button, applied in the order in which they
/// were made: once the first `count` messages are consumed, the button's
/// parameter holds the last of those values, and before the first is
/// consumed the table is as it was. So the parameter ends with the last
/// value written, and on the way it holds no value but its first one and
/// those that were written.
pub proof fn lemma_writes_arrive_in_order<B: AsButton>(
    table: Map<Seq<char>, i32>,
    button: B,
    values: Seq<i32>,
    count: int,
)
    requires
        0 <= count <= values.len(),
    ensures
        count == 0 ==> applied(table, writes(button, values).take(count)) == table,
        count > 0 ==> applied(table, writes(button, values).take(count)).contains_key(
            button.base()@.dataref,
        ),
        count > 0 ==> applied(table, writes(button, values).take(count))[button.base()@.dataref]
            == values[count - 1],
    decreases count,
{
    let sent = writes(button, values).take(count);
    if count > 0 {
        lemma_writes_arrive_in_order(table, button, values, count - 1);
        assert(sent.drop_last() =~= writes(button, values).take(count - 1));
        assert(sent.last() == message_of(button, values[count - 1]));
    }
}

/// Writes to one button reach no parameter but the button's own: every
/// other name of the table keeps its value, and no name is added.
pub proof fn lemma_writes_touch_one_name<B: AsButton>(
    table: Map<Seq<char>, i32>,
    button: B,
    values: Seq<i32>,
    key: Seq<char>,
)
    requires
        key != button.base()@.dataref,
    ensures
        applied(table, writes(button, values)).contains_key(key) == table.contains_key(key),
        table.contains_key(key) ==> applied(table, writes(button, values))[key] == table[key],
{
    let sent = writes(button, values);
    lemma_last_write_was_sent(sent, key);
    if last_write(sent, key).is_some() {
        let value = last_write(sent, key).unwrap();
        let i = choose|i: int| 0 <= i < sent.len() && sent[i] == (key, value);
        assert(sent[i] == message_of(button, values[i]));
    }
    lemma_last_write_wins(table, sent, key);
}

} // verus!
