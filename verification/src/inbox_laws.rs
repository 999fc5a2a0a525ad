//! What holds of mailboxes over any run of sends, and of a broadcast.

use crate::inbox::{
    after_broadcast, after_consume, after_create, after_send, all_consumed, consumed,
    fresh_message, lemma_unread_push, log_of, unread, MessageView,
};
use vstd::prelude::*;

verus! {

/// The mailboxes after the messages were sent to `to` one after the other,
/// the first of `messages` first.
pub open spec fn after_sends(
    boxes: Map<Seq<char>, Seq<MessageView>>,
    to: Seq<char>,
    messages: Seq<MessageView>,
) -> Map<Seq<char>, Seq<MessageView>>
    decreases messages.len(),
{
    if messages.len() == 0 {
        boxes
    } else {
        after_send(after_sends(boxes, to, messages.drop_last()), to, messages.last())
    }
}

/// Sends append: the recipient's log grows by the messages in the order of
/// sending, and no other log changes.
pub proof fn lemma_sends_append(
    boxes: Map<Seq<char>, Seq<MessageView>>,
    to: Seq<char>,
    messages: Seq<MessageView>,
)
    ensures
        log_of(after_sends(boxes, to, messages), to) == log_of(boxes, to) + messages,
        forall|agent: Seq<char>|
            agent != to ==> #[trigger] log_of(after_sends(boxes, to, messages), agent) == log_of(
                boxes,
                agent,
            ),
    decreases messages.len(),
{
    if messages.len() == 0 {
        assert(log_of(boxes, to) + messages =~= log_of(boxes, to));
    } else {
        let earlier = after_sends(boxes, to, messages.drop_last());
        lemma_sends_append(boxes, to, messages.drop_last());
        assert((log_of(boxes, to) + messages.drop_last()).push(messages.last()) =~= log_of(boxes, to)
            + messages);
        assert forall|agent: Seq<char>| agent != to implies #[trigger] log_of(
            after_sends(boxes, to, messages),
            agent,
        ) == log_of(boxes, agent) by {
            assert(log_of(earlier, agent) == log_of(boxes, agent));
        }
    }
}

/// Unread messages that are appended to a log stay unread, behind those
/// that were unread before.
pub proof fn lemma_unread_append(log: Seq<MessageView>, messages: Seq<MessageView>)
    requires
        forall|i: int| 0 <= i < messages.len() ==> !(#[trigger] messages[i]).read,
    ensures
        unread(log + messages) == unread(log) + messages,
    decreases messages.len(),
{
    if messages.len() == 0 {
        assert(log + messages =~= log);
        assert(unread(log) + messages =~= unread(log));
    } else {
        let earlier = messages.drop_last();
        lemma_unread_append(log, earlier);
        lemma_unread_push(log + earlier, messages.last());
        assert((log + earlier).push(messages.last()) =~= log + messages);
        assert((unread(log) + earlier).push(messages.last()) =~= unread(log) + messages);
    }
}

/// A log that was consumed holds no unread message.
pub proof fn lemma_consumed_log_is_read(log: Seq<MessageView>)
    ensures
        unread(all_consumed(log)).len() == 0,
{
    let read = all_consumed(log);
    if unread(read).len() > 0 {
        let first = unread(read)[0];
        read.lemma_filter_pred(|message: MessageView| !message.read, 0);
        read.lemma_filter_contains_rev(|message: MessageView| !message.read, first);
        let i = choose|i: int| 0 <= i < read.len() && read[i] == first;
        assert(read[i].read);
    }
}

/// Read once: after any run of unread messages was sent to an agent, what
/// the agent consumes is what was unread in its log before, then the sent
/// messages in the order of sending; so exactly the sent messages where
/// nothing was unread before. Consuming once more right away yields nothing.
pub proof fn lemma_read_once(
    boxes: Map<Seq<char>, Seq<MessageView>>,
    agent: Seq<char>,
    sent: Seq<MessageView>,
)
    requires
        forall|i: int| 0 <= i < sent.len() ==> !(#[trigger] sent[i]).read,
    ensures
        unread(log_of(after_sends(boxes, agent, sent), agent)) == unread(log_of(boxes, agent)) + sent,
        unread(log_of(boxes, agent)).len() == 0 ==> unread(
            log_of(after_sends(boxes, agent, sent), agent),
        ) == sent,
        unread(log_of(after_consume(after_sends(boxes, agent, sent), agent), agent)).len() == 0,
{
    lemma_sends_append(boxes, agent, sent);
    lemma_unread_append(log_of(boxes, agent), sent);
    if unread(log_of(boxes, agent)).len() == 0 {
        assert(unread(log_of(boxes, agent)) + sent =~= sent);
    }
    lemma_consume_twice(after_sends(boxes, agent, sent), agent);
}

/// After an agent consumed its unread messages it has none, and consuming
/// again changes nothing.
pub proof fn lemma_consume_twice(boxes: Map<Seq<char>, Seq<MessageView>>, agent: Seq<char>)
    ensures
        unread(log_of(after_consume(boxes, agent), agent)).len() == 0,
        after_consume(after_consume(boxes, agent), agent) == after_consume(boxes, agent),
{
    lemma_consumed_log_is_read(log_of(boxes, agent));
}

/// Broadcast exclusion: a broadcast that leaves out its sender adds exactly
/// the one message to the log of every other agent that has a mailbox and
/// leaves the sender's log as it is; no mailbox comes or goes.
pub proof fn lemma_broadcast_excludes_sender(
    boxes: Map<Seq<char>, Seq<MessageView>>,
    from: Seq<char>,
    content: Seq<char>,
    timestamp: Seq<char>,
)
    ensures
        after_broadcast(boxes, from, content, true, timestamp).dom() == boxes.dom(),
        log_of(after_broadcast(boxes, from, content, true, timestamp), from) == log_of(boxes, from),
        forall|agent: Seq<char>|
            boxes.contains_key(agent) && agent != from ==> #[trigger] after_broadcast(
                boxes,
                from,
                content,
                true,
                timestamp,
            )[agent] == boxes[agent].push(fresh_message(from, content, timestamp)),
{
    assert(after_broadcast(boxes, from, content, true, timestamp).dom() =~= boxes.dom());
}

/// A broadcast that includes its sender adds exactly the one message to
/// every log, the sender's too.
pub proof fn lemma_broadcast_reaches_all(
    boxes: Map<Seq<char>, Seq<MessageView>>,
    from: Seq<char>,
    content: Seq<char>,
    timestamp: Seq<char>,
)
    ensures
        after_broadcast(boxes, from, content, false, timestamp).dom() == boxes.dom(),
        forall|agent: Seq<char>|
            boxes.contains_key(agent) ==> #[trigger] after_broadcast(
                boxes,
                from,
                content,
                false,
                timestamp,
            )[agent] == boxes[agent].push(fresh_message(from, content, timestamp)),
{
    assert(after_broadcast(boxes, from, content, false, timestamp).dom() =~= boxes.dom());
}

/// `after` holds every message of `before` in its place, as it was or
/// marked as read, and maybe more messages behind them.
pub open spec fn keeps_log(before: Seq<MessageView>, after: Seq<MessageView>) -> bool {
    &&& before.len() <= after.len()
    &&& forall|i: int|
        0 <= i < before.len() ==> (#[trigger] after[i]) == before[i] || after[i] == consumed(
            before[i],
        )
}

/// Every mailbox of `before` is a mailbox of `after` that keeps its log.
pub open spec fn keeps_mailboxes(
    before: Map<Seq<char>, Seq<MessageView>>,
    after: Map<Seq<char>, Seq<MessageView>>,
) -> bool {
    forall|agent: Seq<char>| #[trigger]
        before.contains_key(agent) ==> after.contains_key(agent) && keeps_log(
            before[agent],
            after[agent],
        )
}

/// Nothing is lost: creating a mailbox, sending, consuming and
/// broadcasting remove no mailbox and no message, change no message but
/// for its mark, and never take the mark off a message that was read.
pub proof fn lemma_mailboxes_are_kept(
    boxes: Map<Seq<char>, Seq<MessageView>>,
    agent: Seq<char>,
    message: MessageView,
    from: Seq<char>,
    content: Seq<char>,
    exclude_self: bool,
    timestamp: Seq<char>,
)
    ensures
        keeps_mailboxes(boxes, after_create(boxes, agent)),
        keeps_mailboxes(boxes, after_send(boxes, agent, message)),
        keeps_mailboxes(boxes, after_consume(boxes, agent)),
        keeps_mailboxes(boxes, after_broadcast(boxes, from, content, exclude_self, timestamp)),
{
}

} // verus!
