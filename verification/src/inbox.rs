//! The mailboxes of one team: for each agent a log of messages, appended
//! to by senders and read once by the agent.

use crate::clock::now_rfc3339;
use crate::name_table::NameTable;
use crate::paths::{join_path, json_file, json_file_name, path_join};
use vstd::prelude::*;
use vstd::string::*;

verus! {

/// One message in an agent's mailbox.
#[derive(Debug, PartialEq, Eq)]
pub struct InboxMessage {
    pub from: String,
    /// When the message was sent, as an RFC 3339 text.
    pub timestamp: String,
    pub content: String,
    /// Whether the recipient has consumed the message.
    pub read: bool,
}

/// What a message is, as plain values.
pub struct MessageView {
    pub from: Seq<char>,
    pub timestamp: Seq<char>,
    pub content: Seq<char>,
    pub read: bool,
}

impl View for InboxMessage {
    type V = MessageView;

    open spec fn view(&self) -> MessageView {
        MessageView {
            from: self.from@,
            timestamp: self.timestamp@,
            content: self.content@,
            read: self.read,
        }
    }
}

impl Clone for InboxMessage {
    fn clone(&self) -> (copy: Self)
        ensures
            copy@ == self@,
    {
        InboxMessage {
            from: self.from.clone(),
            timestamp: self.timestamp.clone(),
            content: self.content.clone(),
            read: self.read,
        }
    }
}

/// The views of a run of messages, in order.
pub open spec fn message_views(messages: Seq<InboxMessage>) -> Seq<MessageView> {
    Seq::new(messages.len(), |i: int| messages[i]@)
}

/// The messages of a log that were not consumed yet, oldest first.
pub open spec fn unread(log: Seq<MessageView>) -> Seq<MessageView> {
    log.filter(|message: MessageView| !message.read)
}

/// The unread messages of a log with one message more.
pub proof fn lemma_unread_push(log: Seq<MessageView>, message: MessageView)
    ensures
        unread(log.push(message)) == if message.read {
            unread(log)
        } else {
            unread(log).push(message)
        },
{
    log.lemma_filter_push(message, |message: MessageView| !message.read);
}

/// A log without unread messages is empty or consumed: consuming it again
/// changes nothing.
pub proof fn lemma_unread_none(log: Seq<MessageView>)
    requires
        unread(log).len() == 0,
    ensures
        all_consumed(log) == log,
{
    assert forall|i: int| 0 <= i < log.len() implies consumed(log[i]) == log[i] by {
        if !log[i].read {
            log.lemma_filter_contains(|message: MessageView| !message.read, i);
            assert(unread(log).contains(log[i]));
        }
    }
    assert(all_consumed(log) =~= log);
}

/// `message` once it was consumed.
pub open spec fn consumed(message: MessageView) -> MessageView {
    MessageView { read: true, ..message }
}

/// A log once all its messages were consumed.
pub open spec fn all_consumed(log: Seq<MessageView>) -> Seq<MessageView> {
    Seq::new(log.len(), |i: int| consumed(log[i]))
}

/// The log that `boxes` holds for `agent`: an agent without a mailbox has
/// the empty log.
pub open spec fn log_of(boxes: Map<Seq<char>, Seq<MessageView>>, agent: Seq<char>) -> Seq<
    MessageView,
> {
    if boxes.contains_key(agent) {
        boxes[agent]
    } else {
        Seq::empty()
    }
}

/// The mailboxes once `agent` has one: its own where it had one, an empty
/// one else.
pub open spec fn after_create(boxes: Map<Seq<char>, Seq<MessageView>>, agent: Seq<char>) -> Map<
    Seq<char>,
    Seq<MessageView>,
> {
    if boxes.contains_key(agent) {
        boxes
    } else {
        boxes.insert(agent, Seq::empty())
    }
}

/// The mailboxes after `message` was sent to `to`.
pub open spec fn after_send(
    boxes: Map<Seq<char>, Seq<MessageView>>,
    to: Seq<char>,
    message: MessageView,
) -> Map<Seq<char>, Seq<MessageView>> {
    boxes.insert(to, log_of(boxes, to).push(message))
}

/// The mailboxes after `agent` consumed its unread messages.
pub open spec fn after_consume(boxes: Map<Seq<char>, Seq<MessageView>>, agent: Seq<char>) -> Map<
    Seq<char>,
    Seq<MessageView>,
> {
    if unread(log_of(boxes, agent)).len() > 0 {
        boxes.insert(agent, all_consumed(log_of(boxes, agent)))
    } else {
        boxes
    }
}

/// A message as it is sent: not read yet.
pub open spec fn fresh_message(
    from: Seq<char>,
    content: Seq<char>,
    timestamp: Seq<char>,
) -> MessageView {
    MessageView { from, timestamp, content, read: false }
}

/// Whether a broadcast from `from` is delivered to `agent`.
pub open spec fn receives(agent: Seq<char>, from: Seq<char>, exclude_self: bool) -> bool {
    !(exclude_self && agent == from)
}

/// The mailboxes after a broadcast: every mailbox that receives it has the
/// one message more, and no mailbox comes or goes.
pub open spec fn after_broadcast(
    boxes: Map<Seq<char>, Seq<MessageView>>,
    from: Seq<char>,
    content: Seq<char>,
    exclude_self: bool,
    timestamp: Seq<char>,
) -> Map<Seq<char>, Seq<MessageView>> {
    Map::new(
        |agent: Seq<char>| boxes.contains_key(agent),
        |agent: Seq<char>|
            if receives(agent, from, exclude_self) {
                boxes[agent].push(fresh_message(from, content, timestamp))
            } else {
                boxes[agent]
            },
    )
}

/// A message as a block of text that names its sender.
pub open spec fn tag_of(message: MessageView) -> Seq<char> {
    "<teammate-message from=\""@ + message.from + "\">\n"@ + message.content
        + "\n</teammate-message>"@
}

/// The blocks of the messages, in order, with an empty line between one
/// block and the next.
pub open spec fn tags_of(messages: Seq<MessageView>) -> Seq<char>
    decreases messages.len(),
{
    if messages.len() == 0 {
        Seq::empty()
    } else if messages.len() == 1 {
        tag_of(messages[0])
    } else {
        tags_of(messages.drop_last()) + "\n\n"@ + tag_of(messages.last())
    }
}

/// The mailboxes of one team.
///
/// The view maps each agent that has a mailbox to its log, oldest message
/// first.
pub struct Inbox {
    inboxes_dir: String,
    ready: bool,
    boxes: NameTable<Vec<InboxMessage>>,
}

impl View for Inbox {
    type V = Map<Seq<char>, Seq<MessageView>>;

    closed spec fn view(&self) -> Map<Seq<char>, Seq<MessageView>> {
        Map::new(
            |agent: Seq<char>| self.boxes@.contains_key(agent),
            |agent: Seq<char>| message_views(self.boxes@[agent]@),
        )
    }
}

/// A copy of a log.
fn copy_log(log: &Vec<InboxMessage>) -> (copy: Vec<InboxMessage>)
    ensures
        message_views(copy@) == message_views(log@),
{
    let mut copy: Vec<InboxMessage> = Vec::new();
    let mut i: usize = 0;
    while i < log.len()
        invariant
            i <= log@.len(),
            copy@.len() == i,
            forall|j: int| 0 <= j < i ==> copy@[j]@ == log@[j]@,
        decreases log@.len() - i,
    {
        copy.push(log[i].clone());
        i += 1;
    }
    assert(message_views(copy@) =~= message_views(log@));
    copy
}

impl Inbox {
    /// The directory in which the mailboxes are kept.
    pub closed spec fn dir(&self) -> Seq<char> {
        self.inboxes_dir@
    }

    /// Whether the directory of the mailboxes exists.
    pub closed spec fn provisioned(&self) -> bool {
        self.ready
    }

    /// The mailboxes in `inboxes_dir`, a directory that does not exist yet.
    pub fn new(inboxes_dir: String) -> (inbox: Self)
        ensures
            inbox.dir() == inboxes_dir@,
            !inbox.provisioned(),
            inbox@ == Map::<Seq<char>, Seq<MessageView>>::empty(),
    {
        let inbox = Inbox { inboxes_dir, ready: false, boxes: NameTable::new() };
        assert(inbox@ =~= Map::<Seq<char>, Seq<MessageView>>::empty());
        inbox
    }

    /// The path of the agent's mailbox: the agent's name with `.json`, in the
    /// directory of the mailboxes.
    pub fn inbox_path(&self, agent_name: &str) -> (path: String)
        ensures
            path@ == path_join(self.dir(), json_file_name(agent_name@)),
    {
        let file = json_file(agent_name);
        join_path(self.inboxes_dir.as_str(), file.as_str())
    }

    /// Whether the directory of the mailboxes exists.
    pub fn is_provisioned(&self) -> (ready: bool)
        ensures
            ready == self.provisioned(),
    {
        self.ready
    }

    /// Makes sure the directory of the mailboxes exists.
    pub fn init(&mut self)
        ensures
            final(self).dir() == old(self).dir(),
            final(self).provisioned(),
            final(self)@ == old(self)@,
    {
        self.ready = true;
    }

    /// Makes sure the agent has a mailbox, an empty one unless it had one.
    pub fn create_inbox(&mut self, agent_name: &str)
        ensures
            final(self).dir() == old(self).dir(),
            final(self).provisioned(),
            final(self)@ == after_create(old(self)@, agent_name@),
    {
        self.ready = true;
        if !self.boxes.contains_name(agent_name) {
            let log: Vec<InboxMessage> = Vec::new();
            assert(message_views(log@) =~= Seq::<MessageView>::empty());
            self.boxes.put(agent_name, log);
            assert(self@ =~= old(self)@.insert(agent_name@, Seq::empty()));
        }
    }

    /// Makes `messages` the agent's whole log.
    pub fn write_inbox(&mut self, agent_name: &str, messages: Vec<InboxMessage>)
        ensures
            final(self).dir() == old(self).dir(),
            final(self).provisioned(),
            final(self)@ == old(self)@.insert(agent_name@, message_views(messages@)),
    {
        self.ready = true;
        self.boxes.put(agent_name, messages);
        assert(self@ =~= old(self)@.insert(agent_name@, message_views(messages@)));
    }

    /// Appends `message` to the log of `to`, which gets a mailbox thereby if
    /// it had none.
    pub fn send_message(&mut self, to: &str, message: InboxMessage)
        ensures
            final(self).dir() == old(self).dir(),
            final(self).provisioned(),
            final(self)@ == after_send(old(self)@, to@, message@),
    {
        let mut log = match self.boxes.take(to) {
            Some(log) => log,
            None => Vec::new(),
        };
        let ghost before = message_views(log@);
        assert(before =~= log_of(old(self)@, to@));
        log.push(message);
        assert(message_views(log@) =~= before.push(message@));
        self.ready = true;
        self.boxes.put(to, log);
        assert(self@ =~= after_send(old(self)@, to@, message@));
    }

    /// The agents that have a mailbox, each once.
    pub fn list_agents(&self) -> (agents: Vec<String>)
        ensures
            self@.dom().finite(),
            agents@.len() == self@.dom().len(),
            forall|i: int| 0 <= i < agents@.len() ==> self@.contains_key(#[trigger] agents@[i]@),
            forall|agent: Seq<char>| #[trigger]
                self@.contains_key(agent) ==> exists|i: int|
                    0 <= i < agents@.len() && #[trigger] agents@[i]@ == agent,
            forall|i: int, j: int|
                0 <= i < j < agents@.len() ==> #[trigger] agents@[i]@ != #[trigger] agents@[j]@,
    {
        let agents = self.boxes.names();
        assert(self@.dom() =~= self.boxes@.dom());
        agents
    }

    /// The agent's whole log, oldest message first; empty where the agent has
    /// no mailbox.
    pub fn read_inbox(&self, agent_name: &str) -> (messages: Vec<InboxMessage>)
        ensures
            message_views(messages@) == log_of(self@, agent_name@),
    {
        match self.boxes.get(agent_name) {
            Some(log) => copy_log(log),
            None => {
                let messages: Vec<InboxMessage> = Vec::new();
                assert(message_views(messages@) =~= Seq::<MessageView>::empty());
                messages
            },
        }
    }

    /// Hands the agent its unread messages, oldest first, and marks every
    /// message of its log as read. A message that was read before is not
    /// handed out again and stays as it is.
    pub fn consume_unread(&mut self, agent_name: &str) -> (fresh: Vec<InboxMessage>)
        ensures
            final(self).dir() == old(self).dir(),
            final(self).provisioned() == (old(self).provisioned() || unread(
                log_of(old(self)@, agent_name@),
            ).len() > 0),
            message_views(fresh@) == unread(log_of(old(self)@, agent_name@)),
            final(self)@ == after_consume(old(self)@, agent_name@),
    {
        let mut fresh: Vec<InboxMessage> = Vec::new();
        let ghost log_before = log_of(self@, agent_name@);
        match self.boxes.take(agent_name) {
            Some(mut log) => {
                let mut i: usize = 0;
                assert(log_before.take(0) =~= Seq::<MessageView>::empty());
                assert(message_views(fresh@) =~= unread(log_before.take(0))) by {
                    reveal(Seq::filter);
                }
                while i < log.len()
                    invariant
                        i <= log@.len(),
                        log@.len() == log_before.len(),
                        message_views(fresh@) == unread(log_before.take(i as int)),
                        forall|j: int| 0 <= j < i ==> log@[j]@ == consumed(log_before[j]),
                        forall|j: int| i <= j < log@.len() ==> log@[j]@ == log_before[j],
                    decreases log@.len() - i,
                {
                    proof {
                        lemma_unread_push(log_before.take(i as int), log_before[i as int]);
                        assert(log_before.take(i as int).push(log_before[i as int])
                            =~= log_before.take(i + 1));
                    }
                    if !log[i].read {
                        let ghost earlier = message_views(fresh@);
                        fresh.push(log[i].clone());
                        assert(message_views(fresh@) =~= earlier.push(log_before[i as int]));
                        log[i].read = true;
                    }
                    i += 1;
                }
                proof {
                    assert(log_before.take(i as int) =~= log_before);
                    assert(message_views(log@) =~= all_consumed(log_before));
                    if fresh@.len() == 0 {
                        lemma_unread_none(log_before);
                    }
                }
                if fresh.len() > 0 {
                    self.ready = true;
                }
                self.boxes.put(agent_name, log);
                assert(self@ =~= after_consume(old(self)@, agent_name@));
            },
            None => {
                proof {
                    assert(message_views(fresh@) =~= unread(log_before)) by {
                        reveal(Seq::filter);
                    }
                    assert(self@ =~= old(self)@);
                }
            },
        }
        fresh
    }

    /// Consumes the agent's unread messages and renders them as one text: a
    /// block for each message that names its sender and holds its content,
    /// with an empty line between blocks. Nothing where no message was unread.
    pub fn consume_as_tags(&mut self, agent_name: &str) -> (text: Option<String>)
        ensures
            final(self).dir() == old(self).dir(),
            final(self).provisioned() == (old(self).provisioned() || unread(
                log_of(old(self)@, agent_name@),
            ).len() > 0),
            final(self)@ == after_consume(old(self)@, agent_name@),
            match text {
                Some(text) => unread(log_of(old(self)@, agent_name@)).len() > 0 && text@ == tags_of(
                    unread(log_of(old(self)@, agent_name@)),
                ),
                None => unread(log_of(old(self)@, agent_name@)).len() == 0,
            },
    {
        let fresh = self.consume_unread(agent_name);
        if fresh.len() == 0 {
            return None;
        }
        Some(render_tags(&fresh))
    }

    /// Delivers one message from `from` with the given content and the given
    /// time of sending to every agent that has a mailbox, but not to `from`
    /// itself where `exclude_self` is set.
    pub fn broadcast_at(&mut self, from: &str, content: &str, exclude_self: bool, timestamp: &str)
        ensures
            final(self).dir() == old(self).dir(),
            final(self).provisioned() == (old(self).provisioned() || exists|agent: Seq<char>|
                old(self)@.contains_key(agent) && receives(agent, from@, exclude_self)),
            final(self)@ == after_broadcast(
                old(self)@,
                from@,
                content@,
                exclude_self,
                timestamp@,
            ),
    {
        let agents = self.list_agents();
        let sender = from.to_owned();
        let ghost before = self@;
        let ghost note = fresh_message(from@, content@, timestamp@);
        let mut i: usize = 0;
        while i < agents.len()
            invariant
                i <= agents@.len(),
                sender@ == from@,
                before == old(self)@,
                note == fresh_message(from@, content@, timestamp@),
                self.dir() == old(self).dir(),
                forall|k: int| 0 <= k < agents@.len() ==> before.contains_key(#[trigger] agents@[k]@),
                forall|a: int, b: int|
                    0 <= a < b < agents@.len() ==> #[trigger] agents@[a]@ != #[trigger] agents@[b]@,
                self.provisioned() == (old(self).provisioned() || exists|k: int|
                    0 <= k < i && receives(#[trigger] agents@[k]@, from@, exclude_self)),
                self@.dom() == before.dom(),
                forall|k: int|
                    0 <= k < i ==> self@[#[trigger] agents@[k]@] == if receives(
                        agents@[k]@,
                        from@,
                        exclude_self,
                    ) {
                        before[agents@[k]@].push(note)
                    } else {
                        before[agents@[k]@]
                    },
                forall|k: int|
                    i <= k < agents@.len() ==> self@[#[trigger] agents@[k]@] == before[agents@[k]@],
            decreases agents@.len() - i,
        {
            let skip = exclude_self && agents[i] == sender;
            if !skip {
                let message = InboxMessage {
                    from: from.to_owned(),
                    timestamp: timestamp.to_owned(),
                    content: content.to_owned(),
                    read: false,
                };
                let ghost earlier = self@;
                self.send_message(agents[i].as_str(), message);
                proof {
                    assert(self@.dom() =~= before.dom());
                    assert forall|k: int| 0 <= k < i implies self@[#[trigger] agents@[k]@]
                        == earlier[agents@[k]@] by {
                        assert(agents@[k]@ != agents@[i as int]@);
                    }
                    assert forall|k: int| i < k < agents@.len() implies self@[#[trigger] agents@[k]@]
                        == earlier[agents@[k]@] by {
                        assert(agents@[i as int]@ != agents@[k]@);
                    }
                    assert(receives(agents@[i as int]@, from@, exclude_self));
                }
            }
            i += 1;
        }
        proof {
            let wished = after_broadcast(before, from@, content@, exclude_self, timestamp@);
            assert forall|agent: Seq<char>| #[trigger] self@.contains_key(agent) implies self@[agent]
                == wished[agent] by {
                let k = choose|k: int| 0 <= k < agents@.len() && #[trigger] agents@[k]@ == agent;
                assert(self@[agents@[k]@] == wished[agents@[k]@]);
            }
            assert(self@ =~= wished);
            if exists|agent: Seq<char>|
                before.contains_key(agent) && receives(agent, from@, exclude_self) {
                let agent = choose|agent: Seq<char>|
                    before.contains_key(agent) && receives(agent, from@, exclude_self);
                let k = choose|k: int| 0 <= k < agents@.len() && #[trigger] agents@[k]@ == agent;
                assert(receives(agents@[k]@, from@, exclude_self));
            }
        }
    }

    /// Delivers one message from `from` with the given content, sent now, to
    /// every agent that has a mailbox, but not to `from` itself where
    /// `exclude_self` is set. All the messages carry the same time of sending.
    pub fn broadcast(&mut self, from: &str, content: &str, exclude_self: bool)
        ensures
            final(self).dir() == old(self).dir(),
            final(self).provisioned() == (old(self).provisioned() || exists|agent: Seq<char>|
                old(self)@.contains_key(agent) && receives(agent, from@, exclude_self)),
            exists|timestamp: Seq<char>|
                final(self)@ == #[trigger] after_broadcast(
                    old(self)@,
                    from@,
                    content@,
                    exclude_self,
                    timestamp,
                ),
    {
        let stamp = now_rfc3339();
        self.broadcast_at(from, content, exclude_self, stamp.as_str());
        assert(self@ == after_broadcast(old(self)@, from@, content@, exclude_self, stamp@));
    }
}

/// The text of `tags_of` for the messages.
fn render_tags(messages: &Vec<InboxMessage>) -> (text: String)
    ensures
        text@ == tags_of(message_views(messages@)),
{
    let mut text = String::new();
    let mut i: usize = 0;
    assert(message_views(messages@).take(0) =~= Seq::<MessageView>::empty());
    while i < messages.len()
        invariant
            i <= messages@.len(),
            text@ == tags_of(message_views(messages@).take(i as int)),
        decreases messages@.len() - i,
    {
        let ghost views = message_views(messages@);
        let ghost earlier = text@;
        if i > 0 {
            text.append("\n\n");
        }
        text.append("<teammate-message from=\"");
        text.append(messages[i].from.as_str());
        text.append("\">\n");
        text.append(messages[i].content.as_str());
        text.append("\n</teammate-message>");
        proof {
            assert(views.take(i + 1).drop_last() =~= views.take(i as int));
            assert(views.take(i + 1).last() == views[i as int]);
            let block = tag_of(views[i as int]);
            if i > 0 {
                assert(text@ =~= earlier + "\n\n"@ + block);
            } else {
                assert(earlier =~= Seq::<char>::empty());
                assert(text@ =~= block);
            }
        }
        i += 1;
    }
    assert(message_views(messages@).take(i as int) =~= message_views(messages@));
    text
}

} // verus!
