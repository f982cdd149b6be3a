//! The per-connection chat session state machine.
//!
//! A session starts in `Identifying`, turns `Joined` when its peer presents a
//! valid display name, and from then on relays chat lines. Each step is a
//! pure transition: it takes the incoming line or bus message and returns the
//! effects — the line to write to the peer, the message to publish on the
//! broadcast bus, whether to close — as data, which the connection task
//! carries out. Published messages carry the sender's identity out of band,
//! so a session filters its own broadcasts by identity, never by searching
//! the text.

use vstd::prelude::*;

use crate::lines::bytes_eq;
use crate::lines::lit;
use crate::lines::lit_bytes;
use crate::lines::nl;
use crate::lines::push_all;
use crate::lines::with_newline;
use crate::registry::Registry;
use crate::registry::comma_join;
use crate::validate::name_is_valid;
use crate::validate::valid_name;

verus! {

/// The greeting sent to every freshly accepted peer.
pub open spec fn welcome_bytes() -> Seq<u8> {
    lit_bytes("Welcome to budgetchat! What shall I call you?\n"@)
}

/// The single error line sent when a proposed name is rejected.
pub open spec fn error_bytes() -> Seq<u8> {
    lit_bytes("error: name is empty\n"@)
}

/// The announcement published when `name` joins.
pub open spec fn entered_text(name: Seq<u8>) -> Seq<u8> {
    lit_bytes("* "@) + name + lit_bytes(" has entered the room"@)
}

/// The announcement published when `name` disconnects.
pub open spec fn left_text(name: Seq<u8>) -> Seq<u8> {
    lit_bytes("* "@) + name + lit_bytes(" has left the room"@)
}

/// A chat line as broadcast: the sender's name in brackets, then the line.
pub open spec fn chat_text(name: Seq<u8>, line: Seq<u8>) -> Seq<u8> {
    lit_bytes("["@) + name + lit_bytes("] "@) + line
}

/// The roster line sent to a member on joining: the names that were present
/// before it, comma-joined, possibly empty.
pub open spec fn roster_line(names: Seq<Seq<u8>>) -> Seq<u8> {
    lit_bytes("* The room contains: "@) + comma_join(names) + seq![nl()]
}

/// What a session writes to its peer for a bus message: the text with
/// exactly one terminator, unless the session is not joined or the message
/// originated from the session itself, in which case nothing.
pub open spec fn delivered_line(
    joined: bool,
    self_name: Seq<u8>,
    origin: Seq<u8>,
    text: Seq<u8>,
) -> Option<Seq<u8>> {
    if joined && origin != self_name {
        Some(with_newline(text))
    } else {
        None
    }
}

/// Where a session stands in the join protocol.
pub enum Status {
    /// Waiting for the peer's display name.
    Identifying,
    /// Validated and announced; relaying chat lines.
    Joined,
}

/// A line published on the broadcast bus, tagged with the name of the
/// session that published it.
#[derive(Clone, Debug)]
pub struct BusMessage {
    pub origin: Vec<u8>,
    pub text: Vec<u8>,
}

/// The effects of feeding one peer line to a session.
pub struct PeerLineEffects {
    /// A message to publish on the bus, if any.
    pub publish: Option<BusMessage>,
    /// A line to write back to the peer, if any.
    pub send: Option<Vec<u8>>,
    /// Whether the connection is to be closed.
    pub close: bool,
}

/// The server-side state of one chat connection.
pub struct Session {
    pub name: Vec<u8>,
    pub status: Status,
}

impl Session {
    /// The session's identity is empty until it joins and a valid name from
    /// then on.
    pub open spec fn wf(self) -> bool {
        match self.status {
            Status::Identifying => self.name@.len() == 0,
            Status::Joined => valid_name(self.name@),
        }
    }

    /// A fresh session for a newly accepted connection.
    pub fn new() -> (s: Session)
        ensures
            s.wf(),
            s.status is Identifying,
            s.name@.len() == 0,
    {
        Session { name: Vec::new(), status: Status::Identifying }
    }

    /// Whether the session has completed the join protocol.
    pub fn is_joined(&self) -> (r: bool)
        ensures
            r == (self.status is Joined),
    {
        match self.status {
            Status::Identifying => false,
            Status::Joined => true,
        }
    }

    /// Reacts to one line read from the peer (terminator already stripped).
    ///
    /// While identifying, the line is the proposed name: a rejected name
    /// draws the fixed error line and closes without touching the registry;
    /// an accepted one publishes the entry announcement, answers with the
    /// roster as it stood before this member, and only then adds the member,
    /// so that no member ever appears in its own roster line. While joined,
    /// the line is chat and is published tagged with the sender's name.
    pub fn on_peer_line(&mut self, line: &[u8], registry: &mut Registry) -> (eff: PeerLineEffects)
        requires
            old(self).wf(),
        ensures
            final(self).wf(),
            old(self).status is Identifying && !valid_name(line@) ==> {
                &&& final(self).status is Identifying
                &&& final(self).name@ == old(self).name@
                &&& final(registry)@ == old(registry)@
                &&& eff.publish is None
                &&& eff.send is Some
                &&& (eff.send->0)@ == error_bytes()
                &&& eff.close
            },
            old(self).status is Identifying && valid_name(line@) ==> {
                &&& final(self).status is Joined
                &&& final(self).name@ == line@
                &&& final(registry)@ == old(registry)@.push(line@)
                &&& eff.publish is Some
                &&& (eff.publish->0).origin@ == line@
                &&& (eff.publish->0).text@ == entered_text(line@)
                &&& eff.send is Some
                &&& (eff.send->0)@ == roster_line(old(registry)@)
                &&& !eff.close
            },
            old(self).status is Joined ==> {
                &&& final(self).status is Joined
                &&& final(self).name@ == old(self).name@
                &&& final(registry)@ == old(registry)@
                &&& eff.publish is Some
                &&& (eff.publish->0).origin@ == old(self).name@
                &&& (eff.publish->0).text@ == chat_text(old(self).name@, line@)
                &&& eff.send is None
                &&& !eff.close
            },
    {
        match self.status {
            Status::Identifying => {
                if !name_is_valid(line) {
                    PeerLineEffects { publish: None, send: Some(error_line()), close: true }
                } else {
                    let entered = entered_message(line);
                    let roster = roster_message(registry);
                    let name_copy = vstd::slice::slice_to_vec(line);
                    registry.add(name_copy);
                    self.name = vstd::slice::slice_to_vec(line);
                    self.status = Status::Joined;
                    PeerLineEffects {
                        publish: Some(
                            BusMessage { origin: vstd::slice::slice_to_vec(line), text: entered },
                        ),
                        send: Some(roster),
                        close: false,
                    }
                }
            },
            Status::Joined => {
                let text = chat_message(self.name.as_slice(), line);
                PeerLineEffects {
                    publish: Some(BusMessage { origin: self.name.clone(), text }),
                    send: None,
                    close: false,
                }
            },
        }
    }

    /// Reacts to one message delivered by the session's bus consumer: the
    /// line to write to the peer, exactly as `delivered_line` says.
    pub fn on_bus_message(&self, msg: &BusMessage) -> (out: Option<Vec<u8>>)
        requires
            self.wf(),
        ensures
            ({
                let d = delivered_line(self.status is Joined, self.name@, msg.origin@, msg.text@);
                &&& (out is Some <==> d is Some)
                &&& (out is Some ==> (out->0)@ == d->0)
            }),
    {
        match self.status {
            Status::Identifying => None,
            Status::Joined => {
                if bytes_eq(msg.origin.as_slice(), self.name.as_slice()) {
                    None
                } else {
                    let mut text = msg.text.clone();
                    let needs_terminator = if text.len() == 0 {
                        true
                    } else {
                        text[text.len() - 1] != 10
                    };
                    if needs_terminator {
                        text.push(10);
                    }
                    Some(text)
                }
            },
        }
    }

    /// Reacts to the peer's end of stream or I/O failure. A joined session
    /// leaves the room: its name is removed from the registry and the leave
    /// announcement is returned for publishing; a session that never joined
    /// leaves no trace.
    pub fn on_disconnect(&mut self, registry: &mut Registry) -> (farewell: Option<BusMessage>)
        requires
            old(self).wf(),
        ensures
            final(self).status == old(self).status,
            final(self).name@ == old(self).name@,
            old(self).status is Joined ==> {
                &&& farewell is Some
                &&& (farewell->0).origin@ == old(self).name@
                &&& (farewell->0).text@ == left_text(old(self).name@)
                &&& final(registry)@ == old(registry)@.filter(
                    |n: Seq<u8>| n != old(self).name@,
                )
            },
            old(self).status is Identifying ==> {
                &&& farewell is None
                &&& final(registry)@ == old(registry)@
            },
    {
        match self.status {
            Status::Identifying => None,
            Status::Joined => {
                let text = left_message(self.name.as_slice());
                registry.remove(self.name.as_slice());
                Some(BusMessage { origin: self.name.clone(), text })
            },
        }
    }
}

/// The greeting line, sent before anything else on a new connection.
pub fn welcome_line() -> (r: Vec<u8>)
    ensures
        r@ == welcome_bytes(),
{
    proof {
        reveal_strlit("Welcome to budgetchat! What shall I call you?\n");
    }
    lit("Welcome to budgetchat! What shall I call you?\n")
}

/// The fixed rejection line for an invalid name.
pub fn error_line() -> (r: Vec<u8>)
    ensures
        r@ == error_bytes(),
{
    proof {
        reveal_strlit("error: name is empty\n");
    }
    lit("error: name is empty\n")
}

/// Builds the entry announcement for `name`.
fn entered_message(name: &[u8]) -> (r: Vec<u8>)
    ensures
        r@ == entered_text(name@),
{
    proof {
        reveal_strlit("* ");
        reveal_strlit(" has entered the room");
    }
    let mut out = lit("* ");
    push_all(&mut out, name);
    let tail = lit(" has entered the room");
    push_all(&mut out, tail.as_slice());
    proof {
        assert(out@ =~= entered_text(name@));
    }
    out
}

/// Builds the leave announcement for `name`.
fn left_message(name: &[u8]) -> (r: Vec<u8>)
    ensures
        r@ == left_text(name@),
{
    proof {
        reveal_strlit("* ");
        reveal_strlit(" has left the room");
    }
    let mut out = lit("* ");
    push_all(&mut out, name);
    let tail = lit(" has left the room");
    push_all(&mut out, tail.as_slice());
    proof {
        assert(out@ =~= left_text(name@));
    }
    out
}

/// Builds the broadcast form of a chat line: `[name] line`.
fn chat_message(name: &[u8], line: &[u8]) -> (r: Vec<u8>)
    ensures
        r@ == chat_text(name@, line@),
{
    proof {
        reveal_strlit("[");
        reveal_strlit("] ");
    }
    let mut out = lit("[");
    push_all(&mut out, name);
    let mid = lit("] ");
    push_all(&mut out, mid.as_slice());
    push_all(&mut out, line);
    proof {
        assert(out@ =~= chat_text(name@, line@));
    }
    out
}

/// Builds the roster line from the registry's current members.
fn roster_message(registry: &Registry) -> (r: Vec<u8>)
    ensures
        r@ == roster_line(registry@),
{
    proof {
        reveal_strlit("* The room contains: ");
    }
    let mut out = lit("* The room contains: ");
    let names = registry.joined_names();
    push_all(&mut out, names.as_slice());
    out.push(10);
    proof {
        assert(out@ =~= roster_line(registry@));
    }
    out
}

/// A chat line published by a joined member reaches every other joined
/// member as `[name] line` with one terminator; it is never delivered back
/// to the sender, and a session still identifying is delivered nothing.
pub proof fn lemma_chat_fanout(sender: Seq<u8>, receiver: Seq<u8>, line: Seq<u8>)
    ensures
        sender != receiver ==> delivered_line(true, receiver, sender, chat_text(sender, line))
            == Some(with_newline(chat_text(sender, line))),
        delivered_line(true, sender, sender, chat_text(sender, line)) is None,
        delivered_line(false, receiver, sender, chat_text(sender, line)) is None,
{
}

/// After a joined member disconnects, every remaining member is delivered
/// the leave announcement, and the name is absent from every later roster.
pub proof fn lemma_leave(names: Seq<Seq<u8>>, leaver: Seq<u8>, member: Seq<u8>)
    requires
        member != leaver,
    ensures
        delivered_line(true, member, leaver, left_text(leaver)) == Some(
            with_newline(left_text(leaver)),
        ),
        !names.filter(|n: Seq<u8>| n != leaver).contains(leaver),
{
    let kept = names.filter(|n: Seq<u8>| n != leaver);
    assert(!kept.contains(leaver)) by {
        if kept.contains(leaver) {
            let i = choose|i: int| 0 <= i < kept.len() && kept[i] == leaver;
            names.lemma_filter_pred(|n: Seq<u8>| n != leaver, i);
        }
    }
}

} // verus!
