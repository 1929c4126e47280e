use crate::registry::{
    delivered_ids, handed_out, has_id, outcomes, survivors, targets, Audience, Delivery, Duplicate,
    Registry, SubscriberView,
};
use tokio::sync::mpsc::UnboundedSender;
use vstd::prelude::*;
use vstd::string::StringExecFns;
use vstd::utf8::{decode_utf8, valid_utf8};

verus! {

/// An event sent to a chat subscriber.
#[derive(Debug, Clone)]
pub enum Message {
    /// The subscriber's own id, sent once when it connects.
    ClientId(usize),
    /// A line that another subscriber wrote.
    Reply(String),
}

/// A chat event as plain values.
pub ghost enum MessageView {
    ClientId(usize),
    Reply(Seq<char>),
}

impl View for Message {
    type V = MessageView;

    open spec fn view(&self) -> MessageView {
        match self {
            Message::ClientId(id) => MessageView::ClientId(*id),
            Message::Reply(line) => MessageView::Reply(line@),
        }
    }
}

impl Duplicate for Message {
    fn duplicate(&self) -> (r: Message)
        ensures
            r@ == self@,
    {
        match self {
            Message::ClientId(id) => Message::ClientId(*id),
            Message::Reply(line) => Message::Reply(line.clone()),
        }
    }
}

/// Why a chat message body was refused.
#[derive(Debug, Clone, Copy, PartialEq, Eq, Structural)]
pub enum BodyError {
    /// The body is longer than the limit.
    TooLarge,
    /// The body is not valid UTF-8.
    NotUtf8,
}

/// The most bytes a chat message body may hold.
pub const MAX_BODY: usize = 500;

/// The decimal digit `d`, as a character.
pub open spec fn digit(d: nat) -> char {
    seq!['0', '1', '2', '3', '4', '5', '6', '7', '8', '9'][d as int]
}

/// The decimal writing of `n`, without leading zeros.
pub open spec fn decimal(n: nat) -> Seq<char>
    decreases n,
{
    if n < 10 {
        seq![digit(n)]
    } else {
        decimal(n / 10).push(digit(n % 10))
    }
}

/// Relies on std's `ToString` for `usize`, through `Display`: its decimal writing.
#[verifier::external_body]
fn decimal_string(n: usize) -> (r: String)
    ensures
        r@ == decimal(n as nat),
{
    n.to_string()
}

/// Relies on std's `String::from_utf8`: the decoded text where the bytes are
/// valid UTF-8, an error otherwise.
#[verifier::external_body]
fn utf8_string(bytes: Vec<u8>) -> (r: Option<String>)
    ensures
        r is Some <==> valid_utf8(bytes@),
        r matches Some(s) ==> s@ == decode_utf8(bytes@),
{
    String::from_utf8(bytes).ok()
}

/// The line that subscriber `id` is heard saying `text`.
pub open spec fn line_of(id: usize, text: Seq<char>) -> Seq<char> {
    seq!['<', 'U', 's', 'e', 'r', '#'] + decimal(id as nat) + seq!['>', ':', ' '] + text
}

/// The line `<User#id>: text` that the other subscribers receive.
pub fn chat_line(id: usize, text: &String) -> (r: String)
    ensures
        r@ == line_of(id, text@),
{
    let mut line = String::from_str("<User#");
    let digits = decimal_string(id);
    line.append(digits.as_str());
    line.append(">: ");
    line.append(text.as_str());
    proof {
        reveal_strlit("<User#");
        reveal_strlit(">: ");
    }
    assert(line@ =~= line_of(id, text@));
    line
}

/// The text of a chat message body: refused where it holds more than
/// `MAX_BODY` bytes, or is not valid UTF-8.
pub fn decode_body(body: Vec<u8>) -> (r: Result<String, BodyError>)
    ensures
        body@.len() > MAX_BODY ==> r == Err::<String, BodyError>(BodyError::TooLarge),
        body@.len() <= MAX_BODY && !valid_utf8(body@) ==> r == Err::<String, BodyError>(
            BodyError::NotUtf8,
        ),
        body@.len() <= MAX_BODY && valid_utf8(body@) ==> (r matches Ok(s) && s@ == decode_utf8(
            body@,
        )),
{
    if body.len() > MAX_BODY {
        return Err(BodyError::TooLarge);
    }
    match utf8_string(body) {
        Some(s) => Ok(s),
        None => Err(BodyError::NotUtf8),
    }
}

/// Registers a new chat subscriber and hands it `ClientId(id)`, its own id, as
/// its first event. Returns `None` once every id has been handed out.
/// Otherwise returns the new id and whether the welcome went out: where it
/// did, the subscriber stays registered with its channel; where it could not
/// be sent, the subscriber is removed again.
pub fn client_connected(clients: &mut Registry<Message>, tx: UnboundedSender<Message>) -> (r: Option<
    (usize, bool),
>)
    requires
        old(clients).wf(),
    ensures
        final(clients).wf(),
        r is None <==> old(clients)@.next_id == usize::MAX,
        r is None ==> final(clients)@ == old(clients)@,
        r matches Some((id, _)) ==> id == old(clients)@.next_id,
        r matches Some((id, _)) ==> !has_id(old(clients)@.subscribers, id),
        r is Some ==> final(clients)@.next_id == old(clients)@.next_id + 1,
        r matches Some((id, _)) ==> final(clients)@.handed == old(clients)@.handed.push(
            (id, Message::ClientId(id)),
        ),
        r matches Some((id, true)) ==> final(clients)@.subscribers == old(clients)@.subscribers.push(
            SubscriberView { id, interest: None, channel: tx },
        ),
        r matches Some((_, false)) ==> final(clients)@.subscribers == old(clients)@.subscribers,
{
    let ghost channel = tx;
    let id = match clients.register(tx) {
        Some(id) => id,
        None => return None,
    };
    let ghost after = clients@;
    let ghost n = old(clients)@.subscribers.len();
    assert(after.subscribers[n as int].id == id);
    assert(has_id(after.subscribers, id));
    let welcomed = clients.deliver_to(id, Message::ClientId(id));
    if !welcomed {
        proof {
            let k = choose|k: int|
                0 <= k < after.subscribers.len() && after.subscribers[k].id == id
                    && clients@.subscribers == after.subscribers.remove(k);
            if k < n {
                assert(old(clients)@.subscribers[k].id < old(clients)@.next_id);
            }
            assert(after.subscribers.remove(k) =~= old(clients)@.subscribers);
        }
    }
    Some((id, welcomed))
}

/// Hands `Reply(<User#my_id>: text)` to every other subscriber, and prunes
/// those whose channel has closed. The writer itself stays and hears nothing.
/// Returns the outcome of each send.
pub fn client_message(clients: &mut Registry<Message>, my_id: usize, text: &String) -> (r: Vec<
    Delivery,
>)
    requires
        old(clients).wf(),
    ensures
        final(clients).wf(),
        delivered_ids(r@) == targets(old(clients)@.subscribers, Audience::AllExcept(my_id)),
        final(clients)@.subscribers == survivors(
            old(clients)@.subscribers,
            Audience::AllExcept(my_id),
            outcomes(r@),
        ),
        final(clients)@.next_id == old(clients)@.next_id,
        handed_out(
            old(clients)@.handed,
            final(clients)@.handed,
            delivered_ids(r@),
            MessageView::Reply(line_of(my_id, text@)),
        ),
{
    let line = chat_line(my_id, text);
    let event = Message::Reply(line);
    clients.broadcast(Audience::AllExcept(my_id), &event)
}

} // verus!
