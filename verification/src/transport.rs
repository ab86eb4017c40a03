use vstd::prelude::*;
use futures::sync::mpsc::UnboundedSender;
use tungstenite::protocol::Message;

verus! {

/// futures' unbounded channel sender, held opaque.
#[verifier::external_type_specification]
#[verifier::external_body]
#[verifier::reject_recursive_types(T)]
pub struct ExUnboundedSender<T>(UnboundedSender<T>);

/// tungstenite's websocket message, held opaque.
#[verifier::external_type_specification]
#[verifier::external_body]
pub struct ExMessage(Message);

/// The sending half of the queue that feeds a websocket's writer.
pub type Sender = UnboundedSender<Message>;

/// A text frame for one connection's writer: the queue it goes to and the
/// text. Whoever holds it queues `text` as a websocket text message on
/// `sender`.
pub struct Frame<'a> {
    pub sender: &'a Sender,
    pub text: String,
}

impl<'a> View for Frame<'a> {
    type V = (Sender, Seq<char>);

    open spec fn view(&self) -> (Sender, Seq<char>) {
        (*self.sender, self.text@)
    }
}

/// The queues and texts of a sequence of frames.
pub open spec fn frame_views<'a>(f: Seq<Frame<'a>>) -> Seq<(Sender, Seq<char>)> {
    f.map_values(|x: Frame<'a>| x@)
}

} // verus!
