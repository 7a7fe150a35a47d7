use vstd::prelude::*;
use mio::Token;
use mio_extras::channel::{Receiver, SyncSender, TrySendError};

verus! {

/// `mio::Token`: the number under which an event source is registered.
#[verifier::external_type_specification]
#[verifier::external_body]
pub struct ExToken(Token);

/// `mio_extras::channel::Receiver`: the receiving half of a channel that an
/// event loop can poll.
#[verifier::external_type_specification]
#[verifier::external_body]
#[verifier::reject_recursive_types(T)]
pub struct ExReceiver<T>(Receiver<T>);

/// `mio_extras::channel::SyncSender`: the sending half of a bounded channel.
#[verifier::external_type_specification]
#[verifier::external_body]
#[verifier::reject_recursive_types(T)]
pub struct ExSyncSender<T>(SyncSender<T>);

/// The number that a token holds.
pub uninterp spec fn token_value(t: Token) -> usize;

/// Trusted: the constructor of `mio::Token`, a tuple struct around one
/// `usize`. Assumed here: the token holds the number it was made from.
#[verifier::external_body]
pub(crate) fn token_from_usize(id: usize) -> (t: Token)
    ensures
        token_value(t) == id,
{
    Token(id)
}

/// How an attempt to send on a bounded channel ended.
#[derive(PartialEq, Eq, Structural, Clone, Copy, Debug)]
pub enum SendOutcome {
    /// The item is in the channel.
    Sent,
    /// The channel was full; the item is lost.
    Full,
    /// Nobody receives any more; the item is lost.
    Disconnected,
    /// The event loop could not be woken.
    Io,
}

/// Trusted: `mio_extras::channel::SyncSender::try_send`. It never blocks.
/// Whether the item gets into the channel depends on how full the channel is
/// and on whether its receiver lives, so nothing is assumed of the outcome.
#[verifier::external_body]
pub(crate) fn try_send<T>(sender: &SyncSender<T>, item: T) -> SendOutcome {
    match sender.try_send(item) {
        Ok(()) => SendOutcome::Sent,
        Err(TrySendError::Full(_)) => SendOutcome::Full,
        Err(TrySendError::Disconnected(_)) => SendOutcome::Disconnected,
        Err(TrySendError::Io(_)) => SendOutcome::Io,
    }
}

} // verus!
