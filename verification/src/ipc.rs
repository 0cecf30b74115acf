//! The decisions of the channels between the processes: when to try again, when to
//! wait, and whom to let go.
use vstd::prelude::*;

verus! {

/// Why a channel failed.
#[derive(Clone, Copy, Debug, PartialEq, Eq, Structural)]
pub enum IpcError {
    /// Nobody holds the name.
    NotRunning,
    /// Somebody else holds the name.
    AlreadyRunning,
    /// The other end is gone.
    PeerGone,
    /// Nothing can be done without waiting.
    WouldBlock,
    /// The value could not be encoded.
    Encode,
    /// What came is not a value of the kind that was expected.
    Decode,
    /// The system refused, with this code.
    System(i32),
}

/// What the port that travels with a request is for.
#[derive(Clone, Copy, Debug, PartialEq, Eq, Structural)]
pub enum Carried {
    /// One answer to this request.
    AsReply,
    /// A lasting channel that the other end keeps sending to.
    AsChannel,
}

/// What came of looking for a message.
#[derive(Debug)]
pub enum Polled<M> {
    /// This is what came.
    Ready(Result<M, IpcError>),
    /// Nothing yet: whoever asked is woken when something comes.
    Pending,
}

/// One try decides: there is a message or a failure that waiting does not mend.
pub open spec fn decides<M>(tried: Result<M, IpcError>) -> bool {
    !(tried is Err && tried->Err_0 is WouldBlock)
}

/// Looks for a message. `receive` is tried first, because a wakeup only tells of
/// what comes after it was armed: what is already there would wake nobody. Where
/// nothing is there a wakeup is armed, and `again` is tried, because a message may
/// have come in between.
pub fn poll_recv<
    M,
    R: FnOnce() -> Result<M, IpcError>,
    A: FnOnce() -> Result<(), IpcError>,
    T: FnOnce() -> Result<M, IpcError>,
>(receive: R, arm: A, again: T) -> (polled: Polled<M>)
    requires
        call_requires(receive, ()),
        call_requires(arm, ()),
        call_requires(again, ()),
    ensures
        ({
            ||| exists|tried: Result<M, IpcError>|
                #![trigger call_ensures(receive, (), tried)]
                call_ensures(receive, (), tried) && decides(tried) && polled == Polled::Ready(tried)
            ||| exists|tried: Result<M, IpcError>, armed: Result<(), IpcError>|
                #![trigger call_ensures(receive, (), tried), call_ensures(arm, (), armed)]
                call_ensures(receive, (), tried) && !decides(tried) && call_ensures(arm, (), armed)
                    && armed is Err && polled == Polled::Ready(
                    Err::<M, IpcError>(armed->Err_0),
                )
            ||| exists|
                tried: Result<M, IpcError>,
                armed: Result<(), IpcError>,
                retried: Result<M, IpcError>,
            |
                #![trigger call_ensures(receive, (), tried), call_ensures(arm, (), armed), call_ensures(again, (), retried)]
                call_ensures(receive, (), tried) && !decides(tried) && call_ensures(arm, (), armed)
                    && armed is Ok && call_ensures(again, (), retried) && polled == if decides(
                    retried,
                ) {
                    Polled::Ready(retried)
                } else {
                    Polled::Pending
                }
        }),
{
    match receive() {
        Err(IpcError::WouldBlock) => {},
        tried => return Polled::Ready(tried),
    }
    match arm() {
        Err(error) => return Polled::Ready(Err(error)),
        Ok(_) => {},
    }
    match again() {
        Err(IpcError::WouldBlock) => Polled::Pending,
        tried => Polled::Ready(tried),
    }
}

/// Claims a name. A process that the system started takes over the port that the
/// system holds for it; where the system knows of no such name, the process
/// publishes it.
pub fn bind<P, C: FnOnce() -> Result<P, IpcError>, R: FnOnce() -> Result<P, IpcError>>(
    check_in: C,
    register: R,
) -> (port: Result<P, IpcError>)
    requires
        call_requires(check_in, ()),
        call_requires(register, ()),
    ensures
        exists|held: Result<P, IpcError>|
            #![trigger call_ensures(check_in, (), held)]
            call_ensures(check_in, (), held) && (if held is Err && held->Err_0 is NotRunning {
                call_ensures(register, (), port)
            } else {
                port == held
            }),
{
    match check_in() {
        Err(IpcError::NotRunning) => register(),
        held => held,
    }
}

/// The end of a send, if it is over.
pub open spec fn done_after(sent: Result<(), IpcError>) -> Option<Result<(), IpcError>> {
    if decides(sent) {
        Some(sent)
    } else {
        None
    }
}

/// What to do after a try to send: there is no wakeup for a queue that has room
/// again, so a full queue is tried anew once the others have had their turn.
pub fn after_send(sent: Result<(), IpcError>) -> (done: Option<Result<(), IpcError>>)
    ensures
        done == done_after(sent),
{
    match sent {
        Err(IpcError::WouldBlock) => None,
        sent => Some(sent),
    }
}

/// The subscriber is still there.
pub open spec fn is_kept(sent: Result<(), IpcError>) -> bool {
    !(sent is Err && sent->Err_0 is PeerGone)
}

/// Whether a subscriber stays after an event was sent to it: one whose process is
/// gone is let go, and one that only does not keep up loses the event and stays.
pub fn subscriber_stays(sent: Result<(), IpcError>) -> (stays: bool)
    ensures
        stays == is_kept(sent),
{
    match sent {
        Err(IpcError::PeerGone) => false,
        _ => true,
    }
}

} // verus!
