//! The capabilities that the connection needs from its surroundings: a
//! readable and a writable byte stream, a way to establish a connection, a
//! mutual exclusion primitive and an unbounded channel. Nothing here depends
//! on how the operations are scheduled; an operation that has to wait returns
//! when it is done.

use vstd::prelude::*;

verus! {

/// The error of a stream operation, `std::io::Error`, which is carried
/// through unread: nothing is claimed of what it holds.
#[verifier::external_type_specification]
#[verifier::external_body]
pub struct ExIoError(std::io::Error);

/// A readable byte stream.
pub trait ReadStream {
    /// Fills `buf` completely, or fails. A stream that ends before the buffer
    /// is full fails; it never returns partial data as a success.
    fn read_exact(&mut self, buf: &mut [u8]) -> (r: Result<(), std::io::Error>)
        ensures
            final(buf)@.len() == old(buf)@.len(),
    ;
}

/// A writable byte stream.
pub trait WriteStream {
    /// Writes all of `buf`, or fails.
    fn write_all(&mut self, buf: &[u8]) -> (r: Result<(), std::io::Error>);

    /// Forces buffered bytes out.
    fn flush(&mut self) -> (r: Result<(), std::io::Error>);
}

/// A way to establish a stream to a host, as two independent halves.
pub trait TcpStream {
    type Read: ReadStream;

    type Write: WriteStream;

    /// Connects to `host` at `port`.
    fn connect(host: &str, port: u16) -> (r: Result<(Self::Read, Self::Write), std::io::Error>);
}

/// Mutual exclusion over a value.
pub trait Mutex<T>: Sized {
    /// A mutex that holds `t`.
    fn new(t: T) -> (r: Self);

    /// Waits for exclusive access, then hands the contents to `scope` and
    /// stores what it gives back. The access ends when `scope` returns, on
    /// every path; the result is what `scope` returned for the contents.
    fn lock<R, F: FnOnce(T) -> (T, R)>(&self, scope: F) -> (r: R)
        requires
            forall|contents: T| scope.requires((contents,)),
        ensures
            exists|before: T, after: T| scope.ensures((before,), (after, r)),
    ;
}

/// The receiver of the channel is gone, so the message was not sent.
#[derive(Clone, Copy, Debug, PartialEq, Eq, Structural)]
pub struct SendError;

/// The sending half of a channel.
pub trait ChannelSender<T> {
    /// Sends a message without waiting. Fails only if the receiver is gone.
    fn send(&self, message: T) -> (r: Result<(), SendError>);
}

/// The receiving half of a channel.
pub trait ChannelReceiver<T> {
    /// Waits for the next message, in the order sent. `None` once every sender
    /// is gone and the queue is empty: the end of the stream, not a failure.
    fn recv(&mut self) -> (r: Option<T>);
}

/// An unbounded first-in first-out channel.
pub trait Channel<T> {
    type Sender: ChannelSender<T>;

    type Receiver: ChannelReceiver<T>;

    /// A new channel, as its two halves.
    fn new_unbounded() -> (r: (Self::Sender, Self::Receiver));
}

} // verus!
