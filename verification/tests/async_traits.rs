use std::cell::RefCell;
use std::collections::VecDeque;
use std::io::{Error, ErrorKind};
use std::rc::Rc;
use x11rb_async::async_traits::{
    Channel, ChannelReceiver, ChannelSender, Mutex, ReadStream, SendError, WriteStream,
};

struct Source {
    bytes: Vec<u8>,
    at: usize,
}

impl ReadStream for Source {
    fn read_exact(&mut self, buf: &mut [u8]) -> Result<(), Error> {
        if self.bytes.len() - self.at < buf.len() {
            return Err(Error::new(ErrorKind::UnexpectedEof, "short read"));
        }
        buf.copy_from_slice(&self.bytes[self.at..self.at + buf.len()]);
        self.at += buf.len();
        Ok(())
    }
}

struct Sink {
    pending: Vec<u8>,
    written: Vec<u8>,
}

impl WriteStream for Sink {
    fn write_all(&mut self, buf: &[u8]) -> Result<(), Error> {
        self.pending.extend_from_slice(buf);
        Ok(())
    }

    fn flush(&mut self) -> Result<(), Error> {
        self.written.append(&mut self.pending);
        Ok(())
    }
}

struct Local<T>(RefCell<Option<T>>);

impl<T> Mutex<T> for Local<T> {
    fn new(t: T) -> Self {
        Local(RefCell::new(Some(t)))
    }

    fn lock<R, F: FnOnce(T) -> (T, R)>(&self, scope: F) -> R {
        let contents = self.0.borrow_mut().take().unwrap();
        let (contents, result) = scope(contents);
        *self.0.borrow_mut() = Some(contents);
        result
    }
}

struct Queue<T> {
    items: VecDeque<T>,
    receiver_alive: bool,
}

struct Sender<T>(Rc<RefCell<Queue<T>>>);

struct Receiver<T>(Rc<RefCell<Queue<T>>>);

impl<T> ChannelSender<T> for Sender<T> {
    fn send(&self, message: T) -> Result<(), SendError> {
        let mut queue = self.0.borrow_mut();
        if !queue.receiver_alive {
            return Err(SendError);
        }
        queue.items.push_back(message);
        Ok(())
    }
}

impl<T> ChannelReceiver<T> for Receiver<T> {
    fn recv(&mut self) -> Option<T> {
        self.0.borrow_mut().items.pop_front()
    }
}

impl<T> Drop for Receiver<T> {
    fn drop(&mut self) {
        self.0.borrow_mut().receiver_alive = false;
    }
}

struct LocalChannel;

impl<T> Channel<T> for LocalChannel {
    type Sender = Sender<T>;
    type Receiver = Receiver<T>;

    fn new_unbounded() -> (Sender<T>, Receiver<T>) {
        let queue = Rc::new(RefCell::new(Queue { items: VecDeque::new(), receiver_alive: true }));
        (Sender(queue.clone()), Receiver(queue))
    }
}

#[test]
fn read_exact_fills_the_buffer_or_fails() {
    let mut source = Source { bytes: vec![1, 2, 3, 4, 5], at: 0 };
    let mut buf = [0u8; 4];
    assert!(source.read_exact(&mut buf).is_ok());
    assert_eq!(buf, [1, 2, 3, 4]);
    let mut buf = [0u8; 2];
    assert!(source.read_exact(&mut buf).is_err());
}

#[test]
fn write_all_then_flush_writes_everything() {
    let mut sink = Sink { pending: Vec::new(), written: Vec::new() };
    sink.write_all(&[1, 2]).unwrap();
    sink.write_all(&[3]).unwrap();
    assert!(sink.written.is_empty());
    sink.flush().unwrap();
    assert_eq!(sink.written, vec![1, 2, 3]);
}

#[test]
fn lock_gives_scoped_access_and_stores_the_result() {
    let mutex = <Local<u32> as Mutex<u32>>::new(5);
    let seen = mutex.lock(|n| (n + 1, n));
    assert_eq!(seen, 5);
    let seen = mutex.lock(|n| (n, n));
    assert_eq!(seen, 6);
}

#[test]
fn channel_keeps_order_and_reports_a_missing_receiver() {
    let (sender, mut receiver) = <LocalChannel as Channel<u8>>::new_unbounded();
    assert_eq!(sender.send(1), Ok(()));
    assert_eq!(sender.send(2), Ok(()));
    assert_eq!(receiver.recv(), Some(1));
    assert_eq!(receiver.recv(), Some(2));
    assert_eq!(receiver.recv(), None);
    drop(receiver);
    assert_eq!(sender.send(3), Err(SendError));
}
