//! Two listeners joined into one: which of them is polled first, and what
//! the joined listener answers from what they answer.

use vstd::prelude::*;

verus! {

/// A connection of a joined listener: one of the first listener, or one
/// of the second.
#[derive(Debug, PartialEq, Eq)]
pub enum JoinedStream<A, B> {
    #[allow(missing_docs)]
    A(A),
    #[allow(missing_docs)]
    B(B),
}

/// One of the two listeners of a joined listener.
#[derive(Clone, Copy, Debug, PartialEq, Eq, Structural)]
pub enum Side {
    /// The first listener.
    A,
    /// The second listener.
    B,
}

impl Side {
    /// The other listener.
    pub open spec fn other(self) -> Side {
        match self {
            Side::A => Side::B,
            Side::B => Side::A,
        }
    }
}

/// What a listener answers when it is polled for a connection.
#[derive(Debug, PartialEq, Eq)]
pub enum Polled<C> {
    /// A connection was accepted.
    Conn(C),
    /// Accepting a connection failed.
    Failed,
    /// The listener is closed.
    Closed,
    /// No connection is waiting.
    Pending,
}

/// What to do after the first listener was polled.
#[derive(Debug, PartialEq, Eq)]
pub enum Next<A, B> {
    /// Answer with this.
    Return(Polled<JoinedStream<A, B>>),
    /// Poll the listener on this side, and answer with what it answers.
    Poll(Side),
}

/// The answer of the joined listener that stands for the answer `polled`
/// of its first listener.
pub open spec fn joined_a<A, B>(polled: Polled<A>) -> Polled<JoinedStream<A, B>> {
    match polled {
        Polled::Conn(conn) => Polled::Conn(JoinedStream::A(conn)),
        Polled::Failed => Polled::Failed,
        Polled::Closed => Polled::Closed,
        Polled::Pending => Polled::Pending,
    }
}

/// The answer of the joined listener that stands for the answer `polled`
/// of its second listener.
pub open spec fn joined_b<A, B>(polled: Polled<B>) -> Polled<JoinedStream<A, B>> {
    match polled {
        Polled::Conn(conn) => Polled::Conn(JoinedStream::B(conn)),
        Polled::Failed => Polled::Failed,
        Polled::Closed => Polled::Closed,
        Polled::Pending => Polled::Pending,
    }
}

/// Calls `fastrand::bool`. Nothing is stated of the result: it is drawn
/// at random.
#[verifier::external_body]
fn flip() -> (coin: bool) {
    fastrand::bool()
}

/// The listener that is polled first when the coin shows `coin`.
pub fn first_side(coin: bool) -> (side: Side)
    ensures
        side == if coin {
            Side::A
        } else {
            Side::B
        },
{
    if coin {
        Side::A
    } else {
        Side::B
    }
}

/// Draws the listener that is polled first. Either may come out, so that
/// neither listener starves the other.
pub fn draw_side() -> (side: Side) {
    first_side(flip())
}

/// The answer of the joined listener for the answer of its first
/// listener.
pub fn join_a<A, B>(polled: Polled<A>) -> (res: Polled<JoinedStream<A, B>>)
    ensures
        res == joined_a::<A, B>(polled),
{
    match polled {
        Polled::Conn(conn) => Polled::Conn(JoinedStream::A(conn)),
        Polled::Failed => Polled::Failed,
        Polled::Closed => Polled::Closed,
        Polled::Pending => Polled::Pending,
    }
}

/// The answer of the joined listener for the answer of its second
/// listener.
pub fn join_b<A, B>(polled: Polled<B>) -> (res: Polled<JoinedStream<A, B>>)
    ensures
        res == joined_b::<A, B>(polled),
{
    match polled {
        Polled::Conn(conn) => Polled::Conn(JoinedStream::B(conn)),
        Polled::Failed => Polled::Failed,
        Polled::Closed => Polled::Closed,
        Polled::Pending => Polled::Pending,
    }
}

/// What to do after the first listener was polled first: if it has no
/// connection waiting, the second listener is polled; any other answer is
/// the answer of the joined listener.
pub fn after_first_a<A, B>(polled: Polled<A>) -> (next: Next<A, B>)
    ensures
        next == if polled is Pending {
            Next::<A, B>::Poll(Side::B)
        } else {
            Next::Return(joined_a::<A, B>(polled))
        },
{
    match polled {
        Polled::Pending => Next::Poll(Side::B),
        other => Next::Return(join_a(other)),
    }
}

/// What to do after the second listener was polled first: if it has no
/// connection waiting, the first listener is polled; any other answer is
/// the answer of the joined listener.
pub fn after_first_b<A, B>(polled: Polled<B>) -> (next: Next<A, B>)
    ensures
        next == if polled is Pending {
            Next::<A, B>::Poll(Side::A)
        } else {
            Next::Return(joined_b::<A, B>(polled))
        },
{
    match polled {
        Polled::Pending => Next::Poll(Side::A),
        other => Next::Return(join_b(other)),
    }
}

/// Two listeners that accept connections as one.
#[derive(Debug)]
pub struct JoinedListener<A, B> {
    a: A,
    b: B,
}

impl<A, B> JoinedListener<A, B> {
    /// The first listener.
    pub closed spec fn first(self) -> A {
        self.a
    }

    /// The second listener.
    pub closed spec fn second(self) -> B {
        self.b
    }

    /// Joins `a` and `b`.
    pub fn new(a: A, b: B) -> (joined: JoinedListener<A, B>)
        ensures
            joined.first() == a,
            joined.second() == b,
    {
        JoinedListener { a, b }
    }

    /// The two listeners, for polling.
    pub fn parts_mut(&mut self) -> (parts: (&mut A, &mut B))
        ensures
            *parts.0 == old(self).first(),
            *parts.1 == old(self).second(),
            final(self).first() == *final(parts.0),
            final(self).second() == *final(parts.1),
    {
        (&mut self.a, &mut self.b)
    }

    /// Takes the joined listener apart.
    pub fn into_parts(self) -> (parts: (A, B))
        ensures
            parts.0 == self.first(),
            parts.1 == self.second(),
    {
        (self.a, self.b)
    }
}

/// Something that accepts connections.
pub trait Listener: Sized {
    /// Joins this listener with `other`.
    fn join<T>(self, other: T) -> (joined: JoinedListener<Self, T>)
        ensures
            joined.first() == self,
            joined.second() == other,
    {
        JoinedListener::new(self, other)
    }
}

impl<A, B> Listener for JoinedListener<A, B> {

}

} // verus!
