use crate::common::error::ErrorKind;
use crate::common::stream::{Stream, StreamView};
use vstd::prelude::*;

verus! {

/// The mathematical content of a [`Listener`].
pub struct ListenerView {
    /// The connections that wait to be accepted, oldest first.
    pub pending: Seq<StreamView>,
    /// The failure that the transport reported, if any.
    pub failure: Option<ErrorKind>,
}

impl ListenerView {
    /// A listener on which nothing has happened yet.
    pub open spec fn fresh() -> ListenerView {
        ListenerView { pending: Seq::empty(), failure: None }
    }

    /// The error with which `accept` fails, if it does: with nothing pending,
    /// the reported failure, or `WouldBlock` if there is none.
    pub open spec fn accept_error(self) -> Option<ErrorKind> {
        if self.pending.len() > 0 {
            None
        } else {
            match self.failure {
                Some(kind) => Some(kind),
                None => Some(ErrorKind::WouldBlock),
            }
        }
    }

    /// The listener after one call of `accept`: the oldest pending connection,
    /// if there is one, has left.
    pub open spec fn after_accept(self) -> ListenerView {
        if self.pending.len() > 0 {
            ListenerView { pending: self.pending.drop_first(), ..self }
        } else {
            self
        }
    }

    /// The listener after the transport offered the connection `stream`.
    pub open spec fn after_offer(self, stream: StreamView) -> ListenerView {
        ListenerView { pending: self.pending.push(stream), ..self }
    }

    /// The listener after the transport failed with `kind`.
    pub open spec fn after_fail(self, kind: ErrorKind) -> ListenerView {
        ListenerView { failure: Some(kind), ..self }
    }
}

/// A listening socket, held in memory: the program around the library offers
/// it the connections that the transport accepted, and reports its failures.
#[derive(Debug)]
pub struct Listener {
    pending: Vec<Stream>,
    failure: Option<ErrorKind>,
}

impl View for Listener {
    type V = ListenerView;

    closed spec fn view(&self) -> ListenerView {
        ListenerView {
            pending: self.pending@.map_values(|s: Stream| s@),
            failure: self.failure,
        }
    }
}

impl Listener {
    /// A listener on which nothing has happened yet.
    pub fn new() -> (l: Self)
        ensures
            l@ == ListenerView::fresh(),
    {
        let l = Listener { pending: Vec::new(), failure: None };
        assert(l@.pending =~= Seq::empty());
        l
    }

    /// Accepts the oldest pending connection without blocking.
    pub fn accept(&mut self) -> (res: Result<Stream, ErrorKind>)
        ensures
            final(self)@ == old(self)@.after_accept(),
            match old(self)@.accept_error() {
                Some(kind) => res matches Err(k) && k == kind,
                None => res matches Ok(stream) && stream@ == old(self)@.pending[0],
            },
    {
        if self.pending.len() > 0 {
            let stream = self.pending.remove(0);
            assert(self@.pending =~= old(self)@.pending.drop_first());
            Ok(stream)
        } else {
            match self.failure {
                Some(kind) => Err(kind),
                None => Err(ErrorKind::WouldBlock),
            }
        }
    }

    /// The number of connections that wait to be accepted.
    pub fn pending_len(&self) -> (n: usize)
        ensures
            n == self@.pending.len(),
    {
        self.pending.len()
    }

    /// Takes in a connection that the transport accepted.
    pub fn offer(&mut self, stream: Stream)
        ensures
            final(self)@ == old(self)@.after_offer(stream@),
    {
        self.pending.push(stream);
        assert(self@.pending =~= old(self)@.pending.push(stream@));
    }

    /// Records that the transport failed with `kind`.
    pub fn fail(&mut self, kind: ErrorKind)
        ensures
            final(self)@ == old(self)@.after_fail(kind),
    {
        self.failure = Some(kind);
    }
}

} // verus!
