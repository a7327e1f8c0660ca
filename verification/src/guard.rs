//! The resource guard: an owned handle to a server-side resource id that asks
//! the connection to free the resource when it is released, once, unless the
//! owner has told it to forget the resource.

use vstd::prelude::*;
use crate::multiplexer::{
    freed, sent, ConnectionError, ConnectionState, Multiplexer, MultiplexerView, OutgoingView,
    PayloadView,
};
use crate::resources::{definitions_for, destroyer_of};

verus! {

/// An owned handle to a resource that the server allocated.
#[derive(Debug)]
pub struct ResourceGuard {
    id: u32,
    extension: String,
    resource_type: String,
    released: bool,
}

/// Mathematical model of a [`ResourceGuard`].
pub ghost struct GuardView {
    pub id: u32,
    pub extension: Seq<char>,
    pub resource_type: Seq<char>,
    pub released: bool,
}

impl View for ResourceGuard {
    type V = GuardView;

    closed spec fn view(&self) -> GuardView {
        GuardView {
            id: self.id,
            extension: self.extension@,
            resource_type: self.resource_type@,
            released: self.released,
        }
    }
}

/// The connection after a guard was released on it: a guard that still owns
/// its resource has the connection free it; one that does not changes nothing.
pub open spec fn after_release(pre: MultiplexerView, guard: GuardView) -> MultiplexerView {
    if guard.released {
        pre
    } else {
        freed(pre, guard.extension, guard.resource_type, guard.id)
    }
}

/// The number of requests in `outbox` that free the resource `id`.
pub open spec fn free_requests(outbox: Seq<OutgoingView>, id: u32) -> nat
    decreases outbox.len(),
{
    if outbox.len() == 0 {
        0
    } else {
        let rest = free_requests(outbox.drop_last(), id);
        match outbox.last().payload {
            PayloadView::Free { request_name, id: freed_id } => if freed_id == id {
                rest + 1
            } else {
                rest
            },
            PayloadView::Bytes(_) => rest,
        }
    }
}

impl ResourceGuard {
    /// Takes ownership of the resource `id`, of the given type and extension.
    pub fn acquire(extension: &str, resource_type: &str, id: u32) -> (r: ResourceGuard)
        ensures
            r@ == (GuardView {
                id,
                extension: extension@,
                resource_type: resource_type@,
                released: false,
            }),
    {
        ResourceGuard {
            id,
            extension: extension.to_owned(),
            resource_type: resource_type.to_owned(),
            released: false,
        }
    }

    /// The id of the resource.
    pub fn id(&self) -> (r: u32)
        ensures
            r == self@.id,
    {
        self.id
    }

    /// Whether the guard has given its resource up, by `forget` or by `release`.
    pub fn is_released(&self) -> (r: bool)
        ensures
            r == self@.released,
    {
        self.released
    }

    /// Gives the resource up without freeing it, and returns its id: a later
    /// release of this guard sends nothing. The guard must still own the
    /// resource.
    pub fn forget(&mut self) -> (r: u32)
        requires
            !old(self)@.released,
        ensures
            r == old(self)@.id,
            final(self)@ == (GuardView { released: true, ..old(self)@ }),
    {
        self.released = true;
        self.id
    }

    /// Gives the resource up as `forget` does, after checking that the guard
    /// still owns it: a guard that has given its resource up already is
    /// refused and stays as it is.
    pub fn checked_forget(&mut self) -> (r: Result<u32, ConnectionError>)
        ensures
            old(self)@.released ==> r == Err::<u32, ConnectionError>(
                ConnectionError::ResourceAlreadyReleased,
            ) && final(self)@ == old(self)@,
            !old(self)@.released ==> r == Ok::<u32, ConnectionError>(old(self)@.id) && final(self)@
                == (GuardView { released: true, ..old(self)@ }),
    {
        if self.released {
            Err(ConnectionError::ResourceAlreadyReleased)
        } else {
            Ok(self.forget())
        }
    }

    /// Releases the guard, as at the end of its owner's scope. A guard that
    /// still owns its resource asks the connection to free it, which a
    /// connection that is not open silently ignores; a guard that has given
    /// the resource up changes nothing. Either way the guard owns nothing
    /// afterwards.
    pub fn release(&mut self, connection: &mut Multiplexer)
        requires
            old(connection).wf(),
        ensures
            final(connection).wf(),
            final(connection)@ == after_release(old(connection)@, old(self)@),
            final(self)@ == (GuardView { released: true, ..old(self)@ }),
    {
        if !self.released {
            self.released = true;
            connection.free_resource(self.extension.as_str(), self.resource_type.as_str(), self.id);
        }
    }
}

/// Releasing a guard that owns its resource on an open connection, for a
/// resource type whose free request the registry names, sends exactly one
/// request that frees the resource, with the next sequence number and that
/// name; releasing the guard again sends nothing more.
pub proof fn lemma_release_frees_once(pre: MultiplexerView, guard: GuardView)
    requires
        !guard.released,
        pre.state == ConnectionState::Open,
        destroyer_of(definitions_for(guard.extension), guard.resource_type) is Some,
    ensures
        after_release(pre, guard) == sent(
            pre,
            PayloadView::Free {
                request_name: destroyer_of(
                    definitions_for(guard.extension),
                    guard.resource_type,
                )->0,
                id: guard.id,
            },
            false,
        ),
        free_requests(after_release(pre, guard).outbox, guard.id) == free_requests(
            pre.outbox,
            guard.id,
        ) + 1,
        after_release(after_release(pre, guard), GuardView { released: true, ..guard })
            == after_release(pre, guard),
{
    let post = after_release(pre, guard);
    assert(post.outbox.drop_last() =~= pre.outbox);
}

/// Releasing a guard that was told to forget its resource sends no request:
/// the connection stays as it was.
pub proof fn lemma_forgotten_frees_nothing(pre: MultiplexerView, guard: GuardView)
    ensures
        after_release(pre, GuardView { released: true, ..guard }) == pre,
        free_requests(after_release(pre, GuardView { released: true, ..guard }).outbox, guard.id)
            == free_requests(pre.outbox, guard.id),
{
}

/// Releasing a guard on a connection that is not open sends no request.
pub proof fn lemma_release_when_not_open(pre: MultiplexerView, guard: GuardView)
    requires
        pre.state != ConnectionState::Open,
    ensures
        after_release(pre, guard) == pre,
{
}

} // verus!
