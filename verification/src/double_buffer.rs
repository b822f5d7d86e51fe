//! A front and a back scene buffer with a two-step swap.
//!
//! A writer rebuilds one buffer while a reader samples the other.  The
//! writer asks for a swap; the reader adopts it when it next updates.  The
//! two flags that say which buffer is in front and whether a swap is pending
//! sit behind locks, as the buffers do, so that both sides can hold the
//! wrapper; what is decided from the flags is decided by `SwapState`.

use vstd::prelude::*;
use std::sync::Arc;
use parking_lot::RwLock;
use crate::meshing::Mesh;

verus! {

/// The reader-writer lock of `parking_lot`, opaque to the verifier.
#[verifier::external_type_specification]
#[verifier::external_body]
#[verifier::reject_recursive_types(R)]
#[verifier::reject_recursive_types(T)]
pub struct ExRwLock<R, T: ?Sized>(parking_lot::lock_api::RwLock<R, T>);

/// The raw lock under `parking_lot::RwLock`, opaque to the verifier.
#[verifier::external_type_specification]
#[verifier::external_body]
pub struct ExRawRwLock(parking_lot::RawRwLock);

/// One of the two buffers.
#[derive(Clone, Copy, Debug, PartialEq, Eq, Structural)]
pub enum Side {
    Front,
    Back,
}

/// The two flags of the swap: which buffer the reader sees, and whether the
/// writer has asked for a swap that the reader has not adopted yet.
#[derive(Clone, Copy, Debug, PartialEq, Eq, Structural)]
pub struct SwapState {
    pub current_front: bool,
    pub swapping: bool,
}

impl SwapState {
    /// The state at the start: the front buffer is read, no swap is pending.
    pub fn new() -> (state: Self)
        ensures
            state == (SwapState { current_front: true, swapping: false }),
    {
        SwapState { current_front: true, swapping: false }
    }

    /// The buffer that is read.
    pub open spec fn spec_reading(self) -> Side {
        if self.current_front {
            Side::Front
        } else {
            Side::Back
        }
    }

    /// The buffer that is written.
    pub open spec fn spec_writing(self) -> Side {
        if self.current_front {
            Side::Back
        } else {
            Side::Front
        }
    }

    /// The state after the writer asked for a swap.
    pub open spec fn spec_request(self) -> SwapState {
        SwapState { swapping: true, ..self }
    }

    /// The state after the reader updated: a pending swap is adopted.
    pub open spec fn spec_adopt(self) -> SwapState {
        if self.swapping {
            SwapState { current_front: !self.current_front, swapping: false }
        } else {
            self
        }
    }

    /// The buffer that is read.
    #[verifier::when_used_as_spec(spec_reading)]
    pub fn reading(self) -> (side: Side)
        ensures
            side == self.spec_reading(),
    {
        if self.current_front {
            Side::Front
        } else {
            Side::Back
        }
    }

    /// The buffer that is written.
    #[verifier::when_used_as_spec(spec_writing)]
    pub fn writing(self) -> (side: Side)
        ensures
            side == self.spec_writing(),
    {
        if self.current_front {
            Side::Back
        } else {
            Side::Front
        }
    }

    /// Asks for a swap.  Nothing flips yet.
    pub fn request(self) -> (next: SwapState)
        ensures
            next == self.spec_request(),
    {
        SwapState { current_front: self.current_front, swapping: true }
    }

    /// Adopts a pending swap.  Returns the new state and whether the buffers
    /// flipped.
    pub fn adopt(self) -> (next: (SwapState, bool))
        ensures
            next.0 == self.spec_adopt(),
            next.1 == self.swapping,
    {
        if !self.swapping {
            (self, false)
        } else {
            (SwapState { current_front: !self.current_front, swapping: false }, true)
        }
    }
}

/// A swap that is asked for and adopted flips the buffers once: what was
/// written is read, what was read is written, and a second update finds
/// nothing to adopt.
pub proof fn lemma_swap_commits(state: SwapState)
    ensures
        state.spec_request().spec_adopt().reading() == state.writing(),
        state.spec_request().spec_adopt().writing() == state.reading(),
        !state.spec_request().spec_adopt().swapping,
        state.spec_request().spec_adopt().spec_adopt() == state.spec_request().spec_adopt(),
{
}

/// Asking twice is asking once, and without a request an update changes
/// nothing.
pub proof fn lemma_swap_needs_request(state: SwapState)
    ensures
        state.spec_request().spec_request() == state.spec_request(),
        !state.swapping ==> state.spec_adopt() == state,
        state.spec_request().reading() == state.reading(),
{
}

/// A front and a back scene buffer, shared between a writer and a reader.
pub struct MeshDoubleBuffer {
    pub front: Arc<RwLock<Mesh>>,
    pub back: Arc<RwLock<Mesh>>,
    pub current_front: Arc<RwLock<bool>>,
    pub swapping: Arc<RwLock<bool>>,
}

/// `RwLock::read` on a flag, and the value under the guard.  Another holder
/// of the lock may have written the flag at any time, so nothing is claimed
/// of the value.
#[verifier::external_body]
fn read_flag(flag: &Arc<RwLock<bool>>) -> (value: bool) {
    *flag.read()
}

/// `RwLock::write` on a flag, storing `value` under the guard.
#[verifier::external_body]
fn write_flag(flag: &Arc<RwLock<bool>>, value: bool) {
    *flag.write() = value;
}

/// `Arc::clone`: another handle to the same lock.
#[verifier::external_body]
fn share(lock: &Arc<RwLock<Mesh>>) -> (handle: Arc<RwLock<Mesh>>)
    ensures
        handle == *lock,
{
    lock.clone()
}

impl MeshDoubleBuffer {
    /// A handle to the buffer on side `side`.
    pub fn side(&self, side: Side) -> (handle: Arc<RwLock<Mesh>>)
        ensures
            handle == (match side {
                Side::Front => self.front,
                Side::Back => self.back,
            }),
    {
        match side {
            Side::Front => share(&self.front),
            Side::Back => share(&self.back),
        }
    }

    /// A handle to the buffer that is read: the front one or the back one,
    /// as the flag stands when it is looked at.
    pub fn current(&self) -> (handle: Arc<RwLock<Mesh>>)
        ensures
            handle == self.front || handle == self.back,
    {
        let state = SwapState { current_front: read_flag(&self.current_front), swapping: false };
        self.side(state.reading())
    }

    /// A handle to the buffer that is written: the other one.
    pub fn back(&self) -> (handle: Arc<RwLock<Mesh>>)
        ensures
            handle == self.front || handle == self.back,
    {
        let state = SwapState { current_front: read_flag(&self.current_front), swapping: false };
        self.side(state.writing())
    }

    /// Asks for a swap.  Nothing flips until the reader updates.
    pub fn swap(&self) {
        write_flag(&self.swapping, true);
    }

    /// Adopts a pending swap and returns whether the buffers flipped.
    pub fn update(&self) -> (flipped: bool) {
        let state = SwapState {
            current_front: read_flag(&self.current_front),
            swapping: read_flag(&self.swapping),
        };
        let (next, flipped) = state.adopt();
        if flipped {
            write_flag(&self.swapping, next.swapping);
            write_flag(&self.current_front, next.current_front);
        }
        flipped
    }
}

} // verus!
