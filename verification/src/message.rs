//! Descriptors planning how a message's bytes are stored.
use vstd::prelude::*;

verus! {

/// Ownership state of a message's storage.
#[derive(Clone, Copy, Debug, PartialEq, Eq, Structural)]
pub enum MessageStorageKind {
    Empty,
    Inline,
    Heap,
    ForeignBuffer,
}

/// A message descriptor: its storage kind and size. A plan is `Empty`
/// exactly when its size is zero; a non-empty plan is held on the heap.
#[derive(Clone, Copy, Debug, PartialEq, Eq, Structural)]
pub struct MessagePlan {
    storage: MessageStorageKind,
    size: usize,
}

impl MessagePlan {
    #[verifier::type_invariant]
    spec fn consistent(self) -> bool {
        &&& (self.storage == MessageStorageKind::Empty) <==> (self.size == 0)
        &&& (self.size != 0 ==> self.storage == MessageStorageKind::Heap)
    }

    /// The plan's storage kind.
    pub closed spec fn spec_storage(&self) -> MessageStorageKind {
        self.storage
    }

    /// The plan's size in bytes.
    pub closed spec fn spec_size(&self) -> usize {
        self.size
    }

    pub fn empty() -> (plan: Self)
        ensures
            plan.spec_storage() == MessageStorageKind::Empty,
            plan.spec_size() == 0,
    {
        MessagePlan { storage: MessageStorageKind::Empty, size: 0 }
    }

    pub fn sized(size: usize) -> (plan: Self)
        ensures
            plan.spec_size() == size,
            plan.spec_storage() == (if size == 0 {
                MessageStorageKind::Empty
            } else {
                MessageStorageKind::Heap
            }),
    {
        MessagePlan {
            storage: if size == 0 {
                MessageStorageKind::Empty
            } else {
                MessageStorageKind::Heap
            },
            size,
        }
    }

    /// The storage kind; it is `Empty` exactly when the size is zero and
    /// `Heap` otherwise.
    pub fn storage(&self) -> (kind: MessageStorageKind)
        ensures
            kind == self.spec_storage(),
            (kind == MessageStorageKind::Empty) <==> (self.spec_size() == 0),
            self.spec_size() != 0 ==> kind == MessageStorageKind::Heap,
    {
        proof {
            use_type_invariant(self);
        }
        self.storage
    }

    pub fn size(&self) -> (size: usize)
        ensures
            size == self.spec_size(),
    {
        self.size
    }
}

/// A plan is determined by its storage kind and its size: two plans that
/// agree on both are equal. In particular `sized(0)` equals `empty()`, and a
/// plan from `sized(n)` equals `empty()` exactly when `n` is zero.
pub proof fn lemma_plan_equality(a: MessagePlan, b: MessagePlan)
    ensures
        (a == b) <==> (a.spec_storage() == b.spec_storage() && a.spec_size() == b.spec_size()),
{
}

} // verus!
