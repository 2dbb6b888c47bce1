//! Ownership accounting for engine-allocated memory.
//!
//! Values the engine allocates and hands to the bridge must be released
//! exactly once, through the release path that matches their allocation: the
//! generic low-level routine for flat arrays and plain C strings, or the
//! engine's structured task destructor for task records. Each such value is
//! wrapped in a type that records what it owes, and the only way to get the
//! data out consumes the wrapper and settles the debt against a ledger, so
//! no call site can pick the wrong path, release twice, or forget to release.
//!
//! The ledger's counters are ghost state: they never exist at run time, and
//! the balance stated in the decoders' contracts holds of every execution.

use vstd::prelude::*;

verus! {

use crate::marshal::{c_content, decoded_text, decode_c_string};

/// Running totals of engine allocations handed to the bridge and of the
/// releases the bridge performed, split by release path.
pub struct AllocLedger {
    /// Allocations owed to the generic low-level deallocation routine.
    pub generic_allocated: Ghost<nat>,
    /// Releases performed through the generic routine.
    pub generic_freed: Ghost<nat>,
    /// Task records owed to the engine's structured destructor.
    pub task_allocated: Ghost<nat>,
    /// Releases performed through the structured destructor.
    pub task_freed: Ghost<nat>,
}

impl AllocLedger {
    /// A ledger with nothing allocated and nothing freed.
    pub fn new() -> (r: AllocLedger)
        ensures
            r.generic_allocated@ == 0,
            r.generic_freed@ == 0,
            r.task_allocated@ == 0,
            r.task_freed@ == 0,
    {
        AllocLedger {
            generic_allocated: Ghost(0),
            generic_freed: Ghost(0),
            task_allocated: Ghost(0),
            task_freed: Ghost(0),
        }
    }

    /// Every allocation recorded so far has been released, on both paths.
    pub open spec fn balanced(self) -> bool {
        self.generic_freed@ == self.generic_allocated@ && self.task_freed@
            == self.task_allocated@
    }
}

/// An array of C strings the engine allocated for the bridge: one generic
/// allocation per element plus one for the array itself. `None` stands for a
/// null result pointer, which owes nothing and decodes to an empty list.
pub struct EngineStrArray {
    pub elems: Option<Vec<Vec<u8>>>,
}

impl EngineStrArray {
    /// The C string images the array holds.
    pub open spec fn items(self) -> Seq<Seq<u8>> {
        match self.elems {
            Some(v) => v.deep_view(),
            None => Seq::empty(),
        }
    }

    /// How many generic allocations the array owes.
    pub open spec fn alloc_count(self) -> nat {
        match self.elems {
            Some(v) => v@.len() + 1,
            None => 0,
        }
    }
}

/// A flat array of task identifiers the engine allocated for the bridge:
/// one generic allocation. `None` stands for a null result pointer.
pub struct EngineIdArray {
    pub ids: Option<Vec<i32>>,
}

impl EngineIdArray {
    /// The identifiers the array holds.
    pub open spec fn items(self) -> Seq<i32> {
        match self.ids {
            Some(v) => v@,
            None => Seq::empty(),
        }
    }

    /// How many generic allocations the array owes.
    pub open spec fn alloc_count(self) -> nat {
        match self.ids {
            Some(v) => 1,
            None => 0,
        }
    }
}

/// Decode every element of an engine-allocated string array and release the
/// whole array: each element and the array itself go back through the generic
/// routine, exactly once. A null array is a valid empty result.
pub fn decode_str_array(arr: EngineStrArray, ledger: &mut AllocLedger) -> (r: Vec<String>)
    ensures
        r@.len() == arr.items().len(),
        forall|i: int|
            0 <= i < r@.len() ==> r@[i]@ == decoded_text(c_content(arr.items()[i])),
        final(ledger).generic_freed@ == old(ledger).generic_freed@ + arr.alloc_count(),
        final(ledger).generic_allocated@ == old(ledger).generic_allocated@,
        final(ledger).task_allocated@ == old(ledger).task_allocated@,
        final(ledger).task_freed@ == old(ledger).task_freed@,
{
    match arr.elems {
        None => Vec::new(),
        Some(elems) => {
            let mut out: Vec<String> = Vec::new();
            let mut i: usize = 0;
            while i < elems.len()
                invariant
                    0 <= i <= elems@.len(),
                    out@.len() == i,
                    forall|j: int|
                        0 <= j < i ==> out@[j]@ == decoded_text(
                            c_content(elems.deep_view()[j]),
                        ),
                    ledger.generic_freed@ == old(ledger).generic_freed@ + i,
                    ledger.generic_allocated@ == old(ledger).generic_allocated@,
                    ledger.task_allocated@ == old(ledger).task_allocated@,
                    ledger.task_freed@ == old(ledger).task_freed@,
                decreases elems@.len() - i,
            {
                let text = decode_c_string(&elems[i]);
                proof {
                    assert(elems.deep_view()[i as int] == elems@[i as int]@);
                }
                out.push(text);
                ledger.generic_freed = Ghost(ledger.generic_freed@ + 1);
                i = i + 1;
            }
            ledger.generic_freed = Ghost(ledger.generic_freed@ + 1);
            out
        },
    }
}

/// Copy every identifier out of an engine-allocated id array and release the
/// array through the generic routine, exactly once. A null array is a valid
/// empty result.
pub fn decode_id_array(arr: EngineIdArray, ledger: &mut AllocLedger) -> (r: Vec<i32>)
    ensures
        r@ == arr.items(),
        final(ledger).generic_freed@ == old(ledger).generic_freed@ + arr.alloc_count(),
        final(ledger).generic_allocated@ == old(ledger).generic_allocated@,
        final(ledger).task_allocated@ == old(ledger).task_allocated@,
        final(ledger).task_freed@ == old(ledger).task_freed@,
{
    match arr.ids {
        None => Vec::new(),
        Some(ids) => {
            ledger.generic_freed = Ghost(ledger.generic_freed@ + 1);
            ids
        },
    }
}

} // verus!
