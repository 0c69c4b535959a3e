//! The address-mapping capability the caller supplies. It turns a physical
//! address and a minimum byte size into a readable window over physical
//! memory and releases such a window again; the walker itself never
//! allocates or frees memory.
//!
//! The trait carries a model of the memory contents, two call counters
//! and a log of map requests as specification state, so the walker can
//! state that every successful map is paired with exactly one unmap, that
//! mapping never changes what the memory holds, and which addresses and
//! sizes it asked to have mapped.

use vstd::prelude::*;

verus! {

/// A raw offset into the machine's physical memory.
#[derive(Clone, Copy, Debug, PartialEq, Eq, Structural)]
pub struct PhysicalAddress(pub usize);

/// A readable window over a physical address range, held from a successful
/// `map` until the matching `unmap` releases it.
#[derive(Debug)]
pub struct Window {
    pub bytes: Vec<u8>,
}

/// The capability that maps and unmaps physical memory windows.
///
/// An implementation chooses how `contents` models the memory it exposes;
/// the contracts then oblige it to hand out windows that agree with that
/// model, to leave the model unchanged by mapping, and to count every
/// successful `map` and every `unmap` call.
pub trait Mapper {
    /// The bytes of the physical memory this capability exposes. The
    /// default models no memory at all, under which no `map` can succeed;
    /// a useful implementation overrides it.
    open spec fn contents(&self) -> Seq<u8> {
        Seq::empty()
    }

    /// How many `map` calls have succeeded so far.
    open spec fn maps(&self) -> nat {
        0
    }

    /// How many times `unmap` has been called so far.
    open spec fn unmaps(&self) -> nat {
        0
    }

    /// The address and requested size of every successful `map` call so
    /// far, oldest first: what the walker asked this capability to make
    /// accessible.
    open spec fn map_requests(&self) -> Seq<(int, int)> {
        Seq::empty()
    }

    /// The page granularity as specification state; `map` and `unmap`
    /// leave it unchanged. The default stands for an implementation whose
    /// `page_size` was never pinned down; a useful one overrides it.
    open spec fn spec_page_size(&self) -> nat {
        0
    }

    /// The granularity used for rounding and for low-memory scan stepping.
    fn page_size(&self) -> (r: usize)
        ensures
            r > 0,
            r == self.spec_page_size(),
    ;

    /// Makes `size` bytes starting at `address` accessible. On success the
    /// window covers at least the requested extent and holds exactly what
    /// the memory holds there; on failure nothing was mapped.
    fn map(&mut self, address: PhysicalAddress, size: usize) -> (r: Result<
        Window,
        &'static str,
    >)
        ensures
            final(self).contents() == old(self).contents(),
            final(self).unmaps() == old(self).unmaps(),
            final(self).spec_page_size() == old(self).spec_page_size(),
            match r {
                Ok(w) => {
                    &&& final(self).maps() == old(self).maps() + 1
                    &&& final(self).map_requests() == old(self).map_requests().push(
                        (address.0 as int, size as int),
                    )
                    &&& w.bytes@.len() >= size
                    &&& address.0 + w.bytes@.len() <= old(self).contents().len()
                    &&& w.bytes@ == old(self).contents().subrange(
                        address.0 as int,
                        address.0 + w.bytes@.len(),
                    )
                },
                Err(_) => final(self).maps() == old(self).maps() && final(self).map_requests()
                    == old(self).map_requests(),
            },
    ;

    /// Releases a previously obtained window. The call counts whether or
    /// not it succeeds: a failed release is fatal to the walk and is never
    /// retried.
    fn unmap(&mut self, window: Window) -> (r: Result<(), &'static str>)
        ensures
            final(self).contents() == old(self).contents(),
            final(self).maps() == old(self).maps(),
            final(self).unmaps() == old(self).unmaps() + 1,
            final(self).spec_page_size() == old(self).spec_page_size(),
            final(self).map_requests() == old(self).map_requests(),
    ;
}

} // verus!
