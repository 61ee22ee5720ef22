//! Verified core of an OpenSHMEM binding.
//!
//! This crate holds the parts of the binding that compute on plain values:
//! processing-element (PE) ids, range handling for symmetric arrays, the
//! PE-local contents of symmetric-heap objects, and the distributed vector,
//! sparse matrix and graph search built on them. Every call into the
//! OpenSHMEM runtime itself (allocation on the symmetric heap, remote
//! reads and writes, atomics, collectives) is made by the caller, which
//! hands the runtime's answers to the functions here.
use vstd::prelude::*;

pub mod atomics;
pub mod reduce;
pub mod shmalloc;
pub mod shvec;
pub mod matrix;
pub mod graph;
pub mod traits;
pub mod wait;
pub mod benchmark;
pub mod thread_parallel;
pub mod shend_derive;

verus! {

/// Thin wrapper around a PE's u32 integer id that allows
/// for builder-pattern-esque remote PE accesses.
///
/// Access the PE id by the first field.
#[derive(Debug, Clone, Copy)]
pub struct PE(pub u32);

impl PE {
    /// Return the raw PE idx.
    ///
    /// This is always safe to call.
    pub fn raw(&self) -> (r: usize)
        ensures
            r == self.0,
    {
        self.0 as usize
    }
}

} // verus!

verus! {

impl PE {
    /// Compares the PE id with a raw index, as `PartialEq<usize>` does.
    pub fn eq_raw(&self, other: usize) -> (r: bool)
        ensures
            r == (self.0 as int == other as int),
    {
        self.0 as usize == other
    }
}

/// General error type for OpenSHMEM functions.
#[derive(Debug, Clone, Copy)]
pub enum ShmemError {
    /// The given reference was inaccessible from the remote PE.
    Inaccessible(PE),
    /// The ShmemCtx has already been initialized through another init call.
    AlreadyInitialized,
    /// The error given by the underlying implementation
    /// is not defined by the specification.
    ImplementationDefined(i32),
}

/// The world context of an initialized OpenSHMEM program, as seen from
/// the calling PE: its own id and the number of PEs in the world.
///
/// The runtime fixes both numbers for the lifetime of the program, so the
/// context records them once, when the runtime has been initialized.
pub struct ShmemCtx {
    my_pe: PE,
    n_pes: usize,
}

impl ShmemCtx {
    /// The id of the calling PE.
    pub closed spec fn pe_id(&self) -> nat {
        self.my_pe.0 as nat
    }

    /// The number of PEs in the world.
    pub closed spec fn world_size(&self) -> nat {
        self.n_pes as nat
    }

    /// A calling PE is always one of the PEs of the world.
    #[verifier::type_invariant]
    spec fn inv(&self) -> bool {
        &&& self.pe_id() < self.world_size()
        &&& self.world_size() <= i32::MAX
    }

    /// Builds the context from what an initialized runtime reports:
    /// the id of the calling PE (`shmem_my_pe`) and the number of PEs
    /// (`shmem_n_pes`, a C `int`).
    pub fn new(my_pe: PE, n_pes: usize) -> (ctx: ShmemCtx)
        requires
            my_pe.0 < n_pes,
            n_pes <= i32::MAX,
        ensures
            ctx.pe_id() == my_pe.0,
            ctx.world_size() == n_pes,
    {
        ShmemCtx { my_pe, n_pes }
    }

    /// Equivalent to `shmem_my_pe`; returns the unique
    /// number representing the calling PE.
    pub fn my_pe(&self) -> (r: PE)
        ensures
            r.0 == self.pe_id(),
            r.0 < self.world_size(),
    {
        proof {
            use_type_invariant(self);
        }
        self.my_pe
    }

    /// Equivalent to `shmem_n_pes`; returns the
    /// amount of PEs in the known world.
    pub fn n_pes(&self) -> (r: usize)
        ensures
            r == self.world_size(),
            0 < r <= i32::MAX,
    {
        proof {
            use_type_invariant(self);
        }
        self.n_pes
    }

    /// Equivalent to `shmem_finalize`: consumes the context, after which
    /// no routine can be called through it.
    pub fn finalize(self) {
    }

    /// Equivalent to `shmem_info_get_name`: the name of the underlying
    /// OpenSHMEM implementation, from the buffer the runtime filled.
    ///
    /// The name is the bytes before the buffer's first NUL; the buffer
    /// must hold one.
    pub fn info_get_name(&self, raw: &[u8]) -> (r: Vec<u8>)
        requires
            exists|i: int| 0 <= i < raw@.len() && raw@[i] == 0,
        ensures
            r@ == raw@.subrange(0, first_nul(raw@)),
    {
        let mut k: usize = 0;
        while k < raw.len()
            invariant
                k <= raw@.len(),
                forall|j: int| 0 <= j < k ==> raw@[j] != 0,
            ensures
                k <= raw@.len(),
                forall|j: int| 0 <= j < k ==> raw@[j] != 0,
                k < raw@.len() ==> raw@[k as int] == 0,
            decreases raw@.len() - k,
        {
            if raw[k] == 0 {
                break;
            }
            k = k + 1;
        }
        proof {
            if k == raw@.len() {
                let i = choose|i: int| 0 <= i < raw@.len() && raw@[i] == 0;
                assert(raw@[i] != 0);
            }
            let c = choose|c: int| 0 <= c < raw@.len() && raw@[c] == 0 && forall|j: int| 0 <= j < c ==> raw@[j] != 0;
            assert(0 <= k < raw@.len() && raw@[k as int] == 0 && forall|j: int| 0 <= j < k ==> raw@[j] != 0);
            if c < k {
            } else if c > k {
            }
        }
        let mut name: Vec<u8> = Vec::new();
        let mut i: usize = 0;
        while i < k
            invariant
                i <= k <= raw@.len(),
                name@ == raw@.subrange(0, i as int),
            decreases k - i,
        {
            name.push(raw[i]);
            assert(raw@.subrange(0, i + 1) =~= raw@.subrange(0, i as int).push(raw@[i as int]));
            i = i + 1;
        }
        name
    }

    /// Almost equivalent to `shmem_info_get_name`: the name of the
    /// underlying OpenSHMEM implementation as a `String`, replacing what
    /// is not UTF-8 as `String::from_utf8_lossy` does.
    pub fn info_get_name_str(&self, raw: &[u8]) -> (r: String)
        requires
            exists|i: int| 0 <= i < raw@.len() && raw@[i] == 0,
        ensures
            r@ == utf8_lossy(raw@.subrange(0, first_nul(raw@))),
            vstd::utf8::valid_utf8(raw@.subrange(0, first_nul(raw@))) ==> r@
                == vstd::utf8::decode_utf8(raw@.subrange(0, first_nul(raw@))),
    {
        let name = self.info_get_name(raw);
        lossy_string(name.as_slice())
    }

    /// Thin wrapper over `shmem_team_my_pe` that returns None instead of
    /// -1 if the team is invalid; `raw` is the runtime's answer.
    pub fn team_my_pe(&self, raw: i32) -> (r: Option<PE>)
        ensures
            raw == -1 ==> r is None,
            raw != -1 ==> r == Some(PE(raw as u32)),
    {
        if raw == -1 {
            None
        } else {
            Some(PE(raw as u32))
        }
    }

    /// Thin wrapper over `shmem_team_n_pes` that returns None instead of -1
    /// if the team is invalid; `raw` is the runtime's answer.
    pub fn team_n_pes(&self, raw: i32) -> (r: Option<PE>)
        ensures
            raw == -1 ==> r is None,
            raw != -1 ==> r == Some(PE(raw as u32)),
    {
        if raw == -1 {
            None
        } else {
            Some(PE(raw as u32))
        }
    }

    /// Get a handle to a Shmallocator that allocates memory
    /// on the symmetric heap.
    pub fn shmallocator<'s>(&'s self) -> (r: shmalloc::Shmallocator<'s>)
        ensures
            r.ctx() == self,
    {
        shmalloc::Shmallocator::from_ctx(self)
    }

    /// Obtain a lifetimed reference to a remote PE.
    ///
    /// `accessible` is the runtime's answer to `shmem_pe_accessible` for
    /// that PE; a reference is only handed out for an accessible PE.
    pub fn pe<'ctx>(&'ctx self, pe: usize, accessible: bool) -> (r: PEReference<'ctx>)
        requires
            accessible,
        ensures
            r.ctx == self,
            r.pe.0 == pe as u32,
    {
        PEReference { ctx: self, pe: PE(pe as u32) }
    }
}

/// The position of the first NUL byte of `s`.
pub open spec fn first_nul(s: Seq<u8>) -> int {
    choose|c: int| 0 <= c < s.len() && s[c] == 0 && forall|j: int| 0 <= j < c ==> s[j] != 0
}

/// The text `String::from_utf8_lossy` makes of `bytes`.
pub uninterp spec fn utf8_lossy(bytes: Seq<u8>) -> Seq<char>;

/// Decodes `bytes` through `String::from_utf8_lossy`.
///
/// The result is `utf8_lossy(bytes)`, the standard library's decoding in
/// which each invalid sequence becomes U+FFFD; as its documentation says,
/// valid UTF-8 is decoded unchanged. The replacement rules for invalid
/// input are not written out here.
#[verifier::external_body]
fn lossy_string(bytes: &[u8]) -> (s: String)
    ensures
        s@ == utf8_lossy(bytes@),
        vstd::utf8::valid_utf8(bytes@) ==> s@ == vstd::utf8::decode_utf8(bytes@),
{
    String::from_utf8_lossy(bytes).into_owned()
}

/// Thin wrapper over `shmem_team_config_t`.
///
/// Construct with `TeamConfig::new()`.
pub struct TeamConfig {
    /// The number of contexts the team is configured with (a C `int`).
    pub num_contexts: i32,
}

impl TeamConfig {
    /// Construct a new `TeamConfig` with the given `num_contexts`.
    pub fn new(num_contexts: usize) -> (r: Self)
        ensures
            r.num_contexts == num_contexts as i32,
    {
        TeamConfig { num_contexts: num_contexts as i32 }
    }
}

/// Reference to a remote PE, wrapped for convenient usage
/// of RMA routines.
#[derive(Copy, Clone)]
pub struct PEReference<'ctx> {
    /// The context the reference was obtained from.
    pub ctx: &'ctx ShmemCtx,
    /// The PE referred to.
    pub pe: PE,
}

/// Marker for Handles to a Team.
#[derive(Clone, Copy)]
pub struct Team;

} // verus!
