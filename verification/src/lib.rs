//! Core library for the PIC (Provenance Identity Continuity) model.
//!
//! A chain of signed tokens lets a request traverse a pipeline of
//! independent execution services while proving an unbroken chain of
//! custody back to an originating identity.  The authority granted at
//! each hop can only shrink or stay equal, never grow: the Causal
//! Authority service enforces that invariant when it advances a chain.
//!
//! The modules are laid out leaves first: byte-level codecs (`cbor`,
//! `json`), the token data model (`binding`, `pca`, `poc`), the
//! signed-envelope abstraction (`envelope`, `crypto`), the Causal
//! Authority service (`cat`), the chain coordinator (`chain`), and
//! the size comparison of the two wire forms (`sizes`).

use vstd::prelude::*;

pub mod binding;
pub mod cat;
pub mod cbor;
pub mod chain;
pub mod crypto;
pub mod envelope;
pub mod json;
pub mod pca;
pub mod poc;
pub mod sizes;
pub mod text;
pub mod timing;

verus! {

/// Errors that can occur in PIC operations.
///
/// None of these are silently recovered; they all propagate to the
/// chain coordinator, which surfaces the hop index and error kind.
#[derive(Debug, Clone)]
pub enum PicError {
    /// Requested authority exceeds the predecessor's: `(requested_count, predecessor_count)`.
    MonotonicityViolation(usize, usize),
    /// Origin subject changed: `(predecessor p_0, requested p_0)`.
    OriginViolation(String, String),
    /// Executor continuity failed at the given hop.
    ExecutorContinuityFailed(usize),
    /// A temporal constraint (expiry or not-before) was violated.
    TemporalViolation,
    /// An attestation failed verification; carries the attestation name.
    ContextualViolation(String),
    /// A structurally valid token whose content is unusable.
    InvalidBundle(String),
    /// Unparseable envelope or payload bytes.
    MalformedEnvelope,
    /// A signature did not verify against the resolved key.
    SignatureInvalid,
    /// The embedded predecessor token failed independent verification.
    PredecessorInvalid,
    /// Builder misuse: a required field was never set.
    IncompleteRequest,
    /// The signing backend could not produce a signature.
    SigningFailure,
}

/// Result type for PIC operations.
pub type PicResult<T> = Result<T, PicError>;

/// Index of the first `':'` in `s`, or `s.len()` if there is none.
pub open spec fn first_colon(s: Seq<char>) -> int
    decreases s.len(),
{
    if s.len() == 0 {
        0
    } else if s[0] == ':' {
        0
    } else {
        1 + first_colon(s.skip(1))
    }
}

proof fn lemma_first_colon_at(s: Seq<char>, j: int)
    requires
        0 <= j <= s.len(),
        forall|k: int| 0 <= k < j ==> s[k] != ':',
        j == s.len() || s[j] == ':',
    ensures
        first_colon(s) == j,
    decreases j,
{
    if s.len() == 0 {
    } else if s[0] == ':' {
        assert(j == 0);
    } else {
        assert(j >= 1);
        let t = s.skip(1);
        assert forall|k: int| 0 <= k < j - 1 implies t[k] != ':' by {
            assert(t[k] == s[k + 1]);
        }
        if j < s.len() {
            assert(t[j - 1] == s[j]);
        }
        lemma_first_colon_at(t, j - 1);
    }
}

/// The DID method of `s`: the segment after a leading `"did:"` and
/// before the next `':'` (or the end), or `None` when `s` does not
/// start with `"did:"`.
pub open spec fn spec_did_method(s: Seq<char>) -> Option<Seq<char>> {
    if s.len() >= 4 && s.subrange(0, 4) == "did:"@ {
        let rest = s.skip(4);
        Some(rest.take(first_colon(rest)))
    } else {
        None
    }
}

/// Represents a DID (Decentralized Identifier).
#[derive(Debug, Clone)]
pub struct Did(pub String);

impl Did {
    pub fn new(did: String) -> (r: Self)
        ensures
            r.0@ == did@,
    {
        Self(did)
    }

    /// The DID method name, e.g. `"key"` for `"did:key:z6Mk..."`.
    pub fn method(&self) -> (r: Option<&str>)
        ensures
            match r {
                Some(m) => spec_did_method(self.0@) == Some(m@),
                None => spec_did_method(self.0@) is None,
            },
    {
        let s: &str = self.0.as_str();
        let n = s.unicode_len();
        proof {
            reveal_strlit("did:");
        }
        if n < 4 {
            return None;
        }
        let c0 = s.get_char(0);
        let c1 = s.get_char(1);
        let c2 = s.get_char(2);
        let c3 = s.get_char(3);
        if c0 != 'd' || c1 != 'i' || c2 != 'd' || c3 != ':' {
            proof {
                let pre = s@.subrange(0, 4);
                assert(pre[0] == c0 && pre[1] == c1 && pre[2] == c2 && pre[3] == c3);
                assert("did:"@[0] == 'd' && "did:"@[1] == 'i' && "did:"@[2] == 'd' && "did:"@[3]
                    == ':');
                assert(pre != "did:"@);
            }
            return None;
        }
        assert(s@.subrange(0, 4) =~= "did:"@);
        let mut j: usize = 4;
        while j < n && s.get_char(j) != ':'
            invariant
                4 <= j <= n,
                n == s@.len(),
                s@ == self.0@,
                forall|k: int| 4 <= k < j ==> s@[k] != ':',
            decreases n - j,
        {
            j += 1;
        }
        let m = s.substring_char(4, j);
        proof {
            let rest = s@.skip(4);
            assert forall|k: int| 0 <= k < j - 4 implies rest[k] != ':' by {
                assert(rest[k] == s@[k + 4]);
            }
            if j < n {
                assert(rest[j - 4] == s@[j as int]);
            }
            lemma_first_colon_at(rest, j - 4);
            assert(rest.take(j - 4) =~= s@.subrange(4, j as int));
        }
        Some(m)
    }
}

/// Represents an operation in the PIC model.
#[derive(Debug, Clone)]
pub struct Operation(pub String);

/// Represents a resource in the PIC model.
#[derive(Debug, Clone)]
pub struct Resource(pub String);

/// A privilege is a pair (operation, resource).
#[derive(Debug, Clone)]
pub struct Privilege {
    pub operation: Operation,
    pub resource: Resource,
}

/// Value equality of two privileges: operation and resource agree.
pub open spec fn priv_like(a: Privilege, b: Privilege) -> bool {
    a.operation.0@ == b.operation.0@ && a.resource.0@ == b.resource.0@
}

/// `p` occurs (by value) among `ps`.
pub open spec fn spec_priv_in(ps: Seq<Privilege>, p: Privilege) -> bool {
    exists|i: int| 0 <= i < ps.len() && priv_like(ps[i], p)
}

/// Every privilege of `a` occurs (by value) in `b`.
pub open spec fn spec_priv_subset(a: Seq<Privilege>, b: Seq<Privilege>) -> bool {
    forall|i: int| 0 <= i < a.len() ==> spec_priv_in(b, a[i])
}

fn priv_matches(a: &Privilege, b: &Privilege) -> (r: bool)
    ensures
        r == priv_like(*a, *b),
{
    a.operation.0 == b.operation.0 && a.resource.0 == b.resource.0
}

/// Authority set: the operations granted at one hop.
#[derive(Debug, Clone)]
pub struct AuthoritySet {
    pub privileges: Vec<Privilege>,
}

impl AuthoritySet {
    /// Check if self is a subset of other (the monotonicity check):
    /// every privilege of `self` occurs by value in `other`.
    pub fn is_subset_of(&self, other: &AuthoritySet) -> (r: bool)
        ensures
            r == spec_priv_subset(self.privileges@, other.privileges@),
    {
        let n = self.privileges.len();
        let m = other.privileges.len();
        let mut i: usize = 0;
        while i < n
            invariant
                0 <= i <= n,
                n == self.privileges.len(),
                m == other.privileges.len(),
                forall|k: int| 0 <= k < i ==> spec_priv_in(other.privileges@, self.privileges@[k]),
            decreases n - i,
        {
            let p = &self.privileges[i];
            let mut found = false;
            let mut j: usize = 0;
            while j < m
                invariant
                    0 <= j <= m,
                    m == other.privileges.len(),
                    found == exists|k: int|
                        0 <= k < j && priv_like(other.privileges@[k], self.privileges@[i as int]),
                    p == &self.privileges@[i as int],
                decreases m - j,
            {
                if priv_matches(&other.privileges[j], p) {
                    found = true;
                }
                j += 1;
            }
            if !found {
                assert(!spec_priv_in(other.privileges@, self.privileges@[i as int]));
                return false;
            }
            i += 1;
        }
        true
    }
}

/// Execution hop in the PIC model.
#[derive(Debug, Clone)]
pub struct ExecutionHop {
    /// Hop index.
    pub index: usize,
    /// Origin subject (immutable p_0).
    pub origin: Did,
    /// Current executor.
    pub executor: Did,
    /// Previous executor (for continuity verification).
    pub previous_executor: Option<Did>,
    /// Authority at this hop.
    pub authority: AuthoritySet,
}

/// How a decentralized identifier is formed.
#[derive(Debug, Clone, Copy, PartialEq, Eq, Structural)]
pub enum DidMethod {
    Key,
    Web,
}

/// The role a workload identity plays in the federation.
#[derive(Debug, Clone, Copy, PartialEq, Eq, Structural)]
pub enum Role {
    TrustAnchor,
    Executor,
}

} // verus!
