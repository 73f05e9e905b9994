//! Stable node identity, hashed from a label and the enclosing scope.

use rustc_hash::FxBuildHasher;
use std::hash::BuildHasher;
use vstd::prelude::*;

verus! {

/// The identity of a node across frames: a 64-bit hash, where zero is
/// reserved for "no node".
#[derive(Clone, Copy, Debug, PartialEq, Eq, Hash, Structural)]
pub struct Id(pub u64);

/// The Fx digest of a label alone. The hasher has no seed, so one build of
/// the library gives one digest for one label, in every call and every
/// run; a build for a target of another pointer width may give another,
/// since the hasher picks its constants by that width.
pub uninterp spec fn fx_label_hash(label: Seq<char>) -> u64;

/// The Fx digest of a scope id followed by a label, fixed for a build as
/// the digest of a label alone is.
pub uninterp spec fn fx_scoped_hash(scope: u64, label: Seq<char>) -> u64;

/// `BuildHasher::hash_one` of `rustc_hash::FxBuildHasher`, on a string
/// slice. The builder makes a hasher with the constant state zero, so the
/// digest depends on the text alone; the contract gives that digest a name
/// and claims nothing else of it.
#[verifier::external_body]
fn fx_hash_label(label: &str) -> (h: u64)
    ensures
        h == fx_label_hash(label@),
{
    FxBuildHasher.hash_one(label)
}

/// `BuildHasher::hash_one` of `rustc_hash::FxBuildHasher`, on a pair of a
/// scope id and a string slice. The digest depends on the two values alone;
/// the contract gives it a name and claims nothing else of it.
#[verifier::external_body]
fn fx_hash_scoped(scope: u64, label: &str) -> (h: u64)
    ensures
        h == fx_scoped_hash(scope, label@),
{
    FxBuildHasher.hash_one((scope, label))
}

impl Id {
    /// The reserved identity that never denotes a node.
    pub open spec fn spec_null() -> Id {
        Id(0)
    }

    /// The reserved identity that never denotes a node.
    #[verifier::when_used_as_spec(spec_null)]
    pub fn null() -> (id: Id)
        ensures
            id == Id(0),
    {
        Id(0)
    }

    /// Whether this is the reserved identity.
    pub open spec fn spec_is_null(&self) -> bool {
        self.0 == 0
    }

    /// Whether this is the reserved identity.
    #[verifier::when_used_as_spec(spec_is_null)]
    pub fn is_null(&self) -> (r: bool)
        ensures
            r == (self.0 == 0),
    {
        self.0 == 0
    }

    /// The identity that a digest stands for.
    pub open spec fn spec_from_hash(h: u64) -> Id {
        if h == 0 {
            Id(1)
        } else {
            Id(h)
        }
    }

    /// The identity that a digest stands for: the digest itself, with zero
    /// raised to one so that no label is ever given the reserved identity.
    #[verifier::when_used_as_spec(spec_from_hash)]
    pub fn from_hash(h: u64) -> (id: Id)
        ensures
            id == Id::spec_from_hash(h),
            !id.is_null(),
    {
        if h == 0 {
            Id(1)
        } else {
            Id(h)
        }
    }
}

/// The identity of `label` below the scope `scope_top`.
pub open spec fn spec_id_from_label(scope_top: Id, label: Seq<char>) -> Id {
    if scope_top.is_null() {
        Id::spec_from_hash(fx_label_hash(label))
    } else {
        Id::spec_from_hash(fx_scoped_hash(scope_top.0, label))
    }
}

/// The identity of `label` below the scope `scope_top`, where the reserved
/// identity stands for "no scope". With a scope the pair of both is hashed,
/// without one the label alone. The same arguments always give the same
/// identity, and never the reserved one, not even for the empty label.
pub fn id_from_label(scope_top: Id, label: &str) -> (id: Id)
    ensures
        id == spec_id_from_label(scope_top, label@),
        !id.is_null(),
{
    if scope_top.is_null() {
        Id::from_hash(fx_hash_label(label))
    } else {
        Id::from_hash(fx_hash_scoped(scope_top.0, label))
    }
}

} // verus!
