//! What a primitive token is allowed to mean.
//!
//! A token carries authority only through the registries below. Its display
//! name carries none.

use std::collections::{BTreeMap, BTreeSet};

use vstd::prelude::*;

use crate::ir::ExternalFunctionId;
use crate::text::same_text;

verus! {

/// A primitive that the engine lowers by its tag alone.
#[derive(Clone, Copy, Debug, PartialEq, Eq, Structural)]
pub enum NativePrimitive {
    ValueNeq,
    SelectMinPayload,
    SelectMaxPayload,
    OrderingMin,
    OrderingMax,
}

/// A typed scalar primitive, by its registered descriptor.
#[derive(Clone, Copy, Debug, PartialEq, Eq, Structural)]
pub struct NativeScalarPrimitive {
    pub descriptor: u32,
}

/// Authority for proof functional-dependency operations. Admission resolves
/// the descriptor's exact table name once and keeps the resulting table id.
#[derive(Debug)]
pub enum FdDescriptor {
    SetIfEmpty { view_name: String, n_keys: usize, out_arity: usize },
    ViewColumnRead { view_name: String, n_keys: usize, col_idx: usize },
}

/// What an [`FdDescriptor`] says.
pub enum FdDescriptorView {
    SetIfEmpty { view_name: Seq<char>, n_keys: usize, out_arity: usize },
    ViewColumnRead { view_name: Seq<char>, n_keys: usize, col_idx: usize },
}

impl View for FdDescriptor {
    type V = FdDescriptorView;

    open spec fn view(&self) -> FdDescriptorView {
        match *self {
            FdDescriptor::SetIfEmpty { view_name, n_keys, out_arity } => {
                FdDescriptorView::SetIfEmpty { view_name: view_name@, n_keys, out_arity }
            },
            FdDescriptor::ViewColumnRead { view_name, n_keys, col_idx } => {
                FdDescriptorView::ViewColumnRead { view_name: view_name@, n_keys, col_idx }
            },
        }
    }
}

impl FdDescriptor {
    /// The table that the descriptor names.
    pub fn view_name(&self) -> (name: &str)
        ensures
            name@ == fd_view_name(self@),
    {
        match self {
            FdDescriptor::SetIfEmpty { view_name, .. } => view_name.as_str(),
            FdDescriptor::ViewColumnRead { view_name, .. } => view_name.as_str(),
        }
    }

    /// A copy of the descriptor.
    pub fn copy(&self) -> (copy: FdDescriptor)
        ensures
            copy@ == self@,
    {
        match self {
            FdDescriptor::SetIfEmpty { view_name, n_keys, out_arity } => FdDescriptor::SetIfEmpty {
                view_name: view_name.clone(),
                n_keys: *n_keys,
                out_arity: *out_arity,
            },
            FdDescriptor::ViewColumnRead { view_name, n_keys, col_idx } => {
                FdDescriptor::ViewColumnRead {
                    view_name: view_name.clone(),
                    n_keys: *n_keys,
                    col_idx: *col_idx,
                }
            },
        }
    }

    /// Whether two descriptors say the same.
    pub fn same(&self, other: &FdDescriptor) -> (same: bool)
        ensures
            same == (self@ == other@),
    {
        match (self, other) {
            (
                FdDescriptor::SetIfEmpty { view_name: a, n_keys: b, out_arity: c },
                FdDescriptor::SetIfEmpty { view_name: x, n_keys: y, out_arity: z },
            ) => same_text(a.as_str(), x.as_str()) && *b == *y && *c == *z,
            (
                FdDescriptor::ViewColumnRead { view_name: a, n_keys: b, col_idx: c },
                FdDescriptor::ViewColumnRead { view_name: x, n_keys: y, col_idx: z },
            ) => same_text(a.as_str(), x.as_str()) && *b == *y && *c == *z,
            _ => false,
        }
    }
}

/// The table name in a descriptor.
pub open spec fn fd_view_name(descriptor: FdDescriptorView) -> Seq<char> {
    match descriptor {
        FdDescriptorView::SetIfEmpty { view_name, .. } => view_name,
        FdDescriptorView::ViewColumnRead { view_name, .. } => view_name,
    }
}

/// Descriptors by token, through their views.
pub open spec fn fd_views(descriptors: Map<u32, FdDescriptor>) -> Map<u32, FdDescriptorView> {
    descriptors.map_values(|d: FdDescriptor| d@)
}

/// What a token is minted to mean.
#[derive(Debug)]
pub enum Authority {
    Native(NativePrimitive),
    NativeScalar(NativeScalarPrimitive),
    Fresh,
    Fd(FdDescriptor),
}

/// The live authorities, each keyed by token. The epoch of a token changes
/// whenever the token is minted anew; no epoch is given twice.
#[derive(Debug)]
pub struct AuthorityRegistries {
    pub native_primitives: BTreeMap<u32, NativePrimitive>,
    pub native_scalar_primitives: BTreeMap<u32, NativeScalarPrimitive>,
    pub authority_epochs: BTreeMap<u32, u64>,
    pub fresh_tokens: BTreeSet<u32>,
    pub fd_descriptors: BTreeMap<u32, FdDescriptor>,
    pub last_epoch: u64,
}

/// The entry under a key, if there is one.
pub open spec fn entry<V>(map: Map<u32, V>, key: u32) -> Option<V> {
    if map.contains_key(key) {
        Some(map[key])
    } else {
        None
    }
}

/// A map with the given entry under a key, or with none there.
pub open spec fn with_entry<V>(map: Map<u32, V>, key: u32, value: Option<V>) -> Map<u32, V> {
    match value {
        Some(value) => map.insert(key, value),
        None => map.remove(key),
    }
}

/// The token's epoch and meaning are the same in both registries.
pub open spec fn same_token(
    before: AuthorityRegistries,
    after: AuthorityRegistries,
    token: u32,
) -> bool {
    &&& entry(after.authority_epochs@, token) == entry(before.authority_epochs@, token)
    &&& entry(after.native_primitives@, token) == entry(before.native_primitives@, token)
    &&& entry(after.native_scalar_primitives@, token) == entry(
        before.native_scalar_primitives@,
        token,
    )
    &&& after.fresh_tokens@.contains(token) == before.fresh_tokens@.contains(token)
    &&& entry(fd_views(after.fd_descriptors@), token) == entry(
        fd_views(before.fd_descriptors@),
        token,
    )
}

/// The registries may have become what they are now: each token is as it was,
/// or is freed, or has an epoch that had not been given yet.
pub open spec fn later(before: AuthorityRegistries, after: AuthorityRegistries) -> bool {
    &&& before.last_epoch <= after.last_epoch
    &&& forall|token: u32| #[trigger]
        same_token(before, after, token) || (entry(after.authority_epochs@, token) matches Some(
            epoch,
        ) ==> epoch > before.last_epoch)
}

impl AuthorityRegistries {
    /// Every live epoch was given.
    pub open spec fn well_formed(self) -> bool {
        forall|token: u32| #[trigger]
            self.authority_epochs@.contains_key(token) ==> self.authority_epochs@[token]
                <= self.last_epoch
    }

    /// No token has any authority.
    pub fn new() -> (registries: Self)
        ensures
            registries.native_primitives@ == Map::<u32, NativePrimitive>::empty(),
            registries.native_scalar_primitives@ == Map::<u32, NativeScalarPrimitive>::empty(),
            registries.authority_epochs@ == Map::<u32, u64>::empty(),
            registries.fresh_tokens@ == Set::<u32>::empty(),
            registries.fd_descriptors@ == Map::<u32, FdDescriptor>::empty(),
            registries.last_epoch == 0,
            registries.well_formed(),
    {
        AuthorityRegistries {
            native_primitives: BTreeMap::new(),
            native_scalar_primitives: BTreeMap::new(),
            authority_epochs: BTreeMap::new(),
            fresh_tokens: BTreeSet::new(),
            fd_descriptors: BTreeMap::new(),
            last_epoch: 0,
        }
    }

    /// Gives a token a meaning, under an epoch that was never given before.
    /// What the token meant earlier is gone.
    pub fn mint(&mut self, token: ExternalFunctionId, authority: Authority) -> (epoch: u64)
        requires
            old(self).well_formed(),
            old(self).last_epoch < u64::MAX,
        ensures
            final(self).well_formed(),
            later(*old(self), *final(self)),
            epoch == old(self).last_epoch + 1,
            final(self).last_epoch == epoch,
            final(self).authority_epochs@ == old(self).authority_epochs@.insert(token.rep, epoch),
            final(self).native_primitives@ == with_entry(
                old(self).native_primitives@,
                token.rep,
                match authority {
                    Authority::Native(tag) => Some(tag),
                    _ => None,
                },
            ),
            final(self).native_scalar_primitives@ == with_entry(
                old(self).native_scalar_primitives@,
                token.rep,
                match authority {
                    Authority::NativeScalar(descriptor) => Some(descriptor),
                    _ => None,
                },
            ),
            final(self).fresh_tokens@ == if authority is Fresh {
                old(self).fresh_tokens@.insert(token.rep)
            } else {
                old(self).fresh_tokens@.remove(token.rep)
            },
            final(self).fd_descriptors@ == with_entry(
                old(self).fd_descriptors@,
                token.rep,
                match authority {
                    Authority::Fd(descriptor) => Some(descriptor),
                    _ => None,
                },
            ),
    {
        self.free(token);
        let epoch: u64 = self.last_epoch + 1;
        self.last_epoch = epoch;
        self.authority_epochs.insert(token.rep, epoch);
        match authority {
            Authority::Native(tag) => {
                self.native_primitives.insert(token.rep, tag);
            },
            Authority::NativeScalar(descriptor) => {
                self.native_scalar_primitives.insert(token.rep, descriptor);
            },
            Authority::Fresh => {
                self.fresh_tokens.insert(token.rep);
            },
            Authority::Fd(descriptor) => {
                self.fd_descriptors.insert(token.rep, descriptor);
            },
        }
        epoch
    }

    /// Takes every meaning from a token, and its epoch.
    pub fn free(&mut self, token: ExternalFunctionId)
        requires
            old(self).well_formed(),
        ensures
            final(self).well_formed(),
            later(*old(self), *final(self)),
            final(self).last_epoch == old(self).last_epoch,
            final(self).authority_epochs@ == old(self).authority_epochs@.remove(token.rep),
            final(self).native_primitives@ == old(self).native_primitives@.remove(token.rep),
            final(self).native_scalar_primitives@ == old(
                self,
            ).native_scalar_primitives@.remove(token.rep),
            final(self).fresh_tokens@ == old(self).fresh_tokens@.remove(token.rep),
            final(self).fd_descriptors@ == old(self).fd_descriptors@.remove(token.rep),
    {
        self.native_primitives.remove(&token.rep);
        self.native_scalar_primitives.remove(&token.rep);
        self.authority_epochs.remove(&token.rep);
        self.fresh_tokens.remove(&token.rep);
        self.fd_descriptors.remove(&token.rep);
    }

    /// The native tag of a token.
    pub fn native(&self, token: ExternalFunctionId) -> (tag: Option<NativePrimitive>)
        ensures
            tag == entry(self.native_primitives@, token.rep),
    {
        match self.native_primitives.get(&token.rep) {
            Some(tag) => Some(*tag),
            None => None,
        }
    }

    /// The typed scalar descriptor of a token.
    pub fn native_scalar(&self, token: ExternalFunctionId) -> (descriptor: Option<
        NativeScalarPrimitive,
    >)
        ensures
            descriptor == entry(self.native_scalar_primitives@, token.rep),
    {
        match self.native_scalar_primitives.get(&token.rep) {
            Some(descriptor) => Some(*descriptor),
            None => None,
        }
    }

    /// The epoch at which a token was minted.
    pub fn epoch(&self, token: ExternalFunctionId) -> (epoch: Option<u64>)
        ensures
            epoch == entry(self.authority_epochs@, token.rep),
    {
        match self.authority_epochs.get(&token.rep) {
            Some(epoch) => Some(*epoch),
            None => None,
        }
    }

    /// Whether a token allocates fresh ids.
    pub fn is_fresh(&self, token: ExternalFunctionId) -> (fresh: bool)
        ensures
            fresh == self.fresh_tokens@.contains(token.rep),
    {
        self.fresh_tokens.contains(&token.rep)
    }

    /// The functional-dependency descriptor of a token.
    pub fn fd(&self, token: ExternalFunctionId) -> (descriptor: Option<&FdDescriptor>)
        ensures
            match descriptor {
                Some(d) => entry(fd_views(self.fd_descriptors@), token.rep) == Some(d@),
                None => entry(fd_views(self.fd_descriptors@), token.rep) is None,
            },
    {
        self.fd_descriptors.get(&token.rep)
    }
}

} // verus!
