//! Ledger of immutable selection snapshots: it charges the scope objects only,
//! never the source data again, and does not estimate process memory.

use vstd::prelude::*;

use super::super::error::DocumentError;
use super::error::SelectionError;
use super::model::{SelectionAccounting, SelectionConfig};

verus! {

/// Name of the snapshot-count quota in limit errors.
pub const SNAPSHOTS: &'static str = "选区快照数量";

/// Name of the scope-byte quota in limit errors.
pub const SCOPE_BYTES: &'static str = "选区范围字节";

/// A resource-limit refusal of a selection request.
pub fn limit(resource: &'static str, cap: u64) -> (e: SelectionError)
    ensures
        e == SelectionError::Document(DocumentError::ResourceLimit { resource, limit: cap }),
{
    SelectionError::Document(DocumentError::ResourceLimit { resource, limit: cap })
}

/// The quota that refuses a snapshot of `bytes`, with its name and limit, if one does.
pub open spec fn snapshot_refusal(
    used: SelectionAccounting,
    config: SelectionConfig,
    bytes: u64,
) -> Option<(Seq<char>, u64)> {
    if used.live_snapshots >= config.max_live_snapshots {
        Some((SNAPSHOTS@, config.max_live_snapshots))
    } else if used.scope_bytes + bytes > config.max_scope_bytes {
        Some((SCOPE_BYTES@, config.max_scope_bytes))
    } else {
        None
    }
}

/// The snapshot ledger shared by the current selection, caches, tasks and
/// outside references.
#[derive(Debug)]
pub struct Budget {
    config: SelectionConfig,
    usage: SelectionAccounting,
}

/// One snapshot's reservation; it goes back to its ledger with [`Budget::release`].
#[derive(Debug)]
pub struct Permit {
    bytes: u64,
}

impl View for Budget {
    type V = SelectionAccounting;

    /// The quota in use.
    closed spec fn view(&self) -> SelectionAccounting {
        self.usage
    }
}

impl View for Permit {
    type V = u64;

    /// The scope bytes the permit holds charged.
    closed spec fn view(&self) -> u64 {
        self.bytes
    }
}

impl Budget {
    /// The configuration the ledger checks against.
    pub closed spec fn settings(&self) -> SelectionConfig {
        self.config
    }

    /// The ledger never holds more than its quotas.
    pub open spec fn wf(&self) -> bool {
        self@.live_snapshots <= self.settings().max_live_snapshots && self@.scope_bytes
            <= self.settings().max_scope_bytes
    }

    /// An empty ledger for `config`.
    pub fn new(config: SelectionConfig) -> (b: Budget)
        ensures
            b@ == (SelectionAccounting { live_snapshots: 0, scope_bytes: 0 }),
            b.settings() == config,
            b.wf(),
    {
        Budget { config, usage: SelectionAccounting { live_snapshots: 0, scope_bytes: 0 } }
    }

    /// The quota in use right now; shared references are counted once.
    pub fn usage(&self) -> (a: SelectionAccounting)
        ensures
            a == self@,
    {
        self.usage
    }

    /// Reserves one snapshot of `bytes` scope bytes, or refuses with the first
    /// quota that cannot hold it and changes nothing.
    pub fn reserve(&mut self, bytes: u64) -> (r: Result<Permit, SelectionError>)
        requires
            old(self).wf(),
        ensures
            final(self).settings() == old(self).settings(),
            final(self).wf(),
            match snapshot_refusal(old(self)@, old(self).settings(), bytes) {
                None => r matches Ok(p) && p@ == bytes && final(self)@ == (SelectionAccounting {
                    live_snapshots: (old(self)@.live_snapshots + 1) as u64,
                    scope_bytes: (old(self)@.scope_bytes + bytes) as u64,
                }),
                Some((name, l)) => final(self)@ == old(self)@ && (r matches Err(
                    SelectionError::Document(DocumentError::ResourceLimit { resource, limit }),
                ) && resource@ == name && limit == l),
            },
    {
        if self.usage.live_snapshots >= self.config.max_live_snapshots {
            return Err(limit(SNAPSHOTS, self.config.max_live_snapshots));
        }
        if bytes > self.config.max_scope_bytes - self.usage.scope_bytes {
            return Err(limit(SCOPE_BYTES, self.config.max_scope_bytes));
        }
        self.usage = SelectionAccounting {
            live_snapshots: self.usage.live_snapshots + 1,
            scope_bytes: self.usage.scope_bytes + bytes,
        };
        Ok(Permit { bytes })
    }

    /// Hands a snapshot's permit back: one snapshot and its bytes leave the ledger.
    pub fn release(&mut self, permit: Permit)
        requires
            old(self).wf(),
            old(self)@.live_snapshots >= 1,
            old(self)@.scope_bytes >= permit@,
        ensures
            final(self).settings() == old(self).settings(),
            final(self).wf(),
            final(self)@ == (SelectionAccounting {
                live_snapshots: (old(self)@.live_snapshots - 1) as u64,
                scope_bytes: (old(self)@.scope_bytes - permit@) as u64,
            }),
    {
        self.usage = SelectionAccounting {
            live_snapshots: self.usage.live_snapshots - 1,
            scope_bytes: self.usage.scope_bytes - permit.bytes,
        };
    }
}

/// Releasing a snapshot right after reserving it leaves the ledger as it was.
pub proof fn snapshot_release_undoes_reserve(before: SelectionAccounting, bytes: u64)
    requires
        before.live_snapshots + 1 <= u64::MAX,
        before.scope_bytes + bytes <= u64::MAX,
    ensures
        ({
            let reserved = SelectionAccounting {
                live_snapshots: (before.live_snapshots + 1) as u64,
                scope_bytes: (before.scope_bytes + bytes) as u64,
            };
            &&& reserved.live_snapshots >= 1
            &&& reserved.scope_bytes >= bytes
            &&& (SelectionAccounting {
                live_snapshots: (reserved.live_snapshots - 1) as u64,
                scope_bytes: (reserved.scope_bytes - bytes) as u64,
            }) == before
        }),
{
}

} // verus!
