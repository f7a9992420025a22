//! Ledger of source bytes, declared pixels and revision slots across all
//! parses; it does not estimate process memory. A permit is handed back to the
//! ledger it came from when its revision is dropped.

use vstd::prelude::*;

use super::error::DocumentError;
use super::model::{DocumentServiceConfig, ResourceAccounting};

verus! {

/// Name of the revision-slot quota in limit errors.
pub const REVISIONS: &'static str = "修订数量";

/// Name of the source-byte quota in limit errors.
pub const SOURCE_BYTES: &'static str = "源字节";

/// Name of the declared-pixel quota in limit errors.
pub const DECLARED_PIXELS: &'static str = "声明像素";

/// Component-wise sum of two accountings.
pub open spec fn plus(a: ResourceAccounting, b: ResourceAccounting) -> ResourceAccounting {
    ResourceAccounting {
        live_revisions: (a.live_revisions + b.live_revisions) as u64,
        source_bytes: (a.source_bytes + b.source_bytes) as u64,
        declared_pixels: (a.declared_pixels + b.declared_pixels) as u64,
    }
}

/// Component-wise difference of two accountings.
pub open spec fn minus(a: ResourceAccounting, b: ResourceAccounting) -> ResourceAccounting {
    ResourceAccounting {
        live_revisions: (a.live_revisions - b.live_revisions) as u64,
        source_bytes: (a.source_bytes - b.source_bytes) as u64,
        declared_pixels: (a.declared_pixels - b.declared_pixels) as u64,
    }
}

/// Whether `a` holds at least `b` in every component.
pub open spec fn covers(a: ResourceAccounting, b: ResourceAccounting) -> bool {
    a.live_revisions >= b.live_revisions && a.source_bytes >= b.source_bytes && a.declared_pixels
        >= b.declared_pixels
}

/// Whether `a` fits in every global quota of `config`.
pub open spec fn within_quota(a: ResourceAccounting, config: DocumentServiceConfig) -> bool {
    a.live_revisions <= config.max_live_revisions && a.source_bytes <= config.max_source_bytes
        && a.declared_pixels <= config.max_declared_pixels
}

/// What one parse reserves up front: a revision slot and the single-file limits.
pub open spec fn parse_charge(config: DocumentServiceConfig) -> ResourceAccounting {
    ResourceAccounting {
        live_revisions: 1,
        source_bytes: config.parse_limits.max_file_bytes,
        declared_pixels: config.parse_limits.max_total_pixels,
    }
}

/// The quota that refuses a parse reservation, with its name and limit, if one does.
pub open spec fn parse_refusal(used: ResourceAccounting, config: DocumentServiceConfig) -> Option<
    (Seq<char>, u64),
> {
    let charge = parse_charge(config);
    if used.live_revisions + 1 > config.max_live_revisions {
        Some((REVISIONS@, config.max_live_revisions))
    } else if used.source_bytes + charge.source_bytes > config.max_source_bytes {
        Some((SOURCE_BYTES@, config.max_source_bytes))
    } else if used.declared_pixels + charge.declared_pixels > config.max_declared_pixels {
        Some((DECLARED_PIXELS@, config.max_declared_pixels))
    } else {
        None
    }
}

/// The global parse ledger.
#[derive(Debug)]
pub struct Budget {
    config: DocumentServiceConfig,
    usage: ResourceAccounting,
}

/// A reservation taken from a [`Budget`]; it must be handed back with
/// [`Budget::release`] to the same ledger.
#[derive(Debug)]
pub struct Permit {
    charge: ResourceAccounting,
}

impl View for Budget {
    type V = ResourceAccounting;

    /// The quota in use.
    closed spec fn view(&self) -> ResourceAccounting {
        self.usage
    }
}

impl Budget {
    /// The configuration the ledger checks against.
    pub closed spec fn settings(&self) -> DocumentServiceConfig {
        self.config
    }

    /// The ledger never holds more than its quotas.
    pub open spec fn wf(&self) -> bool {
        within_quota(self@, self.settings())
    }

    /// An empty ledger for `config`.
    pub fn new(config: DocumentServiceConfig) -> (b: Budget)
        ensures
            b@ == (ResourceAccounting { live_revisions: 0, source_bytes: 0, declared_pixels: 0 }),
            b.settings() == config,
            b.wf(),
    {
        Budget { config, usage: ResourceAccounting::default() }
    }

    /// The quota in use right now.
    pub fn usage(&self) -> (a: ResourceAccounting)
        ensures
            a == self@,
    {
        self.usage
    }

    /// Reserves a revision slot and the single-file source and pixel limits.
    /// All three quotas are checked before anything is charged; the first that
    /// cannot hold its share is reported and the ledger stays unchanged.
    pub fn reserve(&mut self) -> (r: Result<Permit, DocumentError>)
        requires
            old(self).wf(),
        ensures
            final(self).settings() == old(self).settings(),
            final(self).wf(),
            match parse_refusal(old(self)@, old(self).settings()) {
                None => r matches Ok(p) && p@ == parse_charge(old(self).settings()) && final(self)@
                    == plus(old(self)@, p@),
                Some((name, limit)) => final(self)@ == old(self)@ && (r matches Err(
                    DocumentError::ResourceLimit { resource, limit: l },
                ) && resource@ == name && l == limit),
            },
    {
        let charge = ResourceAccounting {
            live_revisions: 1,
            source_bytes: self.config.parse_limits.max_file_bytes,
            declared_pixels: self.config.parse_limits.max_total_pixels,
        };
        // Differences, not sums, so that a quota of u64::MAX cannot overflow.
        if 1 > self.config.max_live_revisions - self.usage.live_revisions {
            return Err(
                DocumentError::ResourceLimit {
                    resource: REVISIONS,
                    limit: self.config.max_live_revisions,
                },
            );
        }
        if charge.source_bytes > self.config.max_source_bytes - self.usage.source_bytes {
            return Err(
                DocumentError::ResourceLimit {
                    resource: SOURCE_BYTES,
                    limit: self.config.max_source_bytes,
                },
            );
        }
        if charge.declared_pixels > self.config.max_declared_pixels - self.usage.declared_pixels {
            return Err(
                DocumentError::ResourceLimit {
                    resource: DECLARED_PIXELS,
                    limit: self.config.max_declared_pixels,
                },
            );
        }
        self.usage = ResourceAccounting {
            live_revisions: self.usage.live_revisions + 1,
            source_bytes: self.usage.source_bytes + charge.source_bytes,
            declared_pixels: self.usage.declared_pixels + charge.declared_pixels,
        };
        Ok(Permit { charge })
    }

    /// Hands a permit back: its whole charge leaves the ledger.
    pub fn release(&mut self, permit: Permit)
        requires
            old(self).wf(),
            covers(old(self)@, permit@),
        ensures
            final(self).settings() == old(self).settings(),
            final(self).wf(),
            final(self)@ == minus(old(self)@, permit@),
    {
        self.usage = ResourceAccounting {
            live_revisions: self.usage.live_revisions - permit.charge.live_revisions,
            source_bytes: self.usage.source_bytes - permit.charge.source_bytes,
            declared_pixels: self.usage.declared_pixels - permit.charge.declared_pixels,
        };
    }
}

impl View for Permit {
    type V = ResourceAccounting;

    /// What the permit holds charged.
    closed spec fn view(&self) -> ResourceAccounting {
        self.charge
    }
}

impl Permit {
    /// Lowers the charge to what the parse actually needed: `source_bytes` and
    /// `pixels` replace the reserved amounts and the difference goes back to
    /// the ledger. An amount above the reservation is refused and nothing changes.
    pub fn settle(&mut self, budget: &mut Budget, source_bytes: u64, pixels: u64) -> (r: Result<
        (),
        DocumentError,
    >)
        requires
            old(budget).wf(),
            covers(old(budget)@, old(self)@),
        ensures
            final(budget).settings() == old(budget).settings(),
            final(budget).wf(),
            covers(final(budget)@, final(self)@),
            if source_bytes > old(self)@.source_bytes {
                r matches Err(DocumentError::ResourceLimit { resource, limit }) && resource@
                    == SOURCE_BYTES@ && limit == old(self)@.source_bytes && final(self)@ == old(
                    self,
                )@ && final(budget)@ == old(budget)@
            } else if pixels > old(self)@.declared_pixels {
                r matches Err(DocumentError::ResourceLimit { resource, limit }) && resource@
                    == DECLARED_PIXELS@ && limit == old(self)@.declared_pixels && final(self)@
                    == old(self)@ && final(budget)@ == old(budget)@
            } else {
                &&& r is Ok
                &&& final(self)@ == (ResourceAccounting {
                    live_revisions: old(self)@.live_revisions,
                    source_bytes,
                    declared_pixels: pixels,
                })
                &&& final(budget)@ == plus(minus(old(budget)@, old(self)@), final(self)@)
            },
    {
        if source_bytes > self.charge.source_bytes {
            return Err(
                DocumentError::ResourceLimit {
                    resource: SOURCE_BYTES,
                    limit: self.charge.source_bytes,
                },
            );
        }
        if pixels > self.charge.declared_pixels {
            return Err(
                DocumentError::ResourceLimit {
                    resource: DECLARED_PIXELS,
                    limit: self.charge.declared_pixels,
                },
            );
        }
        budget.usage = ResourceAccounting {
            live_revisions: budget.usage.live_revisions,
            source_bytes: budget.usage.source_bytes - (self.charge.source_bytes - source_bytes),
            declared_pixels: budget.usage.declared_pixels - (self.charge.declared_pixels - pixels),
        };
        self.charge = ResourceAccounting {
            live_revisions: self.charge.live_revisions,
            source_bytes,
            declared_pixels: pixels,
        };
        Ok(())
    }
}

/// Handing back a permit right after it was reserved leaves the ledger as it was.
pub proof fn release_undoes_reserve(before: ResourceAccounting, charge: ResourceAccounting)
    requires
        before.live_revisions + charge.live_revisions <= u64::MAX,
        before.source_bytes + charge.source_bytes <= u64::MAX,
        before.declared_pixels + charge.declared_pixels <= u64::MAX,
    ensures
        covers(plus(before, charge), charge),
        minus(plus(before, charge), charge) == before,
{
}

/// Settling a permit does not change what its final release leaves behind:
/// releasing after a settle ends where releasing without it would.
pub proof fn settle_keeps_release_balance(
    used: ResourceAccounting,
    charge: ResourceAccounting,
    settled: ResourceAccounting,
)
    requires
        covers(used, charge),
        covers(charge, settled),
        settled.live_revisions == charge.live_revisions,
    ensures
        covers(plus(minus(used, charge), settled), settled),
        minus(plus(minus(used, charge), settled), settled) == minus(used, charge),
{
}

/// An accounting as three integers.
pub open spec fn amounts(a: ResourceAccounting) -> (int, int, int) {
    (a.live_revisions as int, a.source_bytes as int, a.declared_pixels as int)
}

/// What a sequence of permits holds charged, summed per quota.
pub open spec fn charged(live: Seq<ResourceAccounting>) -> (int, int, int)
    decreases live.len(),
{
    if live.len() == 0 {
        (0, 0, 0)
    } else {
        let rest = charged(live.drop_last());
        let last = amounts(live.last());
        (rest.0 + last.0, rest.1 + last.1, rest.2 + last.2)
    }
}

/// No quota sums below zero.
proof fn lemma_charged_nonnegative(live: Seq<ResourceAccounting>)
    ensures
        charged(live).0 >= 0 && charged(live).1 >= 0 && charged(live).2 >= 0,
    decreases live.len(),
{
    if live.len() > 0 {
        lemma_charged_nonnegative(live.drop_last());
    }
}

/// Taking one permit out of a sequence takes exactly its charge out of the sum.
proof fn lemma_charged_remove(live: Seq<ResourceAccounting>, i: int)
    requires
        0 <= i < live.len(),
    ensures
        charged(live).0 == charged(live.remove(i)).0 + live[i].live_revisions,
        charged(live).1 == charged(live.remove(i)).1 + live[i].source_bytes,
        charged(live).2 == charged(live.remove(i)).2 + live[i].declared_pixels,
    decreases live.len(),
{
    if i == live.len() - 1 {
        assert(live.remove(i) =~= live.drop_last());
    } else {
        lemma_charged_remove(live.drop_last(), i);
        assert(live.remove(i).drop_last() =~= live.drop_last().remove(i));
        assert(live.remove(i).last() == live.last());
    }
}

/// The ledger's usage is the sum of the charges that its live permits hold,
/// over any run of reservations, settlements and releases: when it is so
/// before a step, it is so after it, with the new permit added, the settled
/// permit's new charge, or the released permit removed; and each live permit
/// is then covered by the usage, as a release or settle of it requires.
pub proof fn usage_is_sum_of_live_permits(
    used: ResourceAccounting,
    live: Seq<ResourceAccounting>,
    charge: ResourceAccounting,
    i: int,
    settled: ResourceAccounting,
)
    requires
        amounts(used) == charged(live),
    ensures
        used.live_revisions + charge.live_revisions <= u64::MAX && used.source_bytes
            + charge.source_bytes <= u64::MAX && used.declared_pixels + charge.declared_pixels
            <= u64::MAX ==> amounts(plus(used, charge)) == charged(live.push(charge)),
        0 <= i < live.len() ==> covers(used, live[i]) && amounts(minus(used, live[i])) == charged(
            live.remove(i),
        ),
        0 <= i < live.len() && covers(live[i], settled) ==> amounts(
            plus(minus(used, live[i]), settled),
        ) == charged(live.update(i, settled)),
{
    assert(live.push(charge).drop_last() =~= live);
    if 0 <= i < live.len() {
        lemma_charged_remove(live, i);
        lemma_charged_nonnegative(live.remove(i));
        let u = live.update(i, settled);
        lemma_charged_remove(u, i);
        assert(u.remove(i) =~= live.remove(i));
    }
}

} // verus!
