//! Separate ledgers of decode reservations and shared output capacity; the
//! cache is part of the output. Each permit goes back to its ledger when the
//! work or the image it stands for is dropped.

use vstd::prelude::*;

use super::super::error::DocumentError;
use super::model::{PreviewAccounting, PreviewConfig};

verus! {

/// Name of the decode quota in limit errors.
pub const DECODE_BYTES: &'static str = "预览解码字节";

/// Name of the output quota in limit errors.
pub const OUTPUT_BYTES: &'static str = "预览输出字节";

/// Name of the single-PNG capacity in limit errors.
pub const PNG_CAPACITY: &'static str = "单次 PNG 容量";

/// The quota that refuses a preview run decoding `decode` bytes, if one does.
pub open spec fn preview_refusal(used: PreviewAccounting, config: PreviewConfig, decode: u64) -> Option<
    (Seq<char>, u64),
> {
    if used.decoded_bytes + decode > config.max_decoded_bytes {
        Some((DECODE_BYTES@, config.max_decoded_bytes))
    } else if used.output_bytes + config.max_png_bytes > config.max_output_bytes {
        Some((OUTPUT_BYTES@, config.max_output_bytes))
    } else {
        None
    }
}

/// The preview ledger.
#[derive(Debug)]
pub struct Budget {
    config: PreviewConfig,
    usage: PreviewAccounting,
}

/// A decode reservation of a running preview.
#[derive(Debug)]
pub struct DecodePermit {
    charge: u64,
}

/// The output capacity of one PNG, reserved up front and lowered to the real capacity.
#[derive(Debug)]
pub struct OutputPermit {
    charge: u64,
}

impl View for Budget {
    type V = PreviewAccounting;

    /// The quota in use.
    closed spec fn view(&self) -> PreviewAccounting {
        self.usage
    }
}

impl View for DecodePermit {
    type V = u64;

    /// The decode bytes held.
    closed spec fn view(&self) -> u64 {
        self.charge
    }
}

impl View for OutputPermit {
    type V = u64;

    /// The output bytes held.
    closed spec fn view(&self) -> u64 {
        self.charge
    }
}

impl Budget {
    /// The configuration the ledger checks against.
    pub closed spec fn settings(&self) -> PreviewConfig {
        self.config
    }

    /// The ledger never holds more than its quotas.
    pub open spec fn wf(&self) -> bool {
        self@.decoded_bytes <= self.settings().max_decoded_bytes && self@.output_bytes
            <= self.settings().max_output_bytes
    }

    /// An empty ledger for `config`.
    pub fn new(config: PreviewConfig) -> (b: Budget)
        ensures
            b@ == (PreviewAccounting { decoded_bytes: 0, output_bytes: 0 }),
            b.settings() == config,
            b.wf(),
    {
        Budget { config, usage: PreviewAccounting { decoded_bytes: 0, output_bytes: 0 } }
    }

    /// The quota in use right now.
    pub fn usage(&self) -> (a: PreviewAccounting)
        ensures
            a == self@,
    {
        self.usage
    }

    /// Reserves `decode` bytes of decoding and one full PNG of output. Both
    /// quotas are checked before anything is charged.
    pub fn reserve(&mut self, decode: u64) -> (r: Result<(DecodePermit, OutputPermit), DocumentError>)
        requires
            old(self).wf(),
        ensures
            final(self).settings() == old(self).settings(),
            final(self).wf(),
            match preview_refusal(old(self)@, old(self).settings(), decode) {
                None => r matches Ok((d, o)) && d@ == decode && o@ == old(self).settings().max_png_bytes
                    && final(self)@ == (PreviewAccounting {
                    decoded_bytes: (old(self)@.decoded_bytes + decode) as u64,
                    output_bytes: (old(self)@.output_bytes + old(self).settings().max_png_bytes) as u64,
                }),
                Some((name, l)) => final(self)@ == old(self)@ && (r matches Err(
                    DocumentError::ResourceLimit { resource, limit },
                ) && resource@ == name && limit == l),
            },
    {
        let png = self.config.max_png_bytes as u64;
        if decode > self.config.max_decoded_bytes - self.usage.decoded_bytes {
            return Err(
                DocumentError::ResourceLimit {
                    resource: DECODE_BYTES,
                    limit: self.config.max_decoded_bytes,
                },
            );
        }
        if png > self.config.max_output_bytes - self.usage.output_bytes {
            return Err(
                DocumentError::ResourceLimit {
                    resource: OUTPUT_BYTES,
                    limit: self.config.max_output_bytes,
                },
            );
        }
        self.usage = PreviewAccounting {
            decoded_bytes: self.usage.decoded_bytes + decode,
            output_bytes: self.usage.output_bytes + png,
        };
        Ok((DecodePermit { charge: decode }, OutputPermit { charge: png }))
    }

    /// Hands a decode reservation back.
    pub fn release_decode(&mut self, permit: DecodePermit)
        requires
            old(self).wf(),
            old(self)@.decoded_bytes >= permit@,
        ensures
            final(self).settings() == old(self).settings(),
            final(self).wf(),
            final(self)@ == (PreviewAccounting {
                decoded_bytes: (old(self)@.decoded_bytes - permit@) as u64,
                output_bytes: old(self)@.output_bytes,
            }),
    {
        self.usage = PreviewAccounting {
            decoded_bytes: self.usage.decoded_bytes - permit.charge,
            output_bytes: self.usage.output_bytes,
        };
    }

    /// Hands an output reservation back, when its image is dropped.
    pub fn release_output(&mut self, permit: OutputPermit)
        requires
            old(self).wf(),
            old(self)@.output_bytes >= permit@,
        ensures
            final(self).settings() == old(self).settings(),
            final(self).wf(),
            final(self)@ == (PreviewAccounting {
                decoded_bytes: old(self)@.decoded_bytes,
                output_bytes: (old(self)@.output_bytes - permit@) as u64,
            }),
    {
        self.usage = PreviewAccounting {
            decoded_bytes: self.usage.decoded_bytes,
            output_bytes: self.usage.output_bytes - permit.charge,
        };
    }
}

impl OutputPermit {
    /// Lowers the reservation to the real PNG capacity and returns the rest to
    /// the ledger; a capacity above the reservation is refused.
    pub fn settle(&mut self, budget: &mut Budget, capacity: u64) -> (r: Result<(), DocumentError>)
        requires
            old(budget).wf(),
            old(budget)@.output_bytes >= old(self)@,
        ensures
            final(budget).settings() == old(budget).settings(),
            final(budget).wf(),
            final(budget)@.output_bytes >= final(self)@,
            if capacity > old(self)@ {
                &&& r matches Err(DocumentError::ResourceLimit { resource, limit })
                &&& resource@ == PNG_CAPACITY@
                &&& limit == old(self)@
                &&& final(self)@ == old(self)@
                &&& final(budget)@ == old(budget)@
            } else {
                &&& r is Ok
                &&& final(self)@ == capacity
                &&& final(budget)@ == (PreviewAccounting {
                    decoded_bytes: old(budget)@.decoded_bytes,
                    output_bytes: (old(budget)@.output_bytes - (old(self)@ - capacity)) as u64,
                })
            },
    {
        if capacity > self.charge {
            return Err(DocumentError::ResourceLimit { resource: PNG_CAPACITY, limit: self.charge });
        }
        budget.usage = PreviewAccounting {
            decoded_bytes: budget.usage.decoded_bytes,
            output_bytes: budget.usage.output_bytes - (self.charge - capacity),
        };
        self.charge = capacity;
        Ok(())
    }
}


/// Handing back both permits of a preview run right after reserving them
/// leaves the ledger as it was.
pub proof fn preview_release_undoes_reserve(before: PreviewAccounting, decode: u64, png: u64)
    requires
        before.decoded_bytes + decode <= u64::MAX,
        before.output_bytes + png <= u64::MAX,
    ensures
        ({
            let reserved = PreviewAccounting {
                decoded_bytes: (before.decoded_bytes + decode) as u64,
                output_bytes: (before.output_bytes + png) as u64,
            };
            let after_decode = PreviewAccounting {
                decoded_bytes: (reserved.decoded_bytes - decode) as u64,
                output_bytes: reserved.output_bytes,
            };
            (PreviewAccounting {
                decoded_bytes: after_decode.decoded_bytes,
                output_bytes: (after_decode.output_bytes - png) as u64,
            }) == before
        }),
{
}

} // verus!
