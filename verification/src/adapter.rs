//! Small canonical rules of the Language IR adapter: outcome ranks, bounded
//! diagnostic messages, digest framing, SQL range weights and timing sums.
use vstd::prelude::*;

use crate::model::ImportAuditOutcome;
use crate::text::{char_len_utf8, chars_of, string_of_range, utf8_len};

verus! {

/// The audit order of import outcomes.
pub open spec fn spec_import_outcome_rank(outcome: ImportAuditOutcome) -> u8 {
    match outcome {
        ImportAuditOutcome::Internal => 0,
        ImportAuditOutcome::KnownExternal => 1,
        ImportAuditOutcome::Unresolved => 2,
        ImportAuditOutcome::Ambiguous => 3,
        ImportAuditOutcome::InvalidEvidence => 4,
        ImportAuditOutcome::InventoryFailed => 5,
        ImportAuditOutcome::MetadataUnavailable => 6,
    }
}

pub fn import_outcome_rank(outcome: ImportAuditOutcome) -> (r: u8)
    ensures
        r == spec_import_outcome_rank(outcome),
{
    match outcome {
        ImportAuditOutcome::Internal => 0,
        ImportAuditOutcome::KnownExternal => 1,
        ImportAuditOutcome::Unresolved => 2,
        ImportAuditOutcome::Ambiguous => 3,
        ImportAuditOutcome::InvalidEvidence => 4,
        ImportAuditOutcome::InventoryFailed => 5,
        ImportAuditOutcome::MetadataUnavailable => 6,
    }
}

/// The largest diagnostic message kept, in UTF-8 bytes.
pub const MAX_MESSAGE_BYTES: usize = 2048;

/// `k` characters are the longest prefix of `s` that fits in `limit` bytes.
pub open spec fn is_longest_fitting_prefix(s: Seq<char>, limit: nat, k: int) -> bool {
    &&& 0 <= k <= s.len()
    &&& utf8_len(s.take(k)) <= limit
    &&& (k == s.len() || utf8_len(s.take(k + 1)) > limit)
}

/// At most one prefix length is the longest fitting one.
pub proof fn lemma_longest_fitting_prefix_unique(s: Seq<char>, limit: nat, a: int, b: int)
    requires
        is_longest_fitting_prefix(s, limit, a),
        is_longest_fitting_prefix(s, limit, b),
    ensures
        a == b,
{
    if a < b {
        crate::text::lemma_utf8_len_prefix_mono(s, a + 1, b);
    } else if b < a {
        crate::text::lemma_utf8_len_prefix_mono(s, b + 1, a);
    }
}

/// A diagnostic message cut to at most `MAX_MESSAGE_BYTES` bytes at a
/// character boundary: the longest prefix that fits.
pub fn bounded_message(message: &str) -> (r: String)
    ensures
        r@ == message@.take(r@.len() as int),
        is_longest_fitting_prefix(message@, MAX_MESSAGE_BYTES as nat, r@.len() as int),
{
    let v = chars_of(message);
    let mut total: usize = 0;
    let mut k: usize = 0;
    while k < v.len()
        invariant
            k <= v.len(),
            v@ == message@,
            total == utf8_len(v@.take(k as int)),
            total <= MAX_MESSAGE_BYTES,
        ensures
            k <= v.len(),
            v@ == message@,
            total == utf8_len(v@.take(k as int)),
            total <= MAX_MESSAGE_BYTES,
            k == v.len() || utf8_len(v@.take(k + 1)) > MAX_MESSAGE_BYTES,
        decreases v.len() - k,
    {
        assert(v@.take(k + 1).drop_last() == v@.take(k as int));
        let w = char_len_utf8(v[k]);
        if w > MAX_MESSAGE_BYTES - total {
            break;
        }
        total += w;
        k += 1;
    }
    assert(v@.subrange(0, k as int) == v@.take(k as int));
    string_of_range(v.as_slice(), 0, k)
}

/// The 8 big-endian bytes of `n`.
pub open spec fn be_bytes(n: u64) -> Seq<u8> {
    seq![
        ((n as int / 0x100_0000_0000_0000) % 256) as u8,
        ((n as int / 0x1_0000_0000_0000) % 256) as u8,
        ((n as int / 0x100_0000_0000) % 256) as u8,
        ((n as int / 0x1_0000_0000) % 256) as u8,
        ((n as int / 0x100_0000) % 256) as u8,
        ((n as int / 0x1_0000) % 256) as u8,
        ((n as int / 0x100) % 256) as u8,
        (n as int % 256) as u8,
    ]
}

/// Appends one length-prefixed component to a digest input: the length as a
/// big-endian `u64`, then the bytes.
pub fn append_digest_component(bytes: &mut Vec<u8>, value: &[u8])
    ensures
        final(bytes)@ == old(bytes)@ + be_bytes(value@.len() as u64) + value@,
{
    let n = value.len() as u64;
    let ghost start = bytes@;
    bytes.push(((n / 0x100_0000_0000_0000) % 256) as u8);
    bytes.push(((n / 0x1_0000_0000_0000) % 256) as u8);
    bytes.push(((n / 0x100_0000_0000) % 256) as u8);
    bytes.push(((n / 0x1_0000_0000) % 256) as u8);
    bytes.push(((n / 0x100_0000) % 256) as u8);
    bytes.push(((n / 0x1_0000) % 256) as u8);
    bytes.push(((n / 0x100) % 256) as u8);
    bytes.push((n % 256) as u8);
    assert(bytes@ =~= start + be_bytes(n));
    let ghost mid = bytes@;
    let mut i: usize = 0;
    while i < value.len()
        invariant
            i <= value.len(),
            bytes@ == mid + value@.take(i as int),
        decreases value.len() - i,
    {
        bytes.push(value[i]);
        i += 1;
        assert(bytes@ =~= mid + value@.take(i as int));
    }
    assert(value@.take(value@.len() as int) == value@);
}

/// `i32::saturating_sub`.
pub open spec fn saturating_sub_i32(a: i32, b: i32) -> int {
    let d = a - b;
    if d > i32::MAX {
        i32::MAX as int
    } else if d < i32::MIN {
        i32::MIN as int
    } else {
        d
    }
}

fn saturating_sub_i32_exec(a: i32, b: i32) -> (r: i64)
    ensures
        r == saturating_sub_i32(a, b),
{
    let d = a as i64 - b as i64;
    if d > i32::MAX as i64 {
        i32::MAX as i64
    } else if d < i32::MIN as i64 {
        i32::MIN as i64
    } else {
        d
    }
}

/// The size key of a query-literal range: `(lines, columns)` spanned, with
/// saturating differences; non-ranges weigh the most.
pub open spec fn spec_range_weight(range: Seq<i32>) -> (int, int) {
    if range.len() == 3 {
        (0, saturating_sub_i32(range[2], range[1]))
    } else if range.len() >= 4 {
        (saturating_sub_i32(range[2], range[0]), saturating_sub_i32(range[3], range[1]))
    } else {
        (i64::MAX as int, i64::MAX as int)
    }
}

pub fn range_weight(range: &[i32]) -> (r: (i64, i64))
    ensures
        (r.0 as int, r.1 as int) == spec_range_weight(range@),
{
    if range.len() == 3 {
        (0, saturating_sub_i32_exec(range[2], range[1]))
    } else if range.len() >= 4 {
        (saturating_sub_i32_exec(range[2], range[0]), saturating_sub_i32_exec(range[3], range[1]))
    } else {
        (i64::MAX, i64::MAX)
    }
}

/// The longest time a `Duration` holds, in nanoseconds.
pub const MAX_DURATION_NANOS: u128 = 18_446_744_073_709_551_615_999_999_999;

/// Time spent in each phase of the source inventory, in nanoseconds.
#[derive(Clone, Copy, Debug, Default)]
pub struct SourceInventoryTimings {
    pub source_load: u128,
    pub source_parse: u128,
    pub definition_inventory: u128,
    pub call_site_inventory: u128,
    pub type_relation_inventory: u128,
    pub type_use_inventory: u128,
    pub sql_literal_inventory: u128,
    pub import_inventory: u128,
    pub import_resolution: u128,
}

/// Two phase sums stay within what a `Duration` holds.
pub open spec fn sums_fit(a: SourceInventoryTimings, b: SourceInventoryTimings) -> bool {
    &&& a.source_load + b.source_load <= MAX_DURATION_NANOS
    &&& a.source_parse + b.source_parse <= MAX_DURATION_NANOS
    &&& a.definition_inventory + b.definition_inventory <= MAX_DURATION_NANOS
    &&& a.call_site_inventory + b.call_site_inventory <= MAX_DURATION_NANOS
    &&& a.type_relation_inventory + b.type_relation_inventory <= MAX_DURATION_NANOS
    &&& a.type_use_inventory + b.type_use_inventory <= MAX_DURATION_NANOS
    &&& a.sql_literal_inventory + b.sql_literal_inventory <= MAX_DURATION_NANOS
    &&& a.import_inventory + b.import_inventory <= MAX_DURATION_NANOS
    &&& a.import_resolution + b.import_resolution <= MAX_DURATION_NANOS
}

impl SourceInventoryTimings {
    /// Adds the phase times of `other` to these.
    pub fn merge(&mut self, other: SourceInventoryTimings)
        requires
            sums_fit(*old(self), other),
        ensures
            final(self).source_load == old(self).source_load + other.source_load,
            final(self).source_parse == old(self).source_parse + other.source_parse,
            final(self).definition_inventory == old(self).definition_inventory
                + other.definition_inventory,
            final(self).call_site_inventory == old(self).call_site_inventory
                + other.call_site_inventory,
            final(self).type_relation_inventory == old(self).type_relation_inventory
                + other.type_relation_inventory,
            final(self).type_use_inventory == old(self).type_use_inventory
                + other.type_use_inventory,
            final(self).sql_literal_inventory == old(self).sql_literal_inventory
                + other.sql_literal_inventory,
            final(self).import_inventory == old(self).import_inventory + other.import_inventory,
            final(self).import_resolution == old(self).import_resolution
                + other.import_resolution,
    {
        self.source_load = self.source_load + other.source_load;
        self.source_parse = self.source_parse + other.source_parse;
        self.definition_inventory = self.definition_inventory + other.definition_inventory;
        self.call_site_inventory = self.call_site_inventory + other.call_site_inventory;
        self.type_relation_inventory = self.type_relation_inventory
            + other.type_relation_inventory;
        self.type_use_inventory = self.type_use_inventory + other.type_use_inventory;
        self.sql_literal_inventory = self.sql_literal_inventory + other.sql_literal_inventory;
        self.import_inventory = self.import_inventory + other.import_inventory;
        self.import_resolution = self.import_resolution + other.import_resolution;
    }
}

} // verus!
