//! The handle table collector: the variable-length-buffer retry protocol of
//! the extended system handle query, decoding of the returned table, and a
//! soft join with the process snapshot.

use vstd::prelude::*;

use crate::cache::CacheEntry;
use crate::models::{HandleInfo, Process};
use crate::net::{le32, read_u32_le, spec_pid_name, pid_name};

verus! {

/// The status an extended system query answers when the buffer was too
/// small for the table, as an unsigned 32-bit status code.
pub const STATUS_INFO_LENGTH_MISMATCH: u32 = 0xC0000004;

/// The next move of the growable-buffer protocol: call again with a larger
/// buffer, keep the answer, or give the refresh up.
pub enum BufferVerdict {
    Done,
    Grow(u64),
    Fail(u32),
}

/// One step of the growable-buffer protocol: on "buffer too small", regrow
/// to the reported required size plus slack and retry; on success stop; any
/// other status is fatal to this refresh only.
pub fn buffer_step(status: u32, return_length: u32) -> (r: BufferVerdict)
    ensures
        status == 0 ==> r is Done,
        status == STATUS_INFO_LENGTH_MISMATCH ==> (r matches BufferVerdict::Grow(n) && n
            == return_length + 512),
        status != 0 && status != STATUS_INFO_LENGTH_MISMATCH ==> (r matches BufferVerdict::Fail(s)
            && s == status),
{
    if status == 0 {
        BufferVerdict::Done
    } else if status == STATUS_INFO_LENGTH_MISMATCH {
        BufferVerdict::Grow(return_length as u64 + 512)
    } else {
        BufferVerdict::Fail(status)
    }
}

/// The little-endian 64-bit value at byte offset `off`.
pub open spec fn le64(b: Seq<u8>, off: int) -> int {
    le32(b, off) + 0x100000000 * le32(b, off + 4)
}

/// The little-endian 16-bit value at byte offset `off`.
pub open spec fn le16(b: Seq<u8>, off: int) -> int {
    b[off] + 256 * b[off + 1]
}

/// Read the little-endian 64-bit value at byte offset `off`.
pub fn read_u64_le(b: &Vec<u8>, off: usize) -> (r: u64)
    requires
        off + 8 <= b@.len(),
    ensures
        r == le64(b@, off as int),
{
    let n = b.len();
    let lo = read_u32_le(b, off);
    let hi = read_u32_le(b, off + 4);
    (lo as u64) + 0x100000000u64 * (hi as u64)
}

/// Read the little-endian 16-bit value at byte offset `off`.
pub fn read_u16_le(b: &Vec<u8>, off: usize) -> (r: u16)
    requires
        off + 2 <= b@.len(),
    ensures
        r == le16(b@, off as int),
{
    let n = b.len();
    (b[off] as u16) + 256 * (b[off + 1] as u16)
}

/// Number of rows the raw handle table holds: the declared count (the
/// leading 64-bit word), capped by what the buffer has room for (rows of 40
/// bytes each, starting at byte 16).
pub open spec fn handle_row_count(b: Seq<u8>) -> int {
    if b.len() < 16 {
        0
    } else if le64(b, 0) <= (b.len() - 16) / 40 {
        le64(b, 0)
    } else {
        (b.len() - 16) / 40
    }
}

/// Decode the extended system handle table and resolve each row's owning
/// process id to a name via the process snapshot; an id the snapshot does
/// not carry resolves to the empty string, never an error. Each 40-byte row
/// holds, after an object pointer, the owning process id, the handle value,
/// the granted-access mask and the object-type index.
#[verifier::loop_isolation(false)]
pub fn parse_handle_table(b: &Vec<u8>, procs: &Vec<Process>) -> (r: Vec<HandleInfo>)
    ensures
        r@.len() == handle_row_count(b@),
        forall|i: int|
            0 <= i < r@.len() ==> {
                let off = 16 + 40 * i;
                &&& (#[trigger] r@[i]).process_id == le64(b@, off + 8) as u32
                &&& r@[i].process_name@ == spec_pid_name(procs@, le64(b@, off + 8) as u32)
                &&& r@[i].handle == le64(b@, off + 16) as u64
                &&& r@[i].granted_access == le32(b@, off + 24) as u32
                &&& r@[i].object_type == le16(b@, off + 30) as u16
            },
{
    let mut out: Vec<HandleInfo> = Vec::new();
    if b.len() < 16 {
        return out;
    }
    let declared = read_u64_le(b, 0);
    let fit = (b.len() - 16) / 40;
    let rows: usize = if declared <= fit as u64 {
        declared as usize
    } else {
        fit
    };
    let mut i: usize = 0;
    while i < rows
        invariant
            0 <= i <= rows,
            rows == handle_row_count(b@),
            16 + 40 * rows <= b@.len(),
            out@.len() == i,
            forall|k: int|
                0 <= k < i ==> {
                    let off = 16 + 40 * k;
                    &&& (#[trigger] out@[k]).process_id == le64(b@, off + 8) as u32
                    &&& out@[k].process_name@ == spec_pid_name(procs@, le64(b@, off + 8) as u32)
                    &&& out@[k].handle == le64(b@, off + 16) as u64
                    &&& out@[k].granted_access == le32(b@, off + 24) as u32
                    &&& out@[k].object_type == le16(b@, off + 30) as u16
                },
        decreases rows - i,
    {
        let off = 16 + 40 * i;
        let pid = read_u64_le(b, off + 8) as u32;
        let name = pid_name(procs, pid);
        let entry = HandleInfo {
            process_id: pid,
            process_name: name,
            handle: read_u64_le(b, off + 16),
            object_type: read_u16_le(b, off + 30),
            granted_access: read_u32_le(b, off + 24),
        };
        out.push(entry);
        i += 1;
    }
    out
}

/// The handle table collector: one freshness-gated cache of the joined
/// table.
pub struct HandleManager {
    pub query_interval_ms: u64,
    pub cache: CacheEntry<Vec<HandleInfo>>,
}

impl HandleManager {
    /// A collector whose empty cache is immediately stale.
    pub fn new(now_ms: u64) -> (r: Self)
        ensures
            r.query_interval_ms == 1000,
            r.cache.value@ == Seq::<HandleInfo>::empty(),
            now_ms >= 1000 ==> r.cache.spec_is_stale(now_ms, r.query_interval_ms),
    {
        let query_interval_ms: u64 = 1000;
        let stamp: u64 = if now_ms >= query_interval_ms {
            now_ms - query_interval_ms
        } else {
            0
        };
        let r = HandleManager { query_interval_ms, cache: CacheEntry::new(Vec::new(), stamp) };
        proof {
            assert(r.cache.value@ =~= Seq::<HandleInfo>::empty());
        }
        r
    }

    /// The cached table is older than the refresh interval.
    pub fn needs_refresh(&self, now_ms: u64) -> (r: bool)
        ensures
            r == self.cache.spec_is_stale(now_ms, self.query_interval_ms),
    {
        self.cache.is_stale(now_ms, self.query_interval_ms)
    }

    /// Decode a raw handle table and replace the cache with it.
    pub fn refresh(&mut self, b: &Vec<u8>, procs: &Vec<Process>, now_ms: u64)
        ensures
            final(self).cache.value@.len() == handle_row_count(b@),
            forall|i: int|
                0 <= i < final(self).cache.value@.len() ==> {
                    let off = 16 + 40 * i;
                    &&& (#[trigger] final(self).cache.value@[i]).process_id == le64(
                        b@,
                        off + 8,
                    ) as u32
                    &&& final(self).cache.value@[i].process_name@ == spec_pid_name(
                        procs@,
                        le64(b@, off + 8) as u32,
                    )
                    &&& final(self).cache.value@[i].handle == le64(b@, off + 16) as u64
                    &&& final(self).cache.value@[i].granted_access == le32(b@, off + 24) as u32
                    &&& final(self).cache.value@[i].object_type == le16(b@, off + 30) as u16
                },
            final(self).cache.refreshed_on_ms == now_ms,
            final(self).query_interval_ms == old(self).query_interval_ms,
    {
        let rows = parse_handle_table(b, procs);
        self.cache.store(rows, now_ms);
    }

    /// Read the cached handle table.
    pub fn get_handles(&self) -> (r: &Vec<HandleInfo>)
        ensures
            *r == self.cache.value,
    {
        self.cache.value()
    }
}

} // verus!
