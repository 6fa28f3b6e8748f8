//! The disk inventory collector: per-drive capacity figures joined against
//! the management-data physical-disk catalog, keyed by drive letter through
//! a free-form association string that names a disk index and a quoted
//! drive-letter token.

use vstd::prelude::*;
use vstd::string::StrSliceExecFns;

use crate::cache::CacheEntry;
use crate::fmt::{dec_str, format_bytes, format_bytes_spec, u64_to_string};
use crate::models::{clone_opt_string, clone_string, DiskInfo, DiskPartition, WmiDisk, WmiDiskV};
use crate::text::{ends_with, find_sub, lemma_find_sub_bounds, parse_u32, parse_u32_spec, str_eq,
    str_ends_with, str_find};

verus! {

/// The text after the first occurrence of `marker`, when it occurs at all.
pub open spec fn after_marker(s: Seq<char>, marker: Seq<char>) -> Option<Seq<char>> {
    match find_sub(s, marker) {
        Some(i) => Some(s.skip(i + marker.len())),
        None => None,
    }
}

/// Take the text after the first occurrence of `marker`.
fn after_marker_str<'a>(s: &'a str, marker: &str) -> (r: Option<&'a str>)
    ensures
        match r {
            Some(t) => after_marker(s@, marker@) == Some(t@),
            None => after_marker(s@, marker@) is None,
        },
{
    match str_find(s, marker) {
        Some(i) => {
            proof {
                lemma_find_sub_bounds(s@, marker@, 0);
            }
            let m = marker.unicode_len();
            let total = s.unicode_len();
            let rest = s.substring_char(i + m, total);
            proof {
                assert(rest@ =~= s@.skip(i + marker@.len()));
            }
            Some(rest)
        },
        None => None,
    }
}

/// The text with every leading and trailing double quote removed.
pub open spec fn trim_quotes(s: Seq<char>) -> Seq<char>
    decreases s.len(),
{
    if s.len() > 0 && s[0] == '"' {
        trim_quotes(s.drop_first())
    } else if s.len() > 0 && s.last() == '"' {
        trim_quotes(s.drop_last())
    } else {
        s
    }
}

/// Strip double quotes from both ends.
#[verifier::loop_isolation(false)]
fn trim_quotes_str<'a>(s: &'a str) -> (r: &'a str)
    ensures
        r@ == trim_quotes(s@),
{
    let len = s.unicode_len();
    proof {
        assert(s@.skip(0) =~= s@);
    }
    let mut lo: usize = 0;
    while lo < len && s.get_char(lo) == '"'
        invariant
            0 <= lo <= len,
            trim_quotes(s@) == trim_quotes(s@.skip(lo as int)),
        decreases len - lo,
    {
        proof {
            assert(s@.skip(lo as int)[0] == s@[lo as int]);
            assert(s@.skip(lo as int).drop_first() =~= s@.skip(lo as int + 1));
        }
        lo += 1;
    }
    let mut hi: usize = len;
    while hi > lo && s.get_char(hi - 1) == '"'
        invariant
            lo <= hi <= len,
            lo < len ==> s@[lo as int] != '"',
            lo == len ==> hi == len,
            trim_quotes(s@) == trim_quotes(s@.subrange(lo as int, hi as int)),
        decreases hi,
    {
        proof {
            let seg = s@.subrange(lo as int, hi as int);
            assert(seg[0] == s@[lo as int]);
            assert(seg.last() == s@[hi as int - 1]);
            assert(seg.drop_last() =~= s@.subrange(lo as int, hi as int - 1));
        }
        hi -= 1;
    }
    proof {
        let seg = s@.subrange(lo as int, hi as int);
        if seg.len() > 0 {
            assert(seg[0] == s@[lo as int]);
            assert(seg.last() == s@[hi as int - 1]);
        }
        assert(trim_quotes(seg) == seg);
    }
    let r = s.substring_char(lo, hi);
    proof {
        assert(r@ =~= s@.subrange(lo as int, hi as int));
    }
    r
}

/// The text with every trailing backslash removed.
pub open spec fn trim_backslashes(s: Seq<char>) -> Seq<char>
    decreases s.len(),
{
    if s.len() > 0 && s.last() == '\\' {
        trim_backslashes(s.drop_last())
    } else {
        s
    }
}

/// Strip backslashes from the end.
#[verifier::loop_isolation(false)]
fn trim_backslashes_str<'a>(s: &'a str) -> (r: &'a str)
    ensures
        r@ == trim_backslashes(s@),
{
    let len = s.unicode_len();
    proof {
        assert(s@.take(len as int) =~= s@);
    }
    let mut hi: usize = len;
    while hi > 0 && s.get_char(hi - 1) == '\\'
        invariant
            0 <= hi <= len,
            trim_backslashes(s@) == trim_backslashes(s@.take(hi as int)),
        decreases hi,
    {
        proof {
            let seg = s@.take(hi as int);
            assert(seg.last() == s@[hi as int - 1]);
            assert(seg.drop_last() =~= s@.take(hi as int - 1));
        }
        hi -= 1;
    }
    proof {
        let seg = s@.take(hi as int);
        if seg.len() > 0 {
            assert(seg.last() == s@[hi as int - 1]);
        }
        assert(trim_backslashes(seg) == seg);
    }
    let r = s.substring_char(0, hi);
    proof {
        assert(r@ =~= s@.take(hi as int));
    }
    r
}

/// The disk index named by an association antecedent: the decimal number
/// after the first "Disk #", up to the first comma. A malformed antecedent
/// names no index.
pub open spec fn assoc_disk_index(a: Seq<char>) -> Option<u32> {
    match after_marker(a, "Disk #"@) {
        Some(rest) => {
            let end = match find_sub(rest, ","@) {
                Some(j) => j,
                None => rest.len() as int,
            };
            parse_u32_spec(rest.take(end))
        },
        None => None,
    }
}

/// Extract the disk index from an association antecedent.
pub fn parse_assoc_disk_index(a: &str) -> (r: Option<u32>)
    ensures
        r == assoc_disk_index(a@),
{
    match after_marker_str(a, "Disk #") {
        Some(rest) => {
            let end = match str_find(rest, ",") {
                Some(j) => j,
                None => rest.unicode_len(),
            };
            proof {
                if find_sub(rest@, ","@) is Some {
                    lemma_find_sub_bounds(rest@, ","@, 0);
                }
            }
            let idx_str = rest.substring_char(0, end);
            proof {
                assert(idx_str@ =~= rest@.take(end as int));
            }
            parse_u32(idx_str)
        },
        None => None,
    }
}

/// The drive token named by an association dependent: the text after the
/// first "DeviceID=", unquoted. A malformed dependent names no drive.
pub open spec fn assoc_drive(d: Seq<char>) -> Option<Seq<char>> {
    match after_marker(d, "DeviceID="@) {
        Some(rest) => Some(trim_quotes(rest)),
        None => None,
    }
}

/// Extract the drive token from an association dependent.
pub fn parse_assoc_drive<'a>(d: &'a str) -> (r: Option<&'a str>)
    ensures
        match r {
            Some(t) => assoc_drive(d@) == Some(t@),
            None => assoc_drive(d@) is None,
        },
{
    match after_marker_str(d, "DeviceID=") {
        Some(rest) => Some(trim_quotes_str(rest)),
        None => None,
    }
}

/// The first catalog record whose device id ends with the given text.
pub open spec fn first_disk_with_suffix(disks: Seq<WmiDisk>, suffix: Seq<char>) -> Option<WmiDisk>
    decreases disks.len(),
{
    if disks.len() == 0 {
        None
    } else if ends_with(disks[0].device_id@, suffix) {
        Some(disks[0])
    } else {
        first_disk_with_suffix(disks.drop_first(), suffix)
    }
}

/// View of an optional catalog record.
pub open spec fn opt_disk_view(o: Option<WmiDisk>) -> Option<WmiDiskV> {
    match o {
        Some(d) => Some(d@),
        None => None,
    }
}

/// Find the first catalog record whose device id ends with the given text.
#[verifier::loop_isolation(false)]
fn find_disk_with_suffix(disks: &Vec<WmiDisk>, suffix: &str) -> (r: Option<WmiDisk>)
    ensures
        opt_disk_view(r) == opt_disk_view(first_disk_with_suffix(disks@, suffix@)),
{
    proof {
        assert(disks@.skip(0) =~= disks@);
    }
    let mut i: usize = 0;
    while i < disks.len()
        invariant
            0 <= i <= disks@.len(),
            first_disk_with_suffix(disks@, suffix@) == first_disk_with_suffix(
                disks@.skip(i as int),
                suffix@,
            ),
        decreases disks@.len() - i,
    {
        proof {
            assert(disks@.skip(i as int)[0] == disks@[i as int]);
            assert(disks@.skip(i as int).drop_first() =~= disks@.skip(i as int + 1));
        }
        if str_ends_with(disks[i].device_id.as_str(), suffix) {
            return Some(disks[i].clone());
        }
        i += 1;
    }
    None
}

/// The catalog record an association pair selects: the record whose device
/// id ends with the named disk index, keyed under the named drive token.
pub open spec fn link_target(ante: Seq<char>, dep: Seq<char>, disks: Seq<WmiDisk>) -> Option<
    (Seq<char>, WmiDiskV),
> {
    match assoc_disk_index(ante) {
        Some(idx) => match assoc_drive(dep) {
            Some(drive) => match first_disk_with_suffix(disks, dec_str(idx as nat)) {
                Some(disk) => Some((drive, disk@)),
                None => None,
            },
            None => None,
        },
        None => None,
    }
}

/// The logical-to-physical map the association rows build, in row order;
/// malformed rows and unknown disk indexes are skipped, never errors.
pub open spec fn links_map(links: Seq<(String, String)>, disks: Seq<WmiDisk>) -> Seq<
    (Seq<char>, WmiDiskV),
>
    decreases links.len(),
{
    if links.len() == 0 {
        Seq::empty()
    } else {
        links_map(links.drop_last(), disks) + match link_target(
            links.last().0@,
            links.last().1@,
            disks,
        ) {
            Some(p) => seq![p],
            None => Seq::empty(),
        }
    }
}

/// Views of the logical-to-physical map.
pub open spec fn pairs_view(s: Seq<(String, WmiDisk)>) -> Seq<(Seq<char>, WmiDiskV)> {
    s.map_values(|p: (String, WmiDisk)| (p.0@, p.1@))
}

/// Build the logical-to-physical map from the raw association rows: extract
/// each row's disk index and drive token, and key the matching catalog
/// record under the token; malformed rows are skipped.
#[verifier::loop_isolation(false)]
pub fn map_logical_links(links: &Vec<(String, String)>, disks: &Vec<WmiDisk>) -> (r: Vec<
    (String, WmiDisk),
>)
    ensures
        pairs_view(r@) == links_map(links@, disks@),
{
    let mut out: Vec<(String, WmiDisk)> = Vec::new();
    let mut i: usize = 0;
    while i < links.len()
        invariant
            0 <= i <= links@.len(),
            pairs_view(out@) == links_map(links@.take(i as int), disks@),
        decreases links@.len() - i,
    {
        proof {
            assert(links@.take(i as int + 1).drop_last() =~= links@.take(i as int));
            assert(links@.take(i as int + 1).last() == links@[i as int]);
        }
        match parse_assoc_disk_index(links[i].0.as_str()) {
            Some(idx) => {
                match parse_assoc_drive(links[i].1.as_str()) {
                    Some(drive) => {
                        let suffix = u64_to_string(idx as u64);
                        match find_disk_with_suffix(disks, suffix.as_str()) {
                            Some(disk) => {
                                let ghost before = out@;
                                out.push((drive.to_owned(), disk));
                                proof {
                                    assert(pairs_view(out@) =~= pairs_view(before).push(
                                        (drive@, out@.last().1@),
                                    ));
                                    assert(pairs_view(out@) =~= links_map(
                                        links@.take(i as int + 1),
                                        disks@,
                                    ));
                                }
                            },
                            None => {
                                proof {
                                    assert(pairs_view(out@) =~= links_map(
                                        links@.take(i as int + 1),
                                        disks@,
                                    ));
                                }
                            },
                        }
                    },
                    None => {
                        proof {
                            assert(pairs_view(out@) =~= links_map(
                                links@.take(i as int + 1),
                                disks@,
                            ));
                        }
                    },
                }
            },
            None => {
                proof {
                    assert(pairs_view(out@) =~= links_map(links@.take(i as int + 1), disks@));
                }
            },
        }
        i += 1;
    }
    proof {
        assert(links@.take(links@.len() as int) =~= links@);
    }
    out
}

/// The record keyed under the drive token, the last one when several rows
/// keyed the same token (a later row overwrites an earlier one).
pub open spec fn map_lookup(m: Seq<(Seq<char>, WmiDiskV)>, key: Seq<char>) -> Option<WmiDiskV>
    decreases m.len(),
{
    if m.len() == 0 {
        None
    } else if m.last().0 == key {
        Some(m.last().1)
    } else {
        map_lookup(m.drop_last(), key)
    }
}

/// Look a drive token up in the logical-to-physical map.
#[verifier::loop_isolation(false)]
fn lookup_drive(m: &Vec<(String, WmiDisk)>, key: &str) -> (r: Option<WmiDisk>)
    ensures
        opt_disk_view(r) == match map_lookup(pairs_view(m@), key@) {
            Some(d) => Some(d),
            None => None,
        },
{
    proof {
        assert(pairs_view(m@).take(m@.len() as int) =~= pairs_view(m@));
    }
    let mut i: usize = m.len();
    while i > 0
        invariant
            0 <= i <= m@.len(),
            map_lookup(pairs_view(m@), key@) == map_lookup(
                pairs_view(m@).take(i as int),
                key@,
            ),
        decreases i,
    {
        proof {
            let pv = pairs_view(m@).take(i as int);
            assert(pv.last() == (m@[i as int - 1].0@, m@[i as int - 1].1@));
            assert(pv.drop_last() =~= pairs_view(m@).take(i as int - 1));
        }
        if str_eq(m[i - 1].0.as_str(), key) {
            return Some(m[i - 1].1.clone());
        }
        i -= 1;
    }
    proof {
        assert(pairs_view(m@).take(0) =~= Seq::empty());
    }
    None
}

/// Capacity figures of one volume, as the direct volume queries answer
/// them.
pub struct VolumeInfo {
    pub name: String,
    pub fs_type: Option<String>,
    pub total: u64,
    pub free: u64,
}

/// Render one volume's capacity figures: used space is total minus free
/// (zero when free exceeds total), and every count carries its
/// human-readable rendering.
pub fn build_partition(v: &VolumeInfo) -> (r: DiskPartition)
    ensures
        r.name@ == v.name@,
        crate::models::opt_str_view(r.fs_type) == crate::models::opt_str_view(v.fs_type),
        r.total == v.total,
        r.free == v.free,
        r.used == if v.free <= v.total {
            v.total - v.free
        } else {
            0
        },
        r.total_formatted@ == format_bytes_spec(v.total),
        r.free_formatted@ == format_bytes_spec(v.free),
        r.used_formatted@ == format_bytes_spec(r.used),
{
    let used: u64 = if v.free <= v.total {
        v.total - v.free
    } else {
        0
    };
    DiskPartition {
        name: clone_string(&v.name),
        fs_type: clone_opt_string(&v.fs_type),
        total: v.total,
        total_formatted: format_bytes(v.total),
        free: v.free,
        free_formatted: format_bytes(v.free),
        used,
        used_formatted: format_bytes(used),
    }
}

/// Join the volumes against the catalog map: each volume becomes one disk
/// record whose model and media type come from the record keyed under the
/// volume's drive token (its name without trailing backslashes), when one
/// is keyed there.
#[verifier::loop_isolation(false)]
pub fn join_disks(volumes: &Vec<VolumeInfo>, m: &Vec<(String, WmiDisk)>) -> (r: Vec<DiskInfo>)
    ensures
        r@.len() == volumes@.len(),
        forall|i: int|
            0 <= i < r@.len() ==> {
                let hit = map_lookup(pairs_view(m@), trim_backslashes((#[trigger] volumes@[i]).name@));
                &&& crate::models::opt_str_view(r@[i].model) == match hit {
                    Some(d) => d.model,
                    None => None,
                }
                &&& crate::models::opt_str_view(r@[i].disk_type) == match hit {
                    Some(d) => d.media_type,
                    None => None,
                }
                &&& r@[i].partitions@.len() == 1
                &&& r@[i].partitions@[0].name@ == volumes@[i].name@
                &&& r@[i].partitions@[0].total == volumes@[i].total
                &&& r@[i].partitions@[0].free == volumes@[i].free
                &&& r@[i].partitions@[0].used == if volumes@[i].free <= volumes@[i].total {
                    volumes@[i].total - volumes@[i].free
                } else {
                    0
                }
                &&& r@[i].partitions@[0].total_formatted@ == format_bytes_spec(volumes@[i].total)
                &&& r@[i].partitions@[0].free_formatted@ == format_bytes_spec(volumes@[i].free)
            },
{
    let mut out: Vec<DiskInfo> = Vec::new();
    let mut i: usize = 0;
    while i < volumes.len()
        invariant
            0 <= i <= volumes@.len(),
            out@.len() == i,
            forall|k: int|
                0 <= k < i ==> {
                    let hit = map_lookup(
                        pairs_view(m@),
                        trim_backslashes((#[trigger] volumes@[k]).name@),
                    );
                    &&& crate::models::opt_str_view(out@[k].model) == match hit {
                        Some(d) => d.model,
                        None => None,
                    }
                    &&& crate::models::opt_str_view(out@[k].disk_type) == match hit {
                        Some(d) => d.media_type,
                        None => None,
                    }
                    &&& out@[k].partitions@.len() == 1
                    &&& out@[k].partitions@[0].name@ == volumes@[k].name@
                    &&& out@[k].partitions@[0].total == volumes@[k].total
                    &&& out@[k].partitions@[0].free == volumes@[k].free
                    &&& out@[k].partitions@[0].used == if volumes@[k].free <= volumes@[k].total {
                        volumes@[k].total - volumes@[k].free
                    } else {
                        0
                    }
                    &&& out@[k].partitions@[0].total_formatted@ == format_bytes_spec(
                        volumes@[k].total,
                    )
                    &&& out@[k].partitions@[0].free_formatted@ == format_bytes_spec(
                        volumes@[k].free,
                    )
                },
        decreases volumes@.len() - i,
    {
        let key = trim_backslashes_str(volumes[i].name.as_str());
        let hit = lookup_drive(m, key);
        let partition = build_partition(&volumes[i]);
        let mut partitions: Vec<DiskPartition> = Vec::new();
        partitions.push(partition);
        let (model, disk_type) = match hit {
            Some(d) => (clone_opt_string(&d.model), clone_opt_string(&d.media_type)),
            None => (None, None),
        };
        out.push(DiskInfo { model, disk_type, partitions });
        i += 1;
    }
    out
}

/// The physical-disk catalog: the raw records and the logical-to-physical
/// map built from the association rows.
pub struct WmiCatalog {
    pub disks: Vec<WmiDisk>,
    pub logical_map: Vec<(String, WmiDisk)>,
}

/// The management-data catalog collector, on its own much longer freshness
/// gate since the catalog is far more expensive to query.
pub struct WmiService {
    pub cache_ttl_ms: u64,
    pub cache: CacheEntry<WmiCatalog>,
}

impl WmiService {
    /// A collector whose empty catalog is immediately stale.
    pub fn new(now_ms: u64) -> (r: Self)
        ensures
            r.cache_ttl_ms == 3600000,
            r.cache.value.disks@ == Seq::<WmiDisk>::empty(),
            r.cache.value.logical_map@ == Seq::<(String, WmiDisk)>::empty(),
            now_ms >= 3600000 ==> r.cache.spec_is_stale(now_ms, r.cache_ttl_ms),
    {
        let cache_ttl_ms: u64 = 3600000;
        let stamp: u64 = if now_ms >= cache_ttl_ms {
            now_ms - cache_ttl_ms
        } else {
            0
        };
        let r = WmiService {
            cache_ttl_ms,
            cache: CacheEntry::new(
                WmiCatalog { disks: Vec::new(), logical_map: Vec::new() },
                stamp,
            ),
        };
        proof {
            assert(r.cache.value.disks@ =~= Seq::<WmiDisk>::empty());
            assert(r.cache.value.logical_map@ =~= Seq::<(String, WmiDisk)>::empty());
        }
        r
    }

    /// The cached catalog is older than its refresh interval.
    pub fn needs_refresh(&self, now_ms: u64) -> (r: bool)
        ensures
            r == self.cache.spec_is_stale(now_ms, self.cache_ttl_ms),
    {
        self.cache.is_stale(now_ms, self.cache_ttl_ms)
    }

    /// Replace the catalog with fresh records and the map their association
    /// rows build.
    pub fn refresh(&mut self, disks: Vec<WmiDisk>, links: &Vec<(String, String)>, now_ms: u64)
        ensures
            final(self).cache.value.disks == disks,
            pairs_view(final(self).cache.value.logical_map@) == links_map(links@, disks@),
            final(self).cache.refreshed_on_ms == now_ms,
            final(self).cache_ttl_ms == old(self).cache_ttl_ms,
    {
        let logical_map = map_logical_links(links, &disks);
        self.cache.store(WmiCatalog { disks, logical_map }, now_ms);
    }

    /// Read the cached logical-to-physical map.
    pub fn map_logical_to_physical(&self) -> (r: &Vec<(String, WmiDisk)>)
        ensures
            *r == self.cache.value.logical_map,
    {
        &self.cache.value().logical_map
    }

    /// Read the cached catalog records.
    pub fn get_disks(&self) -> (r: &Vec<WmiDisk>)
        ensures
            *r == self.cache.value.disks,
    {
        &self.cache.value().disks
    }
}

/// The disk inventory collector: volumes joined against the catalog, on an
/// hourly freshness gate.
pub struct DiskService {
    pub query_interval_ms: u64,
    pub cache: CacheEntry<Vec<DiskInfo>>,
}

impl DiskService {
    /// A collector whose empty inventory is immediately stale.
    pub fn new(now_ms: u64) -> (r: Self)
        ensures
            r.query_interval_ms == 3600000,
            r.cache.value@ == Seq::<DiskInfo>::empty(),
            now_ms >= 3600000 ==> r.cache.spec_is_stale(now_ms, r.query_interval_ms),
    {
        let query_interval_ms: u64 = 3600000;
        let stamp: u64 = if now_ms >= query_interval_ms {
            now_ms - query_interval_ms
        } else {
            0
        };
        let r = DiskService { query_interval_ms, cache: CacheEntry::new(Vec::new(), stamp) };
        proof {
            assert(r.cache.value@ =~= Seq::<DiskInfo>::empty());
        }
        r
    }

    /// The cached inventory is older than the refresh interval.
    pub fn needs_refresh(&self, now_ms: u64) -> (r: bool)
        ensures
            r == self.cache.spec_is_stale(now_ms, self.query_interval_ms),
    {
        self.cache.is_stale(now_ms, self.query_interval_ms)
    }

    /// Join fresh volumes against the catalog map and replace the cache.
    pub fn refresh(
        &mut self,
        volumes: &Vec<VolumeInfo>,
        m: &Vec<(String, WmiDisk)>,
        now_ms: u64,
    )
        ensures
            final(self).cache.value@.len() == volumes@.len(),
            final(self).cache.refreshed_on_ms == now_ms,
            final(self).query_interval_ms == old(self).query_interval_ms,
            forall|i: int|
                0 <= i < volumes@.len() ==> {
                    let hit = map_lookup(
                        pairs_view(m@),
                        trim_backslashes((#[trigger] volumes@[i]).name@),
                    );
                    &&& crate::models::opt_str_view(final(self).cache.value@[i].model) == match hit {
                        Some(d) => d.model,
                        None => None,
                    }
                    &&& crate::models::opt_str_view(final(self).cache.value@[i].disk_type)
                        == match hit {
                        Some(d) => d.media_type,
                        None => None,
                    }
                    &&& final(self).cache.value@[i].partitions@.len() == 1
                    &&& final(self).cache.value@[i].partitions@[0].name@ == volumes@[i].name@
                    &&& final(self).cache.value@[i].partitions@[0].total == volumes@[i].total
                    &&& final(self).cache.value@[i].partitions@[0].free == volumes@[i].free
                    &&& final(self).cache.value@[i].partitions@[0].used == if volumes@[i].free
                        <= volumes@[i].total {
                        volumes@[i].total - volumes@[i].free
                    } else {
                        0
                    }
                    &&& final(self).cache.value@[i].partitions@[0].total_formatted@
                        == format_bytes_spec(volumes@[i].total)
                    &&& final(self).cache.value@[i].partitions@[0].free_formatted@
                        == format_bytes_spec(volumes@[i].free)
                },
    {
        let disks = join_disks(volumes, m);
        self.cache.store(disks, now_ms);
    }

    /// Read the cached inventory.
    pub fn get_disks(&self) -> (r: &Vec<DiskInfo>)
        ensures
            *r == self.cache.value,
    {
        self.cache.value()
    }
}

/// The letter of drive slot `i`.
pub open spec fn drive_letter(i: int) -> char {
    "ABCDEFGHIJKLMNOPQRSTUVWXYZ"@[i]
}

/// The root-path name of drive slot `i`, "X:\".
pub open spec fn drive_name(i: int) -> Seq<char> {
    seq![drive_letter(i), ':', '\\']
}

/// The drive names of the mask's set bits among the first `k` slots.
pub open spec fn drives_upto(mask: u32, k: int) -> Seq<Seq<char>>
    decreases k,
{
    if k <= 0 {
        Seq::empty()
    } else {
        drives_upto(mask, k - 1) + if mask & (1u32 << ((k - 1) as u32)) != 0 {
            seq![drive_name(k - 1)]
        } else {
            Seq::empty()
        }
    }
}

/// Views of a sequence of strings.
pub open spec fn strs_view(s: Seq<String>) -> Seq<Seq<char>> {
    s.map_values(|x: String| x@)
}

/// Expand a logical-drive bitmask into root-path names: one "X:\" per set
/// bit among the 26 drive letters, in letter order.
#[verifier::loop_isolation(false)]
pub fn drives_from_mask(mask: u32) -> (r: Vec<String>)
    ensures
        strs_view(r@) == drives_upto(mask, 26),
{
    let alphabet = "ABCDEFGHIJKLMNOPQRSTUVWXYZ";
    proof {
        reveal_strlit("ABCDEFGHIJKLMNOPQRSTUVWXYZ");
        reveal_strlit(":\\");
    }
    let mut out: Vec<String> = Vec::new();
    let mut i: usize = 0;
    while i < 26
        invariant
            0 <= i <= 26,
            alphabet@ =~= "ABCDEFGHIJKLMNOPQRSTUVWXYZ"@,
            alphabet@.len() == 26,
            ":\\"@ =~= seq![':', '\\'],
            strs_view(out@) == drives_upto(mask, i as int),
        decreases 26 - i,
    {
        if mask & (1u32 << (i as u32)) != 0 {
            let mut name = alphabet.substring_char(i, i + 1).to_owned();
            name.append(":\\");
            proof {
                assert(name@ =~= drive_name(i as int));
            }
            let ghost before = out@;
            out.push(name);
            proof {
                assert(strs_view(out@) =~= strs_view(before).push(name@));
                assert(strs_view(out@) =~= drives_upto(mask, i as int + 1));
            }
        } else {
            proof {
                assert(strs_view(out@) =~= drives_upto(mask, i as int + 1));
            }
        }
        i += 1;
    }
    out
}

} // verus!
