//! The driver inventories: installed driver packages joined against a
//! device-class-name lookup built once per process, and loaded kernel
//! modules with placeholder fallbacks for unresolvable names.

use vstd::prelude::*;
use vstd::string::StrSliceExecFns;

use crate::cache::CacheEntry;
use crate::models::{clone_string, DriverInfo, LoadedDriver};
use crate::text::{find_sub, lemma_find_sub_bounds, str_eq, str_find};

verus! {

/// The value under the first matching key of an association list.
pub open spec fn assoc_first(s: Seq<(String, String)>, key: Seq<char>) -> Option<Seq<char>>
    decreases s.len(),
{
    if s.len() == 0 {
        None
    } else if s[0].0@ == key {
        Some(s[0].1@)
    } else {
        assoc_first(s.drop_first(), key)
    }
}

/// The device-class-name lookup: class GUID to class name, built once at
/// startup from the class registry inventory and kept for the process
/// lifetime.
pub struct DeviceClassService {
    pub class_names: Vec<(String, String)>,
}

impl DeviceClassService {
    /// A lookup over the given GUID-to-name pairs.
    pub fn new(class_names: Vec<(String, String)>) -> (r: Self)
        ensures
            r.class_names == class_names,
    {
        DeviceClassService { class_names }
    }

    /// The class name registered under the GUID, the first when several.
    #[verifier::loop_isolation(false)]
    pub fn get_class_name(&self, class_guid: &str) -> (r: Option<&String>)
        ensures
            match r {
                Some(name) => assoc_first(self.class_names@, class_guid@) == Some(name@),
                None => assoc_first(self.class_names@, class_guid@) is None,
            },
    {
        proof {
            assert(self.class_names@.skip(0) =~= self.class_names@);
        }
        let mut i: usize = 0;
        while i < self.class_names.len()
            invariant
                0 <= i <= self.class_names@.len(),
                assoc_first(self.class_names@, class_guid@) == assoc_first(
                    self.class_names@.skip(i as int),
                    class_guid@,
                ),
            decreases self.class_names@.len() - i,
        {
            proof {
                assert(self.class_names@.skip(i as int)[0] == self.class_names@[i as int]);
                assert(self.class_names@.skip(i as int).drop_first() =~= self.class_names@.skip(
                    i as int + 1,
                ));
            }
            if str_eq(self.class_names[i].0.as_str(), class_guid) {
                return Some(&self.class_names[i].1);
            }
            i += 1;
        }
        None
    }
}

/// The class GUID of a driver key: the part before the first backslash (the
/// whole key when it has none).
pub open spec fn driver_key_guid(inf: Seq<char>) -> Seq<char> {
    match find_sub(inf, "\\"@) {
        Some(i) => inf.take(i),
        None => inf,
    }
}

/// The instance id of a driver key: the part after the first backslash
/// (empty when it has none).
pub open spec fn driver_key_instance(inf: Seq<char>) -> Seq<char> {
    match find_sub(inf, "\\"@) {
        Some(i) => inf.skip(i + 1),
        None => Seq::empty(),
    }
}

/// Split a driver key at its first backslash into class GUID and instance
/// id.
pub fn split_driver_key(inf: &str) -> (r: (String, String))
    ensures
        r.0@ == driver_key_guid(inf@),
        r.1@ == driver_key_instance(inf@),
{
    proof {
        reveal_strlit("\\");
    }
    match str_find(inf, "\\") {
        Some(i) => {
            proof {
                lemma_find_sub_bounds(inf@, "\\"@, 0);
                assert("\\"@.len() == 1);
            }
            let total = inf.unicode_len();
            let guid = inf.substring_char(0, i);
            let instance = inf.substring_char(i + 1, total);
            proof {
                assert(guid@ =~= inf@.take(i as int));
                assert(instance@ =~= inf@.skip(i as int + 1));
            }
            (guid.to_owned(), instance.to_owned())
        },
        None => {
            proof {
                assert(inf@.take(inf@.len() as int) =~= inf@);
            }
            (inf.to_owned(), String::new())
        },
    }
}

/// The text of an optional property, empty when it failed to resolve.
pub open spec fn prop_text(o: Option<String>) -> Seq<char> {
    match o {
        Some(s) => s@,
        None => Seq::empty(),
    }
}

/// The properties one device enumeration row answers; each resolves
/// independently, and a failed one degrades to an absent value.
pub struct DeviceProperties {
    pub driver: Option<String>,
    pub provider: Option<String>,
    pub description: Option<String>,
}

/// Assemble one installed-driver record: split the driver key into class
/// GUID and instance id, join the GUID against the class-name lookup
/// (unknown GUIDs name the empty class), and keep provider and description
/// as resolved (absent ones become empty).
pub fn build_driver_info(row: &DeviceProperties, classes: &DeviceClassService) -> (r: DriverInfo)
    ensures
        r.class_guid@ == driver_key_guid(prop_text(row.driver)),
        r.instance_id@ == driver_key_instance(prop_text(row.driver)),
        r.inf@ == prop_text(row.driver),
        r.class_name@ == match assoc_first(
            classes.class_names@,
            driver_key_guid(prop_text(row.driver)),
        ) {
            Some(n) => n,
            None => Seq::<char>::empty(),
        },
        r.provider@ == prop_text(row.provider),
        r.description@ == prop_text(row.description),
        r.driver_store@ == Seq::<char>::empty(),
{
    let inf_full: String = match &row.driver {
        Some(s) => clone_string(s),
        None => String::new(),
    };
    let (class_guid, instance_id) = split_driver_key(inf_full.as_str());
    let class_name: String = match classes.get_class_name(class_guid.as_str()) {
        Some(n) => clone_string(n),
        None => String::new(),
    };
    let provider: String = match &row.provider {
        Some(s) => clone_string(s),
        None => String::new(),
    };
    let description: String = match &row.description {
        Some(s) => clone_string(s),
        None => String::new(),
    };
    DriverInfo {
        class_guid,
        class_name,
        instance_id,
        inf: inf_full,
        description,
        provider,
        driver_store: String::new(),
    }
}

/// The installed-driver collector: enumeration rows joined against the
/// device-class lookup, behind a freshness gate.
pub struct InstalledDriverService {
    pub device_class: DeviceClassService,
    pub query_interval_ms: u64,
    pub cache: CacheEntry<Vec<DriverInfo>>,
}

impl InstalledDriverService {
    /// A collector over the given class lookup, immediately stale.
    pub fn new(class_names: Vec<(String, String)>, now_ms: u64) -> (r: Self)
        ensures
            r.query_interval_ms == 30000,
            r.device_class.class_names == class_names,
            r.cache.value@ == Seq::<DriverInfo>::empty(),
            now_ms >= 30000 ==> r.cache.spec_is_stale(now_ms, r.query_interval_ms),
    {
        let query_interval_ms: u64 = 30000;
        let stamp: u64 = if now_ms >= query_interval_ms {
            now_ms - query_interval_ms
        } else {
            0
        };
        let r = InstalledDriverService {
            device_class: DeviceClassService::new(class_names),
            query_interval_ms,
            cache: CacheEntry::new(Vec::new(), stamp),
        };
        proof {
            assert(r.cache.value@ =~= Seq::<DriverInfo>::empty());
        }
        r
    }

    /// The cached inventory is older than the refresh interval.
    pub fn needs_refresh(&self, now_ms: u64) -> (r: bool)
        ensures
            r == self.cache.spec_is_stale(now_ms, self.query_interval_ms),
    {
        self.cache.is_stale(now_ms, self.query_interval_ms)
    }

    /// Assemble one record per enumeration row and replace the cache.
    #[verifier::loop_isolation(false)]
    pub fn refresh(&mut self, rows: &Vec<DeviceProperties>, now_ms: u64)
        ensures
            final(self).cache.value@.len() == rows@.len(),
            forall|i: int|
                0 <= i < rows@.len() ==> {
                    let inf = prop_text((#[trigger] rows@[i]).driver);
                    &&& final(self).cache.value@[i].inf@ == inf
                    &&& final(self).cache.value@[i].class_guid@ == driver_key_guid(inf)
                    &&& final(self).cache.value@[i].instance_id@ == driver_key_instance(inf)
                    &&& final(self).cache.value@[i].class_name@ == match assoc_first(
                        old(self).device_class.class_names@,
                        driver_key_guid(inf),
                    ) {
                        Some(n) => n,
                        None => Seq::<char>::empty(),
                    }
                    &&& final(self).cache.value@[i].provider@ == prop_text(rows@[i].provider)
                    &&& final(self).cache.value@[i].description@ == prop_text(rows@[i].description)
                },
            final(self).cache.refreshed_on_ms == now_ms,
            final(self).query_interval_ms == old(self).query_interval_ms,
            final(self).device_class == old(self).device_class,
    {
        let mut out: Vec<DriverInfo> = Vec::new();
        let mut i: usize = 0;
        while i < rows.len()
            invariant
                0 <= i <= rows@.len(),
                out@.len() == i,
                forall|k: int|
                    0 <= k < i ==> {
                        let inf = prop_text((#[trigger] rows@[k]).driver);
                        &&& out@[k].inf@ == inf
                        &&& out@[k].class_guid@ == driver_key_guid(inf)
                        &&& out@[k].instance_id@ == driver_key_instance(inf)
                        &&& out@[k].class_name@ == match assoc_first(
                            self.device_class.class_names@,
                            driver_key_guid(inf),
                        ) {
                            Some(n) => n,
                            None => Seq::<char>::empty(),
                        }
                        &&& out@[k].provider@ == prop_text(rows@[k].provider)
                        &&& out@[k].description@ == prop_text(rows@[k].description)
                    },
            decreases rows@.len() - i,
        {
            let info = build_driver_info(&rows[i], &self.device_class);
            out.push(info);
            i += 1;
        }
        self.cache.store(out, now_ms);
    }

    /// Read the cached inventory.
    pub fn get_drivers(&self) -> (r: &Vec<DriverInfo>)
        ensures
            *r == self.cache.value,
    {
        self.cache.value()
    }
}

/// The text of an optional module property, a placeholder when it could not
/// be resolved.
pub open spec fn module_text(o: Option<String>) -> Seq<char> {
    match o {
        Some(s) => s@,
        None => "<unknown>"@,
    }
}

/// One loaded kernel module as enumerated: its base address and its name
/// and path, each absent when unresolvable.
pub struct LoadedModuleRow {
    pub base: usize,
    pub name: Option<String>,
    pub path: Option<String>,
}

/// Assemble one loaded-driver record; an unresolvable name or path falls
/// back to a placeholder rather than failing the whole refresh.
pub fn build_loaded_driver(row: LoadedModuleRow) -> (r: LoadedDriver)
    ensures
        r.base == row.base,
        r.name@ == module_text(row.name),
        r.path@ == module_text(row.path),
{
    let name: String = match row.name {
        Some(s) => s,
        None => "<unknown>".to_owned(),
    };
    let path: String = match row.path {
        Some(s) => s,
        None => "<unknown>".to_owned(),
    };
    LoadedDriver { name, path, base: row.base }
}

/// The loaded-driver collector: the kernel-module base-address table with
/// per-module fallbacks, behind a freshness gate.
pub struct LoadedDriverService {
    pub query_interval_ms: u64,
    pub cache: CacheEntry<Vec<LoadedDriver>>,
}

impl LoadedDriverService {
    /// A collector whose empty cache is immediately stale.
    pub fn new(now_ms: u64) -> (r: Self)
        ensures
            r.query_interval_ms == 5000,
            r.cache.value@ == Seq::<LoadedDriver>::empty(),
            now_ms >= 5000 ==> r.cache.spec_is_stale(now_ms, r.query_interval_ms),
    {
        let query_interval_ms: u64 = 5000;
        let stamp: u64 = if now_ms >= query_interval_ms {
            now_ms - query_interval_ms
        } else {
            0
        };
        let r = LoadedDriverService {
            query_interval_ms,
            cache: CacheEntry::new(Vec::new(), stamp),
        };
        proof {
            assert(r.cache.value@ =~= Seq::<LoadedDriver>::empty());
        }
        r
    }

    /// The cached table is older than the refresh interval.
    pub fn needs_refresh(&self, now_ms: u64) -> (r: bool)
        ensures
            r == self.cache.spec_is_stale(now_ms, self.query_interval_ms),
    {
        self.cache.is_stale(now_ms, self.query_interval_ms)
    }

    /// Assemble one record per module row and replace the cache.
    #[verifier::loop_isolation(false)]
    pub fn refresh(&mut self, rows: Vec<LoadedModuleRow>, now_ms: u64)
        ensures
            final(self).cache.value@.len() == rows@.len(),
            forall|i: int|
                0 <= i < rows@.len() ==> {
                    &&& (#[trigger] final(self).cache.value@[i]).base == rows@[i].base
                    &&& final(self).cache.value@[i].name@ == module_text(rows@[i].name)
                    &&& final(self).cache.value@[i].path@ == module_text(rows@[i].path)
                },
            final(self).cache.refreshed_on_ms == now_ms,
            final(self).query_interval_ms == old(self).query_interval_ms,
    {
        let ghost rows_view = rows@;
        let mut rows = rows;
        let n: usize = rows.len();
        proof {
            assert(rows_view.len() == n as int);
        }
        let mut out: Vec<LoadedDriver> = Vec::new();
        let mut taken: usize = 0;
        while rows.len() > 0
            invariant
                rows_view.len() <= usize::MAX,
                taken + rows@.len() == rows_view.len(),
                rows@ == rows_view.skip(taken as int),
                out@.len() == taken,
                forall|k: int|
                    0 <= k < taken ==> {
                        &&& (#[trigger] out@[k]).base == rows_view[k].base
                        &&& out@[k].name@ == module_text(rows_view[k].name)
                        &&& out@[k].path@ == module_text(rows_view[k].path)
                    },
            decreases rows@.len(),
        {
            let row = rows.remove(0);
            proof {
                assert(row == rows_view[taken as int]);
                assert(rows@ =~= rows_view.skip(taken as int + 1));
            }
            let d = build_loaded_driver(row);
            out.push(d);
            taken += 1;
        }
        self.cache.store(out, now_ms);
    }

    /// Read the cached table.
    pub fn get(&self) -> (r: &Vec<LoadedDriver>)
        ensures
            *r == self.cache.value,
    {
        self.cache.value()
    }
}

} // verus!
