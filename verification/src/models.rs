//! Flat, serializable record types exposed by the telemetry engine, together
//! with their mathematical views (string fields abstract to `Seq<char>`).

use vstd::prelude::*;

use crate::paging::Paged;

verus! {

/// Clone a `String`, keeping its view.
pub fn clone_string(s: &String) -> (r: String)
    ensures
        r@ == s@,
{
    s.clone()
}

/// Clone an `Option<String>`, keeping its view.
pub fn clone_opt_string(s: &Option<String>) -> (r: Option<String>)
    ensures
        opt_str_view(*s) == opt_str_view(r),
{
    match s {
        Some(v) => Some(clone_string(v)),
        None => None,
    }
}

/// View of an optional string as an optional character sequence.
pub open spec fn opt_str_view(o: Option<String>) -> Option<Seq<char>> {
    match o {
        Some(s) => Some(s@),
        None => None,
    }
}

/// One process of a point-in-time snapshot; enrichments that failed to
/// resolve are absent, never an error.
pub struct Process {
    pub id: u32,
    pub parent_id: u32,
    pub name: String,
    pub exe_path: Option<String>,
    pub session_id: Option<u32>,
    /// working set in KB
    pub memory_kb: Option<u64>,
    /// cpu time in milliseconds (user + kernel)
    pub cpu_time_ms: Option<u64>,
    /// creation time as a count of 100-ns intervals since 1601-01-01 UTC
    pub start_time_filetime: Option<u64>,
    /// optional path of an extracted icon image on disk
    pub icon_path: Option<String>,
}

/// Mathematical view of a [`Process`].
pub ghost struct ProcessV {
    pub id: u32,
    pub parent_id: u32,
    pub name: Seq<char>,
    pub exe_path: Option<Seq<char>>,
    pub session_id: Option<u32>,
    pub memory_kb: Option<u64>,
    pub cpu_time_ms: Option<u64>,
    pub start_time_filetime: Option<u64>,
    pub icon_path: Option<Seq<char>>,
}

impl View for Process {
    type V = ProcessV;

    open spec fn view(&self) -> ProcessV {
        ProcessV {
            id: self.id,
            parent_id: self.parent_id,
            name: self.name@,
            exe_path: opt_str_view(self.exe_path),
            session_id: self.session_id,
            memory_kb: self.memory_kb,
            cpu_time_ms: self.cpu_time_ms,
            start_time_filetime: self.start_time_filetime,
            icon_path: opt_str_view(self.icon_path),
        }
    }
}

impl Clone for Process {
    fn clone(&self) -> (r: Self)
        ensures
            r@ == self@,
    {
        Process {
            id: self.id,
            parent_id: self.parent_id,
            name: clone_string(&self.name),
            exe_path: clone_opt_string(&self.exe_path),
            session_id: self.session_id,
            memory_kb: self.memory_kb,
            cpu_time_ms: self.cpu_time_ms,
            start_time_filetime: self.start_time_filetime,
            icon_path: clone_opt_string(&self.icon_path),
        }
    }
}

/// Views of a sequence of processes.
pub open spec fn procs_view(s: Seq<Process>) -> Seq<ProcessV> {
    s.map_values(|p: Process| p@)
}

/// A node of the process hierarchy: a record and the subtree it exclusively
/// owns. Rebuilt fresh on each refresh, never mutated in place.
pub struct ProcessNode {
    pub process: Process,
    pub children: Vec<ProcessNode>,
}

/// Mathematical view of a [`ProcessNode`].
pub ghost struct ProcessNodeV {
    pub process: ProcessV,
    pub children: Seq<ProcessNodeV>,
}

/// View of a node: the record's view plus the children's views.
pub open spec fn node_view(n: ProcessNode) -> ProcessNodeV
    decreases n,
{
    ProcessNodeV { process: n.process@, children: nodes_view(n.children@) }
}

/// Views of a sequence of nodes.
pub open spec fn nodes_view(s: Seq<ProcessNode>) -> Seq<ProcessNodeV>
    decreases s,
{
    if s.len() == 0 {
        Seq::empty()
    } else {
        seq![node_view(s[0])] + nodes_view(s.drop_first())
    }
}

/// How a process query renders its result.
#[derive(Clone, Copy, Debug, PartialEq, Eq, Structural)]
pub enum ProcessDisplay {
    List,
    Hierarchy,
}

/// Result of a process query, tagged with the view that produced it.
pub enum ProcessResult {
    List(Vec<Process>),
    Hierarchy(Vec<ProcessNode>),
}

/// A paged result of a process query, tagged with the view that produced it.
pub enum PagedProcessResult {
    List(Paged<Process>),
    Hierarchy(Paged<ProcessNode>),
}

/// Arguments of a process query.
pub struct GetProcessArgs {
    pub name: Option<String>,
    pub display: ProcessDisplay,
    pub page: u32,
    pub page_size: u32,
}

/// Arguments of an installed-program query.
pub struct GetProgramArgs {
    pub name: Option<String>,
    pub page: u32,
    pub page_size: u32,
}

/// An installed program read from the uninstall inventory.
pub struct Program {
    pub name: String,
    pub path: String,
    pub icon_path: Option<String>,
}

/// Mathematical view of a [`Program`].
pub ghost struct ProgramV {
    pub name: Seq<char>,
    pub path: Seq<char>,
    pub icon_path: Option<Seq<char>>,
}

impl View for Program {
    type V = ProgramV;

    open spec fn view(&self) -> ProgramV {
        ProgramV {
            name: self.name@,
            path: self.path@,
            icon_path: opt_str_view(self.icon_path),
        }
    }
}

impl Clone for Program {
    fn clone(&self) -> (r: Self)
        ensures
            r@ == self@,
    {
        Program {
            name: clone_string(&self.name),
            path: clone_string(&self.path),
            icon_path: clone_opt_string(&self.icon_path),
        }
    }
}

/// Views of a sequence of programs.
pub open spec fn programs_view(s: Seq<Program>) -> Seq<ProgramV> {
    s.map_values(|p: Program| p@)
}

/// One row of the extended system handle table, joined with the owning
/// process's name (empty when the process is not in the snapshot).
pub struct HandleInfo {
    pub process_id: u32,
    pub process_name: String,
    pub handle: u64,
    pub object_type: u16,
    pub granted_access: u32,
}

/// State of a TCP connection; raw table values outside the defined range
/// map to `Unknown`, never to undefined behaviour.
#[derive(Clone, Copy, Debug, PartialEq, Eq, Structural)]
pub enum TcpState {
    Closed,
    Listening,
    SynSent,
    SynReceived,
    Established,
    FinWait1,
    FinWait2,
    CloseWait,
    Closing,
    LastAck,
    TimeWait,
    DeleteTcb,
    Unknown,
}

/// Transport of a network-table row.
#[derive(Clone, Copy, Debug, PartialEq, Eq, Structural)]
pub enum TransportProtocol {
    Tcp,
    Udp,
}

/// Per-transport payload of a network-table row. Addresses are IPv4 octets
/// packed in wire order: the first octet is the least significant byte.
pub enum ProtocolInfo {
    Tcp { remote_port: Option<u16>, remote_ip_address: Option<u32>, state: TcpState },
    Udp,
}

/// Mathematical view of a [`ProtocolInfo`] (it has no string field, so the
/// view keeps its shape).
pub ghost enum ProtocolInfoV {
    Tcp { remote_port: Option<u16>, remote_ip_address: Option<u32>, state: TcpState },
    Udp,
}

impl View for ProtocolInfo {
    type V = ProtocolInfoV;

    open spec fn view(&self) -> ProtocolInfoV {
        match *self {
            ProtocolInfo::Tcp { remote_port, remote_ip_address, state } => ProtocolInfoV::Tcp {
                remote_port,
                remote_ip_address,
                state,
            },
            ProtocolInfo::Udp => ProtocolInfoV::Udp,
        }
    }
}

impl Clone for ProtocolInfo {
    fn clone(&self) -> (r: Self)
        ensures
            r@ == self@,
    {
        match self {
            ProtocolInfo::Tcp { remote_port, remote_ip_address, state } => ProtocolInfo::Tcp {
                remote_port: *remote_port,
                remote_ip_address: *remote_ip_address,
                state: *state,
            },
            ProtocolInfo::Udp => ProtocolInfo::Udp,
        }
    }
}

/// One row of the combined network table, joined with the owning process's
/// name. Ports are already converted to host byte order.
pub struct NetTableEntry {
    pub process_id: u32,
    pub process_name: String,
    pub local_port: u16,
    pub local_ip_address: u32,
    pub protocol: ProtocolInfo,
}

/// Mathematical view of a [`NetTableEntry`].
pub ghost struct NetTableEntryV {
    pub process_id: u32,
    pub process_name: Seq<char>,
    pub local_port: u16,
    pub local_ip_address: u32,
    pub protocol: ProtocolInfoV,
}

impl View for NetTableEntry {
    type V = NetTableEntryV;

    open spec fn view(&self) -> NetTableEntryV {
        NetTableEntryV {
            process_id: self.process_id,
            process_name: self.process_name@,
            local_port: self.local_port,
            local_ip_address: self.local_ip_address,
            protocol: self.protocol@,
        }
    }
}

impl Clone for NetTableEntry {
    fn clone(&self) -> (r: Self)
        ensures
            r@ == self@,
    {
        NetTableEntry {
            process_id: self.process_id,
            process_name: clone_string(&self.process_name),
            local_port: self.local_port,
            local_ip_address: self.local_ip_address,
            protocol: self.protocol.clone(),
        }
    }
}

/// Views of a sequence of network-table rows.
pub open spec fn net_entries_view(s: Seq<NetTableEntry>) -> Seq<NetTableEntryV> {
    s.map_values(|e: NetTableEntry| e@)
}

/// Capacity figures of one mounted volume, with human-readable renderings.
pub struct DiskPartition {
    pub name: String,
    pub fs_type: Option<String>,
    pub total: u64,
    pub total_formatted: String,
    pub free: u64,
    pub free_formatted: String,
    pub used: u64,
    pub used_formatted: String,
}

/// One physical disk with the volumes that live on it.
pub struct DiskInfo {
    pub model: Option<String>,
    pub disk_type: Option<String>,
    pub partitions: Vec<DiskPartition>,
}

/// One record of the management-data physical-disk catalog.
pub struct WmiDisk {
    pub device_id: String,
    pub model: Option<String>,
    pub media_type: Option<String>,
    pub interface_type: Option<String>,
}

/// Mathematical view of a [`WmiDisk`].
pub ghost struct WmiDiskV {
    pub device_id: Seq<char>,
    pub model: Option<Seq<char>>,
    pub media_type: Option<Seq<char>>,
    pub interface_type: Option<Seq<char>>,
}

impl View for WmiDisk {
    type V = WmiDiskV;

    open spec fn view(&self) -> WmiDiskV {
        WmiDiskV {
            device_id: self.device_id@,
            model: opt_str_view(self.model),
            media_type: opt_str_view(self.media_type),
            interface_type: opt_str_view(self.interface_type),
        }
    }
}

impl Clone for WmiDisk {
    fn clone(&self) -> (r: Self)
        ensures
            r@ == self@,
    {
        WmiDisk {
            device_id: clone_string(&self.device_id),
            model: clone_opt_string(&self.model),
            media_type: clone_opt_string(&self.media_type),
            interface_type: clone_opt_string(&self.interface_type),
        }
    }
}

/// An installed driver package joined with its device-class name.
pub struct DriverInfo {
    pub class_guid: String,
    pub class_name: String,
    pub instance_id: String,
    pub inf: String,
    pub description: String,
    pub provider: String,
    pub driver_store: String,
}

/// A loaded kernel module.
pub struct LoadedDriver {
    pub name: String,
    pub path: String,
    pub base: usize,
}

/// One direct snapshot of system memory counters, mapped field for field,
/// with human-readable renderings.
pub struct MemoryStats {
    pub total_phys: u64,
    pub total_phys_formatted: String,
    pub avail_phys: u64,
    pub avail_phys_formatted: String,
    pub total_pagefile: u64,
    pub total_pagefile_formatted: String,
    pub avail_pagefile: u64,
    pub avail_pagefile_formatted: String,
    pub total_virtual: u64,
    pub total_virtual_formatted: String,
    pub avail_virtual: u64,
    pub avail_virtual_formatted: String,
    pub memory_load: u32,
}

/// Headline figures for the dashboard.
pub struct DashboardStats {
    pub programs_count: u32,
    pub active_processes: u32,
    pub memory: MemoryStats,
    pub disks: Vec<DiskInfo>,
}

/// Assemble the dashboard figures from the individual collectors' answers.
pub fn dashboard_stats(
    programs_count: u32,
    active_processes: u32,
    memory: MemoryStats,
    disks: Vec<DiskInfo>,
) -> (r: DashboardStats)
    ensures
        r.programs_count == programs_count,
        r.active_processes == active_processes,
        r.memory == memory,
        r.disks == disks,
{
    DashboardStats { programs_count, active_processes, memory, disks }
}

} // verus!
