//! The network table collector: decoding of the raw IPv4 owner-PID TCP and
//! UDP tables, the TCP connection-state mapping, port byte-order conversion,
//! a soft join with the process snapshot, and the combined filtered query.

use vstd::prelude::*;

use crate::cache::CacheEntry;
use crate::models::{
    clone_string, NetTableEntry, NetTableEntryV, Process, ProtocolInfo, ProtocolInfoV, TcpState,
    TransportProtocol, net_entries_view,
};
use crate::paging::{page_end, page_start, paginate, Paged};
use crate::process::{find_id, lemma_find_id_concat};
use crate::text::{contains_seq, str_contains};

verus! {

/// The TCP connection state a raw table value stands for; every value
/// outside the defined range maps to `Unknown`.
pub open spec fn spec_tcp_state(value: u32) -> TcpState {
    if value == 1 {
        TcpState::Closed
    } else if value == 2 {
        TcpState::Listening
    } else if value == 3 {
        TcpState::SynSent
    } else if value == 4 {
        TcpState::SynReceived
    } else if value == 5 {
        TcpState::Established
    } else if value == 6 {
        TcpState::FinWait1
    } else if value == 7 {
        TcpState::FinWait2
    } else if value == 8 {
        TcpState::CloseWait
    } else if value == 9 {
        TcpState::Closing
    } else if value == 10 {
        TcpState::LastAck
    } else if value == 11 {
        TcpState::TimeWait
    } else if value == 12 {
        TcpState::DeleteTcb
    } else {
        TcpState::Unknown
    }
}

/// Map a raw TCP state value to the connection-state enum; values outside
/// the defined range map to `Unknown`, never to undefined behaviour.
pub fn tcp_state_from(value: u32) -> (r: TcpState)
    ensures
        r == spec_tcp_state(value),
{
    if value == 1 {
        TcpState::Closed
    } else if value == 2 {
        TcpState::Listening
    } else if value == 3 {
        TcpState::SynSent
    } else if value == 4 {
        TcpState::SynReceived
    } else if value == 5 {
        TcpState::Established
    } else if value == 6 {
        TcpState::FinWait1
    } else if value == 7 {
        TcpState::FinWait2
    } else if value == 8 {
        TcpState::CloseWait
    } else if value == 9 {
        TcpState::Closing
    } else if value == 10 {
        TcpState::LastAck
    } else if value == 11 {
        TcpState::TimeWait
    } else if value == 12 {
        TcpState::DeleteTcb
    } else {
        TcpState::Unknown
    }
}

/// A port carried in network byte order, converted to host order: the two
/// bytes swap places.
pub open spec fn port_from_network(raw: u16) -> u16 {
    ((raw as int % 256) * 256 + raw as int / 256) as u16
}

/// Convert a network-byte-order port to host order.
pub fn port_to_host(raw: u16) -> (r: u16)
    ensures
        r == port_from_network(raw),
{
    (raw % 256) * 256 + raw / 256
}

/// The little-endian 32-bit value at byte offset `off`.
pub open spec fn le32(b: Seq<u8>, off: int) -> int {
    b[off] + 256 * b[off + 1] + 65536 * b[off + 2] + 16777216 * b[off + 3]
}

/// Read the little-endian 32-bit value at byte offset `off`.
pub fn read_u32_le(b: &Vec<u8>, off: usize) -> (r: u32)
    requires
        off + 4 <= b@.len(),
    ensures
        r == le32(b@, off as int),
{
    let n = b.len();
    (b[off] as u32) + 256 * (b[off + 1] as u32) + 65536 * (b[off + 2] as u32) + 16777216 * (b[off
        + 3] as u32)
}

/// The name of the first snapshot record carrying the id, or empty.
pub open spec fn spec_pid_name(procs: Seq<Process>, pid: u32) -> Seq<char> {
    match find_id(procs, pid) {
        Some(p) => p.name@,
        None => Seq::empty(),
    }
}

/// Resolve an owning-process id to a name against the process snapshot; an
/// id that the snapshot does not carry resolves to the empty string — a
/// soft cross-reference, never an error.
#[verifier::loop_isolation(false)]
pub fn pid_name(procs: &Vec<Process>, pid: u32) -> (r: String)
    ensures
        r@ == spec_pid_name(procs@, pid),
{
    let mut i: usize = 0;
    while i < procs.len()
        invariant
            0 <= i <= procs@.len(),
            find_id(procs@.take(i as int), pid) is None,
        decreases procs@.len() - i,
    {
        proof {
            assert(procs@.take(i as int + 1) =~= procs@.take(i as int) + seq![procs@[i as int]]);
            lemma_find_id_concat(procs@.take(i as int), seq![procs@[i as int]], pid);
            assert(seq![procs@[i as int]][0] == procs@[i as int]);
            assert(seq![procs@[i as int]].drop_first() =~= Seq::<Process>::empty());
        }
        if procs[i].id == pid {
            proof {
                lemma_find_id_concat(procs@.take(i as int + 1), procs@.skip(i as int + 1), pid);
                assert(procs@.take(i as int + 1) + procs@.skip(i as int + 1) =~= procs@);
            }
            return clone_string(&procs[i].name);
        }
        proof {
            assert(find_id(seq![procs@[i as int]], pid) is None) by {
                assert(seq![procs@[i as int]].len() == 1);
                assert(seq![procs@[i as int]][0] == procs@[i as int]);
                assert(seq![procs@[i as int]].drop_first() =~= Seq::<Process>::empty());
                assert(find_id(Seq::<Process>::empty(), pid) is None);
            }
        }
        i += 1;
    }
    proof {
        assert(procs@.take(procs@.len() as int) =~= procs@);
    }
    String::new()
}

/// Number of rows the raw TCP table holds: the declared row count, capped
/// by what the buffer has room for (each row is 24 bytes after the 4-byte
/// count).
pub open spec fn tcp_row_count(b: Seq<u8>) -> int {
    if b.len() < 4 {
        0
    } else if le32(b, 0) <= (b.len() - 4) / 24 {
        le32(b, 0)
    } else {
        (b.len() - 4) / 24
    }
}

/// The decoded view of TCP row `i`: six little-endian 32-bit fields (state,
/// local address, local port, remote address, remote port, owning pid);
/// ports carry their payload in the low 16 bits in network byte order.
pub open spec fn spec_tcp_row(b: Seq<u8>, i: int, procs: Seq<Process>) -> NetTableEntryV {
    let off = 4 + 24 * i;
    let pid = le32(b, off + 20) as u32;
    NetTableEntryV {
        process_id: pid,
        process_name: spec_pid_name(procs, pid),
        local_port: port_from_network((le32(b, off + 8) % 65536) as u16),
        local_ip_address: le32(b, off + 4) as u32,
        protocol: ProtocolInfoV::Tcp {
            remote_port: Some(port_from_network((le32(b, off + 16) % 65536) as u16)),
            remote_ip_address: Some(le32(b, off + 12) as u32),
            state: spec_tcp_state(le32(b, off) as u32),
        },
    }
}

/// Decode the raw IPv4 owner-PID TCP table and join each row with the
/// owning process's name from the snapshot.
#[verifier::loop_isolation(false)]
pub fn parse_tcp_table(b: &Vec<u8>, procs: &Vec<Process>) -> (r: Vec<NetTableEntry>)
    ensures
        r@.len() == tcp_row_count(b@),
        forall|i: int| 0 <= i < r@.len() ==> (#[trigger] r@[i])@ == spec_tcp_row(b@, i, procs@),
{
    let mut out: Vec<NetTableEntry> = Vec::new();
    if b.len() < 4 {
        return out;
    }
    let declared = read_u32_le(b, 0) as usize;
    let fit = (b.len() - 4) / 24;
    let rows = if declared <= fit {
        declared
    } else {
        fit
    };
    let mut i: usize = 0;
    while i < rows
        invariant
            0 <= i <= rows,
            rows == tcp_row_count(b@),
            4 + 24 * rows <= b@.len(),
            out@.len() == i,
            forall|k: int| 0 <= k < i ==> (#[trigger] out@[k])@ == spec_tcp_row(b@, k, procs@),
        decreases rows - i,
    {
        let off = 4 + 24 * i;
        let state = tcp_state_from(read_u32_le(b, off));
        let local_ip = read_u32_le(b, off + 4);
        let local_port = port_to_host((read_u32_le(b, off + 8) % 65536) as u16);
        let remote_ip = read_u32_le(b, off + 12);
        let remote_port = port_to_host((read_u32_le(b, off + 16) % 65536) as u16);
        let pid = read_u32_le(b, off + 20);
        let name = pid_name(procs, pid);
        let entry = NetTableEntry {
            process_id: pid,
            process_name: name,
            local_port,
            local_ip_address: local_ip,
            protocol: ProtocolInfo::Tcp {
                remote_port: Some(remote_port),
                remote_ip_address: Some(remote_ip),
                state,
            },
        };
        proof {
            assert(entry@ == spec_tcp_row(b@, i as int, procs@));
        }
        out.push(entry);
        i += 1;
    }
    out
}

/// Number of rows the raw UDP table holds (each row is 12 bytes after the
/// 4-byte count).
pub open spec fn udp_row_count(b: Seq<u8>) -> int {
    if b.len() < 4 {
        0
    } else if le32(b, 0) <= (b.len() - 4) / 12 {
        le32(b, 0)
    } else {
        (b.len() - 4) / 12
    }
}

/// The decoded view of UDP row `i`: three little-endian 32-bit fields
/// (local address, local port, owning pid).
pub open spec fn spec_udp_row(b: Seq<u8>, i: int, procs: Seq<Process>) -> NetTableEntryV {
    let off = 4 + 12 * i;
    let pid = le32(b, off + 8) as u32;
    NetTableEntryV {
        process_id: pid,
        process_name: spec_pid_name(procs, pid),
        local_port: port_from_network((le32(b, off + 4) % 65536) as u16),
        local_ip_address: le32(b, off) as u32,
        protocol: ProtocolInfoV::Udp,
    }
}

/// Decode the raw IPv4 owner-PID UDP table and join each row with the
/// owning process's name from the snapshot.
#[verifier::loop_isolation(false)]
pub fn parse_udp_table(b: &Vec<u8>, procs: &Vec<Process>) -> (r: Vec<NetTableEntry>)
    ensures
        r@.len() == udp_row_count(b@),
        forall|i: int| 0 <= i < r@.len() ==> (#[trigger] r@[i])@ == spec_udp_row(b@, i, procs@),
{
    let mut out: Vec<NetTableEntry> = Vec::new();
    if b.len() < 4 {
        return out;
    }
    let declared = read_u32_le(b, 0) as usize;
    let fit = (b.len() - 4) / 12;
    let rows = if declared <= fit {
        declared
    } else {
        fit
    };
    let mut i: usize = 0;
    while i < rows
        invariant
            0 <= i <= rows,
            rows == udp_row_count(b@),
            4 + 12 * rows <= b@.len(),
            out@.len() == i,
            forall|k: int| 0 <= k < i ==> (#[trigger] out@[k])@ == spec_udp_row(b@, k, procs@),
        decreases rows - i,
    {
        let off = 4 + 12 * i;
        let local_ip = read_u32_le(b, off);
        let local_port = port_to_host((read_u32_le(b, off + 4) % 65536) as u16);
        let pid = read_u32_le(b, off + 8);
        let name = pid_name(procs, pid);
        let entry = NetTableEntry {
            process_id: pid,
            process_name: name,
            local_port,
            local_ip_address: local_ip,
            protocol: ProtocolInfo::Udp,
        };
        proof {
            assert(entry@ == spec_udp_row(b@, i as int, procs@));
        }
        out.push(entry);
        i += 1;
    }
    out
}

/// Page selection of a combined network query.
pub struct PageArgs {
    pub page: u32,
    pub page_size: u32,
}

/// Arguments of a combined network query: transport-set membership, exact
/// local matches, a process-name substring, and (TCP-only) exact remote
/// matches.
pub struct GetNetTableArgs {
    pub page: PageArgs,
    pub protocols: Vec<TransportProtocol>,
    pub local_ip_addr: Option<u32>,
    pub local_port: Option<u16>,
    pub process_name: Option<String>,
    pub remote_ip_addr: Option<u32>,
    pub remote_port: Option<u16>,
}

/// The transport of a row's payload.
pub open spec fn row_transport(e: NetTableEntryV) -> TransportProtocol {
    match e.protocol {
        ProtocolInfoV::Tcp { .. } => TransportProtocol::Tcp,
        ProtocolInfoV::Udp => TransportProtocol::Udp,
    }
}

/// A combined-query row filter: transport-set membership, exact local
/// address and port, process-name substring (case-sensitive), and remote
/// address and port that only TCP rows can satisfy — a UDP row never
/// satisfies a remote filter.
pub open spec fn net_row_pred(
    protocols: Seq<TransportProtocol>,
    local_ip_addr: Option<u32>,
    local_port: Option<u16>,
    process_name: Option<Seq<char>>,
    remote_ip_addr: Option<u32>,
    remote_port: Option<u16>,
) -> spec_fn(NetTableEntryV) -> bool {
    |e: NetTableEntryV|
        {
            &&& protocols.contains(row_transport(e))
            &&& match local_ip_addr {
                Some(ip) => e.local_ip_address == ip,
                None => true,
            }
            &&& match local_port {
                Some(p) => e.local_port == p,
                None => true,
            }
            &&& match process_name {
                Some(n) => contains_seq(e.process_name, n),
                None => true,
            }
            &&& match e.protocol {
                ProtocolInfoV::Tcp { remote_port: rp, remote_ip_address: rip, .. } => {
                    &&& match remote_ip_addr {
                        Some(ip) => rip matches Some(r) && r == ip,
                        None => true,
                    }
                    &&& match remote_port {
                        Some(p) => rp matches Some(r) && r == p,
                        None => true,
                    }
                },
                ProtocolInfoV::Udp => remote_ip_addr is None && remote_port is None,
            }
        }
}

/// Does the transport list contain the transport?
fn protocols_contain(v: &Vec<TransportProtocol>, t: TransportProtocol) -> (r: bool)
    ensures
        r == v@.contains(t),
{
    let mut i: usize = 0;
    while i < v.len()
        invariant
            0 <= i <= v@.len(),
            forall|k: int| 0 <= k < i ==> v@[k] != t,
        decreases v@.len() - i,
    {
        if v[i] == t {
            return true;
        }
        i += 1;
    }
    false
}

/// Decide the combined-query filter for one row.
fn matches_net_row(e: &NetTableEntry, args: &GetNetTableArgs) -> (r: bool)
    ensures
        r == net_row_pred(
            args.protocols@,
            args.local_ip_addr,
            args.local_port,
            match args.process_name {
                Some(ref n) => Some(n@),
                None => None,
            },
            args.remote_ip_addr,
            args.remote_port,
        )(e@),
{
    let transport = match &e.protocol {
        ProtocolInfo::Tcp { .. } => TransportProtocol::Tcp,
        ProtocolInfo::Udp => TransportProtocol::Udp,
    };
    if !protocols_contain(&args.protocols, transport) {
        return false;
    }
    match args.local_ip_addr {
        Some(ip) => {
            if e.local_ip_address != ip {
                return false;
            }
        },
        None => {},
    }
    match args.local_port {
        Some(p) => {
            if e.local_port != p {
                return false;
            }
        },
        None => {},
    }
    match &args.process_name {
        Some(n) => {
            if !str_contains(e.process_name.as_str(), n.as_str()) {
                return false;
            }
        },
        None => {},
    }
    match &e.protocol {
        ProtocolInfo::Tcp { remote_port: rp, remote_ip_address: rip, .. } => {
            match args.remote_ip_addr {
                Some(ip) => {
                    match rip {
                        Some(r) => {
                            if *r != ip {
                                return false;
                            }
                        },
                        None => {
                            return false;
                        },
                    }
                },
                None => {},
            }
            match args.remote_port {
                Some(p) => {
                    match rp {
                        Some(r) => {
                            if *r != p {
                                return false;
                            }
                        },
                        None => {
                            return false;
                        },
                    }
                },
                None => {},
            }
        },
        ProtocolInfo::Udp => {
            if args.remote_ip_addr.is_some() || args.remote_port.is_some() {
                return false;
            }
        },
    }
    true
}

/// The two independently cached sub-tables of the network collector.
pub struct NetTableService {
    pub query_interval_ms: u64,
    pub tcp: CacheEntry<Vec<NetTableEntry>>,
    pub udp: CacheEntry<Vec<NetTableEntry>>,
}

impl NetTableService {
    /// A collector whose empty sub-tables are immediately stale.
    pub fn new(now_ms: u64) -> (r: Self)
        ensures
            r.query_interval_ms == 5000,
            r.tcp.value@ == Seq::<NetTableEntry>::empty(),
            r.udp.value@ == Seq::<NetTableEntry>::empty(),
            now_ms >= 5000 ==> r.tcp.spec_is_stale(now_ms, r.query_interval_ms),
            now_ms >= 5000 ==> r.udp.spec_is_stale(now_ms, r.query_interval_ms),
    {
        let query_interval_ms: u64 = 5000;
        let stamp: u64 = if now_ms >= query_interval_ms {
            now_ms - query_interval_ms
        } else {
            0
        };
        let r = NetTableService {
            query_interval_ms,
            tcp: CacheEntry::new(Vec::new(), stamp),
            udp: CacheEntry::new(Vec::new(), stamp),
        };
        proof {
            assert(r.tcp.value@ =~= Seq::<NetTableEntry>::empty());
            assert(r.udp.value@ =~= Seq::<NetTableEntry>::empty());
        }
        r
    }

    /// The cached TCP sub-table is older than the refresh interval.
    pub fn needs_refresh_tcp(&self, now_ms: u64) -> (r: bool)
        ensures
            r == self.tcp.spec_is_stale(now_ms, self.query_interval_ms),
    {
        self.tcp.is_stale(now_ms, self.query_interval_ms)
    }

    /// The cached UDP sub-table is older than the refresh interval.
    pub fn needs_refresh_udp(&self, now_ms: u64) -> (r: bool)
        ensures
            r == self.udp.spec_is_stale(now_ms, self.query_interval_ms),
    {
        self.udp.is_stale(now_ms, self.query_interval_ms)
    }

    /// Decode a raw TCP table and replace the TCP sub-table with it.
    pub fn refresh_tcp(&mut self, b: &Vec<u8>, procs: &Vec<Process>, now_ms: u64)
        ensures
            final(self).tcp.value@.len() == tcp_row_count(b@),
            forall|i: int|
                0 <= i < final(self).tcp.value@.len()
                    ==> (#[trigger] final(self).tcp.value@[i])@ == spec_tcp_row(b@, i, procs@),
            final(self).tcp.refreshed_on_ms == now_ms,
            final(self).udp == old(self).udp,
            final(self).query_interval_ms == old(self).query_interval_ms,
    {
        let rows = parse_tcp_table(b, procs);
        self.tcp.store(rows, now_ms);
    }

    /// Decode a raw UDP table and replace the UDP sub-table with it.
    pub fn refresh_udp(&mut self, b: &Vec<u8>, procs: &Vec<Process>, now_ms: u64)
        ensures
            final(self).udp.value@.len() == udp_row_count(b@),
            forall|i: int|
                0 <= i < final(self).udp.value@.len()
                    ==> (#[trigger] final(self).udp.value@[i])@ == spec_udp_row(b@, i, procs@),
            final(self).udp.refreshed_on_ms == now_ms,
            final(self).tcp == old(self).tcp,
            final(self).query_interval_ms == old(self).query_interval_ms,
    {
        let rows = parse_udp_table(b, procs);
        self.udp.store(rows, now_ms);
    }

    /// Read the cached TCP sub-table.
    pub fn get_tcp_table(&self) -> (r: &Vec<NetTableEntry>)
        ensures
            *r == self.tcp.value,
    {
        self.tcp.value()
    }

    /// Read the cached UDP sub-table.
    pub fn get_udp_table(&self) -> (r: &Vec<NetTableEntry>)
        ensures
            *r == self.udp.value,
    {
        self.udp.value()
    }

    /// The combined query's full (unpaged) answer: the cached TCP rows when
    /// TCP is in the transport set, then the cached UDP rows when UDP is,
    /// each filtered by the query's row filter.
    pub open spec fn combined_view(&self, args: GetNetTableArgs) -> Seq<NetTableEntryV> {
        let pred = net_row_pred(
            args.protocols@,
            args.local_ip_addr,
            args.local_port,
            match args.process_name {
                Some(n) => Some(n@),
                None => None,
            },
            args.remote_ip_addr,
            args.remote_port,
        );
        let tcp_part = if args.protocols@.contains(TransportProtocol::Tcp) {
            net_entries_view(self.tcp.value@)
        } else {
            Seq::empty()
        };
        let udp_part = if args.protocols@.contains(TransportProtocol::Udp) {
            net_entries_view(self.udp.value@)
        } else {
            Seq::empty()
        };
        (tcp_part + udp_part).filter(pred)
    }

    /// Merge both cached sub-tables, tag each row with its transport,
    /// apply the query's filters, and slice the requested page out; the
    /// reported total is the filtered count.
    pub fn get_net_table(&self, args: &GetNetTableArgs) -> (r: Paged<NetTableEntry>)
        requires
            self.tcp.value@.len() + self.udp.value@.len() <= u32::MAX,
        ensures
            ({
                let full = self.combined_view(*args);
                &&& net_entries_view(r.items@) == full.subrange(
                    page_start(full.len() as int, args.page.page as int, args.page.page_size as int),
                    page_end(full.len() as int, args.page.page as int, args.page.page_size as int),
                )
                &&& r.total == full.len()
                &&& r.page == args.page.page
                &&& r.page_size == args.page.page_size
            }),
    {
        let ghost pred = net_row_pred(
            args.protocols@,
            args.local_ip_addr,
            args.local_port,
            match args.process_name {
                Some(ref n) => Some(n@),
                None => None,
            },
            args.remote_ip_addr,
            args.remote_port,
        );
        let mut entries: Vec<NetTableEntry> = Vec::new();
        let ghost tcp_part: Seq<NetTableEntryV> = if args.protocols@.contains(
            TransportProtocol::Tcp,
        ) {
            net_entries_view(self.tcp.value@)
        } else {
            Seq::empty()
        };
        let ghost udp_part: Seq<NetTableEntryV> = if args.protocols@.contains(
            TransportProtocol::Udp,
        ) {
            net_entries_view(self.udp.value@)
        } else {
            Seq::empty()
        };
        if protocols_contain(&args.protocols, TransportProtocol::Tcp) {
            append_filtered(&mut entries, self.tcp.value(), args);
        }
        proof {
            assert(net_entries_view(entries@) =~= tcp_part.filter(pred));
        }
        if protocols_contain(&args.protocols, TransportProtocol::Udp) {
            append_filtered(&mut entries, self.udp.value(), args);
        }
        proof {
            assert(net_entries_view(entries@) =~= tcp_part.filter(pred) + udp_part.filter(pred));
            Seq::filter_distributes_over_add(tcp_part, udp_part, pred);
            assert(net_entries_view(entries@) =~= (tcp_part + udp_part).filter(pred));
        }
        let ghost full = self.combined_view(*args);
        proof {
            assert(full == (tcp_part + udp_part).filter(pred));
            assert(net_entries_view(entries@).len() == entries@.len());
            assert(full.len() <= tcp_part.len() + udp_part.len()) by {
                broadcast use vstd::seq_lib::group_filter_ensures;
            }
        }
        let ghost entries_before = entries@;
        let page = paginate(entries, args.page.page, args.page.page_size);
        proof {
            let lo = page_start(full.len() as int, args.page.page as int, args.page.page_size as int);
            let hi = page_end(full.len() as int, args.page.page as int, args.page.page_size as int);
            assert(net_entries_view(page.items@) =~= full.subrange(lo, hi));
        }
        Paged { items: page.items, page: page.page, page_size: page.page_size, total: page.total }
    }
}

/// Append the rows of `src` that pass the query's filter, cloned, to `out`.
#[verifier::loop_isolation(false)]
fn append_filtered(out: &mut Vec<NetTableEntry>, src: &Vec<NetTableEntry>, args: &GetNetTableArgs)
    ensures
        net_entries_view(final(out)@) == net_entries_view(old(out)@) + net_entries_view(
            src@,
        ).filter(
            net_row_pred(
                args.protocols@,
                args.local_ip_addr,
                args.local_port,
                match args.process_name {
                    Some(n) => Some(n@),
                    None => None,
                },
                args.remote_ip_addr,
                args.remote_port,
            ),
        ),
{
    let ghost base = out@;
    let ghost pred = net_row_pred(
        args.protocols@,
        args.local_ip_addr,
        args.local_port,
        match args.process_name {
            Some(ref n) => Some(n@),
            None => None,
        },
        args.remote_ip_addr,
        args.remote_port,
    );
    let mut i: usize = 0;
    while i < src.len()
        invariant
            0 <= i <= src@.len(),
            net_entries_view(out@) == net_entries_view(base) + net_entries_view(
                src@.take(i as int),
            ).filter(pred),
        decreases src@.len() - i,
    {
        proof {
            reveal(Seq::filter);
            let nt = net_entries_view(src@.take(i as int + 1));
            assert(src@.take(i as int + 1) =~= src@.take(i as int).push(src@[i as int]));
            assert(nt =~= net_entries_view(src@.take(i as int)).push(src@[i as int]@));
            assert(nt.drop_last() =~= net_entries_view(src@.take(i as int)));
            assert(nt.last() == src@[i as int]@);
            assert(nt.filter(pred) == if pred(nt.last()) {
                nt.drop_last().filter(pred).push(nt.last())
            } else {
                nt.drop_last().filter(pred)
            });
        }
        if matches_net_row(&src[i], args) {
            let ghost before = out@;
            out.push(src[i].clone());
            proof {
                assert(net_entries_view(out@) =~= net_entries_view(before).push(src@[i as int]@));
            }
        }
        i += 1;
    }
    proof {
        assert(src@.take(src@.len() as int) =~= src@);
    }
}

} // verus!
