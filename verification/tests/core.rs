use sysmon_core::disks::{
    drives_from_mask, join_disks, map_logical_links, parse_assoc_disk_index, parse_assoc_drive,
    DiskService, VolumeInfo, WmiService,
};
use sysmon_core::drivers::{
    build_driver_info, build_loaded_driver, split_driver_key, DeviceClassService, DeviceProperties,
    InstalledDriverService, LoadedDriverService, LoadedModuleRow,
};
use sysmon_core::fmt::{format_bytes, ipv4_to_string, u64_to_string};
use sysmon_core::handles::{buffer_step, parse_handle_table, BufferVerdict, HandleManager};
use sysmon_core::memory::{build_memory_stats, empty_memory_stats, MemoryService};
use sysmon_core::models::{
    dashboard_stats, GetProcessArgs, GetProgramArgs, PagedProcessResult, Process, ProcessDisplay,
    ProcessResult, ProtocolInfo, TcpState, TransportProtocol, WmiDisk,
};
use sysmon_core::net::{
    parse_tcp_table, parse_udp_table, pid_name, port_to_host, tcp_state_from, GetNetTableArgs,
    NetTableService, PageArgs,
};
use sysmon_core::paging::paginate;
use sysmon_core::process::{flatten_forest, ProcessManager};
use sysmon_core::programs::{programs_from_rows, InstalledProgramsService, ProgramRow};
use sysmon_core::screenshot::SaveScreenshotService;
use sysmon_core::sorting::sort_procs_by_name;
use sysmon_core::text::{matches_name, parse_u32, str_contains, str_ends_with, str_find, str_lex_le};
use sysmon_core::tree::{build_process_tree, dedup_records};
use sysmon_core::widestr::{extract_icon_stub, widestr_to_string};

fn proc(id: u32, parent_id: u32, name: &str) -> Process {
    Process {
        id,
        parent_id,
        name: name.to_string(),
        exe_path: None,
        session_id: None,
        memory_kb: None,
        cpu_time_ms: None,
        start_time_filetime: None,
        icon_path: None,
    }
}

#[test]
fn tree_basic_shape() {
    let records = vec![proc(1, 0, "init"), proc(2, 1, "bash"), proc(3, 1, "Vim")];
    let forest = build_process_tree(records);
    assert_eq!(forest.len(), 1);
    assert_eq!(forest[0].process.id, 1);
    assert_eq!(forest[0].children.len(), 2);
    // children ordered by case-insensitive name: bash before Vim
    assert_eq!(forest[0].children[0].process.name, "bash");
    assert_eq!(forest[0].children[1].process.name, "Vim");
    assert_eq!(forest[0].children[0].process.parent_id, 1);
    assert_eq!(forest[0].children[1].process.parent_id, 1);
}

#[test]
fn tree_every_id_once() {
    let records = vec![
        proc(1, 0, "init"),
        proc(2, 1, "a"),
        proc(3, 2, "b"),
        proc(4, 9999, "orphan"),
        proc(2, 1, "duplicate of 2"),
    ];
    let forest = build_process_tree(records);
    let flat = flatten_forest(&forest);
    let mut ids: Vec<u32> = flat.iter().map(|p| p.id).collect();
    ids.sort();
    assert_eq!(ids, vec![1, 2, 3, 4]);
    // the duplicate row was grouped away: the first record of id 2 won
    let two = flat.iter().find(|p| p.id == 2).unwrap();
    assert_eq!(two.name, "a");
}

#[test]
fn tree_self_parented_process_is_root() {
    let records = vec![proc(0, 0, "idle"), proc(4, 0, "system")];
    let forest = build_process_tree(records);
    assert_eq!(forest.len(), 1);
    assert_eq!(forest[0].process.id, 0);
    assert_eq!(forest[0].children.len(), 1);
    assert_eq!(forest[0].children[0].process.id, 4);
}

#[test]
fn tree_cycle_keeps_every_record() {
    // two records naming each other as parents still both appear
    let records = vec![proc(1, 2, "a"), proc(2, 1, "b")];
    let forest = build_process_tree(records);
    let flat = flatten_forest(&forest);
    let mut ids: Vec<u32> = flat.iter().map(|p| p.id).collect();
    ids.sort();
    assert_eq!(ids, vec![1, 2]);
}

#[test]
fn dedup_keeps_first_of_each_id() {
    let records = vec![proc(7, 0, "first"), proc(7, 0, "second"), proc(8, 0, "other")];
    let deduped = dedup_records(records);
    assert_eq!(deduped.len(), 2);
    assert_eq!(deduped[0].name, "first");
    assert_eq!(deduped[1].name, "other");
}

#[test]
fn sort_is_idempotent_on_concrete_values() {
    let v = vec![proc(1, 0, "Zeta"), proc(2, 0, "alpha"), proc(3, 0, "Beta")];
    let once = sort_procs_by_name(v);
    let names_once: Vec<String> = once.iter().map(|p| p.name.clone()).collect();
    let twice = sort_procs_by_name(once);
    let names_twice: Vec<String> = twice.iter().map(|p| p.name.clone()).collect();
    assert_eq!(names_once, vec!["alpha", "Beta", "Zeta"]);
    assert_eq!(names_once, names_twice);
}

#[test]
fn query_list_scenario() {
    let mut manager = ProcessManager::new(10_000);
    assert!(manager.needs_refresh(10_000));
    let records = vec![proc(1, 0, "init"), proc(2, 1, "bash"), proc(3, 1, "Vim")];
    manager.refresh(records, 10_000);
    assert!(!manager.needs_refresh(10_500));
    let args = GetProcessArgs {
        name: Some("vi".to_string()),
        display: ProcessDisplay::List,
        page: 0,
        page_size: 10,
    };
    match manager.query(&args) {
        PagedProcessResult::List(page) => {
            assert_eq!(page.total, 1);
            assert_eq!(page.items.len(), 1);
            assert_eq!(page.items[0].id, 3);
            assert_eq!(page.items[0].name, "Vim");
        }
        PagedProcessResult::Hierarchy(_) => panic!("expected a list"),
    }
}

#[test]
fn query_list_sorts_case_insensitively() {
    let mut manager = ProcessManager::new(10_000);
    manager.refresh(
        vec![proc(1, 0, "zsh"), proc(2, 1, "Apple"), proc(3, 1, "mango")],
        10_000,
    );
    let args = GetProcessArgs {
        name: None,
        display: ProcessDisplay::List,
        page: 0,
        page_size: 10,
    };
    match manager.get(&args) {
        ProcessResult::List(items) => {
            let names: Vec<String> = items.iter().map(|p| p.name.clone()).collect();
            assert_eq!(names, vec!["Apple", "mango", "zsh"]);
        }
        ProcessResult::Hierarchy(_) => panic!("expected a list"),
    }
}

#[test]
fn query_hierarchy_filters_only_roots() {
    let mut manager = ProcessManager::new(10_000);
    manager.refresh(
        vec![proc(1, 0, "init"), proc(2, 1, "bash"), proc(5, 0, "basher")],
        10_000,
    );
    let args = GetProcessArgs {
        name: Some("bash".to_string()),
        display: ProcessDisplay::Hierarchy,
        page: 0,
        page_size: 10,
    };
    match manager.get(&args) {
        ProcessResult::Hierarchy(nodes) => {
            // "bash" lives under init, which does not match; only the root
            // "basher" matches, and the filter hides init's whole subtree.
            assert_eq!(nodes.len(), 1);
            assert_eq!(nodes[0].process.id, 5);
        }
        ProcessResult::List(_) => panic!("expected a hierarchy"),
    }
}

#[test]
fn get_by_id_finds_nested_record() {
    let mut manager = ProcessManager::new(10_000);
    manager.refresh(
        vec![proc(1, 0, "init"), proc(2, 1, "bash"), proc(3, 2, "vim")],
        10_000,
    );
    let hit = manager.get_by_id(3).expect("id 3 is present");
    assert_eq!(hit.name, "vim");
    assert!(manager.get_by_id(99).is_none());
    assert_eq!(manager.get_count(), 1);
}

#[test]
fn pagination_counts() {
    let items: Vec<u32> = (0..10).collect();
    let page = paginate(items.clone(), 1, 3);
    assert_eq!(page.items, vec![3, 4, 5]);
    assert_eq!(page.total, 10);
    assert_eq!(page.page, 1);
    assert_eq!(page.page_size, 3);
    let tail = paginate(items.clone(), 3, 3);
    assert_eq!(tail.items, vec![9]);
    assert_eq!(tail.total, 10);
    let past_end = paginate(items, 4, 3);
    assert_eq!(past_end.items.len(), 0);
    assert_eq!(past_end.total, 10);
}

#[test]
fn name_filter_is_case_insensitive_substring() {
    assert!(matches_name("chrome", "GoogleChrome.exe"));
    assert!(matches_name("CHROME", "googlechrome.exe"));
    assert!(matches_name("", "anything"));
    assert!(!matches_name("firefox", "GoogleChrome.exe"));
}

#[test]
fn tcp_state_mapping() {
    assert_eq!(tcp_state_from(5), TcpState::Established);
    assert_eq!(tcp_state_from(11), TcpState::TimeWait);
    assert_eq!(tcp_state_from(1), TcpState::Closed);
    assert_eq!(tcp_state_from(12), TcpState::DeleteTcb);
    assert_eq!(tcp_state_from(0), TcpState::Unknown);
    assert_eq!(tcp_state_from(13), TcpState::Unknown);
    assert_eq!(tcp_state_from(4_000_000_000), TcpState::Unknown);
}

#[test]
fn port_byte_order() {
    assert_eq!(port_to_host(0x5000), 80);
    assert_eq!(port_to_host(0xBB01), 443);
    assert_eq!(port_to_host(0), 0);
}

fn push_u32_le(buf: &mut Vec<u8>, v: u32) {
    buf.push((v & 0xff) as u8);
    buf.push(((v >> 8) & 0xff) as u8);
    buf.push(((v >> 16) & 0xff) as u8);
    buf.push(((v >> 24) & 0xff) as u8);
}

#[test]
fn tcp_table_decoding() {
    let mut buf: Vec<u8> = Vec::new();
    push_u32_le(&mut buf, 1); // row count
    push_u32_le(&mut buf, 5); // state: Established
    push_u32_le(&mut buf, 0x0100007F); // local 127.0.0.1 in wire order
    push_u32_le(&mut buf, 0x5000); // local port 80, network order
    push_u32_le(&mut buf, 0x08080808); // remote 8.8.8.8
    push_u32_le(&mut buf, 0xBB01); // remote port 443, network order
    push_u32_le(&mut buf, 42); // owning pid
    let procs = vec![proc(42, 1, "nginx")];
    let rows = parse_tcp_table(&buf, &procs);
    assert_eq!(rows.len(), 1);
    assert_eq!(rows[0].process_id, 42);
    assert_eq!(rows[0].process_name, "nginx");
    assert_eq!(rows[0].local_port, 80);
    assert_eq!(ipv4_to_string(rows[0].local_ip_address), "127.0.0.1");
    match &rows[0].protocol {
        ProtocolInfo::Tcp { remote_port, remote_ip_address, state } => {
            assert_eq!(*remote_port, Some(443));
            assert_eq!(ipv4_to_string(remote_ip_address.unwrap()), "8.8.8.8");
            assert_eq!(*state, TcpState::Established);
        }
        ProtocolInfo::Udp => panic!("expected tcp"),
    }
}

#[test]
fn tcp_table_caps_declared_count() {
    let mut buf: Vec<u8> = Vec::new();
    push_u32_le(&mut buf, 7); // declares seven rows, carries one
    for _ in 0..6 {
        push_u32_le(&mut buf, 0);
    }
    let rows = parse_tcp_table(&buf, &Vec::new());
    assert_eq!(rows.len(), 1);
    assert_eq!(rows[0].process_name, "");
}

#[test]
fn udp_table_decoding() {
    let mut buf: Vec<u8> = Vec::new();
    push_u32_le(&mut buf, 1);
    push_u32_le(&mut buf, 0x0100007F);
    push_u32_le(&mut buf, 0x3500); // port 53
    push_u32_le(&mut buf, 7);
    let rows = parse_udp_table(&buf, &Vec::new());
    assert_eq!(rows.len(), 1);
    assert_eq!(rows[0].local_port, 53);
    assert_eq!(rows[0].process_id, 7);
    assert_eq!(rows[0].process_name, "");
    assert!(matches!(rows[0].protocol, ProtocolInfo::Udp));
}

#[test]
fn pid_name_join_is_soft() {
    let procs = vec![proc(10, 1, "svchost.exe")];
    assert_eq!(pid_name(&procs, 10), "svchost.exe");
    assert_eq!(pid_name(&procs, 11), "");
}

#[test]
fn combined_net_query_filters() {
    let mut service = NetTableService::new(100_000);
    assert!(service.needs_refresh_tcp(100_000));
    let procs = vec![proc(42, 1, "nginx"), proc(7, 1, "dnsmasq")];
    let mut tcp: Vec<u8> = Vec::new();
    push_u32_le(&mut tcp, 1);
    push_u32_le(&mut tcp, 2); // listening
    push_u32_le(&mut tcp, 0x0100007F);
    push_u32_le(&mut tcp, 0x5000); // port 80
    push_u32_le(&mut tcp, 0);
    push_u32_le(&mut tcp, 0);
    push_u32_le(&mut tcp, 42);
    service.refresh_tcp(&tcp, &procs, 100_000);
    let mut udp: Vec<u8> = Vec::new();
    push_u32_le(&mut udp, 1);
    push_u32_le(&mut udp, 0x0100007F);
    push_u32_le(&mut udp, 0x3500); // port 53
    push_u32_le(&mut udp, 7);
    service.refresh_udp(&udp, &procs, 100_000);
    assert!(!service.needs_refresh_udp(100_001));

    // both transports, no filters: both rows
    let all = GetNetTableArgs {
        page: PageArgs { page: 0, page_size: 10 },
        protocols: vec![TransportProtocol::Tcp, TransportProtocol::Udp],
        local_ip_addr: None,
        local_port: None,
        process_name: None,
        remote_ip_addr: None,
        remote_port: None,
    };
    let page = service.get_net_table(&all);
    assert_eq!(page.total, 2);

    // the process-name filter is a plain (case-sensitive) substring
    let named = GetNetTableArgs {
        page: PageArgs { page: 0, page_size: 10 },
        protocols: vec![TransportProtocol::Tcp, TransportProtocol::Udp],
        local_ip_addr: None,
        local_port: None,
        process_name: Some("ngin".to_string()),
        remote_ip_addr: None,
        remote_port: None,
    };
    let page = service.get_net_table(&named);
    assert_eq!(page.total, 1);
    assert_eq!(page.items[0].process_id, 42);

    // a remote filter is never satisfied by a UDP row
    let remote = GetNetTableArgs {
        page: PageArgs { page: 0, page_size: 10 },
        protocols: vec![TransportProtocol::Tcp, TransportProtocol::Udp],
        local_ip_addr: None,
        local_port: None,
        process_name: None,
        remote_ip_addr: Some(0),
        remote_port: None,
    };
    let page = service.get_net_table(&remote);
    assert_eq!(page.total, 1);
    assert!(matches!(page.items[0].protocol, ProtocolInfo::Tcp { .. }));

    // transport-set membership
    let udp_only = GetNetTableArgs {
        page: PageArgs { page: 0, page_size: 10 },
        protocols: vec![TransportProtocol::Udp],
        local_ip_addr: None,
        local_port: Some(53),
        process_name: None,
        remote_ip_addr: None,
        remote_port: None,
    };
    let page = service.get_net_table(&udp_only);
    assert_eq!(page.total, 1);
    assert_eq!(page.items[0].process_name, "dnsmasq");
}

fn push_u64_le(buf: &mut Vec<u8>, v: u64) {
    push_u32_le(buf, (v & 0xffff_ffff) as u32);
    push_u32_le(buf, (v >> 32) as u32);
}

#[test]
fn handle_table_decoding() {
    let mut buf: Vec<u8> = Vec::new();
    push_u64_le(&mut buf, 1); // handle count
    push_u64_le(&mut buf, 0); // reserved
    push_u64_le(&mut buf, 0xDEAD_BEEF); // object pointer (ignored)
    push_u64_le(&mut buf, 42); // owning pid
    push_u64_le(&mut buf, 0x1234); // handle value
    push_u32_le(&mut buf, 0x001F_FFFF); // granted access
    buf.push(0); // creator backtrace index
    buf.push(0);
    buf.push(0x21); // object type index 33
    buf.push(0);
    push_u32_le(&mut buf, 0); // handle attributes
    push_u32_le(&mut buf, 0); // reserved
    let procs = vec![proc(42, 1, "nginx")];
    let mut manager = HandleManager::new(100_000);
    assert!(manager.needs_refresh(100_000));
    manager.refresh(&buf, &procs, 100_000);
    let handles = manager.get_handles();
    assert_eq!(handles.len(), 1);
    assert_eq!(handles[0].process_id, 42);
    assert_eq!(handles[0].process_name, "nginx");
    assert_eq!(handles[0].handle, 0x1234);
    assert_eq!(handles[0].granted_access, 0x001F_FFFF);
    assert_eq!(handles[0].object_type, 33);
}

#[test]
fn buffer_protocol_steps() {
    assert!(matches!(buffer_step(0, 99), BufferVerdict::Done));
    assert!(matches!(buffer_step(0xC0000004, 70000), BufferVerdict::Grow(70512)));
    assert!(matches!(buffer_step(0xC0000005, 0), BufferVerdict::Fail(0xC0000005)));
}

#[test]
fn empty_handle_buffer_yields_no_rows() {
    let rows = parse_handle_table(&vec![0u8; 8], &Vec::new());
    assert_eq!(rows.len(), 0);
}

#[test]
fn number_rendering() {
    assert_eq!(u64_to_string(0), "0");
    assert_eq!(u64_to_string(42), "42");
    assert_eq!(u64_to_string(18_446_744_073_709_551_615), "18446744073709551615");
}

#[test]
fn byte_rendering() {
    assert_eq!(format_bytes(0), "0 B");
    assert_eq!(format_bytes(1023), "1023 B");
    assert_eq!(format_bytes(1024), "1.00 KB");
    assert_eq!(format_bytes(1536), "1.50 KB");
    assert_eq!(format_bytes(1_048_576), "1.00 MB");
    assert_eq!(format_bytes(500_000_000_000), "465.66 GB");
    assert_eq!(format_bytes(1_099_511_627_776), "1.00 TB");
}

#[test]
fn ipv4_rendering() {
    assert_eq!(ipv4_to_string(0x0100007F), "127.0.0.1");
    assert_eq!(ipv4_to_string(0), "0.0.0.0");
    assert_eq!(ipv4_to_string(0xFFFFFFFF), "255.255.255.255");
}

#[test]
fn memory_snapshot_fields() {
    let stats = build_memory_stats(
        17_179_869_184,
        4_294_967_296,
        20_000_000_000,
        10_000_000_000,
        140_737_488_355_328,
        140_000_000_000_000,
        75,
    );
    assert_eq!(stats.total_phys, 17_179_869_184);
    assert_eq!(stats.total_phys_formatted, "16.00 GB");
    assert_eq!(stats.avail_phys_formatted, "4.00 GB");
    assert_eq!(stats.memory_load, 75);
    let empty = empty_memory_stats();
    assert_eq!(empty.total_phys, 0);

    let mut service = MemoryService::new(empty, 1_000);
    assert!(!service.needs_refresh(1_500));
    assert!(service.needs_refresh(2_000));
    service.refresh(1, 2, 3, 4, 5, 6, 7, 2_000);
    assert_eq!(service.get_stats().memory_load, 7);
    assert!(!service.needs_refresh(2_500));
}

#[test]
fn association_string_parsing() {
    assert_eq!(parse_assoc_disk_index("Win32_DiskPartition.DeviceID=\"Disk #1, Partition #0\""), Some(1));
    assert_eq!(parse_assoc_disk_index("Disk #23"), Some(23));
    assert_eq!(parse_assoc_disk_index("Partition #0"), None);
    assert_eq!(parse_assoc_disk_index("Disk #x, Partition #0"), None);
    assert_eq!(parse_assoc_drive("Win32_LogicalDisk.DeviceID=\"D:\""), Some("D:"));
    assert_eq!(parse_assoc_drive("no device id here"), None);
}

#[test]
fn disk_join_scenario() {
    let catalog = vec![WmiDisk {
        device_id: "\\\\.\\PHYSICALDRIVE1".to_string(),
        model: Some("NVMe X".to_string()),
        media_type: Some("SSD".to_string()),
        interface_type: None,
    }];
    let links = vec![(
        "Win32_DiskPartition.DeviceID=\"Disk #1, Partition #0\"".to_string(),
        "Win32_LogicalDisk.DeviceID=\"D:\"".to_string(),
    )];
    let map = map_logical_links(&links, &catalog);
    assert_eq!(map.len(), 1);
    assert_eq!(map[0].0, "D:");
    let volumes = vec![VolumeInfo {
        name: "D:\\".to_string(),
        fs_type: Some("NTFS".to_string()),
        total: 500_000_000_000,
        free: 120_000_000_000,
    }];
    let disks = join_disks(&volumes, &map);
    assert_eq!(disks.len(), 1);
    assert_eq!(disks[0].model.as_deref(), Some("NVMe X"));
    assert_eq!(disks[0].disk_type.as_deref(), Some("SSD"));
    assert_eq!(disks[0].partitions.len(), 1);
    assert_eq!(disks[0].partitions[0].name, "D:\\");
    assert_eq!(disks[0].partitions[0].total, 500_000_000_000);
    assert_eq!(disks[0].partitions[0].free, 120_000_000_000);
    assert_eq!(disks[0].partitions[0].used, 380_000_000_000);
    assert_eq!(disks[0].partitions[0].total_formatted, "465.66 GB");
}

#[test]
fn disk_and_wmi_services_cache() {
    let mut wmi = WmiService::new(4_000_000);
    assert!(wmi.needs_refresh(4_000_000));
    wmi.refresh(Vec::new(), &Vec::new(), 4_000_000);
    assert!(!wmi.needs_refresh(4_000_001));
    assert_eq!(wmi.get_disks().len(), 0);
    assert_eq!(wmi.map_logical_to_physical().len(), 0);

    let mut disks = DiskService::new(4_000_000);
    assert!(disks.needs_refresh(4_000_000));
    disks.refresh(&Vec::new(), &Vec::new(), 4_000_000);
    assert!(!disks.needs_refresh(4_000_001));
    assert_eq!(disks.get_disks().len(), 0);
}

#[test]
fn drive_mask_expansion() {
    let drives = drives_from_mask(0b1001);
    assert_eq!(drives, vec!["A:\\".to_string(), "D:\\".to_string()]);
    assert_eq!(drives_from_mask(0).len(), 0);
    assert_eq!(drives_from_mask(1 << 25), vec!["Z:\\".to_string()]);
}

#[test]
fn driver_key_splitting() {
    let (guid, instance) = split_driver_key("{4d36e972-e325-11ce-bfc1-08002be10318}\\0001");
    assert_eq!(guid, "{4d36e972-e325-11ce-bfc1-08002be10318}");
    assert_eq!(instance, "0001");
    let (guid, instance) = split_driver_key("no-backslash");
    assert_eq!(guid, "no-backslash");
    assert_eq!(instance, "");
}

#[test]
fn installed_driver_assembly() {
    let classes = DeviceClassService::new(vec![(
        "{4d36e972-e325-11ce-bfc1-08002be10318}".to_string(),
        "Net".to_string(),
    )]);
    let row = DeviceProperties {
        driver: Some("{4d36e972-e325-11ce-bfc1-08002be10318}\\0007".to_string()),
        provider: Some("Vendor".to_string()),
        description: None,
    };
    let info = build_driver_info(&row, &classes);
    assert_eq!(info.class_guid, "{4d36e972-e325-11ce-bfc1-08002be10318}");
    assert_eq!(info.class_name, "Net");
    assert_eq!(info.instance_id, "0007");
    assert_eq!(info.provider, "Vendor");
    assert_eq!(info.description, "");
    assert_eq!(info.driver_store, "");

    let mut service = InstalledDriverService::new(Vec::new(), 60_000);
    assert!(service.needs_refresh(60_000));
    service.refresh(&vec![row], 60_000);
    assert_eq!(service.get_drivers().len(), 1);
    assert_eq!(service.get_drivers()[0].class_name, "");
}

#[test]
fn loaded_driver_fallbacks() {
    let d = build_loaded_driver(LoadedModuleRow { base: 0xFFFF, name: None, path: None });
    assert_eq!(d.name, "<unknown>");
    assert_eq!(d.path, "<unknown>");
    assert_eq!(d.base, 0xFFFF);

    let mut service = LoadedDriverService::new(60_000);
    assert!(service.needs_refresh(60_000));
    service.refresh(
        vec![LoadedModuleRow {
            base: 1,
            name: Some("ntoskrnl.exe".to_string()),
            path: None,
        }],
        60_000,
    );
    assert_eq!(service.get().len(), 1);
    assert_eq!(service.get()[0].name, "ntoskrnl.exe");
    assert_eq!(service.get()[0].path, "<unknown>");
}

#[test]
fn program_rows_assembly() {
    let rows = vec![
        ProgramRow {
            display_name: Some("App".to_string()),
            install_location: Some("C:\\App".to_string()),
            display_icon: Some("C:\\App\\icon.ico".to_string()),
        },
        ProgramRow {
            display_name: None,
            install_location: Some("ignored".to_string()),
            display_icon: None,
        },
        ProgramRow {
            display_name: Some("IconOnly".to_string()),
            install_location: None,
            display_icon: Some("C:\\io.ico".to_string()),
        },
        ProgramRow { display_name: Some("Bare".to_string()), install_location: None, display_icon: None },
    ];
    let programs = programs_from_rows(rows);
    assert_eq!(programs.len(), 3);
    assert_eq!(programs[0].name, "App");
    assert_eq!(programs[0].path, "C:\\App");
    assert_eq!(programs[1].path, "C:\\io.ico");
    assert_eq!(programs[2].path, "");
}

#[test]
fn program_query_filters_and_pages() {
    let mut service = InstalledProgramsService::new(100_000);
    // an empty cache is stale even when fresh by time
    assert!(service.needs_refresh(100_000));
    let rows = vec![
        ProgramRow { display_name: Some("Google Chrome".to_string()), install_location: None, display_icon: None },
        ProgramRow { display_name: Some("Calculator".to_string()), install_location: None, display_icon: None },
        ProgramRow { display_name: Some("ChromeDriver".to_string()), install_location: None, display_icon: None },
    ];
    service.refresh(rows, 100_000);
    assert!(!service.needs_refresh(100_001));
    assert_eq!(service.get_count(), 3);
    assert_eq!(service.get_all().len(), 3);
    let page = service.get_programs(&GetProgramArgs {
        name: Some("chrome".to_string()),
        page: 0,
        page_size: 1,
    });
    assert_eq!(page.total, 2);
    assert_eq!(page.items.len(), 1);
    assert_eq!(page.items[0].name, "Google Chrome");
    let second = service.get_programs(&GetProgramArgs {
        name: Some("chrome".to_string()),
        page: 1,
        page_size: 1,
    });
    assert_eq!(second.items.len(), 1);
    assert_eq!(second.items[0].name, "ChromeDriver");
}

#[test]
fn screenshot_decoding() {
    let service = SaveScreenshotService::new("C:\\shots");
    assert_eq!(service.base_path, "C:\\shots");
    let bytes = service.decode("data:text/plain;base64,SGVsbG8=").expect("valid data url");
    assert_eq!(bytes, b"Hello");
    let plain = service.decode("data:,A%20b").expect("valid data url");
    assert_eq!(plain, b"A b");
    let err = service.decode("http://not-a-data-url").unwrap_err();
    assert_eq!(err.message(), "invalid data url");
}

#[test]
fn wide_string_decoding() {
    let units: Vec<u16> = vec![72, 105, 0, 88, 89];
    assert_eq!(widestr_to_string(&units), "Hi");
    let no_nul: Vec<u16> = vec![79, 107];
    assert_eq!(widestr_to_string(&no_nul), "Ok");
    let empty: Vec<u16> = vec![0];
    assert_eq!(widestr_to_string(&empty), "");
    assert!(extract_icon_stub("C:\\Windows\\explorer.exe").is_none());
}

#[test]
fn text_primitives() {
    assert!(str_contains("GoogleChrome.exe", "Chrome"));
    assert!(!str_contains("GoogleChrome.exe", "chrome"));
    assert!(str_contains("abc", ""));
    assert_eq!(str_find("a,b,c", ","), Some(1));
    assert_eq!(str_find("abc", "d"), None);
    assert!(str_lex_le("abc", "abd"));
    assert!(str_lex_le("abc", "abc"));
    assert!(!str_lex_le("b", "ab"));
    assert!(str_ends_with("PHYSICALDRIVE1", "1"));
    assert!(!str_ends_with("PHYSICALDRIVE12", "1"));
    assert_eq!(parse_u32("123"), Some(123));
    assert_eq!(parse_u32(""), None);
    assert_eq!(parse_u32("12x"), None);
    assert_eq!(parse_u32("4294967295"), Some(4_294_967_295));
    assert_eq!(parse_u32("4294967296"), None);
}

#[test]
fn dashboard_assembly() {
    let stats = dashboard_stats(3, 7, empty_memory_stats(), Vec::new());
    assert_eq!(stats.programs_count, 3);
    assert_eq!(stats.active_processes, 7);
    assert_eq!(stats.disks.len(), 0);
}

#[test]
fn wide_string_lossy_replacement() {
    // a lone surrogate cannot be decoded; it becomes the replacement character
    let units: Vec<u16> = vec![0xD800, 33];
    assert_eq!(widestr_to_string(&units), "\u{FFFD}!");
}

#[test]
fn hierarchy_pagination_totals() {
    let mut manager = ProcessManager::new(10_000);
    manager.refresh(
        vec![proc(1, 99, "delta"), proc(2, 99, "alpha"), proc(3, 99, "charlie")],
        10_000,
    );
    let args = GetProcessArgs {
        name: None,
        display: ProcessDisplay::Hierarchy,
        page: 1,
        page_size: 2,
    };
    match manager.query(&args) {
        PagedProcessResult::Hierarchy(page) => {
            assert_eq!(page.total, 3);
            assert_eq!(page.items.len(), 1);
            // the root list is ordered by case-insensitive name
            assert_eq!(page.items[0].process.name, "delta");
        }
        PagedProcessResult::List(_) => panic!("expected a hierarchy"),
    }
}
