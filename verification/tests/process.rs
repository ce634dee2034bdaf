use zejtron::number::human_kb;
use zejtron::process::{
    extract_systemd_unit, lookup_username, parent_chain, parse_status_field, parse_status_number,
    parse_uid_pair, quote_if_needed, read_cgroup, read_cmdline, read_context, read_stat_state,
    read_systemd_unit, ProcState, ProcessContext, ProcessEntry, ProcessRecord,
};

fn record(name: &str, ppid: u32) -> ProcessRecord {
    ProcessRecord {
        status: Some(format!(
            "Name:\t{name}\nPPid:\t{ppid}\nUid:\t1000\t1001\t1000\t1000\nVmRSS:\t  8420 kB\nVmSize:\t 16384 kB\nThreads:\t4\n"
        )),
        stat: Some(format!("7 ({name}) S {ppid} 7 7 0")),
        cmdline: Some(b"tool\0--flag\0".to_vec()),
        cgroup: Some("12:cpu:/\n0::/system.slice/nginx.service\n".to_owned()),
        netns_inode: Some(4026531992),
        pidns_inode: None,
    }
}

fn entry(pid: u32, ppid: u32) -> ProcessEntry {
    ProcessEntry {
        pid,
        record: record("p", ppid),
    }
}

fn context() -> ProcessContext {
    ProcessContext {
        pid: 42,
        ppid: 1,
        name: "test".to_owned(),
        cmdline: Some("test --flag".to_owned()),
        uid: 1000,
        euid: 1000,
        state: ProcState::Running,
        vm_rss_kb: 4096,
        vm_size_kb: 16384,
        vm_swap_kb: 0,
        threads: 1,
        cgroup: None,
        netns_inode: None,
        pidns_inode: None,
    }
}

#[test]
fn proc_state_label_roundtrip() {
    assert_eq!(ProcState::from_char('R'), ProcState::Running);
    assert_eq!(ProcState::from_char('Z'), ProcState::Zombie);
    assert_eq!(ProcState::from_char('S'), ProcState::Sleep);
    assert_eq!(ProcState::from_char('?'), ProcState::Unknown);
    assert_eq!(ProcState::Running.label(), "R");
    assert_eq!(ProcState::Zombie.label(), "Z");
}

#[test]
fn every_state_letter_reads_back() {
    for state in [
        ProcState::Running,
        ProcState::Sleep,
        ProcState::Uninterruptible,
        ProcState::Zombie,
        ProcState::Traced,
        ProcState::Stopped,
        ProcState::Paging,
        ProcState::Dead,
        ProcState::Idle,
        ProcState::Unknown,
    ] {
        let letter = state.label().chars().next().unwrap();
        assert_eq!(ProcState::from_char(letter), state);
        assert!(!state.description().is_empty());
    }
    assert_eq!(ProcState::from_char('x'), ProcState::Dead);
    assert_eq!(ProcState::Zombie.description(), "zombie");
}

#[test]
fn parse_status_field_finds_key() {
    let s = "Name:\tbash\nPid:\t1234\nPPid:\t1\n";
    assert_eq!(parse_status_field(s, "Name").as_deref(), Some("bash"));
    assert_eq!(parse_status_field(s, "Pid").as_deref(), Some("1234"));
    assert_eq!(parse_status_field(s, "Missing"), None);
}

#[test]
fn parse_status_number_handles_kb_suffix() {
    let s = "VmRSS:\t   8420 kB\n";
    assert_eq!(parse_status_number(s, "VmRSS"), Some(8420));
    assert_eq!(parse_status_number(s, "VmSize"), None);
}

#[test]
fn parse_uid_pair_real_effective() {
    let s = "Uid:\t1000\t1000\t1000\t1000\n";
    assert_eq!(parse_uid_pair(s), Some((1000, 1000)));
    let s2 = "Uid:\t0\t0\t0\t0\n";
    assert_eq!(parse_uid_pair(s2), Some((0, 0)));
}

#[test]
fn effective_user_defaults_to_zero() {
    assert_eq!(parse_uid_pair("Uid:\t7\n"), Some((7, 0)));
    assert_eq!(parse_uid_pair("Uid:\t7\tx\n"), Some((7, 0)));
    assert_eq!(parse_uid_pair("Uid:\tx\t0\n"), None);
    assert_eq!(parse_uid_pair("Gid:\t7\t7\n"), None);
}

#[test]
fn lookup_username_resolves_known_uid() {
    let passwd = Some("root:x:0:0:root:/root:/bin/bash\n".to_owned());
    assert_eq!(lookup_username(&passwd, 0), "root");
}

#[test]
fn lookup_username_unknown_uid_returns_numeric() {
    let passwd = Some("root:x:0:0:root:/root:/bin/bash\nbad line\n".to_owned());
    assert_eq!(lookup_username(&passwd, 65534), "65534");
    assert_eq!(lookup_username(&None, 65534), "65534");
}

#[test]
fn read_cmdline_self_pid() {
    let ctx = read_context(7, &record("tool", 1)).unwrap();
    assert_eq!(ctx.pid, 7);
    assert_eq!(ctx.ppid, 1);
    assert_eq!(ctx.name, "tool");
    assert_eq!(ctx.cmdline.as_deref(), Some("tool --flag"));
    assert_eq!((ctx.uid, ctx.euid), (1000, 1001));
    assert_eq!(ctx.state, ProcState::Sleep);
    assert_eq!(ctx.vm_rss_kb, 8420);
    assert_eq!(ctx.vm_size_kb, 16384);
    assert_eq!(ctx.vm_swap_kb, 0);
    assert_eq!(ctx.threads, 4);
    assert_eq!(
        ctx.cgroup.as_deref(),
        Some("0::/system.slice/nginx.service")
    );
    assert_eq!(ctx.netns_inode, Some(4026531992));
    assert_eq!(ctx.pidns_inode, None);
}

#[test]
fn unreadable_status_gives_no_context() {
    let mut gone = record("tool", 1);
    gone.status = None;
    assert!(read_context(7, &gone).is_none());
    gone.status = Some("Name:\ttool\n".to_owned());
    assert!(read_context(7, &gone).is_none());
}

#[test]
fn parent_chain_self_reaches_init() {
    let table = vec![entry(1, 0), entry(20, 1), entry(300, 20)];
    let chain = parent_chain(&table, 300);
    let pids: Vec<u32> = chain.iter().map(|context| context.pid).collect();
    assert_eq!(pids, vec![300, 20, 1]);
    let last = chain.last().unwrap();
    assert!(last.pid == 1 || last.ppid == 0 || last.ppid == last.pid);
}

#[test]
fn parent_chain_ends_on_cycles_and_gaps() {
    let circle = vec![entry(5, 6), entry(6, 5)];
    let pids: Vec<u32> = parent_chain(&circle, 5).iter().map(|c| c.pid).collect();
    assert_eq!(pids, vec![5, 6]);
    let gap = vec![entry(5, 6)];
    assert_eq!(parent_chain(&gap, 5).len(), 1);
    assert!(parent_chain(&gap, 9).is_empty());
    let own = vec![entry(8, 8)];
    assert_eq!(parent_chain(&own, 8).len(), 1);
}

#[test]
fn summary_line_includes_pid_and_state() {
    let line = context().summary_line("testuser");
    assert!(line.contains("pid=42"));
    assert!(line.contains("state=R"));
    assert!(line.contains("user=testuser"));
    assert!(line.contains("cmd='test --flag'"));
}

#[test]
fn evidence_block_has_all_fields() {
    let mut ctx = context();
    ctx.state = ProcState::Zombie;
    ctx.threads = 4;
    ctx.cgroup = Some("0::/user.slice".to_owned());
    ctx.netns_inode = Some(4026531992);
    ctx.pidns_inode = Some(4026531836);
    let block = ctx.evidence_block("testuser");
    let joined = block.join("\n");
    assert!(joined.contains("name: test"));
    assert!(joined.contains("cmdline: test --flag"));
    assert!(joined.contains("pid: 42 (ppid=1)"));
    assert!(joined.contains("state: Z (zombie)"));
    assert!(joined.contains("threads: 4"));
    assert!(joined.contains("cgroup: 0::/user.slice"));
    assert!(joined.contains("netns: inode=4026531992"));
    assert!(joined.contains("pidns: inode=4026531836"));
}

#[test]
fn quote_if_needed_handles_spaces() {
    assert_eq!(quote_if_needed("simple"), "simple");
    assert_eq!(quote_if_needed("has space"), "'has space'");
    assert_eq!(quote_if_needed("has'quote"), "\"has'quote\"");
}

#[test]
fn quote_escapes_double_quotes() {
    assert_eq!(quote_if_needed("a\"b"), "'a\"b'");
    assert_eq!(quote_if_needed("it's \"x\""), "\"it's \\\"x\\\"\"");
    assert_eq!(quote_if_needed(""), "");
}

#[test]
fn extract_systemd_unit_from_v2_path() {
    assert_eq!(
        extract_systemd_unit("0::/system.slice/nginx.service"),
        Some("nginx.service".to_owned())
    );
    assert_eq!(
        extract_systemd_unit(
            "0::/user.slice/user-1000.slice/user@1000.service/app.slice/dbus.service"
        ),
        Some("dbus.service".to_owned())
    );
    assert_eq!(
        extract_systemd_unit("0::/system.slice/systemd-resolved.service"),
        Some("systemd-resolved.service".to_owned())
    );
}

#[test]
fn extract_systemd_unit_handles_other_suffixes() {
    assert_eq!(
        extract_systemd_unit("0::/system.slice/foo.socket"),
        Some("foo.socket".to_owned())
    );
    assert_eq!(
        extract_systemd_unit("0::/system.slice/session-1.scope"),
        Some("session-1.scope".to_owned())
    );
}

#[test]
fn extract_systemd_unit_returns_none_for_kernel_threads() {
    assert_eq!(extract_systemd_unit("0::/"), None);
    assert_eq!(extract_systemd_unit("0::/user.slice"), None);
    assert_eq!(extract_systemd_unit(""), None);
}

#[test]
fn unit_is_the_last_component_with_an_ending() {
    assert_eq!(
        extract_systemd_unit("0::/.service"),
        Some(".service".to_owned())
    );
    assert_eq!(
        extract_systemd_unit("0::/a.service/.timer/b.slice"),
        Some(".timer".to_owned())
    );
    assert_eq!(extract_systemd_unit("0::/service"), None);
    assert_eq!(extract_systemd_unit("0::/a.service.d"), None);
}

#[test]
fn unit_is_read_from_the_last_line() {
    assert_eq!(
        read_systemd_unit("12:cpu:/a.service\n0::/system.slice/b.service\n\n"),
        Some("b.service".to_owned())
    );
    assert_eq!(read_systemd_unit(""), None);
    assert_eq!(read_cgroup("a\nb\n \n"), Some("b".to_owned()));
}

#[test]
fn command_lines_are_joined_by_spaces() {
    assert_eq!(
        read_cmdline(&b"a\0b c\0\0".to_vec()),
        Some("a b c".to_owned())
    );
    assert_eq!(read_cmdline(&vec![]), None);
    assert_eq!(
        read_cmdline(&vec![b'a', 0, 0xff, 0, b'b', 0]),
        Some("a b".to_owned())
    );
}

#[test]
fn state_is_read_behind_the_name() {
    assert_eq!(
        read_stat_state("7 (a) b) R 1 7"),
        Some(ProcState::Running)
    );
    assert_eq!(read_stat_state("7 (a)"), None);
}

#[test]
fn kilobytes_are_rounded_like_floats() {
    for kb in [
        0u64, 1, 1023, 1024, 1535, 1536, 1537, 2560, 8420, 1048575, 1048576, 1100000, 5555555,
    ] {
        let expected = if kb >= 1024 * 1024 {
            format!("{:.1}GB", kb as f64 / 1024.0 / 1024.0)
        } else if kb >= 1024 {
            format!("{:.0}MB", kb as f64 / 1024.0)
        } else {
            format!("{kb}KB")
        };
        assert_eq!(human_kb(kb), expected);
    }
}
