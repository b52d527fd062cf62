use bpftrace_ls::cmd_mod::{
    bpftrace_command_step, bpftrace_has_property, bpftrace_major_minor_version,
    bpftrace_properties, bpftrace_properties_from_version, choose_custom_command, dry_run_args,
    get_used_command, list_probes_shell_command, parse_version, sudo_bpftrace_command_line,
    to_flat_version, BpftraceProperty, CommandStep, Version,
};

fn version(major: u16, minor: u16, patch: u16) -> Version {
    Version { major, minor, patch, hash: None }
}

#[test]
fn flat_version_packs_the_numbers() {
    assert_eq!(to_flat_version(&version(1, 2, 3)), (1u64 << 32) | (2u64 << 16) | 3);
    assert_eq!(to_flat_version(&version(0, 22, 0)), 22u64 << 16);
    assert!(to_flat_version(&version(0, 21, 65535)) < to_flat_version(&version(0, 22, 0)));
    assert!(to_flat_version(&version(0, 65535, 65535)) < to_flat_version(&version(1, 0, 0)));
}

#[test]
fn parse_version_reads_the_numbers_and_the_hash() {
    let v = parse_version("bpftrace v0.21.2\n").unwrap();
    assert_eq!((v.major, v.minor, v.patch), (0, 21, 2));
    assert!(v.hash.is_none());

    let v = parse_version("bpftrace v0.23.0-rc1-5-gdeadbeef\n").unwrap();
    assert_eq!((v.major, v.minor, v.patch), (0, 23, 0));
    assert_eq!(v.hash.as_deref(), Some("rc1-5-gdeadbeef\n"));

    let v = parse_version("bpftrace v 1.2.3.4 ").unwrap();
    assert_eq!((v.major, v.minor, v.patch), (1, 2, 3));
}

#[test]
fn parse_version_refuses_other_text() {
    assert!(parse_version("bpftrace 0.21.2").is_none());
    assert!(parse_version("bpftrace v0.21").is_none());
    assert!(parse_version("bpftrace v0.x.2").is_none());
    assert!(parse_version("bpftrace v0.21.70000").is_none());
    assert!(parse_version("").is_none());
}

#[test]
fn properties_follow_the_version() {
    let b = bpftrace_properties(version(0, 19, 9));
    assert!(!b.use_dry_run && !b.has_fentry_fexit && !b.has_dot_deref);

    let b = bpftrace_properties(version(0, 20, 0));
    assert!(!b.use_dry_run && b.has_fentry_fexit && !b.has_dot_deref);

    let b = bpftrace_properties(version(0, 22, 0));
    assert!(b.use_dry_run && b.has_fentry_fexit && !b.has_dot_deref);

    let b = bpftrace_properties(version(0, 25, 1));
    assert!(b.use_dry_run && b.has_fentry_fexit && b.has_dot_deref);
    assert_eq!((b.version.major, b.version.minor, b.version.patch), (0, 25, 1));
}

#[test]
fn properties_while_nothing_is_detected() {
    assert!(!bpftrace_has_property(None, BpftraceProperty::HasFentryFexit));
    assert!(!bpftrace_has_property(None, BpftraceProperty::HasDotDeref));
    assert_eq!(bpftrace_major_minor_version(None), (0, 0));

    let b = bpftrace_properties(version(0, 21, 2));
    assert!(bpftrace_has_property(Some(&b), BpftraceProperty::HasFentryFexit));
    assert!(!bpftrace_has_property(Some(&b), BpftraceProperty::HasDotDeref));
    assert_eq!(bpftrace_major_minor_version(Some(&b)), (0, 21));
}

#[test]
fn properties_from_version_output() {
    let b = bpftrace_properties_from_version(b"bpftrace v0.22.1\n").unwrap();
    assert_eq!((b.version.major, b.version.minor, b.version.patch), (0, 22, 1));
    assert!(b.use_dry_run);

    assert!(bpftrace_properties_from_version(b"bpftrace v0.22.1\xff\n").is_none());
    assert!(bpftrace_properties_from_version(b"command not found\n").is_none());
}

#[test]
fn used_command_names_sudo_when_needed() {
    assert_eq!(get_used_command(None, None), "bpftrace");
    assert_eq!(get_used_command(None, Some(false)), "bpftrace");
    assert_eq!(get_used_command(None, Some(true)), "sudo bpftrace");
    assert_eq!(get_used_command(Some("/opt/bt/bpftrace"), Some(true)), "/opt/bt/bpftrace");
}

#[test]
fn command_line_with_and_without_sudo() {
    let args = vec!["--info".to_string()];
    let (prog, a) = sudo_bpftrace_command_line(None, false, &args);
    assert_eq!(prog, "bpftrace");
    assert_eq!(a, vec!["--info".to_string()]);

    let (prog, a) = sudo_bpftrace_command_line(Some("/home/u/my_bpftrace"), true, &args);
    assert_eq!(prog, "sudo");
    assert_eq!(a, vec!["-n", "/home/u/my_bpftrace", "--info"]);
}

#[test]
fn list_probes_shell_commands() {
    assert_eq!(
        list_probes_shell_command(None, Some(true), "kprobe:vfs_*", true),
        "(sudo -n bpftrace -l -v 'kprobe:vfs_*') 2>&1"
    );
    assert_eq!(
        list_probes_shell_command(Some("my_bt"), None, "tracepoint:*", false),
        "(my_bt -l 'tracepoint:*') 2>&1"
    );
}

#[test]
fn command_steps_try_plain_then_sudo() {
    assert_eq!(bpftrace_command_step(None, None), CommandStep::Run(false));
    assert_eq!(bpftrace_command_step(None, Some((false, true))), CommandStep::CacheAndReturn(false));
    assert_eq!(bpftrace_command_step(None, Some((false, false))), CommandStep::Run(true));
    assert_eq!(bpftrace_command_step(None, Some((true, true))), CommandStep::CacheAndReturn(true));
    assert_eq!(bpftrace_command_step(None, Some((true, false))), CommandStep::PermissionDenied);
    assert_eq!(bpftrace_command_step(Some(true), None), CommandStep::Run(true));
    assert_eq!(bpftrace_command_step(Some(true), Some((true, false))), CommandStep::ReturnLast);
}

#[test]
fn dry_run_arguments_follow_the_version() {
    assert!(dry_run_args(None, "BEGIN {}").is_none());
    let new = bpftrace_properties(version(0, 22, 0));
    assert_eq!(dry_run_args(Some(&new), "BEGIN {}").unwrap(), vec!["--dry-run", "-e", "BEGIN {}"]);
    let old = bpftrace_properties(version(0, 21, 0));
    assert_eq!(dry_run_args(Some(&old), "BEGIN {}").unwrap(), vec!["-d", "-e", "BEGIN {}"]);
}

#[test]
fn environment_command_takes_precedence() {
    assert_eq!(
        choose_custom_command(Some("env_bt".to_string()), Some("cfg_bt".to_string())),
        Some("env_bt".to_string())
    );
    assert_eq!(choose_custom_command(None, Some("cfg_bt".to_string())), Some("cfg_bt".to_string()));
    assert_eq!(choose_custom_command(None, None), None);
}
