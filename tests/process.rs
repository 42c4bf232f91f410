use ttymon::podman::{
    collect_peers, container_info_from_output, get_container_id, have_common_member,
    is_supervisor,
};
use ttymon::process::{get_stat_field, parse_i32, split_bytes, Args, Process, StatParser};

const STAT: &[u8] = b"1234 (my (odd) cmd) S 1 1234 1234 34816 5678 4194304 100";

#[test]
fn stat_fields_split_around_comm() {
    let fields = StatParser::new(STAT.to_vec()).parse().unwrap();
    assert_eq!(fields[0], b"1234".to_vec());
    assert_eq!(fields[1], b"my (odd) cmd".to_vec());
    assert_eq!(fields[2], b"S".to_vec());
    assert_eq!(fields[3], b"1".to_vec());
    assert_eq!(fields.len(), 10);
}

#[test]
fn stat_without_parens_is_refused() {
    assert!(StatParser::new(b"1234 cmd S 1".to_vec()).parse().is_none());
    assert!(StatParser::new(Vec::new()).parse().is_none());
}

#[test]
fn stat_numeric_fields() {
    assert_eq!(Process::parent(STAT), Some(1));
    assert_eq!(Process::process_group(STAT), Some(1234));
    assert_eq!(Process::tty_process_group(STAT), Some(5678));
    assert_eq!(get_stat_field(STAT, 2), None);
    assert_eq!(get_stat_field(STAT, 40), None);
}

#[test]
fn stat_negative_tty_group() {
    let stat = b"7 (bash) S 1 7 7 0 -1 4194560";
    assert_eq!(Process::tty_process_group(stat), Some(-1));
}

#[test]
fn integers_parse_like_from_str() {
    assert_eq!(parse_i32(b"0"), Some(0));
    assert_eq!(parse_i32(b"+42"), Some(42));
    assert_eq!(parse_i32(b"-2147483648"), Some(i32::MIN));
    assert_eq!(parse_i32(b"2147483647"), Some(i32::MAX));
    assert_eq!(parse_i32(b"2147483648"), None);
    assert_eq!(parse_i32(b"-2147483649"), None);
    assert_eq!(parse_i32(b""), None);
    assert_eq!(parse_i32(b"-"), None);
    assert_eq!(parse_i32(b"12a"), None);
    assert_eq!(parse_i32(b"99999999999999999999"), None);
}

#[test]
fn split_keeps_empty_pieces() {
    assert_eq!(split_bytes(b"a\0b\0", 0), vec![b"a".to_vec(), b"b".to_vec(), Vec::new()]);
    assert_eq!(split_bytes(b"", 0), vec![Vec::<u8>::new()]);
}

#[test]
fn argv0_is_first_argument() {
    assert_eq!(Process::argv0(&Args(b"/bin/bash\0-l\0".to_vec())), "/bin/bash");
    assert_eq!(Process::argv0(&Args(b"\xff\xfe\0x".to_vec())), "???");
    assert_eq!(Process::argv0(&Args(Vec::new())), "");
}

#[test]
fn process_group_members() {
    let stats = vec![
        (1, b"1 (init) S 0 1 1 0 -1".to_vec()),
        (7, b"7 (bash) S 1 7 7 0 7".to_vec()),
        (8, b"8 (vim) S 7 7 7 0 7".to_vec()),
        (9, b"garbage".to_vec()),
    ];
    assert_eq!(Process::list_process_group(&stats, 7), vec![7, 8]);
    assert_eq!(Process::list_process_group(&stats, 3), Vec::<i32>::new());
}

#[test]
fn process_keeps_pid() {
    assert_eq!(Process::new(42).pid(), 42);
}

#[test]
fn container_id_follows_flag() {
    let args = Args(b"/usr/bin/conmon\0--api-version\x001\0-c\0abc123\0-u\0abc123\0".to_vec());
    assert_eq!(get_container_id(&args), Some(b"abc123".to_vec()));
    assert_eq!(get_container_id(&Args(b"/usr/bin/conmon\0-c".to_vec())), None);
    assert_eq!(get_container_id(&Args(b"/usr/bin/conmon\0-u\0x\0".to_vec())), None);
}

#[test]
fn inspect_output_gives_metadata() {
    let info = container_info_from_output(b"abc123", b"dev sha256:1 fedora-toolbox:39\n").unwrap();
    assert_eq!(info.container_id, "abc123");
    assert_eq!(info.container_name, "dev");
    assert_eq!(info.image_id, "sha256:1");
    assert_eq!(info.image_name, "fedora-toolbox:39");
    let bare = container_info_from_output(b"abc123", b"dev sha1 fedora-toolbox").unwrap();
    assert_eq!(bare.image_name, "fedora-toolbox");
    assert!(container_info_from_output(b"abc123", b"only two").is_none());
    assert!(container_info_from_output(b"abc123", b"a b c d").is_none());
    assert!(container_info_from_output(b"abc123", b"a \xff c").is_none());
}

#[test]
fn common_members_and_peers() {
    assert!(have_common_member(&[1, 2, 3], &[9, 3]));
    assert!(!have_common_member(&[1, 2, 3], &[4]));
    assert!(!have_common_member(&[], &[4]));
    assert_eq!(collect_peers(&vec![Some(5), Some(0), None, Some(7)]), vec![5, 7]);
}

#[test]
fn supervisor_is_recognised() {
    assert!(is_supervisor("/usr/bin/conmon", &[10, 11], &[11]));
    assert!(!is_supervisor("/usr/bin/conmon", &[10], &[11]));
    assert!(!is_supervisor("/usr/bin/other", &[11], &[11]));
}
