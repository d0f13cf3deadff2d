use kernel_core::ikd::{exit_closes_ikd, get_from_to, match_command, parse_hex, str_equal, IkdCommand};

#[test]
fn exit_subcommand_decision() {
    assert!(exit_closes_ikd("ikd"));
    assert!(!exit_closes_ikd("qemu"));
    assert!(!exit_closes_ikd("ikd2"));
    assert!(!exit_closes_ikd("ik"));
    assert!(!exit_closes_ikd(""));
}

#[test]
fn string_equality() {
    assert!(str_equal("", ""));
    assert!(str_equal("memory", "memory"));
    assert!(!str_equal("memory", "memo"));
    assert!(!str_equal("memo", "memory"));
    assert!(!str_equal("memory", "memorz"));
}

#[test]
fn commands_match_by_prefix() {
    assert_eq!(match_command("help"), Some(IkdCommand::Help));
    assert_eq!(match_command("help me"), Some(IkdCommand::Help));
    assert_eq!(match_command("memory info"), Some(IkdCommand::Memory));
    assert_eq!(match_command("memory view 10:20"), Some(IkdCommand::Memory));
    assert_eq!(match_command("exit qemu"), Some(IkdCommand::Exit));
    assert_eq!(match_command("kernel info"), Some(IkdCommand::Kernel));
    assert_eq!(match_command("clocks"), Some(IkdCommand::Clocks));
    assert_eq!(match_command("ip"), Some(IkdCommand::Ip));
    assert_eq!(match_command("panic"), Some(IkdCommand::Panic));
}

#[test]
fn invalid_commands_match_nothing() {
    assert_eq!(match_command(""), None);
    assert_eq!(match_command("halp"), None);
    assert_eq!(match_command("mem"), None);
    assert_eq!(match_command(" help"), None);
}

#[test]
fn hex_numbers_parse() {
    assert_eq!(parse_hex("0"), Some(0));
    assert_eq!(parse_hex("1f"), Some(31));
    assert_eq!(parse_hex("DeadBEEF"), Some(0xDEAD_BEEF));
    assert_eq!(parse_hex("+10"), Some(16));
    assert_eq!(parse_hex(""), None);
    assert_eq!(parse_hex("+"), None);
    assert_eq!(parse_hex("12g"), None);
    assert_eq!(parse_hex("ffffffffffffffff"), Some(usize::MAX));
    assert_eq!(parse_hex("10000000000000000"), None);
}

#[test]
fn ranges_split_on_colons() {
    assert_eq!(get_from_to("1f:2A"), Some((31, 42)));
    assert_eq!(get_from_to("10:20:30"), Some((16, 32)));
    assert_eq!(get_from_to("10"), None);
    assert_eq!(get_from_to(":10"), None);
    assert_eq!(get_from_to("10:"), None);
    assert_eq!(get_from_to("x:1"), None);
}
