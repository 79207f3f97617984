use libre99::cli::{parse_u32, Args};

fn parse(args: &[&str]) -> Result<Args, String> {
    Args::parse(args.iter().map(|s| s.to_string()).collect())
}

#[test]
fn parses_media_and_display_flags() {
    let a = parse(&["--cartridge", "path/to/game.ctg", "--disk", "vol/Foo.Dsk", "--scale", "4", "--fullscreen"])
        .unwrap();
    assert_eq!(a.cartridge.as_deref(), Some("path/to/game.ctg"));
    assert_eq!(a.disk.as_deref(), Some("vol/Foo.Dsk"));
    assert_eq!(a.scale, Some(4));
    assert!(a.fullscreen);
}

#[test]
fn cartridge_file_is_a_compatible_alias() {
    let a = parse(&["--cartridge-file", "build/titris.ctg"]).unwrap();
    assert_eq!(a.cartridge.as_deref(), Some("build/titris.ctg"));
    assert!(parse(&["--cartridge-file"]).is_err());
}

#[test]
fn system_firmware_flags_take_paths() {
    let a = parse(&[
        "--system-grom",
        "grom/console-grom.bin",
        "--system-rom",
        "third-party/roms/994aROM.Bin",
    ])
    .unwrap();
    assert_eq!(a.system_grom.as_deref(), Some("grom/console-grom.bin"));
    assert_eq!(a.system_rom.as_deref(), Some("third-party/roms/994aROM.Bin"));
    assert!(parse(&["--system-grom"]).is_err());
}

#[test]
fn help_is_a_flag_and_removed_flags_error() {
    assert!(parse(&["--help"]).unwrap().help);
    // Embedded-media flags died with the embeds.
    assert!(parse(&["--list"]).is_err());
    assert!(parse(&["--no-cartridge"]).is_err());
}

#[test]
fn missing_value_and_unknown_flag_error() {
    assert!(parse(&["--scale"]).is_err());
    assert!(parse(&["--scale", "huge"]).is_err());
    assert!(parse(&["--bogus"]).is_err());
}

#[test]
fn empty_args_are_all_defaults() {
    assert_eq!(parse(&[]).unwrap(), Args::default());
}

#[test]
fn error_messages_name_the_flag() {
    assert_eq!(parse(&["--disk"]).unwrap_err(), "--disk requires a value");
    assert_eq!(parse(&["--scale", "huge"]).unwrap_err(), "invalid --scale: huge");
    assert_eq!(parse(&["--bogus"]).unwrap_err(), "unknown argument: --bogus");
    assert_eq!(parse(&["--log-level", "debug", "--disk-dsr", "d.bin"]).unwrap().log_level.as_deref(), Some("debug"));
}

#[test]
fn scale_is_a_decimal_u32() {
    assert_eq!(parse_u32("+7"), Some(7));
    assert_eq!(parse_u32("4294967295"), Some(u32::MAX));
    assert_eq!(parse_u32("4294967296"), None);
    assert_eq!(parse_u32(""), None);
    assert_eq!(parse_u32("+"), None);
    assert_eq!(parse_u32("-1"), None);
}

#[test]
fn command_line_media_overrides_the_resume_and_preferences_merge() {
    let a = Args::parse(vec![]).unwrap();
    assert!(a.resumes_session());
    assert_eq!(a.window_scale(3), 3);
    assert!(!a.starts_fullscreen(false));
    assert!(a.starts_fullscreen(true));
    let a = Args::parse(vec![String::from("--scale"), String::from("2"), String::from("--fullscreen")]).unwrap();
    assert_eq!(a.window_scale(3), 2);
    assert!(a.starts_fullscreen(false));
    let a = Args::parse(vec![String::from("--disk"), String::from("work.dsk")]).unwrap();
    assert!(!a.resumes_session());
}
