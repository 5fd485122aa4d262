use std::str;
use std::str::FromStr;
use system_cnf::{Error, SystemCnf, VideoMode};

const SYSTEM_CNF: &[u8] = &[
    0x42, 0x4F, 0x4F, 0x54, 0x32, 0x20, 0x3D, 0x20, 0x63, 0x64, 0x72, 0x6F, 0x6D, 0x30, 0x3A,
    0x5C, 0x53, 0x4C, 0x55, 0x53, 0x5F, 0x32, 0x31, 0x33, 0x2E, 0x34, 0x38, 0x3B, 0x31, 0x0D,
    0x0A, 0x56, 0x45, 0x52, 0x20, 0x3D, 0x20, 0x31, 0x2E, 0x30, 0x30, 0x0D, 0x0A, 0x56, 0x4D,
    0x4F, 0x44, 0x45, 0x20, 0x3D, 0x20, 0x4E, 0x54, 0x53, 0x43, 0x0D, 0x0A,
];

#[test]
fn encode() {
    let txt = str::from_utf8(SYSTEM_CNF).unwrap();
    let parsed = SystemCnf::parse(txt).unwrap();
    let encoded = parsed.to_string();

    assert_eq!(txt, encoded);
    assert_eq!(SYSTEM_CNF, encoded.as_bytes());
}

#[test]
fn decode() {
    let txt = str::from_utf8(SYSTEM_CNF).unwrap();
    let parsed = SystemCnf::parse(txt).unwrap();

    assert_eq!(parsed.elf_path, "cdrom0:\\SLUS_213.48");
    assert_eq!(parsed.version, "1.00");
    assert_eq!(parsed.video_mode, VideoMode::Ntsc);
    assert_eq!(parsed.hdd_unit_power, None);
}

#[test]
fn scenario_round_trip_exact() {
    let txt = "BOOT2 = cdrom0:\\SLUS_213.48;1\r\nVER = 1.00\r\nVMODE = NTSC\r\n";
    let parsed = SystemCnf::parse(txt).unwrap();
    assert_eq!(parsed.elf_path, "cdrom0:\\SLUS_213.48");
    assert_eq!(parsed.version, "1.00");
    assert_eq!(parsed.video_mode, VideoMode::Ntsc);
    assert_eq!(parsed.hdd_unit_power, None);
    assert_eq!(parsed.to_string(), txt);
}

#[test]
fn round_trip_with_power() {
    let txt = "BOOT2 = cdrom0:\\SLES_500.01;1\r\nVER = 2.10\r\nVMODE = PAL\r\nHDDUNITPOWER = NICHDD\r\n";
    let parsed = SystemCnf::parse(txt).unwrap();
    assert_eq!(parsed.video_mode, VideoMode::Pal);
    assert_eq!(parsed.hdd_unit_power, Some("NICHDD".to_string()));
    assert_eq!(parsed.to_string(), txt);
}

#[test]
fn suffix_is_stripped_and_restored() {
    let parsed = SystemCnf::parse("BOOT2 = X;1\nVER = 1\nVMODE = PAL\n").unwrap();
    assert_eq!(parsed.elf_path, "X");
    let rec = SystemCnf {
        elf_path: "X".to_string(),
        version: "1".to_string(),
        video_mode: VideoMode::Pal,
        hdd_unit_power: None,
    };
    assert!(rec.to_string().starts_with("BOOT2 = X;1\r\n"));
}

#[test]
fn path_without_suffix_is_kept() {
    let parsed = SystemCnf::parse("BOOT2 = cdrom0:\\GAME.ELF\nVER = 1\nVMODE = NTSC").unwrap();
    assert_eq!(parsed.elf_path, "cdrom0:\\GAME.ELF");
}

#[test]
fn only_one_suffix_is_stripped() {
    let parsed = SystemCnf::parse("BOOT2 = A;1;1\nVER = 1\nVMODE = NTSC\n").unwrap();
    assert_eq!(parsed.elf_path, "A;1");
}

#[test]
fn video_mode_names() {
    assert_eq!(VideoMode::Ntsc.as_str(), "NTSC");
    assert_eq!(VideoMode::Pal.as_str(), "PAL");
    assert_eq!(VideoMode::from_name(VideoMode::Ntsc.as_str()), Ok(VideoMode::Ntsc));
    assert_eq!(VideoMode::from_name(VideoMode::Pal.as_str()), Ok(VideoMode::Pal));
    assert_eq!(VideoMode::from_name("NTSC").unwrap().as_str(), "NTSC");
    assert_eq!(VideoMode::from_name("PAL").unwrap().as_str(), "PAL");
}

#[test]
fn video_mode_from_str_trims() {
    assert_eq!(VideoMode::from_str("  PAL \t"), Ok(VideoMode::Pal));
    assert_eq!(VideoMode::from_str("\u{3000}NTSC"), Ok(VideoMode::Ntsc));
    assert_eq!(VideoMode::from_str("ntsc"), Err(Error::UnknownVideoMode));
    assert_eq!(VideoMode::from_str(""), Err(Error::UnknownVideoMode));
}

#[test]
fn unknown_video_mode() {
    let r = SystemCnf::parse("BOOT2 = X;1\r\nVER = 1\r\nVMODE = SECAM\r\n");
    assert_eq!(r, Err(Error::UnknownVideoMode));
}

#[test]
fn missing_boot2() {
    assert_eq!(SystemCnf::parse("VER = 1\r\nVMODE = NTSC\r\n"), Err(Error::MissingField));
}

#[test]
fn missing_version() {
    assert_eq!(SystemCnf::parse("BOOT2 = X;1\r\nVMODE = NTSC\r\n"), Err(Error::MissingField));
}

#[test]
fn missing_video_mode() {
    assert_eq!(SystemCnf::parse("BOOT2 = X;1\r\nVER = 1\r\n"), Err(Error::MissingField));
}

#[test]
fn empty_text_misses_fields() {
    assert_eq!(SystemCnf::parse(""), Err(Error::MissingField));
}

#[test]
fn unknown_key_is_ignored() {
    let with = SystemCnf::parse("BOOT2 = X;1\r\nFOO = BAR\r\nVER = 1\r\nVMODE = NTSC\r\n").unwrap();
    let without = SystemCnf::parse("BOOT2 = X;1\r\nVER = 1\r\nVMODE = NTSC\r\n").unwrap();
    assert_eq!(with, without);
}

#[test]
fn line_without_equals_is_malformed() {
    let r = SystemCnf::parse("BOOT2 = X;1\r\nVER = 1\r\nGARBAGE\r\nVMODE = NTSC\r\n");
    assert_eq!(r, Err(Error::MalformedFile));
}

#[test]
fn first_error_wins() {
    assert_eq!(
        SystemCnf::parse("VMODE = SECAM\r\nGARBAGE\r\n"),
        Err(Error::UnknownVideoMode)
    );
    assert_eq!(
        SystemCnf::parse("GARBAGE\r\nVMODE = SECAM\r\n"),
        Err(Error::MalformedFile)
    );
}

#[test]
fn empty_lines_are_skipped() {
    let parsed = SystemCnf::parse("\r\nBOOT2 = X;1\n\nVER = 1\r\n\r\nVMODE = NTSC\r\n\r\n").unwrap();
    assert_eq!(parsed.elf_path, "X");
    assert_eq!(parsed.version, "1");
}

#[test]
fn power_absent_is_not_written() {
    let parsed = SystemCnf::parse("BOOT2 = X;1\r\nVER = 1\r\nVMODE = NTSC\r\n").unwrap();
    assert_eq!(parsed.hdd_unit_power, None);
    assert!(!parsed.to_string().contains("HDDUNITPOWER"));
}

#[test]
fn keys_and_values_are_trimmed() {
    let parsed =
        SystemCnf::parse("  BOOT2\t=\tX;1  \r\n VER =   1.5 \r\nVMODE=PAL\r\nHDDUNITPOWER =  ON \r\n")
            .unwrap();
    assert_eq!(parsed.elf_path, "X");
    assert_eq!(parsed.version, "1.5");
    assert_eq!(parsed.video_mode, VideoMode::Pal);
    assert_eq!(parsed.hdd_unit_power, Some("ON".to_string()));
}

#[test]
fn keys_are_case_sensitive() {
    assert_eq!(
        SystemCnf::parse("boot2 = X;1\r\nVER = 1\r\nVMODE = NTSC\r\n"),
        Err(Error::MissingField)
    );
}

#[test]
fn value_stops_at_second_equals() {
    let parsed = SystemCnf::parse("BOOT2 = a=b;1\r\nVER = 1=2\r\nVMODE = NTSC\r\n").unwrap();
    assert_eq!(parsed.elf_path, "a");
    assert_eq!(parsed.version, "1");
}

#[test]
fn later_line_overrides_earlier() {
    let parsed = SystemCnf::parse("BOOT2 = X;1\r\nVER = 1\r\nVER = 2\r\nVMODE = NTSC\r\nVMODE = PAL\r\n").unwrap();
    assert_eq!(parsed.version, "2");
    assert_eq!(parsed.video_mode, VideoMode::Pal);
}

#[test]
fn encode_writes_fixed_order() {
    let rec = SystemCnf {
        elf_path: "cdrom0:\\A.ELF".to_string(),
        version: "1.01".to_string(),
        video_mode: VideoMode::Pal,
        hdd_unit_power: Some("X".to_string()),
    };
    assert_eq!(
        rec.to_string(),
        "BOOT2 = cdrom0:\\A.ELF;1\r\nVER = 1.01\r\nVMODE = PAL\r\nHDDUNITPOWER = X\r\n"
    );
}

#[test]
fn video_mode_parse_through_str() {
    assert_eq!("PAL".parse::<VideoMode>(), Ok(VideoMode::Pal));
    assert_eq!(" NTSC\r".parse::<VideoMode>(), Ok(VideoMode::Ntsc));
    assert_eq!("SECAM".parse::<VideoMode>(), Err(Error::UnknownVideoMode));
    assert_eq!(VideoMode::from_str(" PAL "), Ok(VideoMode::Pal));
    assert_eq!(VideoMode::from_str("ntsc"), Err(Error::UnknownVideoMode));
}

#[test]
fn error_names() {
    assert_eq!(Error::MalformedFile.as_str(), "MalformedFile");
    assert_eq!(Error::MissingField.as_str(), "MissingField");
    assert_eq!(Error::UnknownVideoMode.as_str(), "UnknownVideoMode");
    assert_eq!(Error::MissingField.as_str(), format!("{:?}", Error::MissingField));
}
