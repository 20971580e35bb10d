use hive::paths::RootKey;
use hive::reg_export::{value_entry, ExportWalk};
use hive::reg_import::{parse_reg_file, reg_import_panics, scan_reg_file, ImportOp};
use hive::values::{RegValue, RegistryValue};

fn entry(name: &str, data: RegValue) -> Option<String> {
    value_entry(&RegistryValue { name: name.to_string(), data })
}

/// The export line as the editor wrote it with std's formatting.
fn reference_utf16_hex(units: Vec<u16>) -> String {
    units
        .iter()
        .flat_map(|c| {
            let b = c.to_le_bytes();
            vec![format!("{:02x}", b[0]), format!("{:02x}", b[1])]
        })
        .collect::<Vec<_>>()
        .join(",")
}

#[test]
fn value_lines() {
    assert_eq!(entry("", RegValue::String("x".into())).unwrap(), "@=\"x\"\r\n");
    assert_eq!(
        entry("a\"b\\c", RegValue::String("q\"\\".into())).unwrap(),
        "\"a\\\"b\\\\c\"=\"q\\\"\\\\\"\r\n"
    );
    assert_eq!(entry("n", RegValue::Dword(42)).unwrap(), "\"n\"=dword:0000002a\r\n");
    assert_eq!(
        entry("n", RegValue::Qword(0x0102030405060708)).unwrap(),
        "\"n\"=hex(b):08,07,06,05,04,03,02,01\r\n"
    );
    assert_eq!(entry("n", RegValue::Binary(vec![0xab, 0x01])).unwrap(), "\"n\"=hex:ab,01\r\n");
    assert_eq!(entry("n", RegValue::Binary(vec![])).unwrap(), "\"n\"=hex:\r\n");
    assert!(entry("n", RegValue::Other(0, vec![])).is_none());
}

#[test]
fn utf16_values_match_std() {
    for s in ["", "A", "%PATH%", "é", "\u{1F600}x"] {
        let units: Vec<u16> = s.encode_utf16().chain(std::iter::once(0)).collect();
        let want = format!("\"v\"=hex(2):{}\r\n", reference_utf16_hex(units));
        assert_eq!(entry("v", RegValue::ExpandString(s.into())).unwrap(), want);
    }
    let strings = vec!["ab".to_string(), "\u{10437}".to_string()];
    let units: Vec<u16> = strings
        .iter()
        .flat_map(|s| s.encode_utf16().chain(std::iter::once(0)))
        .chain(std::iter::once(0))
        .collect();
    let want = format!("\"m\"=hex(7):{}\r\n", reference_utf16_hex(units));
    assert_eq!(entry("m", RegValue::MultiString(strings)).unwrap(), want);
    assert_eq!(entry("m", RegValue::MultiString(vec![])).unwrap(), "\"m\"=hex(7):00,00\r\n");
}

#[test]
fn export_walk_visits_each_key_once() {
    let mut w = ExportWalk::new(RootKey::CurrentUser, "Software");
    let first = w.next_key().unwrap();
    assert_eq!(first, "Software");
    let values = vec![RegistryValue { name: "v".into(), data: RegValue::Dword(1) }];
    // A listing that names a subkey twice.
    w.add_key(
        &first,
        Some(&values),
        &vec!["A".to_string(), "B".to_string(), "B".to_string()],
    );
    let b = w.next_key().unwrap();
    assert_eq!(b, "Software\\B");
    w.add_key(&b, None, &vec![]);
    // The path that was already written is passed over.
    let a = w.next_key().unwrap();
    assert_eq!(a, "Software\\A");
    w.add_key(&a, Some(&vec![]), &vec![]);
    assert!(w.next_key().is_none());
    assert_eq!(
        w.content,
        "Windows Registry Editor Version 5.00\r\n\r\n\
         [HKEY_CURRENT_USER\\Software]\r\n\"v\"=dword:00000001\r\n\r\n\
         [HKEY_CURRENT_USER\\Software\\B]\r\n\r\n\
         [HKEY_CURRENT_USER\\Software\\A]\r\n\r\n"
    );
}

fn describe(ops: &[ImportOp]) -> Vec<String> {
    ops.iter()
        .map(|o| match o {
            ImportOp::CreateKey { root, path } => format!("create {}\\{}", root.name(), path),
            ImportOp::SetValue { root, path, name, value } => {
                let v = match value {
                    RegValue::String(s) => format!("sz:{}", s),
                    RegValue::Dword(d) => format!("dword:{}", d),
                    _ => "other".to_string(),
                };
                format!("set {}\\{} [{}] {}", root.name(), path, name, v)
            }
        })
        .collect()
}

#[test]
fn import_reads_keys_strings_and_dwords() {
    let text = "Windows Registry Editor Version 5.00\r\n\r\n\
                ; comment\r\n\
                \"ignored\"=\"before any key\"\r\n\
                [HKEY_CURRENT_USER\\Software\\Test]\r\n\
                @=\"default\"\r\n\
                \"Quoted \\\"name\\\"\"=\"C:\\\\dir\"\r\n\
                \"n\"=dword:0000002a\r\n\
                \"bad\"=dword:xyz\r\n\
                \"bin\"=hex:01,02\r\n\
                noequals\r\n\
                [Nowhere\\Key]\r\n\
                \"still\"=\"in Test\"\r\n\
                [HKLM]\r\n\
                \"x\"=\"y\"\r\n";
    assert!(!reg_import_panics(text));
    let ops = parse_reg_file(text);
    assert_eq!(
        describe(&ops),
        vec![
            "create HKEY_CURRENT_USER\\Software\\Test",
            "set HKEY_CURRENT_USER\\Software\\Test [] sz:default",
            "set HKEY_CURRENT_USER\\Software\\Test [Quoted \"name\"] sz:C:\\dir",
            "set HKEY_CURRENT_USER\\Software\\Test [n] dword:42",
            "set HKEY_CURRENT_USER\\Software\\Test [still] sz:in Test",
            "set HKEY_LOCAL_MACHINE\\ [x] sz:y",
        ]
    );
}

#[test]
fn import_lines_that_cannot_be_read() {
    assert!(reg_import_panics("[HKCU\\A]\n@=\"\n"));
    assert!(reg_import_panics("[HKCU\\A]\n\"=x\n"));
    assert!(reg_import_panics("[HKCU\\A]\n@=\"caf\u{e9}\n"));
    assert!(!reg_import_panics("@=\"\n"));
    assert!(!reg_import_panics("[HKCU\\A]\n@=\"caf\u{e9}\"\n"));
    let (ops, bad) = scan_reg_file("[HKCU\\A]\n\"=x\n");
    assert!(bad);
    assert_eq!(ops.len(), 1);
}

#[test]
fn export_then_import_round_trip() {
    let values = vec![
        RegistryValue { name: "s".into(), data: RegValue::String("a \"quoted\" \\ path".into()) },
        RegistryValue { name: "".into(), data: RegValue::String("default".into()) },
        RegistryValue { name: "d".into(), data: RegValue::Dword(0xdeadbeef) },
    ];
    let mut w = ExportWalk::new(RootKey::LocalMachine, "Soft\\Ware");
    let k = w.next_key().unwrap();
    w.add_key(&k, Some(&values), &vec![]);
    let ops = parse_reg_file(&w.content);
    assert_eq!(
        describe(&ops),
        vec![
            "create HKEY_LOCAL_MACHINE\\Soft\\Ware",
            "set HKEY_LOCAL_MACHINE\\Soft\\Ware [s] sz:a \"quoted\" \\ path",
            "set HKEY_LOCAL_MACHINE\\Soft\\Ware [] sz:default",
            "set HKEY_LOCAL_MACHINE\\Soft\\Ware [d] dword:3735928559",
        ]
    );
}

#[test]
fn import_stops_at_an_unreadable_line() {
    let text = "[HKCU\\A]\r\n@=\"a\"\r\n\"=x\r\n@=\"b\"\r\n[HKCU\\B]\r\n";
    let (ops, bad) = scan_reg_file(text);
    assert!(bad);
    assert_eq!(
        describe(&ops),
        vec!["create HKEY_CURRENT_USER\\A", "set HKEY_CURRENT_USER\\A [] sz:a"]
    );
    assert!(reg_import_panics(text));
    assert_eq!(describe(&parse_reg_file(text)), describe(&ops));
}

#[test]
fn whole_export_round_trip() {
    let root_values = vec![
        RegistryValue { name: "top".into(), data: RegValue::Dword(7) },
        RegistryValue { name: "bin".into(), data: RegValue::Binary(vec![1, 2, 255]) },
    ];
    let child_values = vec![
        RegistryValue { name: "e".into(), data: RegValue::ExpandString("%PATH%".into()) },
        RegistryValue { name: "q".into(), data: RegValue::Qword(1 << 40) },
        RegistryValue { name: "m".into(), data: RegValue::MultiString(vec!["x".into(), "y".into()]) },
        RegistryValue { name: "o".into(), data: RegValue::Other(99, vec![1]) },
        RegistryValue { name: "s".into(), data: RegValue::String("[not a key]".into()) },
        RegistryValue { name: "".into(), data: RegValue::Binary(vec![]) },
    ];
    let mut w = ExportWalk::new(RootKey::CurrentUser, "");
    let r = w.next_key().unwrap();
    assert_eq!(r, "");
    w.add_key(&r, Some(&root_values), &vec!["Console".to_string(), "Env".to_string()]);
    let env = w.next_key().unwrap();
    assert_eq!(env, "Env");
    w.add_key(&env, Some(&child_values), &vec!["Deep".to_string()]);
    let deep = w.next_key().unwrap();
    assert_eq!(deep, "Env\\Deep");
    w.add_key(&deep, None, &vec![]);
    let console = w.next_key().unwrap();
    assert_eq!(console, "Console");
    w.add_key(&console, Some(&vec![]), &vec![]);
    assert!(w.next_key().is_none());
    assert!(!reg_import_panics(&w.content));
    assert_eq!(
        describe(&parse_reg_file(&w.content)),
        vec![
            "set HKEY_CURRENT_USER\\ [top] dword:7",
            "create HKEY_CURRENT_USER\\Env",
            "set HKEY_CURRENT_USER\\Env [s] sz:[not a key]",
            "create HKEY_CURRENT_USER\\Env\\Deep",
            "create HKEY_CURRENT_USER\\Console",
        ]
    );
}
