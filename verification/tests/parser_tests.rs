use instant_netboot::parser::{boot_entry, entry_key, is_line_ending};
use instant_netboot::uapi::{BootEntry, EntryKey};

fn complete_test() -> Vec<String> {
    vec![
        "title Fedora 19 (Rawhide)".to_string(),
        "linux /Image".to_string(),
        "devicetree /boot.dtb".to_string(),
        "options root=UUID=6d3376e4-fc93-4509-95ec-a21d68011da2 quiet".to_string(),
    ]
}

fn complete_result() -> BootEntry {
    BootEntry {
        keys: vec![
            EntryKey::Title("Fedora 19 (Rawhide)".into()),
            EntryKey::Linux("/Image".into()),
            EntryKey::Devicetree("/boot.dtb".into()),
            EntryKey::Options(
                vec!["root=UUID=6d3376e4-fc93-4509-95ec-a21d68011da2", "quiet"]
                    .into_iter()
                    .map(|s| s.to_string())
                    .collect(),
            ),
        ],
    }
}

#[test]
fn linux_entry() {
    let (_, entry) = entry_key("linux /Image").unwrap();
    assert_eq!(entry, EntryKey::Linux("/Image".into()));
}

#[test]
fn devicetree_entry() {
    let (_, entry) = entry_key("devicetree /boot.dtb").unwrap();
    assert_eq!(entry, EntryKey::Devicetree("/boot.dtb".into()));
}

#[test]
fn options_entry() {
    let (_, entry) =
        entry_key("options root=UUID=6d3376e4-fc93-4509-95ec-a21d68011da2 quiet").unwrap();
    assert_eq!(
        entry,
        EntryKey::Options(
            vec!["root=UUID=6d3376e4-fc93-4509-95ec-a21d68011da2", "quiet"]
                .into_iter()
                .map(|s| s.to_string())
                .collect()
        )
    );
}

#[test]
fn title_entry() {
    let (_, entry) = entry_key("title Fedora 19 (Rawhide)").unwrap();
    assert_eq!(entry, EntryKey::Title("Fedora 19 (Rawhide)".to_string()));
}

#[test]
fn single_erroneous_entry() {
    let (input, entry) = boot_entry("foo /bar\n");
    assert_eq!(input, "foo /bar\n");
    assert_eq!(entry, BootEntry { keys: Vec::new() });
}

#[test]
fn single_line_entry_no_newline() {
    let (_, entry) = boot_entry("linux /Image");
    assert_eq!(
        entry,
        BootEntry {
            keys: vec![EntryKey::Linux("/Image".into())]
        }
    );
}

#[test]
fn single_line_entry_with_newline() {
    let (_, entry) = boot_entry("linux /Image\n");
    assert_eq!(
        entry,
        BootEntry {
            keys: vec![EntryKey::Linux("/Image".into())]
        },
    );
}

#[test]
fn multiple_newlines() {
    let (_, entry) = boot_entry("linux /Image\n\ndevicetree /boot.dtb\n");
    assert_eq!(
        entry,
        BootEntry {
            keys: vec![
                EntryKey::Linux("/Image".into()),
                EntryKey::Devicetree("/boot.dtb".into()),
            ],
        },
    );
}

#[test]
fn multiple_crlf_newlines() {
    let (_, entry) = boot_entry("linux /Image\r\n\r\ndevicetree /boot.dtb\r\n");
    assert_eq!(
        entry,
        BootEntry {
            keys: vec![
                EntryKey::Linux("/Image".into()),
                EntryKey::Devicetree("/boot.dtb".into()),
            ],
        },
    );
}

#[test]
fn two_line_entry() {
    let (_, entry) = boot_entry("linux /Image\ndevicetree /boot.dtb\n");
    assert_eq!(
        entry,
        BootEntry {
            keys: vec![
                EntryKey::Linux("/Image".into()),
                EntryKey::Devicetree("/boot.dtb".into()),
            ],
        },
    );
}

#[test]
fn two_line_entry_no_newline() {
    let (_, entry) = boot_entry("linux /Image\ndevicetree /boot.dtb");
    assert_eq!(
        entry,
        BootEntry {
            keys: vec![
                EntryKey::Linux("/Image".into()),
                EntryKey::Devicetree("/boot.dtb".into()),
            ],
        },
    );
}

#[test]
fn two_line_typo() {
    let (rest, entry) = boot_entry("linux /Image\ndevisetree /boot.dtb\n");
    assert_eq!(rest, "devisetree /boot.dtb\n");
    assert_eq!(
        entry,
        BootEntry {
            keys: vec![EntryKey::Linux("/Image".into())]
        }
    );
}

#[test]
fn complete() {
    let (_, entry) = boot_entry(&complete_test().join("\n"));
    assert_eq!(entry, complete_result());
}

#[test]
fn complete_with_crlf() {
    let (_, entry) = boot_entry(&complete_test().join("\r\n"));
    assert_eq!(entry, complete_result());
}

#[test]
fn keyword_case_is_ignored() {
    let (_, upper) = entry_key("LINUX /Image").unwrap();
    let (_, lower) = entry_key("linux /Image").unwrap();
    assert_eq!(upper, lower);
    assert_eq!(upper, EntryKey::Linux("/Image".into()));
}

#[test]
fn mixed_case_keywords_parse() {
    let (_, entry) = boot_entry("TiTlE boot\nLINUX /Image\n");
    assert_eq!(
        entry,
        BootEntry {
            keys: vec![
                EntryKey::Title("boot".into()),
                EntryKey::Linux("/Image".into()),
            ],
        }
    );
}

#[test]
fn line_ending_classification() {
    assert!(is_line_ending('\n'));
    assert!(is_line_ending('\r'));
    assert!(!is_line_ending(' '));
    assert!(!is_line_ending('x'));
}

#[test]
fn entry_key_rejects_unknown_keyword() {
    assert!(entry_key("foo /bar").is_none());
}

#[test]
fn keyword_without_argument_is_rejected() {
    assert!(entry_key("linux").is_none());
    assert!(entry_key("linux\n").is_none());
    assert!(entry_key("options").is_none());
}

#[test]
fn repeated_blanks_separate_like_one() {
    let (_, entry) = entry_key("linux  \t/Image").unwrap();
    assert_eq!(entry, EntryKey::Linux("/Image".into()));
    let (_, entry) = entry_key("options a  b").unwrap();
    assert_eq!(
        entry,
        EntryKey::Options(vec!["a".to_string(), "b".to_string()])
    );
}

#[test]
fn a_trailing_blank_yields_a_trailing_empty_token() {
    let (rest, entry) = entry_key("options a ").unwrap();
    assert_eq!(rest, "");
    assert_eq!(
        entry,
        EntryKey::Options(vec!["a".to_string(), String::new()])
    );
    // and such an entry still round-trips
    let text = entry.to_text();
    assert_eq!(text, "options a ");
    let (_, again) = entry_key(&text).unwrap();
    assert_eq!(again, entry);
}

#[test]
fn arguments_keep_embedded_and_trailing_spaces() {
    let (_, entry) = entry_key("title a b  c ").unwrap();
    assert_eq!(entry, EntryKey::Title("a b  c ".to_string()));
}
