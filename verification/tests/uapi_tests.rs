use instant_netboot::uapi::{deserialize, BootEntry, EntryKey};
use instant_netboot::Error;

#[test]
fn boot_entry_with_trailing_junk() {
    let result = BootEntry::from_str("linux /Image\ndevisetree");
    assert!(result.is_err());
}

#[test]
fn trailing_junk_is_reported_verbatim() {
    let result = BootEntry::from_str("linux /Image\ndevisetree /boot.dtb\n");
    assert_eq!(
        result,
        Err(Error::ErroneousEntry(
            "trailing garbage: \"devisetree /boot.dtb\n\"".to_string()
        ))
    );
}

#[test]
fn deserialize_reads_a_complete_entry() {
    let entry = deserialize("title Fedora\nlinux /Image\noptions quiet\n").unwrap();
    assert_eq!(
        entry,
        BootEntry {
            keys: vec![
                EntryKey::Title("Fedora".into()),
                EntryKey::Linux("/Image".into()),
                EntryKey::Options(vec!["quiet".to_string()]),
            ],
        }
    );
}

#[test]
fn deserialize_of_empty_text_is_the_empty_entry() {
    assert_eq!(deserialize(""), Ok(BootEntry { keys: vec![] }));
}

#[test]
fn entry_key_from_str_rejects_trailing_text() {
    let result = EntryKey::from_str("linux /Image\nmore");
    assert_eq!(
        result,
        Err(Error::ErroneousEntry(
            "trailing garbage: \"\nmore\"".to_string()
        ))
    );
}

#[test]
fn entry_key_from_str_reads_one_key() {
    let key = EntryKey::from_str("devicetree /boot.dtb").unwrap();
    assert_eq!(key, EntryKey::Devicetree("/boot.dtb".into()));
}

#[test]
fn entry_key_from_str_reports_unparsable_input() {
    let result = EntryKey::from_str("frob /x");
    assert_eq!(result, Err(Error::ErroneousEntry("frob /x".to_string())));
}

#[test]
fn serialization_is_canonical() {
    let entry = BootEntry {
        keys: vec![
            EntryKey::Title("Fedora 19 (Rawhide)".into()),
            EntryKey::Linux("/Image".into()),
            EntryKey::Devicetree("/boot.dtb".into()),
            EntryKey::Options(vec!["ro".to_string(), "quiet".to_string()]),
        ],
    };
    assert_eq!(
        entry.to_text(),
        "title Fedora 19 (Rawhide)\nlinux /Image\ndevicetree /boot.dtb\noptions ro quiet\n"
    );
}

#[test]
fn keywords_are_emitted_lower_case() {
    let (_, entry) = instant_netboot::parser::boot_entry("LINUX /Image\n");
    assert_eq!(entry.to_text(), "linux /Image\n");
}

#[test]
fn round_trip_of_a_parsed_entry() {
    let text = "title Fedora 19 (Rawhide)\nlinux /Image\ndevicetree /boot.dtb\noptions root=UUID=6d3376e4-fc93-4509-95ec-a21d68011da2 quiet\n";
    let entry = deserialize(text).unwrap();
    let reparsed = deserialize(&entry.to_text()).unwrap();
    assert_eq!(reparsed, entry);
}

#[test]
fn round_trip_normalizes_crlf_to_lf() {
    let entry = deserialize("linux /Image\r\ntitle x\r\n").unwrap();
    let text = entry.to_text();
    assert_eq!(text, "linux /Image\ntitle x\n");
    assert_eq!(deserialize(&text).unwrap(), entry);
}
