use instant_netboot::syslinux::{
    ConfigurationConversionError, Kernel, Label, LabelDirective,
};
use instant_netboot::uapi;

#[test]
fn valid_syslinux_from_uapi() {
    let configuration = uapi::BootEntry {
        keys: vec![
            uapi::EntryKey::Title("Fedora 19 (Rawhide)".to_string()),
            uapi::EntryKey::Linux("/Image".into()),
        ],
    };

    let result: Label = Label::try_from(configuration).unwrap();
    assert_eq!(
        result,
        Label {
            name: "Fedora 19 (Rawhide)".to_string(),
            kernel: Kernel::Kernel("/Image".into()),
            directives: vec![],
        }
    );
}

#[test]
fn conversion_without_linux_fails() {
    let entry = uapi::BootEntry {
        keys: vec![uapi::EntryKey::Title("F".to_string())],
    };
    assert_eq!(Label::try_from(entry), Err(ConfigurationConversionError));
}

#[test]
fn conversion_without_title_fails() {
    let entry = uapi::BootEntry {
        keys: vec![uapi::EntryKey::Linux("/Image".into())],
    };
    assert_eq!(Label::try_from(entry), Err(ConfigurationConversionError));
}

#[test]
fn conversion_maps_and_drops_keys() {
    let entry = uapi::BootEntry {
        keys: vec![
            uapi::EntryKey::Title("F".to_string()),
            uapi::EntryKey::Linux("/Image".into()),
            uapi::EntryKey::Devicetree("/boot.dtb".into()),
            uapi::EntryKey::Options(vec!["quiet".to_string()]),
        ],
    };
    assert_eq!(
        Label::try_from(entry),
        Ok(Label {
            name: "F".to_string(),
            kernel: Kernel::Kernel("/Image".into()),
            directives: vec![
                LabelDirective::Fdt("/boot.dtb".into()),
                LabelDirective::Append(vec!["quiet".to_string()]),
            ],
        })
    );
}

#[test]
fn conversion_keeps_the_last_title_and_kernel() {
    let entry = uapi::BootEntry {
        keys: vec![
            uapi::EntryKey::Title("first".to_string()),
            uapi::EntryKey::Linux("/one".into()),
            uapi::EntryKey::Title("second".to_string()),
            uapi::EntryKey::Linux("/two".into()),
        ],
    };
    assert_eq!(
        Label::try_from(entry),
        Ok(Label {
            name: "second".to_string(),
            kernel: Kernel::Kernel("/two".into()),
            directives: vec![],
        })
    );
}

#[test]
fn directive_from_key() {
    assert_eq!(
        LabelDirective::try_from(uapi::EntryKey::Devicetree("/boot.dtb".into())),
        Ok(LabelDirective::Fdt("/boot.dtb".into()))
    );
    assert_eq!(
        LabelDirective::try_from(uapi::EntryKey::Options(vec!["a".to_string()])),
        Ok(LabelDirective::Append(vec!["a".to_string()]))
    );
    assert_eq!(
        LabelDirective::try_from(uapi::EntryKey::Title("F".to_string())),
        Err(ConfigurationConversionError)
    );
    assert_eq!(
        LabelDirective::try_from(uapi::EntryKey::Linux("/Image".into())),
        Err(ConfigurationConversionError)
    );
}

#[test]
fn label_serialization_is_canonical() {
    let label = Label {
        name: "F".to_string(),
        kernel: Kernel::Kernel("/Image".into()),
        directives: vec![
            LabelDirective::Initrd("/initrd".into()),
            LabelDirective::Fdt("/boot.dtb".into()),
            LabelDirective::Append(vec!["ro".to_string(), "quiet".to_string()]),
        ],
    };
    assert_eq!(
        label.to_text(),
        "LABEL F\nKERNEL /Image\nINITRD /initrd\nFDT /boot.dtb\nAPPEND ro quiet\n"
    );
}
