use instant_netboot::addr::IpAddress;
use instant_netboot::netboot::{
    is_pxe_config_path, listed_files, make_ip_option, make_nfs_configuration,
    make_nfsroot_option, Error, GetAction, NetbootServer, NfsConfiguration, NfsVersion,
    TargetIpConfiguration,
};
use instant_netboot::syslinux::{Kernel, Label, LabelDirective};

fn sample_label() -> Label {
    Label {
        name: "F".to_string(),
        kernel: Kernel::Kernel("vmlinuz".into()),
        directives: vec![
            LabelDirective::Fdt("board.dtb".into()),
            LabelDirective::Append(vec!["quiet".to_string()]),
        ],
    }
}

fn sample_nfs() -> NfsConfiguration {
    NfsConfiguration {
        host: IpAddress::V4(10, 0, 0, 1),
        share: "/export".to_string(),
        version: NfsVersion::NFSv3,
        target_ip: TargetIpConfiguration::Dhcp,
        is_writable: false,
    }
}

#[test]
fn mac_path_is_a_configuration_request() {
    assert_eq!(is_pxe_config_path("pxelinux.cfg/01-aa-bb-cc-dd-ee-ff"), Ok(true));
}

#[test]
fn hex_ip_path_is_a_configuration_request() {
    assert_eq!(is_pxe_config_path("pxelinux.cfg/C0A802BA"), Ok(true));
}

#[test]
fn uuid_path_is_a_configuration_request() {
    assert_eq!(
        is_pxe_config_path("pxelinux.cfg/6ba7b810-9dad-11d1-80b4-00c04fd430c8"),
        Ok(true)
    );
}

#[test]
fn unrecognized_identifier_is_an_invalid_path() {
    assert_eq!(
        is_pxe_config_path("pxelinux.cfg/not-a-valid-id"),
        Err(Error::InvalidRequestPath)
    );
}

#[test]
fn plain_file_path_is_a_file_request() {
    assert_eq!(is_pxe_config_path("vmlinuz"), Ok(false));
}

#[test]
fn identifier_case_matters() {
    // lower-case hex IPs and upper-case MAC octets match no pattern
    assert_eq!(
        is_pxe_config_path("pxelinux.cfg/c0a802ba"),
        Err(Error::InvalidRequestPath)
    );
    assert_eq!(
        is_pxe_config_path("pxelinux.cfg/01-AA-bb-cc-dd-ee-ff"),
        Err(Error::InvalidRequestPath)
    );
}

#[test]
fn nfs_merge_extends_the_existing_append() {
    let augmented = make_nfs_configuration(sample_label(), &sample_nfs());
    assert_eq!(
        augmented,
        Label {
            name: "F".to_string(),
            kernel: Kernel::Kernel("vmlinuz".into()),
            directives: vec![
                LabelDirective::Fdt("board.dtb".into()),
                LabelDirective::Append(
                    vec![
                        "quiet",
                        "root=/dev/nfs",
                        "ro",
                        "nfsroot=10.0.0.1:/export,vers=3,tcp",
                        "rootwait",
                        "ip=dhcp",
                    ]
                    .into_iter()
                    .map(|s| s.to_string())
                    .collect()
                ),
            ],
        }
    );
}

#[test]
fn nfs_merge_adds_an_append_where_none_exists() {
    let label = Label {
        name: "F".to_string(),
        kernel: Kernel::Kernel("vmlinuz".into()),
        directives: vec![],
    };
    let mut nfs = sample_nfs();
    nfs.is_writable = true;
    nfs.version = NfsVersion::NFSv4;
    let augmented = make_nfs_configuration(label, &nfs);
    assert_eq!(
        augmented.directives,
        vec![LabelDirective::Append(
            vec![
                "root=/dev/nfs",
                "rw",
                "nfsroot=10.0.0.1:/export,vers=4,tcp",
                "rootwait",
                "ip=dhcp",
            ]
            .into_iter()
            .map(|s| s.to_string())
            .collect()
        )]
    );
}

#[test]
fn nfsroot_option_renders_host_share_and_version() {
    assert_eq!(
        make_nfsroot_option(&sample_nfs()),
        "nfsroot=10.0.0.1:/export,vers=3,tcp"
    );
}

#[test]
fn ip_option_renders_dhcp() {
    assert_eq!(make_ip_option(&TargetIpConfiguration::Dhcp), "ip=dhcp");
}

#[test]
fn ipv4_addresses_render_dotted_decimal() {
    assert_eq!(IpAddress::V4(10, 0, 0, 1).to_text(), "10.0.0.1");
    assert_eq!(IpAddress::V4(192, 168, 2, 186).to_text(), "192.168.2.186");
    assert_eq!(IpAddress::V4(0, 255, 7, 77).to_text(), "0.255.7.77");
}

#[test]
fn ipv6_addresses_render_eight_groups() {
    assert_eq!(
        IpAddress::V6(0xfe80, 0, 0, 0, 0x1234, 0xabc, 0xf, 1).to_text(),
        "fe80:0:0:0:1234:abc:f:1"
    );
}

#[test]
fn listed_files_holds_directive_files_then_the_kernel() {
    let files = listed_files(&sample_label());
    assert_eq!(files, vec!["board.dtb".to_string(), "vmlinuz".to_string()]);
}

#[test]
fn requesting_the_kernel_path_serves_it() {
    let server = NetbootServer::new(sample_label());
    match server.tftp_get("vmlinuz") {
        Ok(GetAction::ServeFile(p)) => assert_eq!(p, "vmlinuz"),
        other => panic!("expected the kernel file, got {:?}", other),
    }
}

#[test]
fn requesting_an_unlisted_path_is_file_not_found() {
    let server = NetbootServer::new(sample_label());
    match server.tftp_get("initrd.img") {
        Err(Error::FileNotFound) => {}
        other => panic!("expected FileNotFound, got {:?}", other),
    }
}

#[test]
fn configuration_request_serializes_the_base_label() {
    let server = NetbootServer::new(sample_label());
    match server.tftp_get("pxelinux.cfg/C0A802BA") {
        Ok(GetAction::SendConfiguration(text)) => assert_eq!(
            text,
            "LABEL F\nKERNEL vmlinuz\nFDT board.dtb\nAPPEND quiet\n"
        ),
        other => panic!("expected a configuration, got {:?}", other),
    }
}

#[test]
fn configuration_request_with_nfs_serializes_the_augmented_label() {
    let server = NetbootServer::with_nfs(sample_label(), sample_nfs());
    match server.tftp_get("pxelinux.cfg/01-aa-bb-cc-dd-ee-ff") {
        Ok(GetAction::SendConfiguration(text)) => assert_eq!(
            text,
            "LABEL F\nKERNEL vmlinuz\nFDT board.dtb\nAPPEND quiet root=/dev/nfs ro nfsroot=10.0.0.1:/export,vers=3,tcp rootwait ip=dhcp\n"
        ),
        other => panic!("expected a configuration, got {:?}", other),
    }
}

#[test]
fn invalid_path_is_reported_as_such() {
    let server = NetbootServer::new(sample_label());
    match server.tftp_get("pxelinux.cfg/not-a-valid-id") {
        Err(Error::InvalidRequestPath) => {}
        other => panic!("expected InvalidRequestPath, got {:?}", other),
    }
}

#[test]
fn the_bare_configuration_directory_is_an_invalid_path() {
    assert_eq!(
        is_pxe_config_path("pxelinux.cfg"),
        Err(Error::InvalidRequestPath)
    );
    assert_eq!(
        is_pxe_config_path("pxelinux.cfg/"),
        Err(Error::InvalidRequestPath)
    );
}

#[test]
fn a_path_that_only_resembles_the_prefix_is_a_file_request() {
    assert_eq!(is_pxe_config_path("pxelinux.cfgx/C0A802BA"), Ok(false));
    assert_eq!(is_pxe_config_path("pxelinux.cf"), Ok(false));
}

#[test]
fn hex_ip_identifiers_have_at_most_eight_digits() {
    assert_eq!(is_pxe_config_path("pxelinux.cfg/C0A802BA1"), Err(Error::InvalidRequestPath));
    assert_eq!(is_pxe_config_path("pxelinux.cfg/C"), Ok(true));
}
