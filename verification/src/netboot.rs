//! The netboot server: classifying request paths, augmenting the base
//! label with NFS-root parameters, and routing each request to a
//! synthesized configuration or a served file.

use vstd::prelude::*;

use crate::addr::{ip_text, IpAddress};
use crate::parser;
use crate::syslinux::{label_text, Label, LabelDirective, LabelDirectiveView, LabelView};

verus! {

/// The NFS version to configure the target for.
#[derive(Clone, Copy, Debug, PartialEq, Eq, Structural)]
pub enum NfsVersion {
    NFSv3,
    NFSv4,
}

/// The IP configuration for the target.  The `Static` variant is
/// declared but carries no fields yet: rendering it is an unimplemented,
/// fatal condition, and the functions that render IP options exclude it.
#[derive(Clone, Copy, Debug, PartialEq, Eq, Structural)]
pub enum TargetIpConfiguration {
    Dhcp,
    Static {},
}

/// NFS configuration for the netboot server.
#[derive(Debug)]
pub struct NfsConfiguration {
    /// The NFS host.
    pub host: IpAddress,
    /// The NFS share to mount.
    pub share: String,
    /// The NFS version to use.
    pub version: NfsVersion,
    /// IP configuration for the target.
    pub target_ip: TargetIpConfiguration,
    /// Whether the share should be mounted writable or not.
    pub is_writable: bool,
}

/// The mathematical model of an [`NfsConfiguration`].
pub struct NfsConfigurationView {
    pub host: IpAddress,
    pub share: Seq<char>,
    pub version: NfsVersion,
    pub target_ip: TargetIpConfiguration,
    pub is_writable: bool,
}

impl View for NfsConfiguration {
    type V = NfsConfigurationView;

    open spec fn view(&self) -> NfsConfigurationView {
        NfsConfigurationView {
            host: self.host,
            share: self.share@,
            version: self.version,
            target_ip: self.target_ip,
            is_writable: self.is_writable,
        }
    }
}

/// The per-request errors the server reports to its transport.
#[derive(Clone, Copy, Debug, PartialEq, Eq, Structural)]
pub enum Error {
    /// The request path matches no accepted shape.
    InvalidRequestPath,
    /// No listed boot file carries the requested path.
    FileNotFound,
    /// Opening or reading a served file failed.
    IoError,
}

// ------------------------------------------------------------------
// Request classification
// ------------------------------------------------------------------

/// A lower-case hexadecimal digit.
pub open spec fn spec_lower_hex(c: char) -> bool {
    ('0' as u32 <= c as u32 && c as u32 <= '9' as u32) || ('a' as u32 <= c as u32 && c as u32
        <= 'f' as u32)
}

/// An upper-case hexadecimal digit.
pub open spec fn spec_upper_hex(c: char) -> bool {
    ('0' as u32 <= c as u32 && c as u32 <= '9' as u32) || ('A' as u32 <= c as u32 && c as u32
        <= 'F' as u32)
}

/// What a canonical UUID holds at position `i`: hyphens between the five
/// hex groups, lower-case hex digits elsewhere.
pub open spec fn uuid_char_ok(s: Seq<char>, i: int) -> bool {
    if i == 8 || i == 13 || i == 18 || i == 23 {
        s[i] == '-'
    } else {
        spec_lower_hex(s[i])
    }
}

/// A canonical lower-case UUID: five hyphen-separated hex groups of
/// lengths 8, 4, 4, 4 and 12.
pub open spec fn is_uuid(s: Seq<char>) -> bool {
    s.len() == 36 && forall|i: int| 0 <= i < 36 ==> #[trigger] uuid_char_ok(s, i)
}

/// What a hardware-type-prefixed MAC address holds at position `i` (from
/// position 2 on): a hyphen after every two hex digits.
pub open spec fn mac_char_ok(s: Seq<char>, i: int) -> bool {
    if i % 3 == 2 {
        s[i] == '-'
    } else {
        spec_lower_hex(s[i])
    }
}

/// A hyphen-separated MAC address prefixed by `01`, the hardware type of
/// Ethernet: `01` and six two-digit lower-case hex octets.
pub open spec fn is_mac(s: Seq<char>) -> bool {
    s.len() == 20 && s[0] == '0' && s[1] == '1' && forall|i: int|
        2 <= i < 20 ==> #[trigger] mac_char_ok(s, i)
}

/// An IP address encoded as one to eight upper-case hexadecimal digits.
pub open spec fn is_hex_ip(s: Seq<char>) -> bool {
    1 <= s.len() <= 8 && forall|i: int| 0 <= i < s.len() ==> spec_upper_hex(#[trigger] s[i])
}

/// The client identifier of a configuration-request path: what follows
/// the fixed directory prefix, or `None` where the prefix is absent.
pub open spec fn config_remainder(path: Seq<char>) -> Option<Seq<char>> {
    if path == "pxelinux.cfg"@ {
        Some(Seq::empty())
    } else if path.len() >= "pxelinux.cfg/"@.len() && path.subrange(
        0,
        "pxelinux.cfg/"@.len() as int,
    ) == "pxelinux.cfg/"@ {
        Some(path.subrange("pxelinux.cfg/"@.len() as int, path.len() as int))
    } else {
        None
    }
}

/// One of the three accepted client-identifier encodings.
pub open spec fn valid_client_id(r: Seq<char>) -> bool {
    is_uuid(r) || is_mac(r) || is_hex_ip(r)
}

/// The path asks for a synthesized configuration.
pub open spec fn spec_is_config_request(path: Seq<char>) -> bool {
    config_remainder(path) matches Some(r) && valid_client_id(r)
}

fn is_lower_hex(c: char) -> (r: bool)
    ensures
        r == spec_lower_hex(c),
{
    let u = c as u32;
    (0x30 <= u && u <= 0x39) || (0x61 <= u && u <= 0x66)
}

fn is_upper_hex(c: char) -> (r: bool)
    ensures
        r == spec_upper_hex(c),
{
    let u = c as u32;
    (0x30 <= u && u <= 0x39) || (0x41 <= u && u <= 0x46)
}

fn check_uuid(cs: &Vec<char>) -> (r: bool)
    ensures
        r == is_uuid(cs@),
{
    if cs.len() != 36 {
        return false;
    }
    let mut i: usize = 0;
    while i < 36
        invariant
            cs.len() == 36,
            i <= 36,
            forall|k: int| 0 <= k < i ==> #[trigger] uuid_char_ok(cs@, k),
        decreases 36 - i,
    {
        let ok = if i == 8 || i == 13 || i == 18 || i == 23 {
            cs[i] == '-'
        } else {
            is_lower_hex(cs[i])
        };
        if !ok {
            proof {
                assert(!uuid_char_ok(cs@, i as int));
            }
            return false;
        }
        i = i + 1;
    }
    true
}

fn check_mac(cs: &Vec<char>) -> (r: bool)
    ensures
        r == is_mac(cs@),
{
    if cs.len() != 20 {
        return false;
    }
    if cs[0] != '0' || cs[1] != '1' {
        return false;
    }
    let mut i: usize = 2;
    while i < 20
        invariant
            cs.len() == 20,
            2 <= i <= 20,
            cs@[0] == '0',
            cs@[1] == '1',
            forall|k: int| 2 <= k < i ==> #[trigger] mac_char_ok(cs@, k),
        decreases 20 - i,
    {
        let ok = if i % 3 == 2 {
            cs[i] == '-'
        } else {
            is_lower_hex(cs[i])
        };
        if !ok {
            proof {
                assert(!mac_char_ok(cs@, i as int));
            }
            return false;
        }
        i = i + 1;
    }
    true
}

fn check_hex_ip(cs: &Vec<char>) -> (r: bool)
    ensures
        r == is_hex_ip(cs@),
{
    if cs.len() < 1 || cs.len() > 8 {
        return false;
    }
    let mut i: usize = 0;
    while i < cs.len()
        invariant
            1 <= cs.len() <= 8,
            i <= cs.len(),
            forall|k: int| 0 <= k < i ==> spec_upper_hex(#[trigger] cs@[k]),
        decreases cs.len() - i,
    {
        if !is_upper_hex(cs[i]) {
            return false;
        }
        i = i + 1;
    }
    true
}

fn has_prefix(cs: &Vec<char>, p: &str) -> (r: bool)
    ensures
        r == (cs@.len() >= p@.len() && cs@.subrange(0, p@.len() as int) == p@),
{
    let m = p.unicode_len();
    if cs.len() < m {
        return false;
    }
    let mut j: usize = 0;
    while j < m
        invariant
            m == p@.len(),
            m <= cs.len(),
            j <= m,
            forall|q: int| 0 <= q < j ==> cs@[q] == p@[q],
        decreases m - j,
    {
        if cs[j] != p.get_char(j) {
            proof {
                assert(cs@.subrange(0, m as int)[j as int] != p@[j as int]);
            }
            return false;
        }
        j = j + 1;
    }
    proof {
        assert(cs@.subrange(0, m as int) =~= p@);
    }
    true
}

fn tail_chars(cs: &Vec<char>, start: usize) -> (r: Vec<char>)
    requires
        start <= cs.len(),
    ensures
        r@ == cs@.subrange(start as int, cs@.len() as int),
{
    let mut r: Vec<char> = Vec::new();
    let mut i = start;
    while i < cs.len()
        invariant
            start <= i <= cs.len(),
            r@ =~= cs@.subrange(start as int, i as int),
        decreases cs.len() - i,
    {
        r.push(cs[i]);
        i = i + 1;
    }
    proof {
        assert(r@ =~= cs@.subrange(start as int, cs@.len() as int));
    }
    r
}

/// Classify a request path.  `Ok(true)`: the path asks for a PXE
/// configuration.  `Ok(false)`: the path does not carry the
/// configuration-directory prefix and may name a served file.
/// `Err(InvalidRequestPath)`: the path carries the prefix but its
/// remainder is none of the three accepted client-identifier encodings.
pub fn is_pxe_config_path(path: &str) -> (r: Result<bool, Error>)
    ensures
        match config_remainder(path@) {
            Some(rem) => if valid_client_id(rem) {
                r == Ok::<bool, Error>(true)
            } else {
                r == Err::<bool, Error>(Error::InvalidRequestPath)
            },
            None => r == Ok::<bool, Error>(false),
        },
{
    proof {
        reveal_strlit("pxelinux.cfg");
        reveal_strlit("pxelinux.cfg/");
    }
    let cs = parser::chars_of(path);
    let with_slash = has_prefix(&cs, "pxelinux.cfg/");
    let exact = cs.len() == 12 && has_prefix(&cs, "pxelinux.cfg");
    if !with_slash && !exact {
        proof {
            if cs.len() == 12 {
                assert(cs@.subrange(0, 12) =~= cs@);
            }
            assert(path@ != "pxelinux.cfg"@);
            assert(config_remainder(path@) is None);
        }
        return Ok(false);
    }
    let rem = if with_slash {
        tail_chars(&cs, 13)
    } else {
        tail_chars(&cs, 12)
    };
    proof {
        if exact && !with_slash {
            assert(path@ =~= "pxelinux.cfg"@);
        }
        assert(config_remainder(path@) == Some(rem@));
    }
    if check_uuid(&rem) || check_mac(&rem) || check_hex_ip(&rem) {
        Ok(true)
    } else {
        Err(Error::InvalidRequestPath)
    }
}

// ------------------------------------------------------------------
// NFS augmentation
// ------------------------------------------------------------------

/// The textual NFS version carried in the `nfsroot=` option.
pub open spec fn version_text(v: NfsVersion) -> Seq<char> {
    match v {
        NfsVersion::NFSv3 => "3"@,
        NfsVersion::NFSv4 => "4"@,
    }
}

/// The `nfsroot=` command-line option: host, share, version, `tcp`.
pub open spec fn nfsroot_text(c: NfsConfigurationView) -> Seq<char> {
    "nfsroot="@ + ip_text(c.host) + ":"@ + c.share + ",vers="@ + version_text(c.version) + ",tcp"@
}

/// The command-line fragments that mount the root filesystem over NFS,
/// in their fixed order.
pub open spec fn nfs_args(c: NfsConfigurationView) -> Seq<Seq<char>> {
    seq![
        "root=/dev/nfs"@,
        if c.is_writable {
            "rw"@
        } else {
            "ro"@
        },
        nfsroot_text(c),
        "rootwait"@,
        "ip=dhcp"@,
    ]
}

/// Render the `nfsroot=` option for this configuration.
pub fn make_nfsroot_option(nfs: &NfsConfiguration) -> (r: String)
    ensures
        r@ == nfsroot_text(nfs@),
{
    let mut s = String::from_str("nfsroot=");
    let host = nfs.host.to_text();
    s.append(host.as_str());
    s.append(":");
    s.append(nfs.share.as_str());
    s.append(",vers=");
    match nfs.version {
        NfsVersion::NFSv3 => s.append("3"),
        NfsVersion::NFSv4 => s.append("4"),
    }
    s.append(",tcp");
    s
}

/// Render the `ip=` option.  The `Static` variant has no field layout to
/// render, so it is excluded: augmenting with it is a fatal condition
/// that the caller must rule out beforehand.
pub fn make_ip_option(config: &TargetIpConfiguration) -> (r: String)
    requires
        !(*config is Static),
    ensures
        r@ == "ip=dhcp"@,
{
    match config {
        TargetIpConfiguration::Dhcp => String::from_str("ip=dhcp"),
        TargetIpConfiguration::Static {  } => vstd::pervasive::unreached(),
    }
}

/// The position of the first `APPEND` directive, or the list's length
/// where none exists.
pub open spec fn first_append_from(ds: Seq<LabelDirectiveView>, i: int) -> int
    decreases ds.len() - i,
{
    if 0 <= i < ds.len() {
        if ds[i] is Append {
            i
        } else {
            first_append_from(ds, i + 1)
        }
    } else {
        i
    }
}

/// The label with the NFS fragments merged in: appended to the first
/// existing `APPEND` directive's tokens, or added as a new last `APPEND`
/// directive where none exists.  The name, the kernel and every other
/// directive stand unchanged.
pub open spec fn augmented(l: LabelView, c: NfsConfigurationView) -> LabelView {
    let args = nfs_args(c);
    let i = first_append_from(l.directives, 0);
    if i < l.directives.len() {
        LabelView {
            name: l.name,
            kernel: l.kernel,
            directives: l.directives.update(
                i,
                LabelDirectiveView::Append(l.directives[i]->Append_0 + args),
            ),
        }
    } else {
        LabelView {
            name: l.name,
            kernel: l.kernel,
            directives: l.directives.push(LabelDirectiveView::Append(args)),
        }
    }
}

fn make_nfs_args(nfs: &NfsConfiguration) -> (r: Vec<String>)
    requires
        !(nfs.target_ip is Static),
    ensures
        r.deep_view() == nfs_args(nfs@),
{
    let mut args: Vec<String> = Vec::new();
    args.push(String::from_str("root=/dev/nfs"));
    if nfs.is_writable {
        args.push(String::from_str("rw"));
    } else {
        args.push(String::from_str("ro"));
    }
    args.push(make_nfsroot_option(nfs));
    args.push(String::from_str("rootwait"));
    args.push(make_ip_option(&nfs.target_ip));
    proof {
        assert(args.deep_view() =~= nfs_args(nfs@));
    }
    args
}

/// Update the configuration with NFS parameters: a pure transform that
/// leaves every other part of the label unchanged.
pub fn make_nfs_configuration(configuration: Label, nfs: &NfsConfiguration) -> (r: Label)
    requires
        !(nfs.target_ip is Static),
    ensures
        r@ == augmented(configuration@, nfs@),
{
    let mut label = configuration;
    let ghost orig = label@;
    let mut args = make_nfs_args(nfs);
    let ghost ds = orig.directives;
    let n = label.directives.len();
    // seek the existing APPEND directive, if it exists
    let mut i: usize = 0;
    let mut found = false;
    while i < n && !found
        invariant
            i <= n,
            n == label.directives.len(),
            label@ == orig,
            ds == orig.directives,
            !found ==> first_append_from(ds, 0) == first_append_from(ds, i as int),
            found ==> i < n && ds[i as int] is Append && first_append_from(ds, 0) == i as int,
        decreases n - i + (if found {
            0int
        } else {
            1int
        }),
    {
        let is_append = match &label.directives[i] {
            LabelDirective::Append(_) => true,
            _ => false,
        };
        if is_append {
            found = true;
        } else {
            proof {
                assert(!(ds[i as int] is Append));
            }
            i = i + 1;
        }
    }
    if found {
        let ghost prefix = ds[i as int]->Append_0;
        let mut merged = match &label.directives[i] {
            LabelDirective::Append(cur) => crate::syslinux::clone_string_vec(cur),
            _ => vstd::pervasive::unreached(),
        };
        proof {
            assert(merged.deep_view() =~= prefix);
        }
        merged.append(&mut args);
        proof {
            assert(merged.deep_view() =~= prefix + nfs_args(nfs@));
        }
        label.directives.set(i, LabelDirective::Append(merged));
        proof {
            assert(label@.directives =~= ds.update(
                i as int,
                LabelDirectiveView::Append(prefix + nfs_args(nfs@)),
            ));
        }
        label
    } else {
        // otherwise, add an APPEND directive
        proof {
            assert(first_append_from(ds, n as int) == n as int);
        }
        label.directives.push(LabelDirective::Append(args));
        proof {
            assert(label@.directives =~= ds.push(LabelDirectiveView::Append(nfs_args(nfs@))));
        }
        label
    }
}

// ------------------------------------------------------------------
// Routing
// ------------------------------------------------------------------

/// The file paths a directive list exposes, in order: `INITRD` and `FDT`
/// paths; `APPEND` directives expose none.
pub open spec fn directive_files(ds: Seq<LabelDirectiveView>) -> Seq<Seq<char>>
    decreases ds.len(),
{
    if ds.len() == 0 {
        Seq::empty()
    } else {
        directive_files(ds.drop_last()) + (match ds.last() {
            LabelDirectiveView::Initrd(p) => seq![p],
            LabelDirectiveView::Fdt(p) => seq![p],
            LabelDirectiveView::Append(_) => Seq::empty(),
        })
    }
}

/// Every file the label references: the file-bearing directives' paths,
/// then the kernel image.
pub open spec fn spec_listed_files(l: LabelView) -> Seq<Seq<char>> {
    directive_files(l.directives) + seq![l.kernel]
}

/// Get the list of files mentioned in this boot entry.
pub fn listed_files(label: &Label) -> (r: Vec<String>)
    ensures
        r.deep_view() == spec_listed_files(label@),
{
    let mut files: Vec<String> = Vec::new();
    let mut i: usize = 0;
    while i < label.directives.len()
        invariant
            i <= label.directives.len(),
            files.deep_view() == directive_files(label@.directives.take(i as int)),
        decreases label.directives.len() - i,
    {
        let ghost prev = files.deep_view();
        proof {
            assert(label@.directives.take(i + 1).drop_last() =~= label@.directives.take(i as int));
            assert(label@.directives.take(i + 1).last() == label@.directives[i as int]);
        }
        match crate::BootFile::boot_file(&label.directives[i]) {
            Some(p) => {
                files.push(p.clone());
            },
            None => {},
        }
        proof {
            assert(files.deep_view() =~= directive_files(label@.directives.take(i + 1)));
        }
        i = i + 1;
    }
    proof {
        assert(label@.directives.take(label.directives.len() as int) =~= label@.directives);
    }
    match &label.kernel {
        crate::syslinux::Kernel::Kernel(image) => {
            let ghost prev = files.deep_view();
            files.push(image.clone());
            proof {
                assert(files.deep_view() =~= prev.push(label@.kernel));
                assert(files.deep_view() =~= spec_listed_files(label@));
            }
        },
    }
    files
}

/// What the router decides for one GET request: send this synthesized
/// configuration text, or have the storage collaborator serve this file.
#[derive(Debug)]
pub enum GetAction {
    SendConfiguration(String),
    ServeFile(String),
}

/// The netboot server: a base label, read-only once built, and the
/// optional NFS parameters that augment it per request.
#[derive(Debug)]
pub struct NetbootServer {
    configuration: Label,
    nfs: Option<NfsConfiguration>,
}

/// The mathematical model of a [`NetbootServer`].
pub struct NetbootServerView {
    pub configuration: LabelView,
    pub nfs: Option<NfsConfigurationView>,
}

impl View for NetbootServer {
    type V = NetbootServerView;

    closed spec fn view(&self) -> NetbootServerView {
        NetbootServerView {
            configuration: self.configuration@,
            nfs: match &self.nfs {
                Some(c) => Some(c@),
                None => None,
            },
        }
    }
}

/// The label a configuration request is answered with: the base label,
/// augmented where NFS parameters are configured.
pub open spec fn served_label(v: NetbootServerView) -> LabelView {
    match v.nfs {
        Some(c) => augmented(v.configuration, c),
        None => v.configuration,
    }
}

impl NetbootServer {
    /// A server for this label, with no NFS parameters.
    pub fn new(configuration: Label) -> (r: Self)
        ensures
            r@.configuration == configuration@,
            r@.nfs is None,
    {
        Self { configuration, nfs: None }
    }

    /// A server for this label that augments it with NFS parameters.
    pub fn with_nfs(configuration: Label, nfs: NfsConfiguration) -> (r: Self)
        ensures
            r@.configuration == configuration@,
            r@.nfs == Some(nfs@),
    {
        Self { configuration, nfs: Some(nfs) }
    }

    /// Route a GET request.  A path matching the PXE configuration
    /// convention is answered with the served label's text (augmented
    /// per request where NFS is configured); a path listed among the
    /// label's boot files is handed to storage; anything else is an
    /// error.  A configured `Static` target IP cannot be rendered, so a
    /// configuration request then falls outside this function's domain.
    pub fn tftp_get(&self, path: &str) -> (r: Result<GetAction, Error>)
        requires
            self@.nfs is Some && spec_is_config_request(path@) ==> !((self@.nfs->0).target_ip
                is Static),
        ensures
            match config_remainder(path@) {
                Some(rem) => if valid_client_id(rem) {
                    r matches Ok(GetAction::SendConfiguration(text)) && text@ == label_text(
                        served_label(self@),
                    )
                } else {
                    r == Err::<GetAction, Error>(Error::InvalidRequestPath)
                },
                None => if spec_listed_files(self@.configuration).contains(path@) {
                    r matches Ok(GetAction::ServeFile(f)) && f@ == path@
                } else {
                    r == Err::<GetAction, Error>(Error::FileNotFound)
                },
            },
    {
        match is_pxe_config_path(path) {
            Err(e) => Err(e),
            Ok(true) => {
                let label = match &self.nfs {
                    Some(nfs) => make_nfs_configuration(self.configuration.clone(), nfs),
                    None => self.configuration.clone(),
                };
                Ok(GetAction::SendConfiguration(label.to_text()))
            },
            Ok(false) => {
                let files = listed_files(&self.configuration);
                let owned = path.to_owned();
                let mut i: usize = 0;
                while i < files.len()
                    invariant
                        i <= files.len(),
                        owned@ == path@,
                        config_remainder(path@) is None,
                        files.deep_view() == spec_listed_files(self@.configuration),
                        forall|k: int| 0 <= k < i ==> files.deep_view()[k] != path@,
                    decreases files.len() - i,
                {
                    if files[i].eq(&owned) {
                        proof {
                            assert(spec_listed_files(self@.configuration).contains(path@)) by {
                                assert(spec_listed_files(self@.configuration)[i as int] == path@);
                            }
                        }
                        return Ok(GetAction::ServeFile(files[i].clone()));
                    }
                    proof {
                        assert(files.deep_view()[i as int] != path@);
                    }
                    i = i + 1;
                }
                proof {
                    assert(!spec_listed_files(self@.configuration).contains(path@));
                }
                Err(Error::FileNotFound)
            },
        }
    }
}

} // verus!
