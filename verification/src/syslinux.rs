//! The Syslinux dialect: labels, their directives, their canonical
//! textual rendering, and the validating conversion from UAPI boot
//! entries.

use vstd::prelude::*;

use crate::uapi::{join_tokens, BootEntry, EntryKey, EntryKeyView};
use crate::BootFile;

verus! {

/// Conversion into a label failed: the entry lacks a mandatory `title`
/// or `linux` key.
#[derive(Clone, Copy, Debug, PartialEq, Eq)]
pub struct ConfigurationConversionError;

/// A KERNEL-like directive, specifying the image to boot.
#[derive(Debug, PartialEq, Eq)]
pub enum Kernel {
    Kernel(String),
}

impl View for Kernel {
    type V = Seq<char>;

    open spec fn view(&self) -> Seq<char> {
        match self {
            Kernel::Kernel(p) => p@,
        }
    }
}

impl Clone for Kernel {
    fn clone(&self) -> (res: Self)
        ensures
            res == *self,
    {
        match self {
            Kernel::Kernel(p) => Kernel::Kernel(p.clone()),
        }
    }
}

impl BootFile for Kernel {
    open spec fn spec_boot_file(&self) -> Option<Seq<char>> {
        Some(self@)
    }

    fn boot_file(&self) -> (r: Option<&String>) {
        match self {
            Kernel::Kernel(image) => Some(image),
        }
    }
}

/// Directives that configure a boot label.
#[derive(Debug, PartialEq, Eq)]
pub enum LabelDirective {
    /// An initial ramdisk.
    Initrd(String),
    /// A device tree blob.
    Fdt(String),
    /// Kernel command-line options.
    Append(Vec<String>),
}

/// The mathematical model of a [`LabelDirective`].
pub enum LabelDirectiveView {
    Initrd(Seq<char>),
    Fdt(Seq<char>),
    Append(Seq<Seq<char>>),
}

impl View for LabelDirective {
    type V = LabelDirectiveView;

    open spec fn view(&self) -> LabelDirectiveView {
        match self {
            LabelDirective::Initrd(p) => LabelDirectiveView::Initrd(p@),
            LabelDirective::Fdt(p) => LabelDirectiveView::Fdt(p@),
            LabelDirective::Append(os) => LabelDirectiveView::Append(os.deep_view()),
        }
    }
}

impl DeepView for LabelDirective {
    type V = LabelDirectiveView;

    open spec fn deep_view(&self) -> LabelDirectiveView {
        self.view()
    }
}

pub(crate) fn clone_string_vec(v: &Vec<String>) -> (r: Vec<String>)
    ensures
        r@ == v@,
{
    let mut r: Vec<String> = Vec::new();
    let mut i: usize = 0;
    while i < v.len()
        invariant
            i <= v.len(),
            r@ =~= v@.take(i as int),
        decreases v.len() - i,
    {
        r.push(v[i].clone());
        i = i + 1;
    }
    proof {
        assert(v@.take(v.len() as int) =~= v@);
    }
    r
}

impl Clone for LabelDirective {
    fn clone(&self) -> (res: Self)
        ensures
            res@ == self@,
    {
        match self {
            LabelDirective::Initrd(p) => LabelDirective::Initrd(p.clone()),
            LabelDirective::Fdt(p) => LabelDirective::Fdt(p.clone()),
            LabelDirective::Append(os) => LabelDirective::Append(clone_string_vec(os)),
        }
    }
}

impl BootFile for LabelDirective {
    open spec fn spec_boot_file(&self) -> Option<Seq<char>> {
        match self {
            LabelDirective::Initrd(p) => Some(p@),
            LabelDirective::Fdt(p) => Some(p@),
            LabelDirective::Append(_) => None,
        }
    }

    fn boot_file(&self) -> (r: Option<&String>) {
        match self {
            LabelDirective::Initrd(initrd) => Some(initrd),
            LabelDirective::Fdt(fdt) => Some(fdt),
            LabelDirective::Append(_) => None,
        }
    }
}

impl LabelDirective {
    /// Map one entry key to the directive it stands for; `title` and
    /// `linux` keys map to no directive.
    pub fn try_from(value: EntryKey) -> (r: Result<LabelDirective, ConfigurationConversionError>)
        ensures
            match value@ {
                EntryKeyView::Title(_) => r is Err,
                EntryKeyView::Linux(_) => r is Err,
                EntryKeyView::Devicetree(p) => r matches Ok(d) && d@ == LabelDirectiveView::Fdt(p),
                EntryKeyView::Options(ts) => r matches Ok(d) && d@ == LabelDirectiveView::Append(
                    ts,
                ),
            },
    {
        match value {
            EntryKey::Title(_) => Err(ConfigurationConversionError),
            EntryKey::Linux(_) => Err(ConfigurationConversionError),
            EntryKey::Devicetree(fdt) => Ok(LabelDirective::Fdt(fdt)),
            EntryKey::Options(options) => Ok(LabelDirective::Append(options)),
        }
    }
}

/// A label clause: a name, the kernel to boot, and its directives.
#[derive(Debug, PartialEq, Eq)]
pub struct Label {
    pub name: String,
    pub kernel: Kernel,
    pub directives: Vec<LabelDirective>,
}

/// The mathematical model of a [`Label`].
pub struct LabelView {
    pub name: Seq<char>,
    pub kernel: Seq<char>,
    pub directives: Seq<LabelDirectiveView>,
}

impl View for Label {
    type V = LabelView;

    open spec fn view(&self) -> LabelView {
        LabelView {
            name: self.name@,
            kernel: self.kernel@,
            directives: self.directives.deep_view(),
        }
    }
}

impl Clone for Label {
    fn clone(&self) -> (res: Self)
        ensures
            res@ == self@,
    {
        let mut directives: Vec<LabelDirective> = Vec::new();
        let mut i: usize = 0;
        while i < self.directives.len()
            invariant
                i <= self.directives.len(),
                directives.deep_view() =~= self.directives.deep_view().take(i as int),
            decreases self.directives.len() - i,
        {
            let ghost prev = directives.deep_view();
            directives.push(self.directives[i].clone());
            proof {
                assert(directives.deep_view() =~= prev.push(self.directives[i as int]@));
            }
            i = i + 1;
        }
        proof {
            assert(self.directives.deep_view().take(self.directives.len() as int)
                =~= self.directives.deep_view());
        }
        Label { name: self.name.clone(), kernel: self.kernel.clone(), directives }
    }
}

/// A Syslinux configuration.
pub struct Configuration {
    pub labels: Vec<Label>,
}

// ------------------------------------------------------------------
// Serialization
// ------------------------------------------------------------------

/// The canonical line of the kernel directive.
pub open spec fn kernel_text(p: Seq<char>) -> Seq<char> {
    "KERNEL "@ + p
}

/// The canonical line of one label directive.
pub open spec fn directive_text(d: LabelDirectiveView) -> Seq<char> {
    match d {
        LabelDirectiveView::Initrd(p) => "INITRD "@ + p,
        LabelDirectiveView::Fdt(p) => "FDT "@ + p,
        LabelDirectiveView::Append(ts) => "APPEND "@ + join_tokens(ts),
    }
}

/// The canonical lines of a directive list, each closed by `\n`.
pub open spec fn directives_text(ds: Seq<LabelDirectiveView>) -> Seq<char>
    decreases ds.len(),
{
    if ds.len() == 0 {
        Seq::empty()
    } else {
        directives_text(ds.drop_last()) + directive_text(ds.last()) + "\n"@
    }
}

/// The canonical text of a whole label: the `LABEL` line, the `KERNEL`
/// line, then every directive, each on its own `\n`-closed line.  This
/// is the exact byte stream served for a synthesized configuration.
pub open spec fn label_text(l: LabelView) -> Seq<char> {
    "LABEL "@ + l.name + "\n"@ + kernel_text(l.kernel) + "\n"@ + directives_text(l.directives)
}

impl Kernel {
    /// The canonical `KERNEL` line, without a line ending.
    pub fn to_text(&self) -> (r: String)
        ensures
            r@ == kernel_text(self@),
    {
        match self {
            Kernel::Kernel(image) => {
                let mut s = String::from_str("KERNEL ");
                s.append(image.as_str());
                s
            },
        }
    }
}

impl LabelDirective {
    /// The canonical directive line, without a line ending.
    pub fn to_text(&self) -> (r: String)
        ensures
            r@ == directive_text(self@),
    {
        match self {
            LabelDirective::Initrd(initrd) => {
                let mut s = String::from_str("INITRD ");
                s.append(initrd.as_str());
                s
            },
            LabelDirective::Fdt(fdt) => {
                let mut s = String::from_str("FDT ");
                s.append(fdt.as_str());
                s
            },
            LabelDirective::Append(options) => {
                let mut s = String::from_str("APPEND ");
                let joined = crate::uapi::join_tokens_exec(options);
                s.append(joined.as_str());
                s
            },
        }
    }
}

impl Label {
    /// The canonical text of this label.
    pub fn to_text(&self) -> (r: String)
        ensures
            r@ == label_text(self@),
    {
        let mut out = String::from_str("LABEL ");
        out.append(self.name.as_str());
        out.append("\n");
        let kt = self.kernel.to_text();
        out.append(kt.as_str());
        out.append("\n");
        let ghost head = out@;
        let mut i: usize = 0;
        while i < self.directives.len()
            invariant
                i <= self.directives.len(),
                head == "LABEL "@ + self@.name + "\n"@ + kernel_text(self@.kernel) + "\n"@,
                out@ == head + directives_text(self@.directives.take(i as int)),
            decreases self.directives.len() - i,
        {
            let dt = self.directives[i].to_text();
            out.append(dt.as_str());
            out.append("\n");
            proof {
                let ds = self@.directives;
                assert(ds.take(i + 1).drop_last() =~= ds.take(i as int));
                assert(ds.take(i + 1).last() == ds[i as int]);
                assert(self.directives[i as int]@ == ds[i as int]);
                assert(out@ =~= head + directives_text(ds.take(i + 1)));
            }
            i = i + 1;
        }
        proof {
            assert(self@.directives.take(self.directives.len() as int) =~= self@.directives);
            assert(out@ =~= label_text(self@));
        }
        out
    }
}

// ------------------------------------------------------------------
// Conversion from a UAPI boot entry
// ------------------------------------------------------------------

/// The label name a key sequence yields: the argument of the last
/// `title` key, if any.
pub open spec fn title_of(keys: Seq<EntryKeyView>) -> Option<Seq<char>>
    decreases keys.len(),
{
    if keys.len() == 0 {
        None
    } else {
        match keys.last() {
            EntryKeyView::Title(t) => Some(t),
            _ => title_of(keys.drop_last()),
        }
    }
}

/// The kernel path a key sequence yields: the argument of the last
/// `linux` key, if any.
pub open spec fn kernel_of(keys: Seq<EntryKeyView>) -> Option<Seq<char>>
    decreases keys.len(),
{
    if keys.len() == 0 {
        None
    } else {
        match keys.last() {
            EntryKeyView::Linux(p) => Some(p),
            _ => kernel_of(keys.drop_last()),
        }
    }
}

/// The directives a key sequence yields, in order: every `devicetree`
/// becomes `FDT`, every `options` becomes `APPEND`; `title` and `linux`
/// are consumed into the name and kernel and yield none.
pub open spec fn directives_of(keys: Seq<EntryKeyView>) -> Seq<LabelDirectiveView>
    decreases keys.len(),
{
    if keys.len() == 0 {
        Seq::empty()
    } else {
        directives_of(keys.drop_last()) + (match keys.last() {
            EntryKeyView::Devicetree(p) => seq![LabelDirectiveView::Fdt(p)],
            EntryKeyView::Options(ts) => seq![LabelDirectiveView::Append(ts)],
            _ => Seq::empty(),
        })
    }
}

impl Label {
    /// The validating conversion: scan the keys in order, the last
    /// `title` naming the label and the last `linux` naming the kernel;
    /// fail exactly where either is missing.
    pub fn try_from(value: BootEntry) -> (r: Result<Label, ConfigurationConversionError>)
        ensures
            r is Ok <==> (title_of(value@) is Some && kernel_of(value@) is Some),
            r matches Ok(l) ==> {
                &&& l@.name == title_of(value@)->0
                &&& l@.kernel == kernel_of(value@)->0
                &&& l@.directives == directives_of(value@)
            },
    {
        let ghost keys = value@;
        let mut name: Option<String> = None;
        let mut kernel: Option<String> = None;
        let mut directives: Vec<LabelDirective> = Vec::new();
        let mut i: usize = 0;
        while i < value.keys.len()
            invariant
                i <= value.keys.len(),
                keys == value@,
                match name {
                    Some(t) => title_of(keys.take(i as int)) == Some(t@),
                    None => title_of(keys.take(i as int)) is None,
                },
                match kernel {
                    Some(p) => kernel_of(keys.take(i as int)) == Some(p@),
                    None => kernel_of(keys.take(i as int)) is None,
                },
                directives.deep_view() == directives_of(keys.take(i as int)),
            decreases value.keys.len() - i,
        {
            proof {
                assert(keys.take(i + 1).drop_last() =~= keys.take(i as int));
                assert(keys.take(i + 1).last() == keys[i as int]);
                assert(keys[i as int] == value.keys[i as int]@);
            }
            let ghost prev = directives.deep_view();
            match &value.keys[i] {
                EntryKey::Title(t) => {
                    name = Some(t.clone());
                },
                EntryKey::Linux(p) => {
                    kernel = Some(p.clone());
                },
                EntryKey::Devicetree(p) => {
                    let ghost pv = p@;
                    directives.push(LabelDirective::Fdt(p.clone()));
                    proof {
                        assert(directives.deep_view() =~= prev.push(LabelDirectiveView::Fdt(pv)));
                    }
                },
                EntryKey::Options(ts) => {
                    let ghost tv = ts.deep_view();
                    let cloned = clone_string_vec(ts);
                    proof {
                        assert(cloned.deep_view() =~= tv);
                    }
                    directives.push(LabelDirective::Append(cloned));
                    proof {
                        assert(directives.deep_view() =~= prev.push(
                            LabelDirectiveView::Append(tv),
                        ));
                    }
                },
            }
            proof {
                assert(directives.deep_view() =~= directives_of(keys.take(i + 1)));
            }
            i = i + 1;
        }
        proof {
            assert(keys.take(value.keys.len() as int) =~= keys);
        }
        let name = match name {
            Some(n) => n,
            None => {
                return Err(ConfigurationConversionError);
            },
        };
        let kernel = match kernel {
            Some(k) => Kernel::Kernel(k),
            None => {
                return Err(ConfigurationConversionError);
            },
        };
        Ok(Label { name, kernel, directives })
    }
}

} // verus!
