//! The UAPI boot-loader-specification dialect: menu entry keys, boot
//! entries, and their canonical textual rendering.

use vstd::prelude::*;

use crate::parser;
use crate::Error;
use crate::BootFile;

verus! {

/// A menu entry key, containing a fragment of configuration for the boot loader.
#[derive(Clone, Debug, PartialEq, Eq)]
pub enum EntryKey {
    Title(String),
    Linux(String),
    Devicetree(String),
    Options(Vec<String>),
}

/// The mathematical model of an [`EntryKey`]: the same variants over
/// sequences of characters.
pub enum EntryKeyView {
    Title(Seq<char>),
    Linux(Seq<char>),
    Devicetree(Seq<char>),
    Options(Seq<Seq<char>>),
}

impl View for EntryKey {
    type V = EntryKeyView;

    open spec fn view(&self) -> EntryKeyView {
        match self {
            EntryKey::Title(t) => EntryKeyView::Title(t@),
            EntryKey::Linux(p) => EntryKeyView::Linux(p@),
            EntryKey::Devicetree(p) => EntryKeyView::Devicetree(p@),
            EntryKey::Options(os) => EntryKeyView::Options(os.deep_view()),
        }
    }
}

impl DeepView for EntryKey {
    type V = EntryKeyView;

    open spec fn deep_view(&self) -> EntryKeyView {
        self.view()
    }
}

/// A boot loader entry for this system: an ordered sequence of menu entry
/// keys, as read from a "type 1" (text-based) boot entry of the UAPI group
/// boot loader specification.
#[derive(Clone, Debug, PartialEq, Eq)]
pub struct BootEntry {
    pub keys: Vec<EntryKey>,
}

impl View for BootEntry {
    type V = Seq<EntryKeyView>;

    open spec fn view(&self) -> Seq<EntryKeyView> {
        self.keys.deep_view()
    }
}

impl BootFile for EntryKey {
    open spec fn spec_boot_file(&self) -> Option<Seq<char>> {
        match self {
            EntryKey::Linux(p) => Some(p@),
            EntryKey::Devicetree(p) => Some(p@),
            EntryKey::Options(_) => None,
            EntryKey::Title(_) => None,
        }
    }

    fn boot_file(&self) -> (r: Option<&String>) {
        match self {
            EntryKey::Linux(p) => Some(p),
            EntryKey::Devicetree(p) => Some(p),
            EntryKey::Options(_) => None,
            EntryKey::Title(_) => None,
        }
    }
}

// ------------------------------------------------------------------
// Serialization
// ------------------------------------------------------------------

/// Every token after the first, each preceded by a single space.
pub open spec fn join_sep_rest(toks: Seq<Seq<char>>) -> Seq<char>
    decreases toks.len(),
{
    if toks.len() == 0 {
        Seq::empty()
    } else {
        seq![' '] + toks[0] + join_sep_rest(toks.drop_first())
    }
}

/// The tokens of an `options` list joined with single spaces.
pub open spec fn join_tokens(toks: Seq<Seq<char>>) -> Seq<char> {
    if toks.len() == 0 {
        Seq::empty()
    } else {
        toks[0] + join_sep_rest(toks.drop_first())
    }
}

proof fn lemma_join_sep_rest_push(toks: Seq<Seq<char>>, t: Seq<char>)
    ensures
        join_sep_rest(toks.push(t)) == join_sep_rest(toks) + seq![' '] + t,
    decreases toks.len(),
{
    if toks.len() == 0 {
        assert(toks.push(t).drop_first() =~= Seq::<Seq<char>>::empty());
        assert(toks.push(t)[0] == t);
        assert(join_sep_rest(toks.push(t).drop_first()) == Seq::<char>::empty());
        assert(join_sep_rest(toks) == Seq::<char>::empty());
        assert(join_sep_rest(toks.push(t)) =~= join_sep_rest(toks) + seq![' '] + t);
    } else {
        assert(toks.push(t).drop_first() =~= toks.drop_first().push(t));
        assert(toks.push(t)[0] == toks[0]);
        lemma_join_sep_rest_push(toks.drop_first(), t);
        assert(join_sep_rest(toks.push(t)) =~= join_sep_rest(toks) + seq![' '] + t);
    }
}

/// Joining one more token appends a space and the token (or just the
/// token, where it is the first).
pub proof fn lemma_join_tokens_push(toks: Seq<Seq<char>>, t: Seq<char>)
    ensures
        join_tokens(toks.push(t)) == if toks.len() == 0 {
            t
        } else {
            join_tokens(toks) + seq![' '] + t
        },
{
    if toks.len() == 0 {
        assert(toks.push(t).drop_first() =~= Seq::<Seq<char>>::empty());
        assert(toks.push(t)[0] == t);
        assert(join_tokens(toks.push(t)) =~= t);
    } else {
        assert(toks.push(t).drop_first() =~= toks.drop_first().push(t));
        assert(toks.push(t)[0] == toks[0]);
        lemma_join_sep_rest_push(toks.drop_first(), t);
        assert(join_tokens(toks.push(t)) =~= join_tokens(toks) + seq![' '] + t);
    }
}

/// The canonical line of one entry key: the lower-case keyword, one
/// space, and the argument (token lists joined with single spaces).
pub open spec fn key_text(k: EntryKeyView) -> Seq<char> {
    match k {
        EntryKeyView::Title(t) => "title "@ + t,
        EntryKeyView::Linux(p) => "linux "@ + p,
        EntryKeyView::Devicetree(p) => "devicetree "@ + p,
        EntryKeyView::Options(ts) => "options "@ + join_tokens(ts),
    }
}

/// The canonical text of a boot entry: one line per key, each closed by a
/// single `\n`.
pub open spec fn entry_text(keys: Seq<EntryKeyView>) -> Seq<char>
    decreases keys.len(),
{
    if keys.len() == 0 {
        Seq::empty()
    } else {
        key_text(keys[0]) + "\n"@ + entry_text(keys.drop_first())
    }
}

/// Serializing one more key appends its line.
pub proof fn lemma_entry_text_push(keys: Seq<EntryKeyView>, k: EntryKeyView)
    ensures
        entry_text(keys.push(k)) == entry_text(keys) + key_text(k) + "\n"@,
    decreases keys.len(),
{
    if keys.len() == 0 {
        assert(keys.push(k).drop_first() =~= keys);
        assert(keys.push(k)[0] == k);
        assert(entry_text(keys.push(k)) == key_text(k) + "\n"@ + entry_text(keys));
        assert(entry_text(keys) =~= Seq::<char>::empty());
        assert(entry_text(keys.push(k)) =~= entry_text(keys) + key_text(k) + "\n"@);
    } else {
        assert(keys.push(k).drop_first() =~= keys.drop_first().push(k));
        assert(keys.push(k)[0] == keys[0]);
        lemma_entry_text_push(keys.drop_first(), k);
        assert(entry_text(keys.push(k)) == key_text(keys[0]) + "\n"@ + entry_text(
            keys.drop_first().push(k),
        ));
        assert(entry_text(keys) == key_text(keys[0]) + "\n"@ + entry_text(keys.drop_first()));
        broadcast use vstd::seq_lib::group_seq_properties;

        assert(entry_text(keys.push(k)) =~= entry_text(keys) + key_text(k) + "\n"@);
    }
}

pub(crate) fn join_tokens_exec(toks: &Vec<String>) -> (r: String)
    ensures
        r@ == join_tokens(toks.deep_view()),
{
    let mut out = String::new();
    let mut i: usize = 0;
    while i < toks.len()
        invariant
            i <= toks.len(),
            out@ == join_tokens(toks.deep_view().take(i as int)),
        decreases toks.len() - i,
    {
        if i > 0 {
            out.append(" ");
        }
        out.append(toks[i].as_str());
        proof {
            reveal_strlit(" ");
            let dv = toks.deep_view();
            assert(dv.take(i as int).push(dv[i as int]) =~= dv.take(i + 1));
            lemma_join_tokens_push(dv.take(i as int), dv[i as int]);
            assert(" "@ =~= seq![' ']);
            assert(out@ =~= join_tokens(dv.take(i + 1)));
        }
        i = i + 1;
    }
    proof {
        assert(toks.deep_view().take(toks.len() as int) =~= toks.deep_view());
    }
    out
}

impl EntryKey {
    /// The canonical line of this key, without a line ending.
    pub fn to_text(&self) -> (r: String)
        ensures
            r@ == key_text(self@),
    {
        match self {
            EntryKey::Title(t) => {
                let mut s = String::from_str("title ");
                s.append(t.as_str());
                s
            },
            EntryKey::Linux(p) => {
                let mut s = String::from_str("linux ");
                s.append(p.as_str());
                s
            },
            EntryKey::Devicetree(p) => {
                let mut s = String::from_str("devicetree ");
                s.append(p.as_str());
                s
            },
            EntryKey::Options(ts) => {
                let mut s = String::from_str("options ");
                let joined = join_tokens_exec(ts);
                s.append(joined.as_str());
                s
            },
        }
    }
}

impl BootEntry {
    /// The canonical text of this entry: one line per key, `\n` endings.
    /// This is the exact byte stream sent over the transport when a
    /// configuration response is synthesized from a boot entry.
    pub fn to_text(&self) -> (r: String)
        ensures
            r@ == entry_text(self@),
    {
        let mut out = String::new();
        let mut i: usize = 0;
        while i < self.keys.len()
            invariant
                i <= self.keys.len(),
                out@ == entry_text(self@.take(i as int)),
            decreases self.keys.len() - i,
        {
            let kt = self.keys[i].to_text();
            out.append(kt.as_str());
            out.append("\n");
            proof {
                lemma_entry_text_push(self@.take(i as int), self@[i as int]);
                assert(self@.take(i as int).push(self@[i as int]) =~= self@.take(i + 1));
            }
            i = i + 1;
        }
        proof {
            assert(self@.take(self.keys.len() as int) =~= self@);
        }
        out
    }
}

// ------------------------------------------------------------------
// Reading entries from text
// ------------------------------------------------------------------

/// The message that reports unconsumed input after a recognized entry.
pub open spec fn trailing_garbage_text(rest: Seq<char>) -> Seq<char> {
    "trailing garbage: \""@ + rest + "\""@
}

fn trailing_garbage_message(rest: &str) -> (r: String)
    ensures
        r@ == trailing_garbage_text(rest@),
{
    let mut m = String::from_str("trailing garbage: \"");
    m.append(rest);
    m.append("\"");
    m
}

impl EntryKey {
    /// Read a single entry key, failing where the key is unrecognized or
    /// where text follows it.
    pub fn from_str(input: &str) -> (r: Result<EntryKey, Error>)
        ensures
            match parser::entry_key_at(input@, 0) {
                Some((k, e)) => if e == input@.len() {
                    r matches Ok(key) && key@ == k
                } else {
                    r matches Err(Error::ErroneousEntry(m)) && m@ == trailing_garbage_text(
                        input@.subrange(e, input@.len() as int),
                    )
                },
                None => r matches Err(Error::ErroneousEntry(m)) && m@ == input@,
            },
    {
        match parser::entry_key(input) {
            Some((rest, key)) => {
                proof {
                    parser::lemma_entry_key_at_bounds(input@, 0);
                }
                if rest.is_empty() {
                    Ok(key)
                } else {
                    Err(Error::ErroneousEntry(trailing_garbage_message(rest)))
                }
            },
            None => Err(Error::ErroneousEntry(input.to_owned())),
        }
    }
}

impl BootEntry {
    /// Read a whole boot entry, failing where any text remains after the
    /// recognized lines.
    pub fn from_str(input: &str) -> (r: Result<BootEntry, Error>)
        ensures
            ({
                let (ks, e) = parser::boot_entry_at(input@);
                if e == input@.len() {
                    r matches Ok(b) && b@ == ks
                } else {
                    r matches Err(Error::ErroneousEntry(m)) && m@ == trailing_garbage_text(
                        input@.subrange(e, input@.len() as int),
                    )
                }
            }),
    {
        let (rest, entry) = parser::boot_entry(input);
        proof {
            parser::lemma_boot_entry_at_bounds(input@);
        }
        if rest.is_empty() {
            Ok(entry)
        } else {
            Err(Error::ErroneousEntry(trailing_garbage_message(rest)))
        }
    }
}

/// Read a boot entry from its persisted textual form; the caller-level
/// entry point over the line parser.
pub fn deserialize(input: &str) -> (r: Result<BootEntry, Error>)
    ensures
        ({
            let (ks, e) = parser::boot_entry_at(input@);
            if e == input@.len() {
                r matches Ok(b) && b@ == ks
            } else {
                r matches Err(Error::ErroneousEntry(m)) && m@ == trailing_garbage_text(
                    input@.subrange(e, input@.len() as int),
                )
            }
        }),
{
    BootEntry::from_str(input)
}

} // verus!
