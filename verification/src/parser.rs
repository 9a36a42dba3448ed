//! The grammar of textual boot entries.
//!
//! An entry is a sequence of lines, each holding a keyword (`title`,
//! `linux`, `devicetree` or `options`, matched without regard to ASCII
//! case), one or more blanks, and the keyword's argument.  Lines are
//! separated by one or more line endings (`\n` or `\r\n`); a trailing line
//! ending is optional.  Parsing stops at the first unparsable line, which
//! is handed back unconsumed together with everything after it.
//!
//! The grammar is stated by spec functions over the input's characters,
//! each scanning from a position and returning the position where the
//! construct ends; the executable parser is proved to return exactly what
//! those functions describe.

use vstd::prelude::*;

use crate::uapi::{BootEntry, EntryKey, EntryKeyView};

verus! {

// ------------------------------------------------------------------
// Character classes
// ------------------------------------------------------------------

/// A line-ending character.
pub open spec fn spec_line_ending(c: char) -> bool {
    c == '\r' || c == '\n'
}

/// Matches a line ending.
pub fn is_line_ending(byte: char) -> (r: bool)
    ensures
        r == spec_line_ending(byte),
{
    byte == '\r' || byte == '\n'
}

/// A blank: the characters that may separate a keyword from its argument
/// and the tokens of an `options` list from one another.
pub open spec fn spec_blank(c: char) -> bool {
    c == ' ' || c == '\t'
}

fn is_blank(c: char) -> (r: bool)
    ensures
        r == spec_blank(c),
{
    c == ' ' || c == '\t'
}

/// A white-space character (the Unicode `White_Space` set); a token of an
/// `options` list extends up to the first of these.
pub open spec fn spec_whitespace(c: char) -> bool {
    ||| c == ' '
    ||| c == '\t'
    ||| c == '\n'
    ||| c == '\r'
    ||| c == '\u{b}'
    ||| c == '\u{c}'
    ||| c == '\u{85}'
    ||| c == '\u{a0}'
    ||| c == '\u{1680}'
    ||| ('\u{2000}' as u32 <= c as u32 && c as u32 <= '\u{200a}' as u32)
    ||| c == '\u{2028}'
    ||| c == '\u{2029}'
    ||| c == '\u{202f}'
    ||| c == '\u{205f}'
    ||| c == '\u{3000}'
}

fn is_whitespace(c: char) -> (r: bool)
    ensures
        r == spec_whitespace(c),
{
    let u = c as u32;
    u == 0x20 || u == 0x9 || u == 0xa || u == 0xd || u == 0xb || u == 0xc || u == 0x85 || u == 0xa0
        || u == 0x1680 || (0x2000 <= u && u <= 0x200a) || u == 0x2028 || u == 0x2029 || u == 0x202f
        || u == 0x205f || u == 0x3000
}

// ------------------------------------------------------------------
// Scanners: where a run of characters ends
// ------------------------------------------------------------------

/// The end of the run of blanks that starts at `i`.
pub open spec fn blank_end(s: Seq<char>, i: int) -> int
    decreases s.len() - i,
{
    if 0 <= i < s.len() && spec_blank(s[i]) {
        blank_end(s, i + 1)
    } else {
        i
    }
}

/// The end of the line tail that starts at `i`: the run of characters up
/// to the first line ending.
pub open spec fn arg_end(s: Seq<char>, i: int) -> int
    decreases s.len() - i,
{
    if 0 <= i < s.len() && !spec_line_ending(s[i]) {
        arg_end(s, i + 1)
    } else {
        i
    }
}

/// The end of the token that starts at `i`: the run of characters up to
/// the first white space.
pub open spec fn token_end(s: Seq<char>, i: int) -> int
    decreases s.len() - i,
{
    if 0 <= i < s.len() && !spec_whitespace(s[i]) {
        token_end(s, i + 1)
    } else {
        i
    }
}

/// The end of the run of line endings (`\n` or `\r\n`) that starts at `i`.
pub open spec fn line_run_end(s: Seq<char>, i: int) -> int
    decreases s.len() - i,
{
    if 0 <= i < s.len() && s[i] == '\n' {
        line_run_end(s, i + 1)
    } else if 0 <= i && i + 2 <= s.len() && s[i] == '\r' && s[i + 1] == '\n' {
        line_run_end(s, i + 2)
    } else {
        i
    }
}

/// The end of the single optional line ending at `i`: one `\n` or `\r\n`
/// is consumed if present.
pub open spec fn single_line_ending_end(s: Seq<char>, i: int) -> int {
    if 0 <= i < s.len() && s[i] == '\n' {
        i + 1
    } else if 0 <= i && i + 2 <= s.len() && s[i] == '\r' && s[i + 1] == '\n' {
        i + 2
    } else {
        i
    }
}

pub proof fn lemma_blank_end(s: Seq<char>, i: int)
    requires
        0 <= i <= s.len(),
    ensures
        i <= blank_end(s, i) <= s.len(),
        forall|k: int| i <= k < blank_end(s, i) ==> spec_blank(s[k]),
        blank_end(s, i) < s.len() ==> !spec_blank(s[blank_end(s, i)]),
    decreases s.len() - i,
{
    if i < s.len() && spec_blank(s[i]) {
        lemma_blank_end(s, i + 1);
    }
}

pub proof fn lemma_arg_end(s: Seq<char>, i: int)
    requires
        0 <= i <= s.len(),
    ensures
        i <= arg_end(s, i) <= s.len(),
        forall|k: int| i <= k < arg_end(s, i) ==> !spec_line_ending(s[k]),
        arg_end(s, i) < s.len() ==> spec_line_ending(s[arg_end(s, i)]),
    decreases s.len() - i,
{
    if i < s.len() && !spec_line_ending(s[i]) {
        lemma_arg_end(s, i + 1);
    }
}

pub proof fn lemma_token_end(s: Seq<char>, i: int)
    requires
        0 <= i <= s.len(),
    ensures
        i <= token_end(s, i) <= s.len(),
        forall|k: int| i <= k < token_end(s, i) ==> !spec_whitespace(s[k]),
        token_end(s, i) < s.len() ==> spec_whitespace(s[token_end(s, i)]),
    decreases s.len() - i,
{
    if i < s.len() && !spec_whitespace(s[i]) {
        lemma_token_end(s, i + 1);
    }
}

pub proof fn lemma_line_run_end(s: Seq<char>, i: int)
    requires
        0 <= i <= s.len(),
    ensures
        i <= line_run_end(s, i) <= s.len(),
    decreases s.len() - i,
{
    if i < s.len() && s[i] == '\n' {
        lemma_line_run_end(s, i + 1);
    } else if i + 2 <= s.len() && s[i] == '\r' && s[i + 1] == '\n' {
        lemma_line_run_end(s, i + 2);
    }
}

// ------------------------------------------------------------------
// Keywords and entry keys
// ------------------------------------------------------------------

/// The code of `c` with an ASCII capital letter folded to lower case.
pub open spec fn lower_code(c: char) -> u32 {
    if 'A' as u32 <= c as u32 && c as u32 <= 'Z' as u32 {
        (c as u32 + 32) as u32
    } else {
        c as u32
    }
}

/// The keyword `kw` stands at position `i` of `s`, compared without
/// regard to ASCII case.
pub open spec fn keyword_at(s: Seq<char>, i: int, kw: Seq<char>) -> bool {
    &&& 0 <= i
    &&& i + kw.len() <= s.len()
    &&& forall|j: int| 0 <= j < kw.len() ==> lower_code(s[i + j]) == kw[j] as u32
}

/// After a keyword ending at `j`: one or more blanks, then a non-empty
/// line tail.  `None` where either is missing.
pub open spec fn tail_arg_at(s: Seq<char>, j: int) -> Option<(Seq<char>, int)> {
    let b = blank_end(s, j);
    if b == j {
        None
    } else {
        let e = arg_end(s, b);
        if e == b {
            None
        } else {
            Some((s.subrange(b, e), e))
        }
    }
}

/// The blank-separated tokens that follow position `i`, after the first
/// token ending at `i`'s token end: each further token is reached over a
/// non-empty run of blanks.  Tokens may be empty where a white-space
/// character that is not a blank follows a separator.
pub open spec fn token_list_rest(s: Seq<char>, i: int) -> (Seq<Seq<char>>, int)
    decreases s.len() - i,
{
    let b = blank_end(s, i);
    if i < b <= s.len() {
        let e = token_end(s, b);
        if b <= e <= s.len() {
            let (rest, j) = token_list_rest(s, e);
            (seq![s.subrange(b, e)] + rest, j)
        } else {
            (Seq::empty(), i)
        }
    } else {
        (Seq::empty(), i)
    }
}

/// The token list that starts at `i`: a first (possibly empty) token,
/// then the remaining blank-separated tokens.
pub open spec fn token_list_at(s: Seq<char>, i: int) -> (Seq<Seq<char>>, int) {
    let e = token_end(s, i);
    let (rest, j) = token_list_rest(s, e);
    (seq![s.subrange(i, e)] + rest, j)
}

/// After the `options` keyword ending at `j`: one or more blanks, then a
/// token list.
pub open spec fn options_tail_at(s: Seq<char>, j: int) -> Option<(Seq<Seq<char>>, int)> {
    let b = blank_end(s, j);
    if b == j {
        None
    } else {
        Some(token_list_at(s, b))
    }
}

/// The entry key that starts at position `i` of `s`, together with the
/// position where it ends, or `None` where no keyword with a well-formed
/// tail stands at `i`.  The four keywords begin with distinct letters, so
/// at most one of them can stand at `i`.
pub open spec fn entry_key_at(s: Seq<char>, i: int) -> Option<(EntryKeyView, int)> {
    if keyword_at(s, i, "linux"@) {
        match tail_arg_at(s, i + "linux"@.len()) {
            Some((a, e)) => Some((EntryKeyView::Linux(a), e)),
            None => None,
        }
    } else if keyword_at(s, i, "devicetree"@) {
        match tail_arg_at(s, i + "devicetree"@.len()) {
            Some((a, e)) => Some((EntryKeyView::Devicetree(a), e)),
            None => None,
        }
    } else if keyword_at(s, i, "options"@) {
        match options_tail_at(s, i + "options"@.len()) {
            Some((ts, e)) => Some((EntryKeyView::Options(ts), e)),
            None => None,
        }
    } else if keyword_at(s, i, "title"@) {
        match tail_arg_at(s, i + "title"@.len()) {
            Some((a, e)) => Some((EntryKeyView::Title(a), e)),
            None => None,
        }
    } else {
        None
    }
}

// ------------------------------------------------------------------
// Executable scanners
// ------------------------------------------------------------------

/// The input's characters as a vector, for position-indexed scanning.
pub(crate) fn chars_of(s: &str) -> (r: Vec<char>)
    ensures
        r@ == s@,
{
    let n = s.unicode_len();
    let mut v: Vec<char> = Vec::new();
    let mut i: usize = 0;
    while i < n
        invariant
            n == s@.len(),
            i <= n,
            v@ =~= s@.take(i as int),
        decreases n - i,
    {
        v.push(s.get_char(i));
        i = i + 1;
    }
    proof {
        assert(v@ =~= s@);
    }
    v
}

fn scan_blanks(cs: &Vec<char>, i: usize) -> (e: usize)
    requires
        i <= cs.len(),
    ensures
        e == blank_end(cs@, i as int),
        i <= e <= cs.len(),
{
    let mut j = i;
    while j < cs.len() && is_blank(cs[j])
        invariant
            i <= j <= cs.len(),
            blank_end(cs@, i as int) == blank_end(cs@, j as int),
        decreases cs.len() - j,
    {
        j = j + 1;
    }
    j
}

fn scan_arg(cs: &Vec<char>, i: usize) -> (e: usize)
    requires
        i <= cs.len(),
    ensures
        e == arg_end(cs@, i as int),
        i <= e <= cs.len(),
{
    let mut j = i;
    while j < cs.len() && !is_line_ending(cs[j])
        invariant
            i <= j <= cs.len(),
            arg_end(cs@, i as int) == arg_end(cs@, j as int),
        decreases cs.len() - j,
    {
        j = j + 1;
    }
    j
}

fn scan_token(cs: &Vec<char>, i: usize) -> (e: usize)
    requires
        i <= cs.len(),
    ensures
        e == token_end(cs@, i as int),
        i <= e <= cs.len(),
{
    let mut j = i;
    while j < cs.len() && !is_whitespace(cs[j])
        invariant
            i <= j <= cs.len(),
            token_end(cs@, i as int) == token_end(cs@, j as int),
        decreases cs.len() - j,
    {
        j = j + 1;
    }
    j
}

fn scan_line_run(cs: &Vec<char>, i: usize) -> (e: usize)
    requires
        i <= cs.len(),
    ensures
        e == line_run_end(cs@, i as int),
        i <= e <= cs.len(),
{
    let mut j = i;
    loop
        invariant
            i <= j <= cs.len(),
            line_run_end(cs@, i as int) == line_run_end(cs@, j as int),
        decreases cs.len() - j,
    {
        if j < cs.len() && cs[j] == '\n' {
            j = j + 1;
        } else if j < cs.len() && cs[j] == '\r' && j + 1 < cs.len() && cs[j + 1] == '\n' {
            j = j + 2;
        } else {
            return j;
        }
    }
}

fn scan_single_line_ending(cs: &Vec<char>, i: usize) -> (e: usize)
    requires
        i <= cs.len(),
    ensures
        e == single_line_ending_end(cs@, i as int),
        i <= e <= cs.len(),
{
    if i < cs.len() && cs[i] == '\n' {
        i + 1
    } else if i < cs.len() && cs[i] == '\r' && i + 1 < cs.len() && cs[i + 1] == '\n' {
        i + 2
    } else {
        i
    }
}

/// A scan over blanks ends exactly where the blanks end.
pub proof fn lemma_blank_end_is(s: Seq<char>, i: int, e: int)
    requires
        0 <= i <= e <= s.len(),
        forall|k: int| i <= k < e ==> spec_blank(s[k]),
        e == s.len() || !spec_blank(s[e]),
    ensures
        blank_end(s, i) == e,
    decreases e - i,
{
    if i < e {
        lemma_blank_end_is(s, i + 1, e);
    }
}

/// A scan over a line tail ends exactly at the first line ending.
pub proof fn lemma_arg_end_is(s: Seq<char>, i: int, e: int)
    requires
        0 <= i <= e <= s.len(),
        forall|k: int| i <= k < e ==> !spec_line_ending(s[k]),
        e == s.len() || spec_line_ending(s[e]),
    ensures
        arg_end(s, i) == e,
    decreases e - i,
{
    if i < e {
        lemma_arg_end_is(s, i + 1, e);
    }
}

/// A scan over a token ends exactly at the first white space.
pub proof fn lemma_token_end_is(s: Seq<char>, i: int, e: int)
    requires
        0 <= i <= e <= s.len(),
        forall|k: int| i <= k < e ==> !spec_whitespace(s[k]),
        e == s.len() || spec_whitespace(s[e]),
    ensures
        token_end(s, i) == e,
    decreases e - i,
{
    if i < e {
        lemma_token_end_is(s, i + 1, e);
    }
}

// ------------------------------------------------------------------
// Whole entries
// ------------------------------------------------------------------

/// The keys that follow a first key ending at `i`: each is reached over a
/// non-empty run of line endings.  Where the run or the key after it is
/// missing, the run is handed back (position `i` stands).
pub open spec fn entries_rest(s: Seq<char>, i: int) -> (Seq<EntryKeyView>, int)
    decreases s.len() - i,
{
    let r = line_run_end(s, i);
    if i < r <= s.len() {
        match entry_key_at(s, r) {
            Some((k, j)) => if r < j <= s.len() {
                let (ks, e) = entries_rest(s, j);
                (seq![k] + ks, e)
            } else {
                (seq![k], j)
            },
            None => (Seq::empty(), i),
        }
    } else {
        (Seq::empty(), i)
    }
}

/// The longest list of line-ending-separated entry keys that starts at
/// position `i`, with the position where it ends.
pub open spec fn entries_at(s: Seq<char>, i: int) -> (Seq<EntryKeyView>, int) {
    match entry_key_at(s, i) {
        Some((k, j)) => if i < j <= s.len() {
            let (ks, e) = entries_rest(s, j);
            (seq![k] + ks, e)
        } else {
            (seq![k], j)
        },
        None => (Seq::empty(), i),
    }
}

/// A whole boot entry: the keys at the start of `s`, then one optional
/// trailing line ending.  The second component is the position where the
/// unconsumed remainder begins.
pub open spec fn boot_entry_at(s: Seq<char>) -> (Seq<EntryKeyView>, int) {
    let (ks, e) = entries_at(s, 0);
    (ks, single_line_ending_end(s, e))
}

pub proof fn lemma_token_list_rest_bounds(s: Seq<char>, i: int)
    requires
        0 <= i <= s.len(),
    ensures
        i <= token_list_rest(s, i).1 <= s.len(),
    decreases s.len() - i,
{
    lemma_blank_end(s, i);
    let b = blank_end(s, i);
    if i < b {
        lemma_token_end(s, b);
        lemma_token_list_rest_bounds(s, token_end(s, b));
    }
}

pub proof fn lemma_token_list_at_bounds(s: Seq<char>, i: int)
    requires
        0 <= i <= s.len(),
    ensures
        i <= token_list_at(s, i).1 <= s.len(),
{
    lemma_token_end(s, i);
    lemma_token_list_rest_bounds(s, token_end(s, i));
}

/// A parsed entry key always consumes at least its keyword, and never
/// more than the input.
pub proof fn lemma_entry_key_at_bounds(s: Seq<char>, i: int)
    requires
        0 <= i <= s.len(),
        entry_key_at(s, i) is Some,
    ensures
        i < (entry_key_at(s, i)->0).1 <= s.len(),
{
    reveal_strlit("linux");
    reveal_strlit("devicetree");
    reveal_strlit("options");
    reveal_strlit("title");
    if keyword_at(s, i, "linux"@) {
        lemma_tail_arg_at_bounds(s, i + 5);
    } else if keyword_at(s, i, "devicetree"@) {
        lemma_tail_arg_at_bounds(s, i + 10);
    } else if keyword_at(s, i, "options"@) {
        lemma_blank_end(s, i + 7);
        let b = blank_end(s, i + 7);
        if b != i + 7 {
            lemma_token_list_at_bounds(s, b);
        }
    } else {
        lemma_tail_arg_at_bounds(s, i + 5);
    }
}

pub proof fn lemma_entries_rest_bounds(s: Seq<char>, i: int)
    requires
        0 <= i <= s.len(),
    ensures
        i <= entries_rest(s, i).1 <= s.len(),
    decreases s.len() - i,
{
    lemma_line_run_end(s, i);
    let r = line_run_end(s, i);
    if i < r && entry_key_at(s, r) is Some {
        lemma_entry_key_at_bounds(s, r);
        let j = (entry_key_at(s, r)->0).1;
        lemma_entries_rest_bounds(s, j);
    }
}

pub proof fn lemma_entries_at_bounds(s: Seq<char>, i: int)
    requires
        0 <= i <= s.len(),
    ensures
        i <= entries_at(s, i).1 <= s.len(),
{
    if entry_key_at(s, i) is Some {
        lemma_entry_key_at_bounds(s, i);
        let j = (entry_key_at(s, i)->0).1;
        lemma_entries_rest_bounds(s, j);
    }
}

pub proof fn lemma_boot_entry_at_bounds(s: Seq<char>)
    ensures
        0 <= boot_entry_at(s).1 <= s.len(),
{
    lemma_entries_at_bounds(s, 0);
}

proof fn lemma_tail_arg_at_bounds(s: Seq<char>, j: int)
    requires
        0 <= j <= s.len(),
        tail_arg_at(s, j) is Some,
    ensures
        j < (tail_arg_at(s, j)->0).1 <= s.len(),
{
    lemma_blank_end(s, j);
    lemma_arg_end(s, blank_end(s, j));
}

// ------------------------------------------------------------------
// The executable parser
// ------------------------------------------------------------------

fn keyword_matches(cs: &Vec<char>, i: usize, kw: &str) -> (r: bool)
    requires
        i <= cs.len(),
    ensures
        r == keyword_at(cs@, i as int, kw@),
{
    let m = kw.unicode_len();
    if cs.len() - i < m {
        return false;
    }
    let mut j: usize = 0;
    while j < m
        invariant
            i <= cs.len(),
            m == kw@.len(),
            i + m <= cs.len(),
            j <= m,
            forall|q: int| 0 <= q < j ==> lower_code(cs@[i + q]) == kw@[q] as u32,
        decreases m - j,
    {
        let c = cs[i + j];
        let u = c as u32;
        let lc = if 65 <= u && u <= 90 {
            u + 32
        } else {
            u
        };
        if lc != kw.get_char(j) as u32 {
            proof {
                assert(lower_code(cs@[i + j as int]) != kw@[j as int] as u32);
            }
            return false;
        }
        j = j + 1;
    }
    true
}

fn parse_tail_arg(input: &str, cs: &Vec<char>, j: usize) -> (r: Option<(String, usize)>)
    requires
        cs@ == input@,
        j <= cs.len(),
    ensures
        match tail_arg_at(cs@, j as int) {
            Some((a, e)) => r matches Some(p) && p.0@ == a && p.1 == e && j < e <= cs.len(),
            None => r is None,
        },
{
    let b = scan_blanks(cs, j);
    if b == j {
        return None;
    }
    let e = scan_arg(cs, b);
    if e == b {
        return None;
    }
    let arg = input.substring_char(b, e).to_owned();
    Some((arg, e))
}

fn parse_token_list(input: &str, cs: &Vec<char>, i: usize) -> (r: (Vec<String>, usize))
    requires
        cs@ == input@,
        i <= cs.len(),
    ensures
        r.0.deep_view() == token_list_at(cs@, i as int).0,
        r.1 == token_list_at(cs@, i as int).1,
        i <= r.1 <= cs.len(),
{
    let ghost full = token_list_at(cs@, i as int).0;
    let ghost fend = token_list_at(cs@, i as int).1;
    let e0 = scan_token(cs, i);
    let mut toks: Vec<String> = Vec::new();
    toks.push(input.substring_char(i, e0).to_owned());
    let mut pos = e0;
    proof {
        assert(toks.deep_view() =~= seq![cs@.subrange(i as int, e0 as int)]);
    }
    loop
        invariant
            cs@ == input@,
            i <= pos <= cs.len(),
            full == token_list_at(cs@, i as int).0,
            fend == token_list_at(cs@, i as int).1,
            full == toks.deep_view() + token_list_rest(cs@, pos as int).0,
            fend == token_list_rest(cs@, pos as int).1,
        decreases cs.len() - pos,
    {
        let b = scan_blanks(cs, pos);
        if b == pos {
            proof {
                assert(token_list_rest(cs@, pos as int) == (Seq::<Seq<char>>::empty(), pos as int));
                assert(full =~= toks.deep_view());
                assert(fend == pos as int);
            }
            return (toks, pos);
        }
        let e = scan_token(cs, b);
        let ghost prev = toks.deep_view();
        toks.push(input.substring_char(b, e).to_owned());
        proof {
            assert(toks.deep_view() =~= prev.push(cs@.subrange(b as int, e as int)));
            assert(prev + token_list_rest(cs@, pos as int).0 =~= toks.deep_view()
                + token_list_rest(cs@, e as int).0);
        }
        pos = e;
    }
}

fn parse_entry_key_at(input: &str, cs: &Vec<char>, i: usize) -> (r: Option<(EntryKey, usize)>)
    requires
        cs@ == input@,
        i <= cs.len(),
    ensures
        match entry_key_at(cs@, i as int) {
            Some((k, e)) => r matches Some(p) && p.0@ == k && p.1 == e && i < e <= cs.len(),
            None => r is None,
        },
{
    if keyword_matches(cs, i, "linux") {
        proof {
            reveal_strlit("linux");
        }
        match parse_tail_arg(input, cs, i + 5) {
            Some((a, e)) => Some((EntryKey::Linux(a), e)),
            None => None,
        }
    } else if keyword_matches(cs, i, "devicetree") {
        proof {
            reveal_strlit("devicetree");
        }
        match parse_tail_arg(input, cs, i + 10) {
            Some((a, e)) => Some((EntryKey::Devicetree(a), e)),
            None => None,
        }
    } else if keyword_matches(cs, i, "options") {
        proof {
            reveal_strlit("options");
        }
        let b = scan_blanks(cs, i + 7);
        if b == i + 7 {
            None
        } else {
            let (toks, e) = parse_token_list(input, cs, b);
            Some((EntryKey::Options(toks), e))
        }
    } else if keyword_matches(cs, i, "title") {
        proof {
            reveal_strlit("title");
        }
        match parse_tail_arg(input, cs, i + 5) {
            Some((a, e)) => Some((EntryKey::Title(a), e)),
            None => None,
        }
    } else {
        None
    }
}

/// Parse one menu entry key at the start of `input`; on success, the
/// unconsumed remainder of the input and the key.
pub fn entry_key(input: &str) -> (r: Option<(&str, EntryKey)>)
    ensures
        match entry_key_at(input@, 0) {
            Some((k, e)) => r matches Some(p) && p.1@ == k && p.0@ == input@.subrange(
                e,
                input@.len() as int,
            ),
            None => r is None,
        },
{
    let cs = chars_of(input);
    match parse_entry_key_at(input, &cs, 0) {
        Some((key, e)) => {
            let rest = input.substring_char(e, cs.len());
            Some((rest, key))
        },
        None => None,
    }
}

/// Parse a boot entry at the start of `input`: the unconsumed remainder
/// and the keys of the lines parsed before the first unparsable line.
pub fn boot_entry(input: &str) -> (r: (&str, BootEntry))
    ensures
        r.1@ == boot_entry_at(input@).0,
        r.0@ == input@.subrange(boot_entry_at(input@).1, input@.len() as int),
{
    let cs = chars_of(input);
    let ghost full = entries_at(cs@, 0).0;
    let ghost fend = entries_at(cs@, 0).1;
    let mut keys: Vec<EntryKey> = Vec::new();
    let mut pos: usize = 0;
    match parse_entry_key_at(input, &cs, 0) {
        None => {
            proof {
                assert(keys.deep_view() =~= Seq::<EntryKeyView>::empty());
            }
        },
        Some((k, e)) => {
            let ghost kv = k@;
            keys.push(k);
            pos = e;
            proof {
                assert(keys.deep_view() =~= seq![kv]);
            }
            loop
                invariant
                    cs@ == input@,
                    pos <= cs.len(),
                    full == keys.deep_view() + entries_rest(cs@, pos as int).0,
                    fend == entries_rest(cs@, pos as int).1,
                ensures
                    pos <= cs.len(),
                    full == keys.deep_view(),
                    fend == pos as int,
                decreases cs.len() - pos,
            {
                let rr = scan_line_run(&cs, pos);
                if rr == pos {
                    proof {
                        assert(entries_rest(cs@, pos as int) == (
                            Seq::<EntryKeyView>::empty(),
                            pos as int,
                        ));
                        assert(full =~= keys.deep_view());
                    }
                    break;
                }
                match parse_entry_key_at(input, &cs, rr) {
                    None => {
                        proof {
                            assert(entries_rest(cs@, pos as int) == (
                                Seq::<EntryKeyView>::empty(),
                                pos as int,
                            ));
                            assert(full =~= keys.deep_view());
                        }
                        break;
                    },
                    Some((k2, e2)) => {
                        let ghost kv2 = k2@;
                        let ghost prev = keys.deep_view();
                        keys.push(k2);
                        proof {
                            assert(keys.deep_view() =~= prev.push(kv2));
                            assert(prev + entries_rest(cs@, pos as int).0 =~= keys.deep_view()
                                + entries_rest(cs@, e2 as int).0);
                        }
                        pos = e2;
                    },
                }
            }
        },
    }
    let fin = scan_single_line_ending(&cs, pos);
    let rest = input.substring_char(fin, cs.len());
    (rest, BootEntry { keys })
}

} // verus!
