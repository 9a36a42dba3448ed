//! The round-trip law: any boot entry the parser can produce, serialized
//! with [`crate::uapi::entry_text`] and parsed again, comes back equal,
//! with the whole text consumed.
//!
//! The law holds exactly for the parser's range, which the `producible`
//! predicates describe: arguments are non-empty lines that start after
//! the blanks, and option tokens are free of white space and non-empty
//! except, possibly, the last.  Hand-built entries outside that range
//! (say, a title holding a line ending) are not claimed to round-trip.

use vstd::prelude::*;

use crate::parser;
use crate::uapi::{entry_text, join_sep_rest, join_tokens, key_text, EntryKeyView};

verus! {

/// An argument the parser can hand back for `title`, `linux` or
/// `devicetree`: non-empty, free of line endings, not starting with a
/// blank (leading blanks would have been consumed as the separator).
pub open spec fn producible_arg(a: Seq<char>) -> bool {
    &&& a.len() >= 1
    &&& forall|i: int| 0 <= i < a.len() ==> !parser::spec_line_ending(a[i])
    &&& !parser::spec_blank(a[0])
}

/// A token list the parser can hand back for `options`: at least one
/// token, every token free of white space, and only the last possibly
/// empty.
pub open spec fn producible_tokens(ts: Seq<Seq<char>>) -> bool {
    &&& ts.len() >= 1
    &&& forall|i: int, j: int|
        0 <= i < ts.len() && 0 <= j < ts[i].len() ==> !parser::spec_whitespace(ts[i][j])
    &&& forall|i: int| 0 <= i < ts.len() - 1 ==> ts[i].len() >= 1
}

/// An entry key the parser can produce.
pub open spec fn producible_key(k: EntryKeyView) -> bool {
    match k {
        EntryKeyView::Title(t) => producible_arg(t),
        EntryKeyView::Linux(p) => producible_arg(p),
        EntryKeyView::Devicetree(p) => producible_arg(p),
        EntryKeyView::Options(ts) => producible_tokens(ts),
    }
}

/// A boot entry the parser can produce: every key producible.
pub open spec fn producible(keys: Seq<EntryKeyView>) -> bool {
    forall|i: int| 0 <= i < keys.len() ==> producible_key(#[trigger] keys[i])
}

/// Re-parsing the joined separators-and-tokens after the first token.
proof fn lemma_token_list_rest_parse(s: Seq<char>, rs: Seq<Seq<char>>, q: int)
    requires
        forall|i: int, j: int|
            0 <= i < rs.len() && 0 <= j < rs[i].len() ==> !parser::spec_whitespace(rs[i][j]),
        forall|i: int| 0 <= i < rs.len() - 1 ==> rs[i].len() >= 1,
        0 <= q,
        q + join_sep_rest(rs).len() <= s.len(),
        s.subrange(q, q + join_sep_rest(rs).len() as int) == join_sep_rest(rs),
        q + join_sep_rest(rs).len() == s.len() || (parser::spec_whitespace(
            s[q + join_sep_rest(rs).len()],
        ) && !parser::spec_blank(s[q + join_sep_rest(rs).len()])),
    ensures
        parser::token_list_rest(s, q) == (rs, q + join_sep_rest(rs).len() as int),
    decreases rs.len(),
{
    let jl = join_sep_rest(rs).len() as int;
    if rs.len() == 0 {
        assert(jl == 0);
        parser::lemma_blank_end_is(s, q, q);
        assert(parser::token_list_rest(s, q) == (Seq::<Seq<char>>::empty(), q));
        assert(rs =~= Seq::<Seq<char>>::empty());
    } else {
        let t = rs[0];
        let tail = rs.drop_first();
        // the joined text is one blank, the next token, then the rest
        assert(join_sep_rest(rs) == seq![' '] + t + join_sep_rest(tail));
        assert(jl == 1 + t.len() + join_sep_rest(tail).len());
        assert forall|x: int| q <= x < q + jl implies s[x] == join_sep_rest(rs)[x - q] by {
            assert(s.subrange(q, q + jl)[x - q] == s[x]);
        }
        assert(s[q] == ' ');
        // the blank run ends right after the separator
        if q + 1 < s.len() {
            if t.len() >= 1 {
                assert(s[q + 1] == t[0]);
                assert(!parser::spec_whitespace(t[0]));
            } else {
                // an empty token is the last, so the terminator follows
                assert(rs.len() == 1);
                assert(join_sep_rest(tail) == Seq::<char>::empty());
                assert(q + 1 == q + jl);
            }
        }
        parser::lemma_blank_end_is(s, q, q + 1);
        // the token ends at the next white space
        let e = q + 1 + t.len() as int;
        assert forall|x: int| q + 1 <= x < e implies !parser::spec_whitespace(s[x]) by {
            assert(s[x] == join_sep_rest(rs)[x - q]);
            assert(join_sep_rest(rs)[x - q] == t[x - q - 1]);
        }
        if e < s.len() {
            if tail.len() >= 1 {
                assert(s[e] == join_sep_rest(rs)[e - q]);
                assert(join_sep_rest(rs)[e - q] == join_sep_rest(tail)[0]);
                assert(join_sep_rest(tail) == seq![' '] + tail[0] + join_sep_rest(
                    tail.drop_first(),
                ));
                assert(s[e] == ' ');
            } else {
                assert(e == q + jl);
            }
        }
        parser::lemma_token_end_is(s, q + 1, e);
        assert(s.subrange(q + 1, e) =~= t);
        // the remaining tokens parse behind this one
        assert(s.subrange(e, e + join_sep_rest(tail).len() as int) =~= join_sep_rest(tail));
        lemma_token_list_rest_parse(s, tail, e);
        assert(seq![t] + tail =~= rs);
    }
}

/// Re-parsing a whole joined token list.
proof fn lemma_token_list_parse(s: Seq<char>, ts: Seq<Seq<char>>, q: int)
    requires
        producible_tokens(ts),
        0 <= q,
        q + join_tokens(ts).len() <= s.len(),
        s.subrange(q, q + join_tokens(ts).len() as int) == join_tokens(ts),
        q + join_tokens(ts).len() == s.len() || (parser::spec_whitespace(
            s[q + join_tokens(ts).len()],
        ) && !parser::spec_blank(s[q + join_tokens(ts).len()])),
    ensures
        parser::token_list_at(s, q) == (ts, q + join_tokens(ts).len() as int),
{
    let jl = join_tokens(ts).len() as int;
    let t = ts[0];
    let tail = ts.drop_first();
    assert(join_tokens(ts) == t + join_sep_rest(tail));
    assert forall|x: int| q <= x < q + jl implies s[x] == join_tokens(ts)[x - q] by {
        assert(s.subrange(q, q + jl)[x - q] == s[x]);
    }
    // the first token ends at the next white space
    let e = q + t.len() as int;
    assert forall|x: int| q <= x < e implies !parser::spec_whitespace(s[x]) by {
        assert(s[x] == join_tokens(ts)[x - q]);
        assert(join_tokens(ts)[x - q] == t[x - q]);
    }
    if e < s.len() {
        if tail.len() >= 1 {
            assert(s[e] == join_tokens(ts)[e - q]);
            assert(join_tokens(ts)[e - q] == join_sep_rest(tail)[0]);
            assert(join_sep_rest(tail) == seq![' '] + tail[0] + join_sep_rest(tail.drop_first()));
            assert(s[e] == ' ');
        } else {
            assert(e == q + jl);
        }
    }
    parser::lemma_token_end_is(s, q, e);
    assert(s.subrange(q, e) =~= t);
    assert(s.subrange(e, e + join_sep_rest(tail).len() as int) =~= join_sep_rest(tail));
    lemma_token_list_rest_parse(s, tail, e);
    assert(seq![t] + tail =~= ts);
}

/// Re-parsing the argument that follows a keyword ending at `j`: the
/// serialized form holds one blank, then the argument, then the line's
/// terminator.
proof fn lemma_tail_arg_parse(s: Seq<char>, a: Seq<char>, j: int)
    requires
        producible_arg(a),
        0 <= j,
        j + 1 + a.len() <= s.len(),
        s[j] == ' ',
        forall|x: int| 0 <= x < a.len() ==> s[j + 1 + x] == a[x],
        j + 1 + a.len() == s.len() || parser::spec_line_ending(s[j + 1 + a.len()]),
    ensures
        parser::tail_arg_at(s, j) == Some((a, j + 1 + a.len() as int)),
{
    parser::lemma_blank_end_is(s, j, j + 1);
    let e = j + 1 + a.len() as int;
    assert forall|x: int| j + 1 <= x < e implies !parser::spec_line_ending(s[x]) by {
        assert(s[x] == a[x - j - 1]);
    }
    parser::lemma_arg_end_is(s, j + 1, e);
    assert(s.subrange(j + 1, e) =~= a);
}

/// Re-parsing one serialized key: at position `p`, with the key's line
/// laid out in `s` and a line ending (or the end of the input) after it,
/// the parser finds exactly this key.
proof fn lemma_key_parse(s: Seq<char>, k: EntryKeyView, p: int)
    requires
        producible_key(k),
        0 <= p,
        p + key_text(k).len() <= s.len(),
        s.subrange(p, p + key_text(k).len() as int) == key_text(k),
        p + key_text(k).len() == s.len() || parser::spec_line_ending(s[p + key_text(k).len()]),
    ensures
        parser::entry_key_at(s, p) == Some((k, p + key_text(k).len() as int)),
{
    reveal_strlit("linux");
    reveal_strlit("linux ");
    reveal_strlit("devicetree");
    reveal_strlit("devicetree ");
    reveal_strlit("options");
    reveal_strlit("options ");
    reveal_strlit("title");
    reveal_strlit("title ");
    let kt = key_text(k);
    let kl = kt.len() as int;
    assert forall|x: int| p <= x < p + kl implies s[x] == kt[x - p] by {
        assert(s.subrange(p, p + kl)[x - p] == s[x]);
    }
    match k {
        EntryKeyView::Linux(a) => {
            assert(kt == "linux "@ + a);
            assert forall|x: int| 0 <= x < 6 implies s[p + x] == "linux "@[x] by {
                assert(kt[x] == "linux "@[x]);
            }
            assert(parser::keyword_at(s, p, "linux"@));
            assert forall|x: int| 0 <= x < a.len() implies s[p + 5 + 1 + x] == a[x] by {
                assert(kt[6 + x] == a[x]);
            }
            lemma_tail_arg_parse(s, a, p + 5);
        },
        EntryKeyView::Devicetree(a) => {
            assert(kt == "devicetree "@ + a);
            assert forall|x: int| 0 <= x < 11 implies s[p + x] == "devicetree "@[x] by {
                assert(kt[x] == "devicetree "@[x]);
            }
            assert(!parser::keyword_at(s, p, "linux"@)) by {
                assert(parser::lower_code(s[p + 0]) != "linux"@[0] as u32);
            }
            assert(parser::keyword_at(s, p, "devicetree"@));
            assert forall|x: int| 0 <= x < a.len() implies s[p + 10 + 1 + x] == a[x] by {
                assert(kt[11 + x] == a[x]);
            }
            lemma_tail_arg_parse(s, a, p + 10);
        },
        EntryKeyView::Options(ts) => {
            assert(kt == "options "@ + join_tokens(ts));
            assert forall|x: int| 0 <= x < 8 implies s[p + x] == "options "@[x] by {
                assert(kt[x] == "options "@[x]);
            }
            assert(!parser::keyword_at(s, p, "linux"@)) by {
                assert(parser::lower_code(s[p + 0]) != "linux"@[0] as u32);
            }
            assert(!parser::keyword_at(s, p, "devicetree"@)) by {
                assert(parser::lower_code(s[p + 0]) != "devicetree"@[0] as u32);
            }
            assert(parser::keyword_at(s, p, "options"@));
            let jl = join_tokens(ts).len() as int;
            assert(kl == 8 + jl);
            assert forall|x: int| 0 <= x < jl implies s[p + 8 + x] == join_tokens(ts)[x] by {
                assert(kt[8 + x] == join_tokens(ts)[x]);
            }
            assert(s.subrange(p + 8, p + 8 + jl) =~= join_tokens(ts));
            // the blank run after the keyword ends before the first token
            if p + 8 < s.len() {
                if jl > 0 {
                    let t0 = ts[0];
                    assert(join_tokens(ts) == t0 + join_sep_rest(ts.drop_first()));
                    if t0.len() >= 1 {
                        assert(s[p + 8] == t0[0]);
                        assert(!parser::spec_whitespace(t0[0]));
                    } else {
                        // only the last token may be empty, so the list is just it
                        assert(ts.len() == 1);
                        assert(join_sep_rest(ts.drop_first()) == Seq::<char>::empty());
                    }
                } else {
                    // the line's terminator follows at once
                    assert(parser::spec_line_ending(s[p + 8]));
                }
            }
            parser::lemma_blank_end_is(s, p + 7, p + 8);
            lemma_token_list_parse(s, ts, p + 8);
        },
        EntryKeyView::Title(a) => {
            assert(kt == "title "@ + a);
            assert forall|x: int| 0 <= x < 6 implies s[p + x] == "title "@[x] by {
                assert(kt[x] == "title "@[x]);
            }
            assert(!parser::keyword_at(s, p, "linux"@)) by {
                assert(parser::lower_code(s[p + 0]) != "linux"@[0] as u32);
            }
            assert(!parser::keyword_at(s, p, "devicetree"@)) by {
                assert(parser::lower_code(s[p + 0]) != "devicetree"@[0] as u32);
            }
            assert(!parser::keyword_at(s, p, "options"@)) by {
                assert(parser::lower_code(s[p + 0]) != "options"@[0] as u32);
            }
            assert(parser::keyword_at(s, p, "title"@));
            assert forall|x: int| 0 <= x < a.len() implies s[p + 5 + 1 + x] == a[x] by {
                assert(kt[6 + x] == a[x]);
            }
            lemma_tail_arg_parse(s, a, p + 5);
        },
    }
}

/// The first character of a serialized key is its keyword's first
/// letter, so never a line ending.
proof fn lemma_key_text_head(k: EntryKeyView)
    ensures
        key_text(k).len() >= 6,
        !parser::spec_line_ending(key_text(k)[0]),
{
    reveal_strlit("linux ");
    reveal_strlit("devicetree ");
    reveal_strlit("options ");
    reveal_strlit("title ");
    match k {
        EntryKeyView::Linux(a) => {
            assert(key_text(k)[0] == 'l');
        },
        EntryKeyView::Devicetree(a) => {
            assert(key_text(k)[0] == 'd');
        },
        EntryKeyView::Options(ts) => {
            assert(key_text(k)[0] == 'o');
        },
        EntryKeyView::Title(a) => {
            assert(key_text(k)[0] == 't');
        },
    }
}

/// No keyword stands at the very end of the input.
proof fn lemma_no_key_at_end(s: Seq<char>)
    ensures
        parser::entry_key_at(s, s.len() as int) is None,
{
    reveal_strlit("linux");
    reveal_strlit("devicetree");
    reveal_strlit("options");
    reveal_strlit("title");
    assert(!parser::keyword_at(s, s.len() as int, "linux"@));
    assert(!parser::keyword_at(s, s.len() as int, "devicetree"@));
    assert(!parser::keyword_at(s, s.len() as int, "options"@));
    assert(!parser::keyword_at(s, s.len() as int, "title"@));
}

/// Re-parsing the serialized keys after the first: from the position of
/// the line ending that closes the previous key, the parser finds exactly
/// the remaining keys and stops before the final line ending.
proof fn lemma_entries_rest_parse(s: Seq<char>, tail: Seq<EntryKeyView>, p: int)
    requires
        producible(tail),
        0 <= p < s.len(),
        s.subrange(p, s.len() as int) == seq!['\n'] + entry_text(tail),
    ensures
        parser::entries_rest(s, p) == (tail, s.len() - 1),
        s[s.len() - 1] == '\n',
    decreases tail.len(),
{
    let n = s.len() as int;
    assert(s.subrange(p, n).len() == (seq!['\n'] + entry_text(tail)).len());
    assert(n - p == 1 + entry_text(tail).len());
    assert forall|x: int| p <= x < n implies s[x] == (seq!['\n'] + entry_text(tail))[x - p] by {
        assert(s.subrange(p, n)[x - p] == s[x]);
    }
    assert(s[p] == '\n');
    if tail.len() == 0 {
        assert(entry_text(tail) == Seq::<char>::empty());
        assert(p == n - 1);
        lemma_no_key_at_end(s);
        assert(parser::line_run_end(s, p) == parser::line_run_end(s, p + 1));
        assert(parser::line_run_end(s, p + 1) == p + 1);
        assert(parser::entries_rest(s, p) == (Seq::<EntryKeyView>::empty(), p));
        assert(tail =~= Seq::<EntryKeyView>::empty());
    } else {
        let k = tail[0];
        let kl = key_text(k).len() as int;
        assert(entry_text(tail) == key_text(k) + "\n"@ + entry_text(tail.drop_first()));
        reveal_strlit("\n");
        assert("\n"@ =~= seq!['\n']);
        assert(producible_key(k));
        lemma_key_text_head(k);
        // the key occupies the line that follows the line ending
        assert(entry_text(tail).len() == kl + 1 + entry_text(tail.drop_first()).len());
        assert forall|x: int| 0 <= x < kl implies s[p + 1 + x] == key_text(k)[x] by {
            assert(s[p + 1 + x] == (seq!['\n'] + entry_text(tail))[1 + x]);
            assert((seq!['\n'] + entry_text(tail))[1 + x] == entry_text(tail)[x]);
            assert(entry_text(tail)[x] == (key_text(k) + "\n"@ + entry_text(tail.drop_first()))[x]);
            assert(entry_text(tail)[x] == key_text(k)[x]);
        }
        // the line run stops at the next key's first letter
        assert(s[p + 1] == key_text(k)[0]);
        assert(parser::line_run_end(s, p) == parser::line_run_end(s, p + 1));
        assert(parser::line_run_end(s, p + 1) == p + 1);
        assert(s.subrange(p + 1, p + 1 + kl) =~= key_text(k));
        assert(s[p + 1 + kl] == '\n');
        lemma_key_parse(s, k, p + 1);
        // and the remaining keys follow behind its line ending
        assert(s.subrange(p + 1 + kl, n) =~= seq!['\n'] + entry_text(tail.drop_first()));
        lemma_entries_rest_parse(s, tail.drop_first(), p + 1 + kl);
        assert(seq![k] + tail.drop_first() =~= tail);
    }
}

/// The round-trip law: any producible boot entry, rendered to its
/// canonical text and parsed again, yields the same keys, with nothing
/// left over.
pub proof fn lemma_round_trip(keys: Seq<EntryKeyView>)
    requires
        producible(keys),
    ensures
        parser::boot_entry_at(entry_text(keys)) == (keys, entry_text(keys).len() as int),
{
    let s = entry_text(keys);
    let n = s.len() as int;
    if keys.len() == 0 {
        assert(n == 0);
        lemma_no_key_at_end(s);
    } else {
        let k = keys[0];
        let kl = key_text(k).len() as int;
        assert(s == key_text(k) + "\n"@ + entry_text(keys.drop_first()));
        reveal_strlit("\n");
        assert("\n"@ =~= seq!['\n']);
        lemma_key_text_head(k);
        assert(s.subrange(0, kl) =~= key_text(k));
        assert(s[kl] == '\n');
        lemma_key_parse(s, k, 0);
        assert(s.subrange(kl, n) =~= seq!['\n'] + entry_text(keys.drop_first()));
        lemma_entries_rest_parse(s, keys.drop_first(), kl);
        assert(seq![k] + keys.drop_first() =~= keys);
        // the one line ending left is consumed as the optional trailer
        assert(s[n - 1] == '\n');
        assert(parser::single_line_ending_end(s, n - 1) == n);
    }
}

// ------------------------------------------------------------------
// The parser's range
// ------------------------------------------------------------------

proof fn lemma_token_list_rest_producible(s: Seq<char>, i: int)
    requires
        0 <= i <= s.len(),
    ensures
        ({
            let (ts, e) = parser::token_list_rest(s, i);
            &&& forall|a: int, b: int|
                0 <= a < ts.len() && 0 <= b < ts[a].len() ==> !parser::spec_whitespace(ts[a][b])
            &&& forall|a: int| 0 <= a < ts.len() - 1 ==> ts[a].len() >= 1
        }),
    decreases s.len() - i,
{
    parser::lemma_blank_end(s, i);
    let b = parser::blank_end(s, i);
    if i < b {
        parser::lemma_token_end(s, b);
        let e2 = parser::token_end(s, b);
        lemma_token_list_rest_producible(s, e2);
        let t = s.subrange(b, e2);
        let (rest, _) = parser::token_list_rest(s, e2);
        assert(parser::token_list_rest(s, i).0 == seq![t] + rest);
        if e2 == b {
            // an empty token stops the list: what follows it is no blank
            if b < s.len() {
                parser::lemma_blank_end_is(s, b, b);
            }
            assert(parser::token_list_rest(s, e2).0 == Seq::<Seq<char>>::empty());
            assert(parser::token_list_rest(s, i).0 =~= seq![t]);
        }
    }
}

proof fn lemma_token_list_at_producible(s: Seq<char>, i: int)
    requires
        0 <= i <= s.len(),
        i == s.len() || !parser::spec_blank(s[i]),
    ensures
        producible_tokens(parser::token_list_at(s, i).0),
{
    parser::lemma_token_end(s, i);
    let e0 = parser::token_end(s, i);
    lemma_token_list_rest_producible(s, e0);
    let t = s.subrange(i, e0);
    let (rest, _) = parser::token_list_rest(s, e0);
    assert(parser::token_list_at(s, i).0 == seq![t] + rest);
    if e0 == i {
        // an empty first token stands alone
        if i < s.len() {
            parser::lemma_blank_end_is(s, i, i);
        }
        assert(parser::token_list_rest(s, e0).0 == Seq::<Seq<char>>::empty());
        assert(parser::token_list_at(s, i).0 =~= seq![t]);
    }
}

proof fn lemma_tail_arg_at_producible(s: Seq<char>, j: int)
    requires
        0 <= j <= s.len(),
        parser::tail_arg_at(s, j) is Some,
    ensures
        producible_arg((parser::tail_arg_at(s, j)->0).0),
{
    parser::lemma_blank_end(s, j);
    let b = parser::blank_end(s, j);
    parser::lemma_arg_end(s, b);
    let e = parser::arg_end(s, b);
    let a = s.subrange(b, e);
    assert(a[0] == s[b]);
    assert forall|x: int| 0 <= x < a.len() implies !parser::spec_line_ending(a[x]) by {
        assert(a[x] == s[b + x]);
    }
}

/// Every key the parser hands back lies in the serializer's range.
pub proof fn lemma_entry_key_at_producible(s: Seq<char>, i: int)
    requires
        0 <= i <= s.len(),
        parser::entry_key_at(s, i) is Some,
    ensures
        producible_key((parser::entry_key_at(s, i)->0).0),
{
    reveal_strlit("linux");
    reveal_strlit("devicetree");
    reveal_strlit("options");
    reveal_strlit("title");
    if parser::keyword_at(s, i, "linux"@) {
        lemma_tail_arg_at_producible(s, i + 5);
    } else if parser::keyword_at(s, i, "devicetree"@) {
        lemma_tail_arg_at_producible(s, i + 10);
    } else if parser::keyword_at(s, i, "options"@) {
        parser::lemma_blank_end(s, i + 7);
        let b = parser::blank_end(s, i + 7);
        lemma_token_list_at_producible(s, b);
    } else {
        lemma_tail_arg_at_producible(s, i + 5);
    }
}

proof fn lemma_entries_rest_producible(s: Seq<char>, i: int)
    requires
        0 <= i <= s.len(),
    ensures
        producible(parser::entries_rest(s, i).0),
    decreases s.len() - i,
{
    parser::lemma_line_run_end(s, i);
    let r = parser::line_run_end(s, i);
    if i < r && parser::entry_key_at(s, r) is Some {
        parser::lemma_entry_key_at_bounds(s, r);
        lemma_entry_key_at_producible(s, r);
        let (k, j) = parser::entry_key_at(s, r)->0;
        lemma_entries_rest_producible(s, j);
        let (ks, _) = parser::entries_rest(s, j);
        assert(parser::entries_rest(s, i).0 == seq![k] + ks);
        assert forall|x: int| 0 <= x < (seq![k] + ks).len() implies producible_key(
            #[trigger] (seq![k] + ks)[x],
        ) by {
            if x > 0 {
                assert((seq![k] + ks)[x] == ks[x - 1]);
            }
        }
    }
}

/// The two halves composed: whatever entry parsing any text yields,
/// serializing that entry and parsing the result yields it again, with
/// the whole serialized text consumed.
pub proof fn lemma_parse_serialize_parse(s: Seq<char>)
    ensures
        ({
            let keys = parser::boot_entry_at(s).0;
            parser::boot_entry_at(entry_text(keys)) == (keys, entry_text(keys).len() as int)
        }),
{
    lemma_parse_producible(s);
    lemma_round_trip(parser::boot_entry_at(s).0);
}

/// Everything the parser hands back lies in the serializer's range, so
/// the round-trip law applies to every parsed entry.
pub proof fn lemma_parse_producible(s: Seq<char>)
    ensures
        producible(parser::boot_entry_at(s).0),
{
    if parser::entry_key_at(s, 0) is Some {
        parser::lemma_entry_key_at_bounds(s, 0);
        lemma_entry_key_at_producible(s, 0);
        let (k, j) = parser::entry_key_at(s, 0)->0;
        lemma_entries_rest_producible(s, j);
        let (ks, _) = parser::entries_rest(s, j);
        assert(parser::entries_at(s, 0).0 == seq![k] + ks);
        assert forall|x: int| 0 <= x < (seq![k] + ks).len() implies producible_key(
            #[trigger] (seq![k] + ks)[x],
        ) by {
            if x > 0 {
                assert((seq![k] + ks)[x] == ks[x - 1]);
            }
        }
    }
}

} // verus!
