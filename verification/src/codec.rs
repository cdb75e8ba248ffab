//! The tagged text encoding of a history and the legacy untagged encoding,
//! as used both in the persisted file and on the wire.
//!
//! The encoder produces the canonical form: a bracketed, comma-separated
//! list with no extra whitespace, each entry tagged `Text(..)` or
//! `Image((width:..,height:..,bytes:[..]))`, strings quoted with `"` and
//! `\` escaped by a backslash, numbers as unsigned decimals without a
//! leading zero. The decoder accepts exactly that canonical form; the
//! legacy decoder accepts the same form specialized to a plain list of
//! quoted strings, the shape an installation predating image support
//! persisted.

use vstd::prelude::*;

use crate::entry::ClipboardHistoryEntry;
use crate::entry::EntryModel;
use crate::entry::ImageModel;
use crate::history::entries_view;
use crate::text::chars_of;
use crate::text::dec_seq;
use crate::text::lemma_parse_nat_len;
use crate::text::push_dec;
use crate::text::push_str_chars;
use crate::text::spec_parse_nat;
use crate::text::string_of;

verus! {

// ---------------------------------------------------------------------
// Encoding
// ---------------------------------------------------------------------
/// How one character stands inside a quoted string: `"` and `\` get a
/// backslash in front, every other character stands as itself.
pub open spec fn escape_char(c: char) -> Seq<char> {
    if c == '"' || c == '\\' {
        seq!['\\', c]
    } else {
        seq![c]
    }
}

pub open spec fn escape_seq(t: Seq<char>) -> Seq<char>
    decreases t.len(),
{
    if t.len() == 0 {
        Seq::empty()
    } else {
        escape_char(t.first()) + escape_seq(t.drop_first())
    }
}

/// A quoted, escaped string.
pub open spec fn encode_string(t: Seq<char>) -> Seq<char> {
    seq!['"'] + escape_seq(t) + seq!['"']
}

pub open spec fn encode_bytes_items(b: Seq<u8>) -> Seq<char>
    decreases b.len(),
{
    if b.len() == 0 {
        Seq::empty()
    } else if b.len() == 1 {
        dec_seq(b.first() as nat)
    } else {
        dec_seq(b.first() as nat) + seq![','] + encode_bytes_items(b.drop_first())
    }
}

pub open spec fn encode_byte_list(b: Seq<u8>) -> Seq<char> {
    seq!['['] + encode_bytes_items(b) + seq![']']
}

pub open spec fn encode_entry(e: EntryModel) -> Seq<char> {
    match e {
        EntryModel::Text(t) => seq!['T', 'e', 'x', 't', '('] + encode_string(t) + seq![')'],
        EntryModel::Image(im) => seq!['I', 'm', 'a', 'g', 'e', '(', '(', 'w', 'i', 'd', 't', 'h', ':']
            + dec_seq(im.width) + seq![',', 'h', 'e', 'i', 'g', 'h', 't', ':'] + dec_seq(im.height)
            + seq![',', 'b', 'y', 't', 'e', 's', ':'] + encode_byte_list(im.bytes) + seq![')', ')'],
    }
}

pub open spec fn encode_entry_items(h: Seq<EntryModel>) -> Seq<char>
    decreases h.len(),
{
    if h.len() == 0 {
        Seq::empty()
    } else if h.len() == 1 {
        encode_entry(h.first())
    } else {
        encode_entry(h.first()) + seq![','] + encode_entry_items(h.drop_first())
    }
}

/// The tagged encoding of a whole history, newest entry first.
pub open spec fn spec_encode_history(h: Seq<EntryModel>) -> Seq<char> {
    seq!['['] + encode_entry_items(h) + seq![']']
}

pub open spec fn encode_legacy_items(ss: Seq<Seq<char>>) -> Seq<char>
    decreases ss.len(),
{
    if ss.len() == 0 {
        Seq::empty()
    } else if ss.len() == 1 {
        encode_string(ss.first())
    } else {
        encode_string(ss.first()) + seq![','] + encode_legacy_items(ss.drop_first())
    }
}

/// The legacy encoding: a plain list of quoted strings, no tags.
pub open spec fn spec_encode_legacy(ss: Seq<Seq<char>>) -> Seq<char> {
    seq!['['] + encode_legacy_items(ss) + seq![']']
}

/// An entry whose dimensions fit the machine word, as every entry taken
/// from a real clipboard does.
pub open spec fn entry_bounded(e: EntryModel) -> bool {
    match e {
        EntryModel::Text(_) => true,
        EntryModel::Image(im) => im.width <= usize::MAX && im.height <= usize::MAX,
    }
}

// ---------------------------------------------------------------------
// Parsing: each function consumes a prefix and hands back the rest.
// ---------------------------------------------------------------------
pub open spec fn spec_parse_char(s: Seq<char>, c: char) -> Option<Seq<char>> {
    if s.len() > 0 && s.first() == c {
        Some(s.drop_first())
    } else {
        None
    }
}

pub open spec fn spec_parse_lit(s: Seq<char>, lit: Seq<char>) -> Option<Seq<char>> {
    if lit.len() <= s.len() && s.take(lit.len() as int) == lit {
        Some(s.skip(lit.len() as int))
    } else {
        None
    }
}

/// The inside of a quoted string, up to and including the closing quote;
/// `acc` collects the unescaped characters read so far.
pub open spec fn spec_parse_string_rest(s: Seq<char>, acc: Seq<char>) -> Option<
    (Seq<char>, Seq<char>),
>
    decreases s.len(),
{
    if s.len() == 0 {
        None
    } else if s.first() == '"' {
        Some((acc, s.drop_first()))
    } else if s.first() == '\\' {
        if s.len() >= 2 && (s[1] == '"' || s[1] == '\\') {
            spec_parse_string_rest(s.skip(2), acc.push(s[1]))
        } else {
            None
        }
    } else {
        spec_parse_string_rest(s.drop_first(), acc.push(s.first()))
    }
}

pub open spec fn spec_parse_string(s: Seq<char>) -> Option<(Seq<char>, Seq<char>)> {
    match spec_parse_char(s, '"') {
        Some(r) => spec_parse_string_rest(r, Seq::empty()),
        None => None,
    }
}

pub open spec fn spec_parse_byte(s: Seq<char>) -> Option<(u8, Seq<char>)> {
    match spec_parse_nat(s) {
        Some((n, r)) => if n <= 255 {
            Some((n as u8, r))
        } else {
            None
        },
        None => None,
    }
}

/// One or more comma-separated bytes, up to and including the closing `]`.
pub open spec fn spec_parse_byte_items(s: Seq<char>, acc: Seq<u8>) -> Option<(Seq<u8>, Seq<char>)>
    decreases s.len(),
    via spec_parse_byte_items_dec
{
    match spec_parse_byte(s) {
        None => None,
        Some((b, r)) => if r.len() > 0 && r.first() == ',' {
            spec_parse_byte_items(r.drop_first(), acc.push(b))
        } else if r.len() > 0 && r.first() == ']' {
            Some((acc.push(b), r.drop_first()))
        } else {
            None
        },
    }
}

#[via_fn]
proof fn spec_parse_byte_items_dec(s: Seq<char>, acc: Seq<u8>) {
    lemma_parse_nat_len(s);
}

pub open spec fn spec_parse_byte_list(s: Seq<char>) -> Option<(Seq<u8>, Seq<char>)> {
    match spec_parse_char(s, '[') {
        Some(r) => if r.len() > 0 && r.first() == ']' {
            Some((Seq::empty(), r.drop_first()))
        } else {
            spec_parse_byte_items(r, Seq::empty())
        },
        None => None,
    }
}

pub open spec fn lit_text() -> Seq<char> {
    seq!['T', 'e', 'x', 't', '(']
}

pub open spec fn lit_image() -> Seq<char> {
    seq!['I', 'm', 'a', 'g', 'e', '(', '(', 'w', 'i', 'd', 't', 'h', ':']
}

pub open spec fn lit_height() -> Seq<char> {
    seq![',', 'h', 'e', 'i', 'g', 'h', 't', ':']
}

pub open spec fn lit_bytes() -> Seq<char> {
    seq![',', 'b', 'y', 't', 'e', 's', ':']
}

pub open spec fn lit_close() -> Seq<char> {
    seq![')', ')']
}

pub open spec fn spec_parse_entry(s: Seq<char>) -> Option<(EntryModel, Seq<char>)> {
    match spec_parse_lit(s, lit_text()) {
        Some(r) => match spec_parse_string(r) {
            Some((t, r2)) => match spec_parse_char(r2, ')') {
                Some(r3) => Some((EntryModel::Text(t), r3)),
                None => None,
            },
            None => None,
        },
        None => match spec_parse_lit(s, lit_image()) {
            Some(r) => match spec_parse_nat(r) {
                Some((w, r2)) => match spec_parse_lit(r2, lit_height()) {
                    Some(r3) => match spec_parse_nat(r3) {
                        Some((h, r4)) => match spec_parse_lit(r4, lit_bytes()) {
                            Some(r5) => match spec_parse_byte_list(r5) {
                                Some((b, r6)) => match spec_parse_lit(r6, lit_close()) {
                                    Some(r7) => Some(
                                        (
                                            EntryModel::Image(
                                                ImageModel { width: w, height: h, bytes: b },
                                            ),
                                            r7,
                                        ),
                                    ),
                                    None => None,
                                },
                                None => None,
                            },
                            None => None,
                        },
                        None => None,
                    },
                    None => None,
                },
                None => None,
            },
            None => None,
        },
    }
}

proof fn lemma_parse_string_rest_len(s: Seq<char>, acc: Seq<char>)
    ensures
        spec_parse_string_rest(s, acc) matches Some(p) ==> p.1.len() < s.len(),
    decreases s.len(),
{
    if s.len() == 0 {
    } else if s.first() == '"' {
    } else if s.first() == '\\' {
        if s.len() >= 2 && (s[1] == '"' || s[1] == '\\') {
            lemma_parse_string_rest_len(s.skip(2), acc.push(s[1]));
        }
    } else {
        lemma_parse_string_rest_len(s.drop_first(), acc.push(s.first()));
    }
}

proof fn lemma_parse_byte_items_len(s: Seq<char>, acc: Seq<u8>)
    ensures
        spec_parse_byte_items(s, acc) matches Some(p) ==> p.1.len() < s.len(),
    decreases s.len(),
{
    lemma_parse_nat_len(s);
    match spec_parse_byte(s) {
        None => {},
        Some((b, r)) => {
            if r.len() > 0 && r.first() == ',' {
                lemma_parse_byte_items_len(r.drop_first(), acc.push(b));
            }
        },
    }
}

proof fn lemma_parse_entry_len(s: Seq<char>)
    ensures
        spec_parse_entry(s) matches Some(p) ==> p.1.len() < s.len(),
{
    match spec_parse_lit(s, lit_text()) {
        Some(r) => {
            lemma_parse_string_rest_len(r.drop_first(), Seq::empty());
        },
        None => {
            match spec_parse_lit(s, lit_image()) {
                Some(r) => {
                    lemma_parse_nat_len(r);
                    match spec_parse_nat(r) {
                        Some((w, r2)) => {
                            match spec_parse_lit(r2, lit_height()) {
                                Some(r3) => {
                                    lemma_parse_nat_len(r3);
                                    match spec_parse_nat(r3) {
                                        Some((h, r4)) => {
                                            match spec_parse_lit(r4, lit_bytes()) {
                                                Some(r5) => {
                                                    match spec_parse_byte_list(r5) {
                                                        Some((b, r6)) => {
                                                            lemma_parse_byte_items_len(
                                                                r5.drop_first(),
                                                                Seq::empty(),
                                                            );
                                                        },
                                                        None => {},
                                                    }
                                                },
                                                None => {},
                                            }
                                        },
                                        None => {},
                                    }
                                },
                                None => {},
                            }
                        },
                        None => {},
                    }
                },
                None => {},
            }
        },
    }
}

/// One or more comma-separated entries, up to and including the closing `]`.
pub open spec fn spec_parse_entry_items(s: Seq<char>, acc: Seq<EntryModel>) -> Option<
    (Seq<EntryModel>, Seq<char>),
>
    decreases s.len(),
    via spec_parse_entry_items_dec
{
    match spec_parse_entry(s) {
        None => None,
        Some((e, r)) => if r.len() > 0 && r.first() == ',' {
            spec_parse_entry_items(r.drop_first(), acc.push(e))
        } else if r.len() > 0 && r.first() == ']' {
            Some((acc.push(e), r.drop_first()))
        } else {
            None
        },
    }
}

#[via_fn]
proof fn spec_parse_entry_items_dec(s: Seq<char>, acc: Seq<EntryModel>) {
    lemma_parse_entry_len(s);
}

/// One or more comma-separated quoted strings, up to and including `]`.
pub open spec fn spec_parse_legacy_items(s: Seq<char>, acc: Seq<Seq<char>>) -> Option<
    (Seq<Seq<char>>, Seq<char>),
>
    decreases s.len(),
    via spec_parse_legacy_items_dec
{
    match spec_parse_string(s) {
        None => None,
        Some((t, r)) => if r.len() > 0 && r.first() == ',' {
            spec_parse_legacy_items(r.drop_first(), acc.push(t))
        } else if r.len() > 0 && r.first() == ']' {
            Some((acc.push(t), r.drop_first()))
        } else {
            None
        },
    }
}

#[via_fn]
proof fn spec_parse_legacy_items_dec(s: Seq<char>, acc: Seq<Seq<char>>) {
    if s.len() > 0 && s.first() == '"' {
        lemma_parse_string_rest_len(s.drop_first(), Seq::empty());
    }
}

/// What a whole input means under the tagged encoding: `None` unless the
/// input is exactly one canonical history.
pub open spec fn spec_decode_history(s: Seq<char>) -> Option<Seq<EntryModel>> {
    match spec_parse_char(s, '[') {
        Some(r) => if r.len() > 0 && r.first() == ']' {
            if r.len() == 1 {
                Some(Seq::empty())
            } else {
                None
            }
        } else {
            match spec_parse_entry_items(r, Seq::empty()) {
                Some((es, rest)) => if rest.len() == 0 {
                    Some(es)
                } else {
                    None
                },
                None => None,
            }
        },
        None => None,
    }
}

/// What a whole input means under the legacy encoding.
pub open spec fn spec_decode_legacy(s: Seq<char>) -> Option<Seq<Seq<char>>> {
    match spec_parse_char(s, '[') {
        Some(r) => if r.len() > 0 && r.first() == ']' {
            if r.len() == 1 {
                Some(Seq::empty())
            } else {
                None
            }
        } else {
            match spec_parse_legacy_items(r, Seq::empty()) {
                Some((ss, rest)) => if rest.len() == 0 {
                    Some(ss)
                } else {
                    None
                },
                None => None,
            }
        },
        None => None,
    }
}

// ---------------------------------------------------------------------
// Exec encoding
// ---------------------------------------------------------------------
pub proof fn lemma_escape_snoc(t: Seq<char>, c: char)
    ensures
        escape_seq(t.push(c)) == escape_seq(t) + escape_char(c),
    decreases t.len(),
{
    if t.len() == 0 {
        assert(t.push(c).len() == 1);
        assert(t.push(c).first() == c);
        assert(t.push(c).drop_first() =~= Seq::<char>::empty());
        assert(escape_seq(Seq::<char>::empty()) == Seq::<char>::empty());
        assert(escape_seq(t.push(c)) == escape_char(c) + Seq::<char>::empty());
        assert(escape_char(c) + Seq::<char>::empty() =~= escape_char(c));
        assert(escape_seq(t) + escape_char(c) =~= escape_char(c));
    } else {
        assert(t.push(c).first() == t.first());
        assert(t.push(c).drop_first() =~= t.drop_first().push(c));
        lemma_escape_snoc(t.drop_first(), c);
        assert(escape_seq(t.push(c)) =~= escape_seq(t) + escape_char(c));
    }
}

pub proof fn lemma_bytes_items_snoc(b: Seq<u8>, x: u8)
    ensures
        encode_bytes_items(b.push(x)) == if b.len() == 0 {
            dec_seq(x as nat)
        } else {
            encode_bytes_items(b) + seq![','] + dec_seq(x as nat)
        },
    decreases b.len(),
{
    if b.len() == 0 {
        assert(b.push(x).first() == x);
        assert(encode_bytes_items(b.push(x)) == dec_seq(x as nat));
    } else {
        assert(b.push(x).first() == b.first());
        assert(b.push(x).drop_first() =~= b.drop_first().push(x));
        lemma_bytes_items_snoc(b.drop_first(), x);
        assert(encode_bytes_items(b.push(x)) =~= encode_bytes_items(b) + seq![','] + dec_seq(
            x as nat,
        ));
    }
}

pub proof fn lemma_entry_items_snoc(h: Seq<EntryModel>, e: EntryModel)
    ensures
        encode_entry_items(h.push(e)) == if h.len() == 0 {
            encode_entry(e)
        } else {
            encode_entry_items(h) + seq![','] + encode_entry(e)
        },
    decreases h.len(),
{
    if h.len() == 0 {
        assert(h.push(e).first() == e);
        assert(encode_entry_items(h.push(e)) == encode_entry(e));
    } else {
        assert(h.push(e).first() == h.first());
        assert(h.push(e).drop_first() =~= h.drop_first().push(e));
        lemma_entry_items_snoc(h.drop_first(), e);
        assert(encode_entry_items(h.push(e)) =~= encode_entry_items(h) + seq![','] + encode_entry(
            e,
        ));
    }
}

/// Append a text's characters, escaped for a quoted string.
fn push_escaped(out: &mut Vec<char>, t: &Vec<char>)
    ensures
        final(out)@ == old(out)@ + escape_seq(t@),
{
    let n = t.len();
    let mut i: usize = 0;
    while i < n
        invariant
            n == t@.len(),
            i <= n,
            out@ == old(out)@ + escape_seq(t@.take(i as int)),
        decreases n - i,
    {
        let c = t[i];
        if c == '"' || c == '\\' {
            out.push('\\');
        }
        out.push(c);
        proof {
            assert(t@.take(i + 1) =~= t@.take(i as int).push(t@[i as int]));
            lemma_escape_snoc(t@.take(i as int), t@[i as int]);
            assert(out@ =~= old(out)@ + escape_seq(t@.take(i + 1)));
        }
        i = i + 1;
    }
    proof {
        assert(t@.take(n as int) =~= t@);
    }
}

/// Append the canonical encoding of one entry.
fn push_entry(out: &mut Vec<char>, e: &ClipboardHistoryEntry)
    ensures
        final(out)@ == old(out)@ + encode_entry(e@),
{
    match e {
        ClipboardHistoryEntry::Text(s) => {
            push_str_chars(out, "Text(\"");
            let cs = chars_of(s.as_str());
            push_escaped(out, &cs);
            push_str_chars(out, "\")");
            proof {
                reveal_strlit("Text(\"");
                reveal_strlit("\")");
                assert("Text(\""@ =~= seq!['T', 'e', 'x', 't', '(', '"']);
                assert("\")"@ =~= seq!['"', ')']);
                assert(out@ =~= old(out)@ + encode_entry(e@));
            }
        },
        ClipboardHistoryEntry::Image(img) => {
            push_str_chars(out, "Image((width:");
            push_dec(out, img.width);
            push_str_chars(out, ",height:");
            push_dec(out, img.height);
            push_str_chars(out, ",bytes:[");
            let ghost base = out@;
            let n = img.bytes.len();
            let mut i: usize = 0;
            while i < n
                invariant
                    n == img.bytes@.len(),
                    i <= n,
                    out@ == base + encode_bytes_items(img.bytes@.take(i as int)),
                decreases n - i,
            {
                if i > 0 {
                    out.push(',');
                }
                let b = img.bytes[i];
                push_dec(out, b as usize);
                proof {
                    assert(img.bytes@.take(i + 1) =~= img.bytes@.take(i as int).push(
                        img.bytes@[i as int],
                    ));
                    lemma_bytes_items_snoc(img.bytes@.take(i as int), img.bytes@[i as int]);
                    assert(out@ =~= base + encode_bytes_items(img.bytes@.take(i + 1)));
                }
                i = i + 1;
            }
            push_str_chars(out, "]))");
            proof {
                assert(img.bytes@.take(n as int) =~= img.bytes@);
                reveal_strlit("Image((width:");
                reveal_strlit(",height:");
                reveal_strlit(",bytes:[");
                reveal_strlit("]))");
                assert("Image((width:"@ =~= seq![
                    'I', 'm', 'a', 'g', 'e', '(', '(', 'w', 'i', 'd', 't', 'h', ':',
                ]);
                assert(",height:"@ =~= seq![',', 'h', 'e', 'i', 'g', 'h', 't', ':']);
                assert(",bytes:["@ =~= seq![',', 'b', 'y', 't', 'e', 's', ':', '[']);
                assert("]))"@ =~= seq![']', ')', ')']);
                assert(out@ =~= old(out)@ + encode_entry(e@));
            }
        },
    }
}

/// The canonical tagged encoding of a list of entries, newest first:
/// what is written to the history file and sent over the wire.
pub fn encode_entries(entries: &Vec<ClipboardHistoryEntry>) -> (s: String)
    ensures
        s@ == spec_encode_history(entries_view(entries@)),
{
    let ghost em = entries_view(entries@);
    let mut out: Vec<char> = Vec::new();
    out.push('[');
    let n = entries.len();
    let mut i: usize = 0;
    while i < n
        invariant
            n == entries@.len(),
            em == entries_view(entries@),
            i <= n,
            out@ == seq!['['] + encode_entry_items(em.take(i as int)),
        decreases n - i,
    {
        if i > 0 {
            out.push(',');
        }
        push_entry(&mut out, &entries[i]);
        proof {
            assert(em.take(i + 1) =~= em.take(i as int).push(em[i as int]));
            lemma_entry_items_snoc(em.take(i as int), em[i as int]);
            assert(out@ =~= seq!['['] + encode_entry_items(em.take(i + 1)));
        }
        i = i + 1;
    }
    out.push(']');
    proof {
        assert(em.take(n as int) =~= em);
        assert(out@ =~= spec_encode_history(em));
    }
    string_of(&out)
}

} // verus!
