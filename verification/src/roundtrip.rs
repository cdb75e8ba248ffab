//! The laws tying the decoder to the encoder: decoding an encoded history
//! gives the history back, a legacy string list decodes to the same
//! strings, and a nonempty legacy payload is never mistaken for a tagged
//! one.

use vstd::prelude::*;

use crate::codec::encode_byte_list;
use crate::codec::encode_bytes_items;
use crate::codec::encode_entry;
use crate::codec::encode_entry_items;
use crate::codec::encode_legacy_items;
use crate::codec::encode_string;
use crate::codec::entry_bounded;
use crate::codec::escape_char;
use crate::codec::escape_seq;
use crate::codec::lit_bytes;
use crate::codec::lit_close;
use crate::codec::lit_height;
use crate::codec::lit_image;
use crate::codec::lit_text;
use crate::codec::spec_decode_history;
use crate::codec::spec_decode_legacy;
use crate::codec::spec_encode_history;
use crate::codec::spec_encode_legacy;
use crate::codec::spec_parse_byte;
use crate::codec::spec_parse_byte_items;
use crate::codec::spec_parse_byte_list;
use crate::codec::spec_parse_entry;
use crate::codec::spec_parse_entry_items;
use crate::codec::spec_parse_legacy_items;
use crate::codec::spec_parse_lit;
use crate::codec::spec_parse_string;
use crate::codec::spec_parse_string_rest;
use crate::entry::EntryModel;
use crate::entry::ImageModel;
use crate::text::dec_seq;
use crate::text::is_digit;
use crate::text::lemma_dec_seq_shape;
use crate::text::lemma_parse_nat_dec;

verus! {

proof fn lemma_parse_lit_prefix(lit: Seq<char>, rest: Seq<char>)
    ensures
        spec_parse_lit(lit + rest, lit) == Some(rest),
{
    let s = lit + rest;
    assert(s.take(lit.len() as int) =~= lit);
    assert(s.skip(lit.len() as int) =~= rest);
}

proof fn lemma_parse_string_content(t: Seq<char>, acc: Seq<char>, rest: Seq<char>)
    ensures
        spec_parse_string_rest(escape_seq(t) + seq!['"'] + rest, acc) == Some((acc + t, rest)),
    decreases t.len(),
{
    let s = escape_seq(t) + seq!['"'] + rest;
    if t.len() == 0 {
        assert(s =~= seq!['"'] + rest);
        assert(s.first() == '"');
        assert(s.drop_first() =~= rest);
        assert(acc + t =~= acc);
    } else {
        let c = t.first();
        let t2 = t.drop_first();
        assert(escape_seq(t) == escape_char(c) + escape_seq(t2));
        if c == '"' || c == '\\' {
            assert(escape_char(c) == seq!['\\', c]);
            assert(s =~= seq!['\\', c] + (escape_seq(t2) + seq!['"'] + rest));
            assert(s.first() == '\\');
            assert(s[1] == c);
            assert(s.len() >= 2);
            assert(s.skip(2) =~= escape_seq(t2) + seq!['"'] + rest);
            lemma_parse_string_content(t2, acc.push(c), rest);
            assert(acc.push(c) + t2 =~= acc + t);
        } else {
            assert(escape_char(c) == seq![c]);
            assert(s =~= seq![c] + (escape_seq(t2) + seq!['"'] + rest));
            assert(s.first() == c);
            assert(s.drop_first() =~= escape_seq(t2) + seq!['"'] + rest);
            lemma_parse_string_content(t2, acc.push(c), rest);
            assert(acc.push(c) + t2 =~= acc + t);
        }
    }
}

proof fn lemma_parse_string_encode(t: Seq<char>, rest: Seq<char>)
    ensures
        spec_parse_string(encode_string(t) + rest) == Some((t, rest)),
{
    let s = encode_string(t) + rest;
    assert(s.first() == '"');
    assert(s.len() > 0);
    assert(s.drop_first() =~= escape_seq(t) + seq!['"'] + rest);
    lemma_parse_string_content(t, Seq::empty(), rest);
    assert(Seq::<char>::empty() + t =~= t);
}

proof fn lemma_parse_byte_items_encode(b: Seq<u8>, acc: Seq<u8>, rest: Seq<char>)
    requires
        b.len() > 0,
        rest.len() > 0 ==> !is_digit(rest.first()),
    ensures
        spec_parse_byte_items(encode_bytes_items(b) + seq![']'] + rest, acc) == Some(
            (acc + b, rest),
        ),
    decreases b.len(),
{
    let s = encode_bytes_items(b) + seq![']'] + rest;
    let b0 = b.first();
    if b.len() == 1 {
        let r1 = seq![']'] + rest;
        assert(s =~= dec_seq(b0 as nat) + r1);
        assert(r1.first() == ']');
        assert(!is_digit(']'));
        lemma_parse_nat_dec(b0 as nat, r1);
        assert(spec_parse_byte(s) == Some((b0, r1)));
        assert(r1.drop_first() =~= rest);
        assert(acc.push(b0) =~= acc + b);
    } else {
        let b2 = b.drop_first();
        let r1 = seq![','] + (encode_bytes_items(b2) + seq![']'] + rest);
        assert(s =~= dec_seq(b0 as nat) + r1);
        assert(r1.first() == ',');
        assert(!is_digit(','));
        lemma_parse_nat_dec(b0 as nat, r1);
        assert(spec_parse_byte(s) == Some((b0, r1)));
        assert(r1.drop_first() =~= encode_bytes_items(b2) + seq![']'] + rest);
        lemma_parse_byte_items_encode(b2, acc.push(b0), rest);
        assert(acc.push(b0) + b2 =~= acc + b);
    }
}

proof fn lemma_parse_byte_list_encode(b: Seq<u8>, rest: Seq<char>)
    requires
        rest.len() > 0 ==> !is_digit(rest.first()),
    ensures
        spec_parse_byte_list(encode_byte_list(b) + rest) == Some((b, rest)),
{
    let s = encode_byte_list(b) + rest;
    assert(s.first() == '[');
    let r = s.drop_first();
    assert(r =~= encode_bytes_items(b) + seq![']'] + rest);
    if b.len() == 0 {
        assert(r =~= seq![']'] + rest);
        assert(r.first() == ']');
        assert(r.drop_first() =~= rest);
        assert(Seq::<u8>::empty() =~= b);
    } else {
        lemma_dec_seq_shape(b.first() as nat);
        assert(r.first() == dec_seq(b.first() as nat).first());
        assert(is_digit(r.first()));
        assert(r.first() != ']');
        lemma_parse_byte_items_encode(b, Seq::empty(), rest);
        assert(Seq::<u8>::empty() + b =~= b);
    }
}

#[verifier::rlimit(80)]
proof fn lemma_parse_entry_encode(e: EntryModel, rest: Seq<char>)
    requires
        entry_bounded(e),
    ensures
        spec_parse_entry(encode_entry(e) + rest) == Some((e, rest)),
{
    let s = encode_entry(e) + rest;
    match e {
        EntryModel::Text(t) => {
            let r2 = seq![')'] + rest;
            let x = encode_string(t) + seq![')'] + rest;
            assert(s =~= lit_text() + x);
            lemma_parse_lit_prefix(lit_text(), x);
            assert(x =~= encode_string(t) + r2);
            lemma_parse_string_encode(t, r2);
            assert(r2.first() == ')');
            assert(r2.drop_first() =~= rest);
        },
        EntryModel::Image(im) => {
            // The text branch must fail: the first character differs.
            assert(s[0] == 'I');
            if lit_text().len() <= s.len() {
                assert(s.take(lit_text().len() as int)[0] == 'I');
                assert(lit_text()[0] == 'T');
                assert(s.take(lit_text().len() as int) != lit_text());
            }
            assert(spec_parse_lit(s, lit_text()) is None);
            let tail1 = dec_seq(im.width) + lit_height() + dec_seq(im.height) + lit_bytes()
                + encode_byte_list(im.bytes) + lit_close() + rest;
            assert(s =~= lit_image() + tail1);
            lemma_parse_lit_prefix(lit_image(), tail1);
            let tail2 = lit_height() + dec_seq(im.height) + lit_bytes() + encode_byte_list(
                im.bytes,
            ) + lit_close() + rest;
            assert(tail1 =~= dec_seq(im.width) + tail2);
            assert(tail2.first() == ',');
            assert(!is_digit(','));
            lemma_parse_nat_dec(im.width, tail2);
            let tail3 = dec_seq(im.height) + lit_bytes() + encode_byte_list(im.bytes) + lit_close()
                + rest;
            assert(tail2 =~= lit_height() + tail3);
            lemma_parse_lit_prefix(lit_height(), tail3);
            let tail4 = lit_bytes() + encode_byte_list(im.bytes) + lit_close() + rest;
            assert(tail3 =~= dec_seq(im.height) + tail4);
            assert(tail4.first() == ',');
            lemma_parse_nat_dec(im.height, tail4);
            let tail5 = encode_byte_list(im.bytes) + (lit_close() + rest);
            assert(tail4 =~= lit_bytes() + tail5);
            lemma_parse_lit_prefix(lit_bytes(), tail5);
            let tail6 = lit_close() + rest;
            assert(tail6.first() == ')');
            assert(!is_digit(')'));
            lemma_parse_byte_list_encode(im.bytes, tail6);
            lemma_parse_lit_prefix(lit_close(), rest);
            assert(tail6 =~= lit_close() + rest);
            assert((ImageModel { width: im.width, height: im.height, bytes: im.bytes }) =~= im);
        },
    }
}

#[verifier::rlimit(80)]
proof fn lemma_parse_entry_items_encode(h: Seq<EntryModel>, acc: Seq<EntryModel>, rest: Seq<char>)
    requires
        h.len() > 0,
        forall|i: int| 0 <= i < h.len() ==> entry_bounded(#[trigger] h[i]),
    ensures
        spec_parse_entry_items(encode_entry_items(h) + seq![']'] + rest, acc) == Some(
            (acc + h, rest),
        ),
    decreases h.len(),
{
    let s = encode_entry_items(h) + seq![']'] + rest;
    let e0 = h.first();
    assert(entry_bounded(e0));
    if h.len() == 1 {
        let r1 = seq![']'] + rest;
        assert(s =~= encode_entry(e0) + r1);
        lemma_parse_entry_encode(e0, r1);
        assert(r1.first() == ']');
        assert(r1.drop_first() =~= rest);
        assert(acc.push(e0) =~= acc + h);
    } else {
        let h2 = h.drop_first();
        let r1 = seq![','] + (encode_entry_items(h2) + seq![']'] + rest);
        assert(s =~= encode_entry(e0) + r1);
        lemma_parse_entry_encode(e0, r1);
        assert(r1.first() == ',');
        assert(r1.drop_first() =~= encode_entry_items(h2) + seq![']'] + rest);
        assert(forall|i: int| 0 <= i < h2.len() ==> entry_bounded(#[trigger] h2[i]));
        lemma_parse_entry_items_encode(h2, acc.push(e0), rest);
        assert(acc.push(e0) + h2 =~= acc + h);
    }
}

/// Decoding an encoded history gives the history back, whole: the tagged
/// encoding loses nothing, for any mix of text and image entries whose
/// dimensions fit the machine word.
pub proof fn lemma_round_trip(h: Seq<EntryModel>)
    requires
        forall|i: int| 0 <= i < h.len() ==> entry_bounded(#[trigger] h[i]),
    ensures
        spec_decode_history(spec_encode_history(h)) == Some(h),
{
    let s = spec_encode_history(h);
    assert(s.first() == '[');
    assert(s.len() > 0);
    let r = s.drop_first();
    assert(r =~= encode_entry_items(h) + seq![']']);
    if h.len() == 0 {
        assert(r =~= seq![']']);
        assert(r.first() == ']');
        assert(r.len() == 1);
    } else {
        let e0 = h.first();
        match e0 {
            EntryModel::Text(t) => {
                assert(r.first() == 'T');
            },
            EntryModel::Image(im) => {
                assert(r.first() == 'I');
            },
        }
        assert(r.first() != ']');
        assert(seq![']'] + Seq::<char>::empty() =~= seq![']']);
        assert(r =~= encode_entry_items(h) + seq![']'] + Seq::<char>::empty());
        lemma_parse_entry_items_encode(h, Seq::empty(), Seq::empty());
        assert(Seq::<EntryModel>::empty() + h =~= h);
    }
}

proof fn lemma_parse_legacy_items_encode(
    ss: Seq<Seq<char>>,
    acc: Seq<Seq<char>>,
    rest: Seq<char>,
)
    requires
        ss.len() > 0,
    ensures
        spec_parse_legacy_items(encode_legacy_items(ss) + seq![']'] + rest, acc) == Some(
            (acc + ss, rest),
        ),
    decreases ss.len(),
{
    let s = encode_legacy_items(ss) + seq![']'] + rest;
    let t0 = ss.first();
    if ss.len() == 1 {
        let r1 = seq![']'] + rest;
        assert(s =~= encode_string(t0) + r1);
        lemma_parse_string_encode(t0, r1);
        assert(r1.first() == ']');
        assert(r1.drop_first() =~= rest);
        assert(acc.push(t0) =~= acc + ss);
    } else {
        let ss2 = ss.drop_first();
        let r1 = seq![','] + (encode_legacy_items(ss2) + seq![']'] + rest);
        assert(s =~= encode_string(t0) + r1);
        lemma_parse_string_encode(t0, r1);
        assert(r1.first() == ',');
        assert(r1.drop_first() =~= encode_legacy_items(ss2) + seq![']'] + rest);
        lemma_parse_legacy_items_encode(ss2, acc.push(t0), rest);
        assert(acc.push(t0) + ss2 =~= acc + ss);
    }
}

/// Decoding an encoded legacy string list gives the strings back, in
/// their original order.
pub proof fn lemma_legacy_round_trip(ss: Seq<Seq<char>>)
    ensures
        spec_decode_legacy(spec_encode_legacy(ss)) == Some(ss),
{
    let s = spec_encode_legacy(ss);
    assert(s.first() == '[');
    assert(s.len() > 0);
    let r = s.drop_first();
    assert(r =~= encode_legacy_items(ss) + seq![']']);
    if ss.len() == 0 {
        assert(r =~= seq![']']);
        assert(r.first() == ']');
        assert(r.len() == 1);
    } else {
        assert(r.first() == '"');
        assert(r.first() != ']');
        assert(r =~= encode_legacy_items(ss) + seq![']'] + Seq::<char>::empty());
        lemma_parse_legacy_items_encode(ss, Seq::empty(), Seq::empty());
        assert(Seq::<Seq<char>>::empty() + ss =~= ss);
    }
}

/// A nonempty legacy payload never passes for a tagged one: the first list
/// element opens with a quote where a tag would have to stand, so the
/// tagged decoder refuses it and the legacy fallback decides.
pub proof fn lemma_tagged_rejects_legacy(ss: Seq<Seq<char>>)
    requires
        ss.len() > 0,
    ensures
        spec_decode_history(spec_encode_legacy(ss)) is None,
{
    let s = spec_encode_legacy(ss);
    assert(s.first() == '[');
    let r = s.drop_first();
    assert(r =~= encode_legacy_items(ss) + seq![']']);
    assert(r.first() == '"');
    assert(r.first() != ']');
    assert(r.len() > 0);
    if lit_text().len() <= r.len() {
        assert(r.take(lit_text().len() as int)[0] == '"');
        assert(lit_text()[0] == 'T');
        assert(r.take(lit_text().len() as int) != lit_text());
    }
    assert(spec_parse_lit(r, lit_text()) is None);
    if lit_image().len() <= r.len() {
        assert(r.take(lit_image().len() as int)[0] == '"');
        assert(lit_image()[0] == 'I');
        assert(r.take(lit_image().len() as int) != lit_image());
    }
    assert(spec_parse_lit(r, lit_image()) is None);
    assert(spec_parse_entry(r) is None);
    assert(spec_parse_entry_items(r, Seq::empty()) is None);
}

} // verus!
