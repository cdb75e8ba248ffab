//! The exec decoder for the tagged and the legacy encodings. Each function
//! walks the character buffer from an index and is proved to agree with
//! the corresponding parsing spec function on the remaining suffix.

use vstd::prelude::*;

use crate::codec::spec_decode_history;
use crate::codec::spec_decode_legacy;
use crate::codec::spec_parse_byte;
use crate::codec::spec_parse_byte_items;
use crate::codec::spec_parse_byte_list;
use crate::codec::spec_parse_entry;
use crate::codec::spec_parse_entry_items;
use crate::codec::spec_parse_legacy_items;
use crate::codec::spec_parse_lit;
use crate::codec::spec_parse_string;
use crate::codec::spec_parse_string_rest;
use crate::codec::lit_bytes;
use crate::codec::lit_close;
use crate::codec::lit_height;
use crate::codec::lit_image;
use crate::codec::lit_text;
use crate::entry::ClipboardHistoryEntry;
use crate::entry::ClipboardImageEntry;
use crate::entry::EntryModel;
use crate::history::entries_view;
use crate::text::chars_of;
use crate::text::is_digit;
use crate::text::spec_parse_digits;
use crate::text::spec_parse_nat;
use crate::text::string_of;

verus! {

/// The model of a list of owned strings: each string viewed.
pub open spec fn strings_view(v: Seq<String>) -> Seq<Seq<char>> {
    Seq::new(v.len(), |i: int| v[i]@)
}

fn is_digit_exec(c: char) -> (r: bool)
    ensures
        r == is_digit(c),
{
    let u = c as u32;
    48 <= u && u <= 57
}

/// Match a fixed literal at position `i`.
fn expect_lit(v: &Vec<char>, i: usize, lit: &str) -> (r: Option<usize>)
    requires
        i <= v.len(),
    ensures
        match r {
            Some(j) => i <= j <= v@.len() && spec_parse_lit(v@.skip(i as int), lit@) == Some(
                v@.skip(j as int),
            ),
            None => spec_parse_lit(v@.skip(i as int), lit@) is None,
        },
{
    let n = lit.unicode_len();
    if v.len() - i < n {
        return None;
    }
    let mut k: usize = 0;
    while k < n
        invariant
            i <= v@.len(),
            v@.len() <= usize::MAX,
            n == lit@.len(),
            i + n <= v@.len(),
            k <= n,
            forall|m: int| 0 <= m < k ==> v@[i + m] == lit@[m],
        decreases n - k,
    {
        if v[i + k] != lit.get_char(k) {
            proof {
                let s = v@.skip(i as int);
                assert(s.take(n as int)[k as int] == v@[i + k]);
                assert(s.take(n as int) != lit@);
            }
            return None;
        }
        k = k + 1;
    }
    proof {
        let s = v@.skip(i as int);
        assert(s.take(n as int) =~= lit@);
        assert(s.skip(n as int) =~= v@.skip(i + n));
    }
    Some(i + n)
}

/// A canonical decimal number at position `i`.
fn parse_nat(v: &Vec<char>, i: usize) -> (r: Option<(usize, usize)>)
    requires
        i <= v.len(),
    ensures
        match r {
            Some(p) => i < p.1 <= v@.len() && spec_parse_nat(v@.skip(i as int)) == Some(
                (p.0 as nat, v@.skip(p.1 as int)),
            ),
            None => spec_parse_nat(v@.skip(i as int)) is None,
        },
{
    let ghost s0 = v@.skip(i as int);
    if i == v.len() {
        return None;
    }
    if !is_digit_exec(v[i]) {
        proof {
            assert(s0.first() == v@[i as int]);
        }
        return None;
    }
    if v[i] == '0' && i + 1 < v.len() && is_digit_exec(v[i + 1]) {
        proof {
            assert(s0[1] == v@[i + 1]);
        }
        return None;
    }
    proof {
        assert(s0.first() == v@[i as int]);
        if s0.len() >= 2 {
            assert(s0[1] == v@[i + 1]);
        }
        assert(spec_parse_nat(s0) == spec_parse_digits(s0, 0));
    }
    let mut j: usize = i;
    let mut acc: usize = 0;
    while j < v.len() && is_digit_exec(v[j])
        invariant
            i <= j <= v@.len(),
            s0 == v@.skip(i as int),
            v@[i as int] == s0.first(),
            is_digit(s0.first()),
            spec_parse_nat(s0) == spec_parse_digits(s0, 0),
            spec_parse_digits(s0, 0) == spec_parse_digits(v@.skip(j as int), acc as nat),
        decreases v@.len() - j,
    {
        let d = (v[j] as u32 - 48) as usize;
        proof {
            assert(v@.skip(j as int).first() == v@[j as int]);
        }
        let big: u128 = acc as u128 * 10 + d as u128;
        if big > usize::MAX as u128 {
            proof {
                assert(spec_parse_digits(v@.skip(j as int), acc as nat) is None);
            }
            return None;
        }
        acc = big as usize;
        proof {
            assert(v@.skip(j as int).drop_first() =~= v@.skip(j + 1));
        }
        j = j + 1;
    }
    proof {
        if j < v@.len() {
            assert(v@.skip(j as int).first() == v@[j as int]);
            assert(!is_digit(v@.skip(j as int).first()));
        }
        assert(spec_parse_digits(v@.skip(j as int), acc as nat) == Some(
            ((acc as nat), v@.skip(j as int)),
        ));
        assert(j != i);
    }
    Some((acc, j))
}

/// A quoted string at position `i`; hands back the unescaped content.
fn parse_string(v: &Vec<char>, i: usize) -> (r: Option<(Vec<char>, usize)>)
    requires
        i <= v.len(),
    ensures
        match r {
            Some(p) => i < p.1 <= v@.len() && spec_parse_string(v@.skip(i as int)) == Some(
                (p.0@, v@.skip(p.1 as int)),
            ),
            None => spec_parse_string(v@.skip(i as int)) is None,
        },
{
    if i == v.len() || v[i] != '"' {
        proof {
            if i < v@.len() {
                assert(v@.skip(i as int).first() == v@[i as int]);
            }
        }
        return None;
    }
    proof {
        assert(v@.skip(i as int).first() == v@[i as int]);
        assert(v@.skip(i as int).drop_first() =~= v@.skip(i + 1));
    }
    let mut acc: Vec<char> = Vec::new();
    let mut j: usize = i + 1;
    loop
        invariant
            i < j <= v@.len(),
            spec_parse_string(v@.skip(i as int)) == spec_parse_string_rest(
                v@.skip(j as int),
                acc@,
            ),
        decreases v@.len() - j,
    {
        if j == v.len() {
            return None;
        }
        let c = v[j];
        proof {
            assert(v@.skip(j as int).first() == v@[j as int]);
        }
        if c == '"' {
            proof {
                assert(v@.skip(j as int).drop_first() =~= v@.skip(j + 1));
            }
            return Some((acc, j + 1));
        } else if c == '\\' {
            if j + 1 < v.len() {
                let c2 = v[j + 1];
                proof {
                    assert(v@.skip(j as int)[1] == v@[j + 1]);
                }
                if c2 == '"' || c2 == '\\' {
                    acc.push(c2);
                    proof {
                        assert(v@.skip(j as int).skip(2) =~= v@.skip(j + 2));
                    }
                    j = j + 2;
                } else {
                    return None;
                }
            } else {
                proof {
                    assert(v@.skip(j as int).len() < 2);
                }
                return None;
            }
        } else {
            acc.push(c);
            proof {
                assert(v@.skip(j as int).drop_first() =~= v@.skip(j + 1));
            }
            j = j + 1;
        }
    }
}

/// A bracketed byte list at position `i`.
fn parse_byte_list(v: &Vec<char>, i: usize) -> (r: Option<(Vec<u8>, usize)>)
    requires
        i <= v.len(),
    ensures
        match r {
            Some(p) => i < p.1 <= v@.len() && spec_parse_byte_list(v@.skip(i as int)) == Some(
                (p.0@, v@.skip(p.1 as int)),
            ),
            None => spec_parse_byte_list(v@.skip(i as int)) is None,
        },
{
    if i == v.len() || v[i] != '[' {
        proof {
            if i < v@.len() {
                assert(v@.skip(i as int).first() == v@[i as int]);
            }
        }
        return None;
    }
    proof {
        assert(v@.skip(i as int).first() == v@[i as int]);
        assert(v@.skip(i as int).drop_first() =~= v@.skip(i + 1));
    }
    if i + 1 < v.len() && v[i + 1] == ']' {
        let empty: Vec<u8> = Vec::new();
        proof {
            assert(v@.skip(i + 1).first() == v@[i + 1]);
            assert(v@.skip(i + 1).drop_first() =~= v@.skip(i + 2));
            assert(empty@ =~= Seq::<u8>::empty());
        }
        return Some((empty, i + 2));
    }
    proof {
        if i + 1 < v@.len() {
            assert(v@.skip(i + 1).first() == v@[i + 1]);
        }
    }
    let mut acc: Vec<u8> = Vec::new();
    let mut j: usize = i + 1;
    loop
        invariant
            i < j <= v@.len(),
            spec_parse_byte_list(v@.skip(i as int)) == spec_parse_byte_items(
                v@.skip(j as int),
                acc@,
            ),
        decreases v@.len() - j,
    {
        match parse_nat(v, j) {
            None => {
                return None;
            },
            Some((x, j2)) => {
                if x > 255 {
                    return None;
                }
                let b: u8 = x as u8;
                proof {
                    assert(spec_parse_byte(v@.skip(j as int)) == Some((b, v@.skip(j2 as int))));
                }
                if j2 == v.len() {
                    return None;
                }
                let c = v[j2];
                proof {
                    assert(v@.skip(j2 as int).first() == v@[j2 as int]);
                    assert(v@.skip(j2 as int).drop_first() =~= v@.skip(j2 + 1));
                }
                if c == ',' {
                    acc.push(b);
                    j = j2 + 1;
                } else if c == ']' {
                    acc.push(b);
                    return Some((acc, j2 + 1));
                } else {
                    return None;
                }
            },
        }
    }
}

/// One tagged entry at position `i`.
fn parse_entry(v: &Vec<char>, i: usize) -> (r: Option<(ClipboardHistoryEntry, usize)>)
    requires
        i <= v.len(),
    ensures
        match r {
            Some(p) => i < p.1 <= v@.len() && spec_parse_entry(v@.skip(i as int)) == Some(
                (p.0@, v@.skip(p.1 as int)),
            ),
            None => spec_parse_entry(v@.skip(i as int)) is None,
        },
{
    proof {
        reveal_strlit("Text(");
        reveal_strlit("Image((width:");
        reveal_strlit(",height:");
        reveal_strlit(",bytes:");
        reveal_strlit("))");
        assert("Text("@ =~= lit_text());
        assert("Image((width:"@ =~= lit_image());
        assert(",height:"@ =~= lit_height());
        assert(",bytes:"@ =~= lit_bytes());
        assert("))"@ =~= lit_close());
    }
    match expect_lit(v, i, "Text(") {
        Some(j) => {
            match parse_string(v, j) {
                Some((t, j2)) => {
                    if j2 < v.len() && v[j2] == ')' {
                        proof {
                            assert(v@.skip(j2 as int).first() == v@[j2 as int]);
                            assert(v@.skip(j2 as int).drop_first() =~= v@.skip(j2 + 1));
                        }
                        let s = string_of(&t);
                        Some((ClipboardHistoryEntry::Text(s), j2 + 1))
                    } else {
                        proof {
                            if j2 < v@.len() {
                                assert(v@.skip(j2 as int).first() == v@[j2 as int]);
                            }
                        }
                        None
                    }
                },
                None => None,
            }
        },
        None => {
            match expect_lit(v, i, "Image((width:") {
                Some(j) => {
                    match parse_nat(v, j) {
                        Some((w, j2)) => {
                            match expect_lit(v, j2, ",height:") {
                                Some(j3) => {
                                    match parse_nat(v, j3) {
                                        Some((h, j4)) => {
                                            match expect_lit(v, j4, ",bytes:") {
                                                Some(j5) => {
                                                    match parse_byte_list(v, j5) {
                                                        Some((b, j6)) => {
                                                            match expect_lit(v, j6, "))") {
                                                                Some(j7) => {
                                                                    let img = ClipboardImageEntry {
                                                                        width: w,
                                                                        height: h,
                                                                        bytes: b,
                                                                    };
                                                                    Some(
                                                                        (
                                                                            ClipboardHistoryEntry::Image(
                                                                                img,
                                                                            ),
                                                                            j7,
                                                                        ),
                                                                    )
                                                                },
                                                                None => None,
                                                            }
                                                        },
                                                        None => None,
                                                    }
                                                },
                                                None => None,
                                            }
                                        },
                                        None => None,
                                    }
                                },
                                None => None,
                            }
                        },
                        None => None,
                    }
                },
                None => None,
            }
        },
    }
}

/// Decode a whole payload under the tagged encoding: `None` unless it is
/// exactly one canonical history.
pub fn decode_entries(payload: &str) -> (r: Option<Vec<ClipboardHistoryEntry>>)
    ensures
        match r {
            Some(es) => spec_decode_history(payload@) == Some(entries_view(es@)),
            None => spec_decode_history(payload@) is None,
        },
{
    let v = chars_of(payload);
    if v.len() == 0 || v[0] != '[' {
        proof {
            if v@.len() > 0 {
                assert(v@.first() == v@[0]);
            }
        }
        return None;
    }
    proof {
        assert(v@.first() == v@[0]);
        assert(v@.drop_first() =~= v@.skip(1));
    }
    if v.len() >= 2 && v[1] == ']' {
        if v.len() == 2 {
            let empty: Vec<ClipboardHistoryEntry> = Vec::new();
            proof {
                assert(v@.skip(1).first() == v@[1]);
                assert(entries_view(empty@) =~= Seq::<EntryModel>::empty());
            }
            return Some(empty);
        } else {
            proof {
                assert(v@.skip(1).first() == v@[1]);
            }
            return None;
        }
    }
    proof {
        if v@.len() >= 2 {
            assert(v@.skip(1).first() == v@[1]);
        }
    }
    let mut acc: Vec<ClipboardHistoryEntry> = Vec::new();
    let mut j: usize = 1;
    proof {
        assert(entries_view(acc@) =~= Seq::<EntryModel>::empty());
    }
    loop
        invariant
            1 <= j <= v@.len(),
            v@ == payload@,
            v@.len() > 0 && v@.first() == '[',
            !(v@.len() >= 2 && v@.skip(1).first() == ']'),
            spec_parse_entry_items(v@.skip(1), Seq::empty()) == spec_parse_entry_items(
                v@.skip(j as int),
                entries_view(acc@),
            ),
        decreases v@.len() - j,
    {
        match parse_entry(&v, j) {
            None => {
                return None;
            },
            Some((e, j2)) => {
                if j2 < v.len() && v[j2] == ',' {
                    proof {
                        assert(v@.skip(j2 as int).first() == v@[j2 as int]);
                        assert(v@.skip(j2 as int).drop_first() =~= v@.skip(j2 + 1));
                        assert(entries_view(acc@.push(e)) =~= entries_view(acc@).push(e@));
                    }
                    acc.push(e);
                    j = j2 + 1;
                } else if j2 < v.len() && v[j2] == ']' {
                    proof {
                        assert(v@.skip(j2 as int).first() == v@[j2 as int]);
                        assert(v@.skip(j2 as int).drop_first() =~= v@.skip(j2 + 1));
                        assert(entries_view(acc@.push(e)) =~= entries_view(acc@).push(e@));
                    }
                    acc.push(e);
                    if j2 + 1 == v.len() {
                        return Some(acc);
                    } else {
                        proof {
                            assert(v@.skip(j2 + 1).len() > 0);
                        }
                        return None;
                    }
                } else {
                    proof {
                        if j2 < v@.len() {
                            assert(v@.skip(j2 as int).first() == v@[j2 as int]);
                        }
                    }
                    return None;
                }
            },
        }
    }
}

/// Decode a whole payload under the legacy untagged encoding.
pub fn decode_legacy(payload: &str) -> (r: Option<Vec<String>>)
    ensures
        match r {
            Some(ss) => spec_decode_legacy(payload@) == Some(strings_view(ss@)),
            None => spec_decode_legacy(payload@) is None,
        },
{
    let v = chars_of(payload);
    if v.len() == 0 || v[0] != '[' {
        proof {
            if v@.len() > 0 {
                assert(v@.first() == v@[0]);
            }
        }
        return None;
    }
    proof {
        assert(v@.first() == v@[0]);
        assert(v@.drop_first() =~= v@.skip(1));
    }
    if v.len() >= 2 && v[1] == ']' {
        if v.len() == 2 {
            let empty: Vec<String> = Vec::new();
            proof {
                assert(v@.skip(1).first() == v@[1]);
                assert(strings_view(empty@) =~= Seq::<Seq<char>>::empty());
            }
            return Some(empty);
        } else {
            proof {
                assert(v@.skip(1).first() == v@[1]);
            }
            return None;
        }
    }
    proof {
        if v@.len() >= 2 {
            assert(v@.skip(1).first() == v@[1]);
        }
    }
    let mut acc: Vec<String> = Vec::new();
    let mut j: usize = 1;
    proof {
        assert(strings_view(acc@) =~= Seq::<Seq<char>>::empty());
    }
    loop
        invariant
            1 <= j <= v@.len(),
            v@ == payload@,
            v@.len() > 0 && v@.first() == '[',
            !(v@.len() >= 2 && v@.skip(1).first() == ']'),
            spec_parse_legacy_items(v@.skip(1), Seq::empty()) == spec_parse_legacy_items(
                v@.skip(j as int),
                strings_view(acc@),
            ),
        decreases v@.len() - j,
    {
        match parse_string(&v, j) {
            None => {
                return None;
            },
            Some((t, j2)) => {
                let s = string_of(&t);
                if j2 < v.len() && v[j2] == ',' {
                    proof {
                        assert(v@.skip(j2 as int).first() == v@[j2 as int]);
                        assert(v@.skip(j2 as int).drop_first() =~= v@.skip(j2 + 1));
                        assert(strings_view(acc@.push(s)) =~= strings_view(acc@).push(t@));
                    }
                    acc.push(s);
                    j = j2 + 1;
                } else if j2 < v.len() && v[j2] == ']' {
                    proof {
                        assert(v@.skip(j2 as int).first() == v@[j2 as int]);
                        assert(v@.skip(j2 as int).drop_first() =~= v@.skip(j2 + 1));
                        assert(strings_view(acc@.push(s)) =~= strings_view(acc@).push(t@));
                    }
                    acc.push(s);
                    if j2 + 1 == v.len() {
                        return Some(acc);
                    } else {
                        proof {
                            assert(v@.skip(j2 + 1).len() > 0);
                        }
                        return None;
                    }
                } else {
                    proof {
                        if j2 < v@.len() {
                            assert(v@.skip(j2 as int).first() == v@[j2 as int]);
                        }
                    }
                    return None;
                }
            },
        }
    }
}

} // verus!
