//! Decoding is the exact inverse of encoding.
//!
//! The chain below follows the grammar: characters, strings, digits,
//! integers, booleans, optional integers, reader objects, reader lists, and
//! finally whole envelopes. Each lemma states that the spec-level parser,
//! run over a frame that embeds an encoded value at a position, yields
//! exactly that value and stops exactly after it; `lemma_payload_round_trip`
//! closes the chain for every payload.

use vstd::prelude::*;

use crate::codec::{
    at_lit, dec_bool, dec_chars, dec_int, dec_int_digits, dec_opt_int, dec_payload,
    dec_payload_at, dec_reader_items, dec_reader_list, dec_string, dec_track_reader_obj,
    dec_update_reader_obj, digit_char, digit_val, digits_end, enc_bool, enc_chars, enc_int,
    enc_nat, enc_opt_int, enc_payload, enc_reader_list, enc_string, enc_track_reader_obj,
    enc_update_reader_obj, esc_char, expect, is_digit, lemma_enc_nat_shape, nat_of,
};

verus! {

/// A literal standing at a position is consumed exactly.
pub proof fn lemma_expect_cat(a: Seq<char>, l: Seq<char>, b: Seq<char>)
    ensures
        expect(a + l + b, a.len() as int, l) == Option::Some((a.len() + l.len()) as int),
{
    let s = a + l + b;
    assert(s.subrange(a.len() as int, (a.len() + l.len()) as int) =~= l);
    assert(at_lit(s, a.len() as int, l));
}

/// A literal differing from the frame at one position does not stand there.
pub proof fn lemma_not_at_lit(s: Seq<char>, i: int, l: Seq<char>, k: int)
    requires
        0 <= i,
        0 <= k < l.len(),
        i + k < s.len(),
        s[i + k] != l[k],
    ensures
        !at_lit(s, i, l),
{
    if at_lit(s, i, l) {
        assert(s.subrange(i, i + l.len())[k] == l[k]);
        assert(s[i + k] == l[k]);
    }
}

/// Scanning an encoded string's characters recovers them and stops right
/// after the closing quote.
pub proof fn lemma_dec_chars_of_enc(a: Seq<char>, t: Seq<char>, rest: Seq<char>)
    ensures
        dec_chars(a + enc_chars(t) + seq!['"'] + rest, a.len() as int) == Option::Some(
            (t, (a.len() + enc_chars(t).len() + 1) as int),
        ),
    decreases t.len(),
{
    let s = a + enc_chars(t) + seq!['"'] + rest;
    let i = a.len() as int;
    if t.len() == 0 {
        assert(enc_chars(t) =~= Seq::<char>::empty());
        assert(s[i] == '"');
        assert(i < s.len());
        assert(dec_chars(s, i) == Option::Some((Seq::<char>::empty(), i + 1)));
        assert(t =~= Seq::<char>::empty());
    } else {
        let c = t[0];
        let tl = t.skip(1);
        assert(enc_chars(t) == esc_char(c) + enc_chars(tl));
        if c == '"' || c == '\\' {
            assert(esc_char(c) =~= seq!['\\', c]);
            let a2 = a + seq!['\\', c];
            assert(s =~= a2 + enc_chars(tl) + seq!['"'] + rest);
            lemma_dec_chars_of_enc(a2, tl, rest);
            assert(s[i] == '\\');
            assert(s[i + 1] == c);
            assert(i + 1 < s.len());
            assert(a2.len() == i + 2);
            assert(dec_chars(s, i + 2) == Option::Some((tl, (a2.len() + enc_chars(tl).len() + 1) as int)));
            assert(dec_chars(s, i) == Option::Some(
                (seq![s[i + 1]] + tl, (a2.len() + enc_chars(tl).len() + 1) as int),
            ));
            assert(seq![s[i + 1]] + tl =~= t);
            assert(a2.len() + enc_chars(tl).len() + 1 == a.len() + enc_chars(t).len() + 1);
        } else {
            assert(esc_char(c) =~= seq![c]);
            let a2 = a + seq![c];
            assert(s =~= a2 + enc_chars(tl) + seq!['"'] + rest);
            lemma_dec_chars_of_enc(a2, tl, rest);
            assert(s[i] == c);
            assert(i < s.len());
            assert(c != '"' && c != '\\');
            assert(a2.len() == i + 1);
            assert(dec_chars(s, i + 1) == Option::Some((tl, (a2.len() + enc_chars(tl).len() + 1) as int)));
            assert(dec_chars(s, i) == Option::Some(
                (seq![s[i]] + tl, (a2.len() + enc_chars(tl).len() + 1) as int),
            ));
            assert(seq![s[i]] + tl =~= t);
            assert(a2.len() + enc_chars(tl).len() + 1 == a.len() + enc_chars(t).len() + 1);
        }
    }
}

/// Parsing an encoded string value recovers it exactly.
pub proof fn lemma_dec_string_of_enc(a: Seq<char>, t: Seq<char>, rest: Seq<char>)
    ensures
        dec_string(a + enc_string(t) + rest, a.len() as int) == Option::Some(
            (t, (a.len() + enc_string(t).len()) as int),
        ),
{
    let s = a + enc_string(t) + rest;
    let i = a.len() as int;
    assert(enc_string(t) == seq!['"'] + enc_chars(t) + seq!['"']);
    assert(s[i] == '"');
    assert(i < s.len());
    let a2 = a + seq!['"'];
    assert(s =~= a2 + enc_chars(t) + seq!['"'] + rest);
    lemma_dec_chars_of_enc(a2, t, rest);
    assert(a2.len() == i + 1);
    assert(dec_chars(s, i + 1) == Option::Some((t, (a2.len() + enc_chars(t).len() + 1) as int)));
    assert(a2.len() + enc_chars(t).len() + 1 == a.len() + enc_string(t).len());
}

/// A run of digits followed by a non-digit ends exactly at the non-digit.
pub proof fn lemma_digits_end_of(a: Seq<char>, ds: Seq<char>, rest: Seq<char>)
    requires
        forall|q: int| 0 <= q < ds.len() ==> is_digit(ds[q]),
        rest.len() > 0,
        !is_digit(rest[0]),
    ensures
        digits_end(a + ds + rest, a.len() as int) == a.len() + ds.len(),
    decreases ds.len(),
{
    let s = a + ds + rest;
    let i = a.len() as int;
    if ds.len() == 0 {
        assert(s[i] == rest[0]);
        assert(digits_end(s, i) == i);
    } else {
        let a2 = a + seq![ds[0]];
        assert(s =~= a2 + ds.skip(1) + rest);
        assert forall|q: int| 0 <= q < ds.skip(1).len() implies is_digit(ds.skip(1)[q]) by {
            assert(ds.skip(1)[q] == ds[q + 1]);
        }
        lemma_digits_end_of(a2, ds.skip(1), rest);
        assert(s[i] == ds[0]);
        assert(is_digit(s[i]));
        assert(digits_end(s, i) == digits_end(s, i + 1));
        assert(a2.len() == i + 1);
    }
}

/// Parsing an encoded integer recovers it exactly, when what follows is
/// not a digit.
pub proof fn lemma_dec_int_of_enc(a: Seq<char>, v: int, rest: Seq<char>)
    requires
        i32::MIN <= v <= i32::MAX,
        rest.len() > 0,
        !is_digit(rest[0]),
        rest[0] != '-',
    ensures
        dec_int(a + enc_int(v) + rest, a.len() as int) == Option::Some(
            (v as i32, (a.len() + enc_int(v).len()) as int),
        ),
{
    let s = a + enc_int(v) + rest;
    let i = a.len() as int;
    if v < 0 {
        let m = -v;
        lemma_enc_nat_shape(m);
        let ds = enc_nat(m);
        assert(enc_int(v) == seq!['-'] + ds);
        assert(s[i] == '-');
        assert(i < s.len());
        let a2 = a + seq!['-'];
        assert(s =~= a2 + ds + rest);
        lemma_digits_end_of(a2, ds, rest);
        let j = digits_end(s, i + 1);
        assert(a2.len() == i + 1);
        assert(j == i + 1 + ds.len());
        assert(j > i + 1);
        assert(s.subrange(i + 1, j) =~= ds);
        if j > i + 1 + 1 {
            assert(digit_val(s[i + 1]) >= 1) by {
                assert(s[i + 1] == ds[0]);
                assert(ds.len() >= 2);
                assert(m >= 10) by {
                    if m < 10 {
                        assert(ds =~= seq![digit_char(m)]);
                    }
                }
            }
        }
        assert(dec_int_digits(s, i + 1) == Option::Some((nat_of(ds), j)));
        assert(nat_of(ds) == m);
        assert(-nat_of(ds) == v);
        assert(v >= i32::MIN);
    } else {
        lemma_enc_nat_shape(v);
        let ds = enc_nat(v);
        assert(enc_int(v) == ds);
        assert(s =~= a + ds + rest);
        lemma_digits_end_of(a, ds, rest);
        assert(s[i] == ds[0]);
        assert(is_digit(s[i]));
        assert(s[i] != '-') by {
            assert(48 <= s[i] as u32);
            assert('-' as u32 == 45);
        }
        let j = digits_end(s, i);
        assert(j == i + ds.len());
        assert(j > i);
        assert(s.subrange(i, j) =~= ds);
        if j > i + 1 {
            assert(digit_val(s[i]) >= 1) by {
                assert(s[i] == ds[0]);
                assert(ds.len() >= 2);
                assert(v >= 10) by {
                    if v < 10 {
                        assert(ds =~= seq![digit_char(v)]);
                    }
                }
            }
        }
        assert(dec_int_digits(s, i) == Option::Some((nat_of(ds), j)));
        assert(nat_of(ds) == v);
        assert(v <= i32::MAX);
    }
}

/// Parsing an encoded boolean recovers it exactly.
pub proof fn lemma_dec_bool_of_enc(a: Seq<char>, b: bool, rest: Seq<char>)
    ensures
        dec_bool(a + enc_bool(b) + rest, a.len() as int) == Option::Some(
            (b, (a.len() + enc_bool(b).len()) as int),
        ),
{
    let s = a + enc_bool(b) + rest;
    let i = a.len() as int;
    reveal_strlit("true");
    reveal_strlit("false");
    if b {
        lemma_expect_cat(a, "true"@, rest);
        assert(s == a + "true"@ + rest);
    } else {
        lemma_expect_cat(a, "false"@, rest);
        assert(s == a + "false"@ + rest);
        assert(s[i] == 'f');
        lemma_not_at_lit(s, i, "true"@, 0);
    }
}

/// Parsing an encoded optional integer recovers it exactly.
pub proof fn lemma_dec_opt_int_of_enc(a: Seq<char>, p: Option<i32>, rest: Seq<char>)
    requires
        rest.len() > 0,
        !is_digit(rest[0]),
        rest[0] != '-',
    ensures
        dec_opt_int(a + enc_opt_int(p) + rest, a.len() as int) == Option::Some(
            (p, (a.len() + enc_opt_int(p).len()) as int),
        ),
{
    let s = a + enc_opt_int(p) + rest;
    let i = a.len() as int;
    reveal_strlit("null");
    match p {
        Option::None => {
            lemma_expect_cat(a, "null"@, rest);
            assert(s == a + "null"@ + rest);
        },
        Option::Some(n) => {
            lemma_dec_int_of_enc(a, n as int, rest);
            assert(s == a + enc_int(n as int) + rest);
            assert(s[i] != 'n') by {
                if n < 0 {
                    assert(enc_int(n as int)[0] == '-');
                    assert(s[i] == '-');
                    assert('-' as u32 == 45);
                    assert('n' as u32 == 110);
                } else {
                    lemma_enc_nat_shape(n as int);
                    assert(enc_int(n as int)[0] == enc_nat(n as int)[0]);
                    assert(s[i] == enc_nat(n as int)[0]);
                    assert(is_digit(s[i]));
                    assert('n' as u32 == 110);
                }
            }
            lemma_not_at_lit(s, i, "null"@, 0);
        },
    }
}

} // verus!

verus! {

/// Concatenation of character sequences is associative.
pub proof fn lemma_assoc(x: Seq<char>, y: Seq<char>, z: Seq<char>)
    ensures
        (x + y) + z == x + (y + z),
{
    assert((x + y) + z =~= x + (y + z));
}

/// Parsing an encoded reader object recovers it exactly.
pub proof fn lemma_dec_track_reader_obj_of_enc(
    a: Seq<char>,
    r: crate::messages::TrackReaderV,
    rest: Seq<char>,
)
    ensures
        dec_track_reader_obj(a + enc_track_reader_obj(r) + rest, a.len() as int) == Option::Some(
            (r, (a.len() + enc_track_reader_obj(r).len()) as int),
        ),
        enc_track_reader_obj(r).len() >= 1,
        enc_track_reader_obj(r)[0] == '{',
{
    let h1 = "{\"comic_label\":"@;
    let h2 = ",\"name\":"@;
    let h3 = ",\"has_update\":"@;
    let h4 = "}"@;
    let e1 = enc_string(r.comic_label);
    let e2 = enc_string(r.name);
    let b = enc_bool(r.has_update);
    let obj = enc_track_reader_obj(r);
    let s = a + obj + rest;
    let i = a.len() as int;
    assert(obj == h1 + e1 + h2 + e2 + h3 + b + h4);
    reveal_strlit("{\"comic_label\":");
    assert(obj[0] == h1[0]);
    assert(obj.len() >= 1);

    // Regroup the frame so that each field stands after its own prefix.
    let t6 = h4 + rest;
    let t5 = b + t6;
    let t4 = h3 + t5;
    let t3 = e2 + t4;
    let t2 = h2 + t3;
    let t1 = e1 + t2;
    lemma_assoc(h1 + e1 + h2 + e2 + h3 + b, h4, rest);
    lemma_assoc(h1 + e1 + h2 + e2 + h3, b, t6);
    lemma_assoc(h1 + e1 + h2 + e2, h3, t5);
    lemma_assoc(h1 + e1 + h2, e2, t4);
    lemma_assoc(h1 + e1, h2, t3);
    lemma_assoc(h1, e1, t2);
    lemma_assoc(a, obj, rest);
    assert(s == a + (h1 + t1));
    lemma_assoc(a, h1, t1);
    assert(s == (a + h1) + t1);

    lemma_expect_cat(a, h1, t1);
    let j1 = i + h1.len() as int;
    assert(expect(s, i, h1) == Option::Some(j1));

    lemma_assoc(a + h1, e1, t2);
    assert(s == ((a + h1) + e1) + t2);
    lemma_dec_string_of_enc(a + h1, r.comic_label, t2);
    let j2 = j1 + e1.len() as int;
    assert(dec_string(s, j1) == Option::Some((r.comic_label, j2)));

    lemma_assoc((a + h1) + e1, h2, t3);
    assert(s == (((a + h1) + e1) + h2) + t3);
    lemma_expect_cat((a + h1) + e1, h2, t3);
    let j3 = j2 + h2.len() as int;
    assert(expect(s, j2, h2) == Option::Some(j3));

    lemma_assoc(((a + h1) + e1) + h2, e2, t4);
    assert(s == ((((a + h1) + e1) + h2) + e2) + t4);
    lemma_dec_string_of_enc(((a + h1) + e1) + h2, r.name, t4);
    let j4 = j3 + e2.len() as int;
    assert(dec_string(s, j3) == Option::Some((r.name, j4)));

    lemma_assoc((((a + h1) + e1) + h2) + e2, h3, t5);
    assert(s == (((((a + h1) + e1) + h2) + e2) + h3) + t5);
    lemma_expect_cat((((a + h1) + e1) + h2) + e2, h3, t5);
    let j5 = j4 + h3.len() as int;
    assert(expect(s, j4, h3) == Option::Some(j5));

    lemma_assoc(((((a + h1) + e1) + h2) + e2) + h3, b, t6);
    assert(s == ((((((a + h1) + e1) + h2) + e2) + h3) + b) + t6);
    lemma_dec_bool_of_enc(((((a + h1) + e1) + h2) + e2) + h3, r.has_update, t6);
    let j6 = j5 + b.len() as int;
    assert(dec_bool(s, j5) == Option::Some((r.has_update, j6)));

    lemma_assoc((((((a + h1) + e1) + h2) + e2) + h3) + b, h4, rest);
    assert(s == (((((((a + h1) + e1) + h2) + e2) + h3) + b) + h4) + rest);
    lemma_expect_cat((((((a + h1) + e1) + h2) + e2) + h3) + b, h4, rest);
    let j7 = j6 + h4.len() as int;
    assert(expect(s, j6, h4) == Option::Some(j7));

    assert(j7 == i + obj.len());
    assert(dec_track_reader_obj(s, i) == Option::Some((r, j7)));
}

/// Parsing an encoded reader object from an `UpdateComic` list recovers it
/// exactly.
pub proof fn lemma_dec_update_reader_obj_of_enc(
    a: Seq<char>,
    r: crate::messages::UpdateReaderV,
    rest: Seq<char>,
)
    ensures
        dec_update_reader_obj(a + enc_update_reader_obj(r) + rest, a.len() as int) == Option::Some(
            (r, (a.len() + enc_update_reader_obj(r).len()) as int),
        ),
        enc_update_reader_obj(r).len() >= 1,
        enc_update_reader_obj(r)[0] == '{',
{
    let tr = crate::messages::TrackReaderV {
        comic_label: r.comic_label,
        name: r.name,
        has_update: r.has_update,
    };
    assert(enc_update_reader_obj(r) == enc_track_reader_obj(tr));
    lemma_dec_track_reader_obj_of_enc(a, tr, rest);
}

} // verus!

verus! {

/// Parsing the encoded elements of a non-empty reader list recovers them,
/// consuming the closing bracket.
#[verifier::rlimit(100)]
#[verifier::spinoff_prover]
pub proof fn lemma_dec_reader_items_of_enc(
    a: Seq<char>,
    rs: Seq<crate::messages::UpdateReaderV>,
    rest: Seq<char>,
)
    requires
        rs.len() >= 1,
    ensures
        dec_reader_items(a + enc_reader_list(rs) + seq![']'] + rest, a.len() as int)
            == Option::Some((rs, (a.len() + enc_reader_list(rs).len() + 1) as int)),
    decreases rs.len(),
{
    let ls = enc_reader_list(rs);
    let x = enc_update_reader_obj(rs[0]);
    let q = seq![']'];
    let s = a + ls + q + rest;
    let i = a.len() as int;
    if rs.len() == 1 {
        assert(ls == x);
        lemma_assoc(a + x, q, rest);
        assert(s == (a + x) + (q + rest));
        lemma_dec_update_reader_obj_of_enc(a, rs[0], q + rest);
        let j = i + x.len() as int;
        assert(dec_update_reader_obj(s, i) == Option::Some((rs[0], j)));
        assert(s[j] == ']') by {
            assert(s == (a + x) + (q + rest));
            assert((q + rest)[0] == ']');
        }
        assert(j > i);
        assert(j < s.len());
        assert(seq![rs[0]] =~= rs);
        assert(dec_reader_items(s, i) == Option::Some((rs, j + 1)));
    } else {
        let c = seq![','];
        let l2 = enc_reader_list(rs.skip(1));
        assert(ls == x + c + l2);
        // Regroup so the first object, the comma, and the remaining items
        // each stand after their own prefix.
        lemma_assoc(a, x + c, l2);
        lemma_assoc(a, x, c);
        assert(a + ls == (((a + x) + c) + l2)) by {
            assert(a + ((x + c) + l2) == (a + (x + c)) + l2);
        }
        lemma_assoc(a + ls, q, rest);
        lemma_assoc(((a + x) + c) + l2, q, rest);
        assert(s == ((((a + x) + c) + l2)) + (q + rest));
        lemma_assoc((a + x) + c, l2, q + rest);
        assert(s == ((a + x) + c) + (l2 + (q + rest)));
        lemma_assoc(a + x, c, l2 + (q + rest));
        assert(s == (a + x) + (c + (l2 + (q + rest))));
        lemma_dec_update_reader_obj_of_enc(a, rs[0], c + (l2 + (q + rest)));
        let j = i + x.len() as int;
        assert(dec_update_reader_obj(s, i) == Option::Some((rs[0], j)));
        assert(s[j] == ',') by {
            assert((c + (l2 + (q + rest)))[0] == ',');
        }
        assert(j > i);
        assert(j < s.len());
        let a2 = (a + x) + c;
        assert(rs.skip(1).len() >= 1);
        lemma_dec_reader_items_of_enc(a2, rs.skip(1), rest);
        lemma_assoc(a2 + l2, q, rest);
        assert(((a2 + l2) + q) + rest == (a2 + l2) + (q + rest));
        assert(s == (a2 + l2) + (q + rest)) by {
            lemma_assoc(a2, l2, q + rest);
        }
        assert(dec_reader_items(s, a2.len() as int) == Option::Some(
            (rs.skip(1), (a2.len() + l2.len() + 1) as int),
        ));
        assert(a2.len() == j + 1);
        assert(dec_reader_items(s, i) == Option::Some(
            (seq![rs[0]] + rs.skip(1), (a2.len() + l2.len() + 1) as int),
        ));
        assert(seq![rs[0]] + rs.skip(1) =~= rs);
        assert(a2.len() + l2.len() + 1 == a.len() + ls.len() + 1);
    }
}

/// Parsing an encoded bracketed reader list recovers it exactly.
pub proof fn lemma_dec_reader_list_of_enc(
    a: Seq<char>,
    rs: Seq<crate::messages::UpdateReaderV>,
    rest: Seq<char>,
)
    ensures
        dec_reader_list(a + (seq!['['] + enc_reader_list(rs) + seq![']']) + rest, a.len() as int)
            == Option::Some((rs, (a.len() + enc_reader_list(rs).len() + 2) as int)),
{
    let ls = enc_reader_list(rs);
    let ob = seq!['['];
    let q = seq![']'];
    let bl = ob + ls + q;
    let s = a + bl + rest;
    let i = a.len() as int;
    reveal_strlit("[");
    reveal_strlit("]");
    assert("["@ =~= ob);
    assert("]"@ =~= q);
    // The opening bracket.
    lemma_assoc(a, bl, rest);
    lemma_assoc(ob + ls, q, rest);
    assert(bl + rest == (ob + ls) + (q + rest));
    lemma_assoc(ob, ls, q + rest);
    assert(s == a + (ob + (ls + (q + rest))));
    lemma_assoc(a, ob, ls + (q + rest));
    assert(s == (a + ob) + (ls + (q + rest)));
    lemma_expect_cat(a, ob, ls + (q + rest));
    assert(expect(s, i, "["@) == Option::Some(i + 1));
    let j = i + 1;
    let a2 = a + ob;
    assert(a2.len() == j);
    if rs.len() == 0 {
        assert(ls =~= Seq::<char>::empty());
        assert(ls + (q + rest) =~= q + rest);
        assert(s == a2 + (q + rest));
        lemma_assoc(a2, q, rest);
        assert(s == (a2 + q) + rest);
        lemma_expect_cat(a2, q, rest);
        assert(at_lit(s, j, "]"@));
        assert(dec_reader_list(s, i) == Option::Some((rs, j + 1)));
    } else {
        assert(s[j] == '{') by {
            assert(s == a2 + (ls + (q + rest)));
            assert((ls + (q + rest))[0] == ls[0]);
            assert(ls[0] == enc_update_reader_obj(rs[0])[0]) by {
                if rs.len() == 1 {
                } else {
                    assert(ls == enc_update_reader_obj(rs[0]) + seq![','] + enc_reader_list(
                        rs.skip(1),
                    ));
                }
                lemma_dec_update_reader_obj_of_enc(a, rs[0], rest);
            }
            lemma_dec_update_reader_obj_of_enc(a, rs[0], rest);
        }
        assert(!at_lit(s, j, "]"@)) by {
            lemma_not_at_lit(s, j, "]"@, 0);
        }
        lemma_assoc(a2 + ls, q, rest);
        assert(s == (a2 + ls) + (q + rest)) by {
            lemma_assoc(a2, ls, q + rest);
        }
        assert(s == ((a2 + ls) + q) + rest);
        lemma_dec_reader_items_of_enc(a2, rs, rest);
        assert(dec_reader_items(s, j) == Option::Some((rs, (a2.len() + ls.len() + 1) as int)));
        assert(dec_reader_list(s, i) == Option::Some((rs, (a.len() + ls.len() + 2) as int)));
    }
}

} // verus!

verus! {

/// Parsing the encoded `TrackReader` envelope recovers it exactly.
#[verifier::rlimit(100)]
#[verifier::spinoff_prover]
pub proof fn lemma_rt_track_reader(r: crate::messages::TrackReaderV)
    ensures
        dec_payload_at(enc_payload(crate::messages::PayloadV::TrackReader(r)), 0)
            == Option::Some(
            (
                crate::messages::PayloadV::TrackReader(r),
                enc_payload(crate::messages::PayloadV::TrackReader(r)).len() as int,
            ),
        ),
{
    let p = crate::messages::PayloadV::TrackReader(r);
    let h = "{\"tag\":\"TrackReader\",\"comic_label\":"@;
    let h2 = ",\"name\":"@;
    let h3 = ",\"has_update\":"@;
    let h4 = "}"@;
    let e1 = enc_string(r.comic_label);
    let e2 = enc_string(r.name);
    let b = enc_bool(r.has_update);
    let s = enc_payload(p);
    assert(s == h + e1 + h2 + e2 + h3 + b + h4);
    let t5 = h4;
    let t4 = h3 + (b + t5);
    let t3 = e2 + t4;
    let t2 = h2 + t3;
    let t1 = e1 + t2;
    lemma_assoc(h + e1 + h2 + e2 + h3, b, h4);
    lemma_assoc(h + e1 + h2 + e2, h3, b + t5);
    lemma_assoc(h + e1 + h2, e2, t4);
    lemma_assoc(h + e1, h2, t3);
    lemma_assoc(h, e1, t2);
    assert(s == h + t1);
    assert(at_lit(s, 0, h)) by {
        assert(s.subrange(0, h.len() as int) =~= h);
    }
    let j1 = h.len() as int;
    lemma_assoc(h, e1, t2);
    assert(s == (h + e1) + t2);
    lemma_dec_string_of_enc(h, r.comic_label, t2);
    let j2 = j1 + e1.len() as int;
    lemma_assoc(h + e1, h2, t3);
    assert(s == ((h + e1) + h2) + t3);
    lemma_expect_cat(h + e1, h2, t3);
    let j3 = j2 + h2.len() as int;
    lemma_assoc((h + e1) + h2, e2, t4);
    assert(s == (((h + e1) + h2) + e2) + t4);
    lemma_dec_string_of_enc((h + e1) + h2, r.name, t4);
    let j4 = j3 + e2.len() as int;
    lemma_assoc(((h + e1) + h2) + e2, h3, b + t5);
    assert(s == ((((h + e1) + h2) + e2) + h3) + (b + t5));
    lemma_expect_cat(((h + e1) + h2) + e2, h3, b + t5);
    let j5 = j4 + h3.len() as int;
    lemma_assoc((((h + e1) + h2) + e2) + h3, b, t5);
    assert(s == (((((h + e1) + h2) + e2) + h3) + b) + t5);
    lemma_dec_bool_of_enc((((h + e1) + h2) + e2) + h3, r.has_update, t5);
    let j6 = j5 + b.len() as int;
    assert(s == (((((h + e1) + h2) + e2) + h3) + b) + h4 + Seq::<char>::empty()) by {
        assert(h4 + Seq::<char>::empty() =~= h4);
    }
    lemma_expect_cat((((((h + e1) + h2) + e2) + h3) + b), h4, Seq::<char>::empty());
    let j7 = j6 + h4.len() as int;
    assert(j7 == s.len());
    assert(dec_payload_at(s, 0) == Option::Some((p, j7)));
}

/// Parsing the encoded `UpdateReader` envelope recovers it exactly.
#[verifier::rlimit(100)]
#[verifier::spinoff_prover]
pub proof fn lemma_rt_update_reader(r: crate::messages::UpdateReaderV)
    ensures
        dec_payload_at(enc_payload(crate::messages::PayloadV::UpdateReader(r)), 0)
            == Option::Some(
            (
                crate::messages::PayloadV::UpdateReader(r),
                enc_payload(crate::messages::PayloadV::UpdateReader(r)).len() as int,
            ),
        ),
{
    let p = crate::messages::PayloadV::UpdateReader(r);
    let h = "{\"tag\":\"UpdateReader\",\"comic_label\":"@;
    let h2 = ",\"name\":"@;
    let h3 = ",\"has_update\":"@;
    let h4 = "}"@;
    let e1 = enc_string(r.comic_label);
    let e2 = enc_string(r.name);
    let b = enc_bool(r.has_update);
    let s = enc_payload(p);
    assert(s == h + e1 + h2 + e2 + h3 + b + h4);
    let t5 = h4;
    let t4 = h3 + (b + t5);
    let t3 = e2 + t4;
    let t2 = h2 + t3;
    let t1 = e1 + t2;
    lemma_assoc(h + e1 + h2 + e2 + h3, b, h4);
    lemma_assoc(h + e1 + h2 + e2, h3, b + t5);
    lemma_assoc(h + e1 + h2, e2, t4);
    lemma_assoc(h + e1, h2, t3);
    lemma_assoc(h, e1, t2);
    assert(s == h + t1);
    // The earlier tag does not stand at the front.
    reveal_strlit("{\"tag\":\"UpdateReader\",\"comic_label\":");
    reveal_strlit("{\"tag\":\"TrackReader\",\"comic_label\":");
    assert(s[8] == h[8]);
    lemma_not_at_lit(s, 0, "{\"tag\":\"TrackReader\",\"comic_label\":"@, 8);
    assert(at_lit(s, 0, h)) by {
        assert(s.subrange(0, h.len() as int) =~= h);
    }
    let j1 = h.len() as int;
    assert(s == (h + e1) + t2);
    lemma_dec_string_of_enc(h, r.comic_label, t2);
    let j2 = j1 + e1.len() as int;
    lemma_assoc(h + e1, h2, t3);
    assert(s == ((h + e1) + h2) + t3);
    lemma_expect_cat(h + e1, h2, t3);
    let j3 = j2 + h2.len() as int;
    lemma_assoc((h + e1) + h2, e2, t4);
    assert(s == (((h + e1) + h2) + e2) + t4);
    lemma_dec_string_of_enc((h + e1) + h2, r.name, t4);
    let j4 = j3 + e2.len() as int;
    lemma_assoc(((h + e1) + h2) + e2, h3, b + t5);
    assert(s == ((((h + e1) + h2) + e2) + h3) + (b + t5));
    lemma_expect_cat(((h + e1) + h2) + e2, h3, b + t5);
    let j5 = j4 + h3.len() as int;
    lemma_assoc((((h + e1) + h2) + e2) + h3, b, t5);
    assert(s == (((((h + e1) + h2) + e2) + h3) + b) + t5);
    lemma_dec_bool_of_enc((((h + e1) + h2) + e2) + h3, r.has_update, t5);
    let j6 = j5 + b.len() as int;
    assert(s == (((((h + e1) + h2) + e2) + h3) + b) + h4 + Seq::<char>::empty()) by {
        assert(h4 + Seq::<char>::empty() =~= h4);
    }
    lemma_expect_cat((((((h + e1) + h2) + e2) + h3) + b), h4, Seq::<char>::empty());
    let j7 = j6 + h4.len() as int;
    assert(j7 == s.len());
    assert(dec_payload_at(s, 0) == Option::Some((p, j7)));
}

/// Parsing the encoded `UntrackReader` envelope recovers it exactly.
#[verifier::rlimit(100)]
#[verifier::spinoff_prover]
pub proof fn lemma_rt_untrack_reader(r: crate::messages::UntrackReaderV)
    ensures
        dec_payload_at(enc_payload(crate::messages::PayloadV::UntrackReader(r)), 0)
            == Option::Some(
            (
                crate::messages::PayloadV::UntrackReader(r),
                enc_payload(crate::messages::PayloadV::UntrackReader(r)).len() as int,
            ),
        ),
{
    let p = crate::messages::PayloadV::UntrackReader(r);
    let h = "{\"tag\":\"UntrackReader\",\"comic_label\":"@;
    let h2 = ",\"name\":"@;
    let h4 = "}"@;
    let e1 = enc_string(r.comic_label);
    let e2 = enc_string(r.name);
    let s = enc_payload(p);
    assert(s == h + e1 + h2 + e2 + h4);
    let t3 = e2 + h4;
    let t2 = h2 + t3;
    let t1 = e1 + t2;
    lemma_assoc(h + e1 + h2, e2, h4);
    lemma_assoc(h + e1, h2, t3);
    lemma_assoc(h, e1, t2);
    assert(s == h + t1);
    reveal_strlit("{\"tag\":\"UntrackReader\",\"comic_label\":");
    reveal_strlit("{\"tag\":\"TrackReader\",\"comic_label\":");
    reveal_strlit("{\"tag\":\"UpdateReader\",\"comic_label\":");
    assert(s[8] == h[8]);
    assert(s[9] == h[9]);
    lemma_not_at_lit(s, 0, "{\"tag\":\"TrackReader\",\"comic_label\":"@, 8);
    lemma_not_at_lit(s, 0, "{\"tag\":\"UpdateReader\",\"comic_label\":"@, 9);
    assert(at_lit(s, 0, h)) by {
        assert(s.subrange(0, h.len() as int) =~= h);
    }
    let j1 = h.len() as int;
    assert(s == (h + e1) + t2);
    lemma_dec_string_of_enc(h, r.comic_label, t2);
    let j2 = j1 + e1.len() as int;
    lemma_assoc(h + e1, h2, t3);
    assert(s == ((h + e1) + h2) + t3);
    lemma_expect_cat(h + e1, h2, t3);
    let j3 = j2 + h2.len() as int;
    lemma_assoc((h + e1) + h2, e2, h4);
    assert(s == (((h + e1) + h2) + e2) + h4);
    assert(s == (((h + e1) + h2) + e2) + h4 + Seq::<char>::empty()) by {
        assert(h4 + Seq::<char>::empty() =~= h4);
        lemma_assoc(((h + e1) + h2) + e2, h4, Seq::<char>::empty());
    }
    lemma_dec_string_of_enc((h + e1) + h2, r.name, h4 + Seq::<char>::empty());
    assert(s == (((h + e1) + h2) + e2) + (h4 + Seq::<char>::empty()));
    let j4 = j3 + e2.len() as int;
    lemma_expect_cat(((h + e1) + h2) + e2, h4, Seq::<char>::empty());
    let j5 = j4 + h4.len() as int;
    assert(j5 == s.len());
    assert(dec_payload_at(s, 0) == Option::Some((p, j5)));
}

/// Parsing the encoded `UntrackComic` envelope recovers it exactly.
#[verifier::rlimit(100)]
#[verifier::spinoff_prover]
pub proof fn lemma_rt_untrack_comic(c: crate::messages::UntrackComicV)
    ensures
        dec_payload_at(enc_payload(crate::messages::PayloadV::UntrackComic(c)), 0)
            == Option::Some(
            (
                crate::messages::PayloadV::UntrackComic(c),
                enc_payload(crate::messages::PayloadV::UntrackComic(c)).len() as int,
            ),
        ),
{
    let p = crate::messages::PayloadV::UntrackComic(c);
    let h = "{\"tag\":\"UntrackComic\",\"label\":"@;
    let h4 = "}"@;
    let e1 = enc_string(c.label);
    let s = enc_payload(p);
    assert(s == h + e1 + h4);
    let t1 = e1 + h4;
    lemma_assoc(h, e1, h4);
    assert(s == h + t1);
    reveal_strlit("{\"tag\":\"UntrackComic\",\"label\":");
    reveal_strlit("{\"tag\":\"TrackReader\",\"comic_label\":");
    reveal_strlit("{\"tag\":\"UpdateReader\",\"comic_label\":");
    reveal_strlit("{\"tag\":\"UntrackReader\",\"comic_label\":");
    reveal_strlit("{\"tag\":\"TrackComic\",\"label\":");
    reveal_strlit("{\"tag\":\"UpdateComic\",\"label\":");
    assert(s[8] == h[8]);
    assert(s[9] == h[9]);
    assert(s[15] == h[15]);
    lemma_not_at_lit(s, 0, "{\"tag\":\"TrackReader\",\"comic_label\":"@, 8);
    lemma_not_at_lit(s, 0, "{\"tag\":\"UpdateReader\",\"comic_label\":"@, 9);
    lemma_not_at_lit(s, 0, "{\"tag\":\"UntrackReader\",\"comic_label\":"@, 15);
    lemma_not_at_lit(s, 0, "{\"tag\":\"TrackComic\",\"label\":"@, 8);
    lemma_not_at_lit(s, 0, "{\"tag\":\"UpdateComic\",\"label\":"@, 9);
    assert(at_lit(s, 0, h)) by {
        assert(s.subrange(0, h.len() as int) =~= h);
    }
    let j1 = h.len() as int;
    assert(s == (h + e1) + h4);
    assert(s == (h + e1) + (h4 + Seq::<char>::empty())) by {
        assert(h4 + Seq::<char>::empty() =~= h4);
    }
    lemma_dec_string_of_enc(h, c.label, h4 + Seq::<char>::empty());
    let j2 = j1 + e1.len() as int;
    lemma_expect_cat(h + e1, h4, Seq::<char>::empty());
    let j3 = j2 + h4.len() as int;
    assert(j3 == s.len());
    assert(dec_payload_at(s, 0) == Option::Some((p, j3)));
}

/// Parsing the encoded `ListComics` envelope recovers it exactly.
#[verifier::rlimit(100)]
#[verifier::spinoff_prover]
pub proof fn lemma_rt_list_comics()
    ensures
        dec_payload_at(enc_payload(crate::messages::PayloadV::ListComics), 0) == Option::Some(
            (
                crate::messages::PayloadV::ListComics,
                enc_payload(crate::messages::PayloadV::ListComics).len() as int,
            ),
        ),
{
    let p = crate::messages::PayloadV::ListComics;
    let h = "{\"tag\":\"ListComics\"}"@;
    let s = enc_payload(p);
    assert(s == h);
    reveal_strlit("{\"tag\":\"ListComics\"}");
    reveal_strlit("{\"tag\":\"TrackReader\",\"comic_label\":");
    reveal_strlit("{\"tag\":\"UpdateReader\",\"comic_label\":");
    reveal_strlit("{\"tag\":\"UntrackReader\",\"comic_label\":");
    reveal_strlit("{\"tag\":\"TrackComic\",\"label\":");
    reveal_strlit("{\"tag\":\"UpdateComic\",\"label\":");
    reveal_strlit("{\"tag\":\"UntrackComic\",\"label\":");
    assert(s[8] == 'L');
    lemma_not_at_lit(s, 0, "{\"tag\":\"TrackReader\",\"comic_label\":"@, 8);
    lemma_not_at_lit(s, 0, "{\"tag\":\"UpdateReader\",\"comic_label\":"@, 8);
    lemma_not_at_lit(s, 0, "{\"tag\":\"UntrackReader\",\"comic_label\":"@, 8);
    lemma_not_at_lit(s, 0, "{\"tag\":\"TrackComic\",\"label\":"@, 8);
    lemma_not_at_lit(s, 0, "{\"tag\":\"UpdateComic\",\"label\":"@, 8);
    lemma_not_at_lit(s, 0, "{\"tag\":\"UntrackComic\",\"label\":"@, 8);
    assert(at_lit(s, 0, h)) by {
        assert(s.subrange(0, h.len() as int) =~= h);
    }
    assert(dec_payload_at(s, 0) == Option::Some((p, h.len() as int)));
}

} // verus!

verus! {

/// Parsing the encoded `TrackComic` envelope recovers it exactly.
#[verifier::rlimit(100)]
#[verifier::spinoff_prover]
pub proof fn lemma_rt_track_comic(c: crate::messages::TrackComicV)
    ensures
        dec_payload_at(enc_payload(crate::messages::PayloadV::TrackComic(c)), 0) == Option::Some(
            (
                crate::messages::PayloadV::TrackComic(c),
                enc_payload(crate::messages::PayloadV::TrackComic(c)).len() as int,
            ),
        ),
{
    let p = crate::messages::PayloadV::TrackComic(c);
    let h = "{\"tag\":\"TrackComic\",\"label\":"@;
    let hc = ",\"chapter\":"@;
    let hp = ",\"page\":"@;
    let hs = ",\"source\":"@;
    let h4 = "}"@;
    let e1 = enc_string(c.label);
    let iv = enc_int(c.chapter as int);
    let ov = enc_opt_int(c.page);
    let ob = enc_track_reader_obj(c.source);
    let s = enc_payload(p);
    assert(s == h + e1 + hc + iv + hp + ov + hs + ob + h4);
    let t7 = ob + h4;
    let t6 = hs + t7;
    let t5 = ov + t6;
    let t4 = hp + t5;
    let t3 = iv + t4;
    let t2 = hc + t3;
    let t1 = e1 + t2;
    lemma_assoc(h + e1 + hc + iv + hp + ov + hs, ob, h4);
    lemma_assoc(h + e1 + hc + iv + hp + ov, hs, t7);
    lemma_assoc(h + e1 + hc + iv + hp, ov, t6);
    lemma_assoc(h + e1 + hc + iv, hp, t5);
    lemma_assoc(h + e1 + hc, iv, t4);
    lemma_assoc(h + e1, hc, t3);
    lemma_assoc(h, e1, t2);
    assert(s == h + t1);
    reveal_strlit("{\"tag\":\"TrackComic\",\"label\":");
    reveal_strlit("{\"tag\":\"TrackReader\",\"comic_label\":");
    reveal_strlit("{\"tag\":\"UpdateReader\",\"comic_label\":");
    reveal_strlit("{\"tag\":\"UntrackReader\",\"comic_label\":");
    assert(s[8] == h[8]);
    assert(s[13] == h[13]);
    lemma_not_at_lit(s, 0, "{\"tag\":\"TrackReader\",\"comic_label\":"@, 13);
    lemma_not_at_lit(s, 0, "{\"tag\":\"UpdateReader\",\"comic_label\":"@, 8);
    lemma_not_at_lit(s, 0, "{\"tag\":\"UntrackReader\",\"comic_label\":"@, 8);
    assert(at_lit(s, 0, h)) by {
        assert(s.subrange(0, h.len() as int) =~= h);
    }
    let j1 = h.len() as int;
    assert(s == (h + e1) + t2);
    lemma_dec_string_of_enc(h, c.label, t2);
    let j2 = j1 + e1.len() as int;
    lemma_assoc(h + e1, hc, t3);
    assert(s == ((h + e1) + hc) + t3);
    lemma_expect_cat(h + e1, hc, t3);
    let j3 = j2 + hc.len() as int;
    lemma_assoc((h + e1) + hc, iv, t4);
    assert(s == (((h + e1) + hc) + iv) + t4);
    reveal_strlit(",\"page\":");
    assert(t4[0] == ',') by {
        assert(t4[0] == hp[0]);
    }
    lemma_dec_int_of_enc((h + e1) + hc, c.chapter as int, t4);
    let j4 = j3 + iv.len() as int;
    lemma_assoc(((h + e1) + hc) + iv, hp, t5);
    assert(s == ((((h + e1) + hc) + iv) + hp) + t5);
    lemma_expect_cat(((h + e1) + hc) + iv, hp, t5);
    let j5 = j4 + hp.len() as int;
    lemma_assoc((((h + e1) + hc) + iv) + hp, ov, t6);
    assert(s == (((((h + e1) + hc) + iv) + hp) + ov) + t6);
    reveal_strlit(",\"source\":");
    assert(t6[0] == ',') by {
        assert(t6[0] == hs[0]);
    }
    lemma_dec_opt_int_of_enc((((h + e1) + hc) + iv) + hp, c.page, t6);
    let j6 = j5 + ov.len() as int;
    lemma_assoc((((((h + e1) + hc) + iv) + hp) + ov), hs, t7);
    assert(s == ((((((h + e1) + hc) + iv) + hp) + ov) + hs) + t7);
    lemma_expect_cat((((((h + e1) + hc) + iv) + hp) + ov), hs, t7);
    let j7 = j6 + hs.len() as int;
    let p7 = (((((h + e1) + hc) + iv) + hp) + ov) + hs;
    lemma_assoc(p7, ob, h4);
    assert(s == (p7 + ob) + h4);
    lemma_dec_track_reader_obj_of_enc(p7, c.source, h4);
    let j8 = j7 + ob.len() as int;
    assert(s == ((p7 + ob) + h4) + Seq::<char>::empty()) by {
        assert(((p7 + ob) + h4) + Seq::<char>::empty() =~= (p7 + ob) + h4);
    }
    lemma_expect_cat(p7 + ob, h4, Seq::<char>::empty());
    let j9 = j8 + h4.len() as int;
    assert(j9 == s.len());
    assert(dec_payload_at(s, 0) == Option::Some((p, j9)));
}

/// Parsing the encoded `UpdateComic` envelope recovers it exactly.
#[verifier::rlimit(100)]
#[verifier::spinoff_prover]
pub proof fn lemma_rt_update_comic(c: crate::messages::UpdateComicV)
    ensures
        dec_payload_at(enc_payload(crate::messages::PayloadV::UpdateComic(c)), 0) == Option::Some(
            (
                crate::messages::PayloadV::UpdateComic(c),
                enc_payload(crate::messages::PayloadV::UpdateComic(c)).len() as int,
            ),
        ),
{
    let p = crate::messages::PayloadV::UpdateComic(c);
    let h = "{\"tag\":\"UpdateComic\",\"label\":"@;
    let hc = ",\"chapter\":"@;
    let hp = ",\"page\":"@;
    let hr = ",\"readers\":["@;
    let hr1 = ",\"readers\":"@;
    let z = "]}"@;
    let h4 = "}"@;
    let e1 = enc_string(c.label);
    let iv = enc_int(c.chapter as int);
    let ov = enc_opt_int(c.page);
    let ls = enc_reader_list(c.readers);
    let s = enc_payload(p);
    assert(s == h + e1 + hc + iv + hp + ov + hr + ls + z);
    reveal_strlit(",\"readers\":[");
    reveal_strlit(",\"readers\":");
    reveal_strlit("[");
    reveal_strlit("]");
    reveal_strlit("]}");
    reveal_strlit("}");
    assert(hr =~= hr1 + seq!['[']);
    assert(z =~= seq![']'] + h4);
    let blk = seq!['['] + ls + seq![']'];
    let t7 = blk + h4;
    let t6 = hr1 + t7;
    let t5 = ov + t6;
    let t4 = hp + t5;
    let t3 = iv + t4;
    let t2 = hc + t3;
    let t1 = e1 + t2;
    // Regroup the readers segment: header bracket, elements, closing
    // bracket, closing brace.
    let pre = h + e1 + hc + iv + hp + ov;
    assert(s == pre + hr + ls + z);
    assert(s == pre + (hr1 + seq!['[']) + ls + (seq![']'] + h4));
    lemma_assoc(pre, hr1, seq!['[']);
    assert(pre + (hr1 + seq!['[']) == (pre + hr1) + seq!['[']);
    assert(s == ((pre + hr1) + seq!['[']) + ls + (seq![']'] + h4));
    lemma_assoc((pre + hr1) + seq!['['], ls, seq![']'] + h4);
    assert(s == ((pre + hr1) + seq!['[']) + (ls + (seq![']'] + h4)));
    lemma_assoc(pre + hr1, seq!['['], ls + (seq![']'] + h4));
    assert(s == (pre + hr1) + (seq!['['] + (ls + (seq![']'] + h4))));
    lemma_assoc(seq!['['], ls, seq![']'] + h4);
    lemma_assoc(seq!['['] + ls, seq![']'], h4);
    assert(seq!['['] + (ls + (seq![']'] + h4)) == blk + h4);
    assert(s == (pre + hr1) + t7);
    lemma_assoc(pre, hr1, t7);
    assert(s == pre + t6);
    lemma_assoc(h + e1 + hc + iv + hp, ov, t6);
    assert(s == (h + e1 + hc + iv + hp) + t5);
    lemma_assoc(h + e1 + hc + iv, hp, t5);
    assert(s == (h + e1 + hc + iv) + t4);
    lemma_assoc(h + e1 + hc, iv, t4);
    assert(s == (h + e1 + hc) + t3);
    lemma_assoc(h + e1, hc, t3);
    assert(s == (h + e1) + t2);
    lemma_assoc(h, e1, t2);
    assert(s == h + t1);
    reveal_strlit("{\"tag\":\"UpdateComic\",\"label\":");
    reveal_strlit("{\"tag\":\"TrackReader\",\"comic_label\":");
    reveal_strlit("{\"tag\":\"UpdateReader\",\"comic_label\":");
    reveal_strlit("{\"tag\":\"UntrackReader\",\"comic_label\":");
    reveal_strlit("{\"tag\":\"TrackComic\",\"label\":");
    assert(s[8] == h[8]);
    assert(s[9] == h[9]);
    assert(s[14] == h[14]);
    lemma_not_at_lit(s, 0, "{\"tag\":\"TrackReader\",\"comic_label\":"@, 8);
    lemma_not_at_lit(s, 0, "{\"tag\":\"UpdateReader\",\"comic_label\":"@, 14);
    lemma_not_at_lit(s, 0, "{\"tag\":\"UntrackReader\",\"comic_label\":"@, 9);
    lemma_not_at_lit(s, 0, "{\"tag\":\"TrackComic\",\"label\":"@, 8);
    assert(at_lit(s, 0, h)) by {
        assert(s.subrange(0, h.len() as int) =~= h);
    }
    let j1 = h.len() as int;
    lemma_dec_string_of_enc(h, c.label, t2);
    let j2 = j1 + e1.len() as int;
    lemma_assoc(h + e1, hc, t3);
    assert(s == ((h + e1) + hc) + t3);
    lemma_expect_cat(h + e1, hc, t3);
    let j3 = j2 + hc.len() as int;
    lemma_assoc((h + e1) + hc, iv, t4);
    assert(s == (((h + e1) + hc) + iv) + t4);
    reveal_strlit(",\"page\":");
    assert(t4[0] == ',') by {
        assert(t4[0] == hp[0]);
    }
    assert((h + e1) + hc == h + e1 + hc);
    lemma_dec_int_of_enc((h + e1) + hc, c.chapter as int, t4);
    let j4 = j3 + iv.len() as int;
    lemma_assoc(((h + e1) + hc) + iv, hp, t5);
    assert(s == ((((h + e1) + hc) + iv) + hp) + t5);
    lemma_expect_cat(((h + e1) + hc) + iv, hp, t5);
    let j5 = j4 + hp.len() as int;
    lemma_assoc((((h + e1) + hc) + iv) + hp, ov, t6);
    assert(s == (((((h + e1) + hc) + iv) + hp) + ov) + t6);
    assert(t6[0] == ',') by {
        assert(t6[0] == hr1[0]);
    }
    lemma_dec_opt_int_of_enc((((h + e1) + hc) + iv) + hp, c.page, t6);
    let j6 = j5 + ov.len() as int;
    assert((((((h + e1) + hc) + iv) + hp) + ov) == pre);
    lemma_assoc(pre, hr1, t7);
    assert(s == (pre + hr1) + t7);
    lemma_expect_cat(pre, hr1, t7);
    let j7 = j6 + hr1.len() as int;
    let p7 = pre + hr1;
    assert(s == (p7 + blk) + h4) by {
        lemma_assoc(p7, blk, h4);
    }
    lemma_dec_reader_list_of_enc(p7, c.readers, h4);
    let j8 = j7 + ls.len() as int + 2;
    assert(dec_reader_list(s, j7) == Option::Some((c.readers, j8)));
    assert(s == ((p7 + blk) + h4) + Seq::<char>::empty()) by {
        assert(((p7 + blk) + h4) + Seq::<char>::empty() =~= (p7 + blk) + h4);
    }
    lemma_expect_cat(p7 + blk, h4, Seq::<char>::empty());
    assert((p7 + blk).len() == j8);
    let j9 = j8 + h4.len() as int;
    assert(j9 == s.len());
    assert(dec_payload_at(s, 0) == Option::Some((p, j9)));
}

/// Decoding inverts encoding: every envelope payload comes back exactly
/// from its canonical wire text.
pub proof fn lemma_payload_round_trip(p: crate::messages::PayloadV)
    ensures
        dec_payload(enc_payload(p)) == Option::Some(p),
{
    match p {
        crate::messages::PayloadV::TrackReader(r) => lemma_rt_track_reader(r),
        crate::messages::PayloadV::UpdateReader(r) => lemma_rt_update_reader(r),
        crate::messages::PayloadV::UntrackReader(r) => lemma_rt_untrack_reader(r),
        crate::messages::PayloadV::TrackComic(c) => lemma_rt_track_comic(c),
        crate::messages::PayloadV::UpdateComic(c) => lemma_rt_update_comic(c),
        crate::messages::PayloadV::UntrackComic(c) => lemma_rt_untrack_comic(c),
        crate::messages::PayloadV::ListComics => lemma_rt_list_comics(),
    }
}

} // verus!
