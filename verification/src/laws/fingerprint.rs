//! A fingerprint is written down in such a way that two different replies never read the same.
use vstd::prelude::*;
use vstd::utf8::{char_is_scalar, encode_scalar, encode_utf8, encode_utf8_decode_utf8};

use crate::digest::{
    fingerprint, number_bytes, opt_text_bytes, row_bytes, rows_bytes, source_byte, text_bytes,
    token_bytes, tokens_bytes,
};
use crate::token::{RowView, TokenView};

verus! {

/// Two texts of bytes that begin with parts of the same length are the same part by part.
proof fn lemma_cut(p: Seq<u8>, x: Seq<u8>, q: Seq<u8>, y: Seq<u8>)
    requires
        p + x == q + y,
        p.len() == q.len(),
    ensures
        p == q,
        x == y,
{
    assert(p =~= (p + x).take(p.len() as int));
    assert(q =~= (q + y).take(q.len() as int));
    assert(x =~= (p + x).skip(p.len() as int));
    assert(y =~= (q + y).skip(q.len() as int));
}

proof fn lemma_number_cut(a: u64, x: Seq<u8>, b: u64, y: Seq<u8>)
    requires
        number_bytes(a) + x == number_bytes(b) + y,
    ensures
        a == b,
        x == y,
{
    lemma_cut(number_bytes(a), x, number_bytes(b), y);
    let p = number_bytes(a);
    let q = number_bytes(b);
    assert(p[0] == q[0] && p[1] == q[1] && p[2] == q[2] && p[3] == q[3] && p[4] == q[4] && p[5]
        == q[5] && p[6] == q[6] && p[7] == q[7]);
    lemma_number_of_bytes(a);
    lemma_number_of_bytes(b);
}

/// A number is made of its bytes.
proof fn lemma_number_of_bytes(n: u64)
    ensures
        n == number_bytes(n)[0] + 0x100 * number_bytes(n)[1] + 0x1_0000 * number_bytes(n)[2]
            + 0x100_0000 * number_bytes(n)[3] + 0x1_0000_0000 * number_bytes(n)[4]
            + 0x100_0000_0000 * number_bytes(n)[5] + 0x1_0000_0000_0000 * number_bytes(n)[6]
            + 0x100_0000_0000_0000 * number_bytes(n)[7],
{
    let n1 = n / 0x100;
    let n2 = n / 0x1_0000;
    let n3 = n / 0x100_0000;
    let n4 = n / 0x1_0000_0000;
    let n5 = n / 0x100_0000_0000;
    let n6 = n / 0x1_0000_0000_0000;
    let n7 = n / 0x100_0000_0000_0000;
    assert(n2 == n1 / 256 && n3 == n2 / 256 && n4 == n3 / 256 && n5 == n4 / 256 && n6 == n5 / 256
        && n7 == n6 / 256 && n7 < 256);
}

/// UTF-8 does not use the byte that ends a text.
proof fn lemma_no_end_byte(s: Seq<char>)
    ensures
        forall|i: int| 0 <= i < encode_utf8(s).len() ==> #[trigger] encode_utf8(s)[i] != 0xff,
    decreases s.len(),
{
    if s.len() > 0 {
        let c = s[0] as u32;
        char_is_scalar(s[0]);
        lemma_no_end_byte(s.drop_first());
        assert((c & 0x7F) as u8 != 0xff) by (bit_vector);
        assert(0xC0u8 | ((c >> 6) & 0x1F) as u8 != 0xff) by (bit_vector);
        assert(0xE0u8 | ((c >> 12) & 0x0F) as u8 != 0xff) by (bit_vector);
        assert(0xF0u8 | ((c >> 18) & 0x7) as u8 != 0xff) by (bit_vector);
        assert(0x80u8 | (c & 0x3F) as u8 != 0xff) by (bit_vector);
        assert(0x80u8 | ((c >> 6) & 0x3F) as u8 != 0xff) by (bit_vector);
        assert(0x80u8 | ((c >> 12) & 0x3F) as u8 != 0xff) by (bit_vector);
        let head = encode_scalar(c);
        let tail = encode_utf8(s.drop_first());
        assert forall|i: int| 0 <= i < encode_utf8(s).len() implies #[trigger] encode_utf8(s)[i]
            != 0xff by {
            if i >= head.len() {
                assert(encode_utf8(s)[i] == tail[i - head.len()]);
            }
        }
    }
}

proof fn lemma_text_cut(a: Seq<char>, x: Seq<u8>, b: Seq<char>, y: Seq<u8>)
    requires
        text_bytes(a) + x == text_bytes(b) + y,
    ensures
        a == b,
        x == y,
{
    let p = encode_utf8(a);
    let q = encode_utf8(b);
    let all = text_bytes(a) + x;
    lemma_no_end_byte(a);
    lemma_no_end_byte(b);
    assert(all[p.len() as int] == 0xff);
    assert(all[q.len() as int] == 0xff);
    if p.len() < q.len() {
        assert(all[p.len() as int] == q[p.len() as int]);
    } else if q.len() < p.len() {
        assert(all[q.len() as int] == p[q.len() as int]);
    }
    lemma_cut(text_bytes(a), x, text_bytes(b), y);
    assert(p =~= text_bytes(a).drop_last());
    assert(q =~= text_bytes(b).drop_last());
    encode_utf8_decode_utf8(a);
    encode_utf8_decode_utf8(b);
}

proof fn lemma_opt_text_cut(a: Option<Seq<char>>, x: Seq<u8>, b: Option<Seq<char>>, y: Seq<u8>)
    requires
        opt_text_bytes(a) + x == opt_text_bytes(b) + y,
    ensures
        a == b,
        x == y,
{
    let all = opt_text_bytes(a) + x;
    let other = opt_text_bytes(b) + y;
    assert(all[0] == (if a is Some {
        1u8
    } else {
        0u8
    }));
    assert(other[0] == (if b is Some {
        1u8
    } else {
        0u8
    }));
    match (a, b) {
        (Some(s), Some(t)) => {
            assert(all =~= seq![1u8] + (text_bytes(s) + x));
            assert(other =~= seq![1u8] + (text_bytes(t) + y));
            lemma_cut(seq![1u8], text_bytes(s) + x, seq![1u8], text_bytes(t) + y);
            lemma_text_cut(s, x, t, y);
        },
        _ => {
            lemma_cut(seq![0u8], x, seq![0u8], y);
        },
    }
}

proof fn lemma_token_cut(a: TokenView, x: Seq<u8>, b: TokenView, y: Seq<u8>)
    requires
        token_bytes(a) + x == token_bytes(b) + y,
    ensures
        a == b,
        x == y,
{
    let a5 = opt_text_bytes(a.logo_uri) + x;
    let a4 = seq![a.decimals] + a5;
    let a3 = text_bytes(a.symbol) + a4;
    let a2 = text_bytes(a.name) + a3;
    let a1 = text_bytes(a.address) + a2;
    let b5 = opt_text_bytes(b.logo_uri) + y;
    let b4 = seq![b.decimals] + b5;
    let b3 = text_bytes(b.symbol) + b4;
    let b2 = text_bytes(b.name) + b3;
    let b1 = text_bytes(b.address) + b2;
    assert(token_bytes(a) + x =~= number_bytes(a.chain_id) + a1);
    assert(token_bytes(b) + y =~= number_bytes(b.chain_id) + b1);
    lemma_number_cut(a.chain_id, a1, b.chain_id, b1);
    lemma_text_cut(a.address, a2, b.address, b2);
    lemma_text_cut(a.name, a3, b.name, b3);
    lemma_text_cut(a.symbol, a4, b.symbol, b4);
    lemma_cut(seq![a.decimals], a5, seq![b.decimals], b5);
    assert(seq![a.decimals][0] == seq![b.decimals][0]);
    lemma_opt_text_cut(a.logo_uri, x, b.logo_uri, y);
}

proof fn lemma_row_cut(a: RowView, x: Seq<u8>, b: RowView, y: Seq<u8>)
    requires
        row_bytes(a) + x == row_bytes(b) + y,
    ensures
        a == b,
        x == y,
{
    let s = seq![source_byte(a.source)];
    let t = seq![source_byte(b.source)];
    assert(row_bytes(a) + x =~= token_bytes(a.token) + (s + x));
    assert(row_bytes(b) + y =~= token_bytes(b.token) + (t + y));
    lemma_token_cut(a.token, s + x, b.token, t + y);
    lemma_cut(s, x, t, y);
    assert(s[0] == t[0]);
}

proof fn lemma_rows_cut(a: Seq<RowView>, x: Seq<u8>, b: Seq<RowView>, y: Seq<u8>)
    requires
        rows_bytes(a) + x == rows_bytes(b) + y,
    ensures
        a == b,
        x == y,
    decreases a.len(),
{
    let all = rows_bytes(a) + x;
    let other = rows_bytes(b) + y;
    assert(all[0] == (if a.len() == 0 {
        0u8
    } else {
        1u8
    }));
    assert(other[0] == (if b.len() == 0 {
        0u8
    } else {
        1u8
    }));
    if a.len() == 0 {
        lemma_cut(seq![0u8], x, seq![0u8], y);
        assert(a =~= b);
    } else {
        let p = rows_bytes(a.drop_first()) + x;
        let q = rows_bytes(b.drop_first()) + y;
        assert(all =~= seq![1u8] + (row_bytes(a.first()) + p));
        assert(other =~= seq![1u8] + (row_bytes(b.first()) + q));
        lemma_cut(seq![1u8], row_bytes(a.first()) + p, seq![1u8], row_bytes(b.first()) + q);
        lemma_row_cut(a.first(), p, b.first(), q);
        lemma_rows_cut(a.drop_first(), x, b.drop_first(), y);
        assert(a =~= seq![a.first()] + a.drop_first());
        assert(b =~= seq![b.first()] + b.drop_first());
    }
}

proof fn lemma_tokens_same(a: Seq<TokenView>, b: Seq<TokenView>)
    requires
        tokens_bytes(a) == tokens_bytes(b),
    ensures
        a == b,
    decreases a.len(),
{
    let all = tokens_bytes(a);
    let other = tokens_bytes(b);
    assert(all[0] == (if a.len() == 0 {
        0u8
    } else {
        1u8
    }));
    assert(other[0] == (if b.len() == 0 {
        0u8
    } else {
        1u8
    }));
    if a.len() == 0 {
        assert(a =~= b);
    } else {
        let p = tokens_bytes(a.drop_first());
        let q = tokens_bytes(b.drop_first());
        lemma_cut(seq![1u8], token_bytes(a.first()) + p, seq![1u8], token_bytes(b.first()) + q);
        lemma_token_cut(a.first(), p, b.first(), q);
        lemma_tokens_same(a.drop_first(), b.drop_first());
        assert(a =~= seq![a.first()] + a.drop_first());
        assert(b =~= seq![b.first()] + b.drop_first());
    }
}

/// Two replies have the same fingerprint only if they are the same reply.
pub proof fn law_fingerprint_tells_replies_apart(
    rows: Seq<RowView>,
    offered: Seq<TokenView>,
    other_rows: Seq<RowView>,
    other_offered: Seq<TokenView>,
)
    ensures
        fingerprint(rows, offered) == fingerprint(other_rows, other_offered) <==> rows
            == other_rows && offered == other_offered,
{
    if fingerprint(rows, offered) == fingerprint(other_rows, other_offered) {
        lemma_rows_cut(rows, tokens_bytes(offered), other_rows, tokens_bytes(other_offered));
        lemma_tokens_same(offered, other_offered);
    }
}

} // verus!
