//! The binary form of expressions, as it is stored.
//!
//! The form is a subset of CBOR. An expression is an array of two items: the
//! number of its kind, and an array of one item, its payload. Numbers and
//! lengths take the shortest head that holds them, and every array and text
//! has a definite length, so each expression has one encoding.

use crate::error::{Error, Kind};
use crate::expr::{lemma_items_view, views_of, Expr, ExprView};
use vstd::prelude::*;
use vstd::slice::{slice_subrange, slice_to_vec};
use vstd::utf8::{decode_utf8, encode_utf8, valid_utf8};

verus! {

/// The number of values that `width` bytes can hold.
pub open spec fn limit(width: nat) -> nat
    decreases width,
{
    if width == 0 {
        1
    } else {
        256 * limit((width - 1) as nat)
    }
}

/// The `width` bytes that spell `n`, most significant first.
pub open spec fn be_bytes(n: nat, width: nat) -> Seq<u8>
    decreases width,
{
    if width == 0 {
        Seq::empty()
    } else {
        be_bytes(n / 256, (width - 1) as nat).push((n % 256) as u8)
    }
}

/// The number that `bytes` spell, most significant first.
pub open spec fn be_value(bytes: Seq<u8>) -> nat
    decreases bytes.len(),
{
    if bytes.len() == 0 {
        0
    } else {
        be_value(bytes.drop_last()) * 256 + bytes.last() as nat
    }
}

/// The limits of the widths that heads use.
pub proof fn lemma_limits()
    ensures
        limit(0) == 1,
        limit(1) == 0x100,
        limit(2) == 0x1_0000,
        limit(4) == 0x1_0000_0000,
        limit(8) == 0x1_0000_0000_0000_0000,
{
    reveal_with_fuel(limit, 9);
}

/// A number below the limit of a width reads back from its bytes.
pub proof fn lemma_be_value_of_bytes(n: nat, width: nat)
    requires
        n < limit(width),
    ensures
        be_bytes(n, width).len() == width,
        be_value(be_bytes(n, width)) == n,
    decreases width,
{
    if width > 0 {
        lemma_be_value_of_bytes(n / 256, (width - 1) as nat);
        let shorter = be_bytes(n / 256, (width - 1) as nat);
        assert(be_bytes(n, width).drop_last() =~= shorter);
    }
}

/// Bytes spell a number below the limit of their width, which spells them.
pub proof fn lemma_be_bytes_of_value(bytes: Seq<u8>)
    ensures
        be_value(bytes) < limit(bytes.len()),
        be_bytes(be_value(bytes), bytes.len()) == bytes,
    decreases bytes.len(),
{
    if bytes.len() > 0 {
        lemma_be_bytes_of_value(bytes.drop_last());
        let v = be_value(bytes);
        assert(v / 256 == be_value(bytes.drop_last()));
        assert(v % 256 == bytes.last());
        assert(be_bytes(v, bytes.len()) =~= bytes);
    } else {
        assert(be_bytes(0, 0) =~= bytes);
    }
}

/// The width of the bytes that follow the first byte of a head whose
/// argument is `n`.
pub open spec fn head_width(n: nat) -> nat {
    if n < 24 {
        0
    } else if n < 0x100 {
        1
    } else if n < 0x1_0000 {
        2
    } else if n < 0x1_0000_0000 {
        4
    } else {
        8
    }
}

/// The low five bits of the first byte of a head whose argument is `n`.
pub open spec fn head_info(n: nat) -> nat {
    if n < 24 {
        n
    } else if n < 0x100 {
        24
    } else if n < 0x1_0000 {
        25
    } else if n < 0x1_0000_0000 {
        26
    } else {
        27
    }
}

/// The head of a data item: its major type `major` and its argument `n`, in
/// the shortest of the five forms that holds `n`.
pub open spec fn head(major: nat, n: nat) -> Seq<u8> {
    seq![(major * 32 + head_info(n)) as u8] + be_bytes(n, head_width(n))
}

/// The bytes of a text: its length in bytes, then its UTF-8 encoding.
pub open spec fn text_bytes(s: Seq<char>) -> Seq<u8> {
    head(3, encode_utf8(s).len()) + encode_utf8(s)
}

/// The bytes of an integer.
pub open spec fn int_bytes(n: i64) -> Seq<u8> {
    if n >= 0 {
        head(0, n as nat)
    } else {
        head(1, (-1 - n) as nat)
    }
}

/// The byte of a boolean.
pub open spec fn bool_byte(b: bool) -> u8 {
    if b {
        0xf5
    } else {
        0xf4
    }
}

/// What every encoded expression starts with: the head of an array of two
/// items, the number `kind`, and the head of an array of one item.
pub open spec fn prelude_bytes(kind: u8) -> Seq<u8> {
    seq![0x82u8, kind, 0x81u8]
}

/// The binary form of an expression.
pub open spec fn encode(e: ExprView) -> Seq<u8>
    decreases e,
{
    match e {
        ExprView::Str(s) => prelude_bytes(1) + text_bytes(s),
        ExprView::Int(n) => prelude_bytes(2) + int_bytes(n),
        ExprView::Bool(b) => prelude_bytes(4) + seq![bool_byte(b)],
        ExprView::Ident(s) => prelude_bytes(5) + text_bytes(s),
        ExprView::Sequence(items) => prelude_bytes(6) + head(4, items.len()) + encode_all(items),
        ExprView::List(items) => prelude_bytes(7) + head(4, items.len()) + encode_all(items),
    }
}

/// The binary forms of `items`, one after the other.
pub open spec fn encode_all(items: Seq<ExprView>) -> Seq<u8>
    decreases items,
{
    if items.len() == 0 {
        Seq::empty()
    } else {
        encode_all(items.drop_last()) + encode(items.last())
    }
}

/// The width of the bytes that follow a first byte with the low bits
/// `info`, where there is such a head.
pub open spec fn info_width(info: nat) -> Option<nat> {
    if info < 24 {
        Some(0)
    } else if info == 24 {
        Some(1)
    } else if info == 25 {
        Some(2)
    } else if info == 26 {
        Some(4)
    } else if info == 27 {
        Some(8)
    } else {
        None
    }
}

/// Reads a head from the start of `b`: the major type, the argument and the
/// number of bytes read. A head that is longer than its argument needs is
/// refused, and so are the forms that this format does not use.
pub open spec fn spec_read_head(b: Seq<u8>) -> Option<(nat, nat, int)> {
    if b.len() == 0 {
        None
    } else {
        let major = (b[0] / 32) as nat;
        let info = (b[0] % 32) as nat;
        match info_width(info) {
            None => None,
            Some(width) => {
                if width == 0 {
                    Some((major, info, 1))
                } else if b.len() < 1 + width {
                    None
                } else {
                    let n = be_value(b.subrange(1, 1 + width as int));
                    if head_info(n) == info {
                        Some((major, n, 1 + width as int))
                    } else {
                        None
                    }
                }
            },
        }
    }
}

/// A head reads back as what it was made of, whatever follows it.
pub proof fn lemma_head_reads_back(major: nat, n: nat, rest: Seq<u8>)
    requires
        major < 8,
        n <= u64::MAX,
    ensures
        spec_read_head(head(major, n) + rest) == Some((major, n, head(major, n).len() as int)),
        head(major, n).len() == 1 + head_width(n),
{
    lemma_limits();
    let width = head_width(n);
    let h = head(major, n);
    let b = h + rest;
    assert(b[0] == h[0]);
    assert(b[0] == major * 32 + head_info(n));
    if width > 0 {
        lemma_be_value_of_bytes(n, width);
        assert(b.subrange(1, 1 + width as int) =~= be_bytes(n, width));
    }
}

/// What reads as a head is that head.
pub proof fn lemma_read_head_sound(b: Seq<u8>)
    requires
        spec_read_head(b) is Some,
    ensures
        ({
            let (major, n, k) = spec_read_head(b)->0;
            &&& major < 8
            &&& n <= u64::MAX
            &&& k == 1 + head_width(n)
            &&& k <= b.len()
            &&& b.subrange(0, k) == head(major, n)
        }),
{
    lemma_limits();
    let (major, n, k) = spec_read_head(b)->0;
    let info = (b[0] % 32) as nat;
    let width = info_width(info)->0;
    if width > 0 {
        lemma_be_bytes_of_value(b.subrange(1, 1 + width as int));
    } else {
        assert(be_bytes(n, 0) =~= Seq::<u8>::empty());
    }
    assert(b.subrange(0, k) =~= head(major, n));
}

/// Reads a text from the start of `b`: the text and the number of bytes read.
pub open spec fn spec_read_text(b: Seq<u8>) -> Option<(Seq<char>, int)> {
    match spec_read_head(b) {
        Some((major, n, k)) => {
            if major == 3 && k + n <= b.len() && valid_utf8(b.subrange(k, k + n)) {
                Some((decode_utf8(b.subrange(k, k + n)), k + n))
            } else {
                None
            }
        },
        None => None,
    }
}

/// Reads an integer from the start of `b`.
pub open spec fn spec_read_int(b: Seq<u8>) -> Option<(i64, int)> {
    match spec_read_head(b) {
        Some((major, n, k)) => {
            if n > i64::MAX {
                None
            } else if major == 0 {
                Some((n as i64, k))
            } else if major == 1 {
                Some(((-1 - n) as i64, k))
            } else {
                None
            }
        },
        None => None,
    }
}

/// Reads one expression from the start of `b`: the expression and the
/// number of bytes read.
pub open spec fn spec_decode(b: Seq<u8>) -> Option<(ExprView, int)>
    decreases b.len(), 0nat,
{
    if b.len() < 3 || b[0] != 0x82 || b[2] != 0x81 {
        None
    } else {
        let kind = b[1];
        let body = b.skip(3);
        if kind == 1 || kind == 5 {
            match spec_read_text(body) {
                Some((s, k)) => Some(
                    (
                        if kind == 1 {
                            ExprView::Str(s)
                        } else {
                            ExprView::Ident(s)
                        },
                        3 + k,
                    ),
                ),
                None => None,
            }
        } else if kind == 2 {
            match spec_read_int(body) {
                Some((n, k)) => Some((ExprView::Int(n), 3 + k)),
                None => None,
            }
        } else if kind == 4 {
            if body.len() >= 1 && (body[0] == 0xf4 || body[0] == 0xf5) {
                Some((ExprView::Bool(body[0] == 0xf5), 4))
            } else {
                None
            }
        } else if kind == 6 || kind == 7 {
            match spec_read_head(body) {
                Some((major, n, k)) => {
                    if major == 4 && 0 < k <= body.len() {
                        match spec_decode_all(body.skip(k), n) {
                            Some((items, m)) => Some(
                                (
                                    if kind == 6 {
                                        ExprView::Sequence(items)
                                    } else {
                                        ExprView::List(items)
                                    },
                                    3 + k + m,
                                ),
                            ),
                            None => None,
                        }
                    } else {
                        None
                    }
                },
                None => None,
            }
        } else {
            None
        }
    }
}

/// Reads `count` expressions from the start of `b`: the expressions and the
/// number of bytes read.
pub open spec fn spec_decode_all(b: Seq<u8>, count: nat) -> Option<(Seq<ExprView>, int)>
    decreases b.len(), count + 1,
{
    if count == 0 {
        Some((Seq::empty(), 0))
    } else {
        match spec_decode(b) {
            Some((first, k)) => {
                if 0 < k <= b.len() {
                    match spec_decode_all(b.skip(k), (count - 1) as nat) {
                        Some((rest, m)) => Some((seq![first] + rest, k + m)),
                        None => None,
                    }
                } else {
                    None
                }
            },
            None => None,
        }
    }
}

/// Whether the lengths in an expression can be written down: every value
/// that is held in memory fits.
pub open spec fn fits(e: ExprView) -> bool
    decreases e,
{
    match e {
        ExprView::Str(s) => encode_utf8(s).len() <= u64::MAX,
        ExprView::Ident(s) => encode_utf8(s).len() <= u64::MAX,
        ExprView::Int(_) => true,
        ExprView::Bool(_) => true,
        ExprView::Sequence(items) => items.len() <= u64::MAX && forall|i: int|
            0 <= i < items.len() ==> fits(#[trigger] items[i]),
        ExprView::List(items) => items.len() <= u64::MAX && forall|i: int|
            0 <= i < items.len() ==> fits(#[trigger] items[i]),
    }
}

/// Whether each of `items` fits.
pub open spec fn all_fit(items: Seq<ExprView>) -> bool {
    forall|i: int| 0 <= i < items.len() ==> fits(#[trigger] items[i])
}

/// The binary forms of items, taken from the front.
pub proof fn lemma_encode_all_front(first: ExprView, rest: Seq<ExprView>)
    ensures
        encode_all(seq![first] + rest) == encode(first) + encode_all(rest),
    decreases rest.len(),
{
    let all = seq![first] + rest;
    if rest.len() == 0 {
        assert(all.drop_last() =~= Seq::<ExprView>::empty());
        assert(encode_all(all.drop_last()) =~= Seq::<u8>::empty());
        assert(encode_all(all) =~= encode(first) + encode_all(rest));
    } else {
        assert(all.drop_last() =~= seq![first] + rest.drop_last());
        assert(all.last() == rest.last());
        lemma_encode_all_front(first, rest.drop_last());
        assert(encode_all(all) =~= encode(first) + encode_all(rest));
    }
}

proof fn lemma_text_reads_back(s: Seq<char>, rest: Seq<u8>)
    requires
        encode_utf8(s).len() <= u64::MAX,
    ensures
        spec_read_text(text_bytes(s) + rest) == Some((s, text_bytes(s).len() as int)),
{
    let utf8 = encode_utf8(s);
    let b = text_bytes(s) + rest;
    assert(b =~= head(3, utf8.len()) + (utf8 + rest));
    lemma_head_reads_back(3, utf8.len(), utf8 + rest);
    let k = head(3, utf8.len()).len() as int;
    assert(b.subrange(k, k + utf8.len()) =~= utf8);
    vstd::utf8::encode_utf8_valid_utf8(s);
    vstd::utf8::encode_utf8_decode_utf8(s);
}

proof fn lemma_int_reads_back(n: i64, rest: Seq<u8>)
    ensures
        spec_read_int(int_bytes(n) + rest) == Some((n, int_bytes(n).len() as int)),
{
    if n >= 0 {
        lemma_head_reads_back(0, n as nat, rest);
    } else {
        lemma_head_reads_back(1, (-1 - n) as nat, rest);
    }
}

/// What reading an expression gives where its bytes start with the prelude
/// of the kind `kind`: the kind decides how the rest is read.
proof fn lemma_prelude_reads(kind: u8, body: Seq<u8>)
    ensures
        ({
            let b = prelude_bytes(kind) + body;
            &&& b.len() >= 3
            &&& b[0] == 0x82
            &&& b[1] == kind
            &&& b[2] == 0x81
            &&& b.skip(3) == body
        }),
{
    let b = prelude_bytes(kind) + body;
    assert(b.skip(3) =~= body);
}

proof fn lemma_items_read_back(kind: u8, items: Seq<ExprView>, rest: Seq<u8>)
    requires
        kind == 6 || kind == 7,
        items.len() <= u64::MAX,
        spec_decode_all(encode_all(items) + rest, items.len()) == Some(
            (items, encode_all(items).len() as int),
        ),
    ensures
        ({
            let coded = prelude_bytes(kind) + head(4, items.len()) + encode_all(items);
            spec_decode(coded + rest) == Some(
                (
                    if kind == 6 {
                        ExprView::Sequence(items)
                    } else {
                        ExprView::List(items)
                    },
                    coded.len() as int,
                ),
            )
        }),
{
    let h = head(4, items.len());
    let coded = prelude_bytes(kind) + h + encode_all(items);
    let body = h + (encode_all(items) + rest);
    assert(coded + rest =~= prelude_bytes(kind) + body);
    lemma_prelude_reads(kind, body);
    lemma_head_reads_back(4, items.len(), encode_all(items) + rest);
    assert(body.skip(h.len() as int) =~= encode_all(items) + rest);
}

proof fn lemma_text_expr_reads_back(kind: u8, s: Seq<char>, rest: Seq<u8>)
    requires
        kind == 1 || kind == 5,
        encode_utf8(s).len() <= u64::MAX,
    ensures
        ({
            let coded = prelude_bytes(kind) + text_bytes(s);
            spec_decode(coded + rest) == Some(
                (
                    if kind == 1 {
                        ExprView::Str(s)
                    } else {
                        ExprView::Ident(s)
                    },
                    coded.len() as int,
                ),
            )
        }),
{
    let coded = prelude_bytes(kind) + text_bytes(s);
    let body = text_bytes(s) + rest;
    assert(coded + rest =~= prelude_bytes(kind) + body);
    lemma_prelude_reads(kind, body);
    lemma_text_reads_back(s, rest);
}

proof fn lemma_int_expr_reads_back(n: i64, rest: Seq<u8>)
    ensures
        ({
            let coded = prelude_bytes(2) + int_bytes(n);
            spec_decode(coded + rest) == Some((ExprView::Int(n), coded.len() as int))
        }),
{
    let coded = prelude_bytes(2) + int_bytes(n);
    let body = int_bytes(n) + rest;
    assert(coded + rest =~= prelude_bytes(2) + body);
    lemma_prelude_reads(2, body);
    lemma_int_reads_back(n, rest);
}

proof fn lemma_bool_expr_reads_back(v: bool, rest: Seq<u8>)
    ensures
        ({
            let coded = prelude_bytes(4) + seq![bool_byte(v)];
            spec_decode(coded + rest) == Some((ExprView::Bool(v), coded.len() as int))
        }),
{
    let coded = prelude_bytes(4) + seq![bool_byte(v)];
    let body = seq![bool_byte(v)] + rest;
    assert(coded + rest =~= prelude_bytes(4) + body);
    lemma_prelude_reads(4, body);
    assert(body[0] == bool_byte(v));
}

/// An expression reads back from its binary form, whatever follows it.
pub proof fn lemma_decode_of_encode(e: ExprView, rest: Seq<u8>)
    requires
        fits(e),
    ensures
        spec_decode(encode(e) + rest) == Some((e, encode(e).len() as int)),
    decreases e,
{
    match e {
        ExprView::Str(s) => {
            lemma_text_expr_reads_back(1, s, rest);
        },
        ExprView::Ident(s) => {
            lemma_text_expr_reads_back(5, s, rest);
        },
        ExprView::Int(n) => {
            lemma_int_expr_reads_back(n, rest);
        },
        ExprView::Bool(v) => {
            lemma_bool_expr_reads_back(v, rest);
        },
        ExprView::Sequence(items) => {
            lemma_decode_all_of_encode_all(items, rest);
            lemma_items_read_back(6, items, rest);
        },
        ExprView::List(items) => {
            lemma_decode_all_of_encode_all(items, rest);
            lemma_items_read_back(7, items, rest);
        },
    }
}

/// Expressions read back from their binary forms, whatever follows them.
pub proof fn lemma_decode_all_of_encode_all(items: Seq<ExprView>, rest: Seq<u8>)
    requires
        all_fit(items),
    ensures
        spec_decode_all(encode_all(items) + rest, items.len()) == Some(
            (items, encode_all(items).len() as int),
        ),
    decreases items,
{
    if items.len() > 0 {
        let first = items[0];
        let others = items.skip(1);
        assert(items =~= seq![first] + others);
        lemma_encode_all_front(first, others);
        let b = encode_all(items) + rest;
        assert(b =~= encode(first) + (encode_all(others) + rest));
        assert(fits(first));
        lemma_decode_of_encode(first, encode_all(others) + rest);
        assert(b.skip(encode(first).len() as int) =~= encode_all(others) + rest);
        assert(all_fit(others)) by {
            assert forall|i: int| 0 <= i < others.len() implies fits(#[trigger] others[i]) by {
                assert(others[i] == items[i + 1]);
            }
        }
        lemma_decode_all_of_encode_all(others, rest);
    } else {
        assert(encode_all(items) + rest =~= rest);
    }
}

proof fn lemma_read_text_sound(b: Seq<u8>)
    requires
        spec_read_text(b) is Some,
    ensures
        ({
            let (s, k) = spec_read_text(b)->0;
            &&& 0 < k <= b.len()
            &&& b.subrange(0, k) == text_bytes(s)
            &&& encode_utf8(s).len() <= u64::MAX
        }),
{
    lemma_read_head_sound(b);
    let (major, n, h) = spec_read_head(b)->0;
    let (s, k) = spec_read_text(b)->0;
    let utf8 = b.subrange(h, h + n);
    vstd::utf8::decode_utf8_encode_utf8(utf8);
    assert(b.subrange(0, k) =~= b.subrange(0, h) + utf8);
}

proof fn lemma_read_int_sound(b: Seq<u8>)
    requires
        spec_read_int(b) is Some,
    ensures
        ({
            let (n, k) = spec_read_int(b)->0;
            &&& 0 < k <= b.len()
            &&& b.subrange(0, k) == int_bytes(n)
        }),
{
    lemma_read_head_sound(b);
}

/// What reads as an expression is the binary form of that expression.
pub proof fn lemma_decode_sound(b: Seq<u8>)
    requires
        spec_decode(b) is Some,
    ensures
        ({
            let (e, n) = spec_decode(b)->0;
            &&& 3 < n <= b.len()
            &&& b.subrange(0, n) == encode(e)
            &&& fits(e)
        }),
    decreases b.len(), 0nat,
{
    let (e, n) = spec_decode(b)->0;
    let kind = b[1];
    let body = b.skip(3);
    assert(b.subrange(0, 3) =~= prelude_bytes(kind));
    if kind == 1 || kind == 5 {
        lemma_read_text_sound(body);
        let (s, k) = spec_read_text(body)->0;
        assert(b.subrange(0, n) =~= b.subrange(0, 3) + body.subrange(0, k));
    } else if kind == 2 {
        lemma_read_int_sound(body);
        let (v, k) = spec_read_int(body)->0;
        assert(b.subrange(0, n) =~= b.subrange(0, 3) + body.subrange(0, k));
    } else if kind == 4 {
        assert(b.subrange(0, n) =~= b.subrange(0, 3) + seq![body[0]]);
    } else {
        lemma_read_head_sound(body);
        let (major, count, k) = spec_read_head(body)->0;
        lemma_decode_all_sound(body.skip(k), count);
        let (items, m) = spec_decode_all(body.skip(k), count)->0;
        assert(b.subrange(0, n) =~= b.subrange(0, 3) + body.subrange(0, k) + body.skip(
            k,
        ).subrange(0, m));
    }
}

/// What reads as `count` expressions is the binary forms of those
/// expressions, one after the other.
pub proof fn lemma_decode_all_sound(b: Seq<u8>, count: nat)
    requires
        spec_decode_all(b, count) is Some,
    ensures
        ({
            let (items, m) = spec_decode_all(b, count)->0;
            &&& 0 <= m <= b.len()
            &&& items.len() == count
            &&& b.subrange(0, m) == encode_all(items)
            &&& all_fit(items)
        }),
    decreases b.len(), count + 1,
{
    let (items, m) = spec_decode_all(b, count)->0;
    if count == 0 {
        assert(b.subrange(0, 0) =~= encode_all(items));
    } else {
        lemma_decode_sound(b);
        let (first, k) = spec_decode(b)->0;
        lemma_decode_all_sound(b.skip(k), (count - 1) as nat);
        let (rest, r) = spec_decode_all(b.skip(k), (count - 1) as nat)->0;
        lemma_encode_all_front(first, rest);
        assert(b.subrange(0, m) =~= b.subrange(0, k) + b.skip(k).subrange(0, r));
        assert forall|i: int| 0 <= i < items.len() implies fits(#[trigger] items[i]) by {
            if i > 0 {
                assert(items[i] == rest[i - 1]);
            }
        }
    }
}

/// No two expressions share a binary form.
pub proof fn lemma_encode_injective(a: ExprView, b: ExprView)
    requires
        fits(a),
        fits(b),
        encode(a) == encode(b),
    ensures
        a == b,
{
    lemma_decode_of_encode(a, Seq::empty());
    lemma_decode_of_encode(b, Seq::empty());
}

/// `String::from_utf8` of the standard library: the text that `bytes` hold
/// in UTF-8, or nothing where they are not UTF-8. The contract says so over
/// the definition of UTF-8 that the verifier's library gives.
#[verifier::external_body]
fn string_from_utf8(bytes: Vec<u8>) -> (r: Option<String>)
    ensures
        r is Some <==> valid_utf8(bytes@),
        r matches Some(s) ==> s@ == decode_utf8(bytes@),
{
    String::from_utf8(bytes).ok()
}

fn push_be(out: &mut Vec<u8>, n: u64, width: u8)
    requires
        width <= 8,
    ensures
        final(out)@ == old(out)@ + be_bytes(n as nat, width as nat),
    decreases width,
{
    if width > 0 {
        push_be(out, n / 256, width - 1);
        out.push((n % 256) as u8);
        assert(out@ =~= old(out)@ + be_bytes(n as nat, width as nat));
    } else {
        assert(out@ =~= old(out)@ + be_bytes(n as nat, 0));
    }
}

fn push_head(out: &mut Vec<u8>, major: u8, n: u64)
    requires
        major < 8,
    ensures
        final(out)@ == old(out)@ + head(major as nat, n as nat),
{
    let info: u8 = if n < 24 {
        n as u8
    } else if n < 0x100 {
        24
    } else if n < 0x1_0000 {
        25
    } else if n < 0x1_0000_0000 {
        26
    } else {
        27
    };
    let width: u8 = if n < 24 {
        0
    } else if n < 0x100 {
        1
    } else if n < 0x1_0000 {
        2
    } else if n < 0x1_0000_0000 {
        4
    } else {
        8
    };
    out.push(major * 32 + info);
    push_be(out, n, width);
    assert(out@ =~= old(out)@ + head(major as nat, n as nat));
}

fn push_prelude(out: &mut Vec<u8>, kind: u8)
    ensures
        final(out)@ == old(out)@ + prelude_bytes(kind),
{
    out.push(0x82);
    out.push(kind);
    out.push(0x81);
    assert(out@ =~= old(out)@ + prelude_bytes(kind));
}

fn push_text(out: &mut Vec<u8>, s: &str)
    ensures
        final(out)@ == old(out)@ + text_bytes(s@),
        encode_utf8(s@).len() <= u64::MAX,
{
    let mut utf8 = s.as_bytes_vec();
    push_head(out, 3, utf8.len() as u64);
    out.append(&mut utf8);
    assert(out@ =~= old(out)@ + text_bytes(s@));
}

fn push_int(out: &mut Vec<u8>, n: i64)
    ensures
        final(out)@ == old(out)@ + int_bytes(n),
{
    if n >= 0 {
        push_head(out, 0, n as u64);
    } else {
        push_head(out, 1, (-1 - n) as u64);
    }
}

fn push_items(out: &mut Vec<u8>, items: &Vec<Expr>)
    ensures
        final(out)@ == old(out)@ + head(4, items@.len()) + encode_all(views_of(items@)),
        all_fit(views_of(items@)),
        items@.len() <= u64::MAX,
    decreases items,
{
    push_head(out, 4, items.len() as u64);
    let ghost start = out@;
    let ghost views = views_of(items@);
    let mut i: usize = 0;
    assert(views.take(0) =~= Seq::<ExprView>::empty());
    assert(start + encode_all(views.take(0)) =~= start);
    while i < items.len()
        invariant
            i <= items@.len(),
            views == views_of(items@),
            out@ == start + encode_all(views.take(i as int)),
            all_fit(views.take(i as int)),
        decreases items.len() - i,
    {
        encode_into(&items[i], out);
        proof {
            let next = views.take(i + 1);
            assert(next.drop_last() =~= views.take(i as int));
            assert(next.last() == items@[i as int]@);
            assert(out@ =~= start + encode_all(next));
            assert forall|j: int| 0 <= j < next.len() implies fits(#[trigger] next[j]) by {
                if j < i {
                    assert(next[j] == views.take(i as int)[j]);
                }
            }
        }
        i = i + 1;
    }
    assert(views.take(i as int) =~= views);
}

fn encode_into(e: &Expr, out: &mut Vec<u8>)
    ensures
        final(out)@ == old(out)@ + encode(e@),
        fits(e@),
    decreases e,
{
    proof {
        lemma_items_view(*e);
    }
    match e {
        Expr::Str(s) => {
            push_prelude(out, 1);
            push_text(out, s.as_str());
            assert(out@ =~= old(out)@ + encode(e@));
        },
        Expr::Int(n) => {
            push_prelude(out, 2);
            push_int(out, *n);
            assert(out@ =~= old(out)@ + encode(e@));
        },
        Expr::Bool(b) => {
            push_prelude(out, 4);
            out.push(if *b {
                0xf5
            } else {
                0xf4
            });
            assert(out@ =~= old(out)@ + encode(e@));
        },
        Expr::Ident(s) => {
            push_prelude(out, 5);
            push_text(out, s.as_str());
            assert(out@ =~= old(out)@ + encode(e@));
        },
        Expr::Sequence(items) => {
            push_prelude(out, 6);
            push_items(out, items);
            assert(out@ =~= old(out)@ + encode(e@));
        },
        Expr::List(items) => {
            push_prelude(out, 7);
            push_items(out, items);
            assert(out@ =~= old(out)@ + encode(e@));
        },
    }
}

/// The binary form of `e`.
pub fn encode_expr(e: &Expr) -> (out: Vec<u8>)
    ensures
        out@ == encode(e@),
        fits(e@),
{
    let mut out: Vec<u8> = Vec::new();
    encode_into(e, &mut out);
    assert(out@ =~= encode(e@));
    out
}

fn read_be(bytes: &[u8], pos: usize, width: usize) -> (v: u64)
    requires
        width <= 8,
        pos + width <= bytes@.len(),
    ensures
        v as nat == be_value(bytes@.subrange(pos as int, pos + width)),
{
    let mut v: u64 = 0;
    let mut i: usize = 0;
    let len = bytes.len();
    while i < width
        invariant
            i <= width <= 8,
            len == bytes@.len(),
            pos + width <= bytes@.len(),
            v as nat == be_value(bytes@.subrange(pos as int, pos + i)),
        decreases width - i,
    {
        proof {
            lemma_be_bytes_of_value(bytes@.subrange(pos as int, pos + i));
            reveal_with_fuel(limit, 9);
            let longer = bytes@.subrange(pos as int, pos + i + 1);
            assert(longer.drop_last() =~= bytes@.subrange(pos as int, pos + i));
            assert(longer.last() == bytes@[pos + i]);
        }
        v = v * 256 + bytes[pos + i] as u64;
        i = i + 1;
    }
    v
}

fn read_head(bytes: &[u8], pos: usize) -> (r: Option<(u8, u64, usize)>)
    requires
        pos <= bytes@.len(),
    ensures
        match r {
            Some((major, n, k)) => spec_read_head(bytes@.skip(pos as int)) == Some(
                (major as nat, n as nat, k as int),
            ) && pos + k <= bytes@.len(),
            None => spec_read_head(bytes@.skip(pos as int)) is None,
        },
{
    let ghost b = bytes@.skip(pos as int);
    if pos >= bytes.len() {
        return None;
    }
    let first = bytes[pos];
    assert(b[0] == first);
    let major = first / 32;
    let info = first % 32;
    let width: usize = if info < 24 {
        0
    } else if info == 24 {
        1
    } else if info == 25 {
        2
    } else if info == 26 {
        4
    } else if info == 27 {
        8
    } else {
        return None;
    };
    if width == 0 {
        return Some((major, info as u64, 1));
    }
    if bytes.len() - pos - 1 < width {
        return None;
    }
    let n = read_be(bytes, pos + 1, width);
    assert(b.subrange(1, 1 + width as int) =~= bytes@.subrange(pos + 1, pos + 1 + width));
    let shortest: u8 = if n < 24 {
        n as u8
    } else if n < 0x100 {
        24
    } else if n < 0x1_0000 {
        25
    } else if n < 0x1_0000_0000 {
        26
    } else {
        27
    };
    if shortest != info {
        return None;
    }
    Some((major, n, 1 + width))
}

fn read_text(bytes: &[u8], pos: usize) -> (r: Option<(String, usize)>)
    requires
        pos <= bytes@.len(),
    ensures
        match r {
            Some((s, k)) => spec_read_text(bytes@.skip(pos as int)) == Some((s@, k as int)) && pos
                + k <= bytes@.len(),
            None => spec_read_text(bytes@.skip(pos as int)) is None,
        },
{
    let ghost b = bytes@.skip(pos as int);
    match read_head(bytes, pos) {
        None => None,
        Some((major, n, k)) => {
            if major != 3 || n > (bytes.len() - pos - k) as u64 {
                return None;
            }
            let len = n as usize;
            let from = pos + k;
            let utf8 = slice_to_vec(slice_subrange(bytes, from, from + len));
            assert(b.subrange(k as int, k + n) =~= utf8@);
            match string_from_utf8(utf8) {
                None => None,
                Some(s) => Some((s, k + len)),
            }
        },
    }
}

fn read_int(bytes: &[u8], pos: usize) -> (r: Option<(i64, usize)>)
    requires
        pos <= bytes@.len(),
    ensures
        match r {
            Some((n, k)) => spec_read_int(bytes@.skip(pos as int)) == Some((n, k as int)) && pos
                + k <= bytes@.len(),
            None => spec_read_int(bytes@.skip(pos as int)) is None,
        },
{
    match read_head(bytes, pos) {
        None => None,
        Some((major, n, k)) => {
            if n > 0x7fff_ffff_ffff_ffff {
                None
            } else if major == 0 {
                Some((n as i64, k))
            } else if major == 1 {
                Some((-1 - (n as i64), k))
            } else {
                None
            }
        },
    }
}

/// What reading a run of expressions gives where the first ones gave `acc`
/// and took `used` bytes, and the rest gives `rest`.
pub open spec fn after(acc: Seq<ExprView>, used: int, rest: Option<(Seq<ExprView>, int)>)
    -> Option<(Seq<ExprView>, int)> {
    match rest {
        Some((items, m)) => Some((acc + items, used + m)),
        None => None,
    }
}

fn decode_items(bytes: &[u8], pos: usize, count: u64) -> (r: Option<(Vec<Expr>, usize)>)
    requires
        pos <= bytes@.len(),
    ensures
        match r {
            Some((items, k)) => spec_decode_all(bytes@.skip(pos as int), count as nat) == Some(
                (views_of(items@), k as int),
            ) && pos + k <= bytes@.len(),
            None => spec_decode_all(bytes@.skip(pos as int), count as nat) is None,
        },
    decreases bytes@.len() - pos, 1nat,
{
    let mut items: Vec<Expr> = Vec::new();
    let mut cur: usize = pos;
    let mut i: u64 = 0;
    let len = bytes.len();
    let ghost whole = spec_decode_all(bytes@.skip(pos as int), count as nat);
    proof {
        let rest = spec_decode_all(bytes@.skip(cur as int), (count - i) as nat);
        if rest is Some {
            let (found, used) = rest->0;
            assert(views_of(items@) + found =~= found);
        }
    }
    while i < count
        invariant
            i <= count,
            len == bytes@.len(),
            pos <= cur <= bytes@.len(),
            whole == spec_decode_all(bytes@.skip(pos as int), count as nat),
            whole == after(
                views_of(items@),
                cur - pos,
                spec_decode_all(bytes@.skip(cur as int), (count - i) as nat),
            ),
        decreases count - i,
    {
        let ghost b = bytes@.skip(cur as int);
        let ghost acc = views_of(items@);
        match decode_at(bytes, cur) {
            None => {
                return None;
            },
            Some((e, k)) => {
                proof {
                    lemma_decode_sound(b);
                    assert(b.skip(k as int) =~= bytes@.skip(cur + k));
                    let rest = spec_decode_all(b.skip(k as int), (count - i - 1) as nat);
                    assert(views_of(items@.push(e)) =~= acc.push(e@));
                    if rest is Some {
                        let (found, used) = rest->0;
                        assert(acc + (seq![e@] + found) =~= acc.push(e@) + found);
                    }
                }
                items.push(e);
                cur = cur + k;
                i = i + 1;
            },
        }
    }
    assert(views_of(items@) + Seq::<ExprView>::empty() =~= views_of(items@));
    Some((items, cur - pos))
}

fn decode_at(bytes: &[u8], pos: usize) -> (r: Option<(Expr, usize)>)
    requires
        pos <= bytes@.len(),
    ensures
        match r {
            Some((e, k)) => spec_decode(bytes@.skip(pos as int)) == Some((e@, k as int)) && pos + k
                <= bytes@.len(),
            None => spec_decode(bytes@.skip(pos as int)) is None,
        },
    decreases bytes@.len() - pos, 0nat,
{
    let ghost b = bytes@.skip(pos as int);
    if bytes.len() - pos < 3 {
        return None;
    }
    assert(b[0] == bytes@[pos as int] && b[1] == bytes@[pos + 1] && b[2] == bytes@[pos + 2]);
    if bytes[pos] != 0x82 || bytes[pos + 2] != 0x81 {
        return None;
    }
    let kind = bytes[pos + 1];
    let at = pos + 3;
    assert(b.skip(3) =~= bytes@.skip(at as int));
    if kind == 1 || kind == 5 {
        match read_text(bytes, at) {
            None => None,
            Some((s, k)) => {
                if kind == 1 {
                    Some((Expr::Str(s), 3 + k))
                } else {
                    Some((Expr::Ident(s), 3 + k))
                }
            },
        }
    } else if kind == 2 {
        match read_int(bytes, at) {
            None => None,
            Some((n, k)) => Some((Expr::Int(n), 3 + k)),
        }
    } else if kind == 4 {
        if bytes.len() - at < 1 {
            return None;
        }
        let byte = bytes[at];
        assert(b.skip(3)[0] == byte);
        if byte == 0xf4 || byte == 0xf5 {
            Some((Expr::Bool(byte == 0xf5), 4))
        } else {
            None
        }
    } else if kind == 6 || kind == 7 {
        match read_head(bytes, at) {
            None => None,
            Some((major, count, k)) => {
                if major != 4 {
                    return None;
                }
                proof {
                    lemma_read_head_sound(b.skip(3));
                    assert(b.skip(3).skip(k as int) =~= bytes@.skip(at + k));
                }
                match decode_items(bytes, at + k, count) {
                    None => None,
                    Some((items, m)) => {
                        let e = if kind == 6 {
                            Expr::Sequence(items)
                        } else {
                            Expr::List(items)
                        };
                        proof {
                            lemma_items_view(e);
                        }
                        Some((e, 3 + k + m))
                    },
                }
            },
        }
    } else {
        None
    }
}

/// The binary forms of items are at least as long as each of them, and as
/// long as there are items.
pub proof fn lemma_encode_all_len(items: Seq<ExprView>)
    ensures
        encode_all(items).len() >= items.len(),
        forall|i: int|
            0 <= i < items.len() ==> encode_all(items).len() >= (#[trigger] encode(items[i])).len(),
    decreases items.len(),
{
    if items.len() > 0 {
        let first = items.drop_last();
        lemma_encode_all_len(first);
        assert(encode(items.last()).len() >= 3) by {
            lemma_encode_len(items.last());
        }
        assert forall|i: int| 0 <= i < items.len() implies encode_all(items).len() >= (
        #[trigger] encode(items[i])).len() by {
            if i < items.len() - 1 {
                assert(first[i] == items[i]);
            }
        }
    }
}

/// A binary form is at least as long as its prelude.
pub proof fn lemma_encode_len(e: ExprView)
    ensures
        encode(e).len() >= 3,
{
}

/// The binary form of an expression whose lengths cannot be written down
/// is longer than any bytes that are held in memory.
pub proof fn lemma_unfit_is_long(e: ExprView)
    requires
        !fits(e),
    ensures
        encode(e).len() > u64::MAX,
    decreases e,
{
    match e {
        ExprView::Sequence(items) => {
            lemma_encode_all_len(items);
            if items.len() <= u64::MAX {
                let i = choose|i: int| 0 <= i < items.len() && !fits(#[trigger] items[i]);
                lemma_unfit_is_long(items[i]);
            }
        },
        ExprView::List(items) => {
            lemma_encode_all_len(items);
            if items.len() <= u64::MAX {
                let i = choose|i: int| 0 <= i < items.len() && !fits(#[trigger] items[i]);
                lemma_unfit_is_long(items[i]);
            }
        },
        _ => {},
    }
}

/// The expression that `bytes` are the binary form of, where they are one.
pub open spec fn decoded(bytes: Seq<u8>) -> Option<ExprView> {
    match spec_decode(bytes) {
        Some((e, n)) => if n == bytes.len() {
            Some(e)
        } else {
            None
        },
        None => None,
    }
}

/// Decoding the binary form of an expression gives the expression back.
pub proof fn lemma_decoded_of_encode(e: ExprView)
    requires
        fits(e),
    ensures
        decoded(encode(e)) == Some(e),
{
    lemma_decode_of_encode(e, Seq::empty());
    assert(encode(e) + Seq::<u8>::empty() =~= encode(e));
}

/// Bytes decode to an expression exactly where they are its binary form.
pub proof fn lemma_decoded_is_encoded(bytes: Seq<u8>, e: ExprView)
    ensures
        decoded(bytes) == Some(e) <==> (fits(e) && encode(e) == bytes),
{
    if decoded(bytes) == Some(e) {
        lemma_decode_sound(bytes);
        assert(bytes.subrange(0, bytes.len() as int) =~= bytes);
    }
    if fits(e) && encode(e) == bytes {
        lemma_decoded_of_encode(e);
    }
}

/// The message of the failure for bytes that are no binary form.
pub open spec fn corrupt_message() -> Seq<char> {
    "the stored bytes are not the binary form of an expression"@
}

/// Reads an expression from its binary form. Succeeds exactly on the binary
/// forms of expressions, and returns the one expression that has the given
/// form.
pub fn decode_expr(bytes: &[u8]) -> (r: Result<Expr, Error>)
    ensures
        match r {
            Ok(e) => decoded(bytes@) == Some(e@) && fits(e@) && encode(e@) == bytes@,
            Err(err) => decoded(bytes@) is None && err.kind == Kind::Corruption && err.message@
                == corrupt_message() && forall|v: ExprView| #[trigger] encode(v) != bytes@,
        },
{
    assert(bytes@.skip(0) =~= bytes@);
    let len = bytes.len();
    let decoded = decode_at(bytes, 0);
    let whole = match &decoded {
        Some((_, k)) => *k == len,
        None => false,
    };
    if whole {
        match decoded {
            Some((e, k)) => {
                proof {
                    lemma_decode_sound(bytes@);
                    assert(bytes@.subrange(0, k as int) =~= bytes@);
                }
                Ok(e)
            },
            None => Err(
                Error::new(
                    Kind::Corruption,
                    "the stored bytes are not the binary form of an expression",
                ),
            ),
        }
    } else {
        proof {
            assert forall|v: ExprView| #[trigger] encode(v) != bytes@ by {
                if encode(v) == bytes@ {
                    if fits(v) {
                        lemma_decode_of_encode(v, Seq::empty());
                        assert(encode(v) + Seq::<u8>::empty() =~= bytes@);
                    } else {
                        lemma_unfit_is_long(v);
                    }
                }
            }
        }
        Err(
            Error::new(
                Kind::Corruption,
                "the stored bytes are not the binary form of an expression",
            ),
        )
    }
}

} // verus!
