use minicbor::{Decoder, Encoder};
use tunnel_core::codec::{decode_expr, encode_expr};
use tunnel_core::expr::{and, eq, f, ident, int_lit, member, not, or, seq_lit, str, t, Expr};

/// Writes an expression with the calls of a CBOR encoder.
fn write(e: &Expr, enc: &mut Encoder<Vec<u8>>) {
    let (kind, items) = match e {
        Expr::Str(s) => {
            enc.array(2).unwrap().u32(1).unwrap().array(1).unwrap().str(s).unwrap();
            return;
        }
        Expr::Int(n) => {
            enc.array(2).unwrap().u32(2).unwrap().array(1).unwrap().i64(*n).unwrap();
            return;
        }
        Expr::Bool(b) => {
            enc.array(2).unwrap().u32(4).unwrap().array(1).unwrap().bool(*b).unwrap();
            return;
        }
        Expr::Ident(s) => {
            enc.array(2).unwrap().u32(5).unwrap().array(1).unwrap().str(s).unwrap();
            return;
        }
        Expr::Sequence(items) => (6, items),
        Expr::List(items) => (7, items),
    };
    enc.array(2).unwrap().u32(kind).unwrap().array(1).unwrap();
    enc.array(items.len() as u64).unwrap();
    for item in items {
        write(item, enc);
    }
}

/// Reads an expression with the calls of a CBOR decoder.
fn read(dec: &mut Decoder) -> Expr {
    assert_eq!(dec.array().unwrap(), Some(2));
    let kind = dec.u32().unwrap();
    assert_eq!(dec.array().unwrap(), Some(1));
    match kind {
        1 => Expr::Str(dec.str().unwrap().to_string()),
        2 => Expr::Int(dec.i64().unwrap()),
        4 => Expr::Bool(dec.bool().unwrap()),
        5 => Expr::Ident(dec.str().unwrap().to_string()),
        6 | 7 => {
            let count = dec.array().unwrap().unwrap();
            let items: Vec<Expr> = (0..count).map(|_| read(dec)).collect();
            if kind == 6 {
                Expr::Sequence(items)
            } else {
                Expr::List(items)
            }
        }
        other => panic!("unexpected kind {}", other),
    }
}

fn samples() -> Vec<Expr> {
    let long: String = std::iter::repeat("añ✓").take(100).collect();
    vec![
        t(),
        f(),
        str(""),
        str(&long),
        ident("subject.name"),
        int_lit(0),
        int_lit(23),
        int_lit(24),
        int_lit(-24),
        int_lit(-25),
        int_lit(1 << 40),
        int_lit(i64::MAX),
        int_lit(i64::MIN),
        seq_lit(vec![]),
        seq_lit((0..300).map(int_lit).collect()),
        eq(vec![ident("name"), str("me")]),
        or(vec![
            and(vec![eq(vec![ident("a"), int_lit(-1)]), not(ident("b"))]),
            member(ident("c"), seq_lit(vec![str("x"), str("y"), seq_lit(vec![t()])])),
        ]),
    ]
}

#[test]
fn a_cbor_decoder_reads_what_the_library_writes() {
    for e in samples() {
        let bytes = encode_expr(&e);
        let mut dec = Decoder::new(&bytes);
        assert_eq!(read(&mut dec), e);
        assert_eq!(dec.position(), bytes.len());
    }
}

#[test]
fn the_library_writes_what_a_cbor_encoder_writes() {
    for e in samples() {
        let mut enc = Encoder::new(Vec::new());
        write(&e, &mut enc);
        assert_eq!(encode_expr(&e), enc.into_writer(), "expression {:?}", e);
    }
}

#[test]
fn the_library_reads_what_a_cbor_encoder_writes() {
    for e in samples() {
        let mut enc = Encoder::new(Vec::new());
        write(&e, &mut enc);
        assert_eq!(decode_expr(&enc.into_writer()).unwrap(), e);
    }
}

#[test]
fn arrays_of_indefinite_length_are_refused() {
    let mut enc = Encoder::new(Vec::new());
    enc.array(2).unwrap().u32(6).unwrap().array(1).unwrap();
    enc.begin_array().unwrap().end().unwrap();
    assert!(decode_expr(&enc.into_writer()).is_err());
}
