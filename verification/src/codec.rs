//! The snapshot codec: the on-disk text of a counter list, and the
//! parser that reads it back.
//!
//! A snapshot is a pretty-printed JSON array of `{"name", "count"}`
//! objects, two spaces of indent per level, exactly as the saving side
//! writes it.  The parser reads that canonical form: fixed framing
//! around each record, an escaped string name, and a signed decimal
//! count that must fit in an `i64`.  Encoding and decoding are both
//! specified as functions on character sequences, and decoding an
//! encoded snapshot is proved to give back the same counters.

use vstd::prelude::*;
use crate::num::{
    dec_digits, dec_int, digit_val, fold_digits, is_digit_char, lemma_digits_val_of_dec,
};
use crate::store::{views_of, Counter, CounterV};

verus! {

/// The escape of one character inside a JSON string: quote, backslash,
/// and the common control characters get a two-character escape; every
/// other character stands for itself.
pub open spec fn esc_char(c: char) -> Seq<char> {
    if c == '"' {
        seq!['\\', '"']
    } else if c == '\\' {
        seq!['\\', '\\']
    } else if c == '\n' {
        seq!['\\', 'n']
    } else if c == '\t' {
        seq!['\\', 't']
    } else if c == '\r' {
        seq!['\\', 'r']
    } else if c == '\u{8}' {
        seq!['\\', 'b']
    } else if c == '\u{c}' {
        seq!['\\', 'f']
    } else {
        seq![c]
    }
}

/// The escaped form of a whole string.
pub open spec fn esc_str(s: Seq<char>) -> Seq<char>
    decreases s.len(),
{
    if s.len() == 0 {
        Seq::<char>::empty()
    } else {
        esc_char(s[0]) + esc_str(s.drop_first())
    }
}

/// The character named by a one-letter escape code, if any.
pub open spec fn unesc_char(c: char) -> Option<char> {
    if c == '"' {
        Some('"')
    } else if c == '\\' {
        Some('\\')
    } else if c == 'n' {
        Some('\n')
    } else if c == 't' {
        Some('\t')
    } else if c == 'r' {
        Some('\r')
    } else if c == 'b' {
        Some('\u{8}')
    } else if c == 'f' {
        Some('\u{c}')
    } else {
        None
    }
}

/// The text before a record's name.
pub open spec fn item_open() -> Seq<char> {
    seq![' ', ' ', '{', '\n', ' ', ' ', ' ', ' ', '"', 'n', 'a', 'm', 'e', '"', ':', ' ', '"']
}

/// The text between a record's name and its count.
pub open spec fn item_mid() -> Seq<char> {
    seq![',', '\n', ' ', ' ', ' ', ' ', '"', 'c', 'o', 'u', 'n', 't', '"', ':', ' ']
}

/// The text after a record's count.
pub open spec fn item_close() -> Seq<char> {
    seq!['\n', ' ', ' ', '}']
}

/// The text of one record.
pub open spec fn enc_item(c: CounterV) -> Seq<char> {
    item_open() + esc_str(c.name) + seq!['"'] + item_mid() + dec_int(c.count) + item_close()
}

/// The records joined by a comma and a line break.
pub open spec fn enc_items(cs: Seq<CounterV>) -> Seq<char>
    decreases cs.len(),
{
    if cs.len() == 0 {
        Seq::<char>::empty()
    } else if cs.len() == 1 {
        enc_item(cs[0])
    } else {
        enc_item(cs[0]) + seq![',', '\n'] + enc_items(cs.drop_first())
    }
}

/// The whole snapshot text: an empty array, or the records between the
/// bracket lines.
pub open spec fn enc_snapshot(cs: Seq<CounterV>) -> Seq<char> {
    if cs.len() == 0 {
        seq!['[', ']']
    } else {
        seq!['[', '\n'] + enc_items(cs) + seq!['\n', ']']
    }
}

/// `t` with the prefix `p` taken off, when `p` is a prefix of `t`.
pub open spec fn strip(t: Seq<char>, p: Seq<char>) -> Option<Seq<char>> {
    if p.len() <= t.len() && t.subrange(0, p.len() as int) == p {
        Some(t.skip(p.len() as int))
    } else {
        None
    }
}

/// The string contents up to an unescaped closing quote, and the rest of
/// the text after that quote.
pub open spec fn parse_str(t: Seq<char>) -> Option<(Seq<char>, Seq<char>)>
    decreases t.len(),
{
    if t.len() == 0 {
        None
    } else if t[0] == '"' {
        Some((Seq::<char>::empty(), t.drop_first()))
    } else if t[0] == '\\' {
        if t.len() < 2 {
            None
        } else {
            match unesc_char(t[1]) {
                Some(c) => match parse_str(t.skip(2)) {
                    Some(p) => Some((seq![c] + p.0, p.1)),
                    None => None,
                },
                None => None,
            }
        }
    } else {
        match parse_str(t.drop_first()) {
            Some(p) => Some((seq![t[0]] + p.0, p.1)),
            None => None,
        }
    }
}

/// The leading digit run of `t` folded onto `acc`, and the rest of the
/// text.
pub open spec fn parse_digits(t: Seq<char>, acc: int) -> (int, Seq<char>)
    decreases t.len(),
{
    if t.len() > 0 && is_digit_char(t[0]) {
        parse_digits(t.drop_first(), acc * 10 + digit_val(t[0]))
    } else {
        (acc, t)
    }
}

/// A signed decimal number at the head of `t`: an optional minus sign
/// and at least one digit.
pub open spec fn parse_int(t: Seq<char>) -> Option<(int, Seq<char>)> {
    if t.len() == 0 {
        None
    } else if t[0] == '-' {
        if t.len() >= 2 && is_digit_char(t[1]) {
            let p = parse_digits(t.drop_first(), 0);
            Some((-p.0, p.1))
        } else {
            None
        }
    } else if is_digit_char(t[0]) {
        let p = parse_digits(t, 0);
        Some((p.0, p.1))
    } else {
        None
    }
}

/// One record at the head of `t`; its count must fit in an `i64`.
pub open spec fn parse_item(t: Seq<char>) -> Option<(CounterV, Seq<char>)> {
    match strip(t, item_open()) {
        Some(t1) => match parse_str(t1) {
            Some(np) => match strip(np.1, item_mid()) {
                Some(t3) => match parse_int(t3) {
                    Some(vp) => if i64::MIN <= vp.0 <= i64::MAX {
                        match strip(vp.1, item_close()) {
                            Some(t5) => Some((CounterV { name: np.0, count: vp.0 }, t5)),
                            None => None,
                        }
                    } else {
                        None
                    },
                    None => None,
                },
                None => None,
            },
            None => None,
        },
        None => None,
    }
}

/// The records at the head of `t`, separated by a comma and a line
/// break; `fuel` bounds how many there can be.
pub open spec fn parse_items(t: Seq<char>, fuel: nat) -> Option<(Seq<CounterV>, Seq<char>)>
    decreases fuel,
{
    if fuel == 0 {
        None
    } else {
        match parse_item(t) {
            Some(ip) => match strip(ip.1, seq![',', '\n']) {
                Some(t2) => match parse_items(t2, (fuel - 1) as nat) {
                    Some(rp) => Some((seq![ip.0] + rp.0, rp.1)),
                    None => None,
                },
                None => Some((seq![ip.0], ip.1)),
            },
            None => None,
        }
    }
}

/// A whole snapshot text: the counters it holds, when the text is the
/// canonical form.
pub open spec fn parse_snapshot(t: Seq<char>) -> Option<Seq<CounterV>> {
    if t == seq!['[', ']'] {
        Some(Seq::<CounterV>::empty())
    } else {
        match strip(t, seq!['[', '\n']) {
            Some(t1) => match parse_items(t1, t1.len()) {
                Some(p) => if p.1 == seq!['\n', ']'] {
                    Some(p.0)
                } else {
                    None
                },
                None => None,
            },
            None => None,
        }
    }
}

proof fn lemma_strip_of(p: Seq<char>, rest: Seq<char>)
    ensures
        strip(p + rest, p) == Some(rest),
{
    assert((p + rest).subrange(0, p.len() as int) =~= p);
    assert((p + rest).skip(p.len() as int) =~= rest);
}

proof fn lemma_esc_str_snoc(s: Seq<char>, c: char)
    ensures
        esc_str(s.push(c)) =~= esc_str(s) + esc_char(c),
    decreases s.len(),
{
    if s.len() == 0 {
        assert(s.push(c)[0] == c);
        assert(s.push(c).drop_first() =~= Seq::<char>::empty());
        assert(esc_str(s.push(c)) == esc_char(c) + esc_str(Seq::<char>::empty()));
        assert(esc_str(s) == Seq::<char>::empty());
    } else {
        assert(s.push(c)[0] == s[0]);
        assert(s.push(c).drop_first() =~= s.drop_first().push(c));
        assert(esc_str(s.push(c)) == esc_char(s[0]) + esc_str(s.drop_first().push(c)));
        lemma_esc_str_snoc(s.drop_first(), c);
        assert(esc_str(s.push(c)) =~= esc_char(s[0]) + (esc_str(s.drop_first()) + esc_char(c)));
    }
}

proof fn lemma_enc_items_snoc(cs: Seq<CounterV>, c: CounterV)
    requires
        cs.len() >= 1,
    ensures
        enc_items(cs.push(c)) =~= enc_items(cs) + seq![',', '\n'] + enc_item(c),
    decreases cs.len(),
{
    assert(cs.push(c)[0] == cs[0]);
    assert(cs.push(c).drop_first() =~= cs.drop_first().push(c));
    if cs.len() == 1 {
        assert(cs.drop_first().push(c) =~= seq![c]);
        assert(enc_items(seq![c]) == enc_item(seq![c][0]));
        assert(seq![c][0] == c);
    } else {
        lemma_enc_items_snoc(cs.drop_first(), c);
    }
}

proof fn lemma_parse_str_of_esc(s: Seq<char>, rest: Seq<char>)
    ensures
        parse_str(esc_str(s) + seq!['"'] + rest) == Some((s, rest)),
    decreases s.len(),
{
    let t = esc_str(s) + seq!['"'] + rest;
    if s.len() == 0 {
        assert(t =~= seq!['"'] + rest);
        assert(t[0] == '"');
        assert(t.drop_first() =~= rest);
        assert(parse_str(t) == Some((Seq::<char>::empty(), t.drop_first())));
        assert(Seq::<char>::empty() =~= s);
    } else {
        let c = s[0];
        let tail = esc_str(s.drop_first()) + seq!['"'] + rest;
        lemma_parse_str_of_esc(s.drop_first(), rest);
        assert(esc_str(s) == esc_char(c) + esc_str(s.drop_first()));
        if esc_char(c).len() == 2 {
            assert(t[0] == esc_char(c)[0]);
            assert(t[1] == esc_char(c)[1]);
            assert(t[0] == '\\');
            assert(unesc_char(esc_char(c)[1]) == Some(c));
            assert(t.skip(2) =~= tail);
            assert(parse_str(t) == Some((seq![c] + s.drop_first(), rest)));
            assert(seq![c] + s.drop_first() =~= s);
        } else {
            assert(esc_char(c) =~= seq![c]);
            assert(t[0] == c);
            assert(c != '"' && c != '\\');
            assert(t.drop_first() =~= tail);
            assert(parse_str(t) == Some((seq![c] + s.drop_first(), rest)));
            assert(seq![c] + s.drop_first() =~= s);
        }
    }
}

proof fn lemma_parse_digits_of(ds: Seq<char>, rest: Seq<char>, acc: int)
    requires
        crate::num::digits_only(ds),
        rest.len() == 0 || !is_digit_char(rest[0]),
    ensures
        parse_digits(ds + rest, acc) == (fold_digits(acc, ds), rest),
    decreases ds.len(),
{
    if ds.len() == 0 {
        assert(ds + rest =~= rest);
    } else {
        assert((ds + rest)[0] == ds[0]);
        assert(is_digit_char(ds[0]));
        assert((ds + rest).drop_first() =~= ds.drop_first() + rest);
        lemma_parse_digits_of(ds.drop_first(), rest, acc * 10 + digit_val(ds[0]));
    }
}

proof fn lemma_parse_int_of_dec(v: int, rest: Seq<char>)
    requires
        rest.len() == 0 || !is_digit_char(rest[0]),
    ensures
        parse_int(dec_int(v) + rest) == Some((v, rest)),
{
    let t = dec_int(v) + rest;
    if v < 0 {
        let mag = (-v) as nat;
        lemma_digits_val_of_dec(mag);
        assert(dec_int(v) == seq!['-'] + dec_digits(mag));
        assert(t =~= seq!['-'] + (dec_digits(mag) + rest));
        assert(t[0] == '-');
        assert(!is_digit_char('-'));
        assert(t[1] == dec_digits(mag)[0]);
        assert(is_digit_char(dec_digits(mag)[0]));
        assert(t.drop_first() =~= dec_digits(mag) + rest);
        lemma_parse_digits_of(dec_digits(mag), rest, 0);
        assert(parse_digits(t.drop_first(), 0) == (fold_digits(0, dec_digits(mag)), rest));
        assert(fold_digits(0, dec_digits(mag)) == mag);
    } else {
        lemma_digits_val_of_dec(v as nat);
        assert(t =~= dec_digits(v as nat) + rest);
        assert(t[0] == dec_digits(v as nat)[0]);
        assert(is_digit_char(t[0]));
        assert(t[0] != '-');
        lemma_parse_digits_of(dec_digits(v as nat), rest, 0);
        assert(parse_digits(t, 0) == (fold_digits(0, dec_digits(v as nat)), rest));
    }
}

proof fn lemma_parse_item_of(c: CounterV, rest: Seq<char>)
    requires
        i64::MIN <= c.count <= i64::MAX,
    ensures
        parse_item(enc_item(c) + rest) == Some((c, rest)),
{
    let t = enc_item(c) + rest;
    let r1 = esc_str(c.name) + seq!['"'] + item_mid() + dec_int(c.count) + item_close() + rest;
    assert(t =~= item_open() + r1);
    lemma_strip_of(item_open(), r1);
    assert(strip(t, item_open()) == Some(r1));
    let r2 = item_mid() + dec_int(c.count) + item_close() + rest;
    assert(r1 =~= esc_str(c.name) + seq!['"'] + r2);
    lemma_parse_str_of_esc(c.name, r2);
    assert(parse_str(r1) == Some((c.name, r2)));
    let r3 = dec_int(c.count) + item_close() + rest;
    assert(r2 =~= item_mid() + r3);
    lemma_strip_of(item_mid(), r3);
    let r4 = item_close() + rest;
    assert(r3 =~= dec_int(c.count) + r4);
    assert(r4[0] == '\n');
    assert(!is_digit_char('\n'));
    lemma_parse_int_of_dec(c.count, r4);
    assert(parse_int(r3) == Some((c.count, r4)));
    lemma_strip_of(item_close(), rest);
    assert(strip(r4, item_close()) == Some(rest));
    assert(parse_item(t) == Some((CounterV { name: c.name, count: c.count }, rest)));
    assert(CounterV { name: c.name, count: c.count } == c);
}

proof fn lemma_enc_items_len(cs: Seq<CounterV>)
    ensures
        enc_items(cs).len() >= cs.len(),
    decreases cs.len(),
{
    if cs.len() > 1 {
        lemma_enc_items_len(cs.drop_first());
    }
}

#[verifier::rlimit(80)]
proof fn lemma_parse_items_of(cs: Seq<CounterV>, rest: Seq<char>, fuel: nat)
    requires
        cs.len() >= 1,
        fuel >= cs.len(),
        forall|i: int| 0 <= i < cs.len() ==> i64::MIN <= #[trigger] cs[i].count <= i64::MAX,
        rest.len() == 0 || rest[0] != ',',
    ensures
        parse_items(enc_items(cs) + rest, fuel) == Some((cs, rest)),
    decreases cs.len(),
{
    let t = enc_items(cs) + rest;
    if cs.len() == 1 {
        assert(enc_items(cs) == enc_item(cs[0]));
        lemma_parse_item_of(cs[0], rest);
        assert(parse_item(t) == Some((cs[0], rest)));
        assert(strip(rest, seq![',', '\n']) is None) by {
            if rest.len() >= 2 {
                assert(rest.subrange(0, 2)[0] == rest[0]);
                assert(rest.subrange(0, 2) != seq![',', '\n']);
            }
        }
        assert(parse_items(t, fuel) == Some((seq![cs[0]], rest)));
        assert(seq![cs[0]] =~= cs);
    } else {
        let r1 = seq![',', '\n'] + enc_items(cs.drop_first()) + rest;
        assert(enc_items(cs) == enc_item(cs[0]) + seq![',', '\n'] + enc_items(cs.drop_first()));
        assert(t =~= enc_item(cs[0]) + r1);
        lemma_parse_item_of(cs[0], r1);
        assert(parse_item(t) == Some((cs[0], r1)));
        let r2 = enc_items(cs.drop_first()) + rest;
        assert(r1 =~= seq![',', '\n'] + r2);
        lemma_strip_of(seq![',', '\n'], r2);
        assert(strip(r1, seq![',', '\n']) == Some(r2));
        assert forall|i: int| 0 <= i < cs.drop_first().len() implies i64::MIN
            <= #[trigger] cs.drop_first()[i].count <= i64::MAX by {
            assert(cs.drop_first()[i] == cs[i + 1]);
        }
        lemma_parse_items_of(cs.drop_first(), rest, (fuel - 1) as nat);
        assert(parse_items(r2, (fuel - 1) as nat) == Some((cs.drop_first(), rest)));
        assert(parse_items(t, fuel) == Some((seq![cs[0]] + cs.drop_first(), rest)));
        assert(seq![cs[0]] + cs.drop_first() =~= cs);
    }
}

/// Law: decoding an encoded snapshot gives back exactly the counters that
/// were encoded, in order.  The counts of a real store always satisfy the
/// `i64` bounds asked for here.
pub proof fn lemma_snapshot_round_trip(cs: Seq<CounterV>)
    requires
        forall|i: int| 0 <= i < cs.len() ==> i64::MIN <= #[trigger] cs[i].count <= i64::MAX,
    ensures
        parse_snapshot(enc_snapshot(cs)) == Some(cs),
{
    let t = enc_snapshot(cs);
    if cs.len() == 0 {
        assert(t == seq!['[', ']']);
        assert(parse_snapshot(t) == Some(Seq::<CounterV>::empty()));
        assert(Seq::<CounterV>::empty() =~= cs);
    } else {
        let r1 = enc_items(cs) + seq!['\n', ']'];
        assert(t =~= seq!['[', '\n'] + r1);
        lemma_enc_items_len(cs);
        assert(t.len() >= 4);
        assert(t != seq!['[', ']']) by {
            assert(seq!['[', ']'].len() == 2);
        }
        lemma_strip_of(seq!['[', '\n'], r1);
        assert(strip(t, seq!['[', '\n']) == Some(r1));
        assert(seq!['\n', ']'][0] == '\n');
        lemma_parse_items_of(cs, seq!['\n', ']'], r1.len());
        assert(parse_items(r1, r1.len()) == Some((cs, seq!['\n', ']'])));
    }
}

fn lit2(a: char, b: char) -> (v: Vec<char>)
    ensures
        v@ =~= seq![a, b],
{
    let mut v: Vec<char> = Vec::new();
    v.push(a);
    v.push(b);
    v
}

fn lit_item_open() -> (v: Vec<char>)
    ensures
        v@ =~= item_open(),
{
    let mut v: Vec<char> = Vec::new();
    v.push(' ');
    v.push(' ');
    v.push('{');
    v.push('\n');
    v.push(' ');
    v.push(' ');
    v.push(' ');
    v.push(' ');
    v.push('"');
    v.push('n');
    v.push('a');
    v.push('m');
    v.push('e');
    v.push('"');
    v.push(':');
    v.push(' ');
    v.push('"');
    v
}

fn lit_item_mid() -> (v: Vec<char>)
    ensures
        v@ =~= item_mid(),
{
    let mut v: Vec<char> = Vec::new();
    v.push(',');
    v.push('\n');
    v.push(' ');
    v.push(' ');
    v.push(' ');
    v.push(' ');
    v.push('"');
    v.push('c');
    v.push('o');
    v.push('u');
    v.push('n');
    v.push('t');
    v.push('"');
    v.push(':');
    v.push(' ');
    v
}

fn lit_item_close() -> (v: Vec<char>)
    ensures
        v@ =~= item_close(),
{
    let mut v: Vec<char> = Vec::new();
    v.push('\n');
    v.push(' ');
    v.push(' ');
    v.push('}');
    v
}

/// One character of a name, escaped onto the end of `out`.
fn push_escaped(out: &mut Vec<char>, c: char)
    ensures
        final(out)@ =~= old(out)@ + esc_char(c),
{
    if c == '"' {
        out.push('\\');
        out.push('"');
    } else if c == '\\' {
        out.push('\\');
        out.push('\\');
    } else if c == '\n' {
        out.push('\\');
        out.push('n');
    } else if c == '\t' {
        out.push('\\');
        out.push('t');
    } else if c == '\r' {
        out.push('\\');
        out.push('r');
    } else if c == '\u{8}' {
        out.push('\\');
        out.push('b');
    } else if c == '\u{c}' {
        out.push('\\');
        out.push('f');
    } else {
        out.push(c);
    }
}

/// One record's text, appended to `out`.
fn encode_item_into(out: &mut Vec<char>, c: &Counter)
    ensures
        final(out)@ =~= old(out)@ + enc_item(c@),
{
    let ghost base = out@;
    let mut p = lit_item_open();
    out.append(&mut p);
    let ghost mark = out@;
    let mut k: usize = 0;
    while k < c.name.len()
        invariant
            k <= c.name.len(),
            out@ =~= mark + esc_str(c.name@.take(k as int)),
        decreases c.name.len() - k,
    {
        push_escaped(out, c.name[k]);
        proof {
            lemma_esc_str_snoc(c.name@.take(k as int), c.name@[k as int]);
            assert(c.name@.take(k as int).push(c.name@[k as int]) =~= c.name@.take(k as int + 1));
        }
        k = k + 1;
    }
    proof {
        assert(c.name@.take(c.name@.len() as int) =~= c.name@);
    }
    out.push('"');
    let mut p2 = lit_item_mid();
    out.append(&mut p2);
    let mut d = crate::num::i64_dec_chars(c.count);
    out.append(&mut d);
    let mut p3 = lit_item_close();
    out.append(&mut p3);
    proof {
        assert(out@ =~= base + enc_item(c@));
    }
}

/// The snapshot text of a counter list, in the canonical pretty form.
pub fn encode_snapshot(counters: &Vec<Counter>) -> (out: Vec<char>)
    ensures
        out@ =~= enc_snapshot(views_of(counters@)),
{
    let ghost vs = views_of(counters@);
    let mut out: Vec<char> = Vec::new();
    if counters.len() == 0 {
        out.push('[');
        out.push(']');
        proof {
            assert(out@ =~= enc_snapshot(vs));
        }
        return out;
    }
    out.push('[');
    out.push('\n');
    encode_item_into(&mut out, &counters[0]);
    proof {
        assert(vs[0] == counters@[0]@);
        assert(vs.take(1) =~= seq![vs[0]]);
        assert(enc_items(vs.take(1)) == enc_item(vs.take(1)[0]));
        assert(out@ =~= seq!['[', '\n'] + enc_items(vs.take(1)));
    }
    let mut k: usize = 1;
    while k < counters.len()
        invariant
            1 <= k <= counters.len(),
            vs == views_of(counters@),
            counters@.len() == vs.len(),
            out@ =~= seq!['[', '\n'] + enc_items(vs.take(k as int)),
        decreases counters.len() - k,
    {
        out.push(',');
        out.push('\n');
        encode_item_into(&mut out, &counters[k]);
        proof {
            assert(vs[k as int] == counters@[k as int]@);
            lemma_enc_items_snoc(vs.take(k as int), vs[k as int]);
            assert(vs.take(k as int).push(vs[k as int]) =~= vs.take(k as int + 1));
            assert(out@ =~= seq!['[', '\n'] + enc_items(vs.take(k as int + 1)));
        }
        k = k + 1;
    }
    out.push('\n');
    out.push(']');
    proof {
        assert(vs.take(vs.len() as int) =~= vs);
        assert(out@ =~= enc_snapshot(vs));
    }
    out
}

/// Whether the pattern `pat` stands at position `i` of `t`; on success,
/// the position just after it.
fn match_at(t: &Vec<char>, i: usize, pat: &Vec<char>) -> (r: Option<usize>)
    requires
        i <= t.len(),
        pat@.len() >= 1,
    ensures
        r matches Some(j) ==> strip(t@.skip(i as int), pat@) == Some(t@.skip(j as int)) && j == i
            + pat@.len() && i < j <= t@.len(),
        r is None ==> strip(t@.skip(i as int), pat@) is None,
{
    if t.len() - i < pat.len() {
        proof {
            assert(t@.skip(i as int).len() < pat@.len());
        }
        return None;
    }
    let n = t.len();
    let mut k: usize = 0;
    while k < pat.len()
        invariant
            i <= t@.len(),
            n == t@.len(),
            k <= pat@.len(),
            pat@.len() <= t@.len() - i,
            forall|x: int| 0 <= x < k ==> t@[i + x] == pat@[x],
        decreases pat.len() - k,
    {
        assert(i + k < n);
        if t[i + k] != pat[k] {
            proof {
                let sk = t@.skip(i as int);
                assert(sk.subrange(0, pat@.len() as int)[k as int] == sk[k as int]);
                assert(sk[k as int] == t@[i + k]);
                assert(sk.subrange(0, pat@.len() as int) != pat@);
            }
            return None;
        }
        k = k + 1;
    }
    proof {
        let sk = t@.skip(i as int);
        assert forall|x: int| 0 <= x < pat@.len() implies sk.subrange(0, pat@.len() as int)[x]
            == pat@[x] by {
            assert(sk.subrange(0, pat@.len() as int)[x] == t@[i + x]);
        }
        assert(sk.subrange(0, pat@.len() as int) =~= pat@);
        assert(sk.skip(pat@.len() as int) =~= t@.skip(i + pat@.len()));
    }
    Some(i + pat.len())
}

/// A string's contents from position `i` (just after the opening quote)
/// up to its closing quote; on success, also the position after that
/// quote.
fn parse_str_at(t: &Vec<char>, i: usize) -> (r: Option<(Vec<char>, usize)>)
    requires
        i <= t.len(),
    ensures
        r is None ==> parse_str(t@.skip(i as int)) is None,
        r matches Some(p) ==> parse_str(t@.skip(i as int)) == Some((p.0@, t@.skip(p.1 as int)))
            && i < p.1 <= t@.len(),
{
    let whole = Ghost(parse_str(t@.skip(i as int)));
    let mut acc: Vec<char> = Vec::new();
    let mut k: usize = i;
    proof {
        if whole@ is Some {
            assert(Seq::<char>::empty() + (whole@->0).0 =~= (whole@->0).0);
        }
    }
    loop
        invariant
            i <= k <= t@.len(),
            whole@ == parse_str(t@.skip(i as int)),
            whole@ is Some <==> parse_str(t@.skip(k as int)) is Some,
            whole@ is Some ==> (whole@->0).0 == acc@ + (parse_str(t@.skip(k as int))->0).0 && (
            whole@->0).1 == (parse_str(t@.skip(k as int))->0).1,
        decreases t@.len() - k,
    {
        let ghost a = t@.skip(k as int);
        if k == t.len() {
            proof {
                assert(a.len() == 0);
            }
            return None;
        }
        let c = t[k];
        proof {
            assert(a[0] == t@[k as int]);
            assert(a.drop_first() =~= t@.skip(k as int + 1));
        }
        if c == '"' {
            proof {
                assert(parse_str(a) == Some((Seq::<char>::empty(), a.drop_first())));
                assert(acc@ + Seq::<char>::empty() =~= acc@);
            }
            return Some((acc, k + 1));
        }
        if c == '\\' {
            if k + 1 == t.len() {
                proof {
                    assert(a.len() < 2);
                    assert(parse_str(a) is None);
                }
                return None;
            }
            let e = t[k + 1];
            proof {
                assert(a[1] == t@[k as int + 1]);
            }
            let u: char = if e == '"' {
                '"'
            } else if e == '\\' {
                '\\'
            } else if e == 'n' {
                '\n'
            } else if e == 't' {
                '\t'
            } else if e == 'r' {
                '\r'
            } else if e == 'b' {
                '\u{8}'
            } else if e == 'f' {
                '\u{c}'
            } else {
                proof {
                    assert(unesc_char(a[1]) is None);
                    assert(parse_str(a) is None);
                }
                return None;
            };
            let ghost accp = acc@;
            acc.push(u);
            proof {
                assert(unesc_char(a[1]) == Some(u));
                assert(a.skip(2) =~= t@.skip(k as int + 2));
                if parse_str(t@.skip(k as int + 2)) is Some {
                    let p2 = parse_str(t@.skip(k as int + 2))->0;
                    assert(parse_str(a) == Some((seq![u] + p2.0, p2.1)));
                    assert(accp + (seq![u] + p2.0) =~= (accp + seq![u]) + p2.0);
                    assert(acc@ =~= accp + seq![u]);
                } else {
                    assert(parse_str(a) is None);
                }
            }
            k = k + 2;
        } else {
            let ghost accp = acc@;
            acc.push(c);
            proof {
                if parse_str(t@.skip(k as int + 1)) is Some {
                    let p2 = parse_str(t@.skip(k as int + 1))->0;
                    assert(parse_str(a) == Some((seq![c] + p2.0, p2.1)));
                    assert(accp + (seq![c] + p2.0) =~= (accp + seq![c]) + p2.0);
                    assert(acc@ =~= accp + seq![c]);
                } else {
                    assert(parse_str(a) is None);
                }
            }
            k = k + 1;
        }
    }
}

/// A signed decimal number at position `i`, rejected when it does not
/// fit in an `i64`; on success, also the position after its digits.
fn parse_i64_at(t: &Vec<char>, i: usize) -> (r: Option<(i64, usize)>)
    requires
        i <= t.len(),
    ensures
        r matches Some(p) ==> parse_int(t@.skip(i as int)) == Some((p.0 as int, t@.skip(
            p.1 as int,
        ))) && i < p.1 <= t@.len(),
        r is None ==> parse_int(t@.skip(i as int)) is None || !(i64::MIN <= (parse_int(
            t@.skip(i as int),
        )->0).0 <= i64::MAX),
{
    let ghost a0 = t@.skip(i as int);
    if i == t.len() {
        proof {
            assert(a0.len() == 0);
        }
        return None;
    }
    proof {
        assert(a0[0] == t@[i as int]);
    }
    let neg = t[i] == '-';
    let start: usize = if neg {
        if i + 1 == t.len() {
            proof {
                assert(a0.len() < 2);
                assert(!is_digit_char('-'));
            }
            return None;
        }
        proof {
            assert(a0[1] == t@[i as int + 1]);
        }
        if !crate::num::digit_check(t[i + 1]) {
            proof {
                assert(!is_digit_char('-'));
            }
            return None;
        }
        i + 1
    } else {
        if !crate::num::digit_check(t[i]) {
            return None;
        }
        i
    };
    proof {
        assert(a0.drop_first() =~= t@.skip(i as int + 1));
    }
    let mut acc: u64 = 0;
    let mut ov = false;
    let mut k: usize = start;
    let ghost mut am: int = 0int;
    proof {
        assert(t@.skip(start as int).skip(0) =~= t@.skip(start as int));
    }
    while k < t.len() && crate::num::digit_check(t[k])
        invariant
            start <= k <= t@.len(),
            k < t@.len() ==> t@.skip(k as int)[0] == t@[k as int],
            am >= 0,
            parse_digits(t@.skip(start as int), 0) == parse_digits(t@.skip(k as int), am),
            !ov ==> acc as int == am,
            ov ==> am > u64::MAX,
        decreases t@.len() - k,
    {
        let c = t[k];
        let d: u64 = (c as u32) as u64 - 48;
        let ghost amp = am * 10 + digit_val(c);
        proof {
            assert(t@.skip(k as int)[0] == t@[k as int]);
            assert(t@.skip(k as int).drop_first() =~= t@.skip(k as int + 1));
            assert(parse_digits(t@.skip(k as int), am) == parse_digits(
                t@.skip(k as int + 1),
                amp,
            ));
        }
        match acc.checked_mul(10) {
            Some(x) => match x.checked_add(d) {
                Some(y) => {
                    acc = y;
                },
                None => {
                    acc = 0;
                    ov = true;
                },
            },
            None => {
                acc = 0;
                ov = true;
            },
        };
        proof {
            if am > u64::MAX {
                assert(amp > u64::MAX);
            }
            am = amp;
        }
        k = k + 1;
        proof {
            if k < t@.len() {
                assert(t@.skip(k as int)[0] == t@[k as int]);
            }
        }
    }
    proof {
        let e = t@.skip(k as int);
        assert(e.len() == 0 || !is_digit_char(e[0]));
        assert(parse_digits(e, am) == (am, e));
        assert(parse_digits(t@.skip(start as int), 0) == (am, e));
        if neg {
            assert(parse_int(a0) == Some((-am, t@.skip(k as int))));
        } else {
            assert(parse_int(a0) == Some((am, t@.skip(k as int))));
        }
    }
    if ov {
        proof {
            assert(am > u64::MAX);
        }
        return None;
    }
    if neg {
        if acc > 9223372036854775808u64 {
            return None;
        }
        let v: i64 = if acc == 9223372036854775808u64 {
            i64::MIN
        } else {
            -(acc as i64)
        };
        Some((v, k))
    } else {
        if acc > 9223372036854775807u64 {
            return None;
        }
        Some((acc as i64, k))
    }
}

/// One record at position `i`; on success, also the position after it.
fn parse_item_at(t: &Vec<char>, i: usize) -> (r: Option<(Counter, usize)>)
    requires
        i <= t.len(),
    ensures
        r matches Some(p) ==> parse_item(t@.skip(i as int)) == Some((p.0@, t@.skip(p.1 as int)))
            && i < p.1 <= t@.len(),
        r is None ==> parse_item(t@.skip(i as int)) is None,
{
    let ghost a0 = t@.skip(i as int);
    let open_pat = lit_item_open();
    let j1 = match match_at(t, i, &open_pat) {
        Some(j) => j,
        None => {
            return None;
        },
    };
    let (name, j2) = match parse_str_at(t, j1) {
        Some(p) => p,
        None => {
            return None;
        },
    };
    let mid_pat = lit_item_mid();
    let j3 = match match_at(t, j2, &mid_pat) {
        Some(j) => j,
        None => {
            return None;
        },
    };
    let (cnt, j4) = match parse_i64_at(t, j3) {
        Some(p) => p,
        None => {
            return None;
        },
    };
    let close_pat = lit_item_close();
    let j5 = match match_at(t, j4, &close_pat) {
        Some(j) => j,
        None => {
            return None;
        },
    };
    let c = Counter { name, count: cnt };
    proof {
        assert(parse_item(a0) == Some((c@, t@.skip(j5 as int))));
    }
    Some((c, j5))
}

/// The counters held by a snapshot text, when it is the canonical form
/// that [`encode_snapshot`] writes; `None` on any other text.
pub fn decode_snapshot(t: &Vec<char>) -> (r: Option<Vec<Counter>>)
    ensures
        r is Some <==> parse_snapshot(t@) is Some,
        r matches Some(cs) ==> views_of(cs@) == parse_snapshot(t@)->0,
{
    if t.len() == 2 {
        let br = t[0] == '[' && t[1] == ']';
        if br {
            let out: Vec<Counter> = Vec::new();
            proof {
                assert(t@ =~= seq!['[', ']']);
                assert(views_of(out@) =~= Seq::<CounterV>::empty());
            }
            return Some(out);
        }
    }
    proof {
        if t@.len() == 2 {
            assert(t@[0] == seq!['[', ']'][0] && t@[1] == seq!['[', ']'][1] ==> t@ =~= seq![
                '[',
                ']',
            ]);
        }
        assert(t@ != seq!['[', ']']);
    }
    let open_pat = lit2('[', '\n');
    let i0 = match match_at(t, 0, &open_pat) {
        Some(j) => j,
        None => {
            proof {
                assert(t@.skip(0) =~= t@);
            }
            return None;
        },
    };
    proof {
        assert(t@.skip(0) =~= t@);
    }
    let ghost t1 = t@.skip(i0 as int);
    let ghost fuel0 = t1.len();
    let ghost whole = parse_items(t1, fuel0);
    let mut acc: Vec<Counter> = Vec::new();
    let mut i: usize = i0;
    let ghost mut fuelc: nat = fuel0;
    proof {
        if whole is Some {
            assert(views_of(acc@) + (whole->0).0 =~= (whole->0).0);
        }
    }
    let sep_pat = lit2(',', '\n');
    let close_pat = lit2('\n', ']');
    proof {
        assert(strip(t@, seq!['[', '\n']) == Some(t1));
    }
    loop
        invariant
            i0 <= i <= t@.len(),
            t1 == t@.skip(i0 as int),
            fuel0 == t1.len(),
            whole == parse_items(t1, fuel0),
            t@ != seq!['[', ']'],
            strip(t@, seq!['[', '\n']) == Some(t1),
            sep_pat@ == seq![',', '\n'],
            close_pat@ == seq!['\n', ']'],
            fuelc >= t@.len() - i,
            whole is Some <==> parse_items(t@.skip(i as int), fuelc) is Some,
            whole is Some ==> (whole->0).0 == views_of(acc@) + (parse_items(
                t@.skip(i as int),
                fuelc,
            )->0).0 && (whole->0).1 == (parse_items(t@.skip(i as int), fuelc)->0).1,
        decreases t@.len() - i,
    {
        let ghost a = t@.skip(i as int);
        let ghost accv = views_of(acc@);
        match parse_item_at(t, i) {
            None => {
                proof {
                    assert(parse_items(a, fuelc) is None);
                }
                return None;
            },
            Some((c, j)) => {
                proof {
                    assert(strip(a, item_open()) is Some);
                    assert(item_open().len() <= a.len());
                    assert(fuelc > 0);
                }
                let ghost cv = c@;
                acc.push(c);
                proof {
                    assert(views_of(acc@) =~= accv.push(cv));
                }
                match match_at(t, j, &sep_pat) {
                    Some(j2) => {
                        proof {
                            assert(parse_items(a, fuelc) matches Some(p) ==> p == (
                                seq![cv] + (parse_items(t@.skip(j2 as int), (fuelc - 1) as nat)
                                    ->0).0,
                                (parse_items(t@.skip(j2 as int), (fuelc - 1) as nat)->0).1,
                            ));
                            assert(parse_items(a, fuelc) is Some <==> parse_items(
                                t@.skip(j2 as int),
                                (fuelc - 1) as nat,
                            ) is Some);
                            if whole is Some {
                                let ps2 = (parse_items(t@.skip(j2 as int), (fuelc - 1) as nat)
                                    ->0).0;
                                assert(accv + (seq![cv] + ps2) =~= accv.push(cv) + ps2);
                            }
                            fuelc = (fuelc - 1) as nat;
                        }
                        i = j2;
                    },
                    None => {
                        proof {
                            assert(parse_items(a, fuelc) == Some((seq![cv], t@.skip(j as int))));
                            assert(accv + seq![cv] =~= accv.push(cv));
                            assert(whole is Some);
                            assert((whole->0).0 == views_of(acc@));
                            assert((whole->0).1 == t@.skip(j as int));
                        }
                        match match_at(t, j, &close_pat) {
                            Some(j3) => {
                                if j3 == t.len() {
                                    proof {
                                        assert(t@.skip(j as int).skip(2) =~= t@.skip(j3 as int));
                                        assert(t@.skip(j3 as int).len() == 0);
                                        assert(t@.skip(j as int).len() == 2);
                                        assert(t@.skip(j as int).subrange(0, 2) =~= t@.skip(
                                            j as int,
                                        ));
                                        assert(t@.skip(j as int) == seq!['\n', ']']);
                                        assert(parse_snapshot(t@) == Some((whole->0).0));
                                    }
                                    return Some(acc);
                                } else {
                                    proof {
                                        assert(t@.skip(j as int).len() > 2);
                                        assert(t@.skip(j as int) != seq!['\n', ']']);
                                        assert(parse_snapshot(t@) is None);
                                    }
                                    return None;
                                }
                            },
                            None => {
                                proof {
                                    if t@.skip(j as int) == seq!['\n', ']'] {
                                        assert(t@.skip(j as int).subrange(0, 2) =~= seq![
                                            '\n',
                                            ']',
                                        ]);
                                        assert(strip(t@.skip(j as int), seq!['\n', ']'])
                                            is Some);
                                    }
                                    assert(t@.skip(j as int) != seq!['\n', ']']);
                                    assert(parse_snapshot(t@) is None);
                                }
                                return None;
                            },
                        }
                    },
                }
            },
        }
    }
}

} // verus!
