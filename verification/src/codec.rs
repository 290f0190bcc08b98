//! The codec that carries an argument vector through one parameter string.
//!
//! Every argument is written unit by unit: letters, digits, `-`, `_` and `.`
//! stand for themselves, and any other unit is written as `%` and four upper
//! case hexadecimal digits. Each argument is followed by a comma. The result
//! holds no blank and no quote, so a command-line splitter leaves it whole.
use vstd::prelude::*;

verus! {

/// The unit that follows every encoded argument: a comma.
pub const SEPARATOR: u16 = 0x2C;

/// The unit that opens an escape: a percent sign.
pub const ESCAPE: u16 = 0x25;

/// Whether `c` stands for itself in the encoded form.
pub open spec fn is_plain(c: u16) -> bool {
    ||| 0x30 <= c <= 0x39
    ||| 0x41 <= c <= 0x5A
    ||| 0x61 <= c <= 0x7A
    ||| c == 0x2D
    ||| c == 0x5F
    ||| c == 0x2E
}

/// Whether `c` may occur in an encoded argument vector.
pub open spec fn is_wire_unit(c: u16) -> bool {
    is_plain(c) || c == SEPARATOR || c == ESCAPE
}

/// The hexadecimal digit for `n`, which is below sixteen.
pub open spec fn hex_digit(n: int) -> u16 {
    if n < 10 {
        (0x30 + n) as u16
    } else {
        (0x41 + n - 10) as u16
    }
}

/// The value of the hexadecimal digit `c`, or `None` where it is not one.
pub open spec fn hex_value(c: u16) -> Option<int> {
    if 0x30 <= c <= 0x39 {
        Some(c - 0x30)
    } else if 0x41 <= c <= 0x46 {
        Some(c - 0x41 + 10)
    } else {
        None
    }
}

/// The encoded form of one unit.
pub open spec fn encode_unit(c: u16) -> Seq<u16> {
    if is_plain(c) {
        seq![c]
    } else {
        seq![
            ESCAPE,
            hex_digit(c as int / 4096),
            hex_digit(c as int / 256 % 16),
            hex_digit(c as int / 16 % 16),
            hex_digit(c as int % 16),
        ]
    }
}

/// The encoded form of one argument, without the comma that follows it.
pub open spec fn encode_arg(a: Seq<u16>) -> Seq<u16>
    decreases a.len(),
{
    if a.len() == 0 {
        Seq::empty()
    } else {
        encode_unit(a[0]) + encode_arg(a.skip(1))
    }
}

/// The encoded form of an argument vector.
pub open spec fn encode_spec(v: Seq<Seq<u16>>) -> Seq<u16>
    decreases v.len(),
{
    if v.len() == 0 {
        Seq::empty()
    } else {
        encode_arg(v[0]).push(SEPARATOR) + encode_spec(v.skip(1))
    }
}

/// The unit that the escape at the front of `s` stands for: `s` starts with
/// a percent sign and four hexadecimal digits, and the unit they write is
/// not a plain one.
pub open spec fn escaped_unit(s: Seq<u16>) -> Option<u16> {
    if s.len() >= 5 && s[0] == ESCAPE && hex_value(s[1]) is Some && hex_value(s[2]) is Some
        && hex_value(s[3]) is Some && hex_value(s[4]) is Some {
        let n = ((hex_value(s[1]).unwrap() * 16 + hex_value(s[2]).unwrap()) * 16 + hex_value(
            s[3],
        ).unwrap()) * 16 + hex_value(s[4]).unwrap();
        if is_plain(n as u16) {
            None
        } else {
            Some(n as u16)
        }
    } else {
        None
    }
}

/// Decodes `s`, given the arguments that are complete (`done`) and the units
/// of the argument that is being read (`cur`). A comma completes an
/// argument, a percent sign must open an escape, and any other unit must be
/// plain. At the end no argument may be left open.
pub open spec fn decode_from(s: Seq<u16>, done: Seq<Seq<u16>>, cur: Seq<u16>) -> Option<
    Seq<Seq<u16>>,
>
    decreases s.len(),
{
    if s.len() == 0 {
        if cur.len() == 0 {
            Some(done)
        } else {
            None
        }
    } else if s[0] == SEPARATOR {
        decode_from(s.skip(1), done.push(cur), Seq::empty())
    } else if s[0] == ESCAPE {
        match escaped_unit(s) {
            Some(c) => decode_from(s.skip(5), done, cur.push(c)),
            None => None,
        }
    } else if is_plain(s[0]) {
        decode_from(s.skip(1), done, cur.push(s[0]))
    } else {
        None
    }
}

/// The argument vector that `s` encodes, or `None` where `s` is no encoded
/// form.
pub open spec fn decode_spec(s: Seq<u16>) -> Option<Seq<Seq<u16>>> {
    decode_from(s, Seq::empty(), Seq::empty())
}

/// The arguments of a vector, each as its sequence of units.
pub open spec fn args_view(v: Seq<Vec<u16>>) -> Seq<Seq<u16>> {
    Seq::new(v.len(), |i: int| v[i]@)
}

/// Decoding the encoded form of a unit, with anything behind it, adds the
/// unit to the open argument.
pub proof fn lemma_decode_unit(c: u16, rest: Seq<u16>, done: Seq<Seq<u16>>, cur: Seq<u16>)
    ensures
        decode_from(encode_unit(c) + rest, done, cur) == decode_from(rest, done, cur.push(c)),
{
    let s = encode_unit(c) + rest;
    if is_plain(c) {
        assert(s[0] == c);
        assert(s.skip(1) =~= rest);
    } else {
        let n = c as int;
        assert(s[0] == ESCAPE);
        assert(s[1] == hex_digit(n / 4096));
        assert(s[2] == hex_digit(n / 256 % 16));
        assert(s[3] == hex_digit(n / 16 % 16));
        assert(s[4] == hex_digit(n % 16));
        assert(hex_value(s[1]) == Some(n / 4096));
        assert(hex_value(s[2]) == Some(n / 256 % 16));
        assert(hex_value(s[3]) == Some(n / 16 % 16));
        assert(hex_value(s[4]) == Some(n % 16));
        assert(((n / 4096 * 16 + n / 256 % 16) * 16 + n / 16 % 16) * 16 + n % 16 == n);
        assert(escaped_unit(s) == Some(c));
        assert(s.skip(5) =~= rest);
    }
}

/// Decoding the encoded form of an argument, with anything behind it, adds
/// the argument's units to the open argument.
pub proof fn lemma_decode_arg(a: Seq<u16>, rest: Seq<u16>, done: Seq<Seq<u16>>, cur: Seq<u16>)
    ensures
        decode_from(encode_arg(a) + rest, done, cur) == decode_from(rest, done, cur + a),
    decreases a.len(),
{
    if a.len() == 0 {
        assert(encode_arg(a) + rest =~= rest);
        assert(cur + a =~= cur);
    } else {
        let tail = encode_arg(a.skip(1)) + rest;
        assert(encode_arg(a) + rest =~= encode_unit(a[0]) + tail);
        lemma_decode_unit(a[0], tail, done, cur);
        lemma_decode_arg(a.skip(1), rest, done, cur.push(a[0]));
        assert(cur.push(a[0]) + a.skip(1) =~= cur + a);
    }
}

/// Decoding the encoded form of a vector adds its arguments to those that
/// are complete.
pub proof fn lemma_decode_args(v: Seq<Seq<u16>>, done: Seq<Seq<u16>>)
    ensures
        decode_from(encode_spec(v), done, Seq::empty()) == Some(done + v),
    decreases v.len(),
{
    if v.len() == 0 {
        assert(done + v =~= done);
    } else {
        let tail = encode_spec(v.skip(1));
        let after = seq![SEPARATOR] + tail;
        assert(encode_spec(v) =~= encode_arg(v[0]) + after);
        lemma_decode_arg(v[0], after, done, Seq::empty());
        assert(Seq::<u16>::empty() + v[0] =~= v[0]);
        assert(after[0] == SEPARATOR);
        assert(after.skip(1) =~= tail);
        lemma_decode_args(v.skip(1), done.push(v[0]));
        assert(done.push(v[0]) + v.skip(1) =~= done + v);
    }
}

/// The codec is symmetric: decoding the encoded form of any argument vector
/// gives that vector back, with the same number of arguments and the same
/// units in each.
pub proof fn lemma_decode_encode(v: Seq<Seq<u16>>)
    ensures
        decode_spec(encode_spec(v)) == Some(v),
{
    lemma_decode_args(v, Seq::empty());
    assert(Seq::<Seq<u16>>::empty() + v =~= v);
}

/// The encoded form of an argument grows unit by unit at its end.
pub proof fn lemma_encode_arg_push(a: Seq<u16>, c: u16)
    ensures
        encode_arg(a.push(c)) == encode_arg(a) + encode_unit(c),
    decreases a.len(),
{
    if a.len() == 0 {
        assert(a.push(c).skip(1) =~= Seq::<u16>::empty());
        assert(encode_arg(a.push(c).skip(1)) =~= Seq::<u16>::empty());
        assert(encode_arg(a.push(c)) =~= encode_arg(a) + encode_unit(c));
    } else {
        assert(a.push(c).skip(1) =~= a.skip(1).push(c));
        lemma_encode_arg_push(a.skip(1), c);
        assert(encode_arg(a.push(c)) =~= encode_arg(a) + encode_unit(c));
    }
}

/// The encoded form of a vector grows argument by argument at its end.
pub proof fn lemma_encode_push(v: Seq<Seq<u16>>, a: Seq<u16>)
    ensures
        encode_spec(v.push(a)) == encode_spec(v) + encode_arg(a).push(SEPARATOR),
    decreases v.len(),
{
    if v.len() == 0 {
        assert(v.push(a).skip(1) =~= Seq::<Seq<u16>>::empty());
        assert(encode_spec(v.push(a).skip(1)) =~= Seq::<u16>::empty());
        assert(encode_spec(v.push(a)) =~= encode_spec(v) + encode_arg(a).push(SEPARATOR));
    } else {
        assert(v.push(a).skip(1) =~= v.skip(1).push(a));
        lemma_encode_push(v.skip(1), a);
        assert(encode_spec(v.push(a)) =~= encode_spec(v) + encode_arg(a).push(SEPARATOR));
    }
}

/// An escape that is read is the encoded form of the unit it gives.
pub proof fn lemma_escape_is_canonical(s: Seq<u16>)
    requires
        escaped_unit(s) is Some,
    ensures
        s.take(5) == encode_unit(escaped_unit(s).unwrap()),
{
    let h1 = hex_value(s[1]).unwrap();
    let h2 = hex_value(s[2]).unwrap();
    let h3 = hex_value(s[3]).unwrap();
    let h4 = hex_value(s[4]).unwrap();
    let n = ((h1 * 16 + h2) * 16 + h3) * 16 + h4;
    assert(0 <= n < 65536);
    assert(n / 4096 == h1 && n / 256 % 16 == h2 && n / 16 % 16 == h3 && n % 16 == h4);
    assert(hex_digit(h1) == s[1] && hex_digit(h2) == s[2] && hex_digit(h3) == s[3] && hex_digit(h4)
        == s[4]);
    assert(s.take(5) =~= encode_unit(n as u16));
}

/// What is left to decode, put behind the encoded form of what was read,
/// is the encoded form of the result.
pub proof fn lemma_decode_from_canonical(
    s: Seq<u16>,
    done: Seq<Seq<u16>>,
    cur: Seq<u16>,
    v: Seq<Seq<u16>>,
)
    requires
        decode_from(s, done, cur) == Some(v),
    ensures
        encode_spec(done) + encode_arg(cur) + s == encode_spec(v),
    decreases s.len(),
{
    if s.len() == 0 {
        assert(encode_arg(cur) =~= Seq::<u16>::empty());
        assert(encode_spec(done) + encode_arg(cur) + s =~= encode_spec(done));
    } else if s[0] == SEPARATOR {
        lemma_decode_from_canonical(s.skip(1), done.push(cur), Seq::empty(), v);
        lemma_encode_push(done, cur);
        assert(encode_arg(Seq::<u16>::empty()) =~= Seq::<u16>::empty());
        assert(encode_spec(done) + encode_arg(cur) + s =~= encode_spec(done.push(cur))
            + Seq::<u16>::empty() + s.skip(1));
    } else if s[0] == ESCAPE {
        let c = escaped_unit(s).unwrap();
        lemma_decode_from_canonical(s.skip(5), done, cur.push(c), v);
        lemma_encode_arg_push(cur, c);
        lemma_escape_is_canonical(s);
        assert(s =~= s.take(5) + s.skip(5));
        assert(encode_spec(done) + encode_arg(cur) + s =~= encode_spec(done) + encode_arg(
            cur.push(c),
        ) + s.skip(5));
    } else {
        let c = s[0];
        lemma_decode_from_canonical(s.skip(1), done, cur.push(c), v);
        lemma_encode_arg_push(cur, c);
        assert(s =~= seq![c] + s.skip(1));
        assert(encode_spec(done) + encode_arg(cur) + s =~= encode_spec(done) + encode_arg(
            cur.push(c),
        ) + s.skip(1));
    }
}

/// Only encoded forms decode: a string that decodes to a vector is the
/// encoded form of that vector. With the symmetry of the codec, a string
/// decodes to `v` exactly when it is the encoded form of `v`.
pub proof fn lemma_decode_is_inverse(s: Seq<u16>, v: Seq<Seq<u16>>)
    ensures
        decode_spec(s) == Some(v) <==> s == encode_spec(v),
{
    if decode_spec(s) == Some(v) {
        lemma_decode_from_canonical(s, Seq::empty(), Seq::empty(), v);
        assert(encode_spec(Seq::<Seq<u16>>::empty()) + encode_arg(Seq::<u16>::empty()) + s =~= s);
    }
    if s == encode_spec(v) {
        lemma_decode_encode(v);
    }
}

/// The encoded form of an argument holds plain units and escapes only.
pub proof fn lemma_encode_arg_wire(a: Seq<u16>)
    ensures
        forall|i: int| 0 <= i < encode_arg(a).len() ==> is_wire_unit(#[trigger] encode_arg(a)[i]),
    decreases a.len(),
{
    if a.len() > 0 {
        lemma_encode_arg_wire(a.skip(1));
        let head = encode_unit(a[0]);
        let tail = encode_arg(a.skip(1));
        assert forall|i: int| 0 <= i < encode_arg(a).len() implies is_wire_unit(
            #[trigger] encode_arg(a)[i],
        ) by {
            if i < head.len() {
                assert(encode_arg(a)[i] == head[i]);
            } else {
                assert(encode_arg(a)[i] == tail[i - head.len()]);
            }
        }
    }
}

/// The encoded form of any argument vector is made of letters, digits,
/// `-`, `_`, `.`, `%` and `,` alone: it holds no blank and no quote, so a
/// command-line splitter neither cuts nor changes it.
pub proof fn lemma_encode_wire(v: Seq<Seq<u16>>)
    ensures
        forall|i: int| 0 <= i < encode_spec(v).len() ==> is_wire_unit(#[trigger] encode_spec(v)[i]),
    decreases v.len(),
{
    if v.len() > 0 {
        lemma_encode_wire(v.skip(1));
        lemma_encode_arg_wire(v[0]);
        let head = encode_arg(v[0]).push(SEPARATOR);
        let tail = encode_spec(v.skip(1));
        assert forall|i: int| 0 <= i < encode_spec(v).len() implies is_wire_unit(
            #[trigger] encode_spec(v)[i],
        ) by {
            if i < head.len() - 1 {
                assert(encode_spec(v)[i] == encode_arg(v[0])[i]);
            } else if i == head.len() - 1 {
                assert(encode_spec(v)[i] == SEPARATOR);
            } else {
                assert(encode_spec(v)[i] == tail[i - head.len()]);
            }
        }
    }
}

/// Whether `c` stands for itself in the encoded form.
pub fn unit_is_plain(c: u16) -> (r: bool)
    ensures
        r == is_plain(c),
{
    (0x30 <= c && c <= 0x39) || (0x41 <= c && c <= 0x5A) || (0x61 <= c && c <= 0x7A) || c == 0x2D
        || c == 0x5F || c == 0x2E
}

/// The hexadecimal digit for `n`.
pub fn hex_unit(n: u16) -> (c: u16)
    requires
        n < 16,
    ensures
        c == hex_digit(n as int),
{
    if n < 10 {
        0x30 + n
    } else {
        0x41 + (n - 10)
    }
}

/// The value of a hexadecimal digit, or `None` where `c` is not one.
pub fn hex_unit_value(c: u16) -> (v: Option<u16>)
    ensures
        match v {
            Some(n) => hex_value(c) == Some(n as int) && n < 16,
            None => hex_value(c) is None,
        },
{
    if 0x30 <= c && c <= 0x39 {
        Some(c - 0x30)
    } else if 0x41 <= c && c <= 0x46 {
        Some(c - 0x41 + 10)
    } else {
        None
    }
}

/// Appends the encoded form of `arg` to `out`.
pub fn encode_arg_into(arg: &[u16], out: &mut Vec<u16>)
    ensures
        final(out)@ == old(out)@ + encode_arg(arg@),
{
    let mut i: usize = 0;
    assert(arg@.skip(0) =~= arg@);
    assert(out@ + Seq::<u16>::empty() =~= out@);
    let ghost start = out@;
    let ghost mut written: Seq<u16> = Seq::empty();
    while i < arg.len()
        invariant
            i <= arg@.len(),
            out@ == start + written,
            written + encode_arg(arg@.skip(i as int)) == encode_arg(arg@),
        decreases arg@.len() - i,
    {
        let c: u16 = arg[i];
        proof {
            let rest = arg@.skip(i as int);
            assert(rest[0] == c);
            assert(rest.skip(1) =~= arg@.skip(i + 1));
            assert(written + (encode_unit(c) + encode_arg(rest.skip(1))) =~= (written
                + encode_unit(c)) + encode_arg(rest.skip(1)));
            assert(start + (written + encode_unit(c)) =~= (start + written) + encode_unit(c));
        }
        let ghost before = out@;
        if unit_is_plain(c) {
            out.push(c);
            assert(out@ =~= before + encode_unit(c));
        } else {
            out.push(ESCAPE);
            out.push(hex_unit(c / 4096));
            out.push(hex_unit(c / 256 % 16));
            out.push(hex_unit(c / 16 % 16));
            out.push(hex_unit(c % 16));
            assert(out@ =~= before + encode_unit(c));
        }
        proof {
            written = written + encode_unit(c);
        }
        i += 1;
    }
    assert(encode_arg(arg@.skip(i as int)) =~= Seq::<u16>::empty());
    assert(written + Seq::<u16>::empty() =~= written);
}

/// Appends the encoded form of the vector `args` to `out`.
pub fn encode_into(args: &[Vec<u16>], out: &mut Vec<u16>)
    ensures
        final(out)@ == old(out)@ + encode_spec(args_view(args@)),
{
    let ghost v = args_view(args@);
    let ghost start = out@;
    let ghost mut written: Seq<u16> = Seq::empty();
    let mut i: usize = 0;
    assert(v.skip(0) =~= v);
    assert(out@ + Seq::<u16>::empty() =~= out@);
    while i < args.len()
        invariant
            i <= args@.len(),
            v == args_view(args@),
            out@ == start + written,
            written + encode_spec(v.skip(i as int)) == encode_spec(v),
        decreases args@.len() - i,
    {
        let ghost before = out@;
        encode_arg_into(args[i].as_slice(), out);
        out.push(SEPARATOR);
        proof {
            let rest = v.skip(i as int);
            let piece = encode_arg(rest[0]).push(SEPARATOR);
            assert(rest[0] == args@[i as int]@);
            assert(rest.skip(1) =~= v.skip(i + 1));
            assert(out@ =~= before + piece);
            assert(written + (piece + encode_spec(rest.skip(1))) =~= (written + piece)
                + encode_spec(rest.skip(1)));
            assert(start + (written + piece) =~= (start + written) + piece);
            written = written + piece;
        }
        i += 1;
    }
    assert(encode_spec(v.skip(i as int)) =~= Seq::<u16>::empty());
    assert(written + Seq::<u16>::empty() =~= written);
}

/// Encodes an argument vector into one string of units.
pub fn encode(args: &[Vec<u16>]) -> (out: Vec<u16>)
    ensures
        out@ == encode_spec(args_view(args@)),
{
    let mut out: Vec<u16> = Vec::new();
    encode_into(args, &mut out);
    assert(Seq::<u16>::empty() + encode_spec(args_view(args@)) =~= encode_spec(args_view(args@)));
    out
}

/// Reads the escape that starts at `i`: a percent sign and four hexadecimal
/// digits that write a unit which is not plain.
pub fn read_escape(s: &[u16], i: usize) -> (c: Option<u16>)
    requires
        i < s@.len(),
        s@[i as int] == ESCAPE,
    ensures
        c == escaped_unit(s@.skip(i as int)),
{
    let ghost t = s@.skip(i as int);
    if s.len() - i < 5 {
        return None;
    }
    assert(t[0] == s@[i as int] && t[1] == s@[i + 1] && t[2] == s@[i + 2] && t[3] == s@[i + 3]
        && t[4] == s@[i + 4]);
    let h1 = match hex_unit_value(s[i + 1]) {
        Some(h) => h,
        None => { return None; },
    };
    let h2 = match hex_unit_value(s[i + 2]) {
        Some(h) => h,
        None => { return None; },
    };
    let h3 = match hex_unit_value(s[i + 3]) {
        Some(h) => h,
        None => { return None; },
    };
    let h4 = match hex_unit_value(s[i + 4]) {
        Some(h) => h,
        None => { return None; },
    };
    let c: u16 = ((h1 * 16 + h2) * 16 + h3) * 16 + h4;
    if unit_is_plain(c) {
        None
    } else {
        Some(c)
    }
}

/// Runs the decoder over `encoded`, unit by unit.
fn decode_units(encoded: &[u16]) -> (r: Option<Vec<Vec<u16>>>)
    ensures
        match r {
            Some(v) => decode_spec(encoded@) == Some(args_view(v@)),
            None => decode_spec(encoded@) is None,
        },
{
    let mut done: Vec<Vec<u16>> = Vec::new();
    let mut cur: Vec<u16> = Vec::new();
    let mut i: usize = 0;
    assert(encoded@.skip(0) =~= encoded@);
    assert(args_view(done@) =~= Seq::<Seq<u16>>::empty());
    while i < encoded.len()
        invariant
            i <= encoded@.len(),
            decode_from(encoded@.skip(i as int), args_view(done@), cur@) == decode_spec(encoded@),
        decreases encoded@.len() - i,
    {
        let c: u16 = encoded[i];
        let ghost rest = encoded@.skip(i as int);
        assert(rest[0] == c);
        if c == SEPARATOR {
            let ghost before = args_view(done@);
            let ghost units = cur@;
            done.push(cur);
            cur = Vec::new();
            assert(args_view(done@) =~= before.push(units));
            assert(rest.skip(1) =~= encoded@.skip(i + 1));
            i += 1;
        } else if c == ESCAPE {
            match read_escape(encoded, i) {
                Some(u) => {
                    cur.push(u);
                    assert(rest.skip(5) =~= encoded@.skip(i + 5));
                    i += 5;
                },
                None => {
                    return None;
                },
            }
        } else if unit_is_plain(c) {
            cur.push(c);
            assert(rest.skip(1) =~= encoded@.skip(i + 1));
            i += 1;
        } else {
            return None;
        }
    }
    assert(encoded@.skip(i as int) =~= Seq::<u16>::empty());
    if cur.len() == 0 {
        Some(done)
    } else {
        None
    }
}

/// Decodes an encoded argument vector. `None` where `encoded` is no encoded
/// form: an argument without its comma, a unit that is neither plain nor
/// part of an escape, or an escape that is cut short, holds another digit
/// than `0`-`9` and `A`-`F`, or writes a plain unit.
pub fn decode(encoded: &[u16]) -> (r: Option<Vec<Vec<u16>>>)
    ensures
        match r {
            Some(v) => decode_spec(encoded@) == Some(args_view(v@)) && encoded@ == encode_spec(
                args_view(v@),
            ),
            None => decode_spec(encoded@) is None && forall|v: Seq<Seq<u16>>|
                encoded@ != #[trigger] encode_spec(v),
        },
{
    let r = decode_units(encoded);
    proof {
        assert forall|v: Seq<Seq<u16>>| encoded@ == #[trigger] encode_spec(v) implies decode_spec(
            encoded@,
        ) == Some(v) by {
            lemma_decode_is_inverse(encoded@, v);
        }
        if r is Some {
            lemma_decode_is_inverse(encoded@, args_view(r->Some_0@));
        }
    }
    r
}

} // verus!
