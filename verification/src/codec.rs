//! Serializing placed tiles to the output text format, and parsing it
//! back: each placed tile becomes one line `<code> <x> <y>`.

use vstd::prelude::*;
use crate::catalog::PathType;
use crate::model::PlacedPath;

verus! {

/// The display code of a tile type, as bytes.
pub open spec fn code_bytes(t: PathType) -> Seq<u8> {
    match t {
        PathType::Z3 => seq![51u8],
        PathType::Z5 => seq![53u8],
        PathType::Z6 => seq![54u8],
        PathType::Z7 => seq![55u8],
        PathType::Z9 => seq![57u8],
        PathType::Z96 => seq![57u8, 54u8],
        PathType::A => seq![65u8],
        PathType::A5 => seq![65u8, 53u8],
        PathType::B => seq![66u8],
        PathType::C => seq![67u8],
        PathType::C3 => seq![67u8, 51u8],
        PathType::D => seq![68u8],
        PathType::E => seq![69u8],
        PathType::F => seq![70u8],
    }
}

/// The tile type a display code names, if any.
pub open spec fn type_of_code(s: Seq<u8>) -> Option<PathType> {
    if s.len() == 1 && s[0] == 51 {
        Some(PathType::Z3)
    } else if s.len() == 1 && s[0] == 53 {
        Some(PathType::Z5)
    } else if s.len() == 1 && s[0] == 54 {
        Some(PathType::Z6)
    } else if s.len() == 1 && s[0] == 55 {
        Some(PathType::Z7)
    } else if s.len() == 1 && s[0] == 57 {
        Some(PathType::Z9)
    } else if s.len() == 2 && s[0] == 57 && s[1] == 54 {
        Some(PathType::Z96)
    } else if s.len() == 1 && s[0] == 65 {
        Some(PathType::A)
    } else if s.len() == 2 && s[0] == 65 && s[1] == 53 {
        Some(PathType::A5)
    } else if s.len() == 1 && s[0] == 66 {
        Some(PathType::B)
    } else if s.len() == 1 && s[0] == 67 {
        Some(PathType::C)
    } else if s.len() == 2 && s[0] == 67 && s[1] == 51 {
        Some(PathType::C3)
    } else if s.len() == 1 && s[0] == 68 {
        Some(PathType::D)
    } else if s.len() == 1 && s[0] == 69 {
        Some(PathType::E)
    } else if s.len() == 1 && s[0] == 70 {
        Some(PathType::F)
    } else {
        None
    }
}

/// A decimal digit byte.
pub open spec fn is_digit(b: u8) -> bool {
    48 <= b <= 57
}

/// Every byte is a decimal digit.
pub open spec fn all_digits(s: Seq<u8>) -> bool {
    forall|k: int| 0 <= k < s.len() ==> is_digit(#[trigger] s[k])
}

/// The decimal digits of `n`, most significant first, no leading zeros.
pub open spec fn dec_digits(n: int) -> Seq<u8>
    recommends
        n >= 0,
    decreases n,
{
    if n < 10 {
        seq![(48 + if n >= 0 { n } else { 0 }) as u8]
    } else {
        dec_digits(n / 10).push((48 + n % 10) as u8)
    }
}

/// The value of a digit string, most significant first.
pub open spec fn dec_value(s: Seq<u8>) -> int
    decreases s.len(),
{
    if s.len() == 0 {
        0
    } else {
        dec_value(s.drop_last()) * 10 + (s.last() - 48)
    }
}

/// The number a digit string denotes, when it is a well-formed `u16`.
pub open spec fn parse_dec(s: Seq<u8>) -> Option<u16> {
    if s.len() >= 1 && all_digits(s) && dec_value(s) <= u16::MAX {
        Some(dec_value(s) as u16)
    } else {
        None
    }
}

/// The first index at or after `i` holding byte `b`, or the length.
pub open spec fn find_byte(s: Seq<u8>, b: u8, i: int) -> int
    decreases s.len() - i,
{
    if !(0 <= i < s.len()) {
        s.len() as int
    } else if s[i] == b {
        i
    } else {
        find_byte(s, b, i + 1)
    }
}

/// One output line, without its newline: the tile code, the column and the
/// row, separated by single spaces.
pub open spec fn line_bytes(p: PlacedPath) -> Seq<u8> {
    code_bytes(p.id) + seq![32u8] + dec_digits(p.x as int) + seq![32u8] + dec_digits(p.y as int)
}

/// The whole output text from index `i` of the placement list on: each
/// placement's line followed by a newline.
pub open spec fn output_bytes(ps: Seq<PlacedPath>, i: int) -> Seq<u8>
    decreases ps.len() - i,
{
    if !(0 <= i < ps.len()) {
        Seq::empty()
    } else {
        line_bytes(ps[i]) + seq![10u8] + output_bytes(ps, i + 1)
    }
}

/// The placed tile one line denotes, if well formed.
pub open spec fn parse_line(s: Seq<u8>) -> Option<PlacedPath> {
    let i1 = find_byte(s, 32, 0);
    if !(0 <= i1 < s.len()) {
        None
    } else {
        let i2 = find_byte(s, 32, i1 + 1);
        if !(i1 < i2 < s.len()) {
            None
        } else {
            let t = type_of_code(s.subrange(0, i1));
            let x = parse_dec(s.subrange(i1 + 1, i2));
            let y = parse_dec(s.subrange(i2 + 1, s.len() as int));
            if t is Some && x is Some && y is Some {
                Some(PlacedPath { id: t.unwrap(), x: x.unwrap(), y: y.unwrap() })
            } else {
                None
            }
        }
    }
}

/// The placement list an output text denotes: a sequence of
/// newline-terminated lines, each a well-formed placement.
pub open spec fn parse_output_spec(s: Seq<u8>) -> Option<Seq<PlacedPath>>
    decreases s.len(),
{
    if s.len() == 0 {
        Some(Seq::empty())
    } else {
        let nl = find_byte(s, 10, 0);
        if !(0 <= nl < s.len()) {
            None
        } else {
            match parse_line(s.subrange(0, nl)) {
                None => None,
                Some(p) => match parse_output_spec(s.skip(nl + 1)) {
                    None => None,
                    Some(r) => Some(seq![p] + r),
                },
            }
        }
    }
}

// ---------------------------------------------------------------------------
// Round-trip laws.
// ---------------------------------------------------------------------------

/// A display code is nonempty, names its own tile type back, and holds
/// neither a space nor a newline.
pub proof fn lemma_code_round_trip(t: PathType)
    ensures
        code_bytes(t).len() >= 1,
        type_of_code(code_bytes(t)) == Some(t),
        forall|k: int|
            0 <= k < code_bytes(t).len() ==> #[trigger] code_bytes(t)[k] != 32 && code_bytes(
                t,
            )[k] != 10,
{
}

/// The decimal digits of `n` are nonempty, all digits, and denote `n`.
pub proof fn lemma_dec_digits(n: int)
    requires
        n >= 0,
    ensures
        dec_digits(n).len() >= 1,
        all_digits(dec_digits(n)),
        dec_value(dec_digits(n)) == n,
    decreases n,
{
    if n < 10 {
        let s = dec_digits(n);
        assert(s == seq![(48 + n) as u8]);
        assert(s.drop_last() =~= Seq::<u8>::empty());
        assert(dec_value(Seq::<u8>::empty()) == 0);
        assert(dec_value(s) == (s.last() - 48) as int);
    } else {
        vstd::arithmetic::div_mod::lemma_fundamental_div_mod(n, 10);
        lemma_dec_digits(n / 10);
        assert(dec_digits(n).drop_last() =~= dec_digits(n / 10));
        assert(dec_value(dec_digits(n)) == (n / 10) * 10 + n % 10);
    }
}

proof fn lemma_find_byte_at(s: Seq<u8>, b: u8, i: int, j: int)
    requires
        0 <= i <= j <= s.len(),
        forall|k: int| i <= k < j ==> s[k] != b,
        j == s.len() || s[j] == b,
    ensures
        find_byte(s, b, i) == j,
    decreases j - i,
{
    if i < j {
        lemma_find_byte_at(s, b, i + 1, j);
    }
}

/// Digit strings denote nonnegative values.
proof fn lemma_dec_value_nonneg(s: Seq<u8>)
    requires
        all_digits(s),
    ensures
        dec_value(s) >= 0,
    decreases s.len(),
{
    if s.len() > 0 {
        assert(all_digits(s.drop_last()));
        lemma_dec_value_nonneg(s.drop_last());
    }
}

/// A digit string denotes at least as much as any of its prefixes.
proof fn lemma_dec_value_mono(s: Seq<u8>, i: int)
    requires
        all_digits(s),
        0 <= i <= s.len(),
    ensures
        dec_value(s) >= dec_value(s.take(i)),
    decreases s.len() - i,
{
    if i < s.len() {
        assert(s.take(i + 1).drop_last() =~= s.take(i));
        assert(all_digits(s.take(i)));
        lemma_dec_value_nonneg(s.take(i));
        assert(dec_value(s.take(i + 1)) >= dec_value(s.take(i)));
        lemma_dec_value_mono(s, i + 1);
    } else {
        assert(s.take(i) =~= s);
    }
}

/// Parsing a serialized line gives the placement back.
pub proof fn lemma_line_round_trip(p: PlacedPath)
    ensures
        parse_line(line_bytes(p)) == Some(p),
{
    let code = code_bytes(p.id);
    let xd = dec_digits(p.x as int);
    let yd = dec_digits(p.y as int);
    let line = line_bytes(p);
    lemma_code_round_trip(p.id);
    lemma_dec_digits(p.x as int);
    lemma_dec_digits(p.y as int);
    let n1 = code.len() as int;
    let n2 = n1 + 1 + xd.len();
    assert(line.len() == n2 + 1 + yd.len());
    assert forall|k: int| 0 <= k < n1 implies line[k] != 32 by {
        assert(line[k] == code[k]);
    }
    assert(line[n1] == 32);
    lemma_find_byte_at(line, 32, 0, n1);
    assert forall|k: int| n1 + 1 <= k < n2 implies line[k] != 32 by {
        assert(line[k] == xd[k - n1 - 1]);
        assert(is_digit(xd[k - n1 - 1]));
    }
    assert(line[n2] == 32);
    lemma_find_byte_at(line, 32, n1 + 1, n2);
    assert(line.subrange(0, n1) =~= code);
    assert(line.subrange(n1 + 1, n2) =~= xd);
    assert(line.subrange(n2 + 1, line.len() as int) =~= yd);
    assert(parse_dec(xd) == Some(p.x));
    assert(parse_dec(yd) == Some(p.y));
}

proof fn lemma_output_round_from(ps: Seq<PlacedPath>, i: int)
    requires
        0 <= i <= ps.len(),
    ensures
        parse_output_spec(output_bytes(ps, i)) == Some(ps.skip(i)),
    decreases ps.len() - i,
{
    if i == ps.len() {
        assert(ps.skip(i) =~= Seq::<PlacedPath>::empty());
    } else {
        let p = ps[i];
        let line = line_bytes(p);
        let rest = output_bytes(ps, i + 1);
        let out = output_bytes(ps, i);
        lemma_code_round_trip(p.id);
        lemma_dec_digits(p.x as int);
        lemma_dec_digits(p.y as int);
        let nl = line.len() as int;
        assert(out =~= line + seq![10u8] + rest);
        assert forall|k: int| 0 <= k < nl implies out[k] != 10 by {
            assert(out[k] == line[k]);
            if k < code_bytes(p.id).len() {
                assert(line[k] == code_bytes(p.id)[k]);
            }
        }
        assert(out[nl] == 10);
        lemma_find_byte_at(out, 10, 0, nl);
        assert(out.subrange(0, nl) =~= line);
        lemma_line_round_trip(p);
        assert(out.skip(nl + 1) =~= rest);
        lemma_output_round_from(ps, i + 1);
        assert(seq![p] + ps.skip(i + 1) =~= ps.skip(i));
    }
}

/// Serializing a placement list and parsing the text back reconstructs the
/// same list of `(type, column, row)` records, in the same order.
pub proof fn lemma_output_round_trip(ps: Seq<PlacedPath>)
    ensures
        parse_output_spec(output_bytes(ps, 0)) == Some(ps),
{
    lemma_output_round_from(ps, 0);
    assert(ps.skip(0) =~= ps);
}

// ---------------------------------------------------------------------------
// Executable serializer.
// ---------------------------------------------------------------------------

fn push_code(out: &mut Vec<u8>, t: PathType)
    ensures
        final(out)@ == old(out)@ + code_bytes(t),
{
    match t {
        PathType::Z3 => out.push(51),
        PathType::Z5 => out.push(53),
        PathType::Z6 => out.push(54),
        PathType::Z7 => out.push(55),
        PathType::Z9 => out.push(57),
        PathType::Z96 => {
            out.push(57);
            out.push(54);
        },
        PathType::A => out.push(65),
        PathType::A5 => {
            out.push(65);
            out.push(53);
        },
        PathType::B => out.push(66),
        PathType::C => out.push(67),
        PathType::C3 => {
            out.push(67);
            out.push(51);
        },
        PathType::D => out.push(68),
        PathType::E => out.push(69),
        PathType::F => out.push(70),
    }
    proof {
        assert(out@ =~= old(out)@ + code_bytes(t));
    }
}

fn push_dec(out: &mut Vec<u8>, x: u16)
    ensures
        final(out)@ == old(out)@ + dec_digits(x as int),
    decreases x,
{
    if x < 10 {
        out.push(48 + x as u8);
        proof {
            assert(out@ =~= old(out)@ + dec_digits(x as int));
        }
    } else {
        push_dec(out, x / 10);
        out.push(48 + (x % 10) as u8);
        proof {
            assert(out@ =~= old(out)@ + dec_digits(x as int));
        }
    }
}

/// Serialize a placement list to the output text: one line per placement,
/// `<code> <column> <row>`, each line ended by a newline.
pub fn serialize_placed(ps: &Vec<PlacedPath>) -> (r: Vec<u8>)
    ensures
        r@ == output_bytes(ps@, 0),
{
    let mut out: Vec<u8> = Vec::new();
    let mut i: usize = 0;
    proof {
        assert(out@ + output_bytes(ps@, 0) =~= output_bytes(ps@, 0));
    }
    while i < ps.len()
        invariant
            0 <= i <= ps@.len(),
            output_bytes(ps@, 0) == out@ + output_bytes(ps@, i as int),
        decreases ps@.len() - i,
    {
        let ghost pre = out@;
        let p = ps[i];
        push_code(&mut out, p.id);
        out.push(32);
        push_dec(&mut out, p.x);
        out.push(32);
        push_dec(&mut out, p.y);
        out.push(10);
        proof {
            assert(out@ =~= pre + line_bytes(ps@[i as int]) + seq![10u8]);
            assert(output_bytes(ps@, i as int) == line_bytes(ps@[i as int]) + seq![10u8]
                + output_bytes(ps@, i + 1));
            assert(pre + output_bytes(ps@, i as int) =~= out@ + output_bytes(ps@, i + 1));
        }
        i += 1;
    }
    proof {
        assert(output_bytes(ps@, ps@.len() as int) =~= Seq::<u8>::empty());
        assert(out@ + output_bytes(ps@, ps@.len() as int) =~= out@);
    }
    out
}

// ---------------------------------------------------------------------------
// Executable parser.
// ---------------------------------------------------------------------------

fn find_byte_in(v: &Vec<u8>, b: u8, from: usize) -> (r: usize)
    requires
        from <= v@.len(),
    ensures
        from <= r <= v@.len(),
        r == find_byte(v@, b, from as int),
        forall|k: int| from <= k < r ==> v@[k] != b,
        r < v@.len() ==> v@[r as int] == b,
{
    let mut i: usize = from;
    while i < v.len()
        invariant
            from <= i <= v@.len(),
            find_byte(v@, b, from as int) == find_byte(v@, b, i as int),
            forall|k: int| from <= k < i ==> v@[k] != b,
        decreases v@.len() - i,
    {
        if v[i] == b {
            return i;
        }
        i += 1;
    }
    i
}

fn copy_range(v: &Vec<u8>, lo: usize, hi: usize) -> (r: Vec<u8>)
    requires
        lo <= hi <= v@.len(),
    ensures
        r@ == v@.subrange(lo as int, hi as int),
{
    let mut r: Vec<u8> = Vec::new();
    let mut i: usize = lo;
    while i < hi
        invariant
            lo <= i <= hi <= v@.len(),
            r@ == v@.subrange(lo as int, i as int),
        decreases hi - i,
    {
        r.push(v[i]);
        proof {
            assert(r@ =~= v@.subrange(lo as int, i + 1));
        }
        i += 1;
    }
    r
}

fn parse_type(code: &Vec<u8>) -> (r: Option<PathType>)
    ensures
        r == type_of_code(code@),
{
    if code.len() == 1 {
        let b = code[0];
        match b {
            51 => Some(PathType::Z3),
            53 => Some(PathType::Z5),
            54 => Some(PathType::Z6),
            55 => Some(PathType::Z7),
            57 => Some(PathType::Z9),
            65 => Some(PathType::A),
            66 => Some(PathType::B),
            67 => Some(PathType::C),
            68 => Some(PathType::D),
            69 => Some(PathType::E),
            70 => Some(PathType::F),
            _ => None,
        }
    } else if code.len() == 2 {
        let b0 = code[0];
        let b1 = code[1];
        if b0 == 57 && b1 == 54 {
            Some(PathType::Z96)
        } else if b0 == 65 && b1 == 53 {
            Some(PathType::A5)
        } else if b0 == 67 && b1 == 51 {
            Some(PathType::C3)
        } else {
            None
        }
    } else {
        None
    }
}

fn parse_dec_bytes(digits: &Vec<u8>) -> (r: Option<u16>)
    ensures
        r == parse_dec(digits@),
{
    if digits.len() == 0 {
        return None;
    }
    let mut val: u32 = 0;
    let mut k: usize = 0;
    proof {
        assert(digits@.take(0) =~= Seq::<u8>::empty());
    }
    while k < digits.len()
        invariant
            0 <= k <= digits@.len(),
            all_digits(digits@.take(k as int)),
            val == dec_value(digits@.take(k as int)),
            val <= u16::MAX,
        decreases digits@.len() - k,
    {
        let b = digits[k];
        if b < 48 || b > 57 {
            proof {
                assert(!is_digit(digits@[k as int]));
            }
            return None;
        }
        proof {
            assert(digits@.take(k + 1).drop_last() =~= digits@.take(k as int));
            assert(digits@.take(k + 1).last() == digits@[k as int]);
        }
        val = val * 10 + (b - 48) as u32;
        if val > 65535 {
            proof {
                if all_digits(digits@) {
                    assert(all_digits(digits@.take(k + 1)));
                    lemma_dec_value_mono(digits@, k + 1);
                    assert(dec_value(digits@) > u16::MAX);
                }
            }
            return None;
        }
        k += 1;
    }
    proof {
        assert(digits@.take(digits@.len() as int) =~= digits@);
    }
    Some(val as u16)
}

fn parse_line_bytes(line: &Vec<u8>) -> (r: Option<PlacedPath>)
    ensures
        r == parse_line(line@),
{
    let i1 = find_byte_in(line, 32, 0);
    if i1 == line.len() {
        return None;
    }
    let i2 = find_byte_in(line, 32, i1 + 1);
    if i2 == line.len() {
        return None;
    }
    let code = copy_range(line, 0, i1);
    let xs = copy_range(line, i1 + 1, i2);
    let ys = copy_range(line, i2 + 1, line.len());
    let t = parse_type(&code);
    let x = parse_dec_bytes(&xs);
    let y = parse_dec_bytes(&ys);
    match (t, x, y) {
        (Some(t), Some(x), Some(y)) => Some(PlacedPath { id: t, x, y }),
        _ => None,
    }
}

/// Parse an output text back into its placement list: `None` when any
/// line is malformed or the text does not end in a newline.
pub fn parse_output(bytes: &Vec<u8>) -> (r: Option<Vec<PlacedPath>>)
    ensures
        match r {
            None => parse_output_spec(bytes@) is None,
            Some(v) => parse_output_spec(bytes@) == Some(v@),
        },
{
    let mut result: Vec<PlacedPath> = Vec::new();
    let mut pos: usize = 0;
    proof {
        assert(bytes@.skip(0) =~= bytes@);
    }
    while pos < bytes.len()
        invariant
            0 <= pos <= bytes@.len(),
            parse_output_spec(bytes@) == (match parse_output_spec(bytes@.skip(pos as int)) {
                None => None::<Seq<PlacedPath>>,
                Some(rest) => Some(result@ + rest),
            }),
        decreases bytes@.len() - pos,
    {
        let ghost suffix = bytes@.skip(pos as int);
        let nl = find_byte_in(bytes, 10, pos);
        proof {
            assert forall|k: int| 0 <= k < nl - pos implies suffix[k] != 10 by {
                assert(suffix[k] == bytes@[pos + k]);
            }
            if nl < bytes@.len() {
                assert(suffix[nl - pos] == bytes@[nl as int]);
            }
            lemma_find_byte_at(suffix, 10, 0, nl - pos);
        }
        if nl == bytes.len() {
            return None;
        }
        let line = copy_range(bytes, pos, nl);
        proof {
            assert(line@ =~= suffix.subrange(0, nl - pos));
        }
        let p = parse_line_bytes(&line);
        match p {
            None => {
                return None;
            },
            Some(p) => {
                let ghost prev = result@;
                result.push(p);
                proof {
                    assert(bytes@.skip(nl + 1) =~= suffix.skip(nl - pos + 1));
                    assert(match parse_output_spec(suffix) {
                        None => parse_output_spec(suffix.skip(nl - pos + 1)) is None,
                        Some(all) => parse_output_spec(suffix.skip(nl - pos + 1)) == Some(
                            all.skip(1),
                        ) && all.len() >= 1 && all[0] == p,
                    });
                    if parse_output_spec(suffix) is Some {
                        let all = parse_output_spec(suffix).unwrap();
                        assert(prev + all =~= result@ + all.skip(1));
                    }
                }
                pos = nl + 1;
            },
        }
    }
    proof {
        assert(bytes@.skip(bytes@.len() as int) =~= Seq::<u8>::empty());
        assert(result@ + Seq::<PlacedPath>::empty() =~= result@);
    }
    Some(result)
}

} // verus!
