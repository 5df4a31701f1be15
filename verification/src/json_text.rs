//! The text of the JSON that scripts encode: string escaping, integers, and the
//! trimming of numbers written in scientific notation.
use vstd::prelude::*;
use vstd::string::*;
use crate::text::{chars_of, dec_int, push_char};

verus! {

/// The lowercase hexadecimal digit of `d` (`0 <= d < 16`).
pub open spec fn hex_digit(d: int) -> u8 {
    if d < 10 {
        (48 + d) as u8
    } else {
        (87 + d) as u8
    }
}

/// How one byte of a string is written inside a JSON string literal: backslash, quote,
/// newline, carriage return and tab by their short escapes, other control bytes as
/// `\u00XX`, and every other byte as it is.
pub open spec fn escape_byte(b: u8) -> Seq<u8> {
    if b == 0x5c {
        seq![0x5cu8, 0x5cu8]
    } else if b == 0x22 {
        seq![0x5cu8, 0x22u8]
    } else if b == 0x0a {
        seq![0x5cu8, 0x6eu8]
    } else if b == 0x0d {
        seq![0x5cu8, 0x72u8]
    } else if b == 0x09 {
        seq![0x5cu8, 0x74u8]
    } else if b < 0x20 {
        seq![0x5cu8, 0x75u8, 0x30u8, 0x30u8, hex_digit((b / 16) as int), hex_digit((b % 16) as int)]
    } else {
        seq![b]
    }
}

/// The escaped bytes of `s`.
pub open spec fn escape_bytes(s: Seq<u8>) -> Seq<u8>
    decreases s.len(),
{
    if s.len() == 0 {
        seq![]
    } else {
        escape_bytes(s.drop_last()) + escape_byte(s.last())
    }
}

/// A byte string as a JSON string literal: quoted, with its bytes escaped.
pub open spec fn json_string(s: Seq<u8>) -> Seq<u8> {
    seq![0x22u8] + escape_bytes(s) + seq![0x22u8]
}

fn push_hex_digit(buf: &mut Vec<u8>, d: u8)
    requires
        d < 16,
    ensures
        final(buf)@ == old(buf)@.push(hex_digit(d as int)),
{
    if d < 10 {
        buf.push(48 + d);
    } else {
        buf.push(87 + d);
    }
}

/// Writes a byte string as a JSON string literal, passing bytes through unchanged but for
/// the escapes that JSON requires.
pub fn encode_json_string(bytes: &[u8], buf: &mut Vec<u8>)
    ensures
        final(buf)@ == old(buf)@ + json_string(bytes@),
{
    buf.push(0x22);
    let mut i: usize = 0;
    while i < bytes.len()
        invariant
            i <= bytes@.len(),
            buf@ == old(buf)@ + seq![0x22u8] + escape_bytes(bytes@.take(i as int)),
        decreases bytes@.len() - i,
    {
        let b = bytes[i];
        let ghost before = buf@;
        if b == 0x5c {
            buf.push(0x5c);
            buf.push(0x5c);
        } else if b == 0x22 {
            buf.push(0x5c);
            buf.push(0x22);
        } else if b == 0x0a {
            buf.push(0x5c);
            buf.push(0x6e);
        } else if b == 0x0d {
            buf.push(0x5c);
            buf.push(0x72);
        } else if b == 0x09 {
            buf.push(0x5c);
            buf.push(0x74);
        } else if b < 0x20 {
            buf.push(0x5c);
            buf.push(0x75);
            buf.push(0x30);
            buf.push(0x30);
            push_hex_digit(buf, b / 16);
            push_hex_digit(buf, b % 16);
        } else {
            buf.push(b);
        }
        assert(buf@ =~= before + escape_byte(b));
        assert(bytes@.take(i + 1).drop_last() =~= bytes@.take(i as int));
        i = i + 1;
    }
    assert(bytes@.take(i as int) =~= bytes@);
    buf.push(0x22);
    assert(final(buf)@ =~= old(buf)@ + json_string(bytes@));
}

/// The bytes of ASCII text.
pub open spec fn ascii_bytes(s: Seq<char>) -> Seq<u8> {
    s.map_values(|c: char| c as u8)
}

/// Writes an integer in decimal, as JSON numbers and integer keys are written.
pub fn push_decimal_bytes(buf: &mut Vec<u8>, n: i64)
    ensures
        final(buf)@ == old(buf)@ + ascii_bytes(dec_int(n as int)),
{
    let mut s = String::new();
    crate::text::push_decimal_i64(&mut s, n);
    let cs = chars_of(s.as_str());
    let mut i: usize = 0;
    while i < cs.len()
        invariant
            i <= cs@.len(),
            cs@ == dec_int(n as int),
            buf@ == old(buf)@ + ascii_bytes(cs@.take(i as int)),
        decreases cs@.len() - i,
    {
        let ghost before = buf@;
        let c = cs[i];
        buf.push(c as u8);
        assert(cs@.take(i + 1) =~= cs@.take(i as int).push(c));
        assert(ascii_bytes(cs@.take(i + 1)) =~= ascii_bytes(cs@.take(i as int)).push(c as u8));
        i = i + 1;
    }
    assert(cs@.take(i as int) =~= cs@);
}

/// Writes an integer table key as JSON object keys are written: the decimal digits in
/// quotes.
pub fn encode_integer_key(buf: &mut Vec<u8>, n: i64)
    ensures
        final(buf)@ == old(buf)@ + seq![0x22u8] + ascii_bytes(dec_int(n as int)) + seq![0x22u8],
{
    buf.push(0x22);
    push_decimal_bytes(buf, n);
    buf.push(0x22);
    assert(final(buf)@ =~= old(buf)@ + seq![0x22u8] + ascii_bytes(dec_int(n as int)) + seq![0x22u8]);
}

/// The position of the first character of `s` that `pred` holds of.
pub open spec fn first_matching(s: Seq<char>, pred: spec_fn(char) -> bool) -> Option<int>
    decreases s.len(),
{
    if s.len() == 0 {
        None
    } else if pred(s[0]) {
        Some(0)
    } else {
        match first_matching(s.drop_first(), pred) {
            Some(i) => Some(i + 1),
            None => None,
        }
    }
}

/// `s` without its trailing zeros.
pub open spec fn trim_zeros(s: Seq<char>) -> Seq<char>
    decreases s.len(),
{
    if s.len() > 0 && s.last() == '0' {
        trim_zeros(s.drop_last())
    } else {
        s
    }
}

/// A number in scientific notation with the zeros that end its fraction removed (and the
/// point with them when nothing is left after it), and without an exponent of zero. Text
/// without a point followed by an exponent is kept as it is.
pub open spec fn trim_float_spec(s: Seq<char>) -> Seq<char> {
    match first_matching(s, |c: char| c == '.') {
        None => s,
        Some(dot) => match first_matching(s.skip(dot), |c: char| c == 'e' || c == 'E') {
            None => s,
            Some(e) => {
                let mantissa = trim_zeros(s.take(dot + e));
                let mantissa = if mantissa.len() > 0 && mantissa.last() == '.' {
                    mantissa.drop_last()
                } else {
                    mantissa
                };
                let exp = s.skip(dot + e);
                if exp == seq!['e', '0'] || exp == seq!['E', '0'] {
                    mantissa
                } else {
                    mantissa + exp
                }
            },
        },
    }
}

/// The first position at or after `from` where `cs` holds `'.'` (when `dot`) or an
/// exponent mark, or `cs.len()`.
fn find_from(cs: &Vec<char>, from: usize, dot: bool) -> (res: usize)
    requires
        from <= cs@.len(),
    ensures
        from <= res <= cs@.len(),
        res < cs@.len() ==> (if dot {
            cs@[res as int] == '.'
        } else {
            cs@[res as int] == 'e' || cs@[res as int] == 'E'
        }),
        forall|j: int|
            from <= j < res ==> !(if dot {
                #[trigger] cs@[j] == '.'
            } else {
                cs@[j] == 'e' || cs@[j] == 'E'
            }),
{
    let mut i = from;
    while i < cs.len()
        invariant
            from <= i <= cs@.len(),
            forall|j: int|
                from <= j < i ==> !(if dot {
                    #[trigger] cs@[j] == '.'
                } else {
                    cs@[j] == 'e' || cs@[j] == 'E'
                }),
        decreases cs@.len() - i,
    {
        let c = cs[i];
        if (dot && c == '.') || (!dot && (c == 'e' || c == 'E')) {
            return i;
        }
        i = i + 1;
    }
    i
}

proof fn lemma_first_matching(s: Seq<char>, pred: spec_fn(char) -> bool, k: int)
    requires
        0 <= k <= s.len(),
        k < s.len() ==> pred(s[k]),
        forall|j: int| 0 <= j < k ==> !pred(#[trigger] s[j]),
    ensures
        first_matching(s, pred) == (if k < s.len() {
            Some(k)
        } else {
            None::<int>
        }),
    decreases s.len(),
{
    if s.len() > 0 && k > 0 {
        assert(!pred(s[0]));
        assert forall|j: int| 0 <= j < k - 1 implies !pred(#[trigger] s.drop_first()[j]) by {
            assert(s.drop_first()[j] == s[j + 1]);
        }
        lemma_first_matching(s.drop_first(), pred, k - 1);
    }
}

/// Trims a number written in scientific notation (see `trim_float_spec`).
pub fn trim_float(s: &str) -> (res: String)
    ensures
        res@ == trim_float_spec(s@),
{
    let cs = chars_of(s);
    let n = cs.len();
    let dot = find_from(&cs, 0, true);
    proof {
        lemma_first_matching(cs@, |c: char| c == '.', dot as int);
    }
    if dot == n {
        return String::from_str(s);
    }
    let e = find_from(&cs, dot, false);
    proof {
        let t = cs@.skip(dot as int);
        assert forall|j: int| 0 <= j < e - dot implies !((|c: char| c == 'e' || c == 'E')(
            #[trigger] t[j],
        )) by {
            assert(t[j] == cs@[j + dot]);
        }
        if e < n {
            assert(t[e - dot] == cs@[e as int]);
        }
        lemma_first_matching(t, |c: char| c == 'e' || c == 'E', e - dot);
    }
    if e == n {
        return String::from_str(s);
    }
    let mut end = e;
    while end > 0 && cs[end - 1] == '0'
        invariant
            end <= e,
            e <= cs@.len(),
            trim_zeros(cs@.take(e as int)) == trim_zeros(cs@.take(end as int)),
        decreases end,
    {
        assert(cs@.take(end as int).drop_last() =~= cs@.take(end - 1));
        end = end - 1;
    }
    assert(trim_zeros(cs@.take(end as int)) == cs@.take(end as int));
    if end > 0 && cs[end - 1] == '.' {
        end = end - 1;
        assert(cs@.take(end + 1).drop_last() =~= cs@.take(end as int));
    }
    let mut out = String::new();
    let mut i: usize = 0;
    while i < end
        invariant
            i <= end,
            end <= cs@.len(),
            out@ == cs@.take(i as int),
        decreases end - i,
    {
        push_char(&mut out, cs[i]);
        assert(cs@.take(i + 1) =~= cs@.take(i as int).push(cs@[i as int]));
        i = i + 1;
    }
    let zero_exp = n - e == 2 && cs[e + 1] == '0';
    assert(zero_exp == (cs@.skip(e as int) == seq!['e', '0'] || cs@.skip(e as int) == seq!['E', '0'])) by {
        if cs@.skip(e as int) == seq!['e', '0'] || cs@.skip(e as int) == seq!['E', '0'] {
            assert(cs@.skip(e as int)[1] == cs@[e + 1]);
        }
        if zero_exp {
            if cs@[e as int] == 'e' {
                assert(cs@.skip(e as int) =~= seq!['e', '0']);
            } else {
                assert(cs@.skip(e as int) =~= seq!['E', '0']);
            }
        }
    }
    if !zero_exp {
        let mut j: usize = e;
        while j < n
            invariant
                e <= j <= n,
                n == cs@.len(),
                out@ == cs@.take(end as int) + cs@.subrange(e as int, j as int),
            decreases n - j,
        {
            push_char(&mut out, cs[j]);
            assert(cs@.subrange(e as int, j + 1) =~= cs@.subrange(e as int, j as int).push(
                cs@[j as int],
            ));
            j = j + 1;
        }
        assert(cs@.subrange(e as int, n as int) =~= cs@.skip(e as int));
    }
    out
}

/// Whether `s` holds no point and no exponent mark.
pub open spec fn no_mark(s: Seq<char>) -> bool {
    forall|i: int| 0 <= i < s.len() ==> #[trigger] s[i] != '.' && s[i] != 'e' && s[i] != 'E'
}

proof fn lemma_trim_zeros_shape(f: Seq<char>)
    ensures
        trim_zeros(f) == f.take(trim_zeros(f).len() as int),
        trim_zeros(f).len() <= f.len(),
        forall|j: int| trim_zeros(f).len() <= j < f.len() ==> #[trigger] f[j] == '0',
        trim_zeros(f).len() == 0 || f[trim_zeros(f).len() - 1] != '0',
    decreases f.len(),
{
    if f.len() > 0 && f.last() == '0' {
        lemma_trim_zeros_shape(f.drop_last());
        let k = trim_zeros(f).len();
        assert(f.drop_last().take(k as int) =~= f.take(k as int));
        assert forall|j: int| k <= j < f.len() implies #[trigger] f[j] == '0' by {
            if j < f.len() - 1 {
                assert(f.drop_last()[j] == f[j]);
            }
        }
        if k > 0 {
            assert(f.drop_last()[k - 1] == f[k - 1]);
        }
    } else {
        assert(f.take(f.len() as int) =~= f);
    }
}

proof fn lemma_trim_zeros_append(m: Seq<char>, f: Seq<char>)
    requires
        m.len() > 0,
        m.last() != '0',
    ensures
        trim_zeros(m + f) == m + trim_zeros(f),
    decreases f.len(),
{
    if f.len() == 0 {
        assert(m + f =~= m);
        assert(m + trim_zeros(f) =~= m);
    } else {
        assert((m + f).last() == f.last());
        if f.last() == '0' {
            assert((m + f).drop_last() =~= m + f.drop_last());
            lemma_trim_zeros_append(m, f.drop_last());
        }
    }
}

/// Trimming a number in scientific notation keeps its value: for a whole part `a`, a
/// fraction `f` and an exponent `x` (an `e` or `E` and what follows), the result is the
/// whole part, then the fraction without the zeros that end it (with the point, unless
/// nothing is left of it), then the exponent unless it is `e0` or `E0`.
pub proof fn lemma_trim_float_keeps_value(a: Seq<char>, f: Seq<char>, x: Seq<char>)
    requires
        no_mark(a),
        no_mark(f),
        x.len() > 0,
        x[0] == 'e' || x[0] == 'E',
    ensures
        exists|k: int|
            {
                &&& 0 <= k <= f.len()
                &&& forall|j: int| k <= j < f.len() ==> #[trigger] f[j] == '0'
                &&& k == 0 || f[k - 1] != '0'
                &&& trim_float_spec(a + seq!['.'] + f + x) == (if k == 0 {
                    a
                } else {
                    a + seq!['.'] + f.take(k)
                }) + (if x == seq!['e', '0'] || x == seq!['E', '0'] {
                    Seq::<char>::empty()
                } else {
                    x
                })
            },
{
    let s = a + seq!['.'] + f + x;
    let dot = a.len() as int;
    assert forall|j: int| 0 <= j < dot implies !((|c: char| c == '.')(#[trigger] s[j])) by {
        assert(s[j] == a[j]);
    }
    assert(s[dot] == '.');
    lemma_first_matching(s, |c: char| c == '.', dot);
    let t = s.skip(dot);
    let e = f.len() + 1int;
    assert forall|j: int| 0 <= j < e implies !((|c: char| c == 'e' || c == 'E')(#[trigger] t[j])) by {
        if j == 0 {
            assert(t[0] == '.');
        } else {
            assert(t[j] == f[j - 1]);
        }
    }
    assert(t[e] == x[0]);
    lemma_first_matching(t, |c: char| c == 'e' || c == 'E', e);
    let m = a + seq!['.'];
    assert(s.take(dot + e) =~= m + f);
    assert(s.skip(dot + e) =~= x);
    lemma_trim_zeros_append(m, f);
    lemma_trim_zeros_shape(f);
    let k = trim_zeros(f).len() as int;
    let tz = trim_zeros(f);
    if k == 0 {
        assert(m + tz =~= m);
        assert(m.drop_last() =~= a);
    } else {
        assert((m + tz).last() == f[k - 1]);
        assert(m + tz =~= a + seq!['.'] + f.take(k));
    }
}

} // verus!
