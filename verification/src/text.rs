//! Text building blocks: decimal numbers, padding and C-string buffers.

use vstd::prelude::*;
use vstd::utf8::*;

verus! {

/// The ASCII digit for `d`, where `0 <= d < 10`.
pub open spec fn digit_char(d: nat) -> char {
    if d == 0 { '0' }
    else if d == 1 { '1' }
    else if d == 2 { '2' }
    else if d == 3 { '3' }
    else if d == 4 { '4' }
    else if d == 5 { '5' }
    else if d == 6 { '6' }
    else if d == 7 { '7' }
    else if d == 8 { '8' }
    else { '9' }
}

/// The decimal representation of `n`, without sign or leading zeros.
pub open spec fn decimal(n: nat) -> Seq<char>
    decreases n,
{
    if n < 10 {
        seq![digit_char(n)]
    } else {
        decimal(n / 10).push(digit_char(n % 10))
    }
}

fn digit_str(d: u64) -> (s: &'static str)
    requires
        d < 10,
    ensures
        s@ == seq![digit_char(d as nat)],
{
    proof {
        reveal_strlit("0");
        reveal_strlit("1");
        reveal_strlit("2");
        reveal_strlit("3");
        reveal_strlit("4");
        reveal_strlit("5");
        reveal_strlit("6");
        reveal_strlit("7");
        reveal_strlit("8");
        reveal_strlit("9");
    }
    if d == 0 { "0" }
    else if d == 1 { "1" }
    else if d == 2 { "2" }
    else if d == 3 { "3" }
    else if d == 4 { "4" }
    else if d == 5 { "5" }
    else if d == 6 { "6" }
    else if d == 7 { "7" }
    else if d == 8 { "8" }
    else { "9" }
}

/// Appends the decimal representation of `n` to `out`.
pub fn push_decimal(out: &mut String, n: u64)
    ensures
        final(out)@ == old(out)@ + decimal(n as nat),
    decreases n,
{
    if n < 10 {
        out.append(digit_str(n));
    } else {
        push_decimal(out, n / 10);
        out.append(digit_str(n % 10));
    }
}

/// The decimal representation of `n`, as `format!("{}", n)` writes it.
pub fn decimal_string(n: u64) -> (s: String)
    ensures
        s@ == decimal(n as nat),
{
    let mut s = String::new();
    push_decimal(&mut s, n);
    s
}


/// The decimal representation of a signed number, with a leading `-` when
/// it is negative.
pub open spec fn signed_decimal(x: int) -> Seq<char> {
    if x < 0 {
        seq!['-'] + decimal((-x) as nat)
    } else {
        decimal(x as nat)
    }
}

/// Appends the decimal representation of the signed number `x` to `out`.
pub fn push_signed_decimal(out: &mut String, x: i32)
    ensures
        final(out)@ == old(out)@ + signed_decimal(x as int),
{
    let wide: i64 = x as i64;
    if wide < 0 {
        proof {
            reveal_strlit("-");
        }
        out.append("-");
        let magnitude: u64 = (-wide) as u64;
        push_decimal(out, magnitude);
    } else {
        push_decimal(out, wide as u64);
    }
}

/// `n` spaces.
pub open spec fn spaces(n: nat) -> Seq<char> {
    Seq::new(n, |i: int| ' ')
}

/// `s` followed by as many spaces as make it `width` characters long; `s`
/// itself when it already has `width` characters or more. This is what the
/// left-aligned format `{:<width$}` writes.
pub open spec fn pad_right(s: Seq<char>, width: nat) -> Seq<char> {
    if s.len() < width {
        s + spaces((width - s.len()) as nat)
    } else {
        s
    }
}

/// Appends `n` spaces to `out`.
pub fn push_spaces(out: &mut String, n: usize)
    ensures
        final(out)@ == old(out)@ + spaces(n as nat),
{
    let ghost start = out@;
    let mut i: usize = 0;
    while i < n
        invariant
            i <= n,
            out@ == start + spaces(i as nat),
        decreases n - i,
    {
        proof {
            reveal_strlit(" ");
        }
        out.append(" ");
        i = i + 1;
        assert(out@ =~= start + spaces(i as nat));
    }
}

/// Appends `cell`, left-aligned in a field of `width` characters, to `out`.
pub fn push_padded(out: &mut String, cell: &str, width: usize)
    ensures
        final(out)@ == old(out)@ + pad_right(cell@, width as nat),
{
    let ghost start = out@;
    out.append(cell);
    let n: usize = cell.unicode_len();
    if n < width {
        push_spaces(out, width - n);
        assert(out@ =~= start + pad_right(cell@, width as nat));
    } else {
        assert(out@ =~= start + pad_right(cell@, width as nat));
    }
}

/// The bytes of a C string: the UTF-8 encoding of `s` with a terminating NUL,
/// or `None` when the encoding itself holds a NUL byte.
pub open spec fn c_string_spec(s: Seq<char>) -> Option<Seq<u8>> {
    if encode_utf8(s).contains(0u8) {
        None
    } else {
        Some(encode_utf8(s).push(0u8))
    }
}

/// The NUL-terminated bytes that `CString::new(s)` holds, or `None` where it
/// refuses `s` for an interior NUL byte.
pub fn c_string_bytes(s: &str) -> (r: Option<Vec<u8>>)
    ensures
        r matches Some(v) ==> c_string_spec(s@) == Some(v@),
        r is None ==> c_string_spec(s@) is None,
{
    let bytes = s.as_bytes();
    let mut out: Vec<u8> = Vec::new();
    let mut i: usize = 0;
    while i < bytes.len()
        invariant
            bytes@ == encode_utf8(s@),
            i <= bytes@.len(),
            out@ == bytes@.take(i as int),
            !out@.contains(0u8),
        decreases bytes@.len() - i,
    {
        if bytes[i] == 0 {
            assert(bytes@[i as int] == 0u8);
            assert(encode_utf8(s@).contains(0u8));
            return None;
        }
        out.push(bytes[i]);
        assert(out@ =~= bytes@.take(i + 1));
        i = i + 1;
    }
    assert(out@ =~= bytes@);
    out.push(0u8);
    Some(out)
}

/// The bytes of `b` before its first NUL byte (all of `b` if it has none).
pub open spec fn until_nul(b: Seq<u8>) -> Seq<u8>
    decreases b.len(),
{
    if b.len() == 0 {
        b
    } else if b[0] == 0 {
        Seq::empty()
    } else {
        seq![b[0]] + until_nul(b.drop_first())
    }
}

proof fn lemma_until_nul_at(b: Seq<u8>, k: int)
    requires
        0 <= k < b.len(),
        b[k] == 0,
        forall|j: int| 0 <= j < k ==> b[j] != 0,
    ensures
        until_nul(b) == b.take(k),
    decreases k,
{
    if k == 0 {
        assert(b.take(0) =~= Seq::<u8>::empty());
    } else {
        let rest = b.drop_first();
        assert forall|j: int| 0 <= j < k - 1 implies rest[j] != 0 by {
            assert(rest[j] == b[j + 1]);
        }
        lemma_until_nul_at(rest, k - 1);
        assert(b.take(k) =~= seq![b[0]] + rest.take(k - 1));
    }
}



/// Whether `c` is one of the ASCII digits `0` to `9`.
pub open spec fn is_digit(c: char) -> bool {
    c == '0' || c == '1' || c == '2' || c == '3' || c == '4' || c == '5' || c == '6' || c == '7'
        || c == '8' || c == '9'
}

/// The value of the ASCII digit `c`.
pub open spec fn digit_value(c: char) -> int {
    if c == '1' { 1 }
    else if c == '2' { 2 }
    else if c == '3' { 3 }
    else if c == '4' { 4 }
    else if c == '5' { 5 }
    else if c == '6' { 6 }
    else if c == '7' { 7 }
    else if c == '8' { 8 }
    else if c == '9' { 9 }
    else { 0 }
}

/// The number that the digits `s` spell in base ten.
pub open spec fn decimal_value(s: Seq<char>) -> int
    decreases s.len(),
{
    if s.len() == 0 {
        0
    } else {
        decimal_value(s.drop_last()) * 10 + digit_value(s.last())
    }
}

/// The decimal representation of `n` is a non-empty run of digits, without
/// a leading zero unless it is `0` itself, that reads back as `n`.
pub proof fn law_decimal_reads_back(n: nat)
    ensures
        decimal(n).len() >= 1,
        forall|i: int| 0 <= i < decimal(n).len() ==> is_digit(#[trigger] decimal(n)[i]),
        decimal_value(decimal(n)) == n,
        decimal(n).len() > 1 ==> decimal(n)[0] != '0',
        n >= 10 ==> decimal(n).len() >= 2,
        n == 0 <==> decimal(n) == seq!['0'],
    decreases n,
{
    lemma_digit((n % 10) as nat);
    if n < 10 {
        let d = decimal(n);
        assert(d.drop_last() =~= Seq::<char>::empty());
        assert(d.last() == digit_char(n));
        assert(decimal_value(Seq::<char>::empty()) == 0);
        assert(decimal_value(d) == n);
        if d == seq!['0'] {
            assert(d[0] == '0');
        }
    } else {
        law_decimal_reads_back(n / 10);
        let d = decimal(n);
        assert(d.drop_last() =~= decimal(n / 10));
        assert(d[0] == decimal(n / 10)[0]);
        assert forall|i: int| 0 <= i < d.len() implies is_digit(#[trigger] d[i]) by {
            if i < d.len() - 1 {
                assert(d[i] == decimal(n / 10)[i]);
            }
        }
        if n / 10 < 10 {
            lemma_digit(n / 10);
            assert(decimal(n / 10)[0] == digit_char(n / 10));
        }
        assert(n == (n / 10) * 10 + n % 10);
        assert(d.len() >= 2);
        assert(d.last() == digit_char(n % 10));
        assert(decimal_value(d) == decimal_value(decimal(n / 10)) * 10 + digit_value(
            digit_char(n % 10),
        ));
        assert(d != seq!['0']) by {
            assert(d.len() != seq!['0'].len());
        }
    }
}

/// `digit_char(d)` is the digit whose value is `d`, and only `0` gives `'0'`.
pub proof fn lemma_digit(d: nat)
    requires
        d < 10,
    ensures
        digit_value(digit_char(d)) == d,
        is_digit(digit_char(d)),
        digit_char(d) == '0' <==> d == 0,
{
}

/// The signed decimal representation of `x` reads back as `x`: a `-` and the
/// digits of `-x` when `x` is negative, else just the digits of `x`.
pub proof fn law_signed_decimal_reads_back(x: int)
    ensures
        x < 0 ==> signed_decimal(x)[0] == '-' && decimal_value(signed_decimal(x).drop_first())
            == -x,
        x >= 0 ==> decimal_value(signed_decimal(x)) == x && is_digit(signed_decimal(x)[0]),
{
    if x < 0 {
        law_decimal_reads_back((-x) as nat);
        assert(signed_decimal(x).drop_first() =~= decimal((-x) as nat));
    } else {
        law_decimal_reads_back(x as nat);
    }
}

/// Padding keeps the text as it is and adds only spaces, up to the width.
pub proof fn law_pad_right(s: Seq<char>, width: nat)
    ensures
        pad_right(s, width).len() == if s.len() < width {
            width
        } else {
            s.len()
        },
        pad_right(s, width).take(s.len() as int) == s,
        forall|i: int|
            s.len() <= i < pad_right(s, width).len() ==> #[trigger] pad_right(s, width)[i] == ' ',
{
    assert(pad_right(s, width).take(s.len() as int) =~= s);
}

/// The bytes before the first NUL are a prefix of the buffer that holds no
/// NUL, and they end at a NUL or at the end of the buffer.
pub proof fn law_until_nul(b: Seq<u8>)
    ensures
        until_nul(b).len() <= b.len(),
        until_nul(b) == b.take(until_nul(b).len() as int),
        forall|i: int| 0 <= i < until_nul(b).len() ==> #[trigger] until_nul(b)[i] != 0,
        until_nul(b).len() < b.len() ==> b[until_nul(b).len() as int] == 0,
    decreases b.len(),
{
    if b.len() > 0 && b[0] != 0 {
        let rest = b.drop_first();
        law_until_nul(rest);
        let u = until_nul(b);
        assert(u == seq![b[0]] + until_nul(rest));
        assert(u =~= b.take(u.len() as int));
        assert forall|i: int| 0 <= i < u.len() implies #[trigger] u[i] != 0 by {
            if i > 0 {
                assert(u[i] == until_nul(rest)[i - 1]);
            }
        }
        if u.len() < b.len() {
            assert(b[u.len() as int] == rest[until_nul(rest).len() as int]);
        }
    } else if b.len() > 0 {
        assert(b.take(0) =~= Seq::<u8>::empty());
    }
}

/// The bytes of a C string are the UTF-8 encoding followed by one NUL, and
/// a text is refused exactly when its encoding holds a NUL.
pub proof fn law_c_string_bytes(s: Seq<char>)
    ensures
        c_string_spec(s) is None <==> exists|i: int|
            0 <= i < encode_utf8(s).len() && #[trigger] encode_utf8(s)[i] == 0,
        c_string_spec(s) matches Some(b) ==> b.len() == encode_utf8(s).len() + 1 && b.last() == 0
            && b.drop_last() == encode_utf8(s),
{
    if c_string_spec(s) is Some {
        let b = c_string_spec(s)->0;
        assert(b.drop_last() =~= encode_utf8(s));
        if exists|i: int| 0 <= i < encode_utf8(s).len() && #[trigger] encode_utf8(s)[i] == 0 {
            let i = choose|i: int| 0 <= i < encode_utf8(s).len() && #[trigger] encode_utf8(s)[i] == 0;
            assert(encode_utf8(s).contains(0u8));
        }
    } else {
        let i = choose|i: int| 0 <= i < encode_utf8(s).len() && encode_utf8(s)[i] == 0u8;
        assert(encode_utf8(s)[i] == 0);
    }
}

/// A text written out as a C string reads back as the same text: its bytes
/// up to the NUL are valid UTF-8, and the only text they encode is the one
/// written.
pub proof fn law_c_string_round_trip(s: Seq<char>, t: Seq<char>)
    requires
        c_string_spec(s) is Some,
    ensures
        until_nul(c_string_spec(s)->0) == encode_utf8(s),
        valid_utf8(until_nul(c_string_spec(s)->0)),
        encode_utf8(t) == until_nul(c_string_spec(s)->0) ==> t == s,
{
    let e = encode_utf8(s);
    let b = e.push(0u8);
    assert forall|j: int| 0 <= j < e.len() implies b[j] != 0 by {
        if b[j] == 0 {
            assert(e[j] == 0u8);
            assert(e.contains(0u8));
        }
    }
    lemma_until_nul_at(b, e.len() as int);
    assert(b.take(e.len() as int) =~= e);
    encode_utf8_valid_utf8(s);
    encode_utf8_decode_utf8(s);
    encode_utf8_decode_utf8(t);
}

/// The text that `std::str::from_utf8` reads from `bytes`: `Some` exactly
/// when they are valid UTF-8, and then the string whose encoding they are.
///
/// Trusted: calls `std::str::from_utf8` and copies the result into a
/// `String`. The contract claims that the standard library accepts exactly
/// the byte sequences that vstd's `valid_utf8` describes, and that the string
/// it returns encodes back to `bytes`.
#[verifier::external_body]
fn utf8_to_string(bytes: &[u8]) -> (r: Option<String>)
    ensures
        r is Some <==> valid_utf8(bytes@),
        r matches Some(s) ==> encode_utf8(s@) == bytes@,
{
    match std::str::from_utf8(bytes) {
        Ok(s) => Some(String::from(s)),
        Err(_) => None,
    }
}

/// What a NUL-terminated C string buffer holds as text.
///
/// `status` is what the conversion that filled `buffer` returned (zero for
/// failure). On success the text is the bytes before the first NUL, when
/// they are valid UTF-8.
pub fn c_buffer_to_string(status: u8, buffer: &[u8]) -> (r: Option<String>)
    requires
        status != 0 ==> buffer@.contains(0u8),
    ensures
        status == 0 ==> r is None,
        status != 0 ==> (r is Some <==> valid_utf8(until_nul(buffer@))),
        r matches Some(s) ==> encode_utf8(s@) == until_nul(buffer@),
{
    if status == 0 {
        return None;
    }
    let mut prefix: Vec<u8> = Vec::new();
    let mut i: usize = 0;
    while i < buffer.len() && buffer[i] != 0
        invariant
            i <= buffer@.len(),
            prefix@ == buffer@.take(i as int),
            forall|j: int| 0 <= j < i ==> buffer@[j] != 0,
        decreases buffer@.len() - i,
    {
        prefix.push(buffer[i]);
        assert(prefix@ =~= buffer@.take(i + 1));
        i = i + 1;
    }
    proof {
        if i == buffer@.len() {
            let k = choose|k: int| 0 <= k < buffer@.len() && buffer@[k] == 0u8;
            assert(buffer@[k] != 0);
        }
        lemma_until_nul_at(buffer@, i as int);
    }
    utf8_to_string(prefix.as_slice())
}

} // verus!
