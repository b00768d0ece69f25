//! The wire codec for the hub's envelopes.
//!
//! A wire frame is the text of one JSON object holding the envelope's tag
//! and the tagged variant's fields, flattened, in the canonical field order
//! and without insignificant whitespace. `enc_payload` defines that text
//! mathematically; `encode_payload` produces exactly it, and
//! `decode_payload` is specified by the spec-level parser `dec_payload`.
//! Decoding is the exact inverse of encoding (see `codec_laws`); a frame
//! the parser refuses is a malformed envelope, which the caller drops
//! while the connection stays open.
//!
//! Inside string values, `"` and `\` are escaped with a backslash; every
//! other character is carried verbatim. Numbers are decimal, with no
//! leading zeros and `-` for negative values.

use vstd::prelude::*;

verus! {

// ---------------------------------------------------------------------
// Spec-level encoding primitives.
// ---------------------------------------------------------------------

/// How one character of a string value appears on the wire.
pub open spec fn esc_char(c: char) -> Seq<char> {
    if c == '"' || c == '\\' {
        seq!['\\', c]
    } else {
        seq![c]
    }
}

/// The wire form of a string value's characters.
pub open spec fn enc_chars(t: Seq<char>) -> Seq<char>
    decreases t.len(),
{
    if t.len() == 0 {
        Seq::<char>::empty()
    } else {
        esc_char(t[0]) + enc_chars(t.skip(1))
    }
}

/// The wire form of a string value: quoted and escaped.
pub open spec fn enc_string(t: Seq<char>) -> Seq<char> {
    seq!['"'] + enc_chars(t) + seq!['"']
}

/// The decimal digit character for `d` (0 to 9).
pub open spec fn digit_char(d: int) -> char {
    if d == 0 {
        '0'
    } else if d == 1 {
        '1'
    } else if d == 2 {
        '2'
    } else if d == 3 {
        '3'
    } else if d == 4 {
        '4'
    } else if d == 5 {
        '5'
    } else if d == 6 {
        '6'
    } else if d == 7 {
        '7'
    } else if d == 8 {
        '8'
    } else {
        '9'
    }
}

/// The decimal digits of a non-negative integer, most significant first.
pub open spec fn enc_nat(n: int) -> Seq<char>
    decreases n,
{
    if n < 10 {
        seq![digit_char(n)]
    } else {
        enc_nat(n / 10).push(digit_char(n % 10))
    }
}

/// The wire form of an integer.
pub open spec fn enc_int(v: int) -> Seq<char> {
    if v < 0 {
        seq!['-'] + enc_nat(-v)
    } else {
        enc_nat(v)
    }
}

/// The wire form of a boolean.
pub open spec fn enc_bool(b: bool) -> Seq<char> {
    if b {
        "true"@
    } else {
        "false"@
    }
}

/// The wire form of an optional page number: `null` when absent.
pub open spec fn enc_opt_int(p: Option<i32>) -> Seq<char> {
    match p {
        Option::None => "null"@,
        Option::Some(n) => enc_int(n as int),
    }
}

// ---------------------------------------------------------------------
// Spec-level decoding primitives. Each takes the frame and a position and
// yields the decoded value with the position after it, or nothing.
// ---------------------------------------------------------------------

/// Whether the literal `l` stands at position `i` of `s`.
pub open spec fn at_lit(s: Seq<char>, i: int, l: Seq<char>) -> bool {
    0 <= i && i + l.len() <= s.len() && s.subrange(i, i + l.len()) == l
}

/// Consume the literal `l` at position `i`.
pub open spec fn expect(s: Seq<char>, i: int, l: Seq<char>) -> Option<int> {
    if at_lit(s, i, l) {
        Option::Some(i + l.len())
    } else {
        Option::None
    }
}

/// Consume the escaped characters of a string value up to and including its
/// closing quote.
pub open spec fn dec_chars(s: Seq<char>, i: int) -> Option<(Seq<char>, int)>
    decreases s.len() - i,
{
    if i < 0 || i >= s.len() {
        Option::None
    } else if s[i] == '"' {
        Option::Some((Seq::<char>::empty(), i + 1))
    } else if s[i] == '\\' {
        if i + 1 < s.len() && (s[i + 1] == '"' || s[i + 1] == '\\') {
            match dec_chars(s, i + 2) {
                Option::None => Option::None,
                Option::Some((t, j)) => Option::Some((seq![s[i + 1]] + t, j)),
            }
        } else {
            Option::None
        }
    } else {
        match dec_chars(s, i + 1) {
            Option::None => Option::None,
            Option::Some((t, j)) => Option::Some((seq![s[i]] + t, j)),
        }
    }
}

/// Consume a quoted string value.
pub open spec fn dec_string(s: Seq<char>, i: int) -> Option<(Seq<char>, int)> {
    if 0 <= i && i < s.len() && s[i] == '"' {
        dec_chars(s, i + 1)
    } else {
        Option::None
    }
}

/// Whether `c` is a decimal digit.
pub open spec fn is_digit(c: char) -> bool {
    48 <= c as u32 && c as u32 <= 57
}

/// The value of a digit character.
pub open spec fn digit_val(c: char) -> int {
    c as u32 - 48
}

/// The position of the first non-digit at or after `i`.
pub open spec fn digits_end(s: Seq<char>, i: int) -> int
    decreases s.len() - i,
{
    if 0 <= i && i < s.len() && is_digit(s[i]) {
        digits_end(s, i + 1)
    } else {
        i
    }
}

/// The value of a run of digit characters, most significant first.
pub open spec fn nat_of(ds: Seq<char>) -> int
    decreases ds.len(),
{
    if ds.len() == 0 {
        0
    } else {
        nat_of(ds.drop_last()) * 10 + digit_val(ds.last())
    }
}

/// Consume a decimal integer: an optional sign, then digits without a
/// leading zero, refused when the value leaves the 32-bit range.
pub open spec fn dec_int(s: Seq<char>, i: int) -> Option<(i32, int)> {
    if 0 <= i && i < s.len() && s[i] == '-' {
        match dec_int_digits(s, i + 1) {
            Option::None => Option::None,
            Option::Some((n, j)) => if -n >= i32::MIN {
                Option::Some(((-n) as i32, j))
            } else {
                Option::None
            },
        }
    } else {
        match dec_int_digits(s, i) {
            Option::None => Option::None,
            Option::Some((n, j)) => if n <= i32::MAX {
                Option::Some((n as i32, j))
            } else {
                Option::None
            },
        }
    }
}

/// Consume a run of digits (no sign), with its mathematical value.
pub open spec fn dec_int_digits(s: Seq<char>, i: int) -> Option<(int, int)> {
    let j = digits_end(s, i);
    if j == i {
        Option::None
    } else if j > i + 1 && digit_val(s[i]) == 0 {
        Option::None
    } else {
        Option::Some((nat_of(s.subrange(i, j)), j))
    }
}

/// Consume `true` or `false`.
pub open spec fn dec_bool(s: Seq<char>, i: int) -> Option<(bool, int)> {
    match expect(s, i, "true"@) {
        Option::Some(j) => Option::Some((true, j)),
        Option::None => match expect(s, i, "false"@) {
            Option::Some(j) => Option::Some((false, j)),
            Option::None => Option::None,
        },
    }
}

/// Consume `null` or a decimal integer.
pub open spec fn dec_opt_int(s: Seq<char>, i: int) -> Option<(Option<i32>, int)> {
    match expect(s, i, "null"@) {
        Option::Some(j) => Option::Some((Option::None, j)),
        Option::None => match dec_int(s, i) {
            Option::None => Option::None,
            Option::Some((v, j)) => Option::Some((Option::Some(v), j)),
        },
    }
}

// ---------------------------------------------------------------------
// Executable building blocks.
// ---------------------------------------------------------------------

/// Relies on `String::push`: appends exactly the one character.
#[verifier::external_body]
fn push_char(s: &mut String, c: char)
    ensures
        final(s)@ == old(s)@.push(c),
{
    s.push(c);
}

/// The characters of a text, for position-wise parsing.
pub fn str_to_chars(s: &str) -> (v: Vec<char>)
    ensures
        v@ == s@,
{
    let n = s.unicode_len();
    let mut v: Vec<char> = Vec::new();
    let mut i: usize = 0;
    while i < n
        invariant
            n == s@.len(),
            0 <= i <= n,
            v@ == s@.subrange(0, i as int),
        decreases n - i,
    {
        v.push(s.get_char(i));
        proof {
            assert(v@ =~= s@.subrange(0, i + 1));
        }
        i += 1;
    }
    proof {
        assert(v@ =~= s@);
    }
    v
}

/// A text with exactly these characters.
pub fn chars_to_string(v: &Vec<char>) -> (s: String)
    ensures
        s@ == v@,
{
    let mut s = String::new();
    let mut i: usize = 0;
    while i < v.len()
        invariant
            0 <= i <= v@.len(),
            s@ == v@.subrange(0, i as int),
        decreases v@.len() - i,
    {
        push_char(&mut s, v[i]);
        proof {
            assert(s@ =~= v@.subrange(0, i + 1));
        }
        i += 1;
    }
    proof {
        assert(s@ =~= v@);
    }
    s
}

/// Consume the literal `lit` at position `i`, as `expect` does.
fn expect_lit(s: &Vec<char>, i: usize, lit: &str) -> (r: Option<usize>)
    requires
        i <= s@.len(),
    ensures
        r is Some <==> expect(s@, i as int, lit@) is Some,
        r is Some ==> r->Some_0 == expect(s@, i as int, lit@)->Some_0 && i <= r->Some_0
            <= s@.len(),
    {
    let n = lit.unicode_len();
    let slen = s.len();
    if n > slen - i {
        proof {
            assert(!at_lit(s@, i as int, lit@));
        }
        return None;
    }
    let mut k: usize = 0;
    while k < n
        invariant
            n == lit@.len(),
            slen == s@.len(),
            i + n <= s@.len(),
            0 <= k <= n,
            forall|q: int| 0 <= q < k ==> s@[i + q] == lit@[q],
        decreases n - k,
    {
        if s[i + k] != lit.get_char(k) {
            proof {
                assert(!at_lit(s@, i as int, lit@)) by {
                    if at_lit(s@, i as int, lit@) {
                        assert(s@.subrange(i as int, i + lit@.len())[k as int] == lit@[k as int]);
                        assert(s@[i + k] == lit@[k as int]);
                    }
                }
            }
            return None;
        }
        k += 1;
    }
    proof {
        assert(at_lit(s@, i as int, lit@)) by {
            assert(s@.subrange(i as int, i + lit@.len()) =~= lit@);
        }
    }
    Some(i + n)
}

} // verus!

verus! {

// ---------------------------------------------------------------------
// Facts about the encoding primitives.
// ---------------------------------------------------------------------

/// Encoding one character is escaping it.
pub proof fn lemma_enc_chars_single(c: char)
    ensures
        enc_chars(seq![c]) == esc_char(c),
{
    let s = seq![c];
    assert(s.skip(1) =~= Seq::<char>::empty());
    assert(enc_chars(Seq::<char>::empty()) == Seq::<char>::empty());
    assert(enc_chars(s) == esc_char(c) + enc_chars(s.skip(1)));
    assert(esc_char(c) + Seq::<char>::empty() =~= esc_char(c));
}

/// Character-wise encoding distributes over concatenation.
pub proof fn lemma_enc_chars_app(x: Seq<char>, y: Seq<char>)
    ensures
        enc_chars(x + y) == enc_chars(x) + enc_chars(y),
    decreases x.len(),
{
    if x.len() == 0 {
        assert(x + y =~= y);
        assert(enc_chars(x) =~= Seq::<char>::empty());
        assert(enc_chars(x) + enc_chars(y) =~= enc_chars(y));
    } else {
        lemma_enc_chars_app(x.skip(1), y);
        assert((x + y).skip(1) =~= x.skip(1) + y);
        assert((x + y)[0] == x[0]);
        assert(enc_chars(x + y) =~= esc_char(x[0]) + (enc_chars(x.skip(1)) + enc_chars(y)));
        assert(esc_char(x[0]) + enc_chars(x.skip(1)) + enc_chars(y) =~= esc_char(x[0]) + (enc_chars(
            x.skip(1),
        ) + enc_chars(y)));
    }
}

/// Powers of ten.
pub open spec fn pow10(k: int) -> int
    decreases k,
{
    if k <= 0 {
        1
    } else {
        10 * pow10(k - 1)
    }
}

/// A digit run's value is below ten to its length.
pub proof fn lemma_nat_of_upper(ds: Seq<char>)
    requires
        forall|q: int| 0 <= q < ds.len() ==> is_digit(ds[q]),
    ensures
        0 <= nat_of(ds) < pow10(ds.len() as int),
    decreases ds.len(),
{
    if ds.len() > 0 {
        lemma_nat_of_upper(ds.drop_last());
        assert(digit_val(ds.last()) <= 9);
    }
}

/// A digit run that does not start with zero reaches ten to one less than
/// its length.
pub proof fn lemma_nat_of_lower(ds: Seq<char>)
    requires
        forall|q: int| 0 <= q < ds.len() ==> is_digit(ds[q]),
        ds.len() >= 1,
        digit_val(ds[0]) >= 1,
    ensures
        nat_of(ds) >= pow10(ds.len() - 1),
    decreases ds.len(),
{
    if ds.len() == 1 {
        assert(nat_of(ds) == nat_of(ds.drop_last()) * 10 + digit_val(ds.last()));
        assert(nat_of(ds.drop_last()) == 0);
    } else {
        assert(ds.drop_last()[0] == ds[0]);
        lemma_nat_of_lower(ds.drop_last());
        assert(digit_val(ds.last()) >= 0);
    }
}

/// The decimal encoding of a non-negative integer: all digits, no leading
/// zero unless the value is zero itself, and its value reads back.
pub proof fn lemma_enc_nat_shape(n: int)
    requires
        n >= 0,
    ensures
        enc_nat(n).len() >= 1,
        forall|q: int| 0 <= q < enc_nat(n).len() ==> is_digit(#[trigger] enc_nat(n)[q]),
        nat_of(enc_nat(n)) == n,
        n > 0 ==> digit_val(enc_nat(n)[0]) >= 1,
        n == 0 ==> enc_nat(n) =~= seq!['0'],
    decreases n,
{
    if n < 10 {
        assert(enc_nat(n) =~= seq![digit_char(n)]);
        assert(is_digit(digit_char(n)));
        assert(digit_val(digit_char(n)) == n);
        assert(nat_of(enc_nat(n)) == nat_of(enc_nat(n).drop_last()) * 10 + digit_val(
            enc_nat(n).last(),
        ));
        assert(enc_nat(n).drop_last() =~= Seq::<char>::empty());
    } else {
        lemma_enc_nat_shape(n / 10);
        let x = enc_nat(n / 10);
        let d = digit_char(n % 10);
        assert(enc_nat(n) == x.push(d));
        assert(is_digit(d)) by {
            assert(0 <= n % 10 < 10);
        }
        assert(digit_val(d) == n % 10);
        assert forall|q: int| 0 <= q < enc_nat(n).len() implies is_digit(
            #[trigger] enc_nat(n)[q],
        ) by {
            if q < x.len() {
                assert(enc_nat(n)[q] == x[q]);
            } else {
                assert(enc_nat(n)[q] == d);
            }
        }
        assert(x.push(d).drop_last() =~= x);
        assert(x.push(d).last() == d);
        assert(nat_of(enc_nat(n)) == nat_of(x) * 10 + digit_val(d));
        assert(nat_of(enc_nat(n)) == (n / 10) * 10 + n % 10);
        assert(enc_nat(n)[0] == x[0]);
        assert(n / 10 > 0);
    }
}

// ---------------------------------------------------------------------
// Executable encoders.
// ---------------------------------------------------------------------

/// Append a literal's characters.
fn push_lit(out: &mut Vec<char>, lit: &str)
    ensures
        final(out)@ == old(out)@ + lit@,
{
    let n = lit.unicode_len();
    let mut k: usize = 0;
    while k < n
        invariant
            n == lit@.len(),
            0 <= k <= n,
            out@ == old(out)@ + lit@.subrange(0, k as int),
        decreases n - k,
    {
        out.push(lit.get_char(k));
        proof {
            assert(old(out)@ + lit@.subrange(0, k as int) + seq![lit@[k as int]] =~= old(out)@
                + lit@.subrange(0, k + 1));
        }
        k += 1;
    }
    proof {
        assert(lit@.subrange(0, lit@.len() as int) =~= lit@);
    }
}

/// Append the wire form of a string value: quoted, with `"` and `\`
/// escaped.
fn push_enc_string(out: &mut Vec<char>, t: &str)
    ensures
        final(out)@ == old(out)@ + enc_string(t@),
{
    let n = t.unicode_len();
    out.push('"');
    let mut k: usize = 0;
    while k < n
        invariant
            n == t@.len(),
            0 <= k <= n,
            out@ == old(out)@ + seq!['"'] + enc_chars(t@.subrange(0, k as int)),
        decreases n - k,
    {
        let c = t.get_char(k);
        if c == '"' || c == '\\' {
            out.push('\\');
            out.push(c);
        } else {
            out.push(c);
        }
        proof {
            let pre = t@.subrange(0, k as int);
            lemma_enc_chars_app(pre, seq![t@[k as int]]);
            assert(pre + seq![t@[k as int]] =~= t@.subrange(0, k + 1));
            lemma_enc_chars_single(t@[k as int]);
            if c == '"' || c == '\\' {
                assert(esc_char(t@[k as int]) =~= seq!['\\', t@[k as int]]);
            } else {
                assert(esc_char(t@[k as int]) =~= seq![t@[k as int]]);
            }
            assert(out@ =~= old(out)@ + seq!['"'] + enc_chars(t@.subrange(0, k + 1)));
        }
        k += 1;
    }
    out.push('"');
    proof {
        assert(t@.subrange(0, t@.len() as int) =~= t@);
        assert(out@ =~= old(out)@ + enc_string(t@));
    }
}

/// The digit character for a value below ten.
fn digit_char_of(d: u64) -> (c: char)
    requires
        d < 10,
    ensures
        c == digit_char(d as int),
{
    if d == 0 {
        '0'
    } else if d == 1 {
        '1'
    } else if d == 2 {
        '2'
    } else if d == 3 {
        '3'
    } else if d == 4 {
        '4'
    } else if d == 5 {
        '5'
    } else if d == 6 {
        '6'
    } else if d == 7 {
        '7'
    } else if d == 8 {
        '8'
    } else {
        '9'
    }
}

/// Append the decimal digits of a non-negative value.
fn push_nat(out: &mut Vec<char>, n: u64)
    ensures
        final(out)@ == old(out)@ + enc_nat(n as int),
    decreases n,
{
    if n < 10 {
        out.push(digit_char_of(n));
        proof {
            assert(out@ =~= old(out)@ + enc_nat(n as int));
        }
    } else {
        push_nat(out, n / 10);
        out.push(digit_char_of(n % 10));
        proof {
            assert(out@ =~= old(out)@ + enc_nat(n as int));
        }
    }
}

/// Append the wire form of an integer.
fn push_int(out: &mut Vec<char>, v: i32)
    ensures
        final(out)@ == old(out)@ + enc_int(v as int),
{
    if v < 0 {
        out.push('-');
        let mag: u64 = (-(v as i64)) as u64;
        push_nat(out, mag);
        proof {
            assert(mag as int == -(v as int));
            assert(out@ =~= old(out)@ + enc_int(v as int));
        }
    } else {
        let mag: u64 = v as u64;
        push_nat(out, mag);
    }
}

/// Append `true` or `false`.
fn push_bool(out: &mut Vec<char>, b: bool)
    ensures
        final(out)@ == old(out)@ + enc_bool(b),
{
    if b {
        push_lit(out, "true");
    } else {
        push_lit(out, "false");
    }
}

/// Append the wire form of an optional page number.
fn push_opt_int(out: &mut Vec<char>, p: &Option<i32>)
    ensures
        final(out)@ == old(out)@ + enc_opt_int(*p),
{
    match p {
        Option::None => push_lit(out, "null"),
        Option::Some(v) => push_int(out, *v),
    }
}

} // verus!

verus! {

// ---------------------------------------------------------------------
// Executable decoders, each matching its spec-level parser exactly.
// ---------------------------------------------------------------------

/// Consume the characters of a string value up to its closing quote, as
/// `dec_chars` does.
fn dec_chars_exec(s: &Vec<char>, i: usize) -> (r: Option<(Vec<char>, usize)>)
    requires
        i <= s@.len(),
    ensures
        r is Some <==> dec_chars(s@, i as int) is Some,
        r is Some ==> r->Some_0.0@ == dec_chars(s@, i as int)->Some_0.0 && r->Some_0.1 as int
            == dec_chars(s@, i as int)->Some_0.1 && i < r->Some_0.1 <= s@.len(),
    decreases s@.len() - i,
{
    if i >= s.len() {
        return None;
    }
    let c = s[i];
    if c == '"' {
        Some((Vec::new(), i + 1))
    } else if c == '\\' {
        if i + 1 < s.len() && (s[i + 1] == '"' || s[i + 1] == '\\') {
            let e = s[i + 1];
            match dec_chars_exec(s, i + 2) {
                None => None,
                Some((t, j)) => {
                    let mut t = t;
                    t.insert(0, e);
                    proof {
                        assert(t@ =~= seq![s@[i + 1]] + dec_chars(s@, i + 2)->Some_0.0);
                    }
                    Some((t, j))
                },
            }
        } else {
            None
        }
    } else {
        match dec_chars_exec(s, i + 1) {
            None => None,
            Some((t, j)) => {
                let mut t = t;
                t.insert(0, c);
                proof {
                    assert(t@ =~= seq![s@[i as int]] + dec_chars(s@, i + 1)->Some_0.0);
                }
                Some((t, j))
            },
        }
    }
}

/// Consume a quoted string value, as `dec_string` does.
fn dec_string_exec(s: &Vec<char>, i: usize) -> (r: Option<(String, usize)>)
    requires
        i <= s@.len(),
    ensures
        r is Some <==> dec_string(s@, i as int) is Some,
        r is Some ==> r->Some_0.0@ == dec_string(s@, i as int)->Some_0.0 && r->Some_0.1 as int
            == dec_string(s@, i as int)->Some_0.1 && i < r->Some_0.1 <= s@.len(),
{
    if i < s.len() && s[i] == '"' {
        match dec_chars_exec(s, i + 1) {
            None => None,
            Some((t, j)) => Some((chars_to_string(&t), j)),
        }
    } else {
        None
    }
}

/// Whether `c` is a decimal digit.
fn is_digit_exec(c: char) -> (r: bool)
    ensures
        r == is_digit(c),
{
    let u = c as u32;
    48 <= u && u <= 57
}

/// Consume a decimal integer, as `dec_int` does.
fn dec_int_exec(s: &Vec<char>, i: usize) -> (r: Option<(i32, usize)>)
    requires
        i <= s@.len(),
    ensures
        r is Some <==> dec_int(s@, i as int) is Some,
        r is Some ==> r->Some_0.0 == dec_int(s@, i as int)->Some_0.0 && r->Some_0.1 as int
            == dec_int(s@, i as int)->Some_0.1 && i < r->Some_0.1 <= s@.len(),
{
    let slen = s.len();
    let neg = i < slen && s[i] == '-';
    let start = if neg {
        i + 1
    } else {
        i
    };
    let mut j = start;
    while j < slen && is_digit_exec(s[j])
        invariant
            slen == s@.len(),
            start <= j <= slen,
            digits_end(s@, start as int) == digits_end(s@, j as int),
            forall|q: int| start <= q < j ==> is_digit(s@[q]),
        decreases slen - j,
    {
        j += 1;
    }
    proof {
        assert(digits_end(s@, j as int) == j);
        assert(digits_end(s@, start as int) == j);
    }
    if j == start {
        return None;
    }
    if j > start + 1 && s[start] as u32 == 48 {
        proof {
            assert(is_digit(s@[start as int]));
        }
        return None;
    }
    let ghost ds = s@.subrange(start as int, j as int);
    proof {
        assert forall|q: int| 0 <= q < ds.len() implies is_digit(ds[q]) by {
            assert(ds[q] == s@[start + q]);
        }
    }
    if j - start > 10 {
        proof {
            assert(ds[0] == s@[start as int]);
            assert(is_digit(ds[0]));
            assert(digit_val(ds[0]) >= 1);
            lemma_nat_of_lower(ds);
            assert(pow10(10) == 10000000000) by {
                reveal_with_fuel(pow10, 12);
            }
            lemma_pow10_increases(10, ds.len() - 1);
            assert(nat_of(ds) > i32::MAX);
        }
        return None;
    }
    let mut acc: u64 = 0;
    let mut k = start;
    while k < j
        invariant
            slen == s@.len(),
            start <= k <= j <= slen,
            j - start <= 10,
            forall|q: int| start <= q < j ==> is_digit(s@[q]),
            acc as int == nat_of(s@.subrange(start as int, k as int)),
            acc < 10000000000,
        decreases j - k,
    {
        proof {
            assert(is_digit(s@[k as int]));
        }
        let u = s[k] as u32;
        let d: u64 = (u - 48) as u64;
        proof {
            let pre = s@.subrange(start as int, k as int);
            let cur = s@.subrange(start as int, k + 1);
            assert(cur.drop_last() =~= pre);
            assert(cur.last() == s@[k as int]);
            assert(is_digit(s@[k as int]));
            assert forall|q: int| 0 <= q < cur.len() implies is_digit(cur[q]) by {
                assert(cur[q] == s@[start + q]);
            }
            lemma_nat_of_upper(cur);
            assert(cur.len() <= 10);
            assert(pow10(cur.len() as int) <= pow10(10)) by {
                lemma_pow10_increases(cur.len() as int, 10);
            }
            assert(pow10(10) == 10000000000) by {
                reveal_with_fuel(pow10, 12);
            }
        }
        acc = acc * 10 + d;
        k += 1;
    }
    proof {
        assert(s@.subrange(start as int, j as int) =~= ds);
        assert(acc as int == nat_of(ds));
    }
    if neg {
        if acc <= 2147483648 {
            let v: i64 = -(acc as i64);
            return Some((v as i32, j));
        } else {
            return None;
        }
    } else {
        if acc <= 2147483647 {
            return Some((acc as i32, j));
        } else {
            return None;
        }
    }
}

/// Powers of ten are positive.
pub proof fn lemma_pow10_pos(a: int)
    requires
        0 <= a,
    ensures
        pow10(a) >= 1,
    decreases a,
{
    if a > 0 {
        lemma_pow10_pos(a - 1);
    }
}

/// Ten to a higher power is no smaller.
pub proof fn lemma_pow10_increases(a: int, b: int)
    requires
        0 <= a <= b,
    ensures
        1 <= pow10(a) <= pow10(b),
    decreases b - a,
{
    lemma_pow10_pos(a);
    if a < b {
        lemma_pow10_increases(a, b - 1);
    }
}

/// Consume `true` or `false`, as `dec_bool` does.
fn dec_bool_exec(s: &Vec<char>, i: usize) -> (r: Option<(bool, usize)>)
    requires
        i <= s@.len(),
    ensures
        r is Some <==> dec_bool(s@, i as int) is Some,
        r is Some ==> r->Some_0.0 == dec_bool(s@, i as int)->Some_0.0 && r->Some_0.1 as int
            == dec_bool(s@, i as int)->Some_0.1 && i < r->Some_0.1 <= s@.len(),
{
    match expect_lit(s, i, "true") {
        Some(j) => {
            proof {
                reveal_strlit("true");
            }
            Some((true, j))
        },
        None => match expect_lit(s, i, "false") {
            Some(j) => {
                proof {
                    reveal_strlit("false");
                }
                Some((false, j))
            },
            None => None,
        },
    }
}

/// Consume `null` or a decimal integer, as `dec_opt_int` does.
fn dec_opt_int_exec(s: &Vec<char>, i: usize) -> (r: Option<(Option<i32>, usize)>)
    requires
        i <= s@.len(),
    ensures
        r is Some <==> dec_opt_int(s@, i as int) is Some,
        r is Some ==> r->Some_0.0 == dec_opt_int(s@, i as int)->Some_0.0 && r->Some_0.1 as int
            == dec_opt_int(s@, i as int)->Some_0.1 && i < r->Some_0.1 <= s@.len(),
{
    match expect_lit(s, i, "null") {
        Some(j) => {
            proof {
                reveal_strlit("null");
            }
            Some((None, j))
        },
        None => match dec_int_exec(s, i) {
            None => None,
            Some((v, j)) => Some((Some(v), j)),
        },
    }
}

} // verus!

verus! {

// ---------------------------------------------------------------------
// Spec-level encoding and decoding of the composite forms.
// ---------------------------------------------------------------------

/// The wire form of a reader object, as nested under `TrackComic`.
pub open spec fn enc_track_reader_obj(r: crate::messages::TrackReaderV) -> Seq<char> {
    "{\"comic_label\":"@ + enc_string(r.comic_label) + ",\"name\":"@ + enc_string(r.name)
        + ",\"has_update\":"@ + enc_bool(r.has_update) + "}"@
}

/// The wire form of a reader object, as listed under `UpdateComic`.
pub open spec fn enc_update_reader_obj(r: crate::messages::UpdateReaderV) -> Seq<char> {
    "{\"comic_label\":"@ + enc_string(r.comic_label) + ",\"name\":"@ + enc_string(r.name)
        + ",\"has_update\":"@ + enc_bool(r.has_update) + "}"@
}

/// Reader objects joined by commas.
pub open spec fn enc_reader_list(rs: Seq<crate::messages::UpdateReaderV>) -> Seq<char>
    decreases rs.len(),
{
    if rs.len() == 0 {
        Seq::<char>::empty()
    } else if rs.len() == 1 {
        enc_update_reader_obj(rs[0])
    } else {
        enc_update_reader_obj(rs[0]) + seq![','] + enc_reader_list(rs.skip(1))
    }
}

/// The canonical wire text of one envelope: the tag, then the variant's
/// fields, in fixed order.
pub open spec fn enc_payload(p: crate::messages::PayloadV) -> Seq<char> {
    match p {
        crate::messages::PayloadV::TrackReader(r) => "{\"tag\":\"TrackReader\",\"comic_label\":"@
            + enc_string(r.comic_label) + ",\"name\":"@ + enc_string(r.name)
            + ",\"has_update\":"@ + enc_bool(r.has_update) + "}"@,
        crate::messages::PayloadV::UpdateReader(r) => "{\"tag\":\"UpdateReader\",\"comic_label\":"@
            + enc_string(r.comic_label) + ",\"name\":"@ + enc_string(r.name)
            + ",\"has_update\":"@ + enc_bool(r.has_update) + "}"@,
        crate::messages::PayloadV::UntrackReader(r) => "{\"tag\":\"UntrackReader\",\"comic_label\":"@
            + enc_string(r.comic_label) + ",\"name\":"@ + enc_string(r.name) + "}"@,
        crate::messages::PayloadV::TrackComic(c) => "{\"tag\":\"TrackComic\",\"label\":"@
            + enc_string(c.label) + ",\"chapter\":"@ + enc_int(c.chapter as int) + ",\"page\":"@
            + enc_opt_int(c.page) + ",\"source\":"@ + enc_track_reader_obj(c.source) + "}"@,
        crate::messages::PayloadV::UpdateComic(c) => "{\"tag\":\"UpdateComic\",\"label\":"@
            + enc_string(c.label) + ",\"chapter\":"@ + enc_int(c.chapter as int) + ",\"page\":"@
            + enc_opt_int(c.page) + ",\"readers\":["@ + enc_reader_list(c.readers) + "]}"@,
        crate::messages::PayloadV::UntrackComic(c) => "{\"tag\":\"UntrackComic\",\"label\":"@
            + enc_string(c.label) + "}"@,
        crate::messages::PayloadV::ListComics => "{\"tag\":\"ListComics\"}"@,
    }
}

/// The wire form of one comic source in a listing reply.
pub open spec fn enc_source_obj(s: crate::messages::ComicSourceV) -> Seq<char> {
    "{\"name\":"@ + enc_string(s.name) + "}"@
}

/// Comic sources joined by commas.
pub open spec fn enc_source_list(ss: Seq<crate::messages::ComicSourceV>) -> Seq<char>
    decreases ss.len(),
{
    if ss.len() == 0 {
        Seq::<char>::empty()
    } else if ss.len() == 1 {
        enc_source_obj(ss[0])
    } else {
        enc_source_obj(ss[0]) + seq![','] + enc_source_list(ss.skip(1))
    }
}

/// The wire form of one listing entry: a comic and its sources.
pub open spec fn enc_entry_obj(e: crate::messages::ComicEntryV) -> Seq<char> {
    "{\"comic\":{\"label\":"@ + enc_string(e.comic.label) + "},\"sources\":["@ + enc_source_list(
        e.sources,
    ) + "]}"@
}

/// Listing entries joined by commas.
pub open spec fn enc_entry_list(es: Seq<crate::messages::ComicEntryV>) -> Seq<char>
    decreases es.len(),
{
    if es.len() == 0 {
        Seq::<char>::empty()
    } else if es.len() == 1 {
        enc_entry_obj(es[0])
    } else {
        enc_entry_obj(es[0]) + seq![','] + enc_entry_list(es.skip(1))
    }
}

/// The wire text of the reply to `ListComics`.
pub open spec fn enc_listing(l: crate::messages::ComicListingV) -> Seq<char> {
    "{\"comics\":["@ + enc_entry_list(l.comics) + "]}"@
}

/// Consume a reader object nested under `TrackComic`.
pub open spec fn dec_track_reader_obj(s: Seq<char>, i: int) -> Option<
    (crate::messages::TrackReaderV, int),
> {
    match expect(s, i, "{\"comic_label\":"@) {
        Option::None => Option::None,
        Option::Some(j1) => match dec_string(s, j1) {
            Option::None => Option::None,
            Option::Some((cl, j2)) => match expect(s, j2, ",\"name\":"@) {
                Option::None => Option::None,
                Option::Some(j3) => match dec_string(s, j3) {
                    Option::None => Option::None,
                    Option::Some((nm, j4)) => match expect(s, j4, ",\"has_update\":"@) {
                        Option::None => Option::None,
                        Option::Some(j5) => match dec_bool(s, j5) {
                            Option::None => Option::None,
                            Option::Some((hu, j6)) => match expect(s, j6, "}"@) {
                                Option::None => Option::None,
                                Option::Some(j7) => Option::Some(
                                    (
                                        crate::messages::TrackReaderV {
                                            comic_label: cl,
                                            name: nm,
                                            has_update: hu,
                                        },
                                        j7,
                                    ),
                                ),
                            },
                        },
                    },
                },
            },
        },
    }
}

/// Consume a reader object listed under `UpdateComic`.
pub open spec fn dec_update_reader_obj(s: Seq<char>, i: int) -> Option<
    (crate::messages::UpdateReaderV, int),
> {
    match dec_track_reader_obj(s, i) {
        Option::None => Option::None,
        Option::Some((r, j)) => Option::Some(
            (
                crate::messages::UpdateReaderV {
                    comic_label: r.comic_label,
                    name: r.name,
                    has_update: r.has_update,
                },
                j,
            ),
        ),
    }
}

/// Consume the elements of a non-empty reader list, up to and including
/// the closing bracket.
pub open spec fn dec_reader_items(s: Seq<char>, i: int) -> Option<
    (Seq<crate::messages::UpdateReaderV>, int),
>
    decreases s.len() - i,
{
    if i < 0 || i >= s.len() {
        Option::None
    } else {
        match dec_update_reader_obj(s, i) {
            Option::None => Option::None,
            Option::Some((r, j)) => if j <= i || j >= s.len() {
                Option::None
            } else if s[j] == ',' {
                match dec_reader_items(s, j + 1) {
                    Option::None => Option::None,
                    Option::Some((rs, j2)) => Option::Some((seq![r] + rs, j2)),
                }
            } else if s[j] == ']' {
                Option::Some((seq![r], j + 1))
            } else {
                Option::None
            },
        }
    }
}

/// Consume a bracketed reader list.
pub open spec fn dec_reader_list(s: Seq<char>, i: int) -> Option<
    (Seq<crate::messages::UpdateReaderV>, int),
> {
    match expect(s, i, "["@) {
        Option::None => Option::None,
        Option::Some(j) => if at_lit(s, j, "]"@) {
            Option::Some((Seq::<crate::messages::UpdateReaderV>::empty(), j + 1))
        } else {
            dec_reader_items(s, j)
        },
    }
}

} // verus!

verus! {

/// Consume one whole envelope object at position `i`, dispatching on the
/// tag.
pub open spec fn dec_payload_at(s: Seq<char>, i: int) -> Option<(crate::messages::PayloadV, int)> {
    if at_lit(s, i, "{\"tag\":\"TrackReader\",\"comic_label\":"@) {
        let j1 = i + "{\"tag\":\"TrackReader\",\"comic_label\":"@.len();
        match dec_string(s, j1) {
            Option::None => Option::None,
            Option::Some((cl, j2)) => match expect(s, j2, ",\"name\":"@) {
                Option::None => Option::None,
                Option::Some(j3) => match dec_string(s, j3) {
                    Option::None => Option::None,
                    Option::Some((nm, j4)) => match expect(s, j4, ",\"has_update\":"@) {
                        Option::None => Option::None,
                        Option::Some(j5) => match dec_bool(s, j5) {
                            Option::None => Option::None,
                            Option::Some((hu, j6)) => match expect(s, j6, "}"@) {
                                Option::None => Option::None,
                                Option::Some(j7) => Option::Some(
                                    (
                                        crate::messages::PayloadV::TrackReader(
                                            crate::messages::TrackReaderV {
                                                comic_label: cl,
                                                name: nm,
                                                has_update: hu,
                                            },
                                        ),
                                        j7,
                                    ),
                                ),
                            },
                        },
                    },
                },
            },
        }
    } else if at_lit(s, i, "{\"tag\":\"UpdateReader\",\"comic_label\":"@) {
        let j1 = i + "{\"tag\":\"UpdateReader\",\"comic_label\":"@.len();
        match dec_string(s, j1) {
            Option::None => Option::None,
            Option::Some((cl, j2)) => match expect(s, j2, ",\"name\":"@) {
                Option::None => Option::None,
                Option::Some(j3) => match dec_string(s, j3) {
                    Option::None => Option::None,
                    Option::Some((nm, j4)) => match expect(s, j4, ",\"has_update\":"@) {
                        Option::None => Option::None,
                        Option::Some(j5) => match dec_bool(s, j5) {
                            Option::None => Option::None,
                            Option::Some((hu, j6)) => match expect(s, j6, "}"@) {
                                Option::None => Option::None,
                                Option::Some(j7) => Option::Some(
                                    (
                                        crate::messages::PayloadV::UpdateReader(
                                            crate::messages::UpdateReaderV {
                                                comic_label: cl,
                                                name: nm,
                                                has_update: hu,
                                            },
                                        ),
                                        j7,
                                    ),
                                ),
                            },
                        },
                    },
                },
            },
        }
    } else if at_lit(s, i, "{\"tag\":\"UntrackReader\",\"comic_label\":"@) {
        let j1 = i + "{\"tag\":\"UntrackReader\",\"comic_label\":"@.len();
        match dec_string(s, j1) {
            Option::None => Option::None,
            Option::Some((cl, j2)) => match expect(s, j2, ",\"name\":"@) {
                Option::None => Option::None,
                Option::Some(j3) => match dec_string(s, j3) {
                    Option::None => Option::None,
                    Option::Some((nm, j4)) => match expect(s, j4, "}"@) {
                        Option::None => Option::None,
                        Option::Some(j5) => Option::Some(
                            (
                                crate::messages::PayloadV::UntrackReader(
                                    crate::messages::UntrackReaderV { comic_label: cl, name: nm },
                                ),
                                j5,
                            ),
                        ),
                    },
                },
            },
        }
    } else if at_lit(s, i, "{\"tag\":\"TrackComic\",\"label\":"@) {
        let j1 = i + "{\"tag\":\"TrackComic\",\"label\":"@.len();
        match dec_string(s, j1) {
            Option::None => Option::None,
            Option::Some((lb, j2)) => match expect(s, j2, ",\"chapter\":"@) {
                Option::None => Option::None,
                Option::Some(j3) => match dec_int(s, j3) {
                    Option::None => Option::None,
                    Option::Some((ch, j4)) => match expect(s, j4, ",\"page\":"@) {
                        Option::None => Option::None,
                        Option::Some(j5) => match dec_opt_int(s, j5) {
                            Option::None => Option::None,
                            Option::Some((pg, j6)) => match expect(s, j6, ",\"source\":"@) {
                                Option::None => Option::None,
                                Option::Some(j7) => match dec_track_reader_obj(s, j7) {
                                    Option::None => Option::None,
                                    Option::Some((src, j8)) => match expect(s, j8, "}"@) {
                                        Option::None => Option::None,
                                        Option::Some(j9) => Option::Some(
                                            (
                                                crate::messages::PayloadV::TrackComic(
                                                    crate::messages::TrackComicV {
                                                        label: lb,
                                                        chapter: ch,
                                                        page: pg,
                                                        source: src,
                                                    },
                                                ),
                                                j9,
                                            ),
                                        ),
                                    },
                                },
                            },
                        },
                    },
                },
            },
        }
    } else if at_lit(s, i, "{\"tag\":\"UpdateComic\",\"label\":"@) {
        let j1 = i + "{\"tag\":\"UpdateComic\",\"label\":"@.len();
        match dec_string(s, j1) {
            Option::None => Option::None,
            Option::Some((lb, j2)) => match expect(s, j2, ",\"chapter\":"@) {
                Option::None => Option::None,
                Option::Some(j3) => match dec_int(s, j3) {
                    Option::None => Option::None,
                    Option::Some((ch, j4)) => match expect(s, j4, ",\"page\":"@) {
                        Option::None => Option::None,
                        Option::Some(j5) => match dec_opt_int(s, j5) {
                            Option::None => Option::None,
                            Option::Some((pg, j6)) => match expect(s, j6, ",\"readers\":"@) {
                                Option::None => Option::None,
                                Option::Some(j7) => match dec_reader_list(s, j7) {
                                    Option::None => Option::None,
                                    Option::Some((rs, j8)) => match expect(s, j8, "}"@) {
                                        Option::None => Option::None,
                                        Option::Some(j9) => Option::Some(
                                            (
                                                crate::messages::PayloadV::UpdateComic(
                                                    crate::messages::UpdateComicV {
                                                        label: lb,
                                                        chapter: ch,
                                                        page: pg,
                                                        readers: rs,
                                                    },
                                                ),
                                                j9,
                                            ),
                                        ),
                                    },
                                },
                            },
                        },
                    },
                },
            },
        }
    } else if at_lit(s, i, "{\"tag\":\"UntrackComic\",\"label\":"@) {
        let j1 = i + "{\"tag\":\"UntrackComic\",\"label\":"@.len();
        match dec_string(s, j1) {
            Option::None => Option::None,
            Option::Some((lb, j2)) => match expect(s, j2, "}"@) {
                Option::None => Option::None,
                Option::Some(j3) => Option::Some(
                    (
                        crate::messages::PayloadV::UntrackComic(
                            crate::messages::UntrackComicV { label: lb },
                        ),
                        j3,
                    ),
                ),
            },
        }
    } else if at_lit(s, i, "{\"tag\":\"ListComics\"}"@) {
        Option::Some(
            (crate::messages::PayloadV::ListComics, i + "{\"tag\":\"ListComics\"}"@.len()),
        )
    } else {
        Option::None
    }
}

/// The meaning of a whole wire frame: one envelope, spanning the frame
/// exactly, or nothing.
pub open spec fn dec_payload(s: Seq<char>) -> Option<crate::messages::PayloadV> {
    match dec_payload_at(s, 0) {
        Option::None => Option::None,
        Option::Some((p, j)) => if j == s.len() {
            Option::Some(p)
        } else {
            Option::None
        },
    }
}

} // verus!

verus! {

/// Consume a reader object, as `dec_track_reader_obj` does.
fn dec_track_reader_obj_exec(s: &Vec<char>, i: usize) -> (r: Option<
    (crate::messages::TrackReader, usize),
>)
    requires
        i <= s@.len(),
    ensures
        r is Some <==> dec_track_reader_obj(s@, i as int) is Some,
        r is Some ==> r->Some_0.0@ == dec_track_reader_obj(s@, i as int)->Some_0.0
            && r->Some_0.1 as int == dec_track_reader_obj(s@, i as int)->Some_0.1 && i
            < r->Some_0.1 <= s@.len(),
{
    let j1 = match expect_lit(s, i, "{\"comic_label\":") {
        None => {
            return None;
        },
        Some(j) => j,
    };
    let (cl, j2) = match dec_string_exec(s, j1) {
        None => {
            return None;
        },
        Some(x) => x,
    };
    let j3 = match expect_lit(s, j2, ",\"name\":") {
        None => {
            return None;
        },
        Some(j) => j,
    };
    let (nm, j4) = match dec_string_exec(s, j3) {
        None => {
            return None;
        },
        Some(x) => x,
    };
    let j5 = match expect_lit(s, j4, ",\"has_update\":") {
        None => {
            return None;
        },
        Some(j) => j,
    };
    let (hu, j6) = match dec_bool_exec(s, j5) {
        None => {
            return None;
        },
        Some(x) => x,
    };
    let j7 = match expect_lit(s, j6, "}") {
        None => {
            return None;
        },
        Some(j) => j,
    };
    Some((crate::messages::TrackReader { comic_label: cl, name: nm, has_update: hu }, j7))
}

/// Consume the elements of a non-empty reader list, as `dec_reader_items`
/// does.
fn dec_reader_items_exec(s: &Vec<char>, i: usize) -> (r: Option<
    (Vec<crate::messages::UpdateReader>, usize),
>)
    requires
        i <= s@.len(),
    ensures
        r is Some <==> dec_reader_items(s@, i as int) is Some,
        r is Some ==> r->Some_0.0@.map_values(|u: crate::messages::UpdateReader| u@)
            == dec_reader_items(s@, i as int)->Some_0.0 && r->Some_0.1 as int == dec_reader_items(
            s@,
            i as int,
        )->Some_0.1 && i < r->Some_0.1 <= s@.len(),
    decreases s@.len() - i,
{
    if i >= s.len() {
        return None;
    }
    let (tr, j) = match dec_track_reader_obj_exec(s, i) {
        None => {
            return None;
        },
        Some(x) => x,
    };
    let u = crate::messages::UpdateReader {
        comic_label: tr.comic_label,
        name: tr.name,
        has_update: tr.has_update,
    };
    if j >= s.len() {
        return None;
    }
    if s[j] == ',' {
        let (rest, j2) = match dec_reader_items_exec(s, j + 1) {
            None => {
                return None;
            },
            Some(x) => x,
        };
        let mut out: Vec<crate::messages::UpdateReader> = Vec::new();
        out.push(u);
        let mut rest = rest;
        let ghost gu = u@;
        let ghost grest = rest@;
        out.append(&mut rest);
        proof {
            let f = |x: crate::messages::UpdateReader| x@;
            assert(out@ =~= seq![u] + grest);
            assert(out@.map_values(f) =~= seq![gu] + grest.map_values(f));
        }
        Some((out, j2))
    } else if s[j] == ']' {
        let mut out: Vec<crate::messages::UpdateReader> = Vec::new();
        let ghost gu = u@;
        out.push(u);
        proof {
            let f = |x: crate::messages::UpdateReader| x@;
            assert(out@.map_values(f) =~= seq![gu]);
        }
        Some((out, j + 1))
    } else {
        None
    }
}

/// Consume a bracketed reader list, as `dec_reader_list` does.
fn dec_reader_list_exec(s: &Vec<char>, i: usize) -> (r: Option<
    (Vec<crate::messages::UpdateReader>, usize),
>)
    requires
        i <= s@.len(),
    ensures
        r is Some <==> dec_reader_list(s@, i as int) is Some,
        r is Some ==> r->Some_0.0@.map_values(|u: crate::messages::UpdateReader| u@)
            == dec_reader_list(s@, i as int)->Some_0.0 && r->Some_0.1 as int == dec_reader_list(
            s@,
            i as int,
        )->Some_0.1 && i < r->Some_0.1 <= s@.len(),
{
    let j = match expect_lit(s, i, "[") {
        None => {
            return None;
        },
        Some(j) => j,
    };
    match expect_lit(s, j, "]") {
        Some(j2) => {
            let out: Vec<crate::messages::UpdateReader> = Vec::new();
            proof {
                reveal_strlit("]");
                assert(at_lit(s@, j as int, "]"@));
                assert(j2 == j + 1);
                assert(out@.map_values(|u: crate::messages::UpdateReader| u@) =~= Seq::<
                    crate::messages::UpdateReaderV,
                >::empty());
            }
            Some((out, j2))
        },
        None => {
            proof {
                reveal_strlit("]");
                assert(!at_lit(s@, j as int, "]"@));
            }
            dec_reader_items_exec(s, j)
        },
    }
}

} // verus!

verus! {

/// Consume one whole envelope object, as `dec_payload_at` does.
fn dec_payload_at_exec(s: &Vec<char>, i: usize) -> (r: Option<
    (crate::messages::MessagePayload, usize),
>)
    requires
        i <= s@.len(),
    ensures
        r is Some <==> dec_payload_at(s@, i as int) is Some,
        r is Some ==> r->Some_0.0@ == dec_payload_at(s@, i as int)->Some_0.0 && r->Some_0.1 as int
            == dec_payload_at(s@, i as int)->Some_0.1 && r->Some_0.1 <= s@.len(),
{
    if let Some(j1) = expect_lit(s, i, "{\"tag\":\"TrackReader\",\"comic_label\":") {
        let (cl, j2) = match dec_string_exec(s, j1) {
            None => {
                return None;
            },
            Some(x) => x,
        };
        let j3 = match expect_lit(s, j2, ",\"name\":") {
            None => {
                return None;
            },
            Some(j) => j,
        };
        let (nm, j4) = match dec_string_exec(s, j3) {
            None => {
                return None;
            },
            Some(x) => x,
        };
        let j5 = match expect_lit(s, j4, ",\"has_update\":") {
            None => {
                return None;
            },
            Some(j) => j,
        };
        let (hu, j6) = match dec_bool_exec(s, j5) {
            None => {
                return None;
            },
            Some(x) => x,
        };
        let j7 = match expect_lit(s, j6, "}") {
            None => {
                return None;
            },
            Some(j) => j,
        };
        Some(
            (
                crate::messages::MessagePayload::TrackReader(
                    crate::messages::TrackReader { comic_label: cl, name: nm, has_update: hu },
                ),
                j7,
            ),
        )
    } else if let Some(j1) = expect_lit(s, i, "{\"tag\":\"UpdateReader\",\"comic_label\":") {
        let (cl, j2) = match dec_string_exec(s, j1) {
            None => {
                return None;
            },
            Some(x) => x,
        };
        let j3 = match expect_lit(s, j2, ",\"name\":") {
            None => {
                return None;
            },
            Some(j) => j,
        };
        let (nm, j4) = match dec_string_exec(s, j3) {
            None => {
                return None;
            },
            Some(x) => x,
        };
        let j5 = match expect_lit(s, j4, ",\"has_update\":") {
            None => {
                return None;
            },
            Some(j) => j,
        };
        let (hu, j6) = match dec_bool_exec(s, j5) {
            None => {
                return None;
            },
            Some(x) => x,
        };
        let j7 = match expect_lit(s, j6, "}") {
            None => {
                return None;
            },
            Some(j) => j,
        };
        Some(
            (
                crate::messages::MessagePayload::UpdateReader(
                    crate::messages::UpdateReader { comic_label: cl, name: nm, has_update: hu },
                ),
                j7,
            ),
        )
    } else if let Some(j1) = expect_lit(s, i, "{\"tag\":\"UntrackReader\",\"comic_label\":") {
        let (cl, j2) = match dec_string_exec(s, j1) {
            None => {
                return None;
            },
            Some(x) => x,
        };
        let j3 = match expect_lit(s, j2, ",\"name\":") {
            None => {
                return None;
            },
            Some(j) => j,
        };
        let (nm, j4) = match dec_string_exec(s, j3) {
            None => {
                return None;
            },
            Some(x) => x,
        };
        let j5 = match expect_lit(s, j4, "}") {
            None => {
                return None;
            },
            Some(j) => j,
        };
        Some(
            (
                crate::messages::MessagePayload::UntrackReader(
                    crate::messages::UntrackReader { comic_label: cl, name: nm },
                ),
                j5,
            ),
        )
    } else if let Some(j1) = expect_lit(s, i, "{\"tag\":\"TrackComic\",\"label\":") {
        let (lb, j2) = match dec_string_exec(s, j1) {
            None => {
                return None;
            },
            Some(x) => x,
        };
        let j3 = match expect_lit(s, j2, ",\"chapter\":") {
            None => {
                return None;
            },
            Some(j) => j,
        };
        let (ch, j4) = match dec_int_exec(s, j3) {
            None => {
                return None;
            },
            Some(x) => x,
        };
        let j5 = match expect_lit(s, j4, ",\"page\":") {
            None => {
                return None;
            },
            Some(j) => j,
        };
        let (pg, j6) = match dec_opt_int_exec(s, j5) {
            None => {
                return None;
            },
            Some(x) => x,
        };
        let j7 = match expect_lit(s, j6, ",\"source\":") {
            None => {
                return None;
            },
            Some(j) => j,
        };
        let (src, j8) = match dec_track_reader_obj_exec(s, j7) {
            None => {
                return None;
            },
            Some(x) => x,
        };
        let j9 = match expect_lit(s, j8, "}") {
            None => {
                return None;
            },
            Some(j) => j,
        };
        Some(
            (
                crate::messages::MessagePayload::TrackComic(
                    crate::messages::TrackComic { label: lb, chapter: ch, page: pg, source: src },
                ),
                j9,
            ),
        )
    } else if let Some(j1) = expect_lit(s, i, "{\"tag\":\"UpdateComic\",\"label\":") {
        let (lb, j2) = match dec_string_exec(s, j1) {
            None => {
                return None;
            },
            Some(x) => x,
        };
        let j3 = match expect_lit(s, j2, ",\"chapter\":") {
            None => {
                return None;
            },
            Some(j) => j,
        };
        let (ch, j4) = match dec_int_exec(s, j3) {
            None => {
                return None;
            },
            Some(x) => x,
        };
        let j5 = match expect_lit(s, j4, ",\"page\":") {
            None => {
                return None;
            },
            Some(j) => j,
        };
        let (pg, j6) = match dec_opt_int_exec(s, j5) {
            None => {
                return None;
            },
            Some(x) => x,
        };
        let j7 = match expect_lit(s, j6, ",\"readers\":") {
            None => {
                return None;
            },
            Some(j) => j,
        };
        let (rs, j8) = match dec_reader_list_exec(s, j7) {
            None => {
                return None;
            },
            Some(x) => x,
        };
        let j9 = match expect_lit(s, j8, "}") {
            None => {
                return None;
            },
            Some(j) => j,
        };
        Some(
            (
                crate::messages::MessagePayload::UpdateComic(
                    crate::messages::UpdateComic { label: lb, chapter: ch, page: pg, readers: rs },
                ),
                j9,
            ),
        )
    } else if let Some(j1) = expect_lit(s, i, "{\"tag\":\"UntrackComic\",\"label\":") {
        let (lb, j2) = match dec_string_exec(s, j1) {
            None => {
                return None;
            },
            Some(x) => x,
        };
        let j3 = match expect_lit(s, j2, "}") {
            None => {
                return None;
            },
            Some(j) => j,
        };
        Some(
            (
                crate::messages::MessagePayload::UntrackComic(
                    crate::messages::UntrackComic { label: lb },
                ),
                j3,
            ),
        )
    } else if let Some(j1) = expect_lit(s, i, "{\"tag\":\"ListComics\"}") {
        Some((crate::messages::MessagePayload::ListComics(crate::messages::ListComics {}), j1))
    } else {
        None
    }
}

/// Decode one wire frame into an envelope payload, or refuse it as
/// malformed. The result is exactly what the spec-level parser
/// `dec_payload` assigns to the frame's text.
pub fn decode_payload(s: &str) -> (r: Option<crate::messages::MessagePayload>)
    ensures
        r is Some <==> dec_payload(s@) is Some,
        r is Some ==> r->Some_0@ == dec_payload(s@)->Some_0,
{
    let cs = str_to_chars(s);
    match dec_payload_at_exec(&cs, 0) {
        None => None,
        Some((p, j)) => {
            if j == cs.len() {
                Some(p)
            } else {
                None
            }
        },
    }
}

} // verus!

verus! {

/// Append the wire form of a reader object.
fn push_track_reader_obj(out: &mut Vec<char>, r: &crate::messages::TrackReader)
    ensures
        final(out)@ == old(out)@ + enc_track_reader_obj(r@),
{
    push_lit(out, "{\"comic_label\":");
    push_enc_string(out, r.comic_label.as_str());
    push_lit(out, ",\"name\":");
    push_enc_string(out, r.name.as_str());
    push_lit(out, ",\"has_update\":");
    push_bool(out, r.has_update);
    push_lit(out, "}");
    proof {
        assert(out@ =~= old(out)@ + enc_track_reader_obj(r@));
    }
}

/// Append the wire form of a reader object from an `UpdateComic` list.
fn push_update_reader_obj(out: &mut Vec<char>, r: &crate::messages::UpdateReader)
    ensures
        final(out)@ == old(out)@ + enc_update_reader_obj(r@),
{
    push_lit(out, "{\"comic_label\":");
    push_enc_string(out, r.comic_label.as_str());
    push_lit(out, ",\"name\":");
    push_enc_string(out, r.name.as_str());
    push_lit(out, ",\"has_update\":");
    push_bool(out, r.has_update);
    push_lit(out, "}");
    proof {
        assert(out@ =~= old(out)@ + enc_update_reader_obj(r@));
    }
}

/// Append the readers from index `i` on, joined by commas.
fn push_reader_list(out: &mut Vec<char>, rs: &Vec<crate::messages::UpdateReader>, i: usize)
    requires
        i <= rs@.len(),
    ensures
        final(out)@ == old(out)@ + enc_reader_list(
            rs@.map_values(|u: crate::messages::UpdateReader| u@).skip(i as int),
        ),
    decreases rs@.len() - i,
{
    let ghost f = |u: crate::messages::UpdateReader| u@;
    let ghost vs = rs@.map_values(f);
    if i >= rs.len() {
        proof {
            assert(vs.skip(i as int).len() == 0);
            assert(out@ =~= old(out)@ + enc_reader_list(vs.skip(i as int)));
        }
    } else if i == rs.len() - 1 {
        push_update_reader_obj(out, &rs[i]);
        proof {
            assert(vs.skip(i as int).len() == 1);
            assert(vs.skip(i as int)[0] == rs@[i as int]@);
            assert(out@ =~= old(out)@ + enc_reader_list(vs.skip(i as int)));
        }
    } else {
        push_update_reader_obj(out, &rs[i]);
        out.push(',');
        push_reader_list(out, rs, i + 1);
        proof {
            assert(vs.skip(i as int).len() >= 2);
            assert(vs.skip(i as int)[0] == rs@[i as int]@);
            assert(vs.skip(i as int).skip(1) =~= vs.skip(i + 1));
            assert(enc_reader_list(vs.skip(i as int)) == enc_update_reader_obj(rs@[i as int]@)
                + seq![','] + enc_reader_list(vs.skip(i + 1)));
            assert(out@ =~= old(out)@ + enc_reader_list(vs.skip(i as int)));
        }
    }
}

/// Produce the canonical wire text of one envelope payload: exactly
/// `enc_payload` of its value.
pub fn encode_payload(p: &crate::messages::MessagePayload) -> (r: String)
    ensures
        r@ == enc_payload(p@),
{
    let mut out: Vec<char> = Vec::new();
    match p {
        crate::messages::MessagePayload::TrackReader(m) => {
            push_lit(&mut out, "{\"tag\":\"TrackReader\",\"comic_label\":");
            push_enc_string(&mut out, m.comic_label.as_str());
            push_lit(&mut out, ",\"name\":");
            push_enc_string(&mut out, m.name.as_str());
            push_lit(&mut out, ",\"has_update\":");
            push_bool(&mut out, m.has_update);
            push_lit(&mut out, "}");
            proof {
                assert(out@ =~= enc_payload(p@));
            }
        },
        crate::messages::MessagePayload::UpdateReader(m) => {
            push_lit(&mut out, "{\"tag\":\"UpdateReader\",\"comic_label\":");
            push_enc_string(&mut out, m.comic_label.as_str());
            push_lit(&mut out, ",\"name\":");
            push_enc_string(&mut out, m.name.as_str());
            push_lit(&mut out, ",\"has_update\":");
            push_bool(&mut out, m.has_update);
            push_lit(&mut out, "}");
            proof {
                assert(out@ =~= enc_payload(p@));
            }
        },
        crate::messages::MessagePayload::UntrackReader(m) => {
            push_lit(&mut out, "{\"tag\":\"UntrackReader\",\"comic_label\":");
            push_enc_string(&mut out, m.comic_label.as_str());
            push_lit(&mut out, ",\"name\":");
            push_enc_string(&mut out, m.name.as_str());
            push_lit(&mut out, "}");
            proof {
                assert(out@ =~= enc_payload(p@));
            }
        },
        crate::messages::MessagePayload::TrackComic(m) => {
            push_lit(&mut out, "{\"tag\":\"TrackComic\",\"label\":");
            push_enc_string(&mut out, m.label.as_str());
            push_lit(&mut out, ",\"chapter\":");
            push_int(&mut out, m.chapter);
            push_lit(&mut out, ",\"page\":");
            push_opt_int(&mut out, &m.page);
            push_lit(&mut out, ",\"source\":");
            push_track_reader_obj(&mut out, &m.source);
            push_lit(&mut out, "}");
            proof {
                assert(out@ =~= enc_payload(p@));
            }
        },
        crate::messages::MessagePayload::UpdateComic(m) => {
            push_lit(&mut out, "{\"tag\":\"UpdateComic\",\"label\":");
            push_enc_string(&mut out, m.label.as_str());
            push_lit(&mut out, ",\"chapter\":");
            push_int(&mut out, m.chapter);
            push_lit(&mut out, ",\"page\":");
            push_opt_int(&mut out, &m.page);
            push_lit(&mut out, ",\"readers\":[");
            push_reader_list(&mut out, &m.readers, 0);
            push_lit(&mut out, "]}");
            proof {
                let f = |u: crate::messages::UpdateReader| u@;
                assert(m.readers@.map_values(f).skip(0) =~= m.readers@.map_values(f));
                assert(out@ =~= enc_payload(p@));
            }
        },
        crate::messages::MessagePayload::UntrackComic(m) => {
            push_lit(&mut out, "{\"tag\":\"UntrackComic\",\"label\":");
            push_enc_string(&mut out, m.label.as_str());
            push_lit(&mut out, "}");
            proof {
                assert(out@ =~= enc_payload(p@));
            }
        },
        crate::messages::MessagePayload::ListComics(_) => {
            push_lit(&mut out, "{\"tag\":\"ListComics\"}");
            proof {
                assert(out@ =~= enc_payload(p@));
            }
        },
    }
    chars_to_string(&out)
}

/// Append the wire form of one comic source.
fn push_source_obj(out: &mut Vec<char>, s: &crate::messages::ComicSource)
    ensures
        final(out)@ == old(out)@ + enc_source_obj(s@),
{
    push_lit(out, "{\"name\":");
    push_enc_string(out, s.name.as_str());
    push_lit(out, "}");
    proof {
        assert(out@ =~= old(out)@ + enc_source_obj(s@));
    }
}

/// Append the sources from index `i` on, joined by commas.
fn push_source_list(out: &mut Vec<char>, ss: &Vec<crate::messages::ComicSource>, i: usize)
    requires
        i <= ss@.len(),
    ensures
        final(out)@ == old(out)@ + enc_source_list(
            ss@.map_values(|x: crate::messages::ComicSource| x@).skip(i as int),
        ),
    decreases ss@.len() - i,
{
    let ghost f = |x: crate::messages::ComicSource| x@;
    let ghost vs = ss@.map_values(f);
    if i >= ss.len() {
        proof {
            assert(vs.skip(i as int).len() == 0);
            assert(out@ =~= old(out)@ + enc_source_list(vs.skip(i as int)));
        }
    } else if i == ss.len() - 1 {
        push_source_obj(out, &ss[i]);
        proof {
            assert(vs.skip(i as int).len() == 1);
            assert(vs.skip(i as int)[0] == ss@[i as int]@);
            assert(out@ =~= old(out)@ + enc_source_list(vs.skip(i as int)));
        }
    } else {
        push_source_obj(out, &ss[i]);
        out.push(',');
        push_source_list(out, ss, i + 1);
        proof {
            assert(vs.skip(i as int).len() >= 2);
            assert(vs.skip(i as int)[0] == ss@[i as int]@);
            assert(vs.skip(i as int).skip(1) =~= vs.skip(i + 1));
            assert(enc_source_list(vs.skip(i as int)) == enc_source_obj(ss@[i as int]@)
                + seq![','] + enc_source_list(vs.skip(i + 1)));
            assert(out@ =~= old(out)@ + enc_source_list(vs.skip(i as int)));
        }
    }
}

/// Append the wire form of one listing entry.
fn push_entry_obj(out: &mut Vec<char>, e: &crate::messages::ComicEntry)
    ensures
        final(out)@ == old(out)@ + enc_entry_obj(e@),
{
    push_lit(out, "{\"comic\":{\"label\":");
    push_enc_string(out, e.comic.label.as_str());
    push_lit(out, "},\"sources\":[");
    push_source_list(out, &e.sources, 0);
    push_lit(out, "]}");
    proof {
        let f = |x: crate::messages::ComicSource| x@;
        assert(e.sources@.map_values(f).skip(0) =~= e.sources@.map_values(f));
        assert(out@ =~= old(out)@ + enc_entry_obj(e@));
    }
}

/// Append the entries from index `i` on, joined by commas.
fn push_entry_list(out: &mut Vec<char>, es: &Vec<crate::messages::ComicEntry>, i: usize)
    requires
        i <= es@.len(),
    ensures
        final(out)@ == old(out)@ + enc_entry_list(
            es@.map_values(|x: crate::messages::ComicEntry| x@).skip(i as int),
        ),
    decreases es@.len() - i,
{
    let ghost f = |x: crate::messages::ComicEntry| x@;
    let ghost vs = es@.map_values(f);
    if i >= es.len() {
        proof {
            assert(vs.skip(i as int).len() == 0);
            assert(out@ =~= old(out)@ + enc_entry_list(vs.skip(i as int)));
        }
    } else if i == es.len() - 1 {
        push_entry_obj(out, &es[i]);
        proof {
            assert(vs.skip(i as int).len() == 1);
            assert(vs.skip(i as int)[0] == es@[i as int]@);
            assert(out@ =~= old(out)@ + enc_entry_list(vs.skip(i as int)));
        }
    } else {
        push_entry_obj(out, &es[i]);
        out.push(',');
        push_entry_list(out, es, i + 1);
        proof {
            assert(vs.skip(i as int).len() >= 2);
            assert(vs.skip(i as int)[0] == es@[i as int]@);
            assert(vs.skip(i as int).skip(1) =~= vs.skip(i + 1));
            assert(enc_entry_list(vs.skip(i as int)) == enc_entry_obj(es@[i as int]@) + seq![',']
                + enc_entry_list(vs.skip(i + 1)));
            assert(out@ =~= old(out)@ + enc_entry_list(vs.skip(i as int)));
        }
    }
}

/// Produce the wire text of the reply to `ListComics`: exactly
/// `enc_listing` of the listing's value.
pub fn encode_listing(l: &crate::messages::ComicListing) -> (r: String)
    ensures
        r@ == enc_listing(l@),
{
    let mut out: Vec<char> = Vec::new();
    push_lit(&mut out, "{\"comics\":[");
    push_entry_list(&mut out, &l.comics, 0);
    push_lit(&mut out, "]}");
    proof {
        let f = |x: crate::messages::ComicEntry| x@;
        assert(l.comics@.map_values(f).skip(0) =~= l.comics@.map_values(f));
        assert(out@ =~= enc_listing(l@));
    }
    chars_to_string(&out)
}

} // verus!
