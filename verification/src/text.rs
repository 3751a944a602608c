//! Text helpers: ASCII case folding for command names, the quoting used by
//! monitor log lines, decimal formatting, and decimal integer parsing.

use vstd::prelude::*;
use vstd::utf8::encode_utf8;

verus! {

/// Relies on String::push: it appends exactly the one character.
#[verifier::external_body]
pub(crate) fn push_char(s: &mut String, c: char)
    ensures
        final(s)@ == old(s)@.push(c),
{
    s.push(c);
}

/// Relies on str::from_utf8 and str::to_owned: the byte slice decodes to a
/// string exactly when it is valid UTF-8.
#[verifier::external_body]
pub(crate) fn bytes_to_utf8(v: &[u8]) -> (r: Option<String>)
    ensures
        r matches Some(s) ==> vstd::utf8::valid_utf8(v@) && s@ == vstd::utf8::decode_utf8(v@),
        r is None ==> !vstd::utf8::valid_utf8(v@),
{
    match core::str::from_utf8(v) {
        Ok(s) => Some(s.to_owned()),
        Err(_) => None,
    }
}

pub open spec fn ascii_upper_byte(b: u8) -> u8 {
    if 97 <= b <= 122 {
        (b - 32) as u8
    } else {
        b
    }
}

/// The bytes of a name with ASCII lower-case letters folded to upper case.
pub open spec fn ascii_upper_bytes(s: Seq<u8>) -> Seq<u8> {
    s.map_values(|b: u8| ascii_upper_byte(b))
}

/// The name's UTF-8 bytes with ASCII letters folded to upper case.
pub fn name_upper_bytes(name: &str) -> (r: Vec<u8>)
    ensures
        r@ == ascii_upper_bytes(encode_utf8(name@)),
{
    let bs = name.as_bytes();
    let mut out: Vec<u8> = Vec::new();
    let mut i: usize = 0;
    while i < bs.len()
        invariant
            i <= bs.len(),
            bs@ == encode_utf8(name@),
            out@ == ascii_upper_bytes(bs@.take(i as int)),
        decreases bs.len() - i,
    {
        let b = bs[i];
        if 97 <= b && b <= 122 {
            out.push(b - 32);
        } else {
            out.push(b);
        }
        proof {
            assert(bs@.take(i + 1).drop_last() =~= bs@.take(i as int));
            assert(ascii_upper_bytes(bs@.take(i + 1)) =~= ascii_upper_bytes(bs@.take(i as int)).push(
                ascii_upper_byte(bs@[i as int]),
            ));
        }
        i = i + 1;
    }
    proof {
        assert(bs@.take(i as int) =~= bs@);
    }
    out
}

pub fn bytes_eq(a: &Vec<u8>, b: &Vec<u8>) -> (r: bool)
    ensures
        r == (a@ == b@),
{
    if a.len() != b.len() {
        proof {
            assert(a@.len() != b@.len());
        }
        return false;
    }
    let mut i: usize = 0;
    while i < a.len()
        invariant
            i <= a.len(),
            a@.len() == b@.len(),
            forall|j: int| 0 <= j < i ==> a@[j] == b@[j],
        decreases a.len() - i,
    {
        if a[i] != b[i] {
            return false;
        }
        i = i + 1;
    }
    proof {
        assert(a@ =~= b@);
    }
    true
}

pub open spec fn digit_char(d: nat) -> char {
    (((48 + d) as u8) as char)
}

pub open spec fn hex_digit_char(d: nat) -> char {
    if d < 10 {
        digit_char(d)
    } else {
        (((87 + d) as u8) as char)
    }
}

/// The decimal digits of a natural number, most significant first.
pub open spec fn dec_digits(n: nat) -> Seq<char>
    decreases n,
{
    if n < 10 {
        seq![digit_char(n)]
    } else {
        dec_digits(n / 10) + seq![digit_char(n % 10)]
    }
}

/// Exactly `width` low-order decimal digits of a natural number, zero
/// padded on the left.
pub open spec fn dec_pad(n: nat, width: nat) -> Seq<char>
    decreases width,
{
    if width == 0 {
        Seq::empty()
    } else {
        dec_pad(n / 10, (width - 1) as nat) + seq![digit_char(n % 10)]
    }
}

/// The decimal form of a signed number, with a leading minus when negative.
pub open spec fn i64_dec(n: int) -> Seq<char> {
    if n < 0 {
        seq!['-'] + dec_digits((-n) as nat)
    } else {
        dec_digits(n as nat)
    }
}

fn digit_char_exec(d: u64) -> (c: char)
    requires
        d < 10,
    ensures
        c == digit_char(d as nat),
{
    ((48 + d as u8)) as char
}

/// Appends the decimal digits of `n`.
pub fn push_dec_u64(s: &mut String, n: u64)
    ensures
        final(s)@ == old(s)@ + dec_digits(n as nat),
    decreases n,
{
    if n < 10 {
        push_char(s, digit_char_exec(n));
    } else {
        push_dec_u64(s, n / 10);
        push_char(s, digit_char_exec(n % 10));
        proof {
            assert(old(s)@ + dec_digits(n as nat) =~= (old(s)@ + dec_digits((n / 10) as nat)).push(
                digit_char((n % 10) as nat),
            ));
        }
    }
}

/// Appends exactly `width` low-order decimal digits of `n`, zero padded.
pub fn push_dec_pad(s: &mut String, n: u64, width: u64)
    ensures
        final(s)@ == old(s)@ + dec_pad(n as nat, width as nat),
    decreases width,
{
    if width == 0 {
        proof {
            assert(old(s)@ + dec_pad(n as nat, 0) =~= old(s)@);
        }
    } else {
        push_dec_pad(s, n / 10, width - 1);
        push_char(s, digit_char_exec(n % 10));
        proof {
            assert(old(s)@ + dec_pad(n as nat, width as nat) =~= (old(s)@ + dec_pad(
                (n / 10) as nat,
                (width - 1) as nat,
            )).push(digit_char((n % 10) as nat)));
        }
    }
}

/// Appends the decimal form of a signed number.
pub fn push_dec_i64(s: &mut String, n: i64)
    ensures
        final(s)@ == old(s)@ + i64_dec(n as int),
{
    if n >= 0 {
        push_dec_u64(s, n as u64);
    } else {
        push_char(s, '-');
        let m: u64 = if n == i64::MIN {
            9223372036854775808u64
        } else {
            (-n) as u64
        };
        proof {
            assert(m as nat == (-(n as int)) as nat);
        }
        push_dec_u64(s, m);
        proof {
            assert(old(s)@ + i64_dec(n as int) =~= (old(s)@.push('-')) + dec_digits(
                (-(n as int)) as nat,
            ));
        }
    }
}

/// One byte of a quoted token: backslash and double quote get a backslash,
/// printable ASCII stands as itself, anything else becomes \xHH.
pub open spec fn quote_byte(b: u8) -> Seq<char> {
    if b == 92 {
        seq!['\\', '\\']
    } else if b == 34 {
        seq!['\\', '"']
    } else if 32 <= b <= 126 {
        seq![(b as char)]
    } else {
        seq!['\\', 'x', hex_digit_char((b / 16) as nat), hex_digit_char((b % 16) as nat)]
    }
}

pub open spec fn quote_bytes(s: Seq<u8>) -> Seq<char>
    decreases s.len(),
{
    if s.len() == 0 {
        Seq::empty()
    } else {
        quote_byte(s[0]) + quote_bytes(s.drop_first())
    }
}

/// A whole quoted token: the escaped bytes between double quotes.
pub open spec fn quote_spec(s: Seq<u8>) -> Seq<char> {
    seq!['"'] + quote_bytes(s) + seq!['"']
}

proof fn lemma_quote_bytes_snoc(s: Seq<u8>, b: u8)
    ensures
        quote_bytes(s.push(b)) == quote_bytes(s) + quote_byte(b),
    decreases s.len(),
{
    if s.len() == 0 {
        assert(s.push(b)[0] == b);
        assert(s.push(b).drop_first() =~= Seq::<u8>::empty());
        assert(quote_bytes(Seq::<u8>::empty()) == Seq::<char>::empty());
        assert(quote_bytes(s.push(b)) =~= quote_bytes(s) + quote_byte(b));
    } else {
        assert(s.push(b)[0] == s[0]);
        assert(s.push(b).drop_first() =~= s.drop_first().push(b));
        lemma_quote_bytes_snoc(s.drop_first(), b);
        assert(quote_bytes(s.push(b)) == quote_byte(s[0]) + (quote_bytes(s.drop_first())
            + quote_byte(b)));
        assert(quote_byte(s[0]) + (quote_bytes(s.drop_first()) + quote_byte(b)) =~= (quote_byte(
            s[0],
        ) + quote_bytes(s.drop_first())) + quote_byte(b));
    }
}

fn hex_digit_exec(d: u8) -> (c: char)
    requires
        d < 16,
    ensures
        c == hex_digit_char(d as nat),
{
    if d < 10 {
        (48 + d) as char
    } else {
        (87 + d) as char
    }
}

/// Quotes one token for the monitor log.
pub fn quote_string(input: &[u8]) -> (r: String)
    ensures
        r@ == quote_spec(input@),
{
    let mut out = String::new();
    push_char(&mut out, '"');
    let mut i: usize = 0;
    while i < input.len()
        invariant
            i <= input.len(),
            out@ == seq!['"'] + quote_bytes(input@.take(i as int)),
        decreases input.len() - i,
    {
        let b = input[i];
        if b == 92 {
            push_char(&mut out, '\\');
            push_char(&mut out, '\\');
        } else if b == 34 {
            push_char(&mut out, '\\');
            push_char(&mut out, '"');
        } else if 32 <= b && b <= 126 {
            push_char(&mut out, b as char);
        } else {
            push_char(&mut out, '\\');
            push_char(&mut out, 'x');
            push_char(&mut out, hex_digit_exec(b / 16));
            push_char(&mut out, hex_digit_exec(b % 16));
        }
        proof {
            lemma_quote_bytes_snoc(input@.take(i as int), input@[i as int]);
            assert(input@.take(i + 1) =~= input@.take(i as int).push(input@[i as int]));
            assert(out@ =~= seq!['"'] + quote_bytes(input@.take(i + 1)));
        }
        i = i + 1;
    }
    push_char(&mut out, '"');
    proof {
        assert(input@.take(i as int) =~= input@);
        assert(out@ =~= quote_spec(input@));
    }
    out
}

pub open spec fn is_digit_byte(b: u8) -> bool {
    48 <= b <= 57
}

pub open spec fn all_digits(s: Seq<u8>) -> bool {
    forall|i: int| 0 <= i < s.len() ==> is_digit_byte(#[trigger] s[i])
}

/// The value of a string of decimal digits, most significant first.
pub open spec fn dec_val(s: Seq<u8>) -> nat
    decreases s.len(),
{
    if s.len() == 0 {
        0
    } else {
        dec_val(s.drop_last()) * 10 + (s.last() - 48) as nat
    }
}

/// The digits of a decimal integer token after its optional sign.
pub open spec fn int_token_body(s: Seq<u8>) -> Seq<u8> {
    if s.len() > 0 && (s[0] == 43 || s[0] == 45) {
        s.drop_first()
    } else {
        s
    }
}

pub open spec fn int_token_negative(s: Seq<u8>) -> bool {
    s.len() > 0 && s[0] == 45
}

/// The signed value a decimal integer token denotes.
pub open spec fn int_token_value(s: Seq<u8>) -> int {
    if int_token_negative(s) {
        -(dec_val(int_token_body(s)) as int)
    } else {
        dec_val(int_token_body(s)) as int
    }
}

/// Whether a byte string is a decimal integer that fits an i64: an
/// optional sign, then at least one digit, denoting a value in range.
pub open spec fn is_i64_token(s: Seq<u8>) -> bool {
    &&& int_token_body(s).len() > 0
    &&& all_digits(int_token_body(s))
    &&& i64::MIN <= int_token_value(s) <= i64::MAX
}

proof fn lemma_dec_val_take_step(s: Seq<u8>, i: int)
    requires
        0 <= i < s.len(),
        is_digit_byte(s[i]),
    ensures
        dec_val(s.take(i + 1)) == dec_val(s.take(i)) * 10 + (s[i] - 48),
{
    assert(s.take(i + 1).drop_last() =~= s.take(i));
    assert(s.take(i + 1).last() == s[i]);
    assert(dec_val(s.take(i + 1)) == dec_val(s.take(i + 1).drop_last()) * 10 + (s.take(
        i + 1,
    ).last() - 48) as nat);
}

proof fn lemma_dec_val_grows(s: Seq<u8>, i: int, j: int)
    requires
        0 <= i <= j <= s.len(),
        all_digits(s),
    ensures
        dec_val(s.take(i)) <= dec_val(s.take(j)),
    decreases j - i,
{
    if i < j {
        lemma_dec_val_grows(s, i, j - 1);
        lemma_dec_val_take_step(s, j - 1);
        assert(dec_val(s.take(j - 1)) * 10 >= dec_val(s.take(j - 1))) by (nonlinear_arith);
    }
}

/// Parses a decimal integer argument, exactly as the command layer needs
/// it: Some for every token `is_i64_token` admits, None otherwise.
pub fn parse_i64(bytes: &[u8]) -> (r: Option<i64>)
    ensures
        r matches Some(v) ==> is_i64_token(bytes@) && v as int == int_token_value(bytes@),
        r is None ==> !is_i64_token(bytes@),
{
    let mut start: usize = 0;
    let mut negative: bool = false;
    if bytes.len() > 0 && (bytes[0] == 43 || bytes[0] == 45) {
        start = 1;
        negative = bytes[0] == 45;
    }
    let ghost body = int_token_body(bytes@);
    proof {
        assert(body =~= bytes@.skip(start as int));
        assert(negative == int_token_negative(bytes@));
    }
    if bytes.len() == start {
        proof {
            assert(body.len() == 0);
        }
        return None;
    }
    let limit: u64 = if negative {
        9223372036854775808u64
    } else {
        9223372036854775807u64
    };
    let mut acc: u64 = 0;
    let mut i: usize = start;
    while i < bytes.len()
        invariant
            start <= i <= bytes.len(),
            start <= 1,
            body == bytes@.skip(start as int),
            body == int_token_body(bytes@),
            acc as int == dec_val(body.take(i - start)),
            acc <= limit,
            all_digits(body.take(i - start)),
            limit == (if negative {
                9223372036854775808u64
            } else {
                9223372036854775807u64
            }),
            negative == int_token_negative(bytes@),
        decreases bytes.len() - i,
    {
        let b = bytes[i];
        if b < 48 || b > 57 {
            proof {
                assert(body[i - start] == bytes@[i as int]);
                assert(!is_digit_byte(body[i - start]));
            }
            return None;
        }
        let d = (b - 48) as u64;
        if acc > (limit - d) / 10 {
            proof {
                assert(body[i - start] == bytes@[i as int]);
                lemma_dec_val_take_step(body, i - start);
                assert(acc as int * 10 + d as int > limit as int) by (nonlinear_arith)
                    requires
                        acc as int > (limit as int - d as int) / 10,
                        0 <= d as int <= 9,
                        d as int <= limit as int,
                        acc as int >= 0,
                ;
                assert(dec_val(body.take(i - start + 1)) > limit as int);
            }
            // the value no longer fits an i64: settle whether the rest is
            // all digits, then reject either way
            let mut j: usize = i + 1;
            while j < bytes.len()
                invariant
                    i + 1 <= j <= bytes.len(),
                    start <= i < bytes.len(),
                    body == bytes@.skip(start as int),
                    body == int_token_body(bytes@),
                    forall|k: int| i - start < k < j - start ==> is_digit_byte(
                        #[trigger] body[k],
                    ),
                    all_digits(body.take(i - start)),
                    is_digit_byte(body[i - start]),
                    dec_val(body.take(i - start + 1)) > limit as int,
                    limit == (if negative {
                        9223372036854775808u64
                    } else {
                        9223372036854775807u64
                    }),
                    negative == int_token_negative(bytes@),
                decreases bytes.len() - j,
            {
                let c = bytes[j];
                if c < 48 || c > 57 {
                    proof {
                        assert(body[j - start] == bytes@[j as int]);
                        assert(!is_digit_byte(body[j - start]));
                    }
                    return None;
                }
                j = j + 1;
            }
            proof {
                assert forall|k: int| 0 <= k < body.len() implies is_digit_byte(
                    #[trigger] body[k],
                ) by {
                    if k < i - start {
                        assert(body.take(i - start)[k] == body[k]);
                    } else if k == i - start {
                        assert(body[i - start] == bytes@[i as int]);
                    }
                }
                lemma_dec_val_grows(body, i - start + 1, body.len() as int);
                assert(body.take(body.len() as int) =~= body);
                assert(dec_val(body) > limit as int);
                assert(!(i64::MIN <= int_token_value(bytes@) <= i64::MAX));
            }
            return None;
        }
        proof {
            assert(acc as int * 10 + d as int <= limit as int) by (nonlinear_arith)
                requires
                    acc as int <= (limit as int - d as int) / 10,
                    0 <= d as int <= 9,
                    d as int <= limit as int,
                    acc as int >= 0,
            ;
            lemma_dec_val_take_step(body, i - start);
            assert(body[i - start] == bytes@[i as int]);
            assert(body.take(i - start + 1).drop_last() =~= body.take(i - start));
            assert(all_digits(body.take(i - start + 1)));
        }
        acc = acc * 10 + d;
        i = i + 1;
    }
    proof {
        assert(body.take(i - start) =~= body);
        assert(all_digits(body));
        assert(dec_val(body) == acc as int);
    }
    if negative {
        if acc == 9223372036854775808u64 {
            Some(i64::MIN)
        } else {
            Some(-(acc as i64))
        }
    } else {
        Some(acc as i64)
    }
}

} // verus!
