//! One line of a dump: the numbers of a chunk's bytes, then the bytes as text.

use crate::mode::Type;
use vstd::prelude::*;

verus! {

/// The character of the digit `d`: `0` to `9`, then `a` to `f`.
pub open spec fn digit(d: nat) -> u8 {
    if d < 10 {
        (0x30 + d) as u8
    } else {
        (0x57 + d) as u8
    }
}

/// Whether `c` is the character of a digit of base `radix`.
pub open spec fn is_digit(c: u8, radix: nat) -> bool {
    ||| 0x30 <= c <= 0x39 && c - 0x30 < radix
    ||| 0x61 <= c <= 0x66 && c - 0x57 < radix
}

/// The digit that the character `c` stands for.
pub open spec fn digit_value(c: u8) -> nat {
    if c < 0x3a {
        (c - 0x30) as nat
    } else {
        (c - 0x57) as nat
    }
}

/// Dividing by the base leaves less.
pub proof fn lemma_quotient_smaller(v: nat, radix: nat)
    requires
        2 <= radix <= v,
    ensures
        0 < v / radix < v,
{
    vstd::arithmetic::div_mod::lemma_div_decreases(v as int, radix as int);
    vstd::arithmetic::div_mod::lemma_div_non_zero(v as int, radix as int);
}

/// `v` written in base `radix`: its digits from the most significant to the
/// least, the first of them zero only for zero itself.
pub open spec fn numeral(v: nat, radix: nat) -> Seq<u8>
    decreases v,
{
    if radix < 2 || v < radix {
        seq![digit(v)]
    } else {
        proof {
            lemma_quotient_smaller(v, radix);
        }
        numeral(v / radix, radix).push(digit(v % radix))
    }
}

/// The number that the digits `s` denote in base `radix`.
pub open spec fn numeral_value(s: Seq<u8>, radix: nat) -> nat
    decreases s.len(),
{
    if s.len() == 0 {
        0
    } else {
        numeral_value(s.drop_last(), radix) * radix + digit_value(s.last())
    }
}

/// `n` times the byte `b`.
pub open spec fn repeat(b: u8, n: nat) -> Seq<u8> {
    Seq::new(n, |i: int| b)
}

/// The number of the byte `b` as a pass of base `t` prints it: the numeral of
/// `b`, filled up on the left to the field width.
pub open spec fn token(t: Type, b: u8) -> Seq<u8> {
    let digits = numeral(b as nat, t.radix() as nat);
    repeat(t.fill(), (t.field_width() - digits.len()) as nat) + digits
}

/// A numeral denotes the number it was written for, and each of its characters
/// is a digit of the base.
pub proof fn lemma_numeral_value(v: nat, radix: nat)
    requires
        2 <= radix <= 16,
    ensures
        numeral_value(numeral(v, radix), radix) == v,
        forall|i: int|
            0 <= i < numeral(v, radix).len() ==> is_digit(#[trigger] numeral(v, radix)[i], radix),
    decreases v,
{
    if v < radix {
        assert(numeral(v, radix).drop_last() =~= Seq::<u8>::empty());
        assert(numeral_value(Seq::<u8>::empty(), radix) * radix == 0) by (nonlinear_arith)
            requires
                numeral_value(Seq::<u8>::empty(), radix) == 0,
        ;
    } else {
        let d = radix as int;
        let q = v / radix;
        lemma_quotient_smaller(v, radix);
        lemma_numeral_value(q, radix);
        vstd::arithmetic::div_mod::lemma_fundamental_div_mod(v as int, d);
        vstd::arithmetic::div_mod::lemma_mod_bound(v as int, d);
        assert(d * (v as int / d) == (v as int / d) * d) by (nonlinear_arith);
        assert(numeral(v, radix).drop_last() =~= numeral(q, radix));
    }
}

/// No byte needs more digits than the field is wide.
pub proof fn lemma_numeral_fits(t: Type, b: u8)
    ensures
        1 <= numeral(b as nat, t.radix() as nat).len() <= t.field_width(),
{
    reveal_with_fuel(numeral, 9);
}

/// Every token is exactly as wide as the field.
pub proof fn lemma_token_width(t: Type, b: u8)
    ensures
        token(t, b).len() == t.field_width(),
{
    lemma_numeral_fits(t, b);
}

/// The character of a digit below 16.
fn digit_char(d: u8) -> (c: u8)
    requires
        d < 16,
    ensures
        c == digit(d as nat),
{
    if d < 10 {
        0x30 + d
    } else {
        0x57 + d
    }
}

/// How many digits `v` has in base `radix`.
fn count_digits(v: u8, radix: u8) -> (n: usize)
    requires
        2 <= radix,
    ensures
        n == numeral(v as nat, radix as nat).len(),
        n <= v + 1,
    decreases v,
{
    proof {
        if v >= radix {
            lemma_quotient_smaller(v as nat, radix as nat);
        }
    }
    if v < radix {
        1
    } else {
        1 + count_digits(v / radix, radix)
    }
}

/// Appends the numeral of `v` in base `radix` to `out`.
fn push_numeral(out: &mut Vec<u8>, v: u8, radix: u8)
    requires
        2 <= radix <= 16,
    ensures
        final(out)@ == old(out)@ + numeral(v as nat, radix as nat),
    decreases v,
{
    if v < radix {
        out.push(digit_char(v));
    } else {
        proof {
            lemma_quotient_smaller(v as nat, radix as nat);
        }
        push_numeral(out, v / radix, radix);
        out.push(digit_char(v % radix));
    }
}

/// Appends `n` times the byte `b` to `out`.
pub(crate) fn push_repeat(out: &mut Vec<u8>, b: u8, n: usize)
    ensures
        final(out)@ == old(out)@ + repeat(b, n as nat),
{
    let mut i: usize = 0;
    while i < n
        invariant
            i <= n,
            out@ == old(out)@ + repeat(b, i as nat),
        decreases n - i,
    {
        out.push(b);
        i = i + 1;
    }
}

/// Appends the token of `b` to `out`.
fn push_token(out: &mut Vec<u8>, t: &Type, b: u8)
    ensures
        final(out)@ == old(out)@ + token(*t, b),
{
    let radix = t.radix();
    let digits = count_digits(b, radix);
    proof {
        lemma_numeral_fits(*t, b);
    }
    push_repeat(out, t.fill(), t.field_width() - digits);
    push_numeral(out, b, radix);
}

/// The numbers of a chunk: the token of each byte in turn, each followed by one
/// space.
pub open spec fn tokens(chunk: Seq<u8>, t: Type) -> Seq<u8> {
    chunk.map_values(|b: u8| token(t, b).push(0x20)).flatten()
}

/// The chunk as text: each newline replaced by a full stop, every other byte as
/// it is.
pub open spec fn literal(chunk: Seq<u8>) -> Seq<u8> {
    chunk.map_values(
        |b: u8|
            if b == 0x0a {
                0x2eu8
            } else {
                b
            },
    )
}

/// The blanks that stand for the bytes a short chunk lacks, so that the text
/// column starts where it does on a full line.
pub open spec fn padding(len: nat, t: Type) -> Seq<u8> {
    repeat(0x20, ((t.field_width() + 1) * (t.chunk_size() - len)) as nat)
}

/// The line of a chunk: its numbers, the padding, two spaces, and the chunk as
/// text between two bars.
pub open spec fn line(chunk: Seq<u8>, t: Type) -> Seq<u8> {
    tokens(chunk, t) + padding(chunk.len(), t) + seq![0x20u8, 0x20u8, 0x7cu8] + literal(chunk)
        + seq![0x7cu8]
}

/// The numbers of a chunk grow by one token and one space with each byte.
proof fn lemma_tokens_push(chunk: Seq<u8>, t: Type, b: u8)
    ensures
        tokens(chunk.push(b), t) == tokens(chunk, t) + token(t, b).push(0x20),
{
    let f = |b: u8| token(t, b).push(0x20);
    assert(chunk.push(b).map_values(f) =~= chunk.map_values(f).push(f(b)));
    chunk.map_values(f).lemma_flatten_push(f(b));
}

/// A chunk of `n` bytes gives `n` times the field width plus one characters of
/// numbers.
pub proof fn lemma_tokens_len(chunk: Seq<u8>, t: Type)
    ensures
        tokens(chunk, t).len() == chunk.len() * (t.field_width() + 1),
    decreases chunk.len(),
{
    let w = t.field_width() as int;
    let n = chunk.len() as int;
    if n == 0 {
        assert(tokens(chunk, t) =~= Seq::<u8>::empty());
        assert(n * (w + 1) == 0) by (nonlinear_arith)
            requires
                n == 0,
        ;
    } else {
        let front = chunk.drop_last();
        assert(chunk =~= front.push(chunk.last()));
        lemma_tokens_push(front, t, chunk.last());
        lemma_tokens_len(front, t);
        lemma_token_width(t, chunk.last());
        assert(n * (w + 1) == (n - 1) * (w + 1) + (w + 1)) by (nonlinear_arith);
    }
}

/// Where the numbers stand: a chunk of `n` bytes gives `n` tokens, the token of
/// byte `i` starts at `i` times the field width plus one, is as wide as the
/// field, and is followed by one space.
pub proof fn lemma_tokens_layout(chunk: Seq<u8>, t: Type, i: int)
    requires
        0 <= i < chunk.len(),
    ensures
        tokens(chunk, t).len() == chunk.len() * (t.field_width() + 1),
        0 <= i * (t.field_width() + 1),
        i * (t.field_width() + 1) + t.field_width() < tokens(chunk, t).len(),
        tokens(chunk, t).subrange(
            i * (t.field_width() + 1),
            i * (t.field_width() + 1) + t.field_width(),
        ) == token(t, chunk[i]),
        tokens(chunk, t)[i * (t.field_width() + 1) + t.field_width()] == 0x20,
    decreases chunk.len(),
{
    let w = t.field_width() as int;
    let n = chunk.len() as int;
    let front = chunk.drop_last();
    assert(chunk =~= front.push(chunk.last()));
    lemma_tokens_push(front, t, chunk.last());
    lemma_tokens_len(front, t);
    lemma_token_width(t, chunk.last());
    assert(n * (w + 1) == (n - 1) * (w + 1) + (w + 1)) by (nonlinear_arith);
    assert(0 <= i * (w + 1) && i * (w + 1) + (w + 1) <= n * (w + 1)) by (nonlinear_arith)
        requires
            0 <= i < n,
            0 <= w,
    ;
    if i == n - 1 {
        assert(tokens(chunk, t).subrange(i * (w + 1), i * (w + 1) + w) =~= token(t, chunk[i]));
    } else {
        lemma_tokens_layout(front, t, i);
        assert(tokens(chunk, t).subrange(i * (w + 1), i * (w + 1) + w) =~= tokens(
            front,
            t,
        ).subrange(i * (w + 1), i * (w + 1) + w));
    }
}

/// Where the text column starts on every line of a pass of base `t`: behind the
/// numbers of a full chunk, two spaces and a bar.
pub open spec fn text_column(t: Type) -> int {
    (t.field_width() + 1) * t.chunk_size() + 3
}

/// How a line is laid out. Whatever the chunk's length, the bar before the text
/// stands in the same column; before it stand the numbers and then only
/// blanks; behind it stands the chunk as text, and a bar ends the line.
pub proof fn lemma_line_layout(chunk: Seq<u8>, t: Type)
    requires
        chunk.len() <= t.chunk_size(),
    ensures
        line(chunk, t).len() == text_column(t) + chunk.len() + 1,
        tokens(chunk, t).len() <= text_column(t) - 3,
        line(chunk, t).subrange(0, tokens(chunk, t).len() as int) == tokens(chunk, t),
        forall|j: int|
            tokens(chunk, t).len() <= j < text_column(t) - 1 ==> #[trigger] line(chunk, t)[j]
                == 0x20,
        line(chunk, t)[text_column(t) - 1] == 0x7c,
        line(chunk, t).subrange(text_column(t), text_column(t) + chunk.len()) == literal(
            chunk,
        ),
        line(chunk, t).last() == 0x7c,
{
    let cell = t.field_width() + 1;
    let n = chunk.len() as int;
    let size = t.chunk_size() as int;
    lemma_tokens_len(chunk, t);
    assert(n * cell + cell * (size - n) == cell * size) by (nonlinear_arith);
    assert(0 <= cell * (size - n)) by (nonlinear_arith)
        requires
            0 <= cell,
            0 <= size - n,
    ;
    assert(line(chunk, t).subrange(0, tokens(chunk, t).len() as int) =~= tokens(chunk, t));
    assert(line(chunk, t).subrange(text_column(t), text_column(t) + chunk.len())
        =~= literal(chunk));
}

/// In the text column a newline of the chunk shows as a full stop and every
/// other byte as itself, each in the place of the byte it stands for.
pub proof fn lemma_text_column(chunk: Seq<u8>, t: Type, i: int)
    requires
        chunk.len() <= t.chunk_size(),
        0 <= i < chunk.len(),
    ensures
        line(chunk, t)[text_column(t) + i] == if chunk[i] == 0x0a {
            0x2eu8
        } else {
            chunk[i]
        },
{
    lemma_line_layout(chunk, t);
    assert(line(chunk, t)[text_column(t) + i] == line(chunk, t).subrange(
        text_column(t),
        text_column(t) + chunk.len(),
    )[i]);
}

/// On a line the token of byte `i` stands where it stands among the numbers.
pub proof fn lemma_number_column(chunk: Seq<u8>, t: Type, i: int)
    requires
        chunk.len() <= t.chunk_size(),
        0 <= i < chunk.len(),
    ensures
        0 <= i * (t.field_width() + 1),
        i * (t.field_width() + 1) + t.field_width() < line(chunk, t).len(),
        line(chunk, t).subrange(
            i * (t.field_width() + 1),
            i * (t.field_width() + 1) + t.field_width(),
        ) == token(t, chunk[i]),
        line(chunk, t)[i * (t.field_width() + 1) + t.field_width()] == 0x20,
{
    lemma_line_layout(chunk, t);
    lemma_tokens_layout(chunk, t, i);
    let from = i * (t.field_width() + 1);
    let numbers = tokens(chunk, t);
    assert(line(chunk, t).subrange(from, from + t.field_width()) =~= line(chunk, t).subrange(
        0,
        numbers.len() as int,
    ).subrange(from, from + t.field_width()));
    assert(line(chunk, t)[from + t.field_width()] == line(chunk, t).subrange(
        0,
        numbers.len() as int,
    )[from + t.field_width()]);
}

/// A line holds no newline, whatever the chunk holds.
pub proof fn lemma_line_has_no_newline(chunk: Seq<u8>, t: Type)
    requires
        chunk.len() <= t.chunk_size(),
    ensures
        forall|j: int| 0 <= j < line(chunk, t).len() ==> #[trigger] line(chunk, t)[j] != 0x0a,
{
    let w = t.field_width() as int;
    let numbers = tokens(chunk, t);
    lemma_line_layout(chunk, t);
    lemma_tokens_len(chunk, t);
    assert forall|j: int| 0 <= j < line(chunk, t).len() implies #[trigger] line(chunk, t)[j]
        != 0x0a by {
        if j < numbers.len() {
            let i = j / (w + 1);
            let k = j % (w + 1);
            vstd::arithmetic::div_mod::lemma_fundamental_div_mod(j, w + 1);
            vstd::arithmetic::div_mod::lemma_mod_bound(j, w + 1);
            assert((w + 1) * i == i * (w + 1)) by (nonlinear_arith);
            assert(0 <= i < chunk.len()) by (nonlinear_arith)
                requires
                    0 <= j < chunk.len() * (w + 1),
                    j == i * (w + 1) + k,
                    0 <= k < w + 1,
            ;
            lemma_number_column(chunk, t, i);
            if k < w {
                let digits = numeral(chunk[i] as nat, t.radix() as nat);
                lemma_numeral_value(chunk[i] as nat, t.radix() as nat);
                lemma_numeral_fits(t, chunk[i]);
                let tok = line(chunk, t).subrange(i * (w + 1), i * (w + 1) + w);
                assert(line(chunk, t)[j] == tok[k]);
                if k >= w - digits.len() {
                    assert(tok[k] == digits[k - (w - digits.len())]);
                }
            }
        } else if j < text_column(t) - 1 {
        } else if j == text_column(t) - 1 {
        } else if j < text_column(t) + chunk.len() {
            lemma_text_column(chunk, t, j - text_column(t));
        } else {
        }
    }
}

/// Renders one chunk of a pass of base `t` as a line, without a line end.
pub fn dump_line(s: &[u8], t: &Type) -> (out: Vec<u8>)
    requires
        s@.len() <= t.chunk_size(),
    ensures
        out@ == line(s@, *t),
{
    let mut out: Vec<u8> = Vec::new();
    let n = s.len();
    let mut i: usize = 0;
    assert(tokens(s@.take(0), *t) =~= Seq::<u8>::empty());
    while i < n
        invariant
            i <= n == s@.len(),
            out@ == tokens(s@.take(i as int), *t),
        decreases n - i,
    {
        proof {
            lemma_tokens_push(s@.take(i as int), *t, s@[i as int]);
            assert(s@.take(i as int).push(s@[i as int]) =~= s@.take(i + 1));
        }
        push_token(&mut out, t, s[i]);
        out.push(0x20);
        i = i + 1;
    }
    assert(s@.take(n as int) =~= s@);
    let cell = t.field_width() + 1;
    let missing = t.chunk_size() - n;
    assert(cell * missing <= 9 * 16) by (nonlinear_arith)
        requires
            cell <= 9,
            missing <= 16,
    ;
    push_repeat(&mut out, 0x20, cell * missing);
    out.push(0x20);
    out.push(0x20);
    out.push(0x7c);
    let ghost head = out@;
    let mut j: usize = 0;
    while j < n
        invariant
            j <= n == s@.len(),
            out@ == head + literal(s@.take(j as int)),
        decreases n - j,
    {
        let b = s[j];
        out.push(if b == 0x0a { 0x2e } else { b });
        j = j + 1;
        assert(literal(s@.take(j as int)) =~= literal(s@.take(j - 1)).push(literal(s@)[j - 1]));
    }
    out.push(0x7c);
    assert(out@ =~= line(s@, *t));
    out
}

} // verus!
