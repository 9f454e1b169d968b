//! The lexical layer: runs of blanks and of digits at the front of a text,
//! and single marks such as a sign or an operator.

use vstd::prelude::*;
use vstd::string::*;
use vstd::utf8::*;

verus! {

/// A blank is a space, a tab, a carriage return or a line feed.
pub open spec fn is_blank(c: char) -> bool {
    c == ' ' || c == '\t' || c == '\r' || c == '\n'
}

/// A digit is one of the ten ASCII characters `0` to `9`.
pub open spec fn is_digit(c: char) -> bool {
    '0' <= c <= '9'
}

/// How many characters at the front of `s` belong to `class`, counted up to
/// the first one that does not.
pub open spec fn run(class: spec_fn(char) -> bool, s: Seq<char>) -> nat
    decreases s.len(),
{
    if s.len() > 0 && class(s[0]) {
        1 + run(class, s.drop_first())
    } else {
        0
    }
}

/// The number of blanks that `s` begins with.
pub open spec fn blanks(s: Seq<char>) -> nat {
    run(|c: char| is_blank(c), s)
}

/// The number of digits that `s` begins with.
pub open spec fn digits(s: Seq<char>) -> nat {
    run(|c: char| is_digit(c), s)
}

/// A run stays inside the text, holds only characters of the class, and ends
/// at the end of the text or before a character outside the class.
proof fn lemma_run_bounds(class: spec_fn(char) -> bool, s: Seq<char>)
    ensures
        run(class, s) <= s.len(),
        forall|i: int| 0 <= i < run(class, s) ==> class(#[trigger] s[i]),
        run(class, s) < s.len() ==> !class(s[run(class, s) as int]),
    decreases s.len(),
{
    if s.len() > 0 && class(s[0]) {
        let tail = s.drop_first();
        lemma_run_bounds(class, tail);
        assert forall|i: int| 0 <= i < run(class, s) implies class(#[trigger] s[i]) by {
            if i > 0 {
                assert(s[i] == tail[i - 1]);
            }
        }
        if run(class, s) < s.len() {
            assert(s[run(class, s) as int] == tail[run(class, tail) as int]);
        }
    }
}

/// The run is the only length of which the three clauses of
/// [`lemma_run_bounds`] hold.
proof fn lemma_run_unique(class: spec_fn(char) -> bool, s: Seq<char>, n: nat)
    requires
        n <= s.len(),
        forall|i: int| 0 <= i < n ==> class(#[trigger] s[i]),
        n < s.len() ==> !class(s[n as int]),
    ensures
        run(class, s) == n,
    decreases s.len(),
{
    if n > 0 {
        let tail = s.drop_first();
        assert(class(s[0]));
        assert forall|i: int| 0 <= i < n - 1 implies class(#[trigger] tail[i]) by {
            assert(tail[i] == s[i + 1]);
        }
        if n - 1 < tail.len() {
            assert(tail[n - 1] == s[n as int]);
        }
        lemma_run_unique(class, tail, (n - 1) as nat);
    }
}

/// The blanks at the front of a text: they stay inside the text, all of them
/// are blanks, and behind them the text ends or goes on with a character
/// that is no blank.
pub proof fn lemma_blanks(s: Seq<char>)
    ensures
        blanks(s) <= s.len(),
        forall|i: int| 0 <= i < blanks(s) ==> is_blank(#[trigger] s[i]),
        blanks(s) < s.len() ==> !is_blank(s[blanks(s) as int]),
{
    lemma_run_bounds(|c: char| is_blank(c), s);
}

/// The digits at the front of a text: they stay inside the text, all of them
/// are digits, and behind them the text ends or goes on with a character
/// that is no digit.
pub proof fn lemma_digits(s: Seq<char>)
    ensures
        digits(s) <= s.len(),
        forall|i: int| 0 <= i < digits(s) ==> is_digit(#[trigger] s[i]),
        digits(s) < s.len() ==> !is_digit(s[digits(s) as int]),
{
    lemma_run_bounds(|c: char| is_digit(c), s);
}

/// A text begins with exactly `n` blanks where its first `n` characters are
/// blanks and the next one, if there is one, is not.
pub proof fn lemma_blanks_are(s: Seq<char>, n: nat)
    requires
        n <= s.len(),
        forall|i: int| 0 <= i < n ==> is_blank(#[trigger] s[i]),
        n < s.len() ==> !is_blank(s[n as int]),
    ensures
        blanks(s) == n,
{
    lemma_run_unique(|c: char| is_blank(c), s, n);
}

/// A text begins with exactly `n` digits where its first `n` characters are
/// digits and the next one, if there is one, is not.
pub proof fn lemma_digits_are(s: Seq<char>, n: nat)
    requires
        n <= s.len(),
        forall|i: int| 0 <= i < n ==> is_digit(#[trigger] s[i]),
        n < s.len() ==> !is_digit(s[n as int]),
    ensures
        digits(s) == n,
{
    lemma_run_unique(|c: char| is_digit(c), s, n);
}

/// All characters of `w` are blanks.
pub open spec fn all_blank(w: Seq<char>) -> bool {
    forall|i: int| 0 <= i < w.len() ==> is_blank(#[trigger] w[i])
}

/// Blanks put before a text are skipped together with its own.
pub proof fn lemma_blanks_join(w: Seq<char>, t: Seq<char>)
    requires
        all_blank(w),
    ensures
        blanks(w + t) == w.len() + blanks(t),
        (w + t).skip(blanks(w + t) as int) == t.skip(blanks(t) as int),
{
    let s = w + t;
    let n = w.len() + blanks(t);
    lemma_blanks(t);
    assert forall|i: int| 0 <= i < n implies is_blank(#[trigger] s[i]) by {
        if i < w.len() {
            assert(s[i] == w[i]);
        } else {
            assert(s[i] == t[i - w.len()]);
        }
    }
    if n < s.len() {
        assert(s[n as int] == t[blanks(t) as int]);
    }
    lemma_blanks_are(s, n);
    assert(s.skip(n as int) =~= t.skip(blanks(t) as int));
}

/// Drops the blanks at the front of a text.
///
/// Trusted: the body calls `nom::multispace0` on the text wrapped in
/// `nom::types::CompleteStr`. On such an input it always succeeds and splits
/// the text before the first character that is not a space, a tab, a carriage
/// return or a line feed, or at the end where there is none; the part after
/// the split is returned.
#[verifier::external_body]
pub(crate) fn skip_blanks<'a>(input: &'a str) -> (rest: &'a str)
    ensures
        rest@ == input@.skip(blanks(input@) as int),
{
    match nom::multispace0(nom::types::CompleteStr(input)) {
        Ok((rest, _)) => rest.0,
        Err(_) => input,
    }
}

/// Splits a text after the digits at its front.
///
/// Trusted: the body calls `nom::digit` on the text wrapped in
/// `nom::types::CompleteStr`. It fails where the text is empty or begins with
/// a character that is not one of `0` to `9`; otherwise it splits the text
/// before the first such character, or at the end where there is none, and the
/// result is the part after the split paired with the part before it.
#[verifier::external_body]
pub(crate) fn take_digits<'a>(input: &'a str) -> (found: Option<(&'a str, &'a str)>)
    ensures
        match found {
            Some((rest, taken)) => {
                &&& digits(input@) > 0
                &&& taken@ == input@.take(digits(input@) as int)
                &&& rest@ == input@.skip(digits(input@) as int)
            },
            None => digits(input@) == 0,
        },
{
    match nom::digit(nom::types::CompleteStr(input)) {
        Ok((rest, taken)) => Some((rest.0, taken.0)),
        Err(_) => None,
    }
}

/// A scalar below 128 is encoded as the single byte of the same value, and
/// every other scalar begins with a byte of 128 or more.
proof fn lemma_first_byte(v: u32)
    requires
        is_scalar(v),
    ensures
        v <= 0x7f ==> encode_scalar(v) =~= seq![v as u8],
        v > 0x7f ==> encode_scalar(v)[0] >= 0x80,
        encode_scalar(v).len() >= 1,
{
    if has_width_1_encoding(v) {
        assert((v & 0x7F) as u8 == v as u8) by (bit_vector)
            requires
                v <= 0x7f,
        ;
    } else if has_width_2_encoding(v) {
        assert(0xC0u8 | ((v >> 6) & 0x1F) as u8 >= 0x80) by (bit_vector);
    } else if has_width_3_encoding(v) {
        assert(0xE0u8 | ((v >> 12) & 0x0F) as u8 >= 0x80) by (bit_vector);
    } else {
        assert(0xF0u8 | ((v >> 18) & 0x7) as u8 >= 0x80) by (bit_vector);
    }
}

/// The text after a leading `mark`, where the text begins with it.
pub(crate) fn after_mark<'a>(input: &'a str, mark: char) -> (rest: Option<&'a str>)
    requires
        mark as u32 <= 0x7f,
    ensures
        match rest {
            Some(r) => input@.len() > 0 && input@[0] == mark && r@ == input@.skip(1),
            None => input@.len() == 0 || input@[0] != mark,
        },
{
    let byte = mark as u8;
    let bytes = input.as_bytes();
    proof {
        encode_utf8_valid_utf8(input@);
        if input@.len() > 0 {
            let head = encode_scalar(input@[0] as u32);
            char_is_scalar(input@[0]);
            lemma_first_byte(input@[0] as u32);
            assert(input.spec_bytes() =~= head + encode_utf8(input@.drop_first()));
            assert(input.spec_bytes()[0] == head[0]);
            char_u32_cast(input@[0], input@[0] as u32);
            char_u32_cast(mark, mark as u32);
        }
    }
    if bytes.len() > 0 && bytes[0] == byte {
        proof {
            let all = input.spec_bytes();
            let tail = input@.drop_first();
            assert(pop_first_scalar(all) =~= encode_utf8(tail));
            encode_utf8_valid_utf8(tail);
            assert(is_char_boundary(pop_first_scalar(all), 0));
            assert(is_char_boundary(all, 1));
        }
        let (_, rest) = input.split_at(1);
        proof {
            let tail = input@.drop_first();
            assert(rest.spec_bytes() =~= encode_utf8(tail));
            encode_utf8_decode_utf8(rest@);
            encode_utf8_decode_utf8(tail);
            assert(tail =~= input@.skip(1));
        }
        Some(rest)
    } else {
        None
    }
}

} // verus!
