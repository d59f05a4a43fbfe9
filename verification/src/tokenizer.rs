use vstd::prelude::*;

use crate::error::ServerError;
use crate::tokens::{spec_keyword_token, keyword_token, AnnotatedToken, AnnotatedTokenModel, Token,
    TokenModel};
use crate::util::chars_to_string;

verus! {

/// What `char::is_alphabetic` answers for a character.
pub uninterp spec fn is_alpha_char(c: char) -> bool;

/// What `char::is_alphanumeric` answers for a character.
pub uninterp spec fn is_alnum_char(c: char) -> bool;

/// What `char::is_numeric` answers for a character.
pub uninterp spec fn is_num_char(c: char) -> bool;

/// What `char::is_whitespace` answers for a character.
pub uninterp spec fn is_space_char(c: char) -> bool;

/// What `str::to_lowercase` turns a string into; it depends on the
/// characters alone.
pub uninterp spec fn lower_of(s: Seq<char>) -> Seq<char>;

/// Relies on `char::is_alphabetic` of std.
#[verifier::external_body]
fn char_is_alphabetic(c: char) -> (r: bool)
    ensures
        r == is_alpha_char(c),
{
    c.is_alphabetic()
}

/// Relies on `char::is_alphanumeric` of std.
#[verifier::external_body]
fn char_is_alphanumeric(c: char) -> (r: bool)
    ensures
        r == is_alnum_char(c),
{
    c.is_alphanumeric()
}

/// Relies on `char::is_numeric` of std.
#[verifier::external_body]
fn char_is_numeric(c: char) -> (r: bool)
    ensures
        r == is_num_char(c),
{
    c.is_numeric()
}

/// Relies on `char::is_whitespace` of std.
#[verifier::external_body]
fn char_is_whitespace(c: char) -> (r: bool)
    ensures
        r == is_space_char(c),
{
    c.is_whitespace()
}

/// Relies on `str::to_lowercase` of std: the result depends on the
/// characters alone, and is handed back as its characters. Lowercasing is
/// idempotent: the result of one pass is already lowercase, so a second
/// pass returns it unchanged; the language's case-insensitivity rests on
/// this.
#[verifier::external_body]
fn lowercase_chars(s: &str) -> (r: Vec<char>)
    ensures
        r@ == lower_of(s@),
        lower_of(r@) == r@,
{
    s.to_lowercase().chars().collect()
}

/// Whether a character can start an identifier.
pub open spec fn spec_is_identifier_start(c: char) -> bool {
    is_alpha_char(c) || c == '_'
}

/// Whether a character can continue an identifier.
pub open spec fn spec_is_identifier_char(c: char) -> bool {
    is_alnum_char(c) || c == '_'
}

/// Whether a character may directly follow a literal: whitespace or one of
/// `; : , ] }`.
pub open spec fn spec_is_literal_end(c: char) -> bool {
    is_space_char(c) || c == ';' || c == ':' || c == ',' || c == ']' || c == '}'
}

/// See whether a character can be used to start an identifier.
pub fn is_identifier_start_char(c: char) -> (r: bool)
    ensures
        r == spec_is_identifier_start(c),
{
    char_is_alphabetic(c) || (c == '_')
}

/// See whether a character is valid inside an identifier.
pub fn is_identifier_char(c: char) -> (r: bool)
    ensures
        r == spec_is_identifier_char(c),
{
    char_is_alphanumeric(c) || (c == '_')
}

/// See whether a character is valid directly after the end of a literal.
pub fn is_valid_literal_end_char(c: char) -> (r: bool)
    ensures
        r == spec_is_literal_end(c),
{
    char_is_whitespace(c) || (c == ';') || (c == ':') || (c == ',') || (c == ']') || (c == '}')
}

/// Whether a character is an ASCII decimal digit.
pub open spec fn is_dec_digit(c: char) -> bool {
    '0' <= c && c <= '9'
}

/// The numeric value of an ASCII decimal digit.
pub open spec fn dec_digit_val(c: char) -> int {
    c as int - '0' as int
}

/// Whether every character of the sequence is an ASCII decimal digit.
pub open spec fn all_dec_digits(s: Seq<char>) -> bool {
    forall|i: int| 0 <= i < s.len() ==> is_dec_digit(#[trigger] s[i])
}

/// The value of a sequence of decimal digits, most significant first.
pub open spec fn dec_num_value(s: Seq<char>) -> int
    decreases s.len(),
{
    if s.len() == 0 {
        0
    } else {
        dec_num_value(s.drop_last()) * 10 + dec_digit_val(s.last())
    }
}

/// What parsing the text as a 64-bit signed decimal integer yields: the
/// digits after an optional minus sign, when the value fits.
pub open spec fn spec_parse_i64(text: Seq<char>) -> Option<i64> {
    let negative = text.len() > 0 && text[0] == '-';
    let digits = if negative {
        text.drop_first()
    } else {
        text
    };
    if digits.len() == 0 || !all_dec_digits(digits) {
        None
    } else {
        let value = dec_num_value(digits);
        if negative {
            if -value >= i64::MIN {
                Some((-value) as i64)
            } else {
                None
            }
        } else {
            if value <= i64::MAX {
                Some(value as i64)
            } else {
                None
            }
        }
    }
}

/// The value of a digit prefix never shrinks as the prefix grows.
proof fn lemma_dec_num_value_bounds(s: Seq<char>)
    requires
        all_dec_digits(s),
    ensures
        dec_num_value(s) >= 0,
        s.len() > 0 ==> dec_num_value(s) >= dec_num_value(s.drop_last()),
    decreases s.len(),
{
    if s.len() > 0 {
        assert(all_dec_digits(s.drop_last()));
        lemma_dec_num_value_bounds(s.drop_last());
    }
}

/// Each step of left-to-right accumulation matches the recursion.
proof fn lemma_dec_num_prefix(s: Seq<char>, j: int)
    requires
        0 <= j < s.len(),
    ensures
        dec_num_value(s.subrange(0, j + 1)) == dec_num_value(s.subrange(0, j)) * 10
            + dec_digit_val(s[j]),
{
    assert(s.subrange(0, j + 1).drop_last() =~= s.subrange(0, j));
    assert(s.subrange(0, j + 1).last() == s[j]);
}

/// Growing a digit prefix never shrinks its value.
proof fn lemma_dec_num_monotonic(s: Seq<char>, j: int, k: int)
    requires
        all_dec_digits(s),
        0 <= j <= k <= s.len(),
    ensures
        dec_num_value(s.subrange(0, j)) <= dec_num_value(s.subrange(0, k)),
    decreases k - j,
{
    if j < k {
        lemma_dec_num_monotonic(s, j, k - 1);
        lemma_dec_num_prefix(s, k - 1);
        assert(all_dec_digits(s.subrange(0, k - 1)));
        lemma_dec_num_value_bounds(s.subrange(0, k - 1));
        assert(dec_num_value(s.subrange(0, k - 1)) * 10 + dec_digit_val(s[k - 1])
            >= dec_num_value(s.subrange(0, k - 1))) by {
            assert(dec_num_value(s.subrange(0, k - 1)) >= 0);
            assert(dec_digit_val(s[k - 1]) >= 0);
        }
    } else {
    }
}

/// Parse a 64-bit signed decimal integer from characters.
pub fn parse_i64_chars(text: &Vec<char>) -> (r: Option<i64>)
    ensures
        r == spec_parse_i64(text@),
{
    let negative = text.len() > 0 && text[0] == '-';
    let start: usize = if negative {
        1
    } else {
        0
    };
    if text.len() == start {
        return None;
    }
    let ghost digits = if negative {
        text@.drop_first()
    } else {
        text@
    };
    proof {
        assert(digits =~= text@.subrange(start as int, text@.len() as int));
    }
    let mut acc: u64 = 0;
    let mut i: usize = start;
    while i < text.len()
        invariant
            start <= i <= text@.len(),
            start == (if negative {
                1int
            } else {
                0int
            }),
            negative == (text@.len() > 0 && text@[0] == '-'),
            digits =~= text@.subrange(start as int, text@.len() as int),
            all_dec_digits(digits.subrange(0, i - start)),
            acc as int == dec_num_value(digits.subrange(0, i - start)),
        decreases text@.len() - i,
    {
        let c = text[i];
        if !('0' <= c && c <= '9') {
            proof {
                assert(digits[i - start] == c);
            }
            return None;
        }
        let d: u64 = (c as u32 as u64) - ('0' as u32 as u64);
        proof {
            assert(d as int == dec_digit_val(c));
        }
        let next = match acc.checked_mul(10) {
            Some(m) => m.checked_add(d),
            None => None,
        };
        match next {
            Some(v) => {
                proof {
                    assert(digits[i - start] == c);
                    lemma_dec_num_prefix(digits, i - start);
                    assert(digits.subrange(0, i - start + 1).drop_last() =~= digits.subrange(
                        0,
                        i - start,
                    ));
                }
                acc = v;
            },
            None => {
                // The value exceeds what 64 bits hold, so it cannot fit in
                // an i64 either; and if a later character is not a digit the
                // text is malformed anyway.
                proof {
                    assert(digits[i - start] == c);
                    lemma_dec_num_prefix(digits, i - start);
                    assert(acc as int * 10 + d as int > u64::MAX as int);
                    assert(dec_num_value(digits.subrange(0, i - start + 1)) > u64::MAX as int);
                    if all_dec_digits(digits) {
                        lemma_dec_num_monotonic(digits, i - start + 1, digits.len() as int);
                        assert(digits.subrange(0, digits.len() as int) =~= digits);
                        assert(dec_num_value(digits) > u64::MAX as int);
                        assert(dec_num_value(digits) > i64::MAX as int);
                        assert(-dec_num_value(digits) < i64::MIN as int);
                    } else {
                        assert(!all_dec_digits(digits));
                    }
                    let sneg = text@.len() > 0 && text@[0] == '-';
                    let sdig = if sneg {
                        text@.drop_first()
                    } else {
                        text@
                    };
                    assert(sneg == negative);
                    assert(sdig == digits);
                    assert(sdig.len() > 0);
                    assert(spec_parse_i64(text@) is None);
                }
                return None;
            },
        }
        i = i + 1;
    }
    proof {
        assert(digits.subrange(0, digits.len() as int) =~= digits);
        assert(all_dec_digits(digits));
        assert(acc as int == dec_num_value(digits));
        assert(digits.len() > 0);
    }
    if negative {
        if acc <= 9223372036854775808u64 {
            if acc == 9223372036854775808u64 {
                Some(i64::MIN)
            } else {
                Some(-(acc as i64))
            }
        } else {
            None
        }
    } else {
        if acc <= 9223372036854775807u64 {
            Some(acc as i64)
        } else {
            None
        }
    }
}

/// The first position at or after `i` that does not hold an ASCII digit.
pub open spec fn digits_end(s: Seq<char>, i: int) -> int
    decreases s.len() - i,
{
    if !(0 <= i < s.len()) {
        i
    } else if is_dec_digit(s[i]) {
        digits_end(s, i + 1)
    } else {
        i
    }
}

/// Whether the characters from `i` on are a valid, possibly empty exponent
/// part: `e`, an optional sign, and at least one digit reaching the end.
pub open spec fn exponent_ok(s: Seq<char>, i: int) -> bool {
    if i == s.len() {
        true
    } else if 0 <= i < s.len() && s[i] == 'e' {
        let j = if i + 1 < s.len() && (s[i + 1] == '+' || s[i + 1] == '-') {
            i + 2
        } else {
            i + 1
        };
        j < s.len() && digits_end(s, j) == s.len()
    } else {
        false
    }
}

/// Whether the characters from `i` on are a valid float mantissa followed by
/// an optional exponent: digits, digits `.` digits, or `.` digits, with at
/// least one digit in all.
pub open spec fn float_body_ok(s: Seq<char>, i: int) -> bool {
    if !(0 <= i < s.len()) {
        false
    } else {
        let d1 = digits_end(s, i);
        if d1 == i {
            s[i] == '.' && {
                let d2 = digits_end(s, i + 1);
                d2 > i + 1 && exponent_ok(s, d2)
            }
        } else {
            if d1 < s.len() && s[d1] == '.' {
                exponent_ok(s, digits_end(s, d1 + 1))
            } else {
                exponent_ok(s, d1)
            }
        }
    }
}

/// The lowercased strings that `f32::from_str` of std accepts: an optional
/// sign before `inf`, `infinity`, `nan`, or a number with at least one digit
/// and an optional exponent.
pub open spec fn is_float_literal(s: Seq<char>) -> bool {
    let i0: int = if s.len() > 0 && (s[0] == '+' || s[0] == '-') {
        1
    } else {
        0
    };
    let body = s.subrange(i0, s.len() as int);
    ||| body == "inf"@
    ||| body == "infinity"@
    ||| body == "nan"@
    ||| float_body_ok(s, i0)
}

/// Advance past ASCII digits, starting at `i`.
fn scan_digits(text: &Vec<char>, i: usize) -> (r: usize)
    requires
        i <= text@.len(),
    ensures
        i <= r <= text@.len(),
        r == digits_end(text@, i as int),
{
    let mut j = i;
    while j < text.len() && '0' <= text[j] && text[j] <= '9'
        invariant
            i <= j <= text@.len(),
            digits_end(text@, i as int) == digits_end(text@, j as int),
        decreases text@.len() - j,
    {
        j = j + 1;
    }
    j
}

/// Check whether the characters form a float literal that std would parse.
pub fn is_float_literal_chars(text: &Vec<char>) -> (r: bool)
    ensures
        r == is_float_literal(text@),
{
    let i0: usize = if text.len() > 0 && (text[0] == '+' || text[0] == '-') {
        1
    } else {
        0
    };
    proof {
        reveal_strlit("inf");
        reveal_strlit("infinity");
        reveal_strlit("nan");
    }
    let n = text.len();
    let ghost body = text@.subrange(i0 as int, text@.len() as int);
    if n - i0 == 3 && text[i0] == 'i' && text[i0 + 1] == 'n' && text[i0 + 2] == 'f' {
        proof {
            assert(body =~= "inf"@);
        }
        return true;
    }
    if n - i0 == 8 && text[i0] == 'i' && text[i0 + 1] == 'n' && text[i0 + 2] == 'f' && text[i0 + 3]
        == 'i' && text[i0 + 4] == 'n' && text[i0 + 5] == 'i' && text[i0 + 6] == 't' && text[i0 + 7]
        == 'y' {
        proof {
            assert(body =~= "infinity"@);
        }
        return true;
    }
    if n - i0 == 3 && text[i0] == 'n' && text[i0 + 1] == 'a' && text[i0 + 2] == 'n' {
        proof {
            assert(body =~= "nan"@);
        }
        return true;
    }
    proof {
        assert(body != "inf"@ && body != "infinity"@ && body != "nan"@) by {
            if body == "inf"@ {
                assert(body.len() == 3);
                assert(text@[i0 as int] == body[0] && text@[i0 as int + 1] == body[1] && text@[
                    i0 as int + 2] == body[2]);
            }
            if body == "infinity"@ {
                assert(body.len() == 8);
                assert(text@[i0 as int] == body[0] && text@[i0 as int + 1] == body[1] && text@[
                    i0 as int + 2] == body[2] && text@[i0 as int + 3] == body[3] && text@[i0 as int
                    + 4] == body[4] && text@[i0 as int + 5] == body[5] && text@[i0 as int + 6]
                    == body[6] && text@[i0 as int + 7] == body[7]);
            }
            if body == "nan"@ {
                assert(body.len() == 3);
                assert(text@[i0 as int] == body[0] && text@[i0 as int + 1] == body[1] && text@[
                    i0 as int + 2] == body[2]);
            }
        }
    }
    if i0 >= n {
        return false;
    }
    let d1 = scan_digits(text, i0);
    if d1 == i0 {
        if text[i0] == '.' {
            let d2 = scan_digits(text, i0 + 1);
            d2 > i0 + 1 && exponent_check(text, d2)
        } else {
            false
        }
    } else {
        if d1 < n && text[d1] == '.' {
            let d2 = scan_digits(text, d1 + 1);
            exponent_check(text, d2)
        } else {
            exponent_check(text, d1)
        }
    }
}

/// Check an optional exponent part running to the end of the text.
fn exponent_check(text: &Vec<char>, i: usize) -> (r: bool)
    requires
        i <= text@.len(),
    ensures
        r == exponent_ok(text@, i as int),
{
    let n = text.len();
    if i == n {
        return true;
    }
    if text[i] != 'e' {
        return false;
    }
    let j: usize = if i + 1 < n && (text[i + 1] == '+' || text[i + 1] == '-') {
        i + 2
    } else {
        i + 1
    };
    j < n && scan_digits(text, j) == n
}

/// The outcome of scanning one token: the token's model and the position
/// after its lexeme, or a failure.
pub enum TokenStep {
    /// A token was scanned; its lexeme ends here.
    Tok(TokenModel, int),
    /// The text cannot be scanned at this position.
    Fail,
}

/// The first position at or after `i` that does not hold whitespace.
pub open spec fn spec_skip_ws(cmd: Seq<char>, i: int) -> int
    decreases cmd.len() - i,
{
    if !(0 <= i < cmd.len()) {
        i
    } else if is_space_char(cmd[i]) {
        spec_skip_ws(cmd, i + 1)
    } else {
        i
    }
}

/// The first position at or after `i` where a literal ends: the end of the
/// text or a literal-end character.
pub open spec fn spec_literal_run(cmd: Seq<char>, i: int) -> int
    decreases cmd.len() - i,
{
    if !(0 <= i < cmd.len()) {
        i
    } else if spec_is_literal_end(cmd[i]) {
        i
    } else {
        spec_literal_run(cmd, i + 1)
    }
}

/// Scan a numeric literal beginning at `i`: characters run to a literal
/// end; a `.` anywhere makes it a float, else it must be an integer.
pub open spec fn spec_scan_numeric(cmd: Seq<char>, i: int) -> TokenStep {
    let j = spec_literal_run(cmd, i + 1);
    let text = cmd.subrange(i, j);
    if text.contains('.') {
        if is_float_literal(text) {
            TokenStep::Tok(TokenModel::Float(text), j)
        } else {
            TokenStep::Fail
        }
    } else {
        match spec_parse_i64(text) {
            Some(v) => TokenStep::Tok(TokenModel::Integer(v), j),
            None => TokenStep::Fail,
        }
    }
}

/// Scan the inside of a string literal from `j`, with `acc` the characters
/// read so far; escapes `\\ \" \r \t \n` are decoded, and the closing quote
/// must be followed by a literal end or the end of the text.
pub open spec fn spec_string_body(cmd: Seq<char>, j: int, acc: Seq<char>) -> TokenStep
    decreases cmd.len() - j,
{
    if !(0 <= j < cmd.len()) {
        TokenStep::Fail
    } else if cmd[j] == '"' {
        if j + 1 == cmd.len() || spec_is_literal_end(cmd[j + 1]) {
            TokenStep::Tok(TokenModel::StringValue(acc), j + 1)
        } else {
            TokenStep::Fail
        }
    } else if cmd[j] == '\\' {
        if j + 1 >= cmd.len() {
            TokenStep::Fail
        } else {
            let e = cmd[j + 1];
            if e == '\\' || e == '"' {
                spec_string_body(cmd, j + 2, acc.push(e))
            } else if e == 'r' {
                spec_string_body(cmd, j + 2, acc.push('\r'))
            } else if e == 't' {
                spec_string_body(cmd, j + 2, acc.push('\t'))
            } else if e == 'n' {
                spec_string_body(cmd, j + 2, acc.push('\n'))
            } else {
                TokenStep::Fail
            }
        }
    } else {
        spec_string_body(cmd, j + 1, acc.push(cmd[j]))
    }
}

/// Where an identifier beginning before `j` ends: a literal end stops it,
/// an identifier character continues it, anything else is invalid.
pub open spec fn spec_ident_end(cmd: Seq<char>, j: int) -> Option<int>
    decreases cmd.len() - j,
{
    if !(0 <= j < cmd.len()) {
        Some(j)
    } else if spec_is_literal_end(cmd[j]) {
        Some(j)
    } else if spec_is_identifier_char(cmd[j]) {
        spec_ident_end(cmd, j + 1)
    } else {
        None
    }
}

/// Scan an identifier or keyword beginning at `i`.
pub open spec fn spec_scan_ident(cmd: Seq<char>, i: int) -> TokenStep {
    match spec_ident_end(cmd, i + 1) {
        None => TokenStep::Fail,
        Some(j) => {
            let word = cmd.subrange(i, j);
            match spec_keyword_token(word) {
                Some(t) => TokenStep::Tok(t@, j),
                None => TokenStep::Tok(TokenModel::Identifier(word), j),
            }
        },
    }
}

/// Scan one token beginning at the non-whitespace position `i`.
pub open spec fn spec_scan_token(cmd: Seq<char>, i: int) -> TokenStep {
    if !(0 <= i < cmd.len()) {
        TokenStep::Fail
    } else {
        let c = cmd[i];
        if c == ';' {
            TokenStep::Tok(TokenModel::Semicolon, i + 1)
        } else if c == '[' {
            TokenStep::Tok(TokenModel::LeftBracket, i + 1)
        } else if c == ']' {
            TokenStep::Tok(TokenModel::RightBracket, i + 1)
        } else if c == ',' {
            TokenStep::Tok(TokenModel::Comma, i + 1)
        } else if c == ':' {
            TokenStep::Tok(TokenModel::Colon, i + 1)
        } else if c == '{' {
            TokenStep::Tok(TokenModel::LeftCurlyBracket, i + 1)
        } else if c == '}' {
            TokenStep::Tok(TokenModel::RightCurlyBracket, i + 1)
        } else if is_num_char(c) || c == '-' {
            spec_scan_numeric(cmd, i)
        } else if c == '"' {
            spec_string_body(cmd, i + 1, Seq::empty())
        } else if spec_is_identifier_start(c) {
            spec_scan_ident(cmd, i)
        } else {
            TokenStep::Fail
        }
    }
}

/// Tokenize the whole text from position `i` on: skip whitespace, scan one
/// token, and continue after its lexeme. `None` is a failed scan.
pub open spec fn spec_tokenize_from(cmd: Seq<char>, i: int) -> Option<Seq<AnnotatedTokenModel>>
    decreases cmd.len() - i,
{
    if !(0 <= i <= cmd.len()) {
        None
    } else {
        let s = spec_skip_ws(cmd, i);
        if !(i <= s <= cmd.len()) {
            None
        } else if s == cmd.len() {
            Some(Seq::empty())
        } else {
            match spec_scan_token(cmd, s) {
                TokenStep::Fail => None,
                TokenStep::Tok(t, e) => {
                    if !(s < e <= cmd.len()) {
                        None
                    } else {
                        match spec_tokenize_from(cmd, e) {
                            None => None,
                            Some(rest) => Some(
                                seq![
                                    AnnotatedTokenModel {
                                        token: t,
                                        position: s,
                                        lexeme: cmd.subrange(s, e),
                                    },
                                ] + rest,
                            ),
                        }
                    }
                },
            }
        }
    }
}

/// The models of a sequence of annotated tokens.
pub open spec fn atoken_models(s: Seq<AnnotatedToken>) -> Seq<AnnotatedTokenModel> {
    Seq::new(s.len(), |i: int| s[i]@)
}

/// The scanner that splits a lowercased command into annotated tokens.
///
/// The input is lowercased on construction: the whole language is
/// case-insensitive.
pub struct Tokenizer {
    /// The characters of the lowercased command.
    pub command: Vec<char>,
    /// The position the scan has reached.
    pub current_index: usize,
    /// Where the lexeme of the token being scanned starts.
    pub token_start_index: usize,
    /// Whether a scan error was found; the scan stops there.
    pub error_detected: bool,
}

impl Tokenizer {
    /// Build a new tokenizer over the lowercased text of a command.
    ///
    /// Lowercasing is idempotent, so a tokenizer over a command and one
    /// over the command's own lowercased text hold the same characters:
    /// the language is case-insensitive.
    pub fn new(command: &str) -> (r: Tokenizer)
        ensures
            r.command@ == lower_of(command@),
            lower_of(r.command@) == r.command@,
            r.current_index == 0,
            r.token_start_index == 0,
            !r.error_detected,
    {
        let command = lowercase_chars(command);
        Tokenizer { command, current_index: 0, token_start_index: 0, error_detected: false }
    }

    /// Check whether the scan has reached the end of the command.
    pub fn is_at_end(&self) -> (r: bool)
        ensures
            r == (self.current_index >= self.command@.len()),
    {
        self.current_index >= self.command.len()
    }

    /// Look at the current character.
    fn view_char(&self) -> (r: char)
        requires
            self.current_index < self.command@.len(),
        ensures
            r == self.command@[self.current_index as int],
    {
        self.command[self.current_index]
    }

    /// Consume the current character, move past it, and return it.
    fn advance(&mut self) -> (r: char)
        requires
            old(self).current_index < old(self).command@.len(),
        ensures
            r == old(self).command@[old(self).current_index as int],
            final(self).current_index == old(self).current_index + 1,
            final(self).command@ == old(self).command@,
            final(self).token_start_index == old(self).token_start_index,
            final(self).error_detected == old(self).error_detected,
    {
        let n = self.command.len();
        proof {
            assert(self.current_index < n);
        }
        self.current_index = self.current_index + 1;
        self.command[self.current_index - 1]
    }

    /// Scan the text of the whole command into annotated tokens.
    pub fn tokenize(&mut self) -> (r: Result<Vec<AnnotatedToken>, ServerError>)
        requires
            old(self).current_index <= old(self).command@.len(),
        ensures
            final(self).command@ == old(self).command@,
            match r {
                Ok(v) => spec_tokenize_from(old(self).command@, old(self).current_index as int)
                    == Some(atoken_models(v@)),
                Err(e) => spec_tokenize_from(old(self).command@, old(self).current_index as int)
                    is None && e is TokenizationError && final(self).error_detected,
            },
    {
        let ghost cmd = old(self).command@;
        let ghost i0 = old(self).current_index as int;
        let mut tokens: Vec<AnnotatedToken> = Vec::new();
        loop
            invariant
                cmd == old(self).command@,
                i0 == old(self).current_index as int,
                self.command@ == cmd,
                self.current_index <= cmd.len(),
                spec_tokenize_from(cmd, i0) == (match spec_tokenize_from(
                    cmd,
                    self.current_index as int,
                ) {
                    None => None::<Seq<AnnotatedTokenModel>>,
                    Some(rest) => Some(atoken_models(tokens@) + rest),
                }),
            decreases cmd.len() - self.current_index,
        {
            let ghost head = self.current_index as int;
            loop
                invariant_except_break
                    self.command@ == cmd,
                    self.current_index <= cmd.len(),
                    head <= self.current_index,
                    spec_skip_ws(cmd, head) == spec_skip_ws(cmd, self.current_index as int),
                ensures
                    self.command@ == cmd,
                    head <= self.current_index <= cmd.len(),
                    self.current_index as int == spec_skip_ws(cmd, head),
                    self.current_index as int == cmd.len() || !is_space_char(
                        cmd[self.current_index as int],
                    ),
                decreases cmd.len() - self.current_index,
            {
                if self.current_index >= self.command.len() {
                    break;
                }
                if !char_is_whitespace(self.command[self.current_index]) {
                    break;
                }
                self.current_index = self.current_index + 1;
            }
            let ghost s = self.current_index as int;
            proof {
                assert(spec_skip_ws(cmd, s) == s);
            }
            if self.current_index >= self.command.len() {
                proof {
                    assert(spec_tokenize_from(cmd, head) == Some(Seq::<
                        AnnotatedTokenModel,
                    >::empty()));
                    assert(atoken_models(tokens@) + Seq::<AnnotatedTokenModel>::empty()
                        =~= atoken_models(tokens@));
                }
                return Ok(tokens);
            }
            self.token_start_index = self.current_index;
            let start = self.current_index;
            match self.get_next_token() {
                Err(err) => {
                    self.error_detected = true;
                    proof {
                        assert(spec_tokenize_from(cmd, head) is None);
                    }
                    return Err(err);
                },
                Ok(token) => {
                    let text = crate::util::copy_chars(&self.command, start, self.current_index);
                    let lexeme = chars_to_string(&text);
                    let annotated = AnnotatedToken { token, position: start, lexeme };
                    let ghost model = annotated@;
                    tokens.push(annotated);
                    proof {
                        let e = self.current_index as int;
                        let rest0 = spec_tokenize_from(cmd, s);
                        assert(atoken_models(tokens@) =~= atoken_models(tokens@.drop_last()).push(
                            model,
                        ));
                        match spec_tokenize_from(cmd, e) {
                            None => {
                                assert(spec_tokenize_from(cmd, head) is None);
                            },
                            Some(rest) => {
                                assert(spec_tokenize_from(cmd, head) == Some(
                                    seq![model] + rest,
                                ));
                                assert(atoken_models(tokens@.drop_last()) + (seq![model] + rest)
                                    =~= atoken_models(tokens@) + rest);
                            },
                        }
                    }
                },
            }
        }
    }

    /// Scan the next token, starting at a position that holds a character
    /// that is not whitespace.
    fn get_next_token(&mut self) -> (r: Result<Token, ServerError>)
        requires
            old(self).current_index < old(self).command@.len(),
        ensures
            final(self).command@ == old(self).command@,
            final(self).token_start_index == old(self).token_start_index,
            final(self).error_detected == old(self).error_detected,
            match r {
                Ok(t) => spec_scan_token(old(self).command@, old(self).current_index as int)
                    == TokenStep::Tok(t@, final(self).current_index as int) && old(
                    self,
                ).current_index < final(self).current_index <= final(self).command@.len(),
                Err(e) => spec_scan_token(old(self).command@, old(self).current_index as int)
                    == TokenStep::Fail && e is TokenizationError,
            },
    {
        let next_char = self.view_char();
        if next_char == ';' {
            self.advance();
            Ok(Token::Semicolon)
        } else if next_char == '[' {
            self.advance();
            Ok(Token::LeftBracket)
        } else if next_char == ']' {
            self.advance();
            Ok(Token::RightBracket)
        } else if next_char == ',' {
            self.advance();
            Ok(Token::Comma)
        } else if next_char == ':' {
            self.advance();
            Ok(Token::Colon)
        } else if next_char == '{' {
            self.advance();
            Ok(Token::LeftCurlyBracket)
        } else if next_char == '}' {
            self.advance();
            Ok(Token::RightCurlyBracket)
        } else if char_is_numeric(next_char) || next_char == '-' {
            self.get_numeric()
        } else if next_char == '"' {
            self.get_string()
        } else if is_identifier_start_char(next_char) {
            self.get_identifier()
        } else {
            Err(ServerError::TokenizationError(String::from_str("Cannot build token.")))
        }
    }

    /// Scan a numeric token, either a float or an integer.
    fn get_numeric(&mut self) -> (r: Result<Token, ServerError>)
        requires
            old(self).current_index < old(self).command@.len(),
        ensures
            final(self).command@ == old(self).command@,
            final(self).token_start_index == old(self).token_start_index,
            final(self).error_detected == old(self).error_detected,
            match r {
                Ok(t) => spec_scan_numeric(old(self).command@, old(self).current_index as int)
                    == TokenStep::Tok(t@, final(self).current_index as int) && old(
                    self,
                ).current_index < final(self).current_index <= final(self).command@.len(),
                Err(e) => spec_scan_numeric(old(self).command@, old(self).current_index as int)
                    == TokenStep::Fail && e is TokenizationError,
            },
    {
        let ghost cmd = self.command@;
        let start = self.current_index;
        self.advance();
        loop
            invariant_except_break
                self.command@ == cmd,
                start < self.current_index <= cmd.len(),
                self.token_start_index == old(self).token_start_index,
                self.error_detected == old(self).error_detected,
                spec_literal_run(cmd, start + 1) == spec_literal_run(
                    cmd,
                    self.current_index as int,
                ),
            ensures
                self.command@ == cmd,
                start < self.current_index <= cmd.len(),
                self.token_start_index == old(self).token_start_index,
                self.error_detected == old(self).error_detected,
                self.current_index as int == spec_literal_run(cmd, start + 1),
            decreases cmd.len() - self.current_index,
        {
            if self.current_index >= self.command.len() {
                break;
            }
            if is_valid_literal_end_char(self.command[self.current_index]) {
                break;
            }
            self.current_index = self.current_index + 1;
        }
        let text = crate::util::copy_chars(&self.command, start, self.current_index);
        let mut has_dot = false;
        let mut k: usize = 0;
        while k < text.len()
            invariant
                has_dot == text@.subrange(0, k as int).contains('.'),
                k <= text@.len(),
            decreases text@.len() - k,
        {
            if text[k] == '.' {
                has_dot = true;
                proof {
                    assert(text@.subrange(0, k as int + 1)[k as int] == '.');
                }
            } else {
                proof {
                    assert forall|w: int|
                        0 <= w < k + 1 && text@.subrange(0, k as int + 1)[w] == '.' implies text@
                            .subrange(0, k as int)[w] == '.' by {}
                }
            }
            k = k + 1;
        }
        proof {
            assert(text@.subrange(0, text@.len() as int) =~= text@);
        }
        if has_dot {
            if is_float_literal_chars(&text) {
                Ok(Token::Float(chars_to_string(&text)))
            } else {
                let mut msg = String::from_str("Expected float literal, got '");
                msg.append(chars_to_string(&text).as_str());
                msg.append("'");
                Err(ServerError::TokenizationError(msg))
            }
        } else {
            match parse_i64_chars(&text) {
                Some(value) => Ok(Token::Integer(value)),
                None => {
                    let mut msg = String::from_str("Expected integer literal, got '");
                    msg.append(chars_to_string(&text).as_str());
                    msg.append("'");
                    Err(ServerError::TokenizationError(msg))
                },
            }
        }
    }

    /// Scan a string literal with its escapes.
    fn get_string(&mut self) -> (r: Result<Token, ServerError>)
        requires
            old(self).current_index < old(self).command@.len(),
            old(self).command@[old(self).current_index as int] == '"',
        ensures
            final(self).command@ == old(self).command@,
            final(self).token_start_index == old(self).token_start_index,
            final(self).error_detected == old(self).error_detected,
            match r {
                Ok(t) => spec_string_body(
                    old(self).command@,
                    old(self).current_index + 1,
                    Seq::empty(),
                ) == TokenStep::Tok(t@, final(self).current_index as int) && old(
                    self,
                ).current_index < final(self).current_index <= final(self).command@.len(),
                Err(e) => spec_string_body(
                    old(self).command@,
                    old(self).current_index + 1,
                    Seq::empty(),
                ) == TokenStep::Fail && e is TokenizationError,
            },
    {
        let ghost cmd = self.command@;
        let ghost j0 = self.current_index + 1int;
        self.advance();
        let mut acc: Vec<char> = Vec::new();
        loop
            invariant
                cmd == old(self).command@,
                j0 == old(self).current_index + 1,
                self.command@ == cmd,
                j0 <= self.current_index <= cmd.len(),
                self.token_start_index == old(self).token_start_index,
                self.error_detected == old(self).error_detected,
                spec_string_body(cmd, j0, Seq::empty()) == spec_string_body(
                    cmd,
                    self.current_index as int,
                    acc@,
                ),
            decreases cmd.len() - self.current_index,
        {
            if self.is_at_end() {
                return Err(
                    ServerError::TokenizationError(
                        String::from_str("Unterminated string found."),
                    ),
                );
            }
            let next_char = self.advance();
            if next_char == '"' {
                if self.is_at_end() || is_valid_literal_end_char(self.view_char()) {
                    return Ok(Token::StringValue(chars_to_string(&acc)));
                } else {
                    return Err(
                        ServerError::TokenizationError(
                            String::from_str("Invalid character found at the end of a string."),
                        ),
                    );
                }
            }
            if next_char == '\\' {
                if self.is_at_end() {
                    return Err(
                        ServerError::TokenizationError(
                            String::from_str("Unterminated string found."),
                        ),
                    );
                }
                let escape_char = self.advance();
                if escape_char == '\\' || escape_char == '"' {
                    acc.push(escape_char);
                } else if escape_char == 'r' {
                    acc.push('\r');
                } else if escape_char == 't' {
                    acc.push('\t');
                } else if escape_char == 'n' {
                    acc.push('\n');
                } else {
                    let mut msg = String::from_str("Invalid escape character '");
                    msg.push(escape_char);
                    msg.append("' found");
                    return Err(ServerError::TokenizationError(msg));
                }
            } else {
                acc.push(next_char);
            }
        }
    }

    /// Scan an identifier or a keyword.
    fn get_identifier(&mut self) -> (r: Result<Token, ServerError>)
        requires
            old(self).current_index < old(self).command@.len(),
        ensures
            final(self).command@ == old(self).command@,
            final(self).token_start_index == old(self).token_start_index,
            final(self).error_detected == old(self).error_detected,
            match r {
                Ok(t) => spec_scan_ident(old(self).command@, old(self).current_index as int)
                    == TokenStep::Tok(t@, final(self).current_index as int) && old(
                    self,
                ).current_index < final(self).current_index <= final(self).command@.len(),
                Err(e) => spec_scan_ident(old(self).command@, old(self).current_index as int)
                    == TokenStep::Fail && e is TokenizationError,
            },
    {
        let ghost cmd = self.command@;
        let start = self.current_index;
        self.advance();
        loop
            invariant_except_break
                cmd == old(self).command@,
                start == old(self).current_index,
                self.command@ == cmd,
                start < self.current_index <= cmd.len(),
                self.token_start_index == old(self).token_start_index,
                self.error_detected == old(self).error_detected,
                spec_ident_end(cmd, start + 1) == spec_ident_end(cmd, self.current_index as int),
            ensures
                self.command@ == cmd,
                start < self.current_index <= cmd.len(),
                self.token_start_index == old(self).token_start_index,
                self.error_detected == old(self).error_detected,
                spec_ident_end(cmd, start + 1) == Some(self.current_index as int),
            decreases cmd.len() - self.current_index,
        {
            if self.is_at_end() {
                break;
            }
            let next_char = self.view_char();
            if is_valid_literal_end_char(next_char) {
                break;
            } else if is_identifier_char(next_char) {
                let _ = self.advance();
            } else {
                let mut msg = String::from_str("'");
                msg.push(next_char);
                msg.append("' is an invalid identifier character.");
                return Err(ServerError::TokenizationError(msg));
            }
        }
        let text = crate::util::copy_chars(&self.command, start, self.current_index);
        let word = chars_to_string(&text);
        match keyword_token(&word) {
            Some(token) => Ok(token),
            None => Ok(Token::Identifier(word)),
        }
    }
}

} // verus!
