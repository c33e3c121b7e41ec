//! Character stream to token sequence, with unary/binary disambiguation.
//!
//! The lexical rules are captured by the specification function
//! [`spec_tokenize`]; the executable tokenizer is proved to return exactly
//! what that function describes.

use vstd::prelude::*;
use vstd::string::StrSliceExecFns;

verus! {

/// An arithmetic operator. Each is used as either unary or binary; the
/// tokenizer decides which from the left context.
#[derive(Debug, PartialEq, Clone, Copy)]
pub enum Op {
    Plus,
    Minus,
    Mult,
    Div,
    Fact,
    Pow,
}

/// A lexical token. Immutable after construction.
#[derive(Debug, PartialEq)]
pub enum Token {
    Variable(String),
    Number(i64),
    UnaryOp(Op),
    BinaryOp(Op),
    LParen,
    RParen,
}

/// The mathematical image of a token: variable names become character
/// sequences.
pub enum TokenView {
    Variable(Seq<char>),
    Number(i64),
    UnaryOp(Op),
    BinaryOp(Op),
    LParen,
    RParen,
}

impl View for Token {
    type V = TokenView;

    open spec fn view(&self) -> TokenView {
        match self {
            Token::Variable(s) => TokenView::Variable(s@),
            Token::Number(n) => TokenView::Number(*n),
            Token::UnaryOp(op) => TokenView::UnaryOp(*op),
            Token::BinaryOp(op) => TokenView::BinaryOp(*op),
            Token::LParen => TokenView::LParen,
            Token::RParen => TokenView::RParen,
        }
    }
}

impl DeepView for Token {
    type V = TokenView;

    open spec fn deep_view(&self) -> TokenView {
        self.view()
    }
}

impl Clone for Token {
    fn clone(&self) -> (r: Token)
        ensures
            r == *self,
    {
        match self {
            Token::Variable(s) => Token::Variable(s.clone()),
            Token::Number(n) => Token::Number(*n),
            Token::UnaryOp(op) => Token::UnaryOp(*op),
            Token::BinaryOp(op) => Token::BinaryOp(*op),
            Token::LParen => Token::LParen,
            Token::RParen => Token::RParen,
        }
    }
}

/// A tokenizing failure: a numeric literal that exceeds the signed 64-bit
/// range, or a character outside the lexical alphabet.
#[derive(Debug, Clone, Copy, PartialEq, Eq)]
pub enum TokenizerError {
    IntegerParseError,
    UnexpectedCharacter(char),
}

/// A token sequence in infix order, as produced by the tokenizer.
#[derive(Debug, PartialEq, Clone)]
pub struct TokenizedInput(pub Vec<Token>);

impl View for TokenizedInput {
    type V = Seq<TokenView>;

    open spec fn view(&self) -> Seq<TokenView> {
        self.0.deep_view()
    }
}

/// First character of an identifier: ASCII letter or underscore.
pub open spec fn is_ident_start_char(c: char) -> bool {
    (65 <= c as u32 && c as u32 <= 90) || (97 <= c as u32 && c as u32 <= 122) || c == '_'
}

/// Decimal digit.
pub open spec fn is_dec_digit(c: char) -> bool {
    48 <= c as u32 && c as u32 <= 57
}

/// Hexadecimal digit, either case.
pub open spec fn is_hex_digit(c: char) -> bool {
    is_dec_digit(c) || (97 <= c as u32 && c as u32 <= 102) || (65 <= c as u32 && c as u32 <= 70)
}

/// Later character of an identifier: ASCII letter, digit or underscore.
pub open spec fn is_ident_char(c: char) -> bool {
    is_ident_start_char(c) || is_dec_digit(c)
}

/// A whitespace character (the Unicode `White_Space` set).
pub open spec fn is_space_char(c: char) -> bool {
    c == ' ' || c == '\t' || c == '\n' || c == '\r' || c == '\u{b}' || c == '\u{c}' || c
        == '\u{85}' || c == '\u{a0}' || c == '\u{1680}' || (0x2000 <= c as u32 && c as u32
        <= 0x200a) || c == '\u{2028}' || c == '\u{2029}' || c == '\u{202f}' || c == '\u{205f}' || c
        == '\u{3000}'
}

/// The numeric value of a digit character.
pub open spec fn digit_val(c: char) -> int {
    if is_dec_digit(c) {
        c as u32 - 48
    } else if 97 <= c as u32 && c as u32 <= 102 {
        c as u32 - 97 + 10
    } else if 65 <= c as u32 && c as u32 <= 70 {
        c as u32 - 65 + 10
    } else {
        0
    }
}

/// The value of a digit string in the given radix.
pub open spec fn num_val(digits: Seq<char>, radix: int) -> int
    decreases digits.len(),
{
    if digits.len() == 0 {
        0
    } else {
        num_val(digits.drop_last(), radix) * radix + digit_val(digits.last())
    }
}

/// Length of the longest identifier-character prefix.
pub open spec fn ident_len(s: Seq<char>) -> int
    decreases s.len(),
{
    if s.len() > 0 && is_ident_char(s[0]) {
        1 + ident_len(s.skip(1))
    } else {
        0
    }
}

/// Length of the longest digit prefix, decimal or hexadecimal.
pub open spec fn digits_len(s: Seq<char>, hex: bool) -> int
    decreases s.len(),
{
    if s.len() > 0 && (if hex {
        is_hex_digit(s[0])
    } else {
        is_dec_digit(s[0])
    }) {
        1 + digits_len(s.skip(1), hex)
    } else {
        0
    }
}

/// Whether a `-` is unary here: it is unless the previous token was a
/// number, a variable or a closing parenthesis.
pub open spec fn spec_makes_unary(prev: Option<TokenView>) -> bool {
    match prev {
        Some(TokenView::Number(_)) => false,
        Some(TokenView::Variable(_)) => false,
        Some(TokenView::RParen) => false,
        _ => true,
    }
}

/// Whether a `+` is binary here: after a number, a variable, a closing
/// parenthesis or a postfix `!` the expression has a value in hand that the
/// `+` joins to what follows; anywhere else (the start of the input
/// included) it is a sign.
pub open spec fn spec_plus_binary(prev: Option<TokenView>) -> bool {
    match prev {
        Some(TokenView::Number(_)) => true,
        Some(TokenView::Variable(_)) => true,
        Some(TokenView::RParen) => true,
        Some(TokenView::UnaryOp(Op::Fact)) => true,
        _ => false,
    }
}

/// Prepend an already-scanned token prefix to the outcome of tokenizing the
/// rest of the input.
pub open spec fn tk_compose(
    prefix: Seq<TokenView>,
    rest: Result<Seq<TokenView>, TokenizerError>,
) -> Result<Seq<TokenView>, TokenizerError> {
    match rest {
        Ok(ts) => Ok(prefix + ts),
        Err(e) => Err(e),
    }
}

/// The tokens of a character sequence.
///
/// `prev` is the token to the left (carried across calls on one tokenizer),
/// and `emitted` records whether this scan has produced a token yet: a
/// whitespace character before the first token clears the carried context.
///
/// A `0x` prefix switches the literal to hexadecimal.
pub open spec fn spec_tokenize(prev: Option<TokenView>, emitted: bool, s: Seq<char>) -> Result<
    Seq<TokenView>,
    TokenizerError,
>
    decreases s.len(),
    via spec_tokenize_decreases
{
    if s.len() == 0 {
        Ok(seq![])
    } else {
        let c = s[0];
        if is_ident_start_char(c) {
            let j = ident_len(s);
            let t = TokenView::Variable(s.take(j));
            tk_compose(seq![t], spec_tokenize(Some(t), true, s.skip(j)))
        } else if is_dec_digit(c) {
            if c == '0' && s.len() >= 2 && s[1] == 'x' {
                let j = 2 + digits_len(s.skip(2), true);
                let digits = seq![c] + s.subrange(2, j);
                if num_val(digits, 16) <= i64::MAX as int {
                    let t = TokenView::Number(num_val(digits, 16) as i64);
                    tk_compose(seq![t], spec_tokenize(Some(t), true, s.skip(j)))
                } else {
                    Err(TokenizerError::IntegerParseError)
                }
            } else {
                let j = 1 + digits_len(s.skip(1), false);
                let digits = s.take(j);
                if num_val(digits, 10) <= i64::MAX as int {
                    let t = TokenView::Number(num_val(digits, 10) as i64);
                    tk_compose(seq![t], spec_tokenize(Some(t), true, s.skip(j)))
                } else {
                    Err(TokenizerError::IntegerParseError)
                }
            }
        } else if c == '+' {
            let t = if spec_plus_binary(prev) {
                TokenView::BinaryOp(Op::Plus)
            } else {
                TokenView::UnaryOp(Op::Plus)
            };
            tk_compose(seq![t], spec_tokenize(Some(t), true, s.skip(1)))
        } else if c == '-' {
            let t = if spec_makes_unary(prev) {
                TokenView::UnaryOp(Op::Minus)
            } else {
                TokenView::BinaryOp(Op::Minus)
            };
            tk_compose(seq![t], spec_tokenize(Some(t), true, s.skip(1)))
        } else if c == '!' {
            let t = TokenView::UnaryOp(Op::Fact);
            tk_compose(seq![t], spec_tokenize(Some(t), true, s.skip(1)))
        } else if c == '^' {
            let t = TokenView::BinaryOp(Op::Pow);
            tk_compose(seq![t], spec_tokenize(Some(t), true, s.skip(1)))
        } else if c == '*' {
            let t = TokenView::BinaryOp(Op::Mult);
            tk_compose(seq![t], spec_tokenize(Some(t), true, s.skip(1)))
        } else if c == '/' {
            let t = TokenView::BinaryOp(Op::Div);
            tk_compose(seq![t], spec_tokenize(Some(t), true, s.skip(1)))
        } else if c == '(' {
            let t = TokenView::LParen;
            tk_compose(seq![t], spec_tokenize(Some(t), true, s.skip(1)))
        } else if c == ')' {
            let t = TokenView::RParen;
            tk_compose(seq![t], spec_tokenize(Some(t), true, s.skip(1)))
        } else if is_space_char(c) {
            spec_tokenize(
                if emitted {
                    prev
                } else {
                    None
                },
                emitted,
                s.skip(1),
            )
        } else {
            Err(TokenizerError::UnexpectedCharacter(c))
        }
    }
}

#[via_fn]
proof fn spec_tokenize_decreases(prev: Option<TokenView>, emitted: bool, s: Seq<char>) {
    if s.len() > 0 {
        lemma_ident_len_bounds(s);
        if s.len() >= 2 {
            lemma_digits_len_bounds(s.skip(2), true);
        }
        lemma_digits_len_bounds(s.skip(1), false);
    }
}

/// The identifier scan never runs past the end, and consumes at least the
/// first character when that character can continue an identifier.
pub proof fn lemma_ident_len_bounds(s: Seq<char>)
    ensures
        0 <= ident_len(s) <= s.len(),
        s.len() > 0 && is_ident_char(s[0]) ==> ident_len(s) >= 1,
    decreases s.len(),
{
    if s.len() > 0 && is_ident_char(s[0]) {
        lemma_ident_len_bounds(s.skip(1));
    }
}

/// The digit scan never runs past the end.
pub proof fn lemma_digits_len_bounds(s: Seq<char>, hex: bool)
    ensures
        0 <= digits_len(s, hex) <= s.len(),
    decreases s.len(),
{
    if s.len() > 0 && (if hex {
        is_hex_digit(s[0])
    } else {
        is_dec_digit(s[0])
    }) {
        lemma_digits_len_bounds(s.skip(1), hex);
    }
}

/// A maximal identifier run observed by scanning matches `ident_len`.
proof fn lemma_scan_ident(s: Seq<char>, i: int, j: int)
    requires
        0 <= i <= j <= s.len(),
        forall|k: int| i <= k < j ==> is_ident_char(s[k]),
        j == s.len() || !is_ident_char(s[j]),
    ensures
        ident_len(s.skip(i)) == j - i,
    decreases j - i,
{
    if i < j {
        lemma_scan_ident(s, i + 1, j);
        assert(s.skip(i)[0] == s[i]);
        assert(s.skip(i).skip(1) =~= s.skip(i + 1));
    } else {
        if i < s.len() {
            assert(s.skip(i)[0] == s[i]);
        }
    }
}

/// A maximal digit run observed by scanning matches `digits_len`.
proof fn lemma_scan_digits(s: Seq<char>, i: int, j: int, hex: bool)
    requires
        0 <= i <= j <= s.len(),
        forall|k: int|
            i <= k < j ==> (if hex {
                is_hex_digit(s[k])
            } else {
                is_dec_digit(s[k])
            }),
        j == s.len() || !(if hex {
            is_hex_digit(s[j])
        } else {
            is_dec_digit(s[j])
        }),
    ensures
        digits_len(s.skip(i), hex) == j - i,
    decreases j - i,
{
    if i < j {
        lemma_scan_digits(s, i + 1, j, hex);
        assert(s.skip(i)[0] == s[i]);
        assert(s.skip(i).skip(1) =~= s.skip(i + 1));
    } else {
        if i < s.len() {
            assert(s.skip(i)[0] == s[i]);
        }
    }
}

/// Digit-string values are nonnegative.
pub proof fn lemma_num_val_nonneg(digits: Seq<char>, radix: int)
    requires
        radix >= 1,
    ensures
        num_val(digits, radix) >= 0,
    decreases digits.len(),
{
    if digits.len() > 0 {
        lemma_num_val_nonneg(digits.drop_last(), radix);
        assert(num_val(digits.drop_last(), radix) * radix >= 0) by (nonlinear_arith)
            requires
                num_val(digits.drop_last(), radix) >= 0,
                radix >= 1,
        ;
    }
}

/// The value of a digit string is at least the value of any prefix.
pub proof fn lemma_num_val_prefix(digits: Seq<char>, radix: int, k: int)
    requires
        radix >= 1,
        0 <= k <= digits.len(),
    ensures
        num_val(digits.take(k), radix) <= num_val(digits, radix),
    decreases digits.len() - k,
{
    if k < digits.len() {
        lemma_num_val_prefix(digits, radix, k + 1);
        let p = digits.take(k);
        let q = digits.take(k + 1);
        assert(q.drop_last() =~= p);
        assert(q.last() == digits[k]);
        lemma_num_val_nonneg(p, radix);
        assert(num_val(p, radix) * radix >= num_val(p, radix)) by (nonlinear_arith)
            requires
                num_val(p, radix) >= 0,
                radix >= 1,
        ;
    } else {
        assert(digits.take(k) =~= digits);
    }
}

/// A scan that has produced nothing yet composes trivially.
proof fn lemma_compose_empty(rest: Result<Seq<TokenView>, TokenizerError>)
    ensures
        tk_compose(Seq::<TokenView>::empty(), rest) == rest,
{
    match rest {
        Ok(us) => {
            assert(Seq::<TokenView>::empty() + us =~= us);
        },
        Err(_) => {},
    }
}

/// Prepending a scanned prefix composes with emitting one more token.
proof fn lemma_compose_push(
    ts: Seq<TokenView>,
    t: TokenView,
    rest: Result<Seq<TokenView>, TokenizerError>,
)
    ensures
        tk_compose(ts, tk_compose(seq![t], rest)) == tk_compose(ts.push(t), rest),
{
    match rest {
        Ok(us) => {
            assert(ts + (seq![t] + us) =~= ts.push(t) + us);
        },
        Err(_) => {},
    }
}

/// Record a variable name in first-use order, skipping names already present.
pub open spec fn insert_var(vars: Seq<Seq<char>>, t: TokenView) -> Seq<Seq<char>> {
    match t {
        TokenView::Variable(name) => if vars.contains(name) {
            vars
        } else {
            vars.push(name)
        },
        _ => vars,
    }
}

/// The variable names of a token sequence, appended to an existing catalog in
/// first-use order.
pub open spec fn record_vars(vars: Seq<Seq<char>>, ts: Seq<TokenView>) -> Seq<Seq<char>>
    decreases ts.len(),
{
    if ts.len() == 0 {
        vars
    } else {
        record_vars(insert_var(vars, ts[0]), ts.skip(1))
    }
}

/// Recording distributes over appending one token at the end.
pub proof fn lemma_record_vars_snoc(vars: Seq<Seq<char>>, ts: Seq<TokenView>, t: TokenView)
    ensures
        record_vars(vars, ts.push(t)) == insert_var(record_vars(vars, ts), t),
    decreases ts.len(),
{
    reveal_with_fuel(record_vars, 3);
    if ts.len() == 0 {
        assert(ts.push(t)[0] == t);
        assert(ts.push(t).skip(1) =~= Seq::<TokenView>::empty());
        assert(record_vars(vars, ts.push(t)) == record_vars(
            insert_var(vars, t),
            Seq::<TokenView>::empty(),
        ));
    } else {
        assert(ts.push(t)[0] == ts[0]);
        assert(ts.push(t).skip(1) =~= ts.skip(1).push(t));
        lemma_record_vars_snoc(insert_var(vars, ts[0]), ts.skip(1), t);
    }
}

/// No name occurs twice.
pub open spec fn distinct_names(vars: Seq<Seq<char>>) -> bool {
    forall|i: int, j: int| 0 <= i < j < vars.len() ==> vars[i] != vars[j]
}

fn is_ident_start_exec(c: char) -> (b: bool)
    ensures
        b == is_ident_start_char(c),
{
    let u = c as u32;
    (65 <= u && u <= 90) || (97 <= u && u <= 122) || c == '_'
}

fn is_ident_char_exec(c: char) -> (b: bool)
    ensures
        b == is_ident_char(c),
{
    let u = c as u32;
    (65 <= u && u <= 90) || (97 <= u && u <= 122) || c == '_' || (48 <= u && u <= 57)
}

fn is_dec_digit_exec(c: char) -> (b: bool)
    ensures
        b == is_dec_digit(c),
{
    let u = c as u32;
    48 <= u && u <= 57
}

fn is_space_exec(c: char) -> (b: bool)
    ensures
        b == is_space_char(c),
{
    let u = c as u32;
    c == ' ' || c == '\t' || c == '\n' || c == '\r' || c == '\u{b}' || c == '\u{c}' || c == '\u{85}'
        || c == '\u{a0}' || c == '\u{1680}' || (0x2000 <= u && u <= 0x200a) || c == '\u{2028}' || c
        == '\u{2029}' || c == '\u{202f}' || c == '\u{205f}' || c == '\u{3000}'
}

/// The character at `j` continues an identifier.
fn ident_char_at(s: &str, j: usize) -> (b: bool)
    requires
        j < s@.len(),
    ensures
        b == is_ident_char(s@[j as int]),
{
    is_ident_char_exec(s.get_char(j))
}

/// The character at `j` continues a numeric literal of the given radix.
fn digit_char_at(s: &str, j: usize, hex: bool) -> (b: bool)
    requires
        j < s@.len(),
    ensures
        b == (if hex {
            is_hex_digit(s@[j as int])
        } else {
            is_dec_digit(s@[j as int])
        }),
{
    let c = s.get_char(j);
    let u = c as u32;
    if hex {
        (48 <= u && u <= 57) || (97 <= u && u <= 102) || (65 <= u && u <= 70)
    } else {
        48 <= u && u <= 57
    }
}

/// The numeric value of a digit character.
fn digit_value(c: char) -> (d: u32)
    requires
        is_hex_digit(c),
    ensures
        d as int == digit_val(c),
{
    let u = c as u32;
    if 48 <= u && u <= 57 {
        u - 48
    } else if 97 <= u && u <= 102 {
        u - 97 + 10
    } else {
        u - 65 + 10
    }
}

/// Whether a vector of names already holds one with this text.
fn contains_name(vars: &Vec<String>, name: &String) -> (b: bool)
    ensures
        b == vars.deep_view().contains(name@),
{
    let mut k: usize = 0;
    while k < vars.len()
        invariant
            k <= vars@.len(),
            forall|m: int| 0 <= m < k ==> vars.deep_view()[m] != name@,
        decreases vars@.len() - k,
    {
        if vars[k] == *name {
            assert(vars.deep_view()[k as int] == name@);
            return true;
        }
        k = k + 1;
    }
    assert(forall|m: int| 0 <= m < vars.deep_view().len() ==> vars.deep_view()[m] != name@);
    false
}

/// Scan the identifier starting at `i`: its text and the position after it.
#[verifier::loop_isolation(false)]
fn lex_ident(input: &str, i: usize, n: usize) -> (r: (String, usize))
    requires
        n == input@.len(),
        i < n,
        is_ident_start_char(input@[i as int]),
    ensures
        i < r.1 <= n,
        ident_len(input@.skip(i as int)) == r.1 - i,
        r.0@ == input@.subrange(i as int, r.1 as int),
{
    let mut j: usize = i + 1;
    while j < n && ident_char_at(input, j)
        invariant
            i < j <= n,
            forall|k: int| i + 1 <= k < j ==> is_ident_char(input@[k]),
        decreases n - j,
    {
        j = j + 1;
    }
    proof {
        lemma_scan_ident(input@, i as int, j as int);
    }
    let name = input.substring_char(i, j).to_owned();
    (name, j)
}

/// Scan the numeric literal starting at `i`: its value and the position after
/// it, or `IntegerParseError` when the value exceeds the signed 64-bit range.
#[verifier::loop_isolation(false)]
#[verifier::rlimit(50)]
fn lex_number(input: &str, i: usize, n: usize) -> (r: Result<(i64, usize), TokenizerError>)
    requires
        n == input@.len(),
        i < n,
        is_dec_digit(input@[i as int]),
    ensures
        ({
            let s = input@.skip(i as int);
            let hex = s[0] == '0' && s.len() >= 2 && s[1] == 'x';
            let j = if hex {
                2 + digits_len(s.skip(2), true)
            } else {
                1 + digits_len(s.skip(1), false)
            };
            let digits = if hex {
                seq![s[0]] + s.subrange(2, j)
            } else {
                s.take(j)
            };
            let radix: int = if hex {
                16
            } else {
                10
            };
            match r {
                Ok((v, j2)) => j2 == i + j && v as int == num_val(digits, radix) && num_val(
                    digits,
                    radix,
                ) <= i64::MAX as int && v >= 0,
                Err(e) => e == TokenizerError::IntegerParseError && num_val(digits, radix)
                    > i64::MAX as int,
            }
        }),
{
    let ghost suffix = input@.skip(i as int);
    proof {
        assert(suffix[0] == input@[i as int]);
        if suffix.len() >= 2 {
            assert(suffix[1] == input@[i + 1]);
        }
    }
    let c = input.get_char(i);
    let hex = c == '0' && i + 1 < n && input.get_char(i + 1) == 'x';
    let j0: usize = if hex {
        i + 2
    } else {
        i + 1
    };
    let mut j: usize = j0;
    while j < n && digit_char_at(input, j, hex)
        invariant
            j0 <= j <= n,
            forall|k: int|
                j0 <= k < j ==> (if hex {
                    is_hex_digit(input@[k])
                } else {
                    is_dec_digit(input@[k])
                }),
        decreases n - j,
    {
        j = j + 1;
    }
    proof {
        lemma_scan_digits(input@, j0 as int, j as int, hex);
    }
    let ghost digits: Seq<char> = if hex {
        seq![input@[i as int]] + input@.subrange(i + 2, j as int)
    } else {
        input@.subrange(i as int, j as int)
    };
    let ghost radix: int = if hex {
        16
    } else {
        10
    };
    proof {
        if hex {
            assert(suffix.skip(2) =~= input@.skip(i + 2));
            assert(seq![suffix[0]] + suffix.subrange(2, j - i) =~= digits);
        } else {
            assert(suffix.skip(1) =~= input@.skip(i + 1));
            assert(suffix.take(j - i) =~= digits);
        }
        assert(digits.len() == (if hex {
            j - i - 1
        } else {
            j - i
        }));
    }
    let radix_exec: i64 = if hex {
        16
    } else {
        10
    };
    let mut acc: i64 = digit_value(c) as i64;
    proof {
        assert(digits[0] == c);
        assert(digits.take(1).drop_last() =~= Seq::<char>::empty());
        assert(digits.take(1).last() == c);
        assert(num_val(Seq::<char>::empty(), radix) == 0);
        assert(num_val(digits.take(1), radix) == num_val(digits.take(1).drop_last(), radix) * radix
            + digit_val(digits.take(1).last()));
        assert(acc as int == num_val(digits.take(1), radix));
    }
    let mut m: usize = j0;
    while m < j
        invariant
            j0 <= m <= j,
            acc as int == num_val(
                digits.take(
                    if hex {
                        m - i - 1
                    } else {
                        m - i
                    },
                ),
                radix,
            ),
            acc >= 0,
        decreases j - m,
    {
        let ghost dix: int = if hex {
            m - i - 1
        } else {
            m - i
        };
        proof {
            assert(digits.take(dix + 1).drop_last() =~= digits.take(dix));
            assert(digits[dix] == input@[m as int]);
            assert(digits.take(dix + 1).last() == digits[dix]);
            lemma_num_val_nonneg(digits.take(dix + 1), radix);
        }
        let ch = input.get_char(m);
        let d = digit_value(ch) as i64;
        let step = match acc.checked_mul(radix_exec) {
            Some(p) => p.checked_add(d),
            None => None,
        };
        match step {
            Some(next) => {
                acc = next;
            },
            None => {
                proof {
                    assert(num_val(digits.take(dix + 1), radix) > i64::MAX as int);
                    lemma_num_val_prefix(digits, radix, dix + 1);
                    assert(num_val(digits, radix) > i64::MAX as int);
                }
                return Err(TokenizerError::IntegerParseError);
            },
        }
        m = m + 1;
    }
    proof {
        assert(digits.take(digits.len() as int) =~= digits);
        assert(acc as int == num_val(digits, radix));
    }
    Ok((acc, j))
}

/// The stateful tokenizer: remembers the previous token for unary/binary
/// disambiguation and collects the set of variable names seen.
pub struct Tokenizer {
    prev: Option<Token>,
    variables: Vec<String>,
}

impl Tokenizer {
    /// The token to the left of the next input, if any.
    pub closed spec fn prev_view(&self) -> Option<TokenView> {
        match self.prev {
            Some(ref t) => Some(t@),
            None => None,
        }
    }

    /// The variable names collected so far, in first-use order.
    pub closed spec fn vars_view(&self) -> Seq<Seq<char>> {
        self.variables.deep_view()
    }

    /// The collected names hold no duplicates.
    pub closed spec fn wf(&self) -> bool {
        distinct_names(self.vars_view())
    }

    pub fn new() -> (r: Tokenizer)
        ensures
            r.prev_view() is None,
            r.vars_view() == Seq::<Seq<char>>::empty(),
            r.wf(),
    {
        let r = Tokenizer { prev: None, variables: Vec::new() };
        proof {
            assert(r.vars_view() =~= Seq::<Seq<char>>::empty());
        }
        r
    }

    fn makes_unary(&self) -> (b: bool)
        ensures
            b == spec_makes_unary(self.prev_view()),
    {
        !matches!(
            self.prev,
            Some(Token::Number(_)) | Some(Token::Variable(_)) | Some(Token::RParen)
        )
    }

    fn plus_is_binary(&self) -> (b: bool)
        ensures
            b == spec_plus_binary(self.prev_view()),
    {
        matches!(
            self.prev,
            Some(Token::Number(_)) | Some(Token::Variable(_)) | Some(Token::RParen) | Some(
                Token::UnaryOp(Op::Fact),
            )
        )
    }

    /// The set of variable names encountered so far, in first-use order and
    /// without duplicates.
    pub fn get_variables(&self) -> (r: &Vec<String>)
        ensures
            r.deep_view() == self.vars_view(),
    {
        &self.variables
    }

    /// Record the variable names of a scanned token sequence.
    #[verifier::loop_isolation(false)]
    fn record_variables(&mut self, tokens: &Vec<Token>)
        requires
            old(self).wf(),
        ensures
            final(self).wf(),
            final(self).vars_view() == record_vars(old(self).vars_view(), tokens.deep_view()),
            final(self).prev_view() == old(self).prev_view(),
    {
        let ghost ts = tokens.deep_view();
        let mut k: usize = 0;
        while k < tokens.len()
            invariant
                k <= ts.len(),
                self.prev_view() == old(self).prev_view(),
                self.wf(),
                self.vars_view() == record_vars(old(self).vars_view(), ts.take(k as int)),
            decreases ts.len() - k,
        {
            proof {
                assert(ts.take(k + 1) =~= ts.take(k as int).push(ts[k as int]));
                lemma_record_vars_snoc(old(self).vars_view(), ts.take(k as int), ts[k as int]);
            }
            match &tokens[k] {
                Token::Variable(name) => {
                    if !contains_name(&self.variables, name) {
                        let ghost pre = self.vars_view();
                        self.variables.push(name.clone());
                        proof {
                            assert(self.vars_view() =~= pre.push(name@));
                            assert forall|i: int, j: int|
                                0 <= i < j < self.vars_view().len() implies self.vars_view()[i]
                                != self.vars_view()[j] by {
                                if j == pre.len() {
                                    assert(!pre.contains(name@));
                                    assert(pre[i] != name@);
                                }
                            }
                        }
                    }
                },
                _ => {},
            }
            k = k + 1;
        }
        proof {
            assert(ts.take(ts.len() as int) =~= ts);
        }
    }

    /// Scan `input` into a token sequence.
    ///
    /// Returns exactly what [`spec_tokenize`] gives for the carried context:
    /// identifiers become variables, digit runs become numbers (`0x` for
    /// hexadecimal; `IntegerParseError` past the signed 64-bit range), and
    /// operator characters become operator tokens: `-` is unary after
    /// anything but a number, a variable or a closing parenthesis, `+` is
    /// unary after anything but those three or a postfix `!` (whose operand
    /// has a value a following `+` joins), whitespace is discarded, and any
    /// other character fails with `UnexpectedCharacter`.
    /// On success the names of the scanned variables are added to the
    /// collected set in first-use order.
    #[verifier::loop_isolation(false)]
    #[verifier::rlimit(100)]
    pub fn tokenize(&mut self, input: &str) -> (r: Result<TokenizedInput, TokenizerError>)
        requires
            old(self).wf(),
        ensures
            final(self).wf(),
            (spec_tokenize(old(self).prev_view(), false, input@) matches Ok(ts) ==> r matches Ok(ti)
                && ti@ == ts),
            (spec_tokenize(old(self).prev_view(), false, input@) matches Err(e) ==> r == Err::<
                TokenizedInput,
                TokenizerError,
            >(e)),
            (r matches Ok(ti) ==> final(self).vars_view() == record_vars(
                old(self).vars_view(),
                ti@,
            )),
            (r matches Err(_) ==> final(self).vars_view() == old(self).vars_view()),
    {
        let ghost g_total = spec_tokenize(old(self).prev_view(), false, input@);
        let n = input.unicode_len();
        let mut tokens: Vec<Token> = Vec::new();
        let mut i: usize = 0;
        proof {
            assert(tokens.deep_view() =~= Seq::<TokenView>::empty());
            assert(input@.skip(0) =~= input@);
            lemma_compose_empty(g_total);
        }
        while i < n
            invariant
                n == input@.len(),
                i <= n,
                self.variables == old(self).variables,
                self.wf(),
                tokens@.len() > 0 ==> self.prev_view() == Some(tokens.deep_view().last()),
                tokens@.len() == 0 && i > 0 ==> self.prev_view() is None,
                i == 0 ==> self.prev_view() == old(self).prev_view() && tokens@.len() == 0,
                g_total == tk_compose(
                    tokens.deep_view(),
                    spec_tokenize(self.prev_view(), tokens@.len() > 0, input@.skip(i as int)),
                ),
            decreases n - i,
        {
            let ghost suffix = input@.skip(i as int);
            let ghost prev_i = self.prev_view();
            let ghost emitted_i = tokens@.len() > 0;
            let ghost toks_i = tokens.deep_view();
            proof {
                assert(suffix[0] == input@[i as int]);
            }
            let c = input.get_char(i);
            if is_ident_start_exec(c) {
                let (name, j) = lex_ident(input, i, n);
                proof {
                    assert(suffix.take(j - i) =~= input@.subrange(i as int, j as int));
                    assert(suffix.skip(j - i) =~= input@.skip(j as int));
                }
                let ghost tv = TokenView::Variable(name@);
                self.prev = Some(Token::Variable(name.clone()));
                tokens.push(Token::Variable(name));
                proof {
                    assert(tokens.deep_view() =~= toks_i.push(tv));
                    lemma_compose_push(
                        toks_i,
                        tv,
                        spec_tokenize(Some(tv), true, input@.skip(j as int)),
                    );
                }
                i = j;
            } else if is_dec_digit_exec(c) {
                proof {
                    if suffix.len() >= 2 {
                        assert(suffix[1] == input@[i + 1]);
                    }
                }
                match lex_number(input, i, n) {
                    Ok((value, j)) => {
                        proof {
                            if suffix[0] == '0' && suffix.len() >= 2 && suffix[1] == 'x' {
                                lemma_digits_len_bounds(suffix.skip(2), true);
                                assert(suffix.skip(2).len() == suffix.len() - 2);
                            } else {
                                lemma_digits_len_bounds(suffix.skip(1), false);
                                assert(suffix.skip(1).len() == suffix.len() - 1);
                            }
                            assert(i < j <= n);
                            assert(suffix.skip(j - i) =~= input@.skip(j as int));
                        }
                        let ghost tv = TokenView::Number(value);
                        self.prev = Some(Token::Number(value));
                        tokens.push(Token::Number(value));
                        proof {
                            assert(tokens.deep_view() =~= toks_i.push(tv));
                            lemma_compose_push(
                                toks_i,
                                tv,
                                spec_tokenize(Some(tv), true, input@.skip(j as int)),
                            );
                        }
                        i = j;
                    },
                    Err(e) => {
                        proof {
                            assert(g_total == Err::<Seq<TokenView>, TokenizerError>(
                                TokenizerError::IntegerParseError,
                            ));
                        }
                        return Err(e);
                    },
                }
            } else if c == '+' || c == '-' || c == '!' || c == '^' || c == '*' || c == '/' || c
                == '(' || c == ')' {
                let tok: Token = if c == '+' {
                    if self.plus_is_binary() {
                        Token::BinaryOp(Op::Plus)
                    } else {
                        Token::UnaryOp(Op::Plus)
                    }
                } else if c == '-' {
                    if self.makes_unary() {
                        Token::UnaryOp(Op::Minus)
                    } else {
                        Token::BinaryOp(Op::Minus)
                    }
                } else if c == '!' {
                    Token::UnaryOp(Op::Fact)
                } else if c == '^' {
                    Token::BinaryOp(Op::Pow)
                } else if c == '*' {
                    Token::BinaryOp(Op::Mult)
                } else if c == '/' {
                    Token::BinaryOp(Op::Div)
                } else if c == '(' {
                    Token::LParen
                } else {
                    Token::RParen
                };
                let ghost tv = tok@;
                proof {
                    assert(suffix.skip(1) =~= input@.skip(i + 1));
                }
                self.prev = Some(tok.clone());
                tokens.push(tok);
                proof {
                    assert(tokens.deep_view() =~= toks_i.push(tv));
                    lemma_compose_push(
                        toks_i,
                        tv,
                        spec_tokenize(Some(tv), true, input@.skip(i + 1)),
                    );
                }
                i = i + 1;
            } else if is_space_exec(c) {
                proof {
                    assert(suffix.skip(1) =~= input@.skip(i + 1));
                }
                if tokens.len() == 0 {
                    self.prev = None;
                }
                i = i + 1;
            } else {
                proof {
                    assert(g_total == Err::<Seq<TokenView>, TokenizerError>(
                        TokenizerError::UnexpectedCharacter(c),
                    ));
                }
                return Err(TokenizerError::UnexpectedCharacter(c));
            }
        }
        proof {
            assert(input@.skip(n as int) =~= Seq::<char>::empty());
            assert(g_total == tk_compose(
                tokens.deep_view(),
                Ok::<Seq<TokenView>, TokenizerError>(seq![]),
            ));
            assert(tokens.deep_view() + seq![] =~= tokens.deep_view());
        }
        self.record_variables(&tokens);
        Ok(TokenizedInput(tokens))
    }
}

/// A well-formed identifier text: an identifier-start character followed by
/// identifier characters.
pub open spec fn is_ident_seq(name: Seq<char>) -> bool {
    name.len() > 0 && is_ident_start_char(name[0]) && (forall|i: int|
        0 < i < name.len() ==> is_ident_char(#[trigger] name[i]))
}

/// A token the printer can reproduce in this left context: numbers are
/// nonnegative, variable names are identifiers, `+` and `-` appear in the
/// roles their contexts dictate, `!` only as unary and `* / ^` only as
/// binary — exactly the shapes the tokenizer itself produces.
pub open spec fn printable_token(t: TokenView, prev: Option<TokenView>) -> bool {
    match t {
        TokenView::Number(n) => n >= 0,
        TokenView::Variable(name) => is_ident_seq(name),
        TokenView::UnaryOp(Op::Minus) => spec_makes_unary(prev),
        TokenView::BinaryOp(Op::Minus) => !spec_makes_unary(prev),
        TokenView::UnaryOp(Op::Plus) => !spec_plus_binary(prev),
        TokenView::UnaryOp(Op::Fact) => true,
        TokenView::BinaryOp(Op::Plus) => spec_plus_binary(prev),
        TokenView::BinaryOp(Op::Mult) => true,
        TokenView::BinaryOp(Op::Div) => true,
        TokenView::BinaryOp(Op::Pow) => true,
        TokenView::LParen => true,
        TokenView::RParen => true,
        _ => false,
    }
}

/// Every token of the sequence is printable in its context.
pub open spec fn printable_from(ts: Seq<TokenView>, prev: Option<TokenView>) -> bool
    decreases ts.len(),
{
    ts.len() == 0 || (printable_token(ts[0], prev) && printable_from(ts.skip(1), Some(ts[0])))
}

/// The decimal digit of a value below ten.
pub open spec fn dec_digit_char(n: int) -> char {
    if n == 0 {
        '0'
    } else if n == 1 {
        '1'
    } else if n == 2 {
        '2'
    } else if n == 3 {
        '3'
    } else if n == 4 {
        '4'
    } else if n == 5 {
        '5'
    } else if n == 6 {
        '6'
    } else if n == 7 {
        '7'
    } else if n == 8 {
        '8'
    } else {
        '9'
    }
}

/// The decimal digits of a nonnegative value, most significant first.
pub open spec fn dec_digits(n: int) -> Seq<char>
    decreases n,
{
    if n < 10 {
        seq![dec_digit_char(n)]
    } else {
        dec_digits(n / 10) + seq![dec_digit_char(n % 10)]
    }
}

/// The text of one token.
pub open spec fn print_token(t: TokenView) -> Seq<char> {
    match t {
        TokenView::Number(n) => dec_digits(n as int),
        TokenView::Variable(name) => name,
        TokenView::UnaryOp(Op::Plus) => seq!['+'],
        TokenView::UnaryOp(Op::Minus) => seq!['-'],
        TokenView::UnaryOp(Op::Fact) => seq!['!'],
        TokenView::UnaryOp(Op::Mult) => seq!['*'],
        TokenView::UnaryOp(Op::Div) => seq!['/'],
        TokenView::UnaryOp(Op::Pow) => seq!['^'],
        TokenView::BinaryOp(Op::Plus) => seq!['+'],
        TokenView::BinaryOp(Op::Minus) => seq!['-'],
        TokenView::BinaryOp(Op::Fact) => seq!['!'],
        TokenView::BinaryOp(Op::Mult) => seq!['*'],
        TokenView::BinaryOp(Op::Div) => seq!['/'],
        TokenView::BinaryOp(Op::Pow) => seq!['^'],
        TokenView::LParen => seq!['('],
        TokenView::RParen => seq![')'],
    }
}

/// The text of a token sequence: the tokens' texts separated by single
/// spaces.
pub open spec fn spec_untokenize(ts: Seq<TokenView>) -> Seq<char>
    decreases ts.len(),
{
    if ts.len() == 0 {
        Seq::<char>::empty()
    } else if ts.len() == 1 {
        print_token(ts[0])
    } else {
        print_token(ts[0]) + seq![' '] + spec_untokenize(ts.skip(1))
    }
}

/// Every number in the sequence is nonnegative, as tokenizer output is.
pub open spec fn nonneg_numbers(ts: Seq<TokenView>) -> bool {
    forall|i: int|
        0 <= i < ts.len() ==> ((#[trigger] ts[i]) matches TokenView::Number(n) ==> n >= 0)
}

/// Append one decimal digit's character.
fn append_digit(out: &mut String, d: u64)
    requires
        d < 10,
    ensures
        final(out)@ == old(out)@ + seq![dec_digit_char(d as int)],
{
    if d == 0 {
        proof {
            reveal_strlit("0");
        }
        out.append("0");
    } else if d == 1 {
        proof {
            reveal_strlit("1");
        }
        out.append("1");
    } else if d == 2 {
        proof {
            reveal_strlit("2");
        }
        out.append("2");
    } else if d == 3 {
        proof {
            reveal_strlit("3");
        }
        out.append("3");
    } else if d == 4 {
        proof {
            reveal_strlit("4");
        }
        out.append("4");
    } else if d == 5 {
        proof {
            reveal_strlit("5");
        }
        out.append("5");
    } else if d == 6 {
        proof {
            reveal_strlit("6");
        }
        out.append("6");
    } else if d == 7 {
        proof {
            reveal_strlit("7");
        }
        out.append("7");
    } else if d == 8 {
        proof {
            reveal_strlit("8");
        }
        out.append("8");
    } else {
        proof {
            reveal_strlit("9");
        }
        out.append("9");
    }
    proof {
        assert(final(out)@ =~= old(out)@ + seq![dec_digit_char(d as int)]);
    }
}

/// Append the decimal digits of a value, most significant first.
fn append_decimal(out: &mut String, n: u64)
    ensures
        final(out)@ == old(out)@ + dec_digits(n as int),
    decreases n,
{
    if n >= 10 {
        append_decimal(out, n / 10);
        append_digit(out, n % 10);
        proof {
            assert(final(out)@ =~= old(out)@ + dec_digits(n as int));
        }
    } else {
        append_digit(out, n);
    }
}

/// Append one token's text.
fn append_token(out: &mut String, token: &Token)
    requires
        token@ matches TokenView::Number(n) ==> n >= 0,
    ensures
        final(out)@ == old(out)@ + print_token(token@),
{
    match token {
        Token::Variable(name) => {
            out.append(name.as_str());
        },
        Token::Number(n) => {
            append_decimal(out, *n as u64);
        },
        Token::UnaryOp(Op::Plus) | Token::BinaryOp(Op::Plus) => {
            proof {
                reveal_strlit("+");
            }
            out.append("+");
            proof {
                assert(final(out)@ =~= old(out)@ + print_token(token@));
            }
        },
        Token::UnaryOp(Op::Minus) | Token::BinaryOp(Op::Minus) => {
            proof {
                reveal_strlit("-");
            }
            out.append("-");
            proof {
                assert(final(out)@ =~= old(out)@ + print_token(token@));
            }
        },
        Token::UnaryOp(Op::Fact) | Token::BinaryOp(Op::Fact) => {
            proof {
                reveal_strlit("!");
            }
            out.append("!");
            proof {
                assert(final(out)@ =~= old(out)@ + print_token(token@));
            }
        },
        Token::UnaryOp(Op::Mult) | Token::BinaryOp(Op::Mult) => {
            proof {
                reveal_strlit("*");
            }
            out.append("*");
            proof {
                assert(final(out)@ =~= old(out)@ + print_token(token@));
            }
        },
        Token::UnaryOp(Op::Div) | Token::BinaryOp(Op::Div) => {
            proof {
                reveal_strlit("/");
            }
            out.append("/");
            proof {
                assert(final(out)@ =~= old(out)@ + print_token(token@));
            }
        },
        Token::UnaryOp(Op::Pow) | Token::BinaryOp(Op::Pow) => {
            proof {
                reveal_strlit("^");
            }
            out.append("^");
            proof {
                assert(final(out)@ =~= old(out)@ + print_token(token@));
            }
        },
        Token::LParen => {
            proof {
                reveal_strlit("(");
            }
            out.append("(");
            proof {
                assert(final(out)@ =~= old(out)@ + print_token(token@));
            }
        },
        Token::RParen => {
            proof {
                reveal_strlit(")");
            }
            out.append(")");
            proof {
                assert(final(out)@ =~= old(out)@ + print_token(token@));
            }
        },
    }
}

/// Pretty-print a token sequence: the tokens' texts separated by single
/// spaces. Tokenizing the result of printing a tokenizer's own output gives
/// the same token sequence back.
#[verifier::loop_isolation(false)]
pub fn untokenize(tokens: &TokenizedInput) -> (r: String)
    requires
        nonneg_numbers(tokens@),
    ensures
        r@ == spec_untokenize(tokens@),
{
    let ghost whole = tokens@;
    let mut out = String::new();
    let n = tokens.0.len();
    let mut i: usize = 0;
    proof {
        assert(whole.skip(0) =~= whole);
        assert(out@ + spec_untokenize(whole) =~= spec_untokenize(whole));
    }
    while i < n
        invariant
            i <= n,
            n == whole.len(),
            whole == tokens@,
            spec_untokenize(whole) == out@ + spec_untokenize(whole.skip(i as int)),
        decreases n - i,
    {
        let ghost rest = whole.skip(i as int);
        proof {
            assert(rest[0] == whole[i as int]);
            assert(rest[0] == tokens.0@[i as int]@);
            assert(rest.skip(1) =~= whole.skip(i + 1));
        }
        append_token(&mut out, &tokens.0[i]);
        if i + 1 < n {
            proof {
                reveal_strlit(" ");
            }
            out.append(" ");
            proof {
                assert(spec_untokenize(rest) =~= print_token(rest[0]) + seq![' ']
                    + spec_untokenize(rest.skip(1)));
                assert(spec_untokenize(whole) =~= out@ + spec_untokenize(whole.skip(i + 1)));
            }
        } else {
            proof {
                assert(rest.len() == 1);
                assert(whole.skip(i + 1) =~= Seq::<TokenView>::empty());
                assert(spec_untokenize(whole) =~= out@ + spec_untokenize(whole.skip(i + 1)));
            }
        }
        i = i + 1;
    }
    proof {
        assert(whole.skip(n as int) =~= Seq::<TokenView>::empty());
        assert(out@ + Seq::<char>::empty() =~= out@);
    }
    out
}

/// A run of identifier characters followed by a boundary scans to exactly
/// the run's length.
proof fn lemma_ident_len_concat(u: Seq<char>, v: Seq<char>)
    requires
        forall|i: int| 0 <= i < u.len() ==> is_ident_char(#[trigger] u[i]),
        v.len() == 0 || !is_ident_char(v[0]),
    ensures
        ident_len(u + v) == u.len(),
    decreases u.len(),
{
    if u.len() == 0 {
        assert(u + v =~= v);
    } else {
        assert((u + v)[0] == u[0]);
        assert((u + v).skip(1) =~= u.skip(1) + v);
        assert(forall|i: int| 0 <= i < u.skip(1).len() ==> #[trigger] u.skip(1)[i] == u[i + 1]);
        lemma_ident_len_concat(u.skip(1), v);
    }
}

/// A run of digits followed by a boundary scans to exactly the run's length.
proof fn lemma_digits_len_concat(u: Seq<char>, v: Seq<char>, hex: bool)
    requires
        forall|i: int|
            0 <= i < u.len() ==> (if hex {
                is_hex_digit(#[trigger] u[i])
            } else {
                is_dec_digit(#[trigger] u[i])
            }),
        v.len() == 0 || !(if hex {
            is_hex_digit(v[0])
        } else {
            is_dec_digit(v[0])
        }),
    ensures
        digits_len(u + v, hex) == u.len(),
    decreases u.len(),
{
    if u.len() == 0 {
        assert(u + v =~= v);
    } else {
        assert((u + v)[0] == u[0]);
        assert((u + v).skip(1) =~= u.skip(1) + v);
        assert(forall|i: int| 0 <= i < u.skip(1).len() ==> #[trigger] u.skip(1)[i] == u[i + 1]);
        lemma_digits_len_concat(u.skip(1), v, hex);
    }
}

/// The characters the identifier scan accepts really are identifier
/// characters.
proof fn lemma_ident_len_chars(s: Seq<char>)
    ensures
        forall|i: int| 0 <= i < ident_len(s) ==> is_ident_char(#[trigger] s[i]),
    decreases s.len(),
{
    if s.len() > 0 && is_ident_char(s[0]) {
        lemma_ident_len_chars(s.skip(1));
        lemma_ident_len_bounds(s.skip(1));
        assert forall|i: int| 0 <= i < ident_len(s) implies is_ident_char(#[trigger] s[i]) by {
            if i > 0 {
                assert(s.skip(1)[i - 1] == s[i]);
                assert(is_ident_char(s.skip(1)[i - 1]));
            }
        }
    }
}

/// The decimal digits of a nonnegative value: at least one digit, digits
/// only, and parsing them in base ten gives the value back.
proof fn lemma_dec_digits(n: int)
    requires
        n >= 0,
    ensures
        dec_digits(n).len() >= 1,
        forall|i: int| 0 <= i < dec_digits(n).len() ==> is_dec_digit(#[trigger] dec_digits(n)[i]),
        num_val(dec_digits(n), 10) == n,
    decreases n,
{
    if n < 10 {
        let dd = dec_digits(n);
        assert(dd =~= seq![dec_digit_char(n)]);
        assert(is_dec_digit(dec_digit_char(n)));
        assert(dd.drop_last() =~= Seq::<char>::empty());
        assert(num_val(dd, 10) == num_val(Seq::<char>::empty(), 10) * 10 + digit_val(dd.last()));
        assert(digit_val(dec_digit_char(n)) == n);
    } else {
        vstd::arithmetic::div_mod::lemma_fundamental_div_mod(n, 10);
        vstd::arithmetic::div_mod::lemma_div_pos_is_pos(n, 10);
        lemma_dec_digits(n / 10);
        let hd = dec_digits(n / 10);
        let dd = dec_digits(n);
        assert(dd == hd + seq![dec_digit_char(n % 10)]);
        assert(dd.drop_last() =~= hd);
        assert(dd.last() == dec_digit_char(n % 10));
        assert(0 <= n % 10 < 10);
        assert(digit_val(dec_digit_char(n % 10)) == n % 10);
        assert(is_dec_digit(dec_digit_char(n % 10)));
        assert(num_val(dd, 10) == num_val(hd, 10) * 10 + (n % 10));
        assert forall|i: int| 0 <= i < dd.len() implies is_dec_digit(#[trigger] dd[i]) by {
            if i < hd.len() {
                assert(dd[i] == hd[i]);
            } else {
                assert(dd[i] == dec_digit_char(n % 10));
            }
        }
    }
}

/// Scanning the printed text of one token in its context yields that token
/// and leaves exactly the tail, provided the tail opens with a space or is
/// empty.
proof fn lemma_tokenize_one(t: TokenView, prev: Option<TokenView>, emitted: bool, tail: Seq<char>)
    requires
        printable_token(t, prev),
        tail.len() == 0 || tail[0] == ' ',
    ensures
        spec_tokenize(prev, emitted, print_token(t) + tail) == tk_compose(
            seq![t],
            spec_tokenize(Some(t), true, tail),
        ),
{
    let s = print_token(t) + tail;
    match t {
        TokenView::Variable(name) => {
            assert(s[0] == name[0]);
            assert(is_ident_start_char(s[0]));
            assert(forall|i: int| 0 <= i < name.len() ==> is_ident_char(#[trigger] name[i]));
            lemma_ident_len_concat(name, tail);
            assert(ident_len(s) == name.len());
            assert(s.take(name.len() as int) =~= name);
            assert(s.skip(name.len() as int) =~= tail);
        },
        TokenView::Number(n) => {
            let dd = dec_digits(n as int);
            lemma_dec_digits(n as int);
            assert(s[0] == dd[0]);
            assert(is_dec_digit(s[0]));
            assert(!is_ident_start_char(s[0]));
            if s.len() >= 2 {
                if dd.len() >= 2 {
                    assert(s[1] == dd[1]);
                    assert(is_dec_digit(s[1]));
                    assert(s[1] != 'x');
                } else {
                    assert(s[1] == tail[0]);
                    assert(s[1] != 'x');
                }
            }
            assert(s.skip(1) =~= dd.skip(1) + tail);
            assert(forall|i: int| 0 <= i < dd.skip(1).len() ==> #[trigger] dd.skip(1)[i] == dd[i
                + 1]);
            lemma_digits_len_concat(dd.skip(1), tail, false);
            assert(digits_len(s.skip(1), false) == dd.len() - 1);
            assert(s.take(dd.len() as int) =~= dd);
            assert(s.skip(dd.len() as int) =~= tail);
            assert(num_val(dd, 10) == n as int);
            assert(num_val(dd, 10) <= i64::MAX as int);
            assert(num_val(dd, 10) as i64 == n);
        },
        _ => {
            let c = s[0];
            assert(print_token(t).len() == 1);
            assert(c == print_token(t)[0]);
            assert(s.skip(1) =~= tail);
            assert(!is_ident_start_char(c));
            assert(!is_dec_digit(c));
        },
    }
}

/// A space before the rest of the input is discarded without touching the
/// context once a token has been emitted.
proof fn lemma_tokenize_space(prev: Option<TokenView>, rest: Seq<char>)
    ensures
        spec_tokenize(prev, true, seq![' '] + rest) == spec_tokenize(prev, true, rest),
{
    let s = seq![' '] + rest;
    assert(s[0] == ' ');
    assert(is_space_char(s[0]));
    assert(!is_ident_start_char(s[0]));
    assert(!is_dec_digit(s[0]));
    assert(s.skip(1) =~= rest);
}

/// Tokenizing the printed text of a printable token sequence, from any
/// context it is printable in, yields exactly that sequence.
proof fn lemma_round_trip_from(ts: Seq<TokenView>, prev: Option<TokenView>, emitted: bool)
    requires
        printable_from(ts, prev),
    ensures
        spec_tokenize(prev, emitted, spec_untokenize(ts)) == Ok::<Seq<TokenView>, TokenizerError>(
            ts,
        ),
    decreases ts.len(),
{
    if ts.len() == 0 {
        assert(spec_untokenize(ts) == Seq::<char>::empty());
        assert(Seq::<TokenView>::empty() =~= ts);
    } else if ts.len() == 1 {
        let t = ts[0];
        lemma_tokenize_one(t, prev, emitted, Seq::<char>::empty());
        assert(print_token(t) + Seq::<char>::empty() =~= print_token(t));
        assert(spec_tokenize(Some(t), true, Seq::<char>::empty()) == Ok::<
            Seq<TokenView>,
            TokenizerError,
        >(seq![]));
        assert(seq![t] + Seq::<TokenView>::empty() =~= ts);
    } else {
        let t = ts[0];
        let rest = ts.skip(1);
        let tail = seq![' '] + spec_untokenize(rest);
        assert(spec_untokenize(ts) =~= print_token(t) + tail);
        assert(tail[0] == ' ');
        lemma_tokenize_one(t, prev, emitted, tail);
        lemma_tokenize_space(Some(t), spec_untokenize(rest));
        lemma_round_trip_from(rest, Some(t), true);
        assert(spec_tokenize(Some(t), true, tail) == Ok::<Seq<TokenView>, TokenizerError>(rest));
        assert(seq![t] + rest =~= ts);
    }
}

/// What a scan emits is printable: each token's role matches the context it
/// was read in. The carried context is only consulted before the first
/// emission, so it must be empty when nothing has been emitted yet.
pub proof fn lemma_tokenize_output_printable(prev: Option<TokenView>, emitted: bool, s: Seq<char>)
    requires
        !emitted ==> prev is None,
    ensures
        spec_tokenize(prev, emitted, s) matches Ok(ts) ==> printable_from(ts, prev),
    decreases s.len(),
{
    if s.len() == 0 {
    } else {
        let c = s[0];
        if is_ident_start_char(c) {
            let j = ident_len(s);
            lemma_ident_len_bounds(s);
            lemma_ident_len_chars(s);
            let name = s.take(j);
            assert(is_ident_seq(name)) by {
                assert(name[0] == s[0]);
                assert(is_ident_char(s[0]));
                assert(forall|i: int| 0 < i < j ==> is_ident_char(#[trigger] name[i]));
            }
            let t = TokenView::Variable(name);
            lemma_tokenize_output_printable(Some(t), true, s.skip(j));
            lemma_round_trip_step(t, prev, spec_tokenize(Some(t), true, s.skip(j)));
        } else if is_dec_digit(c) {
            if c == '0' && s.len() >= 2 && s[1] == 'x' {
                let j = 2 + digits_len(s.skip(2), true);
                let digits = seq![c] + s.subrange(2, j);
                if num_val(digits, 16) <= i64::MAX as int {
                    lemma_num_val_nonneg(digits, 16);
                    let t = TokenView::Number(num_val(digits, 16) as i64);
                    lemma_digits_len_bounds(s.skip(2), true);
                    lemma_tokenize_output_printable(Some(t), true, s.skip(j));
                    lemma_round_trip_step(t, prev, spec_tokenize(Some(t), true, s.skip(j)));
                }
            } else {
                let j = 1 + digits_len(s.skip(1), false);
                let digits = s.take(j);
                if num_val(digits, 10) <= i64::MAX as int {
                    lemma_num_val_nonneg(digits, 10);
                    let t = TokenView::Number(num_val(digits, 10) as i64);
                    lemma_digits_len_bounds(s.skip(1), false);
                    lemma_tokenize_output_printable(Some(t), true, s.skip(j));
                    lemma_round_trip_step(t, prev, spec_tokenize(Some(t), true, s.skip(j)));
                }
            }
        } else if c == '+' || c == '-' || c == '!' || c == '^' || c == '*' || c == '/' || c == '('
            || c == ')' {
            let t = if c == '+' {
                if spec_plus_binary(prev) {
                    TokenView::BinaryOp(Op::Plus)
                } else {
                    TokenView::UnaryOp(Op::Plus)
                }
            } else if c == '-' {
                if spec_makes_unary(prev) {
                    TokenView::UnaryOp(Op::Minus)
                } else {
                    TokenView::BinaryOp(Op::Minus)
                }
            } else if c == '!' {
                TokenView::UnaryOp(Op::Fact)
            } else if c == '^' {
                TokenView::BinaryOp(Op::Pow)
            } else if c == '*' {
                TokenView::BinaryOp(Op::Mult)
            } else if c == '/' {
                TokenView::BinaryOp(Op::Div)
            } else if c == '(' {
                TokenView::LParen
            } else {
                TokenView::RParen
            };
            lemma_tokenize_output_printable(Some(t), true, s.skip(1));
            lemma_round_trip_step(t, prev, spec_tokenize(Some(t), true, s.skip(1)));
        } else if is_space_char(c) {
            lemma_tokenize_output_printable(
                if emitted {
                    prev
                } else {
                    None
                },
                emitted,
                s.skip(1),
            );
        } else {
        }
    }
}

/// Prepending a printable token keeps the sequence printable.
proof fn lemma_round_trip_step(
    t: TokenView,
    prev: Option<TokenView>,
    rest: Result<Seq<TokenView>, TokenizerError>,
)
    requires
        printable_token(t, prev),
        rest matches Ok(ts) ==> printable_from(ts, Some(t)),
    ensures
        tk_compose(seq![t], rest) matches Ok(ts2) ==> printable_from(ts2, prev),
{
    match rest {
        Ok(ts) => {
            let ts2 = seq![t] + ts;
            assert(ts2[0] == t);
            assert(ts2.skip(1) =~= ts);
        },
        Err(_) => {},
    }
}

/// Printable sequences hold no negative numbers, so the printer's
/// precondition is met by any printable sequence.
pub proof fn lemma_printable_nonneg(ts: Seq<TokenView>, prev: Option<TokenView>)
    requires
        printable_from(ts, prev),
    ensures
        nonneg_numbers(ts),
    decreases ts.len(),
{
    if ts.len() > 0 {
        lemma_printable_nonneg(ts.skip(1), Some(ts[0]));
        assert forall|i: int|
            0 <= i < ts.len() implies ((#[trigger] ts[i]) matches TokenView::Number(n) ==> n
            >= 0) by {
            if i > 0 {
                assert(ts.skip(1)[i - 1] == ts[i]);
            }
        }
    }
}

/// Tokenizing, pretty-printing and tokenizing again yields the same token
/// sequence: a fresh scan's output is printable, and printing a printable
/// sequence inverts the scan.
pub proof fn lemma_tokenize_untokenize_round_trip(s: Seq<char>)
    ensures
        spec_tokenize(None, false, s) matches Ok(ts) ==> spec_tokenize(
            None,
            false,
            spec_untokenize(ts),
        ) == Ok::<Seq<TokenView>, TokenizerError>(ts),
{
    lemma_tokenize_output_printable(None, false, s);
    match spec_tokenize(None, false, s) {
        Ok(ts) => {
            lemma_round_trip_from(ts, None, false);
        },
        Err(_) => {},
    }
}

} // verus!
