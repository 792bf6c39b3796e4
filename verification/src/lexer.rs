//! Tokenizer stage: a pull-based lexical scanner. Each call to
//! [`Lexer::next_token`] advances a cursor over the character stream and
//! returns the next token, or the error sentinel if no lexical rule matches.
//!
//! The whole token grammar is stated as spec functions over the character
//! sequence; [`spec_lexemes`] gives the full token stream of an input, and the
//! executable scanner is proved to produce exactly that stream.

use crate::ast::{view_ids, Id, OpKind, Path, SpecPath};
use vstd::prelude::*;

verus! {

/// Lexed token, encompassing all possible tokens.
#[derive(Debug, PartialEq)]
pub enum Token {
    // single-char
    ParenLeft,
    ParenRight,
    BraceLeft,
    BraceRight,
    Comma,
    Exclaim,
    Interpret,
    Star,
    Minus,
    // multi-char
    Equals,
    FatArrow,
    // operation symbols, recognised as one lexical class
    Op(OpKind),
    // keywords
    Match,
    True,
    False,
    NoneKw,
    Class,
    While,
    Return,
    Break,
    Let,
    Mut,
    Fun,
    // literals
    Str(String),
    Char(u32),
    Float(String),
    Int(i64),
    Path(Path),
    // one or more consecutive triple-dash comment lines, newline-joined
    Doc(String),
    // emitted when no lexical rule matches the current position
    Error,
}

/// Model of a [`Token`], carrying sequences in place of strings.
pub enum SpecToken {
    ParenLeft,
    ParenRight,
    BraceLeft,
    BraceRight,
    Comma,
    Exclaim,
    Interpret,
    Star,
    Minus,
    Equals,
    FatArrow,
    Op(OpKind),
    Match,
    True,
    False,
    NoneKw,
    Class,
    While,
    Return,
    Break,
    Let,
    Mut,
    Fun,
    Str(Seq<char>),
    Char(u32),
    Float(Seq<char>),
    Int(i64),
    Path(SpecPath),
    Doc(Seq<char>),
    Error,
}

/// Model of a [`Token`].
pub open spec fn view_token(t: Token) -> SpecToken {
    match t {
        Token::ParenLeft => SpecToken::ParenLeft,
        Token::ParenRight => SpecToken::ParenRight,
        Token::BraceLeft => SpecToken::BraceLeft,
        Token::BraceRight => SpecToken::BraceRight,
        Token::Comma => SpecToken::Comma,
        Token::Exclaim => SpecToken::Exclaim,
        Token::Interpret => SpecToken::Interpret,
        Token::Star => SpecToken::Star,
        Token::Minus => SpecToken::Minus,
        Token::Equals => SpecToken::Equals,
        Token::FatArrow => SpecToken::FatArrow,
        Token::Op(k) => SpecToken::Op(k),
        Token::Match => SpecToken::Match,
        Token::True => SpecToken::True,
        Token::False => SpecToken::False,
        Token::NoneKw => SpecToken::NoneKw,
        Token::Class => SpecToken::Class,
        Token::While => SpecToken::While,
        Token::Return => SpecToken::Return,
        Token::Break => SpecToken::Break,
        Token::Let => SpecToken::Let,
        Token::Mut => SpecToken::Mut,
        Token::Fun => SpecToken::Fun,
        Token::Str(s) => SpecToken::Str(s@),
        Token::Char(c) => SpecToken::Char(c),
        Token::Float(f) => SpecToken::Float(f@),
        Token::Int(i) => SpecToken::Int(i),
        Token::Path(p) => SpecToken::Path(p@),
        Token::Doc(d) => SpecToken::Doc(d@),
        Token::Error => SpecToken::Error,
    }
}

/// One scanned token: its model, the offset of its first character and the
/// text slice it was matched from.
pub struct SpecLexeme {
    pub tok: SpecToken,
    pub start: int,
    pub slice: Seq<char>,
}

/// Whitespace consumed silently between tokens: space, tab, newline, form feed.
pub open spec fn is_skip_ws(c: char) -> bool {
    c == ' ' || c == '\t' || c == '\n' || c == '\u{c}'
}

/// Decimal digit.
pub open spec fn is_digit(c: char) -> bool {
    '0' <= c && c <= '9'
}

/// Hexadecimal digit.
pub open spec fn is_hex_digit(c: char) -> bool {
    is_digit(c) || ('a' <= c && c <= 'f') || ('A' <= c && c <= 'F')
}

/// Character able to open an identifier.
pub open spec fn is_ident_start(c: char) -> bool {
    ('a' <= c && c <= 'z') || ('A' <= c && c <= 'Z') || c == '_'
}

/// Character able to continue an identifier.
pub open spec fn is_ident_char(c: char) -> bool {
    is_ident_start(c) || is_digit(c)
}

/// Whitespace in the sense of the documentation-line trimming: the unicode
/// white space characters.
pub open spec fn is_trim_ws(c: char) -> bool {
    c == ' ' || c == '\t' || c == '\n' || c == '\u{b}' || c == '\u{c}' || c == '\r' || c
        == '\u{85}' || c == '\u{a0}' || c == '\u{1680}' || ('\u{2000}' <= c && c <= '\u{200a}') || c
        == '\u{2028}' || c == '\u{2029}' || c == '\u{202f}' || c == '\u{205f}' || c == '\u{3000}'
}

/// First position at or after `i` whose character fails `pred`, or the length
/// of `s` if every later character satisfies it.
pub open spec fn seg_end(s: Seq<char>, i: int, pred: spec_fn(char) -> bool) -> int
    decreases s.len() - i,
{
    if i < 0 || i >= s.len() {
        i
    } else if pred(s[i]) {
        seg_end(s, i + 1, pred)
    } else {
        i
    }
}

/// A scan for the end of a segment stays inside the input and only passes
/// characters satisfying the predicate.
pub proof fn lemma_seg_end(s: Seq<char>, i: int, pred: spec_fn(char) -> bool)
    requires
        0 <= i <= s.len(),
    ensures
        i <= seg_end(s, i, pred) <= s.len(),
        forall|k: int| i <= k < seg_end(s, i, pred) ==> pred(s[k]),
        seg_end(s, i, pred) < s.len() ==> !pred(s[seg_end(s, i, pred)]),
    decreases s.len() - i,
{
    if i < s.len() && pred(s[i]) {
        lemma_seg_end(s, i + 1, pred);
    }
}

/// Value of a sequence of decimal digits.
pub open spec fn digits_val(t: Seq<char>) -> int
    decreases t.len(),
{
    if t.len() == 0 {
        0
    } else {
        digits_val(t.drop_last()) * 10 + (t.last() as int - '0' as int)
    }
}

/// Value of one hexadecimal digit.
pub open spec fn hex_digit_val(c: char) -> int {
    if is_digit(c) {
        c as int - '0' as int
    } else if 'a' <= c && c <= 'f' {
        c as int - 'a' as int + 10
    } else {
        c as int - 'A' as int + 10
    }
}

/// Value of a sequence of hexadecimal digits.
pub open spec fn hex_val(t: Seq<char>) -> int
    decreases t.len(),
{
    if t.len() == 0 {
        0
    } else {
        hex_val(t.drop_last()) * 16 + hex_digit_val(t.last())
    }
}

/// Sixteen to the power `n`.
pub open spec fn pow16(n: nat) -> int
    decreases n,
{
    if n == 0 {
        1
    } else {
        16 * pow16((n - 1) as nat)
    }
}

/// A digit sequence is worth at least zero.
pub proof fn lemma_digits_val_nonneg(t: Seq<char>)
    requires
        forall|k: int| 0 <= k < t.len() ==> is_digit(t[k]),
    ensures
        digits_val(t) >= 0,
    decreases t.len(),
{
    if t.len() > 0 {
        lemma_digits_val_nonneg(t.drop_last());
    }
}

/// A hex-digit sequence is worth at least zero and less than sixteen to the
/// power of its length.
pub proof fn lemma_hex_val_bound(t: Seq<char>)
    requires
        forall|k: int| 0 <= k < t.len() ==> is_hex_digit(t[k]),
    ensures
        0 <= hex_val(t) < pow16(t.len()),
    decreases t.len(),
{
    if t.len() > 0 {
        lemma_hex_val_bound(t.drop_last());
        assert(0 <= hex_digit_val(t.last()) < 16);
    }
}

/// A prefix of a hex-digit sequence is worth no more than the whole.
pub proof fn lemma_hex_val_prefix(t: Seq<char>, m: int)
    requires
        forall|k: int| 0 <= k < t.len() ==> is_hex_digit(t[k]),
        0 <= m <= t.len(),
    ensures
        hex_val(t.take(m)) <= hex_val(t),
    decreases t.len(),
{
    if m == t.len() {
        assert(t.take(m) =~= t);
    } else {
        lemma_hex_val_bound(t.drop_last());
        assert(0 <= hex_digit_val(t.last()) < 16);
        assert(t.take(m) =~= t.drop_last().take(m));
        lemma_hex_val_prefix(t.drop_last(), m);
    }
}

/// The sequence with leading trim-whitespace removed.
pub open spec fn trim_front(t: Seq<char>) -> Seq<char>
    decreases t.len(),
{
    if t.len() > 0 && is_trim_ws(t[0]) {
        trim_front(t.drop_first())
    } else {
        t
    }
}

/// The sequence with trailing trim-whitespace removed.
pub open spec fn trim_back(t: Seq<char>) -> Seq<char>
    decreases t.len(),
{
    if t.len() > 0 && is_trim_ws(t.last()) {
        trim_back(t.drop_last())
    } else {
        t
    }
}

/// The sequence with surrounding trim-whitespace removed.
pub open spec fn trim(t: Seq<char>) -> Seq<char> {
    trim_back(trim_front(t))
}

/// The decimal-digit predicate as a value, shared by every segment scan.
pub open spec fn digit_fn() -> spec_fn(char) -> bool {
    |c: char| is_digit(c)
}

/// The hexadecimal-digit predicate as a value.
pub open spec fn hex_fn() -> spec_fn(char) -> bool {
    |c: char| is_hex_digit(c)
}

/// The identifier-character predicate as a value.
pub open spec fn ident_fn() -> spec_fn(char) -> bool {
    |c: char| is_ident_char(c)
}

/// Predicate for characters inside a line: everything but a newline.
pub open spec fn line_fn() -> spec_fn(char) -> bool {
    |c: char| c != '\n'
}

/// Predicate for characters other than a dot.
pub open spec fn nodot_fn() -> spec_fn(char) -> bool {
    |c: char| c != '.'
}

/// Splits a dotted identifier chain into its identifier chunks.
pub open spec fn path_chunks(t: Seq<char>) -> Seq<Seq<char>>
    decreases t.len(),
{
    let dot = seg_end(t, 0, nodot_fn());
    if dot >= t.len() || dot < 0 {
        seq![t]
    } else {
        seq![t.take(dot)] + path_chunks(t.skip(dot + 1))
    }
}

/// The path a dotted identifier chain denotes: every chunk but the last is a
/// scoping field, the last is the terminal identifier.
pub open spec fn path_of(t: Seq<char>) -> SpecPath {
    let chunks = path_chunks(t);
    SpecPath { fields: chunks.drop_last(), id: chunks.last() }
}

/// Token denoted by a bare (undotted) identifier-shaped word: a keyword, a
/// word operator, the wildcard, or a path holding a single local name.
pub open spec fn classify_word(t: Seq<char>) -> SpecToken {
    if t == seq!['m', 'a', 't', 'c', 'h'] {
        SpecToken::Match
    } else if t == seq!['t', 'r', 'u', 'e'] {
        SpecToken::True
    } else if t == seq!['f', 'a', 'l', 's', 'e'] {
        SpecToken::False
    } else if t == seq!['n', 'o', 'n', 'e'] {
        SpecToken::NoneKw
    } else if t == seq!['c', 'l', 'a', 's', 's'] {
        SpecToken::Class
    } else if t == seq!['w', 'h', 'i', 'l', 'e'] {
        SpecToken::While
    } else if t == seq!['r', 'e', 't', 'u', 'r', 'n'] {
        SpecToken::Return
    } else if t == seq!['b', 'r', 'e', 'a', 'k'] {
        SpecToken::Break
    } else if t == seq!['l', 'e', 't'] {
        SpecToken::Let
    } else if t == seq!['m', 'u', 't'] {
        SpecToken::Mut
    } else if t == seq!['f', 'u', 'n'] {
        SpecToken::Fun
    } else if t == seq!['a', 'n', 'd'] {
        SpecToken::Op(OpKind::And)
    } else if t == seq!['o', 'r'] {
        SpecToken::Op(OpKind::Or)
    } else if t == seq!['_'] {
        SpecToken::Interpret
    } else {
        SpecToken::Path(SpecPath { fields: seq![], id: t })
    }
}

/// Position of the first bare closing quote at or after `j`: a quote whose
/// preceding character is not a backslash. A quote right after a backslash
/// keeps the string-literal match alive instead of ending it.
pub open spec fn first_bare_quote(s: Seq<char>, j: int) -> Option<int>
    decreases s.len() - j,
{
    if j < 0 || j >= s.len() {
        None
    } else if s[j] == '"' && (j == 0 || s[j - 1] != '\\') {
        Some(j)
    } else {
        first_bare_quote(s, j + 1)
    }
}

/// Position of the last quote at or after `j`.
pub open spec fn last_quote(s: Seq<char>, j: int) -> Option<int>
    decreases s.len() - j,
{
    if j < 0 || j >= s.len() {
        None
    } else {
        match last_quote(s, j + 1) {
            Some(k) => Some(k),
            None => if s[j] == '"' {
                Some(j)
            } else {
                None
            },
        }
    }
}

/// A found bare quote lies between the scan start and the end of the input.
pub proof fn lemma_first_bare_quote(s: Seq<char>, j: int)
    requires
        0 <= j <= s.len(),
    ensures
        match first_bare_quote(s, j) {
            Some(q) => j <= q < s.len() && s[q] == '"',
            None => true,
        },
    decreases s.len() - j,
{
    if j < s.len() && !(s[j] == '"' && (j == 0 || s[j - 1] != '\\')) {
        lemma_first_bare_quote(s, j + 1);
    }
}

/// A found last quote lies between the scan start and the end of the input.
pub proof fn lemma_last_quote(s: Seq<char>, j: int)
    requires
        0 <= j <= s.len(),
    ensures
        match last_quote(s, j) {
            Some(q) => j <= q < s.len() && s[q] == '"',
            None => true,
        },
    decreases s.len() - j,
{
    if j < s.len() {
        lemma_last_quote(s, j + 1);
    }
}

/// The token a string-literal body denotes: the raw inner text, except that a
/// body holding exactly one backslash is rejected.
pub open spec fn str_token(inner: Seq<char>) -> SpecToken {
    if inner == seq!['\\'] {
        SpecToken::Error
    } else {
        SpecToken::Str(inner)
    }
}

/// Scan of a string literal whose opening quote stands at `p`. The literal
/// runs to the first quote not preceded by a backslash; when every later
/// quote is escaped the longest candidate match, ending at the last quote,
/// wins; with no closing quote at all the opening quote is an error.
pub open spec fn scan_string(s: Seq<char>, p: int) -> (SpecToken, int) {
    match first_bare_quote(s, p + 1) {
        Some(q) => (str_token(s.subrange(p + 1, q)), q + 1),
        None => match last_quote(s, p + 1) {
            Some(q) => (str_token(s.subrange(p + 1, q)), q + 1),
            None => (SpecToken::Error, p + 1),
        },
    }
}

/// Whether `c` is a recognised single-character escape in a char literal.
pub open spec fn esc_known(c: char) -> bool {
    c == 'n' || c == 'r' || c == 't' || c == 'b' || c == 'f' || c == '0'
}

/// Codepoint a recognised single-character escape denotes.
pub open spec fn esc_val(c: char) -> u32 {
    if c == 'n' {
        10
    } else if c == 'r' {
        13
    } else if c == 't' {
        9
    } else if c == 'b' {
        127
    } else if c == 'f' {
        12
    } else {
        0
    }
}

/// Scan of a char literal whose opening quote stands at `p`: one raw char or
/// one recognised escape between quotes, with hex escapes bounded to eight
/// digits.
pub open spec fn scan_char(s: Seq<char>, p: int) -> (SpecToken, int) {
    if p + 1 >= s.len() {
        (SpecToken::Error, p + 1)
    } else {
        let c1 = s[p + 1];
        if c1 == '\'' || c1 == '\n' {
            (SpecToken::Error, p + 1)
        } else if c1 == '\\' {
            if p + 2 >= s.len() {
                (SpecToken::Error, p + 1)
            } else {
                let c2 = s[p + 2];
                if c2 == 'x' {
                    let h = seg_end(s, p + 3, hex_fn());
                    if h == p + 3 {
                        (SpecToken::Error, p + 1)
                    } else if h < s.len() && s[h] == '\'' {
                        if h - (p + 3) <= 8 {
                            (SpecToken::Char(hex_val(s.subrange(p + 3, h)) as u32), h + 1)
                        } else {
                            (SpecToken::Error, h + 1)
                        }
                    } else {
                        (SpecToken::Error, p + 1)
                    }
                } else if esc_known(c2) {
                    if p + 3 < s.len() && s[p + 3] == '\'' {
                        (SpecToken::Char(esc_val(c2)), p + 4)
                    } else {
                        (SpecToken::Error, p + 1)
                    }
                } else {
                    (SpecToken::Error, p + 1)
                }
            }
        } else {
            if p + 2 < s.len() && s[p + 2] == '\'' {
                (SpecToken::Char(c1 as u32), p + 3)
            } else {
                (SpecToken::Error, p + 1)
            }
        }
    }
}

/// Scan of a numeric literal starting with a digit at `p`: it becomes a float
/// once a dot followed by a digit is seen and an integer otherwise; an integer
/// beyond the machine range is a lexical error.
pub open spec fn scan_number(s: Seq<char>, p: int) -> (SpecToken, int) {
    let d = seg_end(s, p, digit_fn());
    if d < s.len() && s[d] == '.' && d + 1 < s.len() && is_digit(s[d + 1]) {
        let f = seg_end(s, d + 1, digit_fn());
        (SpecToken::Float(s.subrange(p, f)), f)
    } else {
        if digits_val(s.subrange(p, d)) <= i64::MAX {
            (SpecToken::Int(digits_val(s.subrange(p, d)) as i64), d)
        } else {
            (SpecToken::Error, d)
        }
    }
}

/// Scan of a float literal that opens with its dot at `p`.
pub open spec fn scan_float_dot(s: Seq<char>, p: int) -> (SpecToken, int) {
    let f = seg_end(s, p + 1, digit_fn());
    (SpecToken::Float(s.subrange(p, f)), f)
}

/// End of the dotted identifier chain whose first chunk starts at `p`.
pub open spec fn path_end(s: Seq<char>, p: int) -> int
    decreases s.len() - p,
    via path_end_dec
{
    let e = seg_end(s, p, ident_fn());
    if e < s.len() - 1 && s[e] == '.' && is_ident_start(s[e + 1]) {
        path_end(s, e + 1)
    } else {
        e
    }
}

#[via_fn]
proof fn path_end_dec(s: Seq<char>, p: int) {
    if 0 <= p <= s.len() {
        lemma_seg_end(s, p, ident_fn());
    }
}

/// Scan of an identifier-shaped word whose first chunk starts at `p`; with
/// `lead_dot` the word was opened by a dot, which forces a path and rules the
/// keywords out.
pub open spec fn scan_word(s: Seq<char>, p: int, lead_dot: bool) -> (SpecToken, int) {
    let e = path_end(s, p);
    let text = s.subrange(p, e);
    let tok = if lead_dot || seg_end(text, 0, nodot_fn()) < text.len() {
        SpecToken::Path(path_of(text))
    } else {
        classify_word(text)
    };
    (tok, e)
}

/// Content and end of a documentation block whose first line content starts at
/// `j` (right after the triple dash): each line's marker and surrounding
/// whitespace is stripped, and consecutive lines are newline-joined.
pub open spec fn doc_content(s: Seq<char>, j: int) -> (Seq<char>, int)
    decreases s.len() - j,
    via doc_content_dec
{
    let le = seg_end(s, j, line_fn());
    let piece = trim(s.subrange(j, le));
    if le + 3 < s.len() && s[le] == '\n' && s[le + 1] == '-' && s[le + 2] == '-' && s[le + 3]
        == '-' {
        let (rest, end) = doc_content(s, le + 4);
        (piece + seq!['\n'] + rest, end)
    } else {
        (piece, le)
    }
}

#[via_fn]
proof fn doc_content_dec(s: Seq<char>, j: int) {
    if 0 <= j <= s.len() {
        lemma_seg_end(s, j, line_fn());
    }
}

/// The content and end of a documentation block stay within the input.
pub proof fn lemma_doc_content_bounds(s: Seq<char>, j: int)
    requires
        0 <= j <= s.len(),
    ensures
        j <= doc_content(s, j).1 <= s.len(),
    decreases s.len() - j,
{
    lemma_seg_end(s, j, line_fn());
    let le = seg_end(s, j, line_fn());
    if le + 3 < s.len() && s[le] == '\n' && s[le + 1] == '-' && s[le + 2] == '-' && s[le + 3]
        == '-' {
        lemma_doc_content_bounds(s, le + 4);
    }
}

/// The token standing at position `p` of the input, together with the
/// position just past it. `p` must address a character that neither
/// whitespace skipping nor comment skipping consumes.
pub open spec fn token_at(s: Seq<char>, p: int) -> (SpecToken, int) {
    let c = s[p];
    if c == '(' {
        (SpecToken::ParenLeft, p + 1)
    } else if c == ')' {
        (SpecToken::ParenRight, p + 1)
    } else if c == '{' {
        (SpecToken::BraceLeft, p + 1)
    } else if c == '}' {
        (SpecToken::BraceRight, p + 1)
    } else if c == ',' {
        (SpecToken::Comma, p + 1)
    } else if c == '*' {
        (SpecToken::Star, p + 1)
    } else if c == '=' {
        if p + 1 < s.len() && s[p + 1] == '=' {
            (SpecToken::Op(OpKind::EqEq), p + 2)
        } else if p + 1 < s.len() && s[p + 1] == '>' {
            (SpecToken::FatArrow, p + 2)
        } else {
            (SpecToken::Equals, p + 1)
        }
    } else if c == '!' {
        if p + 1 < s.len() && s[p + 1] == '=' {
            (SpecToken::Op(OpKind::NotEq), p + 2)
        } else {
            (SpecToken::Exclaim, p + 1)
        }
    } else if c == '<' {
        if p + 1 < s.len() && s[p + 1] == '=' {
            (SpecToken::Op(OpKind::LessEq), p + 2)
        } else {
            (SpecToken::Op(OpKind::Less), p + 1)
        }
    } else if c == '>' {
        if p + 1 < s.len() && s[p + 1] == '=' {
            (SpecToken::Op(OpKind::GreaterEq), p + 2)
        } else {
            (SpecToken::Op(OpKind::Greater), p + 1)
        }
    } else if c == '+' {
        (SpecToken::Op(OpKind::Add), p + 1)
    } else if c == '/' {
        (SpecToken::Op(OpKind::Div), p + 1)
    } else if c == '-' {
        if p + 2 < s.len() && s[p + 1] == '-' && s[p + 2] == '-' {
            let (d, end) = doc_content(s, p + 3);
            (SpecToken::Doc(d), end)
        } else {
            (SpecToken::Minus, p + 1)
        }
    } else if c == '"' {
        scan_string(s, p)
    } else if c == '\'' {
        scan_char(s, p)
    } else if is_digit(c) {
        scan_number(s, p)
    } else if c == '.' {
        if p + 1 < s.len() && is_digit(s[p + 1]) {
            scan_float_dot(s, p)
        } else if p + 1 < s.len() && is_ident_start(s[p + 1]) {
            scan_word(s, p + 1, true)
        } else {
            (SpecToken::Error, p + 1)
        }
    } else if is_ident_start(c) {
        scan_word(s, p, false)
    } else {
        (SpecToken::Error, p + 1)
    }
}

/// A token starting at `p` ends past `p` and within the input.
pub proof fn lemma_token_at_bounds(s: Seq<char>, p: int)
    requires
        0 <= p < s.len(),
    ensures
        p < token_at(s, p).1 <= s.len(),
{
    let c = s[p];
    if c == '"' {
        lemma_first_bare_quote(s, p + 1);
        lemma_last_quote(s, p + 1);
    } else if c == '\'' {
        if p + 3 <= s.len() {
            lemma_seg_end(s, p + 3, hex_fn());
        }
    } else if is_digit(c) {
        lemma_seg_end(s, p, digit_fn());
        let d = seg_end(s, p, digit_fn());
        if d < s.len() && s[d] == '.' && d + 1 < s.len() && is_digit(s[d + 1]) {
            lemma_seg_end(s, d + 1, digit_fn());
        }
        assert(d > p) by {
            assert(digit_fn()(s[p]));
        }
    } else if c == '-' {
        if p + 2 < s.len() && s[p + 1] == '-' && s[p + 2] == '-' {
            lemma_doc_content_bounds(s, p + 3);
        }
    } else if c == '.' {
        if p + 1 < s.len() && is_digit(s[p + 1]) {
            lemma_seg_end(s, p + 1, digit_fn());
            assert(seg_end(s, p + 1, digit_fn()) > p + 1) by {
                assert(digit_fn()(s[p + 1]));
            }
        } else if p + 1 < s.len() && is_ident_start(s[p + 1]) {
            lemma_path_end_bounds(s, p + 1);
        }
    } else if is_ident_start(c) {
        lemma_path_end_bounds(s, p);
    }
}

/// The end of a dotted identifier chain stays within the input and does not
/// precede its start.
pub proof fn lemma_path_end_bounds(s: Seq<char>, p: int)
    requires
        0 <= p <= s.len(),
    ensures
        p <= path_end(s, p) <= s.len(),
        p < s.len() && is_ident_char(s[p]) ==> p < path_end(s, p),
    decreases s.len() - p,
{
    lemma_seg_end(s, p, ident_fn());
    let e = seg_end(s, p, ident_fn());
    if p < s.len() && is_ident_char(s[p]) {
        assert(ident_fn()(s[p]));
        lemma_seg_end(s, p + 1, ident_fn());
    }
    if e < s.len() - 1 && s[e] == '.' && is_ident_start(s[e + 1]) {
        lemma_path_end_bounds(s, e + 1);
    }
}

/// Position after the whitespace and line comments standing at `i`.
/// Documentation lines (three dashes or more) are not comments: they stay.
pub open spec fn spec_skip(s: Seq<char>, i: int) -> int
    decreases s.len() - i, 0int,
{
    if i < 0 || i >= s.len() {
        i
    } else if is_skip_ws(s[i]) {
        spec_skip(s, i + 1)
    } else if s[i] == '-' && i + 1 < s.len() && s[i + 1] == '-' && !(i + 2 < s.len() && s[i + 2]
        == '-') {
        spec_skip_comment(s, i + 2)
    } else {
        i
    }
}

/// Position after the rest of a line comment and whatever skipping follows it.
pub open spec fn spec_skip_comment(s: Seq<char>, j: int) -> int
    decreases s.len() - j, 1int,
{
    if j < 0 || j >= s.len() {
        j
    } else if s[j] != '\n' {
        spec_skip_comment(s, j + 1)
    } else {
        spec_skip(s, j)
    }
}

/// Skipping moves forward and stays within the input.
pub proof fn lemma_skip_bounds(s: Seq<char>, i: int)
    requires
        0 <= i <= s.len(),
    ensures
        i <= spec_skip(s, i) <= s.len(),
    decreases s.len() - i, 0int,
{
    if i < s.len() {
        if is_skip_ws(s[i]) {
            lemma_skip_bounds(s, i + 1);
        } else if s[i] == '-' && i + 1 < s.len() && s[i + 1] == '-' && !(i + 2 < s.len() && s[i + 2]
            == '-') {
            lemma_skip_comment_bounds(s, i + 2);
        }
    }
}

/// Comment skipping moves forward and stays within the input.
pub proof fn lemma_skip_comment_bounds(s: Seq<char>, j: int)
    requires
        0 <= j <= s.len(),
    ensures
        j <= spec_skip_comment(s, j) <= s.len(),
    decreases s.len() - j, 1int,
{
    if j < s.len() {
        if s[j] != '\n' {
            lemma_skip_comment_bounds(s, j + 1);
        } else {
            lemma_skip_bounds(s, j);
        }
    }
}

/// The full token stream of the input from position `i` on: each step skips
/// whitespace and comments, reads one token and records its model, its start
/// and its text slice.
pub open spec fn spec_lexemes(s: Seq<char>, i: int) -> Seq<SpecLexeme>
    decreases s.len() - i,
    via spec_lexemes_dec
{
    if !(0 <= i <= s.len()) {
        Seq::empty()
    } else {
        let j = spec_skip(s, i);
        if j >= s.len() {
            Seq::empty()
        } else {
            let (tok, end) = token_at(s, j);
            seq![SpecLexeme { tok, start: j, slice: s.subrange(j, end) }] + spec_lexemes(s, end)
        }
    }
}

#[via_fn]
proof fn spec_lexemes_dec(s: Seq<char>, i: int) {
    if 0 <= i <= s.len() {
        lemma_skip_bounds(s, i);
        let j = spec_skip(s, i);
        if j < s.len() {
            lemma_token_at_bounds(s, j);
        }
    }
}

/// A segment scan ends exactly at `d` when every character before `d`
/// satisfies the predicate and the character at `d`, if any, fails it.
pub proof fn lemma_seg_end_char(s: Seq<char>, i: int, d: int, f: spec_fn(char) -> bool)
    requires
        0 <= i <= d <= s.len(),
        forall|k: int| i <= k < d ==> f(s[k]),
        d < s.len() ==> !f(s[d]),
    ensures
        seg_end(s, i, f) == d,
    decreases d - i,
{
    if i < d {
        lemma_seg_end_char(s, i + 1, d, f);
    }
}

/// Relies on String's FromIterator impl: collecting characters yields the
/// string of exactly those characters in order.
#[verifier::external_body]
pub(crate) fn chars_to_string(v: &Vec<char>) -> (r: String)
    ensures
        r@ == v@,
{
    v.iter().collect()
}

/// Relies on str::chars: iterating a string slice yields exactly its
/// characters in order.
#[verifier::external_body]
pub(crate) fn str_to_chars(s: &str) -> (r: Vec<char>)
    ensures
        r@ == s@,
{
    s.chars().collect()
}

/// Whether the scanner skips this character silently as whitespace.
fn ws_char(c: char) -> (r: bool)
    ensures
        r == is_skip_ws(c),
{
    c == ' ' || c == '\t' || c == '\n' || c == '\u{c}'
}

/// Whether this character is a decimal digit.
fn digit_char(c: char) -> (r: bool)
    ensures
        r == is_digit(c),
{
    c >= '0' && c <= '9'
}

/// Whether this character is a hexadecimal digit.
fn hex_char(c: char) -> (r: bool)
    ensures
        r == is_hex_digit(c),
{
    (c >= '0' && c <= '9') || (c >= 'a' && c <= 'f') || (c >= 'A' && c <= 'F')
}

/// Whether this character can open an identifier.
fn ident_start_char(c: char) -> (r: bool)
    ensures
        r == is_ident_start(c),
{
    (c >= 'a' && c <= 'z') || (c >= 'A' && c <= 'Z') || c == '_'
}

/// Whether this character can continue an identifier.
fn ident_char(c: char) -> (r: bool)
    ensures
        r == is_ident_char(c),
{
    ident_start_char(c) || digit_char(c)
}

/// Whether documentation-line trimming removes this character.
fn trim_ws_char(c: char) -> (r: bool)
    ensures
        r == is_trim_ws(c),
{
    c == ' ' || c == '\t' || c == '\n' || c == '\u{b}' || c == '\u{c}' || c == '\r' || c
        == '\u{85}' || c == '\u{a0}' || c == '\u{1680}' || (c >= '\u{2000}' && c <= '\u{200a}') || c
        == '\u{2028}' || c == '\u{2029}' || c == '\u{202f}' || c == '\u{205f}' || c == '\u{3000}'
}

/// Scans past the decimal digits starting at `i`.
fn scan_digits(chars: &Vec<char>, i: usize) -> (r: usize)
    requires
        i <= chars@.len(),
    ensures
        i <= r <= chars@.len(),
        r as int == seg_end(chars@, i as int, digit_fn()),
{
    let mut k = i;
    while k < chars.len() && digit_char(chars[k])
        invariant
            i <= k <= chars@.len(),
            forall|m: int| i <= m < k ==> is_digit(chars@[m]),
        decreases chars@.len() - k,
    {
        k = k + 1;
    }
    proof {
        assert forall|m: int| i <= m < k implies digit_fn()(chars@[m]) by {}
        lemma_seg_end_char(chars@, i as int, k as int, digit_fn());
    }
    k
}

/// Scans past the hexadecimal digits starting at `i`.
fn scan_hex(chars: &Vec<char>, i: usize) -> (r: usize)
    requires
        i <= chars@.len(),
    ensures
        i <= r <= chars@.len(),
        r as int == seg_end(chars@, i as int, hex_fn()),
{
    let mut k = i;
    while k < chars.len() && hex_char(chars[k])
        invariant
            i <= k <= chars@.len(),
            forall|m: int| i <= m < k ==> is_hex_digit(chars@[m]),
        decreases chars@.len() - k,
    {
        k = k + 1;
    }
    proof {
        assert forall|m: int| i <= m < k implies hex_fn()(chars@[m]) by {}
        lemma_seg_end_char(chars@, i as int, k as int, hex_fn());
    }
    k
}

/// Scans past the identifier characters starting at `i`.
fn scan_ident(chars: &Vec<char>, i: usize) -> (r: usize)
    requires
        i <= chars@.len(),
    ensures
        i <= r <= chars@.len(),
        r as int == seg_end(chars@, i as int, ident_fn()),
{
    let mut k = i;
    while k < chars.len() && ident_char(chars[k])
        invariant
            i <= k <= chars@.len(),
            forall|m: int| i <= m < k ==> is_ident_char(chars@[m]),
        decreases chars@.len() - k,
    {
        k = k + 1;
    }
    proof {
        assert forall|m: int| i <= m < k implies ident_fn()(chars@[m]) by {}
        lemma_seg_end_char(chars@, i as int, k as int, ident_fn());
    }
    k
}

/// Scans to the end of the current line (or of the input) starting at `i`.
fn scan_line(chars: &Vec<char>, i: usize) -> (r: usize)
    requires
        i <= chars@.len(),
    ensures
        i <= r <= chars@.len(),
        r as int == seg_end(chars@, i as int, line_fn()),
{
    let mut k = i;
    while k < chars.len() && chars[k] != '\n'
        invariant
            i <= k <= chars@.len(),
            forall|m: int| i <= m < k ==> chars@[m] != '\n',
        decreases chars@.len() - k,
    {
        k = k + 1;
    }
    proof {
        assert forall|m: int| i <= m < k implies line_fn()(chars@[m]) by {}
        lemma_seg_end_char(chars@, i as int, k as int, line_fn());
    }
    k
}

/// Copies the characters of the range into a fresh string.
fn range_string(chars: &Vec<char>, from: usize, to: usize) -> (r: String)
    requires
        from <= to <= chars@.len(),
    ensures
        r@ == chars@.subrange(from as int, to as int),
{
    let mut v: Vec<char> = Vec::new();
    let mut k = from;
    while k < to
        invariant
            from <= k <= to <= chars@.len(),
            v@ == chars@.subrange(from as int, k as int),
        decreases to - k,
    {
        v.push(chars[k]);
        k = k + 1;
        proof {
            assert(v@ =~= chars@.subrange(from as int, k as int));
        }
    }
    chars_to_string(&v)
}

/// Splitting a chain at its first dot prepends the first chunk.
proof fn lemma_path_chunks_step(t: Seq<char>, d: int)
    requires
        0 <= d < t.len(),
        forall|k: int| 0 <= k < d ==> t[k] != '.',
        t[d] == '.',
    ensures
        path_chunks(t) == seq![t.take(d)] + path_chunks(t.skip(d + 1)),
{
    assert forall|k: int| 0 <= k < d implies nodot_fn()(t[k]) by {}
    assert(!nodot_fn()(t[d]));
    lemma_seg_end_char(t, 0, d, nodot_fn());
}

/// A chain without any dot is one single chunk.
proof fn lemma_path_chunks_single(t: Seq<char>)
    requires
        forall|k: int| 0 <= k < t.len() ==> t[k] != '.',
    ensures
        path_chunks(t) == seq![t],
{
    assert forall|k: int| 0 <= k < t.len() implies nodot_fn()(t[k]) by {}
    lemma_seg_end_char(t, 0, t.len() as int, nodot_fn());
}

/// Builds the [`Path`] denoted by the dotted identifier chain in the range.
fn build_path(chars: &Vec<char>, from: usize, to: usize) -> (p: Path)
    requires
        from <= to <= chars@.len(),
    ensures
        p@ == path_of(chars@.subrange(from as int, to as int)),
{
    let ghost full = chars@.subrange(from as int, to as int);
    let mut parts: Vec<Id> = Vec::new();
    let mut cur = from;
    let mut done = false;
    while !done
        invariant
            from <= cur <= to <= chars@.len(),
            full == chars@.subrange(from as int, to as int),
            !done ==> path_chunks(full) =~= view_ids(parts@) + path_chunks(
                chars@.subrange(cur as int, to as int),
            ),
            done ==> path_chunks(full) =~= view_ids(parts@),
            done ==> parts@.len() > 0,
        decreases to - cur + if done {
            0int
        } else {
            1int
        },
    {
        let mut k = cur;
        while k < to && chars[k] != '.'
            invariant
                cur <= k <= to <= chars@.len(),
                forall|m: int| cur <= m < k ==> chars@[m] != '.',
            decreases to - k,
        {
            k = k + 1;
        }
        let chunk = Id(range_string(chars, cur, k));
        parts.push(chunk);
        proof {
            let rest = chars@.subrange(cur as int, to as int);
            if k < to {
                lemma_path_chunks_step(rest, k - cur);
                assert(rest.take(k - cur) =~= chars@.subrange(cur as int, k as int));
                assert(rest.skip(k - cur + 1) =~= chars@.subrange(k as int + 1, to as int));
            } else {
                lemma_path_chunks_single(rest);
                assert(rest =~= chars@.subrange(cur as int, to as int));
            }
            assert(view_ids(parts@) =~= view_ids(parts@.drop_last()) + seq![parts@.last()@]);
        }
        if k < to {
            cur = k + 1;
        } else {
            done = true;
            proof {
                assert(path_chunks(full) =~= view_ids(parts@));
            }
        }
    }
    let id = match parts.pop() {
        Some(x) => x,
        None => Id(String::new()),
    };
    let p = Path { fields: parts, id };
    proof {
        let chunks = path_chunks(full);
        assert(p@.fields =~= chunks.drop_last());
        assert(p@.id == chunks.last());
    }
    p
}

/// Classifies a bare (undotted, not dot-led) word into its token.
fn word_token(chars: &Vec<char>, from: usize, to: usize) -> (t: Token)
    requires
        from <= to <= chars@.len(),
        forall|k: int| from <= k < to ==> chars@[k] != '.',
    ensures
        view_token(t) == classify_word(chars@.subrange(from as int, to as int)),
{
    let ghost text = chars@.subrange(from as int, to as int);
    let n = to - from;
    let t = if n == 5 && chars[from] == 'm' && chars[from + 1] == 'a' && chars[from + 2] == 't'
        && chars[from + 3] == 'c' && chars[from + 4] == 'h' {
        proof {
            assert(text =~= seq!['m', 'a', 't', 'c', 'h']);
        }
        Token::Match
    } else if n == 4 && chars[from] == 't' && chars[from + 1] == 'r' && chars[from + 2] == 'u'
        && chars[from + 3] == 'e' {
        proof {
            assert(text =~= seq!['t', 'r', 'u', 'e']);
        }
        Token::True
    } else if n == 5 && chars[from] == 'f' && chars[from + 1] == 'a' && chars[from + 2] == 'l'
        && chars[from + 3] == 's' && chars[from + 4] == 'e' {
        proof {
            assert(text =~= seq!['f', 'a', 'l', 's', 'e']);
        }
        Token::False
    } else if n == 4 && chars[from] == 'n' && chars[from + 1] == 'o' && chars[from + 2] == 'n'
        && chars[from + 3] == 'e' {
        proof {
            assert(text =~= seq!['n', 'o', 'n', 'e']);
        }
        Token::NoneKw
    } else if n == 5 && chars[from] == 'c' && chars[from + 1] == 'l' && chars[from + 2] == 'a'
        && chars[from + 3] == 's' && chars[from + 4] == 's' {
        proof {
            assert(text =~= seq!['c', 'l', 'a', 's', 's']);
        }
        Token::Class
    } else if n == 5 && chars[from] == 'w' && chars[from + 1] == 'h' && chars[from + 2] == 'i'
        && chars[from + 3] == 'l' && chars[from + 4] == 'e' {
        proof {
            assert(text =~= seq!['w', 'h', 'i', 'l', 'e']);
        }
        Token::While
    } else if n == 6 && chars[from] == 'r' && chars[from + 1] == 'e' && chars[from + 2] == 't'
        && chars[from + 3] == 'u' && chars[from + 4] == 'r' && chars[from + 5] == 'n' {
        proof {
            assert(text =~= seq!['r', 'e', 't', 'u', 'r', 'n']);
        }
        Token::Return
    } else if n == 5 && chars[from] == 'b' && chars[from + 1] == 'r' && chars[from + 2] == 'e'
        && chars[from + 3] == 'a' && chars[from + 4] == 'k' {
        proof {
            assert(text =~= seq!['b', 'r', 'e', 'a', 'k']);
        }
        Token::Break
    } else if n == 3 && chars[from] == 'l' && chars[from + 1] == 'e' && chars[from + 2] == 't' {
        proof {
            assert(text =~= seq!['l', 'e', 't']);
        }
        Token::Let
    } else if n == 3 && chars[from] == 'm' && chars[from + 1] == 'u' && chars[from + 2] == 't' {
        proof {
            assert(text =~= seq!['m', 'u', 't']);
        }
        Token::Mut
    } else if n == 3 && chars[from] == 'f' && chars[from + 1] == 'u' && chars[from + 2] == 'n' {
        proof {
            assert(text =~= seq!['f', 'u', 'n']);
        }
        Token::Fun
    } else if n == 3 && chars[from] == 'a' && chars[from + 1] == 'n' && chars[from + 2] == 'd' {
        proof {
            assert(text =~= seq!['a', 'n', 'd']);
        }
        Token::Op(OpKind::And)
    } else if n == 2 && chars[from] == 'o' && chars[from + 1] == 'r' {
        proof {
            assert(text =~= seq!['o', 'r']);
        }
        Token::Op(OpKind::Or)
    } else if n == 1 && chars[from] == '_' {
        proof {
            assert(text =~= seq!['_']);
        }
        Token::Interpret
    } else {
        let p = build_path(chars, from, to);
        proof {
            lemma_path_chunks_single(text);
            assert(p@.fields =~= Seq::<Seq<char>>::empty());
        }
        Token::Path(p)
    };
    t
}

/// Appends the range with surrounding trim-whitespace removed.
fn push_trimmed(chars: &Vec<char>, from: usize, to: usize, out: &mut Vec<char>)
    requires
        from <= to <= chars@.len(),
    ensures
        final(out)@ == old(out)@ + trim(chars@.subrange(from as int, to as int)),
{
    let mut a = from;
    let mut b = to;
    while a < b && trim_ws_char(chars[a])
        invariant
            from <= a <= b <= chars@.len(),
            b == to,
            trim_front(chars@.subrange(from as int, to as int)) == trim_front(
                chars@.subrange(a as int, to as int),
            ),
        decreases b - a,
    {
        proof {
            assert(chars@.subrange(a as int, to as int).drop_first() =~= chars@.subrange(
                a as int + 1,
                to as int,
            ));
        }
        a = a + 1;
    }
    proof {
        assert(trim_front(chars@.subrange(from as int, to as int)) == chars@.subrange(
            a as int,
            to as int,
        ));
    }
    while b > a && trim_ws_char(chars[b - 1])
        invariant
            from <= a <= b <= to <= chars@.len(),
            trim_back(chars@.subrange(a as int, to as int)) == trim_back(
                chars@.subrange(a as int, b as int),
            ),
        decreases b,
    {
        proof {
            assert(chars@.subrange(a as int, b as int).drop_last() =~= chars@.subrange(
                a as int,
                b as int - 1,
            ));
        }
        b = b - 1;
    }
    proof {
        assert(trim(chars@.subrange(from as int, to as int)) == chars@.subrange(
            a as int,
            b as int,
        ));
    }
    let mut k = a;
    while k < b
        invariant
            a <= k <= b <= chars@.len(),
            out@ == old(out)@ + chars@.subrange(a as int, k as int),
        decreases b - k,
    {
        out.push(chars[k]);
        k = k + 1;
        proof {
            assert(out@ =~= old(out)@ + chars@.subrange(a as int, k as int));
        }
    }
    proof {
        assert(out@ =~= old(out)@ + trim(chars@.subrange(from as int, to as int)));
    }
}

/// Scans a documentation block whose first content character (right after the
/// opening triple dash) stands at `j`; returns the joined content and the end.
fn scan_doc(chars: &Vec<char>, j: usize) -> (r: (Token, usize))
    requires
        j <= chars@.len(),
    ensures
        view_token(r.0) == SpecToken::Doc(doc_content(chars@, j as int).0),
        r.1 as int == doc_content(chars@, j as int).1,
        j <= r.1 <= chars@.len(),
    decreases chars@.len() - j,
{
    let s_len = chars.len();
    let mut out: Vec<char> = Vec::new();
    let mut cur = j;
    let mut done = false;
    let mut end: usize = j;
    while !done
        invariant
            j <= cur <= chars@.len(),
            s_len == chars@.len(),
            !done ==> doc_content(chars@, j as int).0 == out@ + doc_content(chars@, cur as int).0,
            !done ==> doc_content(chars@, j as int).1 == doc_content(chars@, cur as int).1,
            done ==> doc_content(chars@, j as int).0 == out@,
            done ==> doc_content(chars@, j as int).1 == end as int,
            done ==> j <= end <= chars@.len(),
        decreases chars@.len() - cur + if done {
            0int
        } else {
            1int
        },
    {
        let le = scan_line(chars, cur);
        let ghost out0 = out@;
        push_trimmed(chars, cur, le, &mut out);
        if le < s_len && s_len - le > 3 && chars[le] == '\n' && chars[le + 1] == '-' && chars[le
            + 2] == '-' && chars[le + 3] == '-' {
            out.push('\n');
            proof {
                lemma_doc_content_bounds(chars@, le as int + 4);
                let piece = trim(chars@.subrange(cur as int, le as int));
                let (rest, e2) = doc_content(chars@, le as int + 4);
                assert(doc_content(chars@, cur as int).0 =~= piece + seq!['\n'] + rest);
                assert(out@ =~= out0 + piece + seq!['\n']);
                assert(out0 + (piece + seq!['\n'] + rest) =~= out@ + rest);
                assert(doc_content(chars@, j as int).0 =~= out@ + rest);
            }
            cur = le + 4;
        } else {
            end = le;
            done = true;
            proof {
                assert(doc_content(chars@, cur as int).0 =~= trim(
                    chars@.subrange(cur as int, le as int),
                ));
                assert(doc_content(chars@, j as int).0 =~= out@);
            }
        }
    }
    (Token::Doc(chars_to_string(&out)), end)
}

/// Scans a string literal whose opening quote stands at `p`.
fn scan_string_ex(chars: &Vec<char>, p: usize) -> (r: (Token, usize))
    requires
        p < chars@.len(),
        chars@[p as int] == '"',
    ensures
        view_token(r.0) == scan_string(chars@, p as int).0,
        r.1 as int == scan_string(chars@, p as int).1,
        p < r.1 <= chars@.len(),
    decreases chars@.len() - p,
{
    let s_len = chars.len();
    let mut j = p + 1;
    let mut bare: Option<usize> = None;
    let mut lastq: Option<usize> = None;
    while j < s_len && !(chars[j] == '"' && (j == 0 || chars[j - 1] != '\\'))
        invariant
            p + 1 <= j <= chars@.len(),
            s_len == chars@.len(),
            p < chars@.len(),
            forall|k: int|
                p + 1 <= k < j ==> !((#[trigger] chars@[k]) == '"' && (k == 0 || chars@[k - 1] != '\\')),
            match lastq {
                Some(q) => p + 1 <= q < j && chars@[q as int] == '"' && (forall|k: int|
                    q < k < j ==> chars@[k] != '"'),
                None => forall|k: int| p + 1 <= k < j ==> chars@[k] != '"',
            },
            bare is None,
        decreases chars@.len() - j,
    {
        if chars[j] == '"' {
            lastq = Some(j);
        }
        j = j + 1;
    }
    let (inner_from, inner_to, end, matched): (usize, usize, usize, bool) = if j < s_len {
        // a bare closing quote ends the literal
        proof {
            lemma_fbq_char(chars@, p + 1, j as int);
        }
        (p + 1, j, j + 1, true)
    } else {
        proof {
            lemma_fbq_none(chars@, p + 1);
        }
        match lastq {
            Some(q) => {
                proof {
                    lemma_lq_char(chars@, p + 1, q as int);
                }
                (p + 1, q, q + 1, true)
            },
            None => {
                proof {
                    lemma_lq_none(chars@, p + 1);
                }
                (p + 1, p + 1, p + 1, false)
            },
        }
    };
    if !matched {
        (Token::Error, p + 1)
    } else if inner_to == inner_from + 1 && chars[inner_from] == '\\' {
        proof {
            assert(chars@.subrange(inner_from as int, inner_to as int) =~= seq!['\\']);
        }
        (Token::Error, end)
    } else {
        proof {
            let inner = chars@.subrange(inner_from as int, inner_to as int);
            if inner == seq!['\\'] {
                assert(inner.len() == 1);
                assert(inner[0] == '\\');
                assert(chars@[inner_from as int] == '\\');
            }
        }
        (Token::Str(range_string(chars, inner_from, inner_to)), end)
    }
}

/// A quote matching the bare-closing condition, with no earlier match, is the
/// first bare quote.
pub proof fn lemma_fbq_char(s: Seq<char>, j0: int, q: int)
    requires
        0 <= j0 <= q < s.len(),
        s[q] == '"' && (q == 0 || s[q - 1] != '\\'),
        forall|k: int| j0 <= k < q ==> !((#[trigger] s[k]) == '"' && (k == 0 || s[k - 1] != '\\')),
    ensures
        first_bare_quote(s, j0) == Some(q),
    decreases q - j0,
{
    if j0 < q {
        lemma_fbq_char(s, j0 + 1, q);
    }
}

/// With no position matching the bare-closing condition there is no first
/// bare quote.
pub proof fn lemma_fbq_none(s: Seq<char>, j0: int)
    requires
        0 <= j0,
        forall|k: int| j0 <= k < s.len() ==> !((#[trigger] s[k]) == '"' && (k == 0 || s[k - 1] != '\\')),
    ensures
        first_bare_quote(s, j0) is None,
    decreases s.len() - j0,
{
    if j0 < s.len() {
        lemma_fbq_none(s, j0 + 1);
    }
}

/// A quote with no later quote is the last quote.
pub proof fn lemma_lq_char(s: Seq<char>, j0: int, q: int)
    requires
        0 <= j0 <= q < s.len(),
        s[q] == '"',
        forall|k: int| q < k < s.len() ==> s[k] != '"',
    ensures
        last_quote(s, j0) == Some(q),
    decreases s.len() - j0,
{
    if j0 < q {
        lemma_lq_char(s, j0 + 1, q);
    } else {
        lemma_lq_none(s, q + 1);
    }
}

/// With no quote at all there is no last quote.
pub proof fn lemma_lq_none(s: Seq<char>, j0: int)
    requires
        0 <= j0,
        forall|k: int| j0 <= k < s.len() ==> s[k] != '"',
    ensures
        last_quote(s, j0) is None,
    decreases s.len() - j0,
{
    if j0 < s.len() {
        lemma_lq_none(s, j0 + 1);
    }
}

/// Powers of sixteen are at least one.
pub proof fn lemma_pow16_pos(n: nat)
    ensures
        pow16(n) >= 1,
    decreases n,
{
    if n > 0 {
        lemma_pow16_pos((n - 1) as nat);
    }
}

/// Powers of sixteen grow with the exponent.
pub proof fn lemma_pow16_mono(a: nat, b: nat)
    requires
        a <= b,
    ensures
        pow16(a) <= pow16(b),
    decreases b,
{
    if a < b {
        lemma_pow16_mono(a, (b - 1) as nat);
        lemma_pow16_pos((b - 1) as nat);
    }
}

/// Eight hexadecimal digits stay within thirty-two bits.
pub proof fn lemma_pow16_8()
    ensures
        pow16(8) == 0x100000000,
{
    reveal_with_fuel(pow16, 9);
}

/// Computes the value of a run of hexadecimal digits known to fit in
/// thirty-two bits.
fn hex_run_val(chars: &Vec<char>, from: usize, to: usize) -> (r: u32)
    requires
        from <= to <= chars@.len(),
        forall|k: int| from <= k < to ==> is_hex_digit(chars@[k]),
        hex_val(chars@.subrange(from as int, to as int)) < 0x100000000,
    ensures
        r == hex_val(chars@.subrange(from as int, to as int)) as u32,
{
    let ghost full = chars@.subrange(from as int, to as int);
    let mut acc: u64 = 0;
    let mut m = from;
    proof {
        assert(chars@.subrange(from as int, from as int) =~= Seq::<char>::empty());
    }
    while m < to
        invariant
            from <= m <= to <= chars@.len(),
            full == chars@.subrange(from as int, to as int),
            hex_val(full) < 0x100000000,
            forall|k: int| from <= k < to ==> is_hex_digit(chars@[k]),
            acc == hex_val(chars@.subrange(from as int, m as int)),
            acc < 0x100000000,
        decreases to - m,
    {
        let c = chars[m];
        let d: u64 = if c >= '0' && c <= '9' {
            (c as u32 - 48) as u64
        } else if c >= 'a' && c <= 'f' {
            (c as u32 - 87) as u64
        } else {
            (c as u32 - 55) as u64
        };
        proof {
            assert(d == hex_digit_val(chars@[m as int]));
            assert(chars@.subrange(from as int, m as int + 1).drop_last() =~= chars@.subrange(
                from as int,
                m as int,
            ));
        }
        acc = acc * 16 + d;
        m = m + 1;
        proof {
            assert(chars@.subrange(from as int, m as int) =~= full.take(m - from));
            lemma_hex_val_prefix(full, m - from);
            lemma_hex_val_bound(chars@.subrange(from as int, m as int));
        }
    }
    proof {
        assert(chars@.subrange(from as int, m as int) =~= full);
    }
    acc as u32
}

/// Scans a char literal whose opening quote stands at `p`.
fn scan_char_ex(chars: &Vec<char>, p: usize) -> (r: (Token, usize))
    requires
        p < chars@.len(),
        chars@[p as int] == '\'',
    ensures
        view_token(r.0) == scan_char(chars@, p as int).0,
        r.1 as int == scan_char(chars@, p as int).1,
        p < r.1 <= chars@.len(),
{
    let s_len = chars.len();
    if s_len - p < 2 {
        return (Token::Error, p + 1);
    }
    let c1 = chars[p + 1];
    if c1 == '\'' || c1 == '\n' {
        (Token::Error, p + 1)
    } else if c1 == '\\' {
        if s_len - p < 3 {
            return (Token::Error, p + 1);
        }
        let c2 = chars[p + 2];
        if c2 == 'x' {
            let h = scan_hex(chars, p + 3);
            proof {
                lemma_seg_end(chars@, p as int + 3, hex_fn());
            }
            if h == p + 3 {
                (Token::Error, p + 1)
            } else if h < s_len && chars[h] == '\'' {
                if h - (p + 3) <= 8 {
                    proof {
                        lemma_hex_val_bound(chars@.subrange(p as int + 3, h as int));
                        lemma_pow16_mono((h - (p + 3)) as nat, 8);
                        lemma_pow16_8();
                    }
                    let v = hex_run_val(chars, p + 3, h);
                    (Token::Char(v), h + 1)
                } else {
                    (Token::Error, h + 1)
                }
            } else {
                (Token::Error, p + 1)
            }
        } else if c2 == 'n' || c2 == 'r' || c2 == 't' || c2 == 'b' || c2 == 'f' || c2 == '0' {
            if s_len - p > 3 && chars[p + 3] == '\'' {
                let v: u32 = if c2 == 'n' {
                    10
                } else if c2 == 'r' {
                    13
                } else if c2 == 't' {
                    9
                } else if c2 == 'b' {
                    127
                } else if c2 == 'f' {
                    12
                } else {
                    0
                };
                (Token::Char(v), p + 4)
            } else {
                (Token::Error, p + 1)
            }
        } else {
            (Token::Error, p + 1)
        }
    } else {
        if s_len - p > 2 && chars[p + 2] == '\'' {
            (Token::Char(c1 as u32), p + 3)
        } else {
            (Token::Error, p + 1)
        }
    }
}

/// Scans a numeric literal whose first digit stands at `p`.
fn scan_number_ex(chars: &Vec<char>, p: usize) -> (r: (Token, usize))
    requires
        p < chars@.len(),
        is_digit(chars@[p as int]),
    ensures
        view_token(r.0) == scan_number(chars@, p as int).0,
        r.1 as int == scan_number(chars@, p as int).1,
        p < r.1 <= chars@.len(),
{
    let s_len = chars.len();
    let d = scan_digits(chars, p);
    proof {
        lemma_seg_end(chars@, p as int, digit_fn());
        assert(digit_fn()(chars@[p as int]));
    }
    if d < s_len && chars[d] == '.' && d + 1 < s_len && digit_char(chars[d + 1]) {
        let f = scan_digits(chars, d + 1);
        proof {
            lemma_seg_end(chars@, d as int + 1, digit_fn());
        }
        (Token::Float(range_string(chars, p, f)), f)
    } else {
        let mut acc: u64 = 0;
        let mut ovf = false;
        let mut m = p;
        proof {
            assert(chars@.subrange(p as int, p as int) =~= Seq::<char>::empty());
        }
        while m < d
            invariant
                p <= m <= d <= chars@.len(),
                forall|k: int| p <= k < d ==> is_digit(chars@[k]),
                !ovf ==> acc == digits_val(chars@.subrange(p as int, m as int)) && acc
                    <= 0x7fffffffffffffff,
                ovf ==> digits_val(chars@.subrange(p as int, m as int)) > 0x7fffffffffffffff,
            decreases d - m,
        {
            let c = chars[m];
            let dv: u64 = (c as u32 - 48) as u64;
            proof {
                assert(dv == chars@[m as int] as int - '0' as int);
                assert(chars@.subrange(p as int, m as int + 1).drop_last() =~= chars@.subrange(
                    p as int,
                    m as int,
                ));
                lemma_digits_val_nonneg(chars@.subrange(p as int, m as int));
            }
            if ovf {
                m = m + 1;
            } else if acc > 922337203685477580 || (acc == 922337203685477580 && dv > 7) {
                ovf = true;
                m = m + 1;
            } else {
                acc = acc * 10 + dv;
                m = m + 1;
            }
        }
        proof {
            lemma_digits_val_nonneg(chars@.subrange(p as int, d as int));
        }
        if ovf {
            (Token::Error, d)
        } else {
            (Token::Int(acc as i64), d)
        }
    }
}

/// Scans an identifier-shaped word whose first chunk starts at `p`.
fn scan_word_ex(chars: &Vec<char>, p: usize, lead_dot: bool) -> (r: (Token, usize))
    requires
        p < chars@.len(),
        is_ident_start(chars@[p as int]),
    ensures
        view_token(r.0) == scan_word(chars@, p as int, lead_dot).0,
        r.1 as int == scan_word(chars@, p as int, lead_dot).1,
        p < r.1 <= chars@.len(),
{
    let s_len = chars.len();
    let mut cs = p;
    let mut e = scan_ident(chars, p);
    let ghost mut dot_pos: int = 0;
    proof {
        lemma_seg_end(chars@, p as int, ident_fn());
        assert(ident_fn()(chars@[p as int]));
    }
    while e < s_len && e + 1 < s_len && chars[e] == '.' && ident_start_char(chars[e + 1])
        invariant
            p <= cs <= e <= chars@.len(),
            s_len == chars@.len(),
            e as int == seg_end(chars@, cs as int, ident_fn()),
            path_end(chars@, p as int) == path_end(chars@, cs as int),
            cs > p ==> p <= dot_pos < cs && chars@[dot_pos] == '.',
        decreases chars@.len() - cs,
    {
        proof {
            dot_pos = e as int;
        }
        cs = e + 1;
        e = scan_ident(chars, cs);
        proof {
            lemma_seg_end(chars@, cs as int, ident_fn());
        }
    }
    proof {
        assert(path_end(chars@, cs as int) == e);
        lemma_seg_end(chars@, cs as int, ident_fn());
        assert(ident_fn()(chars@[p as int]));
        if cs == p {
            assert(e > p);
        }
    }
    let ghost text = chars@.subrange(p as int, e as int);
    if lead_dot || cs > p {
        proof {
            if cs > p {
                assert(text[dot_pos - p] == '.');
                lemma_seg_end(text, 0, nodot_fn());
                if seg_end(text, 0, nodot_fn()) >= text.len() {
                    assert(nodot_fn()(text[dot_pos - p]));
                }
                assert(seg_end(text, 0, nodot_fn()) < text.len());
            } else {
                assert(e > p);
            }
        }
        let pa = build_path(chars, p, e);
        (Token::Path(pa), e)
    } else {
        proof {
            assert forall|k: int| p <= k < e implies chars@[k] != '.' by {
                assert(ident_fn()(chars@[k]));
            }
            assert forall|k: int| 0 <= k < text.len() implies nodot_fn()(text[k]) by {
                assert(text[k] == chars@[p + k]);
            }
            lemma_seg_end_char(text, 0, text.len() as int, nodot_fn());
            assert(e > p);
        }
        let t = word_token(chars, p, e);
        (t, e)
    }
}

/// Scans the single token standing at `p`, a position where skipping has
/// already stopped.
fn scan_token(chars: &Vec<char>, p: usize) -> (r: (Token, usize))
    requires
        p < chars@.len(),
    ensures
        view_token(r.0) == token_at(chars@, p as int).0,
        r.1 as int == token_at(chars@, p as int).1,
        p < r.1 <= chars@.len(),
{
    let s_len = chars.len();
    let c = chars[p];
    if c == '(' {
        (Token::ParenLeft, p + 1)
    } else if c == ')' {
        (Token::ParenRight, p + 1)
    } else if c == '{' {
        (Token::BraceLeft, p + 1)
    } else if c == '}' {
        (Token::BraceRight, p + 1)
    } else if c == ',' {
        (Token::Comma, p + 1)
    } else if c == '*' {
        (Token::Star, p + 1)
    } else if c == '=' {
        if p + 1 < s_len && chars[p + 1] == '=' {
            (Token::Op(OpKind::EqEq), p + 2)
        } else if p + 1 < s_len && chars[p + 1] == '>' {
            (Token::FatArrow, p + 2)
        } else {
            (Token::Equals, p + 1)
        }
    } else if c == '!' {
        if p + 1 < s_len && chars[p + 1] == '=' {
            (Token::Op(OpKind::NotEq), p + 2)
        } else {
            (Token::Exclaim, p + 1)
        }
    } else if c == '<' {
        if p + 1 < s_len && chars[p + 1] == '=' {
            (Token::Op(OpKind::LessEq), p + 2)
        } else {
            (Token::Op(OpKind::Less), p + 1)
        }
    } else if c == '>' {
        if p + 1 < s_len && chars[p + 1] == '=' {
            (Token::Op(OpKind::GreaterEq), p + 2)
        } else {
            (Token::Op(OpKind::Greater), p + 1)
        }
    } else if c == '+' {
        (Token::Op(OpKind::Add), p + 1)
    } else if c == '/' {
        (Token::Op(OpKind::Div), p + 1)
    } else if c == '-' {
        if s_len - p > 2 && chars[p + 1] == '-' && chars[p + 2] == '-' {
            let (tok, end) = scan_doc(chars, p + 3);
            (tok, end)
        } else {
            (Token::Minus, p + 1)
        }
    } else if c == '"' {
        scan_string_ex(chars, p)
    } else if c == '\'' {
        scan_char_ex(chars, p)
    } else if digit_char(c) {
        scan_number_ex(chars, p)
    } else if c == '.' {
        if p + 1 < s_len && digit_char(chars[p + 1]) {
            let f = scan_digits(chars, p + 1);
            proof {
                lemma_seg_end(chars@, p as int + 1, digit_fn());
            }
            (Token::Float(range_string(chars, p, f)), f)
        } else if p + 1 < s_len && ident_start_char(chars[p + 1]) {
            let (tok, end) = scan_word_ex(chars, p + 1, true);
            (tok, end)
        } else {
            (Token::Error, p + 1)
        }
    } else if ident_start_char(c) {
        let (tok, end) = scan_word_ex(chars, p, false);
        (tok, end)
    } else {
        (Token::Error, p + 1)
    }
}

/// Pull-based lexical scanner over an in-memory character stream. The cursor
/// position strictly increases; no token is ever un-consumed once returned.
pub struct Lexer {
    chars: Vec<char>,
    pos: usize,
    span_lo: usize,
    span_hi: usize,
}

impl Lexer {
    /// The cursor and the recorded span lie within the input.
    pub closed spec fn wf(self) -> bool {
        self.pos <= self.chars@.len() && self.span_lo <= self.span_hi <= self.chars@.len()
    }

    /// The full input character sequence.
    pub closed spec fn input(self) -> Seq<char> {
        self.chars@
    }

    /// The tokens still ahead of the cursor.
    pub closed spec fn toks(self) -> Seq<SpecLexeme> {
        spec_lexemes(self.chars@, self.pos as int)
    }

    /// The text slice of the most recently returned token.
    pub closed spec fn spec_slice(self) -> Seq<char> {
        self.chars@.subrange(self.span_lo as int, self.span_hi as int)
    }

    /// The start offset of the most recently returned token.
    pub closed spec fn spec_span_start(self) -> int {
        self.span_lo as int
    }

    /// Builds a scanner over the given source text, positioned at its start.
    pub fn new(input: &str) -> (r: Lexer)
        ensures
            r.wf(),
            r.input() == input@,
            r.toks() == spec_lexemes(input@, 0),
            r.spec_span_start() == 0,
    {
        let chars = str_to_chars(input);
        Lexer { chars, pos: 0, span_lo: 0, span_hi: 0 }
    }

    /// Advances past exactly one lexeme (consuming any whitespace and line
    /// comments before it) and returns the recognised token, or nothing once
    /// the input is exhausted.
    pub fn next_token(&mut self) -> (t: Option<Token>)
        requires
            old(self).wf(),
        ensures
            final(self).wf(),
            final(self).input() == old(self).input(),
            match t {
                Option::None => old(self).toks().len() == 0 && final(self).toks() == old(
                    self,
                ).toks(),
                Option::Some(tok) => old(self).toks().len() > 0 && view_token(tok) == old(
                    self,
                ).toks()[0].tok && final(self).spec_span_start() == old(self).toks()[0].start
                    && final(self).spec_slice() == old(self).toks()[0].slice && final(self).toks()
                    == old(self).toks().drop_first(),
            },
    {
        let ghost s = self.chars@;
        let ghost pos0 = self.pos as int;
        let s_len = self.chars.len();
        let mut p = self.pos;
        let mut stopped = false;
        while !stopped
            invariant
                self == old(self),
                old(self).wf(),
                s == self.chars@,
                s_len == s.len(),
                pos0 <= p <= s.len(),
                spec_skip(s, pos0) == spec_skip(s, p as int),
                stopped ==> p as int == spec_skip(s, pos0),
            decreases s.len() - p + if stopped {
                0int
            } else {
                1int
            },
        {
            if p >= s_len {
                stopped = true;
            } else {
                let c = self.chars[p];
                if ws_char(c) {
                    p = p + 1;
                } else if c == '-' && p + 1 < s_len && self.chars[p + 1] == '-' && !(p + 2 < s_len
                    && self.chars[p + 2] == '-') {
                    let mut q = p + 2;
                    while q < s_len && self.chars[q] != '\n'
                        invariant
                            self == old(self),
                            s == self.chars@,
                            s_len == s.len(),
                            p + 2 <= q <= s.len(),
                            spec_skip_comment(s, p as int + 2) == spec_skip_comment(s, q as int),
                        decreases s.len() - q,
                    {
                        q = q + 1;
                    }
                    proof {
                        if q < s.len() {
                            assert(spec_skip_comment(s, q as int) == spec_skip(s, q as int));
                        }
                    }
                    p = q;
                } else {
                    stopped = true;
                }
            }
        }
        if p >= s_len {
            self.pos = p;
            self.span_lo = p;
            self.span_hi = p;
            proof {
                assert(old(self).toks() =~= final(self).toks());
            }
            None
        } else {
            let (tok, end) = scan_token(&self.chars, p);
            self.pos = end;
            self.span_lo = p;
            self.span_hi = end;
            proof {
                let lex = SpecLexeme {
                    tok: token_at(s, p as int).0,
                    start: p as int,
                    slice: s.subrange(p as int, token_at(s, p as int).1),
                };
                assert(old(self).toks() =~= seq![lex] + spec_lexemes(s, end as int));
                assert(final(self).toks() =~= old(self).toks().drop_first());
            }
            Some(tok)
        }
    }

    /// The text slice of the most recently returned token, copied out.
    pub fn slice(&self) -> (r: String)
        requires
            self.wf(),
        ensures
            r@ == self.spec_slice(),
    {
        range_string(&self.chars, self.span_lo, self.span_hi)
    }

    /// The start offset of the most recently returned token.
    pub fn span_start(&self) -> (r: usize)
        ensures
            r as int == self.spec_span_start(),
    {
        self.span_lo
    }
}

/// Converts a run of hexadecimal digits into its value, provided the run is
/// no longer than `limit` digits.
pub fn hex_to_u32(hex: &str, limit: usize) -> (r: Option<u32>)
    requires
        hex@.len() >= 1,
        forall|k: int| 0 <= k < hex@.len() ==> is_hex_digit(hex@[k]),
        hex@.len() <= limit ==> hex_val(hex@) < 0x100000000,
    ensures
        r == if hex@.len() <= limit {
            Some(hex_val(hex@) as u32)
        } else {
            Option::<u32>::None
        },
{
    let chars = str_to_chars(hex);
    let n = chars.len();
    if n > limit {
        None
    } else {
        proof {
            assert(chars@.subrange(0, n as int) =~= hex@);
        }
        let v = hex_run_val(&chars, 0, n);
        Some(v)
    }
}

} // verus!
