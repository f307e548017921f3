//! Tokenizing of JMESPath expressions.

use vstd::prelude::*;
use crate::value::{Value, ValueV, val_v};
use crate::trusted::{json_text_of, json_encode, chars_to_string};
use vstd::string::StringExecFns;

verus! {

/// A lexical token of a JMESPath expression.
#[derive(Debug, PartialEq)]
pub enum Token {
    Identifier(String),
    QuotedIdentifier(String),
    Number(i32),
    Literal(Value),
    Error { value: String, msg: String },
    Dot,
    Star,
    Flatten,
    Or,
    Pipe,
    Filter,
    Lbracket,
    Rbracket,
    Comma,
    Colon,
    Not,
    Ne,
    Eq,
    Gt,
    Gte,
    Lt,
    Lte,
    At,
    Ampersand,
    Lparen,
    Rparen,
    Lbrace,
    Rbrace,
    Eof,
}

/// Mathematical model of a token.
pub enum TokenV {
    Identifier(Seq<char>),
    QuotedIdentifier(Seq<char>),
    Number(i32),
    Literal(ValueV),
    Error { value: Seq<char>, msg: Seq<char> },
    Dot,
    Star,
    Flatten,
    Or,
    Pipe,
    Filter,
    Lbracket,
    Rbracket,
    Comma,
    Colon,
    Not,
    Ne,
    Eq,
    Gt,
    Gte,
    Lt,
    Lte,
    At,
    Ampersand,
    Lparen,
    Rparen,
    Lbrace,
    Rbrace,
    Eof,
}

impl View for Token {
    type V = TokenV;

    open spec fn view(&self) -> TokenV {
        match self {
            Token::Identifier(s) => TokenV::Identifier(s@),
            Token::QuotedIdentifier(s) => TokenV::QuotedIdentifier(s@),
            Token::Number(n) => TokenV::Number(*n),
            Token::Literal(v) => TokenV::Literal(val_v(*v)),
            Token::Error { value, msg } => TokenV::Error { value: value@, msg: msg@ },
            Token::Dot => TokenV::Dot,
            Token::Star => TokenV::Star,
            Token::Flatten => TokenV::Flatten,
            Token::Or => TokenV::Or,
            Token::Pipe => TokenV::Pipe,
            Token::Filter => TokenV::Filter,
            Token::Lbracket => TokenV::Lbracket,
            Token::Rbracket => TokenV::Rbracket,
            Token::Comma => TokenV::Comma,
            Token::Colon => TokenV::Colon,
            Token::Not => TokenV::Not,
            Token::Ne => TokenV::Ne,
            Token::Eq => TokenV::Eq,
            Token::Gt => TokenV::Gt,
            Token::Gte => TokenV::Gte,
            Token::Lt => TokenV::Lt,
            Token::Lte => TokenV::Lte,
            Token::At => TokenV::At,
            Token::Ampersand => TokenV::Ampersand,
            Token::Lparen => TokenV::Lparen,
            Token::Rparen => TokenV::Rparen,
            Token::Lbrace => TokenV::Lbrace,
            Token::Rbrace => TokenV::Rbrace,
            Token::Eof => TokenV::Eof,
        }
    }
}

/// The decimal digits of a natural number.
pub open spec fn nat_text(n: nat) -> Seq<char>
    decreases n,
{
    let d = (n % 10) as u32;
    let c = ((d + 48) as u8) as char;
    if n < 10 {
        seq![c]
    } else {
        nat_text(n / 10).push(c)
    }
}

/// The decimal text of an integer, with a leading minus sign when negative.
pub open spec fn int_text(n: int) -> Seq<char> {
    if n < 0 {
        seq!['-'].add(nat_text((-n) as nat))
    } else {
        nat_text(n as nat)
    }
}

/// The string name of a token's category.
pub open spec fn spec_token_name(t: TokenV) -> Seq<char> {
    match t {
        TokenV::Identifier(_) => "Identifier"@,
        TokenV::QuotedIdentifier(_) => "Identifier"@,
        TokenV::Number(_) => "Number"@,
        TokenV::Literal(_) => "Literal"@,
        TokenV::Error { .. } => "Error"@,
        TokenV::Dot => "Dot"@,
        TokenV::Star => "Star"@,
        TokenV::Flatten => "Flatten"@,
        TokenV::Or => "Or"@,
        TokenV::Pipe => "Pipe"@,
        TokenV::Filter => "Filter"@,
        TokenV::Lbracket => "Lbracket"@,
        TokenV::Rbracket => "Rbracket"@,
        TokenV::Comma => "Comma"@,
        TokenV::Colon => "Colon"@,
        TokenV::Not => "Not"@,
        TokenV::Ne => "Ne"@,
        TokenV::Eq => "Eq"@,
        TokenV::Gt => "Gt"@,
        TokenV::Gte => "Gte"@,
        TokenV::Lt => "Lt"@,
        TokenV::Lte => "Lte"@,
        TokenV::At => "At"@,
        TokenV::Ampersand => "Ampersand"@,
        TokenV::Lparen => "Lparen"@,
        TokenV::Rparen => "Rparen"@,
        TokenV::Lbrace => "Lbrace"@,
        TokenV::Rbrace => "Rbrace"@,
        TokenV::Eof => "Eof"@,
    }
}

/// The lexeme a token prints back to, as far as one is known.
pub open spec fn spec_lexeme(t: TokenV) -> Seq<char> {
    match t {
        TokenV::Identifier(s) => s,
        TokenV::QuotedIdentifier(s) => seq!['"'].add(s).push('"'),
        TokenV::Number(n) => int_text(n as int),
        TokenV::Literal(v) => seq!['`'].add(json_text_of(v)).push('`'),
        TokenV::Error { value, .. } => value,
        TokenV::Dot => "."@,
        TokenV::Star => "*"@,
        TokenV::Flatten => "[]"@,
        TokenV::Or => "||"@,
        TokenV::Pipe => "|"@,
        TokenV::Filter => "[?"@,
        TokenV::Lbracket => "["@,
        TokenV::Rbracket => "]"@,
        TokenV::Comma => ","@,
        TokenV::Colon => ":"@,
        TokenV::Not => "!"@,
        TokenV::Ne => "!="@,
        TokenV::Eq => "=="@,
        TokenV::Gt => ">"@,
        TokenV::Gte => ">="@,
        TokenV::Lt => "<"@,
        TokenV::Lte => "<="@,
        TokenV::At => "@"@,
        TokenV::Ampersand => "&"@,
        TokenV::Lparen => "("@,
        TokenV::Rparen => ")"@,
        TokenV::Lbrace => "{"@,
        TokenV::Rbrace => "}"@,
        TokenV::Eof => ""@,
    }
}

/// The left binding power of a token.
pub open spec fn spec_lbp(t: TokenV) -> usize {
    match t {
        TokenV::Pipe => 1,
        TokenV::Eq => 2,
        TokenV::Gt => 2,
        TokenV::Lt => 2,
        TokenV::Gte => 2,
        TokenV::Lte => 2,
        TokenV::Ne => 2,
        TokenV::Or => 5,
        TokenV::Flatten => 6,
        TokenV::Star => 20,
        TokenV::Filter => 20,
        TokenV::Dot => 40,
        TokenV::Lbrace => 50,
        TokenV::Lbracket => 55,
        TokenV::Lparen => 60,
        _ => 0,
    }
}

/// The decimal text of a nonnegative number below ten digits of u32 range.
fn u32_text(n: u32) -> (r: String)
    ensures
        r@ == nat_text(n as nat),
    decreases n,
{
    let d: u8 = (n % 10) as u8 + 48;
    let c: char = d as char;
    if n < 10 {
        let mut cs: Vec<char> = Vec::new();
        cs.push(c);
        let r = chars_to_string(&cs);
        proof {
            assert(cs@ =~= seq![((((n % 10) as u32) + 48) as u8) as char]);
        }
        r
    } else {
        let mut r = u32_text(n / 10);
        let mut tail: Vec<char> = Vec::new();
        tail.push(c);
        let t = chars_to_string(&tail);
        r.append(t.as_str());
        proof {
            assert(tail@ =~= seq![((((n % 10) as u32) + 48) as u8) as char]);
            assert(r@ =~= nat_text(n as nat));
        }
        r
    }
}

/// The decimal text of a number token's value.
fn i32_text(n: i32) -> (r: String)
    ensures
        r@ == int_text(n as int),
{
    if n < 0 {
        let mut r = "-".to_owned();
        let mag: u32 = if n == i32::MIN { 2147483648u32 } else { (-n) as u32 };
        let t = u32_text(mag);
        r.append(t.as_str());
        proof {
            reveal_strlit("-");
            assert(r@ =~= int_text(n as int));
        }
        r
    } else {
        u32_text(n as u32)
    }
}

impl Token {
    /// Gets the string name of the token.
    pub fn token_name(&self) -> (r: String)
        ensures
            r@ == spec_token_name(self@),
    {
        match self {
            Token::Identifier(_) => "Identifier".to_owned(),
            Token::QuotedIdentifier(_) => "Identifier".to_owned(),
            Token::Number(_) => "Number".to_owned(),
            Token::Literal(_) => "Literal".to_owned(),
            Token::Error { .. } => "Error".to_owned(),
            Token::Dot => "Dot".to_owned(),
            Token::Star => "Star".to_owned(),
            Token::Flatten => "Flatten".to_owned(),
            Token::Or => "Or".to_owned(),
            Token::Pipe => "Pipe".to_owned(),
            Token::Filter => "Filter".to_owned(),
            Token::Lbracket => "Lbracket".to_owned(),
            Token::Rbracket => "Rbracket".to_owned(),
            Token::Comma => "Comma".to_owned(),
            Token::Colon => "Colon".to_owned(),
            Token::Not => "Not".to_owned(),
            Token::Ne => "Ne".to_owned(),
            Token::Eq => "Eq".to_owned(),
            Token::Gt => "Gt".to_owned(),
            Token::Gte => "Gte".to_owned(),
            Token::Lt => "Lt".to_owned(),
            Token::Lte => "Lte".to_owned(),
            Token::At => "At".to_owned(),
            Token::Ampersand => "Ampersand".to_owned(),
            Token::Lparen => "Lparen".to_owned(),
            Token::Rparen => "Rparen".to_owned(),
            Token::Lbrace => "Lbrace".to_owned(),
            Token::Rbrace => "Rbrace".to_owned(),
            Token::Eof => "Eof".to_owned(),
        }
    }

    /// Gets the lexeme representation of a token (as best as possible).
    pub fn lexeme(&self) -> (r: String)
        ensures
            r@ == spec_lexeme(self@),
    {
        match self {
            Token::Identifier(s) => s.clone(),
            Token::QuotedIdentifier(s) => {
                let mut r = "\"".to_owned();
                r.append(s.as_str());
                r.append("\"");
                proof {
                    reveal_strlit("\"");
                    assert(r@ =~= spec_lexeme(self@));
                }
                r
            },
            Token::Number(n) => i32_text(*n),
            Token::Literal(v) => {
                let mut r = "`".to_owned();
                let t = json_encode(v);
                r.append(t.as_str());
                r.append("`");
                proof {
                    reveal_strlit("`");
                    assert(r@ =~= spec_lexeme(self@));
                }
                r
            },
            Token::Error { value, .. } => value.clone(),
            Token::Dot => ".".to_owned(),
            Token::Star => "*".to_owned(),
            Token::Flatten => "[]".to_owned(),
            Token::Or => "||".to_owned(),
            Token::Pipe => "|".to_owned(),
            Token::Filter => "[?".to_owned(),
            Token::Lbracket => "[".to_owned(),
            Token::Rbracket => "]".to_owned(),
            Token::Comma => ",".to_owned(),
            Token::Colon => ":".to_owned(),
            Token::Not => "!".to_owned(),
            Token::Ne => "!=".to_owned(),
            Token::Eq => "==".to_owned(),
            Token::Gt => ">".to_owned(),
            Token::Gte => ">=".to_owned(),
            Token::Lt => "<".to_owned(),
            Token::Lte => "<=".to_owned(),
            Token::At => "@".to_owned(),
            Token::Ampersand => "&".to_owned(),
            Token::Lparen => "(".to_owned(),
            Token::Rparen => ")".to_owned(),
            Token::Lbrace => "{".to_owned(),
            Token::Rbrace => "}".to_owned(),
            Token::Eof => "".to_owned(),
        }
    }

    /// Provides the left binding power of the token.
    pub fn lbp(&self) -> (r: usize)
        ensures
            r == spec_lbp(self@),
    {
        match self {
            Token::Pipe => 1,
            Token::Eq => 2,
            Token::Gt => 2,
            Token::Lt => 2,
            Token::Gte => 2,
            Token::Lte => 2,
            Token::Ne => 2,
            Token::Or => 5,
            Token::Flatten => 6,
            Token::Star => 20,
            Token::Filter => 20,
            Token::Dot => 40,
            Token::Lbrace => 50,
            Token::Lbracket => 55,
            Token::Lparen => 60,
            _ => 0,
        }
    }

    /// Returns true if the token is a number token.
    pub fn is_number(&self) -> (r: bool)
        ensures
            r == (self@ matches TokenV::Number(_)),
    {
        match *self {
            Token::Number(_) => true,
            _ => false,
        }
    }
}

} // verus!

verus! {

/// Whitespace the lexer skips silently.
pub open spec fn is_ws(c: char) -> bool {
    c == ' ' || c == '\n' || c == '\t' || c == '\r'
}

/// An ASCII decimal digit.
pub open spec fn is_digit_char(c: char) -> bool {
    48 <= c as u32 && c as u32 <= 57
}

/// A character that may start an identifier.
pub open spec fn is_ident_start(c: char) -> bool {
    (97 <= c as u32 && c as u32 <= 122) || (65 <= c as u32 && c as u32 <= 90) || c == '_'
}

/// A character that may continue an identifier.
pub open spec fn is_ident_char(c: char) -> bool {
    is_ident_start(c) || is_digit_char(c)
}

/// The number of bytes the UTF-8 encoding of a character takes.
pub open spec fn char_bytes(c: char) -> int {
    vstd::utf8::encode_scalar(c as u32).len() as int
}

/// The byte offset of the character at index `i`.
pub open spec fn byte_off(s: Seq<char>, i: int) -> int
    decreases i,
{
    if i <= 0 {
        0
    } else {
        byte_off(s, i - 1) + char_bytes(s[i - 1])
    }
}

/// The first index at or after `i` whose character is not whitespace.
pub open spec fn skip_ws(s: Seq<char>, i: int) -> int
    decreases s.len() - i,
{
    if 0 <= i && i < s.len() && is_ws(s[i]) {
        skip_ws(s, i + 1)
    } else {
        i
    }
}

/// The end of the identifier run starting at `i`.
pub open spec fn ident_end(s: Seq<char>, i: int) -> int
    decreases s.len() - i,
{
    if 0 <= i && i < s.len() && is_ident_char(s[i]) {
        ident_end(s, i + 1)
    } else {
        i
    }
}

/// The end of the digit run starting at `i`.
pub open spec fn digits_end(s: Seq<char>, i: int) -> int
    decreases s.len() - i,
{
    if 0 <= i && i < s.len() && is_digit_char(s[i]) {
        digits_end(s, i + 1)
    } else {
        i
    }
}

/// The numeric value of a run of decimal digits.
pub open spec fn dec_val(digits: Seq<char>) -> int
    decreases digits.len(),
{
    if digits.len() == 0 {
        0
    } else {
        dec_val(digits.drop_last()) * 10 + (digits.last() as u32 - 48)
    }
}

/// Walks the characters of a delimited span starting right after the
/// opening delimiter: whether the closing delimiter was found, the raw
/// buffer walked over (escapes retained), and the index right after the
/// last character consumed.
pub open spec fn scan_inside(s: Seq<char>, i: int, w: char) -> (bool, Seq<char>, int)
    decreases s.len() - i,
{
    if !(0 <= i && i < s.len()) {
        (false, Seq::empty(), s.len() as int)
    } else if s[i] == w {
        (true, Seq::empty(), i + 1)
    } else if s[i] == '\\' {
        if i + 1 < s.len() {
            let rest = scan_inside(s, i + 2, w);
            (rest.0, seq!['\\', s[i + 1]].add(rest.1), rest.2)
        } else {
            (false, seq!['\\'], s.len() as int)
        }
    } else {
        let rest = scan_inside(s, i + 1, w);
        (rest.0, seq![s[i]].add(rest.1), rest.2)
    }
}

/// The token the lexer yields for the delimited span opened by `w` at
/// index `i - 1` (with `i` the index right after the opening delimiter),
/// together with the index right after it.
pub open spec fn lex_delimited(s: Seq<char>, i: int, w: char) -> (TokenV, int) {
    let scanned = scan_inside(s, i, w);
    let buf = scanned.1;
    if !scanned.0 {
        (
            TokenV::Error {
                value: seq![w].add(buf),
                msg: "Unclosed "@.add(seq![w]).add(" delimiter"@),
            },
            scanned.2,
        )
    } else if w == '"' {
        let q = seq!['"'].add(buf).push('"');
        match crate::trusted::json_decoded(q) {
            Ok(v) => match v {
                ValueV::Str(x) => (TokenV::QuotedIdentifier(x), scanned.2),
                _ => (
                    TokenV::Error {
                        value: q,
                        msg: "Unable to parse JSON value in quoted identifier: "@,
                    },
                    scanned.2,
                ),
            },
            Err(e) => (
                TokenV::Error {
                    value: q,
                    msg: "Unable to parse JSON value in quoted identifier: "@.add(e),
                },
                scanned.2,
            ),
        }
    } else if w == '\'' {
        (TokenV::Literal(ValueV::Str(buf)), scanned.2)
    } else {
        match crate::trusted::screened_decode(buf) {
            Ok(v) => (TokenV::Literal(v), scanned.2),
            Err(e) => (
                TokenV::Error {
                    value: seq!['`'].add(buf).push('`'),
                    msg: "Unable to parse literal JSON: "@.add(e),
                },
                scanned.2,
            ),
        }
    }
}

/// The token for the digit run starting at `i`, negated when asked for;
/// a run above `i32`'s range yields an error token.
pub open spec fn lex_number(s: Seq<char>, i: int, negative: bool) -> (TokenV, int) {
    let j = digits_end(s, i);
    let v = dec_val(s.subrange(i, j));
    if v <= 2147483647 {
        (TokenV::Number(if negative { (-v) as i32 } else { v as i32 }), j)
    } else {
        (TokenV::Error { value: s.subrange(i, j), msg: "Number out of range"@ }, j)
    }
}

/// The token starting at the non-whitespace index `i`, with the index
/// right after it.
pub open spec fn lex_at(s: Seq<char>, i: int) -> (TokenV, int) {
    let c = s[i];
    if c == '[' {
        if i + 1 < s.len() && s[i + 1] == ']' {
            (TokenV::Flatten, i + 2)
        } else if i + 1 < s.len() && s[i + 1] == '?' {
            (TokenV::Filter, i + 2)
        } else {
            (TokenV::Lbracket, i + 1)
        }
    } else if c == '.' {
        (TokenV::Dot, i + 1)
    } else if c == '*' {
        (TokenV::Star, i + 1)
    } else if c == '@' {
        (TokenV::At, i + 1)
    } else if c == ']' {
        (TokenV::Rbracket, i + 1)
    } else if c == '{' {
        (TokenV::Lbrace, i + 1)
    } else if c == '}' {
        (TokenV::Rbrace, i + 1)
    } else if c == '&' {
        (TokenV::Ampersand, i + 1)
    } else if c == '(' {
        (TokenV::Lparen, i + 1)
    } else if c == ')' {
        (TokenV::Rparen, i + 1)
    } else if c == ',' {
        (TokenV::Comma, i + 1)
    } else if c == ':' {
        (TokenV::Colon, i + 1)
    } else if c == '|' {
        if i + 1 < s.len() && s[i + 1] == '|' {
            (TokenV::Or, i + 2)
        } else {
            (TokenV::Pipe, i + 1)
        }
    } else if c == '>' {
        if i + 1 < s.len() && s[i + 1] == '=' {
            (TokenV::Gte, i + 2)
        } else {
            (TokenV::Gt, i + 1)
        }
    } else if c == '<' {
        if i + 1 < s.len() && s[i + 1] == '=' {
            (TokenV::Lte, i + 2)
        } else {
            (TokenV::Lt, i + 1)
        }
    } else if c == '!' {
        if i + 1 < s.len() && s[i + 1] == '=' {
            (TokenV::Ne, i + 2)
        } else {
            (TokenV::Not, i + 1)
        }
    } else if c == '=' {
        if i + 1 < s.len() && s[i + 1] == '=' {
            (TokenV::Eq, i + 2)
        } else {
            (
                TokenV::Error { value: "="@, msg: "Did you mean \"==\"?"@ },
                i + 1,
            )
        }
    } else if is_ident_start(c) {
        let j = ident_end(s, i);
        (TokenV::Identifier(s.subrange(i, j)), j)
    } else if c == '"' {
        lex_delimited(s, i + 1, '"')
    } else if c == '\'' {
        lex_delimited(s, i + 1, '\'')
    } else if c == '`' {
        lex_delimited(s, i + 1, '`')
    } else if c == '-' {
        if i + 1 < s.len() && 49 <= s[i + 1] as u32 && s[i + 1] as u32 <= 57 {
            lex_number(s, i + 1, true)
        } else {
            (
                TokenV::Error {
                    value: "-"@,
                    msg: "Negative sign must be followed by numbers 1-9"@,
                },
                i + 1,
            )
        }
    } else if is_digit_char(c) {
        lex_number(s, i, false)
    } else {
        (TokenV::Error { value: seq![c], msg: ""@ }, i + 1)
    }
}

} // verus!

verus! {

/// Skipping whitespace stays within the text and never goes backwards.
pub proof fn lemma_skip_ws_bounds(s: Seq<char>, i: int)
    requires
        0 <= i <= s.len(),
    ensures
        i <= skip_ws(s, i) <= s.len(),
    decreases s.len() - i,
{
    if i < s.len() && is_ws(s[i]) {
        lemma_skip_ws_bounds(s, i + 1);
    }
}

/// An identifier run ends within the text and never before its start.
pub proof fn lemma_ident_end_bounds(s: Seq<char>, i: int)
    requires
        0 <= i <= s.len(),
    ensures
        i <= ident_end(s, i) <= s.len(),
    decreases s.len() - i,
{
    if i < s.len() && is_ident_char(s[i]) {
        lemma_ident_end_bounds(s, i + 1);
    }
}

/// A digit run ends within the text and never before its start.
pub proof fn lemma_digits_end_bounds(s: Seq<char>, i: int)
    requires
        0 <= i <= s.len(),
    ensures
        i <= digits_end(s, i) <= s.len(),
    decreases s.len() - i,
{
    if i < s.len() && is_digit_char(s[i]) {
        lemma_digits_end_bounds(s, i + 1);
    }
}

/// A delimited scan consumes at least one character when one is there, and
/// stays within the text.
pub proof fn lemma_scan_inside_bounds(s: Seq<char>, i: int, w: char)
    requires
        0 <= i <= s.len(),
    ensures
        i <= scan_inside(s, i, w).2 <= s.len(),
        i < s.len() ==> i < scan_inside(s, i, w).2,
    decreases s.len() - i,
{
    if i < s.len() {
        if s[i] == w {
        } else if s[i] == '\\' {
            if i + 1 < s.len() {
                lemma_scan_inside_bounds(s, i + 2, w);
            }
        } else {
            lemma_scan_inside_bounds(s, i + 1, w);
        }
    }
}

/// A token always consumes at least one character and stays within the text.
pub proof fn lemma_lex_at_bounds(s: Seq<char>, i: int)
    requires
        0 <= i < s.len(),
    ensures
        i < lex_at(s, i).1 <= s.len(),
{
    let c = s[i];
    if is_ident_start(c) {
        lemma_ident_end_bounds(s, i + 1);
    } else if c == '"' || c == '\'' || c == '`' {
        lemma_scan_inside_bounds(s, i + 1, if c == '"' { '"' } else if c == '\'' { '\'' } else { '`' });
    } else if c == '-' {
        if i + 1 < s.len() && 49 <= s[i + 1] as u32 && s[i + 1] as u32 <= 57 {
            lemma_digits_end_bounds(s, i + 2);
        }
    } else if is_digit_char(c) {
        lemma_digits_end_bounds(s, i + 1);
    }
}

/// The tokens of the text from character index `i` on: each with its byte
/// offset, ending with a single `Eof` at the text's byte length.
pub open spec fn spec_tokens(s: Seq<char>, i: int) -> Seq<(int, TokenV)>
    decreases s.len() - i via spec_tokens_dec
{
    if !(0 <= i <= s.len()) {
        Seq::empty()
    } else {
        let j = skip_ws(s, i);
        if j >= s.len() {
            seq![(byte_off(s, s.len() as int), TokenV::Eof)]
        } else {
            let step = lex_at(s, j);
            seq![(byte_off(s, j), step.0)].add(spec_tokens(s, step.1))
        }
    }
}

#[via_fn]
proof fn spec_tokens_dec(s: Seq<char>, i: int) {
    if 0 <= i <= s.len() {
        lemma_skip_ws_bounds(s, i);
        let j = skip_ws(s, i);
        if j < s.len() {
            lemma_lex_at_bounds(s, j);
        }
    }
}

/// Every character's encoding is one to four bytes long.
pub proof fn lemma_char_bytes(c: char)
    ensures
        1 <= char_bytes(c) <= 4,
{
}

/// Byte offsets never decrease along the text.
pub proof fn lemma_byte_off_mono(s: Seq<char>, i: int, j: int)
    requires
        i <= j,
    ensures
        byte_off(s, i) <= byte_off(s, j),
    decreases j - i,
{
    if i < j {
        lemma_byte_off_mono(s, i, j - 1);
        lemma_char_bytes(s[j - 1]);
    }
}

/// The byte offset of the end of the text is the length of its UTF-8
/// encoding, the byte length of the source string.
pub proof fn lemma_byte_off_total(s: Seq<char>)
    ensures
        byte_off(s, s.len() as int) == vstd::utf8::encode_utf8(s).len(),
    decreases s.len(),
{
    if s.len() > 0 {
        lemma_byte_off_total(s.drop_last());
        lemma_encode_push(s.drop_last(), s.last());
        assert(s.drop_last().push(s.last()) =~= s);
        assert(byte_off(s.drop_last(), s.len() - 1) == byte_off(s, s.len() - 1)) by {
            lemma_byte_off_agree_general(s.drop_last(), s, s.len() - 1);
        }
    }
}

/// Encoding a text with one character appended appends that character's
/// encoding.
pub proof fn lemma_encode_push(s: Seq<char>, c: char)
    ensures
        vstd::utf8::encode_utf8(s.push(c)) =~= vstd::utf8::encode_utf8(s).add(
            vstd::utf8::encode_scalar(c as u32),
        ),
    decreases s.len(),
{
    if s.len() == 0 {
        assert(s.push(c).drop_first() =~= s);
        assert(s.push(c)[0] == c);
    } else {
        lemma_encode_push(s.drop_first(), c);
        assert(s.push(c).drop_first() =~= s.drop_first().push(c));
        assert(s.push(c)[0] == s[0]);
    }
}

/// Two texts that agree on the first `i` characters have the same byte
/// offset at `i`.
pub proof fn lemma_byte_off_agree_general(s1: Seq<char>, s2: Seq<char>, i: int)
    requires
        0 <= i <= s1.len(),
        i <= s2.len(),
        forall|k: int| 0 <= k < i ==> s1[k] == s2[k],
    ensures
        byte_off(s1, i) == byte_off(s2, i),
    decreases i,
{
    if i > 0 {
        lemma_byte_off_agree_general(s1, s2, i - 1);
    }
}

} // verus!

verus! {

/// Law: for every source text, tokenization yields byte offsets that never
/// decrease, and the last token is the only `Eof`, placed at the byte
/// length of the source.
pub proof fn lemma_token_stream_shape(s: Seq<char>, i: int)
    requires
        0 <= i <= s.len(),
    ensures
        spec_tokens(s, i).len() >= 1,
        spec_tokens(s, i).last() == (byte_off(s, s.len() as int), TokenV::Eof),
        forall|k: int|
            0 <= k < spec_tokens(s, i).len() - 1 ==> !((#[trigger] spec_tokens(s, i)[k]).1 matches TokenV::Eof),
        forall|k: int|
            0 <= k < spec_tokens(s, i).len() ==> byte_off(s, i) <= (#[trigger] spec_tokens(s, i)[k]).0,
        forall|k: int, l: int|
            0 <= k <= l < spec_tokens(s, i).len() ==> (#[trigger] spec_tokens(s, i)[k]).0 <= (
            #[trigger] spec_tokens(s, i)[l]).0,
    decreases s.len() - i,
{
    lemma_skip_ws_bounds(s, i);
    let j = skip_ws(s, i);
    lemma_byte_off_mono(s, i, j);
    if j >= s.len() {
        lemma_byte_off_mono(s, i, s.len() as int);
    } else {
        lemma_lex_at_bounds(s, j);
        let step = lex_at(s, j);
        assert(!(step.0 matches TokenV::Eof));
        lemma_token_stream_shape(s, step.1);
        lemma_byte_off_mono(s, j, step.1);
        let ts = spec_tokens(s, i);
        let rest = spec_tokens(s, step.1);
        assert(ts.last() == rest.last());
        assert(forall|k: int| 1 <= k < ts.len() ==> ts[k] == rest[k - 1]);
    }
}

/// The lexer: tokenizes a JMESPath expression step by step.
pub struct Lexer {
    chars: Vec<char>,
    pos: usize,
    byte_pos: usize,
    sent_eof: bool,
    last_position: usize,
}

/// Tokenizes a JMESPath expression.
///
/// This function returns a Lexer that yields tokens step by step.
pub fn tokenize(expr: &str) -> (r: Lexer)
    ensures
        r.wf(),
        r.src() == expr@,
        r.at() == 0,
        !r.eof_sent(),
{
    Lexer::new(expr)
}

impl Lexer {
    /// The characters of the source text.
    pub closed spec fn src(self) -> Seq<char> {
        self.chars@
    }

    /// The current character index.
    pub closed spec fn at(self) -> int {
        self.pos as int
    }

    /// Whether the final `Eof` token was already yielded.
    pub closed spec fn eof_sent(self) -> bool {
        self.sent_eof
    }

    /// The lexer's bookkeeping invariant: the position is inside the text
    /// and the byte counters match the model.
    pub closed spec fn wf(self) -> bool {
        &&& self.pos as int <= self.chars@.len()
        &&& self.byte_pos as int == byte_off(self.chars@, self.pos as int)
        &&& self.last_position as int == byte_off(self.chars@, self.chars@.len() as int)
    }

    /// A well-formed lexer's cursor stands inside its source: callers can
    /// bound the positions the step contract speaks of.
    pub proof fn lemma_position_bounds(self)
        requires
            self.wf(),
        ensures
            0 <= self.at() <= self.src().len(),
    {
    }

    /// Constructs a new lexer over the given expression string.
    pub fn new(expr: &str) -> (r: Lexer)
        ensures
            r.wf(),
            r.src() == expr@,
            r.at() == 0,
            !r.eof_sent(),
    {
        let chars = crate::trusted::str_chars(expr);
        let byte_len = expr.as_bytes().len();
        proof {
            lemma_byte_off_total(chars@);
        }
        Lexer { chars, pos: 0, byte_pos: 0, sent_eof: false, last_position: byte_len }
    }
}

/// How many bytes the UTF-8 encoding of this character takes.
pub fn char_width(c: char) -> (w: usize)
    ensures
        w as int == char_bytes(c),
{
    let u = c as u32;
    if u < 0x80 {
        1
    } else if u < 0x800 {
        2
    } else if u < 0x10000 {
        3
    } else {
        4
    }
}

} // verus!

verus! {

/// What one call of `next` yields and how it moves the lexer: the yielded
/// item, the character index after it, and whether `Eof` has now been sent.
pub open spec fn spec_next_result(s: Seq<char>, pos: int, sent: bool) -> (Option<(int, TokenV)>, int, bool) {
    if sent {
        (None, pos, true)
    } else {
        let j = skip_ws(s, pos);
        if j >= s.len() {
            (Some((byte_off(s, s.len() as int), TokenV::Eof)), s.len() as int, true)
        } else {
            let st = lex_at(s, j);
            (Some((byte_off(s, j), st.0)), st.1, false)
        }
    }
}

/// The character classes the lexer consumes greedily.
pub enum CharClass {
    Digit,
    IdentChar,
}

impl CharClass {
    /// Which characters the class holds.
    pub open spec fn spec_holds(self, c: char) -> bool {
        match self {
            CharClass::Digit => is_digit_char(c),
            CharClass::IdentChar => is_ident_char(c),
        }
    }

    /// Decides membership of a character in the class.
    pub fn holds(&self, c: char) -> (r: bool)
        ensures
            r == self.spec_holds(c),
    {
        let u = c as u32;
        match self {
            CharClass::Digit => 48 <= u && u <= 57,
            CharClass::IdentChar => (97 <= u && u <= 122) || (65 <= u && u <= 90) || c == '_' || (48 <= u && u <= 57),
        }
    }

    /// Where the run of this class starting at `i` ends.
    pub open spec fn run_end(self, s: Seq<char>, i: int) -> int {
        match self {
            CharClass::Digit => digits_end(s, i),
            CharClass::IdentChar => ident_end(s, i),
        }
    }
}

impl Lexer {
    /// Steps over the character under the cursor.
    fn advance(&mut self)
        requires
            old(self).wf(),
            old(self).at() < old(self).src().len(),
        ensures
            final(self).wf(),
            final(self).src() == old(self).src(),
            final(self).at() == old(self).at() + 1,
            final(self).eof_sent() == old(self).eof_sent(),
    {
        proof {
            lemma_byte_off_mono(self.chars@, self.pos as int + 1, self.chars@.len() as int);
            lemma_char_bytes(self.chars@[self.pos as int]);
        }
        let n = self.chars.len();
        let c = self.chars[self.pos];
        let w = char_width(c);
        self.byte_pos = self.byte_pos + w;
        proof {
            assert(self.pos < n);
        }
        self.pos = self.pos + 1;
    }

    /// Consumes characters of the class as long as they last, the cursor's
    /// own character first, as a text.
    fn consume_while(&mut self, class: CharClass) -> (r: String)
        requires
            old(self).wf(),
        ensures
            final(self).wf(),
            final(self).src() == old(self).src(),
            final(self).eof_sent() == old(self).eof_sent(),
            final(self).at() == class.run_end(old(self).src(), old(self).at()),
            r@ == old(self).src().subrange(old(self).at(), final(self).at()),
    {
        let ghost pos0 = self.at();
        let ghost s = self.src();
        let mut buf: Vec<char> = Vec::new();
        while self.pos < self.chars.len() && class.holds(self.chars[self.pos])
            invariant
                self.wf(),
                self.src() == s,
                self.eof_sent() == old(self).eof_sent(),
                0 <= pos0 <= self.at() <= s.len(),
                class.run_end(s, pos0) == class.run_end(s, self.at()),
                buf@ =~= s.subrange(pos0, self.at()),
            decreases s.len() - self.at(),
        {
            let ghost at0 = self.at();
            let c = self.chars[self.pos];
            self.advance();
            buf.push(c);
            proof {
                assert(s.subrange(pos0, at0 + 1).drop_last() =~= s.subrange(pos0, at0));
                assert(s.subrange(pos0, at0 + 1).last() == s[at0]);
                assert(buf@ =~= s.subrange(pos0, at0 + 1));
            }
        }
        let r = crate::trusted::chars_to_string(&buf);
        r
    }

    /// Consumes `[`'s lookahead: `[]`, `[?` or `[` alone.
    fn consume_lbracket(&mut self) -> (r: Token)
        requires
            old(self).wf(),
        ensures
            final(self).wf(),
            final(self).src() == old(self).src(),
            final(self).eof_sent() == old(self).eof_sent(),
            ({
                let s = final(self).src();
                let p = old(self).at();
                if p < s.len() && s[p] == ']' {
                    r@ == TokenV::Flatten && final(self).at() == p + 1
                } else if p < s.len() && s[p] == '?' {
                    r@ == TokenV::Filter && final(self).at() == p + 1
                } else {
                    r@ == TokenV::Lbracket && final(self).at() == p
                }
            }),
    {
        if self.pos < self.chars.len() && self.chars[self.pos] == ']' {
            self.advance();
            Token::Flatten
        } else if self.pos < self.chars.len() && self.chars[self.pos] == '?' {
            self.advance();
            Token::Filter
        } else {
            Token::Lbracket
        }
    }

    /// Consumes the lookahead of a two-character operator: the first token
    /// when the expected character follows, the second otherwise.
    fn alt(&mut self, expected: char, match_type: Token, else_type: Token) -> (r: Token)
        requires
            old(self).wf(),
        ensures
            final(self).wf(),
            final(self).src() == old(self).src(),
            final(self).eof_sent() == old(self).eof_sent(),
            ({
                let s = final(self).src();
                let p = old(self).at();
                if p < s.len() && s[p] == expected {
                    r == match_type && final(self).at() == p + 1
                } else {
                    r == else_type && final(self).at() == p
                }
            }),
    {
        if self.pos < self.chars.len() && self.chars[self.pos] == expected {
            self.advance();
            match_type
        } else {
            else_type
        }
    }

    /// Consumes an identifier run starting at the cursor.
    fn consume_identifier(&mut self) -> (r: Token)
        requires
            old(self).wf(),
        ensures
            final(self).wf(),
            final(self).src() == old(self).src(),
            final(self).eof_sent() == old(self).eof_sent(),
            final(self).at() == ident_end(old(self).src(), old(self).at()),
            r@ == TokenV::Identifier(old(self).src().subrange(old(self).at(), final(self).at())),
    {
        let lexeme = self.consume_while(CharClass::IdentChar);
        Token::Identifier(lexeme)
    }

    /// Consumes a digit run into a number token, negated when asked;
    /// a run beyond the range of the token's integer yields an error token.
    fn consume_number(&mut self, is_negative: bool) -> (r: Token)
        requires
            old(self).wf(),
            old(self).at() < old(self).src().len(),
            is_digit_char(old(self).src()[old(self).at()]),
        ensures
            final(self).wf(),
            final(self).src() == old(self).src(),
            final(self).eof_sent() == old(self).eof_sent(),
            ({
                let st = lex_number(old(self).src(), old(self).at(), is_negative);
                r@ == st.0 && final(self).at() == st.1
            }),
    {
        let ghost pos0 = self.at();
        let ghost s = self.src();
        proof {
            lemma_digits_end_bounds(s, pos0);
            lemma_digits_end_chars(s, pos0);
        }
        let lexeme = self.consume_while(CharClass::Digit);
        let ghost run = s.subrange(pos0, self.at());
        let bytes = lexeme.as_str().as_bytes();
        let mut acc: u64 = 0;
        let mut over: bool = false;
        let mut k: usize = 0;
        proof {
            lemma_ascii_digit_run(run);
        }
        while k < bytes.len()
            invariant
                lexeme@ == run,
                forall|q: int| 0 <= q < run.len() ==> is_digit_char(#[trigger] run[q]),
                bytes@.len() == run.len(),
                forall|q: int| 0 <= q < run.len() ==> (#[trigger] bytes@[q]) as int == (run[q] as u32) as int,
                0 <= k <= run.len(),
                !over ==> acc as int == dec_val(run.subrange(0, k as int)) && acc <= 2147483647,
                over ==> dec_val(run.subrange(0, k as int)) > 2147483647,
            decreases bytes@.len() - k,
        {
            let d: u64 = (bytes[k] - 48) as u64;
            proof {
                assert(run.subrange(0, k as int + 1).drop_last() =~= run.subrange(0, k as int));
                assert(run.subrange(0, k as int + 1).last() == run[k as int]);
                lemma_dec_val_nonneg(run.subrange(0, k as int));
            }
            if !over {
                let t: u64 = acc * 10 + d;
                if t > 2147483647 {
                    over = true;
                } else {
                    acc = t;
                }
            }
            k = k + 1;
        }
        proof {
            assert(run.subrange(0, run.len() as int) =~= run);
        }
        if over {
            Token::Error { value: lexeme, msg: "Number out of range".to_owned() }
        } else if is_negative {
            let v: i32 = acc as i32;
            Token::Number(-v)
        } else {
            Token::Number(acc as i32)
        }
    }

    /// Consumes a negative number: the sign must be followed by a nonzero
    /// digit.
    fn consume_negative_number(&mut self) -> (r: Token)
        requires
            old(self).wf(),
            old(self).at() < old(self).src().len(),
        ensures
            final(self).wf(),
            final(self).src() == old(self).src(),
            final(self).eof_sent() == old(self).eof_sent(),
            ({
                let s = final(self).src();
                let i = old(self).at();
                if i + 1 < s.len() && 49 <= s[i + 1] as u32 && s[i + 1] as u32 <= 57 {
                    let st = lex_number(s, i + 1, true);
                    r@ == st.0 && final(self).at() == st.1
                } else {
                    r@ == (TokenV::Error {
                        value: "-"@,
                        msg: "Negative sign must be followed by numbers 1-9"@,
                    }) && final(self).at() == i + 1
                }
            }),
    {
        self.advance();
        if self.pos < self.chars.len() {
            let c = self.chars[self.pos];
            let u = c as u32;
            if 49 <= u && u <= 57 {
                return self.consume_number(true);
            }
        }
        Token::Error {
            value: "-".to_owned(),
            msg: "Negative sign must be followed by numbers 1-9".to_owned(),
        }
    }

    /// Consumes the characters of a span delimited by `wrapper`, honoring
    /// backslash escapes: whether the span was closed, and the raw buffer.
    fn consume_inside(&mut self, wrapper: char) -> (r: (bool, String))
        requires
            old(self).wf(),
        ensures
            final(self).wf(),
            final(self).src() == old(self).src(),
            final(self).eof_sent() == old(self).eof_sent(),
            ({
                let sc = scan_inside(old(self).src(), old(self).at(), wrapper);
                r.0 == sc.0 && r.1@ == sc.1 && final(self).at() == sc.2
            }),
    {
        let ghost pos0 = self.at();
        let ghost s = self.src();
        let mut buf: Vec<char> = Vec::new();
        while self.pos < self.chars.len()
            invariant
                self.wf(),
                self.src() == s,
                self.eof_sent() == old(self).eof_sent(),
                s == old(self).src(),
                pos0 == old(self).at(),
                0 <= pos0 <= self.at() <= s.len(),
                scan_inside(s, pos0, wrapper).0 == scan_inside(s, self.at(), wrapper).0,
                scan_inside(s, pos0, wrapper).1 =~= buf@.add(scan_inside(s, self.at(), wrapper).1),
                scan_inside(s, pos0, wrapper).2 == scan_inside(s, self.at(), wrapper).2,
            decreases s.len() - self.at(),
        {
            let c = self.chars[self.pos];
            self.advance();
            if c == wrapper {
                let r = crate::trusted::chars_to_string(&buf);
                return (true, r);
            } else if c == '\\' {
                buf.push('\\');
                if self.pos < self.chars.len() {
                    buf.push(self.chars[self.pos]);
                    self.advance();
                }
                proof {
                    assert(scan_inside(s, pos0, wrapper).1 =~= buf@.add(scan_inside(s, self.at(), wrapper).1));
                }
            } else {
                buf.push(c);
                proof {
                    assert(scan_inside(s, pos0, wrapper).1 =~= buf@.add(scan_inside(s, self.at(), wrapper).1));
                }
            }
        }
        let r = crate::trusted::chars_to_string(&buf);
        (false, r)
    }
}

/// The characters of a digit run are digits.
pub proof fn lemma_digits_end_chars(s: Seq<char>, i: int)
    requires
        0 <= i <= s.len(),
    ensures
        forall|q: int| i <= q < digits_end(s, i) ==> is_digit_char(#[trigger] s[q]),
    decreases s.len() - i,
{
    if i < s.len() && is_digit_char(s[i]) {
        lemma_digits_end_chars(s, i + 1);
    }
}

/// The decimal value of a run of digits is never negative.
pub proof fn lemma_dec_val_nonneg(digits: Seq<char>)
    requires
        forall|q: int| 0 <= q < digits.len() ==> is_digit_char(#[trigger] digits[q]),
    ensures
        dec_val(digits) >= 0,
    decreases digits.len(),
{
    if digits.len() > 0 {
        assert(forall|q: int| 0 <= q < digits.len() - 1 ==> is_digit_char(#[trigger] digits.drop_last()[q]));
        lemma_dec_val_nonneg(digits.drop_last());
    }
}

/// A run of ASCII digits encodes byte-per-character.
pub proof fn lemma_ascii_digit_run(run: Seq<char>)
    requires
        forall|q: int| 0 <= q < run.len() ==> is_digit_char(#[trigger] run[q]),
    ensures
        vstd::utf8::encode_utf8(run).len() == run.len(),
        forall|q: int|
            0 <= q < run.len() ==> (#[trigger] vstd::utf8::encode_utf8(run)[q]) as int == (run[q] as u32) as int,
    decreases run.len(),
{
    if run.len() > 0 {
        assert(forall|q: int| 0 <= q < run.len() - 1 ==> is_digit_char(#[trigger] run.drop_first()[q]));
        lemma_ascii_digit_run(run.drop_first());
        let cu: u32 = run[0] as u32;
        assert(vstd::utf8::encode_scalar(cu) =~= seq![vstd::utf8::leading_byte_width_1(cu)]) by {
            assert(vstd::utf8::has_width_1_encoding(cu));
        }
        assert(vstd::utf8::leading_byte_width_1(cu) as int == cu as int) by (bit_vector)
            requires 48 <= cu <= 57;
        assert(vstd::utf8::encode_utf8(run) =~= vstd::utf8::encode_scalar(cu).add(
            vstd::utf8::encode_utf8(run.drop_first())));
        assert forall|q: int| 0 <= q < run.len() implies (#[trigger] vstd::utf8::encode_utf8(run)[q]) as int
            == (run[q] as u32) as int by {
            if q == 0 {
                assert(vstd::utf8::encode_utf8(run)[0] == vstd::utf8::encode_scalar(cu)[0]);
                assert(vstd::utf8::encode_scalar(cu)[0] == vstd::utf8::leading_byte_width_1(cu));
            } else {
                assert(vstd::utf8::encode_utf8(run)[q] == vstd::utf8::encode_utf8(run.drop_first())[q - 1]);
                assert(run.drop_first()[q - 1] == run[q]);
            }
        }
    }
}

} // verus!

verus! {

impl Lexer {
    /// Consumes a quoted identifier (the opening quote already stepped
    /// over): the inner text is decoded as a JSON string to resolve escapes.
    fn consume_quoted_identifier(&mut self) -> (r: Token)
        requires
            old(self).wf(),
        ensures
            final(self).wf(),
            final(self).src() == old(self).src(),
            final(self).eof_sent() == old(self).eof_sent(),
            ({
                let st = lex_delimited(old(self).src(), old(self).at(), '"');
                r@ == st.0 && final(self).at() == st.1
            }),
    {
        let (closed, buf) = self.consume_inside('"');
        if !closed {
            let mut val = "\"".to_owned();
            val.append(buf.as_str());
            proof {
                reveal_strlit("\"");
                reveal_strlit("Unclosed \" delimiter");
                reveal_strlit("Unclosed ");
                reveal_strlit(" delimiter");
                assert(val@ =~= seq!['"'].add(buf@));
                assert("Unclosed \" delimiter"@ =~= "Unclosed "@.add(seq!['"']).add(" delimiter"@));
            }
            Token::Error { value: val, msg: "Unclosed \" delimiter".to_owned() }
        } else {
            let mut q = "\"".to_owned();
            q.append(buf.as_str());
            q.append("\"");
            proof {
                reveal_strlit("\"");
                assert(q@ =~= seq!['"'].add(buf@).push('"'));
            }
            match crate::trusted::json_decode(q.as_str()) {
                Ok(v) => {
                    match v {
                        Value::Str(x) => Token::QuotedIdentifier(x),
                        _ => Token::Error {
                            value: q,
                            msg: "Unable to parse JSON value in quoted identifier: ".to_owned(),
                        },
                    }
                },
                Err(e) => {
                    let mut m = "Unable to parse JSON value in quoted identifier: ".to_owned();
                    m.append(e.as_str());
                    Token::Error { value: q, msg: m }
                },
            }
        }
    }

    /// Consumes a raw string literal (the opening quote already stepped
    /// over): no escape resolution beyond the delimiter.
    fn consume_raw_string(&mut self) -> (r: Token)
        requires
            old(self).wf(),
        ensures
            final(self).wf(),
            final(self).src() == old(self).src(),
            final(self).eof_sent() == old(self).eof_sent(),
            ({
                let st = lex_delimited(old(self).src(), old(self).at(), '\'');
                r@ == st.0 && final(self).at() == st.1
            }),
    {
        let (closed, buf) = self.consume_inside('\'');
        if closed {
            Token::Literal(Value::Str(buf))
        } else {
            let mut val = "'".to_owned();
            val.append(buf.as_str());
            proof {
                reveal_strlit("'");
                reveal_strlit("Unclosed ' delimiter");
                reveal_strlit("Unclosed ");
                reveal_strlit(" delimiter");
                assert(val@ =~= seq!['\''].add(buf@));
                assert("Unclosed ' delimiter"@ =~= "Unclosed "@.add(seq!['\'']).add(" delimiter"@));
            }
            Token::Error { value: val, msg: "Unclosed ' delimiter".to_owned() }
        }
    }

    /// Consumes a JSON literal (the opening backtick already stepped over):
    /// the inner text is decoded as a JSON value.
    fn consume_literal(&mut self) -> (r: Token)
        requires
            old(self).wf(),
        ensures
            final(self).wf(),
            final(self).src() == old(self).src(),
            final(self).eof_sent() == old(self).eof_sent(),
            ({
                let st = lex_delimited(old(self).src(), old(self).at(), '`');
                r@ == st.0 && final(self).at() == st.1
            }),
    {
        let (closed, buf) = self.consume_inside('`');
        if !closed {
            let mut val = "`".to_owned();
            val.append(buf.as_str());
            proof {
                reveal_strlit("`");
                reveal_strlit("Unclosed ` delimiter");
                reveal_strlit("Unclosed ");
                reveal_strlit(" delimiter");
                assert(val@ =~= seq!['`'].add(buf@));
                assert("Unclosed ` delimiter"@ =~= "Unclosed "@.add(seq!['`']).add(" delimiter"@));
            }
            Token::Error { value: val, msg: "Unclosed ` delimiter".to_owned() }
        } else {
            match crate::trusted::json_decode_checked(buf.as_str()) {
                Ok(v) => Token::Literal(v),
                Err(e) => {
                    let mut val = "`".to_owned();
                    val.append(buf.as_str());
                    val.append("`");
                    let mut m = "Unable to parse literal JSON: ".to_owned();
                    m.append(e.as_str());
                    proof {
                        reveal_strlit("`");
                        assert(val@ =~= seq!['`'].add(buf@).push('`'));
                    }
                    Token::Error { value: val, msg: m }
                },
            }
        }
    }

    /// Whether the cursor stands on a whitespace character.
    fn ws_under_cursor(&self) -> (r: bool)
        ensures
            r == (self.at() < self.src().len() && is_ws(self.src()[self.at()])),
    {
        if self.pos < self.chars.len() {
            let c = self.chars[self.pos];
            c == ' ' || c == '\n' || c == '\t' || c == '\r'
        } else {
            false
        }
    }

    /// Yields the next token with its byte offset: after the last token of
    /// the source a single `Eof` at the source's byte length, then nothing.
    pub fn next(&mut self) -> (r: Option<(usize, Token)>)
        requires
            old(self).wf(),
        ensures
            final(self).wf(),
            final(self).src() == old(self).src(),
            ({
                let sn = spec_next_result(old(self).src(), old(self).at(), old(self).eof_sent());
                &&& (match r {
                    None => sn.0 is None,
                    Some(p) => sn.0 == Some((p.0 as int, p.1@)),
                })
                &&& final(self).at() == sn.1
                &&& final(self).eof_sent() == sn.2
            }),
    {
        if self.sent_eof {
            return None;
        }
        let ghost s = self.src();
        let ghost pos0 = self.at();
        while self.ws_under_cursor()
            invariant
                self.wf(),
                self.src() == s,
                s == old(self).src(),
                pos0 == old(self).at(),
                !self.eof_sent(),
                0 <= pos0 <= self.at() <= s.len(),
                skip_ws(s, pos0) == skip_ws(s, self.at()),
            decreases s.len() - self.at(),
        {
            self.advance();
        }
        let ghost j = self.at();
        proof {
            assert(skip_ws(s, j) == j);
        }
        if self.pos == self.chars.len() {
            self.sent_eof = true;
            return Some((self.last_position, Token::Eof));
        }
        let off = self.byte_pos;
        let c = self.chars[self.pos];
        let u = c as u32;
        if c == '[' {
            self.advance();
            let t = self.consume_lbracket();
            Some((off, t))
        } else if c == '.' {
            self.advance();
            Some((off, Token::Dot))
        } else if c == '*' {
            self.advance();
            Some((off, Token::Star))
        } else if c == '@' {
            self.advance();
            Some((off, Token::At))
        } else if c == ']' {
            self.advance();
            Some((off, Token::Rbracket))
        } else if c == '{' {
            self.advance();
            Some((off, Token::Lbrace))
        } else if c == '}' {
            self.advance();
            Some((off, Token::Rbrace))
        } else if c == '&' {
            self.advance();
            Some((off, Token::Ampersand))
        } else if c == '(' {
            self.advance();
            Some((off, Token::Lparen))
        } else if c == ')' {
            self.advance();
            Some((off, Token::Rparen))
        } else if c == ',' {
            self.advance();
            Some((off, Token::Comma))
        } else if c == ':' {
            self.advance();
            Some((off, Token::Colon))
        } else if c == '|' {
            self.advance();
            let t = self.alt('|', Token::Or, Token::Pipe);
            Some((off, t))
        } else if c == '>' {
            self.advance();
            let t = self.alt('=', Token::Gte, Token::Gt);
            Some((off, t))
        } else if c == '<' {
            self.advance();
            let t = self.alt('=', Token::Lte, Token::Lt);
            Some((off, t))
        } else if c == '!' {
            self.advance();
            let t = self.alt('=', Token::Ne, Token::Not);
            Some((off, t))
        } else if c == '=' {
            self.advance();
            let t = self.alt(
                '=',
                Token::Eq,
                Token::Error { value: "=".to_owned(), msg: "Did you mean \"==\"?".to_owned() },
            );
            Some((off, t))
        } else if (97 <= u && u <= 122) || (65 <= u && u <= 90) || c == '_' {
            let t = self.consume_identifier();
            Some((off, t))
        } else if c == '"' {
            self.advance();
            let t = self.consume_quoted_identifier();
            Some((off, t))
        } else if c == '\'' {
            self.advance();
            let t = self.consume_raw_string();
            Some((off, t))
        } else if c == '`' {
            self.advance();
            let t = self.consume_literal();
            Some((off, t))
        } else if c == '-' {
            let t = self.consume_negative_number();
            Some((off, t))
        } else if 48 <= u && u <= 57 {
            let t = self.consume_number(false);
            Some((off, t))
        } else {
            self.advance();
            let mut cs: Vec<char> = Vec::new();
            cs.push(c);
            let val = crate::trusted::chars_to_string(&cs);
            proof {
                assert(val@ =~= seq![c]);
            }
            Some((off, Token::Error { value: val, msg: "".to_owned() }))
        }
    }

    /// Yields every remaining token of the source, ending with `Eof`.
    pub fn collect_tokens(&mut self) -> (r: Vec<(usize, Token)>)
        requires
            old(self).wf(),
            !old(self).eof_sent(),
        ensures
            final(self).wf(),
            final(self).eof_sent(),
            ({
                let ts = spec_tokens(old(self).src(), old(self).at());
                &&& r@.len() == ts.len()
                &&& forall|k: int|
                    0 <= k < ts.len() ==> (#[trigger] r@[k]).0 as int == ts[k].0 && r@[k].1@ == ts[k].1
            }),
    {
        let ghost s = self.src();
        let ghost pos0 = self.at();
        let ghost ts = spec_tokens(s, pos0);
        let mut out: Vec<(usize, Token)> = Vec::new();
        let mut done = false;
        proof {
            lemma_skip_ws_bounds(s, pos0);
        }
        while !done
            invariant
                self.wf(),
                self.src() == s,
                s == old(self).src(),
                pos0 == old(self).at(),
                ts == spec_tokens(s, pos0),
                0 <= self.at() <= s.len(),
                forall|k: int|
                    0 <= k < out@.len() ==> (#[trigger] out@[k]).0 as int == ts[k].0 && out@[k].1@ == ts[k].1,
                out@.len() <= ts.len(),
                !done ==> !self.eof_sent() || out@.len() == ts.len(),
                !self.eof_sent() ==> spec_tokens(s, self.at()) =~= ts.skip(out@.len() as int),
                self.eof_sent() ==> out@.len() == ts.len(),
                done ==> out@.len() == ts.len() && self.eof_sent(),
            decreases 2 * (s.len() - self.at()) + (if self.eof_sent() { 0int } else { 2 }) + (if done { 0int } else { 1 }),
        {
            let ghost at0 = self.at();
            let ghost sent0 = self.eof_sent();
            proof {
                if !sent0 {
                    lemma_skip_ws_bounds(s, at0);
                    let jj = skip_ws(s, at0);
                    if jj < s.len() {
                        lemma_lex_at_bounds(s, jj);
                    }
                }
            }
            match self.next() {
                None => {
                    done = true;
                },
                Some(p) => {
                    let ghost prev = out@;
                    let ghost n = out@.len() as int;
                    proof {
                        assert(spec_tokens(s, at0) =~= ts.skip(n));
                        assert(ts.skip(n)[0] == ts[n]);
                        assert(spec_tokens(s, at0)[0] == (p.0 as int, p.1@));
                        if skip_ws(s, at0) < s.len() {
                            assert(spec_tokens(s, self.at()) =~= spec_tokens(s, at0).drop_first());
                            assert(spec_tokens(s, at0).drop_first() =~= ts.skip(n + 1));
                        }
                    }
                    out.push(p);
                    proof {
                        assert forall|k: int|
                            0 <= k < out@.len() implies (#[trigger] out@[k]).0 as int == ts[k].0
                            && out@[k].1@ == ts[k].1 by {
                            if k < n {
                                assert(out@[k] == prev[k]);
                            } else {
                                assert(out@[k] == p);
                            }
                        }
                    }
                },
            }
        }
        out
    }
}

} // verus!

verus! {

impl Clone for Token {
    /// A clone models the same token.
    fn clone(&self) -> (r: Self)
        ensures
            r@ == self@,
    {
        match self {
            Token::Identifier(s) => Token::Identifier(s.clone()),
            Token::QuotedIdentifier(s) => Token::QuotedIdentifier(s.clone()),
            Token::Number(n) => Token::Number(*n),
            Token::Literal(v) => Token::Literal(v.clone()),
            Token::Error { value, msg } => Token::Error { value: value.clone(), msg: msg.clone() },
            Token::Dot => Token::Dot,
            Token::Star => Token::Star,
            Token::Flatten => Token::Flatten,
            Token::Or => Token::Or,
            Token::Pipe => Token::Pipe,
            Token::Filter => Token::Filter,
            Token::Lbracket => Token::Lbracket,
            Token::Rbracket => Token::Rbracket,
            Token::Comma => Token::Comma,
            Token::Colon => Token::Colon,
            Token::Not => Token::Not,
            Token::Ne => Token::Ne,
            Token::Eq => Token::Eq,
            Token::Gt => Token::Gt,
            Token::Gte => Token::Gte,
            Token::Lt => Token::Lt,
            Token::Lte => Token::Lte,
            Token::At => Token::At,
            Token::Ampersand => Token::Ampersand,
            Token::Lparen => Token::Lparen,
            Token::Rparen => Token::Rparen,
            Token::Lbrace => Token::Lbrace,
            Token::Rbrace => Token::Rbrace,
            Token::Eof => Token::Eof,
        }
    }
}

} // verus!
