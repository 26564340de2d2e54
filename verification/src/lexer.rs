//! The tokenizer: statement text to tokens.
//!
//! Tokenizing runs in three steps. `classify` asks the standard library, for each
//! character, whether it is a letter or another alphanumeric character. `scan`
//! cuts the text into tokens from the characters and their classes alone.
//! `resolve_keywords` then turns the words that are keywords into keyword tokens,
//! which needs the upper-case form of each word.

use vstd::prelude::*;
use crate::errors::{ErrorView, SQLError};
use crate::text::{chars_of, slice_of, text_eq};

verus! {

/// One lexical unit of a statement.
#[derive(Debug, PartialEq, Eq)]
pub enum Token {
    /// A reserved word, in upper case.
    Keyword(String),
    /// A name, as written.
    Identifier(String),
    /// A comparison operator.
    Operator(String),
    /// A quoted text or a number, without the quotes.
    Literal(String),
    Comma,
    Semicolon,
    Asterisk,
    OpenParen,
    CloseParen,
    /// The end of the statement; always the last token.
    EOF,
}

/// A token with its text as a sequence of characters.
pub enum TokenView {
    Keyword(Seq<char>),
    Identifier(Seq<char>),
    Operator(Seq<char>),
    Literal(Seq<char>),
    Comma,
    Semicolon,
    Asterisk,
    OpenParen,
    CloseParen,
    EOF,
}

impl View for Token {
    type V = TokenView;

    open spec fn view(&self) -> TokenView {
        match self {
            Token::Keyword(s) => TokenView::Keyword(s@),
            Token::Identifier(s) => TokenView::Identifier(s@),
            Token::Operator(s) => TokenView::Operator(s@),
            Token::Literal(s) => TokenView::Literal(s@),
            Token::Comma => TokenView::Comma,
            Token::Semicolon => TokenView::Semicolon,
            Token::Asterisk => TokenView::Asterisk,
            Token::OpenParen => TokenView::OpenParen,
            Token::CloseParen => TokenView::CloseParen,
            Token::EOF => TokenView::EOF,
        }
    }
}

impl DeepView for Token {
    type V = TokenView;

    open spec fn deep_view(&self) -> TokenView {
        self@
    }
}

/// What the standard library says of a character, as far as the tokenizer asks.
#[derive(Clone, Copy, Debug, PartialEq, Eq)]
pub enum CharClass {
    /// Alphabetic: may start a word.
    Letter,
    /// Alphanumeric without being alphabetic: may continue a word.
    Numeral,
    /// Neither.
    Other,
}

/// Whether `char::is_alphabetic` holds of `c`: whether `c` has the Unicode
/// property Alphabetic.
pub uninterp spec fn is_alphabetic(c: char) -> bool;

/// Whether `char::is_alphanumeric` holds of `c`: whether `c` is alphabetic or a
/// Unicode number.
pub uninterp spec fn is_alphanumeric(c: char) -> bool;

/// What `str::to_uppercase` makes of `s`: its characters mapped to upper case
/// as Unicode says, without regard to a locale.
pub uninterp spec fn uppercase(s: Seq<char>) -> Seq<char>;

/// Taken on trust: `char::is_alphabetic` of the standard library answers by the
/// character alone. `is_alphabetic` names its answer; which characters are
/// alphabetic is left to the standard library.
pub assume_specification[ char::is_alphabetic ](c: char) -> (r: bool)
    ensures
        r == is_alphabetic(c),
;

/// Taken on trust: `char::is_alphanumeric` of the standard library answers by
/// the character alone. `is_alphanumeric` names its answer; which characters
/// are alphanumeric is left to the standard library.
pub assume_specification[ char::is_alphanumeric ](c: char) -> (r: bool)
    ensures
        r == is_alphanumeric(c),
;

/// Taken on trust: `str::to_uppercase` of the standard library returns a string
/// that depends on the characters of its argument alone. `uppercase` names that
/// string; what the upper-case form of a text is, is left to the standard
/// library.
pub assume_specification[ str::to_uppercase ](s: &str) -> (r: String)
    ensures
        r@ == uppercase(s@),
;

/// The class of one character.
pub open spec fn class_of(c: char) -> CharClass {
    if is_alphabetic(c) {
        CharClass::Letter
    } else if is_alphanumeric(c) {
        CharClass::Numeral
    } else {
        CharClass::Other
    }
}

/// The classes of the characters of `s`, one for each.
pub open spec fn classes_of(s: Seq<char>) -> Seq<CharClass> {
    s.map_values(|c: char| class_of(c))
}

/// The characters skipped between tokens.
pub open spec fn is_space(c: char) -> bool {
    c == ' ' || c == '\t' || c == '\n' || c == '\r'
}

/// The decimal digits.
pub open spec fn is_digit(c: char) -> bool {
    '0' <= c <= '9'
}

/// The characters that start a comparison operator.
pub open spec fn starts_operator(c: char) -> bool {
    c == '=' || c == '>' || c == '<'
}

/// Whether a character of class `class` continues a word.
pub open spec fn continues_word(c: char, class: CharClass) -> bool {
    class != CharClass::Other || c == '_'
}

/// Where the longest run of positions that satisfy `p` ends, for a run that starts at
/// `from` in a text of `len` characters.
pub open spec fn run_end(len: int, from: int, p: spec_fn(int) -> bool) -> int
    decreases len - from,
{
    if 0 <= from < len && p(from) {
        run_end(len, from + 1, p)
    } else {
        from
    }
}

/// A run ends where the first position fails `p`, or at the end of the text.
pub proof fn lemma_run_end(len: int, from: int, end: int, p: spec_fn(int) -> bool)
    requires
        0 <= from <= end <= len,
        forall|k: int| from <= k < end ==> #[trigger] p(k),
        end == len || !p(end),
    ensures
        run_end(len, from, p) == end,
    decreases end - from,
{
    if from < end {
        lemma_run_end(len, from + 1, end, p);
    }
}

/// A run never ends before its start, nor after the end of the text.
pub proof fn lemma_run_end_bounds(len: int, from: int, p: spec_fn(int) -> bool)
    requires
        0 <= from <= len,
    ensures
        from <= run_end(len, from, p) <= len,
    decreases len - from,
{
    if from < len && p(from) {
        lemma_run_end_bounds(len, from + 1, p);
    }
}

/// The positions of `s` that continue a word.
pub open spec fn in_word(s: Seq<char>, classes: Seq<CharClass>) -> spec_fn(int) -> bool {
    |i: int| continues_word(s[i], classes[i])
}

/// The positions of `s` that hold a digit.
pub open spec fn in_number(s: Seq<char>) -> spec_fn(int) -> bool {
    |i: int| is_digit(s[i])
}

/// The positions of `s` that hold anything but a single quote.
pub open spec fn in_quotes(s: Seq<char>) -> spec_fn(int) -> bool {
    |i: int| s[i] != '\''
}

/// The error for a character that starts no token.
pub open spec fn unexpected_character(c: char) -> ErrorView {
    ErrorView::InvalidSyntax("Unexpected character: '"@ + seq![c] + "'"@)
}

/// The token that starts at `pos`, which holds no space, and the position after it.
///
/// Punctuation is one token each. `=`, `>` and `<` take a directly following `=`
/// with them; so `==` is one operator, which parses in a WHERE clause and is
/// refused when the clause is evaluated. A single quote opens a literal that
/// runs to the next single quote, or to the end of the text where there is
/// none. A letter starts a word, a digit a number. Every word is an identifier
/// here.
pub open spec fn lex_at(s: Seq<char>, classes: Seq<CharClass>, pos: int) -> Result<
    (TokenView, int),
    ErrorView,
> {
    let c = s[pos];
    if c == ',' {
        Ok((TokenView::Comma, pos + 1))
    } else if c == ';' {
        Ok((TokenView::Semicolon, pos + 1))
    } else if c == '*' {
        Ok((TokenView::Asterisk, pos + 1))
    } else if c == '(' {
        Ok((TokenView::OpenParen, pos + 1))
    } else if c == ')' {
        Ok((TokenView::CloseParen, pos + 1))
    } else if starts_operator(c) {
        if pos + 1 < s.len() && s[pos + 1] == '=' {
            Ok((TokenView::Operator(s.subrange(pos, pos + 2)), pos + 2))
        } else {
            Ok((TokenView::Operator(s.subrange(pos, pos + 1)), pos + 1))
        }
    } else if c == '\'' {
        let end = run_end(s.len() as int, pos + 1, in_quotes(s));
        Ok((TokenView::Literal(s.subrange(pos + 1, end)), if end < s.len() {
            end + 1
        } else {
            end
        }))
    } else if classes[pos] == CharClass::Letter {
        let end = run_end(s.len() as int, pos + 1, in_word(s, classes));
        Ok((TokenView::Identifier(s.subrange(pos, end)), end))
    } else if is_digit(c) {
        let end = run_end(s.len() as int, pos + 1, in_number(s));
        Ok((TokenView::Literal(s.subrange(pos, end)), end))
    } else {
        Err(unexpected_character(c))
    }
}

/// A token ends after its start and within the text.
pub proof fn lemma_lex_at_advances(s: Seq<char>, classes: Seq<CharClass>, pos: int)
    requires
        0 <= pos < s.len(),
    ensures
        lex_at(s, classes, pos) matches Ok((_, next)) ==> pos < next <= s.len(),
{
    lemma_run_end_bounds(s.len() as int, pos + 1, in_quotes(s));
    lemma_run_end_bounds(s.len() as int, pos + 1, in_word(s, classes));
    lemma_run_end_bounds(s.len() as int, pos + 1, in_number(s));
}

/// `tokens`, then what `rest` holds; the error of `rest` if it is one.
pub open spec fn followed_by(tokens: Seq<TokenView>, rest: Result<Seq<TokenView>, ErrorView>)
    -> Result<Seq<TokenView>, ErrorView> {
    match rest {
        Ok(more) => Ok(tokens + more),
        Err(e) => Err(e),
    }
}

/// The tokens of `s` from `pos` on, closed by the end token; the error of the
/// first character that starts no token.
pub open spec fn scan_from(s: Seq<char>, classes: Seq<CharClass>, pos: int) -> Result<
    Seq<TokenView>,
    ErrorView,
>
    decreases s.len() - pos,
{
    if !(0 <= pos < s.len()) {
        Ok(seq![TokenView::EOF])
    } else if is_space(s[pos]) {
        scan_from(s, classes, pos + 1)
    } else {
        match lex_at(s, classes, pos) {
            Ok((token, next)) => {
                proof {
                    lemma_lex_at_advances(s, classes, pos);
                }
                followed_by(seq![token], scan_from(s, classes, next))
            },
            Err(e) => Err(e),
        }
    }
}

/// The classes of the characters of `input`, one for each.
pub fn classify(input: &str) -> (classes: Vec<CharClass>)
    ensures
        classes@ == classes_of(input@),
{
    let mut classes: Vec<CharClass> = Vec::new();
    for c in it: input.chars()
        invariant
            it.seq() == input@,
            classes@.len() == it.index(),
            forall|k: int| 0 <= k < classes@.len() ==> classes@[k] == class_of(input@[k]),
    {
        let class = if c.is_alphabetic() {
            CharClass::Letter
        } else if c.is_alphanumeric() {
            CharClass::Numeral
        } else {
            CharClass::Other
        };
        classes.push(class);
    }
    classes
}

/// Whether a character of class `class` continues a word.
fn char_continues_word(c: char, class: CharClass) -> (r: bool)
    ensures
        r == continues_word(c, class),
{
    match class {
        CharClass::Other => c == '_',
        _ => true,
    }
}

/// The token that starts at `pos`, and the position after it.
fn lex_token(input: &str, chars: &Vec<char>, classes: &Vec<CharClass>, pos: usize) -> (r: Result<
    (Token, usize),
    SQLError,
>)
    requires
        chars@ == input@,
        classes@.len() == chars@.len(),
        pos < chars@.len(),
    ensures
        match lex_at(input@, classes@, pos as int) {
            Ok((token, next)) => r matches Ok((t, n)) && t@ == token && n == next,
            Err(e) => r matches Err(x) && x@ == e,
        },
{
    let len = chars.len();
    let c = chars[pos];
    if c == ',' {
        Ok((Token::Comma, pos + 1))
    } else if c == ';' {
        Ok((Token::Semicolon, pos + 1))
    } else if c == '*' {
        Ok((Token::Asterisk, pos + 1))
    } else if c == '(' {
        Ok((Token::OpenParen, pos + 1))
    } else if c == ')' {
        Ok((Token::CloseParen, pos + 1))
    } else if c == '=' || c == '>' || c == '<' {
        if pos + 1 < len && chars[pos + 1] == '=' {
            Ok((Token::Operator(slice_of(input, pos, pos + 2)), pos + 2))
        } else {
            Ok((Token::Operator(slice_of(input, pos, pos + 1)), pos + 1))
        }
    } else if c == '\'' {
        let mut end: usize = pos + 1;
        while end < len && chars[end] != '\''
            invariant
                chars@ == input@,
                len == chars@.len(),
                pos + 1 <= end <= len,
                forall|k: int| pos + 1 <= k < end ==> #[trigger] in_quotes(input@)(k),
            decreases len - end,
        {
            end += 1;
        }
        proof {
            lemma_run_end(len as int, pos + 1, end as int, in_quotes(input@));
        }
        let text = slice_of(input, pos + 1, end);
        Ok((Token::Literal(text), if end < len { end + 1 } else { end }))
    } else if matches!(classes[pos], CharClass::Letter) {
        let mut end: usize = pos + 1;
        while end < len && char_continues_word(chars[end], classes[end])
            invariant
                chars@ == input@,
                len == chars@.len(),
                classes@.len() == len,
                pos + 1 <= end <= len,
                forall|k: int| pos + 1 <= k < end ==> #[trigger] in_word(input@, classes@)(k),
            decreases len - end,
        {
            end += 1;
        }
        proof {
            lemma_run_end(len as int, pos + 1, end as int, in_word(input@, classes@));
        }
        Ok((Token::Identifier(slice_of(input, pos, end)), end))
    } else if c >= '0' && c <= '9' {
        let mut end: usize = pos + 1;
        while end < len && chars[end] >= '0' && chars[end] <= '9'
            invariant
                chars@ == input@,
                len == chars@.len(),
                pos + 1 <= end <= len,
                forall|k: int| pos + 1 <= k < end ==> #[trigger] in_number(input@)(k),
            decreases len - end,
        {
            end += 1;
        }
        proof {
            lemma_run_end(len as int, pos + 1, end as int, in_number(input@));
        }
        Ok((Token::Literal(slice_of(input, pos, end)), end))
    } else {
        let mut m = "Unexpected character: '".to_string();
        m.append(slice_of(input, pos, pos + 1).as_str());
        m.append("'");
        proof {
            assert(input@.subrange(pos as int, pos + 1) =~= seq![c]);
        }
        Err(SQLError::InvalidSyntax(m))
    }
}

/// Cuts `input` into tokens, given the class of each of its characters. Spaces,
/// tabs and line breaks separate tokens. Every word comes out as an identifier.
/// The end token closes the result. The first character that starts no token
/// ends the scan with a syntax error that shows it.
pub fn scan(input: &str, classes: &Vec<CharClass>) -> (r: Result<Vec<Token>, SQLError>)
    requires
        classes@.len() == input@.len(),
    ensures
        match scan_from(input@, classes@, 0) {
            Ok(tokens) => r matches Ok(v) && v.deep_view() == tokens,
            Err(e) => r matches Err(x) && x@ == e,
        },
{
    let chars = chars_of(input);
    let mut tokens: Vec<Token> = Vec::new();
    let mut i: usize = 0;
    while i < chars.len()
        invariant
            chars@ == input@,
            classes@.len() == chars@.len(),
            i <= chars.len(),
            scan_from(input@, classes@, 0) == followed_by(
                tokens.deep_view(),
                scan_from(input@, classes@, i as int),
            ),
        decreases chars.len() - i,
    {
        let c = chars[i];
        if c == ' ' || c == '\t' || c == '\n' || c == '\r' {
            i += 1;
        } else {
            proof {
                lemma_lex_at_advances(input@, classes@, i as int);
            }
            match lex_token(input, &chars, classes, i) {
                Ok((token, next)) => {
                    let ghost before = tokens.deep_view();
                    let ghost rest = scan_from(input@, classes@, next as int);
                    proof {
                        if let Ok(more) = rest {
                            assert(before + (seq![token@] + more) =~= before.push(token@) + more);
                        }
                    }
                    tokens.push(token);
                    proof {
                        assert(tokens.deep_view() =~= before.push(token@));
                    }
                    i = next;
                },
                Err(e) => {
                    return Err(e);
                },
            }
        }
    }
    tokens.push(Token::EOF);
    Ok(tokens)
}

/// Whether `upper` is one of the reserved words.
pub open spec fn is_keyword(upper: Seq<char>) -> bool {
    ||| upper == "SELECT"@
    ||| upper == "FROM"@
    ||| upper == "WHERE"@
    ||| upper == "ORDER"@
    ||| upper == "BY"@
    ||| upper == "ASC"@
    ||| upper == "DESC"@
    ||| upper == "INSERT"@
    ||| upper == "INTO"@
    ||| upper == "VALUES"@
    ||| upper == "UPDATE"@
    ||| upper == "SET"@
    ||| upper == "DELETE"@
    ||| upper == "AND"@
    ||| upper == "OR"@
    ||| upper == "NOT"@
}

/// The token for a word whose upper-case form is `upper`: the keyword in upper
/// case if it is reserved, else the identifier as written.
pub open spec fn word_token_of(word: Seq<char>, upper: Seq<char>) -> TokenView {
    if is_keyword(upper) {
        TokenView::Keyword(upper)
    } else {
        TokenView::Identifier(word)
    }
}

/// A token after keywords are told from identifiers.
pub open spec fn resolved(token: TokenView) -> TokenView {
    match token {
        TokenView::Identifier(word) => word_token_of(word, uppercase(word)),
        _ => token,
    }
}

/// The tokens of the statement `s`.
pub open spec fn tokens_of(s: Seq<char>) -> Result<Seq<TokenView>, ErrorView> {
    match scan_from(s, classes_of(s), 0) {
        Ok(tokens) => Ok(tokens.map_values(|t: TokenView| resolved(t))),
        Err(e) => Err(e),
    }
}

/// Whether `tokens` is closed by the end token, which stands nowhere else.
pub open spec fn ends_once(tokens: Seq<TokenView>) -> bool {
    &&& tokens.len() >= 1
    &&& tokens.last() == TokenView::EOF
    &&& forall|i: int| 0 <= i < tokens.len() - 1 ==> #[trigger] tokens[i] != TokenView::EOF
}

/// The tokens that a scan gives are closed by the end token, which stands
/// nowhere else.
pub proof fn lemma_scan_ends_once(s: Seq<char>, classes: Seq<CharClass>, pos: int)
    ensures
        scan_from(s, classes, pos) matches Ok(tokens) ==> ends_once(tokens),
    decreases s.len() - pos,
{
    if 0 <= pos < s.len() {
        if is_space(s[pos]) {
            lemma_scan_ends_once(s, classes, pos + 1);
        } else if let Ok((token, next)) = lex_at(s, classes, pos) {
            lemma_lex_at_advances(s, classes, pos);
            lemma_scan_ends_once(s, classes, next);
        }
    }
}

/// The tokens of every statement are closed by the end token, which stands
/// nowhere else.
pub proof fn lemma_tokens_end_once(s: Seq<char>)
    ensures
        tokens_of(s) matches Ok(tokens) ==> ends_once(tokens),
{
    lemma_scan_ends_once(s, classes_of(s), 0);
}

/// The token for `word`, given its upper-case form.
pub fn word_token(word: String, upper: String) -> (token: Token)
    ensures
        token@ == word_token_of(word@, upper@),
{
    let u = upper.as_str();
    if text_eq(u, "SELECT")
        || text_eq(u, "FROM")
        || text_eq(u, "WHERE")
        || text_eq(u, "ORDER")
        || text_eq(u, "BY")
        || text_eq(u, "ASC")
        || text_eq(u, "DESC")
        || text_eq(u, "INSERT")
        || text_eq(u, "INTO")
        || text_eq(u, "VALUES")
        || text_eq(u, "UPDATE")
        || text_eq(u, "SET")
        || text_eq(u, "DELETE")
        || text_eq(u, "AND")
        || text_eq(u, "OR")
        || text_eq(u, "NOT")
    {
        Token::Keyword(upper)
    } else {
        Token::Identifier(word)
    }
}

/// Replaces every identifier whose upper-case form is reserved by its keyword.
pub fn resolve_keywords(tokens: &mut Vec<Token>)
    ensures
        final(tokens).deep_view() == old(tokens).deep_view().map_values(|t: TokenView| resolved(t)),
{
    let mut i: usize = 0;
    while i < tokens.len()
        invariant
            i <= tokens.len(),
            tokens.len() == old(tokens).len(),
            forall|k: int| 0 <= k < i ==> (#[trigger] tokens[k])@ == resolved(old(tokens)[k]@),
            forall|k: int| i <= k < tokens.len() ==> tokens[k] == old(tokens)[k],
        decreases tokens.len() - i,
    {
        let replacement = match &tokens[i] {
            Token::Identifier(word) => Some(word_token(word.clone(), word.to_uppercase())),
            _ => None,
        };
        if let Some(token) = replacement {
            tokens[i] = token;
        }
        i += 1;
    }
}

/// The tokens of a statement: punctuation, operators, literals, identifiers and
/// keywords in the order of the text, closed by the end token. A character that
/// starts no token is a syntax error.
pub fn tokenize(input: &str) -> (r: Result<Vec<Token>, SQLError>)
    ensures
        match tokens_of(input@) {
            Ok(tokens) => r matches Ok(v) && v.deep_view() == tokens,
            Err(e) => r matches Err(x) && x@ == e,
        },
{
    let classes = classify(input);
    match scan(input, &classes) {
        Ok(mut tokens) => {
            resolve_keywords(&mut tokens);
            Ok(tokens)
        },
        Err(e) => Err(e),
    }
}

} // verus!
