//! The lexer: from source text to tokens.

use crate::encoding::Token;
use crate::floats::FloatOps;
use crate::text::{
    characters, int_of_text, int_text, is_digit, lemma_integer_round_trip,
    lemma_numeral_value, nat_text, parse_integer, same_text,
};
use vstd::prelude::*;
use vstd::string::*;

verus! {

/// Why a source text has no tokens.
#[derive(PartialEq, Eq, Structural, Debug)]
pub enum LexError {
    /// A string literal is not closed before the text ends.
    UnterminatedString,
}

/// What the lexer finds in the text before it classifies words.
pub ghost enum Lexeme {
    Colon,
    Semicolon,
    Comma,
    OpenParen,
    CloseParen,
    OpenBracket,
    CloseBracket,
    OpenBrace,
    CloseBrace,
    /// A string literal, without its quotes.
    Text(Seq<char>),
    /// A run of characters that are neither white space nor reserved.
    Word(Seq<char>),
}

/// Whether a character is white space.
pub open spec fn is_space(c: char) -> bool {
    let n = c as u32;
    (0x09 <= n && n <= 0x0d) || n == 0x20 || n == 0x85 || n == 0xa0 || n == 0x1680 || (0x2000 <= n
        && n <= 0x200a) || n == 0x2028 || n == 0x2029 || n == 0x202f || n == 0x205f || n == 0x3000
}

/// The lexeme of a punctuation character.
pub open spec fn punctuation(c: char) -> Option<Lexeme> {
    if c == ':' {
        Some(Lexeme::Colon)
    } else if c == ';' {
        Some(Lexeme::Semicolon)
    } else if c == ',' {
        Some(Lexeme::Comma)
    } else if c == '(' {
        Some(Lexeme::OpenParen)
    } else if c == ')' {
        Some(Lexeme::CloseParen)
    } else if c == '[' {
        Some(Lexeme::OpenBracket)
    } else if c == ']' {
        Some(Lexeme::CloseBracket)
    } else if c == '{' {
        Some(Lexeme::OpenBrace)
    } else if c == '}' {
        Some(Lexeme::CloseBrace)
    } else {
        None
    }
}

/// Whether a character ends a word: punctuation, a quote, or the sign of
/// a comment.
pub open spec fn is_reserved(c: char) -> bool {
    punctuation(c) is Some || c == '"' || c == '#'
}

/// The number of characters from index `i` on that belong to one word.
pub open spec fn word_len(chars: Seq<char>, i: nat) -> nat
    decreases chars.len() - i,
{
    if i >= chars.len() || is_space(chars[i as int]) || is_reserved(chars[i as int]) {
        0
    } else {
        1 + word_len(chars, i + 1)
    }
}

/// The number of characters from index `i` on before the line ends.
pub open spec fn comment_len(chars: Seq<char>, i: nat) -> nat
    decreases chars.len() - i,
{
    if i >= chars.len() || chars[i as int] == '\n' || chars[i as int] == '\r' {
        0
    } else {
        1 + comment_len(chars, i + 1)
    }
}

/// The number of characters from index `i` on before the next quote, if
/// there is one.
pub open spec fn string_len(chars: Seq<char>, i: nat) -> Option<nat>
    decreases chars.len() - i,
{
    if i >= chars.len() {
        None
    } else if chars[i as int] == '"' {
        Some(0)
    } else {
        match string_len(chars, i + 1) {
            Some(n) => Some(n + 1),
            None => None,
        }
    }
}

/// `rest` with `first` before it, where there is a first.
pub open spec fn after(first: Option<Lexeme>, rest: Option<Seq<Lexeme>>) -> Option<Seq<Lexeme>> {
    match (first, rest) {
        (_, None) => None,
        (None, Some(r)) => Some(r),
        (Some(l), Some(r)) => Some(seq![l] + r),
    }
}

/// The lexemes of the text from index `i` on, or nothing where a string
/// literal is not closed. White space separates and yields nothing; `#`
/// opens a comment that runs to the end of the line; a quote opens a
/// string literal that runs to the next quote; a punctuation character
/// stands alone; any other character starts a word, which runs on to the
/// next white space or reserved character.
pub open spec fn scan(chars: Seq<char>, i: nat) -> Option<Seq<Lexeme>>
    decreases
            if i <= chars.len() {
                chars.len() - i
            } else {
                0
            },
{
    if i >= chars.len() {
        Some(Seq::empty())
    } else {
        let c = chars[i as int];
        if is_space(c) {
            scan(chars, i + 1)
        } else if c == '#' {
            scan(chars, i + 1 + comment_len(chars, i + 1))
        } else if c == '"' {
            match string_len(chars, i + 1) {
                None => None,
                Some(n) => after(
                    Some(Lexeme::Text(chars.subrange(i as int + 1, i as int + 1 + n as int))),
                    scan(chars, i + 1 + n + 1),
                ),
            }
        } else if punctuation(c) is Some {
            after(punctuation(c), scan(chars, i + 1))
        } else {
            let n = 1 + word_len(chars, i + 1);
            after(
                Some(Lexeme::Word(chars.subrange(i as int, i as int + n as int))),
                scan(chars, i + n),
            )
        }
    }
}

/// Whether `token` is the token of `lexeme`. A word is a keyword, else
/// the integer that it writes, else a float where the host reads it as
/// one, else an identifier.
pub open spec fn token_matches(lexeme: Lexeme, token: Token) -> bool {
    match lexeme {
        Lexeme::Colon => token is Colon,
        Lexeme::Semicolon => token is Semicolon,
        Lexeme::Comma => token is Comma,
        Lexeme::OpenParen => token is OpenParen,
        Lexeme::CloseParen => token is CloseParen,
        Lexeme::OpenBracket => token is OpenBracket,
        Lexeme::CloseBracket => token is CloseBracket,
        Lexeme::OpenBrace => token is OpenBrace,
        Lexeme::CloseBrace => token is CloseBrace,
        Lexeme::Text(s) => token is String && token->String_0@ == s,
        Lexeme::Word(w) => if w == "true"@ {
            token is True
        } else if w == "false"@ {
            token is False
        } else if w == "nil"@ {
            token is Nil
        } else {
            match int_of_text(w) {
                Some(n) => token == Token::Integer(n),
                None => token is Float || (token is ID && token->ID_0@ == w),
            }
        },
    }
}

/// Whether `tokens` are the tokens of `lexemes`, one for one, with the
/// end-of-input marker after them.
pub open spec fn tokens_match(lexemes: Seq<Lexeme>, tokens: Seq<Token>) -> bool {
    &&& tokens.len() == lexemes.len() + 1
    &&& tokens[tokens.len() - 1] is EOF
    &&& forall|i: int| 0 <= i < lexemes.len() ==> token_matches(lexemes[i], #[trigger] tokens[i])
}

fn space(c: char) -> (b: bool)
    ensures
        b == is_space(c),
{
    let n = c as u32;
    (0x09 <= n && n <= 0x0d) || n == 0x20 || n == 0x85 || n == 0xa0 || n == 0x1680 || (0x2000 <= n
        && n <= 0x200a) || n == 0x2028 || n == 0x2029 || n == 0x202f || n == 0x205f || n == 0x3000
}

fn punctuation_token(c: char) -> (r: Option<Token>)
    ensures
        r is Some == punctuation(c) is Some,
        r is Some ==> token_matches(punctuation(c)->0, r->0),
{
    if c == ':' {
        Some(Token::Colon)
    } else if c == ';' {
        Some(Token::Semicolon)
    } else if c == ',' {
        Some(Token::Comma)
    } else if c == '(' {
        Some(Token::OpenParen)
    } else if c == ')' {
        Some(Token::CloseParen)
    } else if c == '[' {
        Some(Token::OpenBracket)
    } else if c == ']' {
        Some(Token::CloseBracket)
    } else if c == '{' {
        Some(Token::OpenBrace)
    } else if c == '}' {
        Some(Token::CloseBrace)
    } else {
        None
    }
}

/// The string of the characters from `from` up to `to`.
fn string_of(chars: &Vec<char>, from: usize, to: usize) -> (s: String)
    requires
        from <= to <= chars.len(),
    ensures
        s@ == chars@.subrange(from as int, to as int),
{
    let mut s = String::new();
    let mut i: usize = from;
    while i < to
        invariant
            from <= i <= to,
            to <= chars.len(),
            s@ == chars@.subrange(from as int, i as int),
        decreases to - i,
    {
        s.push(chars[i]);
        i += 1;
        assert(s@ =~= chars@.subrange(from as int, i as int));
    }
    s
}

/// The token of a word.
fn word_token<H: FloatOps>(word: String, host: &H) -> (token: Token)
    ensures
        token_matches(Lexeme::Word(word@), token),
{
    if same_text(word.as_str(), "true") {
        Token::True
    } else if same_text(word.as_str(), "false") {
        Token::False
    } else if same_text(word.as_str(), "nil") {
        Token::Nil
    } else {
        match parse_integer(word.as_str()) {
            Some(n) => Token::Integer(n),
            None => match host.parse(word.as_str()) {
                Some(bits) => Token::Float(bits),
                None => Token::ID(word),
            },
        }
    }
}

/// Reads what stands at index `start`: white space, a comment, or one
/// token. Yields the token, if there is one, and the index after it.
fn next_token<H: FloatOps>(chars: &Vec<char>, start: usize, host: &H) -> (r: Result<
    (Option<Token>, usize, Ghost<Option<Lexeme>>),
    LexError,
>)
    requires
        start < chars.len(),
    ensures
        r is Err ==> scan(chars@, start as nat) is None,
        r is Ok ==> ({
            let (token, next, lexeme) = r->Ok_0;
            &&& start < next <= chars.len()
            &&& scan(chars@, start as nat) == after(lexeme@, scan(chars@, next as nat))
            &&& token is Some == lexeme@ is Some
            &&& token is Some ==> token_matches(lexeme@->0, token->0)
        }),
{
    let c = chars[start];
    if space(c) {
        return Ok((None, start + 1, Ghost(None)));
    }
    if c == '#' {
        let mut index: usize = start + 1;
        while index < chars.len() && chars[index] != '\n' && chars[index] != '\r'
            invariant
                start < index <= chars.len(),
                comment_len(chars@, (start + 1) as nat) == (index - start - 1) + comment_len(
                    chars@,
                    index as nat,
                ),
            decreases chars.len() - index,
        {
            index += 1;
        }
        return Ok((None, index, Ghost(None)));
    }
    if c == '"' {
        let mut index: usize = start + 1;
        while index < chars.len() && chars[index] != '"'
            invariant
                start < index <= chars.len(),
                string_len(chars@, (start + 1) as nat) == match string_len(chars@, index as nat) {
                    Some(n) => Some((n + index - start - 1) as nat),
                    None => None,
                },
            decreases chars.len() - index,
        {
            index += 1;
        }
        if index >= chars.len() {
            return Err(LexError::UnterminatedString);
        }
        let s = string_of(chars, start + 1, index);
        return Ok((Some(Token::String(s)), index + 1, Ghost(Some(Lexeme::Text(s@)))));
    }
    match punctuation_token(c) {
        Some(token) => {
            return Ok((Some(token), start + 1, Ghost(punctuation(c))));
        },
        None => {},
    }
    let mut index: usize = start + 1;
    while index < chars.len() && !space(chars[index]) && punctuation_token(chars[index]).is_none()
        && chars[index] != '"' && chars[index] != '#'
        invariant
            start < index <= chars.len(),
            word_len(chars@, (start + 1) as nat) == (index - start - 1) + word_len(
                chars@,
                index as nat,
            ),
        decreases chars.len() - index,
    {
        index += 1;
    }
    let word = string_of(chars, start, index);
    let ghost lexeme = Lexeme::Word(word@);
    let token = word_token(word, host);
    Ok((Some(token), index, Ghost(Some(lexeme))))
}

/// The tokens of a source text, with the end-of-input marker as the last
/// one. Fails where a string literal is not closed.
pub fn tokenize<H: FloatOps>(s: &str, host: &H) -> (r: Result<Vec<Token>, LexError>)
    ensures
        match scan(s@, 0) {
            None => r is Err,
            Some(lexemes) => r is Ok && tokens_match(lexemes, r->Ok_0@),
        },
{
    let chars = characters(s);
    let mut tokens: Vec<Token> = Vec::new();
    let ghost mut done: Seq<Lexeme> = Seq::empty();
    let mut index: usize = 0;
    while index < chars.len()
        invariant
            index <= chars.len(),
            chars@ == s@,
            tokens.len() == done.len(),
            forall|i: int| 0 <= i < done.len() ==> token_matches(done[i], #[trigger] tokens[i]),
            scan(chars@, 0) == match scan(chars@, index as nat) {
                Some(rest) => Some(done + rest),
                None => None,
            },
        decreases chars.len() - index,
    {
        match next_token(&chars, index, host) {
            Err(e) => {
                return Err(e);
            },
            Ok((token, next, lexeme)) => {
                match token {
                    Some(t) => {
                        tokens.push(t);
                        proof {
                            let rest = scan(chars@, next as nat);
                            if rest is Some {
                                assert(done + (seq![lexeme@->0] + rest->0) =~= done.push(
                                    lexeme@->0,
                                ) + rest->0);
                            }
                            done = done.push(lexeme@->0);
                        }
                    },
                    None => {},
                }
                index = next;
            },
        }
    }
    tokens.push(Token::EOF);
    proof {
        assert(done + Seq::<Lexeme>::empty() =~= done);
    }
    Ok(tokens)
}

/// Whether a string can stand as one word: it is not empty and holds no
/// white space and no reserved character.
pub open spec fn is_word(w: Seq<char>) -> bool {
    &&& w.len() > 0
    &&& forall|i: int| 0 <= i < w.len() ==> !is_space(#[trigger] w[i]) && !is_reserved(w[i])
}

/// From any index on, a word runs to its end.
pub proof fn lemma_word_runs(w: Seq<char>, i: nat)
    requires
        is_word(w),
        i <= w.len(),
    ensures
        word_len(w, i) == w.len() - i,
    decreases w.len() - i,
{
    if i < w.len() {
        lemma_word_runs(w, i + 1);
    }
}

/// A word alone is read as that one word.
pub proof fn lemma_word_scans(w: Seq<char>)
    requires
        is_word(w),
    ensures
        scan(w, 0) == Some(seq![Lexeme::Word(w)]),
{
    lemma_word_runs(w, 1);
    assert(!is_reserved(w[0]) && !is_space(w[0]));
    assert(w.subrange(0, w.len() as int) =~= w);
    assert(scan(w, w.len()) == Some(Seq::<Lexeme>::empty()));
    assert(seq![Lexeme::Word(w)] + Seq::<Lexeme>::empty() =~= seq![Lexeme::Word(w)]);
}

/// The numeral of a 64-bit signed integer is read back as the token of
/// that integer, followed by the end marker.
pub proof fn lemma_integer_literal(n: i64, tokens: Seq<Token>)
    requires
        scan(int_text(n as int), 0) is Some ==> tokens_match(
            scan(int_text(n as int), 0)->0,
            tokens,
        ),
    ensures
        scan(int_text(n as int), 0) is Some,
        tokens.len() == 2,
        tokens[0] == Token::Integer(n),
        tokens[1] is EOF,
{
    let w = int_text(n as int);
    lemma_integer_round_trip(n);
    if n < 0 {
        lemma_numeral_value((-n) as nat);
        let digits = nat_text((-n) as nat);
        assert forall|i: int| 0 <= i < w.len() implies !is_space(#[trigger] w[i]) && !is_reserved(
            w[i],
        ) by {
            if i > 0 {
                assert(w[i] == digits[i - 1]);
                assert(is_digit(digits[i - 1]));
            }
        }
    } else {
        lemma_numeral_value(n as nat);
        assert forall|i: int| 0 <= i < w.len() implies !is_space(#[trigger] w[i]) && !is_reserved(
            w[i],
        ) by {
            assert(is_digit(w[i]));
        }
    }
    lemma_word_scans(w);
    reveal_strlit("true");
    reveal_strlit("false");
    reveal_strlit("nil");
    assert("true"@[0] == 't' && "false"@[0] == 'f' && "nil"@[0] == 'n');
    assert(w[0] == '-' || is_digit(w[0]));
    let lexemes = scan(w, 0)->0;
    assert(lexemes[0] == Lexeme::Word(w));
    assert(token_matches(lexemes[0], tokens[0]));
}

/// From index `i` on, a string without a quote that is followed by a
/// quote runs to that quote.
pub proof fn lemma_string_runs(chars: Seq<char>, i: nat, end: nat)
    requires
        i <= end < chars.len(),
        chars[end as int] == '"',
        forall|j: int| i <= j < end ==> chars[j] != '"',
    ensures
        string_len(chars, i) == Some((end - i) as nat),
    decreases end - i,
{
    if i < end {
        lemma_string_runs(chars, i + 1, end);
    }
}

/// A string without a quote, written between quotes, is read back as the
/// token of that string, followed by the end marker.
pub proof fn lemma_string_literal(s: Seq<char>, tokens: Seq<Token>)
    requires
        forall|i: int| 0 <= i < s.len() ==> s[i] != '"',
        scan(seq!['"'] + s + seq!['"'], 0) is Some ==> tokens_match(
            scan(seq!['"'] + s + seq!['"'], 0)->0,
            tokens,
        ),
    ensures
        scan(seq!['"'] + s + seq!['"'], 0) == Some(seq![Lexeme::Text(s)]),
        tokens.len() == 2,
        tokens[0] is String,
        tokens[0]->String_0@ == s,
        tokens[1] is EOF,
{
    let chars = seq!['"'] + s + seq!['"'];
    let end = (s.len() + 1) as nat;
    assert forall|j: int| 1 <= j < end implies chars[j] != '"' by {
        assert(chars[j] == s[j - 1]);
    }
    lemma_string_runs(chars, 1, end);
    assert(chars.subrange(1, 1 + s.len() as int) =~= s);
    assert(scan(chars, (end + 1) as nat) == Some(Seq::<Lexeme>::empty()));
    assert(seq![Lexeme::Text(s)] + Seq::<Lexeme>::empty() =~= seq![Lexeme::Text(s)]);
    assert(!is_space('"'));
    let lexemes = scan(chars, 0)->0;
    assert(lexemes[0] == Lexeme::Text(s));
    assert(token_matches(lexemes[0], tokens[0]));
}

} // verus!
