use crate::text::chars_of;
use crate::token::{end_of_input, keyword_kind, token_at, Token, TokenType, TokenView};
use vstd::prelude::*;

verus! {

/// The classes of characters that the scanner reads in runs.
#[derive(Debug, Copy, Clone, PartialEq, Eq, Structural)]
pub enum CharClass {
    /// Space, tab, line feed, carriage return.
    Whitespace,
    /// ASCII letters and the underscore.
    Letter,
    /// ASCII decimal digits.
    Digit,
    /// Anything but a double quote: the inside of a string literal.
    StringBody,
}

pub open spec fn spec_is_whitespace(c: char) -> bool {
    c == ' ' || c == '\t' || c == '\n' || c == '\r'
}

pub open spec fn spec_is_letter(c: char) -> bool {
    ('a' <= c && c <= 'z') || ('A' <= c && c <= 'Z') || c == '_'
}

pub open spec fn spec_is_digit(c: char) -> bool {
    '0' <= c && c <= '9'
}

pub open spec fn spec_in_class(c: char, class: CharClass) -> bool {
    match class {
        CharClass::Whitespace => spec_is_whitespace(c),
        CharClass::Letter => spec_is_letter(c),
        CharClass::Digit => spec_is_digit(c),
        CharClass::StringBody => c != '"',
    }
}

#[verifier::when_used_as_spec(spec_is_whitespace)]
pub fn is_whitespace(c: char) -> (b: bool)
    ensures
        b == spec_is_whitespace(c),
{
    c == ' ' || c == '\t' || c == '\n' || c == '\r'
}

#[verifier::when_used_as_spec(spec_is_letter)]
pub fn is_letter(c: char) -> (b: bool)
    ensures
        b == spec_is_letter(c),
{
    ('a' <= c && c <= 'z') || ('A' <= c && c <= 'Z') || c == '_'
}

#[verifier::when_used_as_spec(spec_is_digit)]
pub fn is_digit(c: char) -> (b: bool)
    ensures
        b == spec_is_digit(c),
{
    '0' <= c && c <= '9'
}

#[verifier::when_used_as_spec(spec_in_class)]
pub fn in_class(c: char, class: CharClass) -> (b: bool)
    ensures
        b == spec_in_class(c, class),
{
    match class {
        CharClass::Whitespace => is_whitespace(c),
        CharClass::Letter => is_letter(c),
        CharClass::Digit => is_digit(c),
        CharClass::StringBody => c != '"',
    }
}

/// The category of a one-character operator or delimiter; any other
/// character is `ILLEGAL`.
pub open spec fn spec_symbol_kind(c: char) -> TokenType {
    if c == '=' {
        TokenType::ASSIGN
    } else if c == '+' {
        TokenType::PLUS
    } else if c == '-' {
        TokenType::MINUS
    } else if c == '!' {
        TokenType::BANG
    } else if c == '*' {
        TokenType::ASTERISK
    } else if c == '/' {
        TokenType::SLASH
    } else if c == '<' {
        TokenType::LT
    } else if c == '>' {
        TokenType::GT
    } else if c == ',' {
        TokenType::COMMA
    } else if c == ';' {
        TokenType::SEMICOLON
    } else if c == '[' {
        TokenType::LBRACKET
    } else if c == ']' {
        TokenType::RBRACKET
    } else if c == '(' {
        TokenType::LPAREN
    } else if c == ')' {
        TokenType::RPAREN
    } else if c == '{' {
        TokenType::LBRACE
    } else if c == '}' {
        TokenType::RBRACE
    } else {
        TokenType::ILLEGAL
    }
}

#[verifier::when_used_as_spec(spec_symbol_kind)]
pub fn symbol_kind(c: char) -> (kind: TokenType)
    ensures
        kind == spec_symbol_kind(c),
{
    if c == '=' {
        TokenType::ASSIGN
    } else if c == '+' {
        TokenType::PLUS
    } else if c == '-' {
        TokenType::MINUS
    } else if c == '!' {
        TokenType::BANG
    } else if c == '*' {
        TokenType::ASTERISK
    } else if c == '/' {
        TokenType::SLASH
    } else if c == '<' {
        TokenType::LT
    } else if c == '>' {
        TokenType::GT
    } else if c == ',' {
        TokenType::COMMA
    } else if c == ';' {
        TokenType::SEMICOLON
    } else if c == '[' {
        TokenType::LBRACKET
    } else if c == ']' {
        TokenType::RBRACKET
    } else if c == '(' {
        TokenType::LPAREN
    } else if c == ')' {
        TokenType::RPAREN
    } else if c == '{' {
        TokenType::LBRACE
    } else if c == '}' {
        TokenType::RBRACE
    } else {
        TokenType::ILLEGAL
    }
}

/// Where the maximal run of `class` characters that starts at `from` ends:
/// the first position at or after `from` that holds a character outside the
/// class, or the length of `s`.
pub open spec fn run_end(s: Seq<char>, from: nat, class: CharClass) -> nat
    decreases s.len() - from,
{
    if from < s.len() && in_class(s[from as int], class) {
        run_end(s, from + 1, class)
    } else {
        from
    }
}

/// One step of the scanner: the token read and the position after it.
pub struct Scan {
    pub token: TokenView,
    pub next: nat,
}

/// The token that starts at or after `pos`, and the position just past it.
///
/// Whitespace before the token is skipped. At the end of the input the token
/// is `EOF` with empty text. A letter or underscore starts a maximal run of
/// letters and underscores, classified by the keyword table. A digit starts a
/// maximal run of digits. A double quote starts a string literal, whose text
/// is everything up to the next double quote (or to the end of the input when
/// there is none); the quotes themselves are not part of the text and no
/// escape sequence is interpreted. `==` and `!=` are read as one token. Every
/// other character is a token by itself.
pub open spec fn scan(s: Seq<char>, pos: nat) -> Scan {
    let start = run_end(s, pos, CharClass::Whitespace);
    if start >= s.len() {
        Scan { token: end_of_input(), next: start }
    } else {
        let c = s[start as int];
        if is_letter(c) {
            let end = run_end(s, start, CharClass::Letter);
            let word = s.subrange(start as int, end as int);
            Scan { token: TokenView { kind: keyword_kind(word), literal: word }, next: end }
        } else if is_digit(c) {
            let end = run_end(s, start, CharClass::Digit);
            Scan {
                token: TokenView {
                    kind: TokenType::INT,
                    literal: s.subrange(start as int, end as int),
                },
                next: end,
            }
        } else if c == '"' {
            let close = run_end(s, start + 1, CharClass::StringBody);
            Scan {
                token: TokenView {
                    kind: TokenType::STRING,
                    literal: s.subrange(start as int + 1, close as int),
                },
                next: if close < s.len() {
                    close + 1
                } else {
                    close
                },
            }
        } else if c == '=' && start + 1 < s.len() && s[start as int + 1] == '=' {
            Scan {
                token: TokenView { kind: TokenType::EQ, literal: seq!['=', '='] },
                next: start + 2,
            }
        } else if c == '!' && start + 1 < s.len() && s[start as int + 1] == '=' {
            Scan {
                token: TokenView { kind: TokenType::NOT_EQ, literal: seq!['!', '='] },
                next: start + 2,
            }
        } else {
            Scan { token: TokenView { kind: symbol_kind(c), literal: seq![c] }, next: start + 1 }
        }
    }
}

/// A run ends inside the input, holds only characters of its class, and
/// cannot be extended.
pub proof fn lemma_run_end(s: Seq<char>, from: nat, class: CharClass)
    requires
        from <= s.len(),
    ensures
        from <= run_end(s, from, class) <= s.len(),
        forall|k: int| from <= k < run_end(s, from, class) ==> in_class(#[trigger] s[k], class),
        run_end(s, from, class) < s.len() ==> !in_class(
            s[run_end(s, from, class) as int],
            class,
        ),
    decreases s.len() - from,
{
    if from < s.len() && in_class(s[from as int], class) {
        lemma_run_end(s, from + 1, class);
    }
}

/// The end of a run is the only position with the three properties of
/// `lemma_run_end`.
pub proof fn lemma_run_end_unique(s: Seq<char>, from: nat, class: CharClass, end: nat)
    requires
        from <= end <= s.len(),
        forall|k: int| from <= k < end ==> in_class(#[trigger] s[k], class),
        end < s.len() ==> !in_class(s[end as int], class),
    ensures
        run_end(s, from, class) == end,
    decreases end - from,
{
    if from < end {
        assert(in_class(s[from as int], class));
        lemma_run_end_unique(s, from + 1, class, end);
    }
}

/// Every token but `EOF` consumes at least one character, and no token
/// reaches past the end of the input.
pub proof fn lemma_scan_advances(s: Seq<char>, pos: nat)
    ensures
        scan(s, pos).token.kind != TokenType::EOF ==> pos < scan(s, pos).next <= s.len(),
        scan(s, pos).token.kind == TokenType::EOF ==> scan(s, pos).token == end_of_input(),
        pos <= scan(s, pos).next,
        pos <= s.len() ==> scan(s, pos).next <= s.len(),
        pos <= s.len() && scan(s, pos).token.kind == TokenType::EOF ==> scan(s, pos).next
            == s.len(),
{
    if pos <= s.len() {
        lemma_run_end(s, pos, CharClass::Whitespace);
        let start = run_end(s, pos, CharClass::Whitespace);
        if start < s.len() {
            lemma_run_end(s, start, CharClass::Letter);
            lemma_run_end(s, start, CharClass::Digit);
            lemma_run_end(s, start + 1, CharClass::StringBody);
        }
    }
}

/// Once the input is exhausted, the scanner yields `EOF` forever and stays
/// where it is.
pub proof fn lemma_scan_end_is_final(s: Seq<char>, pos: nat)
    requires
        scan(s, pos).token.kind == TokenType::EOF,
    ensures
        scan(s, scan(s, pos).next) == scan(s, pos),
{
    lemma_scan_advances(s, pos);
}

/// The tokens of `s` from `pos` on, up to and including the first `EOF`.
pub open spec fn tokens_from(s: Seq<char>, pos: nat) -> Seq<TokenView>
    decreases s.len() - pos,
{
    let step = scan(s, pos);
    if step.token.kind == TokenType::EOF {
        seq![step.token]
    } else {
        proof {
            lemma_scan_advances(s, pos);
        }
        seq![step.token] + tokens_from(s, step.next)
    }
}

/// A token stream ends with an end-of-input token, and holds no other.
pub proof fn lemma_stream_ends_at_end_of_input(s: Seq<char>, pos: nat)
    ensures
        tokens_from(s, pos).len() > 0,
        tokens_from(s, pos).last() == end_of_input(),
        forall|k: int|
            0 <= k < tokens_from(s, pos).len() - 1 ==> (#[trigger] tokens_from(s, pos)[k]).kind
                != TokenType::EOF,
    decreases s.len() - pos,
{
    let step = scan(s, pos);
    lemma_scan_advances(s, pos);
    if step.token.kind != TokenType::EOF {
        lemma_stream_ends_at_end_of_input(s, step.next);
        let rest = tokens_from(s, step.next);
        assert(tokens_from(s, pos) =~= seq![step.token] + rest);
        assert forall|k: int| 0 <= k < tokens_from(s, pos).len() - 1 implies (
        #[trigger] tokens_from(s, pos)[k]).kind != TokenType::EOF by {
            if k > 0 {
                assert(tokens_from(s, pos)[k] == rest[k - 1]);
            }
        }
    }
}

/// The whole token stream of a source text.
pub open spec fn tokenize(s: Seq<char>) -> Seq<TokenView> {
    tokens_from(s, 0)
}

/// The read position after `count` tokens have been read, starting at `from`.
pub open spec fn offset_after(s: Seq<char>, from: nat, count: nat) -> nat
    decreases count,
{
    if count == 0 {
        from
    } else {
        offset_after(s, scan(s, from).next, (count - 1) as nat)
    }
}

/// Reading one more token moves the scanner by one step of `scan`.
pub proof fn lemma_offset_after_step(s: Seq<char>, from: nat, count: nat)
    ensures
        offset_after(s, from, count + 1) == scan(s, offset_after(s, from, count)).next,
    decreases count,
{
    let next = scan(s, from).next;
    assert(offset_after(s, from, count + 1) == offset_after(s, next, count));
    if count > 0 {
        lemma_offset_after_step(s, next, (count - 1) as nat);
        assert(offset_after(s, from, count) == offset_after(s, next, (count - 1) as nat));
    } else {
        assert(offset_after(s, next, 0) == next);
    }
}

/// A scanner that starts inside the text stays inside it.
pub proof fn lemma_offset_after_bounded(s: Seq<char>, from: nat, count: nat)
    requires
        from <= s.len(),
    ensures
        from <= offset_after(s, from, count) <= s.len(),
    decreases count,
{
    if count > 0 {
        lemma_scan_advances(s, from);
        lemma_offset_after_bounded(s, scan(s, from).next, (count - 1) as nat);
    }
}

/// The `k`-th token that the scanner reads is the `k`-th token of the
/// stream, for every `k`: past its end the stream goes on with end-of-input
/// tokens, as the scanner does.
pub proof fn lemma_token_stream(s: Seq<char>, from: nat, k: nat)
    ensures
        token_at(tokens_from(s, from), k) == scan(s, offset_after(s, from, k)).token,
    decreases k,
{
    let step = scan(s, from);
    lemma_scan_advances(s, from);
    if k > 0 {
        lemma_token_stream(s, step.next, (k - 1) as nat);
        if step.token.kind == TokenType::EOF {
            lemma_scan_end_is_final(s, from);
            lemma_scan_advances(s, step.next);
        }
    }
}

/// The scanner: a source text and a read position in it.
pub struct Lexer {
    input: Vec<char>,
    position: usize,
}

impl Lexer {
    /// The source text.
    pub closed spec fn source(&self) -> Seq<char> {
        self.input@
    }

    /// The read position: how many characters have been consumed.
    pub closed spec fn offset(&self) -> nat {
        self.position as nat
    }

    /// The read position lies inside the source text or at its end.
    pub closed spec fn wf(&self) -> bool {
        self.position <= self.input.len()
    }

    /// The tokens that are still to come.
    pub open spec fn remaining(&self) -> Seq<TokenView> {
        tokens_from(self.source(), self.offset())
    }

    /// A scanner at the start of `source`.
    pub fn new(source: String) -> (lexer: Lexer)
        ensures
            lexer.wf(),
            lexer.source() == source@,
            lexer.offset() == 0,
    {
        Lexer { input: chars_of(source.as_str()), position: 0 }
    }

    /// The end of the run of `class` characters that starts at `from`.
    fn skip_run(&self, from: usize, class: CharClass) -> (end: usize)
        requires
            from <= self.input.len(),
        ensures
            end == run_end(self.input@, from as nat, class),
            from <= end <= self.input.len(),
    {
        let mut end = from;
        while end < self.input.len() && in_class(self.input[end], class)
            invariant
                from <= end <= self.input.len(),
                run_end(self.input@, from as nat, class) == run_end(
                    self.input@,
                    end as nat,
                    class,
                ),
            decreases self.input.len() - end,
        {
            end += 1;
        }
        end
    }

    /// The characters from `start` up to, not including, `end`.
    fn text_between(&self, start: usize, end: usize) -> (text: String)
        requires
            start <= end <= self.input.len(),
        ensures
            text@ == self.input@.subrange(start as int, end as int),
    {
        let mut text = String::new();
        let mut i = start;
        while i < end
            invariant
                start <= i <= end <= self.input.len(),
                text@ == self.input@.subrange(start as int, i as int),
            decreases end - i,
        {
            text.push(self.input[i]);
            assert(self.input@.subrange(start as int, i + 1) == self.input@.subrange(
                start as int,
                i as int,
            ).push(self.input@[i as int]));
            i += 1;
        }
        text
    }

    /// Reads the next token and moves past it. At the end of the input the
    /// token is `EOF`, and the scanner stays where it is.
    pub fn next_token(&mut self) -> (token: Token)
        requires
            old(self).wf(),
        ensures
            final(self).wf(),
            final(self).source() == old(self).source(),
            token@ == scan(old(self).source(), old(self).offset()).token,
            final(self).offset() == scan(old(self).source(), old(self).offset()).next,
            old(self).offset() <= final(self).offset(),
            token.token != TokenType::EOF ==> old(self).offset() < final(self).offset(),
    {
        proof {
            lemma_scan_advances(self.input@, self.position as nat);
        }
        let start = self.skip_run(self.position, CharClass::Whitespace);
        if start >= self.input.len() {
            self.position = start;
            return Token::end();
        }
        let c = self.input[start];
        if is_letter(c) {
            let end = self.skip_run(start, CharClass::Letter);
            let word = self.text_between(start, end);
            let kind = Token::lookup_ident(word.as_str());
            self.position = end;
            Token { token: kind, literal: word }
        } else if is_digit(c) {
            let end = self.skip_run(start, CharClass::Digit);
            let digits = self.text_between(start, end);
            self.position = end;
            Token { token: TokenType::INT, literal: digits }
        } else if c == '"' {
            let close = self.skip_run(start + 1, CharClass::StringBody);
            let body = self.text_between(start + 1, close);
            self.position = if close < self.input.len() {
                close + 1
            } else {
                close
            };
            Token { token: TokenType::STRING, literal: body }
        } else if c == '=' && start + 1 < self.input.len() && self.input[start + 1] == '=' {
            self.position = start + 2;
            let mut literal = String::new();
            literal.push('=');
            literal.push('=');
            assert(literal@ =~= seq!['=', '=']);
            Token { token: TokenType::EQ, literal }
        } else if c == '!' && start + 1 < self.input.len() && self.input[start + 1] == '=' {
            self.position = start + 2;
            let mut literal = String::new();
            literal.push('!');
            literal.push('=');
            assert(literal@ =~= seq!['!', '=']);
            Token { token: TokenType::NOT_EQ, literal }
        } else {
            self.position = start + 1;
            Token::new(symbol_kind(c), c)
        }
    }
}

} // verus!
