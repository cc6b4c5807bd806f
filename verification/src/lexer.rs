//! The lexer: turns configuration text into a stream of typed tokens.
//!
//! Tokens are separated by whitespace; `#` starts a comment running to the
//! end of the line; `{` and `}` are standalone delimiters; double-quoted
//! strings admit `\` as an escape introducer for the next character; every
//! other maximal run of plain characters is a word, and the ten reserved
//! words map to their own token kinds.
//!
//! The spec-level model is `spec_next`: what token the text yields from a
//! given position, and where the cursor lands. `Lexer::next_token` is proved
//! to follow it exactly, and the tracked line number is pinned to
//! `line_at`, the count of newlines passed so far.

use vstd::prelude::*;

use crate::error::{ParseError, ParseErrorKind};

verus! {

/// One lexical token. `Text` carries the payload of a quoted string or of
/// an unreserved word; `EOF` is yielded at end of input, indefinitely.
#[allow(non_camel_case_types)]
#[derive(Debug, Clone, PartialEq)]
pub enum Token {
    Permit,
    Deny,
    Nopass,
    Nolog,
    Persist,
    KeepEnv,
    SetEnv,
    As,
    Cmd,
    Args,
    LBrace,
    RBrace,
    Text(String),
    EOF,
}

/// The mathematical image of a `Token`: payloads as character sequences.
pub enum TokenV {
    Permit,
    Deny,
    Nopass,
    Nolog,
    Persist,
    KeepEnv,
    SetEnv,
    As,
    Cmd,
    Args,
    LBrace,
    RBrace,
    Text(Seq<char>),
    Eof,
}

impl View for Token {
    type V = TokenV;

    open spec fn view(&self) -> TokenV {
        match self {
            Token::Permit => TokenV::Permit,
            Token::Deny => TokenV::Deny,
            Token::Nopass => TokenV::Nopass,
            Token::Nolog => TokenV::Nolog,
            Token::Persist => TokenV::Persist,
            Token::KeepEnv => TokenV::KeepEnv,
            Token::SetEnv => TokenV::SetEnv,
            Token::As => TokenV::As,
            Token::Cmd => TokenV::Cmd,
            Token::Args => TokenV::Args,
            Token::LBrace => TokenV::LBrace,
            Token::RBrace => TokenV::RBrace,
            Token::Text(s) => TokenV::Text(s@),
            Token::EOF => TokenV::Eof,
        }
    }
}

/// The characters that separate tokens: Unicode whitespace.
pub open spec fn is_space(c: char) -> bool {
    ||| c == ' '
    ||| c == '\t'
    ||| c == '\n'
    ||| c == '\u{b}'
    ||| c == '\u{c}'
    ||| c == '\r'
    ||| c == '\u{85}'
    ||| c == '\u{a0}'
    ||| c == '\u{1680}'
    ||| ('\u{2000}' <= c && c <= '\u{200a}')
    ||| c == '\u{2028}'
    ||| c == '\u{2029}'
    ||| c == '\u{202f}'
    ||| c == '\u{205f}'
    ||| c == '\u{3000}'
}

/// The characters that end an unquoted word.
pub open spec fn is_word_end(c: char) -> bool {
    c == '#' || c == '{' || c == '}' || is_space(c)
}

fn is_space_char(c: char) -> (r: bool)
    ensures
        r == is_space(c),
{
    c == ' ' || c == '\t' || c == '\n' || c == '\u{b}' || c == '\u{c}' || c == '\r'
        || c == '\u{85}' || c == '\u{a0}' || c == '\u{1680}'
        || ('\u{2000}' <= c && c <= '\u{200a}') || c == '\u{2028}' || c == '\u{2029}'
        || c == '\u{202f}' || c == '\u{205f}' || c == '\u{3000}'
}

fn is_word_end_char(c: char) -> (r: bool)
    ensures
        r == is_word_end(c),
{
    c == '#' || c == '{' || c == '}' || is_space_char(c)
}

/// How many newline characters a sequence holds.
pub open spec fn newlines(s: Seq<char>) -> int
    decreases s.len(),
{
    if s.len() == 0 {
        0
    } else {
        newlines(s.drop_last()) + if s.last() == '\n' {
            1int
        } else {
            0int
        }
    }
}

/// The 1-based line number in force after `pos` characters of `s`.
pub open spec fn line_at(s: Seq<char>, pos: int) -> int {
    1 + newlines(s.take(pos))
}

pub proof fn lemma_newlines_bounds(s: Seq<char>)
    ensures
        0 <= newlines(s) <= s.len(),
    decreases s.len(),
{
    if s.len() > 0 {
        lemma_newlines_bounds(s.drop_last());
    }
}

pub proof fn lemma_line_at_bounds(s: Seq<char>, pos: int)
    requires
        0 <= pos <= s.len(),
    ensures
        1 <= line_at(s, pos) <= pos + 1,
{
    lemma_newlines_bounds(s.take(pos));
}

pub proof fn lemma_line_at_step(s: Seq<char>, pos: int)
    requires
        0 <= pos < s.len(),
    ensures
        line_at(s, pos + 1) == line_at(s, pos) + if s[pos] == '\n' {
            1int
        } else {
            0int
        },
{
    assert(s.take(pos + 1).drop_last() =~= s.take(pos));
    assert(s.take(pos + 1).last() == s[pos]);
}

/// The position of the first character of the next token at or after `pos`,
/// skipping whitespace and `#`-comments, or the input length if none is
/// left. `in_comment` says whether `pos` sits inside a comment already.
pub open spec fn find_token_start(s: Seq<char>, pos: int, in_comment: bool) -> int
    decreases s.len() - pos,
{
    if pos < 0 || pos >= s.len() {
        pos
    } else if in_comment {
        if s[pos] == '\n' {
            find_token_start(s, pos + 1, false)
        } else {
            find_token_start(s, pos + 1, true)
        }
    } else if s[pos] == '#' {
        find_token_start(s, pos + 1, true)
    } else if is_space(s[pos]) {
        find_token_start(s, pos + 1, false)
    } else {
        pos
    }
}

pub proof fn lemma_find_token_start_bounds(s: Seq<char>, pos: int, in_comment: bool)
    requires
        0 <= pos <= s.len(),
    ensures
        pos <= find_token_start(s, pos, in_comment) <= s.len(),
    decreases s.len() - pos,
{
    if pos < s.len() {
        if in_comment {
            lemma_find_token_start_bounds(s, pos + 1, s[pos] != '\n');
        } else if s[pos] == '#' {
            lemma_find_token_start_bounds(s, pos + 1, true);
        } else if is_space(s[pos]) {
            lemma_find_token_start_bounds(s, pos + 1, false);
        }
    }
}

/// A token never starts on whitespace or on a comment introducer.
pub proof fn lemma_find_token_start_char(s: Seq<char>, pos: int, in_comment: bool)
    requires
        0 <= pos <= s.len(),
    ensures
        ({
            let r = find_token_start(s, pos, in_comment);
            r < s.len() ==> !is_space(s[r]) && s[r] != '#'
        }),
    decreases s.len() - pos,
{
    if pos < s.len() {
        if in_comment {
            lemma_find_token_start_char(s, pos + 1, s[pos] != '\n');
        } else if s[pos] == '#' {
            lemma_find_token_start_char(s, pos + 1, true);
        } else if is_space(s[pos]) {
            lemma_find_token_start_char(s, pos + 1, false);
        }
    }
}

/// Where the word starting at `pos` ends: the first word-ending character
/// at or after `pos`, or the input length.
pub open spec fn word_end(s: Seq<char>, pos: int) -> int
    decreases s.len() - pos,
{
    if pos < 0 || pos >= s.len() {
        pos
    } else if is_word_end(s[pos]) {
        pos
    } else {
        word_end(s, pos + 1)
    }
}

pub proof fn lemma_word_end_bounds(s: Seq<char>, pos: int)
    requires
        0 <= pos <= s.len(),
    ensures
        pos <= word_end(s, pos) <= s.len(),
    decreases s.len() - pos,
{
    if pos < s.len() && !is_word_end(s[pos]) {
        lemma_word_end_bounds(s, pos + 1);
    }
}

/// The content of a double-quoted string whose opening quote stands just
/// before `pos`, together with the position after the closing quote; `acc`
/// is the content read so far. `None` means the quote is never closed.
pub open spec fn quoted_content(s: Seq<char>, pos: int, acc: Seq<char>) -> Option<(Seq<char>, int)>
    decreases s.len() - pos,
{
    if pos < 0 || pos >= s.len() {
        None
    } else if s[pos] == '"' {
        Some((acc, pos + 1))
    } else if s[pos] == '\\' {
        if pos + 1 < s.len() {
            quoted_content(s, pos + 2, acc.push(s[pos + 1]))
        } else {
            None
        }
    } else {
        quoted_content(s, pos + 1, acc.push(s[pos]))
    }
}

pub proof fn lemma_quoted_content_bounds(s: Seq<char>, pos: int, acc: Seq<char>)
    requires
        0 <= pos <= s.len(),
    ensures
        match quoted_content(s, pos, acc) {
            Some(r) => pos < r.1 <= s.len(),
            None => true,
        },
    decreases s.len() - pos,
{
    if pos < s.len() {
        if s[pos] == '"' {
        } else if s[pos] == '\\' {
            if pos + 1 < s.len() {
                lemma_quoted_content_bounds(s, pos + 2, acc.push(s[pos + 1]));
            }
        } else {
            lemma_quoted_content_bounds(s, pos + 1, acc.push(s[pos]));
        }
    }
}

/// The token a complete word maps to: the ten reserved words each have
/// their own kind, and anything else is free text.
pub open spec fn keyword_token(w: Seq<char>) -> TokenV {
    if w == "permit"@ {
        TokenV::Permit
    } else if w == "deny"@ {
        TokenV::Deny
    } else if w == "nopass"@ {
        TokenV::Nopass
    } else if w == "nolog"@ {
        TokenV::Nolog
    } else if w == "persist"@ {
        TokenV::Persist
    } else if w == "keepenv"@ {
        TokenV::KeepEnv
    } else if w == "setenv"@ {
        TokenV::SetEnv
    } else if w == "as"@ {
        TokenV::As
    } else if w == "cmd"@ {
        TokenV::Cmd
    } else if w == "args"@ {
        TokenV::Args
    } else {
        TokenV::Text(w)
    }
}

/// What lexing yields from position `pos` of `s`: a token and the position
/// after it, or the unterminated-quote error with the line its quote
/// opened on.
pub enum LexOut {
    Tok { t: TokenV, end: int },
    Unclosed { line: int },
}

/// The one step of the lexer, as a mathematical function of the text and
/// the cursor.
pub open spec fn spec_next(s: Seq<char>, pos: int) -> LexOut {
    let start = find_token_start(s, pos, false);
    if start >= s.len() {
        LexOut::Tok { t: TokenV::Eof, end: start }
    } else if s[start] == '{' {
        LexOut::Tok { t: TokenV::LBrace, end: start + 1 }
    } else if s[start] == '}' {
        LexOut::Tok { t: TokenV::RBrace, end: start + 1 }
    } else if s[start] == '"' {
        match quoted_content(s, start + 1, Seq::empty()) {
            Some(r) => LexOut::Tok { t: TokenV::Text(r.0), end: r.1 },
            None => LexOut::Unclosed { line: line_at(s, start) },
        }
    } else {
        LexOut::Tok {
            t: keyword_token(s.subrange(start, word_end(s, start))),
            end: word_end(s, start),
        }
    }
}

/// The lexer: the text as characters, a cursor, and the 1-based line the
/// cursor stands on.
pub struct Lexer {
    pub input: Vec<char>,
    pub pos: usize,
    pub line: usize,
}

impl Lexer {
    /// The cursor is inside the text and the line number counts exactly the
    /// newlines passed.
    pub open spec fn wf(self) -> bool {
        &&& self.pos <= self.input@.len()
        &&& self.input@.len() < usize::MAX
        &&& self.line == line_at(self.input@, self.pos as int)
    }

    pub fn new(input: &str) -> (l: Lexer)
        requires
            input@.len() < usize::MAX,
        ensures
            l.wf(),
            l.input@ == input@,
            l.pos == 0,
            l.line == 1,
    {
        let n: usize = input.unicode_len();
        let mut v: Vec<char> = Vec::new();
        let mut i: usize = 0;
        while i < n
            invariant
                i <= n,
                n == input@.len(),
                v@ == input@.take(i as int),
            decreases n - i,
        {
            v.push(input.get_char(i));
            i = i + 1;
            proof {
                assert(v@ =~= input@.take(i as int));
            }
        }
        proof {
            assert(v@ =~= input@);
            assert(input@.take(0) =~= Seq::<char>::empty());
        }
        Lexer { input: v, pos: 0, line: 1 }
    }

    /// Advance over one character, keeping the line count true.
    fn bump(&mut self)
        requires
            old(self).wf(),
            old(self).pos < old(self).input@.len(),
        ensures
            final(self).wf(),
            final(self).input == old(self).input,
            final(self).pos == old(self).pos + 1,
    {
        proof {
            lemma_line_at_step(self.input@, self.pos as int);
            lemma_line_at_bounds(self.input@, self.pos as int);
        }
        let c = self.input[self.pos];
        if c == '\n' {
            self.line = self.line + 1;
        }
        self.pos = self.pos + 1;
    }

    /// Move the cursor to the start of the next token, skipping whitespace
    /// and comments.
    #[verifier::loop_isolation(false)]
    fn advance_to_token(&mut self)
        requires
            old(self).wf(),
        ensures
            final(self).wf(),
            final(self).input@ == old(self).input@,
            final(self).pos as int == find_token_start(
                old(self).input@,
                old(self).pos as int,
                false,
            ),
    {
        let ghost s = self.input@;
        let ghost p0 = self.pos as int;
        let mut in_comment: bool = false;
        loop
            invariant
                self.wf(),
                self.input@ == s,
                find_token_start(s, self.pos as int, in_comment) == find_token_start(s, p0, false),
            decreases s.len() - self.pos,
        {
            if self.pos >= self.input.len() {
                break;
            }
            let c = self.input[self.pos];
            if in_comment {
                if c == '\n' {
                    in_comment = false;
                }
                self.bump();
            } else if c == '#' {
                in_comment = true;
                self.bump();
            } else if is_space_char(c) {
                self.bump();
            } else {
                break;
            }
        }
    }

    /// One token from the text, exactly as `spec_next` describes it;
    /// repeated calls at end of input keep yielding `EOF`.
    pub fn next_token(&mut self) -> (r: Result<Token, ParseError>)
        requires
            old(self).wf(),
        ensures
            final(self).wf(),
            final(self).input@ == old(self).input@,
            match spec_next(old(self).input@, old(self).pos as int) {
                LexOut::Tok { t, end } => {
                    &&& r matches Ok(tok) && tok@ == t
                    &&& final(self).pos as int == end
                },
                LexOut::Unclosed { line } => {
                    &&& r matches Err(e) && e.kind == ParseErrorKind::UnclosedQuote && e.line
                        as int == line
                    &&& final(self).pos == final(self).input@.len()
                },
            },
    {
        proof {
            lemma_find_token_start_bounds(self.input@, self.pos as int, false);
            lemma_find_token_start_char(self.input@, self.pos as int, false);
        }
        self.advance_to_token();
        if self.pos >= self.input.len() {
            return Ok(Token::EOF);
        }
        let c = self.input[self.pos];
        if c == '{' {
            self.bump();
            Ok(Token::LBrace)
        } else if c == '}' {
            self.bump();
            Ok(Token::RBrace)
        } else if c == '"' {
            self.read_quoted_string()
        } else {
            self.read_word()
        }
    }

    /// Read a double-quoted string, the cursor standing on the opening
    /// quote. A backslash escapes the character after it; reaching end of
    /// input first is the fatal unterminated-quote error, citing the line
    /// the quote opened on.
    #[verifier::loop_isolation(false)]
    fn read_quoted_string(&mut self) -> (r: Result<Token, ParseError>)
        requires
            old(self).wf(),
            old(self).pos < old(self).input@.len(),
            old(self).input@[old(self).pos as int] == '"',
        ensures
            final(self).wf(),
            final(self).input@ == old(self).input@,
            match quoted_content(old(self).input@, old(self).pos + 1, Seq::empty()) {
                Some(q) => {
                    &&& r matches Ok(tok) && tok@ == TokenV::Text(q.0)
                    &&& final(self).pos as int == q.1
                },
                None => {
                    &&& r matches Err(e) && e.kind == ParseErrorKind::UnclosedQuote && e.line
                        as int == line_at(old(self).input@, old(self).pos as int)
                    &&& final(self).pos == final(self).input@.len()
                },
            },
    {
        let ghost s = self.input@;
        let ghost p0 = self.pos as int;
        let start_line = self.line;
        self.bump();
        let mut buf: Vec<char> = Vec::new();
        loop
            invariant
                self.wf(),
                self.input@ == s,
                0 <= p0,
                p0 + 1 <= self.pos as int <= s.len(),
                start_line as int == line_at(s, p0),
                quoted_content(s, self.pos as int, buf@) == quoted_content(
                    s,
                    p0 + 1,
                    Seq::<char>::empty(),
                ),
            decreases s.len() - self.pos,
        {
            if self.pos >= self.input.len() {
                return Err(ParseError { kind: ParseErrorKind::UnclosedQuote, line: start_line });
            }
            let c = self.input[self.pos];
            if c == '"' {
                self.bump();
                return Ok(Token::Text(chars_to_string(&buf)));
            } else if c == '\\' {
                self.bump();
                if self.pos < self.input.len() {
                    let e = self.input[self.pos];
                    buf.push(e);
                    self.bump();
                }
            } else {
                buf.push(c);
                self.bump();
            }
        }
    }

    /// Read an unquoted word, the cursor standing on its first character,
    /// and map it through the reserved-word table.
    #[verifier::loop_isolation(false)]
    fn read_word(&mut self) -> (r: Result<Token, ParseError>)
        requires
            old(self).wf(),
            old(self).pos < old(self).input@.len(),
            !is_word_end(old(self).input@[old(self).pos as int]),
        ensures
            final(self).wf(),
            final(self).input@ == old(self).input@,
            final(self).pos as int == word_end(old(self).input@, old(self).pos as int),
            r matches Ok(tok) && tok@ == keyword_token(
                old(self).input@.subrange(
                    old(self).pos as int,
                    word_end(old(self).input@, old(self).pos as int),
                ),
            ),
    {
        let ghost s = self.input@;
        let ghost p0 = self.pos as int;
        let mut buf: Vec<char> = Vec::new();
        loop
            invariant
                self.wf(),
                self.input@ == s,
                0 <= p0,
                p0 <= self.pos as int <= s.len(),
                buf@ == s.subrange(p0, self.pos as int),
                word_end(s, self.pos as int) == word_end(s, p0),
            decreases s.len() - self.pos,
        {
            if self.pos >= self.input.len() {
                break;
            }
            let c = self.input[self.pos];
            if is_word_end_char(c) {
                break;
            }
            buf.push(c);
            self.bump();
            proof {
                assert(buf@ =~= s.subrange(p0, self.pos as int));
            }
        }
        Ok(make_word_token(&buf))
    }
}

/// Build a `String` whose characters are exactly those of `v`.
fn chars_to_string(v: &Vec<char>) -> (r: String)
    ensures
        r@ == v@,
{
    let mut out = String::new();
    let mut i: usize = 0;
    while i < v.len()
        invariant
            i <= v@.len(),
            out@ == v@.take(i as int),
        decreases v@.len() - i,
    {
        push_char(&mut out, v[i]);
        i = i + 1;
        proof {
            assert(out@ =~= v@.take(i as int));
        }
    }
    proof {
        assert(v@.take(v@.len() as int) =~= v@);
    }
    out
}

/// Relies on `String::push`: appends exactly the given character.
#[verifier::external_body]
fn push_char(s: &mut String, c: char)
    ensures
        final(s)@ == old(s)@.push(c),
{
    s.push(c);
}

/// Whether the characters of `v` spell exactly `s`.
fn vec_eq_str(v: &Vec<char>, s: &str) -> (r: bool)
    ensures
        r == (v@ == s@),
{
    let n: usize = s.unicode_len();
    if v.len() != n {
        return false;
    }
    let mut i: usize = 0;
    while i < n
        invariant
            i <= n,
            n == s@.len(),
            n == v@.len(),
            forall|j: int| 0 <= j < i ==> v@[j] == s@[j],
        decreases n - i,
    {
        if v[i] != s.get_char(i) {
            return false;
        }
        i = i + 1;
    }
    proof {
        assert(v@ =~= s@);
    }
    true
}

/// The executable reserved-word table.
fn make_word_token(buf: &Vec<char>) -> (t: Token)
    ensures
        t@ == keyword_token(buf@),
{
    if vec_eq_str(buf, "permit") {
        Token::Permit
    } else if vec_eq_str(buf, "deny") {
        Token::Deny
    } else if vec_eq_str(buf, "nopass") {
        Token::Nopass
    } else if vec_eq_str(buf, "nolog") {
        Token::Nolog
    } else if vec_eq_str(buf, "persist") {
        Token::Persist
    } else if vec_eq_str(buf, "keepenv") {
        Token::KeepEnv
    } else if vec_eq_str(buf, "setenv") {
        Token::SetEnv
    } else if vec_eq_str(buf, "as") {
        Token::As
    } else if vec_eq_str(buf, "cmd") {
        Token::Cmd
    } else if vec_eq_str(buf, "args") {
        Token::Args
    } else {
        Token::Text(chars_to_string(buf))
    }
}

} // verus!
