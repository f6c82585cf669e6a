//! Tokens: the words and signs of a source text, with their places.
//!
//! The text is taken byte by byte; it is ASCII throughout. A place is a line
//! and a column, both counted from one; a line ends with a line feed.
use vstd::prelude::*;
use crate::tree::Location;

verus! {

pub const TAB: u8 = 9;

pub const LINE_FEED: u8 = 10;

pub const CARRIAGE_RETURN: u8 = 13;

pub const SPACE: u8 = 32;

pub const QUOTE: u8 = 34;

pub const LEFT_PAREN: u8 = 40;

pub const RIGHT_PAREN: u8 = 41;

pub const COMMA: u8 = 44;

pub const DOT: u8 = 46;

pub const COLON: u8 = 58;

pub const EQUALS: u8 = 61;

pub const UNDERSCORE: u8 = 95;

/// What a token is.
#[derive(Debug, Clone, Copy, PartialEq, Eq, Structural)]
pub enum TokenKind {
    /// A name: a letter or an underscore, then letters, digits and
    /// underscores; not one of the three words below.
    Name,
    /// A run of digits.
    Number,
    /// What stands between two double quotes on one line.
    Text,
    /// The word `class`.
    Class,
    /// The word `def`.
    Def,
    /// The word `end`.
    End,
    LeftParen,
    RightParen,
    Comma,
    Colon,
    Assign,
    Dot,
}

/// A token: its kind, the bytes of the text that make it up, from `start` up
/// to `end`, and the place of the first of them. For a text between quotes
/// these are the bytes between the quotes.
#[derive(Debug, Clone, Copy, PartialEq, Eq, Structural)]
pub struct Token {
    pub kind: TokenKind,
    pub start: usize,
    pub end: usize,
    pub line: u32,
    pub col: u32,
}

impl Token {
    pub open spec fn location(self) -> Location {
        Location { line: self.line, col: self.col }
    }

    /// Where the text goes on after the token.
    pub open spec fn next(self) -> int {
        if self.kind is Text {
            self.end + 1
        } else {
            self.end as int
        }
    }

    /// The token lies within a text of `len` bytes.
    pub open spec fn within(self, len: int) -> bool {
        self.start <= self.end <= len
    }
}

/// The kinds of runs of bytes that the lexer passes over in one go.
pub enum Run {
    /// Blanks: spaces, tabs, line feeds and carriage returns.
    Blank,
    /// The bytes of a name after its first.
    Name,
    /// Digits.
    Digits,
    /// Whatever may stand between quotes: all but a quote and a line feed.
    Text,
}

pub open spec fn is_blank(b: u8) -> bool {
    b == SPACE || b == TAB || b == LINE_FEED || b == CARRIAGE_RETURN
}

pub open spec fn is_digit(b: u8) -> bool {
    48 <= b <= 57
}

pub open spec fn is_name_start(b: u8) -> bool {
    (65 <= b <= 90) || (97 <= b <= 122) || b == UNDERSCORE
}

pub open spec fn is_part(run: Run, b: u8) -> bool {
    match run {
        Run::Blank => is_blank(b),
        Run::Name => is_name_start(b) || is_digit(b),
        Run::Digits => is_digit(b),
        Run::Text => b != QUOTE && b != LINE_FEED,
    }
}

/// Where the run that starts at `pos` ends: the first place from `pos` on
/// whose byte is not part of the run, or the end of the text.
pub open spec fn run_end(bytes: Seq<u8>, pos: int, run: Run) -> int
    decreases bytes.len() - pos,
{
    if 0 <= pos < bytes.len() && is_part(run, bytes[pos]) {
        run_end(bytes, pos + 1, run)
    } else {
        pos
    }
}

/// The line of the byte at `pos`: one more than the line feeds before it.
pub open spec fn line_at(bytes: Seq<u8>, pos: int) -> int
    decreases pos,
{
    if pos <= 0 {
        1
    } else if bytes[pos - 1] == LINE_FEED {
        line_at(bytes, pos - 1) + 1
    } else {
        line_at(bytes, pos - 1)
    }
}

/// The column of the byte at `pos`: one more than the bytes before it on its
/// line.
pub open spec fn col_at(bytes: Seq<u8>, pos: int) -> int
    decreases pos,
{
    if pos <= 0 {
        1
    } else if bytes[pos - 1] == LINE_FEED {
        1
    } else {
        col_at(bytes, pos - 1) + 1
    }
}

/// The place of the byte at `pos`.
pub open spec fn location_at(bytes: Seq<u8>, pos: int) -> Location {
    Location { line: line_at(bytes, pos) as u32, col: col_at(bytes, pos) as u32 }
}

/// The kind of a word: one of the three reserved words, or a name.
pub open spec fn word_kind(word: Seq<u8>) -> TokenKind {
    if word == seq![99u8, 108u8, 97u8, 115u8, 115u8] {
        TokenKind::Class
    } else if word == seq![100u8, 101u8, 102u8] {
        TokenKind::Def
    } else if word == seq![101u8, 110u8, 100u8] {
        TokenKind::End
    } else {
        TokenKind::Name
    }
}

/// The kind of the sign that a byte is, if it is one.
pub open spec fn sign_kind(b: u8) -> Option<TokenKind> {
    if b == LEFT_PAREN {
        Some(TokenKind::LeftParen)
    } else if b == RIGHT_PAREN {
        Some(TokenKind::RightParen)
    } else if b == COMMA {
        Some(TokenKind::Comma)
    } else if b == COLON {
        Some(TokenKind::Colon)
    } else if b == EQUALS {
        Some(TokenKind::Assign)
    } else if b == DOT {
        Some(TokenKind::Dot)
    } else {
        None
    }
}

/// The token that starts at `pos`, if one does. A quote that is not closed
/// on its line starts none, nor does any byte that is no letter, digit,
/// underscore, quote or sign.
pub open spec fn token_at(bytes: Seq<u8>, pos: int) -> Option<Token> {
    let b = bytes[pos];
    if is_name_start(b) {
        let end = run_end(bytes, pos + 1, Run::Name);
        Some(
            Token {
                kind: word_kind(bytes.subrange(pos, end)),
                start: pos as usize,
                end: end as usize,
                line: line_at(bytes, pos) as u32,
                col: col_at(bytes, pos) as u32,
            },
        )
    } else if is_digit(b) {
        Some(
            Token {
                kind: TokenKind::Number,
                start: pos as usize,
                end: run_end(bytes, pos + 1, Run::Digits) as usize,
                line: line_at(bytes, pos) as u32,
                col: col_at(bytes, pos) as u32,
            },
        )
    } else if b == QUOTE {
        let close = run_end(bytes, pos + 1, Run::Text);
        if close < bytes.len() && bytes[close] == QUOTE {
            Some(
                Token {
                    kind: TokenKind::Text,
                    start: (pos + 1) as usize,
                    end: close as usize,
                    line: line_at(bytes, pos + 1) as u32,
                    col: col_at(bytes, pos + 1) as u32,
                },
            )
        } else {
            None
        }
    } else {
        match sign_kind(b) {
            Some(kind) => Some(
                Token {
                    kind,
                    start: pos as usize,
                    end: (pos + 1) as usize,
                    line: line_at(bytes, pos) as u32,
                    col: col_at(bytes, pos) as u32,
                },
            ),
            None => None,
        }
    }
}

/// The tokens of the text from `pos` on, or the place of the first byte
/// that starts no token.
pub open spec fn lexed(bytes: Seq<u8>, pos: int) -> Result<Seq<Token>, int>
    decreases bytes.len() - pos,
{
    let start = run_end(bytes, pos, Run::Blank);
    if start < pos || start >= bytes.len() {
        Ok(Seq::empty())
    } else {
        match token_at(bytes, start) {
            Some(token) => if start < token.next() <= bytes.len() {
                match lexed(bytes, token.next()) {
                    Ok(rest) => Ok(seq![token] + rest),
                    Err(place) => Err(place),
                }
            } else {
                Err(start)
            },
            None => Err(start),
        }
    }
}

/// A run ends at or after its start and within the text, and every byte up
/// to its end is part of it.
pub proof fn lemma_run_end(bytes: Seq<u8>, pos: int, run: Run)
    requires
        0 <= pos <= bytes.len(),
    ensures
        pos <= run_end(bytes, pos, run) <= bytes.len(),
        forall|i: int| pos <= i < run_end(bytes, pos, run) ==> is_part(run, #[trigger] bytes[i]),
        run_end(bytes, pos, run) < bytes.len() ==> !is_part(
            run,
            bytes[run_end(bytes, pos, run)],
        ),
    decreases bytes.len() - pos,
{
    if pos < bytes.len() && is_part(run, bytes[pos]) {
        lemma_run_end(bytes, pos + 1, run);
    }
}

/// A token ends after its start and within the text: reading always goes on,
/// and never past the end.
pub proof fn law_token_advances(bytes: Seq<u8>, pos: int)
    requires
        0 <= pos < bytes.len() <= usize::MAX,
        token_at(bytes, pos) is Some,
    ensures
        pos < token_at(bytes, pos)->Some_0.next() <= bytes.len(),
        token_at(bytes, pos)->Some_0.within(bytes.len() as int),
{
    lemma_run_end(bytes, pos + 1, Run::Name);
    lemma_run_end(bytes, pos + 1, Run::Digits);
    lemma_run_end(bytes, pos + 1, Run::Text);
}

/// Lines and columns are at least one and at most one more than the place.
pub proof fn lemma_place_bounds(bytes: Seq<u8>, pos: int)
    requires
        0 <= pos,
    ensures
        1 <= line_at(bytes, pos) <= pos + 1,
        1 <= col_at(bytes, pos) <= pos + 1,
    decreases pos,
{
    if pos > 0 {
        lemma_place_bounds(bytes, pos - 1);
    }
}

/// A place in a text as the lexer goes through it.
struct Cursor {
    pos: usize,
    line: u32,
    col: u32,
}

impl Cursor {
    spec fn at(self, bytes: Seq<u8>) -> bool {
        &&& self.pos <= bytes.len()
        &&& self.line == line_at(bytes, self.pos as int)
        &&& self.col == col_at(bytes, self.pos as int)
    }
}

fn is_part_of(run: &Run, b: u8) -> (part: bool)
    ensures
        part == is_part(*run, b),
{
    match run {
        Run::Blank => b == SPACE || b == TAB || b == LINE_FEED || b == CARRIAGE_RETURN,
        Run::Name => (65 <= b && b <= 90) || (97 <= b && b <= 122) || b == UNDERSCORE || (48 <= b
            && b <= 57),
        Run::Digits => 48 <= b && b <= 57,
        Run::Text => b != QUOTE && b != LINE_FEED,
    }
}

/// Moves the cursor over one byte.
fn step(bytes: &[u8], cursor: &mut Cursor)
    requires
        bytes@.len() < u32::MAX,
        old(cursor).at(bytes@),
        old(cursor).pos < bytes@.len(),
    ensures
        final(cursor).at(bytes@),
        final(cursor).pos == old(cursor).pos + 1,
{
    proof {
        lemma_place_bounds(bytes@, cursor.pos as int);
    }
    if bytes[cursor.pos] == LINE_FEED {
        cursor.line = cursor.line + 1;
        cursor.col = 1;
    } else {
        cursor.col = cursor.col + 1;
    }
    cursor.pos = cursor.pos + 1;
}

/// Moves the cursor to the end of the run that starts where it stands.
fn pass(bytes: &[u8], cursor: &mut Cursor, run: Run)
    requires
        bytes@.len() < u32::MAX,
        old(cursor).at(bytes@),
    ensures
        final(cursor).at(bytes@),
        final(cursor).pos == run_end(bytes@, old(cursor).pos as int, run),
{
    while cursor.pos < bytes.len() && is_part_of(&run, bytes[cursor.pos])
        invariant
            bytes@.len() < u32::MAX,
            cursor.at(bytes@),
            run_end(bytes@, old(cursor).pos as int, run) == run_end(bytes@, cursor.pos as int, run),
        decreases bytes@.len() - cursor.pos,
    {
        step(bytes, cursor);
    }
}

/// Whether the bytes from `start` up to `end` are those of `word`.
fn is_word(bytes: &[u8], start: usize, end: usize, word: &[u8]) -> (same: bool)
    requires
        start <= end <= bytes@.len(),
    ensures
        same == (bytes@.subrange(start as int, end as int) == word@),
{
    if end - start != word.len() {
        return false;
    }
    let n: usize = word.len();
    let mut k: usize = 0;
    while k < n
        invariant
            k <= n,
            n == word@.len(),
            n == end - start,
            start <= end <= bytes@.len(),
            forall|j: int| 0 <= j < k ==> bytes@[start + j] == word@[j],
        decreases n - k,
    {
        if bytes[start + k] != word[k] {
            assert(bytes@.subrange(start as int, end as int)[k as int] != word@[k as int]);
            return false;
        }
        k += 1;
    }
    assert(bytes@.subrange(start as int, end as int) =~= word@);
    true
}

/// The kind of the word from `start` up to `end`.
fn word_kind_of(bytes: &[u8], start: usize, end: usize) -> (kind: TokenKind)
    requires
        start <= end <= bytes@.len(),
    ensures
        kind == word_kind(bytes@.subrange(start as int, end as int)),
{
    let class: [u8; 5] = [99, 108, 97, 115, 115];
    let def: [u8; 3] = [100, 101, 102];
    let end_word: [u8; 3] = [101, 110, 100];
    assert(class@ =~= seq![99u8, 108u8, 97u8, 115u8, 115u8]);
    assert(def@ =~= seq![100u8, 101u8, 102u8]);
    assert(end_word@ =~= seq![101u8, 110u8, 100u8]);
    if is_word(bytes, start, end, class.as_slice()) {
        TokenKind::Class
    } else if is_word(bytes, start, end, def.as_slice()) {
        TokenKind::Def
    } else if is_word(bytes, start, end, end_word.as_slice()) {
        TokenKind::End
    } else {
        TokenKind::Name
    }
}

fn sign_kind_of(b: u8) -> (kind: Option<TokenKind>)
    ensures
        kind == sign_kind(b),
{
    if b == LEFT_PAREN {
        Some(TokenKind::LeftParen)
    } else if b == RIGHT_PAREN {
        Some(TokenKind::RightParen)
    } else if b == COMMA {
        Some(TokenKind::Comma)
    } else if b == COLON {
        Some(TokenKind::Colon)
    } else if b == EQUALS {
        Some(TokenKind::Assign)
    } else if b == DOT {
        Some(TokenKind::Dot)
    } else {
        None
    }
}

/// Reads the token that starts where the cursor stands and moves the cursor
/// past it.
fn read_token(bytes: &[u8], cursor: &mut Cursor) -> (token: Option<Token>)
    requires
        bytes@.len() < u32::MAX,
        old(cursor).at(bytes@),
        old(cursor).pos < bytes@.len(),
    ensures
        token == token_at(bytes@, old(cursor).pos as int),
        final(cursor).at(bytes@),
        token matches Some(token) ==> final(cursor).pos == token.next() && token.within(
            bytes@.len() as int,
        ) && token.next() > old(cursor).pos,
{
    let start: usize = cursor.pos;
    let line: u32 = cursor.line;
    let col: u32 = cursor.col;
    let b: u8 = bytes[start];
    if (65 <= b && b <= 90) || (97 <= b && b <= 122) || b == UNDERSCORE {
        step(bytes, cursor);
        pass(bytes, cursor, Run::Name);
        proof {
            lemma_run_end(bytes@, start + 1, Run::Name);
        }
        Some(
            Token { kind: word_kind_of(bytes, start, cursor.pos), start, end: cursor.pos, line, col },
        )
    } else if 48 <= b && b <= 57 {
        step(bytes, cursor);
        pass(bytes, cursor, Run::Digits);
        proof {
            lemma_run_end(bytes@, start + 1, Run::Digits);
        }
        Some(Token { kind: TokenKind::Number, start, end: cursor.pos, line, col })
    } else if b == QUOTE {
        step(bytes, cursor);
        let line: u32 = cursor.line;
        let col: u32 = cursor.col;
        pass(bytes, cursor, Run::Text);
        proof {
            lemma_run_end(bytes@, start + 1, Run::Text);
        }
        let close: usize = cursor.pos;
        if close < bytes.len() && bytes[close] == QUOTE {
            step(bytes, cursor);
            Some(Token { kind: TokenKind::Text, start: start + 1, end: close, line, col })
        } else {
            None
        }
    } else {
        match sign_kind_of(b) {
            Some(kind) => {
                step(bytes, cursor);
                Some(Token { kind, start, end: start + 1, line, col })
            },
            None => None,
        }
    }
}

/// The tokens of a text, or the place of the first byte that starts none.
pub fn lex(bytes: &[u8]) -> (result: Result<Vec<Token>, Location>)
    requires
        bytes@.len() < u32::MAX,
    ensures
        match result {
            Ok(tokens) => lexed(bytes@, 0) == Ok::<Seq<Token>, int>(tokens@) && forall|i: int|
                0 <= i < tokens@.len() ==> (#[trigger] tokens@[i]).within(bytes@.len() as int),
            Err(location) => lexed(bytes@, 0) matches Err(place) && location == location_at(
                bytes@,
                place,
            ),
        },
{
    let mut tokens: Vec<Token> = Vec::new();
    let mut cursor = Cursor { pos: 0, line: 1, col: 1 };
    loop
        invariant
            bytes@.len() < u32::MAX,
            cursor.at(bytes@),
            forall|i: int| 0 <= i < tokens@.len() ==> (#[trigger] tokens@[i]).within(
                bytes@.len() as int,
            ),
            lexed(bytes@, 0) == (match lexed(bytes@, cursor.pos as int) {
                Ok(rest) => Ok::<Seq<Token>, int>(tokens@ + rest),
                Err(place) => Err(place),
            }),
        decreases bytes@.len() - cursor.pos,
    {
        let ghost from = cursor.pos as int;
        pass(bytes, &mut cursor, Run::Blank);
        proof {
            lemma_run_end(bytes@, from, Run::Blank);
        }
        if cursor.pos >= bytes.len() {
            assert(tokens@ + Seq::<Token>::empty() =~= tokens@);
            return Ok(tokens);
        }
        let location = Location { line: cursor.line, col: cursor.col };
        match read_token(bytes, &mut cursor) {
            Some(token) => {
                proof {
                    let before = tokens@;
                    match lexed(bytes@, token.next()) {
                        Ok(rest) => {
                            assert(before + (seq![token] + rest) =~= before.push(token) + rest);
                        },
                        Err(_) => {},
                    }
                }
                tokens.push(token);
            },
            None => {
                return Err(location);
            },
        }
    }
}

} // verus!
