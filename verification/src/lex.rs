//! The tokenizer: from source text to a finite stream of tokens that ends in
//! one end-of-input token.
//!
//! The model is a function on the bytes of the source. [`scan`] gives the
//! token that starts at or after a byte offset, together with the offset just
//! past it, and [`token_stream`] chains `scan` from offset zero. The
//! executable [`Lexer`] is proved to walk exactly that stream.

use vstd::prelude::*;
use vstd::string::StringSliceAdditionalSpecFns;
use crate::text::{ascii_chars, ascii_slice};
use crate::token::{lookup_identifier, Token, TokenView};

verus! {

/// The classes of bytes that form runs in the source.
pub ghost enum ByteClass {
    Whitespace,
    Letter,
    Digit,
}

/// ASCII whitespace: space, tab, line feed, form feed and carriage return.
pub open spec fn is_whitespace(b: u8) -> bool {
    b == ' ' as u8 || b == '\t' as u8 || b == '\n' as u8 || b == '\x0c' as u8 || b == '\r' as u8
}

/// The bytes of identifiers and keywords: ASCII letters and the underscore.
pub open spec fn is_letter(b: u8) -> bool {
    ('a' as u8 <= b <= 'z' as u8) || ('A' as u8 <= b <= 'Z' as u8) || b == '_' as u8
}

/// The ASCII digits.
pub open spec fn is_digit(b: u8) -> bool {
    '0' as u8 <= b <= '9' as u8
}

/// Whether `b` is a byte of the class `class`.
pub open spec fn in_class(class: ByteClass, b: u8) -> bool {
    match class {
        ByteClass::Whitespace => is_whitespace(b),
        ByteClass::Letter => is_letter(b),
        ByteClass::Digit => is_digit(b),
    }
}

/// The end of the maximal run of bytes of `class` that starts at `pos`: the
/// first offset at or after `pos` whose byte is not of the class, or the
/// length of the source.
pub open spec fn run_end(bytes: Seq<u8>, pos: int, class: ByteClass) -> int
    decreases bytes.len() - pos,
{
    if 0 <= pos < bytes.len() && in_class(class, bytes[pos]) {
        run_end(bytes, pos + 1, class)
    } else {
        pos
    }
}

/// The byte at `pos`, if there is one.
pub open spec fn byte_at(bytes: Seq<u8>, pos: int) -> Option<u8> {
    if 0 <= pos < bytes.len() {
        Some(bytes[pos])
    } else {
        None
    }
}

/// The token of a single punctuation byte. `=` and `!` stand here for the
/// one-byte operators; [`scan`] looks one byte ahead for `==` and `!=`.
pub open spec fn punctuation(b: u8) -> Option<TokenView> {
    if b == ',' as u8 {
        Some(TokenView::Comma)
    } else if b == ';' as u8 {
        Some(TokenView::Semicolon)
    } else if b == '(' as u8 {
        Some(TokenView::OpenParen)
    } else if b == ')' as u8 {
        Some(TokenView::CloseParen)
    } else if b == '{' as u8 {
        Some(TokenView::OpenCurly)
    } else if b == '}' as u8 {
        Some(TokenView::CloseCurly)
    } else if b == '+' as u8 {
        Some(TokenView::Plus)
    } else if b == '-' as u8 {
        Some(TokenView::Minus)
    } else if b == '*' as u8 {
        Some(TokenView::Asterisk)
    } else if b == '/' as u8 {
        Some(TokenView::Slash)
    } else if b == '<' as u8 {
        Some(TokenView::LessThan)
    } else if b == '>' as u8 {
        Some(TokenView::GreaterThan)
    } else if b == '=' as u8 {
        Some(TokenView::Assign)
    } else if b == '!' as u8 {
        Some(TokenView::Bang)
    } else {
        None
    }
}

/// The next token at or after byte offset `pos`, and the offset just past it.
///
/// Whitespace before the token is skipped. At the end of the source the
/// token is `Eof` and the offset is the length of the source. A byte that
/// starts no token gives `Illegal` and is consumed alone.
pub open spec fn scan(bytes: Seq<u8>, pos: int) -> (TokenView, int) {
    let start = run_end(bytes, pos, ByteClass::Whitespace);
    if !(0 <= start < bytes.len()) {
        (TokenView::Eof, bytes.len() as int)
    } else {
        let b = bytes[start];
        if is_letter(b) {
            let end = run_end(bytes, start, ByteClass::Letter);
            (lookup_identifier(ascii_chars(bytes.subrange(start, end))), end)
        } else if is_digit(b) {
            let end = run_end(bytes, start, ByteClass::Digit);
            (TokenView::Int(ascii_chars(bytes.subrange(start, end))), end)
        } else if b == '=' as u8 && byte_at(bytes, start + 1) == Some('=' as u8) {
            (TokenView::Equal, start + 2)
        } else if b == '!' as u8 && byte_at(bytes, start + 1) == Some('=' as u8) {
            (TokenView::NotEqual, start + 2)
        } else {
            match punctuation(b) {
                Some(t) => (t, start + 1),
                None => (TokenView::Illegal, start + 1),
            }
        }
    }
}

/// A run ends at or after its start, within the source, on a byte that is
/// not of the class; and every byte before the end is of the class.
pub proof fn lemma_run_end(bytes: Seq<u8>, pos: int, class: ByteClass)
    requires
        0 <= pos <= bytes.len(),
    ensures
        pos <= run_end(bytes, pos, class) <= bytes.len(),
        run_end(bytes, pos, class) < bytes.len() ==> !in_class(
            class,
            bytes[run_end(bytes, pos, class)],
        ),
        forall|i: int| pos <= i < run_end(bytes, pos, class) ==> in_class(class, #[trigger] bytes[i]),
    decreases bytes.len() - pos,
{
    if pos < bytes.len() && in_class(class, bytes[pos]) {
        lemma_run_end(bytes, pos + 1, class);
    }
}

/// Scanning makes progress: the offset never moves back nor past the end,
/// and every token but `Eof` consumes at least one byte. `Eof` is given
/// exactly when only whitespace is left.
pub proof fn lemma_scan_progress(bytes: Seq<u8>, pos: int)
    requires
        0 <= pos <= bytes.len(),
    ensures
        pos <= scan(bytes, pos).1 <= bytes.len(),
        scan(bytes, pos).0 != TokenView::Eof ==> pos < scan(bytes, pos).1,
        scan(bytes, pos).0 == TokenView::Eof <==> run_end(bytes, pos, ByteClass::Whitespace)
            == bytes.len(),
{
    lemma_run_end(bytes, pos, ByteClass::Whitespace);
    let start = run_end(bytes, pos, ByteClass::Whitespace);
    if start < bytes.len() {
        lemma_run_end(bytes, start, ByteClass::Letter);
        lemma_run_end(bytes, start, ByteClass::Digit);
        lemma_keywords_are_not_eof(ascii_chars(bytes.subrange(start, run_end(bytes, start, ByteClass::Letter))));
    }
}

proof fn lemma_keywords_are_not_eof(word: Seq<char>)
    ensures
        lookup_identifier(word) != TokenView::Eof,
{
}

/// The tokens from byte offset `pos` to the end of the source, `Eof` last.
pub open spec fn token_stream_from(bytes: Seq<u8>, pos: int) -> Seq<TokenView>
    decreases bytes.len() - pos,
{
    if 0 <= pos <= bytes.len() {
        let (token, next) = scan(bytes, pos);
        if token == TokenView::Eof {
            seq![token]
        } else {
            proof {
                lemma_scan_progress(bytes, pos);
            }
            seq![token] + token_stream_from(bytes, next)
        }
    } else {
        seq![TokenView::Eof]
    }
}

/// The tokens of a whole source, `Eof` last.
pub open spec fn token_stream(bytes: Seq<u8>) -> Seq<TokenView> {
    token_stream_from(bytes, 0)
}

/// Every token stream is finite, ends in `Eof`, and holds no other `Eof`.
pub proof fn lemma_token_stream_ends_in_single_eof(bytes: Seq<u8>, pos: int)
    ensures
        token_stream_from(bytes, pos).len() >= 1,
        token_stream_from(bytes, pos).last() == TokenView::Eof,
        forall|i: int|
            0 <= i < token_stream_from(bytes, pos).len() - 1 ==> #[trigger] token_stream_from(
                bytes,
                pos,
            )[i] != TokenView::Eof,
    decreases bytes.len() - pos,
{
    if 0 <= pos <= bytes.len() {
        let (token, next) = scan(bytes, pos);
        if token != TokenView::Eof {
            lemma_scan_progress(bytes, pos);
            lemma_token_stream_ends_in_single_eof(bytes, next);
        }
    }
}

/// Tokenizing is a function of the source: equal sources have equal token
/// streams, each of them finite and closed by exactly one `Eof`.
pub proof fn lemma_tokenization_is_deterministic(first: Seq<u8>, second: Seq<u8>)
    requires
        first == second,
    ensures
        token_stream(first) == token_stream(second),
        token_stream(first).len() >= 1,
        token_stream(first).last() == TokenView::Eof,
        forall|i: int|
            0 <= i < token_stream(first).len() - 1 ==> #[trigger] token_stream(first)[i]
                != TokenView::Eof,
{
    lemma_token_stream_ends_in_single_eof(first, 0);
}

/// The tokens that the tokenizer has not handed out yet, once the parser
/// has pulled `count` of them: the rest of the stream, or `Eof` again and
/// again once the stream is used up.
pub open spec fn unread(ts: Seq<TokenView>, count: int) -> Seq<TokenView> {
    if 0 <= count < ts.len() {
        ts.skip(count)
    } else {
        seq![TokenView::Eof]
    }
}

/// Reading token by token follows the stream: a tokenizer that has handed
/// out `count` tokens hands out the token at `count` of the stream next, or
/// `Eof` once the stream is used up, and then stands before the one after
/// it. So every reading of a source gives the same tokens in the same order.
pub proof fn lemma_reading_follows_the_stream(bytes: Seq<u8>, offset: int, count: int)
    requires
        0 <= offset <= bytes.len(),
        0 <= count,
        token_stream_from(bytes, offset) == unread(token_stream(bytes), count),
    ensures
        scan(bytes, offset).0 == (if count < token_stream(bytes).len() {
            token_stream(bytes)[count]
        } else {
            TokenView::Eof
        }),
        0 <= scan(bytes, offset).1 <= bytes.len(),
        token_stream_from(bytes, scan(bytes, offset).1) == unread(token_stream(bytes), count + 1),
{
    let ts = token_stream(bytes);
    let (token, next) = scan(bytes, offset);
    lemma_scan_progress(bytes, offset);
    lemma_token_stream_ends_in_single_eof(bytes, 0);
    lemma_token_stream_ends_in_single_eof(bytes, next);
    lemma_scan_progress(bytes, bytes.len() as int);
    assert(token_stream_from(bytes, bytes.len() as int) =~= seq![TokenView::Eof]);
    if token == TokenView::Eof {
        assert(token_stream_from(bytes, offset) =~= seq![token]);
        if count < ts.len() {
            assert(ts.skip(count).len() == 1);
            assert(ts.skip(count)[0] == ts[count]);
        }
    } else {
        assert(token_stream_from(bytes, offset) =~= seq![token] + token_stream_from(bytes, next));
        assert(count < ts.len());
        assert(ts.skip(count)[0] == ts[count]);
        assert(token_stream_from(bytes, next) =~= ts.skip(count + 1)) by {
            assert forall|i: int| 0 <= i < ts.len() - count - 1 implies token_stream_from(
                bytes,
                next,
            )[i] == ts.skip(count + 1)[i] by {
                assert(ts.skip(count)[i + 1] == (seq![token] + token_stream_from(bytes, next))[i
                    + 1]);
            }
        }
    }
}

/// A cursor over the bytes of a source text. It hands out the tokens of the
/// source one by one and cannot be rewound.
pub struct Lexer<'l> {
    src: &'l str,
    position: usize,
    ch: Option<u8>,
}

impl<'l> Lexer<'l> {
    /// The bytes of the source text.
    pub closed spec fn source(&self) -> Seq<u8> {
        self.src.spec_bytes()
    }

    /// The byte offset of the cursor.
    pub closed spec fn offset(&self) -> int {
        self.position as int
    }

    /// The cursor lies within the source and the current byte is the one
    /// under the cursor.
    pub closed spec fn wf(&self) -> bool {
        &&& self.position <= self.src.spec_bytes().len()
        &&& self.ch == byte_at(self.src.spec_bytes(), self.position as int)
    }

    /// A tokenizer at the start of `source_code`.
    pub fn new(source_code: &'l str) -> (lexer: Lexer<'l>)
        ensures
            lexer.wf(),
            lexer.source() == source_code.spec_bytes(),
            lexer.offset() == 0,
    {
        let src = source_code.as_bytes();
        let ch = if src.len() > 0 {
            Some(src[0])
        } else {
            None
        };
        Lexer { src: source_code, position: 0, ch }
    }

    /// The next token of the source. Once the source is exhausted every call
    /// gives `Eof`.
    pub fn next_token(&mut self) -> (token: Token)
        requires
            old(self).wf(),
        ensures
            final(self).wf(),
            final(self).source() == old(self).source(),
            (token@, final(self).offset()) == scan(old(self).source(), old(self).offset()),
    {
        self.skip_whitespace();
        let b = match self.ch {
            None => {
                return Token::Eof;
            },
            Some(b) => b,
        };
        if is_letter_byte(b) {
            return Token::from_word(self.read_ident());
        }
        if is_digit_byte(b) {
            return Token::Int(self.read_num().to_owned());
        }
        let token = if b == '=' as u8 {
            if self.peek() == Some('=' as u8) {
                self.step();
                Token::Equal
            } else {
                Token::Assign
            }
        } else if b == '!' as u8 {
            if self.peek() == Some('=' as u8) {
                self.step();
                Token::NotEqual
            } else {
                Token::Bang
            }
        } else if b == ',' as u8 {
            Token::Comma
        } else if b == ';' as u8 {
            Token::Semicolon
        } else if b == '(' as u8 {
            Token::OpenParen
        } else if b == ')' as u8 {
            Token::CloseParen
        } else if b == '{' as u8 {
            Token::OpenCurly
        } else if b == '}' as u8 {
            Token::CloseCurly
        } else if b == '+' as u8 {
            Token::Plus
        } else if b == '-' as u8 {
            Token::Minus
        } else if b == '*' as u8 {
            Token::Asterisk
        } else if b == '/' as u8 {
            Token::Slash
        } else if b == '<' as u8 {
            Token::LessThan
        } else if b == '>' as u8 {
            Token::GreaterThan
        } else {
            Token::Illegal
        };
        self.step();
        token
    }

    /// The cursor never leaves the source.
    pub proof fn lemma_offset_in_source(&self)
        requires
            self.wf(),
        ensures
            0 <= self.offset() <= self.source().len(),
    {
    }

    /// Moves the cursor one byte on, unless it is at the end already.
    fn step(&mut self)
        requires
            old(self).wf(),
        ensures
            final(self).wf(),
            final(self).source() == old(self).source(),
            final(self).offset() == if old(self).offset() < old(self).source().len() {
                old(self).offset() + 1
            } else {
                old(self).offset()
            },
    {
        let src = self.src.as_bytes();
        if self.position < src.len() {
            self.position += 1;
        }
        if self.position >= src.len() {
            self.ch = None;
        } else {
            self.ch = Some(src[self.position]);
        }
    }

    /// The byte after the one under the cursor, if there is one.
    fn peek(&self) -> (b: Option<u8>)
        requires
            self.wf(),
        ensures
            b == byte_at(self.source(), self.offset() + 1),
    {
        let src = self.src.as_bytes();
        if self.position >= src.len() || self.position + 1 >= src.len() {
            None
        } else {
            Some(src[self.position + 1])
        }
    }

    /// Moves the cursor past the whitespace under it.
    fn skip_whitespace(&mut self)
        requires
            old(self).wf(),
        ensures
            final(self).wf(),
            final(self).source() == old(self).source(),
            final(self).offset() == run_end(
                old(self).source(),
                old(self).offset(),
                ByteClass::Whitespace,
            ),
    {
        loop
            invariant
                self.wf(),
                self.source() == old(self).source(),
                run_end(self.source(), self.offset(), ByteClass::Whitespace) == run_end(
                    old(self).source(),
                    old(self).offset(),
                    ByteClass::Whitespace,
                ),
            ensures
                self.wf(),
                self.source() == old(self).source(),
                self.offset() == run_end(
                    old(self).source(),
                    old(self).offset(),
                    ByteClass::Whitespace,
                ),
            decreases self.source().len() - self.offset(),
        {
            match self.ch {
                Some(b) => {
                    if is_whitespace_byte(b) {
                        self.step();
                    } else {
                        break;
                    }
                },
                None => {
                    break;
                },
            }
        }
    }

    /// Reads the identifier or keyword under the cursor and moves past it.
    fn read_ident(&mut self) -> (word: &'l str)
        requires
            old(self).wf(),
        ensures
            final(self).wf(),
            final(self).source() == old(self).source(),
            final(self).offset() == run_end(
                old(self).source(),
                old(self).offset(),
                ByteClass::Letter,
            ),
            word@ == ascii_chars(
                old(self).source().subrange(old(self).offset(), final(self).offset()),
            ),
    {
        let pos = self.position;
        loop
            invariant
                self.wf(),
                self.source() == old(self).source(),
                pos == old(self).offset(),
                pos <= self.offset(),
                forall|i: int| pos <= i < self.offset() ==> is_letter(#[trigger] self.source()[i]),
                run_end(self.source(), self.offset(), ByteClass::Letter) == run_end(
                    old(self).source(),
                    old(self).offset(),
                    ByteClass::Letter,
                ),
            ensures
                self.wf(),
                self.source() == old(self).source(),
                pos == old(self).offset(),
                pos <= self.offset(),
                forall|i: int| pos <= i < self.offset() ==> is_letter(#[trigger] self.source()[i]),
                self.offset() == run_end(
                    old(self).source(),
                    old(self).offset(),
                    ByteClass::Letter,
                ),
            decreases self.source().len() - self.offset(),
        {
            match self.ch {
                Some(b) => {
                    if is_letter_byte(b) {
                        self.step();
                    } else {
                        break;
                    }
                },
                None => {
                    break;
                },
            }
        }
        proof {
            let run = self.source().subrange(pos as int, self.offset());
            assert forall|i: int| 0 <= i < run.len() implies #[trigger] run[i] < 0x80 by {
                assert(is_letter(self.source()[pos + i]));
            }
        }
        ascii_slice(self.src, pos, self.position)
    }

    /// Reads the run of digits under the cursor and moves past it.
    fn read_num(&mut self) -> (digits: &'l str)
        requires
            old(self).wf(),
        ensures
            final(self).wf(),
            final(self).source() == old(self).source(),
            final(self).offset() == run_end(old(self).source(), old(self).offset(), ByteClass::Digit),
            digits@ == ascii_chars(
                old(self).source().subrange(old(self).offset(), final(self).offset()),
            ),
    {
        let pos = self.position;
        loop
            invariant
                self.wf(),
                self.source() == old(self).source(),
                pos == old(self).offset(),
                pos <= self.offset(),
                forall|i: int| pos <= i < self.offset() ==> is_digit(#[trigger] self.source()[i]),
                run_end(self.source(), self.offset(), ByteClass::Digit) == run_end(
                    old(self).source(),
                    old(self).offset(),
                    ByteClass::Digit,
                ),
            ensures
                self.wf(),
                self.source() == old(self).source(),
                pos == old(self).offset(),
                pos <= self.offset(),
                forall|i: int| pos <= i < self.offset() ==> is_digit(#[trigger] self.source()[i]),
                self.offset() == run_end(old(self).source(), old(self).offset(), ByteClass::Digit),
            decreases self.source().len() - self.offset(),
        {
            match self.ch {
                Some(b) => {
                    if is_digit_byte(b) {
                        self.step();
                    } else {
                        break;
                    }
                },
                None => {
                    break;
                },
            }
        }
        proof {
            let run = self.source().subrange(pos as int, self.offset());
            assert forall|i: int| 0 <= i < run.len() implies #[trigger] run[i] < 0x80 by {
                assert(is_digit(self.source()[pos + i]));
            }
        }
        ascii_slice(self.src, pos, self.position)
    }
}

/// The mathematical values of a run of tokens.
pub open spec fn token_views(tokens: Seq<Token>) -> Seq<TokenView> {
    Seq::new(tokens.len(), |i: int| tokens[i]@)
}

/// All the tokens of `source_code`, in order, `Eof` last.
pub fn tokenize(source_code: &str) -> (tokens: Vec<Token>)
    ensures
        token_views(tokens@) == token_stream(source_code.spec_bytes()),
{
    let mut lexer = Lexer::new(source_code);
    let mut tokens: Vec<Token> = Vec::new();
    let ghost bytes = source_code.spec_bytes();
    loop
        invariant_except_break
            token_views(tokens@) + token_stream_from(bytes, lexer.offset()) == token_stream(bytes),
        invariant
            lexer.wf(),
            lexer.source() == bytes,
        ensures
            token_views(tokens@) == token_stream(bytes),
        decreases bytes.len() - lexer.offset(),
    {
        let ghost before = token_views(tokens@);
        let ghost pos = lexer.offset();
        proof {
            lexer.lemma_offset_in_source();
        }
        let token = lexer.next_token();
        let at_end = token.is(&Token::Eof);
        proof {
            lemma_scan_progress(bytes, pos);
        }
        tokens.push(token);
        proof {
            assert(token_views(tokens@) =~= before + seq![token@]);
            if at_end {
                assert(token_stream_from(bytes, pos) =~= seq![token@]);
            } else {
                assert(token_stream_from(bytes, pos) =~= seq![token@] + token_stream_from(
                    bytes,
                    lexer.offset(),
                ));
                assert(before + (seq![token@] + token_stream_from(bytes, lexer.offset())) =~= (
                before + seq![token@]) + token_stream_from(bytes, lexer.offset()));
            }
        }
        if at_end {
            break;
        }
    }
    tokens
}

fn is_whitespace_byte(b: u8) -> (r: bool)
    ensures
        r == is_whitespace(b),
{
    b == ' ' as u8 || b == '\t' as u8 || b == '\n' as u8 || b == '\x0c' as u8 || b == '\r' as u8
}

fn is_letter_byte(b: u8) -> (r: bool)
    ensures
        r == is_letter(b),
{
    ('a' as u8 <= b && b <= 'z' as u8) || ('A' as u8 <= b && b <= 'Z' as u8) || b == '_' as u8
}

fn is_digit_byte(b: u8) -> (r: bool)
    ensures
        r == is_digit(b),
{
    '0' as u8 <= b && b <= '9' as u8
}

} // verus!
