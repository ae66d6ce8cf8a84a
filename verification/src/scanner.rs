//! The lexer: from source text to tokens, one at a time.
//!
//! Positions count characters from the start of the source, so no token can
//! begin or end inside a character that takes several bytes.
use vstd::prelude::*;
use vstd::string::*;
use crate::text::{from_chars, spells, to_chars};
use crate::token::{keyword, lemma_keyword_spelling, Token, TokenType, TokenTypeView, TokenView};

verus! {

/// A decimal digit.
pub open spec fn is_digit(c: char) -> bool {
    '0' <= c <= '9'
}

/// A letter of the Latin alphabet or an underscore.
pub open spec fn is_alpha(c: char) -> bool {
    'a' <= c <= 'z' || 'A' <= c <= 'Z' || c == '_'
}

/// What a word is made of after its first character.
pub open spec fn is_alnum(c: char) -> bool {
    is_alpha(c) || is_digit(c)
}

/// A blank, a tab, a carriage return or a line break.
pub open spec fn is_space(c: char) -> bool {
    c == ' ' || c == '\r' || c == '\t' || c == '\n'
}

/// How many line breaks stand before position `upto`.
pub open spec fn newlines(src: Seq<char>, upto: int) -> nat
    decreases upto,
{
    if upto <= 0 || upto > src.len() {
        0
    } else {
        newlines(src, upto - 1) + if src[upto - 1] == '\n' {
            1nat
        } else {
            0nat
        }
    }
}

/// The line that position `pos` is on; the first line is line 1.
pub open spec fn line_at(src: Seq<char>, pos: int) -> nat {
    1 + newlines(src, pos)
}

/// The first position at or after `pos` that is neither blank nor inside a
/// comment, or the length of the source if there is none. A comment runs from
/// `#` to the end of its line.
pub open spec fn skip(src: Seq<char>, pos: int, in_comment: bool) -> int
    decreases src.len() - pos, if in_comment { 1int } else { 0int },
{
    if pos < 0 || pos >= src.len() {
        pos
    } else if in_comment {
        if src[pos] == '\n' {
            skip(src, pos, false)
        } else {
            skip(src, pos + 1, true)
        }
    } else if is_space(src[pos]) {
        skip(src, pos + 1, false)
    } else if src[pos] == '#' {
        skip(src, pos + 1, true)
    } else {
        pos
    }
}

/// The position of the first quote at or after `pos`, or the length of the
/// source if there is none.
pub open spec fn quote_at(src: Seq<char>, pos: int) -> int
    decreases src.len() - pos,
{
    if pos < 0 || pos >= src.len() {
        src.len() as int
    } else if src[pos] == '\'' {
        pos
    } else {
        quote_at(src, pos + 1)
    }
}

/// Where the longest run of digits from `pos` on ends.
pub open spec fn digits_end(src: Seq<char>, pos: int) -> int
    decreases src.len() - pos,
{
    if 0 <= pos < src.len() && is_digit(src[pos]) {
        digits_end(src, pos + 1)
    } else {
        pos
    }
}

/// Where the longest run of letters, digits and underscores from `pos` on ends.
pub open spec fn word_end(src: Seq<char>, pos: int) -> int
    decreases src.len() - pos,
{
    if 0 <= pos < src.len() && is_alnum(src[pos]) {
        word_end(src, pos + 1)
    } else {
        pos
    }
}

/// Where the number literal that starts at `start` ends: after its digits,
/// and after a point and more digits where a digit follows the point.
pub open spec fn number_end(src: Seq<char>, start: int) -> int {
    let whole = digits_end(src, start);
    if whole + 1 < src.len() && src[whole] == '.' && is_digit(src[whole + 1]) {
        digits_end(src, whole + 1)
    } else {
        whole
    }
}

/// The kind that one or two characters of punctuation make: `c` followed by
/// `=` (for `!`, `=`, `<`, `>`) or by itself (for `&`, `|`) where `paired`
/// holds, `c` alone where it does not.
pub open spec fn punctuation(c: char, paired: bool) -> Option<TokenTypeView> {
    if c == '(' {
        Some(TokenTypeView::LeftParen)
    } else if c == ')' {
        Some(TokenTypeView::RightParen)
    } else if c == '{' {
        Some(TokenTypeView::LeftBrace)
    } else if c == '}' {
        Some(TokenTypeView::RightBrace)
    } else if c == ';' {
        Some(TokenTypeView::Semicolon)
    } else if c == ',' {
        Some(TokenTypeView::Comma)
    } else if c == '.' {
        Some(TokenTypeView::Dot)
    } else if c == '-' {
        Some(TokenTypeView::Minus)
    } else if c == '+' {
        Some(TokenTypeView::Plus)
    } else if c == '/' {
        Some(TokenTypeView::Slash)
    } else if c == '*' {
        Some(TokenTypeView::Star)
    } else if c == '%' {
        Some(TokenTypeView::Mod)
    } else if c == '!' {
        Some(if paired { TokenTypeView::BangEqual } else { TokenTypeView::Bang })
    } else if c == '=' {
        Some(if paired { TokenTypeView::EqualEqual } else { TokenTypeView::Equal })
    } else if c == '<' {
        Some(if paired { TokenTypeView::LessEqual } else { TokenTypeView::Less })
    } else if c == '>' {
        Some(if paired { TokenTypeView::GreaterEqual } else { TokenTypeView::Greater })
    } else if c == '&' {
        Some(if paired { TokenTypeView::LogicalAnd } else { TokenTypeView::BitwiseAnd })
    } else if c == '|' {
        Some(if paired { TokenTypeView::LogicalOr } else { TokenTypeView::BitwiseOr })
    } else {
        None
    }
}

/// The character that makes a pair with `c`, for the characters that start a
/// two-character token.
pub open spec fn partner(c: char) -> Option<char> {
    if c == '!' || c == '=' || c == '<' || c == '>' {
        Some('=')
    } else if c == '&' || c == '|' {
        Some(c)
    } else {
        None
    }
}

/// Whether the character at `start` is followed by its partner.
pub open spec fn paired(src: Seq<char>, start: int) -> bool {
    partner(src[start]) matches Some(p) && start + 1 < src.len() && src[start + 1] == p
}

/// The message of the token for a string that is not closed.
pub open spec fn unterminated_string() -> Seq<char> {
    "Unterminated string"@
}

/// The message of the token for a character that starts no token.
pub open spec fn unexpected_character() -> Seq<char> {
    "Unexpected character"@
}

/// The token that starts at `start`, which holds neither a blank nor the
/// start of a comment, and where the token ends. The longest match wins.
pub open spec fn lex(src: Seq<char>, start: int) -> (TokenTypeView, int) {
    let c = src[start];
    if punctuation(c, paired(src, start)) is Some {
        (
            punctuation(c, paired(src, start))->0,
            if paired(src, start) {
                start + 2
            } else {
                start + 1
            },
        )
    } else if c == '\'' {
        let close = quote_at(src, start + 1);
        if close >= src.len() {
            (TokenTypeView::Error(unterminated_string()), src.len() as int)
        } else {
            (TokenTypeView::String(src.subrange(start + 1, close)), close + 1)
        }
    } else if is_digit(c) {
        let end = number_end(src, start);
        (TokenTypeView::Number(src.subrange(start, end)), end)
    } else if is_alpha(c) {
        let end = word_end(src, start);
        let text = src.subrange(start, end);
        match keyword(text) {
            Some(k) => (k, end),
            None => (TokenTypeView::Identifier(text), end),
        }
    } else {
        (TokenTypeView::Error(unexpected_character()), start + 1)
    }
}

/// The length that a token records: that of its text in the source, or, for
/// an error, that of the message.
pub open spec fn recorded_len(kind: TokenTypeView, start: int, end: int) -> int {
    match kind {
        TokenTypeView::Error(message) => message.len() as int,
        _ => end - start,
    }
}

/// The next token at or after `pos` and the position behind it, or `None`
/// where only blanks and comments are left.
pub open spec fn next_token(src: Seq<char>, pos: int) -> Option<(TokenView, int)> {
    let start = skip(src, pos, false);
    if start >= src.len() {
        None
    } else {
        let (kind, end) = lex(src, start);
        Some(
            (
                TokenView {
                    token_type: kind,
                    line: line_at(src, end) as usize,
                    col: start as usize,
                    len: recorded_len(kind, start, end) as usize,
                },
                end,
            ),
        )
    }
}

/// All the tokens from `pos` on, in order.
pub open spec fn tokens_from(src: Seq<char>, pos: int) -> Seq<TokenView>
    decreases src.len() - pos,
{
    match next_token(src, pos) {
        Some((token, end)) => if pos < end <= src.len() {
            seq![token] + tokens_from(src, end)
        } else {
            seq![token]
        },
        None => Seq::empty(),
    }
}

/// The digits of the number literals among the tokens, in order.
pub open spec fn numeral_texts(tokens: Seq<TokenView>) -> Seq<Seq<char>>
    decreases tokens.len(),
{
    if tokens.len() == 0 {
        Seq::empty()
    } else {
        let before = numeral_texts(tokens.drop_last());
        match tokens.last().token_type {
            TokenTypeView::Number(digits) => before.push(digits),
            _ => before,
        }
    }
}

/// The number literals of a source as they are written, in order. The
/// compiler takes their values in this order.
pub fn numerals(source: String) -> (r: Vec<String>)
    requires
        source@.len() < usize::MAX,
    ensures
        r@.len() == numeral_texts(tokens_from(source@, 0)).len(),
        forall|i: int|
            0 <= i < r@.len() ==> (#[trigger] r@[i])@ == numeral_texts(tokens_from(source@, 0))[i],
{
    let mut scanner = Scanner::new(source);
    let tokens = scanner.scan_all();
    let ghost all = tokens_from(source@, 0);
    let mut out: Vec<String> = Vec::new();
    let mut i: usize = 0;
    while i < tokens.len()
        invariant
            i <= tokens.len() == all.len(),
            forall|k: int| 0 <= k < tokens@.len() ==> (#[trigger] tokens@[k])@ == all[k],
            out@.len() == numeral_texts(all.take(i as int)).len(),
            forall|k: int|
                0 <= k < out@.len() ==> (#[trigger] out@[k])@ == numeral_texts(
                    all.take(i as int),
                )[k],
        decreases tokens.len() - i,
    {
        assert(all.take(i + 1).drop_last() =~= all.take(i as int));
        assert(all.take(i + 1).last() == tokens@[i as int]@);
        match &tokens[i].token_type {
            TokenType::Number(digits) => {
                out.push(digits.clone());
            },
            _ => {},
        }
        i += 1;
    }
    assert(all.take(i as int) =~= all);
    out
}

/// A lexer over one source text.
pub struct Scanner {
    source: Vec<char>,
    start: usize,
    pos: usize,
    line: usize,
}

pub ghost struct ScannerView {
    pub source: Seq<char>,
    pub pos: int,
}

impl Scanner {
    /// The source and how far the lexer has read.
    pub closed spec fn view(&self) -> ScannerView {
        ScannerView { source: self.source@, pos: self.pos as int }
    }

    /// The lexer is inside its source and knows which line it is on.
    pub closed spec fn wf(&self) -> bool {
        &&& self.start <= self.pos <= self.source.len() < usize::MAX
        &&& self.line == line_at(self.source@, self.pos as int)
    }

    /// A lexer at the start of the given text, on line 1.
    pub fn new(source: String) -> (s: Scanner)
        requires
            source@.len() < usize::MAX,
        ensures
            s@ == (ScannerView { source: source@, pos: 0 }),
            s.wf(),
    {
        Scanner { source: to_chars(source.as_str()), start: 0, pos: 0, line: 1 }
    }

    /// The rest of the tokens, in order.
    #[verifier::rlimit(50)]
    pub fn scan_all(&mut self) -> (tokens: Vec<Token>)
        requires
            old(self).wf(),
        ensures
            final(self).wf(),
            final(self)@.source == old(self)@.source,
            tokens@.len() == tokens_from(old(self)@.source, old(self)@.pos).len(),
            forall|i: int|
                0 <= i < tokens@.len() ==> (#[trigger] tokens@[i])@ == tokens_from(
                    old(self)@.source,
                    old(self)@.pos,
                )[i],
            next_token(final(self)@.source, final(self)@.pos) is None,
    {
        let mut tokens: Vec<Token> = Vec::new();
        let ghost src = self.source@;
        let ghost all = tokens_from(src, self.pos as int);
        loop
            invariant
                self.wf(),
                self.source@ == src,
                all == tokens_from(old(self)@.source, old(self)@.pos),
                tokens@.len() + tokens_from(src, self.pos as int).len() == all.len(),
                forall|i: int| 0 <= i < tokens@.len() ==> (#[trigger] tokens@[i])@ == all[i],
                forall|i: int|
                    0 <= i < tokens_from(src, self.pos as int).len() ==> tokens_from(
                        src,
                        self.pos as int,
                    )[i] == all[tokens@.len() + i],
            ensures
                self.wf(),
                self.source@ == src,
                tokens@.len() == all.len(),
                forall|i: int| 0 <= i < tokens@.len() ==> (#[trigger] tokens@[i])@ == all[i],
                next_token(src, self.pos as int) is None,
            decreases self.source.len() - self.pos,
        {
            let ghost before = self.pos as int;
            let ghost rest = tokens_from(src, before);
            match self.next() {
                Some(token) => {
                    proof {
                        let after = tokens_from(src, self.pos as int);
                        assert(rest == seq![token@] + after);
                        assert(rest[0] == token@);
                        assert forall|i: int| 0 <= i < after.len() implies after[i] == all[tokens@.len()
                            + 1 + i] by {
                            assert(after[i] == rest[i + 1]);
                        }
                    }
                    tokens.push(token);
                },
                None => {
                    assert(rest.len() == 0);
                    break ;
                },
            }
        }
        tokens
    }

    /// Skips blanks and comments and reads the next token; `None` at the end
    /// of the input. The token is the longest that starts there; it records
    /// the line it ends on, the offset of its first character and its length.
    #[verifier::rlimit(50)]
    pub fn next(&mut self) -> (r: Option<Token>)
        requires
            old(self).wf(),
        ensures
            final(self).wf(),
            final(self)@.source == old(self)@.source,
            old(self)@.pos <= final(self)@.pos <= final(self)@.source.len(),
            match next_token(old(self)@.source, old(self)@.pos) {
                Some((token, end)) => r matches Some(t) && t@ == token && final(self)@.pos == end
                    && old(self)@.pos < end,
                None => r is None && next_token(final(self)@.source, final(self)@.pos) is None,
            },
    {
        let ghost src = self.source@;
        self.skip_whitespace();
        self.start = self.pos;
        if self.eof() {
            proof {
                lemma_skip_idempotent(src, old(self).pos as int, false);
            }
            return None;
        }
        proof {
            lemma_skip_lands(src, old(self).pos as int, false);
        }
        let c = self.advance();
        let ghost start = self.start as int;
        assert(start == skip(src, old(self).pos as int, false));
        let token = if let Some(token_type) = self.punctuation(c) {
            let t = self.make_token(token_type);
            assert(lex(src, start) == (t@.token_type, self.pos as int));
            t
        } else if c == '\'' {
            let t = self.string();
            assert(lex(src, start) == (t@.token_type, self.pos as int));
            t
        } else if c >= '0' && c <= '9' {
            let t = self.number();
            assert(lex(src, start) == (t@.token_type, self.pos as int));
            t
        } else if (c >= 'a' && c <= 'z') || (c >= 'A' && c <= 'Z') || c == '_' {
            let t = self.identifier();
            assert(lex(src, start) == (t@.token_type, self.pos as int));
            t
        } else {
            let t = self.error("Unexpected character");
            assert(lex(src, start) == (t@.token_type, self.pos as int));
            t
        };
        assert(token@.line == line_at(src, self.pos as int));
        assert(token@.col == start);
        assert(next_token(src, old(self).pos as int) == Some((token@, self.pos as int)));
        Some(token)
    }

    /// The punctuation token that starts with the character `c`, which has
    /// just been consumed: its partner is consumed too where it follows.
    fn punctuation(&mut self, c: char) -> (r: Option<TokenType>)
        requires
            old(self).wf(),
            old(self).pos == old(self).start + 1,
            c == old(self).source@[old(self).start as int],
        ensures
            final(self).wf(),
            final(self).source == old(self).source,
            final(self).start == old(self).start,
            ({
                let pair = paired(old(self).source@, old(self).start as int);
                match punctuation(c, pair) {
                    Some(kind) => r matches Some(t) && t@ == kind && final(self).pos == old(
                        self,
                    ).start + if pair { 2int } else { 1int },
                    None => r is None && final(self).pos == old(self).pos,
                }
            }),
    {
        if c == '(' {
            Some(TokenType::LeftParen)
        } else if c == ')' {
            Some(TokenType::RightParen)
        } else if c == '{' {
            Some(TokenType::LeftBrace)
        } else if c == '}' {
            Some(TokenType::RightBrace)
        } else if c == ';' {
            Some(TokenType::Semicolon)
        } else if c == ',' {
            Some(TokenType::Comma)
        } else if c == '.' {
            Some(TokenType::Dot)
        } else if c == '-' {
            Some(TokenType::Minus)
        } else if c == '+' {
            Some(TokenType::Plus)
        } else if c == '/' {
            Some(TokenType::Slash)
        } else if c == '*' {
            Some(TokenType::Star)
        } else if c == '%' {
            Some(TokenType::Mod)
        } else if c == '!' {
            Some(if self.matches('=') { TokenType::BangEqual } else { TokenType::Bang })
        } else if c == '=' {
            Some(if self.matches('=') { TokenType::EqualEqual } else { TokenType::Equal })
        } else if c == '<' {
            Some(if self.matches('=') { TokenType::LessEqual } else { TokenType::Less })
        } else if c == '>' {
            Some(if self.matches('=') { TokenType::GreaterEqual } else { TokenType::Greater })
        } else if c == '&' {
            Some(if self.matches('&') { TokenType::LogicalAnd } else { TokenType::BitwiseAnd })
        } else if c == '|' {
            Some(if self.matches('|') { TokenType::LogicalOr } else { TokenType::BitwiseOr })
        } else {
            None
        }
    }

    /// A token of the given kind that runs from the start of the lexeme to the
    /// current position.
    fn make_token(&self, token_type: TokenType) -> (t: Token)
        requires
            self.wf(),
        ensures
            t@ == (TokenView {
                token_type: token_type@,
                line: self.line,
                col: self.start,
                len: (self.pos - self.start) as usize,
            }),
    {
        let len = self.pos - self.start;
        Token::new(token_type, self.line, self.start, len)
    }

    /// An error token that carries the message; its length is that of the
    /// message.
    fn error(&self, msg: &str) -> (t: Token)
        requires
            self.wf(),
        ensures
            t@ == (TokenView {
                token_type: TokenTypeView::Error(msg@),
                line: self.line,
                col: self.start,
                len: msg@.len() as usize,
            }),
    {
        Token::new(TokenType::Error(msg.to_owned()), self.line, self.start, msg.unicode_len())
    }

    /// The character at the current position.
    fn peek(&self) -> (c: char)
        requires
            self.wf(),
            self.pos < self.source.len(),
        ensures
            c == self.source@[self.pos as int],
    {
        self.source[self.pos]
    }

    /// Consumes the character at the current position and returns it,
    /// counting the line break if it is one.
    fn advance(&mut self) -> (c: char)
        requires
            old(self).wf(),
            old(self).pos < old(self).source.len(),
        ensures
            final(self).wf(),
            c == old(self).source@[old(self).pos as int],
            final(self).pos == old(self).pos + 1,
            final(self).start == old(self).start,
            final(self).source == old(self).source,
    {
        let c = self.peek();
        proof {
            lemma_newlines_bound(self.source@, self.pos as int);
        }
        if c == '\n' {
            self.line += 1;
        }
        self.pos += 1;
        c
    }

    /// Consumes the next character if it is the expected one, and says
    /// whether it was.
    fn matches(&mut self, expected: char) -> (r: bool)
        requires
            old(self).wf(),
        ensures
            final(self).wf(),
            r == (old(self).pos < old(self).source.len() && old(self).source@[old(self).pos as int]
                == expected),
            final(self).pos == old(self).pos + if r { 1int } else { 0int },
            final(self).start == old(self).start,
            final(self).source == old(self).source,
    {
        if self.eof() {
            false
        } else if self.peek() != expected {
            false
        } else {
            self.advance();
            true
        }
    }

    /// Reads a string literal whose opening quote has been consumed: up to the
    /// closing quote, or to the end of the input, which is an error.
    fn string(&mut self) -> (t: Token)
        requires
            old(self).wf(),
            old(self).pos == old(self).start + 1,
        ensures
            final(self).wf(),
            final(self).source == old(self).source,
            final(self).start == old(self).start,
            final(self).pos > old(self).start,
            ({
                let src = old(self).source@;
                let close = quote_at(src, old(self).pos as int);
                if close >= src.len() {
                    &&& final(self).pos == src.len()
                    &&& t@ == (TokenView {
                        token_type: TokenTypeView::Error(unterminated_string()),
                        line: final(self).line,
                        col: old(self).start,
                        len: unterminated_string().len() as usize,
                    })
                } else {
                    &&& final(self).pos == close + 1
                    &&& t@ == (TokenView {
                        token_type: TokenTypeView::String(src.subrange(old(self).pos as int, close)),
                        line: final(self).line,
                        col: old(self).start,
                        len: (close + 1 - old(self).start) as usize,
                    })
                }
            }),
    {
        let first = self.pos;
        while !self.eof() && self.peek() != '\''
            invariant
                self.wf(),
                self.source == old(self).source,
                self.start == old(self).start,
                first <= self.pos <= self.source.len(),
                quote_at(self.source@, self.pos as int) == quote_at(self.source@, first as int),
            decreases self.source.len() - self.pos,
        {
            self.advance();
        }
        if self.eof() {
            self.error("Unterminated string")
        } else {
            let close = self.pos;
            self.advance();
            let contents = from_chars(&self.source, first, close);
            self.make_token(TokenType::String(contents))
        }
    }

    /// Reads the rest of a number literal whose first digit has been consumed.
    fn number(&mut self) -> (t: Token)
        requires
            old(self).wf(),
            old(self).pos == old(self).start + 1,
            is_digit(old(self).source@[old(self).start as int]),
        ensures
            final(self).wf(),
            final(self).source == old(self).source,
            final(self).start == old(self).start,
            final(self).pos == number_end(old(self).source@, old(self).start as int),
            final(self).pos > old(self).start,
            t@ == (TokenView {
                token_type: TokenTypeView::Number(
                    old(self).source@.subrange(old(self).start as int, final(self).pos as int),
                ),
                line: final(self).line,
                col: old(self).start,
                len: (final(self).pos - old(self).start) as usize,
            }),
    {
        self.digits();
        if self.pos + 1 < self.source.len() && self.source[self.pos] == '.' && self.source[self.pos
            + 1] >= '0' && self.source[self.pos + 1] <= '9' {
            self.advance();
            self.digits();
        }
        let digits = from_chars(&self.source, self.start, self.pos);
        self.make_token(TokenType::Number(digits))
    }

    /// Consumes digits as long as there are any.
    fn digits(&mut self)
        requires
            old(self).wf(),
        ensures
            final(self).wf(),
            final(self).source == old(self).source,
            final(self).start == old(self).start,
            final(self).pos == digits_end(old(self).source@, old(self).pos as int),
            final(self).pos >= old(self).pos,
    {
        while !self.eof() && self.peek() >= '0' && self.peek() <= '9'
            invariant
                self.wf(),
                self.source == old(self).source,
                self.start == old(self).start,
                old(self).pos <= self.pos,
                digits_end(self.source@, self.pos as int) == digits_end(
                    self.source@,
                    old(self).pos as int,
                ),
            decreases self.source.len() - self.pos,
        {
            self.advance();
        }
    }

    /// Reads the rest of a word whose first character has been consumed: a
    /// reserved word if it spells one, an identifier otherwise.
    fn identifier(&mut self) -> (t: Token)
        requires
            old(self).wf(),
            old(self).pos == old(self).start + 1,
            is_alpha(old(self).source@[old(self).start as int]),
        ensures
            final(self).wf(),
            final(self).source == old(self).source,
            final(self).start == old(self).start,
            final(self).pos == word_end(old(self).source@, old(self).start as int),
            final(self).pos > old(self).start,
            ({
                let text = old(self).source@.subrange(
                    old(self).start as int,
                    final(self).pos as int,
                );
                t@ == (TokenView {
                    token_type: match keyword(text) {
                        Some(k) => k,
                        None => TokenTypeView::Identifier(text),
                    },
                    line: final(self).line,
                    col: old(self).start,
                    len: (final(self).pos - old(self).start) as usize,
                })
            }),
    {
        while !self.eof() && Self::word_char(self.peek())
            invariant
                self.wf(),
                self.source == old(self).source,
                self.start == old(self).start,
                old(self).pos <= self.pos,
                word_end(self.source@, self.pos as int) == word_end(
                    self.source@,
                    old(self).start as int,
                ),
            decreases self.source.len() - self.pos,
        {
            self.advance();
        }
        let token_type = self.word_kind();
        self.make_token(token_type)
    }

    fn word_char(c: char) -> (r: bool)
        ensures
            r == is_alnum(c),
    {
        (c >= 'a' && c <= 'z') || (c >= 'A' && c <= 'Z') || c == '_' || (c >= '0' && c <= '9')
    }

    /// The kind of the word from the start of the lexeme to the current
    /// position.
    fn word_kind(&self) -> (r: TokenType)
        requires
            self.wf(),
        ensures
            ({
                let text = self.source@.subrange(self.start as int, self.pos as int);
                r@ == match keyword(text) {
                    Some(k) => k,
                    None => TokenTypeView::Identifier(text),
                }
            }),
    {
        proof {
            reveal_strlit("and");
            reveal_strlit("class");
            reveal_strlit("else");
            reveal_strlit("false");
            reveal_strlit("for");
            reveal_strlit("fn");
            reveal_strlit("if");
            reveal_strlit("nil");
            reveal_strlit("or");
            reveal_strlit("print");
            reveal_strlit("return");
            reveal_strlit("super");
            reveal_strlit("this");
            reveal_strlit("true");
            reveal_strlit("var");
            reveal_strlit("while");
            assert("and"@ =~= seq!['a', 'n', 'd']);
            assert("class"@ =~= seq!['c', 'l', 'a', 's', 's']);
            assert("else"@ =~= seq!['e', 'l', 's', 'e']);
            assert("false"@ =~= seq!['f', 'a', 'l', 's', 'e']);
            assert("for"@ =~= seq!['f', 'o', 'r']);
            assert("fn"@ =~= seq!['f', 'n']);
            assert("if"@ =~= seq!['i', 'f']);
            assert("nil"@ =~= seq!['n', 'i', 'l']);
            assert("or"@ =~= seq!['o', 'r']);
            assert("print"@ =~= seq!['p', 'r', 'i', 'n', 't']);
            assert("return"@ =~= seq!['r', 'e', 't', 'u', 'r', 'n']);
            assert("super"@ =~= seq!['s', 'u', 'p', 'e', 'r']);
            assert("this"@ =~= seq!['t', 'h', 'i', 's']);
            assert("true"@ =~= seq!['t', 'r', 'u', 'e']);
            assert("var"@ =~= seq!['v', 'a', 'r']);
            assert("while"@ =~= seq!['w', 'h', 'i', 'l', 'e']);
        }
        let s = &self.source;
        let a = self.start;
        let b = self.pos;
        if spells(s, a, b, "and") {
            TokenType::And
        } else if spells(s, a, b, "class") {
            TokenType::Class
        } else if spells(s, a, b, "else") {
            TokenType::Else
        } else if spells(s, a, b, "false") {
            TokenType::False
        } else if spells(s, a, b, "for") {
            TokenType::For
        } else if spells(s, a, b, "fn") {
            TokenType::Fn
        } else if spells(s, a, b, "if") {
            TokenType::If
        } else if spells(s, a, b, "nil") {
            TokenType::Nil
        } else if spells(s, a, b, "or") {
            TokenType::Or
        } else if spells(s, a, b, "print") {
            TokenType::Print
        } else if spells(s, a, b, "return") {
            TokenType::Return
        } else if spells(s, a, b, "super") {
            TokenType::Super
        } else if spells(s, a, b, "this") {
            TokenType::This
        } else if spells(s, a, b, "true") {
            TokenType::True
        } else if spells(s, a, b, "var") {
            TokenType::Var
        } else if spells(s, a, b, "while") {
            TokenType::While
        } else {
            TokenType::Identifier(from_chars(s, a, b))
        }
    }

    /// Skips blanks and comments, counting lines.
    fn skip_whitespace(&mut self)
        requires
            old(self).wf(),
        ensures
            final(self).wf(),
            final(self).source == old(self).source,
            final(self).pos == skip(old(self).source@, old(self).pos as int, false),
    {
        let mut in_comment = false;
        loop
            invariant
                self.wf(),
                self.source == old(self).source,
                skip(self.source@, self.pos as int, in_comment) == skip(
                    old(self).source@,
                    old(self).pos as int,
                    false,
                ),
            ensures
                self.wf(),
                self.source == old(self).source,
                self.pos == skip(old(self).source@, old(self).pos as int, false),
            decreases self.source.len() - self.pos, if in_comment { 1int } else { 0int },
        {
            if self.eof() {
                break ;
            }
            let c = self.peek();
            if in_comment {
                if c == '\n' {
                    in_comment = false;
                } else {
                    self.advance();
                }
            } else if c == ' ' || c == '\r' || c == '\t' || c == '\n' {
                self.advance();
            } else if c == '#' {
                self.advance();
                in_comment = true;
            } else {
                break ;
            }
        }
    }

    /// Whether the input is used up.
    pub fn eof(&self) -> (r: bool)
        requires
            self.wf(),
        ensures
            r == (self@.pos >= self@.source.len()),
    {
        self.pos >= self.source.len()
    }
}

/// There are no more line breaks before a position than characters.
proof fn lemma_newlines_bound(src: Seq<char>, pos: int)
    requires
        0 <= pos <= src.len(),
    ensures
        newlines(src, pos) <= pos,
    decreases pos,
{
    if pos > 0 {
        lemma_newlines_bound(src, pos - 1);
    }
}

/// Skipping ends inside the source, at or after where it began, and on a
/// character that starts a token unless it ends at the end.
pub proof fn lemma_skip_lands(src: Seq<char>, pos: int, in_comment: bool)
    requires
        0 <= pos <= src.len(),
    ensures
        pos <= skip(src, pos, in_comment) <= src.len(),
        skip(src, pos, in_comment) < src.len() ==> {
            let c = src[skip(src, pos, in_comment)];
            !is_space(c) && c != '#'
        },
    decreases src.len() - pos, if in_comment { 1int } else { 0int },
{
    if pos < src.len() {
        if in_comment {
            if src[pos] == '\n' {
                lemma_skip_lands(src, pos, false);
            } else {
                lemma_skip_lands(src, pos + 1, true);
            }
        } else if is_space(src[pos]) {
            lemma_skip_lands(src, pos + 1, false);
        } else if src[pos] == '#' {
            lemma_skip_lands(src, pos + 1, true);
        }
    }
}

/// Skipping from where skipping ended goes no further.
pub proof fn lemma_skip_idempotent(src: Seq<char>, pos: int, in_comment: bool)
    requires
        0 <= pos <= src.len(),
    ensures
        skip(src, skip(src, pos, in_comment), false) == skip(src, pos, in_comment),
{
    lemma_skip_lands(src, pos, in_comment);
}

/// The runs that the lexer follows end inside the source, at or after where
/// they began; and where a quote is found, a quote stands.
proof fn lemma_run_bounds(src: Seq<char>, pos: int)
    requires
        0 <= pos <= src.len(),
    ensures
        pos <= quote_at(src, pos) <= src.len(),
        quote_at(src, pos) < src.len() ==> src[quote_at(src, pos)] == '\'',
        pos <= digits_end(src, pos) <= src.len(),
        pos <= word_end(src, pos) <= src.len(),
    decreases src.len() - pos,
{
    if pos < src.len() {
        lemma_run_bounds(src, pos + 1);
    }
}

/// A token lies where it says. The token that the lexer finds at or after
/// `pos` starts at `col`, at or after `pos`, and ends at the position that
/// the lexer moves to; unless it is an error, its `len` characters from `col`
/// on are exactly the text that its kind is written as, and its line is the
/// line on which that text ends.
#[verifier::rlimit(50)]
pub proof fn lemma_token_position(src: Seq<char>, pos: int)
    requires
        0 <= pos <= src.len() < usize::MAX,
    ensures
        next_token(src, pos) matches Some((t, end)) ==> {
            &&& pos <= t.col < end <= src.len()
            &&& t.col == skip(src, pos, false)
            &&& t.line == line_at(src, end)
            &&& !t.token_type.is_error() ==> {
                &&& t.col + t.len == end
                &&& src.subrange(t.col as int, t.col + t.len) == t.token_type.spelling()
            }
        },
{
    lemma_skip_lands(src, pos, false);
    let start = skip(src, pos, false);
    if start < src.len() {
        let (kind, end) = lex(src, start);
        let c = src[start];
        lemma_run_bounds(src, start + 1);
        lemma_run_bounds(src, start);
        if punctuation(c, paired(src, start)) is Some {
            assert(src.subrange(start, end) =~= kind.spelling());
        } else if c == '\'' {
            let close = quote_at(src, start + 1);
            if close < src.len() {
                assert(src.subrange(start, end) =~= seq!['\''] + src.subrange(start + 1, close)
                    + seq!['\'']);
            }
        } else if is_digit(c) {
            let whole = digits_end(src, start);
            if whole + 1 < src.len() {
                lemma_run_bounds(src, whole + 1);
            }
        } else if is_alpha(c) {
            lemma_keyword_spelling(src.subrange(start, end));
        }
        lemma_newlines_bound(src, end);
    }
}

/// There are no more tokens than characters, since every token takes at
/// least one.
pub proof fn lemma_token_count(src: Seq<char>, pos: int)
    requires
        0 <= pos <= src.len() < usize::MAX,
    ensures
        tokens_from(src, pos).len() <= src.len() - pos,
    decreases src.len() - pos,
{
    lemma_token_position(src, pos);
    match next_token(src, pos) {
        Some((token, end)) => {
            lemma_token_count(src, end);
        },
        None => {},
    }
}

/// Every token of a source lies where it says: unless it is an error, its
/// `len` characters from `col` on are exactly the text that its kind is
/// written as, they lie inside the source, and its line is the line on which
/// they end. The tokens follow each other in the source without overlap.
pub proof fn lemma_tokens_positions(src: Seq<char>, pos: int)
    requires
        0 <= pos <= src.len() < usize::MAX,
    ensures
        ({
            let tokens = tokens_from(src, pos);
            &&& forall|i: int|
                0 <= i < tokens.len() ==> {
                    let t = #[trigger] tokens[i];
                    &&& pos <= t.col < src.len()
                    &&& !t.token_type.is_error() ==> {
                        &&& t.col + t.len <= src.len()
                        &&& src.subrange(t.col as int, t.col + t.len) == t.token_type.spelling()
                        &&& t.line == line_at(src, t.col + t.len)
                    }
                }
            &&& forall|i: int, j: int|
                0 <= i < j < tokens.len() && !tokens[i].token_type.is_error() ==> (
                #[trigger] tokens[i]).col + tokens[i].len <= (#[trigger] tokens[j]).col
        }),
    decreases src.len() - pos,
{
    lemma_token_position(src, pos);
    match next_token(src, pos) {
        Some((token, end)) => {
            lemma_tokens_positions(src, end);
            let rest = tokens_from(src, end);
            let tokens = tokens_from(src, pos);
            assert(tokens == seq![token] + rest);
            assert forall|i: int| 0 <= i < tokens.len() implies {
                let t = #[trigger] tokens[i];
                &&& pos <= t.col < src.len()
                &&& !t.token_type.is_error() ==> {
                    &&& t.col + t.len <= src.len()
                    &&& src.subrange(t.col as int, t.col + t.len) == t.token_type.spelling()
                    &&& t.line == line_at(src, t.col + t.len)
                }
            } by {
                if i > 0 {
                    assert(tokens[i] == rest[i - 1]);
                }
            }
            assert forall|i: int, j: int|
                0 <= i < j < tokens.len() && !tokens[i].token_type.is_error() implies (
            #[trigger] tokens[i]).col + tokens[i].len <= (#[trigger] tokens[j]).col by {
                assert(tokens[j] == rest[j - 1]);
                if i > 0 {
                    assert(tokens[i] == rest[i - 1]);
                }
            }
        },
        None => {},
    }
}

} // verus!
