use vstd::prelude::*;
use crate::token::{Token, TokenV};

verus! {

/// Characters with the Unicode `White_Space` property.
pub open spec fn is_space(c: char) -> bool {
    ('\u{9}' <= c && c <= '\u{d}') || c == ' ' || c == '\u{85}' || c == '\u{a0}'
        || c == '\u{1680}' || ('\u{2000}' <= c && c <= '\u{200a}') || c == '\u{2028}'
        || c == '\u{2029}' || c == '\u{202f}' || c == '\u{205f}' || c == '\u{3000}'
}

pub open spec fn is_digit(c: char) -> bool {
    '0' <= c && c <= '9'
}

pub open spec fn is_word_start(c: char) -> bool {
    ('a' <= c && c <= 'z') || ('A' <= c && c <= 'Z') || c == '_'
}

pub open spec fn is_word_char(c: char) -> bool {
    is_word_start(c) || is_digit(c)
}

/// The first position at or after `pos` that does not hold whitespace.
pub open spec fn skip_spaces(chars: Seq<char>, pos: int) -> int
    decreases chars.len() - pos,
{
    if 0 <= pos < chars.len() && is_space(chars[pos]) {
        skip_spaces(chars, pos + 1)
    } else {
        pos
    }
}

/// The end of the run of digits that starts at `pos`.
pub open spec fn digits_end(chars: Seq<char>, pos: int) -> int
    decreases chars.len() - pos,
{
    if 0 <= pos < chars.len() && is_digit(chars[pos]) {
        digits_end(chars, pos + 1)
    } else {
        pos
    }
}

/// The end of the run of letters, digits and underscores that starts at `pos`.
pub open spec fn word_end(chars: Seq<char>, pos: int) -> int
    decreases chars.len() - pos,
{
    if 0 <= pos < chars.len() && is_word_char(chars[pos]) {
        word_end(chars, pos + 1)
    } else {
        pos
    }
}

/// The decimal value of a sequence of digits.
pub open spec fn digits_value(s: Seq<char>) -> int
    decreases s.len(),
{
    if s.len() == 0 {
        0
    } else {
        digits_value(s.drop_last()) * 10 + (s.last() as int - '0' as int)
    }
}

/// The token that a word stands for: a keyword or an identifier.
pub open spec fn word_token(w: Seq<char>) -> TokenV {
    if w == seq!['l', 'e', 't'] {
        TokenV::Let
    } else if w == seq!['p', 'r', 'i', 'n', 't'] {
        TokenV::Print
    } else if w == seq!['i', 'f'] {
        TokenV::If
    } else if w == seq!['e', 'l', 's', 'e'] {
        TokenV::Else
    } else if w == seq!['w', 'h', 'i', 'l', 'e'] {
        TokenV::While
    } else {
        TokenV::Identifier(w)
    }
}

/// The token of a single character that stands alone, if it is one.
pub open spec fn single_token(c: char) -> Option<TokenV> {
    if c == '+' {
        Some(TokenV::Plus)
    } else if c == '-' {
        Some(TokenV::Minus)
    } else if c == '*' {
        Some(TokenV::Star)
    } else if c == '/' {
        Some(TokenV::Slash)
    } else if c == '(' {
        Some(TokenV::LParen)
    } else if c == ')' {
        Some(TokenV::RParen)
    } else if c == '{' {
        Some(TokenV::LBrace)
    } else if c == '}' {
        Some(TokenV::RBrace)
    } else if c == ';' {
        Some(TokenV::Semicolon)
    } else {
        None
    }
}

/// One step of scanning from `pos`: the token found and the position after it.
/// A run of digits whose value does not fit in an `i64` is an illegal token
/// carrying its first digit.
pub open spec fn scan(chars: Seq<char>, pos: int) -> (TokenV, int) {
    let p = skip_spaces(chars, pos);
    if p >= chars.len() {
        (TokenV::EOF, p)
    } else {
        let c = chars[p];
        let next_is_eq = p + 1 < chars.len() && chars[p + 1] == '=';
        if c == '=' {
            if next_is_eq { (TokenV::Eq, p + 2) } else { (TokenV::Equals, p + 1) }
        } else if c == '!' {
            if next_is_eq { (TokenV::NotEq, p + 2) } else { (TokenV::Illegal('!'), p + 1) }
        } else if c == '<' {
            if next_is_eq { (TokenV::LessEq, p + 2) } else { (TokenV::Less, p + 1) }
        } else if c == '>' {
            if next_is_eq { (TokenV::GreaterEq, p + 2) } else { (TokenV::Greater, p + 1) }
        } else if single_token(c) is Some {
            (single_token(c)->0, p + 1)
        } else if is_digit(c) {
            let e = digits_end(chars, p);
            let v = digits_value(chars.subrange(p, e));
            if v <= i64::MAX { (TokenV::Number(v as i64), e) } else { (TokenV::Illegal(c), e) }
        } else if is_word_start(c) {
            let e = word_end(chars, p);
            (word_token(chars.subrange(p, e)), e)
        } else {
            (TokenV::Illegal(c), p + 1)
        }
    }
}

pub proof fn lemma_skip_spaces_bounds(chars: Seq<char>, pos: int)
    requires
        0 <= pos <= chars.len(),
    ensures
        pos <= skip_spaces(chars, pos) <= chars.len(),
    decreases chars.len() - pos,
{
    if pos < chars.len() && is_space(chars[pos]) {
        lemma_skip_spaces_bounds(chars, pos + 1);
    }
}

pub proof fn lemma_run_ends(chars: Seq<char>, pos: int)
    requires
        0 <= pos <= chars.len(),
    ensures
        pos <= digits_end(chars, pos) <= chars.len(),
        pos <= word_end(chars, pos) <= chars.len(),
    decreases chars.len() - pos,
{
    if pos < chars.len() {
        lemma_run_ends(chars, pos + 1);
    }
}

/// Scanning stays within the text, and moves forward unless it is at the end.
pub proof fn lemma_scan_bounds(chars: Seq<char>, pos: int)
    requires
        0 <= pos <= chars.len(),
    ensures
        pos <= scan(chars, pos).1 <= chars.len(),
        !(scan(chars, pos).0 is EOF) ==> pos < scan(chars, pos).1,
{
    let p = skip_spaces(chars, pos);
    lemma_skip_spaces_bounds(chars, pos);
    if p < chars.len() {
        lemma_run_ends(chars, p);
        lemma_run_ends(chars, p + 1);
    }
}

#[via_fn]
proof fn tokens_from_decreases(chars: Seq<char>, pos: int) {
    if 0 <= pos <= chars.len() {
        lemma_scan_bounds(chars, pos);
    }
}

/// The tokens that scanning from `pos` yields, up to and including the end-of-input token.
pub open spec fn tokens_from(chars: Seq<char>, pos: int) -> Seq<TokenV>
    decreases chars.len() - pos,
    via tokens_from_decreases
{
    if !(0 <= pos <= chars.len()) {
        seq![TokenV::EOF]
    } else {
        let (t, n) = scan(chars, pos);
        if t is EOF {
            seq![t]
        } else {
            seq![t] + tokens_from(chars, n)
        }
    }
}

/// Once the end of input is reached, every further scan returns it again
/// without moving; before that, every scan moves forward, so the end is
/// reached after at most as many scans as there are characters left.
pub proof fn lemma_token_totality(chars: Seq<char>, pos: int)
    requires
        0 <= pos <= chars.len(),
    ensures
        scan(chars, pos).0 is EOF ==> scan(chars, scan(chars, pos).1) == scan(chars, pos),
        !(scan(chars, pos).0 is EOF) ==> pos < scan(chars, pos).1 <= chars.len(),
        tokens_from(chars, pos).len() <= chars.len() - pos + 1,
        tokens_from(chars, pos).last() is EOF,
    decreases chars.len() - pos,
{
    lemma_scan_bounds(chars, pos);
    let (t, n) = scan(chars, pos);
    if t is EOF {
        lemma_skip_spaces_bounds(chars, pos);
        assert(skip_spaces(chars, pos) == chars.len());
        lemma_skip_spaces_bounds(chars, n);
    } else {
        lemma_token_totality(chars, n);
        let rest = tokens_from(chars, n);
        assert((seq![t] + rest).last() == rest.last());
    }
}

} // verus!

verus! {

fn is_space_char(c: char) -> (r: bool)
    ensures
        r == is_space(c),
{
    ('\u{9}' <= c && c <= '\u{d}') || c == ' ' || c == '\u{85}' || c == '\u{a0}'
        || c == '\u{1680}' || ('\u{2000}' <= c && c <= '\u{200a}') || c == '\u{2028}'
        || c == '\u{2029}' || c == '\u{202f}' || c == '\u{205f}' || c == '\u{3000}'
}

fn is_digit_char(c: char) -> (r: bool)
    ensures
        r == is_digit(c),
{
    '0' <= c && c <= '9'
}

fn is_word_start_char(c: char) -> (r: bool)
    ensures
        r == is_word_start(c),
{
    ('a' <= c && c <= 'z') || ('A' <= c && c <= 'Z') || c == '_'
}

fn single_char_token(c: char) -> (r: Option<Token>)
    ensures
        match r {
            Some(t) => single_token(c) == Some(t@),
            None => single_token(c) is None,
        },
{
    if c == '+' {
        Some(Token::Plus)
    } else if c == '-' {
        Some(Token::Minus)
    } else if c == '*' {
        Some(Token::Star)
    } else if c == '/' {
        Some(Token::Slash)
    } else if c == '(' {
        Some(Token::LParen)
    } else if c == ')' {
        Some(Token::RParen)
    } else if c == '{' {
        Some(Token::LBrace)
    } else if c == '}' {
        Some(Token::RBrace)
    } else if c == ';' {
        Some(Token::Semicolon)
    } else {
        None
    }
}

/// A forward-only scanner over a text buffer.
pub struct Lexer<'a> {
    input: &'a str,
    position: usize,
    chars: Vec<char>,
}

impl<'a> Lexer<'a> {
    /// The characters of the buffer.
    pub closed spec fn text(&self) -> Seq<char> {
        self.chars@
    }

    /// The position of the cursor, in characters.
    pub closed spec fn pos(&self) -> int {
        self.position as int
    }

    pub closed spec fn wf(&self) -> bool {
        &&& self.chars@ == self.input@
        &&& self.position <= self.chars.len()
    }

    pub fn new(input: &'a str) -> (r: Self)
        ensures
            r.wf(),
            r.text() == input@,
            r.pos() == 0,
    {
        let n = input.unicode_len();
        let mut chars: Vec<char> = Vec::new();
        let mut i: usize = 0;
        while i < n
            invariant
                n == input@.len(),
                i <= n,
                chars@ == input@.subrange(0, i as int),
            decreases n - i,
        {
            chars.push(input.get_char(i));
            i += 1;
            assert(chars@ =~= input@.subrange(0, i as int));
        }
        assert(chars@ =~= input@);
        Lexer { input, position: 0, chars }
    }

    fn peek(&self) -> (r: Option<char>)
        requires
            self.wf(),
        ensures
            r == (if self.pos() < self.text().len() {
                Some(self.text()[self.pos()])
            } else {
                None::<char>
            }),
    {
        if self.position < self.chars.len() {
            Some(self.chars[self.position])
        } else {
            None
        }
    }

    /// Moves past the current character, if there is one.
    fn advance(&mut self) -> (r: Option<char>)
        requires
            old(self).wf(),
        ensures
            final(self).wf(),
            final(self).text() == old(self).text(),
            r == (if old(self).pos() < old(self).text().len() {
                Some(old(self).text()[old(self).pos()])
            } else {
                None::<char>
            }),
            final(self).pos() == (if r is Some { old(self).pos() + 1 } else { old(self).pos() }),
    {
        let ch = self.peek();
        if ch.is_some() {
            self.position += 1;
        }
        ch
    }

    fn skip_whitespace(&mut self)
        requires
            old(self).wf(),
        ensures
            final(self).wf(),
            final(self).text() == old(self).text(),
            final(self).pos() == skip_spaces(old(self).text(), old(self).pos()),
    {
        while self.position < self.chars.len() && is_space_char(self.chars[self.position])
            invariant
                self.wf(),
                self.text() == old(self).text(),
                skip_spaces(self.text(), self.pos()) == skip_spaces(old(self).text(), old(self).pos()),
            decreases self.chars.len() - self.position,
        {
            self.position += 1;
        }
    }
}

} // verus!

verus! {

proof fn lemma_digits_step(chars: Seq<char>, p: int, i: int)
    requires
        0 <= p < i < chars.len(),
        is_digit(chars[i]),
    ensures
        digits_value(chars.subrange(p, i + 1)) == digits_value(chars.subrange(p, i)) * 10
            + (chars[i] as int - '0' as int),
{
    assert(chars.subrange(p, i + 1).drop_last() =~= chars.subrange(p, i));
}

impl<'a> Lexer<'a> {
    /// Scans one token: the token of `scan` at the cursor, and the cursor moves
    /// to the position that `scan` gives.
    pub fn next_token(&mut self) -> (r: Token)
        requires
            old(self).wf(),
        ensures
            final(self).wf(),
            final(self).text() == old(self).text(),
            r@ == scan(old(self).text(), old(self).pos()).0,
            final(self).pos() == scan(old(self).text(), old(self).pos()).1,
    {
        proof {
            lemma_skip_spaces_bounds(self.text(), self.pos());
        }
        self.skip_whitespace();
        let p = self.position;
        let ghost chars = self.text();
        let ch = match self.advance() {
            Some(c) => c,
            None => {
                return Token::EOF;
            },
        };
        if ch == '=' {
            if self.peek() == Some('=') {
                self.advance();
                Token::Eq
            } else {
                Token::Equals
            }
        } else if ch == '!' {
            if self.peek() == Some('=') {
                self.advance();
                Token::NotEq
            } else {
                Token::Illegal('!')
            }
        } else if ch == '<' {
            if self.peek() == Some('=') {
                self.advance();
                Token::LessEq
            } else {
                Token::Less
            }
        } else if ch == '>' {
            if self.peek() == Some('=') {
                self.advance();
                Token::GreaterEq
            } else {
                Token::Greater
            }
        } else if let Some(t) = single_char_token(ch) {
            t
        } else if is_digit_char(ch) {
            let mut value: i64 = (ch as u32 - '0' as u32) as i64;
            let mut too_large = false;
            proof {
                let s1 = chars.subrange(p as int, p + 1);
                assert(s1.drop_last() =~= Seq::<char>::empty());
                assert(digits_value(s1.drop_last()) == 0);
                assert(s1.last() == ch);
            }
            while self.position < self.chars.len() && is_digit_char(self.chars[self.position])
                invariant
                    self.wf(),
                    self.text() == chars,
                    p < self.pos() <= chars.len(),
                    digits_end(chars, p as int) == digits_end(chars, self.pos()),
                    !too_large ==> value as int == digits_value(chars.subrange(p as int, self.pos())),
                    too_large ==> digits_value(chars.subrange(p as int, self.pos())) > i64::MAX,
                    value >= 0,
                decreases self.chars.len() - self.position,
            {
                let c = self.chars[self.position];
                let d: i64 = (c as u32 - '0' as u32) as i64;
                proof {
                    lemma_digits_step(chars, p as int, self.pos());
                }
                if !too_large {
                    if value > 922337203685477580 || (value == 922337203685477580 && d > 7) {
                        too_large = true;
                    } else {
                        value = value * 10 + d;
                    }
                }
                self.position += 1;
            }
            if too_large {
                Token::Illegal(ch)
            } else {
                Token::Number(value)
            }
        } else if is_word_start_char(ch) {
            while self.position < self.chars.len() && (is_word_start_char(self.chars[self.position])
                || is_digit_char(self.chars[self.position]))
                invariant
                    self.wf(),
                    self.text() == chars,
                    p < self.pos() <= chars.len(),
                    word_end(chars, p as int) == word_end(chars, self.pos()),
                decreases self.chars.len() - self.position,
            {
                self.position += 1;
            }
            let e = self.position;
            let word = self.input.substring_char(p, e);
            proof {
                assert(word@ == chars.subrange(p as int, e as int));
            }
            self.keyword_or_identifier(p, e, String::from_str(word))
        } else {
            Token::Illegal(ch)
        }
    }

    fn keyword_or_identifier(&self, p: usize, e: usize, word: String) -> (r: Token)
        requires
            self.wf(),
            p <= e <= self.text().len(),
            word@ == self.text().subrange(p as int, e as int),
        ensures
            r@ == word_token(word@),
    {
        let ghost w = word@;
        let n = e - p;
        let c = &self.chars;
        if n == 3 && c[p] == 'l' && c[p + 1] == 'e' && c[p + 2] == 't' {
            assert(w =~= seq!['l', 'e', 't']);
            Token::Let
        } else if n == 5 && c[p] == 'p' && c[p + 1] == 'r' && c[p + 2] == 'i' && c[p + 3] == 'n'
            && c[p + 4] == 't' {
            assert(w =~= seq!['p', 'r', 'i', 'n', 't']);
            Token::Print
        } else if n == 2 && c[p] == 'i' && c[p + 1] == 'f' {
            assert(w =~= seq!['i', 'f']);
            Token::If
        } else if n == 4 && c[p] == 'e' && c[p + 1] == 'l' && c[p + 2] == 's' && c[p + 3] == 'e' {
            assert(w =~= seq!['e', 'l', 's', 'e']);
            Token::Else
        } else if n == 5 && c[p] == 'w' && c[p + 1] == 'h' && c[p + 2] == 'i' && c[p + 3] == 'l'
            && c[p + 4] == 'e' {
            assert(w =~= seq!['w', 'h', 'i', 'l', 'e']);
            Token::While
        } else {
            assert(w.len() == n);
            proof {
                if w == seq!['l', 'e', 't'] {
                    assert(w[0] == 'l' && w[1] == 'e' && w[2] == 't');
                }
                if w == seq!['p', 'r', 'i', 'n', 't'] {
                    assert(w[0] == 'p' && w[1] == 'r' && w[2] == 'i' && w[3] == 'n' && w[4] == 't');
                }
                if w == seq!['i', 'f'] {
                    assert(w[0] == 'i' && w[1] == 'f');
                }
                if w == seq!['e', 'l', 's', 'e'] {
                    assert(w[0] == 'e' && w[1] == 'l' && w[2] == 's' && w[3] == 'e');
                }
                if w == seq!['w', 'h', 'i', 'l', 'e'] {
                    assert(w[0] == 'w' && w[1] == 'h' && w[2] == 'i' && w[3] == 'l' && w[4] == 'e');
                }
            }
            Token::Identifier(word)
        }
    }
}

} // verus!

verus! {

/// The values of a sequence of tokens.
pub open spec fn token_views(ts: Seq<Token>) -> Seq<TokenV> {
    ts.map_values(|t: Token| t@)
}

/// Scans the whole input, end-of-input token included.
pub fn tokenize(input: &str) -> (r: Vec<Token>)
    ensures
        token_views(r@) == tokens_from(input@, 0),
{
    let mut lexer = Lexer::new(input);
    let ghost chars = input@;
    let mut out: Vec<Token> = Vec::new();
    assert(token_views(out@) + tokens_from(chars, 0) =~= tokens_from(chars, 0));
    loop
        invariant
            lexer.wf(),
            lexer.text() == chars,
            chars == input@,
            0 <= lexer.pos() <= chars.len(),
            token_views(out@) + tokens_from(chars, lexer.pos()) == tokens_from(chars, 0),
        decreases chars.len() - lexer.pos(),
    {
        let ghost before = lexer.pos();
        let ghost prev = out@;
        proof {
            lemma_scan_bounds(chars, before);
        }
        let t = lexer.next_token();
        let is_end = t == Token::EOF;
        let ghost tv = t@;
        out.push(t);
        assert(token_views(out@) =~= token_views(prev).push(tv));
        if is_end {
            assert(tv is EOF);
            assert(tokens_from(chars, before) == seq![tv]);
            assert(token_views(out@) =~= tokens_from(chars, 0));
            return out;
        }
        assert(tokens_from(chars, before) == seq![tv] + tokens_from(chars, lexer.pos()));
        assert(token_views(out@) + tokens_from(chars, lexer.pos()) =~= tokens_from(chars, 0));
    }
}

} // verus!
