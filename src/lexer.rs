use vstd::prelude::*;

use crate::cursor::{
    in_class, is_alpha, is_digit, lemma_scan_bounds, lemma_scan_stops, loc_at, scan, CharClass,
    Cursor, Loc,
};

verus! {

/// A token together with the location of its first character.
#[derive(PartialEq, Debug)]
pub struct Token {
    pub kind: TokKind,
    pub loc: Loc,
}

/// What a token is. A number holds its lexeme: digits, optionally followed
/// by a dot and more digits.
#[derive(PartialEq, Debug)]
pub enum TokKind {
    // Keywords
    And,
    Class,
    Else,
    False,
    Fn,
    For,
    If,
    Let,
    Nil,
    Or,
    Print,
    Return,
    This,
    True,
    While,
    // Single-character symbols
    LParen,
    RParen,
    LBrace,
    RBrace,
    Comma,
    Dot,
    Minus,
    Plus,
    Semicolon,
    Star,
    Bang,
    Equal,
    Less,
    Greater,
    Slash,
    // Two-character symbols
    BangEqual,
    EqualEqual,
    LessEqual,
    GreaterEqual,
    // Literals
    String(String),
    Number(String),
    Ident(String),
    Comment,
    Unexpected,
    Unterminated,
}

/// The mathematical form of a token kind: the text of a literal as a
/// sequence of characters, every other kind as itself.
pub ghost enum KindV {
    Plain(TokKind),
    Str(Seq<char>),
    Num(Seq<char>),
    Ident(Seq<char>),
}

impl View for TokKind {
    type V = KindV;

    open spec fn view(&self) -> KindV {
        match self {
            TokKind::String(s) => KindV::Str(s@),
            TokKind::Number(n) => KindV::Num(n@),
            TokKind::Ident(s) => KindV::Ident(s@),
            k => KindV::Plain(*k),
        }
    }
}

impl TokKind {
    pub fn copy(&self) -> (r: TokKind)
        ensures
            r == *self,
    {
        match self {
            TokKind::And => TokKind::And,
            TokKind::Class => TokKind::Class,
            TokKind::Else => TokKind::Else,
            TokKind::False => TokKind::False,
            TokKind::Fn => TokKind::Fn,
            TokKind::For => TokKind::For,
            TokKind::If => TokKind::If,
            TokKind::Let => TokKind::Let,
            TokKind::Nil => TokKind::Nil,
            TokKind::Or => TokKind::Or,
            TokKind::Print => TokKind::Print,
            TokKind::Return => TokKind::Return,
            TokKind::This => TokKind::This,
            TokKind::True => TokKind::True,
            TokKind::While => TokKind::While,
            TokKind::LParen => TokKind::LParen,
            TokKind::RParen => TokKind::RParen,
            TokKind::LBrace => TokKind::LBrace,
            TokKind::RBrace => TokKind::RBrace,
            TokKind::Comma => TokKind::Comma,
            TokKind::Dot => TokKind::Dot,
            TokKind::Minus => TokKind::Minus,
            TokKind::Plus => TokKind::Plus,
            TokKind::Semicolon => TokKind::Semicolon,
            TokKind::Star => TokKind::Star,
            TokKind::Bang => TokKind::Bang,
            TokKind::Equal => TokKind::Equal,
            TokKind::Less => TokKind::Less,
            TokKind::Greater => TokKind::Greater,
            TokKind::Slash => TokKind::Slash,
            TokKind::BangEqual => TokKind::BangEqual,
            TokKind::EqualEqual => TokKind::EqualEqual,
            TokKind::LessEqual => TokKind::LessEqual,
            TokKind::GreaterEqual => TokKind::GreaterEqual,
            TokKind::String(s) => TokKind::String(s.clone()),
            TokKind::Number(n) => TokKind::Number(n.clone()),
            TokKind::Ident(s) => TokKind::Ident(s.clone()),
            TokKind::Comment => TokKind::Comment,
            TokKind::Unexpected => TokKind::Unexpected,
            TokKind::Unterminated => TokKind::Unterminated,
        }
    }
}

impl Token {
    pub fn copy(&self) -> (r: Token)
        ensures
            r == *self,
    {
        Token { kind: self.kind.copy(), loc: self.loc }
    }
}

/// The keyword that the word `w` spells, if any.
pub open spec fn keyword(w: Seq<char>) -> Option<TokKind> {
    if w.len() == 2 {
        if w[0] == 'f' && w[1] == 'n' {
            Some(TokKind::Fn)
        } else if w[0] == 'i' && w[1] == 'f' {
            Some(TokKind::If)
        } else if w[0] == 'o' && w[1] == 'r' {
            Some(TokKind::Or)
        } else {
            None
        }
    } else if w.len() == 3 {
        if w[0] == 'a' && w[1] == 'n' && w[2] == 'd' {
            Some(TokKind::And)
        } else if w[0] == 'f' && w[1] == 'o' && w[2] == 'r' {
            Some(TokKind::For)
        } else if w[0] == 'l' && w[1] == 'e' && w[2] == 't' {
            Some(TokKind::Let)
        } else if w[0] == 'n' && w[1] == 'i' && w[2] == 'l' {
            Some(TokKind::Nil)
        } else {
            None
        }
    } else if w.len() == 4 {
        if w[0] == 'e' && w[1] == 'l' && w[2] == 's' && w[3] == 'e' {
            Some(TokKind::Else)
        } else if w[0] == 't' && w[1] == 'h' && w[2] == 'i' && w[3] == 's' {
            Some(TokKind::This)
        } else if w[0] == 't' && w[1] == 'r' && w[2] == 'u' && w[3] == 'e' {
            Some(TokKind::True)
        } else {
            None
        }
    } else if w.len() == 5 {
        if w[0] == 'c' && w[1] == 'l' && w[2] == 'a' && w[3] == 's' && w[4] == 's' {
            Some(TokKind::Class)
        } else if w[0] == 'f' && w[1] == 'a' && w[2] == 'l' && w[3] == 's' && w[4] == 'e' {
            Some(TokKind::False)
        } else if w[0] == 'p' && w[1] == 'r' && w[2] == 'i' && w[3] == 'n' && w[4] == 't' {
            Some(TokKind::Print)
        } else if w[0] == 'w' && w[1] == 'h' && w[2] == 'i' && w[3] == 'l' && w[4] == 'e' {
            Some(TokKind::While)
        } else {
            None
        }
    } else if w.len() == 6 && w[0] == 'r' && w[1] == 'e' && w[2] == 't' && w[3] == 'u' && w[4]
        == 'r' && w[5] == 'n' {
        Some(TokKind::Return)
    } else {
        None
    }
}

/// The kind of a token that is one character long.
pub open spec fn single_kind(c: char) -> Option<TokKind> {
    if c == '(' {
        Some(TokKind::LParen)
    } else if c == ')' {
        Some(TokKind::RParen)
    } else if c == '{' {
        Some(TokKind::LBrace)
    } else if c == '}' {
        Some(TokKind::RBrace)
    } else if c == ',' {
        Some(TokKind::Comma)
    } else if c == '.' {
        Some(TokKind::Dot)
    } else if c == '-' {
        Some(TokKind::Minus)
    } else if c == '+' {
        Some(TokKind::Plus)
    } else if c == ';' {
        Some(TokKind::Semicolon)
    } else if c == '*' {
        Some(TokKind::Star)
    } else {
        None
    }
}

/// For `! = < >`: the one-character kind, and the kind when `=` follows.
pub open spec fn pair_kinds(c: char) -> Option<(TokKind, TokKind)> {
    if c == '!' {
        Some((TokKind::Bang, TokKind::BangEqual))
    } else if c == '=' {
        Some((TokKind::Equal, TokKind::EqualEqual))
    } else if c == '<' {
        Some((TokKind::Less, TokKind::LessEqual))
    } else if c == '>' {
        Some((TokKind::Greater, TokKind::GreaterEqual))
    } else {
        None
    }
}

/// The token whose first character is at `q` in `s`: its kind and the index
/// just past it.
pub open spec fn scan_token(s: Seq<char>, q: nat) -> (KindV, nat) {
    let c = s[q as int];
    let n = q + 1;
    if single_kind(c) is Some {
        (KindV::Plain(single_kind(c)->0), n)
    } else if let Some((one, two)) = pair_kinds(c) {
        if n < s.len() && s[n as int] == '=' {
            (KindV::Plain(two), n + 1)
        } else {
            (KindV::Plain(one), n)
        }
    } else if c == '/' {
        if n < s.len() && s[n as int] == '/' {
            (KindV::Plain(TokKind::Comment), scan(s, n + 1, CharClass::NotNewline))
        } else {
            (KindV::Plain(TokKind::Slash), n)
        }
    } else if c == '"' {
        let e = scan(s, n, CharClass::NotQuote);
        if e < s.len() {
            (KindV::Str(s.subrange(n as int, e as int)), e + 1)
        } else {
            (KindV::Plain(TokKind::Unterminated), e)
        }
    } else if is_alpha(c) || c == '_' {
        let e = scan(s, n, CharClass::IdentTail);
        let w = s.subrange(q as int, e as int);
        match keyword(w) {
            Some(k) => (KindV::Plain(k), e),
            None => (KindV::Ident(w), e),
        }
    } else if is_digit(c) {
        let e = scan(s, n, CharClass::Digit);
        if e + 1 < s.len() && s[e as int] == '.' && is_digit(s[e + 1int]) {
            let f = scan(s, e + 1, CharClass::Digit);
            (KindV::Num(s.subrange(q as int, f as int)), f)
        } else {
            (KindV::Num(s.subrange(q as int, e as int)), e)
        }
    } else {
        (KindV::Plain(TokKind::Unexpected), n)
    }
}

/// The next token of `s` from index `p` on, comments included: its kind, the
/// index of its first character and the index just past it; `None` at the
/// end of the text.
pub open spec fn lex_raw(s: Seq<char>, p: nat) -> Option<(KindV, nat, nat)> {
    let q = scan(s, p, CharClass::Whitespace);
    if q >= s.len() {
        None
    } else {
        let (k, e) = scan_token(s, q);
        Some((k, q, e))
    }
}

pub proof fn lemma_scan_token_bounds(s: Seq<char>, q: nat)
    requires
        q < s.len(),
    ensures
        q < scan_token(s, q).1 <= s.len(),
{
    let n = q + 1;
    lemma_scan_bounds(s, n, CharClass::NotQuote);
    lemma_scan_bounds(s, n, CharClass::IdentTail);
    lemma_scan_bounds(s, n, CharClass::Digit);
    if n < s.len() {
        lemma_scan_bounds(s, n + 1, CharClass::NotNewline);
    }
    let e = scan(s, n, CharClass::Digit);
    if e + 1 < s.len() {
        lemma_scan_bounds(s, e + 1, CharClass::Digit);
    }
}

pub proof fn lemma_lex_raw_bounds(s: Seq<char>, p: nat)
    requires
        p <= s.len(),
    ensures
        lex_raw(s, p) matches Some((k, st, e)) ==> p <= st < e <= s.len(),
{
    lemma_scan_bounds(s, p, CharClass::Whitespace);
    let q = scan(s, p, CharClass::Whitespace);
    if q < s.len() {
        lemma_scan_token_bounds(s, q);
    }
}

/// The next token of `s` from index `p` on that is not a comment.
pub open spec fn lex_next(s: Seq<char>, p: nat) -> Option<(KindV, nat, nat)>
    decreases s.len() - p,
{
    match lex_raw(s, p) {
        None => None,
        Some((k, st, e)) => {
            if k == KindV::Plain(TokKind::Comment) {
                if p < e <= s.len() {
                    lex_next(s, e)
                } else {
                    None
                }
            } else {
                Some((k, st, e))
            }
        },
    }
}

pub proof fn lemma_lex_next_bounds(s: Seq<char>, p: nat)
    requires
        p <= s.len(),
    ensures
        lex_next(s, p) matches Some((k, st, e)) ==> p <= st < e <= s.len() && k
            != KindV::Plain(TokKind::Comment),
    decreases s.len() - p,
{
    lemma_lex_raw_bounds(s, p);
    if let Some((k, st, e)) = lex_raw(s, p) {
        if k == KindV::Plain(TokKind::Comment) && p < e <= s.len() {
            lemma_lex_next_bounds(s, e);
        }
    }
}

/// Every token of `s` from index `p` on, comments left out, each with its
/// location.
pub open spec fn lex_all(s: Seq<char>, p: nat) -> Seq<(KindV, Loc)>
    decreases s.len() - p,
{
    match lex_next(s, p) {
        None => Seq::empty(),
        Some((k, st, e)) => {
            if p < e <= s.len() {
                seq![(k, loc_at(s, st))] + lex_all(s, e)
            } else {
                Seq::empty()
            }
        },
    }
}

/// Relies on `String: FromIterator<char>`: the string holds the characters
/// in order.
#[verifier::external_body]
fn string_of(cs: &Vec<char>) -> (r: String)
    ensures
        r@ == cs@,
{
    cs.iter().collect()
}

fn keyword_of(w: &Vec<char>) -> (r: Option<TokKind>)
    ensures
        r == keyword(w@),
{
    let n = w.len();
    if n == 2 {
        if w[0] == 'f' && w[1] == 'n' {
            Some(TokKind::Fn)
        } else if w[0] == 'i' && w[1] == 'f' {
            Some(TokKind::If)
        } else if w[0] == 'o' && w[1] == 'r' {
            Some(TokKind::Or)
        } else {
            None
        }
    } else if n == 3 {
        if w[0] == 'a' && w[1] == 'n' && w[2] == 'd' {
            Some(TokKind::And)
        } else if w[0] == 'f' && w[1] == 'o' && w[2] == 'r' {
            Some(TokKind::For)
        } else if w[0] == 'l' && w[1] == 'e' && w[2] == 't' {
            Some(TokKind::Let)
        } else if w[0] == 'n' && w[1] == 'i' && w[2] == 'l' {
            Some(TokKind::Nil)
        } else {
            None
        }
    } else if n == 4 {
        if w[0] == 'e' && w[1] == 'l' && w[2] == 's' && w[3] == 'e' {
            Some(TokKind::Else)
        } else if w[0] == 't' && w[1] == 'h' && w[2] == 'i' && w[3] == 's' {
            Some(TokKind::This)
        } else if w[0] == 't' && w[1] == 'r' && w[2] == 'u' && w[3] == 'e' {
            Some(TokKind::True)
        } else {
            None
        }
    } else if n == 5 {
        if w[0] == 'c' && w[1] == 'l' && w[2] == 'a' && w[3] == 's' && w[4] == 's' {
            Some(TokKind::Class)
        } else if w[0] == 'f' && w[1] == 'a' && w[2] == 'l' && w[3] == 's' && w[4] == 'e' {
            Some(TokKind::False)
        } else if w[0] == 'p' && w[1] == 'r' && w[2] == 'i' && w[3] == 'n' && w[4] == 't' {
            Some(TokKind::Print)
        } else if w[0] == 'w' && w[1] == 'h' && w[2] == 'i' && w[3] == 'l' && w[4] == 'e' {
            Some(TokKind::While)
        } else {
            None
        }
    } else if n == 6 && w[0] == 'r' && w[1] == 'e' && w[2] == 't' && w[3] == 'u' && w[4] == 'r'
        && w[5] == 'n' {
        Some(TokKind::Return)
    } else {
        None
    }
}

/// Splits source text into tokens, one at a time.
pub struct Lexer {
    cursor: Cursor,
    buf: Vec<char>,
}

impl Lexer {
    pub closed spec fn text(&self) -> Seq<char> {
        self.cursor.text()
    }

    /// Index of the next character to read.
    pub closed spec fn pos(&self) -> nat {
        self.cursor.pos()
    }

    pub closed spec fn wf(&self) -> bool {
        self.cursor.wf()
    }

    pub proof fn lemma_pos_bound(&self)
        requires
            self.wf(),
        ensures
            self.pos() <= self.text().len(),
    {
        self.cursor.lemma_pos_bound();
    }

    pub fn new(src: &str) -> (r: Self)
        ensures
            r.wf(),
            r.text() == src@,
            r.pos() == 0,
    {
        Lexer { cursor: Cursor::new(src), buf: Vec::new() }
    }

    fn buf_while(&mut self, cls: CharClass)
        requires
            old(self).wf(),
        ensures
            final(self).wf(),
            final(self).text() == old(self).text(),
            final(self).pos() == scan(old(self).text(), old(self).pos(), cls),
            final(self).buf@ == old(self).buf@ + old(self).text().subrange(
                old(self).pos() as int,
                final(self).pos() as int,
            ),
    {
        let ghost p0 = self.pos();
        proof {
            self.lemma_pos_bound();
            assert(old(self).buf@ + self.text().subrange(p0 as int, p0 as int) =~= old(self).buf@);
        }
        loop
            invariant
                self.wf(),
                self.text() == old(self).text(),
                p0 == old(self).pos(),
                p0 <= self.pos() <= self.text().len(),
                scan(self.text(), self.pos(), cls) == scan(self.text(), p0, cls),
                self.buf@ == old(self).buf@ + self.text().subrange(p0 as int, self.pos() as int),
            ensures
                self.wf(),
                self.text() == old(self).text(),
                self.pos() == scan(self.text(), p0, cls),
                self.buf@ == old(self).buf@ + self.text().subrange(p0 as int, self.pos() as int),
            decreases self.text().len() - self.pos(),
        {
            match self.cursor.next_if(cls) {
                Some(c) => {
                    self.buf.push(c);
                    assert(self.text().subrange(p0 as int, self.pos() as int) =~= self.text().subrange(
                        p0 as int,
                        self.pos() - 1,
                    ).push(c));
                },
                None => {
                    break ;
                },
            }
        }
    }

    /// The kind of token that `c` starts, one of `! = < >`: its two-character
    /// form when `=` follows, else `one`.
    fn one_or_two(&mut self, one: TokKind, two: TokKind) -> (r: TokKind)
        requires
            old(self).wf(),
        ensures
            final(self).wf(),
            final(self).text() == old(self).text(),
            ({
                let s = old(self).text();
                let p = old(self).pos();
                if p < s.len() && s[p as int] == '=' {
                    r == two && final(self).pos() == p + 1
                } else {
                    r == one && final(self).pos() == p
                }
            }),
    {
        if self.cursor.next_if(CharClass::Exactly('=')).is_some() {
            two
        } else {
            one
        }
    }

    /// The next token, comments included.
    pub fn next_raw(&mut self) -> (r: Option<Token>)
        requires
            old(self).wf(),
        ensures
            final(self).wf(),
            final(self).text() == old(self).text(),
            match lex_raw(old(self).text(), old(self).pos()) {
                None => r is None,
                Some((k, st, e)) => r matches Some(t) && t.kind@ == k && t.loc == loc_at(
                    old(self).text(),
                    st,
                ) && final(self).pos() == e,
            },
    {
        let ghost s = self.text();
        self.cursor.eat_while(CharClass::Whitespace);
        let ghost q = self.pos();
        proof {
            old(self).lemma_pos_bound();
            lemma_scan_bounds(s, old(self).pos(), CharClass::Whitespace);
        }
        let loc = self.cursor.loc();
        let c = match self.cursor.next() {
            None => {
                return None;
            },
            Some(c) => c,
        };
        let kind = if c == '(' {
            TokKind::LParen
        } else if c == ')' {
            TokKind::RParen
        } else if c == '{' {
            TokKind::LBrace
        } else if c == '}' {
            TokKind::RBrace
        } else if c == ',' {
            TokKind::Comma
        } else if c == '.' {
            TokKind::Dot
        } else if c == '-' {
            TokKind::Minus
        } else if c == '+' {
            TokKind::Plus
        } else if c == ';' {
            TokKind::Semicolon
        } else if c == '*' {
            TokKind::Star
        } else if c == '!' {
            self.one_or_two(TokKind::Bang, TokKind::BangEqual)
        } else if c == '=' {
            self.one_or_two(TokKind::Equal, TokKind::EqualEqual)
        } else if c == '<' {
            self.one_or_two(TokKind::Less, TokKind::LessEqual)
        } else if c == '>' {
            self.one_or_two(TokKind::Greater, TokKind::GreaterEqual)
        } else if c == '/' {
            if self.cursor.next_if(CharClass::Exactly('/')).is_some() {
                self.cursor.eat_while(CharClass::NotNewline);
                TokKind::Comment
            } else {
                TokKind::Slash
            }
        } else if c == '"' {
            self.buf.clear();
            self.buf_while(CharClass::NotQuote);
            proof {
                lemma_scan_stops(s, q + 1, CharClass::NotQuote);
            }
            assert(self.buf@ =~= s.subrange(q + 1int, self.pos() as int));
            if self.cursor.next_if(CharClass::Exactly('"')).is_some() {
                TokKind::String(string_of(&self.buf))
            } else {
                TokKind::Unterminated
            }
        } else if ('a' <= c && c <= 'z') || ('A' <= c && c <= 'Z') || c == '_' {
            self.buf.clear();
            self.buf.push(c);
            proof {
                lemma_scan_bounds(s, q + 1, CharClass::IdentTail);
            }
            self.buf_while(CharClass::IdentTail);
            proof {
                self.lemma_pos_bound();
            }
            assert(self.buf@ =~= s.subrange(q as int, self.pos() as int));
            match keyword_of(&self.buf) {
                Some(k) => k,
                None => TokKind::Ident(string_of(&self.buf)),
            }
        } else if '0' <= c && c <= '9' {
            self.buf.clear();
            self.buf.push(c);
            self.buf_while(CharClass::Digit);
            let ghost e = self.pos();
            proof {
                lemma_scan_bounds(s, q + 1, CharClass::Digit);
                self.lemma_pos_bound();
            }
            let dot = match self.cursor.peek() {
                Some(d) => d == '.',
                None => false,
            };
            let digit_after = match self.cursor.peek_snd() {
                Some(d) => '0' <= d && d <= '9',
                None => false,
            };
            if dot && digit_after {
                self.cursor.next();
                self.buf.push('.');
                proof {
                    lemma_scan_bounds(s, e + 1, CharClass::Digit);
                }
                self.buf_while(CharClass::Digit);
            }
            proof {
                self.lemma_pos_bound();
            }
            assert(self.buf@ =~= s.subrange(q as int, self.pos() as int));
            TokKind::Number(string_of(&self.buf))
        } else {
            TokKind::Unexpected
        };
        assert(kind@ == scan_token(s, q).0);
        assert(self.pos() == scan_token(s, q).1);
        Some(Token { kind, loc })
    }

    /// The next token that is not a comment.
    pub fn next(&mut self) -> (r: Option<Token>)
        requires
            old(self).wf(),
        ensures
            final(self).wf(),
            final(self).text() == old(self).text(),
            match lex_next(old(self).text(), old(self).pos()) {
                None => r is None,
                Some((k, st, e)) => r matches Some(t) && t.kind@ == k && t.loc == loc_at(
                    old(self).text(),
                    st,
                ) && final(self).pos() == e,
            },
    {
        proof {
            old(self).lemma_pos_bound();
        }
        loop
            invariant
                self.wf(),
                self.text() == old(self).text(),
                old(self).pos() <= self.pos() <= self.text().len(),
                lex_next(self.text(), self.pos()) == lex_next(old(self).text(), old(self).pos()),
            decreases self.text().len() - self.pos(),
        {
            let ghost p = self.pos();
            proof {
                lemma_lex_raw_bounds(self.text(), p);
            }
            match self.next_raw() {
                None => {
                    return None;
                },
                Some(t) => {
                    if !matches!(t.kind, TokKind::Comment) {
                        return Some(t);
                    }
                },
            }
        }
    }
}

/// Whether `t` holds exactly the tokens of `s`, in order, comments left out.
pub open spec fn lexes_to(s: Seq<char>, t: Seq<Token>) -> bool {
    &&& t.len() == lex_all(s, 0).len()
    &&& forall|i: int|
        0 <= i < t.len() ==> (#[trigger] t[i]).kind@ == lex_all(s, 0)[i].0 && t[i].loc == lex_all(
            s,
            0,
        )[i].1
}

/// All tokens of `src`, in order, comments left out.
pub fn tokenize(src: &str) -> (r: Vec<Token>)
    ensures
        lexes_to(src@, r@),
{
    let mut lexer = Lexer::new(src);
    let mut out: Vec<Token> = Vec::new();
    let ghost s = src@;
    loop
        invariant
            s == src@,
            lexer.wf(),
            lexer.text() == s,
            lexer.pos() <= s.len(),
            out.len() + lex_all(s, lexer.pos()).len() == lex_all(s, 0).len(),
            forall|i: int|
                0 <= i < out.len() ==> (#[trigger] out[i]).kind@ == lex_all(s, 0)[i].0
                    && out[i].loc == lex_all(s, 0)[i].1,
            forall|i: int|
                0 <= i < lex_all(s, lexer.pos()).len() ==> #[trigger] lex_all(s, lexer.pos())[i]
                    == lex_all(s, 0)[out.len() + i],
        decreases s.len() - lexer.pos(),
    {
        let ghost p = lexer.pos();
        proof {
            lemma_lex_next_bounds(s, p);
        }
        match lexer.next() {
            None => {
                assert(lex_all(s, p).len() == 0);
                return out;
            },
            Some(t) => {
                proof {
                    let rest = lex_all(s, lexer.pos());
                    assert(lex_all(s, p) == seq![lex_all(s, p)[0]] + rest);
                    assert forall|i: int| 0 <= i < rest.len() implies #[trigger] rest[i] == lex_all(
                        s,
                        0,
                    )[out.len() + 1 + i] by {
                        assert(rest[i] == lex_all(s, p)[i + 1]);
                    }
                }
                out.push(t);
            },
        }
    }
}

} // verus!

verus! {

proof fn lemma_no_newline(t: Seq<char>)
    requires
        forall|i: int| 0 <= i < t.len() ==> t[i] != '\n',
    ensures
        crate::cursor::newlines(t) == 0,
        crate::cursor::line_start(t) == 0,
    decreases t.len(),
{
    if t.len() > 0 {
        lemma_no_newline(t.drop_last());
    }
}

proof fn lemma_no_newline_loc(s: Seq<char>, p: nat)
    requires
        p <= s.len(),
        forall|i: int| 0 <= i < p ==> s[i] != '\n',
    ensures
        loc_at(s, p) == (Loc { row: 0, col: p as usize }),
{
    lemma_no_newline(s.take(p as int));
}

proof fn lemma_single_suffix(s: Seq<char>, p: nat)
    requires
        p <= s.len(),
        forall|i: int| 0 <= i < s.len() ==> single_kind(#[trigger] s[i]) is Some,
    ensures
        lex_all(s, p) =~= Seq::new(
            (s.len() - p) as nat,
            |i: int| (KindV::Plain(single_kind(s[p + i])->0), Loc { row: 0, col: (p + i) as usize }),
        ),
    decreases s.len() - p,
{
    if p < s.len() {
        assert(!crate::cursor::is_ws(s[p as int]));
        assert(scan(s, p, CharClass::Whitespace) == p);
        lemma_single_suffix(s, p + 1);
        assert forall|i: int| 0 <= i < p implies s[i] != '\n' by {
            assert(single_kind(s[i]) is Some);
        }
        lemma_no_newline_loc(s, p);
    } else {
        lemma_scan_bounds(s, p, CharClass::Whitespace);
    }
}

/// A text made only of one-character symbols lexes to those symbols, one per
/// character and in order, each at its own column of the first row.
pub proof fn lemma_single_char_tokens(s: Seq<char>)
    requires
        forall|i: int| 0 <= i < s.len() ==> single_kind(#[trigger] s[i]) is Some,
    ensures
        lex_all(s, 0) =~= Seq::new(
            s.len(),
            |i: int| (KindV::Plain(single_kind(s[i])->0), Loc { row: 0, col: i as usize }),
        ),
{
    lemma_single_suffix(s, 0);
}

/// No token that the lexer hands out is a comment.
pub proof fn lemma_no_comment_tokens(s: Seq<char>, p: nat)
    requires
        p <= s.len(),
    ensures
        forall|i: int|
            0 <= i < lex_all(s, p).len() ==> (#[trigger] lex_all(s, p)[i]).0 != KindV::Plain(
                TokKind::Comment,
            ),
    decreases s.len() - p,
{
    lemma_lex_next_bounds(s, p);
    if let Some((k, st, e)) = lex_next(s, p) {
        lemma_no_comment_tokens(s, e);
        let all = lex_all(s, p);
        assert forall|i: int| 0 <= i < all.len() implies (#[trigger] all[i]).0 != KindV::Plain(
            TokKind::Comment,
        ) by {
            if i > 0 {
                assert(all[i] == lex_all(s, e)[i - 1]);
            }
        }
    }
}

proof fn lemma_unterminated_ends(s: Seq<char>, p: nat)
    requires
        p <= s.len(),
    ensures
        match lex_next(s, p) {
            Some((k, st, e)) => k == KindV::Plain(TokKind::Unterminated) ==> e == s.len() && 0
                <= st < s.len() && s[st as int] == '"',
            None => true,
        },
    decreases s.len() - p,
{
    lemma_lex_raw_bounds(s, p);
    lemma_scan_bounds(s, p, CharClass::Whitespace);
    let q = scan(s, p, CharClass::Whitespace);
    if q < s.len() {
        lemma_scan_bounds(s, q + 1, CharClass::NotQuote);
    }
    if let Some((k, st, e)) = lex_raw(s, p) {
        if k == KindV::Plain(TokKind::Comment) && p < e <= s.len() {
            lemma_unterminated_ends(s, e);
        }
    }
}

/// An unterminated string yields one `Unterminated` token: it is the last
/// token of the text, and it stands at the opening quote.
pub proof fn lemma_unterminated_last(s: Seq<char>, p: nat)
    requires
        p <= s.len(),
    ensures
        forall|i: int|
            0 <= i < lex_all(s, p).len() && (#[trigger] lex_all(s, p)[i]).0 == KindV::Plain(
                TokKind::Unterminated,
            ) ==> i == lex_all(s, p).len() - 1 && exists|q: int|
                0 <= q < s.len() && s[q] == '"' && lex_all(s, p)[i].1 == loc_at(s, q as nat),
    decreases s.len() - p,
{
    lemma_lex_next_bounds(s, p);
    lemma_unterminated_ends(s, p);
    if let Some((k, st, e)) = lex_next(s, p) {
        lemma_unterminated_last(s, e);
        if k == KindV::Plain(TokKind::Unterminated) {
            lemma_scan_bounds(s, e, CharClass::Whitespace);
            assert(lex_all(s, e).len() == 0);
        }
        let all = lex_all(s, p);
        assert forall|i: int|
            0 <= i < all.len() && (#[trigger] all[i]).0 == KindV::Plain(
                TokKind::Unterminated,
            ) implies i == all.len() - 1 && exists|q: int|
                0 <= q < s.len() && s[q] == '"' && all[i].1 == loc_at(s, q as nat) by {
            if i > 0 {
                assert(all[i] == lex_all(s, e)[i - 1]);
            } else {
                assert(all[0] == (k, loc_at(s, st)));
                assert(s[st as int] == '"');
            }
        }
    }
}

} // verus!
