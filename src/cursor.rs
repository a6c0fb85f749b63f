use vstd::prelude::*;

verus! {

/// A position in the source text: zero-based row, and column within that row,
/// both counted in characters.
#[derive(Clone, Copy, PartialEq, Eq, Debug, Default, Structural)]
pub struct Loc {
    pub row: usize,
    pub col: usize,
}

/// Number of line feeds in `s`.
pub open spec fn newlines(s: Seq<char>) -> nat
    decreases s.len(),
{
    if s.len() == 0 {
        0
    } else {
        newlines(s.drop_last()) + if s.last() == '\n' { 1nat } else { 0nat }
    }
}

/// Index of the first character of the line that the end of `s` belongs to.
pub open spec fn line_start(s: Seq<char>) -> nat
    decreases s.len(),
{
    if s.len() == 0 {
        0
    } else if s.last() == '\n' {
        s.len()
    } else {
        line_start(s.drop_last())
    }
}

pub proof fn lemma_line_bounds(s: Seq<char>)
    ensures
        newlines(s) <= s.len(),
        line_start(s) <= s.len(),
    decreases s.len(),
{
    if s.len() > 0 {
        lemma_line_bounds(s.drop_last());
    }
}

/// Location of the character at index `pos` of `src`.
pub open spec fn loc_at(src: Seq<char>, pos: nat) -> Loc {
    let pre = src.take(pos as int);
    Loc { row: newlines(pre) as usize, col: (pos - line_start(pre)) as usize }
}

/// A set of characters, given as data, that the cursor can consume while it
/// lasts.
#[derive(Clone, Copy, PartialEq, Eq, Debug, Structural)]
pub enum CharClass {
    /// Unicode white space.
    Whitespace,
    /// Everything but a line feed.
    NotNewline,
    /// Everything but a double quote.
    NotQuote,
    /// ASCII letters and digits, and `_`.
    IdentTail,
    /// ASCII digits.
    Digit,
    /// Exactly this character.
    Exactly(char),
}

/// The characters for which `char::is_whitespace` holds (Unicode `White_Space`).
pub open spec fn is_ws(c: char) -> bool {
    ('\u{9}' <= c && c <= '\u{d}') || c == ' ' || c == '\u{85}' || c == '\u{a0}'
        || c == '\u{1680}' || ('\u{2000}' <= c && c <= '\u{200a}') || c == '\u{2028}'
        || c == '\u{2029}' || c == '\u{202f}' || c == '\u{205f}' || c == '\u{3000}'
}

pub open spec fn is_digit(c: char) -> bool {
    '0' <= c && c <= '9'
}

pub open spec fn is_alpha(c: char) -> bool {
    ('a' <= c && c <= 'z') || ('A' <= c && c <= 'Z')
}

pub open spec fn is_ident_tail(c: char) -> bool {
    is_alpha(c) || is_digit(c) || c == '_'
}

pub open spec fn in_class(cls: CharClass, c: char) -> bool {
    match cls {
        CharClass::Whitespace => is_ws(c),
        CharClass::NotNewline => c != '\n',
        CharClass::NotQuote => c != '"',
        CharClass::IdentTail => is_ident_tail(c),
        CharClass::Digit => is_digit(c),
        CharClass::Exactly(x) => c == x,
    }
}

/// Whether `c` is white space in the sense of `char::is_whitespace`.
pub fn is_whitespace(c: char) -> (r: bool)
    ensures
        r == is_ws(c),
{
    ('\u{9}' <= c && c <= '\u{d}') || c == ' ' || c == '\u{85}' || c == '\u{a0}'
        || c == '\u{1680}' || ('\u{2000}' <= c && c <= '\u{200a}') || c == '\u{2028}'
        || c == '\u{2029}' || c == '\u{202f}' || c == '\u{205f}' || c == '\u{3000}'
}

pub fn class_contains(cls: CharClass, c: char) -> (r: bool)
    ensures
        r == in_class(cls, c),
{
    match cls {
        CharClass::Whitespace => is_whitespace(c),
        CharClass::NotNewline => c != '\n',
        CharClass::NotQuote => c != '"',
        CharClass::IdentTail => ('a' <= c && c <= 'z') || ('A' <= c && c <= 'Z') || ('0' <= c
            && c <= '9') || c == '_',
        CharClass::Digit => '0' <= c && c <= '9',
        CharClass::Exactly(x) => c == x,
    }
}

/// First index at or after `p` whose character is not in `cls`, or the end.
pub open spec fn scan(src: Seq<char>, p: nat, cls: CharClass) -> nat
    decreases src.len() - p,
{
    if p < src.len() && in_class(cls, src[p as int]) {
        scan(src, p + 1, cls)
    } else {
        p
    }
}

pub proof fn lemma_scan_bounds(src: Seq<char>, p: nat, cls: CharClass)
    requires
        p <= src.len(),
    ensures
        p <= scan(src, p, cls) <= src.len(),
    decreases src.len() - p,
{
    if p < src.len() && in_class(cls, src[p as int]) {
        lemma_scan_bounds(src, p + 1, cls);
    }
}

pub proof fn lemma_scan_stops(src: Seq<char>, p: nat, cls: CharClass)
    requires
        p <= src.len(),
    ensures
        scan(src, p, cls) < src.len() ==> !in_class(cls, src[scan(src, p, cls) as int]),
        forall|i: int| p <= i < scan(src, p, cls) ==> in_class(cls, #[trigger] src[i]),
    decreases src.len() - p,
{
    if p < src.len() && in_class(cls, src[p as int]) {
        lemma_scan_stops(src, p + 1, cls);
    }
}

/// A stream of characters with one and two characters of lookahead, which
/// keeps track of the location of the next character.
#[derive(Debug)]
pub struct Cursor {
    src: Vec<char>,
    pos: usize,
    col: usize,
    row: usize,
    bol: usize,
}

impl Cursor {
    /// The whole text that the cursor walks.
    pub closed spec fn text(&self) -> Seq<char> {
        self.src@
    }

    /// Index of the next character.
    pub closed spec fn pos(&self) -> nat {
        self.pos as nat
    }

    pub closed spec fn wf(&self) -> bool {
        let pre = self.src@.take(self.pos as int);
        &&& self.pos <= self.src.len()
        &&& self.col == self.pos
        &&& self.row == newlines(pre)
        &&& self.bol == line_start(pre)
    }

    pub proof fn lemma_pos_bound(&self)
        requires
            self.wf(),
        ensures
            self.pos() <= self.text().len(),
    {
    }

    pub fn new(src: &str) -> (r: Self)
        ensures
            r.wf(),
            r.text() == src@,
            r.pos() == 0,
    {
        let chars = crate::chars_of(src);
        let r = Cursor { src: chars, pos: 0, col: 0, row: 0, bol: 0 };
        assert(r.src@.take(0) =~= Seq::<char>::empty());
        r
    }

    /// Consumes and returns the next character.
    pub fn next(&mut self) -> (r: Option<char>)
        requires
            old(self).wf(),
        ensures
            final(self).wf(),
            final(self).text() == old(self).text(),
            old(self).pos() < old(self).text().len() ==> r == Some(
                old(self).text()[old(self).pos() as int],
            ) && final(self).pos() == old(self).pos() + 1,
            old(self).pos() >= old(self).text().len() ==> r is None && final(self).pos()
                == old(self).pos(),
    {
        if self.pos < self.src.len() {
            let c = self.src[self.pos];
            proof {
                let s = self.src@;
                let p = self.pos as int;
                assert(s.take(p + 1).drop_last() =~= s.take(p));
                lemma_line_bounds(s.take(p + 1));
            }
            self.pos = self.pos + 1;
            self.col = self.col + 1;
            if c == '\n' {
                self.row = self.row + 1;
                self.bol = self.col;
            }
            Some(c)
        } else {
            None
        }
    }

    /// Consumes the next character if it belongs to `cls`.
    pub fn next_if(&mut self, cls: CharClass) -> (r: Option<char>)
        requires
            old(self).wf(),
        ensures
            final(self).wf(),
            final(self).text() == old(self).text(),
            ({
                let s = old(self).text();
                let p = old(self).pos();
                if p < s.len() && in_class(cls, s[p as int]) {
                    r == Some(s[p as int]) && final(self).pos() == p + 1
                } else {
                    r is None && final(self).pos() == p
                }
            }),
    {
        match self.peek() {
            Some(c) => {
                if class_contains(cls, c) {
                    self.next()
                } else {
                    None
                }
            },
            None => None,
        }
    }

    /// Consumes characters for as long as they belong to `cls`.
    pub fn eat_while(&mut self, cls: CharClass)
        requires
            old(self).wf(),
        ensures
            final(self).wf(),
            final(self).text() == old(self).text(),
            final(self).pos() == scan(old(self).text(), old(self).pos(), cls),
    {
        while self.next_if(cls).is_some()
            invariant
                self.wf(),
                self.text() == old(self).text(),
                old(self).pos() <= self.pos() <= self.text().len(),
                scan(self.text(), self.pos(), cls) == scan(old(self).text(), old(self).pos(), cls),
            decreases self.text().len() - self.pos(),
        {
        }
    }

    /// The next character, left in place.
    pub fn peek(&self) -> (r: Option<char>)
        requires
            self.wf(),
        ensures
            self.pos() < self.text().len() ==> r == Some(self.text()[self.pos() as int]),
            self.pos() >= self.text().len() ==> r is None,
    {
        if self.pos < self.src.len() {
            Some(self.src[self.pos])
        } else {
            None
        }
    }

    /// The character after the next one, left in place.
    pub fn peek_snd(&self) -> (r: Option<char>)
        requires
            self.wf(),
        ensures
            self.pos() + 1 < self.text().len() ==> r == Some(self.text()[self.pos() + 1int]),
            self.pos() + 1 >= self.text().len() ==> r is None,
    {
        if self.pos < self.src.len() && self.pos + 1 < self.src.len() {
            Some(self.src[self.pos + 1])
        } else {
            None
        }
    }

    /// Location of the next character.
    pub fn loc(&self) -> (r: Loc)
        requires
            self.wf(),
        ensures
            r == loc_at(self.text(), self.pos()),
    {
        proof {
            lemma_line_bounds(self.src@.take(self.pos as int));
        }
        Loc { row: self.row, col: self.col - self.bol }
    }
}

} // verus!
