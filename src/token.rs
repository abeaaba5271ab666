use vstd::prelude::*;

verus! {

/// A source region: where it starts and where it ends, in positions that the
/// token source assigns (byte offsets, or token ordinals).
#[derive(Clone, Copy, Debug, PartialEq, Eq, Structural)]
pub struct Span {
    pub lo: usize,
    pub hi: usize,
}

#[derive(Clone, Copy, Debug, PartialEq, Eq, Structural)]
pub enum Delimiter {
    Parenthesis,
    Bracket,
    Brace,
}

/// Whether a punctuation character is glued to the one that follows it
/// (the `-` of `->` is `Joint`).
#[derive(Clone, Copy, Debug, PartialEq, Eq, Structural)]
pub enum Spacing {
    Alone,
    Joint,
}

/// One lexical token. Groups are flattened: a delimited group is an `Open`,
/// its content, and the matching `Close`.
#[derive(Debug)]
pub enum Token {
    Ident(String),
    Punct(char, Spacing),
    Literal(String),
    Open(Delimiter),
    Close(Delimiter),
}

#[derive(Debug)]
pub struct Tok {
    pub token: Token,
    pub span: Span,
}

pub open spec fn is_punct(t: Tok, c: char) -> bool {
    t.token matches Token::Punct(ch, _) && ch == c
}

pub open spec fn is_joint_punct(t: Tok, c: char) -> bool {
    t.token matches Token::Punct(ch, sp) && ch == c && sp == Spacing::Joint
}

pub open spec fn is_open(t: Tok) -> bool {
    t.token is Open
}

pub open spec fn is_open_of(t: Tok, d: Delimiter) -> bool {
    t.token matches Token::Open(e) && e == d
}

pub open spec fn is_close(t: Tok) -> bool {
    t.token is Close
}

pub open spec fn is_ident_named(t: Tok, name: Seq<char>) -> bool {
    t.token matches Token::Ident(s) && s@ == name
}

pub open spec fn kw_fn() -> Seq<char> {
    seq!['f', 'n']
}

pub open spec fn kw_self() -> Seq<char> {
    seq!['s', 'e', 'l', 'f']
}

/// The words that cannot name an event: the keywords of the language, and `_`.
pub open spec fn is_keyword(w: Seq<char>) -> bool {
    ||| w == "_"@
    ||| w == "abstract"@
    ||| w == "as"@
    ||| w == "become"@
    ||| w == "box"@
    ||| w == "break"@
    ||| w == "const"@
    ||| w == "continue"@
    ||| w == "crate"@
    ||| w == "do"@
    ||| w == "else"@
    ||| w == "enum"@
    ||| w == "extern"@
    ||| w == "false"@
    ||| w == "final"@
    ||| w == "fn"@
    ||| w == "for"@
    ||| w == "if"@
    ||| w == "impl"@
    ||| w == "in"@
    ||| w == "let"@
    ||| w == "loop"@
    ||| w == "macro"@
    ||| w == "match"@
    ||| w == "mod"@
    ||| w == "move"@
    ||| w == "mut"@
    ||| w == "override"@
    ||| w == "priv"@
    ||| w == "pub"@
    ||| w == "ref"@
    ||| w == "return"@
    ||| w == "Self"@
    ||| w == "self"@
    ||| w == "static"@
    ||| w == "struct"@
    ||| w == "super"@
    ||| w == "trait"@
    ||| w == "true"@
    ||| w == "type"@
    ||| w == "typeof"@
    ||| w == "unsafe"@
    ||| w == "unsized"@
    ||| w == "use"@
    ||| w == "virtual"@
    ||| w == "where"@
    ||| w == "while"@
    ||| w == "yield"@
}

/// Whether `t` is an identifier that can name an event.
pub open spec fn is_name(t: Tok) -> bool {
    t.token matches Token::Ident(s) && !is_keyword(s@)
}

/// Whether `s` holds exactly the characters of `lit`.
pub fn text_is(s: &String, lit: &str) -> (r: bool)
    ensures
        r == (s@ == lit@),
{
    let a = s.as_str();
    let n = a.unicode_len();
    if n != lit.unicode_len() {
        return false;
    }
    let mut i: usize = 0;
    while i < n
        invariant
            n == a@.len() == lit@.len(),
            a@ == s@,
            i <= n,
            forall|k: int| 0 <= k < i ==> a@[k] == lit@[k],
        decreases n - i,
    {
        if a.get_char(i) != lit.get_char(i) {
            return false;
        }
        i = i + 1;
    }
    assert(a@ =~= lit@);
    true
}

/// Whether `s` is one of the words that cannot name an event.
pub fn is_keyword_text(s: &String) -> (r: bool)
    ensures
        r == is_keyword(s@),
{
    text_is(s, "_") ||
        text_is(s, "abstract") ||
        text_is(s, "as") ||
        text_is(s, "become") ||
        text_is(s, "box") ||
        text_is(s, "break") ||
        text_is(s, "const") ||
        text_is(s, "continue") ||
        text_is(s, "crate") ||
        text_is(s, "do") ||
        text_is(s, "else") ||
        text_is(s, "enum") ||
        text_is(s, "extern") ||
        text_is(s, "false") ||
        text_is(s, "final") ||
        text_is(s, "fn") ||
        text_is(s, "for") ||
        text_is(s, "if") ||
        text_is(s, "impl") ||
        text_is(s, "in") ||
        text_is(s, "let") ||
        text_is(s, "loop") ||
        text_is(s, "macro") ||
        text_is(s, "match") ||
        text_is(s, "mod") ||
        text_is(s, "move") ||
        text_is(s, "mut") ||
        text_is(s, "override") ||
        text_is(s, "priv") ||
        text_is(s, "pub") ||
        text_is(s, "ref") ||
        text_is(s, "return") ||
        text_is(s, "Self") ||
        text_is(s, "self") ||
        text_is(s, "static") ||
        text_is(s, "struct") ||
        text_is(s, "super") ||
        text_is(s, "trait") ||
        text_is(s, "true") ||
        text_is(s, "type") ||
        text_is(s, "typeof") ||
        text_is(s, "unsafe") ||
        text_is(s, "unsized") ||
        text_is(s, "use") ||
        text_is(s, "virtual") ||
        text_is(s, "where") ||
        text_is(s, "while") ||
        text_is(s, "yield")
}

impl Tok {
    /// A copy of this token, equal to it.
    pub fn copy(&self) -> (r: Tok)
        ensures
            r == *self,
    {
        let token = match &self.token {
            Token::Ident(s) => Token::Ident(s.clone()),
            Token::Punct(c, sp) => Token::Punct(*c, *sp),
            Token::Literal(s) => Token::Literal(s.clone()),
            Token::Open(d) => Token::Open(*d),
            Token::Close(d) => Token::Close(*d),
        };
        Tok { token, span: self.span }
    }

    pub fn is_punct(&self, c: char) -> (r: bool)
        ensures
            r == is_punct(*self, c),
    {
        match &self.token {
            Token::Punct(ch, _) => *ch == c,
            _ => false,
        }
    }

    pub fn is_joint_punct(&self, c: char) -> (r: bool)
        ensures
            r == is_joint_punct(*self, c),
    {
        match &self.token {
            Token::Punct(ch, Spacing::Joint) => *ch == c,
            _ => false,
        }
    }

    pub fn is_open(&self) -> (r: bool)
        ensures
            r == is_open(*self),
    {
        matches!(self.token, Token::Open(_))
    }

    pub fn is_open_of(&self, d: Delimiter) -> (r: bool)
        ensures
            r == is_open_of(*self, d),
    {
        match &self.token {
            Token::Open(e) => *e == d,
            _ => false,
        }
    }

    pub fn is_close(&self) -> (r: bool)
        ensures
            r == is_close(*self),
    {
        matches!(self.token, Token::Close(_))
    }

    /// Whether this token is an identifier that can name an event.
    pub fn is_name(&self) -> (r: bool)
        ensures
            r == is_name(*self),
    {
        match &self.token {
            Token::Ident(s) => !is_keyword_text(s),
            _ => false,
        }
    }

    /// Whether this token is the keyword `fn`.
    pub fn is_kw_fn(&self) -> (r: bool)
        ensures
            r == is_ident_named(*self, kw_fn()),
    {
        match &self.token {
            Token::Ident(s) => {
                let t = s.as_str();
                let n = t.unicode_len();
                if n != 2 {
                    assert(s@.len() != kw_fn().len());
                    return false;
                }
                let r = t.get_char(0) == 'f' && t.get_char(1) == 'n';
                assert(r ==> s@ =~= kw_fn());
                r
            },
            _ => false,
        }
    }

    /// Whether this token is the keyword `self`.
    pub fn is_kw_self(&self) -> (r: bool)
        ensures
            r == is_ident_named(*self, kw_self()),
    {
        match &self.token {
            Token::Ident(s) => {
                let t = s.as_str();
                let n = t.unicode_len();
                if n != 4 {
                    assert(s@.len() != kw_self().len());
                    return false;
                }
                let r = t.get_char(0) == 's' && t.get_char(1) == 'e' && t.get_char(2) == 'l'
                    && t.get_char(3) == 'f';
                assert(r ==> s@ =~= kw_self());
                r
            },
            _ => false,
        }
    }
}

/// Copies the tokens `s[lo..hi]`.
pub fn copy_range(s: &Vec<Tok>, lo: usize, hi: usize) -> (r: Vec<Tok>)
    requires
        lo <= hi <= s@.len(),
    ensures
        r@ == s@.subrange(lo as int, hi as int),
{
    let mut r: Vec<Tok> = Vec::new();
    let mut k: usize = lo;
    while k < hi
        invariant
            lo <= k <= hi <= s@.len(),
            r@ == s@.subrange(lo as int, k as int),
        decreases hi - k,
    {
        let t = s[k].copy();
        r.push(t);
        k = k + 1;
        assert(r@ =~= s@.subrange(lo as int, k as int));
    }
    r
}

/// The text of a token as source: words and loose punctuation are followed
/// by a space; joint punctuation is not, so `->` stays one operator.
pub open spec fn tok_text(t: Tok) -> Seq<char> {
    match t.token {
        Token::Ident(s) => s@ + seq![' '],
        Token::Literal(s) => s@ + seq![' '],
        Token::Punct(c, Spacing::Joint) => seq![c],
        Token::Punct(c, Spacing::Alone) => seq![c, ' '],
        Token::Open(Delimiter::Parenthesis) => seq!['('],
        Token::Open(Delimiter::Bracket) => seq!['['],
        Token::Open(Delimiter::Brace) => seq!['{'],
        Token::Close(Delimiter::Parenthesis) => seq![')'],
        Token::Close(Delimiter::Bracket) => seq![']'],
        Token::Close(Delimiter::Brace) => seq!['}'],
    }
}

/// The source text of a run of tokens.
pub open spec fn render_of(s: Seq<Tok>) -> Seq<char>
    decreases s.len(),
{
    if s.len() == 0 {
        seq![]
    } else {
        render_of(s.drop_last()) + tok_text(s.last())
    }
}

/// Relies on `char::to_string`: the one-character string of `c`.
#[verifier::external_body]
fn char_text(c: char) -> (r: String)
    ensures
        r@ == seq![c],
{
    c.to_string()
}

fn tok_text_exec(t: &Tok) -> (r: String)
    ensures
        r@ == tok_text(*t),
{
    match &t.token {
        Token::Ident(x) | Token::Literal(x) => {
            let mut r = x.clone();
            r.append(&char_text(' '));
            r
        },
        Token::Punct(c, Spacing::Joint) => char_text(*c),
        Token::Punct(c, Spacing::Alone) => {
            let mut r = char_text(*c);
            r.append(&char_text(' '));
            r
        },
        Token::Open(Delimiter::Parenthesis) => char_text('('),
        Token::Open(Delimiter::Bracket) => char_text('['),
        Token::Open(Delimiter::Brace) => char_text('{'),
        Token::Close(Delimiter::Parenthesis) => char_text(')'),
        Token::Close(Delimiter::Bracket) => char_text(']'),
        Token::Close(Delimiter::Brace) => char_text('}'),
    }
}

/// Writes the tokens `s[lo..hi]` back as source text.
pub fn render(s: &Vec<Tok>, lo: usize, hi: usize) -> (r: String)
    requires
        lo <= hi <= s@.len(),
    ensures
        r@ == render_of(s@.subrange(lo as int, hi as int)),
{
    let mut out = String::new();
    let mut k: usize = lo;
    assert(s@.subrange(lo as int, lo as int).len() == 0);
    while k < hi
        invariant
            lo <= k <= hi <= s@.len(),
            out@ == render_of(s@.subrange(lo as int, k as int)),
        decreases hi - k,
    {
        let piece = tok_text_exec(&s[k]);
        out.append(piece.as_str());
        assert(s@.subrange(lo as int, k + 1).drop_last() =~= s@.subrange(lo as int, k as int));
        k = k + 1;
    }
    out
}

} // verus!
