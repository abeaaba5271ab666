use vstd::prelude::*;

use crate::error::{Error, ErrorKind};
use crate::syntax::{is_type, parses_as_type};
use crate::scan::{
    args_of, close_from, find_close, find_semi, lemma_close_before_end, lemma_semi_before_end,
    lemma_split_err_in_range, semi_from, split_params,
};
use crate::token::{
    copy_range, is_ident_named, render, render_of, is_name, is_joint_punct, is_open_of, is_punct, kw_fn, Delimiter,
    Span, Tok, Token,
};

verus! {

/// A marker attribute `#[...]`: the tokens between the brackets, and the span
/// from `#` to `]`.
#[derive(Debug)]
pub struct Marker {
    pub tokens: Vec<Tok>,
    pub span: Span,
}

#[derive(Debug)]
pub struct Ident {
    pub name: String,
    pub span: Span,
}

/// One parameter of an event: a receiver (`&self`, `mut self`, ...), or a
/// pattern and its type (`evt: Event`).
#[derive(Debug)]
pub enum FnArg {
    Receiver(Vec<Tok>),
    Typed { pat: Vec<Tok>, ty: Vec<Tok> },
}

/// A parameter, as plain values.
pub enum ArgView {
    Receiver(Seq<Tok>),
    Typed(Seq<Tok>, Seq<Tok>),
}

impl View for FnArg {
    type V = ArgView;

    open spec fn view(&self) -> ArgView {
        match self {
            FnArg::Receiver(t) => ArgView::Receiver(t@),
            FnArg::Typed { pat, ty } => ArgView::Typed(pat@, ty@),
        }
    }
}

/// The return clause: none, or the type after `->`.
#[derive(Debug)]
pub enum ReturnType {
    Default,
    Type(Vec<Tok>),
}

/// The syntax of a single event:
/// `#[optional] fn event_name(&self, arg: type, ...) -> type;`
#[derive(Debug)]
pub struct EventSyntax {
    pub attr: Option<Marker>,
    pub ident: Ident,
    pub args: Vec<FnArg>,
    pub return_type: ReturnType,
}

/// What a declaration holds, as plain values.
pub struct EventView {
    pub marker: Option<(Seq<Tok>, Span)>,
    pub name: Seq<char>,
    pub name_span: Span,
    pub args: Seq<ArgView>,
    pub ret: Option<Seq<Tok>>,
}

impl View for EventSyntax {
    type V = EventView;

    open spec fn view(&self) -> EventView {
        EventView {
            marker: marker_view(self.attr),
            name: self.ident.name@,
            name_span: self.ident.span,
            args: self.args@.map_values(|a: FnArg| a@),
            ret: match self.return_type {
                ReturnType::Default => None,
                ReturnType::Type(t) => Some(t@),
            },
        }
    }
}

pub open spec fn marker_view(attr: Option<Marker>) -> Option<(Seq<Tok>, Span)> {
    match attr {
        Some(m) => Some((m.tokens@, m.span)),
        None => None,
    }
}

/// What a call of `EventSyntax::parse` gave, as plain values.
pub open spec fn parsed_view(r: Result<(EventSyntax, usize), Error>) -> Result<(EventView, int), Error> {
    match r {
        Ok((ev, n)) => Ok((ev@, n as int)),
        Err(e) => Err(e),
    }
}

/// The span to report when a region that ends at `end` is exhausted: the
/// token that closes it, or, at the end of the input, the empty span just
/// after the last token.
pub open spec fn end_span(s: Seq<Tok>, end: int) -> Span {
    if end < s.len() {
        s[end].span
    } else if s.len() > 0 {
        Span { lo: s.last().span.hi, hi: s.last().span.hi }
    } else {
        Span { lo: 0, hi: 0 }
    }
}

/// The span to report for position `k` of a region that ends at `end`.
pub open spec fn span_at(s: Seq<Tok>, k: int, end: int) -> Span {
    if k < end {
        s[k].span
    } else {
        end_span(s, end)
    }
}

/// The end of the longest run `s[lo..m]`, with `m` at most `hi`, that syn
/// reads as one type.
pub open spec fn type_end(s: Seq<Tok>, lo: int, hi: int) -> Option<int>
    decreases hi - lo,
{
    if hi <= lo {
        None
    } else if is_type(render_of(s.subrange(lo, hi))) {
        Some(hi)
    } else {
        type_end(s, lo, hi - 1)
    }
}

/// The index just past the marker `#[...]` that starts at `i`, if one does.
pub open spec fn marker_end(s: Seq<Tok>, i: int, end: int) -> Option<int> {
    if 0 <= i && i + 1 < end && is_punct(s[i], '#') && is_open_of(s[i + 1], Delimiter::Bracket) {
        match close_from(s, i + 1, end, 0) {
            Some(c) => Some(c + 1),
            None => None,
        }
    } else {
        None
    }
}

/// The span of the marker `s[i..e]`.
pub open spec fn marker_span(s: Seq<Tok>, i: int, e: int) -> Span {
    Span { lo: s[i].span.lo, hi: s[e - 1].span.hi }
}

pub open spec fn err_at(kind: ErrorKind, span: Span) -> Error {
    Error { kind, span }
}

/// The declaration that starts at `k`, after its marker (if any): the name,
/// the parameters, the return clause and the `;`. `Ok` holds what was read
/// and the index just past the `;`.
pub open spec fn signature(
    s: Seq<Tok>,
    k: int,
    end: int,
    marker: Option<(Seq<Tok>, Span)>,
) -> Result<(EventView, int), Error> {
    if !(k < end && is_ident_named(s[k], kw_fn())) {
        Err(err_at(ErrorKind::ExpectedKeyword, span_at(s, k, end)))
    } else if !(k + 1 < end && is_name(s[k + 1])) {
        Err(err_at(ErrorKind::ExpectedIdentifier, span_at(s, k + 1, end)))
    } else if !(k + 2 < end && is_open_of(s[k + 2], Delimiter::Parenthesis)) {
        Err(err_at(ErrorKind::MalformedParameterList, span_at(s, k + 2, end)))
    } else {
        match close_from(s, k + 2, end, 0) {
            None => Err(err_at(ErrorKind::MalformedParameterList, s[k + 2].span)),
            Some(c) => match args_of(s, k + 3, c) {
                Err(comma) => Err(err_at(ErrorKind::MalformedParameterList, s[comma].span)),
                Ok(args) => match return_clause(s, c + 1, end) {
                    Err(e) => Err(e),
                    Ok((ret, n)) => Ok(
                        (
                            EventView {
                                marker,
                                name: s[k + 1].token->Ident_0@,
                                name_span: s[k + 1].span,
                                args,
                                ret,
                            },
                            n,
                        ),
                    ),
                },
            },
        }
    }
}

/// What follows the parameter list at `r`: either `;` alone, or `->`, the
/// longest run that syn reads as a type, and `;`. `Ok` holds the type (if
/// any) and the index just past the `;`.
pub open spec fn return_clause(s: Seq<Tok>, r: int, end: int) -> Result<(Option<Seq<Tok>>, int), Error> {
    if r + 1 < end && is_joint_punct(s[r], '-') && is_punct(s[r + 1], '>') {
        let stop = match semi_from(s, r + 2, end, 0) {
            Some(semi) => semi,
            None => end,
        };
        match type_end(s, r + 2, stop) {
            None => Err(err_at(ErrorKind::ExpectedType, span_at(s, r + 2, end))),
            Some(m) => if m < end && is_punct(s[m], ';') {
                Ok((Some(s.subrange(r + 2, m)), m + 1))
            } else {
                Err(err_at(ErrorKind::ExpectedTerminator, span_at(s, m, end)))
            },
        }
    } else if r < end && is_punct(s[r], ';') {
        Ok((None, r + 1))
    } else {
        Err(err_at(ErrorKind::ExpectedTerminator, span_at(s, r, end)))
    }
}

/// The declaration that starts at `i` in the region `s[..end]`.
pub open spec fn declaration(s: Seq<Tok>, i: int, end: int) -> Result<(EventView, int), Error> {
    match marker_end(s, i, end) {
        None => signature(s, i, end, None),
        Some(e) => match marker_end(s, e, end) {
            Some(_) => Err(err_at(ErrorKind::TooManyMarkers, marker_span(s, i, e))),
            None => signature(s, e, end, Some((s.subrange(i + 2, e - 1), marker_span(s, i, e)))),
        },
    }
}

impl EventSyntax {
    /// Parses the declaration that starts at `s[i]`, within the region
    /// `s[..end]` (closed by `s[end]`, or by the end of the input). On success,
    /// returns it with the index just past its `;`.
    pub fn parse(s: &Vec<Tok>, i: usize, end: usize) -> (r: Result<(EventSyntax, usize), Error>)
        requires
            i <= end <= s@.len(),
        ensures
            parsed_view(r) == declaration(s@, i as int, end as int),
            r matches Ok((_, n)) ==> i < n <= end,
    {
        match find_marker_end(s, i, end) {
            None => Self::parse_signature(s, i, end, None),
            Some(e) => {
                let span = Span { lo: s[i].span.lo, hi: s[e - 1].span.hi };
                if find_marker_end(s, e, end).is_some() {
                    return Err(Error { kind: ErrorKind::TooManyMarkers, span });
                }
                let tokens = copy_range(s, i + 2, e - 1);
                Self::parse_signature(s, e, end, Some(Marker { tokens, span }))
            },
        }
    }

    /// Parses what follows the marker: `fn`, the name, the parameters, the
    /// return clause and the `;`.
    fn parse_signature(s: &Vec<Tok>, k: usize, end: usize, attr: Option<Marker>) -> (r: Result<
        (EventSyntax, usize),
        Error,
    >)
        requires
            k <= end <= s@.len(),
        ensures
            parsed_view(r) == signature(s@, k as int, end as int, marker_view(attr)),
            r matches Ok((_, n)) ==> k < n <= end,
    {
        if !(k < end && s[k].is_kw_fn()) {
            let span = if k < end {
                s[k].span
            } else {
                end_span_of(s, end)
            };
            return Err(Error { kind: ErrorKind::ExpectedKeyword, span });
        }
        if !(k + 1 < end && s[k + 1].is_name()) {
            let span = if k + 1 < end {
                s[k + 1].span
            } else {
                end_span_of(s, end)
            };
            return Err(Error { kind: ErrorKind::ExpectedIdentifier, span });
        }
        let name = match &s[k + 1].token {
            Token::Ident(n) => n.clone(),
            _ => String::new(),
        };
        let ident = Ident { name, span: s[k + 1].span };
        if !(k + 2 < end && s[k + 2].is_open_of(Delimiter::Parenthesis)) {
            let span = if k + 2 < end {
                s[k + 2].span
            } else {
                end_span_of(s, end)
            };
            return Err(Error { kind: ErrorKind::MalformedParameterList, span });
        }
        let c = match find_close(s, k + 2, end) {
            None => {
                return Err(Error { kind: ErrorKind::MalformedParameterList, span: s[k + 2].span });
            },
            Some(c) => c,
        };
        proof { lemma_close_before_end(s@, (k + 3) as int, end as int, 1); }
        let args = match split_params(s, k + 3, c) {
            Err(comma) => {
                proof { lemma_split_err_in_range(s@, (k + 3) as int, c as int, 0, 0, (k + 3) as int, seq![]); }
                return Err(Error { kind: ErrorKind::MalformedParameterList, span: s[comma].span });
            },
            Ok(v) => v,
        };
        let r = c + 1;
        if r < end && r + 1 < end && s[r].is_joint_punct('-') && s[r + 1].is_punct('>') {
            let stop = match find_semi(s, r + 2, end) {
                Some(semi) => semi,
                None => end,
            };
            proof { lemma_semi_before_end(s@, (r + 2) as int, end as int, 0); }
            match find_type_end(s, r + 2, stop) {
                None => {
                    let span = if r + 2 < end {
                        s[r + 2].span
                    } else {
                        end_span_of(s, end)
                    };
                    Err(Error { kind: ErrorKind::ExpectedType, span })
                },
                Some(m) => {
                    if m < end && s[m].is_punct(';') {
                        let ty = copy_range(s, r + 2, m);
                        let ev = EventSyntax { attr, ident, args, return_type: ReturnType::Type(ty) };
                        Ok((ev, m + 1))
                    } else {
                        let span = if m < end {
                            s[m].span
                        } else {
                            end_span_of(s, end)
                        };
                        Err(Error { kind: ErrorKind::ExpectedTerminator, span })
                    }
                },
            }
        } else if r < end && s[r].is_punct(';') {
            let ev = EventSyntax { attr, ident, args, return_type: ReturnType::Default };
            Ok((ev, r + 1))
        } else {
            let span = if r < end {
                s[r].span
            } else {
                end_span_of(s, end)
            };
            Err(Error { kind: ErrorKind::ExpectedTerminator, span })
        }
    }
}

/// The index just past the marker that starts at `i`, if one does.
fn find_marker_end(s: &Vec<Tok>, i: usize, end: usize) -> (r: Option<usize>)
    requires
        i <= end <= s@.len(),
    ensures
        match r {
            Some(e) => marker_end(s@, i as int, end as int) == Some(e as int) && i + 3 <= e <= end,
            None => marker_end(s@, i as int, end as int) is None,
        },
{
    if i < end && i + 1 < end && s[i].is_punct('#') && s[i + 1].is_open_of(Delimiter::Bracket) {
        match find_close(s, i + 1, end) {
            Some(c) => {
                proof { lemma_close_before_end(s@, (i + 2) as int, end as int, 1); }
                Some(c + 1)
            },
            None => None,
        }
    } else {
        None
    }
}

/// The span `end_span` gives.
fn end_span_of(s: &Vec<Tok>, end: usize) -> (r: Span)
    requires
        end <= s@.len(),
    ensures
        r == end_span(s@, end as int),
{
    if end < s.len() {
        s[end].span
    } else if s.len() > 0 {
        let hi = s[s.len() - 1].span.hi;
        Span { lo: hi, hi }
    } else {
        Span { lo: 0, hi: 0 }
    }
}

/// A type run found by `type_end` is not empty and ends by `hi`.
pub proof fn lemma_type_end_in_range(s: Seq<Tok>, lo: int, hi: int)
    ensures
        type_end(s, lo, hi) matches Some(m) ==> lo < m <= hi,
    decreases hi - lo,
{
    if hi > lo {
        lemma_type_end_in_range(s, lo, hi - 1);
    }
}

/// Finds the longest run `s[lo..m]`, `m <= hi`, that syn reads as one type.
fn find_type_end(s: &Vec<Tok>, lo: usize, hi: usize) -> (r: Option<usize>)
    requires
        lo <= hi <= s@.len(),
    ensures
        match r {
            Some(m) => type_end(s@, lo as int, hi as int) == Some(m as int) && lo < m <= hi,
            None => type_end(s@, lo as int, hi as int) is None,
        },
{
    let mut m: usize = hi;
    while m > lo
        invariant
            lo <= m <= hi <= s@.len(),
            type_end(s@, lo as int, m as int) == type_end(s@, lo as int, hi as int),
        decreases m - lo,
    {
        let text = render(s, lo, m);
        if parses_as_type(&text) {
            return Some(m);
        }
        m = m - 1;
    }
    None
}

} // verus!
