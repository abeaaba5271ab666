use vstd::prelude::*;

use crate::error::{Error, ErrorKind};
use crate::event::{ArgView, declaration, lemma_type_end_in_range, marker_end, marker_span, signature, EventSyntax, EventView};
use crate::scan::{args_of, lemma_args_in_source_order, ordered_regions, close_from, semi_from, find_close, lemma_close_before_end, lemma_semi_before_end};
use crate::token::{is_open_of, Delimiter, Span, Tok};

verus! {

/// The syntax of the `#[events(...)]` attribute's tokens:
/// `( fn a(&self, x: T) -> U; #[optional] fn b(&self); ... )`
#[derive(Debug)]
pub struct EventsSyntax {
    pub events: Vec<EventSyntax>,
}

impl View for EventsSyntax {
    type V = Seq<EventView>;

    open spec fn view(&self) -> Seq<EventView> {
        self.events@.map_values(|e: EventSyntax| e@)
    }
}

/// The declarations from `i` up to `end`, appended to `acc`; the first error
/// ends the list.
pub open spec fn events_from(s: Seq<Tok>, i: int, end: int, acc: Seq<EventView>) -> Result<
    Seq<EventView>,
    Error,
>
    decreases end - i,
    via events_from_decreases
{
    if i >= end {
        Ok(acc)
    } else {
        match declaration(s, i, end) {
            Err(e) => Err(e),
            Ok((ev, n)) => events_from(s, n, end, acc.push(ev)),
        }
    }
}

#[via_fn]
proof fn events_from_decreases(s: Seq<Tok>, i: int, end: int, acc: Seq<EventView>) {
    lemma_declaration_advances(s, i, end);
}

/// The index of the `)` that closes the group opening `s`, when `s` starts
/// with `(` and that group is closed.
pub open spec fn group_close(s: Seq<Tok>) -> Option<int> {
    if s.len() > 0 && is_open_of(s[0], Delimiter::Parenthesis) {
        close_from(s, 0, s.len() as int, 0)
    } else {
        None
    }
}

/// The span to blame when `s` does not start with a closed parenthesised
/// group.
pub open spec fn enclosure_span(s: Seq<Tok>) -> Span {
    if s.len() == 0 {
        Span { lo: 0, hi: 0 }
    } else {
        s[0].span
    }
}

/// The event list that the group opening `s` holds. What follows the group
/// is not looked at.
pub open spec fn events_of(s: Seq<Tok>) -> Result<Seq<EventView>, Error> {
    match group_close(s) {
        Some(c) => events_from(s, 1, c, seq![]),
        None => Err(Error { kind: ErrorKind::MalformedEnclosure, span: enclosure_span(s) }),
    }
}

impl EventsSyntax {
    /// Parses the parenthesised list of event declarations that opens
    /// `input`. The tokens after its `)` are left to the caller. The first
    /// malformed declaration fails the whole list.
    pub fn parse(input: &Vec<Tok>) -> (r: Result<EventsSyntax, Error>)
        ensures
            match r {
                Ok(v) => events_of(input@) == Ok::<Seq<EventView>, Error>(v@),
                Err(e) => events_of(input@) == Err::<Seq<EventView>, Error>(e),
            },
    {
        match Self::parse_group(input) {
            Ok((v, _)) => Ok(v),
            Err(e) => Err(e),
        }
    }

    /// As `parse`, and also returns the index just past the list's `)`,
    /// where the caller's tokens resume.
    pub fn parse_group(input: &Vec<Tok>) -> (r: Result<(EventsSyntax, usize), Error>)
        ensures
            match r {
                Ok((v, n)) => events_of(input@) == Ok::<Seq<EventView>, Error>(v@) && group_close(
                    input@,
                ) == Some(n - 1),
                Err(e) => events_of(input@) == Err::<Seq<EventView>, Error>(e),
            },
    {
        let len = input.len();
        if len == 0 || !input[0].is_open_of(Delimiter::Parenthesis) {
            let span = if len == 0 {
                Span { lo: 0, hi: 0 }
            } else {
                input[0].span
            };
            return Err(Error { kind: ErrorKind::MalformedEnclosure, span });
        }
        let end = match find_close(input, 0, len) {
            Some(c) => c,
            None => {
                return Err(Error { kind: ErrorKind::MalformedEnclosure, span: input[0].span });
            },
        };
        proof {
            lemma_close_before_end(input@, 1, len as int, 1);
        }
        let mut events: Vec<EventSyntax> = Vec::new();
        let mut i: usize = 1;
        assert(events@.map_values(|e: EventSyntax| e@) =~= seq![]);
        while i < end
            invariant
                1 <= i <= end < input@.len(),
                group_close(input@) == Some(end as int),
                events_from(input@, i as int, end as int, events@.map_values(|e: EventSyntax| e@))
                    == events_of(input@),
            decreases end - i,
        {
            let ghost before = events@.map_values(|e: EventSyntax| e@);
            match EventSyntax::parse(input, i, end) {
                Err(e) => {
                    return Err(e);
                },
                Ok((ev, n)) => {
                    events.push(ev);
                    assert(events@.map_values(|e: EventSyntax| e@) =~= before.push(ev@));
                    i = n;
                },
            }
        }
        Ok((EventsSyntax { events }, end + 1))
    }
}

/// `b` marks where each of `evs` starts in `s`: the declaration at `b[k]` is
/// `evs[k]` and ends at `b[k + 1]`.
pub open spec fn chained(s: Seq<Tok>, end: int, b: Seq<int>, evs: Seq<EventView>) -> bool {
    &&& b.len() == evs.len() + 1
    &&& forall|k: int|
        0 <= k < evs.len() ==> #[trigger] declaration(s, b[k], end) == Ok::<(EventView, int), Error>(
            (evs[k], b[k + 1]),
        )
}

/// A declaration that parses ends after it starts and within its region.
pub proof fn lemma_declaration_advances(s: Seq<Tok>, i: int, end: int)
    ensures
        declaration(s, i, end) matches Ok((_, n)) ==> i < n <= end,
{
    match marker_end(s, i, end) {
        None => lemma_signature_advances(s, i, end, None),
        Some(e) => {
            lemma_close_before_end(s, i + 2, end, 1);
            match marker_end(s, e, end) {
                Some(_) => {},
                None => lemma_signature_advances(
                    s,
                    e,
                    end,
                    Some((s.subrange(i + 2, e - 1), marker_span(s, i, e))),
                ),
            }
        },
    }
}

proof fn lemma_signature_advances(
    s: Seq<Tok>,
    k: int,
    end: int,
    marker: Option<(Seq<Tok>, Span)>,
)
    ensures
        signature(s, k, end, marker) matches Ok((_, n)) ==> k < n <= end,
{
    lemma_close_before_end(s, k + 3, end, 1);
    if let Some(c) = close_from(s, k + 2, end, 0) {
        lemma_semi_before_end(s, c + 3, end, 0);
        let stop = match semi_from(s, c + 3, end, 0) {
            Some(x) => x,
            None => end,
        };
        lemma_type_end_in_range(s, c + 3, stop);
    }
}

/// Following a chain of declarations: the list from `b[0]` is the list from
/// the chain's last mark, after the chained declarations.
proof fn lemma_follow_chain(
    s: Seq<Tok>,
    end: int,
    b: Seq<int>,
    evs: Seq<EventView>,
    acc: Seq<EventView>,
)
    requires
        chained(s, end, b, evs),
    ensures
        events_from(s, b[0], end, acc) == events_from(s, b[evs.len() as int], end, acc + evs),
    decreases evs.len(),
{
    if evs.len() == 0 {
        assert(acc + evs =~= acc);
    } else {
        assert(declaration(s, b[0], end) == Ok::<(EventView, int), Error>((evs[0], b[1])));
        lemma_declaration_advances(s, b[0], end);
        let b2 = b.subrange(1, b.len() as int);
        let evs2 = evs.subrange(1, evs.len() as int);
        assert forall|k: int| 0 <= k < evs2.len() implies #[trigger] declaration(s, b2[k], end)
            == Ok::<(EventView, int), Error>((evs2[k], b2[k + 1])) by {
            assert(declaration(s, b[k + 1], end) == Ok::<(EventView, int), Error>(
                (evs[k + 1], b[k + 2]),
            ));
        }
        lemma_follow_chain(s, end, b2, evs2, acc.push(evs[0]));
        assert(acc.push(evs[0]) + evs2 =~= acc + evs);
    }
}

/// The marks of the declarations that a successful list from `i` consists of.
proof fn lemma_chain_of_list(s: Seq<Tok>, i: int, end: int, acc: Seq<EventView>) -> (b: Seq<int>)
    requires
        events_from(s, i, end, acc) is Ok,
    ensures
        ({
            let out = events_from(s, i, end, acc)->Ok_0;
            &&& acc.len() <= out.len()
            &&& out.subrange(0, acc.len() as int) == acc
            &&& chained(s, end, b, out.subrange(acc.len() as int, out.len() as int))
            &&& b[0] == i
            &&& b.last() >= end
        }),
    decreases end - i,
{
    let out = events_from(s, i, end, acc)->Ok_0;
    if i >= end {
        assert(out.subrange(0, acc.len() as int) =~= acc);
        seq![i]
    } else {
        let (ev, n) = declaration(s, i, end)->Ok_0;
        lemma_declaration_advances(s, i, end);
        let b2 = lemma_chain_of_list(s, n, end, acc.push(ev));
        let tail = out.subrange(acc.len() as int, out.len() as int);
        let tail2 = out.subrange((acc.len() + 1) as int, out.len() as int);
        assert(out.subrange(0, (acc.len() + 1) as int) == acc.push(ev));
        assert(out.subrange(0, acc.len() as int) =~= acc) by {
            assert(out.subrange(0, acc.len() as int) =~= acc.push(ev).subrange(0, acc.len() as int));
        }
        let b = seq![i] + b2;
        assert forall|k: int| 0 <= k < tail.len() implies #[trigger] declaration(s, b[k], end)
            == Ok::<(EventView, int), Error>((tail[k], b[k + 1])) by {
            if k == 0 {
                assert(tail[0] == out[acc.len() as int]);
                assert(out[acc.len() as int] == acc.push(ev)[acc.len() as int]);
            } else {
                assert(tail[k] == tail2[k - 1]);
                assert(declaration(s, b2[k - 1], end) == Ok::<(EventView, int), Error>(
                    (tail2[k - 1], b2[k]),
                ));
            }
        }
        b
    }
}

/// Declarations come out in source order: when a list parses, its events are
/// the declarations that follow one another from just inside the opening
/// parenthesis to the closing one, each parsed on its own.
pub proof fn lemma_events_in_source_order(s: Seq<Tok>)
    requires
        events_of(s) is Ok,
    ensures
        exists|b: Seq<int>|
            {
                &&& chained(s, group_close(s)->Some_0, b, events_of(s)->Ok_0)
                &&& b[0] == 1
                &&& b.last() == group_close(s)->Some_0
            },
{
    let evs = events_of(s)->Ok_0;
    let end = group_close(s)->Some_0;
    lemma_close_before_end(s, 1, s.len() as int, 1);
    let b = lemma_chain_of_list(s, 1, end, seq![]);
    assert(evs.subrange(0, 0 as int) + evs.subrange(0, evs.len() as int) =~= evs);
    assert(evs.subrange(0, evs.len() as int) =~= evs);
    if evs.len() > 0 {
        let k = evs.len() - 1;
        assert(declaration(s, b[k], end) == Ok::<(EventView, int), Error>((evs[k], b[k + 1])));
        lemma_declaration_advances(s, b[k], end);
    }
    assert(b.last() == end);
}

/// A list is all or nothing: when the declarations before some point parse
/// and the one there fails, the whole list fails with that error.
pub proof fn lemma_first_error_fails_list(s: Seq<Tok>, b: Seq<int>, evs: Seq<EventView>)
    requires
        group_close(s) is Some,
        b[0] == 1,
        chained(s, group_close(s)->Some_0, b, evs),
        b.last() < group_close(s)->Some_0,
        declaration(s, b.last(), group_close(s)->Some_0) is Err,
    ensures
        events_of(s) == Err::<Seq<EventView>, Error>(
            declaration(s, b.last(), group_close(s)->Some_0)->Err_0,
        ),
{
    lemma_follow_chain(s, group_close(s)->Some_0, b, evs, seq![]);
}

/// Marker cardinality: no marker leaves the event unmarked; one marker is
/// kept; a second one fails the declaration at the first one's span.
pub proof fn lemma_marker_cardinality(s: Seq<Tok>, i: int, end: int)
    ensures
        marker_end(s, i, end) is None ==> (declaration(s, i, end) matches Ok((ev, _))
            ==> ev.marker is None),
        marker_end(s, i, end) matches Some(e) ==> (marker_end(s, e, end) is None ==> (declaration(
            s,
            i,
            end,
        ) matches Ok((ev, _)) ==> ev.marker == Some((s.subrange(i + 2, e - 1), marker_span(s, i, e))))),
        marker_end(s, i, end) matches Some(e) ==> (marker_end(s, e, end) is Some ==> declaration(
            s,
            i,
            end,
        ) == Err::<(EventView, int), Error>(
            Error { kind: ErrorKind::TooManyMarkers, span: marker_span(s, i, e) },
        )),
{
}

/// Parameters keep source order in a parsed declaration: its parameters are
/// read, in order, from regions that follow one another inside its `( ... )`,
/// which opens at `q - 1` and closes at `c`.
pub proof fn lemma_event_args_in_source_order(s: Seq<Tok>, i: int, end: int)
    requires
        declaration(s, i, end) is Ok,
    ensures
        exists|q: int, c: int, a: Seq<int>, b: Seq<int>|
            {
                &&& i < q <= c
                &&& is_open_of(s[q - 1], Delimiter::Parenthesis)
                &&& close_from(s, q - 1, end, 0) == Some(c)
                &&& #[trigger] ordered_regions(
                    s,
                    q,
                    c,
                    declaration(s, i, end)->Ok_0.0.args,
                    a,
                    b,
                )
            },
{
    let ev = declaration(s, i, end)->Ok_0.0;
    let k = match marker_end(s, i, end) {
        None => i,
        Some(e) => {
            lemma_close_before_end(s, i + 2, end, 1);
            e
        },
    };
    let p = k + 2;
    let c = close_from(s, p, end, 0)->Some_0;
    lemma_close_before_end(s, k + 3, end, 1);
    assert(args_of(s, k + 3, c) == Ok::<Seq<ArgView>, int>(ev.args));
    lemma_args_in_source_order(s, k + 3, c);
    let (a, b) = choose|a: Seq<int>, b: Seq<int>| #[trigger] ordered_regions(s, k + 3, c, ev.args, a, b);
    assert(ordered_regions(s, p + 1, c, ev.args, a, b));
}

} // verus!
