use vstd::prelude::*;

use crate::event::{ArgView, FnArg};
use crate::syntax::{is_fn_arg, parses_as_fn_arg};
use crate::token::{render, render_of, copy_range, is_close, is_ident_named, is_joint_punct, is_open, is_punct, kw_self, Tok};

verus! {

/// The index of the `Close` that ends the group opened at or after `j`,
/// where `depth` groups are already open; `None` when `end` comes first.
pub open spec fn close_from(s: Seq<Tok>, j: int, end: int, depth: nat) -> Option<int>
    decreases end - j,
{
    if j >= end {
        None
    } else if is_open(s[j]) {
        close_from(s, j + 1, end, depth + 1)
    } else if is_close(s[j]) {
        if depth <= 1 {
            Some(j)
        } else {
            close_from(s, j + 1, end, (depth - 1) as nat)
        }
    } else {
        close_from(s, j + 1, end, depth)
    }
}

/// The first `;` from `j` on that stands outside every group, where `depth`
/// groups are already open; `None` when `end` comes first.
pub open spec fn semi_from(s: Seq<Tok>, j: int, end: int, depth: nat) -> Option<int>
    decreases end - j,
{
    if j >= end {
        None
    } else if is_open(s[j]) {
        semi_from(s, j + 1, end, depth + 1)
    } else if is_close(s[j]) {
        semi_from(s, j + 1, end, if depth > 0 { (depth - 1) as nat } else { 0 })
    } else if depth == 0 && is_punct(s[j], ';') {
        Some(j)
    } else {
        semi_from(s, j + 1, end, depth)
    }
}

/// Whether `s[j]` is a `>` that closes a generic argument list (and is not the
/// tail of `->`).
pub open spec fn closes_angle(s: Seq<Tok>, j: int) -> bool {
    is_punct(s[j], '>') && !(j >= 1 && is_joint_punct(s[j - 1], '-'))
}

/// Whether `s[j]` is a `:` on its own, not part of `::`.
pub open spec fn single_colon(s: Seq<Tok>, j: int) -> bool {
    &&& is_punct(s[j], ':')
    &&& !is_joint_punct(s[j], ':')
    &&& !(j >= 1 && is_joint_punct(s[j - 1], ':'))
}

/// The first single `:` in `s[j..end]` that stands outside every group and
/// every `<...>`.
pub open spec fn colon_from(s: Seq<Tok>, j: int, end: int, depth: nat, angle: nat) -> Option<int>
    decreases end - j,
{
    if j >= end {
        None
    } else if is_open(s[j]) {
        colon_from(s, j + 1, end, depth + 1, angle)
    } else if is_close(s[j]) {
        colon_from(s, j + 1, end, if depth > 0 { (depth - 1) as nat } else { 0 }, angle)
    } else if depth == 0 && is_punct(s[j], '<') {
        colon_from(s, j + 1, end, depth, angle + 1)
    } else if depth == 0 && closes_angle(s, j) {
        colon_from(s, j + 1, end, depth, if angle > 0 { (angle - 1) as nat } else { 0 })
    } else if depth == 0 && angle == 0 && single_colon(s, j) {
        Some(j)
    } else {
        colon_from(s, j + 1, end, depth, angle)
    }
}

/// The parameter written `s[lo..hi]`, when syn reads it as one: `pattern:
/// Type`, split at its first single top-level colon, or else a receiver,
/// which ends in `self`.
pub open spec fn arg_of(s: Seq<Tok>, lo: int, hi: int) -> Option<ArgView> {
    if !is_fn_arg(render_of(s.subrange(lo, hi))) {
        None
    } else {
        arg_parts(s, lo, hi)
    }
}

/// The parts of a parameter that syn accepts: split at its first single
/// top-level colon, or else a receiver.
pub open spec fn arg_parts(s: Seq<Tok>, lo: int, hi: int) -> Option<ArgView> {
    match colon_from(s, lo, hi, 0, 0) {
        Some(c) => if lo < c && c + 1 < hi {
            Some(ArgView::Typed(s.subrange(lo, c), s.subrange(c + 1, hi)))
        } else {
            None
        },
        None => if lo < hi && is_ident_named(s[hi - 1], kw_self()) {
            Some(ArgView::Receiver(s.subrange(lo, hi)))
        } else {
            None
        },
    }
}

/// Splits `s[j..end]` into parameters at the commas that stand outside every
/// group and every `<...>`. `seg` is where the current parameter starts,
/// `acc` the parameters already split off. A trailing comma is allowed. An
/// empty parameter gives `Err` with the index of the comma after it, one that
/// is not a parameter `Err` with the index where it starts.
pub open spec fn split_args(
    s: Seq<Tok>,
    j: int,
    end: int,
    depth: nat,
    angle: nat,
    seg: int,
    acc: Seq<ArgView>,
) -> Result<Seq<ArgView>, int>
    decreases end - j,
{
    if j >= end {
        if seg < end {
            match arg_of(s, seg, end) {
                Some(a) => Ok(acc.push(a)),
                None => Err(seg),
            }
        } else {
            Ok(acc)
        }
    } else if is_open(s[j]) {
        split_args(s, j + 1, end, depth + 1, angle, seg, acc)
    } else if is_close(s[j]) {
        split_args(s, j + 1, end, if depth > 0 { (depth - 1) as nat } else { 0 }, angle, seg, acc)
    } else if depth == 0 && is_punct(s[j], '<') {
        split_args(s, j + 1, end, depth, angle + 1, seg, acc)
    } else if depth == 0 && closes_angle(s, j) {
        split_args(s, j + 1, end, depth, if angle > 0 { (angle - 1) as nat } else { 0 }, seg, acc)
    } else if depth == 0 && angle == 0 && is_punct(s[j], ',') {
        if seg >= j {
            Err(j)
        } else {
            match arg_of(s, seg, j) {
                Some(a) => split_args(s, j + 1, end, 0, 0, j + 1, acc.push(a)),
                None => Err(seg),
            }
        }
    } else {
        split_args(s, j + 1, end, depth, angle, seg, acc)
    }
}

/// The parameters of the list `s[lo..end]`.
pub open spec fn args_of(s: Seq<Tok>, lo: int, end: int) -> Result<Seq<ArgView>, int> {
    split_args(s, lo, end, 0, 0, lo, seq![])
}

/// A close found before `end` lies before `end`.
pub proof fn lemma_close_before_end(s: Seq<Tok>, j: int, end: int, depth: nat)
    ensures
        close_from(s, j, end, depth) matches Some(c) ==> j <= c < end,
    decreases end - j,
{
    if j < end {
        lemma_close_before_end(s, j + 1, end, depth + 1);
        lemma_close_before_end(s, j + 1, end, (depth - 1) as nat);
        lemma_close_before_end(s, j + 1, end, depth);
    }
}

/// A `;` found before `end` lies before `end`.
pub proof fn lemma_semi_before_end(s: Seq<Tok>, j: int, end: int, depth: nat)
    ensures
        semi_from(s, j, end, depth) matches Some(c) ==> j <= c < end,
    decreases end - j,
{
    if j < end {
        lemma_semi_before_end(s, j + 1, end, depth + 1);
        lemma_semi_before_end(s, j + 1, end, if depth > 0 { (depth - 1) as nat } else { 0 });
        lemma_semi_before_end(s, j + 1, end, depth);
    }
}

/// A parameter list that fails to split blames a position in its region.
pub proof fn lemma_split_err_in_range(
    s: Seq<Tok>,
    j: int,
    end: int,
    depth: nat,
    angle: nat,
    seg: int,
    acc: Seq<ArgView>,
)
    requires
        seg <= j,
    ensures
        split_args(s, j, end, depth, angle, seg, acc) matches Err(c) ==> seg <= c < end,
    decreases end - j,
{
    if j < end {
        lemma_split_err_in_range(s, j + 1, end, depth + 1, angle, seg, acc);
        lemma_split_err_in_range(
            s,
            j + 1,
            end,
            if depth > 0 { (depth - 1) as nat } else { 0 },
            angle,
            seg,
            acc,
        );
        lemma_split_err_in_range(s, j + 1, end, depth, angle + 1, seg, acc);
        lemma_split_err_in_range(
            s,
            j + 1,
            end,
            depth,
            if angle > 0 { (angle - 1) as nat } else { 0 },
            seg,
            acc,
        );
        if arg_of(s, seg, j) is Some {
            lemma_split_err_in_range(s, j + 1, end, 0, 0, j + 1, acc.push(arg_of(s, seg, j)->Some_0));
        }
        lemma_split_err_in_range(s, j + 1, end, depth, angle, seg, acc);
    }
}

/// Finds the `Close` matching the `Open` at `i`, looking before `end`.
pub fn find_close(s: &Vec<Tok>, i: usize, end: usize) -> (r: Option<usize>)
    requires
        i <= end <= s@.len(),
    ensures
        match r {
            Some(c) => close_from(s@, i as int, end as int, 0) == Some(c as int),
            None => close_from(s@, i as int, end as int, 0) is None,
        },
{
    let mut j: usize = i;
    let mut depth: usize = 0;
    while j < end
        invariant
            i <= j <= end <= s@.len(),
            depth <= j,
            close_from(s@, j as int, end as int, depth as nat) == close_from(
                s@,
                i as int,
                end as int,
                0,
            ),
        decreases end - j,
    {
        if s[j].is_open() {
            depth = depth + 1;
        } else if s[j].is_close() {
            if depth <= 1 {
                return Some(j);
            }
            depth = depth - 1;
        }
        j = j + 1;
    }
    None
}

/// Finds the first `;` from `i` on that stands outside every group.
pub fn find_semi(s: &Vec<Tok>, i: usize, end: usize) -> (r: Option<usize>)
    requires
        i <= end <= s@.len(),
    ensures
        match r {
            Some(c) => semi_from(s@, i as int, end as int, 0) == Some(c as int),
            None => semi_from(s@, i as int, end as int, 0) is None,
        },
{
    let mut j: usize = i;
    let mut depth: usize = 0;
    while j < end
        invariant
            i <= j <= end <= s@.len(),
            depth <= j,
            semi_from(s@, j as int, end as int, depth as nat) == semi_from(
                s@,
                i as int,
                end as int,
                0,
            ),
        decreases end - j,
    {
        if s[j].is_open() {
            depth = depth + 1;
        } else if s[j].is_close() {
            if depth > 0 {
                depth = depth - 1;
            }
        } else if depth == 0 && s[j].is_punct(';') {
            return Some(j);
        }
        j = j + 1;
    }
    None
}

/// Splits the parameter list `s[lo..end]` into the tokens of each parameter.
pub fn split_params(s: &Vec<Tok>, lo: usize, end: usize) -> (r: Result<Vec<FnArg>, usize>)
    requires
        lo <= end <= s@.len(),
    ensures
        match r {
            Ok(v) => args_of(s@, lo as int, end as int) == Ok::<Seq<ArgView>, int>(
                v@.map_values(|a: FnArg| a@),
            ),
            Err(c) => args_of(s@, lo as int, end as int) == Err::<Seq<ArgView>, int>(c as int),
        },
{
    let mut out: Vec<FnArg> = Vec::new();
    let mut j: usize = lo;
    let mut depth: usize = 0;
    let mut angle: usize = 0;
    let mut seg: usize = lo;
    assert(out@.map_values(|a: FnArg| a@) =~= seq![]);
    while j < end
        invariant
            lo <= seg <= j <= end <= s@.len(),
            depth <= j,
            angle <= j,
            split_args(
                s@,
                j as int,
                end as int,
                depth as nat,
                angle as nat,
                seg as int,
                out@.map_values(|a: FnArg| a@),
            ) == args_of(s@, lo as int, end as int),
        decreases end - j,
    {
        let t = &s[j];
        if t.is_open() {
            depth = depth + 1;
        } else if t.is_close() {
            if depth > 0 {
                depth = depth - 1;
            }
        } else if depth == 0 && t.is_punct('<') {
            angle = angle + 1;
        } else if depth == 0 && t.is_punct('>') && !(j >= 1 && s[j - 1].is_joint_punct('-')) {
            if angle > 0 {
                angle = angle - 1;
            }
        } else if depth == 0 && angle == 0 && t.is_punct(',') {
            if seg >= j {
                return Err(j);
            }
            let ghost before = out@.map_values(|a: FnArg| a@);
            match parse_arg(s, seg, j) {
                Some(arg) => {
                    out.push(arg);
                    assert(out@.map_values(|a: FnArg| a@) =~= before.push(arg_of(s@, seg as int, j as int)->Some_0));
                },
                None => {
                    return Err(seg);
                },
            }
            seg = j + 1;
        }
        j = j + 1;
    }
    if seg < end {
        let ghost before = out@.map_values(|a: FnArg| a@);
        match parse_arg(s, seg, end) {
            Some(arg) => {
                out.push(arg);
                assert(out@.map_values(|a: FnArg| a@) =~= before.push(arg_of(s@, seg as int, end as int)->Some_0));
            },
            None => {
                return Err(seg);
            },
        }
    }
    Ok(out)
}

/// Finds the first single top-level colon in `s[lo..hi]`.
pub fn find_colon(s: &Vec<Tok>, lo: usize, hi: usize) -> (r: Option<usize>)
    requires
        lo <= hi <= s@.len(),
    ensures
        match r {
            Some(c) => colon_from(s@, lo as int, hi as int, 0, 0) == Some(c as int) && lo <= c < hi,
            None => colon_from(s@, lo as int, hi as int, 0, 0) is None,
        },
{
    let mut j: usize = lo;
    let mut depth: usize = 0;
    let mut angle: usize = 0;
    while j < hi
        invariant
            lo <= j <= hi <= s@.len(),
            depth <= j,
            angle <= j,
            colon_from(s@, j as int, hi as int, depth as nat, angle as nat) == colon_from(
                s@,
                lo as int,
                hi as int,
                0,
                0,
            ),
        decreases hi - j,
    {
        let t = &s[j];
        if t.is_open() {
            depth = depth + 1;
        } else if t.is_close() {
            if depth > 0 {
                depth = depth - 1;
            }
        } else if depth == 0 && t.is_punct('<') {
            angle = angle + 1;
        } else if depth == 0 && t.is_punct('>') && !(j >= 1 && s[j - 1].is_joint_punct('-')) {
            if angle > 0 {
                angle = angle - 1;
            }
        } else if depth == 0 && angle == 0 && t.is_punct(':') && !t.is_joint_punct(':') && !(j >= 1
            && s[j - 1].is_joint_punct(':')) {
            return Some(j);
        }
        j = j + 1;
    }
    None
}

/// Reads the parameter written `s[lo..hi]`.
pub fn parse_arg(s: &Vec<Tok>, lo: usize, hi: usize) -> (r: Option<FnArg>)
    requires
        lo <= hi <= s@.len(),
    ensures
        match r {
            Some(a) => arg_of(s@, lo as int, hi as int) == Some(a@),
            None => arg_of(s@, lo as int, hi as int) is None,
        },
{
    let text = render(s, lo, hi);
    if !parses_as_fn_arg(&text) {
        return None;
    }
    match find_colon(s, lo, hi) {
        Some(c) => {
            if lo < c && c + 1 < hi {
                let pat = copy_range(s, lo, c);
                let ty = copy_range(s, c + 1, hi);
                Some(FnArg::Typed { pat, ty })
            } else {
                None
            }
        },
        None => {
            if lo < hi && s[hi - 1].is_kw_self() {
                Some(FnArg::Receiver(copy_range(s, lo, hi)))
            } else {
                None
            }
        },
    }
}

/// `args[k]` is the parameter written `s[a[k]..b[k]]`; the regions lie in
/// `s[lo..end]`, one after another.
pub open spec fn ordered_regions(
    s: Seq<Tok>,
    lo: int,
    end: int,
    args: Seq<ArgView>,
    a: Seq<int>,
    b: Seq<int>,
) -> bool {
    &&& a.len() == args.len()
    &&& b.len() == args.len()
    &&& forall|k: int|
        0 <= k < args.len() ==> lo <= a[k] < b[k] <= end && #[trigger] arg_of(s, a[k], b[k])
            == Some(args[k])
    &&& forall|k: int| 0 <= k < args.len() - 1 ==> #[trigger] b[k] < a[k + 1]
}

proof fn lemma_split_regions(
    s: Seq<Tok>,
    lo: int,
    j: int,
    end: int,
    depth: nat,
    angle: nat,
    seg: int,
    acc: Seq<ArgView>,
    a: Seq<int>,
    b: Seq<int>,
) -> (ab: (Seq<int>, Seq<int>))
    requires
        ordered_regions(s, lo, end, acc, a, b),
        lo <= seg <= j,
        acc.len() > 0 ==> b.last() < seg,
    ensures
        split_args(s, j, end, depth, angle, seg, acc) matches Ok(out) ==> ordered_regions(
            s,
            lo,
            end,
            out,
            ab.0,
            ab.1,
        ),
    decreases end - j,
{
    if j >= end {
        if seg < end && arg_of(s, seg, end) is Some {
            let out = acc.push(arg_of(s, seg, end)->Some_0);
            let (a2, b2) = (a.push(seg), b.push(end));
            assert forall|k: int| 0 <= k < out.len() implies lo <= a2[k] < b2[k] <= end
                && #[trigger] arg_of(s, a2[k], b2[k]) == Some(out[k]) by {
                if k < acc.len() {
                    assert(arg_of(s, a[k], b[k]) == Some(acc[k]));
                }
            }
            assert forall|k: int| 0 <= k < out.len() - 1 implies #[trigger] b2[k] < a2[k + 1] by {
                if k < acc.len() - 1 {
                    assert(b[k] < a[k + 1]);
                }
            }
            (a2, b2)
        } else {
            (a, b)
        }
    } else if is_open(s[j]) {
        lemma_split_regions(s, lo, j + 1, end, depth + 1, angle, seg, acc, a, b)
    } else if is_close(s[j]) {
        lemma_split_regions(
            s,
            lo,
            j + 1,
            end,
            if depth > 0 { (depth - 1) as nat } else { 0 },
            angle,
            seg,
            acc,
            a,
            b,
        )
    } else if depth == 0 && is_punct(s[j], '<') {
        lemma_split_regions(s, lo, j + 1, end, depth, angle + 1, seg, acc, a, b)
    } else if depth == 0 && closes_angle(s, j) {
        lemma_split_regions(
            s,
            lo,
            j + 1,
            end,
            depth,
            if angle > 0 { (angle - 1) as nat } else { 0 },
            seg,
            acc,
            a,
            b,
        )
    } else if depth == 0 && angle == 0 && is_punct(s[j], ',') {
        if seg < j && arg_of(s, seg, j) is Some {
            let acc2 = acc.push(arg_of(s, seg, j)->Some_0);
            let (a2, b2) = (a.push(seg), b.push(j));
            assert forall|k: int| 0 <= k < acc2.len() implies lo <= a2[k] < b2[k] <= end
                && #[trigger] arg_of(s, a2[k], b2[k]) == Some(acc2[k]) by {
                if k < acc.len() {
                    assert(arg_of(s, a[k], b[k]) == Some(acc[k]));
                }
            }
            assert forall|k: int| 0 <= k < acc2.len() - 1 implies #[trigger] b2[k] < a2[k + 1] by {
                if k < acc.len() - 1 {
                    assert(b[k] < a[k + 1]);
                }
            }
            lemma_split_regions(s, lo, j + 1, end, 0, 0, j + 1, acc2, a2, b2)
        } else {
            (a, b)
        }
    } else {
        lemma_split_regions(s, lo, j + 1, end, depth, angle, seg, acc, a, b)
    }
}

/// Parameters keep source order: the parameters of a list that parses are
/// read from regions of the list that follow one another, the first
/// parameter from the first region.
pub proof fn lemma_args_in_source_order(s: Seq<Tok>, lo: int, end: int)
    requires
        args_of(s, lo, end) is Ok,
    ensures
        exists|a: Seq<int>, b: Seq<int>| ordered_regions(s, lo, end, args_of(s, lo, end)->Ok_0, a, b),
{
    let (a, b) = lemma_split_regions(s, lo, lo, end, 0, 0, lo, seq![], seq![], seq![]);
    assert(ordered_regions(s, lo, end, args_of(s, lo, end)->Ok_0, a, b));
}

} // verus!
