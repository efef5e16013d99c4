//! Finding the most specific expression at a position.
use vstd::prelude::*;

verus! {

/// An expression together with the byte span it covers.
pub struct FoundExpression<E> {
    pub start: usize,
    pub end: usize,
    pub expr: E,
}

/// Visitor state that finds the most specific expression containing a given
/// byte position: of the expressions that contain it, the one with the
/// smallest span, the first one visited among equally small ones.
pub struct ExpressionFinder<E> {
    pub search_pos: usize,
    pub found_expr: Option<FoundExpression<E>>,
}

/// Whether the span `start..=end` holds `pos`.
pub open spec fn span_contains(start: int, end: int, pos: int) -> bool {
    start <= pos <= end
}

/// The found expression after one candidate has been offered.
pub open spec fn match_step<E>(
    found: Option<FoundExpression<E>>,
    pos: int,
    candidate: FoundExpression<E>,
) -> Option<FoundExpression<E>> {
    if span_contains(candidate.start as int, candidate.end as int, pos) {
        match found {
            Some(f) => if candidate.end - candidate.start < f.end - f.start {
                Some(candidate)
            } else {
                found
            },
            None => Some(candidate),
        }
    } else {
        found
    }
}

/// The found expression after the candidates `cs` have been offered in order.
pub open spec fn match_all<E>(
    found: Option<FoundExpression<E>>,
    pos: int,
    cs: Seq<FoundExpression<E>>,
) -> Option<FoundExpression<E>>
    decreases cs.len(),
{
    if cs.len() == 0 {
        found
    } else {
        match_step(match_all(found, pos, cs.drop_last()), pos, cs.last())
    }
}

impl<E> ExpressionFinder<E> {
    /// A found expression always contains the search position.
    pub open spec fn wf(&self) -> bool {
        match self.found_expr {
            Some(f) => span_contains(f.start as int, f.end as int, self.search_pos as int),
            None => true,
        }
    }

    /// A finder for `search_pos` that has found nothing yet.
    pub fn new(search_pos: usize) -> (f: Self)
        ensures
            f.search_pos == search_pos,
            f.found_expr is None,
            f.wf(),
    {
        ExpressionFinder { search_pos, found_expr: None }
    }

    /// Checks if the given span includes the search position. If it does,
    /// keeps `expr` when nothing was found yet or when its span is smaller
    /// than that of the expression found so far. Returns whether the span
    /// includes the search position.
    pub fn match_span(&mut self, start: usize, end: usize, expr: E) -> (matched: bool)
        requires
            old(self).wf(),
        ensures
            final(self).wf(),
            final(self).search_pos == old(self).search_pos,
            matched == span_contains(start as int, end as int, old(self).search_pos as int),
            final(self).found_expr == match_step(
                old(self).found_expr,
                old(self).search_pos as int,
                FoundExpression { start, end, expr },
            ),
    {
        if start <= self.search_pos && self.search_pos <= end {
            let replace = match &self.found_expr {
                Some(existing) => (end - start) < (existing.end - existing.start),
                None => true,
            };
            if replace {
                self.found_expr = Some(FoundExpression { start, end, expr });
            }
            true
        } else {
            false
        }
    }
}

/// Law: starting from nothing, after any sequence of candidates the finder
/// holds nothing exactly when no candidate contains the position; otherwise
/// it holds a candidate that contains the position, whose span is no larger
/// than that of any candidate containing the position, and which is the
/// first one offered with a span that small.
pub proof fn lemma_match_all_smallest<E>(pos: int, cs: Seq<FoundExpression<E>>)
    ensures
        match_all(None, pos, cs) is None <==> forall|i: int|
            0 <= i < cs.len() ==> !span_contains(#[trigger] cs[i].start as int, cs[i].end as int, pos),
        match_all(None, pos, cs) matches Some(f) ==> exists|k: int|
            0 <= k < cs.len() && #[trigger] cs[k] == f
                && span_contains(f.start as int, f.end as int, pos)
                && (forall|i: int|
                    0 <= i < cs.len() && span_contains(cs[i].start as int, cs[i].end as int, pos)
                        ==> f.end - f.start <= #[trigger] cs[i].end - cs[i].start)
                && (forall|i: int|
                    0 <= i < k && span_contains(cs[i].start as int, cs[i].end as int, pos)
                        ==> f.end - f.start < #[trigger] cs[i].end - cs[i].start),
    decreases cs.len(),
{
    if cs.len() > 0 {
        let d = cs.drop_last();
        let c = cs.last();
        lemma_match_all_smallest(pos, d);
        let prev = match_all(None, pos, d);
        match prev {
            Some(f) => {
                let k = choose|k: int|
                    0 <= k < d.len() && #[trigger] d[k] == f
                        && span_contains(f.start as int, f.end as int, pos)
                        && (forall|i: int|
                            0 <= i < d.len() && span_contains(d[i].start as int, d[i].end as int, pos)
                                ==> f.end - f.start <= #[trigger] d[i].end - d[i].start)
                        && (forall|i: int|
                            0 <= i < k && span_contains(d[i].start as int, d[i].end as int, pos)
                                ==> f.end - f.start < #[trigger] d[i].end - d[i].start);
                assert(cs[k] == d[k]);
                if span_contains(c.start as int, c.end as int, pos) && c.end - c.start < f.end
                    - f.start {
                    let n = cs.len() - 1;
                    assert(cs[n] == c);
                    assert forall|i: int|
                        0 <= i < cs.len() && span_contains(cs[i].start as int, cs[i].end as int, pos)
                            implies c.end - c.start <= #[trigger] cs[i].end - cs[i].start by {
                        if i < n {
                            assert(cs[i] == d[i]);
                        }
                    }
                    assert forall|i: int|
                        0 <= i < n && span_contains(cs[i].start as int, cs[i].end as int, pos)
                            implies c.end - c.start < #[trigger] cs[i].end - cs[i].start by {
                        assert(cs[i] == d[i]);
                    }
                } else {
                    assert forall|i: int|
                        0 <= i < cs.len() && span_contains(cs[i].start as int, cs[i].end as int, pos)
                            implies f.end - f.start <= #[trigger] cs[i].end - cs[i].start by {
                        if i < cs.len() - 1 {
                            assert(cs[i] == d[i]);
                        }
                    }
                    assert forall|i: int|
                        0 <= i < k && span_contains(cs[i].start as int, cs[i].end as int, pos)
                            implies f.end - f.start < #[trigger] cs[i].end - cs[i].start by {
                        assert(cs[i] == d[i]);
                    }
                }
            },
            None => {
                if span_contains(c.start as int, c.end as int, pos) {
                    let n = cs.len() - 1;
                    assert(cs[n] == c);
                    assert forall|i: int|
                        0 <= i < cs.len() && span_contains(cs[i].start as int, cs[i].end as int, pos)
                            implies c.end - c.start <= #[trigger] cs[i].end - cs[i].start by {
                        if i < n {
                            assert(cs[i] == d[i]);
                        }
                    }
                    assert forall|i: int|
                        0 <= i < n && span_contains(cs[i].start as int, cs[i].end as int, pos)
                            implies c.end - c.start < #[trigger] cs[i].end - cs[i].start by {
                        assert(cs[i] == d[i]);
                    }
                } else {
                    assert forall|i: int| 0 <= i < cs.len() implies !span_contains(
                        #[trigger] cs[i].start as int,
                        cs[i].end as int,
                        pos,
                    ) by {
                        if i < cs.len() - 1 {
                            assert(cs[i] == d[i]);
                        }
                    }
                }
            },
        }
        if match_all(None, pos, cs) is None {
            assert forall|i: int| 0 <= i < cs.len() implies !span_contains(
                #[trigger] cs[i].start as int,
                cs[i].end as int,
                pos,
            ) by {
                if i < cs.len() - 1 {
                    assert(cs[i] == d[i]);
                }
            }
        }
    }
}

} // verus!
