use vstd::prelude::*;

verus! {

/// A piece of parser output: plain text, the start of a tagged block, text
/// inside a tagged block, or the end of a tagged block.
#[derive(Debug, Clone, PartialEq, Eq)]
pub enum TaggedLineSegment<T> {
    Normal(String),
    TagStart(T),
    TagDelta(T, String),
    TagEnd(T),
}

/// A segment with its text taken as a sequence of characters.
pub enum SegmentView<T> {
    Normal(Seq<char>),
    TagStart(T),
    TagDelta(T, Seq<char>),
    TagEnd(T),
}

impl<T> View for TaggedLineSegment<T> {
    type V = SegmentView<T>;

    open spec fn view(&self) -> SegmentView<T> {
        match self {
            TaggedLineSegment::Normal(s) => SegmentView::Normal(s@),
            TaggedLineSegment::TagStart(t) => SegmentView::TagStart(*t),
            TaggedLineSegment::TagDelta(t, s) => SegmentView::TagDelta(*t, s@),
            TaggedLineSegment::TagEnd(t) => SegmentView::TagEnd(*t),
        }
    }
}

/// The views of a list of segments.
pub open spec fn seg_views<T>(segs: Seq<TaggedLineSegment<T>>) -> Seq<SegmentView<T>> {
    segs.map_values(|s: TaggedLineSegment<T>| s@)
}

/// Text, inside the block of `active` when there is one, else outside any block.
pub open spec fn text_segment<T>(active: Option<T>, text: Seq<char>) -> SegmentView<T> {
    match active {
        Some(t) => SegmentView::TagDelta(t, text),
        None => SegmentView::Normal(text),
    }
}

/// Appends `seg` to `segs`: empty text is dropped, and text that follows text
/// of the same kind (outside any block, or inside a block of the same tag) is
/// joined onto it.
pub open spec fn push_seg<T>(segs: Seq<SegmentView<T>>, seg: SegmentView<T>) -> Seq<SegmentView<T>> {
    match seg {
        SegmentView::Normal(d) => {
            if d.len() == 0 {
                segs
            } else if segs.len() > 0 {
                match segs.last() {
                    SegmentView::Normal(prev) => segs.drop_last().push(SegmentView::Normal(prev + d)),
                    _ => segs.push(seg),
                }
            } else {
                segs.push(seg)
            }
        },
        SegmentView::TagDelta(t, d) => {
            if d.len() == 0 {
                segs
            } else if segs.len() > 0 {
                match segs.last() {
                    SegmentView::TagDelta(t0, prev) => if t0 == t {
                        segs.drop_last().push(SegmentView::TagDelta(t, prev + d))
                    } else {
                        segs.push(seg)
                    },
                    _ => segs.push(seg),
                }
            } else {
                segs.push(seg)
            }
        },
        _ => segs.push(seg),
    }
}

/// Appends each of `more`, in order, as `push_seg` does.
pub open spec fn push_all<T>(segs: Seq<SegmentView<T>>, more: Seq<SegmentView<T>>) -> Seq<
    SegmentView<T>,
>
    decreases more.len(),
{
    if more.len() == 0 {
        segs
    } else {
        push_all(push_seg(segs, more[0]), more.drop_first())
    }
}


/// Appending a single segment is pushing it.
pub proof fn lemma_push_all_single<T>(segs: Seq<SegmentView<T>>, e: SegmentView<T>)
    ensures
        push_all(segs, seq![e]) == push_seg(segs, e),
{
    assert(seq![e].drop_first() =~= Seq::<SegmentView<T>>::empty());
    assert(push_all(push_seg(segs, e), Seq::<SegmentView<T>>::empty()) == push_seg(segs, e));
}

/// Pushing one more segment after a list is pushing it after the list's result.
pub proof fn lemma_push_all_snoc<T>(
    segs: Seq<SegmentView<T>>,
    more: Seq<SegmentView<T>>,
    last: SegmentView<T>,
)
    ensures
        push_all(segs, more.push(last)) == push_seg(push_all(segs, more), last),
    decreases more.len(),
{
    if more.len() == 0 {
        assert(more.push(last).drop_first() =~= Seq::<SegmentView<T>>::empty());
        assert(more.push(last)[0] == last);
        assert(push_all(push_seg(segs, last), Seq::<SegmentView<T>>::empty()) == push_seg(segs, last));
    } else {
        assert(more.push(last).drop_first() =~= more.drop_first().push(last));
        assert(more.push(last)[0] == more[0]);
        lemma_push_all_snoc(push_seg(segs, more[0]), more.drop_first(), last);
    }
}

/// Two texts of the same kind pushed one after the other give their joined text.
pub proof fn lemma_push_text_twice<T>(
    segs: Seq<SegmentView<T>>,
    active: Option<T>,
    a: Seq<char>,
    b: Seq<char>,
)
    ensures
        push_seg(push_seg(segs, text_segment(active, a)), text_segment(active, b)) == push_seg(
            segs,
            text_segment(active, a + b),
        ),
{
    if a.len() == 0 {
        assert(a + b =~= b);
    } else if b.len() == 0 {
        assert(a + b =~= a);
    } else {
        let once = push_seg(segs, text_segment(active, a));
        assert(once.drop_last() =~= segs.drop_last() || once.drop_last() =~= segs);
        if segs.len() > 0 {
            match (segs.last(), active) {
                (SegmentView::Normal(prev), None) => {
                    assert(prev + a + b =~= prev + (a + b));
                    assert(once.drop_last() =~= segs.drop_last());
                },
                (SegmentView::TagDelta(t0, prev), Some(t)) => {
                    if t0 == t {
                        assert(prev + a + b =~= prev + (a + b));
                        assert(once.drop_last() =~= segs.drop_last());
                    } else {
                        assert(once.drop_last() =~= segs);
                    }
                },
                _ => {
                    assert(once.drop_last() =~= segs);
                },
            }
        } else {
            assert(once.drop_last() =~= segs);
        }
    }
}

/// Pushing onto a list and then appending it is appending the list and then pushing.
pub proof fn lemma_push_all_push_seg<T>(
    out: Seq<SegmentView<T>>,
    x: Seq<SegmentView<T>>,
    e: SegmentView<T>,
)
    ensures
        push_all(out, push_seg(x, e)) == push_seg(push_all(out, x), e),
{
    let joined = match e {
        SegmentView::Normal(d) => d.len() > 0 && x.len() > 0 && x.last() is Normal,
        SegmentView::TagDelta(t, d) => d.len() > 0 && x.len() > 0 && (match x.last() {
            SegmentView::TagDelta(t0, _) => t0 == t,
            _ => false,
        }),
        _ => false,
    };
    let empty_text = match e {
        SegmentView::Normal(d) => d.len() == 0,
        SegmentView::TagDelta(_, d) => d.len() == 0,
        _ => false,
    };
    if empty_text {
    } else if joined {
        let init = x.drop_last();
        assert(x =~= init.push(x.last()));
        lemma_push_all_snoc(out, init, x.last());
        match (x.last(), e) {
            (SegmentView::Normal(prev), SegmentView::Normal(d)) => {
                lemma_push_all_snoc(out, init, SegmentView::Normal(prev + d));
                lemma_push_text_twice(push_all(out, init), None, prev, d);
            },
            (SegmentView::TagDelta(t0, prev), SegmentView::TagDelta(t, d)) => {
                lemma_push_all_snoc(out, init, SegmentView::TagDelta(t, prev + d));
                lemma_push_text_twice(push_all(out, init), Some(t), prev, d);
            },
            _ => {},
        }
    } else {
        lemma_push_all_snoc(out, x, e);
    }
}

/// Appending a list that was itself built by pushing is pushing its parts in turn.
pub proof fn lemma_push_all_assoc<T>(
    out: Seq<SegmentView<T>>,
    x: Seq<SegmentView<T>>,
    y: Seq<SegmentView<T>>,
)
    ensures
        push_all(out, push_all(x, y)) == push_all(push_all(out, x), y),
    decreases y.len(),
{
    if y.len() > 0 {
        let init = y.drop_last();
        assert(y =~= init.push(y.last()));
        lemma_push_all_snoc(x, init, y.last());
        lemma_push_all_snoc(push_all(out, x), init, y.last());
        lemma_push_all_push_seg(out, push_all(x, init), y.last());
        lemma_push_all_assoc(out, x, init);
    }
}

/// The block state after a single segment.
pub open spec fn block_step<T>(active: Option<T>, s: SegmentView<T>) -> Option<Option<T>> {
    match s {
        SegmentView::Normal(_) => if active is None {
            Some(active)
        } else {
            None
        },
        SegmentView::TagDelta(t, _) => if active == Some(t) {
            Some(active)
        } else {
            None
        },
        SegmentView::TagStart(t) => if active is None {
            Some(Some(t))
        } else {
            None
        },
        SegmentView::TagEnd(t) => if active == Some(t) {
            Some(None)
        } else {
            None
        },
    }
}

/// Follows `segs` from the block state `active` (the open block, if any):
/// plain text only outside any block, block text only inside its block, a
/// start only outside any block and an end only of the open block. The block
/// state at the end, or `None` where some segment breaks these rules.
pub open spec fn block_trace<T>(active: Option<T>, segs: Seq<SegmentView<T>>) -> Option<Option<T>>
    decreases segs.len(),
{
    if segs.len() == 0 {
        Some(active)
    } else {
        match block_step(active, segs[0]) {
            Some(a) => block_trace(a, segs.drop_first()),
            None => None,
        }
    }
}

/// Following two lists one after the other is following their concatenation.
pub proof fn lemma_block_trace_concat<T>(
    active: Option<T>,
    x: Seq<SegmentView<T>>,
    y: Seq<SegmentView<T>>,
)
    ensures
        block_trace(active, x + y) == match block_trace(active, x) {
            Some(b) => block_trace(b, y),
            None => None,
        },
    decreases x.len(),
{
    if x.len() == 0 {
        assert(x + y =~= y);
    } else {
        assert((x + y)[0] == x[0]);
        assert((x + y).drop_first() =~= x.drop_first() + y);
        let next = block_step(active, x[0]);
        if let Some(a) = next {
            lemma_block_trace_concat(a, x.drop_first(), y);
        }
    }
}

/// Following a single segment is taking one block step.
pub proof fn lemma_block_trace_single<T>(active: Option<T>, s: SegmentView<T>)
    ensures
        block_trace(active, seq![s]) == block_step(active, s),
{
    reveal_with_fuel(block_trace, 2);
    assert(seq![s].drop_first() =~= Seq::<SegmentView<T>>::empty());
    assert(seq![s][0] == s);
}

/// Pushing a segment that fits the block state keeps the list consistent.
pub proof fn lemma_block_trace_push_seg<T>(
    active: Option<T>,
    x: Seq<SegmentView<T>>,
    e: SegmentView<T>,
    b: Option<T>,
    c: Option<T>,
)
    requires
        block_trace(active, x) == Some(b),
        block_trace(b, seq![e]) == Some(c),
    ensures
        block_trace(active, push_seg(x, e)) == Some(c),
{
    lemma_block_trace_single(b, e);
    lemma_block_trace_concat(active, x, seq![e]);
    assert(x.push(e) =~= x + seq![e]);
    if x.len() > 0 {
        let init = x.drop_last();
        let last = x.last();
        assert(x =~= init + seq![last]);
        lemma_block_trace_concat(active, init, seq![last]);
        lemma_block_trace_single(block_trace(active, init)->0, last);
        match (last, e) {
            (SegmentView::Normal(p), SegmentView::Normal(d)) => {
                let m = SegmentView::Normal(p + d);
                lemma_block_trace_single(block_trace(active, init)->0, m);
                lemma_block_trace_concat(active, init, seq![m]);
                assert(init.push(m) =~= init + seq![m]);
            },
            (SegmentView::TagDelta(t0, p), SegmentView::TagDelta(t, d)) => {
                let m = SegmentView::TagDelta(t, p + d);
                lemma_block_trace_single(block_trace(active, init)->0, m);
                lemma_block_trace_concat(active, init, seq![m]);
                assert(init.push(m) =~= init + seq![m]);
            },
            _ => {},
        }
    }
}

/// Appending a list that fits the block state keeps the list consistent.
pub proof fn lemma_block_trace_push_all<T>(
    active: Option<T>,
    x: Seq<SegmentView<T>>,
    ev: Seq<SegmentView<T>>,
    b: Option<T>,
    c: Option<T>,
)
    requires
        block_trace(active, x) == Some(b),
        block_trace(b, ev) == Some(c),
    ensures
        block_trace(active, push_all(x, ev)) == Some(c),
    decreases ev.len(),
{
    if ev.len() > 0 {
        let e = ev[0];
        let first = seq![e];
        assert(first.drop_first() =~= Seq::<SegmentView<T>>::empty());
        assert(ev =~= first + ev.drop_first());
        lemma_block_trace_concat(b, first, ev.drop_first());
        let mid = block_trace(b, first)->0;
        lemma_block_trace_push_seg(active, x, e, b, mid);
        lemma_block_trace_push_all(active, push_seg(x, e), ev.drop_first(), mid, c);
    }
}

/// Two segments that `push_seg` would join: texts of the same kind.
pub open spec fn joinable<T>(a: SegmentView<T>, b: SegmentView<T>) -> bool {
    match (a, b) {
        (SegmentView::Normal(_), SegmentView::Normal(_)) => true,
        (SegmentView::TagDelta(t0, _), SegmentView::TagDelta(t1, _)) => t0 == t1,
        _ => false,
    }
}

/// A segment that is not an empty text.
pub open spec fn not_empty_text<T>(s: SegmentView<T>) -> bool {
    match s {
        SegmentView::Normal(d) => d.len() > 0,
        SegmentView::TagDelta(_, d) => d.len() > 0,
        _ => true,
    }
}

/// No empty text, and no two neighbouring texts of the same kind.
pub open spec fn is_normalized<T>(segs: Seq<SegmentView<T>>) -> bool {
    &&& forall|i: int| 0 <= i < segs.len() ==> #[trigger] not_empty_text(segs[i])
    &&& forall|i: int, j: int|
        0 <= i && j == i + 1 && j < segs.len() ==> !joinable(#[trigger] segs[i], #[trigger] segs[j])
}

/// Pushing onto a normalized list leaves it normalized.
pub proof fn lemma_push_seg_normalized<T>(segs: Seq<SegmentView<T>>, e: SegmentView<T>)
    requires
        is_normalized(segs),
    ensures
        is_normalized(push_seg(segs, e)),
{
    let r = push_seg(segs, e);
    if r.len() > 0 && r.len() == segs.len() && r != segs {
        assert(r.drop_last() =~= segs.drop_last());
        assert forall|i: int| 0 <= i < r.len() implies #[trigger] not_empty_text(r[i]) by {
            if i < r.len() - 1 {
                assert(r[i] == segs[i]);
            }
        }
        assert forall|i: int, j: int|
            0 <= i && j == i + 1 && j < r.len() implies !joinable(#[trigger] r[i], #[trigger] r[j]) by {
            assert(r[i] == segs[i]);
            if j < r.len() - 1 {
                assert(r[j] == segs[j]);
            } else {
                assert(joinable(segs[i], segs[j]) == joinable(r[i], r[j]));
            }
        }
    } else if r.len() == segs.len() + 1 {
        assert(r =~= segs.push(e));
        assert forall|i: int, j: int|
            0 <= i && j == i + 1 && j < r.len() implies !joinable(#[trigger] r[i], #[trigger] r[j]) by {
            if j < segs.len() {
                assert(r[i] == segs[i] && r[j] == segs[j]);
            }
        }
    }
}

/// Appending onto a normalized list leaves it normalized.
pub proof fn lemma_push_all_normalized<T>(segs: Seq<SegmentView<T>>, more: Seq<SegmentView<T>>)
    requires
        is_normalized(segs),
    ensures
        is_normalized(push_all(segs, more)),
    decreases more.len(),
{
    if more.len() > 0 {
        lemma_push_seg_normalized(segs, more[0]);
        lemma_push_all_normalized(push_seg(segs, more[0]), more.drop_first());
    }
}

/// Appends `segment` to `segments`, joining text onto text of the same kind.
pub fn push_segment<T: Copy + TagKind>(
    segments: &mut Vec<TaggedLineSegment<T>>,
    segment: TaggedLineSegment<T>,
)
    ensures
        seg_views(final(segments)@) == push_seg(seg_views(old(segments)@), segment@),
{
    let ghost old_views = seg_views(segments@);
    match segment {
        TaggedLineSegment::Normal(delta) => {
            if delta.as_str().is_empty() {
                return;
            }
            match segments.pop() {
                Some(TaggedLineSegment::Normal(mut existing)) => {
                    existing.append(delta.as_str());
                    segments.push(TaggedLineSegment::Normal(existing));
                },
                Some(other) => {
                    segments.push(other);
                    segments.push(TaggedLineSegment::Normal(delta));
                },
                None => {
                    segments.push(TaggedLineSegment::Normal(delta));
                },
            }
        },
        TaggedLineSegment::TagDelta(tag, delta) => {
            if delta.as_str().is_empty() {
                return;
            }
            match segments.pop() {
                Some(TaggedLineSegment::TagDelta(existing_tag, mut existing)) => {
                    if existing_tag.same_tag(&tag) {
                        existing.append(delta.as_str());
                        segments.push(TaggedLineSegment::TagDelta(existing_tag, existing));
                    } else {
                        segments.push(TaggedLineSegment::TagDelta(existing_tag, existing));
                        segments.push(TaggedLineSegment::TagDelta(tag, delta));
                    }
                },
                Some(other) => {
                    segments.push(other);
                    segments.push(TaggedLineSegment::TagDelta(tag, delta));
                },
                None => {
                    segments.push(TaggedLineSegment::TagDelta(tag, delta));
                },
            }
        },
        TaggedLineSegment::TagStart(tag) => {
            segments.push(TaggedLineSegment::TagStart(tag));
        },
        TaggedLineSegment::TagEnd(tag) => {
            segments.push(TaggedLineSegment::TagEnd(tag));
        },
    }
    assert(seg_views(segments@) =~= push_seg(old_views, segment@));
}

/// A kind of tag that can be told apart from another at run time.
pub trait TagKind: Copy {
    /// Whether `self` and `other` are the same tag.
    fn same_tag(&self, other: &Self) -> (r: bool)
        ensures
            r == (*self == *other),
    ;
}

} // verus!
