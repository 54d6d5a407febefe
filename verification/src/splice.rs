use vstd::prelude::*;

use crate::segment::{
    lemma_push_all_single, lemma_push_all_snoc, push_all, push_seg, text_segment, SegmentView,
};
use crate::tagged::{
    close_line, feed, finish_spec, flush_at_end, lemma_step_wf, step, tagger_wf, TaggerView,
};

verus! {

/// A segment that stands for a whole tag line: a start or an end.
pub open spec fn is_tag_event<T>(s: SegmentView<T>) -> bool {
    s is TagStart || s is TagEnd
}

/// The number of starts and ends in `segs`.
pub open spec fn tag_count<T>(segs: Seq<SegmentView<T>>) -> nat
    decreases segs.len(),
{
    if segs.len() == 0 {
        0
    } else {
        tag_count(segs.drop_last()) + if is_tag_event(segs.last()) {
            1nat
        } else {
            0nat
        }
    }
}

/// The text of `segs` with `lines` put back, in order, in place of the starts
/// and ends: text segments give their text, and each start or end gives the
/// next of `lines`.
pub open spec fn spliced<T>(segs: Seq<SegmentView<T>>, lines: Seq<Seq<char>>) -> Seq<char>
    decreases segs.len(),
{
    if segs.len() == 0 {
        Seq::empty()
    } else {
        match segs.last() {
            SegmentView::Normal(d) => spliced(segs.drop_last(), lines) + d,
            SegmentView::TagDelta(_, d) => spliced(segs.drop_last(), lines) + d,
            _ => spliced(segs.drop_last(), lines.drop_last()) + lines.last(),
        }
    }
}

/// The tag line that one character completes and that a start or end stands
/// for, if it completes one.
pub open spec fn step_lines<T>(v: TaggerView<T>, c: char) -> Seq<Seq<char>> {
    let line = v.buffer.push(c);
    if v.detect && c == '\n' && is_tag_event(close_line(TaggerView { buffer: line, ..v }).1[0]) {
        seq![line]
    } else {
        Seq::empty()
    }
}

/// The tag lines that feeding `cs` from `v` consumes, in order.
pub open spec fn feed_lines<T>(v: TaggerView<T>, cs: Seq<char>) -> Seq<Seq<char>>
    decreases cs.len(),
{
    if cs.len() == 0 {
        Seq::empty()
    } else {
        step_lines(v, cs[0]) + feed_lines(step(v, cs[0]).0, cs.drop_first())
    }
}

/// The lines that the starts and ends of finishing stand for: the held-back
/// line when it is a tag line, and an empty line for a block that the end of
/// input closes.
pub open spec fn finish_lines<T>(v: TaggerView<T>) -> Seq<Seq<char>> {
    let flushed = if v.buffer.len() > 0 && is_tag_event(flush_at_end(v).1[0]) {
        seq![v.buffer]
    } else {
        Seq::empty()
    };
    let v1 = if v.buffer.len() > 0 {
        flush_at_end(v).0
    } else {
        v
    };
    if v1.active is Some {
        flushed.push(Seq::empty())
    } else {
        flushed
    }
}

/// Pushing text adds its text; joining does not change the spliced text.
proof fn lemma_spliced_push_text<T>(
    segs: Seq<SegmentView<T>>,
    lines: Seq<Seq<char>>,
    active: Option<T>,
    d: Seq<char>,
)
    ensures
        spliced(push_seg(segs, text_segment(active, d)), lines) == spliced(segs, lines) + d,
        tag_count(push_seg(segs, text_segment(active, d))) == tag_count(segs),
{
    let r = push_seg(segs, text_segment(active, d));
    if d.len() == 0 {
        assert(spliced(segs, lines) + d =~= spliced(segs, lines));
    } else if r.len() == segs.len() + 1 {
        assert(r.drop_last() =~= segs);
    } else {
        assert(r.drop_last() =~= segs.drop_last());
        match (segs.last(), active) {
            (SegmentView::Normal(p), None) => {
                assert(spliced(segs.drop_last(), lines) + (p + d) =~= spliced(segs.drop_last(), lines)
                    + p + d);
            },
            (SegmentView::TagDelta(_, p), Some(_)) => {
                assert(spliced(segs.drop_last(), lines) + (p + d) =~= spliced(segs.drop_last(), lines)
                    + p + d);
            },
            _ => {},
        }
    }
}

/// Pushing a start or end adds the line it stands for.
proof fn lemma_spliced_push_tag<T>(
    segs: Seq<SegmentView<T>>,
    lines: Seq<Seq<char>>,
    e: SegmentView<T>,
    line: Seq<char>,
)
    requires
        is_tag_event(e),
    ensures
        spliced(push_seg(segs, e), lines.push(line)) == spliced(segs, lines) + line,
        tag_count(push_seg(segs, e)) == tag_count(segs) + 1,
{
    let r = push_seg(segs, e);
    assert(r =~= segs.push(e));
    assert(r.drop_last() =~= segs);
    assert(lines.push(line).drop_last() =~= lines);
}

/// One character: the spliced text grows by what leaves the held-back line.
proof fn lemma_step_spliced<T>(
    v: TaggerView<T>,
    c: char,
    out: Seq<SegmentView<T>>,
    lines: Seq<Seq<char>>,
)
    requires
        tagger_wf(v),
    ensures
        spliced(push_all(out, step(v, c).1), lines + step_lines(v, c)) + step(v, c).0.buffer
            == spliced(out, lines) + v.buffer.push(c),
        tag_count(push_all(out, step(v, c).1)) == tag_count(out) + step_lines(v, c).len(),
{
    let (v2, ev) = step(v, c);
    let line = v.buffer.push(c);
    if v.detect {
        if c == '\n' {
            let e = ev[0];
            assert(ev =~= seq![e]);
            lemma_push_all_single(out, e);
            if is_tag_event(e) {
                lemma_spliced_push_tag(out, lines, e, line);
                assert(lines + step_lines(v, c) =~= lines.push(line));
            } else {
                assert(e == text_segment(v.active, line));
                lemma_spliced_push_text(out, lines, v.active, line);
                assert(lines + step_lines(v, c) =~= lines);
            }
            assert(v2.buffer =~= Seq::<char>::empty());
        } else if ev.len() == 0 {
            assert(lines + step_lines(v, c) =~= lines);
            assert(push_all(out, ev) == out);
            assert(spliced(out, lines) + line =~= spliced(out, lines) + v.buffer.push(c));
        } else {
            assert(ev =~= seq![text_segment(v.active, line)]);
            lemma_push_all_single(out, text_segment(v.active, line));
            lemma_spliced_push_text(out, lines, v.active, line);
            assert(lines + step_lines(v, c) =~= lines);
            assert(v2.buffer =~= Seq::<char>::empty());
        }
    } else {
        assert(ev =~= seq![text_segment(v.active, seq![c])]);
        lemma_push_all_single(out, text_segment(v.active, seq![c]));
        lemma_spliced_push_text(out, lines, v.active, seq![c]);
        assert(lines + step_lines(v, c) =~= lines);
        assert(v.buffer =~= Seq::<char>::empty());
        assert(line =~= seq![c]);
    }
}

/// Feeding: the spliced output and what is held back make up what was held
/// back before and the characters fed.
pub proof fn lemma_feed_spliced<T>(
    v: TaggerView<T>,
    cs: Seq<char>,
    out: Seq<SegmentView<T>>,
    lines: Seq<Seq<char>>,
)
    requires
        tagger_wf(v),
    ensures
        spliced(feed(v, cs, out).1, lines + feed_lines(v, cs)) + feed(v, cs, out).0.buffer
            == spliced(out, lines) + v.buffer + cs,
        tag_count(feed(v, cs, out).1) == tag_count(out) + feed_lines(v, cs).len(),
    decreases cs.len(),
{
    if cs.len() == 0 {
        assert(lines + feed_lines(v, cs) =~= lines);
        assert(v.buffer + cs =~= v.buffer);
        assert(spliced(out, lines) + v.buffer + cs =~= spliced(out, lines) + v.buffer);
    } else {
        let c = cs[0];
        let (v2, ev) = step(v, c);
        let out2 = push_all(out, ev);
        let lines2 = lines + step_lines(v, c);
        lemma_step_spliced(v, c, out, lines);
        lemma_step_wf(v, c);
        lemma_feed_spliced(v2, cs.drop_first(), out2, lines2);
        assert(lines + feed_lines(v, cs) =~= lines2 + feed_lines(v2, cs.drop_first()));
        assert(v.buffer.push(c) + cs.drop_first() =~= v.buffer + cs);
        assert(spliced(out2, lines2) + v2.buffer + cs.drop_first() =~= spliced(out, lines)
            + v.buffer.push(c) + cs.drop_first());
        assert(spliced(out, lines) + v.buffer.push(c) + cs.drop_first() =~= spliced(out, lines)
            + v.buffer + cs);
    }
}

/// Finishing: the spliced output gives back the held-back line.
pub proof fn lemma_finish_spliced<T>(
    v: TaggerView<T>,
    out: Seq<SegmentView<T>>,
    lines: Seq<Seq<char>>,
)
    ensures
        spliced(push_all(out, finish_spec(v).1), lines + finish_lines(v)) == spliced(out, lines)
            + v.buffer,
        tag_count(push_all(out, finish_spec(v).1)) == tag_count(out) + finish_lines(v).len(),
{
    let empty = Seq::<SegmentView<T>>::empty();
    let (v1, ev1) = if v.buffer.len() > 0 {
        flush_at_end(v)
    } else {
        (v, empty)
    };
    let flushed = if v.buffer.len() > 0 && is_tag_event(flush_at_end(v).1[0]) {
        seq![v.buffer]
    } else {
        Seq::<Seq<char>>::empty()
    };
    let mid = push_all(out, ev1);
    if v.buffer.len() > 0 {
        let e = ev1[0];
        assert(ev1 =~= seq![e]);
        lemma_push_all_single(out, e);
        if is_tag_event(e) {
            lemma_spliced_push_tag(out, lines, e, v.buffer);
            assert(lines + flushed =~= lines.push(v.buffer));
        } else {
            assert(e == text_segment(v.active, v.buffer));
            lemma_spliced_push_text(out, lines, v.active, v.buffer);
            assert(lines + flushed =~= lines);
        }
    } else {
        assert(lines + flushed =~= lines);
        assert(spliced(out, lines) + v.buffer =~= spliced(out, lines));
    }
    assert(spliced(mid, lines + flushed) == spliced(out, lines) + v.buffer);
    match v1.active {
        Some(t) => {
            let e = SegmentView::<T>::TagEnd(t);
            lemma_push_all_snoc(out, ev1, e);
            assert(finish_spec(v).1 =~= ev1.push(e));
            lemma_spliced_push_tag(mid, lines + flushed, e, Seq::empty());
            assert(lines + finish_lines(v) =~= (lines + flushed).push(Seq::empty()));
            assert(spliced(mid, lines + flushed) + Seq::<char>::empty() =~= spliced(
                mid,
                lines + flushed,
            ));
        },
        None => {
            assert(finish_spec(v).1 == ev1);
            assert(lines + finish_lines(v) =~= lines + flushed);
        },
    }
}

/// The spliced text of a concatenation is the spliced texts of its parts.
pub proof fn lemma_spliced_concat<T>(
    x: Seq<SegmentView<T>>,
    lx: Seq<Seq<char>>,
    y: Seq<SegmentView<T>>,
    ly: Seq<Seq<char>>,
)
    requires
        tag_count(x) == lx.len(),
        tag_count(y) == ly.len(),
    ensures
        spliced(x + y, lx + ly) == spliced(x, lx) + spliced(y, ly),
        tag_count(x + y) == tag_count(x) + tag_count(y),
    decreases y.len(),
{
    if y.len() == 0 {
        assert(x + y =~= x);
        assert(spliced(x, lx) + spliced(y, ly) =~= spliced(x, lx));
        assert(lx + ly =~= lx);
    } else {
        assert((x + y).drop_last() =~= x + y.drop_last());
        assert((x + y).last() == y.last());
        if is_tag_event(y.last()) {
            assert((lx + ly).drop_last() =~= lx + ly.drop_last());
            lemma_spliced_concat(x, lx, y.drop_last(), ly.drop_last());
            assert((lx + ly).last() == ly.last());
            match y.last() {
                SegmentView::TagStart(_) => {},
                SegmentView::TagEnd(_) => {},
                _ => {},
            }
        } else {
            lemma_spliced_concat(x, lx, y.drop_last(), ly);
        }
        match y.last() {
            SegmentView::Normal(d) => {
                assert(spliced(x, lx) + spliced(y.drop_last(), ly) + d =~= spliced(x, lx) + (
                spliced(y.drop_last(), ly) + d));
            },
            SegmentView::TagDelta(_, d) => {
                assert(spliced(x, lx) + spliced(y.drop_last(), ly) + d =~= spliced(x, lx) + (
                spliced(y.drop_last(), ly) + d));
            },
            _ => {
                assert(spliced(x, lx) + spliced(y.drop_last(), ly.drop_last()) + ly.last()
                    =~= spliced(x, lx) + (spliced(y.drop_last(), ly.drop_last()) + ly.last()));
            },
        }
    }
}

} // verus!
