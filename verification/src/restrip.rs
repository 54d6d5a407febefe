use vstd::prelude::*;

use crate::segment::{push_all, push_seg, SegmentView};
use crate::tagged::{
    feed, find_open, finish_spec, flush_at_end, is_tag_prefix_spec, lemma_feed_split,
    spec_has_prefix, step, tagger_wf, TagSpec, TaggerView,
};
use crate::text::{starts_with, trim_start_seq};

verus! {

/// The text of the plain (outside any block) segments of `segs`, in order.
pub open spec fn normal_of<T>(segs: Seq<SegmentView<T>>) -> Seq<char>
    decreases segs.len(),
{
    if segs.len() == 0 {
        Seq::empty()
    } else {
        normal_of(segs.drop_last()) + match segs.last() {
            SegmentView::Normal(d) => d,
            _ => Seq::empty(),
        }
    }
}

/// Every segment of `segs` is plain text.
pub open spec fn all_normal<T>(segs: Seq<SegmentView<T>>) -> bool {
    forall|i: int| 0 <= i < segs.len() ==> #[trigger] segs[i] is Normal
}

/// The plain text of a concatenation is the plain texts of its parts.
pub proof fn lemma_normal_of_concat<T>(x: Seq<SegmentView<T>>, y: Seq<SegmentView<T>>)
    ensures
        normal_of(x + y) == normal_of(x) + normal_of(y),
    decreases y.len(),
{
    if y.len() == 0 {
        assert(x + y =~= x);
        assert(normal_of(x) + normal_of(y) =~= normal_of(x));
    } else {
        assert((x + y).drop_last() =~= x + y.drop_last());
        assert((x + y).last() == y.last());
        lemma_normal_of_concat(x, y.drop_last());
        let tail = match y.last() {
            SegmentView::Normal(d) => d,
            _ => Seq::<char>::empty(),
        };
        assert(normal_of(x) + normal_of(y.drop_last()) + tail =~= normal_of(x) + (normal_of(
            y.drop_last(),
        ) + tail));
    }
}

/// Joining a pushed segment does not change the plain text.
pub proof fn lemma_normal_of_push_seg<T>(segs: Seq<SegmentView<T>>, e: SegmentView<T>)
    ensures
        normal_of(push_seg(segs, e)) == normal_of(segs) + normal_of(seq![e]),
{
    assert(seq![e].drop_last() =~= Seq::<SegmentView<T>>::empty());
    let r = push_seg(segs, e);
    let te = match e {
        SegmentView::Normal(d) => d,
        _ => Seq::<char>::empty(),
    };
    assert(seq![e].last() == e);
    assert(normal_of(Seq::<SegmentView<T>>::empty()) == Seq::<char>::empty());
    assert(normal_of(seq![e]) =~= te);
    if r == segs {
        assert(normal_of(segs) + te =~= normal_of(segs));
    } else if r.len() == segs.len() + 1 {
        assert(r.drop_last() =~= segs);
    } else {
        assert(r.drop_last() =~= segs.drop_last());
        match (segs.last(), e) {
            (SegmentView::Normal(p), SegmentView::Normal(d)) => {
                assert(normal_of(segs.drop_last()) + (p + d) =~= normal_of(segs.drop_last()) + p + d);
            },
            _ => {},
        }
    }
}

/// Appending segments adds their plain text.
pub proof fn lemma_normal_of_push_all<T>(segs: Seq<SegmentView<T>>, more: Seq<SegmentView<T>>)
    ensures
        normal_of(push_all(segs, more)) == normal_of(segs) + normal_of(more),
    decreases more.len(),
{
    if more.len() == 0 {
        assert(normal_of(segs) + normal_of(more) =~= normal_of(segs));
    } else {
        let e = more[0];
        lemma_normal_of_push_seg(segs, e);
        lemma_normal_of_push_all(push_seg(segs, e), more.drop_first());
        assert(more =~= seq![e] + more.drop_first());
        lemma_normal_of_concat(seq![e], more.drop_first());
        assert(normal_of(segs) + normal_of(seq![e]) + normal_of(more.drop_first()) =~= normal_of(
            segs,
        ) + (normal_of(seq![e]) + normal_of(more.drop_first())));
    }
}

/// Pushing plain text onto plain text keeps it plain.
pub proof fn lemma_all_normal_push_all<T>(segs: Seq<SegmentView<T>>, more: Seq<SegmentView<T>>)
    requires
        all_normal(segs),
        all_normal(more),
    ensures
        all_normal(push_all(segs, more)),
    decreases more.len(),
{
    if more.len() > 0 {
        let e = more[0];
        assert(e is Normal);
        let r = push_seg(segs, e);
        assert forall|i: int| 0 <= i < r.len() implies #[trigger] r[i] is Normal by {
            if i < segs.len() - 1 || (r.len() == segs.len() + 1 && i < segs.len()) {
                assert(r[i] == segs[i]);
            }
        }
        assert forall|i: int| 0 <= i < more.drop_first().len() implies #[trigger] more.drop_first()[i] is Normal by {
            assert(more.drop_first()[i] == more[i + 1]);
        }
        lemma_all_normal_push_all(r, more.drop_first());
    }
}

/// The held-back part of a line: only whitespace or the start of a tag line.
pub open spec fn held_ok<T>(specs: Seq<TagSpec<T>>, b: Seq<char>) -> bool {
    trim_start_seq(b).len() == 0 || is_tag_prefix_spec(specs, trim_start_seq(b))
}

/// The start of a prefix is a prefix of the start.
proof fn lemma_trim_start_take(b: Seq<char>, k: int)
    requires
        0 <= k <= b.len(),
    ensures
        trim_start_seq(b.take(k)).len() <= trim_start_seq(b).len(),
        trim_start_seq(b.take(k)) == trim_start_seq(b).take(trim_start_seq(b.take(k)).len() as int),
    decreases b.len(),
{
    crate::text::lemma_trim_start_len(b);
    if k == 0 {
        assert(b.take(0) =~= Seq::<char>::empty());
        assert(trim_start_seq(b).take(0) =~= Seq::<char>::empty());
    } else if crate::text::is_whitespace_char(b[0]) {
        assert(b.take(k).drop_first() =~= b.drop_first().take(k - 1));
        lemma_trim_start_take(b.drop_first(), k - 1);
    } else {
        assert(trim_start_seq(b.take(k)) == b.take(k));
        assert(b.take(k) =~= b.take(k));
    }
}

/// Every prefix of a line that may be held back may be held back too.
proof fn lemma_held_ok_take<T>(specs: Seq<TagSpec<T>>, b: Seq<char>, k: int)
    requires
        held_ok(specs, b),
        0 <= k <= b.len(),
    ensures
        held_ok(specs, b.take(k)),
{
    lemma_trim_start_take(b, k);
    let s = trim_start_seq(b);
    let p = trim_start_seq(b.take(k));
    if p.len() > 0 {
        let i = choose|i: int| 0 <= i < specs.len() && #[trigger] spec_has_prefix(specs[i], s);
        assert(p =~= s.take(p.len() as int));
        if starts_with(specs[i].open@, s) {
            assert(specs[i].open@.take(p.len() as int) =~= s.take(p.len() as int));
        } else {
            assert(specs[i].close@.take(p.len() as int) =~= s.take(p.len() as int));
        }
        assert(spec_has_prefix(specs[i], p));
    }
}

/// From the start of a line, characters that may all be held back are held
/// back: nothing is given out and they make up the held-back line.
pub proof fn lemma_feed_held<T>(v: TaggerView<T>, b: Seq<char>, out: Seq<SegmentView<T>>)
    requires
        v.detect,
        v.buffer.len() == 0,
        !b.contains('\n'),
        held_ok(v.specs, b),
    ensures
        feed(v, b, out) == (TaggerView { buffer: b, ..v }, out),
    decreases b.len(),
{
    if b.len() == 0 {
        assert(TaggerView { buffer: b, ..v } == v) by {
            assert(b =~= v.buffer);
        }
    } else {
        let init = b.drop_last();
        let l = b.last();
        assert(b =~= init + seq![l]);
        assert(b.take(init.len() as int) =~= init);
        lemma_held_ok_take(v.specs, b, init.len() as int);
        assert(!init.contains('\n')) by {
            if init.contains('\n') {
                let j = choose|j: int| 0 <= j < init.len() && init[j] == '\n';
                assert(b[j] == '\n');
            }
        }
        lemma_feed_held(v, init, out);
        lemma_feed_split(v, init, seq![l], out);
        let vi = TaggerView { buffer: init, ..v };
        assert(l != '\n') by {
            assert(b[b.len() - 1] == l);
        }
        assert(init.push(l) =~= b);
        assert(seq![l].drop_first() =~= Seq::<char>::empty());
        assert(vi.buffer.push(l) =~= b);
        let (v2, ev) = step(vi, l);
        assert(v2 == TaggerView { buffer: b, ..v });
        assert(ev =~= Seq::<SegmentView<T>>::empty());
        assert(seq![l][0] == l);
        assert(push_all(out, ev) == out);
        assert(feed(vi, seq![l], out) == feed(v2, seq![l].drop_first(), push_all(out, ev)));
        assert(feed(v2, Seq::<char>::empty(), out) == (v2, out));
    }
}

/// The state of a second parser, fed only the plain text that the first one
/// gives out, while the first one is in state `vt`: outside any block, nothing
/// held back, and mid-line exactly when the first one is mid-line outside a
/// block.
pub open spec fn shadows<T>(vt: TaggerView<T>, vu: TaggerView<T>) -> bool {
    &&& vu.active is None
    &&& vu.specs == vt.specs
    &&& vu.buffer.len() == 0
    &&& vu.detect == !(vt.active is None && !vt.detect)
}

/// The plain text that feeding `cs` from `v` gives out.
pub open spec fn feed_normal<T>(v: TaggerView<T>, cs: Seq<char>) -> Seq<char>
    decreases cs.len(),
{
    if cs.len() == 0 {
        Seq::empty()
    } else {
        normal_of(step(v, cs[0]).1) + feed_normal(step(v, cs[0]).0, cs.drop_first())
    }
}

/// A held-back line is held back again by a second parser, which then decides
/// the same character the same way.
proof fn lemma_shadow_line<T>(vt: TaggerView<T>, vu: TaggerView<T>, c: char, ou: Seq<SegmentView<T>>)
    requires
        tagger_wf(vt),
        vt.detect,
        vt.active is None,
        shadows(vt, vu),
        step(vt, c).1 == seq![SegmentView::<T>::Normal(vt.buffer.push(c))],
    ensures
        feed(vu, vt.buffer.push(c), ou) == (
            TaggerView { specs: vu.specs, active: None, detect: step(vt, c).0.detect, buffer: Seq::empty() },
            push_all(ou, seq![SegmentView::<T>::Normal(vt.buffer.push(c))]),
        ),
{
    let b = vt.buffer;
    let line = b.push(c);
    lemma_feed_held(vu, b, ou);
    lemma_feed_split(vu, b, seq![c], ou);
    assert(line =~= b + seq![c]);
    let vb = TaggerView { buffer: b, ..vu };
    assert(seq![c].drop_first() =~= Seq::<char>::empty());
    assert(seq![c][0] == c);
    let (v2, ev) = step(vb, c);
    assert(vb.buffer.push(c) == line);
    if c == '\n' {
        assert(find_open(vt.specs, crate::tagged::slug_of(line)) is None);
        assert(ev == seq![SegmentView::<T>::Normal(line)]);
    } else {
        assert(ev == seq![SegmentView::<T>::Normal(line)]);
    }
    assert(feed(vb, seq![c], ou) == feed(v2, seq![c].drop_first(), push_all(ou, ev)));
}

/// One character: the second parser, fed the plain text it gives out, keeps
/// shadowing the first and gives out only plain text.
proof fn lemma_step_shadow<T>(vt: TaggerView<T>, vu: TaggerView<T>, c: char, ou: Seq<SegmentView<T>>)
    requires
        tagger_wf(vt),
        shadows(vt, vu),
        all_normal(ou),
    ensures
        shadows(step(vt, c).0, feed(vu, normal_of(step(vt, c).1), ou).0),
        all_normal(feed(vu, normal_of(step(vt, c).1), ou).1),
{
    let (vt2, ev) = step(vt, c);
    let line = vt.buffer.push(c);
    let empty = Seq::<SegmentView<T>>::empty();
    assert(normal_of(empty) == Seq::<char>::empty());
    if ev.len() == 0 {
        assert(normal_of(ev) == Seq::<char>::empty());
    } else {
        let e = ev[0];
        assert(ev =~= seq![e]);
        assert(seq![e].drop_last() =~= empty);
        assert(seq![e].last() == e);
        match e {
            SegmentView::Normal(d) => {
                assert(normal_of(ev) =~= d);
                if vt.detect {
                    assert(d == line);
                    lemma_shadow_line(vt, vu, c, ou);
                    lemma_all_normal_push_all(ou, ev);
                } else {
                    assert(vt.buffer =~= Seq::<char>::empty());
                    assert(d =~= seq![c]);
                    assert(seq![c].drop_first() =~= Seq::<char>::empty());
                    assert(seq![c][0] == c);
                    assert(vu.buffer.push(c) =~= seq![c]);
                    let (u2, uev) = step(vu, c);
                    assert(uev == seq![SegmentView::<T>::Normal(seq![c])]);
                    assert(feed(vu, seq![c], ou) == feed(u2, seq![c].drop_first(), push_all(ou, uev)));
                    lemma_all_normal_push_all(ou, uev);
                }
            },
            _ => {
                assert(normal_of(ev) =~= Seq::<char>::empty());
            },
        }
    }
}

/// The plain text of feeding is what was there and the plain text given out.
pub proof fn lemma_feed_normal<T>(v: TaggerView<T>, cs: Seq<char>, out: Seq<SegmentView<T>>)
    ensures
        normal_of(feed(v, cs, out).1) == normal_of(out) + feed_normal(v, cs),
    decreases cs.len(),
{
    if cs.len() == 0 {
        assert(normal_of(out) + feed_normal(v, cs) =~= normal_of(out));
    } else {
        let (v2, ev) = step(v, cs[0]);
        lemma_feed_normal(v2, cs.drop_first(), push_all(out, ev));
        lemma_normal_of_push_all(out, ev);
        assert(normal_of(out) + normal_of(ev) + feed_normal(v2, cs.drop_first()) =~= normal_of(out)
            + (normal_of(ev) + feed_normal(v2, cs.drop_first())));
    }
}

/// Feeding: the second parser, fed the plain text given out, keeps shadowing
/// the first and gives out only plain text.
pub proof fn lemma_feed_shadow<T>(
    vt: TaggerView<T>,
    vu: TaggerView<T>,
    cs: Seq<char>,
    ot: Seq<SegmentView<T>>,
    ou: Seq<SegmentView<T>>,
)
    requires
        tagger_wf(vt),
        shadows(vt, vu),
        all_normal(ou),
    ensures
        shadows(feed(vt, cs, ot).0, feed(vu, feed_normal(vt, cs), ou).0),
        all_normal(feed(vu, feed_normal(vt, cs), ou).1),
    decreases cs.len(),
{
    if cs.len() == 0 {
    } else {
        let c = cs[0];
        let (vt2, ev) = step(vt, c);
        lemma_step_shadow(vt, vu, c, ou);
        crate::tagged::lemma_step_wf(vt, c);
        let (vu2, ou2) = feed(vu, normal_of(ev), ou);
        lemma_feed_shadow(vt2, vu2, cs.drop_first(), push_all(ot, ev), ou2);
        lemma_feed_split(vu, normal_of(ev), feed_normal(vt2, cs.drop_first()), ou);
    }
}

/// Finishing: the second parser, fed the plain text that finishing gives out
/// and then finished, gives out only plain text.
pub proof fn lemma_finish_shadow<T>(vt: TaggerView<T>, vu: TaggerView<T>, ou: Seq<SegmentView<T>>)
    requires
        tagger_wf(vt),
        shadows(vt, vu),
        all_normal(ou),
    ensures
        all_normal(feed(vu, normal_of(finish_spec(vt).1), ou).1),
        all_normal(finish_spec(feed(vu, normal_of(finish_spec(vt).1), ou).0).1),
{
    let empty = Seq::<SegmentView<T>>::empty();
    let (vtf, evf) = finish_spec(vt);
    assert(normal_of(empty) == Seq::<char>::empty());
    if vt.buffer.len() == 0 {
        let (v1, ev1) = (vt, empty);
        if vt.active is Some {
            assert(evf =~= seq![evf[0]]);
            assert(seq![evf[0]].drop_last() =~= empty);
            assert(normal_of(evf) =~= Seq::<char>::empty());
        } else {
            assert(evf == empty);
        }
        assert(feed(vu, Seq::<char>::empty(), ou) == (vu, ou));
    } else {
        let b = vt.buffer;
        let (v1, ev1) = flush_at_end(vt);
        let e = ev1[0];
        assert(ev1 =~= seq![e]);
        assert(seq![e].drop_last() =~= empty);
        assert(seq![e].last() == e);
        let tail = match v1.active {
            Some(t) => seq![SegmentView::<T>::TagEnd(t)],
            None => empty,
        };
        assert(evf =~= seq![e] + tail);
        lemma_normal_of_concat(seq![e], tail);
        if v1.active is Some {
            assert(tail.drop_last() =~= empty);
        }
        assert(normal_of(tail) =~= Seq::<char>::empty());
        match e {
            SegmentView::Normal(d) => {
                assert(d == b);
                assert(normal_of(evf) =~= b);
                assert(!b.contains('\n'));
                lemma_feed_held(vu, b, ou);
                let vb = TaggerView { buffer: b, ..vu };
                let (w1, wev) = flush_at_end(vb);
                assert(find_open(vt.specs, crate::tagged::slug_of(b)) is None);
                assert(wev == seq![SegmentView::<T>::Normal(b)]);
                assert(finish_spec(vb).1 == wev);
                assert(wev[0] is Normal);
            },
            _ => {
                assert(normal_of(evf) =~= Seq::<char>::empty());
                assert(feed(vu, Seq::<char>::empty(), ou) == (vu, ou));
            },
        }
    }
}

} // verus!
