use vstd::prelude::*;

use crate::plan::{
    CLOSE_TAG, OPEN_TAG,
    initial_plan_state, last_plan_text, normal_text, plan_segments_of, plan_text_after_last_start,
    plan_tag_specs, plan_view_of, plan_views_of, PlanSegmentView, PlanTag,
};
use crate::restrip::{
    all_normal, feed_normal, lemma_all_normal_push_all, lemma_feed_normal, lemma_feed_shadow,
    lemma_feed_held, lemma_finish_shadow, lemma_normal_of_concat, lemma_normal_of_push_all, normal_of,
};
use crate::role::{
    apply_profile, role_description, role_profile, AgentProfile, AgentRole, ConfigView,
    ReasoningEffort, ReasoningSummary, SandboxPolicy, Verbosity, DEFAULT_SUBAGENT_MODEL,
};
use crate::text::{is_whitespace_char, strip_newline, trim_end_seq, trim_start_seq};
use crate::segment::{
    block_trace, is_normalized, lemma_block_trace_concat, lemma_block_trace_push_all,
    lemma_block_trace_single, lemma_push_all_assoc, lemma_push_text_twice, lemma_push_all_normalized, push_all, push_seg,
    text_segment, SegmentView,
};
use crate::splice::{
    feed_lines, finish_lines, lemma_feed_spliced, lemma_finish_spliced, lemma_spliced_concat,
    spliced, tag_count,
};
use crate::tagged::{
    close_line, feed, finish_spec, flush_at_end, lemma_feed_split, lemma_feed_wf,
    find_close, find_open, slug_of, spec_has_prefix, step, tagger_wf, TagSpec, TaggerView,
};

verus! {

/// Feeding after some earlier output appends the fresh output to it.
proof fn lemma_feed_out<T>(v: TaggerView<T>, cs: Seq<char>, out: Seq<SegmentView<T>>)
    ensures
        feed(v, cs, out).0 == feed(v, cs, Seq::empty()).0,
        feed(v, cs, out).1 == push_all(out, feed(v, cs, Seq::empty()).1),
    decreases cs.len(),
{
    if cs.len() > 0 {
        let (v2, ev) = step(v, cs[0]);
        let empty = Seq::<SegmentView<T>>::empty();
        lemma_feed_out(v2, cs.drop_first(), push_all(out, ev));
        lemma_feed_out(v2, cs.drop_first(), push_all(empty, ev));
        let rest = feed(v2, cs.drop_first(), empty).1;
        lemma_push_all_assoc(out, push_all(empty, ev), rest);
        lemma_push_all_assoc(out, empty, ev);
    }
}

/// Streaming law: feeding `a` and then `b` in two calls ends in the same state
/// as feeding `a + b` in one call, and the segments of the one call are those
/// of the first call followed by those of the second, with text that meets at
/// the seam joined. So the split of a stream into chunks does not change what
/// the parser finds in it.
pub proof fn law_streaming_split<T>(v: TaggerView<T>, a: Seq<char>, b: Seq<char>)
    ensures
        ({
            let (v1, s1) = feed(v, a, Seq::empty());
            let (v2, s2) = feed(v1, b, Seq::empty());
            let (v12, s12) = feed(v, a + b, Seq::empty());
            &&& v12 == v2
            &&& s12 == push_all(s1, s2)
            &&& finish_spec(v12) == finish_spec(v2)
        }),
{
    let empty = Seq::<SegmentView<T>>::empty();
    lemma_feed_split(v, a, b, empty);
    let (v1, s1) = feed(v, a, empty);
    lemma_feed_out(v1, b, s1);
}

/// The segments of one character fit the block state it moves between.
proof fn lemma_step_blocks<T>(v: TaggerView<T>, c: char)
    ensures
        block_trace(v.active, step(v, c).1) == Some(step(v, c).0.active),
{
    let (v2, ev) = step(v, c);
    if v.detect {
        let line = v.buffer.push(c);
        let buffered = TaggerView { buffer: line, ..v };
        if c == '\n' {
            assert(close_line(buffered).1 =~= seq![close_line(buffered).1[0]]);
            lemma_block_trace_single(v.active, close_line(buffered).1[0]);
        } else if ev.len() > 0 {
            assert(ev =~= seq![text_segment(v.active, line)]);
            lemma_block_trace_single(v.active, text_segment(v.active, line));
        }
    } else {
        assert(ev =~= seq![text_segment(v.active, seq![c])]);
        lemma_block_trace_single(v.active, text_segment(v.active, seq![c]));
    }
}

/// Block law for input: from any state, the segments that feeding `cs` gives
/// put plain text only outside blocks and block text only inside its block,
/// open a block only when none is open and close only the open block, and end
/// in the block state that the parser is left in.
pub proof fn law_feed_blocks<T>(v: TaggerView<T>, cs: Seq<char>)
    ensures
        block_trace(v.active, feed(v, cs, Seq::empty()).1) == Some(
            feed(v, cs, Seq::empty()).0.active,
        ),
    decreases cs.len(),
{
    let empty = Seq::<SegmentView<T>>::empty();
    if cs.len() > 0 {
        let (v2, ev) = step(v, cs[0]);
        lemma_step_blocks(v, cs[0]);
        lemma_block_trace_push_all(v.active, empty, ev, v.active, v2.active);
        law_feed_blocks(v2, cs.drop_first());
        lemma_feed_out(v2, cs.drop_first(), push_all(empty, ev));
        let rest = feed(v2, cs.drop_first(), empty);
        lemma_block_trace_push_all(
            v.active,
            push_all(empty, ev),
            rest.1,
            v2.active,
            rest.0.active,
        );
    }
}

/// Block law for the end of input: finishing leaves no block open, and its
/// segments fit the block state, closing the block that was open.
pub proof fn law_finish_closes_blocks<T>(v: TaggerView<T>)
    ensures
        finish_spec(v).0.active is None,
        block_trace(v.active, push_all(Seq::empty(), finish_spec(v).1)) == Some(None::<T>),
{
    let empty = Seq::<SegmentView<T>>::empty();
    let (v1, ev1) = if v.buffer.len() > 0 {
        flush_at_end(v)
    } else {
        (v, empty)
    };
    if v.buffer.len() > 0 {
        assert(ev1 =~= seq![ev1[0]]);
        lemma_block_trace_single(v.active, ev1[0]);
    }
    assert(block_trace(v.active, ev1) == Some(v1.active));
    let (v2, ev2) = finish_spec(v);
    match v1.active {
        Some(t) => {
            lemma_block_trace_single(Some(t), SegmentView::TagEnd(t));
            lemma_block_trace_push_all(v.active, empty, ev1, v.active, v1.active);
            assert(ev2 =~= ev1 + seq![SegmentView::TagEnd(t)]);
            lemma_block_trace_concat(v.active, ev1, seq![SegmentView::<T>::TagEnd(t)]);
            lemma_block_trace_push_all(v.active, empty, ev2, v.active, None);
        },
        None => {
            lemma_block_trace_push_all(v.active, empty, ev2, v.active, None);
        },
    }
}

/// Feeding onto normalized output keeps it normalized.
proof fn lemma_feed_normalized<T>(v: TaggerView<T>, cs: Seq<char>, out: Seq<SegmentView<T>>)
    requires
        is_normalized(out),
    ensures
        is_normalized(feed(v, cs, out).1),
    decreases cs.len(),
{
    if cs.len() > 0 {
        let (v2, ev) = step(v, cs[0]);
        lemma_push_all_normalized(out, ev);
        lemma_feed_normalized(v2, cs.drop_first(), push_all(out, ev));
    }
}

/// Joining law: the segments of one call (feeding input, or finishing)
/// never hold empty text, and never two neighbouring texts of the same kind:
/// such text is always joined into one segment.
pub proof fn law_segments_normalized<T>(v: TaggerView<T>, cs: Seq<char>)
    ensures
        is_normalized(feed(v, cs, Seq::empty()).1),
        is_normalized(push_all(Seq::empty(), finish_spec(v).1)),
{
    let empty = Seq::<SegmentView<T>>::empty();
    lemma_feed_normalized(v, cs, empty);
    lemma_push_all_normalized(empty, finish_spec(v).1);
}

/// Whole-stream block law: a fresh parser fed `cs` and then finished gives
/// segments in which every block is opened before its text, closed after it,
/// never nested, and closed by the end.
pub proof fn law_stream_blocks_balanced<T>(specs: Seq<TagSpec<T>>, cs: Seq<char>)
    ensures
        ({
            let v = TaggerView { specs, active: None, detect: true, buffer: Seq::<char>::empty() };
            let (v1, s1) = feed(v, cs, Seq::empty());
            block_trace(None, s1 + push_all(Seq::empty(), finish_spec(v1).1)) == Some(None::<T>)
        }),
{
    let v = TaggerView { specs, active: None, detect: true, buffer: Seq::<char>::empty() };
    let (v1, s1) = feed(v, cs, Seq::empty());
    law_feed_blocks(v, cs);
    law_finish_closes_blocks(v1);
    lemma_block_trace_concat(None, s1, push_all(Seq::empty(), finish_spec(v1).1));
}

/// A fresh parser for `specs`: outside any block, at the start of a line.
pub open spec fn fresh_state<T>(specs: Seq<TagSpec<T>>) -> TaggerView<T> {
    TaggerView { specs, active: None, detect: true, buffer: Seq::empty() }
}

/// Each chunk fed by a call of its own, in turn: the state after the last
/// call, and the segments of all calls one after the other, as a caller
/// collects them.
pub open spec fn feed_chunks<T>(v: TaggerView<T>, chunks: Seq<Seq<char>>) -> (
    TaggerView<T>,
    Seq<SegmentView<T>>,
)
    decreases chunks.len(),
{
    if chunks.len() == 0 {
        (v, Seq::empty())
    } else {
        let (v1, s1) = feed(v, chunks[0], Seq::empty());
        let (v2, rest) = feed_chunks(v1, chunks.drop_first());
        (v2, s1 + rest)
    }
}

/// The characters of all chunks, in order.
pub open spec fn concat_chunks(chunks: Seq<Seq<char>>) -> Seq<char>
    decreases chunks.len(),
{
    if chunks.len() == 0 {
        Seq::empty()
    } else {
        chunks[0] + concat_chunks(chunks.drop_first())
    }
}

/// A whole stream: a fresh parser fed the chunks by calls of their own and
/// then finished; all the segments, one call after the other.
pub open spec fn stream_segments<T>(specs: Seq<TagSpec<T>>, chunks: Seq<Seq<char>>) -> Seq<
    SegmentView<T>,
> {
    let (v, s) = feed_chunks(fresh_state(specs), chunks);
    s + push_all(Seq::empty(), finish_spec(v).1)
}

/// Segments with neighbouring texts of the same kind joined.
pub open spec fn joined<T>(segs: Seq<SegmentView<T>>) -> Seq<SegmentView<T>> {
    push_all(Seq::empty(), segs)
}

/// Appending a concatenation is appending its parts in turn.
proof fn lemma_push_all_concat<T>(
    out: Seq<SegmentView<T>>,
    x: Seq<SegmentView<T>>,
    y: Seq<SegmentView<T>>,
)
    ensures
        push_all(out, x + y) == push_all(push_all(out, x), y),
    decreases x.len(),
{
    if x.len() > 0 {
        assert((x + y)[0] == x[0]);
        assert((x + y).drop_first() =~= x.drop_first() + y);
        lemma_push_all_concat(push_seg(out, x[0]), x.drop_first(), y);
    } else {
        assert(x + y =~= y);
    }
}

/// Feeding chunk by chunk, with the outputs joined, is feeding them all at once.
proof fn lemma_feed_chunks_joined<T>(
    v: TaggerView<T>,
    chunks: Seq<Seq<char>>,
    out: Seq<SegmentView<T>>,
)
    ensures
        feed_chunks(v, chunks).0 == feed(v, concat_chunks(chunks), out).0,
        push_all(out, feed_chunks(v, chunks).1) == feed(v, concat_chunks(chunks), out).1,
    decreases chunks.len(),
{
    let empty = Seq::<SegmentView<T>>::empty();
    if chunks.len() == 0 {
    } else {
        let c = chunks[0];
        let rest = chunks.drop_first();
        let (v1, s1) = feed(v, c, empty);
        lemma_feed_out(v, c, out);
        let out1 = feed(v, c, out).1;
        lemma_feed_chunks_joined(v1, rest, out1);
        lemma_push_all_concat(out, s1, feed_chunks(v1, rest).1);
        lemma_feed_split(v, c, concat_chunks(rest), out);
    }
}

/// Chunking law: the joined segments of a stream depend only on its
/// characters, not on how they were split into chunks.
pub proof fn law_stream_chunking<T>(
    specs: Seq<TagSpec<T>>,
    chunks: Seq<Seq<char>>,
    other: Seq<Seq<char>>,
)
    requires
        concat_chunks(chunks) == concat_chunks(other),
    ensures
        joined(stream_segments(specs, chunks)) == joined(stream_segments(specs, other)),
{
    let empty = Seq::<SegmentView<T>>::empty();
    let v = fresh_state(specs);
    lemma_feed_chunks_joined(v, chunks, empty);
    lemma_feed_chunks_joined(v, other, empty);
    let (a, sa) = feed_chunks(v, chunks);
    let (b, sb) = feed_chunks(v, other);
    lemma_push_all_concat(empty, sa, push_all(empty, finish_spec(a).1));
    lemma_push_all_concat(empty, sb, push_all(empty, finish_spec(b).1));
}

/// Feeding chunk by chunk fits the block states it moves between.
proof fn lemma_feed_chunks_blocks<T>(v: TaggerView<T>, chunks: Seq<Seq<char>>)
    ensures
        block_trace(v.active, feed_chunks(v, chunks).1) == Some(feed_chunks(v, chunks).0.active),
    decreases chunks.len(),
{
    if chunks.len() > 0 {
        let (v1, s1) = feed(v, chunks[0], Seq::empty());
        law_feed_blocks(v, chunks[0]);
        lemma_feed_chunks_blocks(v1, chunks.drop_first());
        lemma_block_trace_concat(v.active, s1, feed_chunks(v1, chunks.drop_first()).1);
    }
}

/// Block law for a whole stream fed in any number of calls: every block is
/// opened before its text and closed after it, blocks never nest, plain text
/// lies outside blocks, and the finish closes the last block.
pub proof fn law_stream_chunks_balanced<T>(specs: Seq<TagSpec<T>>, chunks: Seq<Seq<char>>)
    ensures
        block_trace(None, stream_segments(specs, chunks)) == Some(None::<T>),
{
    let v = fresh_state(specs);
    lemma_feed_chunks_blocks(v, chunks);
    let (v1, s1) = feed_chunks(v, chunks);
    law_finish_closes_blocks(v1);
    lemma_block_trace_concat(None, s1, push_all(Seq::empty(), finish_spec(v1).1));
}

/// The tag lines that feeding the chunks by calls of their own consumes.
pub open spec fn chunk_lines<T>(v: TaggerView<T>, chunks: Seq<Seq<char>>) -> Seq<Seq<char>>
    decreases chunks.len(),
{
    if chunks.len() == 0 {
        Seq::empty()
    } else {
        feed_lines(v, chunks[0]) + chunk_lines(
            feed(v, chunks[0], Seq::empty()).0,
            chunks.drop_first(),
        )
    }
}

/// The lines that the starts and ends of a whole stream stand for: each tag
/// line that opened or closed a block, and an empty line for a block that the
/// end of input closed.
pub open spec fn stream_lines<T>(specs: Seq<TagSpec<T>>, chunks: Seq<Seq<char>>) -> Seq<Seq<char>> {
    let v = feed_chunks(fresh_state(specs), chunks).0;
    chunk_lines(fresh_state(specs), chunks) + finish_lines(v)
}

/// Feeding chunk by chunk gives back every character, with the tag lines in
/// place of the starts and ends, except what is still held back.
proof fn lemma_feed_chunks_spliced<T>(v: TaggerView<T>, chunks: Seq<Seq<char>>)
    requires
        tagger_wf(v),
    ensures
        spliced(feed_chunks(v, chunks).1, chunk_lines(v, chunks)) + feed_chunks(v, chunks).0.buffer
            == v.buffer + concat_chunks(chunks),
        tag_count(feed_chunks(v, chunks).1) == chunk_lines(v, chunks).len(),
        tagger_wf(feed_chunks(v, chunks).0),
    decreases chunks.len(),
{
    let empty = Seq::<SegmentView<T>>::empty();
    let none = Seq::<Seq<char>>::empty();
    if chunks.len() == 0 {
        assert(v.buffer + concat_chunks(chunks) =~= v.buffer);
        assert(Seq::<char>::empty() + v.buffer =~= v.buffer);
    } else {
        let c = chunks[0];
        let rest = chunks.drop_first();
        let (v1, s1) = feed(v, c, empty);
        lemma_feed_spliced(v, c, empty, none);
        assert(none + feed_lines(v, c) =~= feed_lines(v, c));
        lemma_feed_wf(v, c, empty);
        lemma_feed_chunks_spliced(v1, rest);
        let (vn, r) = feed_chunks(v1, rest);
        lemma_spliced_concat(s1, feed_lines(v, c), r, chunk_lines(v1, rest));
        assert(Seq::<char>::empty() + v.buffer + c =~= v.buffer + c);
        assert(spliced(s1, feed_lines(v, c)) + spliced(r, chunk_lines(v1, rest)) + vn.buffer
            =~= spliced(s1, feed_lines(v, c)) + (spliced(r, chunk_lines(v1, rest)) + vn.buffer));
        assert(spliced(s1, feed_lines(v, c)) + (v1.buffer + concat_chunks(rest)) =~= (spliced(
            s1,
            feed_lines(v, c),
        ) + v1.buffer) + concat_chunks(rest));
        assert(v.buffer + c + concat_chunks(rest) =~= v.buffer + concat_chunks(chunks));
    }
}

/// Text law: a whole stream, fed in any number of calls and then finished,
/// loses, duplicates and reorders no character. Its text segments, with each
/// start and end replaced by the tag line it stands for (an empty line for a
/// block that the end of input closed), spell out the input exactly.
pub proof fn law_stream_text_preserved<T>(specs: Seq<TagSpec<T>>, chunks: Seq<Seq<char>>)
    ensures
        spliced(stream_segments(specs, chunks), stream_lines(specs, chunks)) == concat_chunks(
            chunks,
        ),
        tag_count(stream_segments(specs, chunks)) == stream_lines(specs, chunks).len(),
{
    let v = fresh_state(specs);
    let empty = Seq::<SegmentView<T>>::empty();
    let none = Seq::<Seq<char>>::empty();
    assert(trim_start_seq(Seq::<char>::empty()) =~= Seq::<char>::empty());
    assert(!Seq::<char>::empty().contains('\n'));
    assert(tagger_wf(v));
    lemma_feed_chunks_spliced(v, chunks);
    let (vn, s) = feed_chunks(v, chunks);
    let f = push_all(empty, finish_spec(vn).1);
    lemma_finish_spliced(vn, empty, none);
    assert(none + finish_lines(vn) =~= finish_lines(vn));
    assert(Seq::<char>::empty() + vn.buffer =~= vn.buffer);
    lemma_spliced_concat(s, chunk_lines(v, chunks), f, finish_lines(vn));
    assert(Seq::<char>::empty() + concat_chunks(chunks) =~= concat_chunks(chunks));
}

/// Without a start, a list that fits the block rules from outside any block
/// is all plain text.
proof fn lemma_no_start_all_normal<T>(segs: Seq<SegmentView<T>>)
    requires
        block_trace(None::<T>, segs) is Some,
        forall|i: int| 0 <= i < segs.len() ==> !(#[trigger] segs[i] is TagStart),
    ensures
        forall|i: int| 0 <= i < segs.len() ==> #[trigger] segs[i] is Normal,
    decreases segs.len(),
{
    if segs.len() > 0 {
        let rest = segs.drop_first();
        assert(segs[0] is Normal);
        assert forall|i: int| 0 <= i < rest.len() implies !(#[trigger] rest[i] is TagStart) by {
            assert(rest[i] == segs[i + 1]);
        }
        lemma_no_start_all_normal(rest);
        assert forall|i: int| 0 <= i < segs.len() implies #[trigger] segs[i] is Normal by {
            if i > 0 {
                assert(segs[i] == rest[i - 1]);
            }
        }
    }
}

/// Plain text spliced with any lines is its text.
proof fn lemma_all_normal_text(segs: Seq<SegmentView<PlanTag>>, lines: Seq<Seq<char>>)
    requires
        forall|i: int| 0 <= i < segs.len() ==> #[trigger] segs[i] is Normal,
    ensures
        spliced(segs, lines) == normal_text(plan_views_of(segs)),
        tag_count(segs) == 0,
    decreases segs.len(),
{
    if segs.len() > 0 {
        let init = segs.drop_last();
        assert forall|i: int| 0 <= i < init.len() implies #[trigger] init[i] is Normal by {
            assert(init[i] == segs[i]);
        }
        lemma_all_normal_text(init, lines);
        assert(plan_views_of(segs).drop_last() =~= plan_views_of(init));
        assert(segs.last() is Normal);
    }
}

/// A list of plan segments in which no plan starts has no start in it.
proof fn lemma_no_plan_no_start(segs: Seq<SegmentView<PlanTag>>)
    requires
        !plan_text_after_last_start(plan_views_of(segs)).0,
    ensures
        forall|i: int| 0 <= i < segs.len() ==> !(#[trigger] segs[i] is TagStart),
    decreases segs.len(),
{
    if segs.len() > 0 {
        let init = segs.drop_last();
        assert(plan_views_of(segs).drop_last() =~= plan_views_of(init));
        assert(plan_views_of(segs).last() == plan_view_of(segs.last()));
        lemma_no_plan_no_start(init);
        assert forall|i: int| 0 <= i < segs.len() implies !(#[trigger] segs[i] is TagStart) by {
            if i < init.len() {
                assert(segs[i] == init[i]);
            }
        }
    }
}

/// Where there is no proposed plan to extract, there is nothing to strip:
/// `strip_proposed_plan_blocks` gives back its input unchanged whenever
/// `extract_proposed_plan_text` finds no plan in it.
pub proof fn law_no_plan_strip_is_identity(text: Seq<char>)
    requires
        last_plan_text(plan_segments_of(text)) is None,
    ensures
        normal_text(plan_segments_of(text)) == text,
{
    let specs = plan_tag_specs();
    let chunks = seq![text];
    let empty = Seq::<SegmentView<PlanTag>>::empty();
    assert(chunks.drop_first() =~= Seq::<Seq<char>>::empty());
    assert(chunks[0] == text);
    assert(concat_chunks(Seq::<Seq<char>>::empty()) == Seq::<char>::empty());
    assert(text + Seq::<char>::empty() =~= text);
    assert(concat_chunks(chunks) =~= text);
    let v = fresh_state(specs);
    assert(v == initial_plan_state());
    let (v1, s1) = feed(v, text, empty);
    assert(feed_chunks(v1, Seq::<Seq<char>>::empty()) == (v1, empty));
    assert(s1 + empty =~= s1);
    assert(feed_chunks(v, chunks).1 =~= s1);
    let segs = stream_segments(specs, chunks);
    assert(plan_segments_of(text) =~= plan_views_of(segs));
    law_stream_text_preserved(specs, chunks);
    law_stream_chunks_balanced(specs, chunks);
    lemma_no_plan_no_start(segs);
    lemma_no_start_all_normal(segs);
    lemma_all_normal_text(segs, stream_lines(specs, chunks));
}

/// The plain text of plan segments is the plain text of the tagged segments.
proof fn lemma_normal_text_of(segs: Seq<SegmentView<PlanTag>>)
    ensures
        normal_text(plan_views_of(segs)) == normal_of(segs),
    decreases segs.len(),
{
    if segs.len() > 0 {
        assert(plan_views_of(segs).drop_last() =~= plan_views_of(segs.drop_last()));
        assert(plan_views_of(segs).last() == plan_view_of(segs.last()));
        lemma_normal_text_of(segs.drop_last());
    }
}

/// Plain text alone starts no plan.
proof fn lemma_all_normal_no_plan(segs: Seq<SegmentView<PlanTag>>)
    requires
        all_normal(segs),
    ensures
        !plan_text_after_last_start(plan_views_of(segs)).0,
    decreases segs.len(),
{
    if segs.len() > 0 {
        let init = segs.drop_last();
        assert(plan_views_of(segs).drop_last() =~= plan_views_of(init));
        assert(plan_views_of(segs).last() == plan_view_of(segs.last()));
        assert(segs[segs.len() - 1] is Normal);
        assert forall|i: int| 0 <= i < init.len() implies #[trigger] init[i] is Normal by {
            assert(init[i] == segs[i]);
        }
        lemma_all_normal_no_plan(init);
    }
}

/// Stripping twice is stripping once: the text that
/// `strip_proposed_plan_blocks` leaves holds no proposed plan block.
pub proof fn law_strip_idempotent(text: Seq<char>)
    ensures
        normal_text(plan_segments_of(normal_text(plan_segments_of(text)))) == normal_text(
            plan_segments_of(text),
        ),
{
    let empty = Seq::<SegmentView<PlanTag>>::empty();
    let v0 = initial_plan_state();
    assert(trim_start_seq(Seq::<char>::empty()) =~= Seq::<char>::empty());
    assert(!Seq::<char>::empty().contains('\n'));
    assert(tagger_wf(v0));
    assert(all_normal(empty));
    assert(normal_of(empty) == Seq::<char>::empty());
    let (v1, s1) = feed(v0, text, empty);
    let fev = finish_spec(v1).1;
    let f = push_all(empty, fev);
    assert(plan_segments_of(text) =~= plan_views_of(s1 + f));
    lemma_normal_text_of(s1 + f);
    lemma_normal_of_concat(s1, f);
    lemma_feed_normal(v0, text, empty);
    lemma_normal_of_push_all(empty, fev);
    assert(Seq::<char>::empty() + feed_normal(v0, text) =~= feed_normal(v0, text));
    assert(Seq::<char>::empty() + normal_of(fev) =~= normal_of(fev));
    let u = normal_text(plan_segments_of(text));
    assert(u == feed_normal(v0, text) + normal_of(fev));
    lemma_feed_shadow(v0, v0, text, empty, empty);
    lemma_feed_wf(v0, text, empty);
    let (vu1, ou1) = feed(v0, feed_normal(v0, text), empty);
    lemma_finish_shadow(v1, vu1, ou1);
    lemma_feed_split(v0, feed_normal(v0, text), normal_of(fev), empty);
    let (vu2, ou2) = feed(v0, u, empty);
    let fu = push_all(empty, finish_spec(vu2).1);
    lemma_all_normal_push_all(empty, finish_spec(vu2).1);
    assert(all_normal(ou2 + fu)) by {
        assert forall|i: int| 0 <= i < (ou2 + fu).len() implies #[trigger] (ou2 + fu)[i] is Normal by {
            if i < ou2.len() {
                assert((ou2 + fu)[i] == ou2[i]);
            } else {
                assert((ou2 + fu)[i] == fu[i - ou2.len()]);
            }
        }
    }
    assert(plan_segments_of(u) =~= plan_views_of(ou2 + fu));
    lemma_all_normal_no_plan(ou2 + fu);
    law_no_plan_strip_is_identity(u);
}

/// The default role inherits the parent's configuration unchanged.
pub proof fn law_default_role_keeps_config(config: ConfigView, orchestrator_instructions: &'static str)
    ensures
        apply_profile(config, role_profile(AgentRole::Default, orchestrator_instructions)) == config,
{
}

/// Applying a role twice is applying it once.
pub proof fn law_apply_role_idempotent(
    role: AgentRole,
    config: ConfigView,
    orchestrator_instructions: &'static str,
)
    ensures
        ({
            let profile = role_profile(role, orchestrator_instructions);
            apply_profile(apply_profile(config, profile), profile) == apply_profile(config, profile)
        }),
{
}

/// Every override that a profile carries wins over the parent's value, and
/// every field that it leaves open keeps the parent's value.
pub proof fn law_profile_overrides_win(config: ConfigView, profile: AgentProfile)
    ensures
        ({
            let r = apply_profile(config, profile);
            &&& match profile.base_instructions {
                Some(s) => r.base_instructions == Some(s@),
                None => r.base_instructions == config.base_instructions,
            }
            &&& match profile.model {
                Some(s) => r.model == Some(s@),
                None => r.model == config.model,
            }
            &&& match profile.reasoning_effort {
                Some(e) => r.model_reasoning_effort == Some(e),
                None => r.model_reasoning_effort == config.model_reasoning_effort,
            }
            &&& match profile.verbosity {
                Some(x) => r.model_verbosity == Some(x),
                None => r.model_verbosity == config.model_verbosity,
            }
            &&& match profile.reasoning_summary {
                Some(x) => r.model_reasoning_summary == x,
                None => r.model_reasoning_summary == config.model_reasoning_summary,
            }
            &&& match profile.supports_reasoning_summaries {
                Some(b) => r.model_supports_reasoning_summaries == Some(b),
                None => r.model_supports_reasoning_summaries
                    == config.model_supports_reasoning_summaries,
            }
            &&& r.sandbox_policy == (if profile.read_only {
                SandboxPolicy::ReadOnly
            } else {
                config.sandbox_policy
            })
        }),
{
}

/// Every role but the default one carries the sub-agent overrides: model
/// `gpt-5.2`, extra-high reasoning effort, high verbosity, detailed reasoning
/// summaries that are force-enabled; none forces a read-only sandbox; only
/// the orchestrator has base instructions, the ones it is given. The default
/// role overrides nothing.
pub proof fn law_role_overrides(role: AgentRole, orchestrator_instructions: &'static str)
    ensures
        ({
            let p = role_profile(role, orchestrator_instructions);
            &&& role != AgentRole::Default ==> {
                &&& p.model == Some(DEFAULT_SUBAGENT_MODEL)
                &&& p.reasoning_effort == Some(ReasoningEffort::XHigh)
                &&& p.verbosity == Some(Verbosity::High)
                &&& p.reasoning_summary == Some(ReasoningSummary::Detailed)
                &&& p.supports_reasoning_summaries == Some(true)
            }
            &&& role == AgentRole::Default ==> {
                &&& p.model is None
                &&& p.reasoning_effort is None
                &&& p.verbosity is None
                &&& p.reasoning_summary is None
                &&& p.supports_reasoning_summaries is None
                &&& p.base_instructions is None
            }
            &&& !p.read_only
            &&& p.base_instructions == (if role == AgentRole::Orchestrator {
                Some(orchestrator_instructions)
            } else {
                None::<&'static str>
            })
        }),
{
}

/// The description in a role's schema entry is the description of the role's
/// profile, whatever the orchestrator's instructions.
pub proof fn law_enum_description_is_profile_description(
    role: AgentRole,
    orchestrator_instructions: &'static str,
)
    ensures
        role_description(role) == role_profile(role, orchestrator_instructions).description,
{
}

/// The text of the plan text segments of `segs`, in order.
pub open spec fn delta_text(segs: Seq<PlanSegmentView>) -> Seq<char>
    decreases segs.len(),
{
    if segs.len() == 0 {
        Seq::empty()
    } else {
        delta_text(segs.drop_last()) + match segs.last() {
            PlanSegmentView::ProposedPlanDelta(d) => d,
            _ => Seq::empty(),
        }
    }
}

/// After the last start, the plan text is the plan text segments after it.
proof fn lemma_after_last_start(segs: Seq<PlanSegmentView>, k: int)
    requires
        0 <= k < segs.len(),
        segs[k] is ProposedPlanStart,
        forall|j: int| k < j < segs.len() ==> !(#[trigger] segs[j] is ProposedPlanStart),
    ensures
        plan_text_after_last_start(segs) == (true, delta_text(segs.skip(k + 1))),
    decreases segs.len(),
{
    if k == segs.len() - 1 {
        assert(segs.skip(k + 1) =~= Seq::<PlanSegmentView>::empty());
    } else {
        let init = segs.drop_last();
        assert forall|j: int| k < j < init.len() implies !(#[trigger] init[j] is ProposedPlanStart) by {
            assert(init[j] == segs[j]);
        }
        lemma_after_last_start(init, k);
        assert(segs.skip(k + 1).drop_last() =~= init.skip(k + 1));
        assert(segs.skip(k + 1).last() == segs.last());
        assert(!(segs[segs.len() - 1] is ProposedPlanStart));
    }
}

/// Without a start there is no plan.
proof fn lemma_no_start_no_plan(segs: Seq<PlanSegmentView>)
    requires
        forall|j: int| 0 <= j < segs.len() ==> !(#[trigger] segs[j] is ProposedPlanStart),
    ensures
        !plan_text_after_last_start(segs).0,
    decreases segs.len(),
{
    if segs.len() > 0 {
        let init = segs.drop_last();
        assert forall|j: int| 0 <= j < init.len() implies !(#[trigger] init[j] is ProposedPlanStart) by {
            assert(init[j] == segs[j]);
        }
        lemma_no_start_no_plan(init);
        assert(!(segs[segs.len() - 1] is ProposedPlanStart));
    }
}

/// The extracted plan is the last block: where the last start stands at `k`,
/// it is exactly the plan text of the segments after `k`, whatever blocks
/// came before; and where no block starts there is no plan.
pub proof fn law_extract_last_block(segs: Seq<PlanSegmentView>, k: int)
    ensures
        (0 <= k < segs.len() && segs[k] is ProposedPlanStart && (forall|j: int|
            k < j < segs.len() ==> !(#[trigger] segs[j] is ProposedPlanStart))) ==> last_plan_text(
            segs,
        ) == Some(delta_text(segs.skip(k + 1))),
        (forall|j: int| 0 <= j < segs.len() ==> !(#[trigger] segs[j] is ProposedPlanStart))
            ==> last_plan_text(segs) is None,
{
    if 0 <= k < segs.len() && segs[k] is ProposedPlanStart && (forall|j: int|
        k < j < segs.len() ==> !(#[trigger] segs[j] is ProposedPlanStart)) {
        lemma_after_last_start(segs, k);
    }
    if forall|j: int| 0 <= j < segs.len() ==> !(#[trigger] segs[j] is ProposedPlanStart) {
        lemma_no_start_no_plan(segs);
    }
}

/// Whitespace before a line's first non-whitespace character is trimmed away.
proof fn lemma_trim_start_indent(w: Seq<char>, c: Seq<char>)
    requires
        forall|j: int| 0 <= j < w.len() ==> is_whitespace_char(#[trigger] w[j]),
        c.len() > 0,
        !is_whitespace_char(c[0]),
    ensures
        trim_start_seq(w + c) == c,
    decreases w.len(),
{
    if w.len() == 0 {
        assert(w + c =~= c);
    } else {
        assert((w + c)[0] == w[0]);
        assert((w + c).drop_first() =~= w.drop_first() + c);
        assert forall|j: int| 0 <= j < w.drop_first().len() implies is_whitespace_char(
            #[trigger] w.drop_first()[j],
        ) by {
            assert(w.drop_first()[j] == w[j + 1]);
        }
        lemma_trim_start_indent(w.drop_first(), c);
    }
}

/// The first spec whose close line is `c` gives the tag of `c`.
proof fn lemma_find_close_first<T>(specs: Seq<TagSpec<T>>, i: int, c: Seq<char>)
    requires
        0 <= i < specs.len(),
        specs[i].close@ == c,
        forall|j: int| 0 <= j < i ==> (#[trigger] specs[j]).close@ != c,
    ensures
        find_close(specs, c) == Some(specs[i].tag),
    decreases i,
{
    if i > 0 {
        let rest = specs.drop_first();
        assert forall|j: int| 0 <= j < i - 1 implies (#[trigger] rest[j]).close@ != c by {
            assert(rest[j] == specs[j + 1]);
        }
        assert(rest[i - 1] == specs[i]);
        assert(specs[0].close@ != c);
        lemma_find_close_first(rest, i - 1, c);
    }
}

/// The first spec whose open line is `c` gives the tag of `c`.
proof fn lemma_find_open_first<T>(specs: Seq<TagSpec<T>>, i: int, c: Seq<char>)
    requires
        0 <= i < specs.len(),
        specs[i].open@ == c,
        forall|j: int| 0 <= j < i ==> (#[trigger] specs[j]).open@ != c,
    ensures
        find_open(specs, c) == Some(specs[i].tag),
    decreases i,
{
    if i > 0 {
        let rest = specs.drop_first();
        assert forall|j: int| 0 <= j < i - 1 implies (#[trigger] rest[j]).open@ != c by {
            assert(rest[j] == specs[j + 1]);
        }
        assert(rest[i - 1] == specs[i]);
        assert(specs[0].open@ != c);
        lemma_find_open_first(rest, i - 1, c);
    }
}

/// A tag line (an indent, a tag, a line feed) is held back until its line
/// feed, and is then decided on its tag alone.
proof fn lemma_feed_tag_line<T>(
    v: TaggerView<T>,
    w: Seq<char>,
    tag: Seq<char>,
    i: int,
    out: Seq<SegmentView<T>>,
)
    requires
        v.detect,
        v.buffer.len() == 0,
        0 <= i < v.specs.len(),
        v.specs[i].open@ == tag || v.specs[i].close@ == tag,
        tag.len() > 0,
        !is_whitespace_char(tag[0]),
        !is_whitespace_char(tag.last()),
        !tag.contains('\n'),
        forall|j: int| 0 <= j < w.len() ==> is_whitespace_char(#[trigger] w[j]) && w[j] != '\n',
    ensures
        feed(v, w + tag + seq!['\n'], out) == ({
            let (v2, ev) = step(TaggerView { buffer: w + tag, ..v }, '\n');
            (v2, push_all(out, ev))
        }),
        slug_of((w + tag).push('\n')) == tag,
{
    let line = w + tag;
    assert forall|j: int| 0 <= j < w.len() implies is_whitespace_char(#[trigger] w[j]) by {}
    lemma_trim_start_indent(w, tag);
    assert(spec_has_prefix(v.specs[i], tag)) by {
        assert(v.specs[i].open@.take(tag.len() as int) =~= v.specs[i].open@ || v.specs[i].close@.take(
            tag.len() as int,
        ) =~= v.specs[i].close@);
        if v.specs[i].open@ == tag {
            assert(tag.take(tag.len() as int) =~= tag);
        } else {
            assert(tag.take(tag.len() as int) =~= tag);
        }
    }
    assert(!line.contains('\n')) by {
        if line.contains('\n') {
            let j = choose|j: int| 0 <= j < line.len() && line[j] == '\n';
            if j < w.len() {
                assert(line[j] == w[j]);
            } else {
                assert(line[j] == tag[j - w.len()]);
                assert(tag.contains('\n'));
            }
        }
    }
    lemma_feed_held(v, line, out);
    lemma_feed_split(v, line, seq!['\n'], out);
    let vb = TaggerView { buffer: line, ..v };
    assert(seq!['\n'].drop_first() =~= Seq::<char>::empty());
    assert(seq!['\n'][0] == '\n');
    let (v2, ev) = step(vb, '\n');
    assert(feed(vb, seq!['\n'], out) == feed(v2, Seq::<char>::empty(), push_all(out, ev)));
    assert(strip_newline(line.push('\n')) =~= line);
    assert(trim_end_seq(tag) == tag);
    assert(line + seq!['\n'] =~= line.push('\n'));
}

/// Close-line law: inside a block, a complete line that is only that block's
/// close line (however indented) ends the block: it gives exactly that block's
/// end, and the parser is back outside any block, at the start of a line.
pub proof fn law_close_line_ends_block<T>(
    v: TaggerView<T>,
    w: Seq<char>,
    i: int,
    out: Seq<SegmentView<T>>,
)
    requires
        v.detect,
        v.buffer.len() == 0,
        0 <= i < v.specs.len(),
        v.active == Some(v.specs[i].tag),
        forall|j: int| 0 <= j < i ==> (#[trigger] v.specs[j]).close@ != v.specs[i].close@,
        v.specs[i].close@.len() > 0,
        !is_whitespace_char(v.specs[i].close@[0]),
        !is_whitespace_char(v.specs[i].close@.last()),
        !v.specs[i].close@.contains('\n'),
        forall|j: int| 0 <= j < w.len() ==> is_whitespace_char(#[trigger] w[j]) && w[j] != '\n',
    ensures
        feed(v, w + v.specs[i].close@ + seq!['\n'], out) == (
            TaggerView { active: None, detect: true, buffer: Seq::empty(), ..v },
            push_seg(out, SegmentView::TagEnd(v.specs[i].tag)),
        ),
{
    let c = v.specs[i].close@;
    lemma_feed_tag_line(v, w, c, i, out);
    lemma_find_close_first(v.specs, i, c);
    let e = SegmentView::<T>::TagEnd(v.specs[i].tag);
    crate::segment::lemma_push_all_single(out, e);
}

/// Open-line law: outside any block, a complete line that is only an open
/// line (however indented) starts that line's block: it gives exactly that
/// block's start, and the parser is inside the block, at the start of a line.
pub proof fn law_open_line_starts_block<T>(
    v: TaggerView<T>,
    w: Seq<char>,
    i: int,
    out: Seq<SegmentView<T>>,
)
    requires
        v.detect,
        v.buffer.len() == 0,
        v.active is None,
        0 <= i < v.specs.len(),
        forall|j: int| 0 <= j < i ==> (#[trigger] v.specs[j]).open@ != v.specs[i].open@,
        v.specs[i].open@.len() > 0,
        !is_whitespace_char(v.specs[i].open@[0]),
        !is_whitespace_char(v.specs[i].open@.last()),
        !v.specs[i].open@.contains('\n'),
        forall|j: int| 0 <= j < w.len() ==> is_whitespace_char(#[trigger] w[j]) && w[j] != '\n',
    ensures
        feed(v, w + v.specs[i].open@ + seq!['\n'], out) == (
            TaggerView {
                active: Some(v.specs[i].tag),
                detect: true,
                buffer: Seq::empty(),
                ..v
            },
            push_seg(out, SegmentView::TagStart(v.specs[i].tag)),
        ),
{
    let o = v.specs[i].open@;
    lemma_feed_tag_line(v, w, o, i, out);
    lemma_find_open_first(v.specs, i, o);
    let e = SegmentView::<T>::TagStart(v.specs[i].tag);
    crate::segment::lemma_push_all_single(out, e);
}

/// From the start of a line, the characters of a line without its line feed
/// are either all held back, or given out as one text of the current block
/// state, with the parser left mid-line.
proof fn lemma_feed_line_body<T>(v: TaggerView<T>, body: Seq<char>, out: Seq<SegmentView<T>>)
    requires
        v.detect,
        v.buffer.len() == 0,
        !body.contains('\n'),
    ensures
        feed(v, body, out) == (TaggerView { buffer: body, ..v }, out) || feed(v, body, out) == (
            TaggerView { buffer: Seq::empty(), detect: false, ..v },
            push_seg(out, text_segment(v.active, body)),
        ),
    decreases body.len(),
{
    if body.len() == 0 {
        assert(TaggerView { buffer: body, ..v } == v) by {
            assert(body =~= v.buffer);
        }
    } else {
        let init = body.drop_last();
        let l = body.last();
        assert(body =~= init + seq![l]);
        assert(!init.contains('\n')) by {
            if init.contains('\n') {
                let j = choose|j: int| 0 <= j < init.len() && init[j] == '\n';
                assert(body[j] == '\n');
            }
        }
        assert(l != '\n') by {
            assert(body[body.len() - 1] == l);
        }
        lemma_feed_line_body(v, init, out);
        lemma_feed_split(v, init, seq![l], out);
        let (vi, oi) = feed(v, init, out);
        assert(seq![l].drop_first() =~= Seq::<char>::empty());
        assert(seq![l][0] == l);
        let (v2, ev) = step(vi, l);
        assert(feed(vi, seq![l], oi) == feed(v2, Seq::<char>::empty(), push_all(oi, ev)));
        if vi.detect {
            assert(vi.buffer.push(l) =~= body);
            if ev.len() > 0 {
                crate::segment::lemma_push_all_single(oi, text_segment(v.active, body));
                assert(ev =~= seq![text_segment(v.active, body)]);
            }
        } else {
            crate::segment::lemma_push_all_single(oi, text_segment(v.active, seq![l]));
            assert(ev =~= seq![text_segment(v.active, seq![l])]);
            lemma_push_text_twice(out, v.active, init, seq![l]);
            assert(init + seq![l] =~= body);
        }
    }
}

/// Text-line law: from the start of a line, a complete line that is not a tag
/// line for the current block state (outside a block: no open line; inside
/// one: not that block's close line), once trimmed, is given out whole as text
/// of the current block state, and the parser stays in its block at the start
/// of the next line.
pub proof fn law_text_line<T>(v: TaggerView<T>, body: Seq<char>, out: Seq<SegmentView<T>>)
    requires
        v.detect,
        v.buffer.len() == 0,
        !body.contains('\n'),
        v.active is None ==> find_open(v.specs, trim_end_seq(trim_start_seq(body))) is None,
        v.active is Some ==> find_close(v.specs, trim_end_seq(trim_start_seq(body))) != v.active,
    ensures
        feed(v, body.push('\n'), out) == (
            TaggerView { buffer: Seq::empty(), detect: true, ..v },
            push_seg(out, text_segment(v.active, body.push('\n'))),
        ),
{
    let line = body.push('\n');
    assert(line =~= body + seq!['\n']);
    lemma_feed_line_body(v, body, out);
    lemma_feed_split(v, body, seq!['\n'], out);
    let (vi, oi) = feed(v, body, out);
    assert(seq!['\n'].drop_first() =~= Seq::<char>::empty());
    assert(seq!['\n'][0] == '\n');
    let (v2, ev) = step(vi, '\n');
    assert(feed(vi, seq!['\n'], oi) == feed(v2, Seq::<char>::empty(), push_all(oi, ev)));
    if vi.detect {
        assert(vi.buffer.push('\n') =~= line);
        assert(strip_newline(line) =~= body);
        assert(ev =~= seq![text_segment(v.active, line)]);
        crate::segment::lemma_push_all_single(oi, text_segment(v.active, line));
    } else {
        assert(ev =~= seq![text_segment(v.active, seq!['\n'])]);
        crate::segment::lemma_push_all_single(oi, text_segment(v.active, seq!['\n']));
        lemma_push_text_twice(out, v.active, body, seq!['\n']);
    }
}

/// End-of-input law for a held-back last line (one without a line feed): it
/// opens a block (which the end of input then closes) when it is an open line
/// outside any block; it ends the open block when it is that block's close
/// line and no open line; otherwise it is text of the current block state,
/// and an open block is closed after it. Nothing is left held back.
pub proof fn law_finish_held_line<T>(v: TaggerView<T>)
    requires
        v.detect,
        v.buffer.len() > 0,
        !v.buffer.contains('\n'),
    ensures
        ({
            let slug = trim_end_seq(trim_start_seq(v.buffer));
            let (v2, ev) = finish_spec(v);
            &&& v2 == TaggerView { active: None, detect: true, buffer: Seq::empty(), ..v }
            &&& ev == if v.active is None && find_open(v.specs, slug) is Some {
                seq![
                    SegmentView::TagStart(find_open(v.specs, slug)->0),
                    SegmentView::TagEnd(find_open(v.specs, slug)->0),
                ]
            } else if v.active is Some && find_open(v.specs, slug) is None && find_close(
                v.specs,
                slug,
            ) == v.active {
                seq![SegmentView::TagEnd(v.active->0)]
            } else if v.active is Some {
                seq![text_segment(v.active, v.buffer), SegmentView::TagEnd(v.active->0)]
            } else {
                seq![text_segment(v.active, v.buffer)]
            }
        }),
{
    assert(strip_newline(v.buffer) == v.buffer) by {
        assert(v.buffer[v.buffer.len() - 1] == v.buffer.last());
        if v.buffer.last() == '\n' {
            assert(v.buffer.contains('\n'));
        }
    }
}

/// The proposed plan tags are single words without whitespace at either end
/// and without a line feed.
proof fn lemma_plan_tags_plain()
    ensures
        OPEN_TAG@.len() > 0,
        !is_whitespace_char(OPEN_TAG@[0]),
        !is_whitespace_char(OPEN_TAG@.last()),
        !OPEN_TAG@.contains('\n'),
        CLOSE_TAG@.len() > 0,
        !is_whitespace_char(CLOSE_TAG@[0]),
        !is_whitespace_char(CLOSE_TAG@.last()),
        !CLOSE_TAG@.contains('\n'),
{
    reveal_strlit("<proposed_plan>");
    reveal_strlit("</proposed_plan>");
    let o = OPEN_TAG@;
    let c = CLOSE_TAG@;
    assert(o =~= seq!['<', 'p', 'r', 'o', 'p', 'o', 's', 'e', 'd', '_', 'p', 'l', 'a', 'n', '>']);
    assert(c =~= seq!['<', '/', 'p', 'r', 'o', 'p', 'o', 's', 'e', 'd', '_', 'p', 'l', 'a', 'n', '>']);
    assert forall|j: int| 0 <= j < o.len() implies o[j] != '\n' by {}
    assert forall|j: int| 0 <= j < c.len() implies c[j] != '\n' by {}
}

/// Proposed plan lines: at the start of a line, an indented `<proposed_plan>`
/// line opens a plan block when none is open, and an indented
/// `</proposed_plan>` line closes the open plan block.
pub proof fn law_plan_tag_lines(v: TaggerView<PlanTag>, w: Seq<char>, out: Seq<SegmentView<PlanTag>>)
    requires
        v.specs == plan_tag_specs(),
        v.detect,
        v.buffer.len() == 0,
        forall|j: int| 0 <= j < w.len() ==> is_whitespace_char(#[trigger] w[j]) && w[j] != '\n',
    ensures
        v.active is None ==> feed(v, w + OPEN_TAG@ + seq!['\n'], out) == (
            TaggerView { active: Some(PlanTag::ProposedPlan), detect: true, buffer: Seq::empty(), ..v },
            push_seg(out, SegmentView::TagStart(PlanTag::ProposedPlan)),
        ),
        v.active is Some ==> feed(v, w + CLOSE_TAG@ + seq!['\n'], out) == (
            TaggerView { active: None, detect: true, buffer: Seq::empty(), ..v },
            push_seg(out, SegmentView::TagEnd(PlanTag::ProposedPlan)),
        ),
{
    lemma_plan_tags_plain();
    assert(v.specs[0].open@ == OPEN_TAG@);
    assert(v.specs[0].close@ == CLOSE_TAG@);
    assert(v.specs[0].tag == PlanTag::ProposedPlan);
    if v.active is None {
        law_open_line_starts_block(v, w, 0, out);
    } else {
        assert(v.active == Some(PlanTag::ProposedPlan));
        law_close_line_ends_block(v, w, 0, out);
    }
}

/// The kept text of plan segments: a concatenation keeps the kept texts of
/// its parts, plain text is kept whole, and starts, plan text and ends are
/// dropped.
pub proof fn law_normal_text_keeps_plain_text(
    x: Seq<PlanSegmentView>,
    y: Seq<PlanSegmentView>,
    s: PlanSegmentView,
)
    ensures
        normal_text(x + y) == normal_text(x) + normal_text(y),
        normal_text(seq![s]) == match s {
            PlanSegmentView::Normal(d) => d,
            _ => Seq::<char>::empty(),
        },
    decreases y.len(),
{
    assert(seq![s].drop_last() =~= Seq::<PlanSegmentView>::empty());
    assert(seq![s].last() == s);
    assert(normal_text(Seq::<PlanSegmentView>::empty()) == Seq::<char>::empty());
    let kept = match s {
        PlanSegmentView::Normal(d) => d,
        _ => Seq::<char>::empty(),
    };
    assert(Seq::<char>::empty() + kept =~= kept);
    if y.len() == 0 {
        assert(x + y =~= x);
        assert(normal_text(x) + normal_text(y) =~= normal_text(x));
    } else {
        assert((x + y).drop_last() =~= x + y.drop_last());
        assert((x + y).last() == y.last());
        law_normal_text_keeps_plain_text(x, y.drop_last(), s);
        let tail = match y.last() {
            PlanSegmentView::Normal(d) => d,
            _ => Seq::<char>::empty(),
        };
        assert(normal_text(x) + normal_text(y.drop_last()) + tail =~= normal_text(x) + (normal_text(
            y.drop_last(),
        ) + tail));
    }
}

/// Plan segments stand for the tagged segments of the plan tag kind for kind,
/// with the same text: plain text for plain text, a plan start for a start,
/// plan text for block text, a plan end for an end.
pub proof fn law_plan_segments_match_tagged(s: SegmentView<PlanTag>)
    ensures
        match s {
            SegmentView::Normal(d) => plan_view_of(s) == PlanSegmentView::Normal(d),
            SegmentView::TagStart(_) => plan_view_of(s) == PlanSegmentView::ProposedPlanStart,
            SegmentView::TagDelta(_, d) => plan_view_of(s) == PlanSegmentView::ProposedPlanDelta(d),
            SegmentView::TagEnd(_) => plan_view_of(s) == PlanSegmentView::ProposedPlanEnd,
        },
{
}

} // verus!
