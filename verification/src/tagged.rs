use vstd::prelude::*;

use crate::segment::{
    lemma_push_all_single, lemma_push_all_snoc, lemma_push_text_twice, push_all, push_seg,
    push_segment, seg_views, text_segment, SegmentView, TagKind, TaggedLineSegment,
};
use crate::text::{
    chars_of, range_equals, string_push, skip_leading_whitespace, skip_trailing_whitespace, range_is_prefix_of, starts_with, strip_newline, trim_end_seq,
    trim_start_seq,
};

verus! {

/// The lines that open and close one kind of tagged block.
#[derive(Debug, Clone, Copy)]
pub struct TagSpec<T> {
    pub open: &'static str,
    pub close: &'static str,
    pub tag: T,
}

/// The state of a tagged line parser: its tag lines, the block it is inside
/// (if any), whether the current line may still turn out to be a tag line,
/// and the characters of the current line held back until that is decided.
pub struct TaggerView<T> {
    pub specs: Seq<TagSpec<T>>,
    pub active: Option<T>,
    pub detect: bool,
    pub buffer: Seq<char>,
}

/// Line-based tag parser that buffers each line until it can disprove a tag
/// prefix. This allows tags to be detected correctly while streaming.
pub struct TaggedLineParser<T> {
    specs: Vec<TagSpec<T>>,
    active_tag: Option<T>,
    detect_tag: bool,
    line_buffer: String,
}

impl<T> View for TaggedLineParser<T> {
    type V = TaggerView<T>;

    closed spec fn view(&self) -> TaggerView<T> {
        TaggerView {
            specs: self.specs@,
            active: self.active_tag,
            detect: self.detect_tag,
            buffer: self.line_buffer@,
        }
    }
}

/// A line with an optional final line feed and surrounding whitespace removed.
pub open spec fn slug_of(line: Seq<char>) -> Seq<char> {
    trim_end_seq(trim_start_seq(strip_newline(line)))
}

/// The open or the close line of `spec` begins with `slug`.
pub open spec fn spec_has_prefix<T>(spec: TagSpec<T>, slug: Seq<char>) -> bool {
    starts_with(spec.open@, slug) || starts_with(spec.close@, slug)
}

/// Some open or close line begins with `slug`.
pub open spec fn is_tag_prefix_spec<T>(specs: Seq<TagSpec<T>>, slug: Seq<char>) -> bool {
    exists|i: int| 0 <= i < specs.len() && #[trigger] spec_has_prefix(specs[i], slug)
}

/// The tag of the first spec whose open line is `slug`.
pub open spec fn find_open<T>(specs: Seq<TagSpec<T>>, slug: Seq<char>) -> Option<T>
    decreases specs.len(),
{
    if specs.len() == 0 {
        None
    } else if specs[0].open@ == slug {
        Some(specs[0].tag)
    } else {
        find_open(specs.drop_first(), slug)
    }
}

/// The tag of the first spec whose close line is `slug`.
pub open spec fn find_close<T>(specs: Seq<TagSpec<T>>, slug: Seq<char>) -> Option<T>
    decreases specs.len(),
{
    if specs.len() == 0 {
        None
    } else if specs[0].close@ == slug {
        Some(specs[0].tag)
    } else {
        find_close(specs.drop_first(), slug)
    }
}

/// A complete buffered line: it opens a block when it is an open line and no
/// block is open, closes the open block when it is that block's close line,
/// and is text otherwise.
pub open spec fn close_line<T>(v: TaggerView<T>) -> (TaggerView<T>, Seq<SegmentView<T>>) {
    let line = v.buffer;
    let slug = slug_of(line);
    let cleared = TaggerView { buffer: Seq::empty(), detect: true, ..v };
    if find_open(v.specs, slug) is Some && v.active is None {
        let t = find_open(v.specs, slug)->0;
        (TaggerView { active: Some(t), ..cleared }, seq![SegmentView::TagStart(t)])
    } else if find_close(v.specs, slug) is Some && v.active == Some(
        find_close(v.specs, slug)->0,
    ) {
        let t = find_close(v.specs, slug)->0;
        (TaggerView { active: None, ..cleared }, seq![SegmentView::TagEnd(t)])
    } else {
        (cleared, seq![text_segment(v.active, line)])
    }
}

/// One character of input: the new state and the segments it gives.
pub open spec fn step<T>(v: TaggerView<T>, c: char) -> (TaggerView<T>, Seq<SegmentView<T>>) {
    if v.detect {
        let line = v.buffer.push(c);
        let buffered = TaggerView { buffer: line, ..v };
        if c == '\n' {
            close_line(buffered)
        } else if trim_start_seq(line).len() == 0 || is_tag_prefix_spec(
            v.specs,
            trim_start_seq(line),
        ) {
            (buffered, Seq::empty())
        } else {
            (
                TaggerView { buffer: Seq::empty(), detect: false, ..v },
                seq![text_segment(v.active, line)],
            )
        }
    } else {
        (TaggerView { detect: c == '\n', ..v }, seq![text_segment(v.active, seq![c])])
    }
}

/// The characters `cs` fed one by one from state `v`, their segments pushed
/// after `out`.
pub open spec fn feed<T>(v: TaggerView<T>, cs: Seq<char>, out: Seq<SegmentView<T>>) -> (
    TaggerView<T>,
    Seq<SegmentView<T>>,
)
    decreases cs.len(),
{
    if cs.len() == 0 {
        (v, out)
    } else {
        let (v2, ev) = step(v, cs[0]);
        feed(v2, cs.drop_first(), push_all(out, ev))
    }
}

/// The held-back line at the end of input: as `close_line`, except that an
/// open line inside a block is text without being tried as a close line.
pub open spec fn flush_at_end<T>(v: TaggerView<T>) -> (TaggerView<T>, Seq<SegmentView<T>>) {
    let line = v.buffer;
    let slug = slug_of(line);
    let cleared = TaggerView { buffer: Seq::empty(), ..v };
    if find_open(v.specs, slug) is Some {
        if v.active is None {
            let t = find_open(v.specs, slug)->0;
            (TaggerView { active: Some(t), ..cleared }, seq![SegmentView::TagStart(t)])
        } else {
            (cleared, seq![text_segment(v.active, line)])
        }
    } else if find_close(v.specs, slug) is Some {
        let t = find_close(v.specs, slug)->0;
        if v.active == Some(t) {
            (TaggerView { active: None, ..cleared }, seq![SegmentView::TagEnd(t)])
        } else {
            (cleared, seq![text_segment(v.active, line)])
        }
    } else {
        (cleared, seq![text_segment(v.active, line)])
    }
}

/// The end of input: the held-back line is flushed and an open block closed.
pub open spec fn finish_spec<T>(v: TaggerView<T>) -> (TaggerView<T>, Seq<SegmentView<T>>) {
    let (v1, ev1) = if v.buffer.len() > 0 {
        flush_at_end(v)
    } else {
        (v, Seq::empty())
    };
    match v1.active {
        Some(t) => (
            TaggerView { active: None, detect: true, ..v1 },
            ev1.push(SegmentView::TagEnd(t)),
        ),
        None => (TaggerView { detect: true, ..v1 }, ev1),
    }
}

/// A state that a parser can be in between calls: no line feed is held back,
/// nothing is held back outside detect mode, and what is held back is only
/// whitespace or the start of a tag line.
pub open spec fn tagger_wf<T>(v: TaggerView<T>) -> bool {
    &&& !v.buffer.contains('\n')
    &&& (!v.detect ==> v.buffer.len() == 0)
    &&& (trim_start_seq(v.buffer).len() == 0 || is_tag_prefix_spec(
        v.specs,
        trim_start_seq(v.buffer),
    ))
}

/// One character keeps a reachable state reachable.
pub proof fn lemma_step_wf<T>(v: TaggerView<T>, c: char)
    requires
        tagger_wf(v),
    ensures
        tagger_wf(step(v, c).0),
{
    let v2 = step(v, c).0;
    if v.detect && c != '\n' {
        let line = v.buffer.push(c);
        if v2.buffer == line {
            assert forall|i: int| 0 <= i < line.len() implies line[i] != '\n' by {
                if i < v.buffer.len() {
                    assert(line[i] == v.buffer[i]);
                    assert(!(v.buffer[i] == '\n')) by {
                        if v.buffer[i] == '\n' {
                            assert(v.buffer.contains('\n'));
                        }
                    }
                }
            }
        }
    }
    assert(Seq::<char>::empty().len() == 0);
    assert(trim_start_seq(Seq::<char>::empty()) =~= Seq::<char>::empty());
}

/// Feeding characters keeps a reachable state reachable.
pub proof fn lemma_feed_wf<T>(v: TaggerView<T>, cs: Seq<char>, out: Seq<SegmentView<T>>)
    requires
        tagger_wf(v),
    ensures
        tagger_wf(feed(v, cs, out).0),
    decreases cs.len(),
{
    if cs.len() > 0 {
        let (v2, ev) = step(v, cs[0]);
        lemma_step_wf(v, cs[0]);
        lemma_feed_wf(v2, cs.drop_first(), push_all(out, ev));
    }
}

/// Finishing leaves nothing held back, in detect mode, outside any block.
pub proof fn lemma_finish_wf<T>(v: TaggerView<T>)
    ensures
        tagger_wf(finish_spec(v).0),
        finish_spec(v).0.buffer.len() == 0,
        finish_spec(v).0.detect,
{
    assert(trim_start_seq(Seq::<char>::empty()) =~= Seq::<char>::empty());
    assert(!Seq::<char>::empty().contains('\n'));
}

/// From a reachable state, input that ends with a line feed leaves nothing
/// held back, in detect mode.
pub proof fn lemma_feed_newline<T>(v: TaggerView<T>, cs: Seq<char>, out: Seq<SegmentView<T>>)
    requires
        tagger_wf(v),
        cs.len() > 0,
        cs.last() == '\n',
    ensures
        feed(v, cs, out).0.buffer.len() == 0,
        feed(v, cs, out).0.detect,
{
    let a = cs.drop_last();
    let b = seq!['\n'];
    assert(cs =~= a + b);
    lemma_feed_split(v, a, b, out);
    let (v1, o1) = feed(v, a, out);
    lemma_feed_wf(v, a, out);
    let (v2, ev) = step(v1, '\n');
    assert(b.drop_first() =~= Seq::<char>::empty());
    assert(feed(v2, Seq::<char>::empty(), push_all(o1, ev)).0 == v2);
}

/// Feeding `a + b` is feeding `a` and then feeding `b` from where `a` left off.
pub proof fn lemma_feed_split<T>(
    v: TaggerView<T>,
    a: Seq<char>,
    b: Seq<char>,
    out: Seq<SegmentView<T>>,
)
    ensures
        feed(v, a + b, out) == feed(feed(v, a, out).0, b, feed(v, a, out).1),
    decreases a.len(),
{
    if a.len() == 0 {
        assert(a + b =~= b);
    } else {
        assert((a + b)[0] == a[0]);
        assert((a + b).drop_first() =~= a.drop_first() + b);
        let (v2, ev) = step(v, a[0]);
        lemma_feed_split(v2, a.drop_first(), b, push_all(out, ev));
    }
}

impl<T: TagKind> TaggedLineParser<T> {
    /// A parser for the given tags, outside any block, at the start of a line.
    pub fn new(specs: Vec<TagSpec<T>>) -> (r: Self)
        ensures
            r@ == (TaggerView {
                specs: specs@,
                active: None,
                detect: true,
                buffer: Seq::<char>::empty(),
            }),
            tagger_wf(r@),
    {
        proof {
            assert(trim_start_seq(Seq::<char>::empty()) =~= Seq::<char>::empty());
            assert(!Seq::<char>::empty().contains('\n'));
        }
        Self { specs, active_tag: None, detect_tag: true, line_buffer: String::new() }
    }

    /// Whether some open or close line begins with `line[lo..hi]`.
    pub fn is_tag_prefix(&self, line: &Vec<char>, lo: usize, hi: usize) -> (r: bool)
        requires
            lo <= hi <= line@.len(),
        ensures
            r == is_tag_prefix_spec(self@.specs, line@.subrange(lo as int, hi as int)),
    {
        let n = self.specs.len();
        let ghost slug = line@.subrange(lo as int, hi as int);
        let mut i: usize = 0;
        while i < n
            invariant
                n == self@.specs.len(),
                lo <= hi <= line@.len(),
                i <= n,
                slug == line@.subrange(lo as int, hi as int),
                forall|j: int| 0 <= j < i ==> !#[trigger] spec_has_prefix(self@.specs[j], slug),
            decreases n - i,
        {
            let open = chars_of(self.specs[i].open);
            let close = chars_of(self.specs[i].close);
            if range_is_prefix_of(line, lo, hi, &open) || range_is_prefix_of(line, lo, hi, &close) {
                assert(spec_has_prefix(self@.specs[i as int], slug));
                return true;
            }
            assert(self@.specs[i as int] == self.specs@[i as int]);
            assert(!spec_has_prefix(self@.specs[i as int], slug));
            i = i + 1;
        }
        assert(!is_tag_prefix_spec(self@.specs, slug));
        false
    }

    /// The tag of the first spec whose open line is `line[lo..hi]`.
    pub fn match_open(&self, line: &Vec<char>, lo: usize, hi: usize) -> (r: Option<T>)
        requires
            lo <= hi <= line@.len(),
        ensures
            r == find_open(self@.specs, line@.subrange(lo as int, hi as int)),
    {
        let n = self.specs.len();
        let ghost slug = line@.subrange(lo as int, hi as int);
        let mut i: usize = 0;
        assert(self@.specs.skip(0) =~= self@.specs);
        while i < n
            invariant
                n == self@.specs.len(),
                lo <= hi <= line@.len(),
                i <= n,
                slug == line@.subrange(lo as int, hi as int),
                find_open(self@.specs, slug) == find_open(self@.specs.skip(i as int), slug),
            decreases n - i,
        {
            let open = chars_of(self.specs[i].open);
            assert(self@.specs.skip(i as int)[0] == self@.specs[i as int]);
            if range_equals(line, lo, hi, &open) {
                return Some(self.specs[i].tag);
            }
            assert(self@.specs.skip(i as int).drop_first() =~= self@.specs.skip(i + 1));
            i = i + 1;
        }
        None
    }

    /// The tag of the first spec whose close line is `line[lo..hi]`.
    pub fn match_close(&self, line: &Vec<char>, lo: usize, hi: usize) -> (r: Option<T>)
        requires
            lo <= hi <= line@.len(),
        ensures
            r == find_close(self@.specs, line@.subrange(lo as int, hi as int)),
    {
        let n = self.specs.len();
        let ghost slug = line@.subrange(lo as int, hi as int);
        let mut i: usize = 0;
        assert(self@.specs.skip(0) =~= self@.specs);
        while i < n
            invariant
                n == self@.specs.len(),
                lo <= hi <= line@.len(),
                i <= n,
                slug == line@.subrange(lo as int, hi as int),
                find_close(self@.specs, slug) == find_close(self@.specs.skip(i as int), slug),
            decreases n - i,
        {
            let close = chars_of(self.specs[i].close);
            assert(self@.specs.skip(i as int)[0] == self@.specs[i as int]);
            if range_equals(line, lo, hi, &close) {
                return Some(self.specs[i].tag);
            }
            assert(self@.specs.skip(i as int).drop_first() =~= self@.specs.skip(i + 1));
            i = i + 1;
        }
        None
    }
}

/// The bounds of the slug of `line` within it.
fn slug_range(line: &Vec<char>) -> (r: (usize, usize))
    ensures
        r.0 <= r.1 <= line@.len(),
        line@.subrange(r.0 as int, r.1 as int) == slug_of(line@),
{
    let n = line.len();
    let end = if n > 0 && line[n - 1] == '\n' {
        n - 1
    } else {
        n
    };
    assert(line@.subrange(0, end as int) =~= strip_newline(line@));
    let lo = skip_leading_whitespace(line, 0, end);
    let hi = skip_trailing_whitespace(line, lo, end);
    (lo, hi)
}

impl<T: TagKind> TaggedLineParser<T> {
    /// Whether the open block is the one of `tag`.
    fn active_is(&self, tag: T) -> (r: bool)
        ensures
            r == (self@.active == Some(tag)),
    {
        match self.active_tag {
            Some(active) => active.same_tag(&tag),
            None => false,
        }
    }

    /// Pushes `text` as text of the open block, or as plain text outside any block.
    pub fn push_text(&self, text: String, segments: &mut Vec<TaggedLineSegment<T>>)
        ensures
            seg_views(final(segments)@) == push_seg(
                seg_views(old(segments)@),
                text_segment(self@.active, text@),
            ),
    {
        if let Some(tag) = self.active_tag {
            push_segment(segments, TaggedLineSegment::TagDelta(tag, text));
        } else {
            push_segment(segments, TaggedLineSegment::Normal(text));
        }
    }

    /// Decides the buffered, complete line: an open line, a close line or text.
    pub fn finish_line(&mut self, segments: &mut Vec<TaggedLineSegment<T>>)
        ensures
            final(self)@ == close_line(old(self)@).0,
            seg_views(final(segments)@) == push_all(
                seg_views(old(segments)@),
                close_line(old(self)@).1,
            ),
    {
        let ghost v = self@;
        let ghost before = seg_views(segments@);
        let mut line = String::new();
        std::mem::swap(&mut line, &mut self.line_buffer);
        let chars = chars_of(line.as_str());
        let (lo, hi) = slug_range(&chars);
        if let Some(tag) = self.match_open(&chars, lo, hi) {
            if self.active_tag.is_none() {
                push_segment(segments, TaggedLineSegment::TagStart(tag));
                self.active_tag = Some(tag);
                self.detect_tag = true;
                proof {
                    lemma_push_all_single(before, SegmentView::TagStart(tag));
                    assert(self@ == close_line(v).0);
                }
                return;
            }
        }
        if let Some(tag) = self.match_close(&chars, lo, hi) {
            if self.active_is(tag) {
                push_segment(segments, TaggedLineSegment::TagEnd(tag));
                self.active_tag = None;
                self.detect_tag = true;
                proof {
                    lemma_push_all_single(before, SegmentView::TagEnd(tag));
                    assert(self@ == close_line(v).0);
                }
                return;
            }
        }
        self.detect_tag = true;
        self.push_text(line, segments);
        proof {
            lemma_push_all_single(before, text_segment(v.active, v.buffer));
            assert(self@ == close_line(v).0);
        }
    }
}

impl<T: TagKind> TaggedLineParser<T> {
    /// Feeds `delta` to the parser and returns the segments it settles.
    pub fn parse(&mut self, delta: &str) -> (segments: Vec<TaggedLineSegment<T>>)
        requires
            tagger_wf(old(self)@),
        ensures
            tagger_wf(final(self)@),
            delta@.len() > 0 && delta@.last() == '\n' ==> final(self)@.buffer.len() == 0
                && final(self)@.detect,
            (final(self)@, seg_views(segments@)) == feed(
                old(self)@,
                delta@,
                Seq::<SegmentView<T>>::empty(),
            ),
    {
        let ghost start = self@;
        let mut segments: Vec<TaggedLineSegment<T>> = Vec::new();
        let mut run = String::new();
        assert(delta@.skip(0) =~= delta@);
        assert(seg_views(segments@) =~= Seq::<SegmentView<T>>::empty());

        for ch in it: delta.chars()
            invariant
                it.seq() == delta@,
                self.detect_tag ==> run@.len() == 0,
                feed(start, delta@, Seq::<SegmentView<T>>::empty()) == feed(
                    self@,
                    delta@.skip(it.index()),
                    push_seg(seg_views(segments@), text_segment(self@.active, run@)),
                ),
        {
            let ghost idx = it.index();
            let ghost v = self@;
            let ghost before = seg_views(segments@);
            let ghost rest = delta@.skip(idx);
            assert(rest[0] == ch);
            assert(rest.drop_first() =~= delta@.skip(idx + 1));
            let ghost (v2, ev) = step(v, ch);
            if self.detect_tag {
                if !run.as_str().is_empty() {
                    let mut pending = String::new();
                    std::mem::swap(&mut pending, &mut run);
                    self.push_text(pending, &mut segments);
                }
                string_push(&mut self.line_buffer, ch);
                if ch == '\n' {
                    self.finish_line(&mut segments);
                } else {
                    let chars = chars_of(self.line_buffer.as_str());
                    let k = skip_leading_whitespace(&chars, 0, chars.len());
                    assert(chars@.subrange(0, chars@.len() as int) =~= chars@);
                    if k == chars.len() || self.is_tag_prefix(&chars, k, chars.len()) {
                        proof {
                            assert(ev =~= Seq::<SegmentView<T>>::empty());
                        }
                    } else {
                        // This line cannot be a tag line, so flush it immediately.
                        let mut buffered = String::new();
                        std::mem::swap(&mut buffered, &mut self.line_buffer);
                        self.detect_tag = false;
                        self.push_text(buffered, &mut segments);
                        proof {
                            lemma_push_all_single(
                                before,
                                text_segment(v.active, v.buffer.push(ch)),
                            );
                        }
                    }
                }
            } else {
                let ghost run_before = run@;
                string_push(&mut run, ch);
                proof {
                    lemma_push_all_single(
                        push_seg(before, text_segment(v.active, run_before)),
                        text_segment(v.active, seq![ch]),
                    );
                    lemma_push_text_twice(before, v.active, run_before, seq![ch]);
                    assert(run_before + seq![ch] =~= run@);
                }
                if ch == '\n' {
                    let mut pending = String::new();
                    std::mem::swap(&mut pending, &mut run);
                    self.push_text(pending, &mut segments);
                    self.detect_tag = true;
                }
            }
        }
        let ghost tail = delta@.skip(delta@.len() as int);
        assert(tail =~= Seq::<char>::empty());
        if !run.as_str().is_empty() {
            self.push_text(run, &mut segments);
        }
        proof {
            lemma_feed_wf(start, delta@, Seq::<SegmentView<T>>::empty());
            if delta@.len() > 0 && delta@.last() == '\n' {
                lemma_feed_newline(start, delta@, Seq::<SegmentView<T>>::empty());
            }
        }
        segments
    }

    /// Ends the input: flushes the held-back line and closes an open block.
    pub fn finish(&mut self) -> (segments: Vec<TaggedLineSegment<T>>)
        ensures
            tagger_wf(final(self)@),
            final(self)@.buffer.len() == 0,
            final(self)@.detect,
            final(self)@.active is None,
            final(self)@ == finish_spec(old(self)@).0,
            seg_views(segments@) == push_all(
                Seq::<SegmentView<T>>::empty(),
                finish_spec(old(self)@).1,
            ),
    {
        let ghost v = self@;
        let mut segments: Vec<TaggedLineSegment<T>> = Vec::new();
        assert(seg_views(segments@) =~= Seq::<SegmentView<T>>::empty());
        if !self.line_buffer.as_str().is_empty() {
            let mut buffered = String::new();
            std::mem::swap(&mut buffered, &mut self.line_buffer);
            let chars = chars_of(buffered.as_str());
            let (lo, hi) = slug_range(&chars);
            if let Some(tag) = self.match_open(&chars, lo, hi) {
                if self.active_tag.is_none() {
                    push_segment(&mut segments, TaggedLineSegment::TagStart(tag));
                    self.active_tag = Some(tag);
                } else {
                    self.push_text(buffered, &mut segments);
                }
            } else if let Some(tag) = self.match_close(&chars, lo, hi) {
                if self.active_is(tag) {
                    push_segment(&mut segments, TaggedLineSegment::TagEnd(tag));
                    self.active_tag = None;
                } else {
                    self.push_text(buffered, &mut segments);
                }
            } else {
                self.push_text(buffered, &mut segments);
            }
            proof {
                let (v1, ev1) = flush_at_end(v);
                lemma_push_all_single(Seq::<SegmentView<T>>::empty(), ev1[0]);
                assert(ev1 =~= seq![ev1[0]]);
                assert(self@ == v1);
            }
        }
        let ghost mid = seg_views(segments@);
        let ghost (v1, ev1) = if v.buffer.len() > 0 {
            flush_at_end(v)
        } else {
            (v, Seq::<SegmentView<T>>::empty())
        };
        assert(mid == push_all(Seq::<SegmentView<T>>::empty(), ev1));
        if let Some(tag) = self.active_tag.take() {
            push_segment(&mut segments, TaggedLineSegment::TagEnd(tag));
            proof {
                lemma_push_all_snoc(Seq::<SegmentView<T>>::empty(), ev1, SegmentView::TagEnd(tag));
            }
        }
        self.detect_tag = true;
        proof {
            lemma_finish_wf(v);
        }
        segments
    }
}

} // verus!
