use vstd::prelude::*;

use crate::segment::{push_all, seg_views, SegmentView, TagKind, TaggedLineSegment};
use crate::tagged::{feed, finish_spec, tagger_wf, TagSpec, TaggedLineParser, TaggerView};

verus! {

/// The line that opens a proposed plan block.
pub const OPEN_TAG: &'static str = "<proposed_plan>";

/// The line that closes a proposed plan block.
pub const CLOSE_TAG: &'static str = "</proposed_plan>";

/// The one kind of tagged block this parser knows.
#[derive(Debug, Clone, Copy, PartialEq, Eq, Structural)]
pub enum PlanTag {
    ProposedPlan,
}

impl TagKind for PlanTag {
    fn same_tag(&self, other: &Self) -> (r: bool) {
        match (self, other) {
            (PlanTag::ProposedPlan, PlanTag::ProposedPlan) => true,
        }
    }
}

/// A piece of streamed model output, split around proposed plan blocks.
#[derive(Debug, Clone, PartialEq, Eq)]
pub enum ProposedPlanSegment {
    Normal(String),
    ProposedPlanStart,
    ProposedPlanDelta(String),
    ProposedPlanEnd,
}

/// A plan segment with its text taken as a sequence of characters.
pub enum PlanSegmentView {
    Normal(Seq<char>),
    ProposedPlanStart,
    ProposedPlanDelta(Seq<char>),
    ProposedPlanEnd,
}

impl View for ProposedPlanSegment {
    type V = PlanSegmentView;

    open spec fn view(&self) -> PlanSegmentView {
        match self {
            ProposedPlanSegment::Normal(s) => PlanSegmentView::Normal(s@),
            ProposedPlanSegment::ProposedPlanStart => PlanSegmentView::ProposedPlanStart,
            ProposedPlanSegment::ProposedPlanDelta(s) => PlanSegmentView::ProposedPlanDelta(s@),
            ProposedPlanSegment::ProposedPlanEnd => PlanSegmentView::ProposedPlanEnd,
        }
    }
}

/// The plan segment that a tagged segment of the plan tag stands for.
pub open spec fn plan_view_of(s: SegmentView<PlanTag>) -> PlanSegmentView {
    match s {
        SegmentView::Normal(text) => PlanSegmentView::Normal(text),
        SegmentView::TagStart(_) => PlanSegmentView::ProposedPlanStart,
        SegmentView::TagDelta(_, text) => PlanSegmentView::ProposedPlanDelta(text),
        SegmentView::TagEnd(_) => PlanSegmentView::ProposedPlanEnd,
    }
}

/// The plan segments that a list of tagged segments stands for.
pub open spec fn plan_views_of(segs: Seq<SegmentView<PlanTag>>) -> Seq<PlanSegmentView> {
    segs.map_values(|s: SegmentView<PlanTag>| plan_view_of(s))
}

/// The views of a list of plan segments.
pub open spec fn plan_views(segs: Seq<ProposedPlanSegment>) -> Seq<PlanSegmentView> {
    segs.map_values(|s: ProposedPlanSegment| s@)
}

/// The single tag spec of proposed plans.
pub open spec fn plan_tag_specs() -> Seq<TagSpec<PlanTag>> {
    seq![TagSpec { open: OPEN_TAG, close: CLOSE_TAG, tag: PlanTag::ProposedPlan }]
}

/// A fresh proposed plan parser.
pub open spec fn initial_plan_state() -> TaggerView<PlanTag> {
    TaggerView { specs: plan_tag_specs(), active: None, detect: true, buffer: Seq::empty() }
}

/// All the plan segments of `text` fed at once to a fresh parser and then
/// finished: the segments of the feed followed by those of the finish.
pub open spec fn plan_segments_of(text: Seq<char>) -> Seq<PlanSegmentView> {
    let (v1, s1) = feed(initial_plan_state(), text, Seq::empty());
    let (v2, ev2) = finish_spec(v1);
    plan_views_of(s1) + plan_views_of(push_all(Seq::empty(), ev2))
}

/// The text of all plain (outside any block) segments, in order.
pub open spec fn normal_text(segs: Seq<PlanSegmentView>) -> Seq<char>
    decreases segs.len(),
{
    if segs.len() == 0 {
        Seq::empty()
    } else {
        normal_text(segs.drop_last()) + match segs.last() {
            PlanSegmentView::Normal(d) => d,
            _ => Seq::empty(),
        }
    }
}

/// Whether a plan block has started, and the plan text after the last start.
pub open spec fn plan_text_after_last_start(segs: Seq<PlanSegmentView>) -> (bool, Seq<char>)
    decreases segs.len(),
{
    if segs.len() == 0 {
        (false, Seq::empty())
    } else {
        let (saw, text) = plan_text_after_last_start(segs.drop_last());
        match segs.last() {
            PlanSegmentView::ProposedPlanStart => (true, Seq::empty()),
            PlanSegmentView::ProposedPlanDelta(d) => (saw, text + d),
            _ => (saw, text),
        }
    }
}

/// The text of the last proposed plan block, if there is one.
pub open spec fn last_plan_text(segs: Seq<PlanSegmentView>) -> Option<Seq<char>> {
    let (saw, text) = plan_text_after_last_start(segs);
    if saw {
        Some(text)
    } else {
        None
    }
}

/// The plan segment that a tagged segment of the plan tag stands for.
pub fn map_plan_segment(segment: TaggedLineSegment<PlanTag>) -> (r: ProposedPlanSegment)
    ensures
        r@ == plan_view_of(segment@),
{
    match segment {
        TaggedLineSegment::Normal(text) => ProposedPlanSegment::Normal(text),
        TaggedLineSegment::TagStart(PlanTag::ProposedPlan) => {
            ProposedPlanSegment::ProposedPlanStart
        },
        TaggedLineSegment::TagDelta(PlanTag::ProposedPlan, text) => {
            ProposedPlanSegment::ProposedPlanDelta(text)
        },
        TaggedLineSegment::TagEnd(PlanTag::ProposedPlan) => ProposedPlanSegment::ProposedPlanEnd,
    }
}

/// Maps each tagged segment to the plan segment it stands for.
fn map_plan_segments(segments: Vec<TaggedLineSegment<PlanTag>>) -> (r: Vec<ProposedPlanSegment>)
    ensures
        plan_views(r@) == plan_views_of(seg_views(segments@)),
{
    let ghost src = segments@;
    let mut out: Vec<ProposedPlanSegment> = Vec::new();
    for segment in it: segments.into_iter()
        invariant
            it.seq() == src,
            out@.len() == it.index(),
            forall|j: int|
                0 <= j < it.index() ==> #[trigger] out@[j]@ == plan_view_of(src[j]@),
    {
        out.push(map_plan_segment(segment));
    }
    assert(plan_views(out@) =~= plan_views_of(seg_views(src)));
    out
}

/// Streaming parser that splits model output around proposed plan blocks.
pub struct ProposedPlanParser {
    parser: TaggedLineParser<PlanTag>,
}

impl View for ProposedPlanParser {
    type V = TaggerView<PlanTag>;

    closed spec fn view(&self) -> TaggerView<PlanTag> {
        self.parser@
    }
}

impl ProposedPlanParser {
    /// Between calls the parser is in a state that parsing can reach.
    #[verifier::type_invariant]
    closed spec fn inv(self) -> bool {
        tagger_wf(self.parser@)
    }

    /// A parser outside any block, at the start of a line.
    pub fn new() -> (r: Self)
        ensures
            r@ == initial_plan_state(),
            tagger_wf(r@),
    {
        let specs = vec![TagSpec { open: OPEN_TAG, close: CLOSE_TAG, tag: PlanTag::ProposedPlan }];
        assert(specs@ =~= plan_tag_specs());
        Self { parser: TaggedLineParser::new(specs) }
    }

    /// Feeds `delta` to the parser and returns the segments it settles.
    pub fn parse(&mut self, delta: &str) -> (r: Vec<ProposedPlanSegment>)
        ensures
            final(self)@ == feed(old(self)@, delta@, Seq::empty()).0,
            plan_views(r@) == plan_views_of(feed(old(self)@, delta@, Seq::empty()).1),
            tagger_wf(old(self)@),
            tagger_wf(final(self)@),
            delta@.len() > 0 && delta@.last() == '\n' ==> final(self)@.buffer.len() == 0
                && final(self)@.detect,
    {
        proof {
            use_type_invariant(&*self);
        }
        let mut parser = TaggedLineParser::new(Vec::new());
        std::mem::swap(&mut parser, &mut self.parser);
        let segments = parser.parse(delta);
        self.parser = parser;
        map_plan_segments(segments)
    }

    /// Ends the input: flushes the held-back line and closes an open block.
    pub fn finish(&mut self) -> (r: Vec<ProposedPlanSegment>)
        ensures
            final(self)@ == finish_spec(old(self)@).0,
            plan_views(r@) == plan_views_of(push_all(Seq::empty(), finish_spec(old(self)@).1)),
            tagger_wf(final(self)@),
            final(self)@.buffer.len() == 0,
            final(self)@.detect,
            final(self)@.active is None,
    {
        let mut parser = TaggedLineParser::new(Vec::new());
        std::mem::swap(&mut parser, &mut self.parser);
        let segments = parser.finish();
        self.parser = parser;
        map_plan_segments(segments)
    }
}

/// Parses all of `text` with a fresh parser and then finishes it.
fn parse_all(text: &str) -> (r: Vec<ProposedPlanSegment>)
    ensures
        plan_views(r@) == plan_segments_of(text@),
{
    let mut parser = ProposedPlanParser::new();
    let mut segments = parser.parse(text);
    let mut rest = parser.finish();
    let ghost first = segments@;
    let ghost second = rest@;
    segments.append(&mut rest);
    assert(plan_views(segments@) =~= plan_views(first) + plan_views(second));
    segments
}

/// `text` with every proposed plan block removed, tag lines included.
pub fn strip_proposed_plan_blocks(text: &str) -> (r: String)
    ensures
        r@ == normal_text(plan_segments_of(text@)),
{
    let segments = parse_all(text);
    let ghost segs = plan_views(segments@);
    let mut out = String::new();
    let n = segments.len();
    for i in 0..n
        invariant
            n == segments@.len(),
            segs == plan_views(segments@),
            out@ == normal_text(segs.take(i as int)),
    {
        assert(segs.take(i + 1).drop_last() =~= segs.take(i as int));
        match &segments[i] {
            ProposedPlanSegment::Normal(delta) => {
                out.append(delta.as_str());
            },
            _ => {},
        }
    }
    assert(segs.take(n as int) =~= segs);
    out
}

/// The text of the last proposed plan block in `text`, if it has one.
pub fn extract_proposed_plan_text(text: &str) -> (r: Option<String>)
    ensures
        match r {
            Some(s) => last_plan_text(plan_segments_of(text@)) == Some(s@),
            None => last_plan_text(plan_segments_of(text@)) is None,
        },
{
    let segments = parse_all(text);
    let ghost segs = plan_views(segments@);
    let mut plan_text = String::new();
    let mut saw_plan_block = false;
    let n = segments.len();
    for i in 0..n
        invariant
            n == segments@.len(),
            segs == plan_views(segments@),
            (saw_plan_block, plan_text@) == plan_text_after_last_start(segs.take(i as int)),
    {
        assert(segs.take(i + 1).drop_last() =~= segs.take(i as int));
        match &segments[i] {
            ProposedPlanSegment::ProposedPlanStart => {
                saw_plan_block = true;
                plan_text = String::new();
            },
            ProposedPlanSegment::ProposedPlanDelta(delta) => {
                plan_text.append(delta.as_str());
            },
            ProposedPlanSegment::ProposedPlanEnd | ProposedPlanSegment::Normal(_) => {},
        }
    }
    assert(segs.take(n as int) =~= segs);
    if saw_plan_block {
        Some(plan_text)
    } else {
        None
    }
}

} // verus!
