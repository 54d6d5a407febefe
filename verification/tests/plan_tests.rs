use codex_plan::plan::extract_proposed_plan_text;
use codex_plan::plan::strip_proposed_plan_blocks;
use codex_plan::plan::ProposedPlanParser;
use codex_plan::plan::ProposedPlanSegment;

#[test]
fn streams_proposed_plan_segments() {
    let mut parser = ProposedPlanParser::new();
    let mut segments = Vec::new();

    for chunk in [
        "Intro text\n<prop",
        "osed_plan>\n- step 1\n",
        "</proposed_plan>\nOutro",
    ] {
        segments.extend(parser.parse(chunk));
    }
    segments.extend(parser.finish());

    assert_eq!(
        segments,
        vec![
            ProposedPlanSegment::Normal("Intro text\n".to_string()),
            ProposedPlanSegment::ProposedPlanStart,
            ProposedPlanSegment::ProposedPlanDelta("- step 1\n".to_string()),
            ProposedPlanSegment::ProposedPlanEnd,
            ProposedPlanSegment::Normal("Outro".to_string()),
        ]
    );
}

#[test]
fn preserves_non_tag_lines() {
    let mut parser = ProposedPlanParser::new();
    let mut segments = parser.parse("  <proposed_plan> extra\n");
    segments.extend(parser.finish());

    assert_eq!(
        segments,
        vec![ProposedPlanSegment::Normal(
            "  <proposed_plan> extra\n".to_string()
        )]
    );
}

#[test]
fn closes_unterminated_plan_block_on_finish() {
    let mut parser = ProposedPlanParser::new();
    let mut segments = parser.parse("<proposed_plan>\n- step 1\n");
    segments.extend(parser.finish());

    assert_eq!(
        segments,
        vec![
            ProposedPlanSegment::ProposedPlanStart,
            ProposedPlanSegment::ProposedPlanDelta("- step 1\n".to_string()),
            ProposedPlanSegment::ProposedPlanEnd,
        ]
    );
}

#[test]
fn closes_tag_line_without_trailing_newline() {
    let mut parser = ProposedPlanParser::new();
    let mut segments = parser.parse("<proposed_plan>\n- step 1\n</proposed_plan>");
    segments.extend(parser.finish());

    assert_eq!(
        segments,
        vec![
            ProposedPlanSegment::ProposedPlanStart,
            ProposedPlanSegment::ProposedPlanDelta("- step 1\n".to_string()),
            ProposedPlanSegment::ProposedPlanEnd,
        ]
    );
}

#[test]
fn strips_proposed_plan_blocks_from_text() {
    let text = "before\n<proposed_plan>\n- step\n</proposed_plan>\nafter";
    assert_eq!(strip_proposed_plan_blocks(text), "before\nafter");
}
