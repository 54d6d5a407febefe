use codex_plan::plan::extract_proposed_plan_text;
use codex_plan::plan::strip_proposed_plan_blocks;
use codex_plan::plan::ProposedPlanParser;
use codex_plan::plan::ProposedPlanSegment;

fn join(segments: Vec<ProposedPlanSegment>) -> Vec<ProposedPlanSegment> {
    let mut out: Vec<ProposedPlanSegment> = Vec::new();
    for segment in segments {
        match (out.last_mut(), segment) {
            (Some(ProposedPlanSegment::Normal(prev)), ProposedPlanSegment::Normal(text)) => {
                prev.push_str(&text)
            }
            (
                Some(ProposedPlanSegment::ProposedPlanDelta(prev)),
                ProposedPlanSegment::ProposedPlanDelta(text),
            ) => prev.push_str(&text),
            (_, segment) => out.push(segment),
        }
    }
    out
}

fn parse_in_chunks(chunks: &[&str]) -> Vec<ProposedPlanSegment> {
    let mut parser = ProposedPlanParser::new();
    let mut segments = Vec::new();
    for chunk in chunks {
        segments.extend(parser.parse(chunk));
    }
    segments.extend(parser.finish());
    segments
}

const SAMPLE: &str = "Intro\n  <proposed_plan>\n- one\n- two\n</proposed_plan>\nmiddle\n<proposed_plan>\n- three\n";

#[test]
fn split_points_do_not_change_the_segments() {
    let whole = parse_in_chunks(&[SAMPLE]);
    for cut in 0..=SAMPLE.len() {
        let (a, b) = SAMPLE.split_at(cut);
        assert_eq!(join(parse_in_chunks(&[a, b])), whole, "cut at {cut}");
    }
    let chars: Vec<String> = SAMPLE.chars().map(|c| c.to_string()).collect();
    let pieces: Vec<&str> = chars.iter().map(|s| s.as_str()).collect();
    assert_eq!(join(parse_in_chunks(&pieces)), whole);
}

#[test]
fn whole_sample_segments() {
    assert_eq!(
        parse_in_chunks(&[SAMPLE]),
        vec![
            ProposedPlanSegment::Normal("Intro\n".to_string()),
            ProposedPlanSegment::ProposedPlanStart,
            ProposedPlanSegment::ProposedPlanDelta("- one\n- two\n".to_string()),
            ProposedPlanSegment::ProposedPlanEnd,
            ProposedPlanSegment::Normal("middle\n".to_string()),
            ProposedPlanSegment::ProposedPlanStart,
            ProposedPlanSegment::ProposedPlanDelta("- three\n".to_string()),
            ProposedPlanSegment::ProposedPlanEnd,
        ]
    );
}

#[test]
fn trailing_space_after_tag_makes_the_line_text() {
    assert_eq!(
        parse_in_chunks(&["<proposed_plan> \nx\n"]),
        vec![ProposedPlanSegment::Normal("<proposed_plan> \nx\n".to_string())]
    );
}

#[test]
fn blocks_are_balanced_and_not_nested() {
    let segments = parse_in_chunks(&["<proposed_plan>\n<proposed_plan>\nx\n</proposed_plan>\n</proposed_plan>\n"]);
    assert_eq!(
        segments,
        vec![
            ProposedPlanSegment::ProposedPlanStart,
            ProposedPlanSegment::ProposedPlanDelta("<proposed_plan>\nx\n".to_string()),
            ProposedPlanSegment::ProposedPlanEnd,
            ProposedPlanSegment::Normal("</proposed_plan>\n".to_string()),
        ]
    );
}

#[test]
fn close_line_outside_a_block_is_text() {
    assert_eq!(
        parse_in_chunks(&["</proposed_plan>\nrest"]),
        vec![ProposedPlanSegment::Normal("</proposed_plan>\nrest".to_string())]
    );
}

#[test]
fn open_line_without_newline_opens_and_closes_on_finish() {
    assert_eq!(
        parse_in_chunks(&["<proposed_plan>"]),
        vec![
            ProposedPlanSegment::ProposedPlanStart,
            ProposedPlanSegment::ProposedPlanEnd,
        ]
    );
}

#[test]
fn text_of_one_call_is_joined() {
    let mut parser = ProposedPlanParser::new();
    assert_eq!(
        parser.parse("a\nb\nc"),
        vec![ProposedPlanSegment::Normal("a\nb\nc".to_string())]
    );
    assert_eq!(parser.finish(), vec![]);
}

#[test]
fn whitespace_only_line_is_held_until_it_ends() {
    let mut parser = ProposedPlanParser::new();
    assert_eq!(parser.parse("   "), vec![]);
    assert_eq!(
        parser.parse(" x\n"),
        vec![ProposedPlanSegment::Normal("    x\n".to_string())]
    );
}

#[test]
fn empty_input_gives_nothing() {
    assert_eq!(parse_in_chunks(&[""]), vec![]);
    assert_eq!(strip_proposed_plan_blocks(""), "");
    assert_eq!(extract_proposed_plan_text(""), None);
}

#[test]
fn strip_removes_unterminated_block() {
    assert_eq!(
        strip_proposed_plan_blocks("keep\n<proposed_plan>\n- dropped\n"),
        "keep\n"
    );
}

#[test]
fn extract_returns_last_plan_block() {
    let text = "a\n<proposed_plan>\nfirst\n</proposed_plan>\nb\n<proposed_plan>\nsecond\nplan\n</proposed_plan>\nc";
    assert_eq!(
        extract_proposed_plan_text(text),
        Some("second\nplan\n".to_string())
    );
}

#[test]
fn extract_without_block_is_none() {
    assert_eq!(extract_proposed_plan_text("just text\n<proposed_plan> x\n"), None);
}

#[test]
fn extract_of_empty_block_is_empty_text() {
    assert_eq!(
        extract_proposed_plan_text("<proposed_plan>\n</proposed_plan>\n"),
        Some(String::new())
    );
}

#[test]
fn three_chunk_split_matches_whole() {
    let whole = parse_in_chunks(&[SAMPLE]);
    for i in 0..=SAMPLE.len() {
        for j in i..=SAMPLE.len() {
            let parts = [&SAMPLE[..i], &SAMPLE[i..j], &SAMPLE[j..]];
            assert_eq!(join(parse_in_chunks(&parts)), whole, "cuts at {i}, {j}");
        }
    }
}

#[test]
fn nothing_is_held_back_after_a_line_feed() {
    let mut parser = ProposedPlanParser::new();
    assert_eq!(
        parser.parse("  <propo\n"),
        vec![ProposedPlanSegment::Normal("  <propo\n".to_string())]
    );
    assert_eq!(parser.finish(), vec![]);
    let mut parser = ProposedPlanParser::new();
    assert_eq!(parser.parse("<proposed_plan>\n"), vec![ProposedPlanSegment::ProposedPlanStart]);
    assert_eq!(parser.finish(), vec![ProposedPlanSegment::ProposedPlanEnd]);
}

#[test]
fn text_without_plan_is_kept_whole() {
    for text in [
        "plain\ntext",
        "</proposed_plan>\nafter\n",
        "  <proposed_plan> extra\n",
        "<proposed_plan",
        "",
    ] {
        assert_eq!(extract_proposed_plan_text(text), None);
        assert_eq!(strip_proposed_plan_blocks(text), text);
    }
}

#[test]
fn stripping_twice_is_stripping_once() {
    for text in [SAMPLE, "a\n<proposed_plan>\nb\n</proposed_plan>\n</proposed_plan>\nc"] {
        let once = strip_proposed_plan_blocks(text);
        assert_eq!(strip_proposed_plan_blocks(&once), once);
    }
}
