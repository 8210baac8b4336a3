//! The render classifier's styling rules.

use quack::classify::{classify, Segment, StyleTag, StyledLine};

fn flat(lines: &[StyledLine]) -> Vec<(String, StyleTag)> {
    let mut out = Vec::new();
    for line in lines {
        for seg in &line.segments {
            out.push((seg.text.clone(), seg.tag));
        }
    }
    out
}

fn line_tags(line: &StyledLine) -> Vec<StyleTag> {
    line.segments.iter().map(|s: &Segment| s.tag).collect()
}

#[test]
fn fence_toggling_styles_code_not_fences() {
    let lines = classify("```\ncode\n```\nplain");
    assert_eq!(lines.len(), 4);
    assert_eq!(lines[0].segments[0].text, "```");
    assert_eq!(lines[0].segments[0].tag, StyleTag::Muted);
    assert_eq!(lines[1].segments[0].text, "code");
    assert_eq!(lines[1].segments[0].tag, StyleTag::Code);
    assert_eq!(lines[2].segments[0].tag, StyleTag::Muted);
    assert_eq!(lines[3].segments[0].text, "plain");
    assert_eq!(lines[3].segments[0].tag, StyleTag::Plain);
}

#[test]
fn code_lines_are_reproduced_verbatim() {
    let lines = classify("```\nx \n```");
    assert_eq!(lines[1].segments[0].text, "x ");
    assert_eq!(lines[1].segments[0].tag, StyleTag::Code);
    let lines = classify("```\n  indented\t\n```");
    assert_eq!(lines[1].segments[0].text, "  indented\t");
}

#[test]
fn code_lines_keep_a_trailing_carriage_return() {
    let lines = classify("```\r\ncode line\r\n```\r\nplain\r\n");
    assert_eq!(lines[0].segments[0].text, "```");
    assert_eq!(lines[0].segments[0].tag, StyleTag::Muted);
    assert_eq!(lines[1].segments[0].text, "code line\r");
    assert_eq!(lines[1].segments[0].tag, StyleTag::Code);
    assert_eq!(lines[3].segments[0].text, "plain");
    assert_eq!(lines[3].segments[0].tag, StyleTag::Plain);
}

#[test]
fn unterminated_fence_keeps_code_styling() {
    let lines = classify("```\na\nb");
    assert_eq!(lines[1].segments[0].tag, StyleTag::Code);
    assert_eq!(lines[2].segments[0].tag, StyleTag::Code);
}

#[test]
fn flag_tokens_in_highlight_section() {
    let lines = classify("### **The Glitch**\nrm -rf /tmp");
    assert_eq!(lines.len(), 2);
    assert_eq!(lines[0].segments[0].tag, StyleTag::Header);
    let toks = &lines[1].segments;
    let words: Vec<(&str, StyleTag)> = toks
        .iter()
        .filter(|s: &&Segment| !s.text.trim().is_empty())
        .map(|s: &Segment| (s.text.as_str(), s.tag))
        .collect();
    assert_eq!(
        words,
        vec![
            ("rm", StyleTag::Plain),
            ("-rf", StyleTag::Flag),
            ("/tmp", StyleTag::Plain),
        ]
    );
}

#[test]
fn highlight_section_preserves_spacing_and_order() {
    let lines = classify("the glitch\n  a  -b c");
    let segs: Vec<(String, StyleTag)> = lines[1]
        .segments
        .iter()
        .map(|s: &Segment| (s.text.clone(), s.tag))
        .collect();
    assert_eq!(
        segs,
        vec![
            ("  ".to_string(), StyleTag::Plain),
            ("a".to_string(), StyleTag::Plain),
            ("  ".to_string(), StyleTag::Plain),
            ("-b".to_string(), StyleTag::Flag),
            (" ".to_string(), StyleTag::Plain),
            ("c".to_string(), StyleTag::Plain),
        ]
    );
}

#[test]
fn solution_header_closes_highlight_section() {
    let lines = classify("the glitch\n-x\nThe Solution\n-y");
    assert_eq!(lines[1].segments[0].tag, StyleTag::Flag);
    assert_eq!(lines[2].segments[0].tag, StyleTag::Header);
    assert_eq!(lines[2].segments[0].text, "THE SOLUTION");
    assert_eq!(lines[3].segments[0].tag, StyleTag::Plain);
}

#[test]
fn pro_tip_header_closes_highlight_section() {
    let lines = classify("THE GLITCH here\n-x\n### **Pro-Tip**");
    assert_eq!(lines[0].segments[0].tag, StyleTag::Header);
    assert_eq!(lines[1].segments[0].tag, StyleTag::Flag);
    assert_eq!(lines[2].segments[0].tag, StyleTag::Header);
    assert_eq!(lines[2].segments[0].text, "### **PRO-TIP**");
}

#[test]
fn metadata_prefixes_render_muted() {
    let lines = classify("OS: Arch Linux\nwhen: later\n# note\nContextual Tip: use it");
    for line in &lines {
        assert_eq!(line_tags(line), vec![StyleTag::Muted]);
    }
}

#[test]
fn plain_text_stays_plain() {
    let lines = classify("just words here");
    assert_eq!(lines[0].segments[0].text, "just words here");
    assert_eq!(lines[0].segments[0].tag, StyleTag::Plain);
}

#[test]
fn classify_is_idempotent_across_calls() {
    let input = "### **The Glitch**\nrm -rf /\n```\nsudo pacman -Syu\n```\nOS: Arch";
    let first = flat(&classify(input));
    let second = flat(&classify(input));
    assert_eq!(first, second);
}

#[test]
fn trailing_newline_adds_no_line() {
    assert_eq!(classify("a\n").len(), 1);
    assert_eq!(classify("a").len(), 1);
    assert_eq!(classify("").len(), 0);
    assert_eq!(classify("a\n\nb").len(), 3);
}

#[test]
fn lines_are_trimmed_at_their_end() {
    let lines = classify("hello   \t\n");
    assert_eq!(lines[0].segments[0].text, "hello");
}
