//! The render classifier: a pure, line-oriented state machine that maps
//! the accumulated response text to styled segments.  Fence lines toggle
//! code styling, and while a fence is open every line renders as code,
//! verbatim; recognised section headers open and close a highlight
//! section in which dash-led tokens are flagged; metadata-looking lines
//! are muted; everything else renders plain, trimmed at its end.

use vstd::prelude::*;

use crate::text::{
    chars_of, contains_chars, contains_seq, has_prefix, is_space_char, is_space_char_exec,
    lemma_run_len_bounds, lemma_run_len_is, lines_of, lower_chars, lower_seq, run_len, split_elem,
    split_lines_chars, starts_with_chars, string_of, trim_end_by, upper_chars, upper_seq,
};

verus! {

/// How one segment of a styled line is to be rendered.
#[derive(Debug, Clone, Copy, PartialEq, Eq, Structural)]
pub enum StyleTag {
    /// Ordinary text.
    Plain,
    /// A line inside a code fence.
    Code,
    /// A section header line.
    Header,
    /// A dash-led token inside the highlight section.
    Flag,
    /// A fence line or metadata-looking line.
    Muted,
}

/// The mathematical value of a segment: its text and its style.
pub struct SegModel {
    pub text: Seq<char>,
    pub tag: StyleTag,
}

/// One styled run of text within a line.
pub struct Segment {
    pub text: String,
    pub tag: StyleTag,
}

impl View for Segment {
    type V = SegModel;

    open spec fn view(&self) -> SegModel {
        SegModel { text: self.text@, tag: self.tag }
    }
}

/// One rendered line: its segments in display order.
pub struct StyledLine {
    pub segments: Vec<Segment>,
}

/// The views of a sequence of segments.
pub open spec fn seg_views(v: Seq<Segment>) -> Seq<SegModel> {
    v.map_values(|s: Segment| s@)
}

impl View for StyledLine {
    type V = Seq<SegModel>;

    open spec fn view(&self) -> Seq<SegModel> {
        seg_views(self.segments@)
    }
}

/// The views of a sequence of styled lines.
pub open spec fn styled_views(v: Seq<StyledLine>) -> Seq<Seq<SegModel>> {
    v.map_values(|l: StyledLine| l@)
}

/// A highlight-section line split into alternating runs of whitespace
/// and tokens; a token led by a dash is flagged, all else is plain.
pub open spec fn tokenize(s: Seq<char>) -> Seq<SegModel>
    decreases s.len(),
    via tokenize_decreases
{
    if s.len() == 0 {
        Seq::empty()
    } else {
        let space = is_space_char(s[0]);
        let n = run_len(s, space);
        let tag = if space || s[0] != '-' {
            StyleTag::Plain
        } else {
            StyleTag::Flag
        };
        seq![SegModel { text: s.take(n), tag }] + tokenize(s.skip(n))
    }
}

#[via_fn]
proof fn tokenize_decreases(s: Seq<char>) {
    if s.len() > 0 {
        let space = is_space_char(s[0]);
        lemma_run_len_bounds(s, space);
        lemma_run_len_bounds(s.skip(1), space);
        assert(run_len(s, space) == 1 + run_len(s.skip(1), space));
    }
}

/// What one line renders to, and the fence and highlight states after
/// it, given the states before it.  Detection (fences, headers, muted
/// prefixes) works on the line with its trailing whitespace removed, and
/// most lines render in that trimmed form; a line inside a code fence is
/// the exception and renders verbatim, exactly as it stands between the
/// newline separators — a trailing carriage return from CRLF input
/// included.
pub open spec fn line_step(code: bool, glitch: bool, line: Seq<char>) -> (Seq<SegModel>, bool, bool) {
    let t = trim_end_by(line, |c: char| is_space_char(c));
    let low = lower_seq(t);
    if has_prefix(t, "```"@) {
        (seq![SegModel { text: t, tag: StyleTag::Muted }], !code, glitch)
    } else if contains_seq(low, "the glitch"@) {
        (seq![SegModel { text: upper_seq(t), tag: StyleTag::Header }], code, true)
    } else if contains_seq(low, "the solution"@) || contains_seq(low, "pro-tip"@) {
        (seq![SegModel { text: upper_seq(t), tag: StyleTag::Header }], code, false)
    } else if code {
        (seq![SegModel { text: line, tag: StyleTag::Code }], code, glitch)
    } else if glitch {
        (tokenize(t), code, glitch)
    } else if has_prefix(t, "OS:"@) || has_prefix(t, "when:"@) || has_prefix(t, "#"@)
        || has_prefix(low, "contextual tip"@) {
        (seq![SegModel { text: t, tag: StyleTag::Muted }], code, glitch)
    } else {
        (seq![SegModel { text: t, tag: StyleTag::Plain }], code, glitch)
    }
}

/// The styled output and final states for a sequence of lines, started
/// outside any fence or highlight section.
pub open spec fn classify_fold(lines: Seq<Seq<char>>) -> (Seq<Seq<SegModel>>, bool, bool)
    decreases lines.len(),
{
    if lines.len() == 0 {
        (Seq::<Seq<SegModel>>::empty(), false, false)
    } else {
        let prev = classify_fold(lines.drop_last());
        let step = line_step(prev.1, prev.2, lines.last());
        (prev.0.push(step.0), step.1, step.2)
    }
}

/// The styled lines of the full response text.
pub open spec fn classify_spec(s: Seq<char>) -> Seq<Seq<SegModel>> {
    classify_fold(lines_of(s)).0
}

/// Law: classification is a pure function of the response buffer —
/// classifying the same buffer twice yields the same styled lines, with
/// no state carried between calls.
pub proof fn lemma_classify_idempotent(s1: Seq<char>, s2: Seq<char>)
    requires
        s1 == s2,
    ensures
        classify_spec(s1) == classify_spec(s2),
{
}

/// The subslice of `s` with trailing ASCII whitespace removed.
fn trim_end_chars<'a>(s: &'a [char]) -> (r: &'a [char])
    ensures
        r@ == trim_end_by(s@, |c: char| is_space_char(c)),
{
    let mut hi: usize = s.len();
    while hi > 0 && is_space_char_exec(s[hi - 1])
        invariant
            0 <= hi <= s@.len(),
            forall|k: int| hi <= k < s@.len() ==> is_space_char(s@[k]),
        decreases hi,
    {
        hi = hi - 1;
    }
    proof {
        let p = |c: char| is_space_char(c);
        assert forall|k: int| hi <= k < s@.len() implies p(s@[k]) by {
            assert(is_space_char(s@[k]));
        }
        if hi > 0 {
            assert(!p(s@[hi - 1]));
        }
        crate::text::lemma_trim_end_by(s@, p, hi as int);
        assert(s@.take(hi as int) =~= s@.subrange(0, hi as int));
    }
    vstd::slice::slice_subrange(s, 0, hi)
}

/// The alternating whitespace and token runs of a highlight-section
/// line, dash-led tokens flagged.
fn tokenize_exec(t: &[char]) -> (r: Vec<Segment>)
    ensures
        seg_views(r@) == tokenize(t@),
{
    let mut r: Vec<Segment> = Vec::new();
    let mut i: usize = 0;
    proof {
        assert(t@.skip(0) =~= t@);
        assert(seg_views(r@) =~= Seq::<SegModel>::empty());
        assert(Seq::<SegModel>::empty() + tokenize(t@) =~= tokenize(t@));
    }
    while i < t.len()
        invariant
            0 <= i <= t@.len(),
            tokenize(t@) =~= seg_views(r@) + tokenize(t@.skip(i as int)),
        decreases t@.len() - i,
    {
        let cls = is_space_char_exec(t[i]);
        let mut j: usize = i + 1;
        while j < t.len() && is_space_char_exec(t[j]) == cls
            invariant
                0 <= i < j <= t@.len(),
                cls == is_space_char(t@[i as int]),
                forall|k: int| i <= k < j ==> is_space_char(t@[k]) == cls,
            decreases t@.len() - j,
        {
            j = j + 1;
        }
        let run = vstd::slice::slice_subrange(t, i, j);
        let tag = if !cls && t[i] == '-' {
            StyleTag::Flag
        } else {
            StyleTag::Plain
        };
        let seg = Segment { text: string_of(run), tag };
        proof {
            let rem = t@.skip(i as int);
            assert(forall|k: int| 0 <= k < rem.len() ==> rem[k] == t@[k + i]);
            lemma_run_len_is(rem, cls, j - i);
            assert(tokenize(rem) == seq![
                SegModel {
                    text: rem.take(j - i),
                    tag: if cls || rem[0] != '-' {
                        StyleTag::Plain
                    } else {
                        StyleTag::Flag
                    },
                },
            ] + tokenize(rem.skip(j - i)));
            assert(rem.take(j - i) =~= t@.subrange(i as int, j as int));
            assert(rem.skip(j - i) =~= t@.skip(j as int));
            assert(seg@ == SegModel { text: rem.take(j - i), tag });
            assert(seg_views(r@.push(seg)) =~= seg_views(r@).push(seg@));
            assert(seg_views(r@).push(seg@) + tokenize(t@.skip(j as int)) =~= seg_views(r@) + (
            seq![seg@] + tokenize(rem.skip(j - i))));
        }
        r.push(seg);
        i = j;
    }
    proof {
        assert(t@.skip(t@.len() as int) =~= Seq::<char>::empty());
        assert(tokenize(Seq::<char>::empty()) == Seq::<SegModel>::empty());
        assert(seg_views(r@) + Seq::<SegModel>::empty() =~= seg_views(r@));
    }
    r
}

/// One line and one segment with the given text and tag.
fn single_segment_line(text: &[char], tag: StyleTag) -> (r: StyledLine)
    ensures
        r@ == seq![SegModel { text: text@, tag }],
{
    let seg = Segment { text: string_of(text), tag };
    let mut segments: Vec<Segment> = Vec::new();
    segments.push(seg);
    proof {
        assert(seg_views(segments@) =~= seq![SegModel { text: text@, tag }]);
    }
    StyledLine { segments }
}

/// Classify the whole response text into styled lines: a pure function
/// of the text, reproducing the fence, header, highlight and metadata
/// rules line by line from the start.
pub fn classify(text: &str) -> (r: Vec<StyledLine>)
    ensures
        styled_views(r@) == classify_spec(text@),
{
    let mut chars = chars_of(text);
    if chars.len() == 0 {
        let r: Vec<StyledLine> = Vec::new();
        proof {
            assert(lines_of(text@) == Seq::<Seq<char>>::empty());
            assert(styled_views(r@) =~= Seq::<Seq<SegModel>>::empty());
        }
        return r;
    }
    if chars[chars.len() - 1] == '\n' {
        let _ = chars.pop();
        proof {
            assert(chars@ =~= text@.drop_last());
        }
    }
    let ghost line_src = chars@;
    let lines = split_lines_chars(chars.as_slice());
    let ghost lines_v = lines@.map_values(|l: Vec<char>| l@);
    proof {
        assert(lines_of(text@) == split_elem(line_src, '\n'));
    }
    let mut r: Vec<StyledLine> = Vec::new();
    let mut code = false;
    let mut glitch = false;
    let mut i: usize = 0;
    proof {
        assert(lines_v.take(0) =~= Seq::<Seq<char>>::empty());
        assert(styled_views(r@) =~= Seq::<Seq<SegModel>>::empty());
    }
    while i < lines.len()
        invariant
            lines_v == lines@.map_values(|l: Vec<char>| l@),
            0 <= i <= lines@.len(),
            classify_fold(lines_v.take(i as int)) == (styled_views(r@), code, glitch),
        decreases lines@.len() - i,
    {
        let ghost code0 = code;
        let ghost glitch0 = glitch;
        let line = lines[i].as_slice();
        let styled_line: StyledLine;
        let t = trim_end_chars(line);
        let low = lower_chars(t);
        let fence = chars_of("```");
        let glitch_phrase = chars_of("the glitch");
        let solution_phrase = chars_of("the solution");
        let protip_phrase = chars_of("pro-tip");
        if starts_with_chars(t, fence.as_slice()) {
            styled_line = single_segment_line(t, StyleTag::Muted);
            code = !code;
        } else if contains_chars(low.as_slice(), glitch_phrase.as_slice()) {
            let up = upper_chars(t);
            styled_line = single_segment_line(up.as_slice(), StyleTag::Header);
            glitch = true;
        } else if contains_chars(low.as_slice(), solution_phrase.as_slice()) || contains_chars(
            low.as_slice(),
            protip_phrase.as_slice(),
        ) {
            let up = upper_chars(t);
            styled_line = single_segment_line(up.as_slice(), StyleTag::Header);
            glitch = false;
        } else if code {
            styled_line = single_segment_line(line, StyleTag::Code);
        } else if glitch {
            let segments = tokenize_exec(t);
            styled_line = StyledLine { segments };
        } else {
            let os_prefix = chars_of("OS:");
            let when_prefix = chars_of("when:");
            let hash_prefix = chars_of("#");
            let tip_prefix = chars_of("contextual tip");
            if starts_with_chars(t, os_prefix.as_slice()) || starts_with_chars(
                t,
                when_prefix.as_slice(),
            ) || starts_with_chars(t, hash_prefix.as_slice()) || starts_with_chars(
                low.as_slice(),
                tip_prefix.as_slice(),
            ) {
                styled_line = single_segment_line(t, StyleTag::Muted);
            } else {
                styled_line = single_segment_line(t, StyleTag::Plain);
            }
        }
        proof {
            let step = line_step(code0, glitch0, lines_v[i as int]);
            assert(styled_line@ == step.0);
            assert(code == step.1);
            assert(glitch == step.2);
            assert(lines_v.take(i + 1).drop_last() =~= lines_v.take(i as int));
            assert(lines_v.take(i + 1).last() == lines_v[i as int]);
            assert(styled_views(r@.push(styled_line)) =~= styled_views(r@).push(styled_line@));
        }
        r.push(styled_line);
        i = i + 1;
    }
    proof {
        assert(lines_v.take(lines_v.len() as int) =~= lines_v);
    }
    r
}

} // verus!
