//! Delta extraction: one protocol frame holds one or more lines; each
//! non-empty line is stripped of its event-data marker, checked against
//! the completion sentinel, and otherwise parsed as a structured record
//! from which the text delta is read.  Three record shapes are known and
//! tried in a fixed priority order; an unparseable line yields nothing
//! rather than failing the frame.

use vstd::prelude::*;

use crate::frames::{split_frames, NL};
use crate::text::{
    bytes_eq, find_elem, has_prefix, is_space_byte, lemma_find_elem, lemma_find_elem_is,
    split_elem, starts_with_bytes, trim_by, trim_bytes,
};

verus! {

/// One unit of streamed assistant output: a text fragment, or the
/// explicit completion marker after which no further content is owed.
#[derive(Debug, Clone, PartialEq, Eq)]
pub enum Delta {
    Text(String),
    EndOfStream,
}

/// The mathematical value of a `Delta`.
pub enum DeltaModel {
    Text(Seq<char>),
    EndOfStream,
}

impl View for Delta {
    type V = DeltaModel;

    open spec fn view(&self) -> DeltaModel {
        match self {
            Delta::Text(s) => DeltaModel::Text(s@),
            Delta::EndOfStream => DeltaModel::EndOfStream,
        }
    }
}

/// The views of a sequence of deltas.
pub open spec fn deltas_view(v: Seq<Delta>) -> Seq<DeltaModel> {
    v.map_values(|d: Delta| d@)
}

/// The event-data marker that may prefix a payload line.
pub open spec fn data_marker() -> Seq<u8> {
    seq!['d' as u8, 'a' as u8, 't' as u8, 'a' as u8, ':' as u8, ' ' as u8]
}

/// The completion sentinel payload.
pub open spec fn done_sentinel() -> Seq<u8> {
    seq!['[' as u8, 'D' as u8, 'O' as u8, 'N' as u8, 'E' as u8, ']' as u8]
}

/// The string content found under the record's delta field, if the
/// payload parses as a record of that shape.
pub uninterp spec fn json_delta_content(payload: Seq<u8>) -> Option<Seq<char>>;

/// The string content found directly under the record's first choice.
pub uninterp spec fn json_choice_content(payload: Seq<u8>) -> Option<Seq<char>>;

/// The string content found under the doubly-nested delta-of-delta field.
pub uninterp spec fn json_nested_content(payload: Seq<u8>) -> Option<Seq<char>>;

/// The three content shapes a payload may parse into, pre-extracted to
/// plain optional strings, in priority order.
pub struct ParsedRecord {
    pub delta_content: Option<String>,
    pub choice_content: Option<String>,
    pub nested_content: Option<String>,
}

/// The view of an optional string.
pub open spec fn opt_chars(o: Option<String>) -> Option<Seq<char>> {
    match o {
        Some(s) => Some(s@),
        None => None,
    }
}

/// Relies on `serde_json::from_slice`, `Value::pointer` and
/// `Value::as_str`: parsing a byte payload as a structured record and
/// looking up a fixed path in it is a function of the bytes alone.  The
/// three lookups are `/choices/0/delta/content`, `/choices/0/content`
/// and `/choices/0/delta/delta/content`.
#[verifier::external_body]
fn parse_record(payload: &[u8]) -> (r: ParsedRecord)
    ensures
        opt_chars(r.delta_content) == json_delta_content(payload@),
        opt_chars(r.choice_content) == json_choice_content(payload@),
        opt_chars(r.nested_content) == json_nested_content(payload@),
{
    let v: Option<serde_json::Value> = serde_json::from_slice(payload).ok();
    let d = v.as_ref().and_then(|x| x.pointer("/choices/0/delta/content")).and_then(|x| x.as_str());
    let c = v.as_ref().and_then(|x| x.pointer("/choices/0/content")).and_then(|x| x.as_str());
    let n = v.as_ref().and_then(|x| x.pointer("/choices/0/delta/delta/content")).and_then(
        |x| x.as_str(),
    );
    ParsedRecord {
        delta_content: d.map(str::to_string),
        choice_content: c.map(str::to_string),
        nested_content: n.map(str::to_string),
    }
}

/// The first of the three shapes that is present, in priority order:
/// delta content, then direct choice content, then nested content.
pub open spec fn first_of(a: Option<Seq<char>>, b: Option<Seq<char>>, c: Option<Seq<char>>) -> Option<
    Seq<char>,
> {
    if a is Some {
        a
    } else if b is Some {
        b
    } else {
        c
    }
}

/// Law: extraction prefers the delta shape, then the direct choice
/// shape, and falls back to the doubly-nested shape only when both are
/// absent, whatever combination of shapes a record presents.
pub proof fn lemma_extractor_priority(a: Option<Seq<char>>, b: Option<Seq<char>>, c: Option<
    Seq<char>,
>)
    ensures
        a is Some ==> first_of(a, b, c) == a,
        (a is None && b is Some) ==> first_of(a, b, c) == b,
        (a is None && b is None) ==> first_of(a, b, c) == c,
{
}

/// The content of the highest-priority shape present in `rec`.
pub fn extract_content(rec: ParsedRecord) -> (r: Option<String>)
    ensures
        opt_chars(r) == first_of(
            opt_chars(rec.delta_content),
            opt_chars(rec.choice_content),
            opt_chars(rec.nested_content),
        ),
{
    match rec.delta_content {
        Some(s) => Some(s),
        None => match rec.choice_content {
            Some(s) => Some(s),
            None => rec.nested_content,
        },
    }
}

/// What one line of a frame contributes: nothing when blank or
/// unparseable, the end-of-stream delta when its payload is the
/// completion sentinel, and a text delta otherwise.
pub open spec fn extract_line(line: Seq<u8>) -> Option<DeltaModel> {
    let t = trim_by(line, |b: u8| is_space_byte(b));
    if t.len() == 0 {
        None
    } else {
        let payload = if has_prefix(t, data_marker()) {
            t.skip(data_marker().len() as int)
        } else {
            t
        };
        if payload == done_sentinel() {
            Some(DeltaModel::EndOfStream)
        } else {
            match first_of(
                json_delta_content(payload),
                json_choice_content(payload),
                json_nested_content(payload),
            ) {
                Some(c) => Some(DeltaModel::Text(c)),
                None => None,
            }
        }
    }
}

/// Law: a line whose payload, after trimming and marker stripping, is
/// exactly the completion sentinel yields the end-of-stream delta and
/// never a text delta.
pub proof fn lemma_sentinel_line(line: Seq<u8>)
    requires
        ({
            let t = trim_by(line, |b: u8| is_space_byte(b));
            t == done_sentinel() || t == data_marker() + done_sentinel()
        }),
    ensures
        extract_line(line) == Some(DeltaModel::EndOfStream),
{
    let t = trim_by(line, |b: u8| is_space_byte(b));
    if t == done_sentinel() {
        assert(t.len() == 6);
        if has_prefix(t, data_marker()) {
            assert(t.take(6)[0] == 'd' as u8);
            assert(t[0] == '[' as u8);
        }
    } else {
        assert(t.len() == 12);
        assert(t.take(6) =~= data_marker());
        assert(t.skip(6) =~= done_sentinel());
    }
}

/// The deltas contributed by a sequence of lines, in line order.
pub open spec fn deltas_of_lines(lines: Seq<Seq<u8>>) -> Seq<DeltaModel>
    decreases lines.len(),
{
    if lines.len() == 0 {
        Seq::empty()
    } else {
        deltas_of_lines(lines.drop_last()) + match extract_line(lines.last()) {
            Some(d) => seq![d],
            None => Seq::<DeltaModel>::empty(),
        }
    }
}

/// The deltas contributed by one frame: its lines, in order.
pub open spec fn extract_frame(frame: Seq<u8>) -> Seq<DeltaModel> {
    deltas_of_lines(split_elem(frame, NL))
}

/// Position of the first `x` in `s`, if any.
fn find_byte(s: &[u8], x: u8) -> (r: Option<usize>)
    ensures
        match r {
            Some(i) => find_elem(s@, x) == Some(i as int),
            None => find_elem(s@, x) is None,
        },
{
    proof {
        lemma_find_elem(s@, x);
    }
    let mut i: usize = 0;
    while i < s.len()
        invariant
            0 <= i <= s@.len(),
            forall|j: int| 0 <= j < i ==> s@[j] != x,
        decreases s@.len() - i,
    {
        if s[i] == x {
            proof {
                lemma_find_elem_is(s@, x, i as int);
            }
            return Some(i);
        }
        i = i + 1;
    }
    proof {
        if let Some(k) = find_elem(s@, x) {
            assert(s@[k] == x);
            assert(false);
        }
    }
    None
}

/// The lines of `frame`, split on newline bytes; empty parts included.
pub fn split_lines_bytes(frame: &[u8]) -> (r: Vec<Vec<u8>>)
    ensures
        r@.map_values(|l: Vec<u8>| l@) == split_elem(frame@, NL),
{
    let mut r: Vec<Vec<u8>> = Vec::new();
    let mut pos: usize = 0;
    proof {
        assert(frame@.skip(0) =~= frame@);
        assert(r@.map_values(|l: Vec<u8>| l@) =~= Seq::<Seq<u8>>::empty());
        assert(Seq::<Seq<u8>>::empty() + split_elem(frame@, NL) =~= split_elem(frame@, NL));
    }
    loop
        invariant_except_break
            0 <= pos <= frame@.len(),
            split_elem(frame@, NL) =~= r@.map_values(|l: Vec<u8>| l@) + split_elem(
                frame@.skip(pos as int),
                NL,
            ),
        ensures
            r@.map_values(|l: Vec<u8>| l@) =~= split_elem(frame@, NL),
        decreases frame@.len() - pos,
    {
        let rest = vstd::slice::slice_subrange(frame, pos, frame.len());
        proof {
            lemma_find_elem(rest@, NL);
        }
        match find_byte(rest, NL) {
            Some(i) => {
                let part = vstd::slice::slice_to_vec(
                    vstd::slice::slice_subrange(rest, 0, i),
                );
                proof {
                    assert(part@ =~= rest@.take(i as int));
                    assert(split_elem(rest@, NL) == seq![rest@.take(i as int)] + split_elem(
                        rest@.skip(i + 1),
                        NL,
                    ));
                    assert(frame@.skip(pos + i + 1) =~= rest@.skip(i + 1));
                    assert((r@.map_values(|l: Vec<u8>| l@)).push(part@) =~= r@.map_values(
                        |l: Vec<u8>| l@,
                    ) + seq![part@]);
                    assert(r@.push(part).map_values(|l: Vec<u8>| l@) =~= r@.map_values(
                        |l: Vec<u8>| l@,
                    ).push(part@));
                }
                r.push(part);
                pos = pos + i + 1;
            },
            None => {
                let part = vstd::slice::slice_to_vec(rest);
                proof {
                    assert(split_elem(rest@, NL) == seq![rest@]);
                    assert(r@.push(part).map_values(|l: Vec<u8>| l@) =~= r@.map_values(
                        |l: Vec<u8>| l@,
                    ).push(part@));
                }
                r.push(part);
                break;
            },
        }
    }
    r
}

/// The event-data marker, as bytes.
fn data_marker_vec() -> (r: Vec<u8>)
    ensures
        r@ == data_marker(),
{
    let mut v: Vec<u8> = Vec::new();
    v.push('d' as u8);
    v.push('a' as u8);
    v.push('t' as u8);
    v.push('a' as u8);
    v.push(':' as u8);
    v.push(' ' as u8);
    proof {
        assert(v@ =~= data_marker());
    }
    v
}

/// The completion sentinel, as bytes.
fn done_sentinel_vec() -> (r: Vec<u8>)
    ensures
        r@ == done_sentinel(),
{
    let mut v: Vec<u8> = Vec::new();
    v.push('[' as u8);
    v.push('D' as u8);
    v.push('O' as u8);
    v.push('N' as u8);
    v.push('E' as u8);
    v.push(']' as u8);
    proof {
        assert(v@ =~= done_sentinel());
    }
    v
}

/// The delta contributed by one line, if any.
pub fn extract_line_delta(line: &[u8]) -> (r: Option<Delta>)
    ensures
        match r {
            Some(d) => extract_line(line@) == Some(d@),
            None => extract_line(line@) is None,
        },
{
    let t = trim_bytes(line);
    if t.len() == 0 {
        return None;
    }
    let marker = data_marker_vec();
    let payload: &[u8] = if starts_with_bytes(t, marker.as_slice()) {
        vstd::slice::slice_subrange(t, 6, t.len())
    } else {
        t
    };
    let sentinel = done_sentinel_vec();
    if bytes_eq(payload, sentinel.as_slice()) {
        return Some(Delta::EndOfStream);
    }
    let rec = parse_record(payload);
    match extract_content(rec) {
        Some(s) => Some(Delta::Text(s)),
        None => None,
    }
}

/// All deltas contributed by one frame, in line order.
pub fn extract_frame_deltas(frame: &[u8]) -> (r: Vec<Delta>)
    ensures
        deltas_view(r@) == extract_frame(frame@),
{
    let lines = split_lines_bytes(frame);
    let ghost lines_v = lines@.map_values(|l: Vec<u8>| l@);
    let mut r: Vec<Delta> = Vec::new();
    let mut i: usize = 0;
    while i < lines.len()
        invariant
            lines_v == lines@.map_values(|l: Vec<u8>| l@),
            0 <= i <= lines@.len(),
            deltas_view(r@) == deltas_of_lines(lines_v.take(i as int)),
        decreases lines@.len() - i,
    {
        let ghost prev = deltas_view(r@);
        match extract_line_delta(lines[i].as_slice()) {
            Some(d) => {
                r.push(d);
            },
            None => {},
        }
        proof {
            assert(lines_v.take(i + 1).drop_last() =~= lines_v.take(i as int));
            assert(lines_v.take(i + 1).last() == lines_v[i as int]);
            assert(deltas_view(r@) =~= deltas_of_lines(lines_v.take(i + 1)));
        }
        i = i + 1;
    }
    proof {
        assert(lines_v.take(lines_v.len() as int) =~= lines_v);
    }
    r
}

/// The deltas contributed by a sequence of frames, in order.
pub open spec fn deltas_of_frames(frames: Seq<Seq<u8>>) -> Seq<DeltaModel>
    decreases frames.len(),
{
    if frames.len() == 0 {
        Seq::empty()
    } else {
        deltas_of_frames(frames.drop_last()) + extract_frame(frames.last())
    }
}

/// Feed one raw chunk into the reassembly buffer and return every delta
/// of every frame the chunk completes, in arrival order.
pub fn process_chunk(buffer: &mut Vec<u8>, chunk: &[u8]) -> (deltas: Vec<Delta>)
    ensures
        deltas_view(deltas@) == deltas_of_frames(split_frames(old(buffer)@ + chunk@).0),
        final(buffer)@ == split_frames(old(buffer)@ + chunk@).1,
{
    let frames = crate::frames::feed(buffer, chunk);
    let ghost frames_v = frames@.map_values(|f: Vec<u8>| f@);
    let mut deltas: Vec<Delta> = Vec::new();
    let mut i: usize = 0;
    while i < frames.len()
        invariant
            frames_v == frames@.map_values(|f: Vec<u8>| f@),
            0 <= i <= frames@.len(),
            deltas_view(deltas@) == deltas_of_frames(frames_v.take(i as int)),
        decreases frames@.len() - i,
    {
        let mut fd = extract_frame_deltas(frames[i].as_slice());
        let ghost fd_v = deltas_view(fd@);
        deltas.append(&mut fd);
        proof {
            assert(frames_v.take(i + 1).drop_last() =~= frames_v.take(i as int));
            assert(frames_v.take(i + 1).last() == frames_v[i as int]);
            assert(deltas_view(deltas@) =~= deltas_of_frames(frames_v.take(i as int)) + fd_v);
            assert(deltas_view(deltas@) =~= deltas_of_frames(frames_v.take(i + 1)));
        }
        i = i + 1;
    }
    proof {
        assert(frames_v.take(frames_v.len() as int) =~= frames_v);
    }
    deltas
}

} // verus!
