//! Frame reassembly: a streaming response body arrives as arbitrary byte
//! chunks; complete protocol frames are delimited by two consecutive
//! newline bytes.  `feed` appends a chunk to the reassembly buffer and
//! drains every completed frame, leaving at most one partial frame behind.

use vstd::prelude::*;

verus! {

/// The frame delimiter is two consecutive newline bytes.
pub const NL: u8 = 10;

/// True when a frame delimiter starts at position `i` of `s`.
pub open spec fn delim_at(s: Seq<u8>, i: int) -> bool {
    0 <= i && i + 2 <= s.len() && s[i] == NL && s[i + 1] == NL
}

/// Position of the first frame delimiter in `s`, if any.
pub open spec fn find_delim(s: Seq<u8>) -> Option<int>
    decreases s.len(),
{
    if s.len() < 2 {
        None
    } else if s[0] == NL && s[1] == NL {
        Some(0)
    } else {
        match find_delim(s.skip(1)) {
            Some(i) => Some(i + 1),
            None => None,
        }
    }
}

/// `find_delim` returns the first delimiter position and nothing else.
pub proof fn lemma_find_delim(s: Seq<u8>)
    ensures
        match find_delim(s) {
            Some(i) => delim_at(s, i) && (forall|j: int| 0 <= j < i ==> !delim_at(s, j)),
            None => forall|j: int| !delim_at(s, j),
        },
    decreases s.len(),
{
    if s.len() < 2 {
    } else if s[0] == NL && s[1] == NL {
    } else {
        lemma_find_delim(s.skip(1));
        let t = s.skip(1);
        assert(forall|j: int| 0 <= j < t.len() ==> t[j] == s[j + 1]);
        assert(forall|j: int| delim_at(t, j) <==> delim_at(s, j + 1));
        match find_delim(t) {
            Some(i) => {
                assert(delim_at(s, i + 1));
                assert forall|j: int| 0 <= j < i + 1 implies !delim_at(s, j) by {
                    if j == 0 {
                    } else {
                        assert(!delim_at(t, j - 1));
                    }
                }
            },
            None => {
                assert forall|j: int| !delim_at(s, j) by {
                    if j == 0 {
                    } else if 0 < j {
                        assert(!delim_at(t, j - 1));
                    }
                }
            },
        }
    }
}

/// If a delimiter stands at `i` and none earlier, `find_delim` returns `i`.
pub proof fn lemma_find_delim_is(s: Seq<u8>, i: int)
    requires
        delim_at(s, i),
        forall|j: int| 0 <= j < i ==> !delim_at(s, j),
    ensures
        find_delim(s) == Some(i),
{
    lemma_find_delim(s);
    match find_delim(s) {
        Some(k) => {
            if k < i {
                assert(!delim_at(s, k));
            } else if i < k {
                assert(!delim_at(s, i));
            }
        },
        None => {
            assert(!delim_at(s, i));
        },
    }
}

/// The frames contained in `s` and the partial remainder: each complete
/// frame runs up to and including its delimiter; what follows the last
/// delimiter stays as the remainder.
pub open spec fn split_frames(s: Seq<u8>) -> (Seq<Seq<u8>>, Seq<u8>)
    decreases s.len(),
    via split_frames_decreases
{
    match find_delim(s) {
        Some(i) => {
            let rest = split_frames(s.skip(i + 2));
            (seq![s.take(i + 2)] + rest.0, rest.1)
        },
        None => (Seq::<Seq<u8>>::empty(), s),
    }
}

#[via_fn]
proof fn split_frames_decreases(s: Seq<u8>) {
    lemma_find_delim(s);
}

/// The remainder after a split holds no delimiter: at most one partial
/// frame ever sits in the buffer.
pub proof fn lemma_split_rest_has_no_delim(s: Seq<u8>)
    ensures
        forall|j: int| !delim_at(split_frames(s).1, j),
    decreases s.len(),
{
    lemma_find_delim(s);
    match find_delim(s) {
        Some(i) => {
            lemma_split_rest_has_no_delim(s.skip(i + 2));
            assert(split_frames(s).1 == split_frames(s.skip(i + 2)).1);
        },
        None => {
            assert(split_frames(s).1 == s);
        },
    }
}

/// Splitting leaves the bytes themselves intact: the frames concatenated,
/// then the remainder, give back the input.
pub proof fn lemma_split_frames_concat(s: Seq<u8>)
    ensures
        concat_frames(split_frames(s).0) + split_frames(s).1 =~= s,
    decreases s.len(),
{
    lemma_find_delim(s);
    match find_delim(s) {
        Some(i) => {
            let tail = s.skip(i + 2);
            lemma_split_frames_concat(tail);
            let rest = split_frames(tail);
            assert(split_frames(s).0 == seq![s.take(i + 2)] + rest.0);
            assert(split_frames(s).1 == rest.1);
            lemma_concat_frames_cons(s.take(i + 2), rest.0);
            assert(concat_frames(split_frames(s).0) == s.take(i + 2) + concat_frames(rest.0));
            assert(concat_frames(rest.0) + rest.1 =~= tail);
            assert((s.take(i + 2) + concat_frames(rest.0)) + rest.1 =~= s.take(i + 2) + (
            concat_frames(rest.0) + rest.1));
            assert(s.take(i + 2) + tail =~= s);
        },
        None => {
            assert(split_frames(s).0 == Seq::<Seq<u8>>::empty());
            assert(concat_frames(Seq::<Seq<u8>>::empty()) == Seq::<u8>::empty());
            assert(Seq::<u8>::empty() + s =~= s);
        },
    }
}

/// The concatenation of a sequence of frames.
pub open spec fn concat_frames(frames: Seq<Seq<u8>>) -> Seq<u8>
    decreases frames.len(),
{
    if frames.len() == 0 {
        Seq::empty()
    } else {
        concat_frames(frames.drop_last()) + frames.last()
    }
}

proof fn lemma_concat_frames_cons(head: Seq<u8>, tail: Seq<Seq<u8>>)
    ensures
        concat_frames(seq![head] + tail) =~= head + concat_frames(tail),
    decreases tail.len(),
{
    if tail.len() == 0 {
        assert((seq![head] + tail) =~= seq![head]);
        assert(seq![head].drop_last() =~= Seq::<Seq<u8>>::empty());
        assert(concat_frames(seq![head]) == concat_frames(seq![head].drop_last()) + seq![
            head,
        ].last());
        assert(concat_frames(Seq::<Seq<u8>>::empty()) == Seq::<u8>::empty());
        assert(Seq::<u8>::empty() + head =~= head);
        assert(head + concat_frames(tail) =~= head);
    } else {
        let all = seq![head] + tail;
        assert(all.drop_last() =~= seq![head] + tail.drop_last());
        assert(all.last() == tail.last());
        lemma_concat_frames_cons(head, tail.drop_last());
        assert(concat_frames(all) == concat_frames(seq![head] + tail.drop_last()) + tail.last());
        assert(concat_frames(all) == (head + concat_frames(tail.drop_last())) + tail.last());
        assert((head + concat_frames(tail.drop_last())) + tail.last() =~= head + (concat_frames(
            tail.drop_last(),
        ) + tail.last()));
        assert(concat_frames(tail) == concat_frames(tail.drop_last()) + tail.last());
    }
}

/// True when `f` is one complete frame: it ends with the delimiter and
/// holds no earlier one.
pub open spec fn frame_well_formed(f: Seq<u8>) -> bool {
    f.len() >= 2 && delim_at(f, f.len() - 2) && (forall|j: int|
        0 <= j < f.len() - 2 ==> !delim_at(f, j))
}

/// Each drained frame runs up to and including its delimiter, and no
/// further: every frame of a split is well formed.
pub proof fn lemma_frames_well_formed(s: Seq<u8>)
    ensures
        forall|k: int|
            0 <= k < split_frames(s).0.len() ==> frame_well_formed(#[trigger] split_frames(s).0[k]),
    decreases s.len(),
{
    lemma_find_delim(s);
    match find_delim(s) {
        Some(i) => {
            let head = s.take(i + 2);
            let rest = split_frames(s.skip(i + 2));
            lemma_frames_well_formed(s.skip(i + 2));
            assert(forall|j: int| 0 <= j <= i ==> head[j] == s[j]);
            assert(delim_at(head, i));
            assert forall|j: int| 0 <= j < i implies !delim_at(head, j) by {
                assert(!delim_at(s, j));
            }
            assert(frame_well_formed(head));
            assert(split_frames(s).0 == seq![head] + rest.0);
            assert forall|k: int| 0 <= k < split_frames(s).0.len() implies frame_well_formed(
                #[trigger] split_frames(s).0[k],
            ) by {
                if k == 0 {
                    assert(split_frames(s).0[0] == head);
                } else {
                    assert(split_frames(s).0[k] == rest.0[k - 1]);
                    assert(frame_well_formed(rest.0[k - 1]));
                }
            }
        },
        None => {},
    }
}

/// Feeding `s1` and then `s2` through the reassembler produces the same
/// frames, in the same order, and the same remainder as feeding `s1 + s2`
/// at once.
pub proof fn lemma_feed_two_chunks(s1: Seq<u8>, s2: Seq<u8>)
    ensures
        ({
            let a = split_frames(s1);
            let b = split_frames(a.1 + s2);
            let c = split_frames(s1 + s2);
            a.0 + b.0 =~= c.0 && b.1 == c.1
        }),
    decreases s1.len(),
{
    lemma_find_delim(s1);
    match find_delim(s1) {
        Some(i) => {
            assert(forall|j: int| 0 <= j < i ==> !delim_at(s1, j));
            assert(forall|j: int| 0 <= j <= i ==> (s1 + s2)[j] == s1[j]);
            assert(delim_at(s1 + s2, i));
            assert forall|j: int| 0 <= j < i implies !delim_at(s1 + s2, j) by {
                assert(!delim_at(s1, j));
            }
            lemma_find_delim_is(s1 + s2, i);
            let tail = s1.skip(i + 2);
            assert((s1 + s2).skip(i + 2) =~= tail + s2);
            lemma_feed_two_chunks(tail, s2);
            assert((s1 + s2).take(i + 2) =~= s1.take(i + 2));
            assert(split_frames(s1 + s2).0 == seq![(s1 + s2).take(i + 2)] + split_frames(
                tail + s2,
            ).0);
            assert(split_frames(s1).0 == seq![s1.take(i + 2)] + split_frames(tail).0);
            assert(split_frames(s1).1 == split_frames(tail).1);
            assert((seq![s1.take(i + 2)] + split_frames(tail).0) + split_frames(
                split_frames(tail).1 + s2,
            ).0 =~= seq![s1.take(i + 2)] + (split_frames(tail).0 + split_frames(
                split_frames(tail).1 + s2,
            ).0));
        },
        None => {
            assert(split_frames(s1).0 == Seq::<Seq<u8>>::empty());
            assert(split_frames(s1).1 == s1);
            assert(Seq::<Seq<u8>>::empty() + split_frames(s1 + s2).0 =~= split_frames(
                s1 + s2,
            ).0);
        },
    }
}

/// The frames and remainder that result from feeding `chunks` one at a
/// time, starting from an empty buffer.
pub open spec fn feed_all(chunks: Seq<Seq<u8>>) -> (Seq<Seq<u8>>, Seq<u8>)
    decreases chunks.len(),
{
    if chunks.len() == 0 {
        (Seq::<Seq<u8>>::empty(), Seq::<u8>::empty())
    } else {
        let prev = feed_all(chunks.drop_last());
        let step = split_frames(prev.1 + chunks.last());
        (prev.0 + step.0, step.1)
    }
}

/// Split invariance: however a byte stream is cut into chunks, feeding
/// the chunks one at a time yields exactly the frames, and the trailing
/// remainder, of splitting the whole stream at once.
pub proof fn lemma_feed_split_invariance(chunks: Seq<Seq<u8>>)
    ensures
        feed_all(chunks).0 =~= split_frames(concat_frames(chunks)).0,
        feed_all(chunks).1 == split_frames(concat_frames(chunks)).1,
    decreases chunks.len(),
{
    if chunks.len() == 0 {
        assert(concat_frames(chunks) == Seq::<u8>::empty());
    } else {
        let init = chunks.drop_last();
        let last = chunks.last();
        lemma_feed_split_invariance(init);
        let whole = concat_frames(init);
        lemma_feed_two_chunks(whole, last);
        assert(concat_frames(chunks) == whole + last);
        assert(feed_all(chunks).0 =~= feed_all(init).0 + split_frames(feed_all(init).1 + last).0);
    }
}

/// Index of the first frame delimiter in `buf`, if one is present.
pub fn find_double_newline(buf: &[u8]) -> (r: Option<usize>)
    ensures
        match r {
            Some(i) => find_delim(buf@) == Some(i as int),
            None => find_delim(buf@) is None,
        },
{
    proof {
        lemma_find_delim(buf@);
    }
    if buf.len() < 2 {
        return None;
    }
    let mut i: usize = 0;
    while i < buf.len() - 1
        invariant
            buf@.len() >= 2,
            i <= buf@.len() - 1,
            forall|j: int| 0 <= j < i ==> !delim_at(buf@, j),
        decreases buf@.len() - i,
    {
        if buf[i] == NL && buf[i + 1] == NL {
            proof {
                lemma_find_delim_is(buf@, i as int);
            }
            return Some(i);
        }
        i = i + 1;
    }
    proof {
        lemma_find_delim(buf@);
        if let Some(k) = find_delim(buf@) {
            assert(delim_at(buf@, k));
            assert(false);
        }
    }
    None
}

/// Append `chunk` to the reassembly buffer and drain every completed
/// frame, in order; the buffer keeps only the trailing partial frame.
pub fn feed(buffer: &mut Vec<u8>, chunk: &[u8]) -> (frames: Vec<Vec<u8>>)
    ensures
        frames@.map_values(|f: Vec<u8>| f@) == split_frames(old(buffer)@ + chunk@).0,
        final(buffer)@ == split_frames(old(buffer)@ + chunk@).1,
{
    let ghost total: Seq<u8> = old(buffer)@ + chunk@;
    buffer.extend_from_slice(chunk);
    assert(buffer@ =~= total);
    let mut frames: Vec<Vec<u8>> = Vec::new();
    loop
        invariant
            split_frames(total).0 =~= frames@.map_values(|f: Vec<u8>| f@) + split_frames(
                buffer@,
            ).0,
            split_frames(total).1 == split_frames(buffer@).1,
        ensures
            frames@.map_values(|f: Vec<u8>| f@) =~= split_frames(total).0,
            buffer@ == split_frames(total).1,
        decreases buffer@.len(),
    {
        proof {
            lemma_find_delim(buffer@);
        }
        let found = find_double_newline(buffer.as_slice());
        match found {
            None => {
                assert(split_frames(buffer@).0 =~= Seq::<Seq<u8>>::empty());
                break;
            },
            Some(i) => {
                let ghost pre = buffer@;
                let n = buffer.len();
                proof {
                    assert(delim_at(pre, i as int));
                    assert(i + 2 <= n);
                }
                let mut rest = buffer.split_off(i + 2);
                core::mem::swap(buffer, &mut rest);
                let frame = rest;
                assert(frame@ =~= pre.take(i + 2));
                assert(buffer@ =~= pre.skip(i + 2));
                frames.push(frame);
                proof {
                    let sp = split_frames(pre);
                    assert(sp.0 =~= seq![pre.take(i + 2)] + split_frames(pre.skip(i + 2)).0);
                    assert(frames@.map_values(|f: Vec<u8>| f@) =~= frames@.map_values(
                        |f: Vec<u8>| f@,
                    ).drop_last().push(pre.take(i + 2)));
                }
            },
        }
    }
    frames
}

} // verus!
