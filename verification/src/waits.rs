use vstd::prelude::*;

verus! {

/// `needle` occurs in `hay` starting at index `i`.
pub open spec fn occurs_at(needle: Seq<u8>, hay: Seq<u8>, i: int) -> bool {
    0 <= i && i + needle.len() <= hay.len() && hay.subrange(i, i + needle.len()) == needle
}

/// `needle` occurs somewhere in `hay`.
pub open spec fn occurs_in(needle: Seq<u8>, hay: Seq<u8>) -> bool {
    exists|i: int| occurs_at(needle, hay, i)
}

/// The last `keep` bytes of `combined`, or all of it when it is shorter.
pub open spec fn retained_tail(combined: Seq<u8>, keep: nat) -> Seq<u8> {
    if combined.len() <= keep {
        combined
    } else {
        combined.subrange(combined.len() - keep, combined.len() as int)
    }
}

/// The number of bytes that must be carried over between observations so that
/// an occurrence of `needle` split across them is still found.
pub open spec fn tail_keep(needle: Seq<u8>) -> nat {
    if needle.len() == 0 {
        0
    } else {
        (needle.len() - 1) as nat
    }
}

fn matches_at(hay: &Vec<u8>, needle: &[u8], start: usize) -> (r: bool)
    requires
        start + needle@.len() <= hay@.len(),
    ensures
        r == occurs_at(needle@, hay@, start as int),
{
    let mut k: usize = 0;
    while k < needle.len()
        invariant
            k <= needle@.len(),
            start + needle@.len() <= hay@.len(),
            hay@.len() == hay.len(),
            forall|j: int| 0 <= j < k ==> hay@[start + j] == needle@[j],
        decreases needle.len() - k,
    {
        if hay[start + k] != needle[k] {
            proof {
                assert(hay@.subrange(start as int, start + needle@.len())[k as int] != needle@[k as int]);
            }
            return false;
        }
        k = k + 1;
    }
    proof {
        assert(hay@.subrange(start as int, start + needle@.len()) =~= needle@);
    }
    true
}

fn contains_window(hay: &Vec<u8>, needle: &[u8]) -> (r: bool)
    requires
        needle@.len() > 0,
    ensures
        r == occurs_in(needle@, hay@),
{
    if needle.len() > hay.len() {
        return false;
    }
    let last = hay.len() - needle.len();
    let mut i: usize = 0;
    while i <= last
        invariant
            last == hay@.len() - needle@.len(),
            needle@.len() > 0,
            hay@.len() == hay.len(),
            forall|j: int| 0 <= j < i ==> !occurs_at(needle@, hay@, j),
        decreases last + 1 - i,
    {
        if matches_at(hay, needle, i) {
            return true;
        }
        i = i + 1;
    }
    false
}

/// What one call of `observe_bytes` gives: whether the chunk completes a
/// match, and the tail kept afterwards.
pub open spec fn observe_step(tail: Seq<u8>, needle: Seq<u8>, bytes: Seq<u8>) -> (bool, Seq<u8>) {
    if bytes.len() == 0 {
        (false, tail)
    } else {
        (occurs_in(needle, tail + bytes), retained_tail(tail + bytes, tail_keep(needle)))
    }
}

/// Feeds one chunk of pane output to an observer that looks for `needle`.
///
/// `tail` holds what is kept of the earlier chunks. Returns whether `needle`
/// occurs in the kept tail followed by `bytes`; afterwards `tail` holds the
/// last `needle.len() - 1` bytes of that (all of it when shorter). An empty
/// chunk finds nothing and leaves `tail` alone.
pub fn observe_bytes(tail: &mut Vec<u8>, needle: &[u8], bytes: &[u8]) -> (matched: bool)
    requires
        bytes@.len() > 0 ==> needle@.len() > 0,
    ensures
        bytes@.len() == 0 ==> !matched && final(tail)@ == old(tail)@,
        bytes@.len() > 0 ==> {
            &&& matched == occurs_in(needle@, old(tail)@ + bytes@)
            &&& final(tail)@ == retained_tail(old(tail)@ + bytes@, tail_keep(needle@))
        },
        (matched, final(tail)@) == observe_step(old(tail)@, needle@, bytes@),
{
    if bytes.len() == 0 {
        return false;
    }
    let mut combined: Vec<u8> = Vec::new();
    combined.extend_from_slice(tail.as_slice());
    combined.extend_from_slice(bytes);
    proof {
        assert(combined@ =~= old(tail)@ + bytes@);
    }
    let matched = contains_window(&combined, needle);

    let keep = needle.len() - 1;
    if keep == 0 {
        tail.clear();
        proof {
            assert(final(tail)@ =~= retained_tail(old(tail)@ + bytes@, tail_keep(needle@)));
        }
    } else if combined.len() <= keep {
        *tail = combined;
    } else {
        let start = combined.len() - keep;
        let kept = combined.split_off(start);
        *tail = kept;
    }
    matched
}

/// An occurrence of `needle` in `stream + bytes` that does not lie entirely
/// within `stream`.
pub open spec fn occurs_past(needle: Seq<u8>, stream: Seq<u8>, bytes: Seq<u8>) -> bool {
    exists|i: int| occurs_at(needle, stream + bytes, i) && i + needle.len() > stream.len()
}

/// Observing output chunk by chunk with the bounded tail loses nothing: when
/// the tail is what the observer kept of the stream seen so far, the next
/// chunk is reported as a match exactly when `needle` occurs in the whole
/// stream with its last byte in that chunk, wherever the occurrence starts.
pub proof fn law_bounded_tail_finds_split_needles(stream: Seq<u8>, needle: Seq<u8>, bytes: Seq<u8>)
    requires
        needle.len() > 0,
    ensures
        occurs_in(needle, retained_tail(stream, tail_keep(needle)) + bytes) <==> occurs_past(
            needle,
            stream,
            bytes,
        ),
{
    let t = retained_tail(stream, tail_keep(needle));
    let off = stream.len() - t.len();
    let whole = stream + bytes;
    let window = t + bytes;
    assert(window =~= whole.subrange(off, whole.len() as int));
    if occurs_in(needle, window) {
        let j = choose|j: int| occurs_at(needle, window, j);
        assert(whole.subrange(j + off, j + off + needle.len()) =~= window.subrange(
            j,
            j + needle.len(),
        ));
        assert(occurs_at(needle, whole, j + off));
    }
    if occurs_past(needle, stream, bytes) {
        let i = choose|i: int| occurs_at(needle, whole, i) && i + needle.len() > stream.len();
        assert(window.subrange(i - off, i - off + needle.len()) =~= whole.subrange(
            i,
            i + needle.len(),
        ));
        assert(occurs_at(needle, window, i - off));
    }
}

/// The chunks of a stream joined in order.
pub open spec fn joined_chunks(chunks: Seq<Seq<u8>>) -> Seq<u8>
    decreases chunks.len(),
{
    if chunks.len() == 0 {
        Seq::empty()
    } else {
        joined_chunks(chunks.drop_last()) + chunks.last()
    }
}

/// Feeding `chunks` in order to an observer that starts with an empty tail:
/// whether any call reported a match, and the tail left at the end.
pub open spec fn observe_stream(needle: Seq<u8>, chunks: Seq<Seq<u8>>) -> (bool, Seq<u8>)
    decreases chunks.len(),
{
    if chunks.len() == 0 {
        (false, Seq::empty())
    } else {
        let before = observe_stream(needle, chunks.drop_last());
        let step = observe_step(before.1, needle, chunks.last());
        (before.0 || step.0, step.1)
    }
}

proof fn lemma_occurs_in_extended(needle: Seq<u8>, stream: Seq<u8>, bytes: Seq<u8>)
    ensures
        occurs_in(needle, stream + bytes) <==> (occurs_in(needle, stream) || occurs_past(
            needle,
            stream,
            bytes,
        )),
{
    let whole = stream + bytes;
    if occurs_in(needle, stream) {
        let i = choose|i: int| occurs_at(needle, stream, i);
        assert(whole.subrange(i, i + needle.len()) =~= stream.subrange(i, i + needle.len()));
        assert(occurs_at(needle, whole, i));
    }
    if occurs_in(needle, whole) && !occurs_past(needle, stream, bytes) {
        let i = choose|i: int| occurs_at(needle, whole, i);
        assert(i + needle.len() <= stream.len());
        assert(whole.subrange(i, i + needle.len()) =~= stream.subrange(i, i + needle.len()));
        assert(occurs_at(needle, stream, i));
    }
}

proof fn lemma_retained_tail_extended(stream: Seq<u8>, bytes: Seq<u8>, keep: nat)
    ensures
        retained_tail(retained_tail(stream, keep) + bytes, keep) == retained_tail(
            stream + bytes,
            keep,
        ),
{
    let t = retained_tail(stream, keep);
    if stream.len() > keep {
        let a = t + bytes;
        let b = stream + bytes;
        assert(retained_tail(a, keep) =~= retained_tail(b, keep));
    } else {
        assert(t == stream);
    }
}

/// Feeding a stream to `observe_bytes` chunk by chunk, starting from an empty
/// tail, reports a match at some call exactly when `needle` occurs somewhere
/// in the whole stream, however the stream was cut; and the tail left is the
/// last `needle.len() - 1` bytes of the stream (all of it when shorter).
pub proof fn law_observed_stream_matches_whole_stream(needle: Seq<u8>, chunks: Seq<Seq<u8>>)
    requires
        needle.len() > 0,
    ensures
        observe_stream(needle, chunks).0 == occurs_in(needle, joined_chunks(chunks)),
        observe_stream(needle, chunks).1 == retained_tail(joined_chunks(chunks), tail_keep(needle)),
    decreases chunks.len(),
{
    if chunks.len() == 0 {
        let e = Seq::<u8>::empty();
        assert(!occurs_in(needle, e));
        assert(retained_tail(e, tail_keep(needle)) =~= e);
    } else {
        let rest = chunks.drop_last();
        let c = chunks.last();
        law_observed_stream_matches_whole_stream(needle, rest);
        let s = joined_chunks(rest);
        if c.len() == 0 {
            assert(s + c =~= s);
        } else {
            law_bounded_tail_finds_split_needles(s, needle, c);
            lemma_occurs_in_extended(needle, s, c);
            lemma_retained_tail_extended(s, c, tail_keep(needle));
        }
    }
}


/// The fold of `observe_stream` over the first `k` chunks is what a chain of
/// calls, each meeting `observe_step`, reports and keeps.
proof fn lemma_calls_follow_stream(
    needle: Seq<u8>,
    chunks: Seq<Seq<u8>>,
    results: Seq<bool>,
    tails: Seq<Seq<u8>>,
    k: int,
)
    requires
        0 <= k <= chunks.len(),
        results.len() == chunks.len(),
        tails.len() == chunks.len() + 1,
        tails[0] == Seq::<u8>::empty(),
        forall|i: int|
            0 <= i < chunks.len() ==> (#[trigger] results[i], tails[i + 1]) == observe_step(
                tails[i],
                needle,
                chunks[i],
            ),
    ensures
        observe_stream(needle, chunks.take(k)) == (
            exists|i: int| 0 <= i < k && #[trigger] results[i],
            tails[k],
        ),
    decreases k,
{
    if k == 0 {
        assert(chunks.take(0) =~= Seq::<Seq<u8>>::empty());
    } else {
        lemma_calls_follow_stream(needle, chunks, results, tails, k - 1);
        assert(chunks.take(k).drop_last() =~= chunks.take(k - 1));
        assert(chunks.take(k).last() == chunks[k - 1]);
        let step = (results[k - 1], tails[k]);
        assert(step == observe_step(tails[k - 1], needle, chunks[k - 1]));
        if exists|i: int| 0 <= i < k && #[trigger] results[i] {
            let i = choose|i: int| 0 <= i < k && #[trigger] results[i];
            if i < k - 1 {
                assert(exists|j: int| 0 <= j < k - 1 && #[trigger] results[j]);
            }
        }
        if exists|i: int| 0 <= i < k - 1 && #[trigger] results[i] {
            let i = choose|i: int| 0 <= i < k - 1 && #[trigger] results[i];
            assert(0 <= i < k && results[i]);
        }
        if results[k - 1] {
            assert(0 <= k - 1 < k && results[k - 1]);
        }
    }
}

/// Calling `observe_bytes` on chunks `c_0 .. c_{n-1}` in order, starting
/// from an empty tail, where call `i` leaves `tails[i + 1]` and returns
/// `results[i]` (each call meets its contract, `observe_step`): some call
/// returns `true` exactly when `needle` occurs in the joined stream, and after
/// call `i` the tail is the last `needle.len() - 1` bytes of the chunks so
/// far (all of them when fewer). An empty chunk returns `false` and keeps the
/// tail.
pub proof fn law_observe_bytes_calls_find_needle_in_stream(
    needle: Seq<u8>,
    chunks: Seq<Seq<u8>>,
    results: Seq<bool>,
    tails: Seq<Seq<u8>>,
)
    requires
        needle.len() > 0,
        results.len() == chunks.len(),
        tails.len() == chunks.len() + 1,
        tails[0] == Seq::<u8>::empty(),
        forall|i: int|
            0 <= i < chunks.len() ==> (#[trigger] results[i], tails[i + 1]) == observe_step(
                tails[i],
                needle,
                chunks[i],
            ),
    ensures
        (exists|i: int| 0 <= i < chunks.len() && #[trigger] results[i]) <==> occurs_in(
            needle,
            joined_chunks(chunks),
        ),
        forall|k: int|
            0 <= k <= chunks.len() ==> #[trigger] tails[k] == retained_tail(
                joined_chunks(chunks.take(k)),
                tail_keep(needle),
            ),
        forall|i: int|
            0 <= i < chunks.len() && chunks[i].len() == 0 ==> !#[trigger] results[i] && tails[i
                + 1] == tails[i],
{
    assert forall|k: int| 0 <= k <= chunks.len() implies #[trigger] tails[k] == retained_tail(
        joined_chunks(chunks.take(k)),
        tail_keep(needle),
    ) by {
        lemma_calls_follow_stream(needle, chunks, results, tails, k);
        law_observed_stream_matches_whole_stream(needle, chunks.take(k));
    }
    lemma_calls_follow_stream(needle, chunks, results, tails, chunks.len() as int);
    assert(chunks.take(chunks.len() as int) =~= chunks);
    law_observed_stream_matches_whole_stream(needle, chunks);
    assert forall|i: int| 0 <= i < chunks.len() && chunks[i].len() == 0 implies !#[trigger] results[i]
        && tails[i + 1] == tails[i] by {
        assert((results[i], tails[i + 1]) == observe_step(tails[i], needle, chunks[i]));
    }
}

} // verus!
