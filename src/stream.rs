use crate::decoder::{frame_inv, idle, reset_view, step, FrameView, State};
use crate::frame::{decode_body, encode_body, lemma_round_trip, DecodeError, HEAD, TAG_LENGTH, TAIL};
use vstd::prelude::*;

verus! {

/// The results that a step hands out: none, or the one that ends a read.
pub open spec fn emitted(o: Option<Result<Seq<u8>, DecodeError>>) -> Seq<Result<Seq<u8>, DecodeError>> {
    match o {
        Some(x) => seq![x],
        None => Seq::empty(),
    }
}

/// Feeding `bytes` in order from state `v`: the state reached and the results
/// of the reads that ended on the way.
pub open spec fn run(v: FrameView, bytes: Seq<u8>) -> (FrameView, Seq<Result<Seq<u8>, DecodeError>>)
    decreases bytes.len(),
{
    if bytes.len() == 0 {
        (v, Seq::empty())
    } else {
        let s = step(v, bytes[0]);
        let rest = run(s.0, bytes.subrange(1, bytes.len() as int));
        (rest.0, emitted(s.1) + rest.1)
    }
}

/// Serial reads from state `v`, where `None` stands for a read that found no
/// byte ready: such a read leaves the decoder as it was.
pub open spec fn run_polls(v: FrameView, polls: Seq<Option<u8>>) -> (
    FrameView,
    Seq<Result<Seq<u8>, DecodeError>>,
)
    decreases polls.len(),
{
    if polls.len() == 0 {
        (v, Seq::empty())
    } else {
        let rest = run_polls(v, polls.drop_last());
        match polls.last() {
            Some(b) => {
                let s = run(rest.0, seq![b]);
                (s.0, rest.1 + s.1)
            },
            None => rest,
        }
    }
}

/// The bytes that the reads in `polls` delivered, in order.
pub open spec fn delivered(polls: Seq<Option<u8>>) -> Seq<u8>
    decreases polls.len(),
{
    if polls.len() == 0 {
        Seq::empty()
    } else {
        match polls.last() {
            Some(b) => delivered(polls.drop_last()).push(b),
            None => delivered(polls.drop_last()),
        }
    }
}

/// The fourteen bytes of the frame that carries the five bytes of `id`.
pub open spec fn encode_frame(id: Seq<u8>) -> Seq<u8> {
    seq![HEAD] + encode_body(id) + seq![TAIL]
}

/// Feeding `a` then `b` is feeding `a + b`.
pub proof fn lemma_run_append(v: FrameView, a: Seq<u8>, b: Seq<u8>)
    ensures
        run(v, a + b) == (run(run(v, a).0, b).0, run(v, a).1 + run(run(v, a).0, b).1),
    decreases a.len(),
{
    if a.len() == 0 {
        assert(a + b =~= b);
        assert(Seq::<Result<Seq<u8>, DecodeError>>::empty() + run(v, b).1 =~= run(v, b).1);
    } else {
        let s = step(v, a[0]);
        let a1 = a.subrange(1, a.len() as int);
        assert((a + b).subrange(1, (a + b).len() as int) =~= a1 + b);
        assert((a + b)[0] == a[0]);
        lemma_run_append(s.0, a1, b);
        let x = emitted(s.1);
        let y = run(s.0, a1).1;
        let z = run(run(s.0, a1).0, b).1;
        assert(x + (y + z) =~= (x + y) + z);
    }
}

/// Every state that a run reaches from a reachable state is reachable: the
/// buffer never holds more than a body and is empty whenever a head is awaited.
pub proof fn lemma_run_keeps_inv(v: FrameView, bytes: Seq<u8>)
    requires
        frame_inv(v),
    ensures
        frame_inv(run(v, bytes).0),
    decreases bytes.len(),
{
    if bytes.len() > 0 {
        let s = step(v, bytes[0]);
        assert(frame_inv(s.0));
        lemma_run_keeps_inv(s.0, bytes.subrange(1, bytes.len() as int));
    }
}

/// Reads that find no byte ready change nothing: the same bytes, with or
/// without such reads between them, give the same state and the same results.
pub proof fn lemma_not_ready_changes_nothing(v: FrameView, polls: Seq<Option<u8>>)
    ensures
        run_polls(v, polls) == run(v, delivered(polls)),
    decreases polls.len(),
{
    if polls.len() == 0 {
        assert(delivered(polls) =~= Seq::<u8>::empty());
    } else {
        let init = polls.drop_last();
        lemma_not_ready_changes_nothing(v, init);
        match polls.last() {
            Some(b) => {
                lemma_run_append(v, delivered(init), seq![b]);
                assert(delivered(init) + seq![b] =~= delivered(init).push(b));
            },
            None => {},
        }
    }
}

/// Resetting twice is resetting once.
pub proof fn lemma_reset_idempotent(v: FrameView)
    ensures
        reset_view(reset_view(v)) == reset_view(v),
{
}

/// Feeding one byte is one step.
proof fn lemma_run_one(v: FrameView, x: u8)
    ensures
        run(v, seq![x]) == (step(v, x).0, emitted(step(v, x).1)),
{
    let s = step(v, x);
    assert(seq![x].subrange(1, 1) =~= Seq::<u8>::empty());
    assert(run(s.0, Seq::empty()) == (s.0, Seq::<Result<Seq<u8>, DecodeError>>::empty()));
    assert(emitted(s.1) + Seq::empty() =~= emitted(s.1));
}

/// In the middle of a body, the bytes up to its end fill the buffer and
/// nothing is reported.
proof fn lemma_fill_body(v: FrameView, s: Seq<u8>)
    requires
        v.state == State::ReadBody,
        v.body.len() < 12,
        s.len() >= 12 - v.body.len(),
    ensures
        run(v, s) == run(
            FrameView { state: State::ReadTail, body: v.body + s.take(12 - v.body.len()) },
            s.skip(12 - v.body.len()),
        ),
    decreases 12 - v.body.len(),
{
    let k = 12 - v.body.len();
    let st = step(v, s[0]);
    let s1 = s.subrange(1, s.len() as int);
    assert(Seq::<Result<Seq<u8>, DecodeError>>::empty() + run(st.0, s1).1 =~= run(st.0, s1).1);
    if k == 1 {
        assert(v.body.push(s[0]) =~= v.body + s.take(1));
        assert(s1 =~= s.skip(1));
    } else {
        lemma_fill_body(st.0, s1);
        assert(st.0.body + s1.take(k - 1) =~= v.body + s.take(k));
        assert(s1.skip(k - 1) =~= s.skip(k));
    }
}

/// A well-formed frame, fed to a decoder that awaits a head, yields its tag
/// and leaves the decoder awaiting the next head.
pub proof fn lemma_frame_decodes(id: Seq<u8>)
    requires
        id.len() == TAG_LENGTH,
    ensures
        run(idle(), encode_frame(id)) == (idle(), seq![Ok::<Seq<u8>, DecodeError>(id)]),
{
    lemma_round_trip(id);
    let frame = encode_frame(id);
    let body = encode_body(id);
    let rest = frame.subrange(1, frame.len() as int);
    let reading = FrameView { state: State::ReadBody, body: Seq::empty() };
    assert(frame[0] == HEAD);
    assert(step(idle(), HEAD).0 == reading);
    lemma_fill_body(reading, rest);
    assert(Seq::<u8>::empty() + rest.take(12) =~= body);
    assert(rest.skip(12) =~= seq![TAIL]);
    let tail = FrameView { state: State::ReadTail, body };
    assert(step(tail, TAIL) == (idle(), Some(decode_body(body))));
    lemma_run_one(tail, TAIL);
    assert(emitted(Some(decode_body(body))) =~= seq![Ok::<Seq<u8>, DecodeError>(id)]);
    assert(Seq::<Result<Seq<u8>, DecodeError>>::empty() + seq![Ok::<Seq<u8>, DecodeError>(id)]
        =~= seq![Ok::<Seq<u8>, DecodeError>(id)]);
}

/// A stray byte before a frame is reported once as `InvalidHead`, and the
/// frame after it still yields its tag.
pub proof fn lemma_resync(b: u8, id: Seq<u8>)
    requires
        b != HEAD,
        id.len() == TAG_LENGTH,
    ensures
        run(idle(), seq![b] + encode_frame(id)) == (
            idle(),
            seq![Err::<Seq<u8>, DecodeError>(DecodeError::InvalidHead), Ok(id)],
        ),
{
    lemma_run_append(idle(), seq![b], encode_frame(id));
    lemma_frame_decodes(id);
    lemma_run_one(idle(), b);
    assert(emitted(step(idle(), b).1) =~= seq![Err::<Seq<u8>, DecodeError>(DecodeError::InvalidHead)]);
    assert(seq![Err::<Seq<u8>, DecodeError>(DecodeError::InvalidHead)] + seq![Ok::<Seq<u8>, DecodeError>(id)]
        =~= seq![Err::<Seq<u8>, DecodeError>(DecodeError::InvalidHead), Ok(id)]);
}

/// After one frame is decoded, the next frame is decoded right away.
pub proof fn lemma_two_frames(a: Seq<u8>, b: Seq<u8>)
    requires
        a.len() == TAG_LENGTH,
        b.len() == TAG_LENGTH,
    ensures
        run(idle(), encode_frame(a) + encode_frame(b)) == (
            idle(),
            seq![Ok::<Seq<u8>, DecodeError>(a), Ok(b)],
        ),
{
    lemma_run_append(idle(), encode_frame(a), encode_frame(b));
    lemma_frame_decodes(a);
    lemma_frame_decodes(b);
    assert(seq![Ok::<Seq<u8>, DecodeError>(a)] + seq![Ok::<Seq<u8>, DecodeError>(b)]
        =~= seq![Ok::<Seq<u8>, DecodeError>(a), Ok(b)]);
}

} // verus!
