//! The streaming-copy engine, as a state machine over plain values.
//!
//! A transfer pulls chunks from a byte-producing source and hands each chunk
//! to a byte-consuming sink in order. A write that fails with a transient
//! interruption is retried with the same chunk; any other failure, of the
//! source or of the sink, aborts the transfer. The transfer completes only
//! after the source reports end-of-data. The blocking reads and writes
//! themselves happen outside the library, which feeds their outcomes in as
//! events.

use vstd::prelude::*;
use crate::StorageError;

verus! {

/// Where a copy stands: waiting to pull the next chunk, holding a chunk that
/// the sink still has to accept, finished, or aborted with the first
/// non-transient error.
pub enum CopyState {
    Pulling,
    Writing(Vec<u8>),
    Done,
    Failed(StorageError),
}

/// What the outside world reports back: the outcome of a pull from the
/// source (`None` payload is end-of-data) or the outcome of a write to the
/// sink.
pub enum CopyEvent {
    Pulled(Option<Result<Vec<u8>, StorageError>>),
    Written(Result<(), StorageError>),
}

/// The transition relation of the copy engine. An event that does not belong
/// to the current state leaves the state unchanged.
pub open spec fn copy_step_spec(s: CopyState, e: CopyEvent) -> CopyState {
    match (s, e) {
        (CopyState::Pulling, CopyEvent::Pulled(item)) => match item {
            Option::None => CopyState::Done,
            Option::Some(Result::Ok(chunk)) => CopyState::Writing(chunk),
            Option::Some(Result::Err(err)) => CopyState::Failed(err),
        },
        (CopyState::Writing(chunk), CopyEvent::Written(outcome)) => match outcome {
            Result::Ok(u) => CopyState::Pulling,
            Result::Err(StorageError::Transient) => CopyState::Writing(chunk),
            Result::Err(err) => CopyState::Failed(err),
        },
        (other, e2) => other,
    }
}

/// One step of the copy engine.
pub fn copy_step(s: CopyState, e: CopyEvent) -> (next: CopyState)
    ensures
        next == copy_step_spec(s, e),
{
    match (s, e) {
        (CopyState::Pulling, CopyEvent::Pulled(item)) => match item {
            None => CopyState::Done,
            Some(Ok(chunk)) => CopyState::Writing(chunk),
            Some(Err(err)) => CopyState::Failed(err),
        },
        (CopyState::Writing(chunk), CopyEvent::Written(outcome)) => match outcome {
            Ok(u) => CopyState::Pulling,
            Err(StorageError::Transient) => CopyState::Writing(chunk),
            Err(err) => CopyState::Failed(err),
        },
        (other, _) => other,
    }
}

/// The state after running a whole sequence of events from `s`.
pub open spec fn run_steps(s: CopyState, evs: Seq<CopyEvent>) -> CopyState
    decreases evs.len(),
{
    if evs.len() == 0 {
        s
    } else {
        run_steps(copy_step_spec(s, evs[0]), evs.skip(1))
    }
}

/// The bytes the source produced along a run: each chunk counts once, at the
/// moment the engine pulls it.
pub open spec fn source_bytes(s: CopyState, evs: Seq<CopyEvent>) -> Seq<u8>
    decreases evs.len(),
{
    if evs.len() == 0 {
        Seq::empty()
    } else {
        let here = match (s, evs[0]) {
            (CopyState::Pulling, CopyEvent::Pulled(Option::Some(Result::Ok(chunk)))) => chunk@,
            (s2, e2) => Seq::empty(),
        };
        here + source_bytes(copy_step_spec(s, evs[0]), evs.skip(1))
    }
}

/// The bytes the sink accepted along a run: each pending chunk counts once,
/// at the moment a write of it succeeds. A transiently failed write delivers
/// nothing, so a retry of the same chunk never duplicates bytes.
pub open spec fn sink_bytes(s: CopyState, evs: Seq<CopyEvent>) -> Seq<u8>
    decreases evs.len(),
{
    if evs.len() == 0 {
        Seq::empty()
    } else {
        let here = match (s, evs[0]) {
            (CopyState::Writing(chunk), CopyEvent::Written(Result::Ok(u))) => chunk@,
            (s2, e2) => Seq::empty(),
        };
        here + sink_bytes(copy_step_spec(s, evs[0]), evs.skip(1))
    }
}

/// Content preservation: along any run of the engine that ends in `Done`,
/// the sink accepted exactly the bytes the source produced, in order —
/// whatever interleaving of pulls, successful writes and transient retries
/// the run contains. From a state that still holds an uncommitted chunk, the
/// sink accepts that chunk and then everything the source goes on to
/// produce. A failed transfer never reports completion.
pub proof fn lemma_copy_preserves_bytes(s: CopyState, evs: Seq<CopyEvent>)
    requires
        run_steps(s, evs) is Done,
    ensures
        match s {
            CopyState::Pulling => sink_bytes(s, evs) == source_bytes(s, evs),
            CopyState::Writing(chunk) => sink_bytes(s, evs) == chunk@ + source_bytes(s, evs),
            CopyState::Done => sink_bytes(s, evs) == source_bytes(s, evs),
            CopyState::Failed(err) => false,
        },
    decreases evs.len(),
{
    if evs.len() == 0 {
    } else {
        let next = copy_step_spec(s, evs[0]);
        let rest = evs.skip(1);
        lemma_copy_preserves_bytes(next, rest);
        match s {
            CopyState::Pulling => {
                match evs[0] {
                    CopyEvent::Pulled(item) => match item {
                        Option::Some(Result::Ok(chunk)) => {
                            assert(sink_bytes(s, evs) =~= sink_bytes(next, rest));
                            assert(source_bytes(s, evs) =~= chunk@ + source_bytes(next, rest));
                        },
                        item2 => {
                            assert(sink_bytes(s, evs) =~= sink_bytes(next, rest));
                            assert(source_bytes(s, evs) =~= source_bytes(next, rest));
                        },
                    },
                    e2 => {
                        assert(sink_bytes(s, evs) =~= sink_bytes(next, rest));
                        assert(source_bytes(s, evs) =~= source_bytes(next, rest));
                    },
                }
            },
            CopyState::Writing(chunk) => {
                match evs[0] {
                    CopyEvent::Written(outcome) => match outcome {
                        Result::Ok(u) => {
                            assert(sink_bytes(s, evs) =~= chunk@ + sink_bytes(next, rest));
                            assert(source_bytes(s, evs) =~= source_bytes(next, rest));
                        },
                        outcome2 => {
                            assert(sink_bytes(s, evs) =~= sink_bytes(next, rest));
                            assert(source_bytes(s, evs) =~= source_bytes(next, rest));
                            if next is Writing {
                                assert(sink_bytes(s, evs) == chunk@ + source_bytes(s, evs));
                            }
                        },
                    },
                    e2 => {
                        assert(sink_bytes(s, evs) =~= sink_bytes(next, rest));
                        assert(source_bytes(s, evs) =~= source_bytes(next, rest));
                    },
                }
            },
            s2 => {
                assert(sink_bytes(s, evs) =~= sink_bytes(next, rest));
                assert(source_bytes(s, evs) =~= source_bytes(next, rest));
            },
        }
    }
}

/// The whole content of a source whose chunks are all in memory: the chunks
/// concatenated in order.
pub open spec fn concat_chunks(cs: Seq<Seq<u8>>) -> Seq<u8>
    decreases cs.len(),
{
    if cs.len() == 0 {
        Seq::empty()
    } else {
        concat_chunks(cs.drop_last()) + cs.last()
    }
}

/// The copy for an in-memory source and an in-memory sink, where neither
/// end can fail: every chunk lands in the sink in order and the result is
/// exactly the source's content. The round-trip checks run against this
/// copy.
pub fn copy_in_memory(chunks: &Vec<Vec<u8>>) -> (out: Vec<u8>)
    ensures
        out@ == concat_chunks(chunks@.map_values(|c: Vec<u8>| c@)),
{
    let ghost cs = chunks@.map_values(|c: Vec<u8>| c@);
    let mut out: Vec<u8> = Vec::new();
    let n: usize = chunks.len();
    let mut i: usize = 0;
    assert(out@ =~= concat_chunks(cs.take(0)));
    while i < n
        invariant
            n == chunks@.len(),
            i <= n,
            cs == chunks@.map_values(|c: Vec<u8>| c@),
            out@ == concat_chunks(cs.take(i as int)),
        decreases n - i,
    {
        let chunk = &chunks[i];
        let m: usize = chunk.len();
        let mut j: usize = 0;
        while j < m
            invariant
                m == chunk@.len(),
                j <= m,
                out@ == concat_chunks(cs.take(i as int)) + chunk@.take(j as int),
            decreases m - j,
        {
            out.push(chunk[j]);
            proof {
                assert(chunk@.take(j + 1) =~= chunk@.take(j as int).push(chunk@[j as int]));
                assert(concat_chunks(cs.take(i as int)) + chunk@.take(j + 1) =~= (concat_chunks(
                    cs.take(i as int),
                ) + chunk@.take(j as int)).push(chunk@[j as int]));
            }
            j = j + 1;
        }
        proof {
            assert(chunk@.take(m as int) =~= chunk@);
            assert(cs.take(i + 1).drop_last() =~= cs.take(i as int));
            assert(cs.take(i + 1).last() == cs[i as int]);
            assert(cs[i as int] == chunk@);
        }
        i = i + 1;
    }
    proof {
        assert(cs.take(n as int) =~= cs);
    }
    out
}

} // verus!
