//! The copy loop's decisions, kept apart from the I/O that feeds them. A
//! `CopySession` is fed one read's outcome at a time — the chunk of bytes the
//! source produced, empty at end-of-stream — and answers with the action the
//! transfer takes: forward those bytes, or finish. The session's model says
//! which bytes have been forwarded, so a whole transfer's output is pinned to
//! its input. Each transfer owns its session, so concurrent transfers share
//! nothing.

use vstd::prelude::*;

verus! {

/// The bytes a transfer forwards when fed `chunks` in order: every chunk up
/// to (not including) the first empty one, which signals end-of-stream.
pub open spec fn copy_output(chunks: Seq<Seq<u8>>) -> Seq<u8>
    decreases chunks.len(),
{
    if chunks.len() == 0 {
        Seq::empty()
    } else if chunks.first().len() == 0 {
        Seq::empty()
    } else {
        chunks.first() + copy_output(chunks.drop_first())
    }
}

/// All the chunks, joined.
pub open spec fn flatten_chunks(chunks: Seq<Seq<u8>>) -> Seq<u8>
    decreases chunks.len(),
{
    if chunks.len() == 0 {
        Seq::empty()
    } else {
        chunks.first() + flatten_chunks(chunks.drop_first())
    }
}

/// What the transfer does with one read's outcome.
pub enum CopyAction {
    Write(Vec<u8>),
    Finish,
}

/// One transfer's state: whether end-of-stream was seen, and (as a model)
/// the bytes forwarded so far.
pub struct CopySession {
    done: bool,
    sent: Ghost<Seq<u8>>,
}

impl CopySession {
    /// The bytes this session has told its caller to write, in order.
    pub closed spec fn sent_bytes(&self) -> Seq<u8> {
        self.sent@
    }

    /// The source has signalled end-of-stream.
    pub closed spec fn is_done(&self) -> bool {
        self.done
    }

    /// A fresh session: nothing sent, not done.
    pub fn new() -> (s: Self)
        ensures
            !s.is_done(),
            s.sent_bytes() == Seq::<u8>::empty(),
    {
        CopySession { done: false, sent: Ghost(Seq::empty()) }
    }

    /// Whether the transfer has ended, as executable code.
    pub fn finished(&self) -> (r: bool)
        ensures
            r == self.is_done(),
    {
        self.done
    }

    /// Feed one read's outcome. A non-empty chunk is forwarded unchanged and
    /// whole; an empty chunk ends the transfer.
    pub fn step(&mut self, chunk: Vec<u8>) -> (a: CopyAction)
        requires
            !old(self).is_done(),
        ensures
            chunk@.len() == 0 ==> a is Finish,
            chunk@.len() == 0 ==> final(self).is_done(),
            chunk@.len() == 0 ==> final(self).sent_bytes() == old(self).sent_bytes(),
            chunk@.len() > 0 ==> (a matches CopyAction::Write(w) && w@ == chunk@),
            chunk@.len() > 0 ==> !final(self).is_done(),
            chunk@.len() > 0 ==> final(self).sent_bytes() == old(self).sent_bytes() + chunk@,
    {
        if chunk.len() == 0 {
            self.done = true;
            CopyAction::Finish
        } else {
            self.sent = Ghost(self.sent@ + chunk@);
            CopyAction::Write(chunk)
        }
    }
}

/// Run one whole transfer over in-memory chunks: the shared copy primitive,
/// with the reads already performed. Returns exactly the bytes the session
/// forwards.
pub fn copy_chunks(chunks: &Vec<Vec<u8>>) -> (out: Vec<u8>)
    ensures
        out@ == copy_output(chunks@.map_values(|c: Vec<u8>| c@)),
{
    let ghost model = chunks@.map_values(|c: Vec<u8>| c@);
    let mut out: Vec<u8> = Vec::new();
    let mut sess = CopySession::new();
    let mut i: usize = 0;
    proof {
        assert(model.skip(0) =~= model);
        assert(out@ + copy_output(model) =~= copy_output(model));
    }
    while i < chunks.len()
        invariant
            0 <= i <= chunks@.len(),
            model == chunks@.map_values(|c: Vec<u8>| c@),
            !sess.is_done(),
            sess.sent_bytes() == out@,
            copy_output(model) == out@ + copy_output(model.skip(i as int)),
        decreases chunks@.len() - i,
    {
        proof {
            assert(model.skip(i as int).first() == model[i as int]);
            assert(model.skip(i as int).drop_first() =~= model.skip(i + 1));
        }
        let chunk: Vec<u8> = vstd::slice::slice_to_vec(chunks[i].as_slice());
        match sess.step(chunk) {
            CopyAction::Write(mut w) => {
                out.append(&mut w);
            },
            CopyAction::Finish => {
                return out;
            },
        }
        i = i + 1;
    }
    proof {
        assert(model.skip(i as int) =~= Seq::<Seq<u8>>::empty());
    }
    out
}

/// Replaying a fixed input gives byte-identical output every time: copying
/// the same chunks twice — or serving them to any number of independent
/// transfers — forwards the same bytes.
pub proof fn lemma_copy_deterministic(a: Seq<Seq<u8>>, b: Seq<Seq<u8>>)
    requires
        a == b,
    ensures
        copy_output(a) == copy_output(b),
{
}

/// Round trip: when the source's chunks are all non-empty until the stream
/// ends, the transfer forwards every source byte, in order and none besides.
pub proof fn lemma_copy_round_trip(chunks: Seq<Seq<u8>>)
    requires
        forall|i: int| 0 <= i < chunks.len() ==> chunks[i].len() > 0,
    ensures
        copy_output(chunks) == flatten_chunks(chunks),
        copy_output(chunks).len() == flatten_chunks(chunks).len(),
    decreases chunks.len(),
{
    if chunks.len() > 0 {
        assert(forall|i: int|
            0 <= i < chunks.drop_first().len() ==> chunks.drop_first()[i] == chunks[i + 1]);
        lemma_copy_round_trip(chunks.drop_first());
    }
}

} // verus!
