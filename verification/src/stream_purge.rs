//! The deletion of one stream's data: list its files, delete them in chunks
//! (objects first, then each file's record), list again until nothing is
//! left, then drop the stream's schema. The decisions are a state machine;
//! the caller performs each action and hands back what came of it.

use vstd::prelude::*;

verus! {

broadcast use vstd::seq_lib::group_seq_properties;

/// The files deleted in one storage call at most.
pub const PURGE_CHUNK_SIZE: usize = 1000;

/// A stored data file of a stream.
pub struct StoredFile {
    pub account: String,
    pub file: String,
}

/// The contents of each chunk.
pub open spec fn chunk_views<T>(chunks: Seq<Vec<T>>) -> Seq<Seq<T>> {
    chunks.map_values(|c: Vec<T>| c@)
}

/// `items` cut, from the front, into chunks of `size` items, the last one
/// shorter when `size` does not divide their number.
pub open spec fn chunked<T>(items: Seq<T>, size: nat) -> Seq<Seq<T>>
    decreases items.len(),
{
    if items.len() == 0 || size == 0 {
        Seq::empty()
    } else if items.len() <= size {
        seq![items]
    } else {
        seq![items.take(size as int)] + chunked(items.skip(size as int), size)
    }
}

/// The chunks hold the items, in order; each holds between one and `size`
/// of them, every one but the last exactly `size`, so there are no more
/// chunks than needed.
pub proof fn lemma_chunked_covers<T>(items: Seq<T>, size: nat)
    requires
        size > 0,
    ensures
        chunked(items, size).flatten() == items,
        forall|c: int|
            0 <= c < chunked(items, size).len() ==> 0 < (#[trigger] chunked(items, size)[c]).len()
                <= size,
        forall|c: int|
            0 <= c < chunked(items, size).len() - 1 ==> (#[trigger] chunked(items, size)[c]).len()
                == size,
        chunked(items, size).len() * size < items.len() + size,
    decreases items.len(),
{
    if items.len() == 0 {
    } else if items.len() <= size {
        assert(seq![items].flatten() =~= items) by {
            assert(seq![items].drop_first() =~= Seq::<Seq<T>>::empty());
            assert(seq![items].drop_first().flatten() =~= Seq::<T>::empty());
            assert(seq![items].first() == items);
            assert(items + Seq::<T>::empty() =~= items);
        }
        assert(chunked(items, size).len() == 1);
        assert(1 * size == size) by (nonlinear_arith);
    } else {
        let rest = items.skip(size as int);
        lemma_chunked_covers(rest, size);
        let whole = seq![items.take(size as int)] + chunked(rest, size);
        assert(whole.drop_first() =~= chunked(rest, size));
        assert(whole.first() == items.take(size as int));
        assert(items =~= items.take(size as int) + rest);
        assert forall|c: int| 0 <= c < whole.len() implies 0 < (#[trigger] whole[c]).len() <= size by {
            if c > 0 {
                assert(whole[c] == chunked(rest, size)[c - 1]);
            }
        }
        assert forall|c: int| 0 <= c < whole.len() - 1 implies (#[trigger] whole[c]).len() == size by {
            if c > 0 {
                assert(whole[c] == chunked(rest, size)[c - 1]);
            }
        }
        assert(whole.len() == chunked(rest, size).len() + 1);
        assert(whole.len() * size == chunked(rest, size).len() * size + size) by (nonlinear_arith)
            requires whole.len() == chunked(rest, size).len() + 1;
        assert(rest.len() == items.len() - size);
    }
}

/// Cuts `items`, from the front, into chunks of `size` items.
pub fn chunks_of<T>(items: Vec<T>, size: usize) -> (r: Vec<Vec<T>>)
    requires
        size > 0,
    ensures
        chunk_views(r@) == chunked(items@, size as nat),
{
    let ghost all = items@;
    let mut chunks: Vec<Vec<T>> = Vec::new();
    let mut rest = items;
    proof {
        assert(chunk_views(chunks@) =~= Seq::<Seq<T>>::empty());
    }
    while rest.len() > 0
        invariant
            size > 0,
            chunk_views(chunks@) + chunked(rest@, size as nat) == chunked(all, size as nat),
        decreases rest.len(),
    {
        let ghost before = chunk_views(chunks@);
        let ghost whole = rest@;
        let cut = if rest.len() < size {
            rest.len()
        } else {
            size
        };
        let tail = rest.split_off(cut);
        proof {
            if whole.len() <= size {
                assert(rest@ =~= whole);
                assert(tail@ =~= Seq::<T>::empty());
            } else {
                assert(rest@ =~= whole.take(size as int));
                assert(tail@ =~= whole.skip(size as int));
            }
        }
        chunks.push(rest);
        proof {
            assert(chunk_views(chunks@) =~= before.push(whole.take(cut as int)));
            assert(whole.take(cut as int) =~= chunks@[chunks@.len() - 1]@);
            assert(chunked(whole, size as nat) =~= seq![whole.take(cut as int)] + chunked(
                tail@,
                size as nat,
            ));
            assert(before.push(whole.take(cut as int)) + chunked(tail@, size as nat) =~= before + (
            seq![whole.take(cut as int)] + chunked(tail@, size as nat)));
        }
        rest = tail;
    }
    proof {
        assert(chunk_views(chunks@) + Seq::<Seq<T>>::empty() =~= chunk_views(chunks@));
    }
    chunks
}

/// Where the deletion of a stream's data stands.
pub enum PurgePhase {
    /// Waiting for the stream's files to be listed.
    Listing,
    /// Waiting for the objects of the current chunk to be deleted.
    Deleting,
    /// Waiting for the record of the current file to be removed.
    Forgetting,
    /// Waiting for the stream's schema to be dropped.
    DroppingSchema,
    /// Nothing more to do.
    Finished,
}

/// What came of the last action.
pub enum PurgeEvent {
    /// The stream's files, as stored now.
    Listed(Vec<StoredFile>),
    /// The last deletion succeeded.
    Done,
    /// The last action failed with this message.
    Failed(String),
}

/// What the caller must do next.
pub enum PurgeAction {
    ListFiles,
    /// Delete the objects of the files of this chunk.
    DeleteChunk(usize),
    /// Remove the record of this file.
    ForgetFile(String),
    DropSchema,
    Finish(Result<(), String>),
}

/// The deletion of one stream's data.
pub struct StreamPurge {
    pub chunks: Vec<Vec<StoredFile>>,
    pub chunk: usize,
    pub file: usize,
    pub phase: PurgePhase,
}

/// The events that each phase waits for.
pub open spec fn purge_accepts(phase: PurgePhase, event: PurgeEvent) -> bool {
    match phase {
        PurgePhase::Listing => event is Listed || event is Failed,
        PurgePhase::Finished => false,
        _ => event is Done || event is Failed,
    }
}

/// The purge points at an existing chunk and file where its phase needs one,
/// and no chunk is empty.
pub open spec fn purge_wf(chunks: Seq<Seq<StoredFile>>, chunk: int, file: int, phase: PurgePhase) -> bool {
    &&& forall|c: int| 0 <= c < chunks.len() ==> (#[trigger] chunks[c]).len() > 0
    &&& phase is Deleting ==> 0 <= chunk < chunks.len()
    &&& phase is Forgetting ==> 0 <= chunk < chunks.len() && 0 <= file < chunks[chunk].len()
}

/// The next chunks, chunk, file, phase and action after `event`.
pub open spec fn purge_next(
    chunks: Seq<Seq<StoredFile>>,
    chunk: int,
    file: int,
    phase: PurgePhase,
    event: PurgeEvent,
) -> (Seq<Seq<StoredFile>>, int, int, PurgePhase, PurgeAction) {
    match (phase, event) {
        (_, PurgeEvent::Failed(e)) => (chunks, chunk, file, PurgePhase::Finished, PurgeAction::Finish(Err(e))),
        (PurgePhase::Listing, PurgeEvent::Listed(files)) => if files@.len() == 0 {
            (chunks, chunk, file, PurgePhase::DroppingSchema, PurgeAction::DropSchema)
        } else {
            (chunked(files@, PURGE_CHUNK_SIZE as nat), 0, 0, PurgePhase::Deleting, PurgeAction::DeleteChunk(0))
        },
        (PurgePhase::Deleting, PurgeEvent::Done) => (
            chunks,
            chunk,
            0,
            PurgePhase::Forgetting,
            PurgeAction::ForgetFile(chunks[chunk][0].file),
        ),
        (PurgePhase::Forgetting, PurgeEvent::Done) => if file + 1 < chunks[chunk].len() {
            (
                chunks,
                chunk,
                file + 1,
                PurgePhase::Forgetting,
                PurgeAction::ForgetFile(chunks[chunk][file + 1].file),
            )
        } else if chunk + 1 < chunks.len() {
            (chunks, chunk + 1, 0, PurgePhase::Deleting, PurgeAction::DeleteChunk((chunk + 1) as usize))
        } else {
            (chunks, chunk, file, PurgePhase::Listing, PurgeAction::ListFiles)
        },
        (PurgePhase::DroppingSchema, PurgeEvent::Done) => (
            chunks,
            chunk,
            file,
            PurgePhase::Finished,
            PurgeAction::Finish(Ok(())),
        ),
        _ => (chunks, chunk, file, phase, PurgeAction::Finish(Ok(()))),
    }
}

impl StreamPurge {
    /// The state in which the purge stands.
    pub open spec fn wf(&self) -> bool {
        purge_wf(chunk_views(self.chunks@), self.chunk as int, self.file as int, self.phase)
    }

    /// Starts the purge: the first thing to do is to list the stream's files.
    pub fn new() -> (r: (Self, PurgeAction))
        ensures
            r.0.wf(),
            r.0.phase is Listing,
            r.1 is ListFiles,
    {
        let purge = StreamPurge { chunks: Vec::new(), chunk: 0, file: 0, phase: PurgePhase::Listing };
        (purge, PurgeAction::ListFiles)
    }

    /// Whether the purge waits for `event` now.
    pub fn accepts(&self, event: &PurgeEvent) -> (r: bool)
        ensures
            r == purge_accepts(self.phase, *event),
    {
        match self.phase {
            PurgePhase::Listing => matches!(event, PurgeEvent::Listed(_) | PurgeEvent::Failed(_)),
            PurgePhase::Finished => false,
            _ => matches!(event, PurgeEvent::Done | PurgeEvent::Failed(_)),
        }
    }

    /// Takes in what came of the last action and returns the next one.
    pub fn step(&mut self, event: PurgeEvent) -> (action: PurgeAction)
        requires
            old(self).wf(),
            purge_accepts(old(self).phase, event),
        ensures
            final(self).wf(),
            (
                chunk_views(final(self).chunks@),
                final(self).chunk as int,
                final(self).file as int,
                final(self).phase,
                action,
            ) == purge_next(
                chunk_views(old(self).chunks@),
                old(self).chunk as int,
                old(self).file as int,
                old(self).phase,
                event,
            ),
    {
        match event {
            PurgeEvent::Failed(e) => {
                self.phase = PurgePhase::Finished;
                PurgeAction::Finish(Err(e))
            },
            PurgeEvent::Listed(files) => {
                if files.len() == 0 {
                    self.phase = PurgePhase::DroppingSchema;
                    PurgeAction::DropSchema
                } else {
                    let ghost listed = files@;
                    let chunks = chunks_of(files, PURGE_CHUNK_SIZE);
                    proof {
                        lemma_chunked_covers(listed, PURGE_CHUNK_SIZE as nat);
                    }
                    self.chunks = chunks;
                    self.chunk = 0;
                    self.file = 0;
                    self.phase = PurgePhase::Deleting;
                    proof {
                        assert forall|c: int| 0 <= c < chunk_views(self.chunks@).len() implies (
                        #[trigger] chunk_views(self.chunks@)[c]).len() > 0 by {
                            assert(chunk_views(self.chunks@)[c] == chunked(listed, PURGE_CHUNK_SIZE as nat)[c]);
                        }
                    }
                    PurgeAction::DeleteChunk(0)
                }
            },
            PurgeEvent::Done => {
                let ghost views = chunk_views(self.chunks@);
                match self.phase {
                    PurgePhase::Deleting => {
                        proof {
                            assert(views[self.chunk as int].len() > 0);
                        }
                        let name = self.chunks[self.chunk][0].file.clone();
                        self.file = 0;
                        self.phase = PurgePhase::Forgetting;
                        PurgeAction::ForgetFile(name)
                    },
                    PurgePhase::Forgetting => {
                        let c = self.chunk;
                        let f = self.file;
                        let count = self.chunks.len();
                        assert(c < count);
                        let len = self.chunks[c].len();
                        if f + 1 < len {
                            let name = self.chunks[c][f + 1].file.clone();
                            self.file = f + 1;
                            PurgeAction::ForgetFile(name)
                        } else if c + 1 < self.chunks.len() {
                            self.chunk = c + 1;
                            self.file = 0;
                            self.phase = PurgePhase::Deleting;
                            PurgeAction::DeleteChunk(c + 1)
                        } else {
                            self.phase = PurgePhase::Listing;
                            PurgeAction::ListFiles
                        }
                    },
                    _ => {
                        self.phase = PurgePhase::Finished;
                        PurgeAction::Finish(Ok(()))
                    },
                }
            },
        }
    }
}

/// The schema is dropped only right after a listing came back empty: no
/// schema goes while the stream still has files.
pub proof fn lemma_schema_dropped_only_when_empty(
    chunks: Seq<Seq<StoredFile>>,
    chunk: int,
    file: int,
    phase: PurgePhase,
    event: PurgeEvent,
)
    requires
        purge_accepts(phase, event),
    ensures
        purge_next(chunks, chunk, file, phase, event).4 is DropSchema ==> phase is Listing,
        purge_next(chunks, chunk, file, phase, event).4 is DropSchema ==> (
        event matches PurgeEvent::Listed(files) && files@.len() == 0),
{
}

/// A failure ends the purge at once with that failure; a finished purge
/// waits for nothing, so no schema is dropped after a failure.
pub proof fn lemma_failure_ends_purge(
    chunks: Seq<Seq<StoredFile>>,
    chunk: int,
    file: int,
    phase: PurgePhase,
    event: PurgeEvent,
)
    requires
        purge_accepts(phase, event),
    ensures
        event matches PurgeEvent::Failed(e) ==> purge_next(chunks, chunk, file, phase, event).3 is Finished
            && purge_next(chunks, chunk, file, phase, event).4 == PurgeAction::Finish(Err(e)),
        forall|e2: PurgeEvent| !purge_accepts(PurgePhase::Finished, e2),
{
}

/// A listing is deleted chunk by chunk, in order: each chunk's objects go
/// first, then the records of its files one by one in order, then the next
/// chunk; after the last chunk the stream is listed again. The chunks of a
/// listing hold its files, in order, at most `PURGE_CHUNK_SIZE` each.
pub proof fn lemma_purge_order(
    chunks: Seq<Seq<StoredFile>>,
    chunk: int,
    file: int,
    phase: PurgePhase,
    event: PurgeEvent,
)
    requires
        purge_wf(chunks, chunk, file, phase),
        purge_accepts(phase, event),
        chunks.len() <= usize::MAX,
    ensures
        ({
            let (next_chunks, next_chunk, next_file, next_phase, action) = purge_next(
                chunks,
                chunk,
                file,
                phase,
                event,
            );
            &&& action matches PurgeAction::ForgetFile(name) ==> {
                &&& name == next_chunks[next_chunk][next_file].file
                &&& next_chunk == chunk
                &&& (phase is Deleting && next_file == 0) || (phase is Forgetting && next_file == file + 1)
            }
            &&& action matches PurgeAction::DeleteChunk(k) ==> {
                &&& k == next_chunk
                &&& (phase is Listing && k == 0) || (phase is Forgetting && file + 1 == chunks[chunk].len()
                    && k == chunk + 1)
            }
            &&& action is ListFiles ==> phase is Forgetting && file + 1 == chunks[chunk].len()
                && chunk + 1 == chunks.len()
            &&& event matches PurgeEvent::Listed(files) ==> (files@.len() > 0 ==> {
                &&& next_chunks.flatten() == files@
                &&& forall|c: int|
                    0 <= c < next_chunks.len() ==> 0 < (#[trigger] next_chunks[c]).len()
                        <= PURGE_CHUNK_SIZE
            })
        }),
{
    match event {
        PurgeEvent::Listed(files) => {
            lemma_chunked_covers(files@, PURGE_CHUNK_SIZE as nat);
        },
        _ => {},
    }
}

/// What each phase waits for: every unfinished phase takes a failure; the
/// listing phase takes a listing; each phase that waits for a deletion or
/// for the schema drop takes its success. A finished purge takes nothing.
pub proof fn lemma_purge_waits_for(phase: PurgePhase)
    ensures
        !(phase is Finished) ==> forall|e: String| purge_accepts(phase, PurgeEvent::Failed(e)),
        phase is Listing ==> forall|files: Vec<StoredFile>| purge_accepts(phase, PurgeEvent::Listed(files)),
        (phase is Deleting || phase is Forgetting || phase is DroppingSchema) ==> purge_accepts(
            phase,
            PurgeEvent::Done,
        ),
        phase is Finished ==> forall|e: PurgeEvent| !purge_accepts(phase, e),
{
}

/// An empty listing leads to the schema drop; the drop's success is taken
/// and finishes the purge successfully.
pub proof fn lemma_empty_listing_finishes(
    chunks: Seq<Seq<StoredFile>>,
    chunk: int,
    file: int,
    files: Vec<StoredFile>,
)
    requires
        files@.len() == 0,
    ensures
        ({
            let (c1, k1, f1, p1, a1) = purge_next(chunks, chunk, file, PurgePhase::Listing, PurgeEvent::Listed(files));
            &&& p1 is DroppingSchema
            &&& a1 is DropSchema
            &&& purge_accepts(p1, PurgeEvent::Done)
            &&& purge_next(c1, k1, f1, p1, PurgeEvent::Done).3 is Finished
            &&& purge_next(c1, k1, f1, p1, PurgeEvent::Done).4 == PurgeAction::Finish(Ok(()))
        }),
{
}

/// The course of a purge: a listing with files cuts them into chunks of
/// `PURGE_CHUNK_SIZE` and deletes the first chunk's objects; once a chunk's
/// objects are gone, the records of its files are removed one by one, in
/// order; after its last file comes the next chunk, and after the last
/// chunk a new listing; once the schema is dropped the purge ends with
/// success.
pub proof fn lemma_purge_course(
    chunks: Seq<Seq<StoredFile>>,
    chunk: int,
    file: int,
    phase: PurgePhase,
    event: PurgeEvent,
)
    requires
        purge_wf(chunks, chunk, file, phase),
        purge_accepts(phase, event),
    ensures
        phase is Listing ==> (event matches PurgeEvent::Listed(files) ==> files@.len() > 0 ==> purge_next(
            chunks,
            chunk,
            file,
            phase,
            event,
        ) == (
            chunked(files@, PURGE_CHUNK_SIZE as nat),
            0int,
            0int,
            PurgePhase::Deleting,
            PurgeAction::DeleteChunk(0),
        )),
        phase is Deleting && event is Done ==> purge_next(chunks, chunk, file, phase, event) == (
            chunks,
            chunk,
            0int,
            PurgePhase::Forgetting,
            PurgeAction::ForgetFile(chunks[chunk][0].file),
        ),
        phase is Forgetting && event is Done && file + 1 < chunks[chunk].len() ==> purge_next(
            chunks,
            chunk,
            file,
            phase,
            event,
        ) == (
            chunks,
            chunk,
            file + 1,
            PurgePhase::Forgetting,
            PurgeAction::ForgetFile(chunks[chunk][file + 1].file),
        ),
        phase is Forgetting && event is Done && file + 1 == chunks[chunk].len() && chunk + 1 < chunks.len()
            ==> purge_next(chunks, chunk, file, phase, event) == (
            chunks,
            chunk + 1,
            0int,
            PurgePhase::Deleting,
            PurgeAction::DeleteChunk((chunk + 1) as usize),
        ),
        phase is Forgetting && event is Done && file + 1 == chunks[chunk].len() && chunk + 1
            == chunks.len() ==> purge_next(chunks, chunk, file, phase, event).3 is Listing && purge_next(
            chunks,
            chunk,
            file,
            phase,
            event,
        ).4 is ListFiles,
        phase is DroppingSchema && event is Done ==> purge_next(chunks, chunk, file, phase, event).3 is Finished
            && purge_next(chunks, chunk, file, phase, event).4 == PurgeAction::Finish(Ok(())),
{
}

} // verus!
