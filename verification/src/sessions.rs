//! The chunked upload protocol shared by both recording stores: a session is
//! opened under an id, receives numbered chunks strictly in order, and is
//! closed by finalizing it.
use vstd::prelude::*;
use vstd::utf8::encode_utf8;

use crate::names::{is_safe_id, safe_id};
use crate::text::{decimal, push_decimal, str_eq};

verus! {

/// The largest chunk a session accepts: 16 MiB.
pub const MAX_CHUNK_BYTES: u64 = 16777216;

/// One open upload session.
pub struct ChunkSession<M> {
    pub id: String,
    /// The sequence number the next chunk must carry; also the number of
    /// chunks accepted so far.
    pub seq: u64,
    /// The bytes accepted so far.
    pub bytes: u64,
    pub meta: M,
}

/// Why a chunk is refused.
#[derive(Clone, Copy, Debug, PartialEq, Eq)]
pub enum ChunkError {
    InvalidId,
    TooLarge,
    NotActive,
    SequenceMismatch { expected: u64 },
}

/// The answer to a chunk with number `seq` and `len` bytes for session `id`,
/// in the order the checks are made.
pub open spec fn chunk_verdict<M>(
    sessions: Map<Seq<char>, ChunkSession<M>>,
    id: Seq<char>,
    seq: u64,
    len: nat,
) -> Result<(), ChunkError> {
    if !is_safe_id(encode_utf8(id)) {
        Err(ChunkError::InvalidId)
    } else if len > MAX_CHUNK_BYTES {
        Err(ChunkError::TooLarge)
    } else if !sessions.contains_key(id) {
        Err(ChunkError::NotActive)
    } else if seq != sessions[id].seq {
        Err(ChunkError::SequenceMismatch { expected: sessions[id].seq })
    } else {
        Ok(())
    }
}

/// A session after it accepted a chunk of `len` bytes.
pub open spec fn after_chunk<M>(s: ChunkSession<M>, len: nat) -> ChunkSession<M> {
    ChunkSession { id: s.id, seq: (s.seq + 1) as u64, bytes: (s.bytes + len) as u64, meta: s.meta }
}

/// Whether a session has room for one more chunk of `len` bytes without its
/// counters overflowing.
pub open spec fn has_room<M>(s: ChunkSession<M>, len: nat) -> bool {
    s.seq < u64::MAX && s.bytes + len <= u64::MAX
}

impl ChunkError {
    /// The text the HTTP API answers with.
    pub fn message(&self) -> (r: String)
        ensures
            r@ == chunk_error_text(*self),
    {
        match self {
            ChunkError::InvalidId => "invalid recording id".to_owned(),
            ChunkError::TooLarge => "chunk exceeds 16 MiB".to_owned(),
            ChunkError::NotActive => "recording session not active".to_owned(),
            ChunkError::SequenceMismatch { expected } => {
                let mut s = "sequence mismatch: expected ".to_owned();
                push_decimal(&mut s, *expected);
                s
            },
        }
    }
}

pub open spec fn chunk_error_text(e: ChunkError) -> Seq<char> {
    match e {
        ChunkError::InvalidId => "invalid recording id"@,
        ChunkError::TooLarge => "chunk exceeds 16 MiB"@,
        ChunkError::NotActive => "recording session not active"@,
        ChunkError::SequenceMismatch { expected } => "sequence mismatch: expected "@ + decimal(
            expected as nat,
        ),
    }
}

/// The open sessions of one store, keyed by id.
pub struct ChunkSessions<M> {
    entries: Vec<ChunkSession<M>>,
}

pub open spec fn ids_distinct<M>(s: Seq<ChunkSession<M>>) -> bool {
    forall|i: int, j: int|
        0 <= i < s.len() && 0 <= j < s.len() && i != j ==> #[trigger] s[i].id@ != #[trigger] s[j].id@
}

pub open spec fn map_of<M>(s: Seq<ChunkSession<M>>) -> Map<Seq<char>, ChunkSession<M>>
    decreases s.len(),
{
    if s.len() == 0 {
        Map::empty()
    } else {
        map_of(s.drop_last()).insert(s.last().id@, s.last())
    }
}

proof fn lemma_distinct_drop_last<M>(s: Seq<ChunkSession<M>>)
    requires
        ids_distinct(s),
        s.len() > 0,
    ensures
        ids_distinct(s.drop_last()),
{
    let t = s.drop_last();
    assert forall|a: int, b: int| 0 <= a < t.len() && 0 <= b < t.len() && a != b implies #[trigger] t[a].id@
        != #[trigger] t[b].id@ by {
        assert(t[a] == s[a]);
        assert(t[b] == s[b]);
    }
}

proof fn lemma_map_of<M>(s: Seq<ChunkSession<M>>)
    requires
        ids_distinct(s),
    ensures
        forall|k: Seq<char>|
            #[trigger] map_of(s).contains_key(k) <==> exists|i: int| 0 <= i < s.len() && s[i].id@ == k,
        forall|i: int| 0 <= i < s.len() ==> #[trigger] map_of(s)[s[i].id@] == s[i],
    decreases s.len(),
{
    if s.len() > 0 {
        let t = s.drop_last();
        lemma_distinct_drop_last(s);
        lemma_map_of(t);
        assert forall|k: Seq<char>| #[trigger] map_of(s).contains_key(k) implies exists|i: int|
            0 <= i < s.len() && s[i].id@ == k by {
            if k != s.last().id@ {
                assert(map_of(t).contains_key(k));
                let i = choose|i: int| 0 <= i < t.len() && t[i].id@ == k;
                assert(s[i] == t[i]);
            } else {
                assert(s[s.len() - 1].id@ == k);
            }
        }
        assert forall|i: int| 0 <= i < s.len() implies #[trigger] map_of(s)[s[i].id@] == s[i] by {
            if i < s.len() - 1 {
                assert(s[i] == t[i]);
                assert(s[i].id@ != s[s.len() - 1].id@);
                assert(map_of(t)[t[i].id@] == t[i]);
            }
        }
        assert forall|k: Seq<char>| (exists|i: int| 0 <= i < s.len() && s[i].id@ == k) implies #[trigger] map_of(s).contains_key(k) by {
            let i = choose|i: int| 0 <= i < s.len() && s[i].id@ == k;
            if i < s.len() - 1 {
                assert(t[i] == s[i]);
                assert(map_of(t).contains_key(t[i].id@));
            }
        }
    }
}

proof fn lemma_map_of_update<M>(s: Seq<ChunkSession<M>>, i: int, e: ChunkSession<M>)
    requires
        ids_distinct(s),
        0 <= i < s.len(),
        e.id@ == s[i].id@,
    ensures
        ids_distinct(s.update(i, e)),
        map_of(s.update(i, e)) == map_of(s).insert(e.id@, e),
    decreases s.len(),
{
    let u = s.update(i, e);
    assert forall|a: int, b: int| 0 <= a < u.len() && 0 <= b < u.len() && a != b implies #[trigger] u[a].id@ != #[trigger] u[b].id@ by {
        assert(u[a].id@ == s[a].id@);
        assert(u[b].id@ == s[b].id@);
    }
    let t = s.drop_last();
    lemma_distinct_drop_last(s);
    if i == s.len() - 1 {
        assert(u.drop_last() =~= t);
        assert(map_of(u) =~= map_of(s).insert(e.id@, e));
    } else {
        assert(u.drop_last() =~= t.update(i, e));
        lemma_map_of_update(t, i, e);
        assert(s.last().id@ != e.id@);
        assert(map_of(u) =~= map_of(s).insert(e.id@, e));
    }
}

proof fn lemma_map_of_remove<M>(s: Seq<ChunkSession<M>>, i: int)
    requires
        ids_distinct(s),
        0 <= i < s.len(),
    ensures
        ids_distinct(s.remove(i)),
        map_of(s.remove(i)) == map_of(s).remove(s[i].id@),
    decreases s.len(),
{
    let r = s.remove(i);
    assert forall|a: int, b: int| 0 <= a < r.len() && 0 <= b < r.len() && a != b implies #[trigger] r[a].id@ != #[trigger] r[b].id@ by {
        let a2 = if a < i { a } else { a + 1 };
        let b2 = if b < i { b } else { b + 1 };
        assert(r[a] == s[a2]);
        assert(r[b] == s[b2]);
    }
    let t = s.drop_last();
    lemma_distinct_drop_last(s);
    lemma_map_of(t);
    if i == s.len() - 1 {
        assert(r =~= t);
        assert(!map_of(t).contains_key(s.last().id@)) by {
            if map_of(t).contains_key(s.last().id@) {
                let j = choose|j: int| 0 <= j < t.len() && t[j].id@ == s.last().id@;
                assert(s[j].id@ == s[s.len() - 1].id@);
            }
        }
        assert(map_of(r) =~= map_of(s).remove(s[i].id@));
    } else {
        assert(r.drop_last() =~= t.remove(i));
        assert(r.last() == s.last());
        lemma_map_of_remove(t, i);
        assert(s.last().id@ != s[i].id@);
        assert(t[i] == s[i]);
        assert(map_of(r) =~= map_of(s).remove(s[i].id@));
    }
}

impl<M> View for ChunkSessions<M> {
    type V = Map<Seq<char>, ChunkSession<M>>;

    closed spec fn view(&self) -> Map<Seq<char>, ChunkSession<M>> {
        map_of(self.entries@)
    }
}

impl<M> ChunkSessions<M> {
    #[verifier::type_invariant]
    spec fn distinct(&self) -> bool {
        ids_distinct(self.entries@)
    }

    /// No session is open.
    pub fn new() -> (r: Self)
        ensures
            r@ == Map::<Seq<char>, ChunkSession<M>>::empty(),
    {
        let r = ChunkSessions { entries: Vec::new() };
        assert(r@ =~= Map::<Seq<char>, ChunkSession<M>>::empty());
        r
    }

    fn find(&self, id: &str) -> (r: Option<usize>)
        ensures
            match r {
                Some(i) => i < self.entries@.len() && self.entries@[i as int].id@ == id@,
                None => forall|j: int| 0 <= j < self.entries@.len() ==> self.entries@[j].id@ != id@,
            },
    {
        let mut i: usize = 0;
        while i < self.entries.len()
            invariant
                0 <= i <= self.entries@.len(),
                forall|j: int| 0 <= j < i ==> self.entries@[j].id@ != id@,
            decreases self.entries@.len() - i,
        {
            if str_eq(self.entries[i].id.as_str(), id) {
                return Some(i);
            }
            i = i + 1;
        }
        None
    }

    /// Opens (or reopens) the session `id` with nothing received yet.
    pub fn begin(&mut self, id: String, meta: M)
        ensures
            final(self)@ == old(self)@.insert(id@, ChunkSession { id, seq: 0, bytes: 0, meta }),
    {
        proof {
            use_type_invariant(&*self);
            lemma_map_of(self.entries@);
        }
        let found = self.find(id.as_str());
        let ghost key = id@;
        let fresh = ChunkSession { id, seq: 0, bytes: 0, meta };
        let mut entries: Vec<ChunkSession<M>> = Vec::new();
        std::mem::swap(&mut entries, &mut self.entries);
        let ghost before = entries@;
        match found {
            Some(i) => {
                entries.set(i, fresh);
                proof {
                    lemma_map_of_update(before, i as int, fresh);
                }
            },
            None => {
                entries.push(fresh);
                proof {
                    assert(entries@.drop_last() =~= before);
                    assert forall|a: int, b: int|
                        0 <= a < entries@.len() && 0 <= b < entries@.len() && a != b implies #[trigger] entries@[a].id@
                        != #[trigger] entries@[b].id@ by {
                        if a < before.len() && b < before.len() {
                            assert(entries@[a] == before[a]);
                            assert(entries@[b] == before[b]);
                        } else if a < before.len() {
                            assert(entries@[a] == before[a]);
                        } else {
                            assert(entries@[b] == before[b]);
                        }
                    }
                }
            },
        }
        self.entries = entries;
    }

    /// The verdict on a chunk, without changing anything.
    pub fn check_chunk(&self, id: &str, seq: u64, len: usize) -> (r: Result<(), ChunkError>)
        ensures
            r == chunk_verdict(self@, id@, seq, len as nat),
    {
        proof {
            use_type_invariant(self);
            lemma_map_of(self.entries@);
        }
        if !safe_id(id) {
            return Err(ChunkError::InvalidId);
        }
        if len as u64 > MAX_CHUNK_BYTES {
            return Err(ChunkError::TooLarge);
        }
        match self.find(id) {
            None => Err(ChunkError::NotActive),
            Some(i) => {
                let expected = self.entries[i].seq;
                if seq != expected {
                    Err(ChunkError::SequenceMismatch { expected })
                } else {
                    Ok(())
                }
            },
        }
    }

    /// Whether session `id` is open and can count one more chunk of `len`
    /// bytes.
    pub fn room_for(&self, id: &str, len: usize) -> (r: bool)
        ensures
            r == (self@.contains_key(id@) && has_room(self@[id@], len as nat)),
    {
        proof {
            use_type_invariant(self);
            lemma_map_of(self.entries@);
        }
        match self.find(id) {
            None => false,
            Some(i) => self.entries[i].seq < u64::MAX && len as u64 <= u64::MAX - self.entries[i].bytes,
        }
    }

    /// Counts an accepted chunk of `len` bytes for session `id`; returns the
    /// chunk's size.
    pub fn append(&mut self, id: &str, len: usize) -> (n: u64)
        requires
            old(self)@.contains_key(id@),
            has_room(old(self)@[id@], len as nat),
        ensures
            n == len,
            final(self)@ == old(self)@.insert(id@, after_chunk(old(self)@[id@], len as nat)),
    {
        proof {
            use_type_invariant(&*self);
            lemma_map_of(self.entries@);
        }
        let i = match self.find(id) {
            Some(i) => i,
            None => {
                assert(false);
                0
            },
        };
        let mut entries: Vec<ChunkSession<M>> = Vec::new();
        std::mem::swap(&mut entries, &mut self.entries);
        let ghost before = entries@;
        let mut s = entries.remove(i);
        let ghost removed = entries@;
        s.seq = s.seq + 1;
        s.bytes = s.bytes + len as u64;
        let ghost updated = s;
        entries.insert(i, s);
        proof {
            assert(entries@ =~= before.update(i as int, updated));
            lemma_map_of_update(before, i as int, updated);
        }
        self.entries = entries;
        len as u64
    }

    /// Closes session `id` and hands it back, if it was open.
    pub fn take(&mut self, id: &str) -> (r: Option<ChunkSession<M>>)
        ensures
            match r {
                Some(s) => old(self)@.contains_key(id@) && s == old(self)@[id@],
                None => !old(self)@.contains_key(id@),
            },
            final(self)@ == old(self)@.remove(id@),
    {
        proof {
            use_type_invariant(&*self);
            lemma_map_of(self.entries@);
        }
        match self.find(id) {
            None => {
                assert(self@ =~= self@.remove(id@));
                None
            },
            Some(i) => {
                let mut entries: Vec<ChunkSession<M>> = Vec::new();
                std::mem::swap(&mut entries, &mut self.entries);
                let ghost before = entries@;
                let s = entries.remove(i);
                proof {
                    lemma_map_of_remove(before, i as int);
                }
                self.entries = entries;
                Some(s)
            },
        }
    }

    /// The next expected sequence number and the bytes received so far, for
    /// an open session.
    pub fn progress(&self, id: &str) -> (r: Option<(u64, u64)>)
        ensures
            match r {
                Some(p) => self@.contains_key(id@) && p.0 == self@[id@].seq && p.1
                    == self@[id@].bytes,
                None => !self@.contains_key(id@),
            },
    {
        proof {
            use_type_invariant(self);
            lemma_map_of(self.entries@);
        }
        match self.find(id) {
            None => None,
            Some(i) => Some((self.entries[i].seq, self.entries[i].bytes)),
        }
    }
}


// ---------------------------------------------------------------------------
// Laws of the chunk protocol
// ---------------------------------------------------------------------------

/// A freshly opened session takes chunk number 0 and refuses any other
/// number, naming 0 as the one it expects.
pub proof fn law_new_session_expects_chunk_zero<M>(
    sessions: Map<Seq<char>, ChunkSession<M>>,
    id: String,
    meta: M,
    seq: u64,
    len: nat,
)
    requires
        is_safe_id(encode_utf8(id@)),
        len <= MAX_CHUNK_BYTES,
    ensures
        chunk_verdict(sessions.insert(id@, ChunkSession { id, seq: 0, bytes: 0, meta }), id@, seq, len)
            == if seq == 0 {
            Ok::<(), ChunkError>(())
        } else {
            Err(ChunkError::SequenceMismatch { expected: 0 })
        },
{
}

/// Once a chunk is accepted, the same number is refused (the session now
/// expects the next one), the next number is accepted, and no other session
/// changes.
pub proof fn law_accepted_chunk_advances<M>(
    sessions: Map<Seq<char>, ChunkSession<M>>,
    id: Seq<char>,
    seq: u64,
    len: nat,
    next_len: nat,
)
    requires
        chunk_verdict(sessions, id, seq, len) == Ok::<(), ChunkError>(()),
        has_room(sessions[id], len),
        next_len <= MAX_CHUNK_BYTES,
    ensures
        ({
            let after = sessions.insert(id, after_chunk(sessions[id], len));
            &&& chunk_verdict(after, id, seq, len) == Err::<(), ChunkError>(
                ChunkError::SequenceMismatch { expected: (seq + 1) as u64 },
            )
            &&& chunk_verdict(after, id, (seq + 1) as u64, next_len) == Ok::<(), ChunkError>(())
            &&& forall|other: Seq<char>| other != id ==> #[trigger] after.contains_key(other)
                == sessions.contains_key(other) && (sessions.contains_key(other) ==> after[other]
                == sessions[other])
        }),
{
}

/// A closed session refuses every further chunk as not active.
pub proof fn law_closed_session_refuses_chunks<M>(
    sessions: Map<Seq<char>, ChunkSession<M>>,
    id: Seq<char>,
    seq: u64,
    len: nat,
)
    requires
        is_safe_id(encode_utf8(id)),
        len <= MAX_CHUNK_BYTES,
    ensures
        chunk_verdict(sessions.remove(id), id, seq, len) == Err::<(), ChunkError>(
            ChunkError::NotActive,
        ),
{
}

/// A session after accepting chunks of the given sizes, in order.
pub open spec fn after_chunks<M>(s: ChunkSession<M>, lens: Seq<nat>) -> ChunkSession<M>
    decreases lens.len(),
{
    if lens.len() == 0 {
        s
    } else {
        after_chunk(after_chunks(s, lens.drop_last()), lens.last())
    }
}

pub open spec fn total(lens: Seq<nat>) -> nat
    decreases lens.len(),
{
    if lens.len() == 0 {
        0
    } else {
        total(lens.drop_last()) + lens.last()
    }
}

/// Starting from a fresh session, accepting chunks counts them: the next
/// expected number is the number of chunks and the byte count is their total
/// size; id and metadata are kept.
pub proof fn law_chunks_accumulate<M>(s: ChunkSession<M>, lens: Seq<nat>)
    requires
        s.seq == 0,
        s.bytes == 0,
        lens.len() <= u64::MAX,
        total(lens) <= u64::MAX,
    ensures
        after_chunks(s, lens).seq == lens.len(),
        after_chunks(s, lens).bytes == total(lens),
        after_chunks(s, lens).id == s.id,
        after_chunks(s, lens).meta == s.meta,
    decreases lens.len(),
{
    if lens.len() > 0 {
        law_chunks_accumulate(s, lens.drop_last());
    }
}

/// The sessions after chunks of the given sizes were counted for `id`, in
/// order.
pub open spec fn appended<M>(
    sessions: Map<Seq<char>, ChunkSession<M>>,
    id: Seq<char>,
    lens: Seq<nat>,
) -> Map<Seq<char>, ChunkSession<M>>
    decreases lens.len(),
{
    if lens.len() == 0 {
        sessions
    } else {
        let before = appended(sessions, id, lens.drop_last());
        before.insert(id, after_chunk(before[id], lens.last()))
    }
}

pub proof fn lemma_appended<M>(sessions: Map<Seq<char>, ChunkSession<M>>, id: Seq<char>, lens: Seq<nat>)
    requires
        sessions.contains_key(id),
    ensures
        appended(sessions, id, lens).contains_key(id),
        appended(sessions, id, lens)[id] == after_chunks(sessions[id], lens),
    decreases lens.len(),
{
    if lens.len() > 0 {
        lemma_appended(sessions, id, lens.drop_last());
    }
}

/// The total of a prefix grows by the next size, and never passes the
/// whole total.
pub proof fn lemma_total_prefix(lens: Seq<nat>, k: int)
    requires
        0 <= k < lens.len(),
    ensures
        total(lens.take(k + 1)) == total(lens.take(k)) + lens[k],
        total(lens.take(k + 1)) <= total(lens),
    decreases lens.len(),
{
    assert(lens.take(k + 1).drop_last() =~= lens.take(k));
    if k + 1 < lens.len() {
        lemma_total_prefix(lens.drop_last(), k);
        assert(lens.drop_last().take(k + 1) =~= lens.take(k + 1));
        assert(lens.drop_last().take(k) =~= lens.take(k));
    } else {
        assert(lens.take(k + 1) =~= lens);
    }
}

} // verus!
