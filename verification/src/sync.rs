//! Delta sync: compares local and remote note states and decides which
//! note ids must be uploaded and which downloaded. On conflicting
//! timestamps the newer side wins; on a tie the remote wins nothing and
//! the local uploads nothing.

use vstd::prelude::*;

verus! {

/// The synchronization-relevant state of one note.
#[derive(Debug, Clone)]
pub struct NoteState {
    pub id: i64,
    pub content_hash: String,
    pub updated_at: i64,
}

/// Index of the last entry of `s` with the given id, if any. When a side
/// reports an id twice, the later entry governs.
pub open spec fn last_with_id(s: Seq<NoteState>, id: i64) -> Option<int>
    decreases s.len(),
{
    if s.len() == 0 {
        None
    } else if s.last().id == id {
        Some(s.len() - 1)
    } else {
        last_with_id(s.drop_last(), id)
    }
}

/// Some entry of `s` carries the given id.
pub open spec fn has_id(s: Seq<NoteState>, id: i64) -> bool {
    exists|i: int| 0 <= i < s.len() && s[i].id == id
}

/// Ids of local notes that must go up: unknown remotely, or newer locally.
pub open spec fn uploads(local: Seq<NoteState>, remote: Seq<NoteState>) -> Seq<i64>
    decreases local.len(),
{
    if local.len() == 0 {
        Seq::empty()
    } else {
        uploads(local.drop_last(), remote) + (match last_with_id(remote, local.last().id) {
            Some(j) => if local.last().updated_at > remote[j].updated_at {
                seq![local.last().id]
            } else {
                Seq::empty()
            },
            None => seq![local.last().id],
        })
    }
}

/// Ids of local notes that the remote has newer: the remote wins.
pub open spec fn conflict_downloads(local: Seq<NoteState>, remote: Seq<NoteState>) -> Seq<i64>
    decreases local.len(),
{
    if local.len() == 0 {
        Seq::empty()
    } else {
        conflict_downloads(local.drop_last(), remote) + (match last_with_id(
            remote,
            local.last().id,
        ) {
            Some(j) => if remote[j].updated_at > local.last().updated_at {
                seq![local.last().id]
            } else {
                Seq::empty()
            },
            None => Seq::empty(),
        })
    }
}

/// Ids of remote notes unknown locally.
pub open spec fn fresh_downloads(local: Seq<NoteState>, remote: Seq<NoteState>) -> Seq<i64>
    decreases remote.len(),
{
    if remote.len() == 0 {
        Seq::empty()
    } else {
        fresh_downloads(local, remote.drop_last()) + (if !has_id(local, remote.last().id) {
            seq![remote.last().id]
        } else {
            Seq::empty()
        })
    }
}

/// Index of the last entry with `id`, scanning from the back.
fn lookup_last(s: &[NoteState], id: i64) -> (r: Option<usize>)
    ensures
        match r {
            Some(j) => j < s@.len() && last_with_id(s@, id) == Some::<int>(j as int),
            None => last_with_id(s@, id) is None,
        },
{
    let mut i = s.len();
    proof {
        assert(s@.take(i as int) =~= s@);
    }
    while i > 0
        invariant
            i <= s@.len(),
            last_with_id(s@, id) == last_with_id(s@.take(i as int), id),
        decreases i,
    {
        if s[i - 1].id == id {
            proof {
                assert(s@.take(i as int).last() == s@[i - 1]);
            }
            return Some(i - 1);
        }
        proof {
            assert(s@.take(i as int).drop_last() =~= s@.take(i - 1));
        }
        i -= 1;
    }
    None
}

/// Whether some entry carries `id`.
fn contains_id(s: &[NoteState], id: i64) -> (r: bool)
    ensures
        r == has_id(s@, id),
{
    let len = s.len();
    let mut i: usize = 0;
    while i < len
        invariant
            len == s@.len(),
            0 <= i <= len,
            forall|j: int| 0 <= j < i ==> s@[j].id != id,
        decreases len - i,
    {
        if s[i].id == id {
            return true;
        }
        i += 1;
    }
    false
}

/// Decides what to transfer between a local and a remote note set.
pub struct SyncEngine {}

impl SyncEngine {
    pub fn new() -> (r: Self) {
        SyncEngine {  }
    }

    /// Returns `(to_upload, to_download)`: local ids that are new or newer
    /// locally go up; local ids that are newer remotely, followed by
    /// remote ids unknown locally, come down.
    pub fn calculate_changes(local_notes: &[NoteState], remote_notes: &[NoteState]) -> (r: (
        Vec<i64>,
        Vec<i64>,
    ))
        ensures
            r.0@ == uploads(local_notes@, remote_notes@),
            r.1@ == conflict_downloads(local_notes@, remote_notes@) + fresh_downloads(
                local_notes@,
                remote_notes@,
            ),
    {
        let mut to_upload: Vec<i64> = Vec::new();
        let mut to_download: Vec<i64> = Vec::new();
        let local_len = local_notes.len();
        let mut i: usize = 0;
        while i < local_len
            invariant
                local_len == local_notes@.len(),
                0 <= i <= local_len,
                to_upload@ == uploads(local_notes@.take(i as int), remote_notes@),
                to_download@ == conflict_downloads(local_notes@.take(i as int), remote_notes@),
            decreases local_len - i,
        {
            let ghost pre = local_notes@.take(i as int);
            proof {
                assert(local_notes@.take(i + 1).drop_last() =~= pre);
                assert(local_notes@.take(i + 1).last() == local_notes@[i as int]);
            }
            let local = &local_notes[i];
            match lookup_last(remote_notes, local.id) {
                Some(j) => {
                    if local.updated_at > remote_notes[j].updated_at {
                        to_upload.push(local.id);
                    } else if remote_notes[j].updated_at > local.updated_at {
                        to_download.push(local.id);
                    }
                },
                None => {
                    to_upload.push(local.id);
                },
            }
            i += 1;
        }
        proof {
            assert(local_notes@.take(local_len as int) =~= local_notes@);
        }
        let remote_len = remote_notes.len();
        let mut k: usize = 0;
        while k < remote_len
            invariant
                remote_len == remote_notes@.len(),
                0 <= k <= remote_len,
                to_upload@ == uploads(local_notes@, remote_notes@),
                to_download@ == conflict_downloads(local_notes@, remote_notes@) + fresh_downloads(
                    local_notes@,
                    remote_notes@.take(k as int),
                ),
            decreases remote_len - k,
        {
            proof {
                assert(remote_notes@.take(k + 1).drop_last() =~= remote_notes@.take(k as int));
                assert(remote_notes@.take(k + 1).last() == remote_notes@[k as int]);
            }
            if !contains_id(local_notes, remote_notes[k].id) {
                to_download.push(remote_notes[k].id);
            }
            k += 1;
        }
        proof {
            assert(remote_notes@.take(remote_len as int) =~= remote_notes@);
        }
        (to_upload, to_download)
    }
}

} // verus!
