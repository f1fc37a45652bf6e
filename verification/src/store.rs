//! The pending-task store format: an ordered list of tagged task records,
//! one record per task, each carrying a one-byte discriminator for its kind
//! followed by that kind's fields as little-endian words. A file that does
//! not decode in full is treated as corrupt by the loader.

use vstd::bytes::{spec_u64_from_le_bytes, spec_u64_to_le_bytes, u64_from_le_bytes, u64_to_le_bytes};
use vstd::bytes::lemma_auto_spec_u64_to_from_le_bytes;
use vstd::prelude::*;
use vstd::slice::{slice_index_get, slice_subrange};

use crate::task::{Task, TaskKind};

verus! {

/// The discriminator byte of an unmute record.
pub const TAG_UNMUTE: u8 = 1;

/// The byte length of one record: the tag plus four 8-byte fields.
pub const RECORD_LEN: usize = 33;

/// Why a store could not be read back.
#[derive(Clone, Copy, PartialEq, Eq, Structural, Debug)]
pub enum PersistenceError {
    /// The bytes end in the middle of a record.
    Truncated,
    /// A record starts with a discriminator of no known kind.
    UnknownTag,
}

/// The bytes of one task record.
pub open spec fn spec_encode_task(t: Task) -> Seq<u8> {
    match t.kind {
        TaskKind::Unmute { guild_id, user_id, role_id } => seq![TAG_UNMUTE]
            + spec_u64_to_le_bytes(t.due) + spec_u64_to_le_bytes(guild_id) + spec_u64_to_le_bytes(
            user_id,
        ) + spec_u64_to_le_bytes(role_id),
    }
}

/// The bytes of a whole store: the records in task order.
pub open spec fn spec_encode_tasks(s: Seq<Task>) -> Seq<u8>
    decreases s.len(),
{
    if s.len() == 0 {
        Seq::<u8>::empty()
    } else {
        spec_encode_task(s[0]) + spec_encode_tasks(s.drop_first())
    }
}

/// Reading a store back: the task list if every record decodes, otherwise
/// the first error met.
pub open spec fn spec_decode_tasks(b: Seq<u8>) -> Result<Seq<Task>, PersistenceError>
    decreases b.len(),
{
    if b.len() == 0 {
        Ok(Seq::<Task>::empty())
    } else if b.len() < RECORD_LEN {
        Err(PersistenceError::Truncated)
    } else if b[0] != TAG_UNMUTE {
        Err(PersistenceError::UnknownTag)
    } else {
        let t = Task {
            due: spec_u64_from_le_bytes(b.subrange(1, 9)),
            kind: TaskKind::Unmute {
                guild_id: spec_u64_from_le_bytes(b.subrange(9, 17)),
                user_id: spec_u64_from_le_bytes(b.subrange(17, 25)),
                role_id: spec_u64_from_le_bytes(b.subrange(25, 33)),
            },
        };
        match spec_decode_tasks(b.skip(RECORD_LEN as int)) {
            Ok(rest) => Ok(seq![t] + rest),
            Err(e) => Err(e),
        }
    }
}

/// One record is as long as the format says.
pub proof fn lemma_encode_task_len(t: Task)
    ensures
        spec_encode_task(t).len() == RECORD_LEN,
{
    lemma_auto_spec_u64_to_from_le_bytes();
}

/// Appending a task appends its record.
pub proof fn lemma_encode_snoc(s: Seq<Task>, t: Task)
    ensures
        spec_encode_tasks(s.push(t)) == spec_encode_tasks(s) + spec_encode_task(t),
    decreases s.len(),
{
    if s.len() == 0 {
        let one = s.push(t);
        assert(one[0] == t);
        assert(one.drop_first() =~= Seq::<Task>::empty());
        assert(spec_encode_tasks(one) == spec_encode_task(t) + spec_encode_tasks(
            Seq::<Task>::empty(),
        ));
        assert(spec_encode_tasks(Seq::<Task>::empty()) =~= Seq::<u8>::empty());
        assert(spec_encode_task(t) + Seq::<u8>::empty() =~= spec_encode_task(t));
        assert(spec_encode_tasks(s) + spec_encode_task(t) =~= spec_encode_task(t));
    } else {
        assert(s.push(t).drop_first() =~= s.drop_first().push(t));
        lemma_encode_snoc(s.drop_first(), t);
        assert(s.push(t)[0] == s[0]);
        assert(spec_encode_task(s[0]) + (spec_encode_tasks(s.drop_first()) + spec_encode_task(t))
            =~= (spec_encode_task(s[0]) + spec_encode_tasks(s.drop_first())) + spec_encode_task(t));
    }
}

/// Persistence round-trip: a store written from any task list reads back as
/// exactly that list, identities and due-times included.
pub proof fn lemma_store_round_trip(s: Seq<Task>)
    ensures
        spec_decode_tasks(spec_encode_tasks(s)) == Ok::<Seq<Task>, PersistenceError>(s),
    decreases s.len(),
{
    lemma_auto_spec_u64_to_from_le_bytes();
    if s.len() == 0 {
        assert(spec_encode_tasks(s).len() == 0);
        assert(spec_decode_tasks(spec_encode_tasks(s)) == Ok::<Seq<Task>, PersistenceError>(
            Seq::<Task>::empty(),
        ));
        assert(Seq::<Task>::empty() =~= s);
    } else {
        let t = s[0];
        let rec = spec_encode_task(t);
        let rest = spec_encode_tasks(s.drop_first());
        let b = spec_encode_tasks(s);
        lemma_encode_task_len(t);
        assert(b == rec + rest);
        match t.kind {
            TaskKind::Unmute { guild_id, user_id, role_id } => {
                assert(b[0] == TAG_UNMUTE);
                assert(b.subrange(1, 9) =~= spec_u64_to_le_bytes(t.due));
                assert(b.subrange(9, 17) =~= spec_u64_to_le_bytes(guild_id));
                assert(b.subrange(17, 25) =~= spec_u64_to_le_bytes(user_id));
                assert(b.subrange(25, 33) =~= spec_u64_to_le_bytes(role_id));
                assert(b.skip(RECORD_LEN as int) =~= rest);
                lemma_store_round_trip(s.drop_first());
                assert(seq![t] + s.drop_first() =~= s);
            },
        }
    }
}

/// Append the little-endian bytes of one word.
fn push_u64(out: &mut Vec<u8>, x: u64)
    ensures
        final(out)@ == old(out)@ + spec_u64_to_le_bytes(x),
{
    let mut b = u64_to_le_bytes(x);
    out.append(&mut b);
}

/// Write a task list as store bytes.
pub fn encode_tasks(tasks: &Vec<Task>) -> (out: Vec<u8>)
    ensures
        out@ == spec_encode_tasks(tasks@),
{
    let mut out: Vec<u8> = Vec::new();
    assert(out@ =~= spec_encode_tasks(tasks@.take(0)));
    let n = tasks.len();
    let mut i: usize = 0;
    while i < n
        invariant
            i <= n,
            n == tasks@.len(),
            out@ == spec_encode_tasks(tasks@.take(i as int)),
        decreases n - i,
    {
        let ghost pre_out = out@;
        let t = tasks[i];
        match t.kind {
            TaskKind::Unmute { guild_id, user_id, role_id } => {
                out.push(TAG_UNMUTE);
                push_u64(&mut out, t.due);
                push_u64(&mut out, guild_id);
                push_u64(&mut out, user_id);
                push_u64(&mut out, role_id);
            },
        }
        proof {
            let pre = tasks@.take(i as int);
            let post = tasks@.take(i + 1 as int);
            assert(post =~= pre.push(tasks@[i as int]));
            lemma_encode_snoc(pre, tasks@[i as int]);
            assert(out@ =~= pre_out + spec_encode_task(tasks@[i as int]));
        }
        i = i + 1;
    }
    proof {
        assert(tasks@.take(n as int) =~= tasks@);
    }
    out
}

/// Read store bytes back into a task list, or say why they are corrupt.
pub fn decode_tasks(bytes: &[u8]) -> (r: Result<Vec<Task>, PersistenceError>)
    ensures
        match r {
            Ok(ts) => spec_decode_tasks(bytes@) == Ok::<Seq<Task>, PersistenceError>(ts@),
            Err(e) => spec_decode_tasks(bytes@) == Err::<Seq<Task>, PersistenceError>(e),
        },
{
    let n = bytes.len();
    let mut out: Vec<Task> = Vec::new();
    let mut pos: usize = 0;
    proof {
        assert(bytes@.skip(0) =~= bytes@);
        let rec = spec_decode_tasks(bytes@);
        if rec is Ok {
            assert(out@ + rec->Ok_0 =~= rec->Ok_0);
        }
    }
    while pos < n
        invariant
            pos <= n,
            n == bytes@.len(),
            spec_decode_tasks(bytes@) == (match spec_decode_tasks(bytes@.skip(pos as int)) {
                Ok(rest) => Ok::<Seq<Task>, PersistenceError>(out@ + rest),
                Err(e) => Err::<Seq<Task>, PersistenceError>(e),
            }),
        decreases n - pos,
    {
        let ghost b = bytes@;
        let ghost p = pos as int;
        let ghost sk = b.skip(p);
        if n - pos < RECORD_LEN {
            proof {
                assert(0 < sk.len() < RECORD_LEN);
            }
            return Err(PersistenceError::Truncated);
        }
        let tag = *slice_index_get(bytes, pos);
        proof {
            assert(sk[0] == b[p]);
            assert(sk.len() >= RECORD_LEN);
        }
        if tag != TAG_UNMUTE {
            return Err(PersistenceError::UnknownTag);
        }
        let due = u64_from_le_bytes(slice_subrange(bytes, pos + 1, pos + 9));
        let guild_id = u64_from_le_bytes(slice_subrange(bytes, pos + 9, pos + 17));
        let user_id = u64_from_le_bytes(slice_subrange(bytes, pos + 17, pos + 25));
        let role_id = u64_from_le_bytes(slice_subrange(bytes, pos + 25, pos + 33));
        let t = Task { due, kind: TaskKind::Unmute { guild_id, user_id, role_id } };
        proof {
            assert(sk.subrange(1, 9) =~= b.subrange(p + 1, p + 9));
            assert(sk.subrange(9, 17) =~= b.subrange(p + 9, p + 17));
            assert(sk.subrange(17, 25) =~= b.subrange(p + 17, p + 25));
            assert(sk.subrange(25, 33) =~= b.subrange(p + 25, p + 33));
            assert(sk.skip(RECORD_LEN as int) =~= b.skip(p + RECORD_LEN));
            let rec = spec_decode_tasks(b.skip(p + RECORD_LEN));
            if rec is Ok {
                let rest = rec->Ok_0;
                assert(out@ + (seq![t] + rest) =~= out@.push(t) + rest);
            }
        }
        out.push(t);
        pos = pos + RECORD_LEN;
    }
    proof {
        assert(bytes@.skip(pos as int).len() == 0);
        assert(out@ + Seq::<Task>::empty() =~= out@);
    }
    Ok(out)
}

} // verus!
