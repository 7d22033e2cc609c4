use vstd::prelude::*;
use crate::command::CommandView;
use crate::dispatch::{response_of, store_after};
use crate::response::ResponseView;

verus! {

/// Round-trip: against any store contents, a `SET` of `(key, value)`
/// followed by a `GET` of the same key answers exactly `value`, byte
/// for byte — for every pair of byte strings, the empty ones and those
/// holding `\r`, `\n` or NUL included.
pub proof fn lemma_set_get_round_trip(pre: Map<Seq<u8>, Seq<u8>>, key: Seq<u8>, value: Seq<u8>)
    ensures
        response_of(
            store_after(pre, (CommandView::Put { key, value })),
            (CommandView::Get { key }),
        ) == ResponseView::BulkString(value),
{
}

/// Idempotent delete: `DEL` of an absent key answers `0` and leaves the
/// store exactly as it was; `DEL` twice on the same key answers `1`
/// then `0` when the key was present, `0` both times when it was not.
pub proof fn lemma_idempotent_delete(pre: Map<Seq<u8>, Seq<u8>>, key: Seq<u8>)
    ensures
        !pre.contains_key(key) ==> response_of(pre, (CommandView::Del { key }))
            == ResponseView::Integer(0),
        !pre.contains_key(key) ==> store_after(pre, (CommandView::Del { key })) == pre,
        pre.contains_key(key) ==> response_of(pre, (CommandView::Del { key }))
            == ResponseView::Integer(1),
        response_of(
            store_after(pre, (CommandView::Del { key })),
            (CommandView::Del { key }),
        ) == ResponseView::Integer(0),
{
    if !pre.contains_key(key) {
        assert(pre.remove(key) =~= pre);
    }
}

/// Whether a command mutates the entry at `key`: only a `SET` or a
/// `DEL` of that very key does.
pub open spec fn mutates_key(cmd: CommandView, key: Seq<u8>) -> bool {
    match cmd {
        CommandView::Put { key: k, .. } => k == key,
        CommandView::Del { key: k } => k == key,
        _ => false,
    }
}

/// The store contents after a whole run of commands, applied in order.
pub open spec fn store_after_all(
    pre: Map<Seq<u8>, Seq<u8>>,
    cmds: Seq<CommandView>,
) -> Map<Seq<u8>, Seq<u8>>
    decreases cmds.len(),
{
    if cmds.len() == 0 {
        pre
    } else {
        store_after_all(store_after(pre, cmds[0]), cmds.skip(1))
    }
}

/// A run of commands none of which mutates `key` leaves that key's
/// presence (and value) exactly as it was.
pub proof fn lemma_untouched_key(pre: Map<Seq<u8>, Seq<u8>>, cmds: Seq<CommandView>, key: Seq<u8>)
    requires
        forall|j: int| 0 <= j < cmds.len() ==> !mutates_key(cmds[j], key),
    ensures
        store_after_all(pre, cmds).contains_key(key) == pre.contains_key(key),
        store_after_all(pre, cmds).contains_key(key) ==> store_after_all(pre, cmds)[key]
            == pre[key],
    decreases cmds.len(),
{
    if cmds.len() > 0 {
        let m1 = store_after(pre, cmds[0]);
        assert(!mutates_key(cmds[0], key));
        assert(m1.contains_key(key) == pre.contains_key(key));
        assert(m1.contains_key(key) ==> m1[key] == pre[key]);
        assert(forall|j: int| 0 <= j < cmds.skip(1).len() ==> !mutates_key(
            #[trigger] cmds.skip(1)[j],
            key,
        )) by {
            assert(forall|j: int| 0 <= j < cmds.skip(1).len() ==> cmds.skip(1)[j] == cmds[j + 1]);
        }
        lemma_untouched_key(m1, cmds.skip(1), key);
    }
}

/// Existence consistency: after any run of commands, the key is present
/// — and `EXISTS` answers `1` — exactly when the most recent command
/// mutating it was a `SET`; after a most recent `DEL`, it is absent and
/// `EXISTS` answers `0`.
pub proof fn lemma_existence_consistency(
    pre: Map<Seq<u8>, Seq<u8>>,
    cmds: Seq<CommandView>,
    i: int,
    key: Seq<u8>,
)
    requires
        0 <= i < cmds.len(),
        mutates_key(cmds[i], key),
        forall|j: int| i < j < cmds.len() ==> !mutates_key(cmds[j], key),
    ensures
        store_after_all(pre, cmds).contains_key(key) == (cmds[i] is Put),
        response_of(store_after_all(pre, cmds), (CommandView::Exists { key }))
            == ResponseView::Integer(
            if cmds[i] is Put {
                1int
            } else {
                0int
            },
        ),
    decreases cmds.len(),
{
    let m1 = store_after(pre, cmds[0]);
    if i == 0 {
        assert(m1.contains_key(key) == (cmds[0] is Put));
        assert(forall|j: int| 0 <= j < cmds.skip(1).len() ==> !mutates_key(
            #[trigger] cmds.skip(1)[j],
            key,
        )) by {
            assert(forall|j: int| 0 <= j < cmds.skip(1).len() ==> cmds.skip(1)[j] == cmds[j + 1]);
        }
        lemma_untouched_key(m1, cmds.skip(1), key);
    } else {
        assert(cmds.skip(1)[i - 1] == cmds[i]);
        assert(forall|j: int| i - 1 < j < cmds.skip(1).len() ==> !mutates_key(
            #[trigger] cmds.skip(1)[j],
            key,
        )) by {
            assert(forall|j: int| 0 <= j < cmds.skip(1).len() ==> cmds.skip(1)[j] == cmds[j + 1]);
        }
        lemma_existence_consistency(m1, cmds.skip(1), i - 1, key);
    }
}

/// Independence of distinct keys: `SET`s on two different keys commute
/// — the store contents are the same whichever lands first — and each
/// key afterwards reads exactly its own written value. Concurrent
/// writers of distinct keys therefore cannot disturb one another, under
/// any interleaving order of their store operations.
pub proof fn lemma_distinct_keys_independent(
    pre: Map<Seq<u8>, Seq<u8>>,
    k1: Seq<u8>,
    v1: Seq<u8>,
    k2: Seq<u8>,
    v2: Seq<u8>,
)
    requires
        k1 != k2,
    ensures
        store_after(
            store_after(pre, (CommandView::Put { key: k1, value: v1 })),
            (CommandView::Put { key: k2, value: v2 }),
        ) == store_after(
            store_after(pre, (CommandView::Put { key: k2, value: v2 })),
            (CommandView::Put { key: k1, value: v1 }),
        ),
        response_of(
            store_after(
                store_after(pre, (CommandView::Put { key: k1, value: v1 })),
                (CommandView::Put { key: k2, value: v2 }),
            ),
            (CommandView::Get { key: k1 }),
        ) == ResponseView::BulkString(v1),
        response_of(
            store_after(
                store_after(pre, (CommandView::Put { key: k1, value: v1 })),
                (CommandView::Put { key: k2, value: v2 }),
            ),
            (CommandView::Get { key: k2 }),
        ) == ResponseView::BulkString(v2),
{
    assert(pre.insert(k1, v1).insert(k2, v2) =~= pre.insert(k2, v2).insert(k1, v1));
}

} // verus!
