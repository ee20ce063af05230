//! Properties that relate the sharing operations to each other, proved over
//! the effects that their contracts state.
use vstd::prelude::*;

use crate::model::{FileContent, FileSharingResponse};
use crate::sharing::{
    grant_effect, grant_outcome, lemma_owned_file_exists, listing, revoke_effect, revoke_outcome,
};
use crate::state::{with_id, without_id, State};

verus! {

/// Granting the same file to the same recipient twice in a row succeeds both
/// times, and the recipient then holds the file exactly once: present, with
/// no repeats in its share list, and unchanged by the second grant.
pub proof fn law_grant_idempotent(
    s0: State,
    s1: State,
    s2: State,
    caller: Seq<u8>,
    recipient: Seq<u8>,
    f: u64,
)
    requires
        s0.wf(),
        s1.wf(),
        s2.wf(),
        grant_outcome(s0, caller, f) == FileSharingResponse::Success,
        grant_effect(s0, s1, caller, recipient, f),
        grant_effect(s1, s2, caller, recipient, f),
    ensures
        grant_outcome(s1, caller, f) == FileSharingResponse::Success,
        s2.shares_of(recipient) == s1.shares_of(recipient),
        s2.shares_of(recipient) is Some,
        s2.shares_of(recipient)->Some_0.contains(f),
        s2.shares_of(recipient)->Some_0.no_duplicates(),
{
    broadcast use vstd::seq_lib::lemma_seq_contains_after_push;

    let ids1 = s1.shares_of(recipient)->Some_0;
    match s0.shares_of(recipient) {
        Some(ids) => {
            assert(ids1 == with_id(ids, f));
        },
        None => {
            assert(seq![f] == Seq::<u64>::empty().push(f));
        },
    }
    assert(ids1.contains(f));
    assert(with_id(ids1, f) == ids1);
    let s = s2.share_list();
    let i = choose|i: int| 0 <= i < s.len() && #[trigger] s[i].0 == recipient;
}

/// A caller who is not a recorded owner of a file can neither grant nor
/// revoke access to it, whatever the file's lifecycle state, and the attempt
/// changes nothing.
pub proof fn law_only_owners_share(
    s0: State,
    s1: State,
    caller: Seq<u8>,
    recipient: Seq<u8>,
    f: u64,
)
    requires
        s0.wf(),
        !s0.owns(caller, f),
    ensures
        grant_outcome(s0, caller, f) == FileSharingResponse::PermissionError,
        revoke_outcome(s0, caller, recipient, f) == FileSharingResponse::PermissionError,
        grant_effect(s0, s1, caller, recipient, f) ==> s1 == s0,
        revoke_effect(s0, s1, caller, recipient, f) ==> s1 == s0,
{
}

/// An owned file that has not finished uploading cannot be shared: a grant
/// answers with a pending error and changes nothing. A revoke from a
/// recipient that has a share record also answers with a pending error.
pub proof fn law_pending_files_are_gated(
    s0: State,
    s1: State,
    caller: Seq<u8>,
    recipient: Seq<u8>,
    f: u64,
)
    requires
        s0.wf(),
        s0.owns(caller, f),
        s0.file_of(f) is Some,
        s0.file_of(f)->Some_0.1 == FileContent::Pending || s0.file_of(f)->Some_0.1
            == FileContent::PartiallyUploaded,
    ensures
        grant_outcome(s0, caller, f) == FileSharingResponse::PendingError,
        grant_effect(s0, s1, caller, recipient, f) ==> s1 == s0,
        s0.shares_of(recipient) is Some ==> revoke_outcome(s0, caller, recipient, f)
            == FileSharingResponse::PendingError,
{
}

/// Revoking from a recipient with no share record at all is a permission
/// error that changes nothing. Revoking a file that a recipient with a share
/// record does not hold changes nothing either, and answers as the file's
/// lifecycle dictates.
pub proof fn law_revoke_unshared(
    s0: State,
    s1: State,
    caller: Seq<u8>,
    recipient: Seq<u8>,
    f: u64,
)
    requires
        s0.wf(),
        s0.owns(caller, f),
        revoke_effect(s0, s1, caller, recipient, f),
        s0.shares_of(recipient) is Some ==> !s0.shares_of(recipient)->Some_0.contains(f),
    ensures
        s0.shares_of(recipient) is None ==> revoke_outcome(s0, caller, recipient, f)
            == FileSharingResponse::PermissionError && s1 == s0,
        s0.shares_of(recipient) is Some ==> {
            &&& forall|k: Seq<u8>| #[trigger] s1.shares_of(k) == s0.shares_of(k)
            &&& revoke_outcome(s0, caller, recipient, f) == if s0.file_of(f)->Some_0.1 is Uploaded {
                FileSharingResponse::Success
            } else {
                FileSharingResponse::PendingError
            }
        },
{
    lemma_owned_file_exists(s0, caller, f);
    if s0.shares_of(recipient) is Some {
        crate::state::lemma_without_id(s0.shares_of(recipient)->Some_0, f);
    }
}

/// After a successful grant the recipient's listing shows the file; after a
/// revoke that follows, it no longer does.
pub proof fn law_grant_then_revoke(
    s0: State,
    s1: State,
    s2: State,
    caller: Seq<u8>,
    recipient: Seq<u8>,
    f: u64,
)
    requires
        s0.wf(),
        s1.wf(),
        grant_outcome(s0, caller, f) == FileSharingResponse::Success,
        grant_effect(s0, s1, caller, recipient, f),
        revoke_effect(s1, s2, caller, recipient, f),
    ensures
        exists|k: int| 0 <= k < listing(s1, recipient).len() && (#[trigger] listing(s1, recipient)[k]).file_id == f,
        forall|k: int| 0 <= k < listing(s2, recipient).len() ==> (#[trigger] listing(s2, recipient)[k]).file_id != f,
{
    broadcast use vstd::seq_lib::lemma_seq_contains_after_push;

    let ids1 = s1.shares_of(recipient)->Some_0;
    match s0.shares_of(recipient) {
        Some(ids) => {
            assert(ids1 == with_id(ids, f));
        },
        None => {
            assert(seq![f] == Seq::<u64>::empty().push(f));
        },
    }
    assert(ids1.contains(f));
    let k = choose|k: int| 0 <= k < ids1.len() && ids1[k] == f;
    assert(listing(s1, recipient)[k].file_id == f);
    assert(s1.owns(caller, f));
    assert(revoke_outcome(s1, caller, recipient, f) != FileSharingResponse::PermissionError);
    let ids2 = without_id(ids1, f);
    crate::state::lemma_without_id(ids1, f);
    assert(s2.shares_of(recipient) == Some(ids2));
    assert forall|k: int| 0 <= k < listing(s2, recipient).len() implies (#[trigger] listing(s2, recipient)[k]).file_id != f by {
        assert(listing(s2, recipient)[k].file_id == ids2[k]);
    }
}

} // verus!
