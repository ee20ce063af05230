//! The sharing engine: grant, revoke and list, gated by ownership and by the
//! file's upload lifecycle.
use vstd::prelude::*;

use crate::identity::Identity;
use crate::model::{is_uploaded, FileContent, FileSharingResponse, MetadataView, PublicFileMetadata};
use crate::state::{shared_index, unshared_index, with_id, without_id, State};

verus! {

/// The answer that the file's lifecycle alone gives: success for an uploaded
/// file, a pending error otherwise.
pub open spec fn lifecycle_outcome(st: State, f: u64) -> FileSharingResponse {
    match st.file_of(f) {
        Some(v) => if is_uploaded(v.1) {
            FileSharingResponse::Success
        } else {
            FileSharingResponse::PendingError
        },
        None => FileSharingResponse::PendingError,
    }
}

/// What a grant by `caller` of `f` answers.
pub open spec fn grant_outcome(st: State, caller: Seq<u8>, f: u64) -> FileSharingResponse {
    if !st.owns(caller, f) {
        FileSharingResponse::PermissionError
    } else {
        lifecycle_outcome(st, f)
    }
}

/// What a revoke by `caller` of `f` from `recipient` answers.
pub open spec fn revoke_outcome(
    st: State,
    caller: Seq<u8>,
    recipient: Seq<u8>,
    f: u64,
) -> FileSharingResponse {
    if !st.owns(caller, f) {
        FileSharingResponse::PermissionError
    } else if st.shares_of(recipient) is None {
        FileSharingResponse::PermissionError
    } else {
        lifecycle_outcome(st, f)
    }
}

/// The files shared with a recipient after `f` is granted to it.
pub open spec fn after_grant(prior: Option<Seq<u64>>, f: u64) -> Seq<u64> {
    match prior {
        Some(ids) => with_id(ids, f),
        None => seq![f],
    }
}

/// How a grant by `caller` of `f` to `recipient` takes `before` to `after`.
/// Unless it succeeds nothing changes. When it succeeds, the recipient's
/// shares gain `f` (once), no other recipient's shares change, and no other
/// part of the state changes.
pub open spec fn grant_effect(
    before: State,
    after: State,
    caller: Seq<u8>,
    recipient: Seq<u8>,
    f: u64,
) -> bool {
    if grant_outcome(before, caller, f) != FileSharingResponse::Success {
        after == before
    } else {
        &&& after.share_list() == shared_index(before.share_list(), recipient, f)
        &&& after.shares_of(recipient) == Some(after_grant(before.shares_of(recipient), f))
        &&& forall|k: Seq<u8>| k != recipient ==> #[trigger] after.shares_of(k) == before.shares_of(k)
        &&& after.next_id() == before.next_id()
        &&& after.user_list() == before.user_list()
        &&& after.file_list() == before.file_list()
        &&& after.owner_list() == before.owner_list()
        &&& after.group_list() == before.group_list()
        &&& after.alias_list() == before.alias_list()
    }
}

/// How a revoke by `caller` of `f` from `recipient` takes `before` to
/// `after`. On a permission error nothing changes. Otherwise `f` leaves the
/// recipient's shares, whatever the file's lifecycle, and nothing else
/// changes.
pub open spec fn revoke_effect(
    before: State,
    after: State,
    caller: Seq<u8>,
    recipient: Seq<u8>,
    f: u64,
) -> bool {
    if revoke_outcome(before, caller, recipient, f) == FileSharingResponse::PermissionError {
        after == before
    } else {
        &&& after.share_list() == unshared_index(before.share_list(), recipient, f)
        &&& after.shares_of(recipient) == Some(without_id(before.shares_of(recipient)->Some_0, f))
        &&& forall|k: Seq<u8>| k != recipient ==> #[trigger] after.shares_of(k) == before.shares_of(k)
        &&& after.next_id() == before.next_id()
        &&& after.user_list() == before.user_list()
        &&& after.file_list() == before.file_list()
        &&& after.owner_list() == before.owner_list()
        &&& after.group_list() == before.group_list()
        &&& after.alias_list() == before.alias_list()
    }
}

/// In a well-formed state every owned file is in the file store.
pub proof fn lemma_owned_file_exists(st: State, who: Seq<u8>, f: u64)
    requires
        st.wf(),
        st.owns(who, f),
    ensures
        st.file_of(f) is Some,
{
    let s = st.owner_list();
    let i = choose|i: int| 0 <= i < s.len() && #[trigger] s[i].0 == who;
    let ids = s[i].1;
    let j = choose|j: int| 0 <= j < ids.len() && ids[j] == f;
    assert(st.owner_list()[i].1[j] == f);
}

/// In a well-formed state every file shared with anyone is in the file store.
pub proof fn lemma_shared_file_exists(st: State, who: Seq<u8>, k: int)
    requires
        st.wf(),
        st.shares_of(who) is Some,
        0 <= k < st.shares_of(who)->Some_0.len(),
    ensures
        st.file_of(st.shares_of(who)->Some_0[k]) is Some,
{
    let s = st.share_list();
    let i = choose|i: int| 0 <= i < s.len() && #[trigger] s[i].0 == who;
    assert(st.share_list()[i].1[k] == st.shares_of(who)->Some_0[k]);
}

/// How file `f` is presented to a recipient: its id and name, the name and
/// alias of the first group that holds it, the identities it is shared with,
/// and its lifecycle state.
pub open spec fn metadata_of(st: State, f: u64) -> MetadataView {
    let v = st.file_of(f)->Some_0;
    MetadataView {
        file_id: f,
        file_name: v.0,
        group_name: st.group_name_of(f),
        group_alias: st.group_alias_of(f),
        shared_with: st.allowed_users_of(f),
        file_status: v.1,
    }
}

/// What `who` sees: one record for each file shared with it, in the order
/// of its share list; nothing if it has no share record.
pub open spec fn listing(st: State, who: Seq<u8>) -> Seq<MetadataView> {
    match st.shares_of(who) {
        Some(ids) => ids.map_values(|f: u64| metadata_of(st, f)),
        None => seq![],
    }
}

/// Whether `user` may grant or revoke access to `file_id`: it must be a
/// recorded owner of the file.
pub fn can_share(state: &State, user: &Identity, file_id: u64) -> (r: bool)
    requires
        state.wf(),
    ensures
        r == state.owns(user@, file_id),
{
    state.owns_file(user, file_id)
}

/// Grants `sharing_with` access to `file_id` on behalf of `caller`.
///
/// A caller who does not own the file gets a permission error; a file that
/// is not fully uploaded gives a pending error. Either way nothing changes.
/// Otherwise the file joins the recipient's shares, once: granting twice is
/// no error and adds nothing.
pub fn share_file(
    state: &mut State,
    caller: Identity,
    sharing_with: Identity,
    file_id: u64,
) -> (r: FileSharingResponse)
    requires
        old(state).wf(),
    ensures
        final(state).wf(),
        r == grant_outcome(*old(state), caller@, file_id),
        grant_effect(*old(state), *final(state), caller@, sharing_with@, file_id),
{
    if !can_share(state, &caller, file_id) {
        FileSharingResponse::PermissionError
    } else {
        proof {
            lemma_owned_file_exists(*state, caller@, file_id);
        }
        match state.content(file_id) {
            Some(FileContent::Uploaded { .. }) => {
                state.add_share(&sharing_with, file_id);
                FileSharingResponse::Success
            },
            _ => FileSharingResponse::PendingError,
        }
    }
}

/// Revokes `sharing_with`'s access to `file_id` on behalf of `caller`.
///
/// A caller who does not own the file, or a recipient with no share record
/// at all, gives a permission error and changes nothing. Otherwise the file
/// leaves the recipient's shares (if it was not there, nothing changes), and
/// the answer reflects the file's lifecycle: success for an uploaded file, a
/// pending error otherwise.
pub fn revoke_share(
    state: &mut State,
    caller: Identity,
    sharing_with: Identity,
    file_id: u64,
) -> (r: FileSharingResponse)
    requires
        old(state).wf(),
    ensures
        final(state).wf(),
        r == revoke_outcome(*old(state), caller@, sharing_with@, file_id),
        revoke_effect(*old(state), *final(state), caller@, sharing_with@, file_id),
{
    if !can_share(state, &caller, file_id) {
        return FileSharingResponse::PermissionError;
    }
    proof {
        lemma_owned_file_exists(*state, caller@, file_id);
    }
    if !state.remove_share(&sharing_with, file_id) {
        return FileSharingResponse::PermissionError;
    }
    match state.content(file_id) {
        Some(FileContent::Uploaded { .. }) => FileSharingResponse::Success,
        _ => FileSharingResponse::PendingError,
    }
}

/// The files shared with `caller`, each with its presentation record, in the
/// order they were shared. Reads only.
pub fn get_shared_files(state: &State, caller: Identity) -> (r: Vec<PublicFileMetadata>)
    requires
        state.wf(),
    ensures
        r@.map_values(|m: PublicFileMetadata| m@) == listing(*state, caller@),
{
    let mut out: Vec<PublicFileMetadata> = Vec::new();
    match state.shared_ids(&caller) {
        None => {
            assert(out@.map_values(|m: PublicFileMetadata| m@) =~= Seq::<MetadataView>::empty());
            out
        },
        Some(ids) => {
            let ghost want = listing(*state, caller@);
            let mut i: usize = 0;
            while i < ids.len()
                invariant
                    state.wf(),
                    state.shares_of(caller@) == Some(ids@),
                    want == ids@.map_values(|f: u64| metadata_of(*state, f)),
                    i <= ids@.len(),
                    out@.map_values(|m: PublicFileMetadata| m@) == want.subrange(0, i as int),
                decreases ids@.len() - i,
            {
                let f = ids[i];
                proof {
                    lemma_shared_file_exists(*state, caller@, i as int);
                }
                let file_name = state.file_name(f).unwrap();
                let file_status = state.content(f).unwrap();
                let m = PublicFileMetadata {
                    file_id: f,
                    file_name,
                    group_name: state.group_name_for(f),
                    group_alias: state.group_alias_for(f),
                    shared_with: state.allowed_users(f),
                    file_status,
                };
                let ghost before = out@.map_values(|m: PublicFileMetadata| m@);
                out.push(m);
                proof {
                    assert(m@ == metadata_of(*state, f));
                    assert(out@.map_values(|m: PublicFileMetadata| m@) =~= before.push(m@));
                    assert(want.subrange(0, i + 1) =~= want.subrange(0, i as int).push(want[i as int]));
                }
                i = i + 1;
            }
            assert(want.subrange(0, i as int) =~= want);
            out
        },
    }
}

} // verus!
