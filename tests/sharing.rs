use file_sharing::identity::Identity;
use file_sharing::model::{FileContent, FileSharingResponse, PublicFileMetadata, PublicUser, User};
use file_sharing::sharing::{can_share, get_shared_files, revoke_share, share_file};
use file_sharing::state::State;

const UPLOADED_AT: u64 = 1_700_000_000;

fn owner() -> Identity {
    // the bytes of the anonymous principal
    Identity::from_slice(&[4])
}

fn recipient() -> Identity {
    Identity::from_slice(&[0, 1, 2])
}

fn john() -> User {
    User {
        username: "John".to_string(),
        public_key: vec![1, 2, 3],
    }
}

fn uploaded() -> FileContent {
    FileContent::Uploaded {
        uploaded_at: UPLOADED_AT,
    }
}

/// Four requested files (ids 0 to 3) owned by `owner()`, each in a group
/// `groupN` with alias `group_aliasN`, N = id + 1.
fn four_requests(state: &mut State) {
    let names = ["request", "request2", "request3", "request4"];
    for (i, name) in names.iter().enumerate() {
        let id = state.request_file(&owner(), name.to_string());
        assert_eq!(id, i as u64);
        let gid = id + 1;
        state.add_group(gid, format!("group{}", gid), vec![id]);
        state.add_group_alias(format!("group_alias{}", gid), gid);
    }
}

fn shown(file_id: u64, file_name: &str, group: u64, shared_with: Vec<PublicUser>) -> PublicFileMetadata {
    PublicFileMetadata {
        file_id,
        file_name: file_name.to_string(),
        group_name: format!("group{}", group),
        group_alias: Some(format!("group_alias{}", group)),
        shared_with,
        file_status: uploaded(),
    }
}

fn john_at(bytes: &[u8]) -> PublicUser {
    PublicUser {
        username: "John".to_string(),
        public_key: vec![1, 2, 3],
        ic_principal: Identity::from_slice(bytes),
    }
}

#[test]
fn share_files_test() {
    let mut state = State::new();
    state.set_user_info(&owner(), john());
    state.set_user_info(&recipient(), john());
    four_requests(&mut state);

    assert!(state.set_file_content(0, uploaded()));
    share_file(&mut state, owner(), recipient(), 0);
    assert!(state.set_file_content(2, uploaded()));
    share_file(&mut state, owner(), recipient(), 2);

    assert_eq!(
        get_shared_files(&state, recipient()),
        vec![
            shown(0, "request", 1, vec![john_at(&[0, 1, 2])]),
            shown(2, "request3", 3, vec![john_at(&[0, 1, 2])]),
        ]
    );
}

#[test]
fn share_files_allowed() {
    let mut state = State::new();
    state.set_user_info(&owner(), john());
    state.request_file(&owner(), "request".to_string());
    state.request_file(&owner(), "request2".to_string());

    assert_eq!(
        share_file(&mut state, owner(), recipient(), 2),
        FileSharingResponse::PermissionError
    );
}

#[test]
fn revoke_files_test() {
    let mut state = State::new();
    state.set_user_info(&owner(), john());
    state.set_user_info(&recipient(), john());
    four_requests(&mut state);

    assert!(state.set_file_content(0, uploaded()));
    share_file(&mut state, owner(), recipient(), 0);
    assert!(state.set_file_content(2, uploaded()));
    share_file(&mut state, owner(), recipient(), 2);

    revoke_share(&mut state, owner(), recipient(), 0);

    assert_eq!(
        get_shared_files(&state, recipient()),
        vec![shown(2, "request3", 3, vec![john_at(&[0, 1, 2])])]
    );
}

#[test]
fn revoke_share_allowed() {
    let mut state = State::new();
    state.set_user_info(&owner(), john());
    state.request_file(&owner(), "request".to_string());
    state.request_file(&owner(), "request2".to_string());

    assert_eq!(
        revoke_share(&mut state, owner(), recipient(), 2),
        FileSharingResponse::PermissionError
    );
}

#[test]
fn revoke_not_shared_file() {
    let mut state = State::new();
    state.set_user_info(&owner(), john());
    state.request_file(&owner(), "request".to_string());
    state.request_file(&owner(), "request2".to_string());

    share_file(&mut state, owner(), recipient(), 0);

    assert_eq!(
        revoke_share(&mut state, owner(), Identity::from_slice(&[0, 1, 3]), 0),
        FileSharingResponse::PermissionError
    );
}

/// One uploaded file (id 0) owned by `owner()`, with both parties registered.
fn one_uploaded() -> State {
    let mut state = State::new();
    state.set_user_info(&owner(), john());
    state.set_user_info(&recipient(), john());
    four_requests(&mut state);
    assert!(state.set_file_content(0, uploaded()));
    state
}

#[test]
fn granting_twice_keeps_one_copy() {
    let mut state = one_uploaded();
    assert_eq!(share_file(&mut state, owner(), recipient(), 0), FileSharingResponse::Success);
    assert_eq!(share_file(&mut state, owner(), recipient(), 0), FileSharingResponse::Success);
    assert_eq!(state.shared_ids(&recipient()), Some(vec![0]));
    assert_eq!(get_shared_files(&state, recipient()).len(), 1);
}

#[test]
fn non_owner_can_neither_grant_nor_revoke() {
    let mut state = one_uploaded();
    let stranger = Identity::from_slice(&[9, 9]);
    assert!(!can_share(&state, &stranger, 0));
    assert!(can_share(&state, &owner(), 0));
    assert_eq!(share_file(&mut state, owner(), recipient(), 0), FileSharingResponse::Success);
    assert_eq!(
        share_file(&mut state, stranger.duplicate(), recipient(), 0),
        FileSharingResponse::PermissionError
    );
    assert_eq!(
        revoke_share(&mut state, stranger.duplicate(), recipient(), 0),
        FileSharingResponse::PermissionError
    );
    // a pending file is refused to a stranger on ownership, not on lifecycle
    assert_eq!(
        share_file(&mut state, stranger, recipient(), 1),
        FileSharingResponse::PermissionError
    );
    assert_eq!(state.shared_ids(&recipient()), Some(vec![0]));
}

#[test]
fn pending_file_cannot_be_shared() {
    let mut state = one_uploaded();
    assert_eq!(share_file(&mut state, owner(), recipient(), 1), FileSharingResponse::PendingError);
    assert_eq!(state.shared_ids(&recipient()), None);
    assert!(state.set_file_content(3, FileContent::PartiallyUploaded));
    assert_eq!(share_file(&mut state, owner(), recipient(), 3), FileSharingResponse::PendingError);
    assert_eq!(state.shared_ids(&recipient()), None);
}

#[test]
fn revoke_of_pending_file_reports_pending_after_removal() {
    let mut state = one_uploaded();
    assert_eq!(share_file(&mut state, owner(), recipient(), 0), FileSharingResponse::Success);
    assert!(state.set_file_content(0, FileContent::PartiallyUploaded));
    assert_eq!(revoke_share(&mut state, owner(), recipient(), 0), FileSharingResponse::PendingError);
    assert_eq!(state.shared_ids(&recipient()), Some(vec![]));
}

#[test]
fn revoke_from_recipient_without_record() {
    let mut state = one_uploaded();
    assert_eq!(revoke_share(&mut state, owner(), recipient(), 0), FileSharingResponse::PermissionError);
    assert_eq!(state.shared_ids(&recipient()), None);
}

#[test]
fn revoke_of_unheld_file_is_a_no_op() {
    let mut state = one_uploaded();
    assert!(state.set_file_content(2, uploaded()));
    assert_eq!(share_file(&mut state, owner(), recipient(), 0), FileSharingResponse::Success);
    assert_eq!(revoke_share(&mut state, owner(), recipient(), 2), FileSharingResponse::Success);
    assert_eq!(state.shared_ids(&recipient()), Some(vec![0]));
    // pending and not held: nothing removed, the answer follows the lifecycle
    assert_eq!(revoke_share(&mut state, owner(), recipient(), 1), FileSharingResponse::PendingError);
    assert_eq!(state.shared_ids(&recipient()), Some(vec![0]));
}

#[test]
fn grant_then_revoke_round_trip() {
    let mut state = one_uploaded();
    assert_eq!(share_file(&mut state, owner(), recipient(), 0), FileSharingResponse::Success);
    let listed = get_shared_files(&state, recipient());
    assert!(listed.iter().any(|m| m.file_id == 0));
    assert_eq!(revoke_share(&mut state, owner(), recipient(), 0), FileSharingResponse::Success);
    let listed = get_shared_files(&state, recipient());
    assert!(listed.iter().all(|m| m.file_id != 0));
    assert!(listed.is_empty());
}

#[test]
fn stranger_share_changes_no_listing() {
    let mut state = one_uploaded();
    assert!(state.set_file_content(2, uploaded()));
    assert_eq!(share_file(&mut state, owner(), recipient(), 0), FileSharingResponse::Success);
    let before_recipient = get_shared_files(&state, recipient());
    let stranger = Identity::from_slice(&[7]);
    assert_eq!(
        share_file(&mut state, stranger.duplicate(), recipient(), 2),
        FileSharingResponse::PermissionError
    );
    assert_eq!(
        share_file(&mut state, stranger.duplicate(), stranger.duplicate(), 2),
        FileSharingResponse::PermissionError
    );
    assert_eq!(get_shared_files(&state, recipient()), before_recipient);
    assert!(get_shared_files(&state, stranger).is_empty());
}

#[test]
fn listing_of_identity_without_shares_is_empty() {
    let state = one_uploaded();
    assert!(get_shared_files(&state, recipient()).is_empty());
}

#[test]
fn file_outside_any_group_has_empty_group_name_and_no_alias() {
    let mut state = State::new();
    let id = state.request_file(&owner(), "loose".to_string());
    assert!(state.set_file_content(id, uploaded()));
    // a group without an alias
    let other = state.request_file(&owner(), "grouped".to_string());
    assert!(state.set_file_content(other, uploaded()));
    state.add_group(40, "unaliased".to_string(), vec![other]);
    assert_eq!(share_file(&mut state, owner(), recipient(), id), FileSharingResponse::Success);
    assert_eq!(share_file(&mut state, owner(), recipient(), other), FileSharingResponse::Success);
    let listed = get_shared_files(&state, recipient());
    assert_eq!(listed.len(), 2);
    assert_eq!(listed[0].group_name, "");
    assert_eq!(listed[0].group_alias, None);
    assert_eq!(listed[0].file_name, "loose");
    assert_eq!(listed[1].group_name, "unaliased");
    assert_eq!(listed[1].group_alias, None);
    // no recipient has a profile, so none is shown
    assert!(listed[0].shared_with.is_empty());
}

#[test]
fn first_matching_group_and_alias_win() {
    let mut state = one_uploaded();
    state.add_group(50, "second".to_string(), vec![0]);
    state.add_group_alias("later_alias1".to_string(), 1);
    assert_eq!(share_file(&mut state, owner(), recipient(), 0), FileSharingResponse::Success);
    let listed = get_shared_files(&state, recipient());
    assert_eq!(listed[0].group_name, "group1");
    assert_eq!(listed[0].group_alias, Some("group_alias1".to_string()));
}

#[test]
fn shared_with_lists_every_registered_recipient_in_order() {
    let mut state = one_uploaded();
    let third = Identity::from_slice(&[3, 3]);
    let unregistered = Identity::from_slice(&[5]);
    state.set_user_info(
        &third,
        User {
            username: "Ann".to_string(),
            public_key: vec![7],
        },
    );
    assert_eq!(share_file(&mut state, owner(), third.duplicate(), 0), FileSharingResponse::Success);
    assert_eq!(share_file(&mut state, owner(), unregistered, 0), FileSharingResponse::Success);
    assert_eq!(share_file(&mut state, owner(), recipient(), 0), FileSharingResponse::Success);
    let users = state.allowed_users(0);
    assert_eq!(
        users,
        vec![
            PublicUser {
                username: "Ann".to_string(),
                public_key: vec![7],
                ic_principal: third,
            },
            john_at(&[0, 1, 2]),
        ]
    );
    assert_eq!(get_shared_files(&state, recipient())[0].shared_with, users);
}

#[test]
fn profile_update_replaces_earlier_one() {
    let mut state = one_uploaded();
    state.set_user_info(
        &recipient(),
        User {
            username: "Jo".to_string(),
            public_key: vec![8, 8],
        },
    );
    assert_eq!(share_file(&mut state, owner(), recipient(), 0), FileSharingResponse::Success);
    assert_eq!(
        state.allowed_users(0),
        vec![PublicUser {
            username: "Jo".to_string(),
            public_key: vec![8, 8],
            ic_principal: recipient(),
        }]
    );
}

#[test]
fn lookups_on_the_store() {
    let state = one_uploaded();
    assert_eq!(state.content(0), Some(uploaded()));
    assert_eq!(state.content(1), Some(FileContent::Pending));
    assert_eq!(state.content(99), None);
    assert_eq!(state.file_name(2), Some("request3".to_string()));
    assert_eq!(state.file_name(99), None);
    assert_eq!(state.group_name_for(3), "group4");
    assert_eq!(state.group_alias_for(3), Some("group_alias4".to_string()));
    assert_eq!(state.group_name_for(99), "");
    assert!(!state.owns_file(&recipient(), 0));
}

#[test]
fn identities_compare_by_bytes() {
    let a = Identity::from_slice(&[1, 2, 3]);
    assert!(a.same_as(&a.duplicate()));
    assert!(!a.same_as(&Identity::from_slice(&[1, 2])));
    assert!(!a.same_as(&Identity::from_slice(&[1, 2, 4])));
    assert_eq!(a.duplicate().bytes, vec![1, 2, 3]);
}

#[test]
fn setting_content_of_missing_file_fails() {
    let mut state = State::new();
    assert!(!state.set_file_content(0, uploaded()));
    assert_eq!(state.request_file(&owner(), "x".to_string()), 0);
    assert_eq!(state.request_file(&owner(), "y".to_string()), 1);
    assert!(state.set_file_content(1, uploaded()));
}
