//! The state that sharing reads and changes: users, files, owners, shares,
//! groups and aliases, each a flat list keyed by a stable id.
use vstd::prelude::*;
use vstd::pervasive::VecAdditionalExecFns;

use crate::assoc::{has_key, keys_unique, lemma_lookup_at, lemma_lookup_push, lemma_lookup_update, lookup};
use crate::identity::{copy_bytes, Identity};
use crate::model::{alias_view, FileContent, FileRecord, GroupRecord, PublicUser, PublicUserView, User};

verus! {

/// Mathematical form of a file record: its name and its lifecycle state.
pub type FileView = (Seq<char>, FileContent);

/// Mathematical form of a user profile: name and public key.
pub type UserView = (Seq<char>, Seq<u8>);

/// Mathematical form of a group: id, name and member files.
pub type GroupView = (u64, Seq<char>, Seq<u64>);

/// `ids` with `f` appended, unless it is already there.
pub open spec fn with_id(ids: Seq<u64>, f: u64) -> Seq<u64> {
    if ids.contains(f) {
        ids
    } else {
        ids.push(f)
    }
}

/// `ids` with every occurrence of `f` taken out, the rest in order.
pub open spec fn without_id(ids: Seq<u64>, f: u64) -> Seq<u64>
    decreases ids.len(),
{
    if ids.len() == 0 {
        ids
    } else if ids.last() == f {
        without_id(ids.drop_last(), f)
    } else {
        without_id(ids.drop_last(), f).push(ids.last())
    }
}

/// The share index after `f` is shared with `who`: the recipient's entry
/// gains `f` in place, or a new entry is appended for a new recipient.
pub open spec fn shared_index(s: Seq<(Seq<u8>, Seq<u64>)>, who: Seq<u8>, f: u64) -> Seq<
    (Seq<u8>, Seq<u64>),
> {
    if has_key(s, who) {
        let i = choose|i: int| 0 <= i < s.len() && #[trigger] s[i].0 == who;
        s.update(i, (who, with_id(s[i].1, f)))
    } else {
        s.push((who, seq![f]))
    }
}

/// The share index after `f` is unshared from `who`, who has an entry.
pub open spec fn unshared_index(s: Seq<(Seq<u8>, Seq<u64>)>, who: Seq<u8>, f: u64) -> Seq<
    (Seq<u8>, Seq<u64>),
> {
    let i = choose|i: int| 0 <= i < s.len() && #[trigger] s[i].0 == who;
    s.update(i, (who, without_id(s[i].1, f)))
}

pub proof fn lemma_without_id(ids: Seq<u64>, f: u64)
    ensures
        !without_id(ids, f).contains(f),
        forall|x: u64| x != f ==> (without_id(ids, f).contains(x) <==> ids.contains(x)),
        ids.no_duplicates() ==> without_id(ids, f).no_duplicates(),
        !ids.contains(f) ==> without_id(ids, f) == ids,
    decreases ids.len(),
{
    if ids.len() > 0 {
        let d = ids.drop_last();
        lemma_without_id(d, f);
        assert(ids == d.push(ids.last()));
        assert forall|x: u64| ids.contains(x) <==> (d.contains(x) || x == ids.last()) by {
            if ids.contains(x) {
                let k = choose|k: int| 0 <= k < ids.len() && ids[k] == x;
                if k < d.len() {
                    assert(d[k] == x);
                }
            }
            if d.contains(x) {
                let k = choose|k: int| 0 <= k < d.len() && d[k] == x;
                assert(ids[k] == x);
            }
            if x == ids.last() {
                assert(ids[ids.len() - 1] == x);
            }
        }
        let w = without_id(d, f);
        if ids.last() != f {
            assert forall|x: u64| w.push(ids.last()).contains(x) <==> (w.contains(x) || x
                == ids.last()) by {
                if w.push(ids.last()).contains(x) {
                    let k = choose|k: int| 0 <= k < w.len() + 1 && w.push(ids.last())[k] == x;
                    if k < w.len() {
                        assert(w[k] == x);
                    }
                }
                if w.contains(x) {
                    let k = choose|k: int| 0 <= k < w.len() && w[k] == x;
                    assert(w.push(ids.last())[k] == x);
                }
                if x == ids.last() {
                    assert(w.push(ids.last())[w.len() as int] == x);
                }
            }
            if ids.no_duplicates() {
                assert(d.no_duplicates());
                assert(!d.contains(ids.last())) by {
                    if d.contains(ids.last()) {
                        let k = choose|k: int| 0 <= k < d.len() && d[k] == ids.last();
                        assert(ids[k] == ids[ids.len() - 1]);
                    }
                }
            }
        } else {
            if ids.no_duplicates() {
                assert(d.no_duplicates());
            }
        }
    }
}

/// The first group, from position `i` on, whose files include `f`.
pub open spec fn first_group_from(gs: Seq<GroupView>, f: u64, i: int) -> Option<GroupView>
    decreases gs.len() - i,
{
    if i < 0 || i >= gs.len() {
        None
    } else if gs[i].2.contains(f) {
        Some(gs[i])
    } else {
        first_group_from(gs, f, i + 1)
    }
}

/// The first alias, from position `i` on, that names group `gid`.
pub open spec fn first_alias_from(aliases: Seq<(Seq<char>, u64)>, gid: u64, i: int) -> Option<
    Seq<char>,
>
    decreases aliases.len() - i,
{
    if i < 0 || i >= aliases.len() {
        None
    } else if aliases[i].1 == gid {
        Some(aliases[i].0)
    } else {
        first_alias_from(aliases, gid, i + 1)
    }
}

/// The recipients, from position `i` of the share index on, that hold `f`
/// and have a registered profile, each shown with that profile.
pub open spec fn allowed_from(
    shares: Seq<(Seq<u8>, Seq<u64>)>,
    users: Seq<(Seq<u8>, UserView)>,
    f: u64,
    i: int,
) -> Seq<PublicUserView>
    decreases shares.len() - i,
{
    if i < 0 || i >= shares.len() {
        seq![]
    } else {
        let rest = allowed_from(shares, users, f, i + 1);
        match lookup(users, shares[i].0) {
            Some(u) => if shares[i].1.contains(f) {
                seq![(u.0, u.1, shares[i].0)] + rest
            } else {
                rest
            },
            None => rest,
        }
    }
}

/// Everything the sharing operations consult or change.
pub struct State {
    file_count: u64,
    users: Vec<(Identity, User)>,
    file_data: Vec<(u64, FileRecord)>,
    file_owners: Vec<(Identity, Vec<u64>)>,
    file_shares: Vec<(Identity, Vec<u64>)>,
    request_groups: Vec<GroupRecord>,
    group_alias_index: Vec<(String, u64)>,
}

/// Finds the entry of `list` whose identity is `who`.
pub(crate) fn find_identity<V>(list: &Vec<(Identity, V)>, who: &Identity) -> (r: Option<usize>)
    ensures
        match r {
            Some(i) => i < list@.len() && list@[i as int].0@ == who@,
            None => forall|j: int| 0 <= j < list@.len() ==> list@[j].0@ != who@,
        },
{
    let mut i: usize = 0;
    while i < list.len()
        invariant
            i <= list@.len(),
            forall|j: int| 0 <= j < i ==> list@[j].0@ != who@,
        decreases list@.len() - i,
    {
        if list[i].0.same_as(who) {
            return Some(i);
        }
        i = i + 1;
    }
    None
}

/// Whether `f` is among `ids`.
pub(crate) fn contains_id(ids: &Vec<u64>, f: u64) -> (r: bool)
    ensures
        r == ids@.contains(f),
{
    let mut i: usize = 0;
    while i < ids.len()
        invariant
            i <= ids@.len(),
            forall|j: int| 0 <= j < i ==> ids@[j] != f,
        decreases ids@.len() - i,
    {
        if ids[i] == f {
            assert(ids@[i as int] == f);
            return true;
        }
        i = i + 1;
    }
    false
}

/// A fresh vector holding `ids`.
pub(crate) fn copy_ids(ids: &Vec<u64>) -> (r: Vec<u64>)
    ensures
        r@ == ids@,
{
    let mut v: Vec<u64> = Vec::new();
    let mut i: usize = 0;
    while i < ids.len()
        invariant
            i <= ids@.len(),
            v@ == ids@.subrange(0, i as int),
        decreases ids@.len() - i,
    {
        v.push(ids[i]);
        i = i + 1;
        assert(v@ =~= ids@.subrange(0, i as int));
    }
    assert(v@ =~= ids@);
    v
}

impl State {
    /// The id that the next requested file receives.
    pub closed spec fn next_id(&self) -> u64 {
        self.file_count
    }

    /// Registered users, in order of registration.
    pub closed spec fn user_list(&self) -> Seq<(Seq<u8>, UserView)> {
        self.users@.map_values(|e: (Identity, User)| (e.0@, (e.1.username@, e.1.public_key@)))
    }

    /// The file store, by id.
    pub closed spec fn file_list(&self) -> Seq<(u64, FileView)> {
        self.file_data@.map_values(|e: (u64, FileRecord)| (e.0, (e.1.file_name@, e.1.content)))
    }

    /// The ownership index: each owner with the files it owns.
    pub closed spec fn owner_list(&self) -> Seq<(Seq<u8>, Seq<u64>)> {
        self.file_owners@.map_values(|e: (Identity, Vec<u64>)| (e.0@, e.1@))
    }

    /// The share index: each recipient with the files shared with it, in the
    /// order the recipients first received a share.
    pub closed spec fn share_list(&self) -> Seq<(Seq<u8>, Seq<u64>)> {
        self.file_shares@.map_values(|e: (Identity, Vec<u64>)| (e.0@, e.1@))
    }

    /// The group registry, in order of registration.
    pub closed spec fn group_list(&self) -> Seq<GroupView> {
        self.request_groups@.map_values(|g: GroupRecord| (g.group_id, g.name@, g.files@))
    }

    /// The alias index: alias and group id pairs, in order of registration.
    pub closed spec fn alias_list(&self) -> Seq<(Seq<char>, u64)> {
        self.group_alias_index@.map_values(|e: (String, u64)| (e.0@, e.1))
    }

    /// The file with id `f`, if the store holds one.
    pub open spec fn file_of(&self, f: u64) -> Option<FileView> {
        lookup(self.file_list(), f)
    }

    /// `who` is recorded as an owner of `f`.
    pub open spec fn owns(&self, who: Seq<u8>, f: u64) -> bool {
        match lookup(self.owner_list(), who) {
            Some(ids) => ids.contains(f),
            None => false,
        }
    }

    /// The files shared with `who`, or `None` if `who` has no share record.
    pub open spec fn shares_of(&self, who: Seq<u8>) -> Option<Seq<u64>> {
        lookup(self.share_list(), who)
    }

    /// The profile registered for `who`.
    pub open spec fn profile_of(&self, who: Seq<u8>) -> Option<UserView> {
        lookup(self.user_list(), who)
    }

    /// The name of the first group that holds `f`, empty if none does.
    pub open spec fn group_name_of(&self, f: u64) -> Seq<char> {
        match first_group_from(self.group_list(), f, 0) {
            Some(g) => g.1,
            None => Seq::empty(),
        }
    }

    /// The first alias of the first group that holds `f`, if both exist.
    pub open spec fn group_alias_of(&self, f: u64) -> Option<Seq<char>> {
        match first_group_from(self.group_list(), f, 0) {
            Some(g) => first_alias_from(self.alias_list(), g.0, 0),
            None => None,
        }
    }

    /// The identities that `f` is shared with, in share-index order, each
    /// with its profile; a recipient without a profile is left out.
    pub open spec fn allowed_users_of(&self, f: u64) -> Seq<PublicUserView> {
        allowed_from(self.share_list(), self.user_list(), f, 0)
    }

    /// The invariant of the state: every index has distinct keys, every file
    /// id that the ownership or share index names is in the file store, no
    /// recipient holds a file twice, and every stored id was handed out.
    pub open spec fn wf(&self) -> bool {
        &&& keys_unique(self.user_list())
        &&& keys_unique(self.file_list())
        &&& keys_unique(self.owner_list())
        &&& keys_unique(self.share_list())
        &&& forall|i: int, j: int|
            0 <= i < self.owner_list().len() && 0 <= j < self.owner_list()[i].1.len() ==> has_key(
                self.file_list(),
                #[trigger] self.owner_list()[i].1[j],
            )
        &&& forall|i: int, j: int|
            0 <= i < self.share_list().len() && 0 <= j < self.share_list()[i].1.len() ==> has_key(
                self.file_list(),
                #[trigger] self.share_list()[i].1[j],
            )
        &&& forall|i: int|
            0 <= i < self.share_list().len() ==> (#[trigger] self.share_list()[i]).1.no_duplicates()
        &&& forall|i: int|
            0 <= i < self.file_list().len() ==> (#[trigger] self.file_list()[i]).0 < self.next_id()
    }

    /// The id that the next requested file receives.
    pub fn next_file_id(&self) -> (r: u64)
        ensures
            r == self.next_id(),
    {
        self.file_count
    }

    /// Whether `who` is recorded as an owner of `f`.
    pub fn owns_file(&self, who: &Identity, f: u64) -> (r: bool)
        requires
            self.wf(),
        ensures
            r == self.owns(who@, f),
    {
        match find_identity(&self.file_owners, who) {
            None => {
                proof {
                    assert(!has_key(self.owner_list(), who@)) by {
                        if has_key(self.owner_list(), who@) {
                            let j = choose|j: int|
                                0 <= j < self.owner_list().len() && #[trigger] self.owner_list()[j].0
                                    == who@;
                            assert(self.file_owners@[j].0@ == who@);
                        }
                    }
                }
                false
            },
            Some(i) => {
                proof {
                    lemma_lookup_at(self.owner_list(), i as int);
                }
                contains_id(&self.file_owners[i].1, f)
            },
        }
    }

    /// The position of file `f` in the store.
    fn find_file(&self, f: u64) -> (r: Option<usize>)
        requires
            self.wf(),
        ensures
            match r {
                Some(i) => i < self.file_list().len() && self.file_list()[i as int].0 == f
                    && self.file_of(f) == Some(self.file_list()[i as int].1),
                None => self.file_of(f) is None,
            },
    {
        let mut i: usize = 0;
        while i < self.file_data.len()
            invariant
                self.wf(),
                i <= self.file_data@.len(),
                forall|j: int| 0 <= j < i ==> self.file_data@[j].0 != f,
            decreases self.file_data@.len() - i,
        {
            if self.file_data[i].0 == f {
                proof {
                    lemma_lookup_at(self.file_list(), i as int);
                }
                return Some(i);
            }
            i = i + 1;
        }
        proof {
            if has_key(self.file_list(), f) {
                let j = choose|j: int|
                    0 <= j < self.file_list().len() && #[trigger] self.file_list()[j].0 == f;
                assert(self.file_data@[j].0 == f);
            }
        }
        None
    }

    /// The lifecycle state of file `f`, if the store holds it.
    pub fn content(&self, f: u64) -> (r: Option<FileContent>)
        requires
            self.wf(),
        ensures
            match self.file_of(f) {
                Some(v) => r == Some(v.1),
                None => r is None,
            },
    {
        match self.find_file(f) {
            Some(i) => Some(self.file_data[i].1.content),
            None => None,
        }
    }

    /// Records `f` as shared with `who`: appended to the recipient's list
    /// unless already there, a new entry for a new recipient.
    pub(crate) fn add_share(&mut self, who: &Identity, f: u64)
        requires
            old(self).wf(),
            has_key(old(self).file_list(), f),
        ensures
            final(self).wf(),
            final(self).share_list() == shared_index(old(self).share_list(), who@, f),
            final(self).shares_of(who@) == Some(
                match old(self).shares_of(who@) {
                    Some(ids) => with_id(ids, f),
                    None => seq![f],
                },
            ),
            forall|k: Seq<u8>| k != who@ ==> #[trigger] final(self).shares_of(k) == old(self).shares_of(k),
            final(self).next_id() == old(self).next_id(),
            final(self).user_list() == old(self).user_list(),
            final(self).file_list() == old(self).file_list(),
            final(self).owner_list() == old(self).owner_list(),
            final(self).group_list() == old(self).group_list(),
            final(self).alias_list() == old(self).alias_list(),
    {
        let ghost s0 = self.share_list();
        match find_identity(&self.file_shares, who) {
            Some(i) => {
                proof {
                    lemma_lookup_at(s0, i as int);
                    assert(s0[i as int].0 == who@);
                }
                let ghost ids = s0[i as int].1;
                if !contains_id(&self.file_shares[i].1, f) {
                    self.file_shares[i].1.push(f);
                }
                proof {
                    let t = s0.update(i as int, (who@, with_id(ids, f)));
                    assert(self.share_list() =~= t);
                    lemma_lookup_update(s0, i as int, with_id(ids, f));
                    let c = choose|c: int| 0 <= c < s0.len() && #[trigger] s0[c].0 == who@;
                    assert(c == i);
                    assert forall|a: int, b: int|
                        0 <= a < t.len() && 0 <= b < t[a].1.len() implies has_key(
                        self.file_list(),
                        #[trigger] t[a].1[b],
                    ) by {
                        if a == i && b == ids.len() {
                            assert(t[a].1[b] == f);
                        } else {
                            assert(t[a].1[b] == s0[a].1[b]);
                        }
                    }
                    assert forall|a: int| 0 <= a < t.len() implies (#[trigger] t[a]).1.no_duplicates() by {
                        if a == i && !ids.contains(f) {
                            assert(s0[a].1.no_duplicates());
                            let n = ids.push(f);
                            assert forall|x: int, y: int|
                                0 <= x < n.len() && 0 <= y < n.len() && x != y implies n[x] != n[y] by {
                                if x < ids.len() && y < ids.len() {
                                } else if x < ids.len() {
                                    assert(ids[x] != f);
                                } else {
                                    assert(ids[y] != f);
                                }
                            }
                        }
                    }
                }
            },
            None => {
                proof {
                    assert(!has_key(s0, who@)) by {
                        if has_key(s0, who@) {
                            let j = choose|j: int| 0 <= j < s0.len() && #[trigger] s0[j].0 == who@;
                            assert(self.file_shares@[j].0@ == who@);
                        }
                    }
                }
                let mut ids: Vec<u64> = Vec::new();
                ids.push(f);
                self.file_shares.push((who.duplicate(), ids));
                proof {
                    let t = s0.push((who@, seq![f]));
                    assert(self.share_list() =~= t);
                    lemma_lookup_push(s0, who@, seq![f]);
                    assert forall|a: int, b: int|
                        0 <= a < t.len() && 0 <= b < t[a].1.len() implies has_key(
                        self.file_list(),
                        #[trigger] t[a].1[b],
                    ) by {
                        if a < s0.len() {
                            assert(t[a] == s0[a]);
                        }
                    }
                    assert forall|a: int| 0 <= a < t.len() implies (#[trigger] t[a]).1.no_duplicates() by {
                        if a < s0.len() {
                            assert(t[a] == s0[a]);
                        }
                    }
                }
            },
        }
    }

    /// Takes `f` out of the files shared with `who`. Returns false, and
    /// changes nothing, when `who` has no share record at all.
    pub(crate) fn remove_share(&mut self, who: &Identity, f: u64) -> (r: bool)
        requires
            old(self).wf(),
        ensures
            final(self).wf(),
            r == old(self).shares_of(who@) is Some,
            r ==> final(self).share_list() == unshared_index(old(self).share_list(), who@, f),
            !r ==> *final(self) == *old(self),
            match old(self).shares_of(who@) {
                Some(ids) => final(self).shares_of(who@) == Some(without_id(ids, f)),
                None => final(self).shares_of(who@) is None,
            },
            forall|k: Seq<u8>| k != who@ ==> #[trigger] final(self).shares_of(k) == old(self).shares_of(k),
            final(self).next_id() == old(self).next_id(),
            final(self).user_list() == old(self).user_list(),
            final(self).file_list() == old(self).file_list(),
            final(self).owner_list() == old(self).owner_list(),
            final(self).group_list() == old(self).group_list(),
            final(self).alias_list() == old(self).alias_list(),
    {
        let ghost s0 = self.share_list();
        match find_identity(&self.file_shares, who) {
            Some(i) => {
                proof {
                    lemma_lookup_at(s0, i as int);
                }
                let ghost ids = s0[i as int].1;
                let mut kept: Vec<u64> = Vec::new();
                let mut j: usize = 0;
                while j < self.file_shares[i].1.len()
                    invariant
                        i < self.file_shares@.len(),
                        self.share_list() == s0,
                        ids == s0[i as int].1,
                        j <= ids.len(),
                        kept@ == without_id(ids.subrange(0, j as int), f),
                    decreases ids.len() - j,
                {
                    let x = self.file_shares[i].1[j];
                    if x != f {
                        kept.push(x);
                    }
                    proof {
                        assert(ids.subrange(0, j + 1).drop_last() =~= ids.subrange(0, j as int));
                    }
                    j = j + 1;
                }
                assert(ids.subrange(0, j as int) =~= ids);
                self.file_shares[i].1 = kept;
                proof {
                    let t = s0.update(i as int, (who@, without_id(ids, f)));
                    assert(self.share_list() =~= t);
                    lemma_lookup_update(s0, i as int, without_id(ids, f));
                    lemma_without_id(ids, f);
                    let c = choose|c: int| 0 <= c < s0.len() && #[trigger] s0[c].0 == who@;
                    assert(c == i);
                    assert forall|a: int, b: int|
                        0 <= a < t.len() && 0 <= b < t[a].1.len() implies has_key(
                        self.file_list(),
                        #[trigger] t[a].1[b],
                    ) by {
                        if a == i {
                            let y = t[a].1[b];
                            assert(without_id(ids, f).contains(y));
                            assert(ids.contains(y));
                            let k = choose|k: int| 0 <= k < ids.len() && ids[k] == y;
                            assert(s0[a].1[k] == y);
                        } else {
                            assert(t[a].1[b] == s0[a].1[b]);
                        }
                    }
                    assert forall|a: int| 0 <= a < t.len() implies (#[trigger] t[a]).1.no_duplicates() by {
                        if a == i {
                            assert(s0[a].1.no_duplicates());
                        }
                    }
                }
                true
            },
            None => {
                proof {
                    assert(!has_key(s0, who@)) by {
                        if has_key(s0, who@) {
                            let j = choose|j: int| 0 <= j < s0.len() && #[trigger] s0[j].0 == who@;
                            assert(self.file_shares@[j].0@ == who@);
                        }
                    }
                }
                false
            },
        }
    }

    /// The position of the first group that holds `f`.
    fn first_group_index(&self, f: u64) -> (r: Option<usize>)
        ensures
            match r {
                Some(i) => i < self.group_list().len() && first_group_from(self.group_list(), f, 0)
                    == Some(self.group_list()[i as int]),
                None => first_group_from(self.group_list(), f, 0) is None,
            },
    {
        let mut i: usize = 0;
        while i < self.request_groups.len()
            invariant
                i <= self.group_list().len(),
                first_group_from(self.group_list(), f, 0) == first_group_from(
                    self.group_list(),
                    f,
                    i as int,
                ),
            decreases self.group_list().len() - i,
        {
            if contains_id(&self.request_groups[i].files, f) {
                return Some(i);
            }
            i = i + 1;
        }
        None
    }

    /// The name of the first group that holds `f`, empty if none does.
    pub fn group_name_for(&self, f: u64) -> (r: String)
        ensures
            r@ == self.group_name_of(f),
    {
        match self.first_group_index(f) {
            Some(i) => self.request_groups[i].name.clone(),
            None => String::new(),
        }
    }

    /// The first alias of the first group that holds `f`, if both exist.
    pub fn group_alias_for(&self, f: u64) -> (r: Option<String>)
        ensures
            alias_view(r) == self.group_alias_of(f),
    {
        match self.first_group_index(f) {
            None => None,
            Some(g) => {
                let gid = self.request_groups[g].group_id;
                assert(self.group_list()[g as int].0 == gid);
                let mut i: usize = 0;
                while i < self.group_alias_index.len()
                    invariant
                        i <= self.alias_list().len(),
                        g < self.group_list().len(),
                        self.group_list()[g as int].0 == gid,
                        first_group_from(self.group_list(), f, 0) == Some(self.group_list()[g as int]),
                        first_alias_from(self.alias_list(), gid, 0) == first_alias_from(
                            self.alias_list(),
                            gid,
                            i as int,
                        ),
                    decreases self.alias_list().len() - i,
                {
                    if self.group_alias_index[i].1 == gid {
                        let a = self.group_alias_index[i].0.clone();
                        assert(self.alias_list()[i as int] == (a@, gid));
                        return Some(a);
                    }
                    i = i + 1;
                }
                None
            },
        }
    }

    /// The identities that `f` is shared with, in share-index order, each
    /// with its profile; a recipient without a profile is left out.
    pub fn allowed_users(&self, f: u64) -> (r: Vec<PublicUser>)
        requires
            self.wf(),
        ensures
            r@.map_values(|u: PublicUser| u@) == self.allowed_users_of(f),
    {
        let ghost sl = self.share_list();
        let ghost ul = self.user_list();
        let mut out: Vec<PublicUser> = Vec::new();
        let mut i: usize = 0;
        while i < self.file_shares.len()
            invariant
                self.wf(),
                sl == self.share_list(),
                ul == self.user_list(),
                i <= sl.len(),
                out@.map_values(|u: PublicUser| u@) + allowed_from(sl, ul, f, i as int)
                    == allowed_from(sl, ul, f, 0),
            decreases sl.len() - i,
        {
            let ghost before = out@.map_values(|u: PublicUser| u@);
            let ghost rest = allowed_from(sl, ul, f, i + 1);
            let who = &self.file_shares[i].0;
            match find_identity(&self.users, who) {
                Some(j) => {
                    proof {
                        lemma_lookup_at(ul, j as int);
                    }
                    if contains_id(&self.file_shares[i].1, f) {
                        let user = &self.users[j].1;
                        let p = PublicUser {
                            username: user.username.clone(),
                            public_key: copy_bytes(user.public_key.as_slice()),
                            ic_principal: who.duplicate(),
                        };
                        out.push(p);
                        proof {
                            assert(out@.map_values(|u: PublicUser| u@) =~= before.push(p@));
                            assert(before.push(p@) + rest =~= before + (seq![p@] + rest));
                        }
                    }
                },
                None => {
                    proof {
                        assert(!has_key(ul, sl[i as int].0)) by {
                            if has_key(ul, sl[i as int].0) {
                                let k = choose|k: int|
                                    0 <= k < ul.len() && #[trigger] ul[k].0 == sl[i as int].0;
                                assert(self.users@[k].0@ == who@);
                            }
                        }
                    }
                },
            }
            i = i + 1;
        }
        assert(out@.map_values(|u: PublicUser| u@) =~= out@.map_values(|u: PublicUser| u@) + allowed_from(sl, ul, f, i as int));
        out
    }

    /// The files shared with `who`, or `None` if `who` has no share record.
    pub fn shared_ids(&self, who: &Identity) -> (r: Option<Vec<u64>>)
        requires
            self.wf(),
        ensures
            match self.shares_of(who@) {
                Some(ids) => r is Some && r->Some_0@ == ids,
                None => r is None,
            },
    {
        match find_identity(&self.file_shares, who) {
            Some(i) => {
                proof {
                    lemma_lookup_at(self.share_list(), i as int);
                }
                Some(copy_ids(&self.file_shares[i].1))
            },
            None => {
                proof {
                    assert(!has_key(self.share_list(), who@)) by {
                        if has_key(self.share_list(), who@) {
                            let j = choose|j: int|
                                0 <= j < self.share_list().len() && #[trigger] self.share_list()[j].0
                                    == who@;
                            assert(self.file_shares@[j].0@ == who@);
                        }
                    }
                }
                None
            },
        }
    }

    /// The name of file `f`, if the store holds it.
    pub fn file_name(&self, f: u64) -> (r: Option<String>)
        requires
            self.wf(),
        ensures
            match self.file_of(f) {
                Some(v) => r is Some && r->Some_0@ == v.0,
                None => r is None,
            },
    {
        match self.find_file(f) {
            Some(i) => Some(self.file_data[i].1.file_name.clone()),
            None => None,
        }
    }

    /// Records a new file named `file_name`, owned by `owner`, awaiting its
    /// upload. It receives the next unused id, which is returned.
    pub fn request_file(&mut self, owner: &Identity, file_name: String) -> (id: u64)
        requires
            old(self).wf(),
            old(self).next_id() < u64::MAX,
        ensures
            final(self).wf(),
            id == old(self).next_id(),
            final(self).next_id() == id + 1,
            old(self).file_of(id) is None,
            final(self).file_list() == old(self).file_list().push((id, (file_name@, FileContent::Pending))),
            forall|f: u64| #[trigger] final(self).file_of(f) == if f == id {
                Some((file_name@, FileContent::Pending))
            } else {
                old(self).file_of(f)
            },
            forall|who: Seq<u8>, f: u64| #[trigger] final(self).owns(who, f) == (old(self).owns(who, f) || (who == owner@ && f == id)),
            final(self).share_list() == old(self).share_list(),
            final(self).user_list() == old(self).user_list(),
            final(self).group_list() == old(self).group_list(),
            final(self).alias_list() == old(self).alias_list(),
    {
        broadcast use vstd::seq_lib::lemma_seq_contains_after_push;

        let id = self.file_count;
        let ghost fl = self.file_list();
        let ghost ol = self.owner_list();
        proof {
            assert(!has_key(fl, id)) by {
                if has_key(fl, id) {
                    let j = choose|j: int| 0 <= j < fl.len() && #[trigger] fl[j].0 == id;
                }
            }
            lemma_lookup_push(fl, id, (file_name@, FileContent::Pending));
        }
        self.file_data.push((id, FileRecord { file_name, content: FileContent::Pending }));
        self.file_count = id + 1;
        assert(self.file_list() =~= fl.push((id, (file_name@, FileContent::Pending))));
        let ghost new_ids: Seq<u64>;
        match find_identity(&self.file_owners, owner) {
            Some(i) => {
                proof {
                    lemma_lookup_at(ol, i as int);
                    lemma_lookup_update(ol, i as int, ol[i as int].1.push(id));
                    new_ids = ol[i as int].1.push(id);
                }
                self.file_owners[i].1.push(id);
                assert(self.owner_list() =~= ol.update(i as int, (owner@, new_ids)));
            },
            None => {
                proof {
                    assert(!has_key(ol, owner@)) by {
                        if has_key(ol, owner@) {
                            let j = choose|j: int| 0 <= j < ol.len() && #[trigger] ol[j].0 == owner@;
                            assert(self.file_owners@[j].0@ == owner@);
                        }
                    }
                    lemma_lookup_push(ol, owner@, seq![id]);
                    new_ids = seq![id];
                    assert(seq![id] == Seq::<u64>::empty().push(id));
                }
                let mut ids: Vec<u64> = Vec::new();
                ids.push(id);
                self.file_owners.push((owner.duplicate(), ids));
                assert(self.owner_list() =~= ol.push((owner@, new_ids)));
            },
        }
        proof {
            let nl = self.owner_list();
            let nf = self.file_list();
            assert forall|a: int, b: int|
                0 <= a < nl.len() && 0 <= b < nl[a].1.len() implies has_key(nf, #[trigger] nl[a].1[b]) by {
                let x = nl[a].1[b];
                if x == id {
                    assert(nf[fl.len() as int].0 == id);
                } else {
                    if a < ol.len() && b < ol[a].1.len() {
                        assert(ol[a].1[b] == x);
                        let j = choose|j: int| 0 <= j < fl.len() && #[trigger] fl[j].0 == x;
                        assert(nf[j].0 == x);
                    }
                }
            }
            assert forall|a: int, b: int|
                0 <= a < self.share_list().len() && 0 <= b < self.share_list()[a].1.len() implies has_key(
                nf,
                #[trigger] self.share_list()[a].1[b],
            ) by {
                let x = self.share_list()[a].1[b];
                let j = choose|j: int| 0 <= j < fl.len() && #[trigger] fl[j].0 == x;
                assert(nf[j].0 == x);
            }
        }
        id
    }

    /// Moves file `f` to lifecycle state `content`. Returns false, and
    /// changes nothing, when the store has no such file.
    pub fn set_file_content(&mut self, f: u64, content: FileContent) -> (r: bool)
        requires
            old(self).wf(),
        ensures
            final(self).wf(),
            r == old(self).file_of(f) is Some,
            !r ==> *final(self) == *old(self),
            forall|g: u64| #[trigger] final(self).file_of(g) == if g == f && r {
                Some((old(self).file_of(f)->Some_0.0, content))
            } else {
                old(self).file_of(g)
            },
            final(self).next_id() == old(self).next_id(),
            final(self).owner_list() == old(self).owner_list(),
            final(self).share_list() == old(self).share_list(),
            final(self).user_list() == old(self).user_list(),
            final(self).group_list() == old(self).group_list(),
            final(self).alias_list() == old(self).alias_list(),
    {
        let ghost fl = self.file_list();
        match self.find_file(f) {
            None => false,
            Some(i) => {
                let ghost v = (fl[i as int].1.0, content);
                proof {
                    lemma_lookup_update(fl, i as int, v);
                }
                self.file_data[i].1.content = content;
                proof {
                    let nf = self.file_list();
                    assert(nf =~= fl.update(i as int, (f, v)));
                    assert forall|a: int, b: int|
                        0 <= a < self.owner_list().len() && 0 <= b < self.owner_list()[a].1.len()
                        implies has_key(nf, #[trigger] self.owner_list()[a].1[b]) by {
                        let x = self.owner_list()[a].1[b];
                        let j = choose|j: int| 0 <= j < fl.len() && #[trigger] fl[j].0 == x;
                        assert(nf[j].0 == x);
                    }
                    assert forall|a: int, b: int|
                        0 <= a < self.share_list().len() && 0 <= b < self.share_list()[a].1.len()
                        implies has_key(nf, #[trigger] self.share_list()[a].1[b]) by {
                        let x = self.share_list()[a].1[b];
                        let j = choose|j: int| 0 <= j < fl.len() && #[trigger] fl[j].0 == x;
                        assert(nf[j].0 == x);
                    }
                }
                true
            },
        }
    }

    /// Registers `user` as the profile of `who`, replacing any earlier one.
    pub fn set_user_info(&mut self, who: &Identity, user: User)
        requires
            old(self).wf(),
        ensures
            final(self).wf(),
            forall|k: Seq<u8>| #[trigger] final(self).profile_of(k) == if k == who@ {
                Some((user.username@, user.public_key@))
            } else {
                old(self).profile_of(k)
            },
            final(self).next_id() == old(self).next_id(),
            final(self).file_list() == old(self).file_list(),
            final(self).owner_list() == old(self).owner_list(),
            final(self).share_list() == old(self).share_list(),
            final(self).group_list() == old(self).group_list(),
            final(self).alias_list() == old(self).alias_list(),
    {
        let ghost ul = self.user_list();
        let ghost uv = (user.username@, user.public_key@);
        match find_identity(&self.users, who) {
            Some(i) => {
                proof {
                    lemma_lookup_update(ul, i as int, uv);
                }
                self.users.set(i, (who.duplicate(), user));
                assert(self.user_list() =~= ul.update(i as int, (who@, uv)));
            },
            None => {
                proof {
                    assert(!has_key(ul, who@)) by {
                        if has_key(ul, who@) {
                            let j = choose|j: int| 0 <= j < ul.len() && #[trigger] ul[j].0 == who@;
                            assert(self.users@[j].0@ == who@);
                        }
                    }
                    lemma_lookup_push(ul, who@, uv);
                }
                self.users.push((who.duplicate(), user));
                assert(self.user_list() =~= ul.push((who@, uv)));
            },
        }
    }

    /// Registers a group named `name` with id `group_id`, holding `files`.
    pub fn add_group(&mut self, group_id: u64, name: String, files: Vec<u64>)
        requires
            old(self).wf(),
        ensures
            final(self).wf(),
            final(self).group_list() == old(self).group_list().push((group_id, name@, files@)),
            final(self).next_id() == old(self).next_id(),
            final(self).user_list() == old(self).user_list(),
            final(self).file_list() == old(self).file_list(),
            final(self).owner_list() == old(self).owner_list(),
            final(self).share_list() == old(self).share_list(),
            final(self).alias_list() == old(self).alias_list(),
    {
        let ghost gl = self.group_list();
        let ghost gv = (group_id, name@, files@);
        self.request_groups.push(GroupRecord { group_id, name, files });
        assert(self.group_list() =~= gl.push(gv));
    }

    /// Registers `alias` as a public alias of group `group_id`.
    pub fn add_group_alias(&mut self, alias: String, group_id: u64)
        requires
            old(self).wf(),
        ensures
            final(self).wf(),
            final(self).alias_list() == old(self).alias_list().push((alias@, group_id)),
            final(self).next_id() == old(self).next_id(),
            final(self).user_list() == old(self).user_list(),
            final(self).file_list() == old(self).file_list(),
            final(self).owner_list() == old(self).owner_list(),
            final(self).share_list() == old(self).share_list(),
            final(self).group_list() == old(self).group_list(),
    {
        let ghost al = self.alias_list();
        let ghost av = (alias@, group_id);
        self.group_alias_index.push((alias, group_id));
        assert(self.alias_list() =~= al.push(av));
    }

    /// An empty state.
    pub fn new() -> (r: State)
        ensures
            r.wf(),
            r.next_id() == 0,
            r.user_list().len() == 0,
            r.file_list().len() == 0,
            r.owner_list().len() == 0,
            r.share_list().len() == 0,
            r.group_list().len() == 0,
            r.alias_list().len() == 0,
    {
        State {
            file_count: 0,
            users: Vec::new(),
            file_data: Vec::new(),
            file_owners: Vec::new(),
            file_shares: Vec::new(),
            request_groups: Vec::new(),
            group_alias_index: Vec::new(),
        }
    }
}

} // verus!
