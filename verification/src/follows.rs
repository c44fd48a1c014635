//! The follow list (a kind 3 contact list): which accounts its `p` tags name,
//! and which tags stay when an account is unfollowed. Each tag is given as
//! the account it names, or `None` for a tag that names none.

use vstd::prelude::*;

use crate::context::{keys_view, same_key};
use crate::relay::marked;

verus! {

/// The accounts named by the tags, in their order.
pub open spec fn followed(tags: Seq<Option<[u8; 32]>>) -> Seq<Seq<u8>>
    decreases tags.len(),
{
    if tags.len() == 0 {
        seq![]
    } else {
        match tags.last() {
            Some(k) => followed(tags.drop_last()).push(k@),
            None => followed(tags.drop_last()),
        }
    }
}

/// Whether a tag names `account`.
pub open spec fn names(tag: Option<[u8; 32]>, account: Seq<u8>) -> bool {
    tag matches Some(k) && k@ == account
}

/// The accounts the list follows, in order.
pub fn followed_accounts(tags: &Vec<Option<[u8; 32]>>) -> (r: Vec<[u8; 32]>)
    ensures
        keys_view(r@) == followed(tags@),
{
    let mut r: Vec<[u8; 32]> = Vec::new();
    let mut i: usize = 0;
    while i < tags.len()
        invariant
            i <= tags@.len(),
            keys_view(r@) == followed(tags@.take(i as int)),
        decreases tags@.len() - i,
    {
        proof {
            assert(tags@.take(i + 1).drop_last() =~= tags@.take(i as int));
        }
        match tags[i] {
            Some(k) => {
                let ghost before = r@;
                r.push(k);
                assert(keys_view(r@) =~= keys_view(before).push(k@));
            },
            None => {},
        }
        i = i + 1;
    }
    assert(tags@.take(tags@.len() as int) =~= tags@);
    r
}

/// Whether the list already follows `account`.
pub fn is_following(tags: &Vec<Option<[u8; 32]>>, account: &[u8; 32]) -> (r: bool)
    ensures
        r == exists|i: int| 0 <= i < tags@.len() && names(#[trigger] tags@[i], account@),
{
    let mut i: usize = 0;
    while i < tags.len()
        invariant
            i <= tags@.len(),
            forall|j: int| 0 <= j < i ==> !names(#[trigger] tags@[j], account@),
        decreases tags@.len() - i,
    {
        match tags[i] {
            Some(k) => {
                if same_key(&k, account) {
                    assert(names(tags@[i as int], account@));
                    return true;
                }
            },
            None => {},
        }
        i = i + 1;
    }
    false
}

/// Which tags stay when `account` is unfollowed: all but those naming it.
pub fn unfollow_marks(tags: &Vec<Option<[u8; 32]>>, account: &[u8; 32]) -> (keep: Vec<bool>)
    ensures
        keep@ == unfollow_spec(tags@, account@),
{
    let mut keep: Vec<bool> = Vec::new();
    let mut i: usize = 0;
    while i < tags.len()
        invariant
            i <= tags@.len(),
            keep@.len() == i,
            forall|j: int| 0 <= j < i ==> keep@[j] == !names(#[trigger] tags@[j], account@),
        decreases tags@.len() - i,
    {
        let stays = match tags[i] {
            Some(k) => !same_key(&k, account),
            None => true,
        };
        keep.push(stays);
        i = i + 1;
    }
    assert(keep@ =~= unfollow_spec(tags@, account@));
    keep
}

/// The marks `unfollow_marks` gives: every tag but those naming `account`.
pub open spec fn unfollow_spec(tags: Seq<Option<[u8; 32]>>, account: Seq<u8>) -> Seq<bool> {
    Seq::new(tags.len(), |i: int| !names(tags[i], account))
}

proof fn lemma_keep_all(tags: Seq<Option<[u8; 32]>>, account: Seq<u8>)
    requires
        forall|i: int| 0 <= i < tags.len() ==> !names(#[trigger] tags[i], account),
    ensures
        marked(tags, unfollow_spec(tags, account)) == tags,
    decreases tags.len(),
{
    if tags.len() == 0 {
        assert(marked(tags, unfollow_spec(tags, account)) =~= tags);
    } else {
        let init = tags.drop_last();
        assert(unfollow_spec(tags, account).take(tags.len() - 1) =~= unfollow_spec(init, account));
        assert(!names(tags[tags.len() - 1], account));
        lemma_keep_all(init, account);
        assert(init.push(tags.last()) =~= tags);
    }
}

/// Following an account the list does not name yet and then unfollowing it
/// gives the list back unchanged.
pub proof fn law_follow_then_unfollow(tags: Seq<Option<[u8; 32]>>, account: [u8; 32])
    requires
        forall|i: int| 0 <= i < tags.len() ==> !names(#[trigger] tags[i], account@),
    ensures
        marked(
            tags.push(Some(account)),
            unfollow_spec(tags.push(Some(account)), account@),
        ) == tags,
{
    let t = tags.push(Some(account));
    assert(t.drop_last() =~= tags);
    assert(unfollow_spec(t, account@).take(tags.len() as int) =~= unfollow_spec(tags, account@));
    assert(names(t[tags.len() as int], account@));
    lemma_keep_all(tags, account@);
}

} // verus!
