//! The ownership ledger: the set of developers associated with a package,
//! of which exactly one is the owner once `assign_owner` has run.

use vstd::prelude::*;

use crate::api::Mod;
use crate::error::ApiError;
use crate::error::BadRequestKind;
use crate::error::MissingEntity;
use crate::store::count_owners;
use crate::store::Catalog;
use crate::store::DevLink;
use crate::text::str_eq;

verus! {

/// The edge with its owner mark cleared when it belongs to the package,
/// else unchanged.
pub open spec fn demote_one(l: DevLink, mod_id: Seq<char>) -> DevLink {
    if l.mod_id@ == mod_id {
        (DevLink { mod_id: l.mod_id, developer_id: l.developer_id, is_owner: false })
    } else {
        l
    }
}

/// Every edge of the package with its owner mark cleared; other packages'
/// edges unchanged.
pub open spec fn demote_links(links: Seq<DevLink>, mod_id: Seq<char>) -> Seq<DevLink> {
    links.map_values(|l: DevLink| demote_one(l, mod_id))
}

/// Exactly one owner edge of the package stands among the first `j` edges
/// when the single owner position `w` lies below `j`.
pub proof fn lemma_count_owners_single(links: Seq<DevLink>, mod_id: Seq<char>, w: int, j: int)
    requires
        0 <= w < links.len(),
        links[w].mod_id@ == mod_id && links[w].is_owner,
        forall|k: int|
            0 <= k < links.len() && k != w ==> !(#[trigger] links[k].mod_id@ == mod_id
                && links[k].is_owner),
        j <= links.len(),
    ensures
        count_owners(links, mod_id, j) == if w < j {
            1nat
        } else {
            0nat
        },
    decreases j,
{
    if j > 0 {
        lemma_count_owners_single(links, mod_id, w, j - 1);
    }
}

impl Mod {
    /// Makes the developer the package's sole owner: demotes any existing
    /// owner edge, then promotes the developer's edge or inserts a fresh
    /// owner edge. Initial assignment and transfer share this path. When the
    /// developer already owns the package nothing changes. Afterwards the
    /// package has exactly one owner edge.
    pub fn assign_owner(mod_id: &str, dev_id: u64, store: &mut Catalog) -> (r: Result<
        (),
        ApiError,
    >)
        requires
            old(store).wf(),
        ensures
            final(store).wf(),
            final(store).mods@ == old(store).mods@,
            final(store).versions@ == old(store).versions@,
            final(store).developers@ == old(store).developers@,
            final(store).tags@ == old(store).tags@,
            final(store).tag_links@ == old(store).tag_links@,
            final(store).downloads@ == old(store).downloads@,
            final(store).clock == old(store).clock,
            final(store).next_version_id == old(store).next_version_id,
            final(store).next_developer_id == old(store).next_developer_id,
            final(store).next_tag_id == old(store).next_tag_id,
            r is Err ==> *final(store) == *old(store),
            !old(store).has_mod(mod_id@) ==> (r matches Err(
                ApiError::NotFound(MissingEntity::Mod(m)),
            ) && m@ == mod_id@),
            old(store).has_mod(mod_id@) && !old(store).has_developer(dev_id) ==> (r matches Err(
                ApiError::NotFound(MissingEntity::Developer(d)),
            ) && d == dev_id),
            old(store).has_mod(mod_id@) && old(store).has_developer(dev_id) ==> {
                &&& r is Ok
                &&& count_owners(
                    final(store).dev_links@,
                    mod_id@,
                    final(store).dev_links@.len() as int,
                ) == 1
                &&& (if old(store).has_dev_link(mod_id@, dev_id) {
                    final(store).dev_links@ == demote_links(old(store).dev_links@, mod_id@).update(
                        old(store).dev_link_idx(mod_id@, dev_id),
                        (DevLink {
                            mod_id: old(store).dev_links@[old(store).dev_link_idx(
                                mod_id@,
                                dev_id,
                            )].mod_id,
                            developer_id: dev_id,
                            is_owner: true,
                        }),
                    )
                } else {
                    &&& final(store).dev_links@.len() == old(store).dev_links@.len() + 1
                    &&& final(store).dev_links@.take(old(store).dev_links@.len() as int)
                        == demote_links(old(store).dev_links@, mod_id@)
                    &&& final(store).dev_links@.last().mod_id@ == mod_id@
                    &&& final(store).dev_links@.last().developer_id == dev_id
                    &&& final(store).dev_links@.last().is_owner
                })
                &&& (old(store).has_dev_link(mod_id@, dev_id) && old(store).dev_links@[old(
                    store,
                ).dev_link_idx(mod_id@, dev_id)].is_owner ==> final(store).dev_links@ == old(
                    store,
                ).dev_links@)
            },
    {
        if store.find_mod(mod_id).is_none() {
            return Err(ApiError::NotFound(MissingEntity::Mod(mod_id.to_owned())));
        }
        if store.find_developer(dev_id).is_none() {
            return Err(ApiError::NotFound(MissingEntity::Developer(dev_id)));
        }
        let ghost demoted = demote_links(old(store).dev_links@, mod_id@);
        let n = store.dev_links.len();
        let mut i: usize = 0;
        while i < n
            invariant
                i <= n,
                n == store.dev_links@.len(),
                n == old(store).dev_links@.len(),
                demoted == demote_links(old(store).dev_links@, mod_id@),
                forall|j: int| 0 <= j < i ==> store.dev_links@[j] == demoted[j],
                forall|j: int| i <= j < n ==> store.dev_links@[j] == old(store).dev_links@[j],
                store.mods@ == old(store).mods@,
                store.versions@ == old(store).versions@,
                store.developers@ == old(store).developers@,
                store.tags@ == old(store).tags@,
                store.tag_links@ == old(store).tag_links@,
                store.downloads@ == old(store).downloads@,
                store.clock == old(store).clock,
                store.next_version_id == old(store).next_version_id,
                store.next_developer_id == old(store).next_developer_id,
                store.next_tag_id == old(store).next_tag_id,
            decreases n - i,
        {
            if store.dev_links[i].is_owner && str_eq(store.dev_links[i].mod_id.as_str(), mod_id) {
                let m = store.dev_links[i].mod_id.clone();
                let d = store.dev_links[i].developer_id;
                store.dev_links.set(i, DevLink { mod_id: m, developer_id: d, is_owner: false });
            }
            i = i + 1;
        }
        proof {
            assert(store.dev_links@ =~= demoted);
            assert forall|j: int| 0 <= j < n implies #[trigger] demoted[j] == demote_one(
                old(store).dev_links@[j],
                mod_id@,
            ) by {}
        }
        let found = store.find_dev_link(mod_id, dev_id);
        match found {
            Some(w) => {
                proof {
                    assert(old(store).dev_links@[w as int].mod_id@ == mod_id@ && old(
                        store,
                    ).dev_links@[w as int].developer_id == dev_id);
                    assert(old(store).has_dev_link(mod_id@, dev_id));
                    let c = old(store).dev_link_idx(mod_id@, dev_id);
                    if c != w {
                        assert(!(old(store).dev_links@[c].mod_id@ == mod_id@ && old(
                            store,
                        ).dev_links@[c].developer_id == dev_id) || !(old(
                            store,
                        ).dev_links@[w as int].mod_id@ == mod_id@ && old(
                            store,
                        ).dev_links@[w as int].developer_id == dev_id));
                    }
                    assert(c == w);
                }
                proof {
                    assert(demoted[w as int] == demote_one(
                        old(store).dev_links@[w as int],
                        mod_id@,
                    ));
                    assert(demoted[w as int].mod_id == old(store).dev_links@[w as int].mod_id);
                }
                let m = store.dev_links[w].mod_id.clone();
                store.dev_links.set(w, DevLink { mod_id: m, developer_id: dev_id, is_owner: true });
                proof {
                    assert forall|j: int| 0 <= j < n && j != w implies #[trigger] store.dev_links@[j]
                        == demote_one(old(store).dev_links@[j], mod_id@) by {
                        assert(store.dev_links@[j] == demoted[j]);
                    }
                    Self::lemma_assign_owner_post(*old(store), *store, mod_id@, dev_id, w as int);
                    if old(store).dev_links@[w as int].is_owner {
                        assert(store.dev_links@ =~= old(store).dev_links@);
                    }
                }
                Ok(())
            },
            None => {
                proof {
                    if old(store).has_dev_link(mod_id@, dev_id) {
                        let c = old(store).dev_link_idx(mod_id@, dev_id);
                        assert(demoted[c] == demote_one(old(store).dev_links@[c], mod_id@));
                        assert(demoted[c].mod_id@ == mod_id@ && demoted[c].developer_id == dev_id);
                    }
                }
                store.dev_links.push(
                    DevLink { mod_id: mod_id.to_owned(), developer_id: dev_id, is_owner: true },
                );
                proof {
                    let pn = old(store).dev_links@.len() as int;
                    assert(store.dev_links@.take(pn) =~= demoted);
                    assert forall|j: int| 0 <= j < pn && j != pn implies #[trigger] store.dev_links@[j]
                        == demote_one(old(store).dev_links@[j], mod_id@) by {
                        assert(store.dev_links@[j] == demoted[j]);
                    }
                    Self::lemma_assign_owner_post(*old(store), *store, mod_id@, dev_id, pn);
                }
                Ok(())
            },
        }
    }

    /// Adds a non-owner developer edge to the package; a developer already
    /// on the package is rejected as a duplicate.
    pub fn assign_dev(mod_id: &str, dev_id: u64, store: &mut Catalog) -> (r: Result<(), ApiError>)
        requires
            old(store).wf(),
        ensures
            final(store).wf(),
            final(store).mods@ == old(store).mods@,
            final(store).versions@ == old(store).versions@,
            final(store).developers@ == old(store).developers@,
            final(store).tags@ == old(store).tags@,
            final(store).tag_links@ == old(store).tag_links@,
            final(store).downloads@ == old(store).downloads@,
            final(store).clock == old(store).clock,
            final(store).next_version_id == old(store).next_version_id,
            final(store).next_developer_id == old(store).next_developer_id,
            final(store).next_tag_id == old(store).next_tag_id,
            r is Err ==> *final(store) == *old(store),
            !old(store).has_mod(mod_id@) ==> (r matches Err(
                ApiError::NotFound(MissingEntity::Mod(m)),
            ) && m@ == mod_id@),
            old(store).has_mod(mod_id@) && !old(store).has_developer(dev_id) ==> (r matches Err(
                ApiError::NotFound(MissingEntity::Developer(d)),
            ) && d == dev_id),
            old(store).has_mod(mod_id@) && old(store).has_developer(dev_id) && old(
                store,
            ).has_dev_link(mod_id@, dev_id) ==> r == Err::<(), ApiError>(
                ApiError::BadRequest(BadRequestKind::DuplicateDeveloper),
            ),
            old(store).has_mod(mod_id@) && old(store).has_developer(dev_id) && !old(
                store,
            ).has_dev_link(mod_id@, dev_id) ==> {
                &&& r is Ok
                &&& final(store).dev_links@.len() == old(store).dev_links@.len() + 1
                &&& final(store).dev_links@.take(old(store).dev_links@.len() as int) == old(
                    store,
                ).dev_links@
                &&& final(store).dev_links@.last().mod_id@ == mod_id@
                &&& final(store).dev_links@.last().developer_id == dev_id
                &&& !final(store).dev_links@.last().is_owner
            },
    {
        if store.find_mod(mod_id).is_none() {
            return Err(ApiError::NotFound(MissingEntity::Mod(mod_id.to_owned())));
        }
        if store.find_developer(dev_id).is_none() {
            return Err(ApiError::NotFound(MissingEntity::Developer(dev_id)));
        }
        if store.find_dev_link(mod_id, dev_id).is_some() {
            return Err(ApiError::BadRequest(BadRequestKind::DuplicateDeveloper));
        }
        store.dev_links.push(
            DevLink { mod_id: mod_id.to_owned(), developer_id: dev_id, is_owner: false },
        );
        proof {
            let links = store.dev_links@;
            let pn = old(store).dev_links@.len() as int;
            assert(links.take(pn) =~= old(store).dev_links@);
            assert forall|i: int, j: int| 0 <= i < j < links.len() implies !(links[i].mod_id@
                == links[j].mod_id@ && links[i].developer_id == links[j].developer_id) by {
                if j == pn {
                    if links[i].mod_id@ == mod_id@ && links[i].developer_id == dev_id {
                        assert(old(store).dev_links@[i].mod_id@ == mod_id@ && old(
                            store,
                        ).dev_links@[i].developer_id == dev_id);
                        assert(old(store).has_dev_link(mod_id@, dev_id));
                    }
                } else {
                    assert(links[i] == old(store).dev_links@[i]);
                    assert(links[j] == old(store).dev_links@[j]);
                }
            }
            assert forall|i: int, j: int|
                0 <= i < j < links.len() && links[i].mod_id@ == links[j].mod_id@ implies !(
            links[i].is_owner && links[j].is_owner) by {
                if j < pn {
                    assert(links[i] == old(store).dev_links@[i]);
                    assert(links[j] == old(store).dev_links@[j]);
                }
            }
            assert forall|i: int| 0 <= i < links.len() implies crate::store::mods_contain(
                store.mods@,
                #[trigger] links[i].mod_id@,
            ) by {
                if i < pn {
                    assert(crate::store::mods_contain(
                        old(store).mods@,
                        old(store).dev_links@[i].mod_id@,
                    ));
                } else {
                    assert(crate::store::mods_contain(old(store).mods@, mod_id@));
                }
            }
            assert forall|i: int| 0 <= i < links.len() implies crate::store::devs_contain_id(
                store.developers@,
                #[trigger] links[i].developer_id,
            ) by {
                if i < pn {
                    assert(crate::store::devs_contain_id(
                        old(store).developers@,
                        old(store).dev_links@[i].developer_id,
                    ));
                } else {
                    assert(crate::store::devs_contain_id(old(store).developers@, dev_id));
                }
            }
            assert(store.wf());
        }
        Ok(())
    }

    /// Removes a non-owner developer edge from the package. The owner can
    /// never be removed, only reassigned first; a developer not on the
    /// package is reported absent.
    pub fn unassign_dev(mod_id: &str, dev_id: u64, store: &mut Catalog) -> (r: Result<
        (),
        ApiError,
    >)
        requires
            old(store).wf(),
        ensures
            final(store).wf(),
            final(store).mods@ == old(store).mods@,
            final(store).versions@ == old(store).versions@,
            final(store).developers@ == old(store).developers@,
            final(store).tags@ == old(store).tags@,
            final(store).tag_links@ == old(store).tag_links@,
            final(store).downloads@ == old(store).downloads@,
            final(store).clock == old(store).clock,
            final(store).next_version_id == old(store).next_version_id,
            final(store).next_developer_id == old(store).next_developer_id,
            final(store).next_tag_id == old(store).next_tag_id,
            r is Err ==> *final(store) == *old(store),
            !old(store).has_dev_link(mod_id@, dev_id) ==> (r matches Err(
                ApiError::NotFound(MissingEntity::Assignment { mod_id: m, developer_id: d }),
            ) && m@ == mod_id@ && d == dev_id),
            old(store).has_dev_link(mod_id@, dev_id) && old(store).dev_links@[old(
                store,
            ).dev_link_idx(mod_id@, dev_id)].is_owner ==> r == Err::<(), ApiError>(
                ApiError::BadRequest(BadRequestKind::OwnerUnassign),
            ),
            old(store).has_dev_link(mod_id@, dev_id) && !old(store).dev_links@[old(
                store,
            ).dev_link_idx(mod_id@, dev_id)].is_owner ==> {
                &&& r is Ok
                &&& final(store).dev_links@ == old(store).dev_links@.remove(
                    old(store).dev_link_idx(mod_id@, dev_id),
                )
            },
    {
        let found = store.find_dev_link(mod_id, dev_id);
        match found {
            None => Err(
                ApiError::NotFound(
                    MissingEntity::Assignment { mod_id: mod_id.to_owned(), developer_id: dev_id },
                ),
            ),
            Some(w) => {
                proof {
                    let c = old(store).dev_link_idx(mod_id@, dev_id);
                    assert(old(store).has_dev_link(mod_id@, dev_id));
                    if c != w {
                        assert(!(old(store).dev_links@[c].mod_id@ == mod_id@ && old(
                            store,
                        ).dev_links@[c].developer_id == dev_id) || !(old(
                            store,
                        ).dev_links@[w as int].mod_id@ == mod_id@ && old(
                            store,
                        ).dev_links@[w as int].developer_id == dev_id));
                    }
                    assert(c == w);
                }
                if store.dev_links[w].is_owner {
                    return Err(ApiError::BadRequest(BadRequestKind::OwnerUnassign));
                }
                store.dev_links.remove(w);
                proof {
                    old(store).dev_links@.remove_ensures(w as int);
                    let links = store.dev_links@;
                    let pn = old(store).dev_links@.len() as int;
                    assert forall|j: int| 0 <= j < links.len() implies #[trigger] links[j] == old(
                        store,
                    ).dev_links@[if j < w { j } else { j + 1 }] by {}
                    assert forall|i: int, j: int| 0 <= i < j < links.len() implies !(links[i].mod_id@
                        == links[j].mod_id@ && links[i].developer_id == links[j].developer_id) by {
                        let i0 = if i < w { i } else { i + 1 };
                        let j0 = if j < w { j } else { j + 1 };
                        assert(links[i] == old(store).dev_links@[i0]);
                        assert(links[j] == old(store).dev_links@[j0]);
                    }
                    assert forall|i: int, j: int|
                        0 <= i < j < links.len() && links[i].mod_id@ == links[j].mod_id@ implies !(
                    links[i].is_owner && links[j].is_owner) by {
                        let i0 = if i < w { i } else { i + 1 };
                        let j0 = if j < w { j } else { j + 1 };
                        assert(links[i] == old(store).dev_links@[i0]);
                        assert(links[j] == old(store).dev_links@[j0]);
                    }
                    assert forall|i: int| 0 <= i < links.len() implies crate::store::mods_contain(
                        store.mods@,
                        #[trigger] links[i].mod_id@,
                    ) by {
                        let i0 = if i < w { i } else { i + 1 };
                        assert(links[i] == old(store).dev_links@[i0]);
                        assert(crate::store::mods_contain(
                            old(store).mods@,
                            old(store).dev_links@[i0].mod_id@,
                        ));
                    }
                    assert forall|i: int|
                        0 <= i < links.len() implies crate::store::devs_contain_id(
                        store.developers@,
                        #[trigger] links[i].developer_id,
                    ) by {
                        let i0 = if i < w { i } else { i + 1 };
                        assert(links[i] == old(store).dev_links@[i0]);
                        assert(crate::store::devs_contain_id(
                            old(store).developers@,
                            old(store).dev_links@[i0].developer_id,
                        ));
                    }
                    assert(store.wf());
                }
                Ok(())
            },
        }
    }

    /// After demoting the package's edges and making position `w` its only
    /// owner edge, the store is well formed again and the owner count is 1.
    proof fn lemma_assign_owner_post(
        pre: Catalog,
        post: Catalog,
        mod_id: Seq<char>,
        dev_id: u64,
        w: int,
    )
        requires
            pre.wf(),
            pre.has_mod(mod_id),
            pre.has_developer(dev_id),
            post.mods@ == pre.mods@,
            post.versions@ == pre.versions@,
            post.developers@ == pre.developers@,
            post.tags@ == pre.tags@,
            post.tag_links@ == pre.tag_links@,
            post.downloads@ == pre.downloads@,
            post.clock == pre.clock,
            post.next_version_id == pre.next_version_id,
            post.next_developer_id == pre.next_developer_id,
            post.next_tag_id == pre.next_tag_id,
            0 <= w < post.dev_links@.len(),
            pre.dev_links@.len() <= post.dev_links@.len() <= pre.dev_links@.len() + 1,
            w < pre.dev_links@.len() ==> post.dev_links@.len() == pre.dev_links@.len(),
            forall|j: int|
                0 <= j < pre.dev_links@.len() && j != w ==> #[trigger] post.dev_links@[j]
                    == demote_one(pre.dev_links@[j], mod_id),
            post.dev_links@[w].mod_id@ == mod_id,
            post.dev_links@[w].developer_id == dev_id,
            post.dev_links@[w].is_owner,
            w < pre.dev_links@.len() ==> {
                &&& pre.dev_links@[w].mod_id@ == mod_id
                &&& pre.dev_links@[w].developer_id == dev_id
            },
            w == pre.dev_links@.len() ==> !pre.has_dev_link(mod_id, dev_id),
        ensures
            post.wf(),
            count_owners(post.dev_links@, mod_id, post.dev_links@.len() as int) == 1,
    {
        let links = post.dev_links@;
        let pn = pre.dev_links@.len() as int;
        assert forall|k: int| 0 <= k < pn && k != w implies {
            &&& #[trigger] links[k].mod_id@ == pre.dev_links@[k].mod_id@
            &&& links[k].developer_id == pre.dev_links@[k].developer_id
            &&& links[k].is_owner ==> (pre.dev_links@[k].is_owner && pre.dev_links@[k].mod_id@
                != mod_id)
        } by {
            assert(links[k] == demote_one(pre.dev_links@[k], mod_id));
        }
        assert forall|i: int, j: int| 0 <= i < j < links.len() implies !(links[i].mod_id@
            == links[j].mod_id@ && links[i].developer_id == links[j].developer_id) by {
            if j < pn {
                assert(links[i].mod_id@ == pre.dev_links@[i].mod_id@ && links[i].developer_id
                    == pre.dev_links@[i].developer_id);
                assert(links[j].mod_id@ == pre.dev_links@[j].mod_id@ && links[j].developer_id
                    == pre.dev_links@[j].developer_id);
                assert(!(pre.dev_links@[i].mod_id@ == pre.dev_links@[j].mod_id@
                    && pre.dev_links@[i].developer_id == pre.dev_links@[j].developer_id));
            } else {
                assert(j == w && w == pn);
                assert(!pre.has_dev_link(mod_id, dev_id));
                if links[i].mod_id@ == mod_id && links[i].developer_id == dev_id {
                    assert(pre.dev_links@[i].mod_id@ == mod_id && pre.dev_links@[i].developer_id
                        == dev_id);
                    assert(pre.has_dev_link(mod_id, dev_id));
                }
            }
        }
        assert forall|i: int, j: int|
            0 <= i < j < links.len() && links[i].mod_id@ == links[j].mod_id@ implies !(
        links[i].is_owner && links[j].is_owner) by {
            if i != w && j != w {
                if links[i].is_owner && links[j].is_owner {
                    assert(pre.dev_links@[i].mod_id@ != mod_id);
                    assert(pre.dev_links@[j].mod_id@ != mod_id);
                    assert(false);
                }
            } else if i == w {
                if links[j].is_owner {
                    assert(j < pn);
                    assert(links[j].mod_id@ == pre.dev_links@[j].mod_id@);
                    assert(pre.dev_links@[j].mod_id@ != mod_id);
                }
            } else {
                if links[i].is_owner {
                    assert(i < pn);
                    assert(links[i].mod_id@ == pre.dev_links@[i].mod_id@);
                    assert(pre.dev_links@[i].mod_id@ != mod_id);
                }
            }
        }
        assert forall|i: int| 0 <= i < links.len() implies crate::store::mods_contain(
            post.mods@,
            #[trigger] links[i].mod_id@,
        ) by {
            if i == w {
                assert(crate::store::mods_contain(pre.mods@, mod_id));
            } else {
                assert(crate::store::mods_contain(pre.mods@, pre.dev_links@[i].mod_id@));
            }
        }
        assert forall|i: int| 0 <= i < links.len() implies crate::store::devs_contain_id(
            post.developers@,
            #[trigger] links[i].developer_id,
        ) by {
            if i == w {
                assert(crate::store::devs_contain_id(pre.developers@, dev_id));
            } else {
                assert(crate::store::devs_contain_id(
                    pre.developers@,
                    pre.dev_links@[i].developer_id,
                ));
            }
        }
        assert(post.wf());
        assert forall|k: int|
            0 <= k < links.len() && k != w implies !(#[trigger] links[k].mod_id@ == mod_id
            && links[k].is_owner) by {}
        lemma_count_owners_single(links, mod_id, w, links.len() as int);
    }
}

} // verus!
