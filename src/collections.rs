use vstd::prelude::*;
use crate::groups::{group_names, GroupStore};
use crate::model::{
    carried_out, collections_view, copy_collections, first_index, groups_view, is_first_at,
    lemma_first_index, lemma_push_unique, lemma_remove_unique, lemma_update_unique,
    snippets_view, strings_view, CodeSnippet, Collection, CollectionView, EntityKind, Group,
    GroupView, SnippetView, StoreError,
};

verus! {

/// The names of `cs`, in order.
pub open spec fn collection_names(cs: Seq<CollectionView>) -> Seq<Seq<char>> {
    cs.map_values(|c: CollectionView| c.name)
}

/// The names of `ss`, in order.
pub open spec fn snippet_names(ss: Seq<SnippetView>) -> Seq<Seq<char>> {
    ss.map_values(|s: SnippetView| s.name)
}

/// Position of the collection named `name` in `cs`.
pub open spec fn collection_index(cs: Seq<CollectionView>, name: Seq<char>) -> int {
    first_index(collection_names(cs), name)
}

/// Decision and effect of creating collection `c` in `cs`.
pub open spec fn spec_create_collection(cs: Seq<CollectionView>, c: CollectionView) -> Result<
    Seq<CollectionView>,
    StoreError,
> {
    if collection_names(cs).contains(c.name) {
        Err(StoreError::AlreadyExists)
    } else {
        Ok(cs.push(c))
    }
}

/// Decision and effect of renaming the collection `name` of `cs` to `new_name`.
pub open spec fn spec_rename_collection(
    cs: Seq<CollectionView>,
    name: Seq<char>,
    new_name: Seq<char>,
) -> Result<Seq<CollectionView>, StoreError> {
    if !collection_names(cs).contains(name) {
        Err(StoreError::NotFound(EntityKind::Collection))
    } else if collection_names(cs).contains(new_name) {
        Err(StoreError::AlreadyExists)
    } else {
        let i = collection_index(cs, name);
        Ok(cs.update(i, CollectionView { name: new_name, ..cs[i] }))
    }
}

/// The collection named `name` in `cs`, if any.
pub open spec fn spec_get_collection(cs: Seq<CollectionView>, name: Seq<char>) -> Option<
    CollectionView,
> {
    if collection_names(cs).contains(name) {
        Some(cs[collection_index(cs, name)])
    } else {
        None
    }
}

/// The checks shared by the operations that need group `group_name` to be
/// embedded in collection `coll_name`, in their fixed order: the group
/// exists, the collection exists, the collection embeds the group.
pub open spec fn spec_access(
    gs: Seq<GroupView>,
    cs: Seq<CollectionView>,
    group_name: Seq<char>,
    coll_name: Seq<char>,
) -> Result<int, StoreError> {
    if !group_names(gs).contains(group_name) {
        Err(StoreError::NotFound(EntityKind::Group))
    } else if !collection_names(cs).contains(coll_name) {
        Err(StoreError::NotFound(EntityKind::Collection))
    } else if !group_names(cs[collection_index(cs, coll_name)].groups).contains(group_name) {
        Err(StoreError::Unauthorized)
    } else {
        Ok(collection_index(cs, coll_name))
    }
}

/// Decision and effect of deleting collection `coll_name` on behalf of group
/// `group_name`.
pub open spec fn spec_delete_collection(
    gs: Seq<GroupView>,
    cs: Seq<CollectionView>,
    group_name: Seq<char>,
    coll_name: Seq<char>,
) -> Result<Seq<CollectionView>, StoreError> {
    match spec_access(gs, cs, group_name, coll_name) {
        Err(e) => Err(e),
        Ok(i) => Ok(cs.remove(i)),
    }
}

/// Decision and effect of adding snippet `sn` to collection `coll_name` on
/// behalf of group `group_name`.
pub open spec fn spec_create_snippet(
    gs: Seq<GroupView>,
    cs: Seq<CollectionView>,
    group_name: Seq<char>,
    coll_name: Seq<char>,
    sn: SnippetView,
) -> Result<Seq<CollectionView>, StoreError> {
    match spec_access(gs, cs, group_name, coll_name) {
        Err(e) => Err(e),
        Ok(i) => if snippet_names(cs[i].snippets).contains(sn.name) {
            Err(StoreError::AlreadyExists)
        } else {
            Ok(cs.update(i, CollectionView { snippets: cs[i].snippets.push(sn), ..cs[i] }))
        },
    }
}

/// Decision and effect of removing snippet `snippet_name` from collection
/// `coll_name` on behalf of group `group_name`.
pub open spec fn spec_delete_snippet(
    gs: Seq<GroupView>,
    cs: Seq<CollectionView>,
    group_name: Seq<char>,
    coll_name: Seq<char>,
    snippet_name: Seq<char>,
) -> Result<Seq<CollectionView>, StoreError> {
    match spec_access(gs, cs, group_name, coll_name) {
        Err(e) => Err(e),
        Ok(i) => if !snippet_names(cs[i].snippets).contains(snippet_name) {
            Err(StoreError::NotFound(EntityKind::Snippet))
        } else {
            let ss = cs[i].snippets;
            Ok(
                cs.update(
                    i,
                    CollectionView {
                        snippets: ss.remove(first_index(snippet_names(ss), snippet_name)),
                        ..cs[i]
                    },
                ),
            )
        },
    }
}

/// Keeps the first collection of each name, in order.
pub open spec fn first_of_each_collection(cs: Seq<CollectionView>) -> Seq<CollectionView>
    decreases cs.len(),
{
    if cs.len() == 0 {
        cs
    } else {
        let kept = first_of_each_collection(cs.drop_last());
        if collection_names(kept).contains(cs.last().name) {
            kept
        } else {
            kept.push(cs.last())
        }
    }
}

/// Position of the first collection named `key`.
pub fn find_collection(v: &Vec<Collection>, key: &String) -> (r: Option<usize>)
    ensures
        match r {
            Some(k) => is_first_at(collection_names(collections_view(v@)), key@, k as int),
            None => !collection_names(collections_view(v@)).contains(key@),
        },
{
    let ghost names = collection_names(collections_view(v@));
    let mut i: usize = 0;
    while i < v.len()
        invariant
            i <= v@.len(),
            names == collection_names(collections_view(v@)),
            forall|j: int| 0 <= j < i ==> names[j] != key@,
        decreases v@.len() - i,
    {
        if v[i].name == *key {
            return Some(i);
        }
        i = i + 1;
    }
    assert(!names.contains(key@));
    None
}

/// Position of the first snippet named `key`.
pub fn find_snippet(v: &Vec<CodeSnippet>, key: &String) -> (r: Option<usize>)
    ensures
        match r {
            Some(k) => is_first_at(snippet_names(snippets_view(v@)), key@, k as int),
            None => !snippet_names(snippets_view(v@)).contains(key@),
        },
{
    let ghost names = snippet_names(snippets_view(v@));
    let mut i: usize = 0;
    while i < v.len()
        invariant
            i <= v@.len(),
            names == snippet_names(snippets_view(v@)),
            forall|j: int| 0 <= j < i ==> names[j] != key@,
        decreases v@.len() - i,
    {
        if v[i].name == *key {
            return Some(i);
        }
        i = i + 1;
    }
    assert(!names.contains(key@));
    None
}

/// Whether some group in `v` is named `key`.
pub fn embeds_group(v: &Vec<Group>, key: &String) -> (r: bool)
    ensures
        r == group_names(groups_view(v@)).contains(key@),
{
    crate::groups::find_group(v, key).is_some()
}

/// The collections of the application, each name at most once.
pub struct CollectionStore {
    collections: Vec<Collection>,
}

impl View for CollectionStore {
    type V = Seq<CollectionView>;

    closed spec fn view(&self) -> Seq<CollectionView> {
        collections_view(self.collections@)
    }
}

impl CollectionStore {
    /// Names are unique.
    pub open spec fn wf(&self) -> bool {
        collection_names(self@).no_duplicates()
    }

    /// A store without collections.
    pub fn new() -> (r: Self)
        ensures
            r.wf(),
            r@ == Seq::<CollectionView>::empty(),
    {
        let r = CollectionStore { collections: Vec::new() };
        assert(r@ =~= Seq::<CollectionView>::empty());
        r
    }
    /// A store that holds the first collection of each name in `loaded`, in
    /// order.
    pub fn from_collections(loaded: Vec<Collection>) -> (r: Self)
        ensures
            r.wf(),
            r@ == first_of_each_collection(collections_view(loaded@)),
    {
        let ghost all = collections_view(loaded@);
        let mut store = CollectionStore::new();
        let mut i: usize = 0;
        while i < loaded.len()
            invariant
                i <= loaded@.len(),
                all == collections_view(loaded@),
                store.wf(),
                store@ == first_of_each_collection(all.subrange(0, i as int)),
            decreases loaded@.len() - i,
        {
            let c = loaded[i].clone();
            let ghost before = store@;
            assert(all.subrange(0, i + 1).drop_last() =~= all.subrange(0, i as int));
            if find_collection(&store.collections, &c.name).is_none() {
                proof {
                    lemma_push_unique(collection_names(before), c@.name);
                }
                store.collections.push(c);
                assert(store@ =~= before.push(c@));
                assert(collection_names(store@) =~= collection_names(before).push(c@.name));
            }
            i = i + 1;
        }
        assert(all.subrange(0, loaded@.len() as int) =~= all);
        store
    }

    /// Copies of all collections, in store order.
    pub fn get_collections(&self) -> (r: Vec<Collection>)
        ensures
            collections_view(r@) == self@,
    {
        copy_collections(&self.collections)
    }

    /// A copy of the collection named `name`, if there is one.
    pub fn get_collection(&self, name: &str) -> (r: Option<Collection>)
        ensures
            match r {
                Some(c) => spec_get_collection(self@, name@) == Some(c@),
                None => spec_get_collection(self@, name@) == None::<CollectionView>,
            },
    {
        let key = name.to_string();
        match find_collection(&self.collections, &key) {
            Some(k) => {
                proof {
                    lemma_first_index(collection_names(self@), name@, k as int);
                }
                Some(self.collections[k].clone())
            },
            None => None,
        }
    }

    /// Adds the collection `name` unless a collection of that name exists.
    pub fn create_collection(
        &mut self,
        name: &str,
        groups: Vec<Group>,
        snippets: Vec<CodeSnippet>,
        color: &str,
    ) -> (r: Result<(), StoreError>)
        requires
            old(self).wf(),
        ensures
            final(self).wf(),
            carried_out(
                r,
                spec_create_collection(
                    old(self)@,
                    CollectionView {
                        name: name@,
                        groups: groups_view(groups@),
                        snippets: snippets_view(snippets@),
                        color: color@,
                    },
                ),
                old(self)@,
                final(self)@,
            ),
    {
        let key = name.to_string();
        if find_collection(&self.collections, &key).is_some() {
            return Err(StoreError::AlreadyExists);
        }
        let c = Collection { name: key, groups, snippets, color: color.to_string() };
        proof {
            lemma_push_unique(collection_names(self@), c@.name);
        }
        self.collections.push(c);
        assert(self@ =~= old(self)@.push(c@));
        assert(collection_names(self@) =~= collection_names(old(self)@).push(c@.name));
        Ok(())
    }

    /// Gives the collection named `name` the name `new_name`, keeping its
    /// content.
    pub fn rename_collection(&mut self, name: &str, new_name: &str) -> (r: Result<(), StoreError>)
        requires
            old(self).wf(),
        ensures
            final(self).wf(),
            carried_out(
                r,
                spec_rename_collection(old(self)@, name@, new_name@),
                old(self)@,
                final(self)@,
            ),
    {
        let key = name.to_string();
        let new_key = new_name.to_string();
        match find_collection(&self.collections, &key) {
            None => Err(StoreError::NotFound(EntityKind::Collection)),
            Some(k) => {
                if find_collection(&self.collections, &new_key).is_some() {
                    return Err(StoreError::AlreadyExists);
                }
                proof {
                    lemma_first_index(collection_names(self@), name@, k as int);
                    lemma_update_unique(collection_names(self@), k as int, new_name@);
                }
                let mut c = self.collections.remove(k);
                c.name = new_key;
                self.collections.insert(k, c);
                assert(self@ =~= old(self)@.update(
                    k as int,
                    CollectionView { name: new_name@, ..old(self)@[k as int] },
                ));
                assert(collection_names(self@) =~= collection_names(old(self)@).update(
                    k as int,
                    new_name@,
                ));
                Ok(())
            },
        }
    }

    /// Runs the checks of `spec_access`, giving the collection's position.
    fn access(&self, groups: &GroupStore, group_key: &String, coll_key: &String) -> (r: Result<
        usize,
        StoreError,
    >)
        ensures
            match r {
                Ok(i) => spec_access(groups@, self@, group_key@, coll_key@) == Ok::<
                    int,
                    StoreError,
                >(i as int) && i < self@.len(),
                Err(e) => spec_access(groups@, self@, group_key@, coll_key@) == Err::<
                    int,
                    StoreError,
                >(e),
            },
    {
        if !groups.contains(group_key) {
            return Err(StoreError::NotFound(EntityKind::Group));
        }
        match find_collection(&self.collections, coll_key) {
            None => Err(StoreError::NotFound(EntityKind::Collection)),
            Some(k) => {
                proof {
                    lemma_first_index(collection_names(self@), coll_key@, k as int);
                }
                if embeds_group(&self.collections[k].groups, group_key) {
                    Ok(k)
                } else {
                    Err(StoreError::Unauthorized)
                }
            },
        }
    }

    /// Removes collection `collection_name`, provided that group `group_name`
    /// exists and is embedded in it.
    pub fn delete_collection(&mut self, groups: &GroupStore, group_name: &str, collection_name: &str) -> (r:
        Result<(), StoreError>)
        requires
            old(self).wf(),
        ensures
            final(self).wf(),
            carried_out(
                r,
                spec_delete_collection(groups@, old(self)@, group_name@, collection_name@),
                old(self)@,
                final(self)@,
            ),
    {
        let group_key = group_name.to_string();
        let coll_key = collection_name.to_string();
        match self.access(groups, &group_key, &coll_key) {
            Err(e) => Err(e),
            Ok(k) => {
                proof {
                    lemma_remove_unique(collection_names(self@), k as int);
                }
                self.collections.remove(k);
                assert(self@ =~= old(self)@.remove(k as int));
                assert(collection_names(self@) =~= collection_names(old(self)@).remove(k as int));
                Ok(())
            },
        }
    }

    /// Appends a new snippet to collection `collection_name`, provided that
    /// group `group_name` exists and is embedded in it and that the
    /// collection holds no snippet named `snippet_name`.
    pub fn create_snippet(
        &mut self,
        groups: &GroupStore,
        group_name: &str,
        collection_name: &str,
        snippet_name: &str,
        description: &str,
        files: Vec<String>,
        updated_by: &str,
        updated_at: &str,
    ) -> (r: Result<(), StoreError>)
        requires
            old(self).wf(),
        ensures
            final(self).wf(),
            carried_out(
                r,
                spec_create_snippet(
                    groups@,
                    old(self)@,
                    group_name@,
                    collection_name@,
                    SnippetView {
                        name: snippet_name@,
                        description: description@,
                        files: strings_view(files@),
                        updated_by: updated_by@,
                        updated_at: updated_at@,
                    },
                ),
                old(self)@,
                final(self)@,
            ),
    {
        let group_key = group_name.to_string();
        let coll_key = collection_name.to_string();
        let snippet_key = snippet_name.to_string();
        match self.access(groups, &group_key, &coll_key) {
            Err(e) => Err(e),
            Ok(k) => {
                if find_snippet(&self.collections[k].snippets, &snippet_key).is_some() {
                    return Err(StoreError::AlreadyExists);
                }
                let sn = CodeSnippet {
                    name: snippet_key,
                    description: description.to_string(),
                    files,
                    updated_by: updated_by.to_string(),
                    updated_at: updated_at.to_string(),
                };
                let ghost oc = old(self)@[k as int];
                let mut c = self.collections.remove(k);
                c.snippets.push(sn);
                assert(c@.snippets =~= oc.snippets.push(sn@));
                self.collections.insert(k, c);
                assert(self@ =~= old(self)@.update(
                    k as int,
                    CollectionView { snippets: oc.snippets.push(sn@), ..oc },
                ));
                assert(collection_names(self@) =~= collection_names(old(self)@));
                Ok(())
            },
        }
    }

    /// Removes the first snippet named `snippet_name` from collection
    /// `collection_name`, provided that group `group_name` exists and is
    /// embedded in it.
    pub fn delete_snippet(
        &mut self,
        groups: &GroupStore,
        group_name: &str,
        collection_name: &str,
        snippet_name: &str,
    ) -> (r: Result<(), StoreError>)
        requires
            old(self).wf(),
        ensures
            final(self).wf(),
            carried_out(
                r,
                spec_delete_snippet(groups@, old(self)@, group_name@, collection_name@, snippet_name@),
                old(self)@,
                final(self)@,
            ),
    {
        let group_key = group_name.to_string();
        let coll_key = collection_name.to_string();
        let snippet_key = snippet_name.to_string();
        match self.access(groups, &group_key, &coll_key) {
            Err(e) => Err(e),
            Ok(k) => match find_snippet(&self.collections[k].snippets, &snippet_key) {
                None => Err(StoreError::NotFound(EntityKind::Snippet)),
                Some(j) => {
                    let ghost oc = old(self)@[k as int];
                    proof {
                        lemma_first_index(snippet_names(oc.snippets), snippet_name@, j as int);
                    }
                    let mut c = self.collections.remove(k);
                    c.snippets.remove(j);
                    assert(c@.snippets =~= oc.snippets.remove(j as int));
                    self.collections.insert(k, c);
                    assert(self@ =~= old(self)@.update(
                        k as int,
                        CollectionView { snippets: oc.snippets.remove(j as int), ..oc },
                    ));
                    assert(collection_names(self@) =~= collection_names(old(self)@));
                    Ok(())
                },
            },
        }
    }
}

} // verus!
