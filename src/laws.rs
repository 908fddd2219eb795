use vstd::prelude::*;
use crate::collections::{
    collection_index, collection_names, first_of_each_collection, snippet_names, spec_access, spec_create_snippet,
    spec_delete_snippet,
};
use crate::groups::{
    default_group_view, first_of_each_name, group_names, spec_bootstrap_groups, spec_create_group, spec_get_group,
    spec_rename_group,
};
use crate::model::{
    first_index, is_first_at, lemma_first_index, lemma_first_index_exists, CollectionView,
    GroupView, SnippetView, StoreError,
};

verus! {

/// Creating a group twice in a row under one name: the second call is refused
/// with `AlreadyExists`, and where the first call succeeded the group under
/// that name is still the one it created.
pub proof fn law_create_group_twice(gs: Seq<GroupView>, first: GroupView, second: GroupView)
    requires
        first.name == second.name,
    ensures
        ({
            let after = match spec_create_group(gs, first) {
                Ok(s) => s,
                Err(_) => gs,
            };
            &&& spec_create_group(after, second) == Err::<Seq<GroupView>, StoreError>(
                StoreError::AlreadyExists,
            )
            &&& spec_create_group(gs, first) is Ok ==> spec_get_group(after, first.name) == Some(
                first,
            )
        }),
{
    match spec_create_group(gs, first) {
        Ok(s) => {
            assert(group_names(s) =~= group_names(gs).push(first.name));
            assert(is_first_at(group_names(s), first.name, gs.len() as int));
            lemma_first_index(group_names(s), first.name, gs.len() as int);
        },
        Err(_) => {},
    }
}

/// Renaming a group keeps its members and colour: afterwards the old name is
/// gone and the new name holds the group.
pub proof fn law_rename_group(gs: Seq<GroupView>, name: Seq<char>, new_name: Seq<char>)
    requires
        group_names(gs).no_duplicates(),
        spec_rename_group(gs, name, new_name) is Ok,
    ensures
        ({
            let after = spec_rename_group(gs, name, new_name)->Ok_0;
            let before = spec_get_group(gs, name)->Some_0;
            &&& spec_get_group(gs, name) is Some
            &&& !group_names(after).contains(name)
            &&& spec_get_group(after, new_name) == Some(
                GroupView { name: new_name, members: before.members, color: before.color },
            )
        }),
{
    let names = group_names(gs);
    lemma_first_index_exists(names, name);
    let i = first_index(names, name);
    let after = spec_rename_group(gs, name, new_name)->Ok_0;
    let an = group_names(after);
    assert(an =~= names.update(i, new_name));
    assert forall|j: int| 0 <= j < an.len() implies an[j] != name by {
        if j != i {
            assert(names[j] != names[i]);
        }
    }
    assert forall|j: int| 0 <= j < i implies an[j] != new_name by {
        assert(names[j] == an[j]);
    }
    lemma_first_index(an, new_name, i);
}

/// Deleting a snippet and then creating one of the same name in the same
/// collection, on behalf of the same group, succeeds, provided that the
/// collection's snippet names were distinct.
pub proof fn law_delete_then_create_snippet(
    gs: Seq<GroupView>,
    cs: Seq<CollectionView>,
    group_name: Seq<char>,
    coll_name: Seq<char>,
    sn: SnippetView,
)
    requires
        spec_delete_snippet(gs, cs, group_name, coll_name, sn.name) is Ok,
        snippet_names(cs[collection_index(cs, coll_name)].snippets).no_duplicates(),
    ensures
        spec_create_snippet(
            gs,
            spec_delete_snippet(gs, cs, group_name, coll_name, sn.name)->Ok_0,
            group_name,
            coll_name,
            sn,
        ) is Ok,
{
    let i = collection_index(cs, coll_name);
    assert(spec_access(gs, cs, group_name, coll_name) == Ok::<int, StoreError>(i));
    lemma_first_index_exists(collection_names(cs), coll_name);
    let after = spec_delete_snippet(gs, cs, group_name, coll_name, sn.name)->Ok_0;
    assert(collection_names(after) =~= collection_names(cs));
    let ss = cs[i].snippets;
    let names = snippet_names(ss);
    lemma_first_index_exists(names, sn.name);
    let j = first_index(names, sn.name);
    let rest = snippet_names(after[i].snippets);
    assert(rest =~= names.remove(j));
    assert forall|k: int| 0 <= k < rest.len() implies rest[k] != sn.name by {
        let ok = if k < j { k } else { k + 1 };
        assert(rest[k] == names[ok]);
        assert(names[ok] != names[j]);
    }
    assert(spec_access(gs, after, group_name, coll_name) == Ok::<int, StoreError>(i));
}

/// Creating a snippet on behalf of an existing group that the existing target
/// collection does not embed is refused with `Unauthorized`.
pub proof fn law_create_snippet_unembedded_group(
    gs: Seq<GroupView>,
    cs: Seq<CollectionView>,
    group_name: Seq<char>,
    coll_name: Seq<char>,
    sn: SnippetView,
)
    requires
        group_names(gs).contains(group_name),
        collection_names(cs).contains(coll_name),
        !group_names(cs[collection_index(cs, coll_name)].groups).contains(group_name),
    ensures
        spec_create_snippet(gs, cs, group_name, coll_name, sn) == Err::<
            Seq<CollectionView>,
            StoreError,
        >(StoreError::Unauthorized),
{
}

/// Starting twice from storage that holds no group gives, both times, the
/// same single default group, to be saved at once.
pub proof fn law_bootstrap_empty(first: Seq<GroupView>, second: Seq<GroupView>)
    requires
        first.len() == 0,
        second.len() == 0,
    ensures
        spec_bootstrap_groups(first) == spec_bootstrap_groups(second),
        spec_bootstrap_groups(first).0 == seq![default_group_view()],
        spec_bootstrap_groups(first).1,
{
}

/// Rebuilding a group store from the listing of a store whose names are
/// distinct, as loading a saved document does, gives back the same groups.
pub proof fn law_reload_groups(gs: Seq<GroupView>)
    requires
        group_names(gs).no_duplicates(),
    ensures
        first_of_each_name(gs) == gs,
    decreases gs.len(),
{
    if gs.len() > 0 {
        let init = gs.drop_last();
        let names = group_names(gs);
        assert(group_names(init) =~= names.drop_last());
        assert forall|i: int| 0 <= i < init.len() implies group_names(init)[i] != gs.last().name by {
            assert(names[i] != names[gs.len() - 1]);
        }
        law_reload_groups(init);
        assert(init.push(gs.last()) =~= gs);
    }
}

/// Rebuilding a collection store from the listing of a store whose names are
/// distinct, as loading a saved document does, gives back the same
/// collections.
pub proof fn law_reload_collections(cs: Seq<CollectionView>)
    requires
        collection_names(cs).no_duplicates(),
    ensures
        first_of_each_collection(cs) == cs,
    decreases cs.len(),
{
    if cs.len() > 0 {
        let init = cs.drop_last();
        let names = collection_names(cs);
        assert(collection_names(init) =~= names.drop_last());
        assert forall|i: int| 0 <= i < init.len() implies collection_names(init)[i]
            != cs.last().name by {
            assert(names[i] != names[cs.len() - 1]);
        }
        law_reload_collections(init);
        assert(init.push(cs.last()) =~= cs);
    }
}

} // verus!
