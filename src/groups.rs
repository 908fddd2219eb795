use vstd::prelude::*;
use crate::model::{
    carried_out, copy_groups, first_index, groups_view, is_first_at, lemma_first_index, lemma_push_unique, lemma_remove_unique, lemma_update_unique,
    strings_view,
    EntityKind, Group, GroupView, StoreError,
};

verus! {

/// The names of `gs`, in order.
pub open spec fn group_names(gs: Seq<GroupView>) -> Seq<Seq<char>> {
    gs.map_values(|g: GroupView| g.name)
}

/// Decision and effect of creating group `g` in `gs`.
pub open spec fn spec_create_group(gs: Seq<GroupView>, g: GroupView) -> Result<
    Seq<GroupView>,
    StoreError,
> {
    if group_names(gs).contains(g.name) {
        Err(StoreError::AlreadyExists)
    } else {
        Ok(gs.push(g))
    }
}

/// Decision and effect of deleting the group named `name` from `gs`.
pub open spec fn spec_delete_group(gs: Seq<GroupView>, name: Seq<char>) -> Result<
    Seq<GroupView>,
    StoreError,
> {
    if !group_names(gs).contains(name) {
        Err(StoreError::NotFound(EntityKind::Group))
    } else {
        Ok(gs.remove(first_index(group_names(gs), name)))
    }
}

/// Decision and effect of renaming the group `name` of `gs` to `new_name`.
pub open spec fn spec_rename_group(gs: Seq<GroupView>, name: Seq<char>, new_name: Seq<char>) -> Result<
    Seq<GroupView>,
    StoreError,
> {
    if !group_names(gs).contains(name) {
        Err(StoreError::NotFound(EntityKind::Group))
    } else if group_names(gs).contains(new_name) {
        Err(StoreError::AlreadyExists)
    } else {
        let i = first_index(group_names(gs), name);
        Ok(gs.update(i, GroupView { name: new_name, ..gs[i] }))
    }
}

/// The group named `name` in `gs`, if any.
pub open spec fn spec_get_group(gs: Seq<GroupView>, name: Seq<char>) -> Option<GroupView> {
    if group_names(gs).contains(name) {
        Some(gs[first_index(group_names(gs), name)])
    } else {
        None
    }
}

/// The group that a store starts with when storage holds none.
pub open spec fn default_group_view() -> GroupView {
    GroupView { name: "default"@, members: seq!["default_member"@], color: "violet"@ }
}

/// Keeps the first group of each name, in order.
pub open spec fn first_of_each_name(gs: Seq<GroupView>) -> Seq<GroupView>
    decreases gs.len(),
{
    if gs.len() == 0 {
        gs
    } else {
        let kept = first_of_each_name(gs.drop_last());
        if group_names(kept).contains(gs.last().name) {
            kept
        } else {
            kept.push(gs.last())
        }
    }
}

/// Decision and effect of starting from the groups `loaded` from storage: the
/// default group when there are none; and whether the result must be saved.
pub open spec fn spec_bootstrap_groups(loaded: Seq<GroupView>) -> (Seq<GroupView>, bool) {
    if loaded.len() == 0 {
        (seq![default_group_view()], true)
    } else {
        (first_of_each_name(loaded), false)
    }
}

/// Position of the first group named `key`.
pub fn find_group(v: &Vec<Group>, key: &String) -> (r: Option<usize>)
    ensures
        match r {
            Some(k) => is_first_at(group_names(groups_view(v@)), key@, k as int),
            None => !group_names(groups_view(v@)).contains(key@),
        },
{
    let ghost names = group_names(groups_view(v@));
    let mut i: usize = 0;
    while i < v.len()
        invariant
            i <= v@.len(),
            names == group_names(groups_view(v@)),
            forall|j: int| 0 <= j < i ==> names[j] != key@,
        decreases v@.len() - i,
    {
        if v[i].name == *key {
            return Some(i);
        }
        i = i + 1;
    }
    assert(!names.contains(key@));
    None
}

/// The groups of the application, each name at most once.
pub struct GroupStore {
    groups: Vec<Group>,
}

impl View for GroupStore {
    type V = Seq<GroupView>;

    closed spec fn view(&self) -> Seq<GroupView> {
        groups_view(self.groups@)
    }
}

impl GroupStore {
    /// Names are unique.
    pub open spec fn wf(&self) -> bool {
        group_names(self@).no_duplicates()
    }

    /// A store without groups.
    pub fn new() -> (r: Self)
        ensures
            r.wf(),
            r@ == Seq::<GroupView>::empty(),
    {
        let r = GroupStore { groups: Vec::new() };
        assert(r@ =~= Seq::<GroupView>::empty());
        r
    }

    /// Adds the group `name` unless a group of that name exists.
    pub fn create_group(&mut self, name: &str, members: Vec<String>, color: &str) -> (r: Result<(), StoreError>)
        requires
            old(self).wf(),
        ensures
            final(self).wf(),
            carried_out(
                r,
                spec_create_group(
                    old(self)@,
                    GroupView { name: name@, members: strings_view(members@), color: color@ },
                ),
                old(self)@,
                final(self)@,
            ),
    {
        let key = name.to_string();
        if find_group(&self.groups, &key).is_some() {
            return Err(StoreError::AlreadyExists);
        }
        let g = Group { name: key, members, color: color.to_string() };
        proof {
            lemma_push_unique(group_names(self@), g@.name);
        }
        self.groups.push(g);
        assert(self@ =~= old(self)@.push(g@));
        assert(group_names(self@) =~= group_names(old(self)@).push(g@.name));
        Ok(())
    }
    /// Copies of all groups, in store order.
    pub fn get_groups(&self) -> (r: Vec<Group>)
        ensures
            groups_view(r@) == self@,
    {
        copy_groups(&self.groups)
    }

    /// A copy of the group named `name`, if there is one.
    pub fn get_group(&self, name: &str) -> (r: Option<Group>)
        ensures
            match r {
                Some(g) => spec_get_group(self@, name@) == Some(g@),
                None => spec_get_group(self@, name@) == None::<GroupView>,
            },
    {
        let key = name.to_string();
        match find_group(&self.groups, &key) {
            Some(k) => {
                proof {
                    lemma_first_index(group_names(self@), name@, k as int);
                }
                Some(self.groups[k].clone())
            },
            None => None,
        }
    }

    /// Whether a group named `name` exists.
    pub fn contains(&self, name: &String) -> (r: bool)
        ensures
            r == group_names(self@).contains(name@),
    {
        find_group(&self.groups, name).is_some()
    }

    /// Removes the group named `name`.
    pub fn delete_group(&mut self, name: &str) -> (r: Result<(), StoreError>)
        requires
            old(self).wf(),
        ensures
            final(self).wf(),
            carried_out(r, spec_delete_group(old(self)@, name@), old(self)@, final(self)@),
    {
        let key = name.to_string();
        match find_group(&self.groups, &key) {
            None => Err(StoreError::NotFound(EntityKind::Group)),
            Some(k) => {
                proof {
                    lemma_first_index(group_names(self@), name@, k as int);
                    lemma_remove_unique(group_names(self@), k as int);
                }
                self.groups.remove(k);
                assert(self@ =~= old(self)@.remove(k as int));
                assert(group_names(self@) =~= group_names(old(self)@).remove(k as int));
                Ok(())
            },
        }
    }

    /// Gives the group named `name` the name `new_name`, keeping its members
    /// and colour.
    pub fn rename_group(&mut self, name: &str, new_name: &str) -> (r: Result<(), StoreError>)
        requires
            old(self).wf(),
        ensures
            final(self).wf(),
            carried_out(
                r,
                spec_rename_group(old(self)@, name@, new_name@),
                old(self)@,
                final(self)@,
            ),
    {
        let key = name.to_string();
        let new_key = new_name.to_string();
        match find_group(&self.groups, &key) {
            None => Err(StoreError::NotFound(EntityKind::Group)),
            Some(k) => {
                if find_group(&self.groups, &new_key).is_some() {
                    return Err(StoreError::AlreadyExists);
                }
                proof {
                    lemma_first_index(group_names(self@), name@, k as int);
                    lemma_update_unique(group_names(self@), k as int, new_name@);
                }
                let mut g = self.groups.remove(k);
                g.name = new_key;
                self.groups.insert(k, g);
                assert(self@ =~= old(self)@.update(
                    k as int,
                    GroupView { name: new_name@, ..old(self)@[k as int] },
                ));
                assert(group_names(self@) =~= group_names(old(self)@).update(k as int, new_name@));
                Ok(())
            },
        }
    }
    /// A store that holds the first group of each name in `loaded`, in order.
    pub fn from_groups(loaded: Vec<Group>) -> (r: Self)
        ensures
            r.wf(),
            r@ == first_of_each_name(groups_view(loaded@)),
    {
        let ghost all = groups_view(loaded@);
        let mut store = GroupStore::new();
        let mut i: usize = 0;
        while i < loaded.len()
            invariant
                i <= loaded@.len(),
                all == groups_view(loaded@),
                store.wf(),
                store@ == first_of_each_name(all.subrange(0, i as int)),
            decreases loaded@.len() - i,
        {
            let g = loaded[i].clone();
            let ghost before = store@;
            assert(all.subrange(0, i + 1).drop_last() =~= all.subrange(0, i as int));
            if find_group(&store.groups, &g.name).is_none() {
                proof {
                    lemma_push_unique(group_names(before), g@.name);
                }
                store.groups.push(g);
                assert(store@ =~= before.push(g@));
                assert(group_names(store@) =~= group_names(before).push(g@.name));
            }
            i = i + 1;
        }
        assert(all.subrange(0, loaded@.len() as int) =~= all);
        store
    }

    /// The starting store for the groups `loaded` from storage: the default
    /// group alone when there are none. The flag says whether the store must
    /// be saved at once.
    pub fn bootstrap(loaded: Vec<Group>) -> (r: (Self, bool))
        ensures
            r.0.wf(),
            (r.0@, r.1) == spec_bootstrap_groups(groups_view(loaded@)),
    {
        if loaded.len() == 0 {
            let mut store = GroupStore::new();
            let g = default_group();
            store.groups.push(g);
            assert(store@ =~= seq![default_group_view()]);
            assert(group_names(store@) =~= seq![g@.name]);
            (store, true)
        } else {
            (GroupStore::from_groups(loaded), false)
        }
    }
}

/// The group that a store starts with when storage holds none.
pub fn default_group() -> (r: Group)
    ensures
        r@ == default_group_view(),
{
    let mut members: Vec<String> = Vec::new();
    members.push("default_member".to_string());
    let r = Group { name: "default".to_string(), members, color: "violet".to_string() };
    assert(strings_view(r.members@) =~= seq!["default_member"@]);
    r
}

} // verus!
