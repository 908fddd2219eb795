use snippet_store::{
    default_group, CodeSnippet, Collection, CollectionStore, EntityKind, Group, GroupStore,
    StoreError,
};

fn strings(v: &[&str]) -> Vec<String> {
    v.iter().map(|s| s.to_string()).collect()
}

fn group(name: &str, members: &[&str], color: &str) -> Group {
    Group { name: name.to_string(), members: strings(members), color: color.to_string() }
}

fn snippet(name: &str) -> CodeSnippet {
    CodeSnippet {
        name: name.to_string(),
        description: "d".to_string(),
        files: strings(&["f"]),
        updated_by: "u".to_string(),
        updated_at: "t".to_string(),
    }
}

/// A group store with "team", and a collection store with "proj" embedding it.
fn team_and_proj() -> (GroupStore, CollectionStore) {
    let mut gs = GroupStore::new();
    assert_eq!(gs.create_group("team", strings(&["alice", "bob"]), "blue"), Ok(()));
    let mut cs = CollectionStore::new();
    let snap = gs.get_group("team").unwrap();
    assert_eq!(cs.create_collection("proj", vec![snap], vec![], "red"), Ok(()));
    (gs, cs)
}

#[test]
fn create_group_twice_keeps_first() {
    let mut gs = GroupStore::new();
    assert_eq!(gs.create_group("n", strings(&["a"]), "blue"), Ok(()));
    assert_eq!(gs.create_group("n", strings(&["b", "c"]), "red"), Err(StoreError::AlreadyExists));
    let g = gs.get_group("n").unwrap();
    assert_eq!(g.members, strings(&["a"]));
    assert_eq!(g.color, "blue");
    assert_eq!(gs.get_groups().len(), 1);
}

#[test]
fn get_group_absent_is_none() {
    let gs = GroupStore::new();
    assert!(gs.get_group("nobody").is_none());
    assert!(gs.get_groups().is_empty());
}

#[test]
fn delete_group_found_and_missing() {
    let mut gs = GroupStore::new();
    assert_eq!(gs.delete_group("x"), Err(StoreError::NotFound(EntityKind::Group)));
    gs.create_group("x", vec![], "c").unwrap();
    gs.create_group("y", vec![], "c").unwrap();
    assert_eq!(gs.delete_group("x"), Ok(()));
    assert!(gs.get_group("x").is_none());
    assert!(gs.get_group("y").is_some());
}

#[test]
fn rename_group_keeps_members_and_color() {
    let mut gs = GroupStore::new();
    gs.create_group("old", strings(&["m1", "m1", "m2"]), "green").unwrap();
    assert_eq!(gs.rename_group("old", "new"), Ok(()));
    assert!(gs.get_group("old").is_none());
    let g = gs.get_group("new").unwrap();
    assert_eq!(g.name, "new");
    assert_eq!(g.members, strings(&["m1", "m1", "m2"]));
    assert_eq!(g.color, "green");
}

#[test]
fn rename_group_errors_in_order() {
    let mut gs = GroupStore::new();
    gs.create_group("a", vec![], "c").unwrap();
    gs.create_group("b", vec![], "c").unwrap();
    assert_eq!(gs.rename_group("zz", "b"), Err(StoreError::NotFound(EntityKind::Group)));
    assert_eq!(gs.rename_group("a", "b"), Err(StoreError::AlreadyExists));
    assert_eq!(gs.rename_group("a", "a"), Err(StoreError::AlreadyExists));
    assert!(gs.get_group("a").is_some());
}

#[test]
fn create_collection_twice() {
    let (_gs, mut cs) = team_and_proj();
    assert_eq!(cs.create_collection("proj", vec![], vec![], "x"), Err(StoreError::AlreadyExists));
    assert_eq!(cs.get_collection("proj").unwrap().color, "red");
    assert_eq!(cs.get_collections().len(), 1);
    assert!(cs.get_collection("other").is_none());
}

#[test]
fn rename_collection_cases() {
    let (_gs, mut cs) = team_and_proj();
    cs.create_collection("other", vec![], vec![snippet("s")], "x").unwrap();
    assert_eq!(cs.rename_collection("nope", "z"), Err(StoreError::NotFound(EntityKind::Collection)));
    assert_eq!(cs.rename_collection("proj", "other"), Err(StoreError::AlreadyExists));
    assert_eq!(cs.rename_collection("other", "renamed"), Ok(()));
    assert!(cs.get_collection("other").is_none());
    let c = cs.get_collection("renamed").unwrap();
    assert_eq!(c.name, "renamed");
    assert_eq!(c.snippets.len(), 1);
    assert_eq!(c.color, "x");
}

#[test]
fn snippet_scenario() {
    let (gs, mut cs) = team_and_proj();
    let r = cs.create_snippet(
        &gs, "team", "proj", "util", "utility funcs", strings(&["print('x')"]), "alice", "2024-01-01",
    );
    assert_eq!(r, Ok(()));
    let c = cs.get_collection("proj").unwrap();
    assert_eq!(c.snippets.len(), 1);
    assert_eq!(c.snippets[0].name, "util");
    assert_eq!(c.snippets[0].description, "utility funcs");
    assert_eq!(c.snippets[0].files, strings(&["print('x')"]));
    assert_eq!(c.snippets[0].updated_by, "alice");
    assert_eq!(c.snippets[0].updated_at, "2024-01-01");
    let again = cs.create_snippet(
        &gs, "team", "proj", "util", "utility funcs", strings(&["print('x')"]), "alice", "2024-01-01",
    );
    assert_eq!(again, Err(StoreError::AlreadyExists));
    assert_eq!(cs.get_collection("proj").unwrap().snippets.len(), 1);
}

#[test]
fn delete_collection_unknown_group() {
    let (gs, mut cs) = team_and_proj();
    assert_eq!(
        cs.delete_collection(&gs, "ghost", "proj"),
        Err(StoreError::NotFound(EntityKind::Group))
    );
    assert!(cs.get_collection("proj").is_some());
}

#[test]
fn delete_collection_cases() {
    let (mut gs, mut cs) = team_and_proj();
    gs.create_group("outsider", vec![], "c").unwrap();
    assert_eq!(
        cs.delete_collection(&gs, "team", "nope"),
        Err(StoreError::NotFound(EntityKind::Collection))
    );
    assert_eq!(cs.delete_collection(&gs, "outsider", "proj"), Err(StoreError::Unauthorized));
    assert_eq!(cs.delete_collection(&gs, "team", "proj"), Ok(()));
    assert!(cs.get_collection("proj").is_none());
}

#[test]
fn create_snippet_unembedded_group_is_unauthorized() {
    let (mut gs, mut cs) = team_and_proj();
    gs.create_group("other", vec![], "c").unwrap();
    let r = cs.create_snippet(&gs, "other", "proj", "s", "d", vec![], "u", "t");
    assert_eq!(r, Err(StoreError::Unauthorized));
    assert!(cs.get_collection("proj").unwrap().snippets.is_empty());
}

#[test]
fn create_snippet_check_order() {
    let (gs, mut cs) = team_and_proj();
    let r = cs.create_snippet(&gs, "ghost", "nope", "s", "d", vec![], "u", "t");
    assert_eq!(r, Err(StoreError::NotFound(EntityKind::Group)));
    let r = cs.create_snippet(&gs, "team", "nope", "s", "d", vec![], "u", "t");
    assert_eq!(r, Err(StoreError::NotFound(EntityKind::Collection)));
}

#[test]
fn delete_then_create_snippet() {
    let (gs, mut cs) = team_and_proj();
    cs.create_snippet(&gs, "team", "proj", "a", "d", vec![], "u", "t").unwrap();
    cs.create_snippet(&gs, "team", "proj", "b", "d", vec![], "u", "t").unwrap();
    assert_eq!(cs.delete_snippet(&gs, "team", "proj", "a"), Ok(()));
    let names: Vec<String> =
        cs.get_collection("proj").unwrap().snippets.iter().map(|s| s.name.clone()).collect();
    assert_eq!(names, strings(&["b"]));
    assert_eq!(cs.create_snippet(&gs, "team", "proj", "a", "d2", vec![], "u", "t"), Ok(()));
    let names: Vec<String> =
        cs.get_collection("proj").unwrap().snippets.iter().map(|s| s.name.clone()).collect();
    assert_eq!(names, strings(&["b", "a"]));
}

#[test]
fn delete_snippet_errors() {
    let (mut gs, mut cs) = team_and_proj();
    gs.create_group("other", vec![], "c").unwrap();
    assert_eq!(
        cs.delete_snippet(&gs, "ghost", "proj", "s"),
        Err(StoreError::NotFound(EntityKind::Group))
    );
    assert_eq!(
        cs.delete_snippet(&gs, "team", "nope", "s"),
        Err(StoreError::NotFound(EntityKind::Collection))
    );
    assert_eq!(cs.delete_snippet(&gs, "other", "proj", "s"), Err(StoreError::Unauthorized));
    assert_eq!(
        cs.delete_snippet(&gs, "team", "proj", "s"),
        Err(StoreError::NotFound(EntityKind::Snippet))
    );
}

#[test]
fn embedded_group_is_a_copy() {
    let (mut gs, mut cs) = team_and_proj();
    gs.rename_group("team", "crew").unwrap();
    let c = cs.get_collection("proj").unwrap();
    assert_eq!(c.groups[0].name, "team");
    assert_eq!(c.groups[0].members, strings(&["alice", "bob"]));
    // the top-level group is gone under its old name, so the check on it fails
    let r = cs.create_snippet(&gs, "team", "proj", "s", "d", vec![], "u", "t");
    assert_eq!(r, Err(StoreError::NotFound(EntityKind::Group)));
}

#[test]
fn deleting_a_group_leaves_collections() {
    let (mut gs, cs) = team_and_proj();
    assert_eq!(gs.delete_group("team"), Ok(()));
    let c = cs.get_collection("proj").unwrap();
    assert_eq!(c.groups.len(), 1);
    assert_eq!(c.groups[0].name, "team");
}

#[test]
fn bootstrap_empty_gives_default_twice() {
    let (a, save_a) = GroupStore::bootstrap(vec![]);
    let (b, save_b) = GroupStore::bootstrap(Vec::new());
    assert!(save_a && save_b);
    let ga = a.get_groups();
    let gb = b.get_groups();
    assert_eq!(ga.len(), 1);
    assert_eq!(gb.len(), 1);
    assert_eq!(ga[0].name, "default");
    assert_eq!(ga[0].members, strings(&["default_member"]));
    assert_eq!(ga[0].color, "violet");
    assert_eq!(ga[0].name, gb[0].name);
    assert_eq!(ga[0].members, gb[0].members);
    assert_eq!(ga[0].color, gb[0].color);
    assert_eq!(default_group().name, "default");
}

#[test]
fn bootstrap_loaded_keeps_first_of_each_name() {
    let loaded = vec![group("a", &["1"], "c1"), group("b", &[], "c2"), group("a", &["2"], "c3")];
    let (store, save) = GroupStore::bootstrap(loaded);
    assert!(!save);
    let gs = store.get_groups();
    assert_eq!(gs.len(), 2);
    assert_eq!(gs[0].name, "a");
    assert_eq!(gs[0].color, "c1");
    assert_eq!(gs[1].name, "b");
}

#[test]
fn from_collections_keeps_first_of_each_name() {
    let c1 = Collection { name: "p".to_string(), groups: vec![], snippets: vec![], color: "1".to_string() };
    let c2 = Collection { name: "q".to_string(), groups: vec![], snippets: vec![], color: "2".to_string() };
    let c3 = Collection { name: "p".to_string(), groups: vec![], snippets: vec![], color: "3".to_string() };
    let cs = CollectionStore::from_collections(vec![c1, c2, c3]);
    let all = cs.get_collections();
    assert_eq!(all.len(), 2);
    assert_eq!(all[0].color, "1");
    assert_eq!(all[1].name, "q");
    assert!(CollectionStore::from_collections(vec![]).get_collections().is_empty());
}

#[test]
fn clones_are_equal_in_content() {
    let g = group("g", &["x", "y"], "c");
    let h = g.clone();
    assert_eq!(h.name, "g");
    assert_eq!(h.members, strings(&["x", "y"]));
    let c = Collection { name: "p".to_string(), groups: vec![g], snippets: vec![snippet("s")], color: "k".to_string() };
    let d = c.clone();
    assert_eq!(d.groups[0].members, strings(&["x", "y"]));
    assert_eq!(d.snippets[0].files, strings(&["f"]));
}

#[test]
fn persistence_failure_is_distinct() {
    assert_ne!(StoreError::PersistenceFailure, StoreError::AlreadyExists);
    assert_ne!(StoreError::NotFound(EntityKind::Group), StoreError::NotFound(EntityKind::Collection));
}

#[test]
fn reload_from_listing_gives_same_content() {
    let (gs, mut cs) = team_and_proj();
    cs.create_snippet(&gs, "team", "proj", "util", "d", strings(&["a", "b"]), "u", "t").unwrap();
    cs.create_collection("second", vec![], vec![], "c").unwrap();
    let reloaded = GroupStore::from_groups(gs.get_groups());
    let before = gs.get_groups();
    let after = reloaded.get_groups();
    assert_eq!(before.len(), after.len());
    for (b, a) in before.iter().zip(after.iter()) {
        assert_eq!((&b.name, &b.members, &b.color), (&a.name, &a.members, &a.color));
    }
    let reloaded = CollectionStore::from_collections(cs.get_collections());
    let before = cs.get_collections();
    let after = reloaded.get_collections();
    assert_eq!(before.len(), after.len());
    for (b, a) in before.iter().zip(after.iter()) {
        assert_eq!((&b.name, &b.color), (&a.name, &a.color));
        assert_eq!(b.groups.len(), a.groups.len());
        assert_eq!(b.snippets.len(), a.snippets.len());
        for (x, y) in b.snippets.iter().zip(a.snippets.iter()) {
            assert_eq!((&x.name, &x.files, &x.updated_at), (&y.name, &y.files, &y.updated_at));
        }
    }
}
