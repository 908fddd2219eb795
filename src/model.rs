use vstd::prelude::*;

verus! {

/// A named set of members with a display colour.
pub struct Group {
    pub name: String,
    pub members: Vec<String>,
    pub color: String,
}

/// A named piece of code: description, file contents and attribution.
pub struct CodeSnippet {
    pub name: String,
    pub description: String,
    pub files: Vec<String>,
    pub updated_by: String,
    pub updated_at: String,
}

/// A named container of embedded group copies and of snippets.
pub struct Collection {
    pub name: String,
    pub groups: Vec<Group>,
    pub snippets: Vec<CodeSnippet>,
    pub color: String,
}

/// What a group holds, as mathematical values.
pub struct GroupView {
    pub name: Seq<char>,
    pub members: Seq<Seq<char>>,
    pub color: Seq<char>,
}

/// What a snippet holds, as mathematical values.
pub struct SnippetView {
    pub name: Seq<char>,
    pub description: Seq<char>,
    pub files: Seq<Seq<char>>,
    pub updated_by: Seq<char>,
    pub updated_at: Seq<char>,
}

/// What a collection holds, as mathematical values.
pub struct CollectionView {
    pub name: Seq<char>,
    pub groups: Seq<GroupView>,
    pub snippets: Seq<SnippetView>,
    pub color: Seq<char>,
}

/// The contents of a list of strings.
pub open spec fn strings_view(v: Seq<String>) -> Seq<Seq<char>> {
    v.map_values(|s: String| s@)
}

/// The contents of a list of groups.
pub open spec fn groups_view(v: Seq<Group>) -> Seq<GroupView> {
    v.map_values(|g: Group| g@)
}

/// The contents of a list of snippets.
pub open spec fn snippets_view(v: Seq<CodeSnippet>) -> Seq<SnippetView> {
    v.map_values(|s: CodeSnippet| s@)
}

/// The contents of a list of collections.
pub open spec fn collections_view(v: Seq<Collection>) -> Seq<CollectionView> {
    v.map_values(|c: Collection| c@)
}

impl View for Group {
    type V = GroupView;

    open spec fn view(&self) -> GroupView {
        GroupView { name: self.name@, members: strings_view(self.members@), color: self.color@ }
    }
}

impl View for CodeSnippet {
    type V = SnippetView;

    open spec fn view(&self) -> SnippetView {
        SnippetView {
            name: self.name@,
            description: self.description@,
            files: strings_view(self.files@),
            updated_by: self.updated_by@,
            updated_at: self.updated_at@,
        }
    }
}

impl View for Collection {
    type V = CollectionView;

    open spec fn view(&self) -> CollectionView {
        CollectionView {
            name: self.name@,
            groups: groups_view(self.groups@),
            snippets: snippets_view(self.snippets@),
            color: self.color@,
        }
    }
}

/// Which kind of entity a lookup failed to find.
#[derive(PartialEq, Eq, Structural, Clone, Copy, Debug)]
pub enum EntityKind {
    Group,
    Collection,
    Snippet,
}

/// Why an operation on the store did not take effect.
#[derive(PartialEq, Eq, Structural, Clone, Copy, Debug)]
pub enum StoreError {
    /// The target name is already taken in its scope.
    AlreadyExists,
    /// A referenced entity does not exist.
    NotFound(EntityKind),
    /// The named group is not among the collection's embedded groups.
    Unauthorized,
    /// Storage could not be read or written.
    PersistenceFailure,
}

/// Copies a list of strings, element by element.
pub fn copy_strings(v: &Vec<String>) -> (r: Vec<String>)
    ensures
        strings_view(r@) == strings_view(v@),
{
    let r = v.clone();
    assert(r@ =~= v@);
    r
}

impl Clone for Group {
    fn clone(&self) -> (r: Self)
        ensures
            r@ == self@,
    {
        Group { name: self.name.clone(), members: copy_strings(&self.members), color: self.color.clone() }
    }
}

impl Clone for CodeSnippet {
    fn clone(&self) -> (r: Self)
        ensures
            r@ == self@,
    {
        CodeSnippet {
            name: self.name.clone(),
            description: self.description.clone(),
            files: copy_strings(&self.files),
            updated_by: self.updated_by.clone(),
            updated_at: self.updated_at.clone(),
        }
    }
}

/// Copies a list of groups, element by element.
pub fn copy_groups(v: &Vec<Group>) -> (r: Vec<Group>)
    ensures
        groups_view(r@) == groups_view(v@),
{
    let mut r: Vec<Group> = Vec::new();
    let mut i: usize = 0;
    while i < v.len()
        invariant
            i <= v@.len(),
            r@.len() == i,
            forall|j: int| 0 <= j < i ==> (#[trigger] r@[j])@ == v@[j]@,
        decreases v@.len() - i,
    {
        r.push(v[i].clone());
        i = i + 1;
    }
    assert(groups_view(r@) =~= groups_view(v@));
    r
}

/// Copies a list of snippets, element by element.
pub fn copy_snippets(v: &Vec<CodeSnippet>) -> (r: Vec<CodeSnippet>)
    ensures
        snippets_view(r@) == snippets_view(v@),
{
    let mut r: Vec<CodeSnippet> = Vec::new();
    let mut i: usize = 0;
    while i < v.len()
        invariant
            i <= v@.len(),
            r@.len() == i,
            forall|j: int| 0 <= j < i ==> (#[trigger] r@[j])@ == v@[j]@,
        decreases v@.len() - i,
    {
        r.push(v[i].clone());
        i = i + 1;
    }
    assert(snippets_view(r@) =~= snippets_view(v@));
    r
}

impl Clone for Collection {
    fn clone(&self) -> (r: Self)
        ensures
            r@ == self@,
    {
        Collection {
            name: self.name.clone(),
            groups: copy_groups(&self.groups),
            snippets: copy_snippets(&self.snippets),
            color: self.color.clone(),
        }
    }
}

/// Copies a list of collections, element by element.
pub fn copy_collections(v: &Vec<Collection>) -> (r: Vec<Collection>)
    ensures
        collections_view(r@) == collections_view(v@),
{
    let mut r: Vec<Collection> = Vec::new();
    let mut i: usize = 0;
    while i < v.len()
        invariant
            i <= v@.len(),
            r@.len() == i,
            forall|j: int| 0 <= j < i ==> (#[trigger] r@[j])@ == v@[j]@,
        decreases v@.len() - i,
    {
        r.push(v[i].clone());
        i = i + 1;
    }
    assert(collections_view(r@) =~= collections_view(v@));
    r
}

/// `k` is the first position of `n` in `names`.
pub open spec fn is_first_at(names: Seq<Seq<char>>, n: Seq<char>, k: int) -> bool {
    &&& 0 <= k < names.len()
    &&& names[k] == n
    &&& forall|j: int| 0 <= j < k ==> names[j] != n
}

/// The first position of `n` in `names`, where `n` occurs there.
pub open spec fn first_index(names: Seq<Seq<char>>, n: Seq<char>) -> int {
    choose|k: int| is_first_at(names, n, k)
}

/// A first position found by search is the one `first_index` names.
pub proof fn lemma_first_index(names: Seq<Seq<char>>, n: Seq<char>, k: int)
    requires
        is_first_at(names, n, k),
    ensures
        first_index(names, n) == k,
        names.contains(n),
{
    let c = first_index(names, n);
    assert(is_first_at(names, n, c));
    if c < k {
        assert(names[c] != n);
    } else if c > k {
        assert(names[k] != n);
    }
    assert(names[k] == n);
}

/// A name that occurs has a first position.
pub proof fn lemma_first_index_exists(names: Seq<Seq<char>>, n: Seq<char>)
    requires
        names.contains(n),
    ensures
        is_first_at(names, n, first_index(names, n)),
    decreases names.len(),
{
    if names[0] == n {
        assert(is_first_at(names, n, 0));
    } else {
        let rest = names.drop_first();
        let w = choose|i: int| 0 <= i < names.len() && names[i] == n;
        assert(rest[w - 1] == n);
        lemma_first_index_exists(rest, n);
        let k = first_index(rest, n);
        assert forall|j: int| 0 <= j < k + 1 implies names[j] != n by {
            if j > 0 {
                assert(names[j] == rest[j - 1]);
            }
        }
        assert(is_first_at(names, n, k + 1));
    }
}

/// How a call that returned `r` and turned `before` into `after` carried out
/// the decision `outcome`.
pub open spec fn carried_out<V>(
    r: Result<(), StoreError>,
    outcome: Result<V, StoreError>,
    before: V,
    after: V,
) -> bool {
    match outcome {
        Ok(v) => r == Ok::<(), StoreError>(()) && after == v,
        Err(e) => r == Err::<(), StoreError>(e) && after == before,
    }
}

/// Appending a fresh name keeps names distinct.
pub proof fn lemma_push_unique(names: Seq<Seq<char>>, n: Seq<char>)
    requires
        names.no_duplicates(),
        !names.contains(n),
    ensures
        names.push(n).no_duplicates(),
{
    let m = names.push(n);
    assert forall|i: int, j: int| 0 <= i < m.len() && 0 <= j < m.len() && i != j implies m[i]
        != m[j] by {
        if i == names.len() as int {
            assert(names[j] == m[j]);
        } else if j == names.len() as int {
            assert(names[i] == m[i]);
        }
    }
}

/// Removing a name keeps names distinct.
pub proof fn lemma_remove_unique(names: Seq<Seq<char>>, k: int)
    requires
        names.no_duplicates(),
        0 <= k < names.len(),
    ensures
        names.remove(k).no_duplicates(),
{
    let m = names.remove(k);
    assert forall|i: int, j: int| 0 <= i < m.len() && 0 <= j < m.len() && i != j implies m[i]
        != m[j] by {
        let oi = if i < k { i } else { i + 1 };
        let oj = if j < k { j } else { j + 1 };
        assert(m[i] == names[oi]);
        assert(m[j] == names[oj]);
    }
}

/// Replacing a name by a fresh one keeps names distinct.
pub proof fn lemma_update_unique(names: Seq<Seq<char>>, k: int, n: Seq<char>)
    requires
        names.no_duplicates(),
        !names.contains(n),
        0 <= k < names.len(),
    ensures
        names.update(k, n).no_duplicates(),
{
    let m = names.update(k, n);
    assert forall|i: int, j: int| 0 <= i < m.len() && 0 <= j < m.len() && i != j implies m[i]
        != m[j] by {
        if i == k {
            assert(names[j] == m[j]);
        } else if j == k {
            assert(names[i] == m[i]);
        } else {
            assert(names[i] == m[i] && names[j] == m[j]);
        }
    }
}

} // verus!
