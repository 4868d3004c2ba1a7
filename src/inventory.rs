use vstd::prelude::*;

use vstd::pervasive::VecAdditionalExecFns;

use crate::repo::{repo_views, GitRepo};
use crate::text::{lemma_name_lt_total, lemma_name_lt_trans, name_lt, str_lt};

verus! {

/// Names in strictly increasing order: sorted, no name twice.
pub open spec fn strictly_sorted(names: Seq<Seq<char>>) -> bool {
    forall|i: int, j: int| 0 <= i < j < names.len() ==> name_lt(names[i], names[j])
}

/// `names` with `p` put in its place, unless `p` stands at the point where it
/// would go.
pub open spec fn insert_sorted(names: Seq<Seq<char>>, p: Seq<char>) -> Seq<Seq<char>>
    decreases names.len(),
{
    if names.len() == 0 {
        seq![p]
    } else if names[0] == p {
        names
    } else if name_lt(p, names[0]) {
        seq![p] + names
    } else {
        seq![names[0]] + insert_sorted(names.drop_first(), p)
    }
}

/// The names of `names`, sorted, each once.
pub open spec fn normalized(names: Seq<Seq<char>>) -> Seq<Seq<char>>
    decreases names.len(),
{
    if names.len() == 0 {
        seq![]
    } else {
        insert_sorted(normalized(names.drop_last()), names.last())
    }
}

/// A group's project list after `p` is merged into it: the old names and `p`,
/// sorted, each once.
pub open spec fn merged_names(names: Seq<Seq<char>>, p: Seq<char>) -> Seq<Seq<char>> {
    insert_sorted(normalized(names), p)
}

pub open spec fn views(v: Seq<String>) -> Seq<Seq<char>> {
    v.map_values(|s: String| s@)
}

/// Inserting into a sorted list keeps it sorted and adds exactly `p`.
proof fn lemma_insert_sorted(names: Seq<Seq<char>>, p: Seq<char>)
    requires
        strictly_sorted(names),
    ensures
        strictly_sorted(insert_sorted(names, p)),
        insert_sorted(names, p).to_set() == names.to_set().insert(p),
        names.contains(p) ==> insert_sorted(names, p) == names,
    decreases names.len(),
{
    let r = insert_sorted(names, p);
    if names.len() == 0 {
        assert(r.to_set() =~= names.to_set().insert(p)) by {
            assert(r[0] == p);
        }
    } else if names[0] == p {
        assert(r.to_set() =~= names.to_set().insert(p)) by {
            assert(names.contains(names[0]));
        }
    } else if name_lt(p, names[0]) {
        assert forall|i: int, j: int| 0 <= i < j < r.len() implies name_lt(r[i], r[j]) by {
            if i == 0 {
                lemma_name_lt_trans(p, names[0], names[j - 1]);
            }
        }
        assert(r.to_set() =~= names.to_set().insert(p)) by {
            assert(r[0] == p);
            assert forall|x: Seq<char>| names.contains(x) implies r.contains(x) by {
                let k = choose|k: int| 0 <= k < names.len() && names[k] == x;
                assert(r[k + 1] == x);
            }
        }
        if names.contains(p) {
            let k = choose|k: int| 0 <= k < names.len() && names[k] == p;
            lemma_name_lt_total(names[0], p);
            assert(false);
        }
    } else {
        let rest = names.drop_first();
        assert(strictly_sorted(rest));
        lemma_insert_sorted(rest, p);
        let tail = insert_sorted(rest, p);
        lemma_name_lt_total(p, names[0]);
        assert forall|i: int, j: int| 0 <= i < j < r.len() implies name_lt(r[i], r[j]) by {
            if i == 0 {
                assert(tail.contains(r[j]));
                if r[j] != p {
                    assert(tail.to_set().contains(r[j]));
                    let k = choose|k: int| 0 <= k < rest.len() && rest[k] == r[j];
                    assert(names[k + 1] == r[j]);
                }
            } else {
                assert(r[i] == tail[i - 1]);
                assert(r[j] == tail[j - 1]);
            }
        }
        assert(r.to_set() =~= names.to_set().insert(p)) by {
            assert forall|x: Seq<char>| r.contains(x) implies names.to_set().insert(p).contains(x) by {
                let k = choose|k: int| 0 <= k < r.len() && r[k] == x;
                if k > 0 {
                    assert(tail.contains(tail[k - 1]));
                    assert(tail.to_set().contains(x));
                    if x != p {
                        let m = choose|m: int| 0 <= m < rest.len() && rest[m] == x;
                        assert(names[m + 1] == x);
                    }
                }
            }
            assert forall|x: Seq<char>| names.to_set().insert(p).contains(x) implies r.contains(x) by {
                if x == p {
                    assert(tail.to_set().contains(p));
                    let m = choose|m: int| 0 <= m < tail.len() && tail[m] == p;
                    assert(r[m + 1] == p);
                } else if x == names[0] {
                    assert(r[0] == x);
                } else {
                    let m = choose|m: int| 0 <= m < names.len() && names[m] == x;
                    assert(rest[m - 1] == x);
                    assert(rest.to_set().contains(x));
                    assert(tail.to_set().contains(x));
                    let t = choose|t: int| 0 <= t < tail.len() && tail[t] == x;
                    assert(r[t + 1] == x);
                }
            }
        }
        if names.contains(p) {
            let k = choose|k: int| 0 <= k < names.len() && names[k] == p;
            assert(rest[k - 1] == p);
            assert(rest.contains(p));
            assert(r =~= names);
        }
    }
}

/// Normalizing gives a sorted list of the same names.
proof fn lemma_normalized(names: Seq<Seq<char>>)
    ensures
        strictly_sorted(normalized(names)),
        normalized(names).to_set() == names.to_set(),
    decreases names.len(),
{
    if names.len() > 0 {
        let init = names.drop_last();
        lemma_normalized(init);
        lemma_insert_sorted(normalized(init), names.last());
        assert(names.to_set() =~= init.to_set().insert(names.last())) by {
            assert forall|x: Seq<char>| names.contains(x) implies init.to_set().insert(
                names.last(),
            ).contains(x) by {
                let k = choose|k: int| 0 <= k < names.len() && names[k] == x;
                if k < names.len() - 1 {
                    assert(init[k] == x);
                }
            }
            assert forall|x: Seq<char>| init.contains(x) implies names.contains(x) by {
                let k = choose|k: int| 0 <= k < init.len() && init[k] == x;
                assert(names[k] == x);
            }
        }
    } else {
        assert(normalized(names).to_set() =~= names.to_set());
    }
}

/// A sorted list of distinct names is its own normal form.
proof fn lemma_normalized_sorted(names: Seq<Seq<char>>)
    requires
        strictly_sorted(names),
    ensures
        normalized(names) == names,
    decreases names.len(),
{
    if names.len() > 0 {
        let init = names.drop_last();
        assert(strictly_sorted(init));
        lemma_normalized_sorted(init);
        lemma_insert_sorted_at_end(init, names.last());
        assert(init.push(names.last()) =~= names);
    }
}

/// A name above every name of a sorted list goes at its end.
proof fn lemma_insert_sorted_at_end(names: Seq<Seq<char>>, p: Seq<char>)
    requires
        forall|i: int| 0 <= i < names.len() ==> name_lt(#[trigger] names[i], p),
    ensures
        insert_sorted(names, p) == names.push(p),
    decreases names.len(),
{
    if names.len() > 0 {
        lemma_name_lt_total(names[0], p);
        let rest = names.drop_first();
        assert forall|i: int| 0 <= i < rest.len() implies name_lt(#[trigger] rest[i], p) by {
            assert(rest[i] == names[i + 1]);
        }
        lemma_insert_sorted_at_end(rest, p);
        assert(seq![names[0]] + rest.push(p) =~= names.push(p));
    } else {
        assert(seq![p] =~= names.push(p));
    }
}

/// The merged list holds the old names and `p`, sorted, each once.
pub proof fn lemma_merged_names(names: Seq<Seq<char>>, p: Seq<char>)
    ensures
        strictly_sorted(merged_names(names, p)),
        merged_names(names, p).to_set() == names.to_set().insert(p),
{
    lemma_normalized(names);
    lemma_insert_sorted(normalized(names), p);
}

/// Merging a name a second time changes nothing.
pub proof fn lemma_merged_names_idempotent(names: Seq<Seq<char>>, p: Seq<char>)
    ensures
        merged_names(merged_names(names, p), p) == merged_names(names, p),
{
    let m = merged_names(names, p);
    lemma_merged_names(names, p);
    lemma_normalized_sorted(m);
    assert(m.to_set().contains(p));
    lemma_insert_sorted(m, p);
}

/// Passing over a name that sorts before `p`.
proof fn lemma_insert_sorted_skip(names: Seq<Seq<char>>, p: Seq<char>, i: int)
    requires
        0 <= i < names.len(),
        name_lt(names[i], p),
    ensures
        insert_sorted(names.skip(i), p) == seq![names[i]] + insert_sorted(names.skip(i + 1), p),
{
    lemma_name_lt_total(names[i], p);
    lemma_name_lt_total(p, p);
    assert(names.skip(i).drop_first() =~= names.skip(i + 1));
}

/// Puts `p` into the sorted list `v` at its place, unless it is there already.
fn insert_name(v: &mut Vec<String>, p: String)
    ensures
        views(final(v)@) == insert_sorted(views(old(v)@), p@),
{
    let ghost names = views(v@);
    let mut i: usize = 0;
    assert(names.skip(0) =~= names);
    assert(names.take(0) + names.skip(0) =~= names);
    while i < v.len() && str_lt(v[i].as_str(), p.as_str())
        invariant
            v@ == old(v)@,
            names == views(v@),
            0 <= i <= v@.len(),
            insert_sorted(names, p@) == names.take(i as int) + insert_sorted(
                names.skip(i as int),
                p@,
            ),
        decreases v@.len() - i,
    {
        proof {
            lemma_insert_sorted_skip(names, p@, i as int);
            assert(names.take(i + 1) =~= names.take(i as int) + seq![names[i as int]]);
        }
        i = i + 1;
    }
    if i < v.len() && v[i] == p {
        assert(names.take(i as int) + names.skip(i as int) =~= names);
        return;
    }
    proof {
        if i < v@.len() {
            lemma_name_lt_total(names[i as int], p@);
        }
    }
    v.insert(i, p);
    assert(views(v@) =~= names.take(i as int) + insert_sorted(names.skip(i as int), p@));
}

/// The project list of a group after `p` is merged into it: the old names and
/// `p`, in Rust's string order, each once.
pub fn merge_names(names: &Vec<String>, p: &str) -> (r: Vec<String>)
    ensures
        views(r@) == merged_names(views(names@), p@),
        strictly_sorted(views(r@)),
        views(r@).to_set() == views(names@).to_set().insert(p@),
{
    let mut r = normalize_names(names);
    insert_name(&mut r, p.to_owned());
    proof {
        lemma_merged_names(views(names@), p@);
    }
    r
}

/// The names of `names`, in Rust's string order, each once.
pub fn normalize_names(names: &Vec<String>) -> (r: Vec<String>)
    ensures
        views(r@) == normalized(views(names@)),
        strictly_sorted(views(r@)),
        views(r@).to_set() == views(names@).to_set(),
{
    let ghost all = views(names@);
    let mut r: Vec<String> = Vec::new();
    let mut k: usize = 0;
    assert(all.take(0) =~= seq![]);
    while k < names.len()
        invariant
            all == views(names@),
            0 <= k <= names@.len(),
            views(r@) == normalized(all.take(k as int)),
        decreases names@.len() - k,
    {
        insert_name(&mut r, names[k].clone());
        assert(all.take(k + 1).drop_last() =~= all.take(k as int));
        k = k + 1;
    }
    assert(all.take(names@.len() as int) =~= all);
    proof {
        lemma_normalized(all);
    }
    r
}

/// One group of an inventory: its path and the names of its projects.
#[derive(Debug)]
pub struct Group {
    pub slug: String,
    pub projects: Vec<String>,
}

/// The mapping from group path to project names that a list of groups gives,
/// a later group of the same path taking the place of an earlier one.
pub open spec fn groups_map(gs: Seq<Group>) -> Map<Seq<char>, Seq<Seq<char>>>
    decreases gs.len(),
{
    if gs.len() == 0 {
        Map::empty()
    } else {
        groups_map(gs.drop_last()).insert(gs.last().slug@, views(gs.last().projects@))
    }
}

/// Each group's names are sorted, each once.
pub open spec fn sorted_groups(gs: Seq<Group>) -> bool {
    forall|i: int| 0 <= i < gs.len() ==> strictly_sorted(views((#[trigger] gs[i]).projects@))
}

pub open spec fn unique_slugs(gs: Seq<Group>) -> bool {
    forall|i: int, j: int| 0 <= i < j < gs.len() ==> gs[i].slug@ != gs[j].slug@
}

/// A path is mapped exactly when some group has it; with distinct paths, to
/// that group's names.
proof fn lemma_groups_map_lookup(gs: Seq<Group>, k: Seq<char>)
    requires
        unique_slugs(gs),
    ensures
        groups_map(gs).contains_key(k) <==> exists|i: int|
            0 <= i < gs.len() && (#[trigger] gs[i]).slug@ == k,
        forall|i: int|
            0 <= i < gs.len() && (#[trigger] gs[i]).slug@ == k ==> groups_map(gs)[k] == views(
                gs[i].projects@,
            ),
    decreases gs.len(),
{
    if gs.len() > 0 {
        let init = gs.drop_last();
        lemma_groups_map_lookup(init, k);
        if groups_map(gs).contains_key(k) && k != gs.last().slug@ {
            let i = choose|i: int| 0 <= i < init.len() && (#[trigger] init[i]).slug@ == k;
            assert(gs[i] == init[i]);
        }
        assert forall|i: int| 0 <= i < gs.len() && (#[trigger] gs[i]).slug@ == k implies groups_map(
            gs,
        )[k] == views(gs[i].projects@) by {
            if i < gs.len() - 1 {
                assert(init[i] == gs[i]);
            }
        }
        if exists|i: int| 0 <= i < gs.len() && (#[trigger] gs[i]).slug@ == k {
            let i = choose|i: int| 0 <= i < gs.len() && (#[trigger] gs[i]).slug@ == k;
            if i < gs.len() - 1 {
                assert(init[i] == gs[i]);
            }
        }
    }
}

/// Replacing a group by one of the same path updates that path alone.
proof fn lemma_groups_map_update(gs: Seq<Group>, i: int, g: Group)
    requires
        unique_slugs(gs),
        0 <= i < gs.len(),
        g.slug@ == gs[i].slug@,
    ensures
        groups_map(gs.update(i, g)) == groups_map(gs).insert(g.slug@, views(g.projects@)),
    decreases gs.len(),
{
    let ng = gs.update(i, g);
    let init = gs.drop_last();
    if i == gs.len() - 1 {
        assert(ng.drop_last() =~= init);
        assert(groups_map(ng) =~= groups_map(gs).insert(g.slug@, views(g.projects@)));
    } else {
        assert(ng.drop_last() =~= init.update(i, g));
        lemma_groups_map_update(init, i, g);
        assert(gs[i].slug@ != gs.last().slug@);
        assert(groups_map(ng) =~= groups_map(gs).insert(g.slug@, views(g.projects@)));
    }
}

/// An inventory after `project` is merged into `group`: that group holds its
/// old names and `project`, sorted, each once; every other group is as it was.
pub open spec fn merge_spec(
    inv: Map<Seq<char>, Seq<Seq<char>>>,
    group: Seq<char>,
    project: Seq<char>,
) -> Map<Seq<char>, Seq<Seq<char>>> {
    let old_names = if inv.contains_key(group) {
        inv[group]
    } else {
        seq![]
    };
    inv.insert(group, merged_names(old_names, project))
}

/// One host's inventory: group path to the names of its projects.
pub struct Projects {
    groups: Vec<Group>,
}

impl View for Projects {
    type V = Map<Seq<char>, Seq<Seq<char>>>;

    closed spec fn view(&self) -> Map<Seq<char>, Seq<Seq<char>>> {
        groups_map(self.groups@)
    }
}

impl Projects {
    /// No two groups share a path, and each group's names are sorted, each
    /// once.
    pub closed spec fn well_formed(&self) -> bool {
        unique_slugs(self.groups@) && sorted_groups(self.groups@)
    }

    /// In a well-formed inventory every group's names are sorted, each once.
    pub proof fn lemma_names_sorted(&self, group: Seq<char>)
        requires
            self.well_formed(),
            self@.contains_key(group),
        ensures
            strictly_sorted(self@[group]),
    {
        lemma_groups_map_lookup(self.groups@, group);
        let i = choose|i: int| 0 <= i < self.groups@.len() && (#[trigger] self.groups@[i]).slug@ == group;
        assert(strictly_sorted(views(self.groups@[i].projects@)));
    }

    /// An empty inventory, as a host without an inventory file has.
    pub fn new() -> (r: Projects)
        ensures
            r.well_formed(),
            r@ == Map::<Seq<char>, Seq<Seq<char>>>::empty(),
    {
        Projects { groups: Vec::new() }
    }

    /// The position of the group with path `slug`, if there is one.
    fn find_group(&self, slug: &String) -> (r: Option<usize>)
        requires
            self.well_formed(),
        ensures
            r is None <==> !self@.contains_key(slug@),
            r matches Some(i) ==> i < self.groups@.len() && self.groups@[i as int].slug@ == slug@,
    {
        let mut i: usize = 0;
        while i < self.groups.len()
            invariant
                unique_slugs(self.groups@),
                0 <= i <= self.groups@.len(),
                forall|k: int| 0 <= k < i ==> (#[trigger] self.groups@[k]).slug@ != slug@,
            decreases self.groups@.len() - i,
        {
            if self.groups[i].slug == *slug {
                proof {
                    lemma_groups_map_lookup(self.groups@, slug@);
                    assert(self.groups@[i as int].slug@ == slug@);
                }
                return Some(i);
            }
            i = i + 1;
        }
        proof {
            lemma_groups_map_lookup(self.groups@, slug@);
        }
        None
    }

    /// Sets the names of group `slug`, sorted and each once, adding the group
    /// where it is missing.
    pub fn set_group(&mut self, slug: String, projects: Vec<String>)
        requires
            old(self).well_formed(),
        ensures
            final(self).well_formed(),
            final(self)@ == old(self)@.insert(slug@, normalized(views(projects@))),
    {
        let names = normalize_names(&projects);
        self.put_group(slug, names);
    }

    /// Sets the names of group `slug` to the sorted `names`.
    fn put_group(&mut self, slug: String, names: Vec<String>)
        requires
            old(self).well_formed(),
            strictly_sorted(views(names@)),
        ensures
            final(self).well_formed(),
            final(self)@ == old(self)@.insert(slug@, views(names@)),
    {
        match self.find_group(&slug) {
            Some(i) => {
                let g = Group { slug, projects: names };
                proof {
                    lemma_groups_map_update(self.groups@, i as int, g);
                }
                self.groups.set(i, g);
                assert(unique_slugs(self.groups@)) by {
                    assert forall|a: int, b: int|
                        0 <= a < b < self.groups@.len() implies self.groups@[a].slug@
                        != self.groups@[b].slug@ by {
                        assert(old(self).groups@[a].slug@ == self.groups@[a].slug@);
                        assert(old(self).groups@[b].slug@ == self.groups@[b].slug@);
                    }
                }
                assert(sorted_groups(self.groups@)) by {
                    assert forall|a: int| 0 <= a < self.groups@.len() implies strictly_sorted(
                        views((#[trigger] self.groups@[a]).projects@),
                    ) by {
                        if a != i {
                            assert(old(self).groups@[a] == self.groups@[a]);
                        }
                    }
                }
            },
            None => {
                proof {
                    lemma_groups_map_lookup(self.groups@, slug@);
                }
                let ghost before = self.groups@;
                self.groups.push(Group { slug, projects: names });
                assert(self.groups@.drop_last() =~= before);
                assert(sorted_groups(self.groups@)) by {
                    assert forall|a: int| 0 <= a < self.groups@.len() implies strictly_sorted(
                        views((#[trigger] self.groups@[a]).projects@),
                    ) by {
                        if a < before.len() {
                            assert(before[a] == self.groups@[a]);
                        }
                    }
                }
            },
        }
    }

    /// Merges `project` into `group`: the group is created where it is missing,
    /// and its names come out sorted, each once. No other group changes.
    pub fn merge(&mut self, group: &str, project: &str)
        requires
            old(self).well_formed(),
        ensures
            final(self).well_formed(),
            final(self)@ == merge_spec(old(self)@, group@, project@),
    {
        let slug = group.to_owned();
        match self.find_group(&slug) {
            Some(i) => {
                proof {
                    lemma_groups_map_lookup(self.groups@, slug@);
                }
                let names = merge_names(&self.groups[i].projects, project);
                self.put_group(slug, names);
            },
            None => {
                let empty: Vec<String> = Vec::new();
                let names = merge_names(&empty, project);
                assert(views(empty@) =~= seq![]);
                self.put_group(slug, names);
            },
        }
    }

    /// Every repository of the inventory, as an identity on `host`: exactly
    /// one for each name of each group.
    pub fn repos(&self, host: &str) -> (r: Vec<GitRepo>)
        requires
            self.well_formed(),
        ensures
            forall|j: int|
                0 <= j < r@.len() ==> (#[trigger] r@[j]).host@ == host@ && listed(
                    self@,
                    r@[j].slug@,
                    r@[j].repo_name@,
                ),
            forall|g: Seq<char>, n: Seq<char>|
                #[trigger] listed(self@, g, n) ==> has_repo(r@, (host@, g, n)),
            forall|i: int, j: int| 0 <= i < j < r@.len() ==> r@[i]@ != r@[j]@,
    {
        let ghost gs = self.groups@;
        let mut r: Vec<GitRepo> = Vec::new();
        let mut i: usize = 0;
        while i < self.groups.len()
            invariant
                gs == self.groups@,
                unique_slugs(gs),
                sorted_groups(gs),
                0 <= i <= gs.len(),
                forall|j: int|
                    0 <= j < r@.len() ==> (#[trigger] r@[j]).host@ == host@ && listed(
                        groups_map(gs),
                        r@[j].slug@,
                        r@[j].repo_name@,
                    ),
                forall|a: int, b: int|
                    0 <= a < i && 0 <= b < gs[a].projects@.len() ==> has_repo(
                        r@,
                        (host@, gs[a].slug@, #[trigger] gs[a].projects@[b]@),
                    ),
                forall|j: int|
                    0 <= j < r@.len() ==> #[trigger] from_groups(gs, host@, r@[j]@, i as int, 0),
                forall|x: int, y: int| 0 <= x < y < r@.len() ==> r@[x]@ != r@[y]@,
            decreases gs.len() - i,
        {
            proof {
                lemma_groups_map_lookup(gs, gs[i as int].slug@);
            }
            let mut k: usize = 0;
            while k < self.groups[i].projects.len()
                invariant
                    gs == self.groups@,
                    unique_slugs(gs),
                    sorted_groups(gs),
                    0 <= i < gs.len(),
                    0 <= k <= gs[i as int].projects@.len(),
                    groups_map(gs).contains_key(gs[i as int].slug@),
                    groups_map(gs)[gs[i as int].slug@] == views(gs[i as int].projects@),
                    forall|j: int|
                        0 <= j < r@.len() ==> (#[trigger] r@[j]).host@ == host@ && listed(
                            groups_map(gs),
                            r@[j].slug@,
                            r@[j].repo_name@,
                        ),
                    forall|a: int, b: int|
                        0 <= a < i && 0 <= b < gs[a].projects@.len() ==> has_repo(
                            r@,
                            (host@, gs[a].slug@, #[trigger] gs[a].projects@[b]@),
                        ),
                    forall|b: int|
                        0 <= b < k ==> has_repo(
                            r@,
                            (host@, gs[i as int].slug@, #[trigger] gs[i as int].projects@[b]@),
                        ),
                    forall|j: int|
                        0 <= j < r@.len() ==> #[trigger] from_groups(
                            gs,
                            host@,
                            r@[j]@,
                            i as int,
                            k as int,
                        ),
                    forall|x: int, y: int| 0 <= x < y < r@.len() ==> r@[x]@ != r@[y]@,
                decreases gs[i as int].projects@.len() - k,
            {
                let repo = GitRepo {
                    host: host.to_owned(),
                    slug: self.groups[i].slug.clone(),
                    repo_name: self.groups[i].projects[k].clone(),
                };
                let ghost before = r@;
                proof {
                    assert(views(gs[i as int].projects@)[k as int] == repo.repo_name@);
                    assert forall|j: int| 0 <= j < before.len() implies before[j]@ != repo@ by {
                        assert(from_groups(gs, host@, before[j]@, i as int, k as int));
                        let (a, b) = choose|a: int, b: int|
                            0 <= a < gs.len() && 0 <= b < gs[a].projects@.len() && (a < i || (a
                                == i && b < k)) && before[j]@ == (
                                host@,
                                gs[a].slug@,
                                gs[a].projects@[b]@,
                            );
                        if a == i {
                            let names = views(gs[i as int].projects@);
                            assert(strictly_sorted(names));
                            assert(names[b] == gs[a].projects@[b]@);
                            lemma_name_lt_total(names[b], names[b]);
                        }
                    }
                }
                r.push(repo);
                proof {
                    assert(r@[before.len() as int] == repo);
                    assert forall|t: (Seq<char>, Seq<char>, Seq<char>)|
                        has_repo(before, t) implies has_repo(r@, t) by {
                        let j = choose|j: int| 0 <= j < before.len() && (#[trigger] before[j])@ == t;
                        assert(r@[j] == before[j]);
                    }
                    assert(has_repo(r@, repo@));
                    assert forall|j: int| 0 <= j < r@.len() implies #[trigger] from_groups(
                        gs,
                        host@,
                        r@[j]@,
                        i as int,
                        k + 1,
                    ) by {
                        if j < before.len() {
                            assert(r@[j] == before[j]);
                            assert(from_groups(gs, host@, before[j]@, i as int, k as int));
                            let (a, b) = choose|a: int, b: int|
                                0 <= a < gs.len() && 0 <= b < gs[a].projects@.len() && (a < i
                                    || (a == i && b < k)) && before[j]@ == (
                                    host@,
                                    gs[a].slug@,
                                    gs[a].projects@[b]@,
                                );
                            assert(from_groups_at(gs, host@, r@[j]@, i as int, k + 1, a, b));
                        } else {
                            assert(from_groups_at(gs, host@, r@[j]@, i as int, k + 1, i as int, k as int));
                        }
                    }
                    assert forall|x: int, y: int| 0 <= x < y < r@.len() implies r@[x]@ != r@[y]@ by {
                        if y < before.len() {
                            assert(r@[x] == before[x] && r@[y] == before[y]);
                        } else {
                            assert(r@[x] == before[x]);
                        }
                    }
                }
                k = k + 1;
            }
            proof {
                assert forall|j: int| 0 <= j < r@.len() implies #[trigger] from_groups(
                    gs,
                    host@,
                    r@[j]@,
                    i + 1,
                    0,
                ) by {
                    assert(from_groups(gs, host@, r@[j]@, i as int, k as int));
                    let (a, b) = choose|a: int, b: int|
                        0 <= a < gs.len() && 0 <= b < gs[a].projects@.len() && (a < i || (a == i
                            && b < k)) && r@[j]@ == (host@, gs[a].slug@, gs[a].projects@[b]@);
                    assert(from_groups_at(gs, host@, r@[j]@, i + 1, 0, a, b));
                }
            }
            i = i + 1;
        }
        proof {
            assert forall|g: Seq<char>, n: Seq<char>| #[trigger]
                listed(groups_map(gs), g, n) implies has_repo(r@, (host@, g, n)) by {
                lemma_groups_map_lookup(gs, g);
                let a = choose|a: int| 0 <= a < gs.len() && (#[trigger] gs[a]).slug@ == g;
                let b = choose|b: int|
                    0 <= b < views(gs[a].projects@).len() && views(gs[a].projects@)[b] == n;
                assert(gs[a].projects@[b]@ == n);
            }
        }
        r
    }

    /// Merges every repository of `repos` that is on `host` into the inventory,
    /// in order; the others are left out.
    pub fn merge_repos(&mut self, host: &str, repos: &Vec<GitRepo>)
        requires
            old(self).well_formed(),
        ensures
            final(self).well_formed(),
            final(self)@ == merge_all(old(self)@, host@, repo_views(repos@)),
    {
        let ghost all = repo_views(repos@);
        let h = host.to_owned();
        let mut i: usize = 0;
        assert(all.take(0) =~= seq![]);
        while i < repos.len()
            invariant
                all == repo_views(repos@),
                h@ == host@,
                0 <= i <= repos@.len(),
                self.well_formed(),
                self@ == merge_all(old(self)@, host@, all.take(i as int)),
            decreases repos@.len() - i,
        {
            assert(all.take(i + 1).drop_last() =~= all.take(i as int));
            assert(all.take(i + 1).last() == repos@[i as int]@);
            if repos[i].host == h {
                self.merge(repos[i].slug.as_str(), repos[i].repo_name.as_str());
            }
            i = i + 1;
        }
        assert(all.take(repos@.len() as int) =~= all);
    }

    /// The groups, in the order they were first added.
    pub fn groups(&self) -> (r: &Vec<Group>)
        requires
            self.well_formed(),
        ensures
            groups_map(r@) == self@,
            unique_slugs(r@),
    {
        &self.groups
    }
}

/// `repos` holds a repository with identity `t`.
pub open spec fn has_repo(repos: Seq<GitRepo>, t: (Seq<char>, Seq<char>, Seq<char>)) -> bool {
    exists|j: int| 0 <= j < repos.len() && (#[trigger] repos[j])@ == t
}

/// `t` is the identity of name `b` of group `a`, a position before name `k`
/// of group `i` in the walk over the groups.
pub open spec fn from_groups_at(
    gs: Seq<Group>,
    host: Seq<char>,
    t: (Seq<char>, Seq<char>, Seq<char>),
    i: int,
    k: int,
    a: int,
    b: int,
) -> bool {
    &&& 0 <= a < gs.len()
    &&& 0 <= b < gs[a].projects@.len()
    &&& (a < i || (a == i && b < k))
    &&& t == (host, gs[a].slug@, gs[a].projects@[b]@)
}

/// `t` is the identity of a name met before name `k` of group `i`.
pub open spec fn from_groups(
    gs: Seq<Group>,
    host: Seq<char>,
    t: (Seq<char>, Seq<char>, Seq<char>),
    i: int,
    k: int,
) -> bool {
    exists|a: int, b: int| #[trigger] from_groups_at(gs, host, t, i, k, a, b)
}

/// `name` is listed under group `group`.
pub open spec fn listed(inv: Map<Seq<char>, Seq<Seq<char>>>, group: Seq<char>, name: Seq<char>) -> bool {
    inv.contains_key(group) && inv[group].contains(name)
}

/// The inventory after each identity of `repos` on `host` is merged in order.
pub open spec fn merge_all(
    inv: Map<Seq<char>, Seq<Seq<char>>>,
    host: Seq<char>,
    repos: Seq<(Seq<char>, Seq<char>, Seq<char>)>,
) -> Map<Seq<char>, Seq<Seq<char>>>
    decreases repos.len(),
{
    if repos.len() == 0 {
        inv
    } else {
        let before = merge_all(inv, host, repos.drop_last());
        let (h, g, n) = repos.last();
        if h == host {
            merge_spec(before, g, n)
        } else {
            before
        }
    }
}

/// Merging the same project into the same group again changes nothing.
pub proof fn lemma_merge_idempotent(
    inv: Map<Seq<char>, Seq<Seq<char>>>,
    group: Seq<char>,
    project: Seq<char>,
)
    ensures
        merge_spec(merge_spec(inv, group, project), group, project) == merge_spec(
            inv,
            group,
            project,
        ),
{
    let old_names = if inv.contains_key(group) {
        inv[group]
    } else {
        seq![]
    };
    lemma_merged_names_idempotent(old_names, project);
    assert(merge_spec(merge_spec(inv, group, project), group, project) =~= merge_spec(
        inv,
        group,
        project,
    ));
}

/// The inventory after the same project is merged into the same group `n` times.
pub open spec fn merge_times(
    inv: Map<Seq<char>, Seq<Seq<char>>>,
    group: Seq<char>,
    project: Seq<char>,
    n: nat,
) -> Map<Seq<char>, Seq<Seq<char>>>
    decreases n,
{
    if n == 0 {
        inv
    } else {
        merge_spec(merge_times(inv, group, project, (n - 1) as nat), group, project)
    }
}

/// Merging the same project into the same group any number of times, at least
/// once, gives the inventory that merging it once gives.
pub proof fn lemma_merge_times(
    inv: Map<Seq<char>, Seq<Seq<char>>>,
    group: Seq<char>,
    project: Seq<char>,
    n: nat,
)
    requires
        n >= 1,
    ensures
        merge_times(inv, group, project, n) == merge_spec(inv, group, project),
    decreases n,
{
    if n > 1 {
        lemma_merge_times(inv, group, project, (n - 1) as nat);
        lemma_merge_idempotent(inv, group, project);
        assert(merge_times(inv, group, project, n) == merge_spec(
            merge_times(inv, group, project, (n - 1) as nat),
            group,
            project,
        ));
    } else {
        assert(merge_times(inv, group, project, 0) == inv);
    }
}

/// A merge is additive: every other group keeps its names, no group goes away,
/// and the merged group keeps every name it had.
pub proof fn lemma_merge_preserves(
    inv: Map<Seq<char>, Seq<Seq<char>>>,
    group: Seq<char>,
    project: Seq<char>,
)
    ensures
        forall|k: Seq<char>|
            #[trigger] inv.contains_key(k) ==> merge_spec(inv, group, project).contains_key(k),
        forall|k: Seq<char>|
            inv.contains_key(k) && k != group ==> #[trigger] merge_spec(inv, group, project)[k]
                == inv[k],
        inv.contains_key(group) ==> inv[group].to_set().subset_of(
            merge_spec(inv, group, project)[group].to_set(),
        ),
        merge_spec(inv, group, project)[group].contains(project),
{
    let old_names = if inv.contains_key(group) {
        inv[group]
    } else {
        seq![]
    };
    lemma_merged_names(old_names, project);
    assert(merged_names(old_names, project).to_set().contains(project));
}

} // verus!
