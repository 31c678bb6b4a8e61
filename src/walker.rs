//! Building a flare tree from an enumeration of a directory, with the values
//! that the configured calculators compute for each file.
use vstd::prelude::*;
use crate::flare::{first_named, lemma_appended_lookup, lemma_lookup_concat, lemma_put_lookup, data_get, data_with, lemma_data_with_get, lemma_no_data_appended, lemma_no_data_lookup, lemma_no_data_put, names, no_data, FlareTree, FlareView};

verus! {

/// What an enumerated entry is.
#[derive(PartialEq, Eq, Structural, Debug, Clone, Copy)]
pub enum EntryKind {
    File,
    Dir,
    /// Neither a regular file nor a directory: skipped.
    Other,
}

/// One entry of a directory enumeration below the root.
#[derive(Debug)]
pub struct WalkEntry {
    /// The path that calculators are handed.
    pub path: String,
    /// The entry's path relative to the root, one segment per component.
    pub relative: Vec<String>,
    pub kind: EntryKind,
}

/// Why a walk cannot produce a tree.
#[derive(PartialEq, Eq, Structural, Debug, Clone, Copy)]
pub enum WalkError {
    /// An entry has no relative path: the root itself cannot be a node.
    EmptyPath,
    /// An entry's parent directory has no node in the tree built so far.
    MissingParent,
}

/// What a calculator produced for one file: its name, and its value or
/// `None` where it failed.
pub type CalcResult = (String, Option<serde_json::Value>);

/// Computes one named metric value per file.
pub trait ToxicityIndicatorCalculator {
    /// The name under which the calculator's values are stored.
    spec fn spec_name(&self) -> Seq<char>;

    /// The paths that `calculate` has been handed so far, in order.
    spec fn calls(&self) -> Seq<Seq<char>>;

    /// What `calculate` has returned so far, in order: a value, or `None`
    /// where it failed.
    spec fn produced(&self) -> Seq<Option<serde_json::Value>>;

    /// The key under which the values are stored; unique among the
    /// calculators of one walk, else one overwrites another.
    fn name(&self) -> (r: String)
        ensures
            r@ == self.spec_name(),
    ;

    /// A description for people; the walk does not read it.
    fn description(&self) -> String;

    /// The value for the file at `path`, or why there is none. A calculator
    /// may keep state from one call to the next.
    fn calculate(&mut self, path: &str) -> (r: Result<serde_json::Value, String>)
        ensures
            final(self).spec_name() == old(self).spec_name(),
            final(self).calls() == old(self).calls().push(path@),
            final(self).produced() == old(self).produced().push(outcome(r)),
    ;
}

/// A calculation's value, or `None` where it failed.
pub open spec fn outcome(r: Result<serde_json::Value, String>) -> Option<serde_json::Value> {
    match r {
        Ok(v) => Some(v),
        Err(_) => None,
    }
}

pub open spec fn segments(rel: Seq<String>) -> Seq<Seq<char>> {
    rel.map_values(|s: String| s@)
}

pub open spec fn result_view(rs: Seq<CalcResult>) -> Seq<(Seq<char>, Option<serde_json::Value>)> {
    rs.map_values(|r: CalcResult| (r.0@, r.1))
}

/// A file's data: each successful result stored under its calculator's name,
/// in order, a later one overwriting an earlier one of the same name.
pub open spec fn merged_data(rs: Seq<(Seq<char>, Option<serde_json::Value>)>) -> Seq<(Seq<char>, serde_json::Value)>
    decreases rs.len(),
{
    if rs.len() == 0 {
        Seq::empty()
    } else {
        let d = merged_data(rs.drop_last());
        match rs.last().1 {
            Some(v) => data_with(d, rs.last().0, v),
            None => d,
        }
    }
}

/// Where the calculators have distinct names, each one's result stands in the
/// merged data under its name: its value where it succeeded, nothing where it
/// failed, whatever the others produced; and no other key is present.
pub proof fn lemma_merged_results(rs: Seq<(Seq<char>, Option<serde_json::Value>)>)
    requires
        forall|a: int, b: int| 0 <= a < b < rs.len() ==> rs[a].0 != rs[b].0,
    ensures
        forall|j: int| 0 <= j < rs.len() ==> data_get(merged_data(rs), #[trigger] rs[j].0) == rs[j].1,
        forall|k: Seq<char>| (forall|j: int| 0 <= j < rs.len() ==> rs[j].0 != k) ==> #[trigger] data_get(merged_data(rs), k) is None,
    decreases rs.len(),
{
    if rs.len() > 0 {
        let front = rs.drop_last();
        let last = rs.last();
        lemma_merged_results(front);
        let d = merged_data(front);
        assert forall|j: int| 0 <= j < rs.len() implies data_get(merged_data(rs), #[trigger] rs[j].0) == rs[j].1 by {
            if let Some(v) = last.1 {
                lemma_data_with_get(d, last.0, v, rs[j].0);
            }
            if j < rs.len() - 1 {
                assert(front[j] == rs[j]);
            }
        }
        assert forall|k: Seq<char>| (forall|j: int| 0 <= j < rs.len() ==> rs[j].0 != k) implies #[trigger] data_get(merged_data(rs), k) is None by {
            if let Some(v) = last.1 {
                lemma_data_with_get(d, last.0, v, k);
            }
            assert forall|j: int| 0 <= j < front.len() implies front[j].0 != k by {
                assert(front[j] == rs[j]);
            }
        }
    }
}

/// The node an entry becomes, with the results computed for it; `None` for
/// an entry that is neither file nor directory, or that has no name.
pub open spec fn entry_node(e: WalkEntry, rs: Seq<(Seq<char>, Option<serde_json::Value>)>) -> Option<FlareView> {
    let rel = segments(e.relative@);
    if rel.len() == 0 {
        None
    } else {
        match e.kind {
            EntryKind::File => Some(FlareView::File { name: rel.last(), data: merged_data(rs) }),
            EntryKind::Dir => Some(FlareView::Dir { name: rel.last(), children: Seq::empty() }),
            EntryKind::Other => None,
        }
    }
}

/// `tree` with `node` added as the last child of the node that the parent
/// segments of `rel` name, or of the root where `rel` has one segment.
pub open spec fn inserted(tree: FlareView, rel: Seq<Seq<char>>, node: FlareView) -> Result<FlareView, WalkError> {
    if rel.len() == 0 {
        Err(WalkError::EmptyPath)
    } else if rel.len() == 1 {
        Ok(tree.appended(node))
    } else {
        match tree.lookup(rel.drop_last()) {
            Some(parent) => Ok(tree.put(rel.drop_last(), parent.appended(node))),
            None => Err(WalkError::MissingParent),
        }
    }
}

/// Right after a file or directory entry is added, its path names the node
/// it became (for a file: its name and merged results), provided it went into
/// a directory that had no child of that name yet.
pub proof fn lemma_added_entry_found(t: FlareView, e: WalkEntry, rs: Seq<(Seq<char>, Option<serde_json::Value>)>)
    requires
        entry_node(e, rs) is Some,
        segments(e.relative@).len() == 1 ==> t is Dir && first_named(t->Dir_children, segments(e.relative@).last()) >= t->Dir_children.len(),
        segments(e.relative@).len() > 1 ==> {
            let parent = t.lookup(segments(e.relative@).drop_last());
            &&& parent is Some
            &&& parent->0 is Dir
            &&& first_named(parent->0->Dir_children, segments(e.relative@).last()) >= parent->0->Dir_children.len()
        },
    ensures
        built_step(Ok(t), e, rs) is Ok,
        built_step(Ok(t), e, rs)->Ok_0.lookup(segments(e.relative@)) == entry_node(e, rs),
{
    let rel = segments(e.relative@);
    let node = entry_node(e, rs)->0;
    let x = rel.last();
    if rel.len() == 1 {
        assert(rel =~= seq![x]);
        lemma_appended_lookup(t, node);
    } else {
        let q = rel.drop_last();
        let parent = t.lookup(q)->0;
        let t2 = t.put(q, parent.appended(node));
        lemma_put_lookup(t, q, parent.appended(node));
        lemma_lookup_concat(t2, q, seq![x]);
        assert(rel =~= q + seq![x]);
        lemma_appended_lookup(parent, node);
    }
}

/// The root that a walk starts from.
pub open spec fn empty_root() -> FlareView {
    FlareView::Dir { name: "flare"@, children: Seq::empty() }
}

/// One step of a walk: `entry`, with the results computed for it, added to
/// the tree built so far.
pub open spec fn built_step(so_far: Result<FlareView, WalkError>, entry: WalkEntry, rs: Seq<(Seq<char>, Option<serde_json::Value>)>) -> Result<FlareView, WalkError> {
    match so_far {
        Err(e) => Err(e),
        Ok(t) => match entry_node(entry, rs) {
            None => if entry.kind != EntryKind::Other && segments(entry.relative@).len() == 0 {
                Err(WalkError::EmptyPath)
            } else {
                Ok(t)
            },
            Some(node) => inserted(t, segments(entry.relative@), node),
        },
    }
}

/// The tree that the entries build, in order, each file with its results.
pub open spec fn built(entries: Seq<WalkEntry>, results: Seq<Seq<(Seq<char>, Option<serde_json::Value>)>>) -> Result<FlareView, WalkError>
    decreases entries.len(),
{
    if entries.len() == 0 {
        Ok(empty_root())
    } else {
        let n = entries.len() - 1;
        built_step(built(entries.drop_last(), results), entries[n], results[n])
    }
}

proof fn lemma_built_prefix(entries: Seq<WalkEntry>, results: Seq<Seq<(Seq<char>, Option<serde_json::Value>)>>, k: int)
    requires
        0 <= k < entries.len(),
    ensures
        built(entries.subrange(0, k + 1), results) == built_step(built(entries.subrange(0, k), results), entries[k], results[k]),
{
    assert(entries.subrange(0, k + 1).drop_last() =~= entries.subrange(0, k));
    assert(entries.subrange(0, k + 1)[k] == entries[k]);
}


/// A file node named `name` holding the successful results, merged in order.
pub fn file_node(name: String, results: Vec<CalcResult>) -> (r: FlareTree)
    ensures
        r@ == (FlareView::File { name: name@, data: merged_data(result_view(results@)) }),
{
    let ghost all = result_view(results@);
    let n: usize = results.len();
    let mut rest = results;
    let mut node = FlareTree::from_file(name);
    let mut k: usize = 0;
    while rest.len() > 0
        invariant
            k + rest@.len() == n,
            k <= n,
            all.len() == n,
            result_view(rest@) == all.subrange(k as int, n as int),
            node@ == (FlareView::File { name: name@, data: merged_data(all.subrange(0, k as int)) }),
        decreases rest@.len(),
    {
        let ghost before = rest@;
        let (key, value) = rest.remove(0);
        proof {
            assert(rest@ =~= before.subrange(1, before.len() as int));
            assert(all[k as int] == result_view(before)[0]);
            assert forall|j: int| 0 <= j < rest@.len() implies #[trigger] result_view(rest@)[j] == all.subrange(k + 1, n as int)[j] by {
                assert(result_view(before)[j + 1] == all[k + 1 + j]);
            }
            assert(result_view(rest@) =~= all.subrange(k + 1, n as int));
            assert(all.subrange(0, k + 1).drop_last() =~= all.subrange(0, k as int));
        }
        match value {
            Some(v) => node.attach_data(key, v),
            None => {},
        }
        k = k + 1;
    }
    proof {
        assert(all.subrange(0, n as int) =~= all);
    }
    node
}

/// Adds `node` below the node that the parent segments of `relative` name,
/// or below the root where `relative` has one segment.
pub fn insert_node(tree: &mut FlareTree, relative: &Vec<String>, node: FlareTree) -> (r: Result<(), WalkError>)
    ensures
        match r {
            Ok(()) => inserted(old(tree)@, segments(relative@), node@) == Ok::<FlareView, WalkError>(final(tree)@),
            Err(e) => {
                &&& inserted(old(tree)@, segments(relative@), node@) == Err::<FlareView, WalkError>(e)
                &&& final(tree)@ == old(tree)@
            },
        },
{
    let len = relative.len();
    if len == 0 {
        return Err(WalkError::EmptyPath);
    }
    if len == 1 {
        tree.append_child(node);
        return Ok(());
    }
    let mut parent: Vec<&str> = Vec::new();
    let mut i: usize = 0;
    while i < len - 1
        invariant
            len == relative@.len(),
            1 < len,
            0 <= i <= len - 1,
            parent@.len() == i,
            names(parent@) =~= segments(relative@).subrange(0, i as int),
        decreases len - 1 - i,
    {
        let seg: &str = relative[i].as_str();
        proof {
            assert(seg@ == segments(relative@)[i as int]);
        }
        let ghost p0 = parent@;
        parent.push(seg);
        proof {
            assert forall|j: int| 0 <= j < parent@.len() implies #[trigger] names(parent@)[j] == segments(relative@).subrange(0, i + 1)[j] by {
                if j < i {
                    assert(parent@[j] == p0[j]);
                    assert(names(p0)[j] == segments(relative@).subrange(0, i as int)[j]);
                }
            }
        }
        i = i + 1;
    }
    assert(names(parent@) =~= segments(relative@).drop_last());
    match tree.get_in_mut(parent.as_slice()) {
        Some(p) => {
            p.append_child(node);
            Ok(())
        },
        None => Err(WalkError::MissingParent),
    }
}

/// Once a prefix of the entries fails to build, the whole fails the same way.
proof fn lemma_built_err(entries: Seq<WalkEntry>, results: Seq<Seq<(Seq<char>, Option<serde_json::Value>)>>, k: int)
    requires
        0 <= k <= entries.len(),
        built(entries.subrange(0, k), results) is Err,
    ensures
        built(entries, results) == built(entries.subrange(0, k), results),
    decreases entries.len() - k,
{
    if k < entries.len() {
        assert(entries.drop_last().subrange(0, k) =~= entries.subrange(0, k));
        lemma_built_err(entries.drop_last(), results, k);
    } else {
        assert(entries.subrange(0, k) =~= entries);
    }
}

pub open spec fn results_view(rs: Seq<Vec<CalcResult>>) -> Seq<Seq<(Seq<char>, Option<serde_json::Value>)>> {
    rs.map_values(|r: Vec<CalcResult>| result_view(r@))
}

/// Adds the node that `entry` becomes, with the results computed for it, to
/// the tree: one step of a walk.
pub fn add_entry(tree: &mut FlareTree, entry: &WalkEntry, rs: Vec<CalcResult>) -> (r: Result<(), WalkError>)
    ensures
        match r {
            Ok(()) => built_step(Ok(old(tree)@), *entry, result_view(rs@)) == Ok::<FlareView, WalkError>(final(tree)@),
            Err(e) => built_step(Ok(old(tree)@), *entry, result_view(rs@)) == Err::<FlareView, WalkError>(e),
        },
{
    let len = entry.relative.len();
    if len == 0 {
        if entry.kind != EntryKind::Other {
            return Err(WalkError::EmptyPath);
        }
        return Ok(());
    }
    proof {
        assert(segments(entry.relative@).last() == entry.relative@[len - 1]@);
    }
    let name = entry.relative[len - 1].clone();
    match entry.kind {
        EntryKind::File => insert_node(tree, &entry.relative, file_node(name, rs)),
        EntryKind::Dir => insert_node(tree, &entry.relative, FlareTree::from_dir(name)),
        EntryKind::Other => Ok(()),
    }
}

/// Builds the tree that `entries` describe, in order, under a root named
/// "flare": each file holds the results computed for it (`results[k]` for
/// `entries[k]`), each directory its later entries, and entries that are
/// neither are skipped.
pub fn build_tree(entries: &Vec<WalkEntry>, results: Vec<Vec<CalcResult>>) -> (r: Result<FlareTree, WalkError>)
    requires
        results@.len() == entries@.len(),
    ensures
        match r {
            Ok(t) => built(entries@, results_view(results@)) == Ok::<FlareView, WalkError>(t@),
            Err(e) => built(entries@, results_view(results@)) == Err::<FlareView, WalkError>(e),
        },
{
    let ghost all = results_view(results@);
    let n: usize = entries.len();
    let mut rest = results;
    let mut tree = FlareTree::from_dir(String::from_str("flare"));
    let mut k: usize = 0;
    proof {
        reveal_strlit("flare");
        assert(entries@.subrange(0, 0) =~= Seq::<WalkEntry>::empty());
    }
    while k < n
        invariant
            n == entries@.len(),
            k <= n,
            k + rest@.len() == n,
            all.len() == n,
            all == results_view(results@),
            results_view(rest@) == all.subrange(k as int, n as int),
            built(entries@.subrange(0, k as int), all) == Ok::<FlareView, WalkError>(tree@),
        decreases n - k,
    {
        let ghost before = rest@;
        let rs = rest.remove(0);
        proof {
            assert(rest@ =~= before.subrange(1, before.len() as int));
            assert(all[k as int] == results_view(before)[0]);
            assert forall|j: int| 0 <= j < rest@.len() implies #[trigger] results_view(rest@)[j] == all.subrange(k + 1, n as int)[j] by {
                assert(results_view(before)[j + 1] == all[k + 1 + j]);
            }
            assert(results_view(rest@) =~= all.subrange(k + 1, n as int));
            lemma_built_prefix(entries@, all, k as int);
            assert(all[k as int] == result_view(rs@));
        }
        let step = add_entry(&mut tree, &entries[k], rs);
        match step {
            Ok(()) => {},
            Err(e) => {
                proof {
                    lemma_built_err(entries@, all, k + 1);
                }
                return Err(e);
            },
        }
        k = k + 1;
    }
    proof {
        assert(entries@.subrange(0, n as int) =~= entries@);
    }
    Ok(tree)
}

/// With no calculators, a walk's outcome depends on the entries alone, and
/// every file in the tree it builds holds no data.
pub proof fn lemma_walk_without_calculators(entries: Seq<WalkEntry>, rs: Seq<Seq<(Seq<char>, Option<serde_json::Value>)>>)
    requires
        results_fit(entries, Seq::empty(), rs),
    ensures
        built(entries, rs) == built(entries, Seq::new(entries.len(), |k: int| Seq::<(Seq<char>, Option<serde_json::Value>)>::empty())),
        built(entries, rs) is Ok ==> no_data(built(entries, rs)->Ok_0),
    decreases entries.len(),
{
    let none = Seq::new(entries.len(), |k: int| Seq::<(Seq<char>, Option<serde_json::Value>)>::empty());
    assert forall|k: int| 0 <= k < rs.len() implies #[trigger] rs[k] == none[k] by {
        assert(rs[k] =~= none[k]);
    }
    assert(rs =~= none);
    if entries.len() > 0 {
        let front = entries.drop_last();
        let n = entries.len() - 1;
        let rs_front = rs.subrange(0, n);
        assert forall|k: int| 0 <= k < rs_front.len() implies #[trigger] rs_front[k].len() == if front[k].kind == EntryKind::File { 0nat } else { 0 } by {
            assert(rs_front[k] == rs[k]);
        }
        lemma_walk_without_calculators(front, rs_front);
        lemma_built_results_prefix(front, rs, n);
        let so_far = built(front, rs);
        if so_far is Ok {
            let t = so_far->Ok_0;
            assert(merged_data(rs[n]) =~= Seq::empty());
            let rel = segments(entries[n].relative@);
            if let Some(node) = entry_node(entries[n], rs[n]) {
                lemma_no_data_appended(t, node);
                if rel.len() > 1 && t.lookup(rel.drop_last()) is Some {
                    let parent = t.lookup(rel.drop_last())->0;
                    lemma_no_data_lookup(t, rel.drop_last());
                    lemma_no_data_appended(parent, node);
                    lemma_no_data_put(t, rel.drop_last(), parent.appended(node));
                }
            }
        }
    }
}

/// A walk of some entries reads only the results of those entries.
proof fn lemma_built_results_prefix(entries: Seq<WalkEntry>, results: Seq<Seq<(Seq<char>, Option<serde_json::Value>)>>, n: int)
    requires
        entries.len() == n,
        n <= results.len(),
    ensures
        built(entries, results) == built(entries, results.subrange(0, n)),
    decreases entries.len(),
{
    if n > 0 {
        lemma_built_results_prefix(entries.drop_last(), results, n - 1);
        lemma_built_results_prefix(entries.drop_last(), results.subrange(0, n), n - 1);
        assert(results.subrange(0, n).subrange(0, n - 1) =~= results.subrange(0, n - 1));
    }
}

/// The names of the calculators, in order.
pub open spec fn calc_names<C: ToxicityIndicatorCalculator>(cs: Seq<C>) -> Seq<Seq<char>> {
    cs.map_values(|c: C| c.spec_name())
}

/// The paths of the file entries, in order.
pub open spec fn file_paths(entries: Seq<WalkEntry>) -> Seq<Seq<char>>
    decreases entries.len(),
{
    if entries.len() == 0 {
        Seq::empty()
    } else {
        let p = file_paths(entries.drop_last());
        if entries.last().kind == EntryKind::File {
            p.push(entries.last().path@)
        } else {
            p
        }
    }
}

/// Results for `entries` as a walk with calculators named `ns` produces
/// them: one per calculator, in order, for each file, none for other entries.
pub open spec fn results_fit(entries: Seq<WalkEntry>, ns: Seq<Seq<char>>, rs: Seq<Seq<(Seq<char>, Option<serde_json::Value>)>>) -> bool {
    &&& rs.len() == entries.len()
    &&& forall|k: int| 0 <= k < rs.len() ==> #[trigger] rs[k].len() == if entries[k].kind == EntryKind::File { ns.len() } else { 0 }
    &&& forall|k: int, j: int| 0 <= k < rs.len() && 0 <= j < rs[k].len() ==> #[trigger] rs[k][j].0 == ns[j]
}

/// Results for `entries` as calculators whose outputs went from `before` to
/// `after` produced them: the result of calculator `j` for the file entry `k`
/// is its output for the files before `k` and that one.
pub open spec fn results_recorded(entries: Seq<WalkEntry>, before: Seq<Seq<Option<serde_json::Value>>>, after: Seq<Seq<Option<serde_json::Value>>>, rs: Seq<Seq<(Seq<char>, Option<serde_json::Value>)>>) -> bool {
    forall|k: int, j: int| 0 <= k < rs.len() && entries[k].kind == EntryKind::File && 0 <= j < rs[k].len() ==>
        #[trigger] rs[k][j].1 == after[j][before[j].len() + file_paths(entries.subrange(0, k)).len() as int]
}

/// What each calculator has returned so far.
pub open spec fn produced_of<C: ToxicityIndicatorCalculator>(cs: Seq<C>) -> Seq<Seq<Option<serde_json::Value>>> {
    cs.map_values(|c: C| c.produced())
}

proof fn lemma_file_paths_step(entries: Seq<WalkEntry>, k: int)
    requires
        0 <= k < entries.len(),
    ensures
        file_paths(entries.subrange(0, k + 1)) == if entries[k].kind == EntryKind::File {
            file_paths(entries.subrange(0, k)).push(entries[k].path@)
        } else {
            file_paths(entries.subrange(0, k))
        },
{
    assert(entries.subrange(0, k + 1).drop_last() =~= entries.subrange(0, k));
}

proof fn lemma_file_paths_grow(entries: Seq<WalkEntry>, a: int, b: int)
    requires
        0 <= a <= b <= entries.len(),
    ensures
        file_paths(entries.subrange(0, a)).len() <= file_paths(entries.subrange(0, b)).len(),
    decreases b - a,
{
    if a < b {
        lemma_file_paths_step(entries, b - 1);
        lemma_file_paths_grow(entries, a, b - 1);
    }
}

/// A file entry comes before as many files as its index among the file paths.
pub proof fn lemma_file_paths_index(entries: Seq<WalkEntry>, k: int)
    requires
        0 <= k < entries.len(),
        entries[k].kind == EntryKind::File,
    ensures
        file_paths(entries.subrange(0, k)).len() < file_paths(entries).len(),
{
    lemma_file_paths_step(entries, k);
    lemma_file_paths_grow(entries, k + 1, entries.len() as int);
    assert(entries.subrange(0, entries.len() as int) =~= entries);
}

/// Results recorded against all entries are recorded against any prefix
/// that they cover.
proof fn lemma_recorded_prefix(entries: Seq<WalkEntry>, m: int, before: Seq<Seq<Option<serde_json::Value>>>, after: Seq<Seq<Option<serde_json::Value>>>, rs: Seq<Seq<(Seq<char>, Option<serde_json::Value>)>>)
    requires
        0 <= m <= entries.len(),
        rs.len() == m,
        results_recorded(entries, before, after, rs),
    ensures
        results_recorded(entries.subrange(0, m), before, after, rs),
{
    let sub = entries.subrange(0, m);
    assert forall|k: int, j: int| 0 <= k < rs.len() && sub[k].kind == EntryKind::File && 0 <= j < rs[k].len() implies
        #[trigger] rs[k][j].1 == after[j][before[j].len() + file_paths(sub.subrange(0, k)).len() as int] by {
        assert(sub[k] == entries[k]);
        assert(sub.subrange(0, k) =~= entries.subrange(0, k));
    }
}

/// What a walk of `entries` did, with calculators that went from `before` to
/// `after`: it handled the first `m` entries, every calculator running on
/// each of their files in order with the results `rs`; it returned the tree
/// those entries build where that is all of them, and otherwise stopped at
/// the first entry that could not be added, with that entry's error.
pub open spec fn walked<C: ToxicityIndicatorCalculator>(entries: Seq<WalkEntry>, before: Seq<C>, after: Seq<C>, rs: Seq<Seq<(Seq<char>, Option<serde_json::Value>)>>, m: int, r: Result<FlareTree, WalkError>) -> bool {
    let done = entries.subrange(0, m);
    &&& 0 <= m <= entries.len()
    &&& after.len() == before.len()
    &&& results_fit(done, calc_names(before), rs)
    &&& results_recorded(done, produced_of(before), produced_of(after), rs)
    &&& forall|j: int| 0 <= j < before.len() ==> (#[trigger] after[j]).calls() == before[j].calls() + file_paths(done)
    &&& forall|j: int| 0 <= j < before.len() ==> (#[trigger] after[j]).produced().len() == before[j].produced().len() + file_paths(done).len()
    &&& match r {
        Ok(t) => m == entries.len() && built(done, rs) == Ok::<FlareView, WalkError>(t@),
        Err(e) => 0 < m && built(done, rs) == Err::<FlareView, WalkError>(e) && built(entries.subrange(0, m - 1), rs) is Ok,
    }
}

/// Runs every calculator, in order, on `path`.
pub fn calculate_all<C: ToxicityIndicatorCalculator>(calculators: &mut Vec<C>, path: &str) -> (r: Vec<CalcResult>)
    ensures
        final(calculators)@.len() == old(calculators)@.len(),
        r@.len() == old(calculators)@.len(),
        forall|j: int| 0 <= j < r@.len() ==> #[trigger] r@[j].0@ == old(calculators)@[j].spec_name(),
        forall|j: int| 0 <= j < r@.len() ==> (#[trigger] final(calculators)@[j]).spec_name() == old(calculators)@[j].spec_name(),
        forall|j: int| 0 <= j < r@.len() ==> (#[trigger] final(calculators)@[j]).calls() == old(calculators)@[j].calls().push(path@),
        forall|j: int| 0 <= j < r@.len() ==> (#[trigger] final(calculators)@[j]).produced() == old(calculators)@[j].produced().push(r@[j].1),
{
    let ghost start = calculators@;
    let mut results: Vec<CalcResult> = Vec::new();
    let mut j: usize = 0;
    while j < calculators.len()
        invariant
            calculators@.len() == start.len(),
            j <= start.len(),
            results@.len() == j,
            forall|i: int| 0 <= i < j ==> #[trigger] results@[i].0@ == start[i].spec_name(),
            forall|i: int| 0 <= i < start.len() ==> (#[trigger] calculators@[i]).spec_name() == start[i].spec_name(),
            forall|i: int| 0 <= i < j ==> (#[trigger] calculators@[i]).calls() == start[i].calls().push(path@),
            forall|i: int| 0 <= i < j ==> (#[trigger] calculators@[i]).produced() == start[i].produced().push(results@[i].1),
            forall|i: int| j <= i < start.len() ==> #[trigger] calculators@[i] == start[i],
        decreases start.len() - j,
    {
        let name = calculators[j].name();
        let value = match calculators[j].calculate(path) {
            Ok(v) => Some(v),
            Err(_) => None,
        };
        results.push((name, value));
        j = j + 1;
    }
    results
}

/// Walks the entries of a directory enumeration, in order: for each file
/// entry every calculator is run, in order, and then the entry's node is
/// added to the tree. The walk stops at the first entry that cannot be added,
/// so no calculator is run on the files after it.
pub fn walk_entries<C: ToxicityIndicatorCalculator>(entries: &Vec<WalkEntry>, calculators: &mut Vec<C>) -> (r: Result<FlareTree, WalkError>)
    ensures
        final(calculators)@.len() == old(calculators)@.len(),
        forall|j: int| 0 <= j < old(calculators)@.len() ==> (#[trigger] final(calculators)@[j]).spec_name() == old(calculators)@[j].spec_name(),
        forall|j: int| 0 <= j < old(calculators)@.len() ==> (#[trigger] final(calculators)@[j]).produced().subrange(0, old(calculators)@[j].produced().len() as int) == old(calculators)@[j].produced(),
        exists|rs: Seq<Seq<(Seq<char>, Option<serde_json::Value>)>>, m: int| #[trigger] walked(entries@, old(calculators)@, final(calculators)@, rs, m, r),
{
    let ghost start = calculators@;
    let ghost ns = calc_names(start);
    let ghost rsq: Seq<Seq<(Seq<char>, Option<serde_json::Value>)>> = Seq::empty();
    let n: usize = entries.len();
    let mut tree = FlareTree::from_dir(String::from_str("flare"));
    let mut k: usize = 0;
    proof {
        reveal_strlit("flare");
        assert(entries@.subrange(0, 0) =~= Seq::<WalkEntry>::empty());
    }
    while k < n
        invariant
            n == entries@.len(),
            k <= n,
            ns == calc_names(start),
            start == old(calculators)@,
            ns.len() == start.len(),
            calculators@.len() == start.len(),
            rsq.len() == k,
            forall|j: int| 0 <= j < start.len() ==> (#[trigger] calculators@[j]).spec_name() == start[j].spec_name(),
            forall|j: int| 0 <= j < start.len() ==> (#[trigger] calculators@[j]).calls() == start[j].calls() + file_paths(entries@.subrange(0, k as int)),
            results_fit(entries@.subrange(0, k as int), ns, rsq),
            forall|j: int| 0 <= j < start.len() ==> (#[trigger] calculators@[j]).produced().len() == start[j].produced().len() + file_paths(entries@.subrange(0, k as int)).len(),
            forall|j: int| 0 <= j < start.len() ==> (#[trigger] calculators@[j]).produced().subrange(0, start[j].produced().len() as int) == start[j].produced(),
            results_recorded(entries@, produced_of(start), produced_of(calculators@), rsq),
            built(entries@.subrange(0, k as int), rsq) == Ok::<FlareView, WalkError>(tree@),
        decreases n - k,
    {
        let entry = &entries[k];
        let ghost before = calculators@;
        let rs = if entry.kind == EntryKind::File {
            calculate_all(calculators, entry.path.as_str())
        } else {
            Vec::new()
        };
        proof {
            let sub = entries@.subrange(0, k + 1);
            assert(sub.drop_last() =~= entries@.subrange(0, k as int));
            assert(sub.last() == entries@[k as int]);
            assert forall|j: int| 0 <= j < start.len() implies (#[trigger] calculators@[j]).calls() == start[j].calls() + file_paths(sub) by {
                if entry.kind == EntryKind::File {
                    assert(start[j].calls() + file_paths(sub) =~= (start[j].calls() + file_paths(entries@.subrange(0, k as int))).push(entry.path@));
                } else {
                    assert(calculators@ == before);
                }
            }
            assert forall|j: int| 0 <= j < rs@.len() implies #[trigger] result_view(rs@)[j].0 == ns[j] by {
                assert(ns[j] == start[j].spec_name());
            }
            lemma_file_paths_step(entries@, k as int);
            assert forall|j: int| 0 <= j < start.len() implies (#[trigger] calculators@[j]).produced().subrange(0, start[j].produced().len() as int) == start[j].produced() by {
                if entry.kind == EntryKind::File {
                    assert(calculators@[j].produced().subrange(0, start[j].produced().len() as int) =~= before[j].produced().subrange(0, start[j].produced().len() as int));
                } else {
                    assert(calculators@ == before);
                }
            }
        }
        let ghost rv0 = rsq;
        proof {
            rsq = rsq.push(result_view(rs@));
            let rv = rsq;
            let sub = entries@.subrange(0, k + 1);
            assert forall|i: int| 0 <= i < rv.len() implies #[trigger] rv[i].len() == if sub[i].kind == EntryKind::File { ns.len() } else { 0 } by {
                if i < k {
                    assert(rv[i] == rv0[i]);
                    assert(sub[i] == entries@.subrange(0, k as int)[i]);
                }
            }
            assert forall|i: int, j: int| 0 <= i < rv.len() && 0 <= j < rv[i].len() implies #[trigger] rv[i][j].0 == ns[j] by {
                if i < k {
                    assert(rv[i] == rv0[i]);
                }
            }
            let after = produced_of(calculators@);
            let start_out = produced_of(start);
            assert forall|i: int, j: int| 0 <= i < rv.len() && entries@[i].kind == EntryKind::File && 0 <= j < rv[i].len() implies
                #[trigger] rv[i][j].1 == after[j][start_out[j].len() + file_paths(entries@.subrange(0, i)).len() as int] by {
                if i < k {
                    assert(rv[i] == rv0[i]);
                    lemma_file_paths_step(entries@, i);
                    lemma_file_paths_grow(entries@, i + 1, k as int);
                    assert(rv0[i][j].1 == produced_of(before)[j][start_out[j].len() + file_paths(entries@.subrange(0, i)).len() as int]);
                    if entry.kind == EntryKind::File {
                        assert(after[j] == before[j].produced().push(result_view(rs@)[j].1));
                    } else {
                        assert(calculators@ == before);
                    }
                } else {
                    assert(rv[i] == result_view(rs@));
                    assert(after[j] == before[j].produced().push(result_view(rs@)[j].1));
                }
            }
            lemma_built_results_prefix(entries@.subrange(0, k as int), rv, k as int);
            assert(rv.subrange(0, k as int) =~= rv0);
            lemma_built_results_prefix(entries@.subrange(0, k as int), rv0, k as int);
            assert(rv0.subrange(0, k as int) =~= rv0);
            lemma_built_prefix(entries@, rv, k as int);
            lemma_recorded_prefix(entries@, k + 1, produced_of(start), after, rv);
        }
        let step = add_entry(&mut tree, entry, rs);
        match step {
            Ok(()) => {},
            Err(e) => {
                proof {
                    assert(walked(entries@, start, calculators@, rsq, k + 1, Err::<FlareTree, WalkError>(e)));
                }
                return Err(e);
            },
        }
        k = k + 1;
    }
    proof {
        assert(entries@.subrange(0, n as int) =~= entries@);
        lemma_recorded_prefix(entries@, n as int, produced_of(start), produced_of(calculators@), rsq);
        assert(walked(entries@, start, calculators@, rsq, n as int, Ok::<FlareTree, WalkError>(tree)));
    }
    Ok(tree)
}

} // verus!
