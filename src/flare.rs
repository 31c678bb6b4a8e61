//! The flare tree, its mathematical view, and path-based lookup.
use vstd::prelude::*;

verus! {

#[verifier::external_type_specification]
#[verifier::external_body]
pub struct ExValue(serde_json::Value);

/// What a node holds: the ordered children of a directory, or the data of a
/// file, as calculator name and value pairs.
#[derive(PartialEq, Debug)]
pub enum NodeValue {
    Dir { children: Vec<FlareTree> },
    File { data: Vec<(String, serde_json::Value)> },
}

/// A node of the tree: a named directory or file.
#[derive(PartialEq, Debug)]
pub struct FlareTree {
    pub name: String,
    pub value: NodeValue,
}

/// The mathematical model of a tree.
pub enum FlareView {
    Dir { name: Seq<char>, children: Seq<FlareView> },
    File { name: Seq<char>, data: Seq<(Seq<char>, serde_json::Value)> },
}

pub open spec fn data_view(d: Seq<(String, serde_json::Value)>) -> Seq<(Seq<char>, serde_json::Value)> {
    d.map_values(|e: (String, serde_json::Value)| (e.0@, e.1))
}

pub open spec fn views_of(cs: Seq<FlareTree>) -> Seq<FlareView>
    decreases cs,
{
    if cs.len() == 0 {
        Seq::empty()
    } else {
        views_of(cs.drop_last()).push(cs.last().spec_view())
    }
}

impl FlareTree {
    pub open spec fn spec_view(self) -> FlareView
        decreases self,
    {
        match self.value {
            NodeValue::Dir { children } => FlareView::Dir { name: self.name@, children: views_of(children@) },
            NodeValue::File { data } => FlareView::File { name: self.name@, data: data_view(data@) },
        }
    }
}


impl View for FlareTree {
    type V = FlareView;

    open spec fn view(&self) -> FlareView {
        self.spec_view()
    }
}

/// The names that a path of segments stands for.
pub open spec fn names(path: Seq<&str>) -> Seq<Seq<char>> {
    path.map_values(|s: &str| s@)
}

/// Index of the first of `cs`, from `i` on, named `name`; `cs.len()` if none is.
pub open spec fn first_named_from(cs: Seq<FlareView>, name: Seq<char>, i: int) -> int
    decreases cs.len() - i,
{
    if i < 0 || i >= cs.len() {
        cs.len() as int
    } else if cs[i].name() == name {
        i
    } else {
        first_named_from(cs, name, i + 1)
    }
}

/// Index of the first child named `name`; `cs.len()` if none is.
pub open spec fn first_named(cs: Seq<FlareView>, name: Seq<char>) -> int {
    first_named_from(cs, name, 0)
}

/// Index of the first entry of `d` under key `k`; `d.len()` if none is.
pub open spec fn first_key_from(d: Seq<(Seq<char>, serde_json::Value)>, k: Seq<char>, i: int) -> int
    decreases d.len() - i,
{
    if i < 0 || i >= d.len() {
        d.len() as int
    } else if d[i].0 == k {
        i
    } else {
        first_key_from(d, k, i + 1)
    }
}

/// The data with `v` stored under `k`: the entry for `k` is overwritten in
/// place, or a new entry is added at the end.
pub open spec fn data_with(d: Seq<(Seq<char>, serde_json::Value)>, k: Seq<char>, v: serde_json::Value) -> Seq<(Seq<char>, serde_json::Value)> {
    let i = first_key_from(d, k, 0);
    if i < d.len() {
        d.update(i, (k, v))
    } else {
        d.push((k, v))
    }
}

/// The value stored under `k`, if any.
pub open spec fn data_get(d: Seq<(Seq<char>, serde_json::Value)>, k: Seq<char>) -> Option<serde_json::Value> {
    let i = first_key_from(d, k, 0);
    if i < d.len() {
        Some(d[i].1)
    } else {
        None
    }
}

impl FlareView {
    pub open spec fn name(self) -> Seq<char> {
        match self {
            FlareView::Dir { name, .. } => name,
            FlareView::File { name, .. } => name,
        }
    }

    /// The node that `path` names below this one: each segment picks the first
    /// child of that name. An empty path, a path through a file, or a segment
    /// that no child matches, names nothing.
    pub open spec fn lookup(self, path: Seq<Seq<char>>) -> Option<FlareView>
        decreases path.len(),
    {
        if path.len() == 0 {
            None
        } else {
            match self {
                FlareView::Dir { children, .. } => {
                    let i = first_named(children, path[0]);
                    if i >= children.len() {
                        None
                    } else if path.len() == 1 {
                        Some(children[i])
                    } else {
                        children[i].lookup(path.drop_first())
                    }
                },
                FlareView::File { .. } => None,
            }
        }
    }

    /// This tree with the node that `path` names replaced by `sub`; unchanged
    /// where `path` names nothing.
    pub open spec fn put(self, path: Seq<Seq<char>>, sub: FlareView) -> FlareView
        decreases path.len(),
    {
        if path.len() == 0 {
            self
        } else {
            match self {
                FlareView::Dir { name, children } => {
                    let i = first_named(children, path[0]);
                    if i >= children.len() {
                        self
                    } else if path.len() == 1 {
                        FlareView::Dir { name, children: children.update(i, sub) }
                    } else {
                        FlareView::Dir { name, children: children.update(i, children[i].put(path.drop_first(), sub)) }
                    }
                },
                FlareView::File { .. } => self,
            }
        }
    }

    /// A directory with `child` added as its last child; a file is unchanged.
    pub open spec fn appended(self, child: FlareView) -> FlareView {
        match self {
            FlareView::Dir { name, children } => FlareView::Dir { name, children: children.push(child) },
            FlareView::File { .. } => self,
        }
    }

    /// A file with `v` stored under `k`; a directory is unchanged.
    pub open spec fn attached(self, k: Seq<char>, v: serde_json::Value) -> FlareView {
        match self {
            FlareView::Dir { .. } => self,
            FlareView::File { name, data } => FlareView::File { name, data: data_with(data, k, v) },
        }
    }
}

/// The views of a sequence of trees are the trees' views, one for one.
pub proof fn lemma_views_of(cs: Seq<FlareTree>)
    ensures
        views_of(cs).len() == cs.len(),
        forall|i: int| 0 <= i < cs.len() ==> #[trigger] views_of(cs)[i] == cs[i]@,
    decreases cs.len(),
{
    if cs.len() > 0 {
        lemma_views_of(cs.drop_last());
    }
}

proof fn lemma_views_of_push(cs: Seq<FlareTree>, c: FlareTree)
    ensures
        views_of(cs.push(c)) == views_of(cs).push(c@),
{
    assert(cs.push(c).drop_last() =~= cs);
}

proof fn lemma_views_of_update(cs: Seq<FlareTree>, i: int, c: FlareTree)
    requires
        0 <= i < cs.len(),
    ensures
        views_of(cs.update(i, c)) == views_of(cs).update(i, c@),
{
    lemma_views_of(cs);
    lemma_views_of(cs.update(i, c));
    assert(views_of(cs.update(i, c)) =~= views_of(cs).update(i, c@));
}

proof fn lemma_views_of_updates(cs: Seq<FlareTree>, i: int)
    requires
        0 <= i < cs.len(),
    ensures
        forall|c: FlareTree| #[trigger] views_of(cs.update(i, c)) == views_of(cs).update(i, c@),
{
    assert forall|c: FlareTree| #[trigger] views_of(cs.update(i, c)) == views_of(cs).update(i, c@) by {
        lemma_views_of_update(cs, i, c);
    }
}

proof fn lemma_view_unfold()
    ensures
        forall|t: FlareTree| #[trigger] t@ == match t.value {
            NodeValue::Dir { children } => FlareView::Dir { name: t.name@, children: views_of(children@) },
            NodeValue::File { data } => FlareView::File { name: t.name@, data: data_view(data@) },
        },
{
}

proof fn lemma_first_named(cs: Seq<FlareView>, name: Seq<char>, s: int)
    requires
        0 <= s <= cs.len(),
    ensures
        s <= first_named_from(cs, name, s) <= cs.len(),
    decreases cs.len() - s,
{
    if s < cs.len() && cs[s].name() != name {
        lemma_first_named(cs, name, s + 1);
    }
}

proof fn lemma_first_named_update(cs: Seq<FlareView>, i: int, c: FlareView, name: Seq<char>, s: int)
    requires
        0 <= i < cs.len(),
        0 <= s <= cs.len(),
        c.name() == cs[i].name(),
    ensures
        first_named_from(cs.update(i, c), name, s) == first_named_from(cs, name, s),
    decreases cs.len() - s,
{
    if s < cs.len() {
        lemma_first_named_update(cs, i, c, name, s + 1);
    }
}

proof fn lemma_first_named_push(cs: Seq<FlareView>, c: FlareView, name: Seq<char>, s: int)
    requires
        0 <= s <= cs.len(),
        first_named_from(cs, name, s) >= cs.len(),
        c.name() == name,
    ensures
        first_named_from(cs.push(c), name, s) == cs.len(),
    decreases cs.len() - s,
{
    if s < cs.len() {
        lemma_first_named_push(cs, c, name, s + 1);
    }
}

/// Putting a node with the same name where a path names one makes the path
/// name the new node.
pub proof fn lemma_put_lookup(t: FlareView, p: Seq<Seq<char>>, sub: FlareView)
    requires
        t.lookup(p) is Some,
        sub.name() == t.lookup(p)->0.name(),
    ensures
        t.put(p, sub).lookup(p) == Some(sub),
    decreases p.len(),
{
    if let FlareView::Dir { name, children } = t {
        let i = first_named(children, p[0]);
        lemma_first_named(children, p[0], 0);
        let c = if p.len() == 1 { sub } else { children[i].put(p.drop_first(), sub) };
        if p.len() > 1 {
            lemma_put_lookup(children[i], p.drop_first(), sub);
            lemma_put_name(children[i], p.drop_first(), sub);
        } else {
            lemma_first_named_from_found(children, p[0], 0);
        }
        lemma_first_named_update(children, i, c, p[0], 0);
    }
}

proof fn lemma_first_named_from_found(cs: Seq<FlareView>, name: Seq<char>, s: int)
    requires
        0 <= s <= cs.len(),
        first_named_from(cs, name, s) < cs.len(),
    ensures
        cs[first_named_from(cs, name, s)].name() == name,
    decreases cs.len() - s,
{
    if s < cs.len() && cs[s].name() != name {
        lemma_first_named_from_found(cs, name, s + 1);
    }
}

/// Putting a node somewhere below keeps the name at the top.
pub proof fn lemma_put_name(t: FlareView, p: Seq<Seq<char>>, sub: FlareView)
    ensures
        t.put(p, sub).name() == t.name(),
{
}

/// A node appended to a directory that has no child of its name is found
/// under that name.
pub proof fn lemma_appended_lookup(t: FlareView, node: FlareView)
    requires
        t is Dir,
        first_named(t->Dir_children, node.name()) >= t->Dir_children.len(),
    ensures
        t.appended(node).lookup(seq![node.name()]) == Some(node),
{
    lemma_first_named_push(t->Dir_children, node, node.name(), 0);
}

/// No file in the tree holds any data.
pub open spec fn no_data(t: FlareView) -> bool
    decreases t,
{
    match t {
        FlareView::Dir { children, .. } => forall|i: int| 0 <= i < children.len() ==> no_data(#[trigger] children[i]),
        FlareView::File { data, .. } => data.len() == 0,
    }
}

/// Below a tree without data, every node is without data.
pub proof fn lemma_no_data_lookup(t: FlareView, p: Seq<Seq<char>>)
    requires
        no_data(t),
        t.lookup(p) is Some,
    ensures
        no_data(t.lookup(p)->0),
    decreases p.len(),
{
    if let FlareView::Dir { children, .. } = t {
        let i = first_named(children, p[0]);
        lemma_first_named(children, p[0], 0);
        if p.len() > 1 {
            lemma_no_data_lookup(children[i], p.drop_first());
        }
    }
}

/// Putting a tree without data into a tree without data leaves none.
pub proof fn lemma_no_data_put(t: FlareView, p: Seq<Seq<char>>, sub: FlareView)
    requires
        no_data(t),
        no_data(sub),
    ensures
        no_data(t.put(p, sub)),
    decreases p.len(),
{
    if p.len() > 0 {
        if let FlareView::Dir { name, children } = t {
            let i = first_named(children, p[0]);
            lemma_first_named(children, p[0], 0);
            if i < children.len() {
                let c = if p.len() == 1 { sub } else { children[i].put(p.drop_first(), sub) };
                if p.len() > 1 {
                    lemma_no_data_put(children[i], p.drop_first(), sub);
                }
                let cs = children.update(i, c);
                assert forall|j: int| 0 <= j < cs.len() implies no_data(#[trigger] cs[j]) by {
                    if j != i {
                        assert(cs[j] == children[j]);
                    }
                }
            }
        }
    }
}

/// Appending a tree without data to a tree without data leaves none.
pub proof fn lemma_no_data_appended(t: FlareView, c: FlareView)
    requires
        no_data(t),
        no_data(c),
    ensures
        no_data(t.appended(c)),
{
    if let FlareView::Dir { name, children } = t {
        let cs = children.push(c);
        assert forall|j: int| 0 <= j < cs.len() implies no_data(#[trigger] cs[j]) by {
            if j < children.len() {
                assert(cs[j] == children[j]);
            }
        }
    }
}

/// Looking up a path in two parts is looking up the second part below the
/// node that the first part names.
pub proof fn lemma_lookup_concat(t: FlareView, q: Seq<Seq<char>>, r: Seq<Seq<char>>)
    requires
        q.len() > 0,
        r.len() > 0,
    ensures
        t.lookup(q + r) == match t.lookup(q) {
            Some(n) => n.lookup(r),
            None => None,
        },
    decreases q.len(),
{
    assert((q + r)[0] == q[0]);
    match t {
        FlareView::Dir { children, .. } => {
            let i = first_named(children, q[0]);
            if i < children.len() {
                if q.len() == 1 {
                    assert((q + r).drop_first() =~= r);
                } else {
                    assert((q + r).drop_first() =~= q.drop_first() + r);
                    lemma_lookup_concat(children[i], q.drop_first(), r);
                }
            }
        },
        FlareView::File { .. } => {},
    }
}

/// A lookup names nothing for an empty path, for a path that goes on below a
/// file, or for a path with a segment that no child of the directory reached
/// so far matches.
pub proof fn lemma_lookup_misses(t: FlareView, q: Seq<Seq<char>>, seg: Seq<char>, r: Seq<Seq<char>>)
    ensures
        t.lookup(Seq::empty()) is None,
        t is File ==> t.lookup(seq![seg] + r) is None,
        (t is Dir && first_named(t->Dir_children, seg) >= t->Dir_children.len()) ==> t.lookup(seq![seg] + r) is None,
        q.len() > 0 && t.lookup(q) is Some && t.lookup(q)->0 is File ==> t.lookup(q.push(seg) + r) is None,
        q.len() > 0 && t.lookup(q) is Some && t.lookup(q)->0 is Dir
            && first_named(t.lookup(q)->0->Dir_children, seg) >= t.lookup(q)->0->Dir_children.len() ==> t.lookup(q.push(seg) + r) is None,
{
    let p = q.push(seg) + r;
    assert((seq![seg] + r)[0] == seg);
    if q.len() > 0 {
        assert(p[0] == q[0]);
        assert(p =~= q + (seq![seg] + r));
        lemma_lookup_concat(t, q, seq![seg] + r);
        assert((seq![seg] + r)[0] == seg);
    }
}

proof fn lemma_first_key(d: Seq<(Seq<char>, serde_json::Value)>, k: Seq<char>, s: int)
    requires
        0 <= s <= d.len(),
    ensures
        s <= first_key_from(d, k, s) <= d.len(),
        first_key_from(d, k, s) < d.len() ==> d[first_key_from(d, k, s)].0 == k,
        forall|m: int| s <= m < first_key_from(d, k, s) ==> #[trigger] d[m].0 != k,
    decreases d.len() - s,
{
    if s < d.len() && d[s].0 != k {
        lemma_first_key(d, k, s + 1);
    }
}

proof fn lemma_first_key_is(d: Seq<(Seq<char>, serde_json::Value)>, k: Seq<char>, j: int)
    requires
        0 <= j <= d.len(),
        j < d.len() ==> d[j].0 == k,
        forall|m: int| 0 <= m < j ==> #[trigger] d[m].0 != k,
    ensures
        first_key_from(d, k, 0) == j,
{
    lemma_first_key(d, k, 0);
}

/// Storing `v` under `k` makes `v` the value under `k` and leaves every other
/// key as it was.
pub proof fn lemma_data_with_get(d: Seq<(Seq<char>, serde_json::Value)>, k: Seq<char>, v: serde_json::Value, k2: Seq<char>)
    ensures
        data_get(data_with(d, k, v), k2) == if k2 == k { Some(v) } else { data_get(d, k2) },
{
    lemma_first_key(d, k, 0);
    lemma_first_key(d, k2, 0);
    let i = first_key_from(d, k, 0);
    let j = first_key_from(d, k2, 0);
    let e = data_with(d, k, v);
    if i < d.len() {
        assert forall|m: int| 0 <= m < j implies #[trigger] e[m].0 != k2 by {
            assert(d[m].0 != k2);
        }
        lemma_first_key_is(e, k2, j);
    } else if k2 == k {
        assert forall|m: int| 0 <= m < d.len() implies #[trigger] e[m].0 != k2 by {
            assert(d[m].0 != k);
        }
        lemma_first_key_is(e, k2, d.len() as int);
    } else if j < d.len() {
        assert forall|m: int| 0 <= m < j implies #[trigger] e[m].0 != k2 by {
            assert(d[m].0 != k2);
        }
        lemma_first_key_is(e, k2, j);
    } else {
        assert forall|m: int| 0 <= m < d.len() as int + 1 implies #[trigger] e[m].0 != k2 by {
            if m < d.len() {
                assert(d[m].0 != k2);
            }
        }
        lemma_first_key_is(e, k2, d.len() as int + 1);
    }
}

/// Finds the first of `children` named `name`.
fn find_child(children: &Vec<FlareTree>, name: &str) -> (r: usize)
    ensures
        r == first_named(views_of(children@), name@),
{
    proof {
        lemma_views_of(children@);
    }
    let key = name.to_owned();
    let mut i: usize = 0;
    while i < children.len()
        invariant
            0 <= i <= children.len(),
            key@ == name@,
            views_of(children@).len() == children.len(),
            forall|j: int| 0 <= j < children.len() ==> #[trigger] views_of(children@)[j] == children@[j]@,
            first_named(views_of(children@), name@) == first_named_from(views_of(children@), name@, i as int),
        decreases children.len() - i,
    {
        if children[i].name == key {
            return i;
        }
        i = i + 1;
    }
    i
}


/// Finds the first entry of `data` under `key`.
fn find_key(data: &Vec<(String, serde_json::Value)>, key: &String) -> (r: usize)
    ensures
        r == first_key_from(data_view(data@), key@, 0),
{
    let mut i: usize = 0;
    while i < data.len()
        invariant
            0 <= i <= data.len(),
            first_key_from(data_view(data@), key@, 0) == first_key_from(data_view(data@), key@, i as int),
        decreases data.len() - i,
    {
        if data[i].0 == *key {
            return i;
        }
        i = i + 1;
    }
    i
}

impl FlareTree {
    pub fn name(&self) -> (r: &String)
        ensures
            r@ == self@.name(),
    {
        &self.name
    }

    /// A file with no data.
    pub fn from_file(name: String) -> (r: FlareTree)
        ensures
            r@ == (FlareView::File { name: name@, data: Seq::empty() }),
    {
        let r = FlareTree { name: name, value: NodeValue::File { data: Vec::new() } };
        assert(data_view(Seq::<(String, serde_json::Value)>::empty()) =~= Seq::empty());
        r
    }

    /// A directory with no children.
    pub fn from_dir(name: String) -> (r: FlareTree)
        ensures
            r@ == (FlareView::Dir { name: name@, children: Seq::empty() }),
    {
        FlareTree { name: name, value: NodeValue::Dir { children: Vec::new() } }
    }

    /// Adds `child` as the last child of a directory; does nothing to a file.
    pub fn append_child(&mut self, child: FlareTree)
        ensures
            final(self)@ == old(self)@.appended(child@),
    {
        match &mut self.value {
            NodeValue::Dir { children } => {
                proof {
                    lemma_views_of_push(children@, child);
                }
                children.push(child);
            },
            NodeValue::File { .. } => {},
        }
    }

    /// Stores `value` under `key` in a file's data, overwriting an earlier
    /// value under the same key; does nothing to a directory.
    pub fn attach_data(&mut self, key: String, value: serde_json::Value)
        ensures
            final(self)@ == old(self)@.attached(key@, value),
    {
        match &mut self.value {
            NodeValue::Dir { .. } => {},
            NodeValue::File { data } => {
                let i = find_key(data, &key);
                let ghost k = key@;
                let ghost d0 = data_view(data@);
                if i < data.len() {
                    data.set(i, (key, value));
                    assert(data_view(data@) =~= data_with(d0, k, value));
                } else {
                    data.push((key, value));
                    assert(data_view(data@) =~= data_with(d0, k, value));
                }
            },
        }
    }

    /// The node that `path` names below this one (see `FlareView::lookup`).
    pub fn get_in(&self, path: &[&str]) -> (r: Option<&FlareTree>)
        ensures
            match r {
                Some(t) => self@.lookup(names(path@)) == Some(t@),
                None => self@.lookup(names(path@)) is None,
            },
    {
        assert(names(path@).subrange(0, path@.len() as int) =~= names(path@));
        self.get_from(path, 0)
    }

    fn get_from(&self, path: &[&str], start: usize) -> (r: Option<&FlareTree>)
        requires
            start <= path@.len(),
        ensures
            match r {
                Some(t) => self@.lookup(names(path@).subrange(start as int, path@.len() as int)) == Some(t@),
                None => self@.lookup(names(path@).subrange(start as int, path@.len() as int)) is None,
            },
        decreases path@.len() - start,
    {
        let ghost p = names(path@).subrange(start as int, path@.len() as int);
        if start >= path.len() {
            return None;
        }
        match &self.value {
            NodeValue::Dir { children } => {
                proof {
                    lemma_views_of(children@);
                    assert(p[0] == path@[start as int]@);
                    assert(p.drop_first() =~= names(path@).subrange(start + 1, path@.len() as int));
                }
                let i = find_child(children, path[start]);
                if i >= children.len() {
                    None
                } else if start + 1 == path.len() {
                    Some(&children[i])
                } else {
                    children[i].get_from(path, start + 1)
                }
            },
            NodeValue::File { .. } => None,
        }
    }

    /// The node that `path` names below this one (see `FlareView::lookup`), to
    /// be changed in place: the tree afterwards holds whatever the node became.
    pub fn get_in_mut(&mut self, path: &[&str]) -> (r: Option<&mut FlareTree>)
        ensures
            match r {
                Some(t) => {
                    &&& old(self)@.lookup(names(path@)) == Some(t@)
                    &&& final(self)@ == old(self)@.put(names(path@), final(t)@)
                },
                None => {
                    &&& old(self)@.lookup(names(path@)) is None
                    &&& final(self)@ == old(self)@
                },
            },
    {
        assert(names(path@).subrange(0, path@.len() as int) =~= names(path@));
        self.get_mut_from(path, 0)
    }

    fn get_mut_from(&mut self, path: &[&str], start: usize) -> (r: Option<&mut FlareTree>)
        requires
            start <= path@.len(),
        ensures
            match r {
                Some(t) => {
                    &&& old(self)@.lookup(names(path@).subrange(start as int, path@.len() as int)) == Some(t@)
                    &&& final(self)@ == old(self)@.put(names(path@).subrange(start as int, path@.len() as int), final(t)@)
                },
                None => {
                    &&& old(self)@.lookup(names(path@).subrange(start as int, path@.len() as int)) is None
                    &&& final(self)@ == old(self)@
                },
            },
        decreases path@.len() - start,
    {
        let ghost p = names(path@).subrange(start as int, path@.len() as int);
        if start >= path.len() {
            return None;
        }
        let i = match &self.value {
            NodeValue::Dir { children } => {
                proof {
                    lemma_views_of(children@);
                }
                find_child(children, path[start])
            },
            NodeValue::File { .. } => {
                return None;
            },
        };
        proof {
            assert(p[0] == path@[start as int]@);
            assert(p.drop_first() =~= names(path@).subrange(start + 1, path@.len() as int));
        }
        if i >= self.child_count() {
            return None;
        }
        proof {
            assert(self@->Dir_children.update(i as int, self@->Dir_children[i as int]) =~= self@->Dir_children);
        }
        let c = self.child_mut(i);
        if start + 1 == path.len() {
            Some(c)
        } else {
            c.get_mut_from(path, start + 1)
        }
    }

    /// The number of children of a directory; zero for a file.
    fn child_count(&self) -> (r: usize)
        ensures
            self@ is Dir ==> r == self@->Dir_children.len(),
    {
        match &self.value {
            NodeValue::Dir { children } => {
                proof {
                    lemma_views_of(children@);
                }
                children.len()
            },
            NodeValue::File { .. } => 0,
        }
    }

    /// The child of a directory at index `i`, to be changed in place.
    fn child_mut(&mut self, i: usize) -> (r: &mut FlareTree)
        requires
            old(self)@ is Dir,
            i < old(self)@->Dir_children.len(),
        ensures
            r@ == old(self)@->Dir_children[i as int],
            final(self)@ == (FlareView::Dir {
                name: old(self)@->Dir_name,
                children: old(self)@->Dir_children.update(i as int, final(r)@),
            }),
    {
        match &mut self.value {
            NodeValue::Dir { children } => {
                proof {
                    lemma_views_of(children@);
                    lemma_views_of_updates(children@, i as int);
                    lemma_view_unfold();
                }
                &mut children[i]
            },
            NodeValue::File { .. } => {
                proof {
                    assert(false);
                }
                vstd::pervasive::unreached()
            },
        }
    }
}

} // verus!
