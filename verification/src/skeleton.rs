use vstd::hash_map::StringHashMap;
use vstd::multiset::Multiset;
use vstd::prelude::*;

use crate::mesh::{shape_face_picks, spec_face_picks, FacePick};
use crate::shape::{spec_has_geometry, Shape};
use crate::text::{
    lemma_bytes_lt_irreflexive, lemma_bytes_lt_transitive, text_eq, text_less, text_lt,
};

verus! {

/// One bone (and, usually, one shape) in the hierarchy of a `.blockymodel`.
///
/// `data` is the node's geometry (bind transform and shape extents); the
/// hierarchy rules never look inside it and carry it through unchanged.
#[verifier::reject_recursive_types(P)]
pub struct Node<P> {
    /// A string in the wire format, never an integer.
    pub id: String,
    /// Bone name; animations bind to this, and names are **not** unique.
    pub name: String,
    pub data: P,
    pub shape: Option<Shape>,
    pub children: Vec<Node<P>>,
}

/// The root of a `.blockymodel` document.
#[verifier::reject_recursive_types(P)]
pub struct BlockyModel<P> {
    /// Root nodes. The format allows more than one.
    pub nodes: Vec<Node<P>>,
    /// Only ever seen as `"auto"`; ignored by renderers.
    pub lod: Option<String>,
    /// `"character"` or `"prop"`; only meaningful to the editor.
    pub format: Option<String>,
}

/// One bone, flattened out of the source tree.
pub struct Bone<P> {
    /// Source `id` string.
    pub id: String,
    /// Bone name. **Not unique**: several bones may share one.
    pub name: String,
    /// The node's geometry, carried through unchanged.
    pub data: P,
    /// The geometry descriptor, if this bone has any.
    pub shape: Option<Shape>,
    /// Index into [`Skeleton::bones`]; always below this bone's own index.
    pub parent: Option<usize>,
    /// Depth from the root.
    pub depth: u32,
}

impl<P> Bone<P> {
    /// The bone's shape, if it draws anything.
    pub fn geometry(&self) -> (r: Option<&Shape>)
        ensures
            match r {
                Some(s) => self.shape == Some(*s) && spec_has_geometry(s.kind),
                None => match self.shape {
                    Some(s) => !spec_has_geometry(s.kind),
                    None => true,
                },
            },
    {
        match &self.shape {
            Some(s) => if s.has_geometry() {
                Some(s)
            } else {
                None
            },
            None => None,
        }
    }
}

/// A face to generate, and the bone that drives it.
#[derive(Debug, Clone, Copy, PartialEq, Eq, Structural)]
pub struct BoneFace {
    pub bone: usize,
    pub pick: FacePick,
}

/// The faces the first `n` bones generate, in bone order.
pub open spec fn bone_faces<P>(bones: Seq<Bone<P>>, n: int) -> Seq<BoneFace>
    decreases n,
{
    if n <= 0 {
        Seq::empty()
    } else {
        let prev = bone_faces(bones, n - 1);
        match bones[n - 1].shape {
            Some(s) => if spec_has_geometry(s.kind) {
                prev + spec_face_picks(s).map_values(|p: FacePick| BoneFace { bone: (n - 1) as usize, pick: p })
            } else {
                prev
            },
            None => prev,
        }
    }
}

/// A model flattened into arrays, ready for per-frame evaluation.
pub struct Skeleton<P> {
    /// Bones in pre-order: a bone's parent always has a lower index.
    pub bones: Vec<Bone<P>>,
    /// `name -> indices`, in increasing order. Always a list: names repeat
    /// in real assets.
    pub by_name: StringHashMap<Vec<usize>>,
}

/// The bone a node becomes.
pub open spec fn bone_of<P>(n: Node<P>, parent: Option<usize>, depth: int) -> Bone<P> {
    Bone { id: n.id, name: n.name, data: n.data, shape: n.shape, parent, depth: depth as u32 }
}

/// The pre-order listing of a forest whose roots hang under `parent` at
/// `depth`, numbered from `start`.
pub open spec fn flat_forest<P>(nodes: Seq<Node<P>>, parent: Option<usize>, depth: int, start: int) -> Seq<Bone<P>>
    decreases nodes,
{
    if nodes.len() == 0 {
        Seq::empty()
    } else {
        let init = flat_forest(nodes.drop_last(), parent, depth, start);
        init + flat_tree(nodes.last(), parent, depth, start + init.len())
    }
}

/// The pre-order listing of one tree rooted at index `start`.
pub open spec fn flat_tree<P>(n: Node<P>, parent: Option<usize>, depth: int, start: int) -> Seq<Bone<P>>
    decreases n,
{
    seq![bone_of(n, parent, depth)] + flat_forest(n.children@, Some(start as usize), depth + 1, start + 1)
}

/// The number of levels of a forest.
pub open spec fn forest_height<P>(nodes: Seq<Node<P>>) -> int
    decreases nodes,
{
    if nodes.len() == 0 {
        0
    } else {
        let a = forest_height(nodes.drop_last());
        let b = tree_height(nodes.last());
        if a < b {
            b
        } else {
            a
        }
    }
}

/// The number of levels of a tree.
pub open spec fn tree_height<P>(n: Node<P>) -> int
    decreases n,
{
    1 + forest_height(n.children@)
}

/// Every tree of a forest is no taller than the forest.
pub proof fn lemma_tree_height_bounded<P>(nodes: Seq<Node<P>>, i: int)
    requires
        0 <= i < nodes.len(),
    ensures
        tree_height(nodes[i]) <= forest_height(nodes),
        0 <= forest_height(nodes),
    decreases nodes.len(),
{
    lemma_forest_height_nonneg(nodes);
    if i < nodes.len() - 1 {
        lemma_tree_height_bounded(nodes.drop_last(), i);
        assert(nodes.drop_last()[i] == nodes[i]);
    }
}

pub proof fn lemma_forest_height_nonneg<P>(nodes: Seq<Node<P>>)
    ensures
        0 <= forest_height(nodes),
    decreases nodes.len(),
{
    if nodes.len() > 0 {
        lemma_forest_height_nonneg(nodes.drop_last());
    }
}

/// Within a flattened forest, every bone hangs either under the forest's own
/// parent at the forest's depth, or under an earlier bone of the same
/// listing, one level deeper than it.
pub proof fn lemma_flat_forest_links<P>(nodes: Seq<Node<P>>, parent: Option<usize>, depth: int, start: int)
    requires
        0 <= depth,
        depth + forest_height(nodes) <= u32::MAX,
        0 <= start,
        start + flat_forest(nodes, parent, depth, start).len() <= usize::MAX + 1,
    ensures
        ({
            let s = flat_forest(nodes, parent, depth, start);
            forall|k: int|
                0 <= k < s.len() ==> (#[trigger] s[k].parent == parent && s[k].depth == depth) || (
                s[k].parent matches Some(q) && start <= q < start + k && s[k].depth == s[q - start].depth
                    + 1)
        }),
    decreases nodes,
{
    if nodes.len() > 0 {
        let init = nodes.drop_last();
        let a = flat_forest(init, parent, depth, start);
        lemma_forest_height_nonneg(init);
        lemma_tree_height_bounded(nodes, nodes.len() - 1);
        assert(forest_height(init) <= forest_height(nodes));
        lemma_flat_forest_links(init, parent, depth, start);
        lemma_flat_tree_links(nodes.last(), parent, depth, start + a.len());
        let t = flat_tree(nodes.last(), parent, depth, start + a.len());
        let s = flat_forest(nodes, parent, depth, start);
        assert(s == a + t);
        assert forall|k: int| 0 <= k < s.len() implies (#[trigger] s[k].parent == parent && s[k].depth
            == depth) || (s[k].parent matches Some(q) && start <= q < start + k && s[k].depth == s[q
            - start].depth + 1) by {
            if k < a.len() {
                assert(s[k] == a[k]);
                if let Some(q) = a[k].parent {
                    if !(a[k].parent == parent && a[k].depth == depth) {
                        assert(s[q - start] == a[q - start]);
                    }
                }
            } else {
                assert(s[k] == t[k - a.len()]);
                if let Some(q) = t[k - a.len()].parent {
                    if !(t[k - a.len()].parent == parent && t[k - a.len()].depth == depth) {
                        assert(s[q - start] == t[q - start - a.len()]);
                    }
                }
            }
        }
    }
}

/// [`lemma_flat_forest_links`] for a single tree.
pub proof fn lemma_flat_tree_links<P>(n: Node<P>, parent: Option<usize>, depth: int, start: int)
    requires
        0 <= depth,
        depth + tree_height(n) <= u32::MAX,
        0 <= start,
        start + flat_tree(n, parent, depth, start).len() <= usize::MAX + 1,
    ensures
        ({
            let s = flat_tree(n, parent, depth, start);
            forall|k: int|
                0 <= k < s.len() ==> (#[trigger] s[k].parent == parent && s[k].depth == depth) || (
                s[k].parent matches Some(q) && start <= q < start + k && s[k].depth == s[q - start].depth
                    + 1)
        }),
    decreases n,
{
    lemma_forest_height_nonneg(n.children@);
    lemma_flat_forest_links(n.children@, Some(start as usize), depth + 1, start + 1);
    let f = flat_forest(n.children@, Some(start as usize), depth + 1, start + 1);
    let s = flat_tree(n, parent, depth, start);
    assert(s == seq![bone_of(n, parent, depth)] + f);
    assert forall|k: int| 0 <= k < s.len() implies (#[trigger] s[k].parent == parent && s[k].depth
        == depth) || (s[k].parent matches Some(q) && start <= q < start + k && s[k].depth == s[q
        - start].depth + 1) by {
        if k > 0 {
            assert(s[k] == f[k - 1]);
            if let Some(q) = f[k - 1].parent {
                if !(f[k - 1].parent == Some(start as usize) && f[k - 1].depth == depth + 1) {
                    if q >= start + 1 {
                        assert(s[q - start] == f[q - start - 1]);
                    }
                } else {
                    assert(s[0] == bone_of(n, parent, depth));
                }
            }
        }
    }
}

/// The indices, in increasing order, of the first `n` bones named `name`.
pub open spec fn indices_named<P>(bones: Seq<Bone<P>>, name: Seq<char>, n: int) -> Seq<usize>
    decreases n,
{
    if n <= 0 {
        Seq::empty()
    } else {
        let prev = indices_named(bones, name, n - 1);
        if bones[n - 1].name@ == name {
            prev.push((n - 1) as usize)
        } else {
            prev
        }
    }
}

/// `by_name` maps exactly the names of the first `n` bones, each to the
/// increasing list of the bones carrying it.
pub open spec fn indexes_names<P>(bones: Seq<Bone<P>>, by_name: Map<Seq<char>, Vec<usize>>, n: int) -> bool {
    &&& forall|k: Seq<char>| #[trigger]
        by_name.contains_key(k) <==> (exists|i: int| 0 <= i < n && bones[i].name@ == k)
    &&& forall|k: Seq<char>| #[trigger] by_name.contains_key(k) ==> by_name[k]@ == indices_named(bones, k, n)
}

/// No bone among the first `n` carries `name`, so none is listed.
pub proof fn lemma_indices_named_absent<P>(bones: Seq<Bone<P>>, name: Seq<char>, n: int)
    requires
        forall|i: int| 0 <= i < n ==> bones[i].name@ != name,
    ensures
        indices_named(bones, name, n) == Seq::<usize>::empty(),
    decreases n,
{
    if n > 0 {
        lemma_indices_named_absent(bones, name, n - 1);
    }
}

/// The list of bones named `name` holds exactly the bones carrying it, in
/// increasing order: a name drives every bone that shares it.
pub proof fn lemma_indices_named_members<P>(bones: Seq<Bone<P>>, name: Seq<char>, n: int)
    requires
        0 <= n <= bones.len(),
        n <= usize::MAX + 1,
    ensures
        forall|i: int| 0 <= i < n ==> (bones[i].name@ == name <==> indices_named(bones, name, n).contains(i as usize)),
        forall|p: int, q: int| 0 <= p < q < indices_named(bones, name, n).len() ==> indices_named(bones, name, n)[p] < indices_named(bones, name, n)[q],
        forall|p: int| 0 <= p < indices_named(bones, name, n).len() ==> indices_named(bones, name, n)[p] < n,
    decreases n,
{
    if n > 0 {
        lemma_indices_named_members(bones, name, n - 1);
        let prev = indices_named(bones, name, n - 1);
        let cur = indices_named(bones, name, n);
        assert forall|i: int| 0 <= i < n implies (bones[i].name@ == name <==> cur.contains(i as usize)) by {
            if i < n - 1 {
                if cur.contains(i as usize) {
                    let p = choose|p: int| 0 <= p < cur.len() && cur[p] == i as usize;
                    if p < prev.len() {
                        assert(prev[p] == cur[p]);
                    }
                }
                if prev.contains(i as usize) {
                    let p = choose|p: int| 0 <= p < prev.len() && prev[p] == i as usize;
                    assert(cur[p] == prev[p]);
                }
            } else {
                if bones[i].name@ == name {
                    assert(cur[cur.len() - 1] == i as usize);
                } else {
                    if cur.contains(i as usize) {
                        let p = choose|p: int| 0 <= p < cur.len() && cur[p] == i as usize;
                        assert(cur[p] == prev[p]);
                    }
                }
            }
        }
    }
}

/// Copies a list of bone indices.
fn copy_indices(v: &Vec<usize>) -> (r: Vec<usize>)
    ensures
        r@ == v@,
{
    let mut r: Vec<usize> = Vec::new();
    let mut i: usize = 0;
    while i < v.len()
        invariant
            0 <= i <= v@.len(),
            r@ == v@.take(i as int),
        decreases v@.len() - i,
    {
        r.push(v[i]);
        assert(v@.take(i + 1) =~= v@.take(i as int).push(v@[i as int]));
        i = i + 1;
    }
    assert(v@.take(v@.len() as int) =~= v@);
    r
}

/// Builds the name index of a bone list.
fn index_names<P>(bones: &Vec<Bone<P>>) -> (r: StringHashMap<Vec<usize>>)
    ensures
        indexes_names(bones@, r@, bones@.len() as int),
{
    let mut by_name: StringHashMap<Vec<usize>> = StringHashMap::new();
    let n = bones.len();
    let mut i: usize = 0;
    while i < n
        invariant
            n == bones@.len(),
            0 <= i <= n,
            indexes_names(bones@, by_name@, i as int),
        decreases n - i,
    {
        let name = &bones[i].name;
        let ghost old_map = by_name@;
        let ghost nm = name@;
        let existing = by_name.get(name.as_str());
        let list = match existing {
            Some(v) => {
                let mut list = copy_indices(v);
                list.push(i);
                list
            },
            None => {
                proof {
                    lemma_indices_named_absent(bones@, nm, i as int);
                }
                let mut list: Vec<usize> = Vec::new();
                list.push(i);
                list
            },
        };
        by_name.insert(name.clone(), list);
        proof {
            assert(indices_named(bones@, nm, i + 1) == indices_named(bones@, nm, i as int).push(i));
            assert forall|k: Seq<char>| #[trigger]
                by_name@.contains_key(k) <==> (exists|j: int| 0 <= j < i + 1 && bones@[j].name@ == k) by {
                if k != nm && (exists|j: int| 0 <= j < i + 1 && bones@[j].name@ == k) {
                    let j = choose|j: int| 0 <= j < i + 1 && bones@[j].name@ == k;
                    assert(j < i);
                }
            }
            assert forall|k: Seq<char>| #[trigger] by_name@.contains_key(k) implies by_name@[k]@
                == indices_named(bones@, k, i + 1) by {
                if k != nm {
                    assert(indices_named(bones@, k, i + 1) == indices_named(bones@, k, i as int));
                }
            }
        }
        i = i + 1;
    }
    by_name
}

/// Whether a forest is at most `limit` levels tall.
fn forest_height_within<P>(nodes: &Vec<Node<P>>, limit: u32) -> (r: bool)
    ensures
        r == (forest_height(nodes@) <= limit),
    decreases nodes@,
{
    let mut i: usize = 0;
    while i < nodes.len()
        invariant
            0 <= i <= nodes@.len(),
            forest_height(nodes@.take(i as int)) <= limit,
        decreases nodes@.len() - i,
    {
        let node = &nodes[i];
        proof {
            assert(decreases_to!(nodes@ => nodes@[i as int]));
            let next = nodes@.take(i + 1);
            assert(next.drop_last() =~= nodes@.take(i as int));
            assert(next.last() == nodes@[i as int]);
        }
        if limit == 0 || !forest_height_within(&node.children, limit - 1) {
            proof {
                lemma_forest_height_nonneg(node.children@);
                lemma_tree_height_bounded(nodes@, i as int);
            }
            return false;
        }
        proof {
            let next = nodes@.take(i + 1);
            assert(tree_height(nodes@[i as int]) == 1 + forest_height(node.children@));
            assert(forest_height(next) <= limit);
        }
        i = i + 1;
    }
    proof {
        assert(nodes@.take(nodes@.len() as int) =~= nodes@);
    }
    true
}

/// A copy of an optional shape.
fn copy_opt_shape(o: &Option<Shape>) -> (r: Option<Shape>)
    ensures
        r == *o,
{
    match o {
        Some(s) => Some(s.clone()),
        None => None,
    }
}

/// Appends the pre-order listing of `nodes` to `bones`.
fn flatten_into<P: Copy>(nodes: &Vec<Node<P>>, parent: Option<usize>, depth: u32, bones: &mut Vec<Bone<P>>)
    requires
        depth + forest_height(nodes@) <= u32::MAX,
    ensures
        final(bones)@ == old(bones)@ + flat_forest(nodes@, parent, depth as int, old(bones)@.len() as int),
    decreases nodes@,
{
    let ghost start = bones@.len() as int;
    let ghost base = bones@;
    let mut i: usize = 0;
    while i < nodes.len()
        invariant
            0 <= i <= nodes@.len(),
            depth + forest_height(nodes@) <= u32::MAX,
            bones@ == base + flat_forest(nodes@.take(i as int), parent, depth as int, start),
            start == base.len(),
        decreases nodes@.len() - i,
    {
        let node = &nodes[i];
        proof {
            lemma_tree_height_bounded(nodes@, i as int);
            lemma_forest_height_nonneg(node.children@);
        }
        let index = bones.len();
        let bone = Bone {
            id: node.id.clone(),
            name: node.name.clone(),
            data: node.data,
            shape: copy_opt_shape(&node.shape),
            parent,
            depth,
        };
        let ghost before = bones@;
        bones.push(bone);
        proof {
            assert(decreases_to!(nodes@ => nodes@[i as int]));
        }
        flatten_into(&node.children, Some(index), depth + 1, bones);
        proof {
            let prefix = nodes@.take(i as int);
            let next = nodes@.take(i + 1);
            assert(next.drop_last() =~= prefix);
            assert(next.last() == nodes@[i as int]);
            let init = flat_forest(prefix, parent, depth as int, start);
            assert(before == base + init);
            assert(index == start + init.len());
            assert(bone == bone_of(nodes@[i as int], parent, depth as int));
            let tree = flat_tree(nodes@[i as int], parent, depth as int, start + init.len());
            assert(flat_forest(next, parent, depth as int, start) == init + tree);
            assert(tree == seq![bone] + flat_forest(
                nodes@[i as int].children@,
                Some(index),
                depth + 1,
                start + init.len() + 1,
            ));
            assert(bones@ =~= base + flat_forest(next, parent, depth as int, start));
        }
        i = i + 1;
    }
    proof {
        assert(nodes@.take(nodes@.len() as int) =~= nodes@);
    }
}

/// Every bone's parent precedes it and sits one level above it; roots sit
/// at depth 0.
pub open spec fn parents_precede<P>(bones: Seq<Bone<P>>) -> bool {
    forall|i: int|
        0 <= i < bones.len() ==> match #[trigger] bones[i].parent {
            Some(p) => p < i && bones[i].depth == bones[p as int].depth + 1,
            None => bones[i].depth == 0,
        }
}

impl<P> BlockyModel<P> {
    /// Whether every node's depth fits the `u32` a bone records it in, which
    /// [`Skeleton::from_model`] needs.
    pub fn depth_fits(&self) -> (r: bool)
        ensures
            r == (forest_height(self.nodes@) <= u32::MAX),
    {
        forest_height_within(&self.nodes, u32::MAX)
    }
}

impl<P: Copy> Skeleton<P> {
    /// Flattens a parsed model into arrays, in pre-order.
    pub fn from_model(model: &BlockyModel<P>) -> (r: Self)
        requires
            forest_height(model.nodes@) <= u32::MAX,
        ensures
            r.bones@ == flat_forest(model.nodes@, None, 0, 0),
            parents_precede(r.bones@),
            indexes_names(r.bones@, r.by_name@, r.bones@.len() as int),
    {
        let mut bones: Vec<Bone<P>> = Vec::new();
        flatten_into(&model.nodes, None, 0, &mut bones);
        let count = bones.len();
        proof {
            assert(count == bones@.len());
            assert(bones@ =~= flat_forest(model.nodes@, None, 0, 0));
            lemma_forest_height_nonneg(model.nodes@);
            lemma_flat_forest_links(model.nodes@, None, 0, 0);
            let s = bones@;
            assert forall|i: int| 0 <= i < s.len() implies match #[trigger] s[i].parent {
                Some(p) => p < i && s[i].depth == s[p as int].depth + 1,
                None => s[i].depth == 0,
            } by {
                assert(s[i].parent == None::<usize> && s[i].depth == 0 || (s[i].parent matches Some(q)
                    && 0 <= q < i && s[i].depth == s[q as int].depth + 1));
            }
        }
        let by_name = index_names(&bones);
        Skeleton { bones, by_name }
    }
}

/// `k` is the first entry of `names` spelling `name`.
pub open spec fn first_named(names: Seq<String>, name: Seq<char>, k: int) -> bool {
    &&& 0 <= k < names.len()
    &&& names[k]@ == name
    &&& forall|j: int| 0 <= j < k ==> names[j]@ != name
}

/// The track a bone called `name` binds to: the first track of that name,
/// or none when the clip has no track for it.
pub open spec fn binding_ok(names: Seq<String>, name: Seq<char>, b: Option<usize>) -> bool {
    match b {
        Some(k) => first_named(names, name, k as int),
        None => forall|j: int| 0 <= j < names.len() ==> names[j]@ != name,
    }
}

/// The value a bone called `name` takes: the one sampled from the first
/// clip track of that name, else `rest`.
pub open spec fn driven<T>(names: Seq<String>, sampled: Seq<T>, name: Seq<char>, rest: T) -> T {
    if exists|k: int| first_named(names, name, k) {
        sampled[choose|k: int| first_named(names, name, k)]
    } else {
        rest
    }
}

/// `texts` spells `s` somewhere.
pub open spec fn has_text(texts: Seq<String>, s: Seq<char>) -> bool {
    exists|i: int| 0 <= i < texts.len() && texts[i]@ == s
}

/// The names among the first `n` that have no bone, each counted as often
/// as it occurs.
pub open spec fn unknown_names(names: Seq<String>, by_name: Map<Seq<char>, Vec<usize>>, n: int) -> Multiset<Seq<char>>
    decreases n,
{
    if n <= 0 {
        Multiset::empty()
    } else if by_name.contains_key(names[n - 1]@) {
        unknown_names(names, by_name, n - 1)
    } else {
        unknown_names(names, by_name, n - 1).insert(names[n - 1]@)
    }
}

/// The characters of each text.
pub open spec fn text_views(texts: Seq<String>) -> Seq<Seq<char>> {
    texts.map_values(|s: String| s@)
}

/// Finds the first entry of `names` spelling `name`.
fn find_name(names: &Vec<String>, name: &str) -> (r: Option<usize>)
    ensures
        binding_ok(names@, name@, r),
{
    let mut i: usize = 0;
    while i < names.len()
        invariant
            0 <= i <= names@.len(),
            forall|j: int| 0 <= j < i ==> names@[j]@ != name@,
        decreases names@.len() - i,
    {
        if text_eq(names[i].as_str(), name) {
            return Some(i);
        }
        i = i + 1;
    }
    None
}

impl<P> Skeleton<P> {
    /// Every face in the model, in bone order, with the bone that drives it.
    pub fn face_picks(&self) -> (r: Vec<BoneFace>)
        ensures
            r@ == bone_faces(self.bones@, self.bones@.len() as int),
    {
        let mut out: Vec<BoneFace> = Vec::new();
        let mut i: usize = 0;
        while i < self.bones.len()
            invariant
                0 <= i <= self.bones@.len(),
                out@ == bone_faces(self.bones@, i as int),
            decreases self.bones@.len() - i,
        {
            let bone = &self.bones[i];
            match bone.geometry() {
                Some(shape) => {
                    let picks = shape_face_picks(shape);
                    let ghost before = out@;
                    let mut k: usize = 0;
                    while k < picks.len()
                        invariant
                            0 <= k <= picks@.len(),
                            out@ == before + picks@.take(k as int).map_values(
                                |p: FacePick| BoneFace { bone: i, pick: p },
                            ),
                        decreases picks@.len() - k,
                    {
                        out.push(BoneFace { bone: i, pick: picks[k] });
                        proof {
                            assert(picks@.take(k + 1).map_values(|p: FacePick| BoneFace { bone: i, pick: p })
                                =~= picks@.take(k as int).map_values(|p: FacePick| BoneFace { bone: i, pick: p }).push(
                                BoneFace { bone: i, pick: picks@[k as int] },
                            ));
                        }
                        k = k + 1;
                    }
                    proof {
                        assert(picks@.take(picks@.len() as int) =~= picks@);
                        assert(self.bones@[i as int] == *bone);
                    }
                },
                None => {},
            }
            i = i + 1;
        }
        out
    }

    /// Binds each bone to the clip track of the same name.
    ///
    /// `names` are the bone names a clip drives. Entry `i` of the result is
    /// the track for bone `i`: every bone of a shared name is driven by that
    /// name's track, and names with no bone are ignored.
    pub fn bind_tracks(&self, names: &Vec<String>) -> (r: Vec<Option<usize>>)
        ensures
            r@.len() == self.bones@.len(),
            forall|i: int| 0 <= i < r@.len() ==> binding_ok(names@, self.bones@[i].name@, #[trigger] r@[i]),
    {
        let mut out: Vec<Option<usize>> = Vec::new();
        let mut i: usize = 0;
        while i < self.bones.len()
            invariant
                0 <= i <= self.bones@.len(),
                out@.len() == i,
                forall|k: int| 0 <= k < i ==> binding_ok(names@, self.bones@[k].name@, #[trigger] out@[k]),
            decreases self.bones@.len() - i,
        {
            out.push(find_name(names, self.bones[i].name.as_str()));
            i = i + 1;
        }
        out
    }

    /// Poses every bone from a clip: `sampled[k]` is what track `names[k]`
    /// gives at the current moment. Every bone takes the value of the track
    /// of its name (all bones of a shared name alike), and a bone with no
    /// track keeps `rest`; tracks with no bone are ignored.
    pub fn drive<T: Copy>(&self, names: &Vec<String>, sampled: &Vec<T>, rest: T) -> (r: Vec<T>)
        requires
            sampled@.len() == names@.len(),
        ensures
            r@.len() == self.bones@.len(),
            forall|i: int| 0 <= i < r@.len() ==> #[trigger] r@[i] == driven(names@, sampled@, self.bones@[i].name@, rest),
    {
        let mut out: Vec<T> = Vec::new();
        let mut i: usize = 0;
        while i < self.bones.len()
            invariant
                0 <= i <= self.bones@.len(),
                sampled@.len() == names@.len(),
                out@.len() == i,
                forall|k: int| 0 <= k < i ==> #[trigger] out@[k] == driven(names@, sampled@, self.bones@[k].name@, rest),
            decreases self.bones@.len() - i,
        {
            let ghost name = self.bones@[i as int].name@;
            let value = match find_name(names, self.bones[i].name.as_str()) {
                Some(k) => {
                    proof {
                        let c = choose|c: int| first_named(names@, name, c);
                        if c < k {
                            assert(names@[c]@ == name);
                        } else if k < c {
                            assert(names@[k as int]@ == name);
                        }
                    }
                    sampled[k]
                },
                None => {
                    proof {
                        if exists|c: int| first_named(names@, name, c) {
                            let c = choose|c: int| first_named(names@, name, c);
                            assert(names@[c]@ == name);
                        }
                    }
                    rest
                },
            };
            out.push(value);
            i = i + 1;
        }
        out
    }

    /// Lists the names an animation drives that this skeleton does not have,
    /// in sorted order.
    ///
    /// Real assets reference bones from other variants (the Dog's animations
    /// mention `Collar` and `TailDog`, which the Dog model lacks), so this is
    /// informational only: binding always ignores unknown names.
    pub fn unknown_animated_bones(&self, names: &Vec<String>) -> (r: Vec<String>)
        ensures
            text_views(r@).to_multiset() == unknown_names(names@, self.by_name@, names@.len() as int),
            forall|i: int, j: int| 0 <= i < j < r@.len() ==> !text_lt(r@[j]@, r@[i]@),
            forall|s: Seq<char>| #[trigger] has_text(r@, s) <==> (has_text(names@, s) && !self.by_name@.contains_key(s)),
    {
        let mut out: Vec<String> = Vec::new();
        proof {
            vstd::seq_lib::to_multiset_len(text_views(out@));
            vstd::multiset::lemma_multiset_empty_len(text_views(out@).to_multiset());
        }
        let mut i: usize = 0;
        while i < names.len()
            invariant
                0 <= i <= names@.len(),
                text_views(out@).to_multiset() == unknown_names(names@, self.by_name@, i as int),
                forall|p: int, q: int| 0 <= p < q < out@.len() ==> !text_lt(out@[q]@, out@[p]@),
                forall|s: Seq<char>| #[trigger] has_text(out@, s) <==> (has_text(names@.take(i as int), s) && !self.by_name@.contains_key(s)),
            decreases names@.len() - i,
        {
            let name = &names[i];
            let ghost x = name@;
            proof {
                let t1 = names@.take(i + 1);
                let t0 = names@.take(i as int);
                assert forall|s: Seq<char>| has_text(t1, s) <==> (has_text(t0, s) || s == x) by {
                    if has_text(t1, s) {
                        let k = choose|k: int| 0 <= k < t1.len() && #[trigger] t1[k]@ == s;
                        if k < i {
                            assert(t0[k] == names@[k]);
                        }
                    }
                    if has_text(t0, s) {
                        let k = choose|k: int| 0 <= k < t0.len() && #[trigger] t0[k]@ == s;
                        assert(t1[k] == names@[k]);
                    }
                    if s == x {
                        assert(t1[i as int] == names@[i as int]);
                    }
                }
            }
            if !self.by_name.contains_key(name.as_str()) {
                let mut j: usize = 0;
                while j < out.len() && !text_less(name.as_str(), out[j].as_str())
                    invariant
                        0 <= j <= out@.len(),
                        x == name@,
                        forall|p: int| 0 <= p < j ==> !text_lt(x, #[trigger] out@[p]@),
                    decreases out@.len() - j,
                {
                    j = j + 1;
                }
                let ghost old_out = out@;
                let item = name.clone();
                out.insert(j, item);
                proof {
                    assert(out@ == old_out.insert(j as int, item));
                    assert(text_views(out@) =~= text_views(old_out).insert(j as int, x));
                    vstd::seq_lib::to_multiset_insert(text_views(old_out), j as int, x);
                    assert forall|p: int, q: int| 0 <= p < q < out@.len() implies !text_lt(out@[q]@, out@[p]@) by {
                        if q < j {
                            assert(out@[p] == old_out[p] && out@[q] == old_out[q]);
                        } else if q == j {
                            assert(out@[p] == old_out[p]);
                            assert(out@[q]@ == x);
                            assert(!text_lt(x, old_out[p]@));
                        } else if p < j {
                            assert(out@[p] == old_out[p] && out@[q] == old_out[q - 1]);
                            assert(!text_lt(old_out[q - 1]@, old_out[p]@));
                        } else if p == j {
                            assert(out@[q] == old_out[q - 1]);
                            assert(out@[p]@ == x);
                            assert(text_lt(x, old_out[j as int]@));
                            if q - 1 > j {
                                assert(!text_lt(old_out[q - 1]@, old_out[j as int]@));
                            }
                            if text_lt(old_out[q - 1]@, x) {
                                lemma_bytes_lt_transitive(
                                    vstd::utf8::encode_utf8(old_out[q - 1]@),
                                    vstd::utf8::encode_utf8(x),
                                    vstd::utf8::encode_utf8(old_out[j as int]@),
                                );
                                if q - 1 == j {
                                    lemma_bytes_lt_irreflexive(vstd::utf8::encode_utf8(old_out[j as int]@));
                                }
                            }
                        } else {
                            assert(out@[p] == old_out[p - 1] && out@[q] == old_out[q - 1]);
                            assert(!text_lt(old_out[q - 1]@, old_out[p - 1]@));
                        }
                    }
                    assert forall|s: Seq<char>| #[trigger] has_text(out@, s) <==> (has_text(old_out, s) || s == x) by {
                        if has_text(out@, s) {
                            let k = choose|k: int| 0 <= k < out@.len() && #[trigger] out@[k]@ == s;
                            if k < j {
                                assert(old_out[k] == out@[k]);
                            } else if k > j {
                                assert(old_out[k - 1] == out@[k]);
                            }
                        }
                        if has_text(old_out, s) {
                            let k = choose|k: int| 0 <= k < old_out.len() && #[trigger] old_out[k]@ == s;
                            if k < j {
                                assert(old_out[k] == out@[k]);
                            } else {
                                assert(old_out[k] == out@[k + 1]);
                            }
                        }
                        if s == x {
                            assert(out@[j as int]@ == x);
                        }
                    }
                }
            }
            i = i + 1;
        }
        proof {
            assert(names@.take(names@.len() as int) =~= names@);
        }
        out
    }

    /// Number of bones.
    pub fn len(&self) -> (r: usize)
        ensures
            r == self.bones@.len(),
    {
        self.bones.len()
    }

    pub fn is_empty(&self) -> (r: bool)
        ensures
            r == (self.bones@.len() == 0),
    {
        self.bones.len() == 0
    }
}

/// The track binding of a bone name is determined by the clip's names.
pub proof fn lemma_binding_is_determined(names: Seq<String>, name: Seq<char>, b1: Option<usize>, b2: Option<usize>)
    requires
        binding_ok(names, name, b1),
        binding_ok(names, name, b2),
    ensures
        b1 == b2,
{
    match (b1, b2) {
        (Some(k1), Some(k2)) => {
            if k1 < k2 {
                assert(names[k1 as int]@ == name);
            } else if k2 < k1 {
                assert(names[k2 as int]@ == name);
            }
        },
        (Some(k1), None) => {
            assert(names[k1 as int]@ == name);
        },
        (None, Some(k2)) => {
            assert(names[k2 as int]@ == name);
        },
        (None, None) => {},
    }
}

/// Bones that share a name are driven by the same track.
pub proof fn lemma_same_name_same_track<P>(bones: Seq<Bone<P>>, names: Seq<String>, binding: Seq<Option<usize>>, i: int, j: int)
    requires
        binding.len() == bones.len(),
        forall|k: int| 0 <= k < binding.len() ==> binding_ok(names, bones[k].name@, #[trigger] binding[k]),
        0 <= i < bones.len(),
        0 <= j < bones.len(),
        bones[i].name@ == bones[j].name@,
    ensures
        binding[i] == binding[j],
{
    assert(binding_ok(names, bones[i].name@, binding[i]));
    assert(binding_ok(names, bones[j].name@, binding[j]));
    lemma_binding_is_determined(names, bones[i].name@, binding[i], binding[j]);
}

} // verus!
