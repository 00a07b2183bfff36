//! File system paths as the editor's modes present them.

use vstd::prelude::*;

verus! {

#[verifier::external_type_specification]
#[verifier::external_body]
pub struct ExPathBuf(std::path::PathBuf);

/// A path made presentable in a search/select list.
#[derive(Debug, Default, Eq, Hash, PartialEq)]
pub struct DisplayablePath(pub std::path::PathBuf);

/// Finds the syntax definitions to load: those bundled with the editor and those
/// in a user directory.
pub struct SyntaxLoader {
    path: std::path::PathBuf,
}

impl SyntaxLoader {
    /// A loader for the user syntax definitions under `path`.
    pub fn new(path: std::path::PathBuf) -> (l: SyntaxLoader)
        ensures
            l.path() == path,
    {
        SyntaxLoader { path }
    }

    /// The directory of user syntax definitions.
    pub closed spec fn path(&self) -> std::path::PathBuf {
        self.path
    }

    /// The directory of user syntax definitions.
    pub fn user_path(&self) -> (p: &std::path::PathBuf)
        ensures
            *p == self.path(),
    {
        &self.path
    }
}

/// A component of a path, as `std::path::Path::components` yields them (paths
/// without a Windows prefix).
#[derive(Clone, Debug, PartialEq, Eq)]
pub enum PathComponent {
    RootDir,
    CurDir,
    ParentDir,
    Normal(String),
}

/// The value of a path component.
pub enum ComponentView {
    RootDir,
    CurDir,
    ParentDir,
    Normal(Seq<char>),
}

impl View for PathComponent {
    type V = ComponentView;

    open spec fn view(&self) -> ComponentView {
        match self {
            PathComponent::RootDir => ComponentView::RootDir,
            PathComponent::CurDir => ComponentView::CurDir,
            PathComponent::ParentDir => ComponentView::ParentDir,
            PathComponent::Normal(s) => ComponentView::Normal(s@),
        }
    }
}

/// A path, by its components.
pub type PathView = Seq<ComponentView>;

/// The value of a path.
pub open spec fn path_view(p: Seq<PathComponent>) -> PathView {
    p.map_values(|c: PathComponent| c@)
}

/// The values of a sequence of paths.
pub open spec fn path_views(ps: Seq<Vec<PathComponent>>) -> Seq<PathView> {
    ps.map_values(|p: Vec<PathComponent>| path_view(p@))
}

/// The parent of a path, as `Path::parent` gives it: the path without its last
/// component; none for the root and for the empty path.
pub open spec fn parent(p: PathView) -> Option<PathView> {
    if p.len() == 0 || p.last() is RootDir {
        None
    } else {
        Some(p.drop_last())
    }
}

/// Whether `p` starts with `base`, component by component (`Path::starts_with`).
pub open spec fn starts_with(p: PathView, base: PathView) -> bool {
    base.len() <= p.len() && p.subrange(0, base.len() as int) == base
}

/// The nearest ancestor of `common` (itself included) that `v` starts with; none
/// when the ancestors run out first.
pub open spec fn narrowed(common: PathView, v: PathView) -> Option<PathView>
    decreases common.len(),
{
    if starts_with(v, common) {
        Some(common)
    } else {
        match parent(common) {
            None => None,
            Some(p) => narrowed(p, v),
        }
    }
}

/// The ancestor of `v` (itself included) whose parent is `common`; none when the
/// ancestors run out first.
pub open spec fn child_toward(v: PathView, common: PathView) -> Option<PathView>
    decreases v.len(),
{
    match parent(v) {
        None => None,
        Some(p) => if p == common {
            Some(v)
        } else {
            child_toward(p, common)
        },
    }
}

/// The state of a scan of paths: the common ancestor so far, and the paths just
/// below it that the scanned paths lie in (or the first path itself).
pub struct FolderScan {
    pub common: PathView,
    pub deeper: Set<PathView>,
}

/// The scan after one more path: the common ancestor narrows to an ancestor of
/// that path, and the path's folder just below it is recorded. None when no
/// ancestor is shared or no such folder exists.
pub open spec fn folder_step(st: FolderScan, v: PathView) -> Option<FolderScan> {
    match narrowed(st.common, v) {
        None => None,
        Some(c) => if v == c {
            Some(FolderScan { common: c, deeper: st.deeper })
        } else {
            match child_toward(v, c) {
                None => None,
                Some(t) => Some(FolderScan { common: c, deeper: st.deeper.insert(t) }),
            }
        },
    }
}

/// The scan of `paths` in order; none for no paths.
pub open spec fn folder_scan(paths: Seq<PathView>) -> Option<FolderScan>
    decreases paths.len(),
{
    if paths.len() == 0 {
        None
    } else if paths.len() == 1 {
        Some(FolderScan { common: paths[0], deeper: set![paths[0]] })
    } else {
        match folder_scan(paths.drop_last()) {
            None => None,
            Some(st) => folder_step(st, paths.last()),
        }
    }
}

/// The folders just below the common ancestor of `paths` that hold them: the
/// recorded paths, each taken up to the child of the final common ancestor.
/// None when any of them has no such ancestor.
pub open spec fn folders(paths: Seq<PathView>) -> Option<Set<PathView>> {
    match folder_scan(paths) {
        None => None,
        Some(st) => if forall|d: PathView| #[trigger] st.deeper.contains(d) ==> child_toward(d, st.common) is Some {
            Some(st.deeper.map(|d: PathView| child_toward(d, st.common)->0))
        } else {
            None
        },
    }
}

/// The order of components: the root, then `.`, then `..`, then names, which are
/// ordered by their text.
pub open spec fn component_rank(c: ComponentView) -> int {
    match c {
        ComponentView::RootDir => 0,
        ComponentView::CurDir => 1,
        ComponentView::ParentDir => 2,
        ComponentView::Normal(_) => 3,
    }
}

/// Whether text `a` comes before `b` (by code points, which orders UTF-8 bytes alike).
pub open spec fn text_lt(a: Seq<char>, b: Seq<char>) -> bool
    decreases a.len(),
{
    if a.len() == 0 {
        b.len() > 0
    } else if b.len() == 0 {
        false
    } else if a[0] != b[0] {
        (a[0] as int) < (b[0] as int)
    } else {
        text_lt(a.drop_first(), b.drop_first())
    }
}

pub open spec fn component_lt(a: ComponentView, b: ComponentView) -> bool {
    if component_rank(a) != component_rank(b) {
        component_rank(a) < component_rank(b)
    } else {
        match (a, b) {
            (ComponentView::Normal(x), ComponentView::Normal(y)) => text_lt(x, y),
            _ => false,
        }
    }
}

/// Whether path `a` comes before `b`: component by component, a prefix first.
pub open spec fn path_lt(a: PathView, b: PathView) -> bool
    decreases a.len(),
{
    if a.len() == 0 {
        b.len() > 0
    } else if b.len() == 0 {
        false
    } else if a[0] != b[0] {
        component_lt(a[0], b[0])
    } else {
        path_lt(a.drop_first(), b.drop_first())
    }
}

pub proof fn lemma_text_lt_order(a: Seq<char>, b: Seq<char>, c: Seq<char>)
    ensures
        !text_lt(a, a),
        a != b ==> (text_lt(a, b) || text_lt(b, a)),
        text_lt(a, b) ==> !text_lt(b, a),
        text_lt(a, b) && text_lt(b, c) ==> text_lt(a, c),
    decreases a.len(),
{
    if a.len() > 0 && b.len() > 0 {
        if a[0] == b[0] && b.len() > 0 {
            if c.len() > 0 {
                lemma_text_lt_order(a.drop_first(), b.drop_first(), c.drop_first());
            } else {
                lemma_text_lt_order(a.drop_first(), b.drop_first(), c);
            }
            if a != b {
                assert(a.drop_first() != b.drop_first()) by {
                    if a.drop_first() == b.drop_first() {
                        assert(a =~= seq![a[0]] + a.drop_first());
                        assert(b =~= seq![b[0]] + b.drop_first());
                    }
                }
            }
        } else if c.len() > 0 && b[0] == c[0] {
            lemma_text_lt_order(a.drop_first(), b.drop_first(), c.drop_first());
        }
    }
    if a.len() > 0 {
        lemma_text_lt_order(a.drop_first(), a.drop_first(), a.drop_first());
    }
    if a.len() == 0 && b.len() == 0 {
        assert(a =~= b);
    }
}

pub proof fn lemma_component_lt_order(a: ComponentView, b: ComponentView, c: ComponentView)
    ensures
        !component_lt(a, a),
        a != b ==> (component_lt(a, b) || component_lt(b, a)),
        component_lt(a, b) ==> !component_lt(b, a),
        component_lt(a, b) && component_lt(b, c) ==> component_lt(a, c),
{
    match (a, b, c) {
        (ComponentView::Normal(x), ComponentView::Normal(y), ComponentView::Normal(z)) => {
            lemma_text_lt_order(x, y, z);
        },
        (ComponentView::Normal(x), ComponentView::Normal(y), _) => {
            lemma_text_lt_order(x, y, y);
        },
        (ComponentView::Normal(x), _, _) => {
            lemma_text_lt_order(x, x, x);
        },
        _ => {},
    }
}

/// `path_lt` is a strict total order.
pub proof fn lemma_path_lt_order(a: PathView, b: PathView, c: PathView)
    ensures
        !path_lt(a, a),
        a != b ==> (path_lt(a, b) || path_lt(b, a)),
        path_lt(a, b) ==> !path_lt(b, a),
        path_lt(a, b) && path_lt(b, c) ==> path_lt(a, c),
    decreases a.len(),
{
    if a.len() > 0 {
        lemma_path_lt_order(a.drop_first(), a.drop_first(), a.drop_first());
        lemma_component_lt_order(a[0], a[0], a[0]);
    }
    if a.len() > 0 && b.len() > 0 {
        lemma_component_lt_order(a[0], b[0], if c.len() > 0 { c[0] } else { b[0] });
        if a[0] == b[0] {
            if c.len() > 0 {
                lemma_path_lt_order(a.drop_first(), b.drop_first(), c.drop_first());
            } else {
                lemma_path_lt_order(a.drop_first(), b.drop_first(), b.drop_first());
            }
            if a != b {
                assert(a.drop_first() != b.drop_first()) by {
                    if a.drop_first() == b.drop_first() {
                        assert(a =~= seq![a[0]] + a.drop_first());
                        assert(b =~= seq![b[0]] + b.drop_first());
                    }
                }
            }
        } else if c.len() > 0 && b[0] == c[0] {
            lemma_path_lt_order(a.drop_first(), b.drop_first(), c.drop_first());
        } else if c.len() > 0 {
            lemma_component_lt_order(a[0], b[0], c[0]);
        }
    }
    if a.len() == 0 && b.len() == 0 {
        assert(a =~= b);
    }
}

fn text_less(a: &Vec<char>, b: &Vec<char>) -> (r: bool)
    ensures
        r == text_lt(a@, b@),
{
    let mut i: usize = 0;
    assert(a@.subrange(0, a@.len() as int) =~= a@);
    assert(b@.subrange(0, b@.len() as int) =~= b@);
    while i < a.len() && i < b.len()
        invariant
            0 <= i <= a@.len(),
            i <= b@.len(),
            text_lt(a@, b@) == text_lt(a@.subrange(i as int, a@.len() as int), b@.subrange(i as int, b@.len() as int)),
        decreases a@.len() - i,
    {
        let ghost x = a@.subrange(i as int, a@.len() as int);
        let ghost y = b@.subrange(i as int, b@.len() as int);
        assert(x[0] == a@[i as int] && y[0] == b@[i as int]);
        if a[i] != b[i] {
            return a[i] < b[i];
        }
        assert(x.drop_first() =~= a@.subrange(i + 1, a@.len() as int));
        assert(y.drop_first() =~= b@.subrange(i + 1, b@.len() as int));
        i = i + 1;
    }
    i < b.len() && i >= a.len()
}

fn text_equal(a: &Vec<char>, b: &Vec<char>) -> (r: bool)
    ensures
        r == (a@ == b@),
{
    if a.len() != b.len() {
        return false;
    }
    let mut i: usize = 0;
    while i < a.len()
        invariant
            0 <= i <= a@.len(),
            a@.len() == b@.len(),
            forall|k: int| 0 <= k < i ==> a@[k] == b@[k],
        decreases a@.len() - i,
    {
        if a[i] != b[i] {
            return false;
        }
        i = i + 1;
    }
    assert(a@ =~= b@);
    true
}

fn component_rank_of(c: &PathComponent) -> (r: u8)
    ensures
        r as int == component_rank(c@),
{
    match c {
        PathComponent::RootDir => 0,
        PathComponent::CurDir => 1,
        PathComponent::ParentDir => 2,
        PathComponent::Normal(_) => 3,
    }
}

fn component_equal(a: &PathComponent, b: &PathComponent) -> (r: bool)
    ensures
        r == (a@ == b@),
{
    match (a, b) {
        (PathComponent::Normal(x), PathComponent::Normal(y)) => text_equal(
            &crate::text::chars_of(x.as_str()),
            &crate::text::chars_of(y.as_str()),
        ),
        _ => component_rank_of(a) == component_rank_of(b),
    }
}

fn component_less(a: &PathComponent, b: &PathComponent) -> (r: bool)
    ensures
        r == component_lt(a@, b@),
{
    let ra = component_rank_of(a);
    let rb = component_rank_of(b);
    if ra != rb {
        return ra < rb;
    }
    match (a, b) {
        (PathComponent::Normal(x), PathComponent::Normal(y)) => text_less(
            &crate::text::chars_of(x.as_str()),
            &crate::text::chars_of(y.as_str()),
        ),
        _ => false,
    }
}

fn path_less(a: &Vec<PathComponent>, b: &Vec<PathComponent>) -> (r: bool)
    ensures
        r == path_lt(path_view(a@), path_view(b@)),
{
    let ghost av = path_view(a@);
    let ghost bv = path_view(b@);
    let mut i: usize = 0;
    assert(av.subrange(0, av.len() as int) =~= av);
    assert(bv.subrange(0, bv.len() as int) =~= bv);
    while i < a.len() && i < b.len()
        invariant
            0 <= i <= a@.len(),
            i <= b@.len(),
            av == path_view(a@),
            bv == path_view(b@),
            path_lt(av, bv) == path_lt(av.subrange(i as int, av.len() as int), bv.subrange(i as int, bv.len() as int)),
        decreases a@.len() - i,
    {
        let ghost x = av.subrange(i as int, av.len() as int);
        let ghost y = bv.subrange(i as int, bv.len() as int);
        assert(x[0] == a@[i as int]@ && y[0] == b@[i as int]@);
        if !component_equal(&a[i], &b[i]) {
            return component_less(&a[i], &b[i]);
        }
        assert(x.drop_first() =~= av.subrange(i + 1, av.len() as int));
        assert(y.drop_first() =~= bv.subrange(i + 1, bv.len() as int));
        i = i + 1;
    }
    i < b.len() && i >= a.len()
}

fn path_equal(a: &Vec<PathComponent>, b: &Vec<PathComponent>) -> (r: bool)
    ensures
        r == (path_view(a@) == path_view(b@)),
{
    if a.len() != b.len() {
        assert(path_view(a@).len() != path_view(b@).len());
        return false;
    }
    let mut i: usize = 0;
    while i < a.len()
        invariant
            0 <= i <= a@.len(),
            a@.len() == b@.len(),
            forall|k: int| 0 <= k < i ==> a@[k]@ == b@[k]@,
        decreases a@.len() - i,
    {
        if !component_equal(&a[i], &b[i]) {
            assert(path_view(a@)[i as int] != path_view(b@)[i as int]);
            return false;
        }
        i = i + 1;
    }
    assert(path_view(a@) =~= path_view(b@));
    true
}

fn copy_component(c: &PathComponent) -> (r: PathComponent)
    ensures
        r@ == c@,
{
    match c {
        PathComponent::RootDir => PathComponent::RootDir,
        PathComponent::CurDir => PathComponent::CurDir,
        PathComponent::ParentDir => PathComponent::ParentDir,
        PathComponent::Normal(s) => PathComponent::Normal(s.clone()),
    }
}

/// The first `n` components of `p`.
fn prefix_of(p: &Vec<PathComponent>, n: usize) -> (r: Vec<PathComponent>)
    requires
        n <= p@.len(),
    ensures
        path_view(r@) == path_view(p@).subrange(0, n as int),
{
    let mut r: Vec<PathComponent> = Vec::new();
    let mut i: usize = 0;
    while i < n
        invariant
            0 <= i <= n <= p@.len(),
            r@.len() == i,
            forall|k: int| 0 <= k < i ==> (#[trigger] r@[k])@ == p@[k]@,
        decreases n - i,
    {
        r.push(copy_component(&p[i]));
        i = i + 1;
    }
    assert(path_view(r@) =~= path_view(p@).subrange(0, n as int));
    r
}

fn parent_of(p: &Vec<PathComponent>) -> (r: Option<Vec<PathComponent>>)
    ensures
        r matches Some(q) ==> parent(path_view(p@)) == Some(path_view(q@)),
        r is None ==> parent(path_view(p@)) is None,
{
    if p.len() == 0 {
        return None;
    }
    match &p[p.len() - 1] {
        PathComponent::RootDir => None,
        _ => {
            let q = prefix_of(p, p.len() - 1);
            assert(path_view(p@).drop_last() =~= path_view(p@).subrange(0, p@.len() - 1));
            Some(q)
        },
    }
}

fn starts_with_path(p: &Vec<PathComponent>, base: &Vec<PathComponent>) -> (r: bool)
    ensures
        r == starts_with(path_view(p@), path_view(base@)),
{
    if base.len() > p.len() {
        return false;
    }
    let mut i: usize = 0;
    while i < base.len()
        invariant
            0 <= i <= base@.len() <= p@.len(),
            forall|k: int| 0 <= k < i ==> p@[k]@ == base@[k]@,
        decreases base@.len() - i,
    {
        if !component_equal(&p[i], &base[i]) {
            assert(path_view(p@).subrange(0, base@.len() as int)[i as int] != path_view(base@)[i as int]);
            return false;
        }
        i = i + 1;
    }
    assert(path_view(p@).subrange(0, base@.len() as int) =~= path_view(base@));
    true
}

fn copy_path(p: &Vec<PathComponent>) -> (r: Vec<PathComponent>)
    ensures
        path_view(r@) == path_view(p@),
{
    let r = prefix_of(p, p.len());
    assert(path_view(p@).subrange(0, p@.len() as int) =~= path_view(p@));
    r
}

/// Walks up from `common` to the nearest ancestor that `v` starts with.
fn narrow(common: Vec<PathComponent>, v: &Vec<PathComponent>) -> (r: Option<Vec<PathComponent>>)
    ensures
        r matches Some(c) ==> narrowed(path_view(common@), path_view(v@)) == Some(path_view(c@)),
        r is None ==> narrowed(path_view(common@), path_view(v@)) is None,
{
    let ghost start = path_view(common@);
    let mut c = common;
    while !starts_with_path(v, &c)
        invariant
            start == path_view(common@),
            narrowed(start, path_view(v@)) == narrowed(path_view(c@), path_view(v@)),
        decreases c@.len(),
    {
        match parent_of(&c) {
            Some(q) => {
                c = q;
            },
            None => {
                assert(!starts_with(path_view(v@), path_view(c@)));
                assert(parent(path_view(c@)) is None);
                assert(narrowed(path_view(c@), path_view(v@)) is None);
                return None;
            },
        }
    }
    Some(c)
}

/// Walks up from `v` to the ancestor whose parent is `common`.
fn child_of(v: Vec<PathComponent>, common: &Vec<PathComponent>) -> (r: Option<Vec<PathComponent>>)
    ensures
        r matches Some(t) ==> child_toward(path_view(v@), path_view(common@)) == Some(path_view(t@)),
        r is None ==> child_toward(path_view(v@), path_view(common@)) is None,
{
    let ghost start = path_view(v@);
    let mut t = v;
    loop
        invariant
            start == path_view(v@),
            child_toward(start, path_view(common@)) == child_toward(path_view(t@), path_view(common@)),
        decreases t@.len(),
    {
        match parent_of(&t) {
            Some(q) => {
                if path_equal(&q, common) {
                    assert(child_toward(path_view(t@), path_view(common@)) == Some(path_view(t@)));
                    return Some(t);
                }
                t = q;
            },
            None => {
                assert(child_toward(path_view(t@), path_view(common@)) is None);
                return None;
            },
        }
    }
}

/// Whether paths are in strictly increasing order.
pub open spec fn sorted_paths(ps: Seq<PathView>) -> bool {
    forall|i: int, j: int| 0 <= i < j < ps.len() ==> path_lt(#[trigger] ps[i], #[trigger] ps[j])
}

/// Adds `x` to a strictly increasing list of paths, unless it is there.
fn insert_sorted(list: &mut Vec<Vec<PathComponent>>, x: Vec<PathComponent>)
    requires
        sorted_paths(path_views(old(list)@)),
    ensures
        sorted_paths(path_views(final(list)@)),
        path_views(final(list)@).to_set() == path_views(old(list)@).to_set().insert(path_view(x@)),
{
    let ghost before = path_views(list@);
    let mut k: usize = 0;
    while k < list.len() && path_less(&list[k], &x)
        invariant
            0 <= k <= list@.len(),
            before == path_views(list@),
            forall|m: int| 0 <= m < k ==> path_lt(#[trigger] before[m], path_view(x@)),
        decreases list@.len() - k,
    {
        k = k + 1;
    }
    if k < list.len() && path_equal(&list[k], &x) {
        assert(before.to_set() =~= before.to_set().insert(path_view(x@))) by {
            assert(before[k as int] == path_view(x@));
        }
        return;
    }
    let ghost xv = path_view(x@);
    proof {
        if k < list@.len() {
            lemma_path_lt_order(xv, before[k as int], before[k as int]);
            assert(path_lt(xv, before[k as int]));
        }
    }
    list.insert(k, x);
    let ghost after = path_views(list@);
    assert(after =~= before.insert(k as int, xv));
    proof {
        assert forall|i: int, j: int| 0 <= i < j < after.len() implies path_lt(#[trigger] after[i], #[trigger] after[j]) by {
            if j < k {
                assert(after[i] == before[i] && after[j] == before[j]);
            } else if j == k {
                assert(after[j] == xv);
                assert(after[i] == before[i]);
            } else if i == k {
                assert(after[i] == xv);
                assert(after[j] == before[j - 1]);
                if j - 1 > k {
                    assert(path_lt(before[k as int], before[j - 1]));
                    lemma_path_lt_order(xv, before[k as int], before[j - 1]);
                }
            } else if i < k {
                assert(after[i] == before[i] && after[j] == before[j - 1]);
                if j - 1 > i {
                } else {
                }
                lemma_path_lt_order(before[i], xv, before[j - 1]);
                if j - 1 > k {
                    lemma_path_lt_order(xv, before[k as int], before[j - 1]);
                }
            } else {
                assert(after[i] == before[i - 1] && after[j] == before[j - 1]);
            }
        }
        assert(after.to_set() =~= before.to_set().insert(xv)) by {
            assert forall|y: PathView| after.to_set().contains(y) <==> before.to_set().insert(xv).contains(y) by {
                if after.contains(y) {
                    let i = choose|i: int| 0 <= i < after.len() && after[i] == y;
                    if i < k {
                        assert(before[i] == y);
                    } else if i > k {
                        assert(before[i - 1] == y);
                    }
                }
                if before.contains(y) {
                    let i = choose|i: int| 0 <= i < before.len() && before[i] == y;
                    if i < k {
                        assert(after[i] == y);
                    } else {
                        assert(after[i + 1] == y);
                    }
                }
                if y == xv {
                    assert(after[k as int] == y);
                }
            }
        }
    }
}

/// The folders just below the longest common ancestor of `paths` that hold them,
/// in order and without repeats (see `folders`); `None` when there are no paths,
/// when they share no ancestor, or when one of them has no folder below the
/// common one (all paths equal, or the common ancestor is not reachable by
/// parents).
pub fn search_as_folders(paths: &Vec<Vec<PathComponent>>) -> (r: Option<Vec<Vec<PathComponent>>>)
    ensures
        match folders(path_views(paths@)) {
            None => r is None,
            Some(set) => r matches Some(v) && sorted_paths(path_views(v@)) && path_views(v@).to_set() == set,
        },
{
    let ghost views = path_views(paths@);
    if paths.len() == 0 {
        return None;
    }
    let mut common = copy_path(&paths[0]);
    let mut deeper: Vec<Vec<PathComponent>> = Vec::new();
    deeper.push(copy_path(&paths[0]));
    proof {
        assert(views.subrange(0, 1) =~= seq![views[0]]);
        assert(path_views(deeper@) =~= seq![views[0]]);
        assert(path_views(deeper@)[0] == views[0]);
        assert(path_views(deeper@).to_set() =~= set![views[0]]);
    }
    let mut i: usize = 1;
    while i < paths.len()
        invariant
            1 <= i <= paths@.len(),
            views == path_views(paths@),
            folder_scan(views.subrange(0, i as int)) == Some(
                FolderScan { common: path_view(common@), deeper: path_views(deeper@).to_set() },
            ),
            sorted_paths(path_views(deeper@)),
        decreases paths@.len() - i,
    {
        let ghost pre = views.subrange(0, i as int);
        let ghost next = views.subrange(0, i as int + 1);
        assert(next.drop_last() =~= pre);
        assert(next.last() == views[i as int]);
        assert(next.len() > 1);
        let v = &paths[i];
        common = match narrow(common, v) {
            Some(c) => c,
            None => {
                proof {
                    lemma_folder_scan_stops(views, i as int + 1);
                }
                return None;
            },
        };
        if !path_equal(v, &common) {
            let t = match child_of(copy_path(v), &common) {
                Some(t) => t,
                None => {
                    proof {
                        lemma_folder_scan_stops(views, i as int + 1);
                    }
                    return None;
                },
            };
            insert_sorted(&mut deeper, t);
        }
        i = i + 1;
    }
    assert(views.subrange(0, i as int) =~= views);
    let ghost st = folder_scan(views)->0;
    let ghost dv = path_views(deeper@);
    let mut d2: Vec<Vec<PathComponent>> = Vec::new();
    let mut k: usize = 0;
    assert(path_views(d2@).to_set() =~= Set::<PathView>::empty());
    while k < deeper.len()
        invariant
            0 <= k <= deeper@.len(),
            dv == path_views(deeper@),
            folder_scan(path_views(paths@)) == Some(st),
            st.common == path_view(common@),
            st.deeper == dv.to_set(),
            sorted_paths(path_views(d2@)),
            forall|m: int| 0 <= m < k ==> child_toward(#[trigger] dv[m], st.common) is Some,
            forall|a: PathView| path_views(d2@).to_set().contains(a) <==> exists|m: int|
                0 <= m < k && a == child_toward(#[trigger] dv[m], st.common)->0,
        decreases deeper@.len() - k,
    {
        let ghost before = path_views(d2@).to_set();
        match child_of(copy_path(&deeper[k]), &common) {
            Some(t) => {
                assert(dv[k as int] == path_view(deeper@[k as int]@));
                let ghost tv = path_view(t@);
                insert_sorted(&mut d2, t);
                assert forall|a: PathView| path_views(d2@).to_set().contains(a) <==> exists|m: int|
                    0 <= m < k + 1 && a == child_toward(#[trigger] dv[m], st.common)->0 by {
                    if a == tv {
                        assert(0 <= k < k + 1 && a == child_toward(dv[k as int], st.common)->0);
                    }
                    if exists|m: int| 0 <= m < k + 1 && a == child_toward(#[trigger] dv[m], st.common)->0 {
                        let m = choose|m: int| 0 <= m < k + 1 && a == child_toward(#[trigger] dv[m], st.common)->0;
                        if m < k {
                            assert(before.contains(a));
                        }
                    }
                }
            },
            None => {
                proof {
                    assert(dv[k as int] == path_view(deeper@[k as int]@));
                    assert(st.deeper.contains(dv[k as int]));
                    assert(child_toward(dv[k as int], st.common) is None);
                }
                return None;
            },
        }
        k = k + 1;
    }
    proof {
        assert forall|d: PathView| #[trigger] st.deeper.contains(d) implies child_toward(d, st.common) is Some by {
            let m = choose|m: int| 0 <= m < dv.len() && dv[m] == d;
        }
        let f = |d: PathView| child_toward(d, st.common)->0;
        assert(path_views(d2@).to_set() =~= st.deeper.map(f)) by {
            assert forall|a: PathView| #[trigger] path_views(d2@).to_set().contains(a) <==> st.deeper.map(f).contains(a) by {
                if path_views(d2@).to_set().contains(a) {
                    let m = choose|m: int| 0 <= m < k && a == child_toward(#[trigger] dv[m], st.common)->0;
                    assert(st.deeper.contains(dv[m]));
                    assert(a == f(dv[m]));
                }
                if st.deeper.map(f).contains(a) {
                    let d = choose|d: PathView| st.deeper.contains(d) && a == f(d);
                    let m = choose|m: int| 0 <= m < dv.len() && dv[m] == d;
                    assert(0 <= m < k && a == child_toward(dv[m], st.common)->0);
                }
            }
        }
    }
    Some(d2)
}

proof fn lemma_folder_scan_stops(paths: Seq<PathView>, n: int)
    requires
        2 <= n <= paths.len(),
        folder_scan(paths.subrange(0, n)) is None,
    ensures
        folder_scan(paths) is None,
    decreases paths.len() - n,
{
    if n < paths.len() {
        assert(paths.subrange(0, n + 1).drop_last() =~= paths.subrange(0, n));
        lemma_folder_scan_stops(paths, n + 1);
    } else {
        assert(paths.subrange(0, n) =~= paths);
    }
}

proof fn lemma_starts_with_trans(a: PathView, b: PathView, c: PathView)
    requires
        starts_with(a, b),
        starts_with(b, c),
    ensures
        starts_with(a, c),
{
    assert(a.subrange(0, c.len() as int) =~= b.subrange(0, c.len() as int));
}

proof fn lemma_narrowed(c: PathView, v: PathView)
    ensures
        narrowed(c, v) matches Some(n) ==> starts_with(v, n) && starts_with(c, n),
    decreases c.len(),
{
    if !starts_with(v, c) {
        if let Some(p) = parent(c) {
            lemma_narrowed(p, v);
            assert(starts_with(c, p)) by {
                assert(c.subrange(0, p.len() as int) =~= p);
            }
            if let Some(n) = narrowed(p, v) {
                lemma_starts_with_trans(c, p, n);
            }
        }
    } else {
        assert(c.subrange(0, c.len() as int) =~= c);
    }
}

proof fn lemma_child_toward(v: PathView, c: PathView)
    ensures
        child_toward(v, c) matches Some(t) ==> parent(t) == Some(c) && starts_with(v, t),
    decreases v.len(),
{
    if let Some(p) = parent(v) {
        assert(v.subrange(0, v.len() as int) =~= v);
        if p != c {
            lemma_child_toward(p, c);
            assert(starts_with(v, p)) by {
                assert(v.subrange(0, p.len() as int) =~= p);
            }
            if let Some(t) = child_toward(p, c) {
                lemma_starts_with_trans(v, p, t);
            }
        }
    }
}

/// Whether `a` and `b` have the same first `n` components.
pub open spec fn agree(a: PathView, b: PathView, n: int) -> bool {
    n <= a.len() && n <= b.len() && a.subrange(0, n) == b.subrange(0, n)
}

/// How many leading components of `v` decide the folder below `c` it lies in:
/// one more than `c` has, or all of `v` when it is not longer than `c`.
pub open spec fn reach(v: PathView, c: PathView) -> int {
    if v.len() > c.len() {
        c.len() as int + 1
    } else {
        v.len() as int
    }
}

/// What a scan of `paths` keeps true: every path and every recorded path lies
/// under the common ancestor, and each path agrees with a recorded path up to
/// the folder below the common ancestor that it lies in.
pub open spec fn scan_holds(paths: Seq<PathView>, st: FolderScan) -> bool {
    &&& forall|d: PathView| #[trigger] st.deeper.contains(d) ==> starts_with(d, st.common)
    &&& forall|i: int| 0 <= i < paths.len() ==> starts_with(#[trigger] paths[i], st.common)
    &&& forall|i: int|
        #![trigger paths[i]]
        0 <= i < paths.len() ==> exists|d: PathView| #[trigger]
            st.deeper.contains(d) && agree(d, paths[i], reach(paths[i], st.common))
}

proof fn lemma_scan(paths: Seq<PathView>)
    requires
        folder_scan(paths) is Some,
    ensures
        scan_holds(paths, folder_scan(paths)->0),
    decreases paths.len(),
{
    let st = folder_scan(paths)->0;
    if paths.len() == 1 {
        let p0 = paths[0];
        assert(p0.subrange(0, p0.len() as int) =~= p0);
        assert(st.deeper.contains(p0));
        assert(agree(p0, paths[0], reach(paths[0], st.common)));
    } else {
        let pre = paths.drop_last();
        let v = paths.last();
        lemma_scan(pre);
        let old_st = folder_scan(pre)->0;
        let c = narrowed(old_st.common, v)->0;
        lemma_narrowed(old_st.common, v);
        assert(st.common == c);
        assert(starts_with(old_st.common, c));
        assert forall|d: PathView| #[trigger] old_st.deeper.contains(d) implies starts_with(d, c) by {
            lemma_starts_with_trans(d, old_st.common, c);
        }
        assert forall|i: int| 0 <= i < pre.len() implies starts_with(#[trigger] pre[i], c) by {
            lemma_starts_with_trans(pre[i], old_st.common, c);
        }
        assert forall|i: int| #![trigger pre[i]] 0 <= i < pre.len() implies exists|d: PathView| #[trigger]
            old_st.deeper.contains(d) && agree(d, pre[i], reach(pre[i], c)) by {
            let d = choose|d: PathView| #[trigger]
                old_st.deeper.contains(d) && agree(d, pre[i], reach(pre[i], old_st.common));
            assert(reach(pre[i], c) <= reach(pre[i], old_st.common));
            let n = reach(pre[i], c);
            assert(d.subrange(0, n) =~= d.subrange(0, reach(pre[i], old_st.common)).subrange(0, n));
            assert(pre[i].subrange(0, n) =~= pre[i].subrange(0, reach(pre[i], old_st.common)).subrange(0, n));
            assert(agree(d, pre[i], n));
        }
        if v == c {
            assert(st.deeper == old_st.deeper);
            let d0 = choose|d: PathView| #[trigger]
                old_st.deeper.contains(d) && agree(d, pre[0], reach(pre[0], c));
            assert(starts_with(d0, c));
            assert(agree(d0, v, reach(v, c))) by {
                assert(v.subrange(0, v.len() as int) =~= v);
            }
        } else {
            let t = child_toward(v, c)->0;
            lemma_child_toward(v, c);
            assert(st.deeper == old_st.deeper.insert(t));
            assert(starts_with(t, c)) by {
                assert(t.subrange(0, c.len() as int) =~= t.drop_last());
            }
            assert(v.len() > c.len()) by {
                if v.len() == c.len() {
                    assert(v =~= v.subrange(0, c.len() as int));
                }
            }
            assert(agree(t, v, reach(v, c))) by {
                assert(t.len() == c.len() + 1);
                assert(t.subrange(0, c.len() as int + 1) =~= t);
            }
        }
        assert forall|i: int| #![trigger paths[i]] 0 <= i < paths.len() implies exists|d: PathView| #[trigger]
            st.deeper.contains(d) && agree(d, paths[i], reach(paths[i], st.common)) by {
            if i < pre.len() {
                assert(paths[i] == pre[i]);
                let d = choose|d: PathView| #[trigger] old_st.deeper.contains(d) && agree(d, pre[i], reach(pre[i], c));
                assert(st.deeper.contains(d));
            } else {
                assert(paths[i] == v);
                if v == c {
                    let d0 = choose|d: PathView| #[trigger]
                        old_st.deeper.contains(d) && agree(d, pre[0], reach(pre[0], c));
                    assert(st.deeper.contains(d0));
                    assert(agree(d0, v, reach(v, c))) by {
                        assert(v.subrange(0, v.len() as int) =~= v);
                        assert(starts_with(d0, c));
                    }
                } else {
                    let t = child_toward(v, c)->0;
                    assert(st.deeper.contains(t));
                    assert(agree(t, v, reach(v, c)));
                }
            }
        }
        assert forall|i: int| 0 <= i < paths.len() implies starts_with(#[trigger] paths[i], st.common) by {
            if i < pre.len() {
                assert(paths[i] == pre[i]);
            }
        }
    }
}

/// The folders that `folders` gives lie just below the common ancestor of the
/// paths, every path lies under that ancestor, and every path other than the
/// ancestor itself lies in one of the folders.
pub proof fn law_folders_hold_every_path(paths: Seq<PathView>)
    requires
        folders(paths) is Some,
    ensures
        ({
            let common = folder_scan(paths)->0.common;
            let found = folders(paths)->0;
            &&& forall|i: int| 0 <= i < paths.len() ==> starts_with(#[trigger] paths[i], common)
            &&& forall|f: PathView| #[trigger] found.contains(f) ==> parent(f) == Some(common)
            &&& forall|i: int|
                #![trigger paths[i]]
                0 <= i < paths.len() && paths[i] != common ==> exists|f: PathView| #[trigger]
                    found.contains(f) && starts_with(paths[i], f)
        }),
{
    let st = folder_scan(paths)->0;
    let c = st.common;
    let found = folders(paths)->0;
    lemma_scan(paths);
    assert forall|f: PathView| #[trigger] found.contains(f) implies parent(f) == Some(c) by {
        let d = choose|d: PathView| st.deeper.contains(d) && child_toward(d, c)->0 == f;
        lemma_child_toward(d, c);
    }
    assert forall|i: int| #![trigger paths[i]] 0 <= i < paths.len() && paths[i] != c implies exists|f: PathView| #[trigger]
        found.contains(f) && starts_with(paths[i], f) by {
        let v = paths[i];
        let d = choose|d: PathView| #[trigger] st.deeper.contains(d) && agree(d, v, reach(v, c));
        assert(v.len() > c.len()) by {
            if v.len() <= c.len() {
                assert(v =~= v.subrange(0, c.len() as int));
            }
        }
        let u = child_toward(d, c)->0;
        lemma_child_toward(d, c);
        assert(found.contains(u));
        assert(u.len() == c.len() + 1);
        assert(u =~= d.subrange(0, c.len() as int + 1));
        assert(starts_with(v, u)) by {
            assert(v.subrange(0, u.len() as int) =~= d.subrange(0, c.len() as int + 1));
        }
    }
}

} // verus!
