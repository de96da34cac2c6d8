//! Three kinds of filesystem path, kept apart by type.
//!
//! A path is held as text and its view is the sequence of its
//! characters. What a path means is its components: two paths are the
//! same path when they have the same components, and paths are ordered
//! component by component ([`same_path`], [`path_le`]). The derived
//! `==`, `<` and hash of the path types go by the text instead, and so
//! tell two spellings of one path apart.

use crate::text::{
    chars_of, find_char, find_char_from, lemma_find_char_bounds, lemma_text_le_antisymmetric,
    lemma_text_le_total, lemma_text_le_transitive, same_text, string_of, text_before_or_same,
    text_le,
};
use vstd::prelude::*;
use vstd::std_specs::convert::FromSpecImpl;

verus! {

/// The separator between the components of a path.
pub open spec fn is_separator(c: char) -> bool {
    c == '/'
}

/// Path text `base` extended by `segment`: an absolute segment replaces the
/// base, otherwise one separator is put between the two unless the base is
/// empty or already ends in one.
pub open spec fn joined(base: Seq<char>, segment: Seq<char>) -> Seq<char> {
    if segment.len() > 0 && is_separator(segment[0]) {
        segment
    } else if base.len() > 0 && !is_separator(base.last()) {
        base.push('/') + segment
    } else {
        base + segment
    }
}

/// What a [`Component`] stands for.
pub enum ComponentView {
    /// The root of the filesystem, at the start of an absolute path.
    RootDir,
    /// The directory itself, `.`, at the start of a relative path.
    CurDir,
    /// The directory above, `..`.
    ParentDir,
    /// A name.
    Normal(Seq<char>),
}

/// One component of a path.
#[derive(Debug)]
pub enum Component {
    RootDir,
    CurDir,
    ParentDir,
    Normal(String),
}

impl View for Component {
    type V = ComponentView;

    open spec fn view(&self) -> ComponentView {
        match *self {
            Component::RootDir => ComponentView::RootDir,
            Component::CurDir => ComponentView::CurDir,
            Component::ParentDir => ComponentView::ParentDir,
            Component::Normal(name) => ComponentView::Normal(name@),
        }
    }
}

impl DeepView for Component {
    type V = ComponentView;

    open spec fn deep_view(&self) -> ComponentView {
        self@
    }
}

/// The component that the run of characters `segment` between two
/// separators makes, if any: an empty run and `.` make none, `..` is the
/// directory above, anything else is a name.
pub open spec fn named(segment: Seq<char>) -> Option<ComponentView> {
    if segment.len() == 0 || segment == seq!['.'] {
        None
    } else if segment == seq!['.', '.'] {
        Some(ComponentView::ParentDir)
    } else {
        Some(ComponentView::Normal(segment))
    }
}

/// The components that the runs between the separators of `s` make, from
/// position `i` on.
pub open spec fn parts_from(s: Seq<char>, i: int) -> Seq<ComponentView>
    decreases s.len() - i,
    via parts_from_decreases
{
    if 0 <= i < s.len() {
        let end = find_char(s, i, '/');
        let rest = if end < s.len() {
            parts_from(s, end + 1)
        } else {
            Seq::empty()
        };
        match named(s.subrange(i, end)) {
            Some(c) => seq![c] + rest,
            None => rest,
        }
    } else {
        Seq::empty()
    }
}

#[via_fn]
proof fn parts_from_decreases(s: Seq<char>, i: int) {
    if 0 <= i < s.len() {
        lemma_find_char_bounds(s, i, '/');
    }
}

/// The components of the path `s`. An absolute path begins with the
/// root; a relative path that begins with `.` begins with the directory
/// itself. Repeated separators, a separator at the end and every other
/// `.` count for nothing.
pub open spec fn components_of(s: Seq<char>) -> Seq<ComponentView> {
    if s.len() > 0 && s[0] == '/' {
        seq![ComponentView::RootDir] + parts_from(s, 0)
    } else if s.len() > 0 && s[0] == '.' && find_char(s, 0, '/') == 1 {
        seq![ComponentView::CurDir] + parts_from(s, 0)
    } else {
        parts_from(s, 0)
    }
}

/// Whether two path texts are the same path.
pub open spec fn same_path(a: Seq<char>, b: Seq<char>) -> bool {
    components_of(a) == components_of(b)
}

/// The place of a kind of component in the order: the root first, then
/// the directory itself, then the directory above, then names.
pub open spec fn kind_rank(c: ComponentView) -> int {
    match c {
        ComponentView::RootDir => 0,
        ComponentView::CurDir => 1,
        ComponentView::ParentDir => 2,
        ComponentView::Normal(_) => 3,
    }
}

/// The order of components: by kind, and names by their text.
pub open spec fn component_le(a: ComponentView, b: ComponentView) -> bool {
    if kind_rank(a) != kind_rank(b) {
        kind_rank(a) < kind_rank(b)
    } else {
        match (a, b) {
            (ComponentView::Normal(x), ComponentView::Normal(y)) => text_le(x, y),
            _ => true,
        }
    }
}

/// The order of runs of components: component by component, a proper
/// prefix first.
pub open spec fn components_le(a: Seq<ComponentView>, b: Seq<ComponentView>) -> bool
    decreases a.len(),
{
    if a.len() == 0 {
        true
    } else if b.len() == 0 {
        false
    } else if a[0] != b[0] {
        component_le(a[0], b[0])
    } else {
        components_le(a.drop_first(), b.drop_first())
    }
}

/// The order of paths: component by component.
pub open spec fn path_le(a: Seq<char>, b: Seq<char>) -> bool {
    components_le(components_of(a), components_of(b))
}

/// Whether the path `path` lies at or below `prefix`: the components of
/// `prefix` are the first components of `path`.
pub open spec fn within(path: Seq<char>, prefix: Seq<char>) -> bool {
    components_of(prefix).is_prefix_of(components_of(path))
}

proof fn lemma_component_le_total(a: ComponentView, b: ComponentView)
    ensures
        component_le(a, b) || component_le(b, a),
{
    if let (ComponentView::Normal(x), ComponentView::Normal(y)) = (a, b) {
        lemma_text_le_total(x, y);
    }
}

proof fn lemma_component_le_antisymmetric(a: ComponentView, b: ComponentView)
    requires
        component_le(a, b),
        component_le(b, a),
    ensures
        a == b,
{
    if let (ComponentView::Normal(x), ComponentView::Normal(y)) = (a, b) {
        lemma_text_le_antisymmetric(x, y);
    }
}

proof fn lemma_component_le_transitive(a: ComponentView, b: ComponentView, c: ComponentView)
    requires
        component_le(a, b),
        component_le(b, c),
    ensures
        component_le(a, c),
{
    if let (ComponentView::Normal(x), ComponentView::Normal(y), ComponentView::Normal(z)) = (
        a,
        b,
        c,
    ) {
        lemma_text_le_transitive(x, y, z);
    }
}

/// Any two runs of components are ordered one way or the other.
pub proof fn lemma_components_le_total(a: Seq<ComponentView>, b: Seq<ComponentView>)
    ensures
        components_le(a, b) || components_le(b, a),
    decreases a.len(),
{
    if a.len() > 0 && b.len() > 0 {
        if a[0] == b[0] {
            lemma_components_le_total(a.drop_first(), b.drop_first());
        } else {
            lemma_component_le_total(a[0], b[0]);
        }
    }
}

/// Runs of components ordered both ways are the same run.
pub proof fn lemma_components_le_antisymmetric(a: Seq<ComponentView>, b: Seq<ComponentView>)
    requires
        components_le(a, b),
        components_le(b, a),
    ensures
        a == b,
    decreases a.len(),
{
    if a.len() == 0 || b.len() == 0 {
        assert(a =~= b);
    } else {
        if a[0] != b[0] {
            lemma_component_le_antisymmetric(a[0], b[0]);
        }
        lemma_components_le_antisymmetric(a.drop_first(), b.drop_first());
        assert(a =~= seq![a[0]] + a.drop_first());
        assert(b =~= seq![b[0]] + b.drop_first());
    }
}

/// The order of runs of components is transitive.
pub proof fn lemma_components_le_transitive(
    a: Seq<ComponentView>,
    b: Seq<ComponentView>,
    c: Seq<ComponentView>,
)
    requires
        components_le(a, b),
        components_le(b, c),
    ensures
        components_le(a, c),
    decreases a.len(),
{
    if a.len() > 0 && b.len() > 0 && c.len() > 0 {
        if a[0] == b[0] && b[0] == c[0] {
            lemma_components_le_transitive(a.drop_first(), b.drop_first(), c.drop_first());
        } else if a[0] != b[0] && b[0] != c[0] {
            lemma_component_le_transitive(a[0], b[0], c[0]);
            if a[0] == c[0] {
                lemma_component_le_antisymmetric(a[0], b[0]);
            }
        }
    }
}

/// Any two paths are ordered one way or the other.
pub proof fn lemma_path_le_total(a: Seq<char>, b: Seq<char>)
    ensures
        path_le(a, b) || path_le(b, a),
{
    lemma_components_le_total(components_of(a), components_of(b));
}

/// Paths ordered both ways are the same path.
pub proof fn lemma_path_le_antisymmetric(a: Seq<char>, b: Seq<char>)
    requires
        path_le(a, b),
        path_le(b, a),
    ensures
        same_path(a, b),
{
    lemma_components_le_antisymmetric(components_of(a), components_of(b));
}

/// The order of paths is transitive.
pub proof fn lemma_path_le_transitive(a: Seq<char>, b: Seq<char>, c: Seq<char>)
    requires
        path_le(a, b),
        path_le(b, c),
    ensures
        path_le(a, c),
{
    lemma_components_le_transitive(components_of(a), components_of(b), components_of(c));
}

/// The components of the path `p`.
pub fn path_components(p: &str) -> (r: Vec<Component>)
    ensures
        r.deep_view() == components_of(p@),
{
    let b = chars_of(p);
    let mut out: Vec<Component> = Vec::new();
    assert(out.deep_view() =~= Seq::<ComponentView>::empty());
    if b.len() > 0 && b[0] == '/' {
        out.push(Component::RootDir);
        assert(out.deep_view() =~= seq![ComponentView::RootDir]);
    } else if b.len() > 0 && b[0] == '.' && find_char_from(&b, 0, '/') == 1 {
        out.push(Component::CurDir);
        assert(out.deep_view() =~= seq![ComponentView::CurDir]);
    }
    let mut i: usize = 0;
    while i < b.len()
        invariant
            b@ == p@,
            i <= b@.len(),
            out.deep_view() + parts_from(b@, i as int) == components_of(b@),
        decreases b@.len() - i,
    {
        let end = find_char_from(&b, i, '/');
        let n = end - i;
        let ghost before = out.deep_view();
        let ghost segment = b@.subrange(i as int, end as int);
        let ghost rest = if end < b@.len() {
            parts_from(b@, end + 1)
        } else {
            Seq::empty()
        };
        proof {
            assert(segment.len() == n);
            if n >= 1 {
                assert(segment[0] == b@[i as int]);
            }
            if n >= 2 {
                assert(segment[1] == b@[i + 1]);
            }
        }
        if n == 0 || (n == 1 && b[i] == '.') {
            proof {
                if n == 1 {
                    assert(segment =~= seq!['.']);
                }
                assert(named(segment) is None);
            }
        } else if n == 2 && b[i] == '.' && b[i + 1] == '.' {
            out.push(Component::ParentDir);
            proof {
                assert(segment =~= seq!['.', '.']);
                assert(out.deep_view() =~= before.push(ComponentView::ParentDir));
                assert(before + (seq![ComponentView::ParentDir] + rest) =~= before.push(
                    ComponentView::ParentDir,
                ) + rest);
            }
        } else {
            let name = string_of(&b, i, end);
            proof {
                if segment == seq!['.'] {
                    assert(segment.len() == 1);
                    assert(segment[0] == '.');
                }
                if segment == seq!['.', '.'] {
                    assert(segment.len() == 2);
                    assert(segment[0] == '.' && segment[1] == '.');
                }
                assert(named(segment) == Some(ComponentView::Normal(segment)));
            }
            out.push(Component::Normal(name));
            proof {
                assert(out.deep_view() =~= before.push(ComponentView::Normal(segment)));
                assert(before + (seq![ComponentView::Normal(segment)] + rest) =~= before.push(
                    ComponentView::Normal(segment),
                ) + rest);
            }
        }
        if end < b.len() {
            i = end + 1;
        } else {
            i = end;
        }
    }
    proof {
        assert(parts_from(b@, i as int) =~= Seq::<ComponentView>::empty());
        assert(out.deep_view() + Seq::<ComponentView>::empty() =~= out.deep_view());
    }
    out
}

/// The name at the end of the path `s`: its last component, where that
/// is a name. A path that ends in `..`, the root and the empty path have
/// none.
pub open spec fn final_name(s: Seq<char>) -> Option<Seq<char>> {
    let parts = components_of(s);
    if parts.len() > 0 {
        match parts.last() {
            ComponentView::Normal(name) => Some(name),
            _ => None,
        }
    } else {
        None
    }
}

/// The name at the end of the path `p`.
pub fn final_name_of(p: &str) -> (r: Option<String>)
    ensures
        r.deep_view() == final_name(p@),
{
    let mut parts = path_components(p);
    let ghost all = parts.deep_view();
    proof {
        if all.len() > 0 {
            assert(all.last() == parts@[parts@.len() - 1]@);
        }
    }
    match parts.pop() {
        Some(Component::Normal(name)) => Some(name),
        _ => None,
    }
}

/// Whether `a` and `b` are the same component.
fn same_component(a: &Component, b: &Component) -> (r: bool)
    ensures
        r == (a@ == b@),
{
    match (a, b) {
        (Component::RootDir, Component::RootDir) => true,
        (Component::CurDir, Component::CurDir) => true,
        (Component::ParentDir, Component::ParentDir) => true,
        (Component::Normal(x), Component::Normal(y)) => same_text(x.as_str(), y.as_str()),
        _ => false,
    }
}

fn rank_of(c: &Component) -> (r: u8)
    ensures
        r == kind_rank(c@),
{
    match c {
        Component::RootDir => 0,
        Component::CurDir => 1,
        Component::ParentDir => 2,
        Component::Normal(_) => 3,
    }
}

/// Whether `a` comes before `b` in the order of components, or is `b`.
fn component_before_or_same(a: &Component, b: &Component) -> (r: bool)
    ensures
        r == component_le(a@, b@),
{
    if rank_of(a) != rank_of(b) {
        rank_of(a) < rank_of(b)
    } else {
        match (a, b) {
            (Component::Normal(x), Component::Normal(y)) => text_before_or_same(
                x.as_str(),
                y.as_str(),
            ),
            _ => true,
        }
    }
}

/// Whether the components `a` are the first components of `b`.
fn components_begin(a: &Vec<Component>, b: &Vec<Component>) -> (r: bool)
    ensures
        r == a.deep_view().is_prefix_of(b.deep_view()),
{
    if a.len() > b.len() {
        return false;
    }
    let mut i: usize = 0;
    while i < a.len()
        invariant
            i <= a@.len() <= b@.len(),
            forall|k: int| 0 <= k < i ==> a.deep_view()[k] == b.deep_view()[k],
        decreases a@.len() - i,
    {
        if !same_component(&a[i], &b[i]) {
            assert(a.deep_view()[i as int] != b.deep_view().subrange(0, a@.len() as int)[i as int]);
            return false;
        }
        i += 1;
    }
    assert(a.deep_view() =~= b.deep_view().subrange(0, a@.len() as int));
    true
}

/// Whether `a` and `b` are the same path.
pub fn same_path_text(a: &str, b: &str) -> (r: bool)
    ensures
        r == same_path(a@, b@),
{
    let x = path_components(a);
    let y = path_components(b);
    let r = x.len() == y.len() && components_begin(&x, &y);
    proof {
        if r {
            assert(x.deep_view() =~= y.deep_view().subrange(0, x@.len() as int));
            assert(y.deep_view().subrange(0, y@.len() as int) =~= y.deep_view());
        }
        if x.deep_view() == y.deep_view() {
            assert(x.deep_view() =~= y.deep_view().subrange(0, x@.len() as int));
        }
    }
    r
}

/// Whether the path `a` comes before the path `b`, or is the same path.
pub fn path_before_or_same(a: &str, b: &str) -> (r: bool)
    ensures
        r == path_le(a@, b@),
{
    let x = path_components(a);
    let y = path_components(b);
    let ghost xs = x.deep_view();
    let ghost ys = y.deep_view();
    let mut i: usize = 0;
    assert(xs.subrange(0, xs.len() as int) =~= xs);
    assert(ys.subrange(0, ys.len() as int) =~= ys);
    while i < x.len() && i < y.len()
        invariant
            xs == x.deep_view(),
            ys == y.deep_view(),
            xs == components_of(a@),
            ys == components_of(b@),
            i <= xs.len(),
            i <= ys.len(),
            components_le(xs, ys) == components_le(
                xs.subrange(i as int, xs.len() as int),
                ys.subrange(i as int, ys.len() as int),
            ),
        decreases xs.len() - i,
    {
        let ghost xt = xs.subrange(i as int, xs.len() as int);
        let ghost yt = ys.subrange(i as int, ys.len() as int);
        assert(xt[0] == x@[i as int]@ && yt[0] == y@[i as int]@);
        assert(xt.len() > 0 && yt.len() > 0);
        if !same_component(&x[i], &y[i]) {
            assert(components_le(xt, yt) == component_le(xt[0], yt[0]));
            return component_before_or_same(&x[i], &y[i]);
        }
        assert(components_le(xt, yt) == components_le(xt.drop_first(), yt.drop_first()));
        proof {
            assert(xt.drop_first() =~= xs.subrange(i + 1, xs.len() as int));
            assert(yt.drop_first() =~= ys.subrange(i + 1, ys.len() as int));
        }
        i += 1;
    }
    i >= x.len()
}

/// A directory.
#[derive(Debug, PartialEq, Eq, Hash, PartialOrd, Ord)]
pub struct DirPath(String);

/// A disk image file.
#[derive(Debug, PartialEq, Eq, Hash, PartialOrd, Ord)]
pub struct IsoPath(String);

/// A block device node.
#[derive(Debug, PartialEq, Eq, Hash)]
pub struct DevicePath(String);

impl View for DirPath {
    type V = Seq<char>;

    closed spec fn view(&self) -> Seq<char> {
        self.0@
    }
}

impl DeepView for DirPath {
    type V = Seq<char>;

    open spec fn deep_view(&self) -> Seq<char> {
        self@
    }
}

impl View for IsoPath {
    type V = Seq<char>;

    closed spec fn view(&self) -> Seq<char> {
        self.0@
    }
}

impl DeepView for IsoPath {
    type V = Seq<char>;

    open spec fn deep_view(&self) -> Seq<char> {
        self@
    }
}

impl View for DevicePath {
    type V = Seq<char>;

    closed spec fn view(&self) -> Seq<char> {
        self.0@
    }
}

impl DeepView for DevicePath {
    type V = Seq<char>;

    open spec fn deep_view(&self) -> Seq<char> {
        self@
    }
}

impl DirPath {
    /// The directory at `path`.
    pub fn new(path: String) -> (r: Self)
        ensures
            r@ == path@,
    {
        DirPath(path)
    }

    /// The path, borrowed.
    pub fn as_path(&self) -> (r: &str)
        ensures
            r@ == self@,
    {
        self.0.as_str()
    }

    /// The path, owned.
    pub fn into_inner(self) -> (r: String)
        ensures
            r@ == self@,
    {
        self.0
    }

    /// The path of `segment` seen from this directory.
    pub fn join(&self, segment: &str) -> (r: DirPath)
        ensures
            r@ == joined(self@, segment@),
    {
        let seg_len = segment.unicode_len();
        if seg_len > 0 && segment.get_char(0) == '/' {
            return DirPath(segment.to_owned());
        }
        let mut out = self.0.clone();
        let base_len = self.0.as_str().unicode_len();
        if base_len > 0 && self.0.as_str().get_char(base_len - 1) != '/' {
            out.append("/");
            proof {
                reveal_strlit("/");
                assert(out@ =~= self@.push('/'));
            }
        }
        out.append(segment);
        DirPath(out)
    }

    /// Whether this directory is `other` or lies below it.
    pub fn starts_with(&self, other: &DirPath) -> (r: bool)
        ensures
            r == within(self@, other@),
    {
        let path = path_components(self.0.as_str());
        let prefix = path_components(other.0.as_str());
        components_begin(&prefix, &path)
    }
}

impl IsoPath {
    /// The image at `path`.
    pub fn new(path: String) -> (r: Self)
        ensures
            r@ == path@,
    {
        IsoPath(path)
    }

    /// The path, borrowed.
    pub fn as_path(&self) -> (r: &str)
        ensures
            r@ == self@,
    {
        self.0.as_str()
    }

    /// The path, owned.
    pub fn into_inner(self) -> (r: String)
        ensures
            r@ == self@,
    {
        self.0
    }
}

impl DevicePath {
    /// The device at `path`.
    pub fn new(path: String) -> (r: Self)
        ensures
            r@ == path@,
    {
        DevicePath(path)
    }

    /// The path, borrowed.
    pub fn as_path(&self) -> (r: &str)
        ensures
            r@ == self@,
    {
        self.0.as_str()
    }

    /// The path, owned.
    pub fn into_inner(self) -> (r: String)
        ensures
            r@ == self@,
    {
        self.0
    }
}

impl DirPath {
    /// The path as text.
    pub fn to_string(&self) -> (r: String)
        ensures
            r@ == self@,
    {
        self.0.clone()
    }
}

impl Clone for DirPath {
    fn clone(&self) -> (r: Self)
        ensures
            r == *self,
    {
        DirPath(self.0.clone())
    }
}

impl IsoPath {
    /// The path as text.
    pub fn to_string(&self) -> (r: String)
        ensures
            r@ == self@,
    {
        self.0.clone()
    }
}

impl Clone for IsoPath {
    fn clone(&self) -> (r: Self)
        ensures
            r == *self,
    {
        IsoPath(self.0.clone())
    }
}

impl DevicePath {
    /// The path as text.
    pub fn to_string(&self) -> (r: String)
        ensures
            r@ == self@,
    {
        self.0.clone()
    }
}

impl Clone for DevicePath {
    fn clone(&self) -> (r: Self)
        ensures
            r == *self,
    {
        DevicePath(self.0.clone())
    }
}

impl From<String> for DirPath {
    fn from(p: String) -> (r: Self)
        ensures
            r@ == p@,
    {
        DirPath(p)
    }
}

impl FromSpecImpl<String> for DirPath {
    open spec fn obeys_from_spec() -> bool {
        true
    }

    closed spec fn from_spec(p: String) -> Self {
        DirPath(p)
    }
}

impl From<String> for IsoPath {
    fn from(p: String) -> (r: Self)
        ensures
            r@ == p@,
    {
        IsoPath(p)
    }
}

impl FromSpecImpl<String> for IsoPath {
    open spec fn obeys_from_spec() -> bool {
        true
    }

    closed spec fn from_spec(p: String) -> Self {
        IsoPath(p)
    }
}

impl From<String> for DevicePath {
    fn from(p: String) -> (r: Self)
        ensures
            r@ == p@,
    {
        DevicePath(p)
    }
}

impl FromSpecImpl<String> for DevicePath {
    open spec fn obeys_from_spec() -> bool {
        true
    }

    closed spec fn from_spec(p: String) -> Self {
        DevicePath(p)
    }
}

} // verus!
