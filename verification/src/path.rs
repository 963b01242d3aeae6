//! File paths: their components, and how they are spelled.

use crate::text;
use vstd::prelude::*;
use vstd::utf8;

verus! {

/// One component of a path, as paths are compared by it. Names are kept as raw
/// bytes: they need not be valid text.
#[derive(Debug, PartialEq, Eq)]
pub enum Component {
    /// A drive or share prefix.
    Prefix(Vec<u8>),
    /// The root directory.
    Root,
    /// A leading `.`.
    Current,
    /// `..`.
    Parent,
    /// An ordinary name.
    Name(Vec<u8>),
}

/// A path component with its bytes as a sequence.
pub enum ComponentView {
    Prefix(Seq<u8>),
    Root,
    Current,
    Parent,
    Name(Seq<u8>),
}

impl View for Component {
    type V = ComponentView;

    open spec fn view(&self) -> ComponentView {
        match *self {
            Component::Prefix(bytes) => ComponentView::Prefix(bytes@),
            Component::Root => ComponentView::Root,
            Component::Current => ComponentView::Current,
            Component::Parent => ComponentView::Parent,
            Component::Name(bytes) => ComponentView::Name(bytes@),
        }
    }
}

/// A copy of some bytes.
fn copy_bytes(bytes: &Vec<u8>) -> (out: Vec<u8>)
    ensures
        out@ == bytes@,
{
    let mut out: Vec<u8> = Vec::new();
    let mut i: usize = 0;
    while i < bytes.len()
        invariant
            i <= bytes@.len(),
            out@ == bytes@.take(i as int),
        decreases bytes@.len() - i,
    {
        out.push(bytes[i]);
        i += 1;
        assert(out@ =~= bytes@.take(i as int));
    }
    assert(out@ =~= bytes@);
    out
}

impl Clone for Component {
    fn clone(&self) -> (r: Self)
        ensures
            r@ == self@,
    {
        match self {
            Component::Prefix(bytes) => Component::Prefix(copy_bytes(bytes)),
            Component::Root => Component::Root,
            Component::Current => Component::Current,
            Component::Parent => Component::Parent,
            Component::Name(bytes) => Component::Name(copy_bytes(bytes)),
        }
    }
}

/// A component of a path with its spelling.
#[derive(Debug, PartialEq, Eq)]
pub struct PathPart {
    pub component: Component,
    /// How the component is spelled.
    pub text: Vec<u8>,
    /// What stands between it and the next component, or at the end of the
    /// path: separators, and any `.` that is no component.
    pub gap: Vec<u8>,
}

/// A component of a path with its spelling.
#[verifier::ext_equal]
pub struct PartView {
    pub component: ComponentView,
    pub text: Seq<u8>,
    pub gap: Seq<u8>,
}

impl View for PathPart {
    type V = PartView;

    open spec fn view(&self) -> PartView {
        PartView { component: self.component@, text: self.text@, gap: self.gap@ }
    }
}

impl Clone for PathPart {
    fn clone(&self) -> (r: Self)
        ensures
            r@ == self@,
    {
        PathPart {
            component: self.component.clone(),
            text: copy_bytes(&self.text),
            gap: copy_bytes(&self.gap),
        }
    }
}

/// A path as the list of its components, each with its spelling. Paths that
/// are spelled differently are the same if their components are.
#[derive(Debug, PartialEq, Eq)]
pub struct FilePath {
    pub parts: Vec<PathPart>,
}

impl View for FilePath {
    type V = Seq<PartView>;

    open spec fn view(&self) -> Seq<PartView> {
        self.parts@.map_values(|part: PathPart| part@)
    }
}

impl Clone for FilePath {
    fn clone(&self) -> (r: Self)
        ensures
            r@ == self@,
    {
        self.tail(0)
    }
}

/// The components of a path, by which it is compared.
pub open spec fn components(path: Seq<PartView>) -> Seq<ComponentView> {
    path.map_values(|part: PartView| part.component)
}

/// The spelling of a path.
pub open spec fn spelling(path: Seq<PartView>) -> Seq<u8>
    decreases path.len(),
{
    if path.len() == 0 {
        Seq::empty()
    } else {
        spelling(path.drop_last()) + path.last().text + path.last().gap
    }
}

/// The component anchors a path: it is the root or a prefix.
pub open spec fn is_anchor(component: ComponentView) -> bool {
    component is Root || component is Prefix
}

/// The byte separates components; a backslash does so on Windows only.
pub open spec fn is_separator(byte: u8, windows: bool) -> bool {
    byte == 47 || windows && byte == 92
}

/// The separator that is put between components: a slash, on Windows a
/// backslash.
pub open spec fn main_separator(windows: bool) -> u8 {
    if windows {
        92
    } else {
        47
    }
}

/// The path is nothing but a prefix.
pub open spec fn is_bare_prefix(path: Seq<PartView>) -> bool {
    path.len() == 1 && path[0].component is Prefix
}

/// The path is nothing but a drive, such as `C:`.
pub open spec fn is_drive(path: Seq<PartView>) -> bool {
    is_bare_prefix(path) && path[0].text.len() == 2 && path[0].gap.len() == 0
}

/// A separator has to be put behind the path before more can follow.
pub open spec fn needs_separator(path: Seq<PartView>, windows: bool) -> bool {
    let bytes = spelling(path);
    bytes.len() > 0 && !is_separator(bytes.last(), windows) && !is_drive(path)
}

/// The path with more behind its last component.
pub open spec fn with_gap(path: Seq<PartView>, more: Seq<u8>) -> Seq<PartView> {
    let last = path.last();
    path.drop_last().push(PartView { gap: last.gap + more, ..last })
}

/// The path without what stands behind its last component.
pub open spec fn trimmed(path: Seq<PartView>) -> Seq<PartView> {
    if path.len() == 0 {
        path
    } else {
        path.drop_last().push(PartView { gap: Seq::empty(), ..path.last() })
    }
}

/// The path, ready to be followed by another.
pub open spec fn opened(path: Seq<PartView>, windows: bool) -> Seq<PartView> {
    if path.len() > 0 && needs_separator(path, windows) {
        with_gap(path, seq![main_separator(windows)])
    } else {
        path
    }
}

/// The path has a prefix that starts with `\\?\`, below which every component
/// is taken literally.
pub open spec fn is_verbatim(path: Seq<PartView>) -> bool {
    &&& path.len() > 0
    &&& path[0].component is Prefix
    &&& path[0].text.len() >= 4
    &&& path[0].text[0] == 92 && path[0].text[1] == 92 && path[0].text[2] == 63
        && path[0].text[3] == 92
}

/// The components of `base` followed by those of `rel`, without any `.` and
/// `..` of the latter. A root leads back to the prefix.
pub open spec fn followed(base: Seq<PartView>, rel: Seq<PartView>) -> Seq<PartView>
    decreases rel.len(),
{
    if rel.len() == 0 {
        base
    } else {
        let before = followed(base, rel.drop_last());
        match rel.last().component {
            ComponentView::Root => before.take(
                if before.len() > 1 {
                    1
                } else {
                    before.len() as int
                },
            ).push(rel.last()),
            ComponentView::Current => before,
            ComponentView::Parent => if before.len() > 0 && before.last().component is Name {
                before.drop_last()
            } else {
                before
            },
            _ => before.push(rel.last()),
        }
    }
}

/// A component spelled anew, with a backslash behind it if another one follows
/// that is not the root.
pub open spec fn respelled_part(path: Seq<PartView>, i: int) -> PartView {
    let part = path[i];
    PartView {
        component: part.component,
        text: if part.component is Root {
            seq![92u8]
        } else {
            part.text
        },
        gap: if i + 1 < path.len() && !(path[i + 1].component is Root) && !(
        part.component is Root) {
            seq![92u8]
        } else {
            Seq::empty()
        },
    }
}

/// A path spelled anew, with backslashes between its components.
pub open spec fn respelled(path: Seq<PartView>) -> Seq<PartView> {
    Seq::new(path.len(), |i: int| respelled_part(path, i))
}

/// `base` followed by `rel`. A path with a prefix of its own replaces the base,
/// and one that starts at the root replaces all of it but its prefix. A leading
/// `.` of `rel` is spelled, but is no component of a longer path. What follows a
/// verbatim prefix is spelled anew, without `.` and `..`.
pub open spec fn joined(base: Seq<PartView>, rel: Seq<PartView>, windows: bool) -> Seq<PartView> {
    if rel.len() > 0 && rel[0].component is Prefix {
        rel
    } else if rel.len() > 0 && is_verbatim(base) {
        respelled(followed(base, rel))
    } else if rel.len() > 0 && rel[0].component is Root {
        if base.len() > 0 && base[0].component is Prefix {
            trimmed(base.take(1)) + rel
        } else {
            rel
        }
    } else if base.len() > 0 && !is_bare_prefix(base) && rel.len() > 0
        && rel[0].component is Current {
        with_gap(opened(base, windows), rel[0].text + rel[0].gap) + rel.drop_first()
    } else {
        opened(base, windows) + rel
    }
}

/// The path without its last component; none for an empty path, a root and a
/// prefix.
pub open spec fn parent_of(path: Seq<PartView>) -> Option<Seq<PartView>> {
    if path.len() == 0 || is_anchor(path.last().component) {
        None
    } else {
        Some(trimmed(path.drop_last()))
    }
}

/// `base` is made of the leading components of `path`.
pub open spec fn starts_with(path: Seq<PartView>, base: Seq<PartView>) -> bool {
    base.len() <= path.len() && components(path.take(base.len() as int)) == components(base)
}

/// The part of `path` below `base`, as it is spelled there; none when it is not
/// below it.
pub open spec fn stripped(path: Seq<PartView>, base: Seq<PartView>) -> Option<Seq<PartView>> {
    if starts_with(path, base) {
        Some(trimmed(path.skip(base.len() as int)))
    } else {
        None
    }
}

/// Components of different kinds are ordered by kind.
pub open spec fn rank(component: ComponentView) -> int {
    match component {
        ComponentView::Prefix(_) => 0,
        ComponentView::Root => 1,
        ComponentView::Current => 2,
        ComponentView::Parent => 3,
        ComponentView::Name(_) => 4,
    }
}

/// The bytes by which components of one kind are ordered.
pub open spec fn component_bytes(component: ComponentView) -> Seq<u8> {
    match component {
        ComponentView::Prefix(bytes) => bytes,
        ComponentView::Name(bytes) => bytes,
        _ => Seq::empty(),
    }
}

/// Lexicographic order of byte strings.
pub open spec fn bytes_before(a: Seq<u8>, b: Seq<u8>) -> bool
    decreases a.len(),
{
    if b.len() == 0 {
        false
    } else if a.len() == 0 {
        true
    } else if a[0] != b[0] {
        a[0] < b[0]
    } else {
        bytes_before(a.drop_first(), b.drop_first())
    }
}

/// Order of components.
pub open spec fn component_before(a: ComponentView, b: ComponentView) -> bool {
    rank(a) < rank(b) || (rank(a) == rank(b) && bytes_before(
        component_bytes(a),
        component_bytes(b),
    ))
}

/// Lexicographic order of paths, component by component.
pub open spec fn path_before(a: Seq<ComponentView>, b: Seq<ComponentView>) -> bool
    decreases a.len(),
{
    if b.len() == 0 {
        false
    } else if a.len() == 0 {
        true
    } else if a[0] != b[0] {
        component_before(a[0], b[0])
    } else {
        path_before(a.drop_first(), b.drop_first())
    }
}

/// How two values compare.
#[derive(Debug, Clone, Copy, PartialEq, Eq, Structural)]
pub enum Rel {
    Before,
    Same,
    After,
}

/// Lexicographic comparison of byte strings.
fn relate_bytes(a: &Vec<u8>, b: &Vec<u8>) -> (r: Rel)
    ensures
        r is Before <==> bytes_before(a@, b@),
        r is Same <==> a@ == b@,
        r is After <==> bytes_before(b@, a@),
{
    let mut i: usize = 0;
    assert(a@.skip(0) =~= a@ && b@.skip(0) =~= b@);
    while i < a.len() && i < b.len() && a[i] == b[i]
        invariant
            i <= a@.len(),
            i <= b@.len(),
            a@.take(i as int) == b@.take(i as int),
            bytes_before(a@, b@) == bytes_before(a@.skip(i as int), b@.skip(i as int)),
            bytes_before(b@, a@) == bytes_before(b@.skip(i as int), a@.skip(i as int)),
        decreases a@.len() - i,
    {
        assert(a@.skip(i as int).drop_first() =~= a@.skip(i + 1));
        assert(b@.skip(i as int).drop_first() =~= b@.skip(i + 1));
        assert(a@.take(i + 1) =~= a@.take(i as int).push(a@[i as int]));
        assert(b@.take(i + 1) =~= b@.take(i as int).push(b@[i as int]));
        i += 1;
    }
    proof {
        let x = a@.skip(i as int);
        let y = b@.skip(i as int);
        assert(x.len() == a@.len() - i && y.len() == b@.len() - i);
        if x.len() > 0 && y.len() > 0 {
            assert(x[0] == a@[i as int] && y[0] == b@[i as int]);
        }
        if x.len() == 0 && y.len() == 0 {
            assert(a@.take(i as int) =~= a@);
            assert(b@.take(i as int) =~= b@);
        }
    }
    if i == a.len() {
        if i == b.len() {
            Rel::Same
        } else {
            Rel::Before
        }
    } else if i == b.len() {
        Rel::After
    } else if a[i] < b[i] {
        Rel::Before
    } else {
        Rel::After
    }
}

impl Component {
    fn rank(&self) -> (r: u8)
        ensures
            r == rank(self@),
    {
        match self {
            Component::Prefix(_) => 0,
            Component::Root => 1,
            Component::Current => 2,
            Component::Parent => 3,
            Component::Name(_) => 4,
        }
    }

    fn relate(&self, other: &Component) -> (r: Rel)
        ensures
            r is Before <==> component_before(self@, other@),
            r is Same <==> self@ == other@,
            r is After <==> component_before(other@, self@),
    {
        let a = self.rank();
        let b = other.rank();
        if a < b {
            Rel::Before
        } else if b < a {
            Rel::After
        } else {
            match (self, other) {
                (Component::Prefix(x), Component::Prefix(y)) => relate_bytes(x, y),
                (Component::Name(x), Component::Name(y)) => relate_bytes(x, y),
                _ => Rel::Same,
            }
        }
    }
}

/// Appends bytes.
fn append_bytes(out: &mut Vec<u8>, more: &Vec<u8>)
    ensures
        final(out)@ == old(out)@ + more@,
{
    let ghost before = out@;
    let mut copy = copy_bytes(more);
    out.append(&mut copy);
    assert(out@ =~= before + more@);
}

impl FilePath {
    /// The components from index `from` on.
    fn tail(&self, from: usize) -> (r: FilePath)
        requires
            from <= self@.len(),
        ensures
            r@ == self@.skip(from as int),
            from == 0 ==> r@ == self@,
    {
        let mut parts: Vec<PathPart> = Vec::new();
        let mut i: usize = from;
        while i < self.parts.len()
            invariant
                from <= i <= self.parts@.len(),
                parts@.len() == i - from,
                forall|k: int| 0 <= k < parts@.len() ==> (#[trigger] parts@[k])@ == self@[from + k],
            decreases self.parts@.len() - i,
        {
            let part = self.parts[i].clone();
            assert(part@ == self@[i as int]);
            parts.push(part);
            i += 1;
        }
        let r = FilePath { parts };
        assert(r@ =~= self@.skip(from as int));
        assert(self@.skip(0) =~= self@);
        r
    }

    /// Whether the component at `i` is the root or a prefix.
    fn anchor_at(&self, i: usize) -> (r: bool)
        requires
            i < self@.len(),
        ensures
            r == is_anchor(self@[i as int].component),
    {
        assert(self@[i as int] == self.parts@[i as int]@);
        match &self.parts[i].component {
            Component::Prefix(_) | Component::Root => true,
            _ => false,
        }
    }

    /// Whether the component at `i` is a prefix.
    fn prefix_at(&self, i: usize) -> (r: bool)
        requires
            i < self@.len(),
        ensures
            r == self@[i as int].component is Prefix,
    {
        assert(self@[i as int] == self.parts@[i as int]@);
        match &self.parts[i].component {
            Component::Prefix(_) => true,
            _ => false,
        }
    }

    /// Whether the path begins with a leading `.`.
    fn starts_at_current(&self) -> (r: bool)
        ensures
            r == (self@.len() > 0 && self@[0].component is Current),
    {
        if self.parts.len() == 0 {
            return false;
        }
        assert(self@[0] == self.parts@[0]@);
        match &self.parts[0].component {
            Component::Current => true,
            _ => false,
        }
    }

    /// Puts more behind the last component.
    fn extend_gap(&mut self, more: &Vec<u8>)
        requires
            old(self)@.len() > 0,
        ensures
            final(self)@ == with_gap(old(self)@, more@),
    {
        let ghost before = self@;
        let last = self.parts.pop();
        if let Some(part) = last {
            assert(part@ == before.last());
            let PathPart { component, text, mut gap } = part;
            append_bytes(&mut gap, more);
            self.parts.push(PathPart { component, text, gap });
        }
        assert(self@ =~= with_gap(before, more@));
    }

    /// Removes what stands behind the last component.
    fn trim(&mut self)
        ensures
            final(self)@ == trimmed(old(self)@),
    {
        let ghost before = self@;
        let last = self.parts.pop();
        if let Some(part) = last {
            assert(part@ == before.last());
            let PathPart { component, text, gap: _ } = part;
            let gap: Vec<u8> = Vec::new();
            assert(gap@ =~= Seq::empty());
            self.parts.push(PathPart { component, text, gap });
        }
        assert(self@ =~= trimmed(before));
    }

    /// How the path is spelled.
    pub fn bytes(&self) -> (out: Vec<u8>)
        ensures
            out@ == spelling(self@),
    {
        let mut out: Vec<u8> = Vec::new();
        let mut i: usize = 0;
        assert(self@.take(0) =~= Seq::empty());
        while i < self.parts.len()
            invariant
                i <= self@.len(),
                out@ == spelling(self@.take(i as int)),
            decreases self@.len() - i,
        {
            assert(self@.take(i + 1).drop_last() =~= self@.take(i as int));
            assert(self@.take(i + 1).last() == self.parts@[i as int]@);
            append_bytes(&mut out, &self.parts[i].text);
            append_bytes(&mut out, &self.parts[i].gap);
            i += 1;
        }
        assert(self@.take(self@.len() as int) =~= self@);
        out
    }

    /// Makes the path ready to be followed by another.
    fn make_room(&mut self, windows: bool)
        ensures
            final(self)@ == opened(old(self)@, windows),
    {
        let n = self.parts.len();
        if n == 0 {
            return;
        }
        let bytes = self.bytes();
        if bytes.len() == 0 {
            return;
        }
        let end: u8 = bytes[bytes.len() - 1];
        if end == 47 || windows && end == 92 {
            return;
        }
        assert(self@[0] == self.parts@[0]@);
        if n == 1 && self.prefix_at(0) && self.parts[0].text.len() == 2 && self.parts[0].gap.len()
            == 0 {
            return;
        }
        let mut separator: Vec<u8> = Vec::new();
        separator.push(if windows { 92 } else { 47 });
        assert(separator@ =~= seq![main_separator(windows)]);
        self.extend_gap(&separator);
    }

    /// Puts the components of another path behind these.
    fn append(&mut self, mut rest: FilePath)
        ensures
            final(self)@ == old(self)@ + rest@,
    {
        let ghost a = self@;
        let ghost b = rest@;
        self.parts.append(&mut rest.parts);
        assert(self@ =~= a + b);
    }

    /// Whether the path has a prefix below which every component is taken
    /// literally.
    fn has_verbatim_prefix(&self) -> (r: bool)
        ensures
            r == is_verbatim(self@),
    {
        if self.parts.len() == 0 || !self.prefix_at(0) {
            return false;
        }
        assert(self@[0] == self.parts@[0]@);
        let text = &self.parts[0].text;
        text.len() >= 4 && text[0] == 92 && text[1] == 92 && text[2] == 63 && text[3] == 92
    }

    /// Follows the components of another path.
    fn follow(&mut self, rel: &FilePath)
        ensures
            final(self)@ == followed(old(self)@, rel@),
    {
        let ghost base = self@;
        let mut i: usize = 0;
        assert(rel@.take(0) =~= Seq::empty());
        while i < rel.parts.len()
            invariant
                i <= rel@.len(),
                self@ == followed(base, rel@.take(i as int)),
            decreases rel@.len() - i,
        {
            let ghost before = self@;
            assert(rel@.take(i + 1).drop_last() =~= rel@.take(i as int));
            assert(rel@.take(i + 1).last() == rel.parts@[i as int]@);
            let n = self.parts.len();
            match &rel.parts[i].component {
                Component::Root => {
                    self.parts.truncate(1);
                    assert(self@ =~= before.take(
                        if before.len() > 1 {
                            1
                        } else {
                            before.len() as int
                        },
                    ));
                    self.parts.push(rel.parts[i].clone());
                },
                Component::Current => {},
                Component::Parent => {
                    if n > 0 {
                        assert(before.last() == self.parts@[n - 1]@);
                        let is_name = match &self.parts[n - 1].component {
                            Component::Name(_) => true,
                            _ => false,
                        };
                        if is_name {
                            self.parts.pop();
                            assert(self@ =~= before.drop_last());
                        }
                    }
                },
                _ => {
                    self.parts.push(rel.parts[i].clone());
                },
            }
            assert(self@ =~= followed(base, rel@.take(i + 1)));
            i += 1;
        }
        assert(rel@.take(rel@.len() as int) =~= rel@);
    }

    /// Whether the component at `i` is the root.
    fn root_at(&self, i: usize) -> (r: bool)
        requires
            i < self@.len(),
        ensures
            r == self@[i as int].component is Root,
    {
        assert(self@[i as int] == self.parts@[i as int]@);
        match &self.parts[i].component {
            Component::Root => true,
            _ => false,
        }
    }

    /// The path spelled anew, with backslashes between its components.
    fn respell(&self) -> (r: FilePath)
        ensures
            r@ == respelled(self@),
    {
        let mut parts: Vec<PathPart> = Vec::new();
        let n = self.parts.len();
        let mut i: usize = 0;
        while i < n
            invariant
                n == self@.len(),
                i <= n,
                parts@.len() == i,
                forall|k: int| 0 <= k < i ==> (#[trigger] parts@[k])@ == respelled_part(self@, k),
            decreases n - i,
        {
            let root = self.root_at(i);
            let PathPart { component, text, gap: _ } = self.parts[i].clone();
            let mut backslash: Vec<u8> = Vec::new();
            backslash.push(92);
            assert(backslash@ =~= seq![92u8]);
            let gap: Vec<u8> = if i + 1 < n && !self.root_at(i + 1) && !root {
                copy_bytes(&backslash)
            } else {
                Vec::new()
            };
            let text = if root {
                backslash
            } else {
                text
            };
            let part = PathPart { component, text, gap };
            assert(self@[i as int] == self.parts@[i as int]@);
            assert(part@ =~= respelled_part(self@, i as int));
            parts.push(part);
            i += 1;
        }
        let r = FilePath { parts };
        assert(r@ =~= respelled(self@));
        r
    }

    /// This path followed by `rel`. A path with a prefix of its own replaces
    /// this one, and one that starts at the root replaces all of it but its
    /// prefix. What follows a verbatim prefix is spelled anew.
    pub fn join(&self, rel: &FilePath, windows: bool) -> (r: FilePath)
        ensures
            r@ == joined(self@, rel@, windows),
    {
        let n = self.parts.len();
        if rel.parts.len() > 0 && rel.prefix_at(0) {
            return rel.clone();
        }
        if rel.parts.len() > 0 && self.has_verbatim_prefix() {
            let mut r = self.clone();
            r.follow(rel);
            return r.respell();
        }
        if rel.parts.len() > 0 && rel.root_at(0) {
            if n > 0 && self.prefix_at(0) {
                let mut r = FilePath { parts: Vec::new() };
                r.parts.push(self.parts[0].clone());
                assert(r@ =~= self@.take(1));
                r.trim();
                r.append(rel.clone());
                return r;
            }
            return rel.clone();
        }
        let mut r = self.clone();
        r.make_room(windows);
        if n > 0 && !(n == 1 && self.prefix_at(0)) && rel.starts_at_current() {
            assert(rel@[0] == rel.parts@[0]@);
            let mut more = copy_bytes(&rel.parts[0].text);
            append_bytes(&mut more, &rel.parts[0].gap);
            r.extend_gap(&more);
            r.append(rel.tail(1));
            assert(rel@.skip(1) =~= rel@.drop_first());
        } else {
            r.append(rel.clone());
        }
        r
    }

    /// The path without its last component.
    pub fn parent(&self) -> (r: Option<FilePath>)
        ensures
            match r {
                Some(p) => parent_of(self@) == Some(p@),
                None => parent_of(self@) is None,
            },
    {
        let n = self.parts.len();
        if n == 0 || self.anchor_at(n - 1) {
            return None;
        }
        let mut r = self.clone();
        let ghost whole = r@;
        r.parts.pop();
        assert(r@ =~= whole.drop_last());
        r.trim();
        Some(r)
    }

    /// How two paths are ordered.
    pub fn relate(&self, other: &FilePath) -> (r: Rel)
        ensures
            r is Before <==> path_before(components(self@), components(other@)),
            r is Same <==> components(self@) == components(other@),
            r is After <==> path_before(components(other@), components(self@)),
    {
        let mut i: usize = 0;
        let ghost a = components(self@);
        let ghost b = components(other@);
        assert(a.skip(0) =~= a && b.skip(0) =~= b);
        while i < self.parts.len() && i < other.parts.len()
            invariant
                a == components(self@),
                b == components(other@),
                i <= a.len(),
                i <= b.len(),
                a.take(i as int) == b.take(i as int),
                path_before(a, b) == path_before(a.skip(i as int), b.skip(i as int)),
                path_before(b, a) == path_before(b.skip(i as int), a.skip(i as int)),
            decreases a.len() - i,
        {
            let ghost x = a.skip(i as int);
            let ghost y = b.skip(i as int);
            assert(x[0] == self.parts@[i as int]@.component);
            assert(y[0] == other.parts@[i as int]@.component);
            assert(x[0] == a[i as int] && y[0] == b[i as int]);
            let r = self.parts[i].component.relate(&other.parts[i].component);
            match r {
                Rel::Same => {},
                _ => {
                    proof {
                        lemma_component_order(x[0], y[0], y[0]);
                        lemma_component_order(y[0], x[0], x[0]);
                        assert(a != b);
                    }
                    return r;
                },
            }
            assert(x.drop_first() =~= a.skip(i + 1));
            assert(y.drop_first() =~= b.skip(i + 1));
            assert(a.take(i + 1) =~= a.take(i as int).push(a[i as int]));
            assert(b.take(i + 1) =~= b.take(i as int).push(b[i as int]));
            i += 1;
        }
        proof {
            assert(a.skip(i as int).len() == a.len() - i && b.skip(i as int).len() == b.len() - i);
            if i == a.len() && i == b.len() {
                assert(a.take(i as int) =~= a);
                assert(b.take(i as int) =~= b);
            }
        }
        if i == self.parts.len() {
            if i == other.parts.len() {
                Rel::Same
            } else {
                Rel::Before
            }
        } else {
            Rel::After
        }
    }

    /// The part below `base`, as it is spelled here.
    pub fn strip_prefix(&self, base: &FilePath) -> (r: Option<FilePath>)
        ensures
            match r {
                Some(p) => stripped(self@, base@) == Some(p@),
                None => stripped(self@, base@) is None,
            },
    {
        let n = base.parts.len();
        if n > self.parts.len() {
            return None;
        }
        let ghost a = components(self@.take(n as int));
        let ghost b = components(base@);
        let mut i: usize = 0;
        while i < n
            invariant
                i <= n,
                n == base@.len(),
                n <= self@.len(),
                a == components(self@.take(n as int)),
                b == components(base@),
                forall|k: int| 0 <= k < i ==> a[k] == b[k],
            decreases n - i,
        {
            assert(a[i as int] == self.parts@[i as int]@.component);
            assert(b[i as int] == base.parts@[i as int]@.component);
            match self.parts[i].component.relate(&base.parts[i].component) {
                Rel::Same => {},
                _ => {
                    assert(a[i as int] != b[i as int]);
                    return None;
                },
            }
            i += 1;
        }
        assert(a =~= b);
        let mut r = self.tail(n);
        r.trim();
        Some(r)
    }

    /// The path as text: its spelling, with replacements for what is no text.
    pub fn display(&self) -> (out: String)
        ensures
            out@ == path_text(self@),
            utf8::valid_utf8(spelling(self@)) ==> out@ == utf8::decode_utf8(spelling(self@)),
    {
        let bytes = self.bytes();
        text::decode_lossy(bytes.as_slice())
    }
}

/// A path as text.
pub open spec fn path_text(path: Seq<PartView>) -> Seq<char> {
    text::utf8_lossy(spelling(path))
}

/// What is shown of a path: what lies below the working directory, or all of it
/// where it does not lie below it.
pub open spec fn shown_part(path: Seq<PartView>, cwd: Seq<PartView>) -> Seq<PartView> {
    match stripped(path, cwd) {
        Some(rel) => rel,
        None => path,
    }
}

/// How a path is shown: relative to the working directory where it lies below
/// it, in full elsewhere.
pub open spec fn shown_path(path: Seq<PartView>, cwd: Seq<PartView>) -> Seq<char> {
    path_text(shown_part(path, cwd))
}

/// The text under which a file is shown.
pub fn display_path(path: &FilePath, cwd: &FilePath) -> (out: String)
    ensures
        out@ == shown_path(path@, cwd@),
        utf8::valid_utf8(spelling(shown_part(path@, cwd@))) ==> out@ == utf8::decode_utf8(
            spelling(shown_part(path@, cwd@)),
        ),
{
    match path.strip_prefix(cwd) {
        Some(rel) => rel.display(),
        None => path.display(),
    }
}

proof fn lemma_bytes_order(a: Seq<u8>, b: Seq<u8>, c: Seq<u8>)
    ensures
        !bytes_before(a, a),
        bytes_before(a, b) && bytes_before(b, c) ==> bytes_before(a, c),
        bytes_before(a, b) || a == b || bytes_before(b, a),
        !(bytes_before(a, b) && bytes_before(b, a)),
    decreases a.len() + b.len() + c.len(),
{
    if a.len() > 0 {
        lemma_bytes_order(a.drop_first(), Seq::empty(), Seq::empty());
        if b.len() > 0 {
            lemma_bytes_order(
                a.drop_first(),
                b.drop_first(),
                if c.len() > 0 {
                    c.drop_first()
                } else {
                    c
                },
            );
            if a[0] == b[0] && a.drop_first() == b.drop_first() {
                assert(a =~= seq![a[0]] + a.drop_first());
                assert(b =~= seq![b[0]] + b.drop_first());
            }
        }
    } else if b.len() == 0 {
        assert(a =~= b);
    }
}

proof fn lemma_component_order(a: ComponentView, b: ComponentView, c: ComponentView)
    ensures
        !component_before(a, a),
        component_before(a, b) && component_before(b, c) ==> component_before(a, c),
        component_before(a, b) || a == b || component_before(b, a),
        !(component_before(a, b) && component_before(b, a)),
{
    lemma_bytes_order(component_bytes(a), component_bytes(b), component_bytes(c));
}

/// Paths are totally ordered: no path comes before itself, order carries over,
/// and of two different paths exactly one comes first.
pub proof fn law_path_order_is_total(a: Seq<ComponentView>, b: Seq<ComponentView>, c: Seq<ComponentView>)
    ensures
        !path_before(a, a),
        path_before(a, b) && path_before(b, c) ==> path_before(a, c),
        path_before(a, b) || a == b || path_before(b, a),
        !(path_before(a, b) && path_before(b, a)),
    decreases a.len() + b.len() + c.len(),
{
    if a.len() > 0 {
        law_path_order_is_total(a.drop_first(), Seq::empty(), Seq::empty());
        if b.len() > 0 {
            lemma_component_order(
                a[0],
                b[0],
                if c.len() > 0 {
                    c[0]
                } else {
                    b[0]
                },
            );
            if c.len() > 0 {
                lemma_component_order(a[0], c[0], b[0]);
                lemma_component_order(b[0], c[0], a[0]);
            }
            law_path_order_is_total(
                a.drop_first(),
                b.drop_first(),
                if c.len() > 0 {
                    c.drop_first()
                } else {
                    c
                },
            );
            if a[0] == b[0] && a.drop_first() == b.drop_first() {
                assert(a =~= seq![a[0]] + a.drop_first());
                assert(b =~= seq![b[0]] + b.drop_first());
            }
        }
    } else if b.len() == 0 {
        assert(a =~= b);
    }
}

/// A path joined to a directory is spelled with the directory in front, and a
/// separator between the two where one is needed. (What follows a verbatim
/// prefix is spelled anew.)
pub proof fn law_join_keeps_spellings(base: Seq<PartView>, rel: Seq<PartView>, windows: bool)
    requires
        !is_verbatim(base),
        rel.len() > 0 ==> !is_anchor(rel[0].component),
    ensures
        spelling(joined(base, rel, windows)) == spelling(base) + (if needs_separator(base, windows) {
            seq![main_separator(windows)]
        } else {
            Seq::empty()
        }) + spelling(rel),
{
    let head = opened(base, windows);
    if base.len() > 0 {
        lemma_with_gap(base, seq![main_separator(windows)]);
    }
    let start = spelling(base) + (if needs_separator(base, windows) {
        seq![main_separator(windows)]
    } else {
        Seq::empty()
    });
    assert(spelling(head) =~= start);
    if base.len() > 0 && !is_bare_prefix(base) && rel.len() > 0 && rel[0].component is Current {
        let more = rel[0].text + rel[0].gap;
        lemma_with_gap(head, more);
        lemma_spelling_concat(with_gap(head, more), rel.drop_first());
        lemma_spelling_concat(seq![rel[0]], rel.drop_first());
        assert(seq![rel[0]] + rel.drop_first() =~= rel);
        reveal_with_fuel(spelling, 2);
        assert(seq![rel[0]].drop_last() =~= Seq::<PartView>::empty());
        assert(spelling(seq![rel[0]]) =~= more);
        assert(spelling(joined(base, rel, windows)) =~= start + spelling(rel));
    } else {
        lemma_spelling_concat(head, rel);
    }
}

proof fn lemma_with_gap(path: Seq<PartView>, more: Seq<u8>)
    requires
        path.len() > 0,
    ensures
        spelling(with_gap(path, more)) == spelling(path) + more,
        components(with_gap(path, more)) == components(path),
{
    let longer = with_gap(path, more);
    assert(longer.drop_last() =~= path.drop_last());
    assert(spelling(longer) =~= spelling(path) + more);
    assert(components(longer) =~= components(path));
}

proof fn lemma_spelling_concat(a: Seq<PartView>, b: Seq<PartView>)
    ensures
        spelling(a + b) == spelling(a) + spelling(b),
    decreases b.len(),
{
    if b.len() == 0 {
        assert(a + b =~= a);
        assert(spelling(a) + spelling(b) =~= spelling(a));
    } else {
        assert((a + b).drop_last() =~= a + b.drop_last());
        lemma_spelling_concat(a, b.drop_last());
        assert(spelling(a + b) =~= spelling(a) + spelling(b));
    }
}

/// A relative path joined to a directory lies below it, and stripping the
/// directory gives the relative path back, without separators at its end. (What
/// follows a verbatim prefix is spelled anew.)
pub proof fn law_strip_undoes_join(base: Seq<PartView>, rel: Seq<PartView>, windows: bool)
    requires
        !is_verbatim(base),
        rel.len() > 0 ==> !is_anchor(rel[0].component) && !(rel[0].component is Current),
    ensures
        stripped(joined(base, rel, windows), base) == Some(trimmed(rel)),
{
    let head = opened(base, windows);
    if base.len() > 0 {
        lemma_with_gap(base, seq![main_separator(windows)]);
    }
    let path = head + rel;
    assert(path.take(base.len() as int) =~= head);
    assert(path.skip(base.len() as int) =~= rel);
}

/// The spelling of a path is that of its parts, one behind the other.
pub proof fn law_spelling(a: Seq<PartView>, b: Seq<PartView>, part: PartView)
    ensures
        spelling(Seq::empty()) == Seq::<u8>::empty(),
        spelling(seq![part]) == part.text + part.gap,
        spelling(a + b) == spelling(a) + spelling(b),
{
    reveal_with_fuel(spelling, 2);
    assert(seq![part].drop_last() =~= Seq::<PartView>::empty());
    assert(spelling(seq![part]) =~= part.text + part.gap);
    lemma_spelling_concat(a, b);
}

/// Where paths have no prefixes and a slash separates, a relative path is
/// spelled behind a directory with a slash between the two, unless the
/// directory is empty or ends in one.
pub proof fn law_join_with_slash(base: Seq<PartView>, rel: Seq<PartView>)
    requires
        forall|i: int| 0 <= i < base.len() ==> !((#[trigger] base[i]).component is Prefix),
        rel.len() > 0 ==> !is_anchor(rel[0].component),
    ensures
        ({
            let bytes = spelling(base);
            spelling(joined(base, rel, false)) == if bytes.len() == 0 || bytes[bytes.len() - 1]
                == 47 {
                bytes + spelling(rel)
            } else {
                bytes.push(47) + spelling(rel)
            }
        }),
{
    if base.len() > 0 {
        assert(!(base[0].component is Prefix));
    }
    law_join_keeps_spellings(base, rel, false);
    let bytes = spelling(base);
    assert(bytes + Seq::empty() =~= bytes);
    assert(bytes + seq![47u8] =~= bytes.push(47));
}

/// A path that starts at the root replaces one without a prefix.
pub proof fn law_rooted_path_replaces(base: Seq<PartView>, rel: Seq<PartView>, windows: bool)
    requires
        rel.len() > 0,
        rel[0].component is Root,
        base.len() > 0 ==> !(base[0].component is Prefix),
    ensures
        joined(base, rel, windows) == rel,
{
}

/// The parent of a path has its components without the last one, and ends with
/// the last of them. Only an empty path, a root and a prefix have none.
pub proof fn law_parent(path: Seq<PartView>)
    ensures
        match parent_of(path) {
            Some(p) => {
                &&& path.len() > 0
                &&& components(p).push(path[path.len() - 1].component) == components(path)
                &&& p.len() > 0 ==> p[p.len() - 1].gap.len() == 0 && p[p.len() - 1].text
                    == path[path.len() - 2].text
            },
            None => path.len() == 0 || path[path.len() - 1].component is Root
                || path[path.len() - 1].component is Prefix,
        },
{
    if let Some(p) = parent_of(path) {
        assert(components(p).push(path.last().component) =~= components(path));
    }
}

/// A path lies below another exactly when its first components are those of the
/// other, and what lies below has the rest of them.
pub proof fn law_below(path: Seq<PartView>, base: Seq<PartView>)
    ensures
        stripped(path, base) is Some <==> base.len() <= path.len() && (forall|i: int|
            0 <= i < base.len() ==> (#[trigger] base[i]).component == path[i].component),
        stripped(path, base) matches Some(rest) ==> rest.len() == path.len() - base.len() && (
        forall|i: int|
            0 <= i < rest.len() ==> (#[trigger] rest[i]).component == path[base.len() + i].component
                && rest[i].text == path[base.len() + i].text),
{
    if base.len() <= path.len() {
        let front = components(path.take(base.len() as int));
        let wanted = components(base);
        if front == wanted {
            assert forall|i: int| 0 <= i < base.len() implies (#[trigger] base[i]).component
                == path[i].component by {
                assert(front[i] == wanted[i]);
            }
        }
        if forall|i: int| 0 <= i < base.len() ==> (#[trigger] base[i]).component
            == path[i].component {
            assert(front =~= wanted);
        }
    }
}

/// Paths are ordered by their first components that differ, and a path comes
/// before any longer one that it begins. A prefix comes before a root, a root
/// before `.`, this before `..`, and this before a name; names are ordered by
/// their bytes.
pub proof fn law_path_order(a: Seq<ComponentView>, b: Seq<ComponentView>, k: int)
    requires
        0 <= k <= a.len(),
        k < b.len(),
        a.take(k) == b.take(k),
        k < a.len() ==> a[k] != b[k],
    ensures
        k == a.len() ==> path_before(a, b),
        k < a.len() && a[k] is Prefix && !(b[k] is Prefix) ==> path_before(a, b),
        k < a.len() && a[k] is Root && (b[k] is Current || b[k] is Parent || b[k] is Name)
            ==> path_before(a, b),
        k < a.len() && a[k] is Current && (b[k] is Parent || b[k] is Name) ==> path_before(a, b),
        k < a.len() && a[k] is Parent && b[k] is Name ==> path_before(a, b),
        k < a.len() ==> (a[k] matches ComponentView::Name(x) ==> (b[k] matches ComponentView::Name(
            y,
        ) ==> (path_before(a, b) <==> bytes_before(x, y)))),
    decreases k,
{
    if k > 0 {
        assert(a[0] == a.take(k)[0]);
        assert(b[0] == b.take(k)[0]);
        let x = a.drop_first();
        let y = b.drop_first();
        assert(x.take(k - 1) =~= a.take(k).drop_first());
        assert(y.take(k - 1) =~= b.take(k).drop_first());
        law_path_order(x, y, k - 1);
    }
}

/// Names are ordered by their first bytes that differ, and a name comes before
/// any longer one that it begins.
pub proof fn law_bytes_order(a: Seq<u8>, b: Seq<u8>, k: int)
    requires
        0 <= k <= a.len(),
        k < b.len(),
        a.take(k) == b.take(k),
        k < a.len() ==> a[k] != b[k],
    ensures
        bytes_before(a, b) <==> k == a.len() || a[k] < b[k],
    decreases k,
{
    if k > 0 {
        assert(a[0] == a.take(k)[0]);
        assert(b[0] == b.take(k)[0]);
        let x = a.drop_first();
        let y = b.drop_first();
        assert(x.take(k - 1) =~= a.take(k).drop_first());
        assert(y.take(k - 1) =~= b.take(k).drop_first());
        law_bytes_order(x, y, k - 1);
    }
}

/// Names joined to a directory with a verbatim prefix follow its components, and
/// a backslash stands between any two components that the root does not part.
pub proof fn law_verbatim_join(base: Seq<PartView>, rel: Seq<PartView>, windows: bool)
    requires
        is_verbatim(base),
        rel.len() > 0,
        forall|i: int| 0 <= i < rel.len() ==> (#[trigger] rel[i]).component is Name,
    ensures
        ({
            let path = joined(base, rel, windows);
            &&& components(path) == components(base) + components(rel)
            &&& forall|i: int|
                0 <= i < path.len() - 1 && !((#[trigger] path[i]).component is Root) && !(path[i
                    + 1].component is Root) ==> path[i].gap == seq![92u8]
            &&& path[path.len() - 1].gap.len() == 0
            &&& forall|i: int|
                0 <= i < rel.len() ==> path[base.len() + i].text == (#[trigger] rel[i]).text
        }),
{
    assert(rel[0].component is Name);
    lemma_followed_names(base, rel);
    let path = joined(base, rel, windows);
    assert(components(path) =~= components(base) + components(rel));
    assert forall|i: int| 0 <= i < rel.len() implies path[base.len() + i].text == (
    #[trigger] rel[i]).text by {
        assert((base + rel)[base.len() + i] == rel[i]);
    }
}

proof fn lemma_followed_names(base: Seq<PartView>, rel: Seq<PartView>)
    requires
        forall|i: int| 0 <= i < rel.len() ==> (#[trigger] rel[i]).component is Name,
    ensures
        followed(base, rel) == base + rel,
    decreases rel.len(),
{
    if rel.len() == 0 {
        assert(base + rel =~= base);
    } else {
        let init = rel.drop_last();
        assert forall|i: int| 0 <= i < init.len() implies (#[trigger] init[i]).component is Name by {
            assert(init[i] == rel[i]);
        }
        lemma_followed_names(base, init);
        assert(rel[rel.len() - 1].component is Name);
        assert(followed(base, rel) =~= base + rel);
    }
}

/// `..` leads from a name back to what it stands below, and a root back to the
/// prefix.
pub proof fn law_verbatim_parent(base: Seq<PartView>, part: PartView)
    requires
        is_verbatim(base),
        base.len() > 1,
    ensures
        part.component is Parent && base[base.len() - 1].component is Name ==> followed(
            base,
            seq![part],
        ) == base.drop_last(),
        part.component is Current ==> followed(base, seq![part]) == base,
        part.component is Root ==> followed(base, seq![part]) == seq![base[0], part],
{
    reveal_with_fuel(followed, 2);
    assert(seq![part].drop_last() =~= Seq::<PartView>::empty());
    assert(base.take(1).push(part) =~= seq![base[0], part]);
}

} // verus!
