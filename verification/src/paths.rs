//! Paths in text: their components, and the order of two paths.
//!
//! Two paths are the same when their components are: repeated and trailing
//! slashes do not count, nor does a `.` behind the first position. Paths are
//! ordered component by component.
use vstd::prelude::*;
use vstd::slice::slice_subrange;

use crate::text::{first_of, lemma_first_of};

verus! {

/// A component of a path, with the text of its name.
pub enum Component {
    /// The root, `/`.
    RootDir,
    /// A `.` at the beginning of a relative path.
    CurDir,
    /// `..`
    ParentDir,
    /// A name.
    Normal(Vec<char>),
}

/// A component of a path.
pub enum ComponentView {
    RootDir,
    CurDir,
    ParentDir,
    Normal(Seq<char>),
}

impl View for Component {
    type V = ComponentView;

    open spec fn view(&self) -> ComponentView {
        match self {
            Component::RootDir => ComponentView::RootDir,
            Component::CurDir => ComponentView::CurDir,
            Component::ParentDir => ComponentView::ParentDir,
            Component::Normal(name) => ComponentView::Normal(name@),
        }
    }
}

// ---------- components ----------

/// What stands between the slashes of `s`.
pub open spec fn pieces(s: Seq<char>) -> Seq<Seq<char>>
    decreases s.len(),
{
    let n = first_of(s, '/') as int;
    if n >= s.len() {
        seq![s]
    } else {
        seq![s.take(n)] + pieces(s.skip(n + 1))
    }
}

/// The component that a piece stands for: none if it is empty or `.`.
pub open spec fn component_of(piece: Seq<char>) -> Seq<ComponentView> {
    if piece == seq!['.', '.'] {
        seq![ComponentView::ParentDir]
    } else if piece.len() == 0 || piece == seq!['.'] {
        Seq::empty()
    } else {
        seq![ComponentView::Normal(piece)]
    }
}

/// The components that a row of pieces stands for.
pub open spec fn components_of(row: Seq<Seq<char>>) -> Seq<ComponentView>
    decreases row.len(),
{
    if row.len() == 0 {
        Seq::empty()
    } else {
        components_of(row.drop_last()) + component_of(row.last())
    }
}

/// What a path begins with: the root, a leading `.`, or neither.
pub open spec fn anchor(path: Seq<char>) -> Seq<ComponentView> {
    if path.len() > 0 && path[0] == '/' {
        seq![ComponentView::RootDir]
    } else if pieces(path)[0] == seq!['.'] {
        seq![ComponentView::CurDir]
    } else {
        Seq::empty()
    }
}

/// The components of a path.
pub open spec fn components(path: Seq<char>) -> Seq<ComponentView> {
    anchor(path) + components_of(pieces(path))
}

/// Whether two texts name the same path.
pub open spec fn same_path(a: Seq<char>, b: Seq<char>) -> bool {
    components(a) == components(b)
}

/// The views of a row of components.
pub open spec fn component_views(row: Seq<Component>) -> Seq<ComponentView> {
    row.map_values(|c: Component| c@)
}

/// The components of a path.
pub fn split_path(path: &[char]) -> (out: Vec<Component>)
    ensures
        component_views(out@) == components(path@),
{
    let mut out: Vec<Component> = Vec::new();
    if path.len() > 0 && path[0] == '/' {
        out.push(Component::RootDir);
    } else if path.len() > 0 && path[0] == '.' && (path.len() == 1 || path[1] == '/') {
        proof {
            lemma_first_of(path@, '/', 1);
            assert(path@.take(1) == seq!['.']);
            if path@.len() == 1 {
                assert(path@ == seq!['.']);
            }
        }
        out.push(Component::CurDir);
    } else {
        proof {
            lemma_first_piece(path@);
        }
    }
    assert(component_views(out@) == anchor(path@));
    let ghost head = anchor(path@);
    let mut start: usize = 0;
    let mut i: usize = 0;
    let ghost mut done: Seq<Seq<char>> = Seq::empty();
    assert(path@.skip(0) == path@);
    assert(done + pieces(path@) == pieces(path@));
    assert(head + components_of(done) == head);
    while i < path.len()
        invariant
            start <= i <= path.len(),
            forall|j: int| start <= j < i ==> path@[j] != '/',
            done + pieces(path@.skip(start as int)) == pieces(path@),
            component_views(out@) == head + components_of(done),
        decreases path.len() - i,
    {
        if path[i] == '/' {
            let piece = slice_subrange(path, start, i);
            proof {
                let rest = path@.skip(start as int);
                lemma_first_of(rest, '/', i - start);
                assert(rest.take(i - start) == piece@);
                assert(rest.skip(i - start + 1) == path@.skip(i + 1));
                assert(done + (seq![piece@] + pieces(path@.skip(i + 1))) == done.push(piece@)
                    + pieces(path@.skip(i + 1)));
            }
            push_piece(&mut out, piece);
            proof {
                assert(done.push(piece@).drop_last() == done);
                assert(head + (components_of(done) + component_of(piece@)) == head + components_of(
                    done,
                ) + component_of(piece@));
                done = done.push(piece@);
            }
            start = i + 1;
        }
        i += 1;
    }
    let piece = slice_subrange(path, start, path.len());
    proof {
        let rest = path@.skip(start as int);
        lemma_first_of(rest, '/', rest.len() as int);
        assert(rest == piece@);
        assert(done + seq![piece@] == done.push(piece@));
        assert(done.push(piece@).drop_last() == done);
        assert(head + (components_of(done) + component_of(piece@)) == head + components_of(done)
            + component_of(piece@));
    }
    push_piece(&mut out, piece);
    out
}

proof fn lemma_first_piece(path: Seq<char>)
    requires
        !(path.len() > 0 && path[0] == '.' && (path.len() == 1 || path[1] == '/')),
    ensures
        pieces(path)[0] != seq!['.'],
{
    let n = first_of(path, '/') as int;
    lemma_first_of_bounds(path, '/');
    if n >= path.len() {
        assert(pieces(path)[0] == path);
        if path == seq!['.'] {
            assert(path[0] == '.');
        }
    } else {
        assert(pieces(path)[0] == path.take(n));
        if path.take(n) == seq!['.'] {
            assert(path.take(n)[0] == '.');
            assert(path[1] == '/');
        }
    }
}

proof fn lemma_first_of_bounds(s: Seq<char>, c: char)
    ensures
        first_of(s, c) <= s.len(),
        first_of(s, c) < s.len() ==> s[first_of(s, c) as int] == c,
    decreases s.len(),
{
    if s.len() > 0 && s[0] != c {
        lemma_first_of_bounds(s.skip(1), c);
    }
}

fn push_piece(out: &mut Vec<Component>, piece: &[char])
    ensures
        component_views(final(out)@) == component_views(old(out)@) + component_of(piece@),
{
    if piece.len() == 2 && piece[0] == '.' && piece[1] == '.' {
        assert(piece@ == seq!['.', '.']);
        out.push(Component::ParentDir);
        assert(component_views(out@) == component_views(old(out)@).push(ComponentView::ParentDir));
    } else if piece.len() == 0 || (piece.len() == 1 && piece[0] == '.') {
        proof {
            if piece@.len() == 1 {
                assert(piece@ == seq!['.']);
            }
            assert(piece@ != seq!['.', '.']);
        }
        assert(component_views(old(out)@) + Seq::<ComponentView>::empty() == component_views(
            old(out)@,
        ));
    } else {
        proof {
            if piece@ == seq!['.', '.'] {
                assert(piece@[0] == '.' && piece@[1] == '.');
            }
            if piece@ == seq!['.'] {
                assert(piece@[0] == '.');
            }
        }
        let name = vstd::slice::slice_to_vec(piece);
        out.push(Component::Normal(name));
        assert(component_views(out@) == component_views(old(out)@).push(
            ComponentView::Normal(piece@),
        ));
    }
}

// ---------- order ----------

/// Whether text `a` goes before text `b`: by the first character in which they differ.
pub open spec fn text_before(a: Seq<char>, b: Seq<char>) -> bool
    decreases a.len(),
{
    if b.len() == 0 {
        false
    } else if a.len() == 0 {
        true
    } else if a[0] != b[0] {
        (a[0] as u32) < (b[0] as u32)
    } else {
        text_before(a.skip(1), b.skip(1))
    }
}

/// The root goes before a leading `.`, that before `..`, and that before names.
pub open spec fn rank_of(c: ComponentView) -> int {
    match c {
        ComponentView::RootDir => 0,
        ComponentView::CurDir => 1,
        ComponentView::ParentDir => 2,
        ComponentView::Normal(_) => 3,
    }
}

/// Whether component `a` goes before component `b`.
pub open spec fn component_before(a: ComponentView, b: ComponentView) -> bool {
    match (a, b) {
        (ComponentView::Normal(x), ComponentView::Normal(y)) => text_before(x, y),
        _ => rank_of(a) < rank_of(b),
    }
}

/// Whether row `a` goes before row `b`: by the first component in which they differ.
pub open spec fn components_before(a: Seq<ComponentView>, b: Seq<ComponentView>) -> bool
    decreases a.len(),
{
    if b.len() == 0 {
        false
    } else if a.len() == 0 {
        true
    } else if a[0] != b[0] {
        component_before(a[0], b[0])
    } else {
        components_before(a.skip(1), b.skip(1))
    }
}

/// Whether path `a` goes before path `b`.
pub open spec fn path_before(a: Seq<char>, b: Seq<char>) -> bool {
    components_before(components(a), components(b))
}

fn is_text_before(a: &Vec<char>, b: &Vec<char>) -> (r: bool)
    ensures
        r == text_before(a@, b@),
{
    let mut i: usize = 0;
    assert(a@.skip(0) == a@ && b@.skip(0) == b@);
    while i < a.len() && i < b.len() && a[i] == b[i]
        invariant
            i <= a.len(),
            i <= b.len(),
            text_before(a@, b@) == text_before(a@.skip(i as int), b@.skip(i as int)),
        decreases a.len() - i,
    {
        assert(a@.skip(i as int).skip(1) == a@.skip(i + 1));
        assert(b@.skip(i as int).skip(1) == b@.skip(i + 1));
        i += 1;
    }
    if i == b.len() {
        false
    } else if i == a.len() {
        true
    } else {
        (a[i] as u32) < (b[i] as u32)
    }
}

fn is_same_text(a: &Vec<char>, b: &Vec<char>) -> (r: bool)
    ensures
        r == (a@ == b@),
{
    if a.len() != b.len() {
        return false;
    }
    let mut i: usize = 0;
    while i < a.len()
        invariant
            i <= a.len() == b.len(),
            forall|j: int| 0 <= j < i ==> a@[j] == b@[j],
        decreases a.len() - i,
    {
        if a[i] != b[i] {
            return false;
        }
        i += 1;
    }
    assert(a@ == b@);
    true
}

fn is_same_component(a: &Component, b: &Component) -> (r: bool)
    ensures
        r == (a@ == b@),
{
    match (a, b) {
        (Component::RootDir, Component::RootDir) => true,
        (Component::CurDir, Component::CurDir) => true,
        (Component::ParentDir, Component::ParentDir) => true,
        (Component::Normal(x), Component::Normal(y)) => is_same_text(x, y),
        _ => false,
    }
}

fn rank(c: &Component) -> (r: u8)
    ensures
        r == rank_of(c@),
{
    match c {
        Component::RootDir => 0,
        Component::CurDir => 1,
        Component::ParentDir => 2,
        Component::Normal(_) => 3,
    }
}

fn is_component_before(a: &Component, b: &Component) -> (r: bool)
    ensures
        r == component_before(a@, b@),
{
    match (a, b) {
        (Component::Normal(x), Component::Normal(y)) => is_text_before(x, y),
        _ => rank(a) < rank(b),
    }
}

/// Whether row `a` goes before row `b`.
pub fn is_before(a: &Vec<Component>, b: &Vec<Component>) -> (r: bool)
    ensures
        r == components_before(component_views(a@), component_views(b@)),
{
    let ghost x = component_views(a@);
    let ghost y = component_views(b@);
    let mut i: usize = 0;
    assert(x.skip(0) == x && y.skip(0) == y);
    while i < a.len() && i < b.len() && is_same_component(&a[i], &b[i])
        invariant
            i <= a.len(),
            i <= b.len(),
            x == component_views(a@),
            y == component_views(b@),
            components_before(x, y) == components_before(x.skip(i as int), y.skip(i as int)),
        decreases a.len() - i,
    {
        assert(x.skip(i as int).skip(1) == x.skip(i + 1));
        assert(y.skip(i as int).skip(1) == y.skip(i + 1));
        i += 1;
    }
    if i == b.len() {
        false
    } else if i == a.len() {
        true
    } else {
        is_component_before(&a[i], &b[i])
    }
}

/// Whether two rows of components are the same.
pub fn is_same(a: &Vec<Component>, b: &Vec<Component>) -> (r: bool)
    ensures
        r == (component_views(a@) == component_views(b@)),
{
    let ghost x = component_views(a@);
    let ghost y = component_views(b@);
    if a.len() != b.len() {
        assert(x.len() != y.len());
        return false;
    }
    let mut i: usize = 0;
    while i < a.len()
        invariant
            i <= a.len() == b.len(),
            x == component_views(a@),
            y == component_views(b@),
            forall|j: int| 0 <= j < i ==> x[j] == y[j],
        decreases a.len() - i,
    {
        if !is_same_component(&a[i], &b[i]) {
            assert(x[i as int] != y[i as int]);
            return false;
        }
        i += 1;
    }
    assert(x == y);
    true
}

// ---------- the order is total ----------

proof fn lemma_code_points_differ(a: char, b: char)
    ensures
        a as u32 == b as u32 ==> a == b,
{
}

proof fn lemma_text_order(a: Seq<char>, b: Seq<char>, c: Seq<char>)
    ensures
        !text_before(a, a),
        !text_before(a, b) && !text_before(b, a) ==> a == b,
        text_before(a, b) && text_before(b, c) ==> text_before(a, c),
    decreases a.len() + b.len() + c.len(),
{
    if a.len() > 0 {
        let x = a.skip(1);
        let y = if b.len() > 0 { b.skip(1) } else { b };
        let z = if c.len() > 0 { c.skip(1) } else { c };
        lemma_text_order(x, y, z);
        if b.len() > 0 {
            lemma_code_points_differ(a[0], b[0]);
            if a[0] == b[0] && x == y {
                assert(a == seq![a[0]] + x);
                assert(b == seq![b[0]] + y);
            }
        }
    } else if b.len() == 0 {
        assert(a == b);
    }
}

proof fn lemma_component_order(a: ComponentView, b: ComponentView, c: ComponentView)
    ensures
        !component_before(a, a),
        !component_before(a, b) && !component_before(b, a) ==> a == b,
        component_before(a, b) && component_before(b, c) ==> component_before(a, c),
{
    if let ComponentView::Normal(x) = a {
        lemma_text_order(x, x, x);
        if let ComponentView::Normal(y) = b {
            lemma_text_order(x, y, y);
            if let ComponentView::Normal(z) = c {
                lemma_text_order(x, y, z);
            }
        }
    }
}

proof fn lemma_components_order(
    a: Seq<ComponentView>,
    b: Seq<ComponentView>,
    c: Seq<ComponentView>,
)
    ensures
        !components_before(a, a),
        !components_before(a, b) && !components_before(b, a) ==> a == b,
        components_before(a, b) && components_before(b, c) ==> components_before(a, c),
    decreases a.len() + b.len() + c.len(),
{
    if a.len() > 0 {
        let x = a.skip(1);
        let y = if b.len() > 0 { b.skip(1) } else { b };
        let z = if c.len() > 0 { c.skip(1) } else { c };
        lemma_components_order(x, y, z);
        if b.len() > 0 {
            lemma_component_order(a[0], b[0], b[0]);
            if a[0] == b[0] && x == y {
                assert(a == seq![a[0]] + x);
                assert(b == seq![b[0]] + y);
            }
            if c.len() > 0 {
                lemma_component_order(a[0], b[0], c[0]);
                lemma_component_order(a[0], b[0], a[0]);
            }
        }
    } else if b.len() == 0 {
        assert(a == b);
    }
}

/// Paths are totally ordered: a path does not go before itself, of two different
/// paths one goes before the other, and going before is transitive.
pub proof fn law_path_order(a: Seq<char>, b: Seq<char>, c: Seq<char>)
    ensures
        !path_before(a, a),
        path_before(a, b) || path_before(b, a) || same_path(a, b),
        path_before(a, b) && path_before(b, c) ==> path_before(a, c),
{
    lemma_components_order(components(a), components(b), components(c));
}

// ---------- paths under a directory ----------

/// Whether a path begins with all components of `dir`.
pub open spec fn lies_under(path: Seq<char>, dir: Seq<char>) -> bool {
    components(dir).is_prefix_of(components(path))
}

/// Whether a path that begins with the text of `dir` also begins with its components:
/// what follows does not lengthen the last name in `dir`.
pub open spec fn continues(path: Seq<char>, dir: Seq<char>) -> bool {
    ||| dir.len() == 0
    ||| path.len() == dir.len()
    ||| path[dir.len() as int] == '/'
    ||| dir.last() == '/'
    ||| dir.len() > 1 && dir.last() == '.' && dir[dir.len() - 2] == '/'
}

/// Whether what follows `dir` in a path that begins with it does not lengthen the last
/// name in `dir`.
pub fn goes_on(path: &[char], dir: &[char]) -> (b: bool)
    requires
        dir.len() <= path.len(),
    ensures
        b == continues(path@, dir@),
{
    let n = dir.len();
    n == 0 || path.len() == n || path[n] == '/' || dir[n - 1] == '/' || (n > 1 && dir[n - 1] == '.'
        && dir[n - 2] == '/')
}

proof fn lemma_pieces_of_joined(a: Seq<char>, b: Seq<char>)
    ensures
        pieces(a + seq!['/'] + b) == pieces(a) + pieces(b),
    decreases a.len(),
{
    let s = a + seq!['/'] + b;
    let n = first_of(a, '/') as int;
    lemma_first_of_bounds(a, '/');
    assert forall|j: int| 0 <= j < n implies s[j] != '/' by {
        lemma_first_of_none(a, '/', j);
        assert(s[j] == a[j]);
    }
    lemma_first_of(s, '/', n);
    assert(s.take(n) == a.take(n));
    if n >= a.len() {
        assert(a.take(n) == a);
        assert(s.skip(n + 1) == b);
    } else {
        let rest = a.skip(n + 1);
        lemma_pieces_of_joined(rest, b);
        assert(s.skip(n + 1) == rest + seq!['/'] + b);
        assert(seq![a.take(n)] + (pieces(rest) + pieces(b)) == seq![a.take(n)] + pieces(rest)
            + pieces(b));
    }
}

proof fn lemma_first_of_none(s: Seq<char>, c: char, j: int)
    requires
        0 <= j < first_of(s, c),
    ensures
        j < s.len(),
        s[j] != c,
    decreases s.len(),
{
    if j > 0 {
        lemma_first_of_none(s.skip(1), c, j - 1);
    }
}

proof fn lemma_components_of_joined(a: Seq<Seq<char>>, b: Seq<Seq<char>>)
    ensures
        components_of(a + b) == components_of(a) + components_of(b),
    decreases b.len(),
{
    if b.len() == 0 {
        assert(a + b == a);
        assert(components_of(a) + Seq::<ComponentView>::empty() == components_of(a));
    } else {
        assert((a + b).drop_last() == a + b.drop_last());
        assert((a + b).last() == b.last());
        lemma_components_of_joined(a, b.drop_last());
        assert(components_of(a) + (components_of(b.drop_last()) + component_of(b.last()))
            == components_of(a) + components_of(b.drop_last()) + component_of(b.last()));
    }
}

proof fn lemma_components_of_one(piece: Seq<char>)
    ensures
        components_of(seq![piece]) == component_of(piece),
{
    reveal_with_fuel(components_of, 2);
    assert(seq![piece].drop_last() == Seq::<Seq<char>>::empty());
    assert(Seq::<ComponentView>::empty() + component_of(piece) == component_of(piece));
}

/// Joining a path to a directory with a slash appends its components.
proof fn lemma_components_of_path(a: Seq<char>, b: Seq<char>)
    ensures
        components(a + seq!['/'] + b) == anchor(a + seq!['/'] + b) + components_of(pieces(a))
            + components_of(pieces(b)),
        pieces(a + seq!['/'] + b)[0] == pieces(a)[0],
{
    let s = a + seq!['/'] + b;
    lemma_pieces_of_joined(a, b);
    lemma_components_of_joined(pieces(a), pieces(b));
    assert(pieces(a).len() > 0);
    assert(anchor(s) + (components_of(pieces(a)) + components_of(pieces(b))) == anchor(s)
        + components_of(pieces(a)) + components_of(pieces(b)));
}

/// A path that begins with the text of a directory, and does not lengthen the last name
/// in it, lies under the directory.
pub proof fn law_continuation_lies_under(path: Seq<char>, dir: Seq<char>)
    requires
        dir.is_prefix_of(path),
        continues(path, dir),
    ensures
        lies_under(path, dir),
{
    let n = dir.len() as int;
    assert(path.take(n) == dir);
    if n == 0 {
        assert(dir == Seq::<char>::empty());
        assert(pieces(dir) == seq![dir]);
        assert(components_of(pieces(dir)) == Seq::<ComponentView>::empty()) by {
            lemma_components_of_one(dir);
            assert(dir != seq!['.', '.']);
            assert(component_of(dir) == Seq::<ComponentView>::empty());
        }
        assert(dir != seq!['.']);
        assert(components(dir) == Seq::<ComponentView>::empty());
        assert(components(path).take(0) == Seq::<ComponentView>::empty());
    } else if path.len() == n {
        assert(path == dir);
    } else if path[n] == '/' {
        let rest = path.skip(n + 1);
        assert(path == dir + seq!['/'] + rest);
        lemma_components_of_path(dir, rest);
        assert(path[0] == dir[0]);
        assert(anchor(path) == anchor(dir));
        assert(components(path) == components(dir) + components_of(pieces(rest)));
    } else {
        let end = if dir.last() == '/' {
            Seq::<char>::empty()
        } else {
            seq!['.']
        };
        let stem = dir.take(n - 1 - end.len());
        let rest = path.skip(n - end.len());
        assert(dir == stem + seq!['/'] + end);
        assert(path == stem + seq!['/'] + rest);
        lemma_components_of_path(stem, end);
        lemma_components_of_path(stem, rest);
        assert(path[0] == dir[0]);
        assert(anchor(path) == anchor(dir));
        assert(components_of(pieces(end)) == Seq::<ComponentView>::empty()) by {
            if end.len() == 1 {
                lemma_first_of(end, '/', 1);
            }
            assert(pieces(end) == seq![end]);
            lemma_components_of_one(end);
            assert(end != seq!['.', '.']);
            assert(component_of(end) == Seq::<ComponentView>::empty());
        }
        assert(components(dir) == anchor(dir) + components_of(pieces(stem)));
        assert(components(path) == components(dir) + components_of(pieces(rest)));
    }
}

// ---------- components and order, from the characters ----------

proof fn lemma_single_piece(name: Seq<char>)
    requires
        forall|i: int| 0 <= i < name.len() ==> name[i] != '/',
    ensures
        pieces(name) == seq![name],
        components_of(pieces(name)) == component_of(name),
{
    lemma_first_of(name, '/', name.len() as int);
    lemma_components_of_one(name);
}

/// A name behind a directory and a slash adds one component to those of the directory:
/// none if it is empty or `.`, the way up if it is `..`, and else the name itself.
pub proof fn law_name_adds_a_component(dir: Seq<char>, name: Seq<char>)
    requires
        dir.len() > 0,
        forall|i: int| 0 <= i < name.len() ==> name[i] != '/',
    ensures
        name.len() == 0 || name == seq!['.'] ==> components(dir + seq!['/'] + name) == components(
            dir,
        ),
        name == seq!['.', '.'] ==> components(dir + seq!['/'] + name) == components(dir).push(
            ComponentView::ParentDir,
        ),
        name.len() > 0 && name != seq!['.'] && name != seq!['.', '.'] ==> components(
            dir + seq!['/'] + name,
        ) == components(dir).push(ComponentView::Normal(name)),
{
    let path = dir + seq!['/'] + name;
    lemma_components_of_path(dir, name);
    lemma_single_piece(name);
    assert(path[0] == dir[0]);
    assert(anchor(path) == anchor(dir));
    assert(components(path) == components(dir) + component_of(name));
    if name == seq!['.'] {
        assert(name.len() == 1);
        assert(seq!['.', '.'].len() == 2);
    }
}

/// A path that is a single name, and one that is a name behind the root.
pub proof fn law_first_component(name: Seq<char>)
    requires
        forall|i: int| 0 <= i < name.len() ==> name[i] != '/',
    ensures
        name.len() == 0 ==> components(name) == Seq::<ComponentView>::empty() && components(
            seq!['/'] + name,
        ) == seq![ComponentView::RootDir],
        name == seq!['.'] ==> components(name) == seq![ComponentView::CurDir] && components(
            seq!['/'] + name,
        ) == seq![ComponentView::RootDir],
        name == seq!['.', '.'] ==> components(name) == seq![ComponentView::ParentDir]
            && components(seq!['/'] + name) == seq![ComponentView::RootDir].push(
            ComponentView::ParentDir,
        ),
        name.len() > 0 && name != seq!['.'] && name != seq!['.', '.'] ==> components(name)
            == seq![ComponentView::Normal(name)] && components(seq!['/'] + name)
            == seq![ComponentView::RootDir].push(ComponentView::Normal(name)),
{
    let none = Seq::<char>::empty();
    let path = seq!['/'] + name;
    lemma_single_piece(name);
    lemma_single_piece(none);
    lemma_components_of_path(none, name);
    assert(none + seq!['/'] + name == path);
    assert(none != seq!['.', '.'] && none != seq!['.']);
    assert(component_of(none) == Seq::<ComponentView>::empty());
    assert(path[0] == '/');
    assert(components(path) == seq![ComponentView::RootDir] + component_of(name));
    if name.len() > 0 {
        assert(name[0] != '/');
    }
    assert(anchor(name) == if name == seq!['.'] {
        seq![ComponentView::CurDir]
    } else {
        Seq::empty()
    });
    if name == seq!['.'] {
        assert(name.len() == 1);
        assert(seq!['.', '.'].len() == 2);
    }
    assert(components(name) == anchor(name) + component_of(name));
}

/// Names are ordered by the first character in which they differ, by its code point; a name
/// goes before every longer one that begins with it.
pub proof fn law_name_order(p: Seq<char>, x: char, y: char, u: Seq<char>, v: Seq<char>)
    ensures
        x != y ==> text_before(p.push(x) + u, p.push(y) + v) == ((x as u32) < (y as u32)),
        text_before(p, p.push(x) + u),
        !text_before(p.push(x) + u, p),
        !text_before(p, p),
    decreases p.len(),
{
    let a = p.push(x) + u;
    let b = p.push(y) + v;
    if p.len() > 0 {
        let q = p.skip(1);
        law_name_order(q, x, y, u, v);
        assert(a.skip(1) == q.push(x) + u);
        assert(b.skip(1) == q.push(y) + v);
        assert(a[0] == p[0] && b[0] == p[0]);
    } else {
        assert(a[0] == x && b[0] == y);
    }
}

/// Paths are ordered by the first component in which they differ: the root goes before a
/// leading `.`, that before `..`, that before names, and names go by their order. A path
/// goes before every longer one that begins with its components.
pub proof fn law_order_by_components(
    a: Seq<char>,
    b: Seq<char>,
    shared: Seq<ComponentView>,
    x: ComponentView,
    y: ComponentView,
    u: Seq<ComponentView>,
    v: Seq<ComponentView>,
)
    requires
        components(a) == shared.push(x) + u,
    ensures
        components(b) == shared ==> path_before(b, a) && !path_before(a, b),
        components(b) == shared.push(y) + v ==> {
            &&& x is Normal && y is Normal && x != y ==> path_before(a, b) == text_before(
                x->Normal_0,
                y->Normal_0,
            )
            &&& x is ParentDir && y is Normal ==> path_before(a, b)
            &&& x is CurDir && (y is Normal || y is ParentDir) ==> path_before(a, b)
            &&& x is RootDir && !(y is RootDir) ==> path_before(a, b)
        },
{
    lemma_first_difference(shared, x, y, u, v);
}

proof fn lemma_first_difference(
    shared: Seq<ComponentView>,
    x: ComponentView,
    y: ComponentView,
    u: Seq<ComponentView>,
    v: Seq<ComponentView>,
)
    ensures
        components_before(shared, shared.push(x) + u),
        !components_before(shared.push(x) + u, shared),
        x != y ==> components_before(shared.push(x) + u, shared.push(y) + v) == component_before(
            x,
            y,
        ),
    decreases shared.len(),
{
    let a = shared.push(x) + u;
    let b = shared.push(y) + v;
    if shared.len() > 0 {
        let rest = shared.skip(1);
        lemma_first_difference(rest, x, y, u, v);
        assert(a.skip(1) == rest.push(x) + u);
        assert(b.skip(1) == rest.push(y) + v);
        assert(a[0] == shared[0] && b[0] == shared[0]);
    } else {
        assert(a[0] == x && b[0] == y);
    }
}

} // verus!
