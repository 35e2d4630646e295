//! Unix path names: how a path is read as a sequence of components.
//!
//! A path is read as `std::path::Path` reads it on Unix: a leading `/` is the root;
//! otherwise a leading `.` alone is kept as the current directory; after that the text
//! between separators is taken piece by piece, where empty pieces (repeated or trailing
//! separators) and `.` pieces are skipped, `..` is the parent directory and any other
//! piece is a normal component.
use vstd::prelude::*;

use crate::text::{chars_eq, chars_of, push_char, push_chars, string_views};

verus! {

/// A path component, as a mathematical value.
pub enum ComponentView {
    RootDir,
    CurDir,
    ParentDir,
    Normal(Seq<char>),
}

/// A path component.
#[derive(Debug)]
pub enum Component {
    RootDir,
    CurDir,
    ParentDir,
    Normal(Vec<char>),
}

impl View for Component {
    type V = ComponentView;

    open spec fn view(&self) -> ComponentView {
        match self {
            Component::RootDir => ComponentView::RootDir,
            Component::CurDir => ComponentView::CurDir,
            Component::ParentDir => ComponentView::ParentDir,
            Component::Normal(v) => ComponentView::Normal(v@),
        }
    }
}

/// The views of a sequence of components.
pub open spec fn views(cs: Seq<Component>) -> Seq<ComponentView> {
    cs.map_values(|c: Component| c@)
}

/// The pieces of `s` between `/` separators, in order (`"a//b/"` has the pieces
/// `a`, empty, `b`, empty).
pub open spec fn pieces(s: Seq<char>) -> Seq<Seq<char>>
    decreases s.len(),
{
    if s.len() == 0 {
        seq![Seq::empty()]
    } else {
        let p = pieces(s.drop_last());
        if s.last() == '/' {
            p.push(Seq::empty())
        } else {
            p.update(p.len() - 1, p.last().push(s.last()))
        }
    }
}

/// The component that one piece between separators contributes, if any.
pub open spec fn piece_components(p: Seq<char>) -> Seq<ComponentView> {
    if p.len() == 0 || p == seq!['.'] {
        seq![]
    } else if p == seq!['.', '.'] {
        seq![ComponentView::ParentDir]
    } else {
        seq![ComponentView::Normal(p)]
    }
}

/// The components that a sequence of pieces contributes.
pub open spec fn pieces_components(ps: Seq<Seq<char>>) -> Seq<ComponentView>
    decreases ps.len(),
{
    if ps.len() == 0 {
        seq![]
    } else {
        pieces_components(ps.drop_last()) + piece_components(ps.last())
    }
}

/// Whether `s` starts at the root (`Path::has_root`; on Unix also `Path::is_absolute`).
pub open spec fn has_root(s: Seq<char>) -> bool {
    s.len() > 0 && s[0] == '/'
}

/// Whether `s` starts with a `.` that is kept as the current directory.
pub open spec fn leading_cur_dir(s: Seq<char>) -> bool {
    !has_root(s) && s.len() > 0 && s[0] == '.' && (s.len() == 1 || s[1] == '/')
}

/// The components of the path `s`, as `Path::components` yields them on Unix.
pub open spec fn path_components(s: Seq<char>) -> Seq<ComponentView> {
    let lead = if has_root(s) {
        seq![ComponentView::RootDir]
    } else if leading_cur_dir(s) {
        seq![ComponentView::CurDir]
    } else {
        seq![]
    };
    lead + pieces_components(pieces(s))
}

/// Whether `base` is a prefix of `cs`, component by component.
pub open spec fn is_component_prefix(base: Seq<ComponentView>, cs: Seq<ComponentView>) -> bool {
    base.len() <= cs.len() && cs.take(base.len() as int) == base
}

/// Whether the path `p` starts with the path `base`, comparing whole components
/// (`Path::starts_with`).
pub open spec fn path_starts_with(p: Seq<char>, base: Seq<char>) -> bool {
    is_component_prefix(path_components(base), path_components(p))
}

fn piece_to_components(cur: &Vec<char>, out: &mut Vec<Component>)
    ensures
        views(final(out)@) == views(old(out)@) + piece_components(cur@),
{
    let ghost before = views(out@);
    let n = cur.len();
    if n == 0 {
        assert(views(out@) =~= before + piece_components(cur@));
    } else if n == 1 && cur[0] == '.' {
        assert(cur@ =~= seq!['.']);
        assert(views(out@) =~= before + piece_components(cur@));
    } else if n == 2 && cur[0] == '.' && cur[1] == '.' {
        assert(cur@ =~= seq!['.', '.']);
        out.push(Component::ParentDir);
        assert(views(out@) =~= before + piece_components(cur@));
    } else {
        assert(cur@ != seq!['.']) by {
            if n == 1 {
                assert(cur@[0] != '.');
            }
        }
        assert(cur@ != seq!['.', '.']) by {
            if n == 2 {
                assert(cur@[0] != '.' || cur@[1] != '.');
            }
        }
        out.push(Component::Normal(cur.clone()));
        assert(views(out@) =~= before + piece_components(cur@));
    }
}

proof fn lemma_pieces_components_push(ps: Seq<Seq<char>>, p: Seq<char>)
    ensures
        pieces_components(ps.push(p)) == pieces_components(ps) + piece_components(p),
{
    assert(ps.push(p).drop_last() =~= ps);
}

/// The components of the path `p` (`Path::components`).
pub fn components(p: &Vec<char>) -> (cs: Vec<Component>)
    ensures
        views(cs@) == path_components(p@),
{
    let n = p.len();
    let mut out: Vec<Component> = Vec::new();
    let rooted = n > 0 && p[0] == '/';
    if rooted {
        out.push(Component::RootDir);
    } else if n > 0 && p[0] == '.' && (n == 1 || p[1] == '/') {
        out.push(Component::CurDir);
    }
    let ghost lead = views(out@);
    assert(lead =~= (if has_root(p@) {
        seq![ComponentView::RootDir]
    } else if leading_cur_dir(p@) {
        seq![ComponentView::CurDir]
    } else {
        seq![]
    }));
    let mut cur: Vec<char> = Vec::new();
    let ghost mut done: Seq<Seq<char>> = seq![];
    assert(p@.take(0) =~= Seq::<char>::empty());
    for i in 0..n
        invariant
            n == p.len(),
            pieces(p@.take(i as int)) == done.push(cur@),
            views(out@) == lead + pieces_components(done),
    {
        let c = p[i];
        assert(p@.take(i + 1).drop_last() =~= p@.take(i as int));
        assert(p@.take(i + 1).last() == c);
        if c == '/' {
            proof {
                lemma_pieces_components_push(done, cur@);
            }
            piece_to_components(&cur, &mut out);
            proof {
                done = done.push(cur@);
            }
            cur = Vec::new();
            assert(pieces(p@.take(i + 1)) =~= done.push(cur@));
        } else {
            let ghost old_cur = cur@;
            cur.push(c);
            assert(pieces(p@.take(i + 1)) =~= done.push(cur@));
        }
    }
    assert(p@.take(n as int) =~= p@);
    proof {
        lemma_pieces_components_push(done, cur@);
    }
    piece_to_components(&cur, &mut out);
    assert(views(out@) =~= path_components(p@));
    out
}

/// Whether two components are equal.
pub fn component_eq(a: &Component, b: &Component) -> (r: bool)
    ensures
        r == (a@ == b@),
{
    match (a, b) {
        (Component::RootDir, Component::RootDir) => true,
        (Component::CurDir, Component::CurDir) => true,
        (Component::ParentDir, Component::ParentDir) => true,
        (Component::Normal(x), Component::Normal(y)) => chars_eq(x, y),
        _ => false,
    }
}

/// Whether `base` is a prefix of `cs`, component by component.
pub fn components_prefix(base: &Vec<Component>, cs: &Vec<Component>) -> (r: bool)
    ensures
        r == is_component_prefix(views(base@), views(cs@)),
{
    let n = base.len();
    if n > cs.len() {
        return false;
    }
    for i in 0..n
        invariant
            n == base.len(),
            n <= cs.len(),
            forall|j: int| 0 <= j < i ==> base@[j]@ == cs@[j]@,
    {
        if !component_eq(&base[i], &cs[i]) {
            assert(views(cs@).take(n as int)[i as int] != views(base@)[i as int]);
            return false;
        }
    }
    assert(views(cs@).take(n as int) =~= views(base@));
    true
}

/// Whether the path `p` is absolute (`Path::is_absolute` on Unix: it starts at the root).
pub fn is_absolute(p: &Vec<char>) -> (r: bool)
    ensures
        r == has_root(p@),
{
    p.len() > 0 && p[0] == '/'
}

/// Whether the path `p` starts with the path `base`, comparing whole components
/// (`Path::starts_with`).
pub fn starts_with(p: &Vec<char>, base: &Vec<char>) -> (r: bool)
    ensures
        r == path_starts_with(p@, base@),
{
    let pc = components(p);
    let bc = components(base);
    components_prefix(&bc, &pc)
}

/// The number of components of the path `p` (`Path::components().count()`).
pub fn component_count(p: &Vec<char>) -> (n: usize)
    ensures
        n == path_components(p@).len(),
{
    let cs = components(p);
    cs.len()
}

/// The text of one component.
pub open spec fn component_text(c: ComponentView) -> Seq<char> {
    match c {
        ComponentView::RootDir => seq!['/'],
        ComponentView::CurDir => seq!['.'],
        ComponentView::ParentDir => seq!['.', '.'],
        ComponentView::Normal(s) => s,
    }
}

/// The components of `p` below the root: all of them when `p` is relative
/// (`p.strip_prefix("/").unwrap_or(p)`, read as components).
pub open spec fn below_root(p: Seq<char>) -> Seq<ComponentView> {
    let cs = path_components(p);
    if has_root(p) {
        cs.drop_first()
    } else {
        cs
    }
}

/// The texts of a sequence of components.
pub open spec fn component_texts(cs: Seq<ComponentView>) -> Seq<Seq<char>> {
    cs.map_values(|c: ComponentView| component_text(c))
}

/// Texts joined with `/` between them.
pub open spec fn joined(parts: Seq<Seq<char>>) -> Seq<char>
    decreases parts.len(),
{
    if parts.len() == 0 {
        seq![]
    } else if parts.len() == 1 {
        parts[0]
    } else {
        joined(parts.drop_last()) + seq!['/'] + parts.last()
    }
}

/// The path `dir` with the name `name` pushed onto it (`PathBuf::push` of a relative name):
/// a separator goes between them unless `dir` is empty or already ends with one.
pub open spec fn child_path(dir: Seq<char>, name: Seq<char>) -> Seq<char> {
    if dir.len() == 0 || dir.last() == '/' {
        dir + name
    } else {
        dir + seq!['/'] + name
    }
}

/// The path `dir` with the name `name` pushed onto it.
pub fn child(dir: &String, name: &String) -> (r: String)
    ensures
        r@ == child_path(dir@, name@),
{
    let d = chars_of(dir.as_str());
    let mut r = dir.clone();
    if !(d.len() == 0 || d[d.len() - 1] == '/') {
        r.append("/");
        proof {
            reveal_strlit("/");
        }
    }
    r.append(name.as_str());
    r
}

/// The text of one component.
pub fn text_of(c: &Component) -> (s: String)
    ensures
        s@ == component_text(c@),
{
    let mut s = String::new();
    match c {
        Component::RootDir => {
            push_char(&mut s, '/');
        },
        Component::CurDir => {
            push_char(&mut s, '.');
        },
        Component::ParentDir => {
            push_char(&mut s, '.');
            push_char(&mut s, '.');
        },
        Component::Normal(v) => {
            push_chars(&mut s, v);
        },
    }
    s
}

/// The texts of the components of `p` below the root.
pub fn below_root_texts(p: &String) -> (r: Vec<String>)
    ensures
        string_views(r@) == component_texts(below_root(p@)),
{
    let v = chars_of(p.as_str());
    let cs = components(&v);
    let start: usize = if is_absolute(&v) {
        1
    } else {
        0
    };
    let ghost all = views(cs@);
    proof {
        if has_root(p@) {
            assert(all.len() > 0 && all[0] == ComponentView::RootDir);
        }
    }
    let ghost target = component_texts(below_root(p@));
    let mut r: Vec<String> = Vec::new();
    let n = cs.len();
    assert(start <= n);
    for i in start..n
        invariant
            n == cs.len(),
            start <= n,
            all == views(cs@),
            all == path_components(p@),
            below_root(p@) == all.skip(start as int),
            target == component_texts(below_root(p@)),
            string_views(r@) == target.take(i - start),
    {
        let t = text_of(&cs[i]);
        assert(target[i - start] == component_text(all[i as int]));
        let ghost before = string_views(r@);
        let ghost tv = t@;
        r.push(t);
        assert(string_views(r@) =~= before.push(tv));
        assert(target.take(i - start + 1) =~= target.take(i - start).push(tv));
    }
    assert(target.take(n - start) =~= target);
    r
}

/// `parts` joined with `/` between them.
pub fn join_texts(parts: &Vec<String>) -> (r: String)
    ensures
        r@ == joined(string_views(parts@)),
{
    let ghost ps = string_views(parts@);
    let mut r = String::new();
    let n = parts.len();
    for i in 0..n
        invariant
            n == parts.len(),
            ps == string_views(parts@),
            r@ == joined(ps.take(i as int)),
    {
        assert(ps.take(i + 1).drop_last() =~= ps.take(i as int));
        assert(ps.take(i + 1).last() == parts@[i as int]@);
        if i > 0 {
            push_char(&mut r, '/');
        } else {
            assert(ps.take(0) =~= Seq::<Seq<char>>::empty());
        }
        r.append(parts[i].as_str());
    }
    assert(ps.take(n as int) =~= ps);
    r
}

/// Two absolute paths whose components differ keep components that differ once the root
/// is stripped: sources never share a place in the archive.
pub proof fn lemma_distinct_sources_distinct_prefixes(p: Seq<char>, q: Seq<char>)
    requires
        has_root(p),
        has_root(q),
        path_components(p) != path_components(q),
    ensures
        below_root(p) != below_root(q),
{
    let cp = path_components(p);
    let cq = path_components(q);
    assert(cp[0] == ComponentView::RootDir);
    assert(cq[0] == ComponentView::RootDir);
    if below_root(p) == below_root(q) {
        assert(cp =~= seq![ComponentView::RootDir] + cp.drop_first());
        assert(cq =~= seq![ComponentView::RootDir] + cq.drop_first());
    }
}


/// Whether `name` can be a single normal component: not empty, not `.` or `..`, and free of
/// separators.
pub open spec fn is_plain_name(name: Seq<char>) -> bool {
    &&& name.len() > 0
    &&& name != seq!['.']
    &&& name != seq!['.', '.']
    &&& forall|i: int| 0 <= i < name.len() ==> name[i] != '/'
}

proof fn lemma_pieces_append_name(x: Seq<char>, name: Seq<char>)
    requires
        forall|i: int| 0 <= i < name.len() ==> name[i] != '/',
    ensures
        pieces(x + name) == pieces(x).update(
            pieces(x).len() - 1,
            pieces(x).last() + name,
        ),
    decreases name.len(),
{
    lemma_pieces_nonempty(x);
    if name.len() == 0 {
        assert(x + name =~= x);
        assert(pieces(x).last() + name =~= pieces(x).last());
        assert(pieces(x).update(pieces(x).len() - 1, pieces(x).last()) =~= pieces(x));
    } else {
        let init = name.drop_last();
        lemma_pieces_append_name(x, init);
        assert((x + name).drop_last() =~= x + init);
        assert((x + name).last() == name.last());
        lemma_pieces_nonempty(x + init);
        assert(pieces(x).last() + init + seq![name.last()] =~= pieces(x).last() + name);
        assert((pieces(x).last() + init).push(name.last()) =~= pieces(x).last() + name);
        assert(pieces(x + name) =~= pieces(x).update(pieces(x).len() - 1, pieces(x).last() + name));
    }
}

proof fn lemma_pieces_nonempty(s: Seq<char>)
    ensures
        pieces(s).len() >= 1,
    decreases s.len(),
{
    if s.len() > 0 {
        lemma_pieces_nonempty(s.drop_last());
    }
}

/// Pushing a plain name onto a path that starts at the root adds exactly that name as a
/// last component.
pub proof fn lemma_child_components(dir: Seq<char>, name: Seq<char>)
    requires
        has_root(dir),
        is_plain_name(name),
    ensures
        path_components(child_path(dir, name)) == path_components(dir) + seq![
            ComponentView::Normal(name),
        ],
{
    let c = child_path(dir, name);
    assert(c[0] == dir[0]);
    let x = if dir.last() == '/' {
        dir
    } else {
        dir + seq!['/']
    };
    assert(c =~= x + name);
    lemma_pieces_append_name(x, name);
    let body = if dir.last() == '/' {
        pieces(dir.drop_last())
    } else {
        pieces(dir)
    };
    if dir.last() == '/' {
        assert(dir.drop_last().push('/') =~= dir);
        lemma_pieces_nonempty(dir.drop_last());
    } else {
        assert((dir + seq!['/']).drop_last() =~= dir);
        assert((dir + seq!['/']).last() == '/');
        lemma_pieces_nonempty(dir);
    }
    assert(pieces(x) == body.push(Seq::empty()));
    assert(pieces(c) =~= body.push(name)) by {
        assert(Seq::<char>::empty() + name =~= name);
    }
    lemma_pieces_components_push(body, name);
    lemma_pieces_components_push(body, Seq::empty());
    assert(piece_components(Seq::<char>::empty()) =~= seq![]);
    if dir.last() == '/' {
        assert(pieces(dir) == body.push(Seq::empty()));
    }
    assert(pieces_components(pieces(dir)) =~= pieces_components(body));
    assert(piece_components(name) =~= seq![ComponentView::Normal(name)]);
}

} // verus!
