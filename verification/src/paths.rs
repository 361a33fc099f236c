//! A model of '/'-separated paths: splitting a path into components, the
//! file name, stem and extension, the parent, joining, and the sanitising of
//! archive entry paths so that extracted files stay inside the destination.
//!
//! Components follow the rules of std's `Path::components` on Unix: a leading
//! '/' is the root, repeated and trailing separators are ignored, `.` is kept
//! only as the first component of a relative path, and `..` is the parent.
//! Paths returned by `parent` are written in canonical form (components
//! joined by single separators), which names the same path.

use vstd::prelude::*;
use crate::text::{chars_of, push_str, string_from_chars, sub_chars};

verus! {

/// One component of a path, as a mathematical value.
pub enum Part {
    Root,
    Current,
    Parent,
    Normal(Seq<char>),
}

/// One component of a path.
#[derive(Debug)]
pub enum PathComponent {
    RootDir,
    CurDir,
    ParentDir,
    Normal(String),
}

impl View for PathComponent {
    type V = Part;

    open spec fn view(&self) -> Part {
        match self {
            PathComponent::RootDir => Part::Root,
            PathComponent::CurDir => Part::Current,
            PathComponent::ParentDir => Part::Parent,
            PathComponent::Normal(s) => Part::Normal(s@),
        }
    }
}

/// The components of a vector of components, as mathematical values.
pub open spec fn parts_view(v: Seq<PathComponent>) -> Seq<Part> {
    v.map_values(|c: PathComponent| c@)
}

/// The text of `s` cut at every '/': "a//b/" gives "a", "", "b", "".
pub open spec fn pieces(s: Seq<char>) -> Seq<Seq<char>>
    decreases s.len(),
{
    if s.len() == 0 {
        seq![Seq::<char>::empty()]
    } else {
        let p = pieces(s.drop_last());
        if s.last() == '/' {
            p.push(Seq::<char>::empty())
        } else {
            p.update(p.len() - 1, p.last().push(s.last()))
        }
    }
}

pub open spec fn is_rooted(s: Seq<char>) -> bool {
    s.len() > 0 && s[0] == '/'
}

pub open spec fn dot() -> Seq<char> {
    seq!['.']
}

pub open spec fn dot_dot() -> Seq<char> {
    seq!['.', '.']
}

/// The component a piece stands for: empty pieces and inner `.` stand for none.
pub open spec fn piece_part(p: Seq<char>, first: bool, rooted: bool) -> Option<Part> {
    if p.len() == 0 {
        None
    } else if p == dot() {
        if first && !rooted {
            Some(Part::Current)
        } else {
            None
        }
    } else if p == dot_dot() {
        Some(Part::Parent)
    } else {
        Some(Part::Normal(p))
    }
}

/// The components that a run of pieces stands for.
pub open spec fn parts_of(ps: Seq<Seq<char>>, rooted: bool) -> Seq<Part>
    decreases ps.len(),
{
    if ps.len() == 0 {
        Seq::<Part>::empty()
    } else {
        let prev = parts_of(ps.drop_last(), rooted);
        match piece_part(ps.last(), ps.len() == 1, rooted) {
            Some(p) => prev.push(p),
            None => prev,
        }
    }
}

/// The components of the path `s`.
pub open spec fn spec_components(s: Seq<char>) -> Seq<Part> {
    if is_rooted(s) {
        seq![Part::Root] + parts_of(pieces(s), true)
    } else {
        parts_of(pieces(s), false)
    }
}

proof fn lemma_pieces_nonempty(s: Seq<char>)
    ensures
        pieces(s).len() >= 1,
    decreases s.len(),
{
    if s.len() > 0 {
        lemma_pieces_nonempty(s.drop_last());
    }
}

/// The component `p` (the characters of one piece) stands for.
fn piece_component(p: &Vec<char>, first: bool, rooted: bool) -> (r: Option<PathComponent>)
    ensures
        match r {
            Some(c) => piece_part(p@, first, rooted) == Some(c@),
            None => piece_part(p@, first, rooted) is None,
        },
{
    if p.len() == 0 {
        None
    } else if p.len() == 1 && p[0] == '.' {
        assert(p@ =~= dot());
        if first && !rooted {
            Some(PathComponent::CurDir)
        } else {
            None
        }
    } else if p.len() == 2 && p[0] == '.' && p[1] == '.' {
        assert(p@ =~= dot_dot());
        Some(PathComponent::ParentDir)
    } else {
        assert(p@ != dot() && p@ != dot_dot()) by {
            if p@ == dot() {
                assert(p@.len() == 1 && p@[0] == '.');
            }
            if p@ == dot_dot() {
                assert(p@.len() == 2 && p@[0] == '.' && p@[1] == '.');
            }
        }
        Some(PathComponent::Normal(string_from_chars(p.as_slice())))
    }
}

/// Split a path into its components.
pub fn components(path: &str) -> (r: Vec<PathComponent>)
    ensures
        parts_view(r@) == spec_components(path@),
{
    let cs = chars_of(path);
    let rooted = cs.len() > 0 && cs[0] == '/';
    let mut out: Vec<PathComponent> = Vec::new();
    if rooted {
        out.push(PathComponent::RootDir);
    }
    let ghost head: Seq<Part> = if rooted { seq![Part::Root] } else { Seq::<Part>::empty() };
    assert(parts_view(out@) =~= head);
    let mut cur: Vec<char> = Vec::new();
    let ghost mut done: Seq<Seq<char>> = Seq::empty();
    let mut ndone: usize = 0;
    let mut i: usize = 0;
    assert(cs@.take(0) =~= Seq::<char>::empty());
    assert(pieces(cs@.take(0)) =~= done.push(cur@));
    while i < cs.len()
        invariant
            i <= cs.len(),
            cs@ == path@,
            rooted == is_rooted(cs@),
            head == (if rooted { seq![Part::Root] } else { Seq::<Part>::empty() }),
            pieces(cs@.take(i as int)) == done.push(cur@),
            ndone == done.len(),
            ndone <= i,
            parts_view(out@) == head + parts_of(done, rooted),
        decreases cs.len() - i,
    {
        let c = cs[i];
        proof {
            assert(cs@.take(i + 1).drop_last() =~= cs@.take(i as int));
            assert(cs@.take(i + 1).last() == c);
        }
        if c == '/' {
            let part = piece_component(&cur, ndone == 0, rooted);
            let ghost old_out = out@;
            proof {
                assert(done.push(cur@).drop_last() =~= done);
            }
            match part {
                Some(pc) => {
                    out.push(pc);
                    assert(parts_view(out@) =~= parts_view(old_out).push(pc@));
                },
                None => {},
            }
            proof {
                done = done.push(cur@);
            }
            cur = Vec::new();
            ndone = ndone + 1;
            assert(pieces(cs@.take(i + 1)) =~= done.push(cur@));
        } else {
            let ghost old_cur = cur@;
            cur.push(c);
            assert(pieces(cs@.take(i + 1)) =~= done.push(cur@)) by {
                let p = pieces(cs@.take(i as int));
                assert(p == done.push(old_cur));
                assert(p.update(p.len() - 1, p.last().push(c)) =~= done.push(cur@));
            }
        }
        i = i + 1;
    }
    assert(cs@.take(cs.len() as int) =~= cs@);
    let part = piece_component(&cur, ndone == 0, rooted);
    let ghost old_out = out@;
    proof {
        assert(done.push(cur@).drop_last() =~= done);
    }
    match part {
        Some(pc) => {
            out.push(pc);
            assert(parts_view(out@) =~= parts_view(old_out).push(pc@));
        },
        None => {},
    }
    assert(parts_view(out@) =~= spec_components(path@));
    out
}

/// The name of the last component, when it is a normal one.
pub open spec fn spec_file_name(s: Seq<char>) -> Option<Seq<char>> {
    let cs = spec_components(s);
    if cs.len() > 0 {
        match cs.last() {
            Part::Normal(n) => Some(n),
            _ => None,
        }
    } else {
        None
    }
}

/// The position of the last `c` in `s`.
pub open spec fn last_index_of(s: Seq<char>, c: char) -> Option<int>
    decreases s.len(),
{
    if s.len() == 0 {
        None
    } else if s.last() == c {
        Some(s.len() - 1)
    } else {
        last_index_of(s.drop_last(), c)
    }
}

/// The extension of a file name: the text after its last '.', unless that
/// '.' is the first character (a hidden file such as ".profile").
pub open spec fn name_extension(n: Seq<char>) -> Option<Seq<char>> {
    match last_index_of(n, '.') {
        Some(i) => if i > 0 {
            Some(n.subrange(i + 1, n.len() as int))
        } else {
            None
        },
        None => None,
    }
}

/// The stem of a file name: the text before its last '.', or the whole name
/// when there is no extension.
pub open spec fn name_stem(n: Seq<char>) -> Seq<char> {
    match last_index_of(n, '.') {
        Some(i) => if i > 0 {
            n.subrange(0, i)
        } else {
            n
        },
        None => n,
    }
}

pub open spec fn spec_extension(s: Seq<char>) -> Option<Seq<char>> {
    match spec_file_name(s) {
        Some(n) => name_extension(n),
        None => None,
    }
}

pub open spec fn spec_file_stem(s: Seq<char>) -> Option<Seq<char>> {
    match spec_file_name(s) {
        Some(n) => Some(name_stem(n)),
        None => None,
    }
}

/// The pieces joined with one '/' between neighbours.
pub open spec fn join_pieces(ps: Seq<Seq<char>>) -> Seq<char>
    decreases ps.len(),
{
    if ps.len() == 0 {
        Seq::<char>::empty()
    } else if ps.len() == 1 {
        ps[0]
    } else {
        join_pieces(ps.drop_last()) + seq!['/'] + ps.last()
    }
}

pub open spec fn part_text(p: Part) -> Seq<char> {
    match p {
        Part::Root => seq!['/'],
        Part::Current => dot(),
        Part::Parent => dot_dot(),
        Part::Normal(n) => n,
    }
}

/// The canonical text of a list of components.
pub open spec fn render(cs: Seq<Part>) -> Seq<char> {
    if cs.len() > 0 && cs[0] is Root {
        seq!['/'] + join_pieces(cs.skip(1).map_values(|p: Part| part_text(p)))
    } else {
        join_pieces(cs.map_values(|p: Part| part_text(p)))
    }
}

/// The parent: every component but the last, unless the path is empty or
/// the root alone.
pub open spec fn spec_parent(s: Seq<char>) -> Option<Seq<char>> {
    let cs = spec_components(s);
    if cs.len() == 0 {
        None
    } else if cs.last() is Root {
        None
    } else {
        Some(render(cs.drop_last()))
    }
}

/// `rel` appended to `base` as std's `Path::join` does on Unix: an absolute
/// `rel` replaces `base`; otherwise one separator is put between them unless
/// `base` is empty or already ends with one.
pub open spec fn spec_join(base: Seq<char>, rel: Seq<char>) -> Seq<char> {
    if is_rooted(rel) {
        rel
    } else if base.len() == 0 {
        rel
    } else if base.last() == '/' {
        base + rel
    } else {
        base + seq!['/'] + rel
    }
}

/// The position of the last `c` in `v`.
fn find_last(v: &Vec<char>, c: char) -> (r: Option<usize>)
    ensures
        match r {
            Some(i) => last_index_of(v@, c) == Some(i as int) && i < v.len() && v@[i as int] == c,
            None => last_index_of(v@, c) is None,
        },
{
    let mut i = v.len();
    assert(v@.take(i as int) =~= v@);
    while i > 0
        invariant
            i <= v.len(),
            last_index_of(v@, c) == last_index_of(v@.take(i as int), c),
        decreases i,
    {
        assert(v@.take(i as int).drop_last() =~= v@.take(i - 1));
        if v[i - 1] == c {
            return Some(i - 1);
        }
        i = i - 1;
    }
    None
}

/// The name of the last component of `path`, when that is a normal name
/// (not the root, `.` or `..`).
pub fn file_name(path: &str) -> (r: Option<String>)
    ensures
        match r {
            Some(n) => spec_file_name(path@) == Some(n@),
            None => spec_file_name(path@) is None,
        },
{
    let mut comps = components(path);
    let ghost all = parts_view(comps@);
    if comps.len() == 0 {
        return None;
    }
    let last = comps.pop().unwrap();
    assert(last@ == all.last());
    match last {
        PathComponent::Normal(n) => Some(n),
        _ => None,
    }
}

/// The extension of the file name of `path` (without the dot).
pub fn extension(path: &str) -> (r: Option<String>)
    ensures
        match r {
            Some(e) => spec_extension(path@) == Some(e@),
            None => spec_extension(path@) is None,
        },
{
    match file_name(path) {
        Some(n) => {
            let cs = chars_of(n.as_str());
            match find_last(&cs, '.') {
                Some(i) => {
                    if i > 0 {
                        let e = sub_chars(&cs, i + 1, cs.len());
                        Some(string_from_chars(e.as_slice()))
                    } else {
                        None
                    }
                },
                None => None,
            }
        },
        None => None,
    }
}

/// The file name of `path` without its extension.
pub fn file_stem(path: &str) -> (r: Option<String>)
    ensures
        match r {
            Some(e) => spec_file_stem(path@) == Some(e@),
            None => spec_file_stem(path@) is None,
        },
{
    match file_name(path) {
        Some(n) => {
            let cs = chars_of(n.as_str());
            match find_last(&cs, '.') {
                Some(i) => {
                    if i > 0 {
                        let e = sub_chars(&cs, 0, i);
                        Some(string_from_chars(e.as_slice()))
                    } else {
                        Some(n)
                    }
                },
                None => Some(n),
            }
        },
        None => None,
    }
}

/// The text of one component.
fn component_text(c: &PathComponent) -> (r: Vec<char>)
    ensures
        r@ == part_text(c@),
{
    match c {
        PathComponent::RootDir => {
            let v: Vec<char> = vec!['/'];
            assert(v@ =~= seq!['/']);
            v
        },
        PathComponent::CurDir => {
            let v: Vec<char> = vec!['.'];
            assert(v@ =~= dot());
            v
        },
        PathComponent::ParentDir => {
            let v: Vec<char> = vec!['.', '.'];
            assert(v@ =~= dot_dot());
            v
        },
        PathComponent::Normal(n) => chars_of(n.as_str()),
    }
}

/// The texts of `cs[start..end]` joined by single separators, appended to `out`.
fn push_joined(out: &mut Vec<char>, cs: &Vec<PathComponent>, start: usize, end: usize)
    requires
        start <= end <= cs.len(),
    ensures
        final(out)@ == old(out)@ + join_pieces(
            parts_view(cs@).subrange(start as int, end as int).map_values(|p: Part| part_text(p)),
        ),
{
    let ghost base = out@;
    let ghost texts = parts_view(cs@).map_values(|p: Part| part_text(p));
    let mut i = start;
    assert(parts_view(cs@).subrange(start as int, start as int).map_values(|p: Part| part_text(p))
        =~= Seq::<Seq<char>>::empty());
    while i < end
        invariant
            start <= i <= end <= cs.len(),
            texts == parts_view(cs@).map_values(|p: Part| part_text(p)),
            out@ == base + join_pieces(texts.subrange(start as int, i as int)),
        decreases end - i,
    {
        let ghost before = out@;
        if i > start {
            out.push('/');
        }
        let mut t = component_text(&cs[i]);
        out.append(&mut t);
        proof {
            let sub = texts.subrange(start as int, i + 1);
            assert(sub.drop_last() =~= texts.subrange(start as int, i as int));
            assert(sub.last() == part_text(cs@[i as int]@));
            if i == start {
                assert(sub.len() == 1);
                assert(join_pieces(texts.subrange(start as int, i as int)) =~= Seq::<char>::empty());
            }
            assert(out@ =~= base + join_pieces(sub));
        }
        i = i + 1;
    }
    assert(parts_view(cs@).subrange(start as int, end as int).map_values(|p: Part| part_text(p))
        =~= texts.subrange(start as int, end as int));
}

/// The parent of `path`, in canonical form; `None` for an empty path or the
/// root alone.
pub fn parent(path: &str) -> (r: Option<String>)
    ensures
        match r {
            Some(p) => spec_parent(path@) == Some(p@),
            None => spec_parent(path@) is None,
        },
{
    let mut comps = components(path);
    let ghost all = parts_view(comps@);
    if comps.len() == 0 {
        return None;
    }
    let last = comps.pop().unwrap();
    assert(last@ == all.last());
    assert(parts_view(comps@) =~= all.drop_last());
    if let PathComponent::RootDir = last {
        return None;
    }
    let ghost rest = all.drop_last();
    let mut out: Vec<char> = Vec::new();
    let n = comps.len();
    if n > 0 && matches!(comps[0], PathComponent::RootDir) {
        out.push('/');
        push_joined(&mut out, &comps, 1, n);
        assert(rest.skip(1) =~= parts_view(comps@).subrange(1, n as int));
    } else {
        push_joined(&mut out, &comps, 0, n);
        assert(rest =~= parts_view(comps@).subrange(0, n as int));
    }
    assert(out@ =~= render(rest));
    Some(string_from_chars(out.as_slice()))
}

/// `rel` appended to `base`, as std's `Path::join` does on Unix.
pub fn join(base: &str, rel: &str) -> (r: String)
    ensures
        r@ == spec_join(base@, rel@),
{
    let b = chars_of(base);
    let r = chars_of(rel);
    if r.len() > 0 && r[0] == '/' {
        return string_from_chars(r.as_slice());
    }
    if b.len() == 0 {
        return string_from_chars(r.as_slice());
    }
    let mut out = b.clone();
    if b[b.len() - 1] != '/' {
        out.push('/');
    }
    let mut rc = r.clone();
    out.append(&mut rc);
    assert(out@ =~= spec_join(base@, rel@));
    string_from_chars(out.as_slice())
}

/// The names of the normal components, in order.
pub open spec fn normal_names(cs: Seq<Part>) -> Seq<Seq<char>>
    decreases cs.len(),
{
    if cs.len() == 0 {
        Seq::<Seq<char>>::empty()
    } else {
        let prev = normal_names(cs.drop_last());
        match cs.last() {
            Part::Normal(n) => prev.push(n),
            _ => prev,
        }
    }
}

/// Some component is `..`.
pub open spec fn has_parent_part(cs: Seq<Part>) -> bool {
    exists|i: int| 0 <= i < cs.len() && cs[i] is Parent
}

/// The name `n` holds `..` at `j` between backslashes (or the name's ends):
/// where '\' separates too, as on Windows, that is a step up.
pub open spec fn backslash_parent_at(n: Seq<char>, j: int) -> bool {
    &&& 0 <= j && j + 2 <= n.len()
    &&& n[j] == '.' && n[j + 1] == '.'
    &&& (j == 0 || n[j - 1] == '\\')
    &&& (j + 2 == n.len() || n[j + 2] == '\\')
}

/// The name `n` steps up where '\' separates too.
pub open spec fn has_backslash_parent(n: Seq<char>) -> bool {
    exists|j: int| backslash_parent_at(n, j)
}

/// Some name of `ns` steps up where '\' separates too.
pub open spec fn some_backslash_parent(ns: Seq<Seq<char>>) -> bool {
    exists|i: int| 0 <= i < ns.len() && has_backslash_parent(#[trigger] ns[i])
}

/// Where an archive entry named `entry` is written under `dest`: nowhere when
/// its path holds a `..` component, with '/' or, as on Windows, '\' as the
/// separator; otherwise `dest` joined with the entry's normal components, the
/// root and `.` components dropped.
pub open spec fn spec_sanitize(dest: Seq<char>, entry: Seq<char>) -> Option<Seq<char>> {
    let cs = spec_components(entry);
    if has_parent_part(cs) || some_backslash_parent(normal_names(cs)) {
        None
    } else {
        Some(spec_join(dest, join_pieces(normal_names(cs))))
    }
}

proof fn lemma_names_prefix(cs: Seq<Part>, m: int)
    requires
        0 <= m <= cs.len(),
    ensures
        normal_names(cs.take(m)).len() <= normal_names(cs).len(),
        forall|k: int|
            0 <= k < normal_names(cs.take(m)).len() ==> #[trigger] normal_names(cs.take(m))[k]
                == normal_names(cs)[k],
    decreases cs.len() - m,
{
    if m == cs.len() {
        assert(cs.take(m) =~= cs);
    } else {
        lemma_names_prefix(cs, m + 1);
        assert(cs.take(m + 1).drop_last() =~= cs.take(m));
        let a = normal_names(cs.take(m));
        let b = normal_names(cs.take(m + 1));
        assert forall|k: int| 0 <= k < a.len() implies #[trigger] a[k] == b[k] by {
            match cs.take(m + 1).last() {
                Part::Normal(x) => assert(b == a.push(x)),
                _ => {},
            }
        }
    }
}

/// Whether the name `n` steps up where '\' separates too.
fn backslash_parent(n: &str) -> (r: bool)
    ensures
        r == has_backslash_parent(n@),
{
    let cs = chars_of(n);
    let len = cs.len();
    if len < 2 {
        return false;
    }
    let mut j: usize = 0;
    while j <= len - 2
        invariant
            cs@ == n@,
            len == cs.len(),
            len >= 2,
            forall|k: int| 0 <= k < j ==> !backslash_parent_at(n@, k),
        decreases len - j,
    {
        if cs[j] == '.' && cs[j + 1] == '.' && (j == 0 || cs[j - 1] == '\\') && (j + 2 == len
            || cs[j + 2] == '\\') {
            assert(backslash_parent_at(n@, j as int));
            return true;
        }
        j = j + 1;
    }
    false
}

/// Why an entry path was refused.
#[derive(Clone, Copy, Debug, PartialEq, Eq, Structural)]
pub enum PathError {
    /// The entry path holds a `..` component (with '/' or '\' as the
    /// separator).
    DirectoryTraversal,
}

/// The path under `dest` at which the archive entry `entry_path` is written:
/// an entry path with a `..` component is refused (also one that only
/// '\' separates, which would climb out on Windows), a root or `.`
/// component is dropped, so that every accepted path lies inside `dest`.
pub fn sanitize_target_path(dest: &str, entry_path: &str) -> (r: Result<String, PathError>)
    ensures
        match r {
            Ok(p) => spec_sanitize(dest@, entry_path@) == Some(p@),
            Err(_) => spec_sanitize(dest@, entry_path@) is None,
        },
{
    let comps = components(entry_path);
    let ghost cs = parts_view(comps@);
    let mut safe: Vec<char> = Vec::new();
    let mut count: usize = 0;
    let mut i: usize = 0;
    assert(cs.take(0) =~= Seq::<Part>::empty());
    while i < comps.len()
        invariant
            i <= comps.len(),
            cs == parts_view(comps@),
            cs == spec_components(entry_path@),
            count <= i,
            count == normal_names(cs.take(i as int)).len(),
            safe@ == join_pieces(normal_names(cs.take(i as int))),
            !has_parent_part(cs.take(i as int)),
            !some_backslash_parent(normal_names(cs.take(i as int))),
        decreases comps.len() - i,
    {
        proof {
            assert(cs.take(i + 1).drop_last() =~= cs.take(i as int));
            assert(cs.take(i + 1).last() == comps@[i as int]@);
        }
        match &comps[i] {
            PathComponent::Normal(n) => {
                let ghost prev = normal_names(cs.take(i as int));
                if backslash_parent(n.as_str()) {
                    proof {
                        let now = normal_names(cs.take(i + 1));
                        assert(now == prev.push(n@));
                        assert(now[now.len() - 1] == n@);
                        lemma_names_prefix(cs, i as int + 1);
                        let all = normal_names(cs);
                        assert(all[now.len() - 1] == n@);
                        assert(has_backslash_parent(all[now.len() - 1]));
                    }
                    return Err(PathError::DirectoryTraversal);
                }
                proof {
                    let now = normal_names(cs.take(i + 1));
                    assert(now == prev.push(n@));
                    if some_backslash_parent(now) {
                        let k = choose|k: int| 0 <= k < now.len() && has_backslash_parent(#[trigger] now[k]);
                        if k < prev.len() {
                            assert(now[k] == prev[k]);
                        }
                    }
                }
                if count > 0 {
                    safe.push('/');
                }
                push_str(&mut safe, n.as_str());
                count = count + 1;
                proof {
                    let now = normal_names(cs.take(i + 1));
                    assert(now == prev.push(n@));
                    assert(now.drop_last() =~= prev);
                    if prev.len() == 0 {
                        assert(join_pieces(prev) =~= Seq::<char>::empty());
                        assert(safe@ =~= join_pieces(now));
                    } else {
                        assert(safe@ =~= join_pieces(now));
                    }
                }
            },
            PathComponent::ParentDir => {
                assert(cs[i as int] is Parent);
                return Err(PathError::DirectoryTraversal);
            },
            _ => {
                assert(normal_names(cs.take(i + 1)) == normal_names(cs.take(i as int)));
            },
        }
        proof {
            let t = cs.take(i + 1);
            if has_parent_part(t) {
                let k = choose|k: int| 0 <= k < t.len() && #[trigger] t[k] is Parent;
                if k < i {
                    assert(cs.take(i as int)[k] is Parent);
                }
            }
        }
        i = i + 1;
    }
    assert(cs.take(comps.len() as int) =~= cs);
    let safe_str = string_from_chars(safe.as_slice());
    Ok(join(dest, safe_str.as_str()))
}

/// A name that can stand as a normal component: not empty, not `.` or `..`,
/// and free of separators.
pub open spec fn proper_name(n: Seq<char>) -> bool {
    &&& n.len() > 0
    &&& n != dot()
    &&& n != dot_dot()
    &&& forall|j: int| 0 <= j < n.len() ==> n[j] != '/'
}

pub open spec fn no_separator(n: Seq<char>) -> bool {
    forall|j: int| 0 <= j < n.len() ==> n[j] != '/'
}

proof fn lemma_pieces_no_separator(s: Seq<char>)
    ensures
        forall|k: int| 0 <= k < pieces(s).len() ==> no_separator(#[trigger] pieces(s)[k]),
    decreases s.len(),
{
    if s.len() > 0 {
        lemma_pieces_no_separator(s.drop_last());
        lemma_pieces_nonempty(s.drop_last());
        let p = pieces(s.drop_last());
        if s.last() != '/' {
            let q = p.last().push(s.last());
            assert(no_separator(p[p.len() - 1]));
            assert(no_separator(q));
        }
    }
}

proof fn lemma_pieces_of_plain(n: Seq<char>)
    requires
        no_separator(n),
    ensures
        pieces(n) == seq![n],
    decreases n.len(),
{
    if n.len() == 0 {
        assert(n =~= Seq::<char>::empty());
        assert(pieces(n) =~= seq![n]);
    } else {
        let front = n.drop_last();
        assert(no_separator(front)) by {
            assert forall|j: int| 0 <= j < front.len() implies front[j] != '/' by {
                assert(front[j] == n[j]);
            }
        }
        lemma_pieces_of_plain(front);
        assert(front.push(n.last()) =~= n);
        assert(n[n.len() - 1] != '/');
        let p = pieces(front);
        assert(p == seq![front]);
        assert(p.update(p.len() - 1, p.last().push(n.last())) =~= seq![n]);
        assert(pieces(n) =~= seq![n]);
    }
}

proof fn lemma_last_dot_after(a: Seq<char>, e: Seq<char>)
    requires
        forall|j: int| 0 <= j < e.len() ==> e[j] != '.',
    ensures
        last_index_of(a + seq!['.'] + e, '.') == Some(a.len() as int),
    decreases e.len(),
{
    let s = a + seq!['.'] + e;
    if e.len() == 0 {
        assert(s.last() == '.');
    } else {
        lemma_last_dot_after(a, e.drop_last());
        assert(s.drop_last() =~= a + seq!['.'] + e.drop_last());
        assert(s.last() == e.last());
    }
}

/// A path that is one plain name is its own file name.
pub proof fn lemma_file_name_of_plain(n: Seq<char>)
    requires
        n.len() > 0,
        no_separator(n),
        n != dot(),
        n != dot_dot(),
    ensures
        spec_file_name(n) == Some(n),
        spec_components(n) == seq![Part::Normal(n)],
{
    lemma_pieces_of_plain(n);
    assert(!is_rooted(n)) by {
        assert(n[0] != '/');
    }
    let ps = seq![n];
    assert(pieces(n) == ps);
    assert(ps.drop_last() =~= Seq::<Seq<char>>::empty());
    assert(ps.last() == n);
    assert(parts_of(ps.drop_last(), false) =~= Seq::<Part>::empty());
    assert(piece_part(n, true, false) == Some(Part::Normal(n)));
    assert(parts_of(ps, false) =~= seq![Part::Normal(n)]);
    assert(spec_components(n) =~= seq![Part::Normal(n)]);
}

/// A file named `stem`, a dot and `ext`, where `ext` is not empty and holds
/// neither dots nor separators and `stem` holds no separator, has the
/// extension `ext`.
pub proof fn lemma_extension_of_name(stem: Seq<char>, ext: Seq<char>)
    requires
        stem.len() > 0,
        no_separator(stem),
        ext.len() > 0,
        no_separator(ext),
        forall|j: int| 0 <= j < ext.len() ==> ext[j] != '.',
    ensures
        spec_extension(stem + seq!['.'] + ext) == Some(ext),
{
    let n = stem + seq!['.'] + ext;
    assert(no_separator(n)) by {
        assert forall|j: int| 0 <= j < n.len() implies n[j] != '/' by {
            if j < stem.len() {
                assert(n[j] == stem[j]);
            } else if j > stem.len() {
                assert(n[j] == ext[j - stem.len() - 1]);
            }
        }
    }
    lemma_pieces_of_plain(n);
    assert(n != dot() && n != dot_dot()) by {
        assert(n.len() >= 3);
    }
    assert(!is_rooted(n)) by {
        assert(n[0] == stem[0]);
    }
    let ps = seq![n];
    assert(pieces(n) == ps);
    assert(ps.drop_last() =~= Seq::<Seq<char>>::empty());
    assert(ps.last() == n);
    assert(parts_of(ps.drop_last(), false) =~= Seq::<Part>::empty());
    assert(piece_part(n, true, false) == Some(Part::Normal(n)));
    assert(parts_of(ps, false) =~= seq![Part::Normal(n)]);
    assert(spec_components(n) =~= seq![Part::Normal(n)]);
    lemma_last_dot_after(stem, ext);
    assert(n.subrange(stem.len() as int + 1, n.len() as int) =~= ext);
}

/// Cutting `a` + "/" + `b` gives the pieces of `a` followed by those of `b`.
proof fn lemma_pieces_split(a: Seq<char>, b: Seq<char>)
    ensures
        pieces(a + seq!['/'] + b) == pieces(a) + pieces(b),
    decreases b.len(),
{
    let s = a + seq!['/'] + b;
    if b.len() == 0 {
        assert(s.drop_last() =~= a);
        assert(pieces(s) =~= pieces(a) + pieces(b));
    } else {
        let b1 = b.drop_last();
        lemma_pieces_split(a, b1);
        lemma_pieces_nonempty(b1);
        assert(s.drop_last() =~= a + seq!['/'] + b1);
        assert(s.last() == b.last());
        let pa = pieces(a);
        let pb1 = pieces(b1);
        if b.last() == '/' {
            assert(pieces(s) =~= pa + pieces(b));
        } else {
            assert((pa + pb1).update(pa.len() + pb1.len() - 1, (pa + pb1).last().push(b.last()))
                =~= pa + pb1.update(pb1.len() - 1, pb1.last().push(b.last())));
            assert(pieces(s) =~= pa + pieces(b));
        }
    }
}

/// Joining names and cutting them apart again gives the names back.
proof fn lemma_pieces_of_joined(ns: Seq<Seq<char>>)
    requires
        ns.len() > 0,
        forall|k: int| 0 <= k < ns.len() ==> no_separator(#[trigger] ns[k]),
    ensures
        pieces(join_pieces(ns)) == ns,
    decreases ns.len(),
{
    if ns.len() == 1 {
        lemma_pieces_of_plain(ns[0]);
        assert(pieces(join_pieces(ns)) =~= ns);
    } else {
        let front = ns.drop_last();
        lemma_pieces_of_joined(front);
        lemma_pieces_split(join_pieces(front), ns.last());
        assert(no_separator(ns[ns.len() - 1]));
        lemma_pieces_of_plain(ns.last());
        assert(pieces(join_pieces(ns)) =~= ns);
    }
}

/// The components of pieces that follow a non-empty run are found one by one,
/// provided none of them is `.` (whose meaning depends on its position).
proof fn lemma_parts_of_append(a: Seq<Seq<char>>, b: Seq<Seq<char>>, rooted: bool)
    requires
        a.len() > 0,
        forall|k: int| 0 <= k < b.len() ==> #[trigger] b[k] != dot(),
    ensures
        parts_of(a + b, rooted) == parts_of(a, rooted) + parts_of(b, rooted),
    decreases b.len(),
{
    if b.len() == 0 {
        assert(a + b =~= a);
        assert(parts_of(a, rooted) + parts_of(b, rooted) =~= parts_of(a, rooted));
    } else {
        let b1 = b.drop_last();
        lemma_parts_of_append(a, b1, rooted);
        assert((a + b).drop_last() =~= a + b1);
        assert((a + b).last() == b.last());
        assert(b[b.len() - 1] != dot());
        assert(piece_part(b.last(), false, rooted) == piece_part(b.last(), b.len() == 1, rooted));
        match piece_part(b.last(), false, rooted) {
            Some(p) => {
                assert(parts_of(a + b, rooted) =~= parts_of(a, rooted) + parts_of(b, rooted));
            },
            None => {
                assert(parts_of(a + b, rooted) =~= parts_of(a, rooted) + parts_of(b, rooted));
            },
        }
    }
}

/// Proper names stand for one normal component each.
proof fn lemma_parts_of_names(ns: Seq<Seq<char>>, rooted: bool)
    requires
        forall|k: int| 0 <= k < ns.len() ==> proper_name(#[trigger] ns[k]),
    ensures
        parts_of(ns, rooted) == ns.map_values(|n: Seq<char>| Part::Normal(n)),
    decreases ns.len(),
{
    if ns.len() > 0 {
        lemma_parts_of_names(ns.drop_last(), rooted);
        assert(proper_name(ns[ns.len() - 1]));
        assert(parts_of(ns, rooted) =~= ns.map_values(|n: Seq<char>| Part::Normal(n)));
    } else {
        assert(parts_of(ns, rooted) =~= ns.map_values(|n: Seq<char>| Part::Normal(n)));
    }
}

/// Every normal component found in pieces free of separators is a proper name.
proof fn lemma_parts_of_proper(ps: Seq<Seq<char>>, rooted: bool)
    requires
        forall|k: int| 0 <= k < ps.len() ==> no_separator(#[trigger] ps[k]),
    ensures
        forall|k: int|
            0 <= k < parts_of(ps, rooted).len() && (#[trigger] parts_of(ps, rooted)[k]) is Normal
                ==> proper_name(parts_of(ps, rooted)[k]->Normal_0),
    decreases ps.len(),
{
    if ps.len() > 0 {
        let front = ps.drop_last();
        assert forall|k: int| 0 <= k < front.len() implies no_separator(#[trigger] front[k]) by {
            assert(front[k] == ps[k]);
        }
        lemma_parts_of_proper(front, rooted);
        assert(no_separator(ps[ps.len() - 1]));
    }
}

proof fn lemma_names_proper(cs: Seq<Part>)
    requires
        forall|k: int| 0 <= k < cs.len() && (#[trigger] cs[k]) is Normal ==> proper_name(
            cs[k]->Normal_0,
        ),
    ensures
        forall|k: int| 0 <= k < normal_names(cs).len() ==> proper_name(#[trigger] normal_names(cs)[k]),
    decreases cs.len(),
{
    if cs.len() > 0 {
        let front = cs.drop_last();
        assert forall|k: int| 0 <= k < front.len() && (#[trigger] front[k]) is Normal implies proper_name(
            front[k]->Normal_0,
        ) by {
            assert(front[k] == cs[k]);
        }
        lemma_names_proper(front);
        assert(cs[cs.len() - 1] == cs.last());
        let prev = normal_names(front);
        match cs.last() {
            Part::Normal(n) => {
                assert(proper_name(n));
                assert(normal_names(cs) == prev.push(n));
                assert forall|k: int| 0 <= k < normal_names(cs).len() implies proper_name(
                    #[trigger] normal_names(cs)[k],
                ) by {
                    if k < prev.len() {
                        assert(normal_names(cs)[k] == prev[k]);
                    }
                }
            },
            _ => {},
        }
    }
}

proof fn lemma_parts_of_empty_piece(rooted: bool)
    ensures
        parts_of(seq![Seq::<char>::empty()], rooted) == Seq::<Part>::empty(),
{
    let e = seq![Seq::<char>::empty()];
    assert(e.drop_last() =~= Seq::<Seq<char>>::empty());
    assert(parts_of(Seq::<Seq<char>>::empty(), rooted) =~= Seq::<Part>::empty());
    assert(e.last().len() == 0);
}

/// The components of any path: each normal one is a proper name.
proof fn lemma_components_proper(s: Seq<char>)
    ensures
        forall|k: int|
            0 <= k < spec_components(s).len() && (#[trigger] spec_components(s)[k]) is Normal
                ==> proper_name(spec_components(s)[k]->Normal_0),
{
    lemma_pieces_no_separator(s);
    let r = is_rooted(s);
    lemma_parts_of_proper(pieces(s), r);
    let cs = spec_components(s);
    assert forall|k: int| 0 <= k < cs.len() && (#[trigger] cs[k]) is Normal implies proper_name(
        cs[k]->Normal_0,
    ) by {
        if r {
            assert(cs[k] == parts_of(pieces(s), true)[k - 1]);
        }
    }
}

/// The pieces of the text of a run of names: the names themselves, or a
/// single empty piece when there are none.
proof fn lemma_pieces_of_names_text(ns: Seq<Seq<char>>)
    requires
        forall|k: int| 0 <= k < ns.len() ==> proper_name(#[trigger] ns[k]),
    ensures
        ns.len() == 0 ==> pieces(join_pieces(ns)) == seq![Seq::<char>::empty()],
        ns.len() > 0 ==> pieces(join_pieces(ns)) == ns,
        parts_of(pieces(join_pieces(ns)), false) == ns.map_values(|n: Seq<char>| Part::Normal(n)),
        forall|k: int| 0 <= k < pieces(join_pieces(ns)).len() ==> #[trigger] pieces(join_pieces(ns))[k] != dot(),
        !is_rooted(join_pieces(ns)),
{
    if ns.len() == 0 {
        assert(pieces(join_pieces(ns)) =~= seq![Seq::<char>::empty()]);
        lemma_parts_of_empty_piece(false);
        assert(ns.map_values(|n: Seq<char>| Part::Normal(n)) =~= Seq::<Part>::empty());
        assert(Seq::<char>::empty() != dot()) by {
            assert(dot().len() == 1);
        }
    } else {
        assert forall|k: int| 0 <= k < ns.len() implies no_separator(#[trigger] ns[k]) by {
            assert(proper_name(ns[k]));
        }
        lemma_pieces_of_joined(ns);
        lemma_parts_of_names(ns, false);
        lemma_join_pieces_head(ns);
        assert(proper_name(ns[0]));
    }
}

proof fn lemma_join_pieces_head(ns: Seq<Seq<char>>)
    requires
        ns.len() > 0,
        ns[0].len() > 0,
    ensures
        join_pieces(ns).len() > 0,
        join_pieces(ns)[0] == ns[0][0],
    decreases ns.len(),
{
    if ns.len() > 1 {
        lemma_join_pieces_head(ns.drop_last());
    }
}

/// An accepted entry path lands inside the destination: the components of
/// the path it is written to are those of `dest` followed by the normal
/// components of the entry path, so that path starts with `dest` and holds
/// no `..` that `dest` does not hold; nor does any of those components climb
/// where '\' separates too.
pub proof fn lemma_sanitized_path_inside_dest(dest: Seq<char>, entry: Seq<char>)
    requires
        spec_sanitize(dest, entry) is Some,
    ensures
        spec_components(spec_sanitize(dest, entry)->0) == spec_components(dest) + normal_names(
            spec_components(entry),
        ).map_values(|n: Seq<char>| Part::Normal(n)),
        forall|k: int|
            0 <= k < normal_names(spec_components(entry)).len() ==> !has_backslash_parent(
                #[trigger] normal_names(spec_components(entry))[k],
            ),
{
    let ns = normal_names(spec_components(entry));
    lemma_components_proper(entry);
    lemma_names_proper(spec_components(entry));
    let rel = join_pieces(ns);
    lemma_pieces_of_names_text(ns);
    let named = ns.map_values(|n: Seq<char>| Part::Normal(n));
    let out = spec_join(dest, rel);
    if dest.len() == 0 {
        assert(out == rel);
        assert(pieces(dest) =~= seq![Seq::<char>::empty()]);
        lemma_parts_of_empty_piece(false);
        assert(spec_components(dest) =~= Seq::<Part>::empty());
        assert(spec_components(out) =~= spec_components(dest) + named);
    } else {
        let base = if dest.last() == '/' { dest.drop_last() } else { dest };
        assert(out =~= base + seq!['/'] + rel);
        lemma_pieces_split(base, rel);
        lemma_pieces_nonempty(base);
        let r = is_rooted(dest);
        assert(is_rooted(out) == r);
        lemma_parts_of_append(pieces(base), pieces(rel), r);
        let pr = pieces(rel);
        assert forall|k: int| 0 <= k < pr.len() implies piece_part(#[trigger] pr[k], false, r)
            == piece_part(pr[k], false, false) by {
            assert(pr[k] != dot());
        }
        assert(parts_of(pr, r) == parts_of(pr, false)) by {
            lemma_parts_of_flag(pr, r);
        }
        if dest.last() == '/' {
            assert(dest =~= base + seq!['/'] + Seq::<char>::empty());
            lemma_pieces_split(base, Seq::<char>::empty());
            let e = seq![Seq::<char>::empty()];
            assert(pieces(Seq::<char>::empty()) =~= e);
            assert(Seq::<char>::empty() != dot()) by {
                assert(dot().len() == 1);
            }
            lemma_parts_of_append(pieces(base), e, r);
            lemma_parts_of_empty_piece(r);
            assert(is_rooted(dest) == is_rooted(base) || base.len() == 0);
        }
        if r {
            assert(spec_components(out) =~= spec_components(dest) + named);
        } else {
            assert(spec_components(out) =~= spec_components(dest) + named);
        }
    }
}

/// Whether a path is rooted does not change the components of pieces that
/// hold no `.`.
proof fn lemma_parts_of_flag(ps: Seq<Seq<char>>, rooted: bool)
    requires
        forall|k: int| 0 <= k < ps.len() ==> #[trigger] ps[k] != dot(),
    ensures
        parts_of(ps, rooted) == parts_of(ps, false),
    decreases ps.len(),
{
    if ps.len() > 0 {
        lemma_parts_of_flag(ps.drop_last(), rooted);
        assert(ps[ps.len() - 1] != dot());
    }
}

/// The names of the normal components, made components again, are exactly
/// the normal components, in order.
proof fn lemma_normal_names_are_normal_parts(cs: Seq<Part>)
    ensures
        normal_names(cs).map_values(|n: Seq<char>| Part::Normal(n)) == cs.filter(
            |p: Part| p is Normal,
        ),
    decreases cs.len(),
{
    if cs.len() > 0 {
        lemma_normal_names_are_normal_parts(cs.drop_last());
        let prev = normal_names(cs.drop_last());
        reveal(Seq::filter);
        match cs.last() {
            Part::Normal(n) => {
                assert(prev.push(n).map_values(|n: Seq<char>| Part::Normal(n)) =~= prev.map_values(
                    |n: Seq<char>| Part::Normal(n),
                ).push(Part::Normal(n)));
            },
            _ => {},
        }
    }
}

/// Sanitising loses no name and adds none: an accepted entry is written at
/// the destination's components followed by every normal component of the
/// entry path, in order (only the root, `.` and nothing else are dropped).
/// An entry is refused only for a `..` step, with '/' or '\' as separator.
pub proof fn lemma_sanitize_keeps_every_name(dest: Seq<char>, entry: Seq<char>)
    ensures
        spec_sanitize(dest, entry) matches Some(t) ==> spec_components(t) == spec_components(dest)
            + spec_components(entry).filter(|p: Part| p is Normal),
        spec_sanitize(dest, entry) is None <==> (exists|i: int|
            0 <= i < spec_components(entry).len() && #[trigger] spec_components(entry)[i]
                is Parent) || (exists|i: int|
            0 <= i < spec_components(entry).len() && (#[trigger] spec_components(entry)[i]
                matches Part::Normal(n) && has_backslash_parent(n))),
{
    let cs = spec_components(entry);
    lemma_normal_names_are_normal_parts(cs);
    if spec_sanitize(dest, entry) is Some {
        lemma_sanitized_path_inside_dest(dest, entry);
    }
    lemma_backslash_names(cs);
}

proof fn lemma_backslash_names(cs: Seq<Part>)
    ensures
        some_backslash_parent(normal_names(cs)) <==> (exists|i: int|
            0 <= i < cs.len() && (#[trigger] cs[i] matches Part::Normal(n) && has_backslash_parent(
                n,
            ))),
    decreases cs.len(),
{
    if cs.len() > 0 {
        let front = cs.drop_last();
        lemma_backslash_names(front);
        let prev = normal_names(front);
        let now = normal_names(cs);
        if some_backslash_parent(now) {
            let k = choose|k: int| 0 <= k < now.len() && has_backslash_parent(#[trigger] now[k]);
            match cs.last() {
                Part::Normal(n) => {
                    assert(now == prev.push(n));
                    if k < prev.len() {
                        assert(now[k] == prev[k]);
                        let i = choose|i: int|
                            0 <= i < front.len() && (#[trigger] front[i] matches Part::Normal(n)
                                && has_backslash_parent(n));
                        assert(cs[i] == front[i]);
                    } else {
                        assert(cs[cs.len() - 1] == cs.last());
                    }
                },
                _ => {
                    assert(now == prev);
                    let i = choose|i: int|
                        0 <= i < front.len() && (#[trigger] front[i] matches Part::Normal(n)
                            && has_backslash_parent(n));
                    assert(cs[i] == front[i]);
                },
            }
        }
        if exists|i: int|
            0 <= i < cs.len() && (#[trigger] cs[i] matches Part::Normal(n) && has_backslash_parent(
                n,
            )) {
            let i = choose|i: int|
                0 <= i < cs.len() && (#[trigger] cs[i] matches Part::Normal(n)
                    && has_backslash_parent(n));
            if i < front.len() {
                assert(front[i] == cs[i]);
                let k = choose|k: int| 0 <= k < prev.len() && has_backslash_parent(#[trigger] prev[k]);
                match cs.last() {
                    Part::Normal(n) => {
                        assert(now == prev.push(n));
                        assert(now[k] == prev[k]);
                    },
                    _ => {
                        assert(now == prev);
                    },
                }
            } else {
                match cs.last() {
                    Part::Normal(n) => {
                        assert(now == prev.push(n));
                        assert(now[now.len() - 1] == n);
                    },
                    _ => {},
                }
            }
        }
    }
}

} // verus!
