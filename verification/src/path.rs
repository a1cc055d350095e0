//! Filesystem paths as sequences of components, with the meaning that
//! `std::path` gives them on Unix: a path is equal to another when their
//! components are equal, and joining, stripping a prefix, taking the parent
//! or the file name all work component by component. Each path also keeps
//! its text as written, which these operations carry as `std::path` does
//! and which is how the path is shown.
use vstd::prelude::*;

use crate::text::{push_char, push_str, views};

verus! {

/// One component of a path, as the library holds it.
#[derive(Debug, PartialEq, Eq)]
pub enum Component {
    /// The leading `/` of an absolute path.
    RootDir,
    /// A leading `.` of a relative path.
    CurDir,
    /// A `..` component.
    ParentDir,
    /// Any other component: a file or directory name.
    Normal(String),
}

/// The mathematical model of a component.
pub enum Comp {
    Root,
    Cur,
    Parent,
    Name(Seq<char>),
}

impl View for Component {
    type V = Comp;

    open spec fn view(&self) -> Comp {
        match self {
            Component::RootDir => Comp::Root,
            Component::CurDir => Comp::Cur,
            Component::ParentDir => Comp::Parent,
            Component::Normal(s) => Comp::Name(s@),
        }
    }
}

impl Clone for Component {
    fn clone(&self) -> (r: Self)
        ensures
            r@ == self@,
    {
        match self {
            Component::RootDir => Component::RootDir,
            Component::CurDir => Component::CurDir,
            Component::ParentDir => Component::ParentDir,
            Component::Normal(s) => Component::Normal(s.clone()),
        }
    }
}

/// `n` can stand as a file name: non-empty, without a separator, and
/// neither `.` nor `..`.
pub open spec fn name_ok(n: Seq<char>) -> bool {
    &&& n.len() > 0
    &&& !n.contains('/')
    &&& n != seq!['.']
    &&& n != seq!['.', '.']
}

/// The sequences of components that some path has: a root or a current
/// directory only in front, and only proper names.
pub open spec fn wf(p: Seq<Comp>) -> bool {
    &&& forall|i: int| 0 <= i < p.len() && #[trigger] p[i] is Root ==> i == 0
    &&& forall|i: int| 0 <= i < p.len() && #[trigger] p[i] is Cur ==> i == 0
    &&& forall|i: int| 0 <= i < p.len() && #[trigger] p[i] is Name ==> name_ok(p[i]->Name_0)
}

/// A filesystem path: its components, and its text as written, which is
/// how `Path::display` shows it.
#[derive(Debug)]
pub struct SysPath {
    comps: Vec<Component>,
    text: String,
}

/// The models of a vector of components.
pub open spec fn comps_view(v: Seq<Component>) -> Seq<Comp> {
    v.map_values(|c: Component| c@)
}

impl View for SysPath {
    type V = Seq<Comp>;

    closed spec fn view(&self) -> Seq<Comp> {
        comps_view(self.comps@)
    }
}

/* ------------------------------------------------------------------ */
/* Specifications                                                      */

/// The segments of `s` between separators, from left to right; empty
/// segments included.
pub open spec fn segments(s: Seq<char>) -> Seq<Seq<char>>
    decreases s.len(),
{
    if s.len() == 0 {
        seq![Seq::empty()]
    } else {
        let prev = segments(s.drop_last());
        if s.last() == '/' {
            prev.push(Seq::empty())
        } else {
            prev.update(prev.len() - 1, prev.last().push(s.last()))
        }
    }
}

/// The component that a segment stands for, if any: empty segments and
/// `.` stand for none.
pub open spec fn segment_comps(seg: Seq<char>) -> Seq<Comp> {
    if seg.len() == 0 || seg == seq!['.'] {
        Seq::empty()
    } else if seg == seq!['.', '.'] {
        seq![Comp::Parent]
    } else {
        seq![Comp::Name(seg)]
    }
}

/// The components of a list of segments.
pub open spec fn segments_comps(segs: Seq<Seq<char>>) -> Seq<Comp>
    decreases segs.len(),
{
    if segs.len() == 0 {
        Seq::empty()
    } else {
        segments_comps(segs.drop_last()) + segment_comps(segs.last())
    }
}

/// `s` starts with the root.
pub open spec fn starts_with_root(s: Seq<char>) -> bool {
    s.len() > 0 && s[0] == '/'
}

/// `s` is relative and starts with a `.` component.
pub open spec fn starts_with_cur(s: Seq<char>) -> bool {
    &&& s.len() > 0
    &&& s[0] == '.'
    &&& (s.len() == 1 || s[1] == '/')
}

/// The components of the path written `s`.
pub open spec fn parse(s: Seq<char>) -> Seq<Comp> {
    let head = if starts_with_root(s) {
        seq![Comp::Root]
    } else if starts_with_cur(s) {
        seq![Comp::Cur]
    } else {
        Seq::empty()
    };
    head + segments_comps(segments(s))
}

/// The text of one component.
pub open spec fn comp_text(c: Comp) -> Seq<char> {
    match c {
        Comp::Root => seq!['/'],
        Comp::Cur => seq!['.'],
        Comp::Parent => seq!['.', '.'],
        Comp::Name(n) => n,
    }
}

/// How a path is written: its components, separated by `/`.
pub open spec fn render(p: Seq<Comp>) -> Seq<char>
    decreases p.len(),
{
    if p.len() == 0 {
        Seq::empty()
    } else {
        let q = p.drop_last();
        let sep = if q.len() == 0 || q.last() is Root {
            Seq::empty()
        } else {
            seq!['/']
        };
        render(q) + sep + comp_text(p.last())
    }
}

/// `p` is absolute.
pub open spec fn absolute(p: Seq<Comp>) -> bool {
    p.len() > 0 && p[0] is Root
}

/// `b` pushed onto `a`, as `PathBuf::push` does: an absolute `b` replaces
/// `a`; a leading `.` of `b` disappears behind a non-empty `a`.
pub open spec fn join(a: Seq<Comp>, b: Seq<Comp>) -> Seq<Comp> {
    if absolute(b) {
        b
    } else if a.len() > 0 && b.len() > 0 && b[0] is Cur {
        a + b.drop_first()
    } else {
        a + b
    }
}

/// `base` is a prefix of `p`, component by component.
pub open spec fn has_prefix(p: Seq<Comp>, base: Seq<Comp>) -> bool {
    base.len() <= p.len() && p.take(base.len() as int) == base
}

/// What remains of `p` once `base` is stripped from its front.
pub open spec fn strip_prefix(p: Seq<Comp>, base: Seq<Comp>) -> Option<Seq<Comp>> {
    if has_prefix(p, base) {
        Some(p.skip(base.len() as int))
    } else {
        None
    }
}

/// The parent of `p`: `p` without its last component, unless `p` is
/// empty or the root.
pub open spec fn parent(p: Seq<Comp>) -> Option<Seq<Comp>> {
    if p.len() == 0 || p.last() is Root {
        None
    } else {
        Some(p.drop_last())
    }
}

/// The file name of `p`: its last component when that is a name.
pub open spec fn file_name(p: Seq<Comp>) -> Option<Seq<char>> {
    if p.len() > 0 && p.last() is Name {
        Some(p.last()->Name_0)
    } else {
        None
    }
}

/// The index of the last `.` in `n`, or -1.
pub open spec fn last_dot(n: Seq<char>) -> int
    decreases n.len(),
{
    if n.len() == 0 {
        -1
    } else if n.last() == '.' {
        n.len() - 1
    } else {
        last_dot(n.drop_last())
    }
}

/// The extension of a file name: what follows its last `.`, unless the
/// name has no `.` or its only `.` is in front.
pub open spec fn name_extension(n: Seq<char>) -> Option<Seq<char>> {
    let k = last_dot(n);
    if k <= 0 {
        None
    } else {
        Some(n.skip(k + 1))
    }
}

/// The extension of `p`'s file name.
pub open spec fn extension(p: Seq<Comp>) -> Option<Seq<char>> {
    match file_name(p) {
        Some(n) => name_extension(n),
        None => None,
    }
}

/* ------------------------------------------------------------------ */
/* The text of a path                                                  */

/// A segment that stands for a component: neither empty nor `.`.
pub open spec fn is_real(seg: Seq<char>) -> bool {
    seg.len() > 0 && seg != seq!['.']
}

/// The index of the last segment before `end` that stands for a
/// component, or -1.
pub open spec fn last_real(segs: Seq<Seq<char>>, end: int) -> int
    decreases end,
{
    if end <= 0 {
        -1
    } else if is_real(segs[end - 1]) {
        end - 1
    } else {
        last_real(segs, end - 1)
    }
}

/// The index of the segment that stands for the component `m` places on
/// from the segment `from` (counting from 0), or -1.
pub open spec fn nth_real(segs: Seq<Seq<char>>, m: int, from: int) -> int
    decreases segs.len() - from,
{
    if from < 0 || from >= segs.len() {
        -1
    } else if is_real(segs[from]) {
        if m <= 0 {
            from
        } else {
            nth_real(segs, m - 1, from + 1)
        }
    } else {
        nth_real(segs, m, from + 1)
    }
}

/// Segments written one after the other with `/` between them.
pub open spec fn join_segs(segs: Seq<Seq<char>>) -> Seq<char>
    decreases segs.len(),
{
    if segs.len() == 0 {
        Seq::empty()
    } else if segs.len() == 1 {
        segs[0]
    } else {
        join_segs(segs.drop_last()) + seq!['/'] + segs.last()
    }
}

/// The text of the root or leading `.` that `s` starts with, if any.
pub open spec fn head_text(s: Seq<char>) -> Seq<char> {
    if starts_with_root(s) {
        seq!['/']
    } else if starts_with_cur(s) {
        seq!['.']
    } else {
        Seq::empty()
    }
}

/// `s` up to its last component, without the `/` and `.` after it, as
/// `Path` shows a path that it has trimmed at the end.
pub open spec fn trim_end_text(s: Seq<char>) -> Seq<char> {
    let segs = segments(s);
    let l = last_real(segs, segs.len() as int);
    if l >= 0 {
        join_segs(segs.take(l + 1))
    } else {
        head_text(s)
    }
}

/// The text of the parent of the path written `s`, as `Path::parent`
/// shows it: `s` up to the component before its last one.
pub open spec fn parent_text(s: Seq<char>) -> Seq<char> {
    let segs = segments(s);
    let l = last_real(segs, segs.len() as int);
    if l < 0 {
        Seq::empty()
    } else {
        let k = last_real(segs, l);
        if k >= 0 {
            join_segs(segs.take(k + 1))
        } else {
            head_text(s)
        }
    }
}

/// The text of what remains of the path written `s` once its first `k`
/// components are stripped, as `Path::strip_prefix` shows it: from the
/// next component to the last one.
pub open spec fn strip_text(s: Seq<char>, k: int) -> Seq<char> {
    if k <= 0 {
        trim_end_text(s)
    } else {
        let segs = segments(s);
        let m = if starts_with_root(s) || starts_with_cur(s) {
            k - 1
        } else {
            k
        };
        let f = nth_real(segs, m, 0);
        let l = last_real(segs, segs.len() as int);
        if f < 0 {
            Seq::empty()
        } else {
            join_segs(segs.subrange(f, l + 1))
        }
    }
}

/// The text of `b` pushed onto `a`, as `PathBuf::push` writes it: an
/// absolute `b` replaces `a`; else a `/` goes between them unless `a` is
/// empty or ends with one.
pub open spec fn push_text(a: Seq<char>, b: Seq<char>) -> Seq<char> {
    if starts_with_root(b) || a.len() == 0 {
        b
    } else if a.last() == '/' {
        a + b
    } else {
        a + seq!['/'] + b
    }
}

/* ------------------------------------------------------------------ */
/* Lemmas                                                              */

proof fn lemma_segments(s: Seq<char>)
    ensures
        segments(s).len() >= 1,
        forall|i: int| 0 <= i < segments(s).len() ==> !(#[trigger] segments(s)[i]).contains('/'),
    decreases s.len(),
{
    if s.len() > 0 {
        lemma_segments(s.drop_last());
        let prev = segments(s.drop_last());
        if s.last() != '/' {
            let l = prev.last().push(s.last());
            assert forall|i: int| 0 <= i < segments(s).len() implies !(
            #[trigger] segments(s)[i]).contains('/') by {
                if i == prev.len() - 1 {
                    assert(segments(s)[i] == l);
                    if l.contains('/') {
                        let j = choose|j: int| 0 <= j < l.len() && l[j] == '/';
                        assert(prev.last()[j] == '/');
                    }
                }
            }
        } else {
            assert forall|i: int| 0 <= i < segments(s).len() implies !(
            #[trigger] segments(s)[i]).contains('/') by {
                if i < prev.len() {
                    assert(segments(s)[i] == prev[i]);
                }
            }
        }
    }
}

proof fn lemma_segments_comps(segs: Seq<Seq<char>>)
    requires
        forall|i: int| 0 <= i < segs.len() ==> !(#[trigger] segs[i]).contains('/'),
    ensures
        forall|i: int|
            0 <= i < segments_comps(segs).len() ==> {
                let c = #[trigger] segments_comps(segs)[i];
                c is Parent || (c is Name && name_ok(c->Name_0))
            },
    decreases segs.len(),
{
    if segs.len() > 0 {
        lemma_segments_comps(segs.drop_last());
        assert(!segs[segs.len() - 1].contains('/'));
    }
}

/// Every path written as a string has well-formed components.
#[verifier::spinoff_prover]
pub proof fn lemma_parse_wf(s: Seq<char>)
    ensures
        wf(parse(s)),
{
    lemma_segments(s);
    lemma_segments_comps(segments(s));
    let p = parse(s);
    let t = segments_comps(segments(s));
    assert forall|i: int| 0 <= i < p.len() && #[trigger] p[i] is Root implies i == 0 by {
        if i > 0 || !(starts_with_root(s) || starts_with_cur(s)) {
            let k = if starts_with_root(s) || starts_with_cur(s) { i - 1 } else { i };
            assert(p[i] == t[k]);
        }
    }
    assert forall|i: int| 0 <= i < p.len() && #[trigger] p[i] is Cur implies i == 0 by {
        if i > 0 || !(starts_with_root(s) || starts_with_cur(s)) {
            let k = if starts_with_root(s) || starts_with_cur(s) { i - 1 } else { i };
            assert(p[i] == t[k]);
        }
    }
    assert forall|i: int| 0 <= i < p.len() && #[trigger] p[i] is Name implies name_ok(
        p[i]->Name_0,
    ) by {
        let k = if starts_with_root(s) || starts_with_cur(s) { i - 1 } else { i };
        assert(p[i] == t[k]);
    }
}

/// Joining keeps well-formed components well-formed.
pub proof fn lemma_join_wf(a: Seq<Comp>, b: Seq<Comp>)
    requires
        wf(a),
        wf(b),
    ensures
        wf(join(a, b)),
{
    let j = join(a, b);
    if !absolute(b) {
        if a.len() > 0 && b.len() > 0 && b[0] is Cur {
            assert forall|i: int| 0 <= i < j.len() && #[trigger] j[i] is Name implies name_ok(
                j[i]->Name_0,
            ) by {
                if i >= a.len() {
                    assert(j[i] == b[i - a.len() + 1]);
                }
            }
            assert forall|i: int| 0 <= i < j.len() && #[trigger] j[i] is Root implies i == 0 by {
                if i >= a.len() {
                    assert(j[i] == b[i - a.len() + 1]);
                }
            }
            assert forall|i: int| 0 <= i < j.len() && #[trigger] j[i] is Cur implies i == 0 by {
                if i >= a.len() {
                    assert(j[i] == b[i - a.len() + 1]);
                }
            }
        } else {
            assert forall|i: int| 0 <= i < j.len() && #[trigger] j[i] is Name implies name_ok(
                j[i]->Name_0,
            ) by {
                if i >= a.len() {
                    assert(j[i] == b[i - a.len()]);
                }
            }
            assert forall|i: int| 0 <= i < j.len() && #[trigger] j[i] is Root implies i == 0 by {
                if i >= a.len() {
                    assert(j[i] == b[i - a.len()]);
                }
            }
            assert forall|i: int| 0 <= i < j.len() && #[trigger] j[i] is Cur implies i == 0 by {
                if i >= a.len() {
                    assert(j[i] == b[i - a.len()]);
                }
            }
        }
    }
}

proof fn lemma_skip_wf(p: Seq<Comp>, k: int)
    requires
        wf(p),
        0 <= k <= p.len(),
    ensures
        wf(p.skip(k)),
{
    let q = p.skip(k);
    assert forall|i: int| 0 <= i < q.len() && #[trigger] q[i] is Name implies name_ok(
        q[i]->Name_0,
    ) by {
        assert(q[i] == p[i + k]);
    }
    assert forall|i: int| 0 <= i < q.len() && #[trigger] q[i] is Root implies i == 0 by {
        assert(q[i] == p[i + k]);
    }
    assert forall|i: int| 0 <= i < q.len() && #[trigger] q[i] is Cur implies i == 0 by {
        assert(q[i] == p[i + k]);
    }
}

proof fn lemma_take_wf(p: Seq<Comp>, k: int)
    requires
        wf(p),
        0 <= k <= p.len(),
    ensures
        wf(p.take(k)),
{
    let q = p.take(k);
    assert forall|i: int| 0 <= i < q.len() && #[trigger] q[i] is Name implies name_ok(
        q[i]->Name_0,
    ) by {
        assert(q[i] == p[i]);
    }
    assert forall|i: int| 0 <= i < q.len() && #[trigger] q[i] is Root implies i == 0 by {
        assert(q[i] == p[i]);
    }
    assert forall|i: int| 0 <= i < q.len() && #[trigger] q[i] is Cur implies i == 0 by {
        assert(q[i] == p[i]);
    }
}

/* ------------------------------------------------------------------ */
/* Laws                                                                */

/// Joining a base with what stripping it from a path left gives the
/// path back.
pub proof fn law_join_after_strip(p: Seq<Comp>, base: Seq<Comp>)
    requires
        wf(p),
        wf(base),
        has_prefix(p, base),
    ensures
        join(base, p.skip(base.len() as int)) == p,
{
    let rel = p.skip(base.len() as int);
    if base.len() == 0 {
        assert(rel =~= p);
        assert(Seq::<Comp>::empty() + p =~= p);
    } else {
        if rel.len() > 0 {
            assert(rel[0] == p[base.len() as int]);
        }
        assert(base + rel =~= p);
    }
}

/// Stripping a base from a path joined onto it gives the joined path
/// back, unless the joined path starts with `.` behind a non-empty base
/// (the `.` disappears in the join).
pub proof fn law_strip_after_join(base: Seq<Comp>, rel: Seq<Comp>)
    requires
        wf(base),
        wf(rel),
        !absolute(rel),
        base.len() == 0 || rel.len() == 0 || !(rel[0] is Cur),
    ensures
        strip_prefix(join(base, rel), base) == Some(rel),
{
    let j = join(base, rel);
    assert(j =~= base + rel);
    assert(j.take(base.len() as int) =~= base);
    assert(j.skip(base.len() as int) =~= rel);
}

/// A file moved from under one directory to the same place under another
/// (as stowing does) is found again under the second, and joining its
/// place back onto the first directory gives the file back (as removing
/// does).
pub proof fn law_relocate_round_trip(file: Seq<Comp>, from: Seq<Comp>, to: Seq<Comp>)
    requires
        wf(file),
        wf(from),
        wf(to),
        from.len() > 0,
        has_prefix(file, from),
    ensures
        ({
            let rel = file.skip(from.len() as int);
            &&& strip_prefix(join(to, rel), to) == Some(rel)
            &&& join(from, rel) == file
        }),
{
    let rel = file.skip(from.len() as int);
    lemma_skip_wf(file, from.len() as int);
    if rel.len() > 0 {
        assert(rel[0] == file[from.len() as int]);
    }
    law_strip_after_join(to, rel);
    law_join_after_strip(file, from);
}

/// The texts of the components of `p`.
pub open spec fn texts(p: Seq<Comp>) -> Seq<Seq<char>> {
    p.map_values(|c: Comp| comp_text(c))
}

proof fn lemma_segments_slash(s: Seq<char>)
    ensures
        segments(s.push('/')) == segments(s).push(Seq::empty()),
{
    assert(s.push('/').drop_last() =~= s);
}

#[verifier::spinoff_prover]
proof fn lemma_segments_plain(s: Seq<char>, t: Seq<char>)
    requires
        !t.contains('/'),
    ensures
        segments(s + t) == segments(s).update(
            segments(s).len() - 1,
            segments(s).last() + t,
        ),
    decreases t.len(),
{
    lemma_segments(s);
    if t.len() == 0 {
        assert(s + t =~= s);
        assert(segments(s).last() + t =~= segments(s).last());
        assert(segments(s).update(segments(s).len() - 1, segments(s).last()) =~= segments(s));
    } else {
        let t0 = t.drop_last();
        let c = t.last();
        assert(!t0.contains('/')) by {
            if t0.contains('/') {
                let j = choose|j: int| 0 <= j < t0.len() && t0[j] == '/';
                assert(t[j] == '/');
            }
        }
        assert(c != '/') by {
            assert(t[t.len() - 1] == c);
        }
        lemma_segments_plain(s, t0);
        assert((s + t).drop_last() =~= s + t0);
        assert((s + t).last() == c);
        lemma_segments(s + t0);
        let prev = segments(s + t0);
        assert(prev.last() == segments(s).last() + t0);
        assert(segments(s).last() + t0 + seq![c] =~= segments(s).last() + t);
        assert(prev.last().push(c) =~= segments(s).last() + t);
        assert(segments(s + t) =~= segments(s).update(segments(s).len() - 1, segments(s).last() + t));
    }
}

proof fn lemma_text_plain(c: Comp)
    requires
        !(c is Name) || name_ok(c->Name_0),
    ensures
        !comp_text(c).contains('/') || c is Root,
        comp_text(c).len() > 0,
{
    if c is Cur {
        assert(comp_text(c) =~= seq!['.']);
        assert(!comp_text(c).contains('/')) by {
            if comp_text(c).contains('/') {
                let j = choose|j: int| 0 <= j < comp_text(c).len() && comp_text(c)[j] == '/';
            }
        }
    } else if c is Parent {
        assert(!comp_text(c).contains('/')) by {
            if comp_text(c).contains('/') {
                let j = choose|j: int| 0 <= j < comp_text(c).len() && comp_text(c)[j] == '/';
            }
        }
    }
}

/// The segments of a written path are the texts of its components, with
/// an empty one in front of an absolute path (and behind the root alone).
#[verifier::spinoff_prover]
proof fn lemma_render_segments(p: Seq<Comp>)
    requires
        wf(p),
        p.len() > 0,
    ensures
        segments(render(p)) == if p[0] is Root {
            if p.len() == 1 {
                seq![Seq::<char>::empty(), Seq::<char>::empty()]
            } else {
                seq![Seq::<char>::empty()] + texts(p.skip(1))
            }
        } else {
            texts(p)
        },
    decreases p.len(),
{
    let q = p.drop_last();
    let c = p.last();
    assert(p[p.len() - 1] == c);
    lemma_text_plain(c);
    if p.len() == 1 {
        assert(q =~= Seq::<Comp>::empty());
        assert(render(p) =~= comp_text(c));
        if c is Root {
            assert(render(p) =~= Seq::<char>::empty().push('/'));
            lemma_segments_slash(Seq::empty());
        } else {
            lemma_segments_plain(Seq::empty(), comp_text(c));
            assert(Seq::<char>::empty() + comp_text(c) =~= comp_text(c));
            assert(texts(p) =~= seq![comp_text(c)]);
            assert(segments(Seq::<char>::empty()) =~= seq![Seq::<char>::empty()]);
        }
    } else {
        assert(!(c is Root));
        assert(wf(q)) by {
            lemma_take_wf(p, p.len() - 1);
            assert(p.take(p.len() - 1) =~= q);
        }
        lemma_render_segments(q);
        assert(q[0] == p[0]);
        let t = comp_text(c);
        if q.len() == 1 && q[0] is Root {
            assert(q.drop_last() =~= Seq::<Comp>::empty());
            assert(q.last() == q[0]);
            assert(render(Seq::<Comp>::empty()) =~= Seq::<char>::empty());
            assert(render(q) =~= seq!['/']);
            assert(render(p) =~= seq!['/'] + t);
            lemma_segments_plain(seq!['/'], t);
            assert(seq!['/'] =~= Seq::<char>::empty().push('/'));
            lemma_segments_slash(Seq::empty());
            assert(p.skip(1) =~= seq![c]);
            assert(texts(p.skip(1)) =~= seq![t]);
            assert(Seq::<char>::empty() + t =~= t);
        } else {
            assert(!(q.last() is Root)) by {
                assert(q.last() == p[q.len() - 1]);
            }
            assert(render(p) =~= render(q).push('/') + t);
            lemma_segments_plain(render(q).push('/'), t);
            lemma_segments_slash(render(q));
            assert(Seq::<char>::empty() + t =~= t);
            let sq = segments(render(q));
            assert(segments(render(p)) =~= sq.push(t));
            if p[0] is Root {
                assert(p.skip(1) =~= q.skip(1).push(c));
                assert(texts(p.skip(1)) =~= texts(q.skip(1)).push(t));
            } else {
                assert(texts(p) =~= texts(q).push(t));
            }
        }
    }
}

proof fn lemma_segments_comps_concat(a: Seq<Seq<char>>, b: Seq<Seq<char>>)
    ensures
        segments_comps(a + b) == segments_comps(a) + segments_comps(b),
    decreases b.len(),
{
    if b.len() == 0 {
        assert(a + b =~= a);
        assert(segments_comps(a) + segments_comps(b) =~= segments_comps(a));
    } else {
        lemma_segments_comps_concat(a, b.drop_last());
        assert((a + b).drop_last() =~= a + b.drop_last());
        assert((a + b).last() == b.last());
        assert(segments_comps(a + b) =~= segments_comps(a) + segments_comps(b));
    }
}

proof fn lemma_comps_of_texts(p: Seq<Comp>)
    requires
        forall|i: int|
            0 <= i < p.len() ==> (#[trigger] p[i] is Parent) || (p[i] is Name && name_ok(
                p[i]->Name_0,
            )),
    ensures
        segments_comps(texts(p)) == p,
    decreases p.len(),
{
    if p.len() > 0 {
        let q = p.drop_last();
        assert forall|i: int| 0 <= i < q.len() implies (#[trigger] q[i] is Parent) || (q[i] is Name
            && name_ok(q[i]->Name_0)) by {
            assert(q[i] == p[i]);
        }
        lemma_comps_of_texts(q);
        assert(texts(p).drop_last() =~= texts(q));
        assert(texts(p).last() == comp_text(p.last()));
        assert(p[p.len() - 1] == p.last());
        let c = p.last();
        if c is Parent {
            assert(comp_text(c) =~= seq!['.', '.']);
            assert(comp_text(c) != seq!['.']) by {
                assert(comp_text(c).len() != seq!['.'].len());
            }
        }
        assert(segment_comps(comp_text(c)) =~= seq![c]);
        assert(p =~= q.push(c));
    }
}

/// The text of a component ends where a separator follows it.
#[verifier::spinoff_prover]
proof fn lemma_render_front(p: Seq<Comp>)
    requires
        wf(p),
        p.len() > 0,
    ensures
        render(p).len() >= comp_text(p[0]).len(),
        render(p).take(comp_text(p[0]).len() as int) == comp_text(p[0]),
        !(p[0] is Root) && p.len() > 1 ==> render(p).len() > comp_text(p[0]).len() && render(
            p,
        )[comp_text(p[0]).len() as int] == '/',
    decreases p.len(),
{
    let q = p.drop_last();
    if p.len() == 1 {
        assert(q =~= Seq::<Comp>::empty());
        assert(render(p) =~= comp_text(p[0]));
    } else {
        assert(wf(q)) by {
            lemma_take_wf(p, p.len() - 1);
            assert(p.take(p.len() - 1) =~= q);
        }
        lemma_render_front(q);
        assert(q[0] == p[0]);
        let sep = if q.len() == 0 || q.last() is Root {
            Seq::<char>::empty()
        } else {
            seq!['/']
        };
        assert(render(p) == render(q) + sep + comp_text(p.last()));
        let k = comp_text(p[0]).len() as int;
        assert(render(p).take(k) =~= render(q).take(k));
        if !(p[0] is Root) {
            if q.len() == 1 {
                assert(q.drop_last() =~= Seq::<Comp>::empty());
                assert(q.last() == q[0]);
                assert(render(Seq::<Comp>::empty()) =~= Seq::<char>::empty());
                assert(render(q) =~= comp_text(p[0]));
                assert(sep =~= seq!['/']);
                assert(render(p)[k] == '/');
            } else {
                assert(render(p)[k] == render(q)[k]);
            }
        }
    }
}

/// Reading a written path gives back its components: a path is saved as
/// text and read again unchanged.
#[verifier::spinoff_prover]
pub proof fn law_parse_render(p: Seq<Comp>)
    requires
        wf(p),
    ensures
        parse(render(p)) == p,
{
    if p.len() == 0 {
        assert(render(p) =~= Seq::<char>::empty());
        assert(segments(Seq::<char>::empty()) =~= seq![Seq::<char>::empty()]);
        let e1 = seq![Seq::<char>::empty()];
        assert(e1.drop_last() =~= Seq::<Seq<char>>::empty());
        assert(e1.last() == Seq::<char>::empty());
        assert(segment_comps(Seq::<char>::empty()) =~= Seq::<Comp>::empty());
        assert(segments_comps(Seq::<Seq<char>>::empty()) =~= Seq::<Comp>::empty());
        assert(segments_comps(e1) == segments_comps(e1.drop_last()) + segment_comps(e1.last()));
        assert(segments_comps(e1) =~= Seq::<Comp>::empty());
        assert(parse(render(p)) =~= p);
    } else {
        let s = render(p);
        lemma_render_segments(p);
        lemma_render_front(p);
        let c0 = p[0];
        lemma_text_plain(c0);
        let t0 = comp_text(c0);
        assert(s[0] == t0[0]) by {
            assert(s.take(t0.len() as int)[0] == t0[0]);
        }
        let rest = p.skip(1);
        assert forall|i: int|
            0 <= i < rest.len() implies (#[trigger] rest[i] is Parent) || (rest[i] is Name
            && name_ok(rest[i]->Name_0)) by {
            assert(rest[i] == p[i + 1]);
        }
        lemma_comps_of_texts(rest);
        assert(texts(p) =~= seq![t0] + texts(rest));
        lemma_segments_comps_concat(seq![t0], texts(rest));
        assert(seq![t0].drop_last() =~= Seq::<Seq<char>>::empty());
        assert(seq![t0].last() == t0);
        assert(segments_comps(seq![t0]) == segments_comps(Seq::<Seq<char>>::empty()) + segment_comps(t0));
        if c0 is Root {
            assert(starts_with_root(s));
            if p.len() == 1 {
                let ee = seq![Seq::<char>::empty(), Seq::<char>::empty()];
                let e1 = seq![Seq::<char>::empty()];
                assert(ee.drop_last() =~= e1);
                assert(e1.drop_last() =~= Seq::<Seq<char>>::empty());
                assert(e1.last() == Seq::<char>::empty());
                assert(ee.last() == Seq::<char>::empty());
                assert(segment_comps(Seq::<char>::empty()) =~= Seq::<Comp>::empty());
                assert(segments_comps(Seq::<Seq<char>>::empty()) =~= Seq::<Comp>::empty());
                assert(segments_comps(e1) == segments_comps(e1.drop_last()) + segment_comps(e1.last()));
                assert(segments_comps(e1) =~= Seq::<Comp>::empty());
                assert(segments_comps(ee) == segments_comps(ee.drop_last()) + segment_comps(ee.last()));
                assert(segments_comps(ee) =~= Seq::<Comp>::empty());
                assert(p =~= seq![Comp::Root]);
                assert(parse(s) =~= p);
            } else {
                let e = seq![Seq::<char>::empty()];
                lemma_segments_comps_concat(e, texts(rest));
                assert(e.drop_last() =~= Seq::<Seq<char>>::empty());
                assert(e.last() == Seq::<char>::empty());
                assert(segment_comps(Seq::<char>::empty()) =~= Seq::<Comp>::empty());
                assert(segments_comps(Seq::<Seq<char>>::empty()) =~= Seq::<Comp>::empty());
                assert(segments_comps(e) == segments_comps(e.drop_last()) + segment_comps(e.last()));
                assert(segments_comps(e) =~= Seq::<Comp>::empty());
                assert(p =~= seq![Comp::Root] + rest);
                assert(parse(s) =~= p);
            }
        } else if c0 is Cur {
            assert(t0 =~= seq!['.']);
            assert(!starts_with_root(s));
            if p.len() == 1 {
                assert(p.drop_last() =~= Seq::<Comp>::empty());
                assert(render(Seq::<Comp>::empty()) =~= Seq::<char>::empty());
                assert(s =~= t0);
            }
            assert(starts_with_cur(s));
            assert(segment_comps(t0) =~= Seq::<Comp>::empty());
            assert(p =~= seq![Comp::Cur] + rest);
            assert(parse(s) =~= p);
        } else {
            assert(!starts_with_root(s)) by {
                if c0 is Name {
                    assert(t0.contains(t0[0]));
                } else {
                    assert(t0 =~= seq!['.', '.']);
                }
            }
            assert(!starts_with_cur(s)) by {
                if c0 is Parent {
                    assert(t0 =~= seq!['.', '.']);
                    assert(s.take(2)[1] == '.');
                } else if s[0] == '.' {
                    assert(t0 != seq!['.']);
                    if t0.len() == 1 {
                        assert(t0 =~= seq!['.']);
                    }
                    assert(s.take(t0.len() as int)[1] == t0[1]);
                    assert(t0.contains(t0[1]));
                }
            }
            assert(segment_comps(t0) =~= seq![c0]);
            assert(p =~= seq![c0] + rest);
            assert(parse(s) =~= p);
        }
    }
}

/* ------------------------------------------------------------------ */
/* Executable operations                                               */

fn comp_equal(a: &Component, b: &Component) -> (r: bool)
    ensures
        r == (a@ == b@),
{
    match a {
        Component::RootDir => match b {
            Component::RootDir => true,
            _ => false,
        },
        Component::CurDir => match b {
            Component::CurDir => true,
            _ => false,
        },
        Component::ParentDir => match b {
            Component::ParentDir => true,
            _ => false,
        },
        Component::Normal(x) => match b {
            Component::Normal(y) => {
                let e = (*x) == (*y);
                assert(e == (x@ == y@));
                e
            },
            _ => false,
        },
    }
}

fn is_dot(seg: &String) -> (r: bool)
    ensures
        r == (seg@ == seq!['.']),
{
    if seg.unicode_len() == 1 && seg.as_str().get_char(0) == '.' {
        assert(seg@ =~= seq!['.']);
        true
    } else {
        false
    }
}

fn is_dot_dot(seg: &String) -> (r: bool)
    ensures
        r == (seg@ == seq!['.', '.']),
{
    if seg.unicode_len() == 2 && seg.as_str().get_char(0) == '.' && seg.as_str().get_char(1)
        == '.' {
        assert(seg@ =~= seq!['.', '.']);
        true
    } else {
        false
    }
}

/// Appends the component that the segment `seg` stands for, if any.
fn push_segment(comps: &mut Vec<Component>, seg: &String)
    ensures
        comps_view(final(comps)@) == comps_view(old(comps)@) + segment_comps(seg@),
{
    let ghost before = comps@;
    if seg.unicode_len() == 0 || is_dot(seg) {
        assert(comps_view(comps@) =~= comps_view(before) + segment_comps(seg@));
    } else if is_dot_dot(seg) {
        comps.push(Component::ParentDir);
        assert(comps_view(comps@) =~= comps_view(before) + segment_comps(seg@));
    } else {
        comps.push(Component::Normal(seg.clone()));
        assert(comps_view(comps@) =~= comps_view(before) + segment_comps(seg@));
    }
}

proof fn lemma_last_real(segs: Seq<Seq<char>>, end: int)
    requires
        0 <= end <= segs.len(),
    ensures
        -1 <= last_real(segs, end) < end,
        last_real(segs, end) >= 0 ==> is_real(segs[last_real(segs, end)]),
        forall|i: int| last_real(segs, end) < i < end ==> !is_real(#[trigger] segs[i]),
    decreases end,
{
    if end > 0 && !is_real(segs[end - 1]) {
        lemma_last_real(segs, end - 1);
    }
}

proof fn lemma_nth_real(segs: Seq<Seq<char>>, m: int, from: int)
    requires
        0 <= from,
    ensures
        nth_real(segs, m, from) == -1 || (from <= nth_real(segs, m, from) < segs.len() && is_real(
            segs[nth_real(segs, m, from)],
        )),
    decreases segs.len() - from,
{
    if from < segs.len() {
        if is_real(segs[from]) {
            if m > 0 {
                lemma_nth_real(segs, m - 1, from + 1);
            }
        } else {
            lemma_nth_real(segs, m, from + 1);
        }
    }
}

/// The segments of `s` between separators.
fn split_segments(s: &str) -> (r: Vec<String>)
    ensures
        views(r@) == segments(s@),
{
    let n = s.unicode_len();
    let mut r: Vec<String> = Vec::new();
    let mut cur = String::new();
    let mut i: usize = 0;
    assert(s@.take(0) =~= Seq::<char>::empty());
    assert(views(r@) =~= segments(s@.take(0)).drop_last());
    while i < n
        invariant
            n == s@.len(),
            i <= n,
            views(r@) == segments(s@.take(i as int)).drop_last(),
            cur@ == segments(s@.take(i as int)).last(),
        decreases n - i,
    {
        let c = s.get_char(i);
        let ghost prev = segments(s@.take(i as int));
        proof {
            lemma_segments(s@.take(i as int));
            assert(s@.take(i + 1).drop_last() =~= s@.take(i as int));
            assert(s@.take(i + 1).last() == c);
        }
        if c == '/' {
            let ghost before = r@;
            r.push(cur);
            cur = String::new();
            assert(views(r@) =~= views(before).push(prev.last()));
            assert(segments(s@.take(i + 1)) == prev.push(Seq::empty()));
            assert(views(r@) =~= segments(s@.take(i + 1)).drop_last());
        } else {
            push_char(&mut cur, c);
            proof {
                let next = segments(s@.take(i + 1));
                assert(next == prev.update(prev.len() - 1, prev.last().push(c)));
                assert(next.drop_last() =~= prev.drop_last());
            }
        }
        i = i + 1;
    }
    let ghost before = r@;
    r.push(cur);
    proof {
        assert(s@.take(n as int) =~= s@);
        lemma_segments(s@);
        assert(views(r@) =~= views(before).push(segments(s@).last()));
        assert(views(r@) =~= segments(s@));
    }
    r
}

/// Whether a segment stands for a component.
fn segment_is_real(seg: &String) -> (r: bool)
    ensures
        r == is_real(seg@),
{
    seg.unicode_len() > 0 && !is_dot(seg)
}

/// The index of the last segment before `end` that stands for a
/// component, if any.
fn last_real_at(segs: &Vec<String>, end: usize) -> (r: Option<usize>)
    requires
        end <= segs@.len(),
    ensures
        match r {
            Some(i) => i == last_real(views(segs@), end as int),
            None => last_real(views(segs@), end as int) == -1,
        },
{
    let mut i = end;
    while i > 0 && !segment_is_real(&segs[i - 1])
        invariant
            i <= end <= segs@.len(),
            last_real(views(segs@), end as int) == last_real(views(segs@), i as int),
        decreases i,
    {
        assert(views(segs@)[i - 1] == segs@[i - 1]@);
        i = i - 1;
    }
    if i == 0 {
        None
    } else {
        assert(views(segs@)[i - 1] == segs@[i - 1]@);
        Some(i - 1)
    }
}

/// The index of the segment that stands for the component `m` places on
/// from the first one, if any.
fn nth_real_at(segs: &Vec<String>, m: usize) -> (r: Option<usize>)
    ensures
        match r {
            Some(i) => i == nth_real(views(segs@), m as int, 0),
            None => nth_real(views(segs@), m as int, 0) == -1,
        },
{
    let mut i: usize = 0;
    let mut left = m;
    while i < segs.len()
        invariant
            i <= segs@.len(),
            nth_real(views(segs@), m as int, 0) == nth_real(views(segs@), left as int, i as int),
        decreases segs.len() - i,
    {
        assert(views(segs@)[i as int] == segs@[i as int]@);
        if segment_is_real(&segs[i]) {
            if left == 0 {
                return Some(i);
            }
            left = left - 1;
        }
        i = i + 1;
    }
    None
}

/// The segments from `from` to `to`, written with `/` between them.
fn join_range(segs: &Vec<String>, from: usize, to: usize) -> (r: String)
    requires
        from <= to <= segs@.len(),
    ensures
        r@ == join_segs(views(segs@).subrange(from as int, to as int)),
{
    let mut r = String::new();
    let mut i = from;
    assert(views(segs@).subrange(from as int, from as int) =~= Seq::<Seq<char>>::empty());
    while i < to
        invariant
            from <= i <= to <= segs@.len(),
            r@ == join_segs(views(segs@).subrange(from as int, i as int)),
        decreases to - i,
    {
        let ghost part = views(segs@).subrange(from as int, i + 1);
        assert(part.drop_last() =~= views(segs@).subrange(from as int, i as int));
        assert(part.last() == segs@[i as int]@);
        if i > from {
            push_char(&mut r, '/');
        } else {
            assert(part.len() == 1);
        }
        push_str(&mut r, segs[i].as_str());
        i = i + 1;
    }
    r
}

/// The text of the root or leading `.` that `s` starts with, if any.
fn head_of(s: &str) -> (r: String)
    ensures
        r@ == head_text(s@),
{
    let n = s.unicode_len();
    let mut r = String::new();
    if n > 0 && s.get_char(0) == '/' {
        push_char(&mut r, '/');
    } else if n > 0 && s.get_char(0) == '.' && (n == 1 || s.get_char(1) == '/') {
        push_char(&mut r, '.');
    }
    assert(r@ =~= head_text(s@));
    r
}

/// The text of the path written `s` up to its last component.
fn trim_end_of(s: &str) -> (r: String)
    ensures
        r@ == trim_end_text(s@),
{
    let segs = split_segments(s);
    proof {
        lemma_last_real(segments(s@), segments(s@).len() as int);
    }
    match last_real_at(&segs, segs.len()) {
        Some(l) => {
            assert(views(segs@).subrange(0, l + 1) =~= segments(s@).take(l + 1));
            join_range(&segs, 0, l + 1)
        },
        None => head_of(s),
    }
}

/// The text of the parent of the path written `s`.
fn parent_of(s: &str) -> (r: String)
    ensures
        r@ == parent_text(s@),
{
    let segs = split_segments(s);
    proof {
        lemma_last_real(segments(s@), segments(s@).len() as int);
    }
    match last_real_at(&segs, segs.len()) {
        Some(l) => {
            proof {
                lemma_last_real(segments(s@), l as int);
            }
            match last_real_at(&segs, l) {
                Some(k) => {
                    assert(views(segs@).subrange(0, k + 1) =~= segments(s@).take(k + 1));
                    join_range(&segs, 0, k + 1)
                },
                None => head_of(s),
            }
        },
        None => String::new(),
    }
}

/// The text of what remains of the path written `s` once its first `k`
/// components are stripped.
fn strip_of(s: &str, k: usize) -> (r: String)
    ensures
        r@ == strip_text(s@, k as int),
{
    if k == 0 {
        return trim_end_of(s);
    }
    let n = s.unicode_len();
    let has_head = n > 0 && (s.get_char(0) == '/' || (s.get_char(0) == '.' && (n == 1
        || s.get_char(1) == '/')));
    let m = if has_head {
        k - 1
    } else {
        k
    };
    let segs = split_segments(s);
    let ghost sg = segments(s@);
    proof {
        lemma_last_real(sg, sg.len() as int);
        lemma_nth_real(sg, m as int, 0);
    }
    match nth_real_at(&segs, m) {
        Some(f) => {
            let l = last_real_at(&segs, segs.len());
            proof {
                if last_real(sg, sg.len() as int) < f {
                    assert(is_real(sg[f as int]));
                }
            }
            let l = l.unwrap();
            join_range(&segs, f, l + 1)
        },
        None => String::new(),
    }
}

/// The text of `b` pushed onto `a`.
fn push_of(a: &str, b: &str) -> (r: String)
    ensures
        r@ == push_text(a@, b@),
{
    let na = a.unicode_len();
    let nb = b.unicode_len();
    if (nb > 0 && b.get_char(0) == '/') || na == 0 {
        return String::from_str(b);
    }
    let mut r = String::from_str(a);
    if a.get_char(na - 1) != '/' {
        push_char(&mut r, '/');
    }
    push_str(&mut r, b);
    r
}

impl SysPath {
    #[verifier::type_invariant]
    spec fn well_formed(self) -> bool {
        wf(self@)
    }

    /// The components of every path are well formed (a root or a `.` only
    /// in front, and only proper names), for proofs about a path held: the
    /// laws of paths apply to it. Nothing happens when it runs.
    pub fn well_formed_components(&self)
        ensures
            wf(self@),
    {
        proof {
            use_type_invariant(self);
        }
    }

    /// How this path is written, as `Path::display` shows it.
    pub closed spec fn written(&self) -> Seq<char> {
        self.text@
    }

    /// How this path is written, as `Path::display` shows it.
    pub fn text(&self) -> (r: String)
        ensures
            r@ == self.written(),
    {
        self.text.clone()
    }

    /// The path with no component.
    pub fn empty() -> (r: SysPath)
        ensures
            r@ == Seq::<Comp>::empty(),
            r.written() == Seq::<char>::empty(),
    {
        let r = SysPath { comps: Vec::new(), text: String::new() };
        assert(r@ =~= Seq::<Comp>::empty());
        r
    }

    /// The path written `s`, read as `Path::new(s)` reads it on Unix.
    #[verifier::spinoff_prover]
    pub fn parse(s: &str) -> (r: SysPath)
        ensures
            r@ == parse(s@),
            r.written() == s@,
    {
        let n = s.unicode_len();
        let mut comps: Vec<Component> = Vec::new();
        if n > 0 && s.get_char(0) == '/' {
            comps.push(Component::RootDir);
        } else if n > 0 && s.get_char(0) == '.' && (n == 1 || s.get_char(1) == '/') {
            comps.push(Component::CurDir);
        }
        let ghost head = comps_view(comps@);
        assert(head =~= if starts_with_root(s@) {
            seq![Comp::Root]
        } else if starts_with_cur(s@) {
            seq![Comp::Cur]
        } else {
            Seq::empty()
        });
        let mut cur = String::new();
        let mut i: usize = 0;
        assert(s@.take(0) =~= Seq::<char>::empty());
        assert(segments(s@.take(0)).drop_last() =~= Seq::<Seq<char>>::empty());
        assert(comps_view(comps@) =~= head + segments_comps(segments(s@.take(0)).drop_last()));
        while i < n
            invariant
                n == s@.len(),
                i <= n,
                comps_view(comps@) == head + segments_comps(segments(s@.take(i as int)).drop_last()),
                cur@ == segments(s@.take(i as int)).last(),
            decreases n - i,
        {
            let c = s.get_char(i);
            let ghost prev = segments(s@.take(i as int));
            proof {
                lemma_segments(s@.take(i as int));
                assert(s@.take(i + 1).drop_last() =~= s@.take(i as int));
                assert(s@.take(i + 1).last() == c);
                assert(prev =~= prev.drop_last().push(prev.last()));
            }
            if c == '/' {
                push_segment(&mut comps, &cur);
                cur = String::new();
                proof {
                    assert(segments(s@.take(i + 1)) == prev.push(Seq::empty()));
                    assert(segments(s@.take(i + 1)).drop_last() =~= prev);
                    assert(segments_comps(prev) == segments_comps(prev.drop_last())
                        + segment_comps(prev.last()));
                    assert(comps_view(comps@) =~= head + segments_comps(segments(s@.take(i + 1)).drop_last()));
                }
            } else {
                push_char(&mut cur, c);
                proof {
                    let next = segments(s@.take(i + 1));
                    assert(next == prev.update(prev.len() - 1, prev.last().push(c)));
                    assert(next.drop_last() =~= prev.drop_last());
                }
            }
            i = i + 1;
        }
        push_segment(&mut comps, &cur);
        proof {
            assert(s@.take(n as int) =~= s@);
            let segs = segments(s@);
            lemma_segments(s@);
            assert(segments_comps(segs) == segments_comps(segs.drop_last()) + segment_comps(
                segs.last(),
            ));
            assert(comps_view(comps@) =~= parse(s@));
            lemma_parse_wf(s@);
        }
        SysPath { comps, text: String::from_str(s) }
    }

    /// This path written from its components, one `/` between each two.
    #[verifier::spinoff_prover]
    pub fn render(&self) -> (r: String)
        ensures
            r@ == render(self@),
    {
        let mut r = String::new();
        let mut i: usize = 0;
        assert(self@.take(0) =~= Seq::<Comp>::empty());
        while i < self.comps.len()
            invariant
                i <= self.comps@.len(),
                self@ == comps_view(self.comps@),
                r@ == render(self@.take(i as int)),
            decreases self.comps.len() - i,
        {
            let ghost q = self@.take(i as int);
            proof {
                assert(self@.take(i + 1).drop_last() =~= q);
            }
            if i > 0 {
                match &self.comps[i - 1] {
                    Component::RootDir => {},
                    _ => {
                        push_char(&mut r, '/');
                    },
                }
            }
            match &self.comps[i] {
                Component::RootDir => push_char(&mut r, '/'),
                Component::CurDir => push_char(&mut r, '.'),
                Component::ParentDir => {
                    push_char(&mut r, '.');
                    push_char(&mut r, '.');
                },
                Component::Normal(name) => push_str(&mut r, name.as_str()),
            }
            proof {
                assert(self@.take(i + 1).last() == self@[i as int]);
                if i > 0 {
                    assert(q.last() == self@[i - 1]);
                }
                assert(r@ =~= render(self@.take(i + 1)));
            }
            i = i + 1;
        }
        assert(self@.take(self.comps.len() as int) =~= self@);
        r
    }

    /// The number of components.
    pub fn len(&self) -> (r: usize)
        ensures
            r == self@.len(),
    {
        self.comps.len()
    }

    /// Whether this path is absolute.
    pub fn is_absolute(&self) -> (r: bool)
        ensures
            r == absolute(self@),
    {
        if self.comps.len() > 0 {
            match &self.comps[0] {
                Component::RootDir => true,
                _ => false,
            }
        } else {
            false
        }
    }

    /// Whether two paths are equal, as `==` on `Path` compares them.
    pub fn same_as(&self, other: &SysPath) -> (r: bool)
        ensures
            r == (self@ == other@),
    {
        if self.comps.len() != other.comps.len() {
            assert(self@.len() != other@.len());
            return false;
        }
        let mut i: usize = 0;
        while i < self.comps.len()
            invariant
                i <= self.comps@.len(),
                self.comps@.len() == other.comps@.len(),
                self@ == comps_view(self.comps@),
                other@ == comps_view(other.comps@),
                forall|k: int| 0 <= k < i ==> self@[k] == other@[k],
            decreases self.comps.len() - i,
        {
            if !comp_equal(&self.comps[i], &other.comps[i]) {
                assert(self@[i as int] != other@[i as int]);
                return false;
            }
            i = i + 1;
        }
        assert(self@ =~= other@);
        true
    }

    /// The components from index `from` on, pushed onto `out`.
    fn push_from(&self, from: usize, out: &mut Vec<Component>)
        requires
            from <= self@.len(),
        ensures
            comps_view(final(out)@) == comps_view(old(out)@) + self@.skip(from as int),
    {
        let ghost start = comps_view(out@);
        let mut i = from;
        assert(self@.skip(from as int).take(0) =~= Seq::<Comp>::empty());
        assert(comps_view(out@) =~= start + self@.skip(from as int).take(0));
        while i < self.comps.len()
            invariant
                from <= i <= self.comps@.len(),
                self@ == comps_view(self.comps@),
                comps_view(out@) == start + self@.skip(from as int).take(i - from),
            decreases self.comps.len() - i,
        {
            let c = self.comps[i].clone();
            let ghost before = out@;
            out.push(c);
            assert(comps_view(out@) =~= comps_view(before).push(c@));
            assert(self@.skip(from as int).take(i + 1 - from) =~= self@.skip(from as int).take(
                i - from,
            ).push(self@[i as int]));
            i = i + 1;
        }
        assert(self@.skip(from as int).take(self.comps.len() - from) =~= self@.skip(from as int));
    }

    /// A copy of this path.
    pub fn duplicate(&self) -> (r: SysPath)
        ensures
            r@ == self@,
            r.written() == self.written(),
    {
        let mut comps: Vec<Component> = Vec::new();
        assert(comps_view(comps@) =~= Seq::<Comp>::empty());
        self.push_from(0, &mut comps);
        assert(self@.skip(0) =~= self@);
        proof {
            use_type_invariant(self);
            assert(comps_view(comps@) =~= self@);
        }
        SysPath { comps, text: self.text.clone() }
    }

    /// `other` pushed onto this path, as `Path::join` does.
    pub fn join(&self, other: &SysPath) -> (r: SysPath)
        ensures
            r@ == join(self@, other@),
            r.written() == push_text(self.written(), other.written()),
    {
        proof {
            use_type_invariant(self);
            use_type_invariant(other);
            lemma_join_wf(self@, other@);
        }
        let text = push_of(self.text.as_str(), other.text.as_str());
        let mut comps: Vec<Component> = Vec::new();
        assert(comps_view(comps@) =~= Seq::<Comp>::empty());
        if other.is_absolute() {
            other.push_from(0, &mut comps);
            assert(other@.skip(0) =~= other@);
            return SysPath { comps, text };
        }
        assert(comps_view(comps@) =~= Seq::<Comp>::empty());
        self.push_from(0, &mut comps);
        assert(self@.skip(0) =~= self@);
        let skip_cur = self.comps.len() > 0 && other.comps.len() > 0 && match &other.comps[0] {
            Component::CurDir => true,
            _ => false,
        };
        if skip_cur {
            other.push_from(1, &mut comps);
            assert(other@.skip(1) =~= other@.drop_first());
        } else {
            other.push_from(0, &mut comps);
            assert(other@.skip(0) =~= other@);
        }
        assert(comps_view(comps@) =~= join(self@, other@));
        SysPath { comps, text }
    }

    /// This path with `base` stripped from its front, as
    /// `Path::strip_prefix` gives it; `None` when `base` is not a prefix.
    pub fn strip_prefix(&self, base: &SysPath) -> (r: Option<SysPath>)
        ensures
            match r {
                Some(q) => strip_prefix(self@, base@) == Some(q@) && q.written() == strip_text(
                    self.written(),
                    base@.len() as int,
                ),
                None => strip_prefix(self@, base@) is None,
            },
    {
        proof {
            use_type_invariant(self);
        }
        if base.comps.len() > self.comps.len() {
            return None;
        }
        let mut i: usize = 0;
        while i < base.comps.len()
            invariant
                i <= base.comps@.len() <= self.comps@.len(),
                self@ == comps_view(self.comps@),
                base@ == comps_view(base.comps@),
                forall|k: int| 0 <= k < i ==> self@[k] == base@[k],
            decreases base.comps.len() - i,
        {
            if !comp_equal(&self.comps[i], &base.comps[i]) {
                assert(self@.take(base@.len() as int)[i as int] != base@[i as int]);
                return None;
            }
            i = i + 1;
        }
        assert(self@.take(base@.len() as int) =~= base@);
        let mut comps: Vec<Component> = Vec::new();
        assert(comps_view(comps@) =~= Seq::<Comp>::empty());
        self.push_from(base.comps.len(), &mut comps);
        proof {
            lemma_skip_wf(self@, base@.len() as int);
            assert(comps_view(comps@) =~= self@.skip(base@.len() as int));
        }
        Some(SysPath { comps, text: strip_of(self.text.as_str(), base.comps.len()) })
    }

    /// The parent of this path, as `Path::parent` gives it.
    pub fn parent(&self) -> (r: Option<SysPath>)
        ensures
            match r {
                Some(q) => parent(self@) == Some(q@) && q.written() == parent_text(self.written()),
                None => parent(self@) is None,
            },
    {
        proof {
            use_type_invariant(self);
        }
        let n = self.comps.len();
        if n == 0 {
            return None;
        }
        match &self.comps[n - 1] {
            Component::RootDir => {
                return None;
            },
            _ => {},
        }
        let mut comps: Vec<Component> = Vec::new();
        let mut i: usize = 0;
        assert(self@.take(0) =~= Seq::<Comp>::empty());
        while i + 1 < n
            invariant
                n == self.comps@.len(),
                n > 0,
                i + 1 <= n,
                self@ == comps_view(self.comps@),
                comps_view(comps@) == self@.take(i as int),
            decreases n - i,
        {
            let c = self.comps[i].clone();
            let ghost before = comps@;
            comps.push(c);
            assert(comps_view(comps@) =~= comps_view(before).push(c@));
            assert(self@.take(i + 1) =~= self@.take(i as int).push(self@[i as int]));
            i = i + 1;
        }
        proof {
            lemma_take_wf(self@, n - 1);
            assert(self@.take(n - 1) =~= self@.drop_last());
        }
        Some(SysPath { comps, text: parent_of(self.text.as_str()) })
    }

    /// The file name of this path, as `Path::file_name` gives it.
    pub fn file_name(&self) -> (r: Option<String>)
        ensures
            match r {
                Some(n) => file_name(self@) == Some(n@),
                None => file_name(self@) is None,
            },
    {
        let n = self.comps.len();
        if n == 0 {
            return None;
        }
        match &self.comps[n - 1] {
            Component::Normal(name) => Some(name.clone()),
            _ => None,
        }
    }
}

/// The extension of a file name, as `Path::extension` gives it.
pub fn extension_of_name(name: &str) -> (r: Option<String>)
    ensures
        match r {
            Some(e) => name_extension(name@) == Some(e@),
            None => name_extension(name@) is None,
        },
{
    let n = name.unicode_len();
    let mut i = n;
    assert(name@.take(n as int) =~= name@);
    while i > 0 && name.get_char(i - 1) != '.'
        invariant
            n == name@.len(),
            i <= n,
            last_dot(name@) == last_dot(name@.take(i as int)),
        decreases i,
    {
        assert(name@.take(i as int).drop_last() =~= name@.take(i - 1));
        i = i - 1;
    }
    proof {
        assert(name@.take(n as int) =~= name@);
        if i > 0 {
            assert(name@.take(i as int).last() == '.');
        } else {
            assert(name@.take(0) =~= Seq::<char>::empty());
        }
    }
    if i <= 1 {
        None
    } else {
        Some(String::from_str(name.substring_char(i, n)))
    }
}

impl SysPath {
    /// The extension of this path's file name, as `Path::extension` gives it.
    pub fn extension(&self) -> (r: Option<String>)
        ensures
            match r {
                Some(e) => extension(self@) == Some(e@),
                None => extension(self@) is None,
            },
    {
        match self.file_name() {
            Some(name) => extension_of_name(name.as_str()),
            None => None,
        }
    }
}

/// Where a file under `from` goes under `to`: its place under `from`,
/// and that place under `to`.
pub fn relocate(file: &SysPath, from: &SysPath, to: &SysPath) -> (r: (SysPath, SysPath))
    requires
        has_prefix(file@, from@),
    ensures
        r.0@ == file@.skip(from@.len() as int),
        r.1@ == join(to@, r.0@),
        r.0.written() == strip_text(file.written(), from@.len() as int),
        r.1.written() == push_text(to.written(), r.0.written()),
{
    let rel = file.strip_prefix(from).unwrap();
    let moved = to.join(&rel);
    (rel, moved)
}

impl Clone for SysPath {
    fn clone(&self) -> (r: Self)
        ensures
            r@ == self@,
            r.written() == self.written(),
    {
        self.duplicate()
    }
}

/// Paths are equal when their components are, as `==` on `Path` compares
/// them.
impl PartialEq for SysPath {
    fn eq(&self, other: &SysPath) -> (r: bool) {
        self.same_as(other)
    }
}

impl vstd::std_specs::cmp::PartialEqSpecImpl for SysPath {
    open spec fn obeys_eq_spec() -> bool {
        true
    }

    open spec fn eq_spec(&self, other: &SysPath) -> bool {
        self@ == other@
    }
}

impl Eq for SysPath {

}

} // verus!
