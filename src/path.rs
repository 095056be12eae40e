//! Paths as text: their components, name, stem, extension and parent.
//!
//! A component is represented by its text: `/` for the root, `.` for a
//! leading current-directory marker, `..` for the parent marker, and the name
//! itself for an ordinary part. No ordinary part is empty, `.`, `..` or holds
//! a `/`, so this representation tells the kinds apart.
use vstd::prelude::*;
use crate::text::{chars_of, string_of};

verus! {

/// The parts kept from one stretch between separators: none for an empty
/// stretch or for `.`, the stretch itself otherwise.
pub open spec fn kept(part: Seq<char>) -> Seq<Seq<char>> {
    if part.len() == 0 || part == seq!['.'] {
        seq![]
    } else {
        seq![part]
    }
}

/// Reading `s` from the left: the parts closed so far, and the stretch that
/// is still open.
pub open spec fn scan(s: Seq<char>) -> (Seq<Seq<char>>, Seq<char>)
    decreases s.len(),
{
    if s.len() == 0 {
        (seq![], seq![])
    } else {
        let (done, cur) = scan(s.drop_last());
        if s.last() == '/' {
            (done + kept(cur), seq![])
        } else {
            (done, cur.push(s.last()))
        }
    }
}

/// The components of the part of a path after its root or leading `.`.
pub open spec fn body_components(s: Seq<char>) -> Seq<Seq<char>> {
    scan(s).0 + kept(scan(s).1)
}

/// The path begins with a current-directory marker (`.` alone or `./`).
pub open spec fn starts_with_cur_dir(p: Seq<char>) -> bool {
    p.len() > 0 && p[0] == '.' && (p.len() == 1 || p[1] == '/')
}

/// The components of path `p`, in order.
pub open spec fn components(p: Seq<char>) -> Seq<Seq<char>> {
    if p.len() > 0 && p[0] == '/' {
        seq![seq!['/']] + body_components(p.skip(1))
    } else if starts_with_cur_dir(p) {
        seq![seq!['.']] + body_components(p.skip(1))
    } else {
        body_components(p)
    }
}

/// Whether `cs[from..to]` is a stretch that makes a component.
fn is_kept(cs: &Vec<char>, from: usize, to: usize) -> (r: bool)
    requires
        from <= to <= cs@.len(),
    ensures
        r == (kept(cs@.subrange(from as int, to as int)).len() > 0),
{
    let part = Ghost(cs@.subrange(from as int, to as int));
    if from == to {
        false
    } else if to - from == 1 && cs[from] == '.' {
        assert(part@ =~= seq!['.']);
        false
    } else {
        assert(part@ != seq!['.']) by {
            if part@ == seq!['.'] {
                assert(part@.len() == 1 && part@[0] == '.');
                assert(part@[0] == cs@[from as int]);
            }
        }
        true
    }
}

/// The components of `path`, each as its text.
pub fn path_components(path: &str) -> (r: Vec<String>)
    ensures
        r.deep_view() == components(path@),
{
    let cs = chars_of(path);
    let n = cs.len();
    let mut r: Vec<String> = Vec::new();
    let mut body: usize = 0;
    if n > 0 && cs[0] == '/' {
        r.push(string_of(&cs, 0, 1));
        body = 1;
    } else if n > 0 && cs[0] == '.' && (n == 1 || cs[1] == '/') {
        r.push(string_of(&cs, 0, 1));
        body = 1;
    }
    let ghost head = r.deep_view();
    assert(components(path@) =~= head + body_components(path@.skip(body as int))) by {
        if body == 1 {
            assert(cs@.subrange(0, 1) =~= seq![cs@[0]]);
        } else {
            assert(path@.skip(0) =~= path@);
        }
    }
    let mut seg: usize = body;
    let mut i: usize = body;
    assert(path@.subrange(body as int, body as int) =~= seq![]);
    while i < n
        invariant
            body <= seg <= i <= n == cs@.len(),
            cs@ == path@,
            r.deep_view() == head + scan(path@.subrange(body as int, i as int)).0,
            scan(path@.subrange(body as int, i as int)).1 == path@.subrange(seg as int, i as int),
        decreases n - i,
    {
        let ghost before = path@.subrange(body as int, i as int);
        assert(path@.subrange(body as int, i + 1).drop_last() =~= before);
        if cs[i] == '/' {
            if is_kept(&cs, seg, i) {
                let part = string_of(&cs, seg, i);
                let ghost dv = r.deep_view();
                r.push(part);
                assert(r.deep_view() =~= dv.push(path@.subrange(seg as int, i as int)));
                assert(r.deep_view() =~= head + scan(path@.subrange(body as int, i + 1)).0);
            } else {
                assert(r.deep_view() =~= head + scan(path@.subrange(body as int, i + 1)).0);
            }
            seg = i + 1;
            assert(path@.subrange(seg as int, seg as int) =~= seq![]);
        } else {
            assert(path@.subrange(seg as int, i + 1) =~= path@.subrange(seg as int, i as int).push(cs@[i as int]));
        }
        i += 1;
    }
    assert(path@.subrange(body as int, n as int) =~= path@.skip(body as int));
    if is_kept(&cs, seg, n) {
        let part = string_of(&cs, seg, n);
        let ghost dv = r.deep_view();
        r.push(part);
        assert(r.deep_view() =~= dv.push(path@.subrange(seg as int, n as int)));
    }
    assert(r.deep_view() =~= components(path@));
    r
}

/// A reading of `s` that has seen no separator yet keeps the whole prefix
/// open; once one is seen, some component has been closed.
proof fn lemma_scan_prefix(s: Seq<char>, k: int)
    requires
        1 <= k <= s.len(),
        s[0] != '/',
        !starts_with_cur_dir(s),
    ensures
        scan(s.take(k)).0.len() > 0 || scan(s.take(k)).1 == s.take(k),
    decreases k,
{
    let t = s.take(k);
    if k == 1 {
        assert(t.drop_last() =~= seq![]);
        assert(t =~= seq![s[0]]);
        assert(scan(t.drop_last()) == (Seq::<Seq<char>>::empty(), Seq::<char>::empty()));
        assert(seq![].push(s[0]) =~= t);
    } else {
        lemma_scan_prefix(s, k - 1);
        assert(t.drop_last() =~= s.take(k - 1));
        let (done, cur) = scan(s.take(k - 1));
        if done.len() == 0 && s[k - 1] == '/' {
            assert(cur == s.take(k - 1));
            if k - 1 == 1 {
                assert(cur[0] == s[0]);
                assert(cur != seq!['.']) by {
                    if cur == seq!['.'] {
                        assert(cur[0] == '.');
                    }
                }
            } else {
                assert(cur.len() != 1);
                assert(cur != seq!['.']) by {
                    if cur == seq!['.'] {
                        assert(seq!['.'].len() == 1);
                    }
                }
            }
            assert(kept(cur).len() > 0);
        } else if done.len() == 0 {
            assert(cur.push(s[k - 1]) =~= t);
        }
    }
}

/// Every non-empty path has at least one component.
pub proof fn lemma_components_nonempty(p: Seq<char>)
    requires
        p.len() > 0,
    ensures
        components(p).len() > 0,
{
    if !(p[0] == '/') && !starts_with_cur_dir(p) {
        lemma_scan_prefix(p, p.len() as int);
        assert(p.take(p.len() as int) =~= p);
        if scan(p).0.len() == 0 {
            assert(scan(p).1 == p);
            assert(p != seq!['.']) by {
                if p == seq!['.'] {
                    assert(p.len() == 1 && p[0] == '.');
                }
            }
        }
    }
}

/// The last component of path `p` (meaningful when `p` is not empty).
pub open spec fn last_component_of(p: Seq<char>) -> Seq<char> {
    components(p).last()
}

/// An ordinary part: neither the root, nor `.`, nor `..`.
pub open spec fn is_normal(c: Seq<char>) -> bool {
    c != seq!['/'] && c != seq!['.'] && c != seq!['.', '.']
}

/// The file name of `p`: its last component, where that is an ordinary part.
pub open spec fn file_name_of(p: Seq<char>) -> Option<Seq<char>> {
    let cs = components(p);
    if cs.len() > 0 && is_normal(cs.last()) {
        Some(cs.last())
    } else {
        None
    }
}

/// The position of the last `.` in `n`, or -1 where there is none.
pub open spec fn last_dot(n: Seq<char>) -> int
    decreases n.len(),
{
    if n.len() == 0 {
        -1
    } else if n.last() == '.' {
        n.len() - 1
    } else {
        last_dot(n.drop_last())
    }
}

/// The stem of a file name: what comes before its last `.`, or the whole
/// name where that `.` is missing or leads the name.
pub open spec fn stem_of(n: Seq<char>) -> Seq<char> {
    if n == seq!['.', '.'] || last_dot(n) <= 0 {
        n
    } else {
        n.take(last_dot(n))
    }
}

/// The extension of a file name: what follows its last `.`, where that `.`
/// does not lead the name.
pub open spec fn extension_of(n: Seq<char>) -> Option<Seq<char>> {
    if n == seq!['.', '.'] || last_dot(n) <= 0 {
        None
    } else {
        Some(n.skip(last_dot(n) + 1))
    }
}

/// The extension of path `p` as text: empty where it has none.
pub open spec fn extension_text_of(p: Seq<char>) -> Seq<char> {
    match file_name_of(p) {
        Some(n) => match extension_of(n) {
            Some(e) => e,
            None => seq![],
        },
        None => seq![],
    }
}

/// Whether the component `c` is an ordinary part.
fn is_normal_part(c: &String) -> (r: bool)
    ensures
        r == is_normal(c@),
{
    let v = chars_of(c.as_str());
    let ghost w = v@;
    let one = v.len() == 1 && (v[0] == '/' || v[0] == '.');
    let two = v.len() == 2 && v[0] == '.' && v[1] == '.';
    proof {
        if one {
            assert(w =~= seq!['/'] || w =~= seq!['.']);
        }
        if two {
            assert(w =~= seq!['.', '.']);
        }
        if w == seq!['/'] || w == seq!['.'] {
            assert(w.len() == 1 && (w[0] == '/' || w[0] == '.'));
        }
        if w == seq!['.', '.'] {
            assert(w.len() == 2 && w[0] == '.' && w[1] == '.');
        }
    }
    !one && !two
}

/// The position of the last `.` in `cs`.
fn find_last_dot(cs: &Vec<char>) -> (r: Option<usize>)
    ensures
        match r {
            Some(d) => d == last_dot(cs@) && d < cs@.len(),
            None => last_dot(cs@) == -1,
        },
{
    let mut i: usize = cs.len();
    assert(cs@.take(i as int) =~= cs@);
    while i > 0
        invariant
            i <= cs@.len(),
            last_dot(cs@) == last_dot(cs@.take(i as int)),
        decreases i,
    {
        assert(cs@.take(i as int).drop_last() =~= cs@.take(i - 1));
        if cs[i - 1] == '.' {
            return Some(i - 1);
        }
        i -= 1;
    }
    assert(cs@.take(0) =~= seq![]);
    None
}

/// The file name of `path`, where it has one: its last component, unless
/// that is the root, `.` or `..`.
pub fn file_name(path: &str) -> (r: Option<String>)
    ensures
        match r {
            Some(n) => file_name_of(path@) == Some(n@),
            None => file_name_of(path@) is None,
        },
{
    let mut cs = path_components(path);
    if cs.len() == 0 {
        return None;
    }
    let ghost dv = cs.deep_view();
    let last = cs.pop().unwrap();
    assert(last@ == dv.last());
    if is_normal_part(&last) {
        Some(last)
    } else {
        None
    }
}

/// Gets the last component of a path (file or folder name).
///
/// Trailing separators and `.` parts are not components: the last component
/// of `some/path/to/folder/` is `folder`. The root is a component of its own
/// (`/`), so is a leading `.` and every `..`.
pub fn get_last_path_component(path: &str) -> (r: String)
    requires
        path@.len() > 0,
    ensures
        r@ == last_component_of(path@),
{
    let mut cs = path_components(path);
    proof {
        lemma_components_nonempty(path@);
    }
    let ghost dv = cs.deep_view();
    let last = cs.pop().unwrap();
    assert(last@ == dv.last());
    last
}

/// Gets the file name (including any extension).
pub fn get_file_name(path: &str) -> (r: String)
    requires
        file_name_of(path@) is Some,
    ensures
        file_name_of(path@) == Some(r@),
{
    file_name(path).unwrap()
}

/// Gets the file stem (the file name without its extension).
pub fn get_file_stem(path: &str) -> (r: String)
    requires
        file_name_of(path@) is Some,
    ensures
        r@ == stem_of(file_name_of(path@)->0),
{
    let name = file_name(path).unwrap();
    let cs = chars_of(name.as_str());
    let ghost n = cs@;
    if cs.len() == 2 && cs[0] == '.' && cs[1] == '.' {
        assert(n =~= seq!['.', '.']);
        return name;
    }
    assert(n != seq!['.', '.']) by {
        if n == seq!['.', '.'] {
            assert(n.len() == 2 && n[0] == '.' && n[1] == '.');
        }
    }
    match find_last_dot(&cs) {
        Some(d) => {
            if d > 0 {
                string_of(&cs, 0, d)
            } else {
                name
            }
        },
        None => name,
    }
}

/// Gets the file extension: empty where the path has none.
pub fn get_file_extension(path: &str) -> (r: String)
    ensures
        r@ == extension_text_of(path@),
{
    let name = match file_name(path) {
        Some(n) => n,
        None => {
            return String::new();
        },
    };
    let cs = chars_of(name.as_str());
    let ghost n = cs@;
    if cs.len() == 2 && cs[0] == '.' && cs[1] == '.' {
        assert(n =~= seq!['.', '.']);
        return String::new();
    }
    assert(n != seq!['.', '.']) by {
        if n == seq!['.', '.'] {
            assert(n.len() == 2 && n[0] == '.' && n[1] == '.');
        }
    }
    match find_last_dot(&cs) {
        Some(d) => {
            if d > 0 {
                string_of(&cs, d + 1, cs.len())
            } else {
                String::new()
            }
        },
        None => String::new(),
    }
}

/// Parts written one after the other with a `/` between each two.
pub open spec fn joined(parts: Seq<Seq<char>>) -> Seq<char>
    decreases parts.len(),
{
    if parts.len() == 0 {
        seq![]
    } else if parts.len() == 1 {
        parts[0]
    } else {
        joined(parts.drop_last()) + seq!['/'] + parts.last()
    }
}

/// The path written from components `cs`.
pub open spec fn path_of(cs: Seq<Seq<char>>) -> Seq<char> {
    if cs.len() > 0 && cs[0] == seq!['/'] {
        seq!['/'] + joined(cs.skip(1))
    } else {
        joined(cs)
    }
}

/// The parent of `p`: the path of all its components but the last, where
/// the last one is not the root.
pub open spec fn parent_of(p: Seq<char>) -> Option<Seq<char>> {
    let cs = components(p);
    if cs.len() > 0 && cs.last() != seq!['/'] {
        Some(path_of(cs.drop_last()))
    } else {
        None
    }
}

/// `p` seen from `base`: where the components of `base` begin those of
/// `p`, the rest of them, joined.
pub open spec fn relative_of(p: Seq<char>, base: Seq<char>) -> Option<Seq<char>> {
    let cp = components(p);
    let cb = components(base);
    if cb.len() <= cp.len() && cp.take(cb.len() as int) == cb {
        Some(joined(cp.skip(cb.len() as int)))
    } else {
        None
    }
}

/// `rel` appended to `base`: an absolute `rel` replaces `base`; otherwise a
/// `/` goes between the two unless `base` is empty or already ends in one.
pub open spec fn join_path(base: Seq<char>, rel: Seq<char>) -> Seq<char> {
    if rel.len() > 0 && rel[0] == '/' {
        rel
    } else if base.len() > 0 && base.last() != '/' {
        base + seq!['/'] + rel
    } else {
        base + rel
    }
}

/// The parts `parts[from..to]`, joined.
fn join_parts(parts: &Vec<String>, from: usize, to: usize) -> (r: String)
    requires
        from <= to <= parts@.len(),
    ensures
        r@ == joined(parts.deep_view().subrange(from as int, to as int)),
{
    let ghost dv = parts.deep_view();
    let mut r = String::new();
    let mut i: usize = from;
    assert(dv.subrange(from as int, from as int) =~= seq![]);
    while i < to
        invariant
            from <= i <= to <= parts@.len(),
            dv == parts.deep_view(),
            r@ == joined(dv.subrange(from as int, i as int)),
        decreases to - i,
    {
        let ghost sub = dv.subrange(from as int, i + 1);
        assert(sub.drop_last() =~= dv.subrange(from as int, i as int));
        assert(sub.last() == parts@[i as int]@);
        if i > from {
            r.append("/");
            proof {
                reveal_strlit("/");
            }
        } else {
            assert(sub =~= seq![parts@[i as int]@]);
        }
        r.append(parts[i].as_str());
        i += 1;
    }
    r
}

/// The path of the parent folder of `path`, where it has one.
///
/// The parent is written from the components, so separators are single
/// and `.` parts left out: the parent of `a//b/./c` is `a/b`. The parent
/// of a one-part relative path is the empty path.
pub fn parent_path(path: &str) -> (r: Option<String>)
    ensures
        match r {
            Some(q) => parent_of(path@) == Some(q@),
            None => parent_of(path@) is None,
        },
{
    let cs = path_components(path);
    let ghost dv = cs.deep_view();
    let n = cs.len();
    if n == 0 || !is_normal_part(&cs[n - 1]) && is_root(&cs[n - 1]) {
        return None;
    }
    assert(dv.last() != seq!['/']);
    if n > 1 && is_root(&cs[0]) {
        let mut r = String::new();
        r.append("/");
        proof {
            reveal_strlit("/");
        }
        let rest = join_parts(&cs, 1, n - 1);
        r.append(rest.as_str());
        assert(dv.drop_last().skip(1) =~= dv.subrange(1, n - 1));
        Some(r)
    } else {
        let r = join_parts(&cs, 0, n - 1);
        assert(dv.drop_last() =~= dv.subrange(0, n - 1));
        Some(r)
    }
}

/// Whether the component `c` is the root.
fn is_root(c: &String) -> (r: bool)
    ensures
        r == (c@ == seq!['/']),
{
    let v = chars_of(c.as_str());
    let r = v.len() == 1 && v[0] == '/';
    proof {
        if r {
            assert(v@ =~= seq!['/']);
        }
        if c@ == seq!['/'] {
            assert(v@.len() == 1 && v@[0] == '/');
        }
    }
    r
}

/// `path` seen from `base`, where the components of `base` begin those of
/// `path`.
pub fn relative_path(path: &str, base: &str) -> (r: Option<String>)
    ensures
        match r {
            Some(q) => relative_of(path@, base@) == Some(q@),
            None => relative_of(path@, base@) is None,
        },
{
    let cp = path_components(path);
    let cb = path_components(base);
    let ghost dp = cp.deep_view();
    let ghost db = cb.deep_view();
    if cb.len() > cp.len() {
        return None;
    }
    let mut i: usize = 0;
    while i < cb.len()
        invariant
            i <= cb@.len() <= cp@.len(),
            dp == cp.deep_view(),
            db == cb.deep_view(),
            dp == components(path@),
            db == components(base@),
            dp.take(i as int) == db.take(i as int),
        decreases cb@.len() - i,
    {
        let same = cp[i] == cb[i];
        if !same {
            assert(dp[i as int] != db[i as int]);
            assert(dp.take(db.len() as int)[i as int] == dp[i as int]);
            assert(dp.take(db.len() as int) != db);
            return None;
        }
        assert(dp.take(i + 1) =~= dp.take(i as int).push(dp[i as int]));
        assert(db.take(i + 1) =~= db.take(i as int).push(db[i as int]));
        i += 1;
    }
    assert(db.take(db.len() as int) =~= db);
    let r = join_parts(&cp, cb.len(), cp.len());
    assert(dp.skip(db.len() as int) =~= dp.subrange(db.len() as int, dp.len() as int));
    Some(r)
}

/// `rel` appended to `base`, as `PathBuf::push` does on Unix.
pub fn join(base: &str, rel: &str) -> (r: String)
    ensures
        r@ == join_path(base@, rel@),
{
    let b = chars_of(base);
    let c = chars_of(rel);
    if c.len() > 0 && c[0] == '/' {
        return String::from_str(rel);
    }
    let mut r = String::from_str(base);
    if b.len() > 0 && b[b.len() - 1] != '/' {
        r.append("/");
        proof {
            reveal_strlit("/");
        }
    }
    r.append(rel);
    r
}

} // verus!
