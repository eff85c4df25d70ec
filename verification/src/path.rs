//! Unix path strings, read the way `std::path::Path` reads them: split on
//! `/`, empty pieces and inner `.` pieces dropped, a leading `/` giving the
//! root and a leading `.` piece giving the current directory. A component is
//! written as the text that stands for it (`"/"`, `"."`, `".."` or a name),
//! as `Component::as_os_str` does.

use vstd::prelude::*;
use crate::text::{chars_of, string_of, starts_with};

verus! {

/// The pieces of `s` between `/` separators, as `str::split('/')`.
pub open spec fn split_slash(s: Seq<char>) -> Seq<Seq<char>>
    decreases s.len(),
{
    if s.len() == 0 {
        seq![Seq::<char>::empty()]
    } else {
        let p = split_slash(s.drop_last());
        if s.last() == '/' {
            p.push(Seq::<char>::empty())
        } else {
            p.update(p.len() - 1, p.last().push(s.last()))
        }
    }
}

pub proof fn lemma_split_nonempty(s: Seq<char>)
    ensures
        split_slash(s).len() >= 1,
    decreases s.len(),
{
    if s.len() > 0 {
        lemma_split_nonempty(s.drop_last());
    }
}

pub open spec fn root_text() -> Seq<char> {
    seq!['/']
}

pub open spec fn cur_text() -> Seq<char> {
    seq!['.']
}

pub open spec fn up_text() -> Seq<char> {
    seq!['.', '.']
}

/// What a piece after the first one contributes: nothing for an empty piece
/// or `.`, else the piece itself (`..` included).
pub open spec fn piece_comps(p: Seq<char>) -> Seq<Seq<char>> {
    if p.len() == 0 || p == cur_text() {
        Seq::empty()
    } else {
        seq![p]
    }
}

/// The components contributed by a run of pieces.
pub open spec fn pieces_comps(parts: Seq<Seq<char>>) -> Seq<Seq<char>>
    decreases parts.len(),
{
    if parts.len() == 0 {
        Seq::empty()
    } else {
        pieces_comps(parts.drop_last()) + piece_comps(parts.last())
    }
}

pub open spec fn is_absolute(s: Seq<char>) -> bool {
    s.len() > 0 && s[0] == '/'
}

/// What the first piece contributes: the root for an absolute path, the
/// current directory for a leading `.` piece, else as any other piece.
pub open spec fn head_comps(s: Seq<char>) -> Seq<Seq<char>> {
    if is_absolute(s) {
        seq![root_text()]
    } else if split_slash(s)[0] == cur_text() {
        seq![cur_text()]
    } else {
        piece_comps(split_slash(s)[0])
    }
}

/// The components of a path, as `Path::components`, each written as its text.
pub open spec fn components(s: Seq<char>) -> Seq<Seq<char>> {
    head_comps(s) + pieces_comps(split_slash(s).drop_first())
}

/// Path equality: the same components (`impl PartialEq for Path`).
pub open spec fn same_path(a: Seq<char>, b: Seq<char>) -> bool {
    components(a) == components(b)
}

/// `Path::starts_with`: the components of `base` begin the components of `p`.
pub open spec fn path_starts_with(p: Seq<char>, base: Seq<char>) -> bool {
    components(base).is_prefix_of(components(p))
}

/// A component that names an entry (not the root, `.` or `..`).
pub open spec fn is_name(c: Seq<char>) -> bool {
    c != root_text() && c != cur_text() && c != up_text()
}

/// `Path::file_name`: the last component when it names an entry.
pub open spec fn file_name(s: Seq<char>) -> Option<Seq<char>> {
    let c = components(s);
    if c.len() > 0 && is_name(c.last()) {
        Some(c.last())
    } else {
        None
    }
}

/// Ghost state of a left-to-right scan: the pieces read so far.
proof fn lemma_split_step(s: Seq<char>, i: int)
    requires
        0 <= i < s.len(),
    ensures
        ({
            let p = split_slash(s.take(i));
            let q = split_slash(s.take(i + 1));
            &&& p.len() >= 1
            &&& (s[i] == '/' ==> q == p.push(Seq::<char>::empty()))
            &&& (s[i] != '/' ==> q == p.update(p.len() - 1, p.last().push(s[i])))
        }),
{
    lemma_split_nonempty(s.take(i));
    assert(s.take(i + 1).drop_last() =~= s.take(i));
}

proof fn lemma_pieces_push(parts: Seq<Seq<char>>, x: Seq<char>)
    ensures
        pieces_comps(parts.push(x)) == pieces_comps(parts) + piece_comps(x),
{
    assert(parts.push(x).drop_last() =~= parts);
}

/// The texts held by a vector of character vectors.
pub open spec fn texts(v: Seq<Vec<char>>) -> Seq<Seq<char>> {
    v.map_values(|x: Vec<char>| x@)
}

proof fn lemma_texts_push(v: Seq<Vec<char>>, x: Vec<char>)
    ensures
        texts(v.push(x)) == texts(v).push(x@),
{
    assert(texts(v.push(x)) =~= texts(v).push(x@));
}

fn one_char(c: char) -> (r: Vec<char>)
    ensures
        r@ == seq![c],
{
    let mut r = Vec::new();
    r.push(c);
    assert(r@ =~= seq![c]);
    r
}

/// The components of a path, each as its text.
pub fn path_components(s: &str) -> (r: Vec<Vec<char>>)
    ensures
        texts(r@) == components(s@),
{
    let cs = chars_of(s);
    let n = cs.len();
    let ghost sv = s@;
    // Pieces completed so far (all but the first), as components.
    let mut out: Vec<Vec<char>> = Vec::new();
    let mut cur: Vec<char> = Vec::new();
    let mut first_done = false;
    let mut head: Vec<Vec<char>> = Vec::new();
    let mut i: usize = 0;
    proof {
        assert(sv.take(0) =~= Seq::<char>::empty());
    }
    while i < n
        invariant
            cs@ == sv,
            n == sv.len(),
            i <= n,
            split_slash(sv.take(i as int)).len() >= 1,
            cur@ == split_slash(sv.take(i as int)).last(),
            first_done == (split_slash(sv.take(i as int)).len() > 1),
            first_done ==> texts(head@) == head_comps(sv),
            first_done ==> texts(out@) == pieces_comps(
                split_slash(sv.take(i as int)).drop_first().drop_last(),
            ),
            !first_done ==> texts(out@) == Seq::<Seq<char>>::empty(),
            !first_done ==> head@.len() == 0,
        decreases n - i,
    {
        let c = cs[i];
        let ghost p = split_slash(sv.take(i as int));
        proof {
            lemma_split_step(sv, i as int);
        }
        if c == '/' {
            if !first_done {
                // The first piece ends here: it decides the head.
                proof {
                    assert(split_slash(sv.take(i as int + 1))[0] == p[0]);
                    assert(split_slash(sv)[0] == p[0]) by {
                        lemma_first_piece_stable(sv, i as int + 1);
                    }
                }
                if i == 0 {
                    let rootv = one_char('/');
                    proof {
                        lemma_texts_push(head@, rootv);
                    }
                    head.push(rootv);
                    proof {
                        assert(is_absolute(sv));
                        assert(texts(head@) =~= seq![root_text()]);
                    }
                } else if cur.len() == 1 && cur[0] == '.' {
                    let curv = one_char('.');
                    proof {
                        lemma_texts_push(head@, curv);
                    }
                    head.push(curv);
                    proof {
                        assert(!is_absolute(sv)) by {
                            lemma_no_slash_single_piece(sv.take(i as int));
                            assert(sv.take(i as int)[0] == sv[0]);
                        }
                        assert(cur@ =~= cur_text());
                        assert(texts(head@) =~= seq![cur_text()]);
                    }
                } else if cur.len() > 0 {
                    let piece = cur.clone();
                    proof {
                        lemma_texts_push(head@, piece);
                    }
                    head.push(piece);
                    proof {
                        assert(!is_absolute(sv)) by {
                            assert(sv.take(i as int)[0] == sv[0]);
                            assert(p.len() == 1);
                            lemma_no_slash_single_piece(sv.take(i as int));
                        }
                        assert(cur@ != cur_text());
                        assert(texts(head@) =~= seq![cur@]);
                    }
                } else {
                    proof {
                        assert(i > 0);
                        assert(!is_absolute(sv)) by {
                            assert(p.len() == 1);
                            lemma_no_slash_single_piece(sv.take(i as int));
                            assert(sv.take(i as int)[0] == sv[0]);
                        }
                        assert(texts(head@) =~= piece_comps(p[0]));
                    }
                }
                first_done = true;
                proof {
                    let q = split_slash(sv.take(i as int + 1));
                    assert(q.drop_first().drop_last() =~= Seq::<Seq<char>>::empty());
                    assert(pieces_comps(Seq::<Seq<char>>::empty()) =~= Seq::<Seq<char>>::empty());
                }
            } else {
                if cur.len() > 0 && !(cur.len() == 1 && cur[0] == '.') {
                    let piece = cur.clone();
                    proof {
                        lemma_texts_push(out@, piece);
                    }
                    out.push(piece);
                }
                proof {
                    let q = split_slash(sv.take(i as int + 1));
                    assert(q.drop_first().drop_last() =~= p.drop_first().drop_last().push(
                        p.last(),
                    ));
                    lemma_pieces_push(p.drop_first().drop_last(), p.last());
                    if cur@.len() == 1 && cur@[0] == '.' {
                        assert(cur@ =~= cur_text());
                    }
                    assert(texts(out@) =~= pieces_comps(q.drop_first().drop_last()));
                }
            }
            cur = Vec::new();
        } else {
            cur.push(c);
            proof {
                let q = split_slash(sv.take(i as int + 1));
                if first_done {
                    assert(q.drop_first().drop_last() =~= p.drop_first().drop_last());
                }
            }
        }
        i = i + 1;
    }
    proof {
        assert(sv.take(n as int) =~= sv);
    }
    let ghost parts = split_slash(sv);
    if !first_done {
        // A single piece: no separator at all.
        proof {
            assert(parts.len() == 1);
            lemma_no_slash_single_piece(sv);
            assert(parts.drop_first() =~= Seq::<Seq<char>>::empty());
        }
        let mut r: Vec<Vec<char>> = Vec::new();
        if cur.len() == 1 && cur[0] == '.' {
            let curv = one_char('.');
            proof {
                lemma_texts_push(r@, curv);
            }
            r.push(curv);
            proof {
                assert(cur@ =~= cur_text());
                assert(texts(r@) =~= components(sv));
            }
        } else if cur.len() > 0 {
            proof {
                lemma_texts_push(r@, cur);
                if cur@ == cur_text() {
                    assert(cur@.len() == 1 && cur@[0] == '.');
                }
            }
            r.push(cur);
            proof {
                assert(texts(r@) =~= components(sv));
            }
        } else {
            proof {
                assert(texts(r@) =~= components(sv));
            }
        }
        r
    } else {
        let last = cur;
        if last.len() > 0 && !(last.len() == 1 && last[0] == '.') {
            proof {
                lemma_texts_push(out@, last);
            }
            out.push(last);
        }
        proof {
            assert(parts.drop_first() =~= parts.drop_first().drop_last().push(parts.last()));
            lemma_pieces_push(parts.drop_first().drop_last(), parts.last());
            if parts.last().len() == 1 && parts.last()[0] == '.' {
                assert(parts.last() =~= cur_text());
            }
            assert(texts(out@) =~= pieces_comps(parts.drop_first()));
        }
        let mut r = head;
        let ghost hv = texts(r@);
        let ghost ov = texts(out@);
        let mut k: usize = 0;
        while k < out.len()
            invariant
                k <= out.len(),
                texts(out@) == ov,
                texts(r@) == hv + ov.take(k as int),
            decreases out.len() - k,
        {
            let item = out[k].clone();
            proof {
                lemma_texts_push(r@, item);
            }
            r.push(item);
            proof {
                assert(ov.take(k as int + 1) =~= ov.take(k as int).push(ov[k as int]));
                assert(texts(r@) =~= hv + ov.take(k as int + 1));
            }
            k = k + 1;
        }
        proof {
            assert(ov.take(out.len() as int) =~= ov);
        }
        r
    }
}

proof fn lemma_first_piece_stable(s: Seq<char>, i: int)
    requires
        0 < i <= s.len(),
        split_slash(s.take(i)).len() > 1,
    ensures
        split_slash(s)[0] == split_slash(s.take(i))[0],
    decreases s.len() - i,
{
    if i < s.len() {
        lemma_split_step(s, i);
        lemma_split_nonempty(s.take(i));
        lemma_first_piece_stable(s, i + 1);
    } else {
        assert(s.take(i) =~= s);
    }
}

/// A text without `/` is a single piece, itself.
proof fn lemma_no_slash_single_piece(s: Seq<char>)
    requires
        split_slash(s).len() == 1,
    ensures
        split_slash(s)[0] == s,
        forall|k: int| 0 <= k < s.len() ==> s[k] != '/',
    decreases s.len(),
{
    if s.len() > 0 {
        lemma_split_nonempty(s.drop_last());
        lemma_no_slash_single_piece(s.drop_last());
        assert(s.drop_last().push(s.last()) =~= s);
        assert forall|k: int| 0 <= k < s.len() implies s[k] != '/' by {
            if k < s.len() - 1 {
                assert(s.drop_last()[k] == s[k]);
            }
        }
    }
}


fn texts_equal(a: &Vec<Vec<char>>, b: &Vec<Vec<char>>, n: usize) -> (r: bool)
    requires
        n <= a@.len(),
        n <= b@.len(),
    ensures
        r == (texts(a@).take(n as int) == texts(b@).take(n as int)),
{
    let mut i: usize = 0;
    while i < n
        invariant
            i <= n <= a@.len(),
            n <= b@.len(),
            texts(a@).take(i as int) == texts(b@).take(i as int),
        decreases n - i,
    {
        if !crate::text::chars_eq(&a[i], &b[i]) {
            proof {
                assert(texts(a@).take(n as int)[i as int] != texts(b@).take(n as int)[i as int]);
            }
            return false;
        }
        proof {
            assert(texts(a@).take(i as int + 1) =~= texts(a@).take(i as int).push(a@[i as int]@));
            assert(texts(b@).take(i as int + 1) =~= texts(b@).take(i as int).push(b@[i as int]@));
        }
        i = i + 1;
    }
    true
}

/// Whether two paths name the same location component by component
/// (`Path == Path`).
pub fn paths_equal(a: &str, b: &str) -> (r: bool)
    ensures
        r == same_path(a@, b@),
{
    let ca = path_components(a);
    let cb = path_components(b);
    if ca.len() != cb.len() {
        return false;
    }
    let r = texts_equal(&ca, &cb, ca.len());
    proof {
        assert(texts(ca@).take(ca@.len() as int) =~= texts(ca@));
        assert(texts(cb@).take(cb@.len() as int) =~= texts(cb@));
    }
    r
}

/// `Path::starts_with`: whether `base` is `p` or one of its ancestors.
pub fn path_has_prefix(p: &str, base: &str) -> (r: bool)
    ensures
        r == path_starts_with(p@, base@),
{
    let cp = path_components(p);
    let cb = path_components(base);
    if cb.len() > cp.len() {
        return false;
    }
    let r = texts_equal(&cp, &cb, cb.len());
    proof {
        assert(texts(cb@).take(cb@.len() as int) =~= texts(cb@));
        assert(texts(cp@).take(cb@.len() as int) =~= texts(cp@).subrange(0, cb@.len() as int));
    }
    r
}

/// The number of components of a path (`path.components().count()`).
pub fn path_depth(p: &str) -> (r: usize)
    ensures
        r == components(p@).len(),
{
    let c = path_components(p);
    c.len()
}

/// `Path::file_name`.
pub fn path_file_name(p: &str) -> (r: Option<String>)
    ensures
        r matches Some(n) ==> file_name(p@) == Some(n@),
        r is None ==> file_name(p@) is None,
{
    let c = path_components(p);
    let n = c.len();
    if n == 0 {
        return None;
    }
    let last = &c[n - 1];
    proof {
        assert(texts(c@)[n - 1] == last@);
    }
    let is_root = last.len() == 1 && last[0] == '/';
    let is_cur = last.len() == 1 && last[0] == '.';
    let is_up = last.len() == 2 && last[0] == '.' && last[1] == '.';
    proof {
        if last@ == root_text() {
            assert(is_root);
        }
        if last@ == cur_text() {
            assert(is_cur);
        }
        if last@ == up_text() {
            assert(is_up);
        }
        if is_root {
            assert(last@ =~= root_text());
        }
        if is_cur {
            assert(last@ =~= cur_text());
        }
        if is_up {
            assert(last@ =~= up_text());
        }
    }
    if is_root || is_cur || is_up {
        None
    } else {
        Some(string_of(last.as_slice()))
    }
}

/// `PathBuf::join` on Unix: an absolute `p` replaces `base`; otherwise `p` is
/// appended, with a `/` between unless `base` is empty or already ends in one.
pub open spec fn join(base: Seq<char>, p: Seq<char>) -> Seq<char> {
    if is_absolute(p) {
        p
    } else if base.len() > 0 && base.last() != '/' {
        base + seq!['/'] + p
    } else {
        base + p
    }
}

fn append_chars(dst: &mut Vec<char>, src: &Vec<char>)
    ensures
        final(dst)@ == old(dst)@ + src@,
{
    let ghost start = dst@;
    let mut i: usize = 0;
    while i < src.len()
        invariant
            i <= src.len(),
            dst@ == start + src@.take(i as int),
        decreases src.len() - i,
    {
        dst.push(src[i]);
        proof {
            assert(src@.take(i as int + 1) =~= src@.take(i as int).push(src@[i as int]));
        }
        i = i + 1;
    }
    assert(src@.take(src@.len() as int) =~= src@);
}

pub fn join_chars(base: &Vec<char>, p: &Vec<char>) -> (r: Vec<char>)
    ensures
        r@ == join(base@, p@),
{
    if p.len() > 0 && p[0] == '/' {
        return p.clone();
    }
    let mut r = base.clone();
    if base.len() > 0 && base[base.len() - 1] != '/' {
        r.push('/');
    }
    append_chars(&mut r, p);
    r
}

/// `base.join(p)`.
pub fn join_path(base: &str, p: &str) -> (r: String)
    ensures
        r@ == join(base@, p@),
{
    let b = chars_of(base);
    let q = chars_of(p);
    let r = join_chars(&b, &q);
    string_of(r.as_slice())
}

/// Where the body of a path starts: after the root `/`, or after a leading
/// `.` piece, else at the beginning.
pub open spec fn body_start(s: Seq<char>) -> int {
    if is_absolute(s) || split_slash(s)[0] == cur_text() {
        1
    } else {
        0
    }
}

/// The end of the prefix `s[..end]` once trailing empty and `.` pieces of the
/// body (which begins at `start`) are dropped.
pub open spec fn trim_back(s: Seq<char>, start: int, end: int) -> int
    decreases end,
{
    if end <= start || end <= 0 {
        end
    } else if s[end - 1] == '/' {
        trim_back(s, start, end - 1)
    } else if s[end - 1] == '.' && (end - 1 == start || (end >= 2 && s[end - 2] == '/')) {
        trim_back(s, start, end - 1)
    } else {
        end
    }
}

/// Where the last piece of `s[..end]` begins (just after its `/`, or `start`).
pub open spec fn piece_begin(s: Seq<char>, start: int, end: int) -> int
    decreases end,
{
    if end <= start || end <= 0 {
        start
    } else if s[end - 1] == '/' {
        end
    } else {
        piece_begin(s, start, end - 1)
    }
}

/// `Path::parent`: the path without its last component, `None` for the root
/// or an empty path.
pub open spec fn parent(s: Seq<char>) -> Option<Seq<char>> {
    let b = body_start(s);
    let t = trim_back(s, b, s.len() as int);
    if t <= b {
        if !is_absolute(s) && b == 1 {
            Some(Seq::<char>::empty())
        } else {
            None
        }
    } else {
        let pb = piece_begin(s, b, t);
        let re = if pb > b { pb - 1 } else { b };
        Some(s.take(trim_back(s, b, re)))
    }
}

proof fn lemma_trim_back_bounds(s: Seq<char>, start: int, end: int)
    requires
        0 <= end <= s.len(),
    ensures
        0 <= trim_back(s, start, end) <= end,
        trim_back(s, start, end) >= 0,
        start <= end ==> start <= trim_back(s, start, end) || trim_back(s, start, end) == end,
    decreases end,
{
    if end <= start || end <= 0 {
    } else if s[end - 1] == '/' {
        lemma_trim_back_bounds(s, start, end - 1);
    } else if s[end - 1] == '.' && (end - 1 == start || (end >= 2 && s[end - 2] == '/')) {
        lemma_trim_back_bounds(s, start, end - 1);
    }
}

proof fn lemma_piece_begin_bounds(s: Seq<char>, start: int, end: int)
    requires
        0 <= start <= end <= s.len(),
    ensures
        start <= piece_begin(s, start, end) <= end,
        piece_begin(s, start, end) > start ==> s[piece_begin(s, start, end) - 1] == '/',
    decreases end,
{
    if end <= start || end <= 0 {
    } else if s[end - 1] == '/' {
    } else {
        lemma_piece_begin_bounds(s, start, end - 1);
    }
}

fn body_start_exec(s: &Vec<char>) -> (r: usize)
    ensures
        r == body_start(s@),
        r <= 1,
{
    if s.len() > 0 && s[0] == '/' {
        return 1;
    }
    // The first piece is `.` exactly when the text is `.` or starts with `./`.
    let first_is_cur = s.len() > 0 && s[0] == '.' && (s.len() == 1 || s[1] == '/');
    proof {
        lemma_first_piece(s@);
        let f = split_slash(s@)[0];
        if first_is_cur {
            assert(f =~= cur_text());
        } else if f == cur_text() {
            assert(f.len() == 1);
            assert(s@[0] == '.');
        }
    }
    if first_is_cur {
        1
    } else {
        0
    }
}

/// The first piece is the text up to the first `/`.
proof fn lemma_first_piece(s: Seq<char>)
    ensures
        split_slash(s).len() >= 1,
        forall|k: int| 0 <= k < split_slash(s)[0].len() ==> split_slash(s)[0][k] == s[k] && s[k] != '/',
        split_slash(s)[0].len() <= s.len(),
        split_slash(s)[0].len() < s.len() ==> s[split_slash(s)[0].len() as int] == '/',
        split_slash(s).len() > 1 ==> split_slash(s)[0].len() < s.len(),
    decreases s.len(),
{
    lemma_split_nonempty(s);
    if s.len() > 0 {
        let t = s.drop_last();
        lemma_first_piece(t);
        lemma_split_nonempty(t);
        let p = split_slash(t);
        let f = split_slash(s)[0];
        if p.len() > 1 {
            assert(f == p[0]);
            assert forall|k: int| 0 <= k < f.len() implies f[k] == s[k] && s[k] != '/' by {
                assert(t[k] == s[k]);
            }
            assert(s[f.len() as int] == t[f.len() as int]);
        } else {
            lemma_no_slash_single_piece(t);
            if s.last() == '/' {
                assert(f == t);
                assert forall|k: int| 0 <= k < f.len() implies f[k] == s[k] && s[k] != '/' by {
                    assert(t[k] == s[k]);
                }
            } else {
                assert(f == t.push(s.last()));
                assert forall|k: int| 0 <= k < f.len() implies f[k] == s[k] && s[k] != '/' by {
                    if k < t.len() {
                        assert(t[k] == s[k]);
                    }
                }
            }
        }
    }
}

fn trim_back_exec(s: &Vec<char>, start: usize, end: usize) -> (r: usize)
    requires
        end <= s@.len(),
    ensures
        r == trim_back(s@, start as int, end as int),
{
    let mut e = end;
    while e > start && e > 0
        && (s[e - 1] == '/' || (s[e - 1] == '.' && (e - 1 == start || (e >= 2 && s[e - 2]
        == '/'))))
        invariant
            e <= end <= s@.len(),
            trim_back(s@, start as int, e as int) == trim_back(s@, start as int, end as int),
        decreases e,
    {
        e = e - 1;
    }
    e
}

fn piece_begin_exec(s: &Vec<char>, start: usize, end: usize) -> (r: usize)
    requires
        start <= end <= s@.len(),
    ensures
        r == piece_begin(s@, start as int, end as int),
{
    let mut e = end;
    while e > start && e > 0 && s[e - 1] != '/'
        invariant
            start <= e <= end <= s@.len(),
            piece_begin(s@, start as int, e as int) == piece_begin(s@, start as int, end as int),
        decreases e,
    {
        e = e - 1;
    }
    if e > start && e > 0 {
        e
    } else {
        start
    }
}

/// `Path::parent`.
pub fn path_parent(p: &str) -> (r: Option<String>)
    ensures
        r matches Some(q) ==> parent(p@) == Some(q@),
        r is None ==> parent(p@) is None,
{
    let s = chars_of(p);
    let b = body_start_exec(&s);
    let t = trim_back_exec(&s, b, s.len());
    proof {
        lemma_trim_back_bounds(s@, b as int, s@.len() as int);
    }
    if t <= b {
        if !(s.len() > 0 && s[0] == '/') && b == 1 {
            return Some(string_of(&[]));
        }
        return None;
    }
    proof {
        lemma_piece_begin_bounds(s@, b as int, t as int);
    }
    let pb = piece_begin_exec(&s, b, t);
    let re = if pb > b { pb - 1 } else { b };
    let e = trim_back_exec(&s, b, re);
    proof {
        lemma_trim_back_bounds(s@, b as int, re as int);
    }
    let mut out: Vec<char> = Vec::new();
    let mut i: usize = 0;
    while i < e
        invariant
            i <= e <= s@.len(),
            out@ == s@.take(i as int),
        decreases e - i,
    {
        out.push(s[i]);
        proof {
            assert(s@.take(i as int + 1) =~= s@.take(i as int).push(s@[i as int]));
        }
        i = i + 1;
    }
    Some(string_of(out.as_slice()))
}


/// Index of the last `c` in `s[..end]`, or -1.
pub open spec fn last_index_of(s: Seq<char>, c: char, end: int) -> int
    decreases end,
{
    if end <= 0 {
        -1
    } else if s[end - 1] == c {
        end - 1
    } else {
        last_index_of(s, c, end - 1)
    }
}

proof fn lemma_last_index_bounds(s: Seq<char>, c: char, end: int)
    requires
        0 <= end <= s.len(),
    ensures
        -1 <= last_index_of(s, c, end) < end,
        last_index_of(s, c, end) >= 0 ==> s[last_index_of(s, c, end)] == c,
    decreases end,
{
    if end > 0 && s[end - 1] != c {
        lemma_last_index_bounds(s, c, end - 1);
    }
}

fn last_index_exec(s: &Vec<char>, c: char) -> (r: Option<usize>)
    ensures
        r matches Some(k) ==> k as int == last_index_of(s@, c, s@.len() as int),
        r is None ==> last_index_of(s@, c, s@.len() as int) == -1,
{
    let mut e = s.len();
    while e > 0 && s[e - 1] != c
        invariant
            e <= s@.len(),
            last_index_of(s@, c, e as int) == last_index_of(s@, c, s@.len() as int),
        decreases e,
    {
        e = e - 1;
    }
    if e > 0 {
        Some(e - 1)
    } else {
        None
    }
}

fn skip_chars(s: &Vec<char>, k: usize) -> (r: Vec<char>)
    requires
        k <= s@.len(),
    ensures
        r@ == s@.skip(k as int),
{
    let mut r: Vec<char> = Vec::new();
    let mut i = k;
    while i < s.len()
        invariant
            k <= i <= s@.len(),
            r@ == s@.subrange(k as int, i as int),
        decreases s.len() - i,
    {
        r.push(s[i]);
        i = i + 1;
    }
    r
}

fn take_chars(s: &Vec<char>, k: usize) -> (r: Vec<char>)
    requires
        k <= s@.len(),
    ensures
        r@ == s@.take(k as int),
{
    let mut r: Vec<char> = Vec::new();
    let mut i: usize = 0;
    while i < k
        invariant
            i <= k <= s@.len(),
            r@ == s@.take(i as int),
        decreases k - i,
    {
        r.push(s[i]);
        proof {
            assert(s@.take(i as int + 1) =~= s@.take(i as int).push(s@[i as int]));
        }
        i = i + 1;
    }
    r
}

/// The extension of a file name, as `Path::extension` finds it: the text
/// after the last `.`, unless there is no `.` or the only one leads the name.
pub open spec fn name_extension(f: Seq<char>) -> Option<Seq<char>> {
    let k = last_index_of(f, '.', f.len() as int);
    if k <= 0 {
        None
    } else {
        Some(f.skip(k + 1))
    }
}

/// `Path::extension`.
pub open spec fn extension(p: Seq<char>) -> Option<Seq<char>> {
    match file_name(p) {
        Some(f) => name_extension(f),
        None => None,
    }
}

/// `Path::extension`.
pub fn path_extension(p: &str) -> (r: Option<String>)
    ensures
        r matches Some(e) ==> extension(p@) == Some(e@),
        r is None ==> extension(p@) is None,
{
    match path_file_name(p) {
        None => None,
        Some(f) => {
            let cs = chars_of(f.as_str());
            match last_index_exec(&cs, '.') {
                None => None,
                Some(k) => {
                    if k == 0 {
                        None
                    } else {
                        proof {
                            lemma_last_index_bounds(cs@, '.', cs@.len() as int);
                        }
                        let e = skip_chars(&cs, k + 1);
                        Some(string_of(e.as_slice()))
                    }
                }
            }
        }
    }
}

/// A short label for a path: the root is "Macintosh HD", otherwise its file
/// name, or the whole path when it has none.
pub open spec fn path_label(p: Seq<char>) -> Seq<char> {
    if components(p) == seq![root_text()] {
        "Macintosh HD"@
    } else {
        match file_name(p) {
            Some(n) => n,
            None => p,
        }
    }
}

pub fn label_of_path(p: &str) -> (r: String)
    ensures
        r@ == path_label(p@),
{
    let c = path_components(p);
    if c.len() == 1 && c[0].len() == 1 && c[0][0] == '/' {
        proof {
            assert(texts(c@)[0] =~= root_text());
            assert(texts(c@) =~= seq![root_text()]);
        }
        let l = chars_of("Macintosh HD");
        return string_of(l.as_slice());
    }
    proof {
        if components(p@) == seq![root_text()] {
            assert(texts(c@)[0] == root_text());
            assert(c@[0]@ == root_text());
        }
    }
    match path_file_name(p) {
        Some(n) => n,
        None => {
            let cs = chars_of(p);
            string_of(cs.as_slice())
        }
    }
}

/// A leading `~` expanded to the home directory (`~` alone, or `~/rest`).
pub open spec fn expand_home(s: Seq<char>, home: Seq<char>) -> Seq<char> {
    if s == seq!['~'] {
        home
    } else if seq!['~', '/'].is_prefix_of(s) {
        join(home, s.skip(2))
    } else {
        s
    }
}

/// Expands a leading `~` in a typed path against the home directory.
pub fn expand_path(s: &str, home: &str) -> (r: String)
    ensures
        r@ == expand_home(s@, home@),
{
    let cs = chars_of(s);
    if cs.len() == 1 && cs[0] == '~' {
        proof {
            assert(s@ =~= seq!['~']);
        }
        let h = chars_of(home);
        return string_of(h.as_slice());
    }
    if cs.len() >= 2 && cs[0] == '~' && cs[1] == '/' {
        proof {
            assert(seq!['~', '/'].is_prefix_of(s@)) by {
                assert(s@.subrange(0, 2) =~= seq!['~', '/']);
            }
        }
        let rest = skip_chars(&cs, 2);
        let h = chars_of(home);
        let j = join_chars(&h, &rest);
        return string_of(j.as_slice());
    }
    proof {
        if seq!['~', '/'].is_prefix_of(s@) {
            assert(s@.subrange(0, 2) == seq!['~', '/']);
            assert(s@[0] == s@.subrange(0, 2)[0]);
            assert(s@[1] == s@.subrange(0, 2)[1]);
        }
        if s@ == seq!['~'] {
            assert(s@.len() == 1);
        }
    }
    string_of(cs.as_slice())
}

/// A typed query with a leading `~` written out against the home directory.
pub open spec fn expand_query(q: Seq<char>, home: Seq<char>) -> Seq<char> {
    if q == seq!['~'] {
        home + seq!['/']
    } else if seq!['~', '/'].is_prefix_of(q) {
        home + seq!['/'] + q.skip(2)
    } else {
        q
    }
}

/// `s` without its trailing `/` characters.
pub open spec fn trim_end_slashes(s: Seq<char>) -> Seq<char>
    decreases s.len(),
{
    if s.len() > 0 && s.last() == '/' {
        trim_end_slashes(s.drop_last())
    } else {
        s
    }
}

/// An empty base directory stands for the root.
pub open spec fn or_root(b: Seq<char>) -> Seq<char> {
    if b.len() == 0 {
        seq!['/']
    } else {
        b
    }
}

/// A path-like palette query split into the directory to list and the
/// partial name typed after its last `/`. A trailing `/` lists the directory
/// itself with no partial name.
pub open spec fn split_query(q: Seq<char>, home: Seq<char>) -> (Seq<char>, Seq<char>) {
    let e = expand_query(q, home);
    if e.len() > 0 && e.last() == '/' {
        (or_root(trim_end_slashes(e)), Seq::empty())
    } else {
        let k = last_index_of(e, '/', e.len() as int);
        if k >= 0 {
            (or_root(e.take(k)), e.skip(k + 1))
        } else {
            (e, Seq::empty())
        }
    }
}

fn expand_query_exec(q: &Vec<char>, home: &Vec<char>) -> (r: Vec<char>)
    ensures
        r@ == expand_query(q@, home@),
{
    if q.len() == 1 && q[0] == '~' {
        proof {
            assert(q@ =~= seq!['~']);
        }
        let mut r = home.clone();
        r.push('/');
        return r;
    }
    if q.len() >= 2 && q[0] == '~' && q[1] == '/' {
        proof {
            assert(q@.subrange(0, 2) =~= seq!['~', '/']);
        }
        let mut r = home.clone();
        r.push('/');
        let rest = skip_chars(q, 2);
        append_chars(&mut r, &rest);
        return r;
    }
    proof {
        if seq!['~', '/'].is_prefix_of(q@) {
            assert(q@[0] == q@.subrange(0, 2)[0]);
            assert(q@[1] == q@.subrange(0, 2)[1]);
        }
        if q@ == seq!['~'] {
            assert(q@.len() == 1);
        }
    }
    q.clone()
}

fn root_if_empty(b: Vec<char>) -> (r: Vec<char>)
    ensures
        r@ == or_root(b@),
{
    if b.len() == 0 {
        let mut r = Vec::new();
        r.push('/');
        assert(r@ =~= seq!['/']);
        r
    } else {
        b
    }
}

/// Splits a path-like palette query (one that starts with `/` or `~`) into
/// (directory to list, partial name).
pub fn split_path_query(q: &str, home: &str) -> (r: (String, String))
    ensures
        (r.0@, r.1@) == split_query(q@, home@),
{
    let qc = chars_of(q);
    let hc = chars_of(home);
    let e = expand_query_exec(&qc, &hc);
    if e.len() > 0 && e[e.len() - 1] == '/' {
        let mut end = e.len();
        proof {
            assert(e@.take(e@.len() as int) =~= e@);
        }
        while end > 0 && e[end - 1] == '/'
            invariant
                end <= e@.len(),
                trim_end_slashes(e@.take(end as int)) == trim_end_slashes(e@),
            decreases end,
        {
            proof {
                assert(e@.take(end as int).drop_last() =~= e@.take(end as int - 1));
            }
            end = end - 1;
        }
        proof {
            assert(e@.take(e@.len() as int) =~= e@);
        }
        let b = take_chars(&e, end);
        let b = root_if_empty(b);
        return (string_of(b.as_slice()), string_of(&[]));
    }
    match last_index_exec(&e, '/') {
        Some(k) => {
            proof {
                lemma_last_index_bounds(e@, '/', e@.len() as int);
            }
            let b = take_chars(&e, k);
            let b = root_if_empty(b);
            let p = skip_chars(&e, k + 1);
            (string_of(b.as_slice()), string_of(p.as_slice()))
        },
        None => (string_of(e.as_slice()), string_of(&[])),
    }
}

} // verus!
