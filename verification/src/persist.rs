//! Where the explorer keeps its state and how its files read: the home and
//! config directories, the user's name, and the newline-separated lists of
//! recents and bookmarks. Reading and writing the files is the caller's.

use vstd::prelude::*;
use crate::text::{chars_of, string_of, trim, trim_chars, trim_str};
use crate::path::{join, join_path, file_name, path_file_name};
use crate::theme::{split_lines, lemma_split_plain};
use crate::workspace::texts_of;

verus! {

/// The home directory: `$HOME`, or the root when it is unset.
pub open spec fn home_of(var: Option<Seq<char>>) -> Seq<char> {
    match var {
        Some(h) => h,
        None => "/"@,
    }
}

pub fn home_dir(var: Option<String>) -> (r: String)
    ensures
        r@ == home_of(
            match var {
                Some(h) => Some(h@),
                None => None,
            },
        ),
{
    match var {
        Some(h) => h,
        None => "/".to_owned(),
    }
}

/// The user's name: `$USER` when set and not empty, else the home
/// directory's name, else "Home".
pub open spec fn user_of(var: Option<Seq<char>>, home: Seq<char>) -> Seq<char> {
    match var {
        Some(u) if u.len() > 0 => u,
        _ => match file_name(home) {
            Some(n) => n,
            None => "Home"@,
        },
    }
}

pub fn username(var: Option<String>, home: &str) -> (r: String)
    ensures
        r@ == user_of(
            match var {
                Some(u) => Some(u@),
                None => None,
            },
            home@,
        ),
{
    match var {
        Some(u) => {
            if !u.as_str().is_empty() {
                return u;
            }
        },
        None => {},
    }
    match path_file_name(home) {
        Some(n) => n,
        None => "Home".to_owned(),
    }
}

/// The directory the explorer keeps its files in, under `home`.
pub open spec fn config_dir_of(home: Seq<char>) -> Seq<char> {
    join(home, "Library/Application Support/Shuffle"@)
}

pub fn config_dir(home: &str) -> (r: String)
    ensures
        r@ == config_dir_of(home@),
{
    join_path(home, "Library/Application Support/Shuffle")
}

/// The path of the explorer's file `name`.
pub fn config_file(home: &str, name: &str) -> (r: String)
    ensures
        r@ == join(config_dir_of(home@), name@),
{
    let d = config_dir(home);
    join_path(d.as_str(), name)
}

/// The saved last directory, as the file holds it (trimmed); the caller
/// opens it when it is still a directory, else the home directory.
pub fn saved_dir(text: &str) -> (r: String)
    ensures
        r@ == trim(text@),
{
    trim_str(text)
}

/// The paths a list file holds: each line trimmed, blank lines dropped, in
/// order. (Which of them are still directories is for the caller to check.)
pub open spec fn list_paths(lines: Seq<Seq<char>>) -> Seq<Seq<char>>
    decreases lines.len(),
{
    if lines.len() == 0 {
        Seq::empty()
    } else if trim(lines.last()).len() == 0 {
        list_paths(lines.drop_last())
    } else {
        list_paths(lines.drop_last()).push(trim(lines.last()))
    }
}

fn split_newlines(s: &str) -> (r: Vec<Vec<char>>)
    ensures
        r@.map_values(|l: Vec<char>| l@) == split_lines(s@),
{
    let cs = chars_of(s);
    let mut done: Vec<Vec<char>> = Vec::new();
    let mut cur: Vec<char> = Vec::new();
    let mut i: usize = 0;
    while i < cs.len()
        invariant
            i <= cs@.len(),
            cs@ == s@,
            done@.map_values(|l: Vec<char>| l@).push(cur@) == split_lines(cs@.take(i as int)),
        decreases cs.len() - i,
    {
        let ghost p = split_lines(cs@.take(i as int));
        proof {
            assert(cs@.take(i as int + 1).drop_last() =~= cs@.take(i as int));
            crate::theme::lemma_split_lines_nonempty(cs@.take(i as int));
        }
        if cs[i] == '\n' {
            let ghost dv = done@;
            let finished = cur;
            done.push(finished);
            cur = Vec::new();
            proof {
                assert(done@.map_values(|l: Vec<char>| l@) =~= dv.map_values(|l: Vec<char>| l@).push(
                    finished@,
                ));
                assert(done@.map_values(|l: Vec<char>| l@).push(cur@) =~= p.push(Seq::<char>::empty()));
            }
        } else {
            cur.push(cs[i]);
            proof {
                assert(done@.map_values(|l: Vec<char>| l@).push(cur@) =~= p.update(
                    p.len() - 1,
                    p.last().push(cs@[i as int]),
                ));
            }
        }
        i = i + 1;
    }
    proof {
        assert(cs@.take(cs@.len() as int) =~= cs@);
    }
    let ghost dv = done@;
    let last = cur;
    done.push(last);
    proof {
        assert(done@.map_values(|l: Vec<char>| l@) =~= dv.map_values(|l: Vec<char>| l@).push(last@));
    }
    done
}

/// Reads a list file (recents or bookmarks).
pub fn read_path_list(text: &str) -> (r: Vec<String>)
    ensures
        texts_of(r@) == list_paths(split_lines(text@)),
{
    let lines = split_newlines(text);
    let ghost lv = lines@.map_values(|l: Vec<char>| l@);
    let mut r: Vec<String> = Vec::new();
    let mut i: usize = 0;
    while i < lines.len()
        invariant
            i <= lines@.len(),
            lv == lines@.map_values(|l: Vec<char>| l@),
            texts_of(r@) == list_paths(lv.take(i as int)),
        decreases lines.len() - i,
    {
        proof {
            assert(lv.take(i as int + 1).drop_last() =~= lv.take(i as int));
            assert(lv.take(i as int + 1).last() == lines@[i as int]@);
        }
        let t = trim_chars(&lines[i]);
        if t.len() > 0 {
            let ghost rv = r@;
            let s = string_of(t.as_slice());
            r.push(s);
            proof {
                assert(texts_of(r@) =~= texts_of(rv).push(s@));
            }
        }
        i = i + 1;
    }
    proof {
        assert(lv.take(lv.len() as int) =~= lv);
    }
    r
}

/// The text of a list file: the paths joined by newlines.
pub open spec fn list_text(paths: Seq<Seq<char>>) -> Seq<char>
    decreases paths.len(),
{
    if paths.len() == 0 {
        Seq::empty()
    } else if paths.len() == 1 {
        paths[0]
    } else {
        list_text(paths.drop_last()) + seq!['\n'] + paths.last()
    }
}

pub fn write_path_list(paths: &Vec<String>) -> (r: String)
    ensures
        r@ == list_text(texts_of(paths@)),
{
    let ghost pv = texts_of(paths@);
    let mut out: Vec<char> = Vec::new();
    let mut i: usize = 0;
    while i < paths.len()
        invariant
            i <= paths@.len(),
            pv == texts_of(paths@),
            out@ == list_text(pv.take(i as int)),
        decreases paths.len() - i,
    {
        let ghost before = out@;
        if i > 0 {
            out.push('\n');
        }
        let cs = chars_of(paths[i].as_str());
        let mut k: usize = 0;
        let ghost mid = out@;
        while k < cs.len()
            invariant
                k <= cs@.len(),
                out@ == mid + cs@.take(k as int),
            decreases cs.len() - k,
        {
            out.push(cs[k]);
            proof {
                assert(cs@.take(k as int + 1) =~= cs@.take(k as int).push(cs@[k as int]));
            }
            k = k + 1;
        }
        proof {
            assert(cs@.take(cs@.len() as int) =~= cs@);
            assert(pv.take(i as int + 1).drop_last() =~= pv.take(i as int));
            if i == 0 {
                assert(pv.take(1) =~= seq![pv[0]]);
                assert(out@ =~= pv[0]);
            } else {
                assert(out@ =~= before + seq!['\n'] + pv[i as int]);
            }
        }
        i = i + 1;
    }
    proof {
        assert(pv.take(pv.len() as int) =~= pv);
    }
    string_of(out.as_slice())
}

/// A path a list file can hold as it is: not blank, no surrounding
/// whitespace, no newline.
pub open spec fn storable(p: Seq<char>) -> bool {
    &&& trim(p) == p
    &&& p.len() > 0
    &&& forall|i: int| 0 <= i < p.len() ==> #[trigger] p[i] != '\n'
}

proof fn lemma_split_list_text(paths: Seq<Seq<char>>)
    requires
        paths.len() > 0,
        forall|k: int| 0 <= k < paths.len() ==> storable(#[trigger] paths[k]),
    ensures
        split_lines(list_text(paths)) == paths,
    decreases paths.len(),
{
    if paths.len() == 1 {
        assert(storable(paths[0]));
        lemma_split_plain(Seq::empty(), paths[0]);
        assert(Seq::<char>::empty() + paths[0] =~= paths[0]);
        assert(seq![Seq::<char>::empty()].update(0, Seq::<char>::empty() + paths[0]) =~= paths);
    } else {
        let init = paths.drop_last();
        assert forall|k: int| 0 <= k < init.len() implies storable(#[trigger] init[k]) by {
            assert(init[k] == paths[k]);
        }
        lemma_split_list_text(init);
        let s = list_text(init);
        let l = paths.last();
        assert(storable(paths[paths.len() - 1]));
        assert((s + seq!['\n']).drop_last() =~= s);
        assert(split_lines(s + seq!['\n']) == init.push(Seq::<char>::empty()));
        lemma_split_plain(s + seq!['\n'], l);
        let q = init.push(Seq::<char>::empty());
        assert(Seq::<char>::empty() + l =~= l);
        assert(q.update(q.len() - 1, q.last() + l) =~= paths);
    }
}

proof fn lemma_list_paths_id(paths: Seq<Seq<char>>)
    requires
        forall|k: int| 0 <= k < paths.len() ==> storable(#[trigger] paths[k]),
    ensures
        list_paths(paths) == paths,
    decreases paths.len(),
{
    if paths.len() > 0 {
        let init = paths.drop_last();
        assert forall|k: int| 0 <= k < init.len() implies storable(#[trigger] init[k]) by {
            assert(init[k] == paths[k]);
        }
        lemma_list_paths_id(init);
        assert(storable(paths[paths.len() - 1]));
        assert(init.push(paths.last()) =~= paths);
    }
}

/// Writing a list of paths and reading the file back gives the same list,
/// for paths a line can hold (not blank, no surrounding whitespace, no
/// newline).
pub proof fn law_path_list_round_trip(paths: Seq<Seq<char>>)
    requires
        forall|k: int| 0 <= k < paths.len() ==> storable(#[trigger] paths[k]),
    ensures
        list_paths(split_lines(list_text(paths))) == paths,
{
    if paths.len() == 0 {
        assert(list_paths(seq![Seq::<char>::empty()]) == Seq::<Seq<char>>::empty()) by {
            let one = seq![Seq::<char>::empty()];
            assert(one.drop_last() =~= Seq::<Seq<char>>::empty());
            assert(crate::text::trim_start(Seq::<char>::empty()) == Seq::<char>::empty());
            assert(crate::text::trim_end(Seq::<char>::empty()) == Seq::<char>::empty());
            assert(trim(one.last()).len() == 0);
            assert(list_paths(Seq::<Seq<char>>::empty()) == Seq::<Seq<char>>::empty());
        }
    } else {
        lemma_split_list_text(paths);
        lemma_list_paths_id(paths);
    }
}

} // verus!
