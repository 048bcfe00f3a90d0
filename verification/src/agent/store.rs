//! Where sessions are stored: the file of a session, and the listing of the
//! saved sessions.

use vstd::prelude::*;
use crate::text::{concat2, str_chars, string_from_chars};

verus! {

/// `dir` extended by the relative or absolute path `p`, as `PathBuf::push` does
/// on Unix: an absolute `p` replaces `dir`; otherwise a `/` separates them
/// unless `dir` is empty or already ends with one.
pub open spec fn join_path(dir: Seq<char>, p: Seq<char>) -> Seq<char> {
    if p.len() > 0 && p[0] == '/' {
        p
    } else if dir.len() > 0 && dir.last() != '/' {
        dir + seq!['/'] + p
    } else {
        dir + p
    }
}

/// The session that a file named `n` holds: the name without `.jsonl` when the
/// file's extension is `jsonl` (a name that is only `.jsonl` has no extension).
pub open spec fn session_name_of(n: Seq<char>) -> Option<Seq<char>> {
    if n.len() > 6 && n.skip(n.len() - 6) == ".jsonl"@ {
        Some(n.take(n.len() - 6))
    } else {
        None
    }
}

/// Manages JSONL session files stored in a directory.
pub struct SessionStore {
    dir: String,
}

impl SessionStore {
    /// The directory of the store.
    pub closed spec fn directory(&self) -> Seq<char> {
        self.dir@
    }

    /// A store rooted at `dir`.
    pub fn new(dir: String) -> (s: Self)
        ensures
            s.directory() == dir@,
    {
        SessionStore { dir }
    }

    /// The store under the home directory `home`, if it is known:
    /// `<home>/.config/rode/sessions`.
    pub fn default_store(home: Option<String>) -> (s: Option<Self>)
        ensures
            match home {
                None => s is None,
                Some(h) => s matches Some(st) && st.directory() == h@ + "/.config/rode/sessions"@,
            },
    {
        match home {
            None => None,
            Some(h) => Some(SessionStore { dir: concat2(h.as_str(), "/.config/rode/sessions") }),
        }
    }

    /// Path of the JSONL file of session `name`.
    pub fn path_for(&self, name: &str) -> (p: String)
        ensures
            p@ == join_path(self.directory(), name@ + ".jsonl"@),
    {
        let file = concat2(name, ".jsonl");
        let f = str_chars(file.as_str());
        let d = str_chars(self.dir.as_str());
        if f.len() > 0 && f[0] == '/' {
            file
        } else if d.len() > 0 && d[d.len() - 1] != '/' {
            let mut s = concat2(self.dir.as_str(), "/");
            s.append(file.as_str());
            proof {
                reveal_strlit("/");
                assert(s@ =~= self.dir@ + seq!['/'] + file@);
            }
            s
        } else {
            concat2(self.dir.as_str(), file.as_str())
        }
    }

    /// The directory (for display).
    pub fn dir(&self) -> (d: &str)
        ensures
            d@ == self.directory(),
    {
        self.dir.as_str()
    }
}

/// The session held by the file named `file_name`, if its extension is `jsonl`.
pub fn session_name(file_name: &str) -> (r: Option<String>)
    ensures
        match session_name_of(file_name@) {
            None => r is None,
            Some(n) => r matches Some(s) && s@ == n,
        },
{
    let n = str_chars(file_name);
    let ext = str_chars(".jsonl");
    proof {
        reveal_strlit(".jsonl");
    }
    if n.len() <= 6 {
        return None;
    }
    let start = n.len() - 6;
    let mut k: usize = 0;
    while k < 6
        invariant
            k <= 6,
            n@ == file_name@,
            start + 6 == n@.len(),
            start == n@.len() - 6,
            ext@ == ".jsonl"@,
            ext@.len() == 6,
            forall|j: int| 0 <= j < k ==> n@[start + j] == ext@[j],
        decreases 6 - k,
    {
        assert(start + k < n.len());
        if n[start + k] != ext[k] {
            proof {
                assert(n@.skip(start as int)[k as int] != ".jsonl"@[k as int]);
            }
            return None;
        }
        k = k + 1;
    }
    proof {
        assert(n@.skip(start as int) =~= ".jsonl"@);
    }
    let mut stem: Vec<char> = Vec::new();
    let mut i: usize = 0;
    while i < start
        invariant
            i <= start,
            start < n@.len(),
            stem@ == n@.take(i as int),
        decreases start - i,
    {
        proof {
            assert(n@.take(i + 1) =~= n@.take(i as int).push(n@[i as int]));
        }
        stem.push(n[i]);
        i = i + 1;
    }
    Some(string_from_chars(stem.as_slice()))
}

/// A saved file: its name and its modification time (nanoseconds from the Unix
/// epoch, negative before it).
pub struct SavedFile {
    pub file_name: String,
    pub modified: i128,
}

/// Whether entry `a` lists before entry `b`: newer first; between files of the
/// same time, the later-found first.
pub open spec fn lists_before(times: Seq<i128>, a: int, b: int) -> bool {
    times[a] > times[b] || (times[a] == times[b] && a > b)
}

/// Whether `p` lists the indices `0..n` each once.
pub open spec fn is_permutation(p: Seq<int>, n: nat) -> bool {
    &&& p.len() == n
    &&& forall|k: int| 0 <= k < p.len() ==> 0 <= #[trigger] p[k] < n
    &&& forall|k: int, l: int| 0 <= k < l < p.len() ==> p[k] != p[l]
}

/// The order in which the sessions are listed: the positions, in `times`, of the
/// session files, sorted by `lists_before`.
pub open spec fn is_listing_order(times: Seq<i128>, p: Seq<int>) -> bool {
    &&& is_permutation(p, times.len())
    &&& forall|k: int, l: int| 0 <= k < l < p.len() ==> lists_before(times, p[k], p[l])
}

/// The saved sessions among `files`, newest first (files of the same time in
/// the reverse of the order in which they were found).
pub fn sessions_newest_first(files: &Vec<SavedFile>) -> (names: Vec<String>)
    ensures
        exists|p: Seq<int>|
            #[trigger] is_listing_order(times_of(session_files(files@)), p) && names@.len()
                == p.len() && forall|k: int|
                0 <= k < p.len() ==> (#[trigger] names@[k])@ == session_files(files@)[p[k]].0,
{
    // the sessions, in the order found
    let mut found: Vec<(String, i128)> = Vec::new();
    let mut i: usize = 0;
    while i < files.len()
        invariant
            i <= files.len(),
            found@.map_values(|e: (String, i128)| (e.0@, e.1)) == session_files(
                files@.take(i as int),
            ),
        decreases files.len() - i,
    {
        proof {
            assert(files@.take(i + 1).drop_last() =~= files@.take(i as int));
        }
        match session_name(files[i].file_name.as_str()) {
            Some(n) => {
                let ghost before = found@;
                found.push((n, files[i].modified));
                proof {
                    assert(found@.map_values(|e: (String, i128)| (e.0@, e.1)) =~= before.map_values(
                        |e: (String, i128)| (e.0@, e.1),
                    ).push((n@, files[i as int].modified)));
                }
            },
            None => {},
        }
        i = i + 1;
    }
    proof {
        assert(files@.take(files.len() as int) =~= files@);
    }
    let ghost sessions = found@.map_values(|e: (String, i128)| (e.0@, e.1));
    let ghost times = sessions.map_values(|e: (Seq<char>, i128)| e.1);
    // insertion sort of the positions by `lists_before`
    let mut order: Vec<usize> = Vec::new();
    let mut j: usize = 0;
    while j < found.len()
        invariant
            j <= found.len(),
            sessions == found@.map_values(|e: (String, i128)| (e.0@, e.1)),
            times == sessions.map_values(|e: (Seq<char>, i128)| e.1),
            times.len() == found@.len(),
            is_permutation(order@.map_values(|x: usize| x as int), j as nat),
            forall|k: int, l: int|
                0 <= k < l < order@.len() ==> lists_before(times, order@[k] as int, order@[l] as int),
        decreases found.len() - j,
    {
        let t = found[j].1;
        let mut pos: usize = 0;
        proof {
            assert forall|k: int| 0 <= k < order@.len() implies (#[trigger] order@[k]) < j by {
                assert(order@.map_values(|x: usize| x as int)[k] == order@[k] as int);
            }
        }
        while pos < order.len() && found[order[pos]].1 > t
            invariant
                pos <= order@.len(),
                j < found@.len(),
                t == times[j as int],
                times == sessions.map_values(|e: (Seq<char>, i128)| e.1),
                sessions == found@.map_values(|e: (String, i128)| (e.0@, e.1)),
                forall|k: int| 0 <= k < order@.len() ==> (#[trigger] order@[k]) < j,
                forall|k: int| 0 <= k < pos ==> times[#[trigger] order@[k] as int] > t,
            decreases order@.len() - pos,
        {
            pos = pos + 1;
        }
        let ghost old_order = order@;
        order.insert(pos, j);
        proof {
            let m = old_order.map_values(|x: usize| x as int);
            let nm = order@.map_values(|x: usize| x as int);
            assert(nm =~= m.insert(pos as int, j as int));
            // j lists before everything from `pos` on, everything before `pos` lists before j
            assert forall|k: int| pos <= k < old_order.len() implies lists_before(
                times,
                j as int,
                #[trigger] old_order[k] as int,
            ) by {
                if k > pos as int {
                    assert(lists_before(times, old_order[pos as int] as int, old_order[k] as int));
                }
                assert(old_order[k] < j);
            }
            assert forall|k: int, l: int| 0 <= k < l < order@.len() implies lists_before(
                times,
                order@[k] as int,
                order@[l] as int,
            ) by {
                if l < pos {
                } else if l == pos {
                    assert(times[order@[k] as int] > t);
                } else if k < pos {
                    assert(order@[l] == old_order[l - 1]);
                    assert(times[order@[k] as int] > t);
                    assert(lists_before(times, j as int, old_order[l - 1] as int));
                } else if k == pos {
                    assert(order@[l] == old_order[l - 1]);
                } else {
                    assert(order@[k] == old_order[k - 1]);
                    assert(order@[l] == old_order[l - 1]);
                }
            }
        }
        j = j + 1;
    }
    let mut names: Vec<String> = Vec::new();
    let mut k: usize = 0;
    proof {
        assert forall|x: int| 0 <= x < order@.len() implies (#[trigger] order@[x]) < found@.len() by {
            assert(order@.map_values(|x: usize| x as int)[x] == order@[x] as int);
        }
    }
    while k < order.len()
        invariant
            k <= order@.len(),
            order@.len() == found@.len(),
            forall|x: int| 0 <= x < order@.len() ==> (#[trigger] order@[x]) < found@.len(),
            names@.len() == k,
            sessions == found@.map_values(|e: (String, i128)| (e.0@, e.1)),
            forall|x: int|
                0 <= x < k ==> (#[trigger] names@[x])@ == sessions[order@[x] as int].0,
        decreases order@.len() - k,
    {
        names.push(found[order[k]].0.clone());
        k = k + 1;
    }
    proof {
        let p = order@.map_values(|x: usize| x as int);
        assert(is_listing_order(times, p));
        assert(forall|x: int| 0 <= x < p.len() ==> (#[trigger] names@[x])@ == sessions[p[x]].0);
        assert(times == times_of(session_files(files@)));
        assert(is_listing_order(times_of(session_files(files@)), p));
    }
    names
}

/// The times of listed session files.
pub open spec fn times_of(sessions: Seq<(Seq<char>, i128)>) -> Seq<i128> {
    sessions.map_values(|e: (Seq<char>, i128)| e.1)
}

/// The session files among `files`, in order: each one's session name and time.
pub open spec fn session_files(files: Seq<SavedFile>) -> Seq<(Seq<char>, i128)>
    decreases files.len(),
{
    if files.len() == 0 {
        Seq::empty()
    } else {
        let rest = session_files(files.drop_last());
        match session_name_of(files.last().file_name@) {
            Some(n) => rest.push((n, files.last().modified)),
            None => rest,
        }
    }
}

} // verus!

verus! {

/// A session saved under a non-empty name is listed under that name: the file
/// that `path_for` names ends with the name and `.jsonl`, and the listing reads
/// the name back from that file name.
pub proof fn lemma_saved_name_listed(dir: Seq<char>, name: Seq<char>)
    requires
        name.len() > 0,
    ensures
        session_name_of(name + ".jsonl"@) == Some(name),
        join_path(dir, name + ".jsonl"@).len() >= name.len() + 6,
        join_path(dir, name + ".jsonl"@).skip(
            join_path(dir, name + ".jsonl"@).len() - (name.len() + 6),
        ) == name + ".jsonl"@,
{
    reveal_strlit(".jsonl");
    let f = name + ".jsonl"@;
    assert(f.skip(f.len() - 6) =~= ".jsonl"@);
    assert(f.take(f.len() - 6) =~= name);
    let j = join_path(dir, f);
    if f.len() > 0 && f[0] == '/' {
        assert(j.skip(0) =~= f);
    } else if dir.len() > 0 && dir.last() != '/' {
        assert(j.skip(j.len() - f.len()) =~= f);
    } else {
        assert(j.skip(j.len() - f.len()) =~= f);
    }
}

} // verus!
