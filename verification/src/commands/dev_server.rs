//! Dev-server bookkeeping: which project paths have a running server, the
//! per-path output buffers, and how a server's command line and `PATH` are
//! put together.
use vstd::prelude::*;

use crate::error::AppError;
use crate::keyed::{
    find_key, key_index, keyed_map, lemma_key_index_unique, lemma_keyed_map_at,
    lemma_keyed_map_push, lemma_keyed_map_remove, lemma_keyed_map_update, unique_keys,
};
use crate::text::{
    append_chars, chars_of, join, join_chars, string_of, strings_of, trim_end, trim_end_chars,
    views,
};
use crate::commands::process_tree::{words, words_chars};

verus! {

/// How many lines a path's output buffer keeps.
pub const LOG_CAPACITY: usize = 1000;

/// The views of a list of strings.
pub open spec fn strings_view(v: Seq<String>) -> Seq<Seq<char>> {
    v.map_values(|s: String| s@)
}

/// A buffer after one more line: the oldest line goes once the buffer is
/// full.
pub open spec fn buffer_after_push(old: Seq<Seq<char>>, line: Seq<char>) -> Seq<Seq<char>> {
    (if old.len() >= LOG_CAPACITY {
        old.skip(1)
    } else {
        old
    }).push(line)
}

/// The output lines of each project path's dev server.
pub struct LogBuffers {
    entries: Vec<(String, Vec<String>)>,
}

impl LogBuffers {
    #[verifier::type_invariant]
    spec fn well_formed(&self) -> bool {
        &&& unique_keys(self.entries@)
        &&& forall|i: int|
            0 <= i < self.entries@.len() ==> (#[trigger] self.entries@[i]).1@.len() <= LOG_CAPACITY
    }

    /// The buffer of each path.
    pub closed spec fn view(&self) -> Map<Seq<char>, Seq<Seq<char>>> {
        keyed_map(self.entries@).map_values(|v: Vec<String>| strings_view(v@))
    }

    /// The buffer of `path`, empty if it has none.
    pub open spec fn buffer_of(&self, path: Seq<char>) -> Seq<Seq<char>> {
        if self.view().contains_key(path) {
            self.view()[path]
        } else {
            Seq::empty()
        }
    }

    /// No buffers.
    pub fn new() -> (b: LogBuffers)
        ensures
            b.view() == Map::<Seq<char>, Seq<Seq<char>>>::empty(),
    {
        let b = LogBuffers { entries: Vec::new() };
        assert(b.view() =~= Map::<Seq<char>, Seq<Seq<char>>>::empty());
        b
    }

    /// Appends a line to the buffer of `path`, dropping its oldest line when
    /// it already holds `LOG_CAPACITY` lines; no buffer grows beyond that.
    pub fn push_line(&mut self, path: &str, line: String)
        ensures
            final(self).view() == old(self).view().insert(
                path@,
                buffer_after_push(old(self).buffer_of(path@), line@),
            ),
            forall|p: Seq<char>| #[trigger]
                final(self).view().contains_key(p) ==> final(self).view()[p].len() <= LOG_CAPACITY,
    {
        proof {
            use_type_invariant(&*self);
        }
        let ghost old_map = keyed_map(self.entries@);
        let ghost before = self.view();
        let ghost expected = buffer_after_push(old(self).buffer_of(path@), line@);
        let ghost mut nv: Vec<String> = vstd::pervasive::arbitrary();
        let mut entries = Vec::new();
        std::mem::swap(&mut entries, &mut self.entries);
        match find_key(&entries, path) {
            Some(i) => {
                proof {
                    lemma_keyed_map_at(entries@, i as int);
                    lemma_key_index_unique(entries@, path@);
                }
                let mut lines = entries[i].1.clone();
                assert(strings_view(lines@) =~= strings_view(entries@[i as int].1@));
                assert(strings_view(lines@) == before[path@]);
                let ghost old_lines = strings_view(lines@);
                if lines.len() >= LOG_CAPACITY {
                    lines.remove(0);
                    assert(strings_view(lines@) =~= old_lines.skip(1));
                }
                let ghost mid = strings_view(lines@);
                lines.push(line);
                assert(strings_view(lines@) =~= mid.push(line@));
                assert(strings_view(lines@) == expected);
                let key = entries[i].0.clone();
                proof {
                    lemma_keyed_map_update(entries@, i as int, key, lines);
                    nv = lines;
                }
                entries.set(i, (key, lines));
            },
            None => {
                proof {
                    lemma_key_index_unique(entries@, path@);
                }
                let mut lines: Vec<String> = Vec::new();
                lines.push(line);
                assert(strings_view(lines@) =~= Seq::<Seq<char>>::empty().push(line@));
                assert(strings_view(lines@) == expected);
                let key = String::from_str(path);
                proof {
                    lemma_keyed_map_push(entries@, key, lines);
                    nv = lines;
                }
                entries.push((key, lines));
            },
        }
        assert(keyed_map(entries@) == old_map.insert(path@, nv));
        assert(strings_view(nv@) == expected);
        assert forall|i: int| 0 <= i < entries@.len() implies (#[trigger] entries@[i]).1@.len()
            <= LOG_CAPACITY by {}
        self.entries = entries;
        assert(self.view() =~= before.insert(path@, expected));
        proof {
            assert forall|p: Seq<char>| #[trigger]
                self.view().contains_key(p) implies self.view()[p].len() <= LOG_CAPACITY by {
                lemma_key_index_unique(self.entries@, p);
            }
        }
    }

    /// The lines buffered for `path`, oldest first.
    pub fn get_logs(&self, path: &str) -> (lines: Vec<String>)
        ensures
            strings_view(lines@) == self.buffer_of(path@),
    {
        proof {
            use_type_invariant(self);
        }
        match find_key(&self.entries, path) {
            Some(i) => {
                proof {
                    lemma_keyed_map_at(self.entries@, i as int);
                }
                let lines = self.entries[i].1.clone();
                assert(strings_view(lines@) =~= strings_view(self.entries@[i as int].1@));
                lines
            },
            None => {
                let lines: Vec<String> = Vec::new();
                assert(strings_view(lines@) =~= Seq::<Seq<char>>::empty());
                lines
            },
        }
    }

    /// Forgets the buffer of `path`.
    pub fn clear(&mut self, path: &str)
        ensures
            final(self).view() == old(self).view().remove(path@),
    {
        proof {
            use_type_invariant(&*self);
        }
        let ghost before = self.view();
        let ghost old_map = keyed_map(self.entries@);
        let mut entries = Vec::new();
        std::mem::swap(&mut entries, &mut self.entries);
        match find_key(&entries, path) {
            Some(i) => {
                proof {
                    lemma_keyed_map_remove(entries@, i as int);
                    lemma_key_index_unique(entries@, path@);
                }
                let ghost prev = entries@;
                entries.remove(i);
                assert forall|j: int| 0 <= j < entries@.len() implies (#[trigger] entries@[j]).1@.len()
                    <= LOG_CAPACITY by {
                    if j < i {
                        assert(entries@[j] == prev[j]);
                    } else {
                        assert(entries@[j] == prev[j + 1]);
                    }
                }
                assert(keyed_map(entries@) == old_map.remove(path@));
                self.entries = entries;
                assert(self.view() =~= before.remove(path@));
            },
            None => {
                proof {
                    lemma_key_index_unique(entries@, path@);
                }
                assert(old_map.remove(path@) =~= old_map);
                self.entries = entries;
                assert(self.view() =~= before.remove(path@));
            },
        }
    }
}

/// `pid` is the server of some path.
pub open spec fn is_pid_of(m: Map<Seq<char>, u32>, pid: u32) -> bool {
    exists|p: Seq<char>| m.contains_key(p) && m[p] == pid
}

/// The process ids of the running dev servers, by project path.
pub struct ServerRegistry {
    entries: Vec<(String, u32)>,
}

impl ServerRegistry {
    #[verifier::type_invariant]
    spec fn well_formed(&self) -> bool {
        unique_keys(self.entries@)
    }

    /// The server of each path.
    pub closed spec fn view(&self) -> Map<Seq<char>, u32> {
        keyed_map(self.entries@)
    }

    /// No servers.
    pub fn new() -> (r: ServerRegistry)
        ensures
            r.view() == Map::<Seq<char>, u32>::empty(),
    {
        let r = ServerRegistry { entries: Vec::new() };
        assert(r.view() =~= Map::<Seq<char>, u32>::empty());
        r
    }

    /// Whether `path` has a running server.
    pub fn contains(&self, path: &str) -> (b: bool)
        ensures
            b == self.view().contains_key(path@),
    {
        proof {
            use_type_invariant(self);
        }
        find_key(&self.entries, path).is_some()
    }

    /// Records the server of `path`, replacing one recorded before.
    pub fn insert(&mut self, path: String, pid: u32)
        ensures
            final(self).view() == old(self).view().insert(path@, pid),
    {
        proof {
            use_type_invariant(&*self);
        }
        let mut entries = Vec::new();
        std::mem::swap(&mut entries, &mut self.entries);
        match find_key(&entries, path.as_str()) {
            Some(i) => {
                proof {
                    lemma_key_index_unique(entries@, path@);
                    lemma_keyed_map_update(entries@, i as int, path, pid);
                }
                entries.set(i, (path, pid));
            },
            None => {
                proof {
                    lemma_key_index_unique(entries@, path@);
                    lemma_keyed_map_push(entries@, path, pid);
                }
                entries.push((path, pid));
            },
        }
        self.entries = entries;
    }

    /// Forgets the server of `path`, returning its process id if it had one.
    pub fn remove(&mut self, path: &str) -> (r: Option<u32>)
        ensures
            final(self).view() == old(self).view().remove(path@),
            match r {
                Some(pid) => old(self).view().contains_key(path@) && old(self).view()[path@] == pid,
                None => !old(self).view().contains_key(path@),
            },
    {
        proof {
            use_type_invariant(&*self);
        }
        let mut entries = Vec::new();
        std::mem::swap(&mut entries, &mut self.entries);
        let r = match find_key(&entries, path) {
            Some(i) => {
                proof {
                    lemma_key_index_unique(entries@, path@);
                    lemma_keyed_map_remove(entries@, i as int);
                    lemma_keyed_map_at(entries@, i as int);
                }
                let (_, pid) = entries.remove(i);
                Some(pid)
            },
            None => {
                proof {
                    lemma_key_index_unique(entries@, path@);
                }
                assert(keyed_map(entries@).remove(path@) =~= keyed_map(entries@));
                None
            },
        };
        self.entries = entries;
        r
    }

    /// The paths that have a running server, each once.
    pub fn running_paths(&self) -> (paths: Vec<String>)
        ensures
            paths@.len() == self.view().dom().len(),
            forall|i: int| 0 <= i < paths@.len() ==> self.view().contains_key(#[trigger] paths@[i]@),
            forall|p: Seq<char>| #[trigger]
                self.view().contains_key(p) ==> exists|i: int| 0 <= i < paths@.len() && paths@[i]@ == p,
    {
        proof {
            use_type_invariant(self);
            lemma_dom_len(self.entries@);
        }
        let mut paths: Vec<String> = Vec::new();
        let mut i: usize = 0;
        while i < self.entries.len()
            invariant
                i <= self.entries@.len(),
                unique_keys(self.entries@),
                paths@.len() == i,
                forall|j: int| 0 <= j < i ==> #[trigger] paths@[j]@ == self.entries@[j].0@,
            decreases self.entries.len() - i,
        {
            paths.push(self.entries[i].0.clone());
            i += 1;
        }
        proof {
            assert forall|j: int| 0 <= j < paths@.len() implies self.view().contains_key(
                #[trigger] paths@[j]@,
            ) by {
                lemma_keyed_map_at(self.entries@, j);
            }
            assert forall|p: Seq<char>| #[trigger] self.view().contains_key(p) implies exists|j: int|
                0 <= j < paths@.len() && paths@[j]@ == p by {
                lemma_key_index_unique(self.entries@, p);
                let j = key_index(self.entries@, p)->0;
                assert(paths@[j]@ == p);
            }
        }
        paths
    }

    /// Forgets every server, returning their process ids: one per path, in
    /// some order of the paths.
    pub fn take_all(&mut self) -> (pids: Vec<u32>)
        ensures
            final(self).view() == Map::<Seq<char>, u32>::empty(),
            exists|ks: Seq<Seq<char>>|
                is_key_order(ks, old(self).view()) && pids@ == #[trigger] values_along(
                    ks,
                    old(self).view(),
                ),
            pids@.len() == old(self).view().dom().len(),
            forall|i: int| 0 <= i < pids@.len() ==> is_pid_of(old(self).view(), #[trigger] pids@[i]),
            forall|p: Seq<char>| #[trigger]
                old(self).view().contains_key(p) ==> pids@.contains(old(self).view()[p]),
    {
        proof {
            use_type_invariant(&*self);
            lemma_dom_len(self.entries@);
        }
        let mut entries = Vec::new();
        std::mem::swap(&mut entries, &mut self.entries);
        assert(old(self).view() == keyed_map(entries@));
        let mut pids: Vec<u32> = Vec::new();
        let mut i: usize = 0;
        while i < entries.len()
            invariant
                i <= entries@.len(),
                unique_keys(entries@),
                pids@.len() == i,
                forall|j: int| 0 <= j < i ==> #[trigger] pids@[j] == entries@[j].1,
            decreases entries.len() - i,
        {
            pids.push(entries[i].1);
            i += 1;
        }
        proof {
            assert forall|j: int| 0 <= j < pids@.len() implies is_pid_of(
                old(self).view(),
                #[trigger] pids@[j],
            ) by {
                lemma_keyed_map_at(entries@, j);
                assert(old(self).view().contains_key(entries@[j].0@));
                assert(old(self).view()[entries@[j].0@] == pids@[j]);
            }
            assert forall|p: Seq<char>| #[trigger] keyed_map(entries@).contains_key(p) implies pids@.contains(
                keyed_map(entries@)[p],
            ) by {
                lemma_key_index_unique(entries@, p);
                let j = key_index(entries@, p)->0;
                assert(pids@[j] == entries@[j].1);
            }
        }
        proof {
            let ks = crate::keyed::keys_of(entries@);
            let m = old(self).view();
            assert(ks.no_duplicates()) by {
                assert forall|a: int, b: int|
                    0 <= a < ks.len() && 0 <= b < ks.len() && a != b implies ks[a] != ks[b] by {
                    assert(ks[a] == entries@[a].0@ && ks[b] == entries@[b].0@);
                }
            }
            assert(ks.to_set() =~= m.dom()) by {
                assert forall|k: Seq<char>| m.dom().contains(k) <==> ks.to_set().contains(k) by {
                    lemma_key_index_unique(entries@, k);
                    if m.dom().contains(k) {
                        let j = key_index(entries@, k)->0;
                        assert(ks[j] == k);
                    }
                    if ks.to_set().contains(k) {
                        let j = choose|j: int| 0 <= j < ks.len() && ks[j] == k;
                        assert(entries@[j].0@ == k);
                    }
                }
            }
            assert(pids@ =~= values_along(ks, m)) by {
                assert forall|j: int| 0 <= j < pids@.len() implies pids@[j] == values_along(ks, m)[j] by {
                    lemma_keyed_map_at(entries@, j);
                }
            }
            assert(is_key_order(ks, m));
        }
        assert(self.entries@ =~= Seq::<(String, u32)>::empty());
        assert(self.view() =~= Map::<Seq<char>, u32>::empty());
        pids
    }
}

/// `ks` lists every key of `m` once.
pub open spec fn is_key_order(ks: Seq<Seq<char>>, m: Map<Seq<char>, u32>) -> bool {
    ks.no_duplicates() && ks.to_set() == m.dom()
}

/// The values of `m` at the keys `ks`, in that order.
pub open spec fn values_along(ks: Seq<Seq<char>>, m: Map<Seq<char>, u32>) -> Seq<u32> {
    ks.map_values(|k: Seq<char>| m[k])
}

/// With unique keys, the map has one key per entry.
proof fn lemma_dom_len<V>(s: Seq<(String, V)>)
    requires
        unique_keys(s),
    ensures
        keyed_map(s).dom().len() == s.len(),
{
    let ks = crate::keyed::keys_of(s);
    assert(ks.no_duplicates()) by {
        assert forall|i: int, j: int|
            0 <= i < ks.len() && 0 <= j < ks.len() && i != j implies ks[i] != ks[j] by {
            assert(ks[i] == s[i].0@ && ks[j] == s[j].0@);
        }
    }
    ks.unique_seq_to_set();
    assert(keyed_map(s).dom() =~= ks.to_set()) by {
        assert forall|k: Seq<char>| keyed_map(s).dom().contains(k) <==> ks.to_set().contains(k) by {
            lemma_key_index_unique(s, k);
            if keyed_map(s).dom().contains(k) {
                let j = key_index(s, k)->0;
                assert(ks[j] == k);
            }
            if ks.to_set().contains(k) {
                let j = choose|j: int| 0 <= j < ks.len() && ks[j] == k;
                assert(s[j].0@ == k);
            }
        }
    }
}

// ---------------------------------------------------------------------------
// Starting a server
// ---------------------------------------------------------------------------

/// What the platform offers for running a dev server.
pub struct Platform {
    /// The host is Windows (`cmd /C` runs the command).
    pub windows: bool,
    /// A PTY wrapper (`script`) is used, so the server sees a terminal.
    pub use_pty: bool,
    /// `/usr/bin/stdbuf` exists.
    pub has_stdbuf: bool,
}

/// The program and arguments that run the words `parts` of `command`.
pub open spec fn invocation_spec(command: Seq<char>, parts: Seq<Seq<char>>, platform: Platform) -> (
    Seq<char>,
    Seq<Seq<char>>,
) {
    if platform.windows {
        ("cmd"@, seq!["/C"@, command])
    } else if platform.use_pty {
        (
            "script"@,
            seq!["-q"@, "/dev/null"@, "sh"@, "-c"@, "sleep 2147483647 | "@ + join(parts, seq![' '])],
        )
    } else if platform.has_stdbuf {
        ("stdbuf"@, seq!["-o0"@, "-e0"@] + parts)
    } else {
        (parts[0], parts.skip(1))
    }
}

/// A planned dev-server start.
pub struct Invocation {
    pub program: String,
    pub args: Vec<String>,
}

/// Why a server cannot start, or what to run: a path that already has a
/// server is refused, so is a command without words; otherwise the program
/// and arguments for the platform.
pub fn plan_dev_server(
    servers: &ServerRegistry,
    path: &str,
    command: &str,
    platform: &Platform,
) -> (r: Result<Invocation, AppError>)
    ensures
        servers.view().contains_key(path@) ==> (r matches Err(AppError::Config(m)) && m@
            == "server already running"@),
        !servers.view().contains_key(path@) && words(command@).len() == 0 ==> (r matches Err(
            AppError::Config(m),
        ) && m@ == "empty command"@),
        !servers.view().contains_key(path@) && words(command@).len() > 0 ==> (r matches Ok(inv)
            && (inv.program@, strings_view(inv.args@)) == invocation_spec(
            command@,
            words(command@),
            *platform,
        )),
{
    if servers.contains(path) {
        return Err(AppError::Config(String::from_str("server already running")));
    }
    let cv = chars_of(command);
    let parts = words_chars(&cv);
    if parts.len() == 0 {
        return Err(AppError::Config(String::from_str("empty command")));
    }
    let ghost pv = views(parts@);
    let mut args: Vec<String> = Vec::new();
    let program;
    if platform.windows {
        program = String::from_str("cmd");
        args.push(String::from_str("/C"));
        args.push(String::from_str(command));
        assert(strings_view(args@) =~= seq!["/C"@, command@]);
    } else if platform.use_pty {
        program = String::from_str("script");
        let mut sp: Vec<char> = Vec::new();
        sp.push(' ');
        let inner = join_chars(&parts, &sp);
        let mut shell = chars_of("sleep 2147483647 | ");
        append_chars(&mut shell, &inner);
        args.push(String::from_str("-q"));
        args.push(String::from_str("/dev/null"));
        args.push(String::from_str("sh"));
        args.push(String::from_str("-c"));
        args.push(string_of(&shell));
        assert(sp@ =~= seq![' ']);
        assert(strings_view(args@) =~= seq![
            "-q"@,
            "/dev/null"@,
            "sh"@,
            "-c"@,
            "sleep 2147483647 | "@ + join(pv, seq![' ']),
        ]);
    } else if platform.has_stdbuf {
        program = String::from_str("stdbuf");
        args.push(String::from_str("-o0"));
        args.push(String::from_str("-e0"));
        let mut k: usize = 0;
        while k < parts.len()
            invariant
                k <= parts@.len(),
                pv == views(parts@),
                strings_view(args@) == seq!["-o0"@, "-e0"@] + pv.take(k as int),
            decreases parts.len() - k,
        {
            let ghost before = strings_view(args@);
            args.push(string_of(&parts[k]));
            assert(strings_view(args@) =~= before.push(pv[k as int]));
            assert(pv.take(k + 1) =~= pv.take(k as int).push(pv[k as int]));
            k += 1;
        }
        assert(pv.take(parts@.len() as int) =~= pv);
    } else {
        program = string_of(&parts[0]);
        let mut k: usize = 1;
        while k < parts.len()
            invariant
                1 <= k <= parts@.len(),
                pv == views(parts@),
                strings_view(args@) == pv.subrange(1, k as int),
            decreases parts.len() - k,
        {
            let ghost before = strings_view(args@);
            args.push(string_of(&parts[k]));
            assert(strings_view(args@) =~= before.push(pv[k as int]));
            assert(pv.subrange(1, k + 1) =~= pv.subrange(1, k as int).push(pv[k as int]));
            k += 1;
        }
    }
    Ok(Invocation { program, args })
}

/// The `PATH` a dev server runs with: the Node.js bin directory of the
/// active version, then the extra tool directories that exist, then the
/// inherited `PATH`, separated by `sep`.
pub open spec fn server_path_spec(
    node_bin: Seq<char>,
    extras: Seq<Seq<char>>,
    inherited: Seq<char>,
    sep: Seq<char>,
) -> Seq<char> {
    if extras.len() == 0 {
        node_bin + sep + inherited
    } else {
        node_bin + sep + join(extras, sep) + sep + inherited
    }
}

/// The `PATH` a dev server runs with.
pub fn server_path(node_bin: &str, extras: &Vec<String>, inherited: &str, sep: &str) -> (p: String)
    ensures
        p@ == server_path_spec(node_bin@, strings_view(extras@), inherited@, sep@),
{
    let sepv = chars_of(sep);
    let mut ev: Vec<Vec<char>> = Vec::new();
    let mut k: usize = 0;
    while k < extras.len()
        invariant
            k <= extras@.len(),
            views(ev@) == strings_view(extras@).take(k as int),
        decreases extras.len() - k,
    {
        let ghost before = views(ev@);
        ev.push(chars_of(extras[k].as_str()));
        assert(views(ev@) =~= before.push(extras@[k as int]@));
        assert(strings_view(extras@).take(k + 1) =~= strings_view(extras@).take(k as int).push(
            extras@[k as int]@,
        ));
        k += 1;
    }
    assert(strings_view(extras@).take(extras@.len() as int) =~= strings_view(extras@));
    let mut v = chars_of(node_bin);
    append_chars(&mut v, &sepv);
    if extras.len() > 0 {
        let joined = join_chars(&ev, &sepv);
        append_chars(&mut v, &joined);
        append_chars(&mut v, &sepv);
    }
    append_chars(&mut v, &chars_of(inherited));
    string_of(&v)
}

/// A line of server output as it is buffered: without trailing white space,
/// and dropped when nothing is left.
pub open spec fn log_line_spec(raw: Seq<char>) -> Option<Seq<char>> {
    if trim_end(raw).len() == 0 {
        None
    } else {
        Some(trim_end(raw))
    }
}

/// The buffered form of one line read from a server's output.
pub fn log_line(raw: &str) -> (r: Option<String>)
    ensures
        match r {
            Some(l) => log_line_spec(raw@) == Some(l@),
            None => log_line_spec(raw@) is None,
        },
{
    let v = chars_of(raw);
    let t = trim_end_chars(&v);
    if t.len() == 0 {
        None
    } else {
        Some(string_of(&t))
    }
}

} // verus!
