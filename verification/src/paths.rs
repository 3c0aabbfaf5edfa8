//! Where the launcher keeps its files.

use vstd::prelude::*;

use crate::bytes;

verus! {

/// The path of `name` inside the directory `base`. A `name` that is a path from
/// the root stands for itself.
pub open spec fn path_in(base: Seq<u8>, name: Seq<u8>) -> Seq<u8> {
    if name.len() > 0 && name[0] == bytes::SLASH {
        name
    } else if base.len() == 0 || base.last() == bytes::SLASH {
        base + name
    } else {
        base.push(bytes::SLASH) + name
    }
}

/// The bytes of a file's name.
pub open spec fn file_name(name: Seq<char>) -> Seq<u8> {
    vstd::utf8::encode_utf8(name)
}

/// A path without slashes at its end, and without parts there that are a single
/// dot.
pub open spec fn trimmed(path: Seq<u8>) -> Seq<u8>
    decreases path.len(),
{
    if path.len() > 0 && path.last() == bytes::SLASH {
        trimmed(path.drop_last())
    } else if path.len() > 1 && path.last() == bytes::DOT && path[path.len() - 2] == bytes::SLASH {
        trimmed(path.drop_last())
    } else {
        path
    }
}

/// What stands behind the last slash.
pub open spec fn after_slash(path: Seq<u8>) -> Seq<u8>
    decreases path.len(),
{
    if path.len() == 0 || path.last() == bytes::SLASH {
        seq![]
    } else {
        after_slash(path.drop_last()).push(path.last())
    }
}

/// The name of the file or directory that a path leads to, where its last part
/// is a name: neither of one dot nor of two.
pub open spec fn last_name(path: Seq<u8>) -> Option<Seq<u8>> {
    let part = after_slash(trimmed(path));
    if part.len() == 0 || part == seq![bytes::DOT] || part == seq![bytes::DOT, bytes::DOT] {
        None
    } else {
        Some(part)
    }
}

/// The name of the file or directory that a path leads to.
pub fn name_of(path: &Vec<u8>) -> (name: Option<Vec<u8>>)
    ensures
        match name {
            Some(name) => last_name(path@) == Some(name@),
            None => last_name(path@) is None,
        },
{
    let mut end: usize = path.len();
    assert(path@.take(end as int) =~= path@);
    while end > 0 && (path[end - 1] == bytes::SLASH || (end > 1 && path[end - 1] == bytes::DOT
        && path[end - 2] == bytes::SLASH))
        invariant
            end <= path@.len(),
            trimmed(path@) == trimmed(path@.take(end as int)),
        decreases end,
    {
        assert(path@.take(end as int).drop_last() =~= path@.take(end - 1));
        end -= 1;
    }
    let ghost whole = path@.take(end as int);
    assert(trimmed(path@) == whole);
    let mut start: usize = end;
    assert(path@.subrange(end as int, end as int) =~= seq![]);
    assert(after_slash(whole) =~= after_slash(whole) + path@.subrange(end as int, end as int));
    while start > 0 && path[start - 1] != bytes::SLASH
        invariant
            start <= end <= path@.len(),
            after_slash(whole) == after_slash(path@.take(start as int)) + path@.subrange(
                start as int,
                end as int,
            ),
        decreases start,
    {
        assert(path@.take(start as int).drop_last() =~= path@.take(start - 1));
        assert(after_slash(path@.take(start as int)) + path@.subrange(start as int, end as int)
            =~= after_slash(path@.take(start - 1)) + path@.subrange(start - 1, end as int));
        start -= 1;
    }
    assert(after_slash(whole) =~= path@.subrange(start as int, end as int));
    let mut name: Vec<u8> = Vec::new();
    let mut i: usize = start;
    while i < end
        invariant
            start <= i <= end <= path@.len(),
            name@ =~= path@.subrange(start as int, i as int),
        decreases end - i,
    {
        name.push(path[i]);
        i += 1;
    }
    if name.len() == 0 || (name.len() == 1 && name[0] == bytes::DOT) || (name.len() == 2 && name[0]
        == bytes::DOT && name[1] == bytes::DOT) {
        assert(name@.len() == 1 ==> name@ =~= seq![bytes::DOT]);
        assert(name@.len() == 2 ==> name@ =~= seq![bytes::DOT, bytes::DOT]);
        None
    } else {
        Some(name)
    }
}

/// The path of `name` inside the directory `base`.
pub fn join(base: &Vec<u8>, name: &str) -> (path: Vec<u8>)
    ensures
        path@ == path_in(base@, file_name(name@)),
        path@ == path_in(base@, vstd::utf8::encode_utf8(name@)),
{
    let tail = name.as_bytes_vec();
    if tail.len() > 0 && tail[0] == bytes::SLASH {
        return tail;
    }
    let mut path = bytes::copy_bytes(base);
    if base.len() > 0 && base[base.len() - 1] != bytes::SLASH {
        path.push(bytes::SLASH);
    }
    bytes::append_bytes(&mut path, &tail);
    path
}

/// The paths of the launcher's own files.
pub struct LauncherPaths {
    /// The launcher's directory.
    pub dir: Vec<u8>,
    /// The socket on which the running launcher listens.
    pub socket: Vec<u8>,
    /// The file that the running launcher holds locked.
    pub lockfile: Vec<u8>,
    /// The log of this run.
    pub log: Vec<u8>,
    /// The log of the run before.
    pub old_log: Vec<u8>,
}

impl LauncherPaths {
    /// The paths below the directory for programs' data.
    pub open spec fn lie_in(self, data_dir: Seq<u8>) -> bool {
        &&& self.dir@ == path_in(data_dir, file_name("PandoraLauncher"@))
        &&& self.socket@ == path_in(self.dir@, file_name("launcher.sock"@))
        &&& self.lockfile@ == path_in(self.dir@, file_name("launcher.lock"@))
        &&& self.log@ == path_in(self.dir@, file_name("launcher.log"@))
        &&& self.old_log@ == path_in(self.dir@, file_name("launcher.log.old"@))
    }

    /// The launcher's files, below the directory for programs' data.
    pub fn new(data_dir: &Vec<u8>) -> (paths: LauncherPaths)
        ensures
            paths.lie_in(data_dir@),
    {
        let dir = join(data_dir, "PandoraLauncher");
        let socket = join(&dir, "launcher.sock");
        let lockfile = join(&dir, "launcher.lock");
        let log = join(&dir, "launcher.log");
        let old_log = join(&dir, "launcher.log.old");
        LauncherPaths { dir, socket, lockfile, log, old_log }
    }

    /// The file to rename before logging starts, and its new name: the log of
    /// the run before, where there is one.
    pub fn log_rotation(&self, log_exists: bool) -> (rename: Option<(Vec<u8>, Vec<u8>)>)
        ensures
            rename is Some <==> log_exists,
            rename matches Some(names) ==> names.0@ == self.log@ && names.1@ == self.old_log@,
    {
        if log_exists {
            Some((bytes::copy_bytes(&self.log), bytes::copy_bytes(&self.old_log)))
        } else {
            None
        }
    }
}

/// A plain name: of ASCII characters, not empty, and not from the root.
pub open spec fn is_plain_name(name: Seq<char>) -> bool {
    &&& vstd::utf8::is_ascii_chars(name)
    &&& name.len() > 0
    &&& name[0] != '/'
}

/// The bytes of a plain name do not begin with a slash.
proof fn lemma_plain_name(name: Seq<char>)
    requires
        is_plain_name(name),
    ensures
        file_name(name).len() == name.len(),
        file_name(name)[0] != bytes::SLASH,
{
    vstd::utf8::is_ascii_chars_encode_utf8(name);
    let first = name[0];
    assert(first as u8 == file_name(name)[0]);
}

/// Different plain names in one directory are different paths below it.
pub proof fn law_names_give_different_paths(base: Seq<u8>, a: Seq<char>, b: Seq<char>)
    requires
        is_plain_name(a),
        is_plain_name(b),
        a != b,
    ensures
        base.is_prefix_of(path_in(base, file_name(a))),
        path_in(base, file_name(a)) != path_in(base, file_name(b)),
{
    lemma_plain_name(a);
    lemma_plain_name(b);
    let x = file_name(a);
    let y = file_name(b);
    let start = if base.len() == 0 || base.last() == bytes::SLASH {
        base
    } else {
        base.push(bytes::SLASH)
    };
    assert(path_in(base, x) == start + x);
    assert(path_in(base, y) == start + y);
    assert(base =~= path_in(base, x).subrange(0, base.len() as int));
    if start + x == start + y {
        assert(x =~= (start + x).skip(start.len() as int));
        assert(y =~= (start + y).skip(start.len() as int));
        vstd::utf8::encode_utf8_decode_utf8(a);
        vstd::utf8::encode_utf8_decode_utf8(b);
    }
}

/// The launcher's files are four different files, all in its directory.
pub proof fn law_files_differ(paths: LauncherPaths, data_dir: Seq<u8>)
    requires
        paths.lie_in(data_dir),
    ensures
        paths.dir@.is_prefix_of(paths.socket@),
        paths.dir@.is_prefix_of(paths.lockfile@),
        paths.dir@.is_prefix_of(paths.log@),
        paths.dir@.is_prefix_of(paths.old_log@),
        paths.socket@ != paths.lockfile@,
        paths.socket@ != paths.log@,
        paths.socket@ != paths.old_log@,
        paths.lockfile@ != paths.log@,
        paths.lockfile@ != paths.old_log@,
        paths.log@ != paths.old_log@,
{
    let socket = "launcher.sock"@;
    let lockfile = "launcher.lock"@;
    let log = "launcher.log"@;
    let old_log = "launcher.log.old"@;
    reveal_strlit("launcher.sock");
    reveal_strlit("launcher.lock");
    reveal_strlit("launcher.log");
    reveal_strlit("launcher.log.old");
    assert(socket[9] == 's');
    assert(lockfile[11] == 'c');
    assert(log.len() == 12 && old_log.len() == 16);
    assert(socket.len() == 13 && lockfile.len() == 13);
    assert(lockfile[9] == 'l');
    law_names_give_different_paths(paths.dir@, socket, lockfile);
    law_names_give_different_paths(paths.dir@, socket, log);
    law_names_give_different_paths(paths.dir@, socket, old_log);
    law_names_give_different_paths(paths.dir@, lockfile, log);
    law_names_give_different_paths(paths.dir@, lockfile, old_log);
    law_names_give_different_paths(paths.dir@, log, old_log);
    law_names_give_different_paths(paths.dir@, old_log, log);
}

/// A name that follows a slash at the end of a path is the path's last name.
pub proof fn law_name_behind_the_last_slash(dir: Seq<u8>, name: Seq<u8>)
    requires
        forall|i: int| 0 <= i < name.len() ==> #[trigger] name[i] != 0x2f,
        name.len() > 0,
        name != seq![0x2eu8],
        name != seq![0x2eu8, 0x2e],
    ensures
        last_name(dir + seq![0x2fu8] + name) == Some(name),
        last_name(name) == Some(name),
{
    let path = dir + seq![0x2fu8] + name;
    let start = dir + seq![0x2fu8];
    let n = path.len() as int;
    assert(path.last() == name.last());
    assert(name[name.len() - 1] != 0x2f);
    if name.len() == 1 {
        assert(name =~= seq![name[0]]);
        assert(name[0] != 0x2e);
    } else {
        assert(path[n - 2] == name[name.len() - 2]);
    }
    assert(trimmed(path) == path);
    assert(trimmed(name) == name);
    lemma_after_slash(start, name);
    assert(after_slash(start) =~= seq![]);
    assert(after_slash(path) =~= name);
    lemma_after_slash(seq![], name);
    assert(seq![] + name =~= name);
    assert(after_slash(Seq::<u8>::empty()) =~= seq![]);
    assert(after_slash(name) =~= name);
}

/// What holds no slash is added to what stands behind the last one.
proof fn lemma_after_slash(start: Seq<u8>, end: Seq<u8>)
    requires
        forall|i: int| 0 <= i < end.len() ==> #[trigger] end[i] != 0x2f,
    ensures
        after_slash(start + end) == after_slash(start) + end,
    decreases end.len(),
{
    if end.len() == 0 {
        assert(start + end =~= start);
        assert(after_slash(start) + end =~= after_slash(start));
    } else {
        let fewer = end.drop_last();
        lemma_after_slash(start, fewer);
        assert((start + end).drop_last() =~= start + fewer);
        assert(end[end.len() - 1] != 0x2f);
        assert(after_slash(start) + end =~= (after_slash(start) + fewer).push(end.last()));
    }
}

/// Slashes at the end of a path and parts there that are a single dot do not
/// count, and a path whose last part is two dots has no last name.
pub proof fn law_the_end_of_a_path(path: Seq<u8>)
    ensures
        last_name(path.push(0x2f)) == last_name(path),
        last_name(path.push(0x2f).push(0x2e)) == last_name(path),
        last_name(path.push(0x2f).push(0x2e).push(0x2e)) is None,
        last_name(seq![]) is None,
        last_name(seq![0x2eu8]) is None,
        last_name(seq![0x2eu8, 0x2e]) is None,
{
    assert(path.push(0x2f).drop_last() =~= path);
    let dotted = path.push(0x2f).push(0x2e);
    assert(dotted.drop_last() =~= path.push(0x2f));
    assert(dotted[dotted.len() - 2] == 0x2f);
    let twice = dotted.push(0x2e);
    assert(twice[twice.len() - 2] == 0x2e);
    assert(trimmed(twice) == twice);
    let dots = seq![0x2eu8, 0x2e];
    assert(twice =~= path.push(0x2f) + dots);
    lemma_after_slash(path.push(0x2f), dots);
    assert(after_slash(path.push(0x2f)) =~= seq![]);
    assert(after_slash(twice) =~= dots);
    assert(after_slash(Seq::<u8>::empty()) =~= seq![]);
    let dot = seq![0x2eu8];
    lemma_after_slash(seq![], dot);
    assert(seq![] + dot =~= dot);
    assert(after_slash(dot) =~= dot);
    lemma_after_slash(seq![], dots);
    assert(seq![] + dots =~= dots);
    assert(after_slash(dots) =~= dots);
}

/// A name is put behind a directory with one slash between them. The slash is
/// the directory's own where it ends with one, and there is none where the
/// directory is empty. A name that begins with a slash stands for itself.
pub proof fn law_a_name_in_a_directory(base: Seq<u8>, name: Seq<u8>)
    ensures
        name.len() > 0 && name[0] == 0x2f ==> path_in(base, name) == name,
        !(name.len() > 0 && name[0] == 0x2f) ==> {
            let path = path_in(base, name);
            let start = path.len() - name.len();
            &&& path.skip(start) == name
            &&& base.is_prefix_of(path)
            &&& start == base.len() || (start == base.len() + 1 && path[base.len() as int] == 0x2f)
            &&& start == base.len() <==> base.len() == 0 || base[base.len() - 1] == 0x2f
        },
{
    if !(name.len() > 0 && name[0] == 0x2f) {
        let path = path_in(base, name);
        assert(path.skip(path.len() - name.len()) =~= name);
        assert(base =~= path.subrange(0, base.len() as int));
    }
}

/// Where the launcher's files lie: in a directory of its own below the one for
/// programs' data, with one slash between each two parts. The slash before the
/// first part is the one that ends the data directory, where one does, and none
/// is needed where that directory is empty.
pub proof fn law_where_the_files_lie(paths: LauncherPaths, data_dir: Seq<u8>)
    requires
        paths.lie_in(data_dir),
    ensures
        paths.dir@ == data_dir + (if data_dir.len() == 0 || data_dir[data_dir.len() - 1] == 0x2f {
            Seq::<u8>::empty()
        } else {
            seq![0x2fu8]
        }) + vstd::utf8::encode_utf8("PandoraLauncher"@),
        paths.socket@ == paths.dir@ + seq![0x2fu8] + vstd::utf8::encode_utf8("launcher.sock"@),
        paths.lockfile@ == paths.dir@ + seq![0x2fu8] + vstd::utf8::encode_utf8("launcher.lock"@),
        paths.log@ == paths.dir@ + seq![0x2fu8] + vstd::utf8::encode_utf8("launcher.log"@),
        paths.old_log@ == paths.dir@ + seq![0x2fu8] + vstd::utf8::encode_utf8("launcher.log.old"@),
{
    reveal_strlit("PandoraLauncher");
    reveal_strlit("launcher.sock");
    reveal_strlit("launcher.lock");
    reveal_strlit("launcher.log");
    reveal_strlit("launcher.log.old");
    let dir = "PandoraLauncher"@;
    lemma_plain_name(dir);
    lemma_plain_name("launcher.sock"@);
    lemma_plain_name("launcher.lock"@);
    lemma_plain_name("launcher.log"@);
    lemma_plain_name("launcher.log.old"@);
    vstd::utf8::is_ascii_chars_encode_utf8(dir);
    assert(paths.dir@ =~= data_dir + (if data_dir.len() == 0 || data_dir[data_dir.len() - 1]
        == 0x2f {
        Seq::<u8>::empty()
    } else {
        seq![0x2fu8]
    }) + vstd::utf8::encode_utf8(dir));
    assert(dir[14] == 'r');
    assert(dir[14] as u8 == vstd::utf8::encode_utf8(dir)[14]);
    assert(paths.dir@.last() == vstd::utf8::encode_utf8(dir)[14]);
    assert(paths.dir@.last() != 0x2f);
    assert(paths.socket@ =~= paths.dir@ + seq![0x2fu8] + file_name("launcher.sock"@));
    assert(paths.lockfile@ =~= paths.dir@ + seq![0x2fu8] + file_name("launcher.lock"@));
    assert(paths.log@ =~= paths.dir@ + seq![0x2fu8] + file_name("launcher.log"@));
    assert(paths.old_log@ =~= paths.dir@ + seq![0x2fu8] + file_name("launcher.log.old"@));
}

} // verus!
