//! Unix paths, as byte strings.

use vstd::prelude::*;
use vstd::utf8::*;

use crate::text::{copy_bytes, string_from_utf8_lossy, utf8_bytes};

verus! {

/// A path of a Unix system, such as the host and the guests are.
#[derive(Debug)]
pub struct UnixPath {
    pub bytes: Vec<u8>,
}

impl View for UnixPath {
    type V = Seq<u8>;

    open spec fn view(&self) -> Seq<u8> {
        self.bytes@
    }
}

/// The separator of path components.
pub const SEPARATOR: u8 = 0x2f;

/// The byte of a component that stands for the directory it is in.
pub const DOT: u8 = 0x2e;

/// `path`, taken from `base` unless it is absolute.
pub open spec fn joined(base: Seq<u8>, path: Seq<u8>) -> Seq<u8> {
    if path.len() > 0 && path[0] == SEPARATOR {
        path
    } else if base.len() == 0 || base.last() == SEPARATOR {
        base + path
    } else {
        base.push(SEPARATOR) + path
    }
}

/// Where the last component of `path` starts: behind the last separator.
pub open spec fn component_start(path: Seq<u8>) -> int
    decreases path.len(),
{
    if path.len() == 0 || path.last() == SEPARATOR {
        path.len() as int
    } else {
        component_start(path.drop_last())
    }
}

/// The last component of `path`; separators at the end and components `.` do not count, and `..`
/// is no name.
pub open spec fn last_name(path: Seq<u8>) -> Option<Seq<u8>>
    decreases path.len(),
{
    if path.len() == 0 {
        None
    } else if path.last() == SEPARATOR {
        last_name(path.drop_last())
    } else {
        proof {
            lemma_component_start(path);
        }
        let start = component_start(path);
        let name = path.skip(start);
        if name == seq![DOT] {
            last_name(path.take(start))
        } else if name == seq![DOT, DOT] {
            None
        } else {
            Some(name)
        }
    }
}

pub proof fn lemma_component_start(path: Seq<u8>)
    ensures
        0 <= component_start(path) <= path.len(),
        component_start(path) == path.len() <==> path.len() == 0 || path.last() == SEPARATOR,
        component_start(path) > 0 ==> path[component_start(path) - 1] == SEPARATOR,
        forall|i: int|
            component_start(path) <= i < path.len() ==> #[trigger] path[i] != SEPARATOR,
    decreases path.len(),
{
    if path.len() > 0 && path.last() != SEPARATOR {
        lemma_component_start(path.drop_last());
        assert forall|i: int| component_start(path) <= i < path.len() implies #[trigger] path[i]
            != SEPARATOR by {
            if i < path.len() - 1 {
                assert(path.drop_last()[i] == path[i]);
            }
        }
    }
}

/// Whether `path` starts with a component `.`.
pub open spec fn starts_here(path: Seq<u8>) -> bool {
    path.len() > 0 && path[0] == DOT && (path.len() == 1 || path[1] == SEPARATOR)
}

/// Where the components of `path` start that can be taken off: behind the root, or behind a leading
/// `.`, which counts only there.
pub open spec fn body_start(path: Seq<u8>) -> int {
    if path.len() > 0 && path[0] == SEPARATOR || starts_here(path) {
        1
    } else {
        0
    }
}

/// Where the last component of `path` starts, where its body starts at `start`.
pub open spec fn part_start(path: Seq<u8>, start: int) -> int {
    if component_start(path) > start {
        component_start(path)
    } else {
        start
    }
}

/// `path` without its last component and the separator before it.
pub open spec fn without_part(path: Seq<u8>, start: int) -> Seq<u8> {
    path.take(
        if component_start(path) > start {
            component_start(path) - 1
        } else {
            start
        },
    )
}

/// `path` without the empty components and the components `.` at its end.
pub open spec fn tidied(path: Seq<u8>, start: int) -> Seq<u8>
    decreases path.len(),
{
    if path.len() <= start || start < 0 {
        path
    } else {
        let part = path.skip(part_start(path, start));
        if part.len() == 0 || part == seq![DOT] {
            proof {
                lemma_component_start(path);
            }
            tidied(without_part(path, start), start)
        } else {
            path
        }
    }
}

/// The directory that `path` is in: `path` without its last component. The root and the empty path
/// are in none.
pub open spec fn parent_of(path: Seq<u8>) -> Option<Seq<u8>> {
    let start = body_start(path);
    let tidy = tidied(path, start);
    if tidy.len() > start {
        Some(tidied(without_part(tidy, start), start))
    } else if starts_here(path) {
        Some(Seq::empty())
    } else {
        None
    }
}

impl Clone for UnixPath {
    fn clone(&self) -> (copy: Self)
        ensures
            copy@ == self@,
    {
        UnixPath { bytes: copy_bytes(&self.bytes) }
    }
}

/// The bytes of each of several paths.
pub open spec fn paths_view(paths: Seq<UnixPath>) -> Seq<Seq<u8>> {
    paths.map_values(|path: UnixPath| path@)
}

/// The bytes of a path, where there is one.
pub open spec fn path_view(path: Option<UnixPath>) -> Option<Seq<u8>> {
    match path {
        Some(p) => Some(p@),
        None => None,
    }
}

/// A copy of several paths.
pub fn copy_paths(paths: &Vec<UnixPath>) -> (copy: Vec<UnixPath>)
    ensures
        paths_view(copy@) == paths_view(paths@),
{
    let mut copy: Vec<UnixPath> = Vec::new();
    for i in 0..paths.len()
        invariant
            paths_view(copy@) == paths_view(paths@).take(i as int),
    {
        let ghost before = copy@;
        copy.push(paths[i].clone());
        assert(paths_view(copy@) =~= paths_view(before).push(paths@[i as int]@));
        assert(paths_view(copy@) =~= paths_view(paths@).take(i + 1));
    }
    assert(paths_view(paths@).take(paths@.len() as int) =~= paths_view(paths@));
    copy
}

impl UnixPath {
    /// The path that `text` writes.
    pub fn new(text: &str) -> (path: UnixPath)
        ensures
            path@ == encode_utf8(text@),
    {
        UnixPath { bytes: utf8_bytes(text) }
    }

    /// The path that `text` writes, taken from this one.
    pub fn join(&self, text: &str) -> (path: UnixPath)
        ensures
            path@ == joined(self@, encode_utf8(text@)),
    {
        self.join_path(&UnixPath::new(text))
    }

    /// `path`, taken from this one.
    pub fn join_path(&self, path: &UnixPath) -> (whole: UnixPath)
        ensures
            whole@ == joined(self@, path@),
    {
        if path.bytes.len() > 0 && path.bytes[0] == SEPARATOR {
            return path.clone();
        }
        let mut bytes = copy_bytes(&self.bytes);
        if bytes.len() > 0 && bytes[bytes.len() - 1] != SEPARATOR {
            bytes.push(SEPARATOR);
        }
        let mut rest = copy_bytes(&path.bytes);
        bytes.append(&mut rest);
        UnixPath { bytes }
    }

    /// The last component of the path.
    pub fn file_name(&self) -> (name: Option<Vec<u8>>)
        ensures
            match name {
                Some(n) => last_name(self@) == Some(n@),
                None => last_name(self@) is None,
            },
    {
        let mut end: usize = self.bytes.len();
        assert(self@.take(end as int) =~= self@);
        while end > 0
            invariant
                end <= self@.len(),
                last_name(self@) == last_name(self@.take(end as int)),
            decreases end,
        {
            let ghost head = self@.take(end as int);
            if self.bytes[end - 1] == SEPARATOR {
                assert(head.drop_last() =~= self@.take(end - 1));
                end -= 1;
                continue;
            }
            let start: usize = self.last_part(end);
            proof {
                lemma_component_start(head);
            }
            let mut name: Vec<u8> = Vec::new();
            let mut i: usize = start;
            while i < end
                invariant
                    start <= i <= end <= self@.len(),
                    name@ == self@.subrange(start as int, i as int),
                decreases end - i,
            {
                name.push(self.bytes[i]);
                assert(name@ =~= self@.subrange(start as int, i + 1));
                i += 1;
            }
            assert(head.skip(start as int) =~= name@);
            if name.len() == 1 && name[0] == DOT {
                assert(name@ =~= seq![DOT]);
                assert(head.take(start as int) =~= self@.take(start as int));
                end = start;
                continue;
            }
            assert(name@ != seq![DOT]) by {
                if name@ == seq![DOT] {
                    assert(name@[0] == DOT);
                }
            }
            if name.len() == 2 && name[0] == DOT && name[1] == DOT {
                assert(name@ =~= seq![DOT, DOT]);
                return None;
            }
            assert(name@ != seq![DOT, DOT]) by {
                if name@ == seq![DOT, DOT] {
                    assert(name@[0] == DOT && name@[1] == DOT);
                }
            }
            return Some(name);
        }
        None
    }

    /// Where the last component of the first `end` bytes starts.
    fn last_part(&self, end: usize) -> (start: usize)
        requires
            end <= self@.len(),
        ensures
            start == component_start(self@.take(end as int)),
            start <= end,
    {
        let ghost head = self@.take(end as int);
        let mut start: usize = end;
        assert(head.take(start as int) =~= head);
        while start > 0 && self.bytes[start - 1] != SEPARATOR
            invariant
                start <= end <= self@.len(),
                head == self@.take(end as int),
                component_start(head) == component_start(head.take(start as int)),
            decreases start,
        {
            assert(head.take(start as int).drop_last() =~= head.take(start - 1));
            start -= 1;
        }
        proof {
            lemma_component_start(head.take(start as int));
        }
        start
    }

    /// How many bytes are left of the first `end` without the components at their end that do not
    /// count.
    fn tidy(&self, end: usize, start: usize) -> (tidy: usize)
        requires
            end <= self@.len(),
        ensures
            tidy <= end,
            self@.take(tidy as int) == tidied(self@.take(end as int), start as int),
    {
        let mut left: usize = end;
        while left > start
            invariant
                left <= end <= self@.len(),
                tidied(self@.take(left as int), start as int) == tidied(
                    self@.take(end as int),
                    start as int,
                ),
            decreases left,
        {
            let ghost head = self@.take(left as int);
            let at: usize = self.last_part(left);
            proof {
                lemma_component_start(head);
            }
            let from: usize = if at > start {
                at
            } else {
                start
            };
            let ghost part = head.skip(from as int);
            assert(part.len() == left - from);
            let dot = left - from == 1 && self.bytes[from] == DOT;
            assert(dot <==> part == seq![DOT]) by {
                if dot {
                    assert(part =~= seq![DOT]);
                } else if part == seq![DOT] {
                    assert(part[0] == DOT);
                }
            }
            if left == from || dot {
                let cut: usize = if at > start {
                    at - 1
                } else {
                    start
                };
                assert(without_part(head, start as int) =~= self@.take(cut as int));
                left = cut;
            } else {
                return left;
            }
        }
        left
    }

    /// The directory that the path is in.
    pub fn parent(&self) -> (dir: Option<UnixPath>)
        ensures
            match dir {
                Some(d) => parent_of(self@) == Some(d@),
                None => parent_of(self@) is None,
            },
    {
        let len: usize = self.bytes.len();
        let here = len > 0 && self.bytes[0] == DOT && (len == 1 || self.bytes[1] == SEPARATOR);
        let start: usize = if len > 0 && self.bytes[0] == SEPARATOR || here {
            1
        } else {
            0
        };
        assert(self@.take(len as int) =~= self@);
        let end: usize = self.tidy(len, start);
        let ghost tidy = self@.take(end as int);
        if end > start {
            let at: usize = self.last_part(end);
            let cut: usize = if at > start {
                at - 1
            } else {
                start
            };
            assert(without_part(tidy, start as int) =~= self@.take(cut as int));
            let left: usize = self.tidy(cut, start);
            let mut bytes: Vec<u8> = Vec::new();
            for i in 0..left
                invariant
                    left <= self@.len(),
                    bytes@ == self@.take(i as int),
            {
                bytes.push(self.bytes[i]);
                assert(bytes@ =~= self@.take(i + 1));
            }
            Some(UnixPath { bytes })
        } else if here {
            let dir = UnixPath { bytes: Vec::new() };
            assert(dir@ =~= Seq::<u8>::empty());
            Some(dir)
        } else {
            None
        }
    }

    /// The path as it is shown.
    pub fn display(&self) -> (text: String)
        ensures
            text@ == crate::text::utf8_lossy(self@),
            valid_utf8(self@) ==> text@ == decode_utf8(self@),
    {
        string_from_utf8_lossy(self.bytes.as_slice())
    }
}

/// An absolute path stands wherever it is taken from.
pub proof fn lemma_join_absolute(base: Seq<u8>, path: Seq<u8>)
    requires
        path.len() > 0,
        path[0] == SEPARATOR,
    ensures
        joined(base, path) == path,
{
}

/// A name joined to a directory is the name of the whole path.
pub proof fn lemma_join_names(base: Seq<u8>, name: Seq<u8>)
    requires
        name.len() > 0,
        !name.contains(SEPARATOR),
        name != seq![DOT],
        name != seq![DOT, DOT],
    ensures
        last_name(joined(base, name)) == Some(name),
{
    assert(name.contains(name[0]) && name.contains(name.last()));
    let whole = joined(base, name);
    let at = whole.len() - name.len();
    lemma_component_start(whole);
    assert(whole.skip(at) =~= name);
    let start = component_start(whole);
    assert(start == at) by {
        if start > at {
            assert(whole[start - 1] == name[start - 1 - at]);
            assert(name.contains(name[start - 1 - at]));
        } else if start < at {
            assert(whole[at - 1] == SEPARATOR);
        }
    }
}

/// A name joined to a directory is in that directory, where the directory is written without
/// components at its end that do not count.
pub proof fn lemma_parent_of_joined(dir: Seq<u8>, name: Seq<u8>)
    requires
        tidied(dir, body_start(dir)) == dir,
        name.len() > 0,
        !name.contains(SEPARATOR),
        name != seq![DOT],
    ensures
        parent_of(joined(dir, name)) == Some(dir),
{
    assert(name.contains(name[0]) && name.contains(name.last()));
    let whole = joined(dir, name);
    let at = whole.len() - name.len();
    let start = body_start(whole);
    lemma_component_start(whole);
    assert(whole.skip(at) =~= name);
    assert(component_start(whole) == at) by {
        if component_start(whole) > at {
            let i = component_start(whole) - 1;
            assert(whole[i] == name[i - at]);
            assert(name.contains(name[i - at]));
        } else if component_start(whole) < at {
            assert(whole[at - 1] == SEPARATOR);
        }
    }
    if dir.len() == 0 {
        assert(whole =~= name);
        assert(!starts_here(name)) by {
            if starts_here(name) {
                if name.len() == 1 {
                    assert(name =~= seq![DOT]);
                } else {
                    assert(name.contains(name[1]));
                }
            }
        }
        assert(without_part(whole, start) =~= dir);
    } else if dir.last() == SEPARATOR {
        lemma_component_start(dir);
        assert(dir.len() == 1) by {
            if dir.len() > 1 {
                assert(dir.skip(part_start(dir, body_start(dir))).len() == 0);
                lemma_tidied_shorter(without_part(dir, body_start(dir)), body_start(dir));
            }
        }
        assert(without_part(whole, start) =~= dir);
    } else {
        assert(without_part(whole, start) =~= dir);
        assert(whole[0] == dir[0]);
        if dir.len() > 1 {
            assert(whole[1] == dir[1]);
        } else {
            assert(whole[1] == SEPARATOR);
        }
    }
}

proof fn lemma_tidied_shorter(path: Seq<u8>, start: int)
    ensures
        tidied(path, start).len() <= path.len(),
    decreases path.len(),
{
    if path.len() > start && start >= 0 {
        lemma_component_start(path);
        let part = path.skip(part_start(path, start));
        if part.len() == 0 || part == seq![DOT] {
            lemma_tidied_shorter(without_part(path, start), start);
        }
    }
}

/// A relative path is taken from a directory: it stands behind it, with one separator between them
/// where the directory does not end with one; from the empty path it is itself.
pub proof fn lemma_join_relative(base: Seq<u8>, path: Seq<u8>)
    requires
        path.len() == 0 || path[0] != 0x2f,
    ensures
        base.len() == 0 ==> joined(base, path) == path,
        base.len() > 0 && base.last() == 0x2f ==> joined(base, path) == base + path,
        base.len() > 0 && base.last() != 0x2f ==> joined(base, path) == base + seq![0x2fu8] + path,
{
    assert(base.len() == 0 ==> base + path =~= path);
    assert(base.push(SEPARATOR) + path =~= base + seq![0x2fu8] + path);
}

/// Taken from one directory after another, a path is the same in whichever order it is put together.
pub proof fn lemma_join_in_turn(one: Seq<u8>, other: Seq<u8>, path: Seq<u8>)
    ensures
        joined(joined(one, other), path) == joined(one, joined(other, path)),
{
    if path.len() == 0 || path[0] != SEPARATOR {
        lemma_join_relative(other, path);
        let inner = joined(other, path);
        if other.len() > 0 {
            assert(inner[0] == other[0]);
            if other[0] != SEPARATOR {
                lemma_join_relative(one, other);
                let outer = joined(one, other);
                assert(outer.last() == other.last());
                assert(joined(outer, path) =~= joined(one, inner));
            }
        } else {
            lemma_join_relative(one, other);
            assert(inner =~= path);
            assert(joined(joined(one, other), path) =~= joined(one, inner));
        }
    }
}

/// A component that is a name and stands last starts behind what stands before it.
proof fn lemma_name_starts(base: Seq<u8>, name: Seq<u8>)
    requires
        name.len() > 0,
        !name.contains(SEPARATOR),
    ensures
        component_start(joined(base, name)) == joined(base, name).len() - name.len(),
        joined(base, name).skip(joined(base, name).len() - name.len()) == name,
        joined(base, name).last() == name.last(),
        name.last() != SEPARATOR && name[0] != SEPARATOR,
{
    assert(name.contains(name[0]) && name.contains(name.last()));
    let whole = joined(base, name);
    let at = whole.len() - name.len();
    lemma_component_start(whole);
    assert(whole.skip(at) =~= name);
    let start = component_start(whole);
    if start > at {
        assert(whole[start - 1] == name[start - 1 - at]);
        assert(name.contains(name[start - 1 - at]));
    } else if start < at {
        assert(whole[at - 1] == SEPARATOR);
    }
}

/// A path that ends with two names, one in the other, is in the first.
pub proof fn lemma_parent_of_names(base: Seq<u8>, dir: Seq<u8>, name: Seq<u8>)
    requires
        dir.len() > 0,
        !dir.contains(0x2f),
        dir != seq![0x2eu8],
        name.len() > 0,
        !name.contains(0x2f),
        name != seq![0x2eu8],
    ensures
        parent_of(joined(joined(base, dir), name)) == Some(joined(base, dir)),
        parent_of(name) == Some(Seq::<u8>::empty()),
        parent_of(seq![0x2fu8] + name) == Some(seq![0x2fu8]),
{
    let whole = joined(base, dir);
    lemma_name_starts(base, dir);
    let start = body_start(whole);
    if base.len() == 0 {
        assert(whole =~= dir);
        if starts_here(dir) {
            if dir.len() == 1 {
                assert(dir =~= seq![DOT]);
            } else {
                assert(dir.contains(dir[1]));
            }
        }
    }
    assert(part_start(whole, start) == whole.len() - dir.len());
    lemma_parent_of_joined(whole, name);
    let none = Seq::<u8>::empty();
    let root = seq![0x2fu8];
    assert(joined(none, name) =~= name);
    lemma_parent_of_joined(none, name);
    assert(joined(root, name) =~= root + name);
    assert(tidied(root, body_start(root)) =~= root);
    lemma_parent_of_joined(root, name);
}

/// Separators and components `.` at the end of a path do not count: neither for the directory that
/// it is in, nor for its name. The empty path and the root are in no directory, and neither they
/// nor what ends with `..` have a name.
pub proof fn lemma_end_does_not_count(path: Seq<u8>)
    ensures
        path.len() > 0 ==> parent_of(path + seq![0x2fu8]) == parent_of(path),
        path.len() > 0 ==> parent_of(path + seq![0x2fu8, 0x2eu8]) == parent_of(path),
        last_name(path + seq![0x2fu8]) == last_name(path),
        last_name(path + seq![0x2fu8, 0x2eu8]) == last_name(path),
        last_name(joined(path, seq![0x2eu8, 0x2eu8])) is None,
        parent_of(Seq::<u8>::empty()) is None,
        parent_of(seq![0x2fu8]) is None,
        last_name(Seq::<u8>::empty()) is None,
{
    let slash = path + seq![0x2fu8];
    let dotted = path + seq![0x2fu8, 0x2eu8];
    let start = body_start(path);
    lemma_component_start(slash);
    lemma_component_start(dotted);
    assert(slash.drop_last() =~= path);
    assert(dotted.drop_last() =~= slash);
    assert(slash.last() == SEPARATOR && dotted.last() == DOT);
    assert(component_start(dotted) == path.len() + 1);
    assert(dotted.skip(path.len() as int + 1) =~= seq![DOT]);
    assert(dotted.take(path.len() as int + 1) =~= slash);
    if path.len() > 0 {
        assert(slash[0] == path[0] && dotted[0] == path[0]);
        if path.len() > 1 {
            assert(slash[1] == path[1] && dotted[1] == path[1]);
        }
        assert(body_start(slash) == start && body_start(dotted) == start);
        assert(slash.skip(slash.len() as int).len() == 0);
        assert(without_part(slash, start) =~= path);
        assert(without_part(dotted, start) =~= path);
        assert(tidied(slash, start) == tidied(path, start));
        assert(tidied(dotted, start) == tidied(path, start));
    }
    let up = seq![0x2eu8, 0x2eu8];
    assert(!up.contains(SEPARATOR));
    assert(up.len() != seq![DOT].len());
    lemma_name_starts(path, up);
    let root = seq![0x2fu8];
    assert(tidied(root, 1) =~= root);
}

} // verus!
