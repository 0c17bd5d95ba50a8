//! Paths and archive names as byte strings.
//!
//! A path is the sequence of bytes the operating system uses for it. The
//! functions here are meant for paths in canonical form (absolute, without
//! `.` and `..` segments), which is what a driver hands over after it has
//! resolved a configured root, and for the names of directory entries,
//! which hold no separator.

use vstd::prelude::*;

verus! {

/// Which separator divides the segments of a path, and how a path without
/// a final segment is named inside an archive.
#[derive(Clone, Copy, Debug, PartialEq, Eq, Structural)]
pub enum PathStyle {
    /// `/` separates; the root is archived as `root`.
    Unix,
    /// `\` separates; a drive is archived as `drive X:`.
    Windows,
}

impl PathStyle {
    /// The separator byte of this style.
    pub open spec fn sep(self) -> u8 {
        match self {
            PathStyle::Unix => 0x2f,
            PathStyle::Windows => 0x5c,
        }
    }

    /// The separator byte of this style.
    pub fn separator(self) -> (b: u8)
        ensures
            b == self.sep(),
    {
        match self {
            PathStyle::Unix => 0x2f,
            PathStyle::Windows => 0x5c,
        }
    }
}

/// `name` placed below `parent`: the two divided by exactly one separator,
/// or `name` alone below the empty path.
pub open spec fn joined(parent: Seq<u8>, name: Seq<u8>, sep: u8) -> Seq<u8> {
    if parent.len() == 0 {
        name
    } else if parent.last() == sep {
        parent + name
    } else {
        parent + seq![sep] + name
    }
}

/// The length of `path` once its trailing separators are removed.
pub open spec fn trimmed_len(path: Seq<u8>, sep: u8) -> int
    decreases path.len(),
{
    if path.len() > 0 && path.last() == sep {
        trimmed_len(path.drop_last(), sep)
    } else {
        path.len() as int
    }
}

/// Where the segment that ends at `end` begins: just behind the last
/// separator before `end`, or at 0.
pub open spec fn segment_start(path: Seq<u8>, end: int, sep: u8) -> int
    decreases end,
{
    if end <= 0 {
        0
    } else if path[end - 1] == sep {
        end
    } else {
        segment_start(path, end - 1, sep)
    }
}

/// Whether a drive letter stands at `i`: an upper-case letter followed by
/// a colon.
pub open spec fn drive_at(path: Seq<u8>, i: int) -> bool {
    0 <= i && i + 1 < path.len() && 0x41 <= path[i] <= 0x5a && path[i + 1] == 0x3a
}

/// Whether `segment` names no entry: the empty segment, `..`, and in the
/// Windows style a drive letter with its colon.
pub open spec fn unnamed(segment: Seq<u8>, style: PathStyle) -> bool {
    segment.len() == 0 || segment == seq![0x2eu8, 0x2eu8] || (style == PathStyle::Windows
        && segment.len() == 2 && drive_at(segment, 0))
}

/// The final segment of `path`, if it has one that names an entry: none
/// for the empty path, for a path made of separators, for `..`, and in
/// the Windows style for a drive.
pub open spec fn base_name_of(path: Seq<u8>, style: PathStyle) -> Option<Seq<u8>> {
    let end = trimmed_len(path, style.sep());
    let start = segment_start(path, end, style.sep());
    let segment = path.subrange(start, end);
    if unnamed(segment, style) {
        None
    } else {
        Some(segment)
    }
}

/// The index of the first drive letter from `from` on, or the length of
/// `path` if there is none.
pub open spec fn first_drive(path: Seq<u8>, from: int) -> int
    decreases path.len() - from,
{
    if from < 0 || from >= path.len() {
        path.len() as int
    } else if drive_at(path, from) {
        from
    } else {
        first_drive(path, from + 1)
    }
}

/// The bytes of `root`.
pub open spec fn root_word() -> Seq<u8> {
    seq![0x72u8, 0x6fu8, 0x6fu8, 0x74u8]
}

/// The bytes of `drive `, with its trailing space.
pub open spec fn drive_word() -> Seq<u8> {
    seq![0x64u8, 0x72u8, 0x69u8, 0x76u8, 0x65u8, 0x20u8]
}

/// The name given to a path that has no final segment.
pub open spec fn fallback_name(path: Seq<u8>, style: PathStyle) -> Seq<u8> {
    let i = first_drive(path, 0);
    if style == PathStyle::Windows && i < path.len() {
        drive_word() + seq![path[i], 0x3au8]
    } else {
        root_word()
    }
}

/// The name under which a root is archived: its final segment, or the
/// fallback name, placed below `name_start` where there is one.
pub open spec fn archive_name(path: Seq<u8>, name_start: Option<Seq<u8>>, style: PathStyle) -> Seq<
    u8,
> {
    let own = match base_name_of(path, style) {
        Some(segment) => segment,
        None => fallback_name(path, style),
    };
    match name_start {
        Some(prefix) => joined(prefix, own, style.sep()),
        None => own,
    }
}

/// The index of the last dot in `name[lo..hi]`, or `hi` when it holds none.
pub open spec fn last_dot(name: Seq<u8>, lo: int, hi: int) -> int
    decreases hi - lo,
{
    if hi <= lo {
        hi
    } else if name[hi - 1] == 0x2e {
        hi - 1
    } else {
        let below = last_dot(name, lo, hi - 1);
        if below == hi - 1 {
            hi
        } else {
            below
        }
    }
}

/// Where the extension of the final segment of `name` begins (at its last
/// dot, unless that dot opens the segment), or the length of `name` if the
/// segment has no extension.
pub open spec fn stem_end(name: Seq<u8>, sep: u8) -> int {
    let start = segment_start(name, name.len() as int, sep);
    last_dot(name, start + 1, name.len() as int)
}

/// The bytes of `.tar.xz`.
pub open spec fn member_suffix() -> Seq<u8> {
    seq![0x2eu8, 0x74u8, 0x61u8, 0x72u8, 0x2eu8, 0x78u8, 0x7au8]
}

/// The name of the compressed member that stands for the directory
/// archived as `name`: the extension of `name` replaced by `tar.xz`.
pub open spec fn member_name_of(name: Seq<u8>, sep: u8) -> Seq<u8> {
    name.subrange(0, stem_end(name, sep)) + member_suffix()
}

/// What an optional byte vector holds.
pub open spec fn optional_bytes(o: Option<Vec<u8>>) -> Option<Seq<u8>> {
    match o {
        Some(bytes) => Some(bytes@),
        None => None,
    }
}

/// The byte strings that a vector of byte vectors holds.
pub open spec fn byte_strings(v: Seq<Vec<u8>>) -> Seq<Seq<u8>> {
    Seq::new(v.len(), |i: int| v[i]@)
}

/// One child path or name for each of `names`, in order, below `parent`.
pub open spec fn joined_all(parent: Seq<u8>, names: Seq<Seq<u8>>, sep: u8) -> Seq<Seq<u8>> {
    Seq::new(names.len(), |i: int| joined(parent, names[i], sep))
}

/// A copy of `bytes`.
pub fn to_vec(bytes: &[u8]) -> (out: Vec<u8>)
    ensures
        out@ == bytes@,
{
    let mut out: Vec<u8> = Vec::new();
    let mut i: usize = 0;
    while i < bytes.len()
        invariant
            i <= bytes.len(),
            out@ == bytes@.subrange(0, i as int),
        decreases bytes.len() - i,
    {
        out.push(bytes[i]);
        i += 1;
    }
    out
}

/// Appends `src` to `dst`.
pub fn append(dst: &mut Vec<u8>, src: &[u8])
    ensures
        final(dst)@ == old(dst)@ + src@,
{
    let mut i: usize = 0;
    while i < src.len()
        invariant
            i <= src.len(),
            dst@ == old(dst)@ + src@.subrange(0, i as int),
        decreases src.len() - i,
    {
        dst.push(src[i]);
        i += 1;
    }
}

/// Whether two byte strings are equal.
pub fn same_bytes(a: &[u8], b: &[u8]) -> (eq: bool)
    ensures
        eq == (a@ == b@),
{
    if a.len() != b.len() {
        return false;
    }
    let mut i: usize = 0;
    while i < a.len()
        invariant
            i <= a.len(),
            a.len() == b.len(),
            a@.subrange(0, i as int) == b@.subrange(0, i as int),
        decreases a.len() - i,
    {
        if a[i] != b[i] {
            return false;
        }
        assert(a@.subrange(0, i + 1) == a@.subrange(0, i as int).push(a@[i as int]));
        assert(b@.subrange(0, i + 1) == b@.subrange(0, i as int).push(b@[i as int]));
        i += 1;
    }
    assert(a@ == a@.subrange(0, a.len() as int));
    assert(b@ == b@.subrange(0, b.len() as int));
    true
}

/// Places `name` below `parent`.
pub fn join(parent: &[u8], name: &[u8], style: PathStyle) -> (out: Vec<u8>)
    ensures
        out@ == joined(parent@, name@, style.sep()),
{
    let mut out = to_vec(parent);
    if parent.len() > 0 && parent[parent.len() - 1] != style.separator() {
        out.push(style.separator());
    }
    append(&mut out, name);
    out
}

/// One child for each of `names`, in order, below `parent`.
pub fn join_all(parent: &[u8], names: &Vec<Vec<u8>>, style: PathStyle) -> (out: Vec<Vec<u8>>)
    ensures
        byte_strings(out@) == joined_all(parent@, byte_strings(names@), style.sep()),
{
    let mut out: Vec<Vec<u8>> = Vec::new();
    let mut i: usize = 0;
    while i < names.len()
        invariant
            i <= names.len(),
            out.len() == i,
            forall|k: int| 0 <= k < i ==> (#[trigger] out[k])@ == joined(parent@, names[k]@, style.sep()),
        decreases names.len() - i,
    {
        out.push(join(parent, names[i].as_slice(), style));
        i += 1;
    }
    assert(byte_strings(out@) =~= joined_all(parent@, byte_strings(names@), style.sep()));
    out
}

/// The length of `path` without its trailing separators.
fn trimmed_end(path: &[u8], sep: u8) -> (end: usize)
    ensures
        end == trimmed_len(path@, sep),
        end <= path.len(),
{
    let mut end = path.len();
    assert(path@.subrange(0, end as int) == path@);
    while end > 0 && path[end - 1] == sep
        invariant
            end <= path.len(),
            trimmed_len(path@, sep) == trimmed_len(path@.subrange(0, end as int), sep),
        decreases end,
    {
        assert(path@.subrange(0, end as int).drop_last() == path@.subrange(0, end - 1));
        end -= 1;
    }
    end
}

/// Where the segment that ends at `end` begins.
fn segment_begin(path: &[u8], end: usize, sep: u8) -> (start: usize)
    requires
        end <= path.len(),
    ensures
        start == segment_start(path@, end as int, sep),
        start <= end,
{
    let mut start = end;
    while start > 0 && path[start - 1] != sep
        invariant
            start <= end <= path.len(),
            segment_start(path@, end as int, sep) == segment_start(path@, start as int, sep),
        decreases start,
    {
        start -= 1;
    }
    start
}

/// The bytes of `path` from `start` up to `end`.
fn slice_of(path: &[u8], start: usize, end: usize) -> (out: Vec<u8>)
    requires
        start <= end <= path.len(),
    ensures
        out@ == path@.subrange(start as int, end as int),
{
    let mut out: Vec<u8> = Vec::new();
    let mut i = start;
    while i < end
        invariant
            start <= i <= end <= path.len(),
            out@ == path@.subrange(start as int, i as int),
        decreases end - i,
    {
        out.push(path[i]);
        i += 1;
    }
    out
}

/// The final segment of `path`, if it has one that names an entry.
pub fn base_name(path: &[u8], style: PathStyle) -> (name: Option<Vec<u8>>)
    ensures
        match base_name_of(path@, style) {
            Some(segment) => name matches Some(n) && n@ == segment,
            None => name is None,
        },
{
    let sep = style.separator();
    let end = trimmed_end(path, sep);
    let start = segment_begin(path, end, sep);
    let ghost segment = path@.subrange(start as int, end as int);
    if end == start {
        return None;
    }
    if end - start == 2 {
        assert(segment[0] == path@[start as int] && segment[1] == path@[start + 1]);
        if path[start] == 0x2e && path[start + 1] == 0x2e {
            assert(segment =~= seq![0x2eu8, 0x2eu8]);
            return None;
        }
        let drive = 0x41 <= path[start] && path[start] <= 0x5a && path[start + 1] == 0x3a;
        match style {
            PathStyle::Windows => {
                if drive {
                    return None;
                }
            },
            PathStyle::Unix => {},
        }
    }
    assert(segment != seq![0x2eu8, 0x2eu8]) by {
        if segment == seq![0x2eu8, 0x2eu8] {
            assert(segment.len() == 2);
            assert(segment[0] == 0x2e && segment[1] == 0x2e);
        }
    }
    Some(slice_of(path, start, end))
}

/// The index of the first drive letter of `path`, or its length.
fn find_drive(path: &[u8]) -> (i: usize)
    ensures
        i == first_drive(path@, 0),
        i <= path.len(),
{
    let mut i: usize = 0;
    while i < path.len()
        invariant
            i <= path.len(),
            first_drive(path@, 0) == first_drive(path@, i as int),
        decreases path.len() - i,
    {
        if i + 1 < path.len() && 0x41 <= path[i] && path[i] <= 0x5a && path[i + 1] == 0x3a {
            return i;
        }
        i += 1;
    }
    i
}

/// The name given to a path that has no final segment.
fn fallback(path: &[u8], style: PathStyle) -> (name: Vec<u8>)
    ensures
        name@ == fallback_name(path@, style),
{
    let i = find_drive(path);
    match style {
        PathStyle::Windows => {
            if i < path.len() {
                let name: Vec<u8> = vec![0x64, 0x72, 0x69, 0x76, 0x65, 0x20, path[i], 0x3a];
                assert(name@ =~= drive_word() + seq![path@[i as int], 0x3au8]);
                return name;
            }
        },
        PathStyle::Unix => {},
    }
    let name: Vec<u8> = vec![0x72, 0x6f, 0x6f, 0x74];
    assert(name@ =~= root_word());
    name
}

/// The name under which the root `path` is archived, below `name_start`
/// where there is one.
pub fn get_name(path: &[u8], name_start: &Option<Vec<u8>>, style: PathStyle) -> (name: Vec<u8>)
    ensures
        name@ == archive_name(path@, optional_bytes(*name_start), style),
{
    let own = match base_name(path, style) {
        Some(segment) => segment,
        None => fallback(path, style),
    };
    match name_start {
        Some(prefix) => join(prefix.as_slice(), own.as_slice(), style),
        None => own,
    }
}

/// The index of the last dot in `name[lo..hi]`, or `hi`.
fn find_last_dot(name: &[u8], lo: usize, hi: usize) -> (i: usize)
    requires
        hi <= name.len(),
    ensures
        i == last_dot(name@, lo as int, hi as int),
        i <= hi,
{
    if hi <= lo {
        return hi;
    }
    let mut i = hi;
    while i > lo && name[i - 1] != 0x2e
        invariant
            lo <= i <= hi <= name.len(),
            forall|k: int| i <= k < hi ==> name@[k] != 0x2e,
        decreases i,
    {
        i -= 1;
    }
    proof {
        lemma_last_dot(name@, lo as int, hi as int, i as int);
    }
    if i > lo {
        i - 1
    } else {
        hi
    }
}

/// `last_dot` finds the dot just below a dot-free tail, and nothing in a
/// dot-free range.
proof fn lemma_last_dot(name: Seq<u8>, lo: int, hi: int, i: int)
    requires
        lo <= i <= hi <= name.len(),
        0 <= lo,
        forall|k: int| i <= k < hi ==> name[k] != 0x2e,
        i > lo ==> name[i - 1] == 0x2e,
    ensures
        last_dot(name, lo, hi) == (if i > lo {
            i - 1
        } else {
            hi
        }),
    decreases hi - i,
{
    if hi > i {
        lemma_last_dot(name, lo, hi - 1, i);
    }
}

/// The name of the compressed member that stands for the directory
/// archived as `name`.
pub fn member_name(name: &[u8], style: PathStyle) -> (out: Vec<u8>)
    ensures
        out@ == member_name_of(name@, style.sep()),
{
    let sep = style.separator();
    let start = segment_begin(name, name.len(), sep);
    let end = if start < name.len() {
        find_last_dot(name, start + 1, name.len())
    } else {
        name.len()
    };
    let mut out = slice_of(name, 0, end);
    let suffix: Vec<u8> = vec![0x2e, 0x74, 0x61, 0x72, 0x2e, 0x78, 0x7a];
    assert(suffix@ =~= member_suffix());
    append(&mut out, suffix.as_slice());
    out
}

} // verus!
