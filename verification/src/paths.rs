//! File paths as text.

use vstd::prelude::*;

use crate::text::{copy_range, to_ascii_lower};

verus! {

/// How paths are written.
#[derive(Debug, Clone, Copy, PartialEq, Eq, Structural)]
pub enum PathStyle {
    /// `/` stands between the names.
    Slash,
    /// `\` or `/` stands between the names, and a drive such as `C:` may come first. Other
    /// prefixes, of hosts and shares, are read as names.
    Windows,
}

impl PathStyle {
    /// The character stands between names.
    pub open spec fn separates(self, c: char) -> bool {
        c == '/' || (self == PathStyle::Windows && c == '\\')
    }

    /// The separator that is written.
    pub open spec fn main_separator(self) -> char {
        match self {
            PathStyle::Slash => '/',
            PathStyle::Windows => '\\',
        }
    }

    /// How long the drive is that the path starts with; 0 where there is none.
    pub open spec fn drive_len(self, s: Seq<char>) -> int {
        if self == PathStyle::Windows && s.len() >= 2 && s[1] == ':' && (('a' <= s[0] && s[0] <= 'z')
            || ('A' <= s[0] && s[0] <= 'Z')) {
            2
        } else {
            0
        }
    }

    fn is_separator(self, c: char) -> (r: bool)
        ensures
            r == self.separates(c),
    {
        c == '/' || (self == PathStyle::Windows && c == '\\')
    }

    fn separator(self) -> (c: char)
        ensures
            c == self.main_separator(),
    {
        match self {
            PathStyle::Slash => '/',
            PathStyle::Windows => '\\',
        }
    }

    fn drive(self, s: &[char]) -> (n: usize)
        ensures
            n == self.drive_len(s@),
            n <= s@.len(),
    {
        if self == PathStyle::Windows && s.len() >= 2 && s[1] == ':' && (('a' <= s[0] && s[0] <= 'z')
            || ('A' <= s[0] && s[0] <= 'Z')) {
            2
        } else {
            0
        }
    }
}

/// Where the name that ends at `end` starts: after the last separator before it, or after the
/// drive.
pub open spec fn name_start(style: PathStyle, s: Seq<char>, end: int) -> int
    decreases end,
{
    if end <= style.drive_len(s) {
        style.drive_len(s)
    } else if style.separates(s[end - 1]) {
        end
    } else {
        name_start(style, s, end - 1)
    }
}

/// The name that a path ends with, as a range: empty names and `.` are skipped. A path that ends
/// with `..` or consists of separators, `.` or a drive has none.
pub open spec fn name_range(style: PathStyle, s: Seq<char>, end: int) -> Option<(int, int)>
    decreases end, 1int,
{
    if end <= style.drive_len(s) || end > s.len() {
        None
    } else if style.separates(s[end - 1]) {
        name_range(style, s, end - 1)
    } else {
        let start = name_start(style, s, end);
        if is_dot(s, start, end) {
            if style.drive_len(s) < start && start < end {
                name_range(style, s, start)
            } else {
                None
            }
        } else if is_dot_dot(s, start, end) {
            None
        } else {
            Some((start, end))
        }
    }
}

/// The name in this range is `.`.
pub open spec fn is_dot(s: Seq<char>, start: int, end: int) -> bool {
    end == start + 1 && s[start] == '.'
}

/// The name in this range is `..`.
pub open spec fn is_dot_dot(s: Seq<char>, start: int, end: int) -> bool {
    end == start + 2 && s[start] == '.' && s[start + 1] == '.'
}

/// The path's last name.
pub open spec fn file_name(style: PathStyle, s: Seq<char>) -> Option<Seq<char>> {
    match name_range(style, s, s.len() as int) {
        Some((start, end)) => Some(s.subrange(start, end)),
        None => None,
    }
}

/// Where the extension's dot stands in a name: the last dot, but not the first character.
pub open spec fn dot_position(name: Seq<char>) -> Option<int> {
    match crate::text::last_position(name, '.') {
        Some(at) => if at > 0 {
            Some(at)
        } else {
            None
        },
        None => None,
    }
}

/// The path's extension: what follows the last dot of its last name.
pub open spec fn extension_of(style: PathStyle, s: Seq<char>) -> Option<Seq<char>> {
    match file_name(style, s) {
        Some(name) => match dot_position(name) {
            Some(at) => Some(name.skip(at + 1)),
            None => None,
        },
        None => None,
    }
}

/// The path's last name without the extension.
pub open spec fn stem_of(style: PathStyle, s: Seq<char>) -> Option<Seq<char>> {
    match file_name(style, s) {
        Some(name) => match dot_position(name) {
            Some(at) => Some(name.take(at)),
            None => Some(name),
        },
        None => None,
    }
}

/// The path cut behind the stem of its last name, with the given extension. A path without a
/// last name stays as it is.
pub open spec fn set_extension(style: PathStyle, s: Seq<char>, extension: Seq<char>) -> Seq<char> {
    match name_range(style, s, s.len() as int) {
        Some((start, end)) => s.take(start + stem_of(style, s)->0.len()) + seq!['.'] + extension,
        None => s,
    }
}

/// Where the folder ends that lies before `end`: separators and `.` at its end do not count, but
/// a drive and a leading separator or `.` stay.
pub open spec fn folder_end(style: PathStyle, s: Seq<char>, end: int) -> int
    decreases end,
{
    if end <= style.drive_len(s) || end > s.len() {
        style.drive_len(s)
    } else if style.separates(s[end - 1]) {
        if end == style.drive_len(s) + 1 {
            end
        } else {
            folder_end(style, s, end - 1)
        }
    } else {
        let start = name_start(style, s, end);
        if is_dot(s, start, end) && style.drive_len(s) < start && start < end {
            folder_end(style, s, start)
        } else {
            end
        }
    }
}

/// The folder that the path's last name stands in; the whole path where it has no last name.
pub open spec fn folder_of(style: PathStyle, s: Seq<char>) -> Seq<char> {
    match name_range(style, s, s.len() as int) {
        Some((start, _)) => s.take(folder_end(style, s, start)),
        None => s,
    }
}

/// A folder with what has to stand between it and a name: a separator, if it does not end with
/// one and is more than a drive.
pub open spec fn folder_lead(style: PathStyle, folder: Seq<char>) -> Seq<char> {
    if folder.len() > style.drive_len(folder) && !style.separates(folder.last()) {
        folder + seq![style.main_separator()]
    } else {
        folder
    }
}

/// The path with another last name: it takes the place of the one that is there, if any. A name
/// that starts with a drive is a path of its own.
pub open spec fn set_file_name(style: PathStyle, s: Seq<char>, name: Seq<char>) -> Seq<char> {
    if style.drive_len(name) > 0 {
        name
    } else {
        folder_lead(style, folder_of(style, s)) + name
    }
}

proof fn lemma_name_start(style: PathStyle, s: Seq<char>, end: int)
    requires
        style.drive_len(s) <= end <= s.len(),
    ensures
        style.drive_len(s) <= name_start(style, s, end) <= end,
        end > style.drive_len(s) && !style.separates(s[end - 1]) ==> name_start(style, s, end)
            < end,
        forall|i: int| name_start(style, s, end) <= i < end ==> !style.separates(s[i]),
    decreases end,
{
    if end > style.drive_len(s) && !style.separates(s[end - 1]) {
        lemma_name_start(style, s, end - 1);
    }
}

proof fn lemma_name_range(style: PathStyle, s: Seq<char>, end: int)
    requires
        0 <= end <= s.len(),
    ensures
        name_range(style, s, end) matches Some((from, to)) ==> {
            &&& style.drive_len(s) <= from < to <= end
            &&& forall|i: int| from <= i < to ==> !style.separates(s[i])
            &&& !is_dot(s, from, to)
            &&& !is_dot_dot(s, from, to)
        },
    decreases end,
{
    if end > style.drive_len(s) {
        if style.separates(s[end - 1]) {
            lemma_name_range(style, s, end - 1);
        } else {
            lemma_name_start(style, s, end);
            let start = name_start(style, s, end);
            if is_dot(s, start, end) && style.drive_len(s) < start && start < end {
                lemma_name_range(style, s, start);
            }
        }
    }
}

proof fn lemma_folder_end(style: PathStyle, s: Seq<char>, end: int)
    requires
        style.drive_len(s) <= end <= s.len(),
    ensures
        style.drive_len(s) <= folder_end(style, s, end) <= end,
    decreases end,
{
    if end > style.drive_len(s) {
        if style.separates(s[end - 1]) {
            if end > style.drive_len(s) + 1 {
                lemma_folder_end(style, s, end - 1);
            }
        } else {
            lemma_name_start(style, s, end);
            let start = name_start(style, s, end);
            if is_dot(s, start, end) && style.drive_len(s) < start && start < end {
                lemma_folder_end(style, s, start);
            }
        }
    }
}

fn find_name_start(style: PathStyle, s: &[char], end: usize) -> (start: usize)
    requires
        style.drive_len(s@) <= end <= s@.len(),
    ensures
        start == name_start(style, s@, end as int),
        start <= end,
{
    let drive: usize = style.drive(s);
    let mut start: usize = end;
    while start > drive && !style.is_separator(s[start - 1])
        invariant
            drive == style.drive_len(s@),
            drive <= start <= end <= s@.len(),
            name_start(style, s@, start as int) == name_start(style, s@, end as int),
        decreases start,
    {
        start = start - 1;
    }
    start
}

fn find_name_range(style: PathStyle, s: &[char]) -> (r: Option<(usize, usize)>)
    ensures
        match r {
            Some((start, end)) => name_range(style, s@, s@.len() as int) == Some(
                (start as int, end as int),
            ) && style.drive_len(s@) <= start < end <= s@.len(),
            None => name_range(style, s@, s@.len() as int) is None,
        },
{
    let drive: usize = style.drive(s);
    let mut end: usize = s.len();
    while end > drive
        invariant
            drive == style.drive_len(s@),
            drive <= end <= s@.len(),
            name_range(style, s@, end as int) == name_range(style, s@, s@.len() as int),
        decreases end,
    {
        if style.is_separator(s[end - 1]) {
            end = end - 1;
        } else {
            let start = find_name_start(style, s, end);
            proof {
                lemma_name_start(style, s@, end as int);
            }
            if end - start == 1 && s[start] == '.' {
                if start == drive {
                    return None;
                }
                end = start;
            } else if end - start == 2 && s[start] == '.' && s[start + 1] == '.' {
                return None;
            } else {
                return Some((start, end));
            }
        }
    }
    None
}

fn find_dot(name: &[char]) -> (r: Option<usize>)
    ensures
        match r {
            Some(at) => dot_position(name@) == Some(at as int) && 0 < at < name@.len(),
            None => dot_position(name@) is None,
        },
{
    match crate::text::rfind(name, '.') {
        Some(at) => if at > 0 {
            Some(at)
        } else {
            None
        },
        None => None,
    }
}

/// The path's extension.
pub fn extension_chars(style: PathStyle, s: &[char]) -> (r: Option<Vec<char>>)
    ensures
        match r {
            Some(e) => extension_of(style, s@) == Some(e@),
            None => extension_of(style, s@) is None,
        },
{
    match find_name_range(style, s) {
        None => None,
        Some((start, end)) => {
            let name = copy_range(s, start, end);
            match find_dot(&name) {
                None => None,
                Some(at) => {
                    let e = copy_range(&name, at + 1, name.len());
                    assert(e@ =~= name@.skip(at + 1));
                    Some(e)
                },
            }
        },
    }
}

/// The path's last name without the extension.
pub fn stem_chars(style: PathStyle, s: &[char]) -> (r: Option<Vec<char>>)
    ensures
        match r {
            Some(e) => stem_of(style, s@) == Some(e@),
            None => stem_of(style, s@) is None,
        },
{
    match find_name_range(style, s) {
        None => None,
        Some((start, end)) => {
            let name = copy_range(s, start, end);
            match find_dot(&name) {
                None => Some(name),
                Some(at) => {
                    let e = copy_range(&name, 0, at);
                    assert(e@ =~= name@.take(at as int));
                    Some(e)
                },
            }
        },
    }
}

fn append_chars(out: &mut Vec<char>, more: &[char])
    ensures
        final(out)@ == old(out)@ + more@,
{
    let ghost before = out@;
    let mut i: usize = 0;
    assert(out@ =~= before + more@.take(0));
    while i < more.len()
        invariant
            i <= more@.len(),
            before == old(out)@,
            out@ == before + more@.take(i as int),
        decreases more@.len() - i,
    {
        out.push(more[i]);
        i = i + 1;
        assert(out@ =~= before + more@.take(i as int));
    }
    assert(more@.take(i as int) =~= more@);
}

/// The path with the given extension.
pub fn with_extension(style: PathStyle, s: &[char], extension: &[char]) -> (r: Vec<char>)
    ensures
        r@ == set_extension(style, s@, extension@),
{
    match find_name_range(style, s) {
        None => {
            let r = copy_range(s, 0, s.len());
            assert(r@ =~= s@);
            r
        },
        Some((start, end)) => {
            let name = copy_range(s, start, end);
            let stem: usize = match find_dot(&name) {
                None => name.len(),
                Some(at) => at,
            };
            assert(stem == stem_of(style, s@)->0.len());
            let mut r = copy_range(s, 0, start + stem);
            assert(r@ =~= s@.take(start + stem));
            r.push('.');
            append_chars(&mut r, extension);
            assert(r@ =~= set_extension(style, s@, extension@));
            r
        },
    }
}

fn find_folder_end(style: PathStyle, s: &[char], from: usize) -> (r: usize)
    requires
        style.drive_len(s@) <= from <= s@.len(),
    ensures
        r == folder_end(style, s@, from as int),
        r <= from,
{
    let drive: usize = style.drive(s);
    let mut end: usize = from;
    while end > drive
        invariant
            drive == style.drive_len(s@),
            drive <= end <= from <= s@.len(),
            folder_end(style, s@, end as int) == folder_end(style, s@, from as int),
        decreases end,
    {
        if style.is_separator(s[end - 1]) {
            if end == drive + 1 {
                return end;
            }
            end = end - 1;
        } else {
            let start = find_name_start(style, s, end);
            proof {
                lemma_name_start(style, s@, end as int);
            }
            if end - start == 1 && s[start] == '.' && start > drive {
                end = start;
            } else {
                return end;
            }
        }
    }
    drive
}

/// The path with another last name.
pub fn with_file_name(style: PathStyle, s: &[char], name: &[char]) -> (r: Vec<char>)
    ensures
        r@ == set_file_name(style, s@, name@),
{
    let mut r: Vec<char> = Vec::new();
    if style.drive(name) == 0 {
        let cut: usize = match find_name_range(style, s) {
            None => s.len(),
            Some((start, _)) => find_folder_end(style, s, start),
        };
        r = copy_range(s, 0, cut);
        assert(s@.take(s@.len() as int) =~= s@);
        assert(r@ =~= folder_of(style, s@));
        if cut > style.drive(&r) && !style.is_separator(s[cut - 1]) {
            r.push(style.separator());
        }
        assert(r@ =~= folder_lead(style, folder_of(style, s@)));
    }
    append_chars(&mut r, name);
    assert(r@ =~= set_file_name(style, s@, name@));
    r
}

/// Two last names that differ give two paths that differ, unless just one of them starts with a
/// drive.
pub proof fn other_names_give_other_paths(
    style: PathStyle,
    s: Seq<char>,
    a: Seq<char>,
    b: Seq<char>,
)
    requires
        a != b,
        style.drive_len(a) == style.drive_len(b),
    ensures
        set_file_name(style, s, a) != set_file_name(style, s, b),
{
    let lead = folder_lead(style, folder_of(style, s));
    if lead + a == lead + b {
        assert((lead + a).skip(lead.len() as int) =~= a);
        assert((lead + b).skip(lead.len() as int) =~= b);
    }
}

/// A last name is its stem, which is not empty, and its extension, which holds no dot; neither
/// holds a separator.
pub proof fn name_is_stem_and_extension(style: PathStyle, s: Seq<char>)
    ensures
        file_name(style, s) is None ==> stem_of(style, s) is None && extension_of(style, s) is None,
        file_name(style, s) matches Some(name) ==> {
            &&& stem_of(style, s) matches Some(stem) && stem.len() > 0 && forall|i: int|
                0 <= i < stem.len() ==> !style.separates(stem[i])
            &&& match extension_of(style, s) {
                Some(e) => {
                    &&& name == stem_of(style, s)->0 + seq!['.'] + e
                    &&& forall|i: int| 0 <= i < e.len() ==> !style.separates(e[i]) && e[i] != '.'
                },
                None => name == stem_of(style, s)->0,
            }
            &&& !is_dot_dot(name, 0, name.len() as int)
        },
{
    lemma_name_range(style, s, s.len() as int);
    match name_range(style, s, s.len() as int) {
        Some((start, end)) => {
            let name = s.subrange(start, end);
            assert(forall|i: int| 0 <= i < name.len() ==> #[trigger] name[i] == s[start + i]);
            crate::text::lemma_last_position(name, '.');
            match extension_of(style, s) {
                Some(e) => {
                    assert(name =~= stem_of(style, s)->0 + seq!['.'] + e);
                },
                None => {},
            }
        },
        None => {},
    }
}

/// The names of the path up to `end`, first to last: empty names are skipped, and `.` is, unless
/// the path begins with it.
pub open spec fn names_until(style: PathStyle, s: Seq<char>, end: int) -> Seq<Seq<char>>
    decreases end, 1int,
{
    if end <= style.drive_len(s) || end > s.len() {
        Seq::empty()
    } else if style.separates(s[end - 1]) {
        names_until(style, s, end - 1)
    } else {
        let start = name_start(style, s, end);
        if start >= end || start < 0 {
            Seq::empty()
        } else if is_dot(s, start, end) && start > style.drive_len(s) {
            names_until(style, s, start)
        } else {
            names_until(style, s, start).push(s.subrange(start, end))
        }
    }
}

/// What stands before the first name: the drive, whose case does not matter, and the root.
pub open spec fn lead_of(style: PathStyle, s: Seq<char>) -> Seq<char> {
    let drive = style.drive_len(s);
    (if drive > 0 {
        seq![crate::text::ascii_lower(s[0]), ':']
    } else {
        Seq::empty()
    }) + (if drive < s.len() && style.separates(s[drive]) {
        seq![style.main_separator()]
    } else {
        Seq::empty()
    })
}

/// The names one after the other, behind `lead`.
pub open spec fn written(style: PathStyle, lead: Seq<char>, names: Seq<Seq<char>>) -> Seq<char>
    decreases names.len(),
{
    if names.len() == 0 {
        lead
    } else if names.len() == 1 {
        lead + names[0]
    } else {
        written(style, lead, names.drop_last()) + seq![style.main_separator()] + names.last()
    }
}

/// The path in one spelling: two paths with the same drive, root and names have the same.
pub open spec fn canonical(style: PathStyle, s: Seq<char>) -> Seq<char> {
    written(style, lead_of(style, s), names_until(style, s, s.len() as int))
}

/// The path in one spelling.
pub fn canonical_chars(style: PathStyle, s: &[char]) -> (r: Vec<char>)
    ensures
        r@ == canonical(style, s@),
{
    let drive: usize = style.drive(s);
    let mut r: Vec<char> = Vec::new();
    if drive > 0 {
        r.push(to_ascii_lower(s[0]));
        r.push(':');
    }
    if drive < s.len() && style.is_separator(s[drive]) {
        r.push(style.separator());
    }
    assert(r@ =~= lead_of(style, s@));
    let mut count: usize = 0;
    let mut i: usize = drive;
    while i < s.len()
        invariant
            drive == style.drive_len(s@),
            drive <= i <= s@.len(),
            i == drive || i == s@.len() || style.separates(s@[i - 1]),
            count == names_until(style, s@, i as int).len(),
            count <= i,
            r@ == written(style, lead_of(style, s@), names_until(style, s@, i as int)),
        decreases s@.len() - i,
    {
        if style.is_separator(s[i]) {
            assert(names_until(style, s@, i + 1) == names_until(style, s@, i as int));
            i = i + 1;
        } else {
            let mut j: usize = i;
            while j < s.len() && !style.is_separator(s[j])
                invariant
                    i <= j <= s@.len(),
                    forall|k: int| i <= k < j ==> !style.separates(s@[k]),
                decreases s@.len() - j,
            {
                j = j + 1;
            }
            proof {
                lemma_name_start_of(style, s@, j as int, i as int);
            }
            let ghost before = names_until(style, s@, i as int);
            if j - i == 1 && s[i] == '.' && i > drive {
                assert(names_until(style, s@, j as int) == before);
            } else {
                let ghost name = s@.subrange(i as int, j as int);
                assert(names_until(style, s@, j as int) == before.push(name));
                if count > 0 {
                    r.push(style.separator());
                }
                let copied = copy_range(s, i, j);
                append_chars(&mut r, &copied);
                assert(before.push(name).drop_last() =~= before);
                assert(r@ =~= written(style, lead_of(style, s@), before.push(name)));
                count = count + 1;
            }
            if j < s.len() {
                assert(names_until(style, s@, j + 1) == names_until(style, s@, j as int));
                i = j + 1;
            } else {
                i = j;
            }
        }
    }
    r
}

/// Whether two paths have the same drive, root and names.
pub fn same_path(style: PathStyle, a: &[char], b: &[char]) -> (r: bool)
    ensures
        r == (canonical(style, a@) == canonical(style, b@)),
{
    crate::text::chars_equal(&canonical_chars(style, a), &canonical_chars(style, b))
}

/// Two paths have the same drive, root and names.
pub open spec fn same_parts(style: PathStyle, a: Seq<char>, b: Seq<char>) -> bool {
    &&& lead_of(style, a) == lead_of(style, b)
    &&& names_until(style, a, a.len() as int) == names_until(style, b, b.len() as int)
}

/// The one spelling of a path is the path itself, spelled otherwise, and tells apart exactly the
/// paths that differ in drive, root or names.
pub proof fn canonical_tells_paths_apart(style: PathStyle, a: Seq<char>, b: Seq<char>)
    ensures
        same_parts(style, a, canonical(style, a)),
        same_parts(style, a, b) <==> canonical(style, a) == canonical(style, b),
{
    lemma_canonical(style, a);
    lemma_canonical(style, b);
}

/// The names are such as a path can have behind `lead`.
spec fn are_names(style: PathStyle, names: Seq<Seq<char>>, rooted: bool) -> bool {
    forall|k: int|
        0 <= k < names.len() ==> {
            &&& (#[trigger] names[k]).len() > 0
            &&& forall|i: int| 0 <= i < names[k].len() ==> !style.separates(#[trigger] names[k][i])
            &&& is_dot(names[k], 0, names[k].len() as int) ==> k == 0 && !rooted
        }
}

proof fn lemma_names(style: PathStyle, s: Seq<char>, end: int)
    requires
        0 <= end <= s.len(),
    ensures
        are_names(
            style,
            names_until(style, s, end),
            style.drive_len(s) < s.len() && style.separates(s[style.drive_len(s)]),
        ),
    decreases end,
{
    let drive = style.drive_len(s);
    if end > drive {
        if style.separates(s[end - 1]) {
            lemma_names(style, s, end - 1);
        } else {
            lemma_name_start(style, s, end);
            let start = name_start(style, s, end);
            lemma_names(style, s, start);
            let name = s.subrange(start, end);
            assert(forall|i: int| 0 <= i < name.len() ==> #[trigger] name[i] == s[start + i]);
        }
    }
}

proof fn lemma_first_name(style: PathStyle, s: Seq<char>, end: int)
    requires
        style.drive_len(s) < end <= s.len(),
        !style.separates(s[style.drive_len(s)]),
    ensures
        ({
            let names = names_until(style, s, end);
            let drive = style.drive_len(s);
            &&& names.len() > 0
            &&& names[0].len() > 0
            &&& names[0][0] == s[drive]
            &&& names[0].len() > 1 ==> drive + 1 < s.len() && names[0][1] == s[drive + 1]
        }),
    decreases end,
{
    let drive = style.drive_len(s);
    if style.separates(s[end - 1]) {
        lemma_first_name(style, s, end - 1);
    } else {
        lemma_name_start(style, s, end);
        lemma_name_start_at(style, s, end);
        let start = name_start(style, s, end);
        if start > drive {
            lemma_first_name(style, s, start);
        } else {
            assert(names_until(style, s, start) =~= Seq::<Seq<char>>::empty());
        }
    }
}

proof fn lemma_written_prefix(
    style: PathStyle,
    lead: Seq<char>,
    names: Seq<Seq<char>>,
    n: int,
)
    requires
        0 <= n <= names.len(),
    ensures
        ({
            let part = written(style, lead, names.take(n));
            let all = written(style, lead, names);
            part.len() <= all.len() && forall|i: int| 0 <= i < part.len() ==> #[trigger] all[i]
                == part[i]
        }),
    decreases names.len(),
{
    if n < names.len() {
        let rest = names.drop_last();
        lemma_written_prefix(style, lead, rest, n);
        assert(rest.take(n) =~= names.take(n));
        let shorter = written(style, lead, rest);
        let all = written(style, lead, names);
        assert(forall|i: int| 0 <= i < shorter.len() ==> #[trigger] all[i] == shorter[i]);
    } else {
        assert(names.take(n) =~= names);
    }
}

proof fn lemma_names_of_written(
    style: PathStyle,
    lead: Seq<char>,
    names: Seq<Seq<char>>,
    n: int,
)
    requires
        0 <= n <= names.len(),
        ({
            let drive = style.drive_len(written(style, lead, names));
            ||| lead.len() == drive
            ||| lead.len() == drive + 1 && style.separates(lead.last())
        }),
        are_names(
            style,
            names,
            lead.len() > style.drive_len(written(style, lead, names)),
        ),
    ensures
        names_until(
            style,
            written(style, lead, names),
            written(style, lead, names.take(n)).len() as int,
        ) == names.take(n),
    decreases n,
{
    let all = written(style, lead, names);
    let drive = style.drive_len(all);
    let part = written(style, lead, names.take(n));
    lemma_written_prefix(style, lead, names, n);
    lemma_written_prefix(style, lead, names, 0);
    if n == 0 {
        assert(names_until(style, all, drive) =~= Seq::<Seq<char>>::empty());
        assert(names.take(0) =~= Seq::<Seq<char>>::empty());
        if lead.len() == drive + 1 {
            assert(all[drive] == lead[drive]);
        }
    } else {
        lemma_names_of_written(style, lead, names, n - 1);
        lemma_written_prefix(style, lead, names, n - 1);
        let before = written(style, lead, names.take(n - 1));
        let name = names[n - 1];
        assert(names.take(n).drop_last() =~= names.take(n - 1));
        let end = part.len() as int;
        let start = end - name.len();
        assert(part =~= before + (if n == 1 {
            Seq::empty()
        } else {
            seq![style.main_separator()]
        }) + name);
        assert(forall|i: int| start <= i < end ==> #[trigger] all[i] == part[i]);
        assert(forall|i: int| start <= i < end ==> #[trigger] part[i] == name[i - start]);
        assert forall|i: int| start <= i < end implies !style.separates(all[i]) by {
            assert(all[i] == name[i - start]);
        }
        if n > 1 {
            assert(all[start - 1] == part[start - 1]);
            assert(part[start - 1] == style.main_separator());
        } else {
            assert(names.take(0) =~= Seq::<Seq<char>>::empty());
            if lead.len() == drive + 1 {
                assert(all[start - 1] == part[start - 1]);
            }
        }
        lemma_name_start_of(style, all, end, start);
        assert(all.subrange(start, end) =~= name);
        if is_dot(all, start, end) {
            assert(is_dot(name, 0, name.len() as int)) by {
                assert(name[0] == all[start]);
            }
        }
        if n > 1 {
            assert(names_until(style, all, start) == names_until(style, all, start - 1));
        }
        assert(names.take(n) =~= names.take(n - 1).push(name));
    }
}

proof fn lemma_canonical(style: PathStyle, s: Seq<char>)
    ensures
        same_parts(style, s, canonical(style, s)),
{
    let n = s.len() as int;
    let drive = style.drive_len(s);
    let lead = lead_of(style, s);
    let names = names_until(style, s, n);
    let all = canonical(style, s);
    let rooted = drive < n && style.separates(s[drive]);
    lemma_names(style, s, n);
    lemma_written_prefix(style, lead, names, 0);
    assert(names.take(0) =~= Seq::<Seq<char>>::empty());
    assert(forall|i: int| 0 <= i < lead.len() ==> #[trigger] all[i] == lead[i]);
    if !rooted && drive < n {
        lemma_first_name(style, s, n);
        lemma_written_prefix(style, lead, names, 1);
        assert(names.take(1) =~= seq![names[0]]);
        let first = lead + names[0];
        assert(written(style, lead, names.take(1)) == first);
        assert(forall|i: int| 0 <= i < first.len() ==> #[trigger] all[i] == first[i]);
        assert(all[lead.len() as int] == names[0][0]);
        if names[0].len() > 1 {
            assert(all[lead.len() as int + 1] == names[0][1]);
        } else if names.len() > 1 {
            lemma_written_prefix(style, lead, names, 2);
            assert(names.take(2).drop_last() =~= names.take(1));
            let two = written(style, lead, names.take(2));
            assert(two =~= first + seq![style.main_separator()] + names[1]);
            assert(all[first.len() as int] == two[first.len() as int]);
        } else {
            assert(all == first);
        }
    } else if drive >= n {
        assert(names =~= Seq::<Seq<char>>::empty());
    } else {
        assert(all[lead.len() - 1] == lead.last());
    }
    assert(style.drive_len(all) == drive);
    lemma_names_of_written(style, lead, names, names.len() as int);
    assert(names.take(names.len() as int) =~= names);
    assert(lead_of(style, all) =~= lead);
}

/// The folder of a path, written without separators and `.` at its end.
pub open spec fn parent_of(style: PathStyle, s: Seq<char>) -> Seq<char> {
    match name_range(style, s, s.len() as int) {
        Some((start, _)) => s.take(folder_end(style, s, start)),
        None => s.take(folder_end(style, s, s.len() as int)),
    }
}

/// The text can be the last name of a path: it holds no separator, starts with no drive and is
/// neither empty nor `.` nor `..`.
pub open spec fn is_name(style: PathStyle, name: Seq<char>) -> bool {
    &&& name.len() > 0
    &&& forall|i: int| 0 <= i < name.len() ==> !style.separates(name[i])
    &&& style.drive_len(name) == 0
    &&& !is_dot(name, 0, name.len() as int)
    &&& !is_dot_dot(name, 0, name.len() as int)
}

/// A path that was given another last name has it, and stays in its folder.
pub proof fn renamed_path_keeps_its_folder(style: PathStyle, s: Seq<char>, name: Seq<char>)
    requires
        is_name(style, name),
    ensures
        file_name(style, set_file_name(style, s, name)) == Some(name),
        parent_of(style, set_file_name(style, s, name)) == parent_of(style, s),
{
    let folder = folder_of(style, s);
    let k = folder.len() as int;
    let lead = folder_lead(style, folder);
    let m = lead.len() as int;
    let r = lead + name;
    let d = style.drive_len(s);
    let n = s.len() as int;
    lemma_name_range(style, s, n);
    match name_range(style, s, n) {
        Some((start, _)) => {
            lemma_folder_end(style, s, start);
            lemma_folder_end_again(style, s, start);
        },
        None => {},
    }
    assert(folder =~= s.take(k));
    assert(d <= k);
    assert(forall|i: int| 0 <= i < k ==> #[trigger] r[i] == s[i]);
    assert(style.drive_len(r) == d) by {
        if k >= 2 {
            assert(r[0] == s[0] && r[1] == s[1]);
        } else if k == 1 {
            assert(r[0] == s[0]);
            assert(style.separates(r[0]) || style.separates(r[1]));
        } else {
            assert(r =~= name);
        }
    }
    assert(style.drive_len(folder) == d) by {
        if k >= 2 {
            assert(folder[0] == s[0] && folder[1] == s[1]);
        }
    }
    assert(forall|i: int| m <= i < r.len() ==> #[trigger] r[i] == name[i - m]);
    lemma_name_start_of(style, r, r.len() as int, m);
    assert(name_range(style, r, r.len() as int) == Some((m, r.len() as int)));
    assert(r.subrange(m, r.len() as int) =~= name);
    lemma_folder_end_of_prefix(style, s, r, k);
    lemma_folder_end(style, s, k);
    if m == k + 1 {
        assert(style.separates(r[k]));
    }
    assert(parent_of(style, r) =~= parent_of(style, s));
}

proof fn lemma_folder_end_again(style: PathStyle, s: Seq<char>, end: int)
    requires
        style.drive_len(s) <= end <= s.len(),
    ensures
        folder_end(style, s, folder_end(style, s, end)) == folder_end(style, s, end),
    decreases end,
{
    if end > style.drive_len(s) {
        if style.separates(s[end - 1]) {
            if end > style.drive_len(s) + 1 {
                lemma_folder_end_again(style, s, end - 1);
            }
        } else {
            lemma_name_start(style, s, end);
            let start = name_start(style, s, end);
            if is_dot(s, start, end) && style.drive_len(s) < start && start < end {
                lemma_folder_end_again(style, s, start);
            }
        }
    }
}

proof fn lemma_name_start_of_prefix(style: PathStyle, s: Seq<char>, r: Seq<char>, end: int)
    requires
        style.drive_len(s) <= end <= s.len(),
        end <= r.len(),
        style.drive_len(r) == style.drive_len(s),
        forall|i: int| 0 <= i < end ==> #[trigger] r[i] == s[i],
    ensures
        name_start(style, r, end) == name_start(style, s, end),
    decreases end,
{
    if end > style.drive_len(s) {
        assert(r[end - 1] == s[end - 1]);
        if !style.separates(s[end - 1]) {
            lemma_name_start_of_prefix(style, s, r, end - 1);
        }
    }
}

proof fn lemma_folder_end_of_prefix(style: PathStyle, s: Seq<char>, r: Seq<char>, end: int)
    requires
        style.drive_len(s) <= end <= s.len(),
        end <= r.len(),
        style.drive_len(r) == style.drive_len(s),
        forall|i: int| 0 <= i < end ==> #[trigger] r[i] == s[i],
    ensures
        folder_end(style, r, end) == folder_end(style, s, end),
    decreases end,
{
    if end > style.drive_len(s) {
        assert(r[end - 1] == s[end - 1]);
        if style.separates(s[end - 1]) {
            if end > style.drive_len(s) + 1 {
                lemma_folder_end_of_prefix(style, s, r, end - 1);
            }
        } else {
            lemma_name_start(style, s, end);
            lemma_name_start_of_prefix(style, s, r, end);
            let start = name_start(style, s, end);
            assert(r[start] == s[start]);
            if is_dot(s, start, end) && style.drive_len(s) < start {
                lemma_folder_end_of_prefix(style, s, r, start);
            }
        }
    }
}

/// A path that was given an extension has it, and stays in its folder.
pub proof fn extension_reads_back(style: PathStyle, s: Seq<char>, extension: Seq<char>)
    requires
        name_range(style, s, s.len() as int) is Some,
        forall|i: int| 0 <= i < extension.len() ==> !style.separates(extension[i])
                && extension[i] != '.',
        extension.len() > 0,
    ensures
        extension_of(style, set_extension(style, s, extension)) == Some(extension),
        parent_of(style, set_extension(style, s, extension)) == parent_of(style, s),
{
    let (start, end) = name_range(style, s, s.len() as int)->0;
    lemma_name_range(style, s, s.len() as int);
    let name = s.subrange(start, end);
    crate::text::lemma_last_position(name, '.');
    let stem = stem_of(style, s)->0;
    assert(0 < stem.len() <= name.len());
    let r = set_extension(style, s, extension);
    let n = start + stem.len();
    assert(r.take(n) =~= s.take(n));
    assert(r.len() == n + 1 + extension.len());
    assert(forall|i: int| start <= i < r.len() ==> !style.separates(
        #[trigger] r[i],
    )) by {
        assert forall|i: int| start <= i < r.len() implies !style.separates(
            #[trigger] r[i],
        ) by {
            if i < n {
                assert(r[i] == s[i]);
            }
        }
    }
    lemma_name_start_at(style, s, end);
    lemma_start_is_separated(style, s, s.len() as int);
    assert(style.drive_len(r) == style.drive_len(s)) by {
        if s.len() >= 1 && n >= 2 {
            assert(r[0] == s[0] && r[1] == s[1]);
        }
    }
    assert(start == style.drive_len(r) || style.separates(r[start - 1])) by {
        if start > style.drive_len(s) {
            assert(style.separates(s[start - 1]));
            assert(r.take(n)[start - 1] == s.take(n)[start - 1]);
        }
    }
    lemma_name_start_of(style, r, r.len() as int, start);
    let new_name = r.subrange(start, r.len() as int);
    assert(!is_dot(r, start, r.len() as int));
    assert(r[r.len() - 1] == extension.last());
    assert(!is_dot_dot(r, start, r.len() as int));
    assert(file_name(style, r) == Some(new_name));
    assert(new_name[stem.len() as int] == '.');
    assert(forall|i: int| stem.len() < i < new_name.len() ==> #[trigger] new_name[i] != '.');
    crate::text::lemma_last_position_is(new_name, '.', stem.len() as int);
    assert(new_name.skip(stem.len() as int + 1) =~= extension);
    assert forall|i: int| 0 <= i < start implies #[trigger] r[i] == s[i] by {
        assert(r.take(n)[i] == s.take(n)[i]);
    }
    lemma_folder_end_of_prefix(style, s, r, start);
    lemma_folder_end(style, s, start);
    assert(parent_of(style, r) =~= parent_of(style, s));
}

proof fn lemma_name_start_of(style: PathStyle, s: Seq<char>, end: int, start: int)
    requires
        style.drive_len(s) <= start <= end <= s.len(),
        start == style.drive_len(s) || style.separates(s[start - 1]),
        forall|i: int| start <= i < end ==> !style.separates(s[i]),
    ensures
        name_start(style, s, end) == start,
    decreases end,
{
    if end > start {
        lemma_name_start_of(style, s, end - 1, start);
    }
}

proof fn lemma_name_start_at(style: PathStyle, s: Seq<char>, end: int)
    requires
        style.drive_len(s) <= end <= s.len(),
    ensures
        name_start(style, s, end) > style.drive_len(s) ==> style.separates(
            s[name_start(style, s, end) - 1],
        ),
    decreases end,
{
    if end > style.drive_len(s) && !style.separates(s[end - 1]) {
        lemma_name_start_at(style, s, end - 1);
    }
}

proof fn lemma_start_is_separated(style: PathStyle, s: Seq<char>, end: int)
    requires
        0 <= end <= s.len(),
    ensures
        name_range(style, s, end) matches Some((from, _)) ==> from == style.drive_len(s)
            || style.separates(s[from - 1]),
    decreases end,
{
    if end > style.drive_len(s) {
        if style.separates(s[end - 1]) {
            lemma_start_is_separated(style, s, end - 1);
        } else {
            lemma_name_start(style, s, end);
            lemma_name_start_at(style, s, end);
            let start = name_start(style, s, end);
            if is_dot(s, start, end) && style.drive_len(s) < start && start < end {
                lemma_start_is_separated(style, s, start);
            }
        }
    }
}

} // verus!
