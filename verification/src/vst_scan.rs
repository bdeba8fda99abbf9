//! Looking for plugins: which folders are walked, what is found in each, and the report.

use vstd::prelude::*;

use crate::paths::{canonical_chars, extension_chars, same_path, PathStyle};
use crate::sorting::{sort_keyed, Keyed};
use crate::text::{
    ascii_lower_chars, chars_equal, chars_of, owned, push_decimal, push_text, string_of, text_equal,
    trim_chars,
};

verus! {

/// A plugin of the third format, as far as the catalog needs it.
#[derive(Debug, Clone)]
pub struct Vst3PluginInfo {
    pub path: String,
    pub name: String,
    pub unique_id: String,
}

/// A plugin of the second format.
#[derive(Debug, Clone)]
pub struct Vst2PluginInfo {
    pub path: String,
    pub name: String,
    pub vendor: String,
    pub unique_id: i32,
    pub inputs: i32,
    pub outputs: i32,
}

/// What a path comes to when it is held against another: its parts count, not how they are spelled.
/// Plugins are looked for on Windows, so it is read as a path of Windows.
pub open spec fn path_key(path: Seq<char>) -> Seq<char> {
    crate::paths::canonical(PathStyle::Windows, path)
}

fn paths_agree(a: &str, b: &str) -> (r: bool)
    ensures
        r == (path_key(a@) == path_key(b@)),
{
    same_path(PathStyle::Windows, &chars_of(a), &chars_of(b))
}

impl Vst2PluginInfo {
    /// What makes the plugin the same as another: its path, in one spelling, and unique id.
    pub fn dedup_key(&self) -> (k: (String, i32))
        ensures
            k.0@ == path_key(self.path@),
            k.1 == self.unique_id,
    {
        let path = canonical_chars(PathStyle::Windows, &chars_of(self.path.as_str()));
        (string_of(&path), self.unique_id)
    }
}

/// The entry of a plugin that describes itself by the given values. One with neither a name nor
/// an id is no plugin; one with a blank name is called `(unnamed VST2)`.
pub fn vst2_info(
    path: String,
    name: String,
    vendor: String,
    unique_id: i32,
    inputs: i32,
    outputs: i32,
) -> (r: std::result::Result<Vst2PluginInfo, String>)
    ensures
        r is Err <==> name@.len() == 0 && unique_id == 0,
        r matches Err(text) ==> text@
            == "plugin returned empty Info (probably not a VST2 plugin)"@,
        r matches Ok(info) ==> {
            &&& info.path == path
            &&& info.vendor == vendor
            &&& info.unique_id == unique_id
            &&& info.inputs == inputs
            &&& info.outputs == outputs
            &&& info.name@ == if crate::text::trim_seq(name@).len() == 0 {
                "(unnamed VST2)"@
            } else {
                name@
            }
        },
{
    if name.as_str().unicode_len() == 0 && unique_id == 0 {
        return Err(owned("plugin returned empty Info (probably not a VST2 plugin)"));
    }
    let trimmed = trim_chars(&chars_of(name.as_str()));
    let name = if trimmed.len() == 0 {
        owned("(unnamed VST2)")
    } else {
        name
    };
    Ok(Vst2PluginInfo { path, name, vendor, unique_id, inputs, outputs })
}

/// What makes one plugin the same as another.
pub enum PluginKey {
    Named(Seq<char>, Seq<char>),
    Numbered(Seq<char>, i32),
}

/// Something that is listed once.
pub trait Deduped: Sized {
    /// What makes it the same as another.
    spec fn key(self) -> PluginKey;

    /// Whether it is the same as another.
    fn same_key(&self, other: &Self) -> (r: bool)
        ensures
            r == (self.key() == other.key()),
    ;
}

impl Deduped for Vst3PluginInfo {
    open spec fn key(self) -> PluginKey {
        PluginKey::Named(path_key(self.path@), self.unique_id@)
    }

    fn same_key(&self, other: &Self) -> (r: bool) {
        paths_agree(self.path.as_str(), other.path.as_str()) && text_equal(
            self.unique_id.as_str(),
            other.unique_id.as_str(),
        )
    }
}

impl Deduped for Vst2PluginInfo {
    open spec fn key(self) -> PluginKey {
        PluginKey::Numbered(path_key(self.path@), self.unique_id)
    }

    fn same_key(&self, other: &Self) -> (r: bool) {
        paths_agree(self.path.as_str(), other.path.as_str()) && self.unique_id == other.unique_id
    }
}

/// One of `known` has this key.
pub open spec fn has_key<T: Deduped>(known: Seq<T>, key: PluginKey) -> bool {
    exists|i: int| 0 <= i < known.len() && (#[trigger] known[i]).key() == key
}

/// `known` with what is new in `batch`, in order.
pub open spec fn merged<T: Deduped>(known: Seq<T>, batch: Seq<T>) -> Seq<T>
    decreases batch.len(),
{
    if batch.len() == 0 {
        known
    } else {
        let before = merged(known, batch.drop_last());
        if has_key(before, batch.last().key()) {
            before
        } else {
            before.push(batch.last())
        }
    }
}

/// No two have the same key.
pub open spec fn keys_distinct<T: Deduped>(known: Seq<T>) -> bool {
    forall|i: int, j: int|
        0 <= i < j < known.len() ==> (#[trigger] known[i]).key() != (#[trigger] known[j]).key()
}

/// Nothing is listed twice, nothing that was listed is lost, and everything found is listed.
pub proof fn merging_lists_each_plugin_once<T: Deduped>(known: Seq<T>, batch: Seq<T>)
    requires
        keys_distinct(known),
    ensures
        keys_distinct(merged(known, batch)),
        known.len() <= merged(known, batch).len() <= known.len() + batch.len(),
        known =~= merged(known, batch).take(known.len() as int),
        forall|i: int|
            0 <= i < batch.len() ==> has_key(merged(known, batch), (#[trigger] batch[i]).key()),
    decreases batch.len(),
{
    if batch.len() > 0 {
        let shorter = batch.drop_last();
        merging_lists_each_plugin_once(known, shorter);
        let before = merged(known, shorter);
        let after = merged(known, batch);
        assert forall|i: int| 0 <= i < batch.len() implies has_key(
            after,
            (#[trigger] batch[i]).key(),
        ) by {
            if i < shorter.len() {
                assert(has_key(before, shorter[i].key()));
                let at = choose|k: int|
                    0 <= k < before.len() && (#[trigger] before[k]).key() == shorter[i].key();
                assert(after[at] == before[at]);
            } else if !has_key(before, batch.last().key()) {
                assert(after[before.len() as int] == batch.last());
            }
        }
        if !has_key(before, batch.last().key()) {
            assert forall|i: int, j: int| 0 <= i < j < after.len() implies (
            #[trigger] after[i]).key() != (#[trigger] after[j]).key() by {
                assert(after[i] == before[i]);
                if j < before.len() {
                    assert(after[j] == before[j]);
                }
            }
        }
    }
}

/// Whether one of `known` is the same as `x`.
fn is_known<T: Deduped>(known: &Vec<T>, x: &T) -> (r: bool)
    ensures
        r == has_key(known@, x.key()),
{
    let mut i: usize = 0;
    while i < known.len()
        invariant
            i <= known@.len(),
            forall|k: int| 0 <= k < i ==> (#[trigger] known@[k]).key() != x.key(),
        decreases known@.len() - i,
    {
        if known[i].same_key(x) {
            assert(known@[i as int].key() == x.key());
            return true;
        }
        i = i + 1;
    }
    false
}

/// Adds what is new in `batch` to `known` and tells how many that are.
pub fn merge_new<T: Deduped>(known: &mut Vec<T>, batch: Vec<T>) -> (added: usize)
    ensures
        final(known)@ == merged(old(known)@, batch@),
        added == final(known)@.len() - old(known)@.len(),
{
    let ghost start = known@;
    let ghost all = batch@;
    let before: usize = known.len();
    for x in it: batch
        invariant
            it.seq() == all,
            start == old(known)@,
            before == start.len(),
            before <= known@.len(),
            known@ == merged(start, all.take(it.index() as int)),
    {
        let ghost i = it.index() as int;
        proof {
            assert(all.take(i + 1).drop_last() =~= all.take(i));
            assert(all.take(i + 1).last() == x);
        }
        if !is_known(known, &x) {
            known.push(x);
        }
    }
    assert(all.take(all.len() as int) =~= all);
    known.len() - before
}

/// An entry of a folder.
#[derive(Debug, Clone)]
pub struct FolderEntry {
    pub path: String,
    pub is_dir: bool,
    pub is_file: bool,
}

/// The entry's extension is `wanted`, whatever its case. Plugins are looked for on Windows, so the
/// path is read as one of Windows.
pub open spec fn has_extension(path: Seq<char>, wanted: Seq<char>) -> bool {
    match crate::paths::extension_of(PathStyle::Windows, path) {
        Some(e) => crate::text::ascii_lower_seq(e) == wanted,
        None => false,
    }
}

fn extension_is(path: &str, wanted: &str) -> (r: bool)
    ensures
        r == has_extension(path@, wanted@),
{
    match extension_chars(PathStyle::Windows, &chars_of(path)) {
        Some(e) => chars_equal(&ascii_lower_chars(&e), &chars_of(wanted)),
        None => false,
    }
}

/// Folders deeper than this below a search root are not looked at.
pub const SCAN_MAX_DEPTH: usize = 8;

/// The walk through the folders below a search root, deepest found first.
#[derive(Debug)]
pub struct ScanWalk {
    /// The folders that are still to be visited, the next one last, with their depth.
    pub stack: Vec<(String, usize)>,
}

/// A folder that is visited.
#[derive(Debug)]
pub struct ScanVisit {
    pub dir: String,
    pub depth: usize,
    /// Whether its subfolders are to be visited too.
    pub descend: bool,
}

/// The entry is a folder to be visited: not a plugin bundle.
pub open spec fn is_scan_dir(e: FolderEntry) -> bool {
    e.is_dir && !has_extension(e.path@, "vst3"@)
}

/// The folders to be visited among the entries, with their depth.
pub open spec fn scan_dirs(entries: Seq<FolderEntry>, depth: usize) -> Seq<(String, usize)>
    decreases entries.len(),
{
    if entries.len() == 0 {
        Seq::empty()
    } else {
        let before = scan_dirs(entries.drop_last(), depth);
        if is_scan_dir(entries.last()) {
            before.push((entries.last().path, depth))
        } else {
            before
        }
    }
}

impl ScanWalk {
    /// No folder to be visited lies too deep.
    pub open spec fn in_reach(self) -> bool {
        forall|i: int| 0 <= i < self.stack@.len() ==> (#[trigger] self.stack@[i]).1 <= SCAN_MAX_DEPTH
    }

    /// The walk that starts at `root`; there is nothing to walk where that is no folder.
    pub fn new(root: String, is_dir: bool) -> (w: Self)
        ensures
            w.in_reach(),
            w.stack@ == if is_dir {
                seq![(root, 0usize)]
            } else {
                Seq::empty()
            },
    {
        let mut stack: Vec<(String, usize)> = Vec::new();
        if is_dir {
            stack.push((root, 0));
        }
        ScanWalk { stack }
    }

    /// The next folder to visit.
    pub fn next(&mut self) -> (v: Option<ScanVisit>)
        ensures
            v is None <==> old(self).stack@.len() == 0,
            v is None ==> final(self).stack@ == old(self).stack@,
            v matches Some(visit) ==> {
                &&& final(self).stack@ == old(self).stack@.drop_last()
                &&& visit.dir == old(self).stack@.last().0
                &&& visit.depth == old(self).stack@.last().1
                &&& visit.descend == (visit.depth < SCAN_MAX_DEPTH)
            },
            old(self).in_reach() ==> final(self).in_reach(),
    {
        match self.stack.pop() {
            None => None,
            Some((dir, depth)) => Some(ScanVisit { dir, depth, descend: depth < SCAN_MAX_DEPTH }),
        }
    }

    /// Takes in the entries of a folder whose subfolders are to be visited.
    pub fn descend(&mut self, depth: usize, entries: Vec<FolderEntry>)
        requires
            depth < SCAN_MAX_DEPTH,
        ensures
            final(self).stack@ == old(self).stack@ + scan_dirs(entries@, (depth + 1) as usize),
            old(self).in_reach() ==> final(self).in_reach(),
    {
        let ghost start = self.stack@;
        let ghost all = entries@;
        let below: usize = depth + 1;
        assert(self.stack@ =~= start + scan_dirs(all.take(0), below));
        for e in it: entries
            invariant
                it.seq() == all,
                start == old(self).stack@,
                below <= SCAN_MAX_DEPTH,
                self.stack@ == start + scan_dirs(all.take(it.index() as int), below),
                old(self).in_reach() ==> self.in_reach(),
        {
            let ghost i = it.index() as int;
            let ghost held = *self;
            proof {
                assert(all.take(i + 1).drop_last() =~= all.take(i));
                assert(all.take(i + 1).last() == e);
            }
            if e.is_dir && !extension_is(e.path.as_str(), "vst3") {
                self.stack.push((e.path, below));
                proof {
                    assert(self.stack@ =~= start + scan_dirs(all.take(i + 1), below));
                    if old(self).in_reach() {
                        assert forall|k: int| 0 <= k < self.stack@.len() implies (
                        #[trigger] self.stack@[k]).1 <= SCAN_MAX_DEPTH by {
                            if k < held.stack@.len() {
                                assert(self.stack@[k] == held.stack@[k]);
                            }
                        }
                    }
                }
            }
        }
        assert(all.take(all.len() as int) =~= all);
    }
}

/// Counts of plugin-shaped files directly in a folder.
#[derive(Debug, Clone, Copy, PartialEq, Eq, Structural)]
pub struct DirCounts {
    pub vst3_entries: usize,
    pub dll_entries: usize,
}

impl Default for DirCounts {
    fn default() -> (c: Self)
        ensures
            c == (DirCounts { vst3_entries: 0, dll_entries: 0 }),
    {
        DirCounts { vst3_entries: 0, dll_entries: 0 }
    }
}

/// How many of the entries have the given extension.
pub open spec fn count_of(entries: Seq<FolderEntry>, wanted: Seq<char>) -> nat
    decreases entries.len(),
{
    if entries.len() == 0 {
        0
    } else {
        count_of(entries.drop_last(), wanted) + if has_extension(entries.last().path@, wanted) {
            1nat
        } else {
            0
        }
    }
}

/// Counts the plugin-shaped files among a folder's entries.
pub fn count_entries(entries: &Vec<FolderEntry>) -> (c: DirCounts)
    ensures
        c.vst3_entries == count_of(entries@, "vst3"@),
        c.dll_entries == count_of(entries@, "dll"@),
{
    let mut c = DirCounts::default();
    let mut i: usize = 0;
    while i < entries.len()
        invariant
            i <= entries@.len(),
            c.vst3_entries == count_of(entries@.take(i as int), "vst3"@),
            c.dll_entries == count_of(entries@.take(i as int), "dll"@),
            c.vst3_entries <= i,
            c.dll_entries <= i,
        decreases entries@.len() - i,
    {
        proof {
            assert(entries@.take(i + 1).drop_last() =~= entries@.take(i as int));
            assert(entries@.take(i + 1).last() == entries@[i as int]);
        }
        if extension_is(entries[i].path.as_str(), "vst3") {
            c.vst3_entries = c.vst3_entries + 1;
        }
        if extension_is(entries[i].path.as_str(), "dll") {
            c.dll_entries = c.dll_entries + 1;
        }
        i = i + 1;
    }
    assert(entries@.take(i as int) =~= entries@);
    c
}

/// Whether the entry may be a plugin of the second format.
pub fn is_vst2_candidate(e: &FolderEntry) -> (r: bool)
    ensures
        r == (e.is_file && has_extension(e.path@, "dll"@)),
{
    e.is_file && extension_is(e.path.as_str(), "dll")
}

/// What was found in one folder.
#[derive(Debug, Clone)]
pub struct DirReport {
    pub dir: String,
    pub counts: DirCounts,
    pub vst3_found: usize,
    pub vst2_found: usize,
    pub error: Option<String>,
    /// The files that were taken for plugins and are none, with the reason.
    pub vst2_failures: Vec<(String, String)>,
}

/// What was found in all folders.
#[derive(Debug)]
pub struct ScanReport {
    pub vst3_plugins: Vec<Vst3PluginInfo>,
    pub vst2_plugins: Vec<Vst2PluginInfo>,
    pub directories: Vec<DirReport>,
}

/// How many folders hold plugin-shaped files.
pub open spec fn with_content(dirs: Seq<DirReport>) -> nat
    decreases dirs.len(),
{
    if dirs.len() == 0 {
        0
    } else {
        let c = dirs.last().counts;
        with_content(dirs.drop_last()) + if c.vst3_entries + c.dll_entries > 0 {
            1nat
        } else {
            0
        }
    }
}

/// How many folders could not be scanned.
pub open spec fn with_errors(dirs: Seq<DirReport>) -> nat
    decreases dirs.len(),
{
    if dirs.len() == 0 {
        0
    } else {
        with_errors(dirs.drop_last()) + if dirs.last().error is Some {
            1nat
        } else {
            0
        }
    }
}

/// How many files were taken for plugins and are none.
pub open spec fn all_failures(dirs: Seq<DirReport>) -> nat
    decreases dirs.len(),
{
    if dirs.len() == 0 {
        0
    } else {
        all_failures(dirs.drop_last()) + dirs.last().vst2_failures@.len()
    }
}

proof fn lemma_failures_grow(dirs: Seq<DirReport>, i: int)
    requires
        0 <= i <= dirs.len(),
    ensures
        all_failures(dirs.take(i)) <= all_failures(dirs),
    decreases dirs.len(),
{
    if i == dirs.len() {
        assert(dirs.take(i) =~= dirs);
    } else {
        assert(dirs.drop_last().take(i) =~= dirs.take(i));
        lemma_failures_grow(dirs.drop_last(), i);
    }
}

/// The lines of the report on one folder.
pub open spec fn dir_lines(d: DirReport) -> Seq<Seq<char>> {
    seq![dir_line(d)] + Seq::new(
        d.vst2_failures@.len(),
        |i: int| failure_line(d.vst2_failures@[i]),
    )
}

/// The line on a folder.
pub open spec fn dir_line(d: DirReport) -> Seq<char> {
    d.dir@ + "  [vst3="@ + crate::text::decimal(d.counts.vst3_entries as nat) + ", dll="@
        + crate::text::decimal(d.counts.dll_entries as nat) + ", vst3_found="@
        + crate::text::decimal(d.vst3_found as nat) + ", vst2_found="@ + crate::text::decimal(
        d.vst2_found as nat,
    ) + "]"@ + match d.error {
        Some(e) => "  ERROR: "@ + e@,
        None => Seq::empty(),
    }
}

/// The line on a file that was taken for a plugin and is none.
pub open spec fn failure_line(f: (String, String)) -> Seq<char> {
    "    .dll skipped: "@ + f.0@ + " ("@ + f.1@ + ")"@
}

/// The lines of the report on all folders.
pub open spec fn report_lines(dirs: Seq<DirReport>) -> Seq<Seq<char>>
    decreases dirs.len(),
{
    if dirs.len() == 0 {
        Seq::empty()
    } else {
        report_lines(dirs.drop_last()) + dir_lines(dirs.last())
    }
}

/// The lines with a line break between each two.
pub open spec fn joined_lines(lines: Seq<Seq<char>>) -> Seq<char>
    decreases lines.len(),
{
    if lines.len() == 0 {
        Seq::empty()
    } else if lines.len() == 1 {
        lines[0]
    } else {
        joined_lines(lines.drop_last()) + "\n"@ + lines.last()
    }
}

/// The summary of a report.
pub open spec fn summary_text(r: ScanReport) -> Seq<char> {
    let dirs = r.directories@;
    "Scanned "@ + crate::text::decimal(dirs.len()) + " folder(s) ("@ + crate::text::decimal(
        with_content(dirs),
    ) + " with audio binaries). Found "@ + crate::text::decimal(r.vst3_plugins@.len())
        + " VST3 + "@ + crate::text::decimal(r.vst2_plugins@.len()) + " VST2 = "@
        + crate::text::decimal(r.vst3_plugins@.len() + r.vst2_plugins@.len()) + " plugin(s)."@ + (
    if all_failures(dirs) > 0 {
        " "@ + crate::text::decimal(all_failures(dirs))
            + " .dll(s) skipped (non-VST or load failed; see details)."@
    } else {
        Seq::empty()
    }) + (if with_errors(dirs) > 0 {
        " "@ + crate::text::decimal(with_errors(dirs)) + " folder(s) failed; see details."@
    } else {
        Seq::empty()
    })
}

/// Adds a line to the lines that `out` joins, of which there are `count`.
fn push_line(out: &mut String, count: u64, line: &str, Ghost(lines): Ghost<Seq<Seq<char>>>)
    requires
        old(out)@ == joined_lines(lines),
        count > 0 <==> lines.len() > 0,
    ensures
        final(out)@ == joined_lines(lines.push(line@)),
{
    let ghost before = out@;
    if count > 0 {
        push_text(out, "\n");
    }
    push_text(out, line);
    proof {
        assert(lines.push(line@).drop_last() =~= lines);
        if lines.len() > 0 {
            assert(out@ =~= before + "\n"@ + line@);
        } else {
            assert(out@ =~= line@);
        }
    }
}

fn dir_line_text(d: &DirReport) -> (s: String)
    ensures
        s@ == dir_line(*d),
{
    let mut s = String::new();
    push_text(&mut s, d.dir.as_str());
    push_text(&mut s, "  [vst3=");
    push_decimal(&mut s, d.counts.vst3_entries as u64);
    push_text(&mut s, ", dll=");
    push_decimal(&mut s, d.counts.dll_entries as u64);
    push_text(&mut s, ", vst3_found=");
    push_decimal(&mut s, d.vst3_found as u64);
    push_text(&mut s, ", vst2_found=");
    push_decimal(&mut s, d.vst2_found as u64);
    push_text(&mut s, "]");
    match &d.error {
        Some(e) => {
            push_text(&mut s, "  ERROR: ");
            push_text(&mut s, e.as_str());
        },
        None => {},
    }
    assert(s@ =~= dir_line(*d));
    s
}

fn failure_line_text(f: &(String, String)) -> (s: String)
    ensures
        s@ == failure_line(*f),
{
    let mut s = String::new();
    push_text(&mut s, "    .dll skipped: ");
    push_text(&mut s, f.0.as_str());
    push_text(&mut s, " (");
    push_text(&mut s, f.1.as_str());
    push_text(&mut s, ")");
    assert(s@ =~= failure_line(*f));
    s
}

impl ScanReport {
    /// The number of plugins of both formats.
    pub fn total_plugins(&self) -> (n: usize)
        requires
            self.vst3_plugins@.len() + self.vst2_plugins@.len() <= usize::MAX,
        ensures
            n == self.vst3_plugins@.len() + self.vst2_plugins@.len(),
    {
        self.vst3_plugins.len() + self.vst2_plugins.len()
    }

    /// One sentence on what was found.
    pub fn summary(&self) -> (s: String)
        requires
            self.vst3_plugins@.len() + self.vst2_plugins@.len() <= usize::MAX,
            all_failures(self.directories@) <= u64::MAX,
        ensures
            s@ == summary_text(*self),
    {
        let ghost dirs = self.directories@;
        let mut content: u64 = 0;
        let mut errors: u64 = 0;
        let mut failures: u64 = 0;
        let mut i: usize = 0;
        while i < self.directories.len()
            invariant
                i <= dirs.len(),
                dirs == self.directories@,
                all_failures(dirs) <= u64::MAX,
                content == with_content(dirs.take(i as int)),
                errors == with_errors(dirs.take(i as int)),
                failures == all_failures(dirs.take(i as int)),
                content <= i,
                errors <= i,
            decreases dirs.len() - i,
        {
            let d = &self.directories[i];
            proof {
                assert(dirs.take(i + 1).drop_last() =~= dirs.take(i as int));
                assert(dirs.take(i + 1).last() == dirs[i as int]);
                lemma_failures_grow(dirs, i + 1);
            }
            if d.counts.vst3_entries > 0 || d.counts.dll_entries > 0 {
                content = content + 1;
            }
            if d.error.is_some() {
                errors = errors + 1;
            }
            failures = failures + d.vst2_failures.len() as u64;
            i = i + 1;
        }
        assert(dirs.take(i as int) =~= dirs);
        let mut s = String::new();
        push_text(&mut s, "Scanned ");
        push_decimal(&mut s, self.directories.len() as u64);
        push_text(&mut s, " folder(s) (");
        push_decimal(&mut s, content);
        push_text(&mut s, " with audio binaries). Found ");
        push_decimal(&mut s, self.vst3_plugins.len() as u64);
        push_text(&mut s, " VST3 + ");
        push_decimal(&mut s, self.vst2_plugins.len() as u64);
        push_text(&mut s, " VST2 = ");
        push_decimal(&mut s, self.total_plugins() as u64);
        push_text(&mut s, " plugin(s).");
        if failures > 0 {
            push_text(&mut s, " ");
            push_decimal(&mut s, failures);
            push_text(&mut s, " .dll(s) skipped (non-VST or load failed; see details).");
        }
        if errors > 0 {
            push_text(&mut s, " ");
            push_decimal(&mut s, errors);
            push_text(&mut s, " folder(s) failed; see details.");
        }
        assert(s@ =~= summary_text(*self));
        s
    }

    /// The report on each folder, line by line.
    pub fn details(&self) -> (s: String)
        ensures
            s@ == joined_lines(report_lines(self.directories@)),
    {
        let ghost dirs = self.directories@;
        let ghost mut lines: Seq<Seq<char>> = Seq::empty();
        let mut s = String::new();
        let mut started: u64 = 0;
        let mut i: usize = 0;
        assert(s@ =~= joined_lines(lines));
        while i < self.directories.len()
            invariant
                i <= dirs.len(),
                dirs == self.directories@,
                lines == report_lines(dirs.take(i as int)),
                s@ == joined_lines(lines),
                started > 0 <==> lines.len() > 0,
            decreases dirs.len() - i,
        {
            let d = &self.directories[i];
            proof {
                assert(dirs.take(i + 1).drop_last() =~= dirs.take(i as int));
                assert(dirs.take(i + 1).last() == dirs[i as int]);
            }
            let ghost before = lines;
            let head = dir_line_text(d);
            push_line(&mut s, started, head.as_str(), Ghost(lines));
            started = 1;
            proof {
                lines = lines.push(dir_line(*d));
                assert(lines =~= before + dir_lines(*d).take(1));
            }
            let mut k: usize = 0;
            while k < d.vst2_failures.len()
                invariant
                    k <= d.vst2_failures@.len(),
                    started == 1,
                    lines == before + dir_lines(*d).take(k + 1),
                    s@ == joined_lines(lines),
                decreases d.vst2_failures@.len() - k,
            {
                let line = failure_line_text(&d.vst2_failures[k]);
                push_line(&mut s, started, line.as_str(), Ghost(lines));
                proof {
                    lines = lines.push(failure_line(d.vst2_failures@[k as int]));
                    assert(lines =~= before + dir_lines(*d).take(k + 2));
                }
                k = k + 1;
            }
            assert(dir_lines(*d).take(k + 1) =~= dir_lines(*d));
            i = i + 1;
        }
        assert(dirs.take(i as int) =~= dirs);
        s
    }
}

/// A scan in progress.
#[derive(Debug)]
pub struct Scan {
    /// The folders that were scanned, by their canonical paths.
    pub visited: Vec<String>,
    pub report: ScanReport,
}

/// One of the folders has this canonical path.
pub open spec fn was_visited(visited: Seq<String>, canon: Seq<char>) -> bool {
    exists|i: int|
        0 <= i < visited.len() && path_key((#[trigger] visited[i])@) == path_key(canon)
}

impl Scan {
    /// No plugin is listed twice, and no folder was scanned twice.
    pub open spec fn well_formed(self) -> bool {
        &&& keys_distinct(self.report.vst3_plugins@)
        &&& keys_distinct(self.report.vst2_plugins@)
        &&& forall|i: int, j: int|
            0 <= i < j < self.visited@.len() ==> path_key((#[trigger] self.visited@[i])@)
                != path_key((#[trigger] self.visited@[j])@)
    }

    /// A scan that has not started.
    pub fn new() -> (s: Self)
        ensures
            s.well_formed(),
            s.visited@.len() == 0,
            s.report.vst3_plugins@.len() == 0,
            s.report.vst2_plugins@.len() == 0,
            s.report.directories@.len() == 0,
    {
        Scan {
            visited: Vec::new(),
            report: ScanReport {
                vst3_plugins: Vec::new(),
                vst2_plugins: Vec::new(),
                directories: Vec::new(),
            },
        }
    }

    /// Whether the folder has not been scanned yet; if so, it is marked.
    pub fn enter(&mut self, canon: String) -> (fresh: bool)
        requires
            old(self).well_formed(),
        ensures
            final(self).well_formed(),
            fresh == !was_visited(old(self).visited@, canon@),
            final(self).visited@ == if fresh {
                old(self).visited@.push(canon)
            } else {
                old(self).visited@
            },
            final(self).report == old(self).report,
    {
        let mut i: usize = 0;
        while i < self.visited.len()
            invariant
                i <= self.visited@.len(),
                *self == *old(self),
                old(self).well_formed(),
                forall|k: int|
                    0 <= k < i ==> path_key((#[trigger] self.visited@[k])@) != path_key(canon@),
            decreases self.visited@.len() - i,
        {
            if paths_agree(self.visited[i].as_str(), canon.as_str()) {
                assert(path_key(self.visited@[i as int]@) == path_key(canon@));
                return false;
            }
            i = i + 1;
        }
        self.visited.push(canon);
        true
    }

    /// Takes in what was found in a folder: the plugins that are new, what went wrong, and how
    /// many plugins the folder added.
    pub fn record(
        &mut self,
        dir: String,
        counts: DirCounts,
        vst3: std::result::Result<Vec<Vst3PluginInfo>, String>,
        vst2: Vec<Vst2PluginInfo>,
        vst2_failures: Vec<(String, String)>,
    )
        requires
            old(self).well_formed(),
        ensures
            final(self).well_formed(),
            final(self).visited == old(self).visited,
            final(self).report.vst3_plugins@ == match vst3 {
                Ok(batch) => merged(old(self).report.vst3_plugins@, batch@),
                Err(_) => old(self).report.vst3_plugins@,
            },
            final(self).report.vst2_plugins@ == merged(old(self).report.vst2_plugins@, vst2@),
            final(self).report.directories@.len() == old(self).report.directories@.len() + 1,
            final(self).report.directories@.drop_last() == old(self).report.directories@,
            ({
                let d = final(self).report.directories@.last();
                &&& d.dir == dir
                &&& d.counts == counts
                &&& d.vst3_found == final(self).report.vst3_plugins@.len()
                    - old(self).report.vst3_plugins@.len()
                &&& d.vst2_found == final(self).report.vst2_plugins@.len()
                    - old(self).report.vst2_plugins@.len()
                &&& d.vst2_failures == vst2_failures
                &&& match vst3 {
                    Ok(_) => d.error is None,
                    Err(e) => d.error is Some && d.error->0@ == "vst3 scan: "@ + e@,
                }
            }),
    {
        let mut error: Option<String> = None;
        let mut vst3_found: usize = 0;
        match vst3 {
            Ok(batch) => {
                proof {
                    merging_lists_each_plugin_once(self.report.vst3_plugins@, batch@);
                }
                vst3_found = merge_new(&mut self.report.vst3_plugins, batch);
            },
            Err(e) => {
                let mut text = String::new();
                push_text(&mut text, "vst3 scan: ");
                push_text(&mut text, e.as_str());
                assert(text@ =~= "vst3 scan: "@ + e@);
                error = Some(text);
            },
        }
        proof {
            merging_lists_each_plugin_once(self.report.vst2_plugins@, vst2@);
        }
        let vst2_found = merge_new(&mut self.report.vst2_plugins, vst2);
        let ghost before = self.report.directories@;
        self.report.directories.push(
            DirReport { dir, counts, vst3_found, vst2_found, error, vst2_failures },
        );
        assert(self.report.directories@.drop_last() =~= before);
    }
}

/// A plugin that can be picked.
#[derive(Debug, Clone)]
pub enum CatalogEntry {
    Vst3(Vst3PluginInfo),
    Vst2(Vst2PluginInfo),
}

impl CatalogEntry {
    /// The plugin's name.
    pub open spec fn name_text(self) -> Seq<char> {
        match self {
            CatalogEntry::Vst3(p) => p.name@,
            CatalogEntry::Vst2(p) => p.name@,
        }
    }

    /// The plugin's name.
    pub fn name(&self) -> (s: &str)
        ensures
            s@ == self.name_text(),
    {
        match self {
            CatalogEntry::Vst3(p) => p.name.as_str(),
            CatalogEntry::Vst2(p) => p.name.as_str(),
        }
    }

    /// The plugin's path.
    pub open spec fn path_text(self) -> Seq<char> {
        match self {
            CatalogEntry::Vst3(p) => p.path@,
            CatalogEntry::Vst2(p) => p.path@,
        }
    }

    /// The plugin's path.
    pub fn path(&self) -> (s: &str)
        ensures
            s@ == self.path_text(),
    {
        match self {
            CatalogEntry::Vst3(p) => p.path.as_str(),
            CatalogEntry::Vst2(p) => p.path.as_str(),
        }
    }

    /// The plugin's format, as shown to users.
    pub open spec fn label_text(self) -> Seq<char> {
        match self {
            CatalogEntry::Vst3(_) => "VST3"@,
            CatalogEntry::Vst2(_) => "VST2"@,
        }
    }

    /// The plugin's format, as shown to users.
    pub fn format_label(&self) -> (s: &'static str)
        ensures
            s@ == self.label_text(),
    {
        match self {
            CatalogEntry::Vst3(_) => "VST3",
            CatalogEntry::Vst2(_) => "VST2",
        }
    }

    /// Whether the plugin's own editor can be opened in a window of its own. Both formats have
    /// one.
    pub fn supports_native_editor(&self) -> (r: bool)
        ensures
            r,
    {
        true
    }

    /// The format's place among equal names: `VST2` comes before `VST3`.
    pub open spec fn format_rank(self) -> u32 {
        match self {
            CatalogEntry::Vst2(_) => 2,
            CatalogEntry::Vst3(_) => 3,
        }
    }
}

/// The sort entry of a plugin: by name, whatever its case, then by format.
pub open spec fn is_catalog_entry(k: Keyed<CatalogEntry>, e: CatalogEntry) -> bool {
    &&& k.item == e
    &&& k.key@ == crate::text::ascii_lower_seq(e.name_text())
    &&& k.minor == e.format_rank()
}

/// `entries` are the sort entries of `plugins`, in order.
pub open spec fn are_catalog_entries(
    entries: Seq<Keyed<CatalogEntry>>,
    plugins: Seq<CatalogEntry>,
) -> bool {
    &&& entries.len() == plugins.len()
    &&& forall|i: int|
        0 <= i < entries.len() ==> is_catalog_entry(#[trigger] entries[i], plugins[i])
}

/// The plugins of both formats in the order in which they are shown.
pub open spec fn all_plugins(vst3: Seq<Vst3PluginInfo>, vst2: Seq<Vst2PluginInfo>) -> Seq<
    CatalogEntry,
> {
    vst3.map_values(|p: Vst3PluginInfo| CatalogEntry::Vst3(p)) + vst2.map_values(
        |p: Vst2PluginInfo| CatalogEntry::Vst2(p),
    )
}

/// The catalog: all plugins, sorted by name, whatever its case, then by format.
pub fn build_catalog(vst3: Vec<Vst3PluginInfo>, vst2: Vec<Vst2PluginInfo>) -> (catalog: Vec<
    Keyed<CatalogEntry>,
>)
    ensures
        exists|entries: Seq<Keyed<CatalogEntry>>| #[trigger]
            are_catalog_entries(entries, all_plugins(vst3@, vst2@)) && catalog@
                == crate::sorting::sorted_seq(entries),
{
    let ghost first = vst3@;
    let ghost second = vst2@;
    let ghost all = all_plugins(first, second);
    let mut entries: Vec<Keyed<CatalogEntry>> = Vec::new();
    for p in it: vst3
        invariant
            it.seq() == first,
            all == all_plugins(first, second),
            are_catalog_entries(entries@, all.take(it.index() as int)),
    {
        let e = CatalogEntry::Vst3(p);
        let key = ascii_lower_chars(&chars_of(e.name()));
        assert(all[it.index() as int] == e);
        entries.push(Keyed { key, minor: 3, item: e });
    }
    for p in it: vst2
        invariant
            it.seq() == second,
            all == all_plugins(first, second),
            are_catalog_entries(entries@, all.take(first.len() + it.index() as int)),
    {
        let e = CatalogEntry::Vst2(p);
        let key = ascii_lower_chars(&chars_of(e.name()));
        assert(all[first.len() + it.index() as int] == e);
        entries.push(Keyed { key, minor: 2, item: e });
    }
    assert(all.take(all.len() as int) =~= all);
    let ghost kept = entries@;
    assert(are_catalog_entries(kept, all));
    sort_keyed(entries)
}

/// The search roots on Windows, from the environment: each variable's folders, in order.
pub fn windows_search_roots(
    program_files: Option<&str>,
    program_files_x86: Option<&str>,
    common_files: Option<&str>,
    local_app_data: Option<&str>,
) -> (roots: Vec<String>)
    ensures
        roots@.len() == roots_below(program_files, 4) + roots_below(program_files_x86, 4)
            + roots_below(common_files, 1) + roots_below(local_app_data, 1),
        ({
            let a = roots_below(program_files, 4);
            let b = a + roots_below(program_files_x86, 4);
            let c = b + roots_below(common_files, 1);
            &&& program_files matches Some(p) ==> {
                &&& roots@[0]@ == below_text(true, p@, "Common Files\\VST3"@)
                &&& roots@[1]@ == below_text(true, p@, "Steinberg\\VstPlugins"@)
                &&& roots@[2]@ == below_text(true, p@, "VSTPlugins"@)
                &&& roots@[3]@ == below_text(true, p@, "REAPER (x64)\\Plugins"@)
            }
            &&& program_files_x86 matches Some(p) ==> {
                &&& roots@[a]@ == below_text(true, p@, "Common Files\\VST3"@)
                &&& roots@[a + 1]@ == below_text(true, p@, "Steinberg\\VstPlugins"@)
                &&& roots@[a + 2]@ == below_text(true, p@, "VSTPlugins"@)
                &&& roots@[a + 3]@ == below_text(true, p@, "REAPER\\Plugins"@)
            }
            &&& common_files matches Some(p) ==> roots@[b]@ == below_text(true, p@, "VST3"@)
            &&& local_app_data matches Some(p) ==> roots@[c]@ == below_text(true, p@, "Programs\\Common\\VST3"@)
        }),
{
    let mut roots: Vec<String> = Vec::new();
    match program_files {
        Some(p) => {
            roots.push(below(true, p, "Common Files\\VST3"));
            roots.push(below(true, p, "Steinberg\\VstPlugins"));
            roots.push(below(true, p, "VSTPlugins"));
            roots.push(below(true, p, "REAPER (x64)\\Plugins"));
        },
        None => {},
    }
    match program_files_x86 {
        Some(p) => {
            roots.push(below(true, p, "Common Files\\VST3"));
            roots.push(below(true, p, "Steinberg\\VstPlugins"));
            roots.push(below(true, p, "VSTPlugins"));
            roots.push(below(true, p, "REAPER\\Plugins"));
        },
        None => {},
    }
    match common_files {
        Some(p) => {
            roots.push(below(true, p, "VST3"));
        },
        None => {},
    }
    match local_app_data {
        Some(p) => {
            roots.push(below(true, p, "Programs\\Common\\VST3"));
        },
        None => {},
    }
    roots
}

/// How many roots a variable of the environment gives.
pub open spec fn roots_below(value: Option<&str>, count: int) -> int {
    if value is Some {
        count
    } else {
        0
    }
}

/// No separator goes between the folder and what lies below it: the folder is empty, ends with a
/// separator or, on Windows, is nothing but a drive.
pub open spec fn is_open_folder(windows: bool, folder: Seq<char>) -> bool {
    ||| folder.len() == 0
    ||| folder.last() == '/'
    ||| windows && folder.last() == '\\'
    ||| windows && folder.len() == 2 && folder[1] == ':' && ('a' <= folder[0] && folder[0] <= 'z'
        || 'A' <= folder[0] && folder[0] <= 'Z')
}

/// The path of something below a folder.
pub open spec fn below_text(windows: bool, folder: Seq<char>, rest: Seq<char>) -> Seq<char> {
    if is_open_folder(windows, folder) {
        folder + rest
    } else if windows {
        folder + "\\"@ + rest
    } else {
        folder + "/"@ + rest
    }
}

fn below(windows: bool, folder: &str, rest: &str) -> (s: String)
    ensures
        s@ == below_text(windows, folder@, rest@),
{
    let chars = chars_of(folder);
    let n: usize = chars.len();
    let open: bool = if n == 0 {
        true
    } else {
        let last: char = chars[n - 1];
        last == '/' || windows && last == '\\' || windows && n == 2 && last == ':' && ('a'
            <= chars[0] && chars[0] <= 'z' || 'A' <= chars[0] && chars[0] <= 'Z')
    };
    let mut s = String::new();
    push_text(&mut s, folder);
    if !open {
        push_text(
            &mut s,
            if windows {
                "\\"
            } else {
                "/"
            },
        );
    }
    push_text(&mut s, rest);
    assert(s@ =~= below_text(windows, folder@, rest@));
    s
}

/// The search roots on macOS: for all users, and for the user whose home folder is given.
pub fn mac_search_roots(home: Option<&str>) -> (roots: Vec<String>)
    ensures
        roots@.len() == 2 + roots_below(home, 2),
        roots@[0]@ == "/Library/Audio/Plug-Ins/VST3"@,
        roots@[1]@ == "/Library/Audio/Plug-Ins/VST"@,
        home matches Some(h) ==> {
            &&& roots@[2]@ == below_text(false, h@, "Library/Audio/Plug-Ins/VST3"@)
            &&& roots@[3]@ == below_text(false, h@, "Library/Audio/Plug-Ins/VST"@)
        },
{
    let mut roots: Vec<String> = Vec::new();
    roots.push(owned("/Library/Audio/Plug-Ins/VST3"));
    roots.push(owned("/Library/Audio/Plug-Ins/VST"));
    match home {
        Some(h) => {
            roots.push(below(false, h, "Library/Audio/Plug-Ins/VST3"));
            roots.push(below(false, h, "Library/Audio/Plug-Ins/VST"));
        },
        None => {},
    }
    roots
}

/// Folders are scanned for further folders: every entry that is a folder and is no VST3 bundle is
/// visited, at the given depth, in order, and no other.
pub proof fn every_folder_is_visited(
    entries: Seq<FolderEntry>,
    depth: usize,
    pick: spec_fn(FolderEntry) -> Option<(String, usize)>,
)
    requires
        forall|e: FolderEntry| #[trigger]
            pick(e) == if e.is_dir && !has_extension(e.path@, "vst3"@) {
                Some((e.path, depth))
            } else {
                None
            },
    ensures
        scan_dirs(entries, depth) == entries.filter_map(pick),
    decreases entries.len(),
{
    if entries.len() > 0 {
        every_folder_is_visited(entries.drop_last(), depth, pick);
    }
    assert(scan_dirs(entries, depth) =~= entries.filter_map(pick));
}

/// An entry has an extension where the path's extension is the same but for the case of its
/// letters.
pub proof fn extensions_do_not_depend_on_case(path: Seq<char>, e: Seq<char>, wanted: Seq<char>)
    requires
        crate::paths::extension_of(PathStyle::Windows, path) == Some(e),
        e.len() == wanted.len(),
        forall|i: int|
            0 <= i < e.len() ==> (#[trigger] e[i] == wanted[i] && !('A' <= e[i] <= 'Z')) || (('A'
                <= e[i] <= 'Z') && wanted[i] as int == e[i] as int + 32),
    ensures
        has_extension(path, wanted),
{
    assert forall|i: int| 0 <= i < e.len() implies crate::text::ascii_lower_seq(e)[i]
        == wanted[i] by {
        let c = e[i];
        crate::text::lower_case_moves_capitals_only(c);
        assert(crate::text::ascii_lower(c) as int == wanted[i] as int);
    }
    assert(crate::text::ascii_lower_seq(e) =~= wanted);
}

/// Counting counts every entry with the extension once: as many as there are.
pub proof fn every_entry_is_counted(
    entries: Seq<FolderEntry>,
    wanted: Seq<char>,
    pick: spec_fn(FolderEntry) -> bool,
)
    requires
        forall|e: FolderEntry| #[trigger] pick(e) == has_extension(e.path@, wanted),
    ensures
        count_of(entries, wanted) == entries.filter(pick).len(),
    decreases entries.len(),
{
    reveal(Seq::filter);
    if entries.len() > 0 {
        every_entry_is_counted(entries.drop_last(), wanted, pick);
    }
}

/// The summary counts folders: those with anything to load and those that failed; and it counts
/// every failure of every folder.
pub proof fn every_folder_is_counted(
    dirs: Seq<DirReport>,
    filled: spec_fn(DirReport) -> bool,
    failed: spec_fn(DirReport) -> bool,
)
    requires
        forall|d: DirReport| #[trigger]
            filled(d) == (d.counts.vst3_entries > 0 || d.counts.dll_entries > 0),
        forall|d: DirReport| #[trigger] failed(d) == (d.error is Some),
    ensures
        with_content(dirs) == dirs.filter(filled).len(),
        with_errors(dirs) == dirs.filter(failed).len(),
        all_failures(dirs) == crate::mixdown::total(
            Seq::new(dirs.len(), |i: int| dirs[i].vst2_failures@.len() as int),
        ),
    decreases dirs.len(),
{
    reveal(Seq::filter);
    if dirs.len() > 0 {
        let rest = dirs.drop_last();
        every_folder_is_counted(rest, filled, failed);
        assert(Seq::new(dirs.len(), |i: int| dirs[i].vst2_failures@.len() as int).drop_last()
            =~= Seq::new(rest.len(), |i: int| rest[i].vst2_failures@.len() as int));
    }
}

/// The first of several finds of a plug-in is kept: every plug-in that merging adds is one of the
/// batch, was not known, and is the first of its kind in the batch.
pub proof fn the_first_find_is_kept<T: Deduped>(known: Seq<T>, batch: Seq<T>, k: int)
    requires
        known.len() <= k < merged(known, batch).len(),
    ensures
        ({
            let x = merged(known, batch)[k];
            &&& forall|i: int| 0 <= i < known.len() ==> (#[trigger] known[i]).key() != x.key()
            &&& exists|i: int|
                0 <= i < batch.len() && #[trigger] batch[i] == x && forall|j: int|
                    0 <= j < i ==> (#[trigger] batch[j]).key() != x.key()
        }),
    decreases batch.len(),
{
    let rest = batch.drop_last();
    let before = merged(known, rest);
    lemma_merged_prefix(known, rest);
    if k < before.len() {
        the_first_find_is_kept(known, rest, k);
        let x = before[k];
        let i = choose|i: int|
            0 <= i < rest.len() && #[trigger] rest[i] == x && forall|j: int|
                0 <= j < i ==> (#[trigger] rest[j]).key() != x.key();
        assert(batch[i] == x);
        assert forall|j: int| 0 <= j < i implies (#[trigger] batch[j]).key() != x.key() by {
            assert(rest[j] == batch[j]);
        }
    } else {
        let x = batch.last();
        assert(merged(known, batch)[k] == x);
        assert(!has_key(before, x.key()));
        assert forall|i: int| 0 <= i < known.len() implies (#[trigger] known[i]).key()
            != x.key() by {
            assert(before[i] == known[i]);
        }
        let i = batch.len() - 1;
        assert(batch[i] == x);
        assert forall|j: int| 0 <= j < i implies (#[trigger] batch[j]).key() != x.key() by {
            assert(rest[j] == batch[j]);
            assert(has_key(before, rest[j].key()));
        }
    }
}

proof fn lemma_merged_prefix<T: Deduped>(known: Seq<T>, batch: Seq<T>)
    ensures
        known.len() <= merged(known, batch).len(),
        forall|i: int|
            0 <= i < known.len() ==> #[trigger] merged(known, batch)[i] == known[i],
        forall|j: int|
            0 <= j < batch.len() ==> has_key(merged(known, batch), (#[trigger] batch[j]).key()),
    decreases batch.len(),
{
    if batch.len() > 0 {
        let rest = batch.drop_last();
        let before = merged(known, rest);
        let after = merged(known, batch);
        lemma_merged_prefix(known, rest);
        assert forall|j: int| 0 <= j < batch.len() implies has_key(
            after,
            (#[trigger] batch[j]).key(),
        ) by {
            if j < rest.len() {
                assert(rest[j] == batch[j]);
                let i = choose|i: int|
                    0 <= i < before.len() && (#[trigger] before[i]).key() == batch[j].key();
                assert(after[i] == before[i]);
            } else if !has_key(before, batch[j].key()) {
                assert(after[after.len() - 1] == batch[j]);
            }
        }
    }
}

/// Two finds are one plug-in exactly where their paths lead to the same file and their numbers,
/// or names, agree.
pub proof fn one_file_and_one_number_is_one_plugin(
    a: Vst2PluginInfo,
    b: Vst2PluginInfo,
    c: Vst3PluginInfo,
    d: Vst3PluginInfo,
)
    ensures
        a.key() == b.key() <==> crate::paths::canonical(PathStyle::Windows, a.path@)
            == crate::paths::canonical(PathStyle::Windows, b.path@) && a.unique_id == b.unique_id,
        c.key() == d.key() <==> crate::paths::canonical(PathStyle::Windows, c.path@)
            == crate::paths::canonical(PathStyle::Windows, d.path@) && c.unique_id@ == d.unique_id@,
{
}

/// The catalog is in order: the plug-ins' names without regard to case, and of two with the same
/// name the VST2 one first; and it holds every plug-in found.
pub proof fn the_catalog_is_in_order(
    entries: Seq<Keyed<CatalogEntry>>,
    vst3: Seq<Vst3PluginInfo>,
    vst2: Seq<Vst2PluginInfo>,
    catalog: Seq<Keyed<CatalogEntry>>,
    i: int,
    j: int,
)
    requires
        are_catalog_entries(entries, all_plugins(vst3, vst2)),
        catalog == crate::sorting::sorted_seq(entries),
        0 <= i < j < catalog.len(),
    ensures
        catalog.len() == vst3.len() + vst2.len(),
        catalog.to_multiset() == entries.to_multiset(),
        ({
            let a = catalog[i].item;
            let b = catalog[j].item;
            let first = crate::text::ascii_lower_seq(a.name_text());
            let second = crate::text::ascii_lower_seq(b.name_text());
            &&& !crate::text::lex_less(second, first)
            &&& first == second ==> !(a is Vst3 && b is Vst2)
        }),
{
    crate::sorting::sorting_is_correct(entries);
    crate::sorting::sorting_adds_nothing(entries, i);
    crate::sorting::sorting_adds_nothing(entries, j);
    let p = choose|p: int| 0 <= p < entries.len() && entries[p] == catalog[i];
    let q = choose|q: int| 0 <= q < entries.len() && entries[q] == catalog[j];
    let plugins = all_plugins(vst3, vst2);
    assert(is_catalog_entry(entries[p], plugins[p]));
    assert(is_catalog_entry(entries[q], plugins[q]));
    assert(!crate::sorting::key_less(catalog[j].sort_key(), catalog[i].sort_key()));
}

/// A path below a folder has one separator between them: none is added where the folder ends in
/// one.
pub proof fn one_separator_joins_paths(folder: Seq<char>, rest: Seq<char>)
    requires
        folder.len() > 0,
    ensures
        folder.last() == '/' ==> below_text(false, folder, rest) == folder + rest && below_text(
            true,
            folder,
            rest,
        ) == folder + rest,
        folder.last() == '\\' ==> below_text(true, folder, rest) == folder + rest,
        folder.last() != '/' ==> below_text(false, folder, rest) == folder + seq!['/'] + rest,
        folder.last() != '/' && folder.last() != '\\' && folder.last() != ':' ==> below_text(
            true,
            folder,
            rest,
        ) == folder + seq!['\\'] + rest,
{
    reveal_strlit("/");
    reveal_strlit("\\");
    assert("/"@ =~= seq!['/']);
    assert("\\"@ =~= seq!['\\']);
}

} // verus!
