//! The plugin chain of a strip: which plugins are in it, in which order, and whose editors are
//! open.

use vstd::prelude::*;

use crate::sorting::Keyed;
use crate::text::{owned, push_text};
use crate::vst::PluginFormat;
use crate::vst_scan::{build_catalog, CatalogEntry, ScanReport};

verus! {

/// A plugin in the chain; `P` is the loaded plugin.
pub struct ChainEntry<P> {
    pub catalog: CatalogEntry,
    pub loaded: P,
    pub bypassed: bool,
    /// Whether the plugin's editor gets to hear the audio.
    pub editor_feed: bool,
}

/// The catalog and the chain. `W` is an editor's window and `T` the thread it runs on.
pub struct VstUiState<P, W, T> {
    pub catalog: Vec<CatalogEntry>,
    pub chain: Vec<ChainEntry<P>>,
    pub catalog_pick: usize,
    pub scan_error: Option<String>,
    pub scan_summary: Option<String>,
    pub scan_details: Option<String>,
    pub show_scan_details: bool,
    pub editor_open: Vec<bool>,
    pub native_hwnd: Vec<W>,
    pub native_threads: Vec<Option<T>>,
}

/// The list with the items at `i` and `j` exchanged.
pub open spec fn swapped<A>(s: Seq<A>, i: int, j: int) -> Seq<A> {
    s.update(i, s[j]).update(j, s[i])
}

/// The list with the item at `from` moved to `to`.
pub open spec fn moved<A>(s: Seq<A>, from: int, to: int) -> Seq<A> {
    s.remove(from).insert(to, s[from])
}

/// Exchanging two items twice changes nothing.
pub proof fn swapping_twice_restores<A>(s: Seq<A>, i: int, j: int)
    requires
        0 <= i < s.len(),
        0 <= j < s.len(),
    ensures
        swapped(swapped(s, i, j), i, j) == s,
{
    assert(swapped(swapped(s, i, j), i, j) =~= s);
}

/// Moving an item and moving it back changes nothing.
pub proof fn moving_back_restores<A>(s: Seq<A>, from: int, to: int)
    requires
        0 <= from < s.len(),
        0 <= to < s.len(),
    ensures
        moved(s, from, to).len() == s.len(),
        moved(s, from, to)[to] == s[from],
        moved(moved(s, from, to), to, from) == s,
{
    assert(moved(s, from, to).remove(to) =~= s.remove(from));
    assert(moved(moved(s, from, to), to, from) =~= s);
}

/// Moving an item neither loses nor doubles any.
pub proof fn moving_keeps_the_items<A>(s: Seq<A>, from: int, to: int)
    requires
        0 <= from < s.len(),
        0 <= to < s.len(),
    ensures
        moved(s, from, to).to_multiset() == s.to_multiset(),
{
    broadcast use vstd::seq_lib::group_to_multiset_ensures;

    let rest = s.remove(from);
    vstd::seq_lib::to_multiset_insert(rest, to, s[from]);
    vstd::seq_lib::to_multiset_remove(s, from);
    assert(moved(s, from, to).to_multiset() =~= s.to_multiset());
}

fn swap_items<A>(v: &mut Vec<A>, i: usize, j: usize)
    requires
        i < old(v)@.len(),
        j < old(v)@.len(),
    ensures
        final(v)@ == swapped(old(v)@, i as int, j as int),
{
    if i == j {
        assert(v@ =~= swapped(v@, i as int, j as int));
        return ;
    }
    let ghost s = v@;
    let (low, high) = if i < j {
        (i, j)
    } else {
        (j, i)
    };
    let b = v.remove(high);
    let a = v.remove(low);
    v.insert(low, b);
    v.insert(high, a);
    assert(v@ =~= swapped(s, i as int, j as int));
}

/// Moves an item to another place.
pub fn move_item<A>(v: &mut Vec<A>, from: usize, to: usize)
    requires
        from < old(v)@.len(),
        to < old(v)@.len(),
    ensures
        final(v)@ == moved(old(v)@, from as int, to as int),
{
    let x = v.remove(from);
    v.insert(to, x);
}

impl<P, W, T> VstUiState<P, W, T> {
    /// There is a flag, a window and a place for a thread for each plugin of the chain.
    pub open spec fn aligned(self) -> bool {
        &&& self.editor_open@.len() == self.chain@.len()
        &&& self.native_hwnd@.len() == self.chain@.len()
        &&& self.native_threads@.len() == self.chain@.len()
    }

    /// Nothing but the chain and what belongs to it differs from `other`.
    pub open spec fn same_catalog(self, other: Self) -> bool {
        &&& self.catalog == other.catalog
        &&& self.catalog_pick == other.catalog_pick
        &&& self.scan_error == other.scan_error
        &&& self.scan_summary == other.scan_summary
        &&& self.scan_details == other.scan_details
        &&& self.show_scan_details == other.show_scan_details
    }

    /// An empty catalog and an empty chain.
    pub fn new() -> (s: Self)
        ensures
            s.aligned(),
            s.chain@.len() == 0,
            s.catalog@.len() == 0,
            s.catalog_pick == 0,
            s.scan_error is None,
            s.scan_summary is None,
            s.scan_details is None,
            !s.show_scan_details,
    {
        VstUiState {
            catalog: Vec::new(),
            chain: Vec::new(),
            catalog_pick: 0,
            scan_error: None,
            scan_summary: None,
            scan_details: None,
            show_scan_details: false,
            editor_open: Vec::new(),
            native_hwnd: Vec::new(),
            native_threads: Vec::new(),
        }
    }

    /// Cuts what belongs to the chain to its length; missing flags are closed editors.
    pub fn trim_editor_flags(&mut self)
        ensures
            final(self).chain == old(self).chain,
            final(self).same_catalog(*old(self)),
            final(self).editor_open@.len() == old(self).chain@.len(),
            forall|i: int|
                0 <= i < final(self).editor_open@.len() ==> #[trigger] final(self).editor_open@[i]
                    == (i < old(self).editor_open@.len() && old(self).editor_open@[i]),
            final(self).native_hwnd@ == if old(self).native_hwnd@.len() > old(self).chain@.len() {
                old(self).native_hwnd@.take(old(self).chain@.len() as int)
            } else {
                old(self).native_hwnd@
            },
            final(self).native_threads@ == if old(self).native_threads@.len() > old(self).chain@.len() {
                old(self).native_threads@.take(old(self).chain@.len() as int)
            } else {
                old(self).native_threads@
            },
            old(self).aligned() ==> final(self).aligned() && final(self).editor_open@
                == old(self).editor_open@ && final(self).native_hwnd@ == old(self).native_hwnd@
                && final(self).native_threads@ == old(self).native_threads@,
    {
        let len: usize = self.chain.len();
        let ghost flags = self.editor_open@;
        self.editor_open.truncate(len);
        while self.editor_open.len() < len
            invariant
                len == old(self).chain@.len(),
                self.chain == old(self).chain,
                self.same_catalog(*old(self)),
                self.native_hwnd == old(self).native_hwnd,
                self.native_threads == old(self).native_threads,
                flags == old(self).editor_open@,
                self.editor_open@.len() <= len,
                flags.len() <= self.editor_open@.len() || self.editor_open@.len() == len,
                forall|i: int|
                    0 <= i < self.editor_open@.len() ==> #[trigger] self.editor_open@[i] == (i
                        < flags.len() && flags[i]),
            decreases len - self.editor_open@.len(),
        {
            self.editor_open.push(false);
        }
        self.native_hwnd.truncate(len);
        self.native_threads.truncate(len);
        assert(old(self).aligned() ==> self.editor_open@ =~= old(self).editor_open@);
    }

    /// The places of the plugins that process audio: those that are not bypassed, in order.
    pub fn active_entries(&self) -> (places: Vec<usize>)
        ensures
            places@ == active_places(self.chain@),
    {
        let mut places: Vec<usize> = Vec::new();
        let mut i: usize = 0;
        while i < self.chain.len()
            invariant
                i <= self.chain@.len(),
                places@ == active_places(self.chain@.take(i as int)),
            decreases self.chain@.len() - i,
        {
            proof {
                assert(self.chain@.take(i + 1).drop_last() =~= self.chain@.take(i as int));
                assert(self.chain@.take(i + 1).last() == self.chain@[i as int]);
            }
            if !self.chain[i].bypassed {
                places.push(i);
            }
            i = i + 1;
        }
        assert(self.chain@.take(i as int) =~= self.chain@);
        places
    }

    /// Takes in the outcome of a scan: the sorted catalog and the texts on it, or the error. A
    /// pick beyond the new catalog goes back to the first entry.
    pub fn take_scan(&mut self, outcome: std::result::Result<ScanReport, String>)
        requires
            outcome matches Ok(r) ==> r.vst3_plugins@.len() + r.vst2_plugins@.len() <= usize::MAX
                && crate::vst_scan::all_failures(r.directories@) <= u64::MAX,
        ensures
            final(self).chain == old(self).chain,
            final(self).editor_open == old(self).editor_open,
            final(self).native_hwnd == old(self).native_hwnd,
            final(self).native_threads == old(self).native_threads,
            final(self).show_scan_details == old(self).show_scan_details,
            match outcome {
                Err(e) => {
                    &&& final(self).scan_error == Some(e)
                    &&& final(self).scan_summary is None
                    &&& final(self).scan_details is None
                    &&& final(self).catalog == old(self).catalog
                    &&& final(self).catalog_pick == old(self).catalog_pick
                },
                Ok(r) => {
                    &&& final(self).scan_error is None
                    &&& final(self).scan_summary is Some
                    &&& final(self).scan_summary->0@ == crate::vst_scan::summary_text(r)
                    &&& final(self).scan_details is Some
                    &&& final(self).scan_details->0@ == crate::vst_scan::joined_lines(
                        crate::vst_scan::report_lines(r.directories@),
                    )
                    &&& exists|entries: Seq<Keyed<CatalogEntry>>| #[trigger]
                        crate::vst_scan::are_catalog_entries(
                            entries,
                            crate::vst_scan::all_plugins(r.vst3_plugins@, r.vst2_plugins@),
                        ) && final(self).catalog@ == items(crate::sorting::sorted_seq(entries))
                    &&& final(self).catalog_pick == if old(self).catalog_pick >= final(self).catalog@.len() {
                        0
                    } else {
                        old(self).catalog_pick
                    }
                },
            },
    {
        self.scan_error = None;
        self.scan_summary = None;
        self.scan_details = None;
        match outcome {
            Err(e) => {
                self.scan_error = Some(e);
            },
            Ok(report) => {
                self.scan_summary = Some(report.summary());
                self.scan_details = Some(report.details());
                let sorted = build_catalog(report.vst3_plugins, report.vst2_plugins);
                let catalog = into_items(sorted);
                self.catalog = catalog;
                if self.catalog_pick >= self.catalog.len() {
                    self.catalog_pick = 0;
                }
            },
        }
    }

    /// The picked plugin, which is to be loaded and added to the chain.
    pub fn picked(&self) -> (r: std::result::Result<usize, String>)
        ensures
            r is Ok <==> self.catalog_pick < self.catalog@.len(),
            r matches Ok(i) ==> i == self.catalog_pick,
            r matches Err(e) ==> e@ == "No plugin selected."@,
    {
        if self.catalog_pick < self.catalog.len() {
            Ok(self.catalog_pick)
        } else {
            Err(owned("No plugin selected."))
        }
    }

    /// Adds a loaded plugin to the end of the chain: processing, its editor closed.
    pub fn add_to_chain(&mut self, catalog: CatalogEntry, loaded: P, window: W)
        requires
            old(self).aligned(),
        ensures
            final(self).aligned(),
            final(self).same_catalog(*old(self)),
            final(self).chain@ == old(self).chain@.push(
                ChainEntry { catalog, loaded, bypassed: false, editor_feed: false },
            ),
            final(self).editor_open@ == old(self).editor_open@.push(false),
            final(self).native_hwnd@ == old(self).native_hwnd@.push(window),
            final(self).native_threads@ == old(self).native_threads@.push(None),
    {
        self.chain.push(ChainEntry { catalog, loaded, bypassed: false, editor_feed: false });
        self.native_hwnd.push(window);
        self.native_threads.push(None);
        self.trim_editor_flags();
        assert(self.editor_open@ =~= old(self).editor_open@.push(false));
    }

    /// Takes the editor's thread out, so that it can be waited for, and the audio away from the
    /// editor. The window is to be closed first.
    pub fn stop_native_editor(&mut self, index: usize) -> (thread: Option<T>)
        requires
            old(self).aligned(),
        ensures
            final(self).aligned(),
            final(self).same_catalog(*old(self)),
            final(self).editor_open == old(self).editor_open,
            final(self).native_hwnd == old(self).native_hwnd,
            index >= old(self).chain@.len() ==> thread is None && final(self).chain@
                == old(self).chain@ && final(self).native_threads@ == old(self).native_threads@,
            index < old(self).chain@.len() ==> {
                &&& thread == old(self).native_threads@[index as int]
                &&& final(self).native_threads@ == old(self).native_threads@.update(
                    index as int,
                    None,
                )
                &&& final(self).chain@ == old(self).chain@.update(
                    index as int,
                    ChainEntry { editor_feed: false, ..old(self).chain@[index as int] },
                )
            },
    {
        if index >= self.chain.len() {
            return None;
        }
        let entry = self.chain.remove(index);
        self.chain.insert(
            index,
            ChainEntry {
                catalog: entry.catalog,
                loaded: entry.loaded,
                bypassed: entry.bypassed,
                editor_feed: false,
            },
        );
        assert(self.chain@ =~= old(self).chain@.update(
            index as int,
            ChainEntry { editor_feed: false, ..old(self).chain@[index as int] },
        ));
        let thread = self.native_threads.remove(index);
        self.native_threads.insert(index, None);
        assert(self.native_threads@ =~= old(self).native_threads@.update(index as int, None));
        thread
    }

    /// Takes a plugin out of the chain, with all that belongs to it; a place beyond the chain
    /// changes nothing. What comes back is the editor's thread, if it was open.
    pub fn remove_chain(&mut self, index: usize) -> (thread: Option<T>)
        requires
            old(self).aligned(),
        ensures
            final(self).aligned(),
            final(self).same_catalog(*old(self)),
            index >= old(self).chain@.len() ==> thread is None && final(self).chain@
                == old(self).chain@ && final(self).editor_open@ == old(self).editor_open@
                && final(self).native_hwnd@ == old(self).native_hwnd@
                && final(self).native_threads@ == old(self).native_threads@,
            index < old(self).chain@.len() ==> {
                &&& thread == old(self).native_threads@[index as int]
                &&& final(self).chain@ == old(self).chain@.remove(index as int)
                &&& final(self).editor_open@ == old(self).editor_open@.remove(index as int)
                &&& final(self).native_hwnd@ == old(self).native_hwnd@.remove(index as int)
                &&& final(self).native_threads@ == old(self).native_threads@.remove(index as int)
            },
    {
        if index >= self.chain.len() {
            return None;
        }
        let thread = self.stop_native_editor(index);
        let _ = self.chain.remove(index);
        let _ = self.editor_open.remove(index);
        let _ = self.native_hwnd.remove(index);
        let _ = self.native_threads.remove(index);
        assert(self.chain@ =~= old(self).chain@.remove(index as int));
        assert(self.native_threads@ =~= old(self).native_threads@.remove(index as int));
        self.trim_editor_flags();
        thread
    }

    /// Exchanges a plugin with the one `delta` places away, if there is one.
    pub fn move_chain(&mut self, index: usize, delta: isize)
        requires
            old(self).aligned(),
            index < old(self).chain@.len(),
            old(self).chain@.len() <= isize::MAX,
        ensures
            final(self).aligned(),
            final(self).same_catalog(*old(self)),
            ({
                let j = index + delta;
                let c = old(self).chain@;
                if 0 <= j < c.len() {
                    &&& final(self).chain@ == swapped(c, index as int, j)
                    &&& final(self).editor_open@ == swapped(
                        old(self).editor_open@,
                        index as int,
                        j,
                    )
                    &&& final(self).native_hwnd@ == swapped(
                        old(self).native_hwnd@,
                        index as int,
                        j,
                    )
                    &&& final(self).native_threads@ == swapped(
                        old(self).native_threads@,
                        index as int,
                        j,
                    )
                } else {
                    &&& final(self).chain@ == c
                    &&& final(self).editor_open@ == old(self).editor_open@
                    &&& final(self).native_hwnd@ == old(self).native_hwnd@
                    &&& final(self).native_threads@ == old(self).native_threads@
                }
            }),
    {
        let len: usize = self.chain.len();
        let j: i128 = index as i128 + delta as i128;
        if j < 0 || j >= len as i128 {
            return ;
        }
        let j: usize = j as usize;
        swap_items(&mut self.chain, index, j);
        swap_items(&mut self.editor_open, index, j);
        swap_items(&mut self.native_hwnd, index, j);
        swap_items(&mut self.native_threads, index, j);
        self.trim_editor_flags();
    }

    /// Moves a plugin to another place; places beyond the chain change nothing.
    pub fn move_chain_to(&mut self, from: usize, to: usize)
        requires
            old(self).aligned(),
        ensures
            final(self).aligned(),
            final(self).same_catalog(*old(self)),
            ({
                let c = old(self).chain@;
                if from < c.len() && to < c.len() && from != to {
                    &&& final(self).chain@ == moved(c, from as int, to as int)
                    &&& final(self).editor_open@ == moved(
                        old(self).editor_open@,
                        from as int,
                        to as int,
                    )
                    &&& final(self).native_hwnd@ == moved(
                        old(self).native_hwnd@,
                        from as int,
                        to as int,
                    )
                    &&& final(self).native_threads@ == moved(
                        old(self).native_threads@,
                        from as int,
                        to as int,
                    )
                } else {
                    &&& final(self).chain@ == c
                    &&& final(self).editor_open@ == old(self).editor_open@
                    &&& final(self).native_hwnd@ == old(self).native_hwnd@
                    &&& final(self).native_threads@ == old(self).native_threads@
                }
            }),
    {
        if from >= self.chain.len() || to >= self.chain.len() || from == to {
            return ;
        }
        move_item(&mut self.chain, from, to);
        move_item(&mut self.editor_open, from, to);
        move_item(&mut self.native_hwnd, from, to);
        move_item(&mut self.native_threads, from, to);
        self.trim_editor_flags();
    }

    /// Switches a plugin between processing and bypassed.
    pub fn toggle_bypass(&mut self, index: usize)
        ensures
            final(self).same_catalog(*old(self)),
            final(self).editor_open == old(self).editor_open,
            final(self).native_hwnd == old(self).native_hwnd,
            final(self).native_threads == old(self).native_threads,
            final(self).chain@ == if index < old(self).chain@.len() {
                old(self).chain@.update(
                    index as int,
                    ChainEntry {
                        bypassed: !old(self).chain@[index as int].bypassed,
                        ..old(self).chain@[index as int]
                    },
                )
            } else {
                old(self).chain@
            },
    {
        if index < self.chain.len() {
            let entry = self.chain.remove(index);
            self.chain.insert(
                index,
                ChainEntry {
                    catalog: entry.catalog,
                    loaded: entry.loaded,
                    bypassed: !entry.bypassed,
                    editor_feed: entry.editor_feed,
                },
            );
            assert(self.chain@ =~= old(self).chain@.update(
                index as int,
                ChainEntry {
                    bypassed: !old(self).chain@[index as int].bypassed,
                    ..old(self).chain@[index as int]
                },
            ));
        }
    }

    /// Decides what a click on a plugin's editor button does, and notes it: an open editor is to
    /// be stopped, a closed one to be started.
    pub fn toggle_native_editor(&mut self, index: usize) -> (step: EditorStep)
        requires
            old(self).aligned(),
        ensures
            final(self).aligned(),
            final(self).same_catalog(*old(self)),
            final(self).chain == old(self).chain,
            final(self).native_hwnd == old(self).native_hwnd,
            final(self).native_threads == old(self).native_threads,
            index >= old(self).chain@.len() ==> step is Nothing && final(self).editor_open@
                == old(self).editor_open@,
            index < old(self).chain@.len() ==> {
                let open = old(self).editor_open@[index as int];
                &&& final(self).editor_open@ == old(self).editor_open@.update(index as int, !open)
                &&& step == if open {
                    EditorStep::Stop
                } else if old(self).native_threads@[index as int] is Some {
                    EditorStep::Nothing
                } else {
                    EditorStep::Start
                }
            },
    {
        if index >= self.chain.len() {
            return EditorStep::Nothing;
        }
        let open: bool = self.editor_open[index];
        self.editor_open.set(index, !open);
        if open {
            EditorStep::Stop
        } else if self.native_threads[index].is_some() {
            EditorStep::Nothing
        } else {
            EditorStep::Start
        }
    }

    /// Notes that an editor runs on the given thread; the editor of a plugin of the third format
    /// gets to hear the audio.
    pub fn editor_started(&mut self, index: usize, thread: T)
        requires
            old(self).aligned(),
            index < old(self).chain@.len(),
        ensures
            final(self).aligned(),
            final(self).same_catalog(*old(self)),
            final(self).editor_open == old(self).editor_open,
            final(self).native_hwnd == old(self).native_hwnd,
            final(self).native_threads@ == old(self).native_threads@.update(
                index as int,
                Some(thread),
            ),
            final(self).chain@ == if old(self).chain@[index as int].catalog is Vst3 {
                old(self).chain@.update(
                    index as int,
                    ChainEntry { editor_feed: true, ..old(self).chain@[index as int] },
                )
            } else {
                old(self).chain@
            },
    {
        let feed: bool = match &self.chain[index].catalog {
            CatalogEntry::Vst3(_) => true,
            CatalogEntry::Vst2(_) => false,
        };
        if feed {
            let entry = self.chain.remove(index);
            self.chain.insert(
                index,
                ChainEntry {
                    catalog: entry.catalog,
                    loaded: entry.loaded,
                    bypassed: entry.bypassed,
                    editor_feed: true,
                },
            );
            assert(self.chain@ =~= old(self).chain@.update(
                index as int,
                ChainEntry { editor_feed: true, ..old(self).chain@[index as int] },
            ));
        }
        self.native_threads.set(index, Some(thread));
    }

    /// Takes out the threads that ended on their own and closes the editors they ran.
    pub fn reap_finished_editors(&mut self, finished: &Vec<bool>) -> (ended: Vec<T>)
        requires
            old(self).aligned(),
            finished@.len() == old(self).chain@.len(),
        ensures
            final(self).aligned(),
            final(self).same_catalog(*old(self)),
            final(self).chain == old(self).chain,
            final(self).native_hwnd == old(self).native_hwnd,
            forall|i: int|
                0 <= i < final(self).chain@.len() ==> #[trigger] final(self).native_threads@[i]
                    == if finished@[i] {
                    None
                } else {
                    old(self).native_threads@[i]
                },
            forall|i: int|
                0 <= i < final(self).chain@.len() ==> #[trigger] final(self).editor_open@[i] == (
                old(self).editor_open@[i] && !(finished@[i] && old(self).native_threads@[i] is Some)),
            ended@ == ended_threads(old(self).native_threads@, finished@),
    {
        let ghost start = self.native_threads@;
        let mut ended: Vec<T> = Vec::new();
        let mut i: usize = 0;
        while i < self.chain.len()
            invariant
                i <= self.chain@.len(),
                self.aligned(),
                start == old(self).native_threads@,
                start.len() == self.chain@.len(),
                finished@.len() == self.chain@.len(),
                self.chain == old(self).chain,
                self.native_hwnd == old(self).native_hwnd,
                self.same_catalog(*old(self)),
                old(self).aligned(),
                forall|k: int|
                    0 <= k < self.chain@.len() ==> #[trigger] self.native_threads@[k] == if k < i
                        && finished@[k] {
                        None
                    } else {
                        start[k]
                    },
                forall|k: int|
                    0 <= k < self.chain@.len() ==> #[trigger] self.editor_open@[k]
                        == (old(self).editor_open@[k] && !(k < i && finished@[k]
                        && start[k] is Some)),
                ended@ == ended_threads(start.take(i as int), finished@.take(i as int)),
            decreases self.chain@.len() - i,
        {
            proof {
                assert(start.take(i + 1).drop_last() =~= start.take(i as int));
                assert(finished@.take(i + 1).drop_last() =~= finished@.take(i as int));
                assert(start.take(i + 1).last() == start[i as int]);
                assert(finished@.take(i + 1).last() == finished@[i as int]);
            }
            if finished[i] {
                let ghost threads = self.native_threads@;
                let thread = self.native_threads.remove(i);
                self.native_threads.insert(i, None);
                assert(self.native_threads@ =~= threads.update(i as int, None));
                match thread {
                    Some(t) => {
                        ended.push(t);
                        self.editor_open.set(i, false);
                    },
                    None => {},
                }
            }
            i = i + 1;
        }
        assert(start.take(i as int) =~= start);
        assert(finished@.take(i as int) =~= finished@);
        ended
    }
}

/// The threads that ended, in order.
pub open spec fn ended_threads<T>(threads: Seq<Option<T>>, finished: Seq<bool>) -> Seq<T>
    decreases threads.len(),
{
    if threads.len() == 0 {
        Seq::empty()
    } else {
        let before = ended_threads(threads.drop_last(), finished.drop_last());
        match threads.last() {
            Some(t) => if finished.last() {
                before.push(t)
            } else {
                before
            },
            None => before,
        }
    }
}

/// What is to be done with a plugin's editor.
#[derive(Debug, Clone, Copy, PartialEq, Eq, Structural)]
pub enum EditorStep {
    Nothing,
    Start,
    Stop,
}

/// The places of the plugins that are not bypassed, in order.
pub open spec fn active_places<P>(chain: Seq<ChainEntry<P>>) -> Seq<usize>
    decreases chain.len(),
{
    if chain.len() == 0 {
        Seq::empty()
    } else {
        let before = active_places(chain.drop_last());
        if chain.last().bypassed {
            before
        } else {
            before.push((chain.len() - 1) as usize)
        }
    }
}

/// What was sorted, without the keys.
pub open spec fn items<A>(sorted: Seq<Keyed<A>>) -> Seq<A> {
    Seq::new(sorted.len(), |i: int| sorted[i].item)
}

/// What was sorted, without the keys.
pub fn into_items<A>(sorted: Vec<Keyed<A>>) -> (out: Vec<A>)
    ensures
        out@ == items(sorted@),
{
    let ghost all = sorted@;
    let mut out: Vec<A> = Vec::new();
    for k in it: sorted
        invariant
            it.seq() == all,
            out@.len() == it.index(),
            forall|i: int| 0 <= i < out@.len() ==> #[trigger] out@[i] == all[i].item,
    {
        out.push(k.item);
    }
    assert(out@ =~= items(all));
    out
}

/// Whether a plugin has to be loaded again before it is set up for another rate: one of the
/// second format that failed while it ran.
pub fn needs_reload(loaded: PluginFormat, failed: bool, catalog: &CatalogEntry) -> (r: bool)
    ensures
        r == (loaded == PluginFormat::Vst2 && failed && catalog is Vst2),
{
    let second: bool = match catalog {
        CatalogEntry::Vst2(_) => true,
        CatalogEntry::Vst3(_) => false,
    };
    loaded == PluginFormat::Vst2 && failed && second
}

/// The text on a plugin that could not be loaded again.
pub fn reload_error(name: &str, why: &str) -> (s: String)
    ensures
        s@ == "reload "@ + name@ + ": "@ + why@,
{
    let mut s = String::new();
    push_text(&mut s, "reload ");
    push_text(&mut s, name);
    push_text(&mut s, ": ");
    push_text(&mut s, why);
    assert(s@ =~= "reload "@ + name@ + ": "@ + why@);
    s
}

/// The title of an editor's window.
pub fn editor_title(entry: &CatalogEntry) -> (s: String)
    ensures
        s@ == entry.name_text() + " — "@ + (match *entry {
            CatalogEntry::Vst3(_) => "VST3"@,
            CatalogEntry::Vst2(_) => "VST2"@,
        }),
{
    let mut s = String::new();
    push_text(&mut s, entry.name());
    push_text(&mut s, " — ");
    push_text(&mut s, entry.format_label());
    assert(s@ =~= entry.name_text() + " — "@ + (match *entry {
        CatalogEntry::Vst3(_) => "VST3"@,
        CatalogEntry::Vst2(_) => "VST2"@,
    }));
    s
}

/// Swapping two items changes nothing else.
pub proof fn swapping_changes_two_items<A>(s: Seq<A>, i: int, j: int)
    requires
        0 <= i < s.len(),
        0 <= j < s.len(),
    ensures
        swapped(s, i, j).len() == s.len(),
        swapped(s, i, j)[i] == s[j],
        swapped(s, i, j)[j] == s[i],
        forall|k: int|
            0 <= k < s.len() && k != i && k != j ==> #[trigger] swapped(s, i, j)[k] == s[k],
{
}

/// Moving an item leaves the others in their order.
pub proof fn moving_keeps_the_others_in_order<A>(s: Seq<A>, from: int, to: int)
    requires
        0 <= from < s.len(),
        0 <= to < s.len(),
    ensures
        moved(s, from, to).len() == s.len(),
        moved(s, from, to)[to] == s[from],
        moved(s, from, to).remove(to) == s.remove(from),
        from == to ==> moved(s, from, to) == s,
{
    assert(moved(s, from, to).remove(to) =~= s.remove(from));
    if from == to {
        assert(moved(s, from, to) =~= s);
    }
}

/// A chain runs exactly its plug-ins that are not bypassed, in order.
pub proof fn bypassed_plugins_do_not_run<P>(chain: Seq<ChainEntry<P>>)
    requires
        chain.len() <= usize::MAX,
    ensures
        forall|k: int|
            0 <= k < active_places(chain).len() ==> (#[trigger] active_places(chain)[k])
                < chain.len() && !chain[active_places(chain)[k] as int].bypassed,
        forall|j: int, k: int|
            0 <= j < k < active_places(chain).len() ==> (#[trigger] active_places(chain)[j]) < (
            #[trigger] active_places(chain)[k]),
        forall|n: int|
            0 <= n < chain.len() && !(#[trigger] chain[n]).bypassed ==> active_places(
                chain,
            ).contains(n as usize),
    decreases chain.len(),
{
    if chain.len() > 0 {
        let rest = chain.drop_last();
        let before = active_places(rest);
        let all = active_places(chain);
        bypassed_plugins_do_not_run(rest);
        assert forall|n: int| 0 <= n < chain.len() && !(
        #[trigger] chain[n]).bypassed implies all.contains(n as usize) by {
            if n < rest.len() {
                assert(!rest[n].bypassed);
                let k = choose|k: int| 0 <= k < before.len() && before[k] == n as usize;
                assert(all[k] == n as usize);
            } else {
                assert(all[all.len() - 1] == n as usize);
            }
        }
    }
}

/// The threads that are handed back are those that there are and that have finished, in order.
pub proof fn finished_threads_are_handed_back<T>(threads: Seq<Option<T>>, finished: Seq<bool>)
    requires
        finished.len() == threads.len(),
    ensures
        ended_threads(threads, finished).len() <= threads.len(),
        forall|k: int|
            0 <= k < ended_threads(threads, finished).len() ==> exists|i: int|
                0 <= i < threads.len() && finished[i] && #[trigger] threads[i] == Some(
                    #[trigger] ended_threads(threads, finished)[k],
                ),
        forall|i: int|
            0 <= i < threads.len() && finished[i] && (#[trigger] threads[i]) is Some
                ==> ended_threads(threads, finished).contains(threads[i]->0),
    decreases threads.len(),
{
    if threads.len() > 0 {
        let rest = threads.drop_last();
        let flags = finished.drop_last();
        finished_threads_are_handed_back(rest, flags);
        let before = ended_threads(rest, flags);
        let all = ended_threads(threads, finished);
        assert forall|k: int| 0 <= k < all.len() implies exists|i: int|
            0 <= i < threads.len() && finished[i] && #[trigger] threads[i] == Some(
                #[trigger] all[k],
            ) by {
            if k < before.len() {
                assert(all[k] == before[k]);
                let i = choose|i: int|
                    0 <= i < rest.len() && flags[i] && #[trigger] rest[i] == Some(before[k]);
                assert(threads[i] == Some(all[k]));
            } else {
                assert(threads[threads.len() - 1] == Some(all[k]));
            }
        }
        assert forall|i: int|
            0 <= i < threads.len() && finished[i] && (
            #[trigger] threads[i]) is Some implies all.contains(threads[i]->0) by {
            if i < rest.len() {
                assert(flags[i] && rest[i] is Some);
                let k = choose|k: int| 0 <= k < before.len() && before[k] == rest[i]->0;
                assert(all[k] == threads[i]->0);
            } else {
                assert(all[all.len() - 1] == threads[i]->0);
            }
        }
    }
}

} // verus!
