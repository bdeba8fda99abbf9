//! The analyzers that run beside a recording: which there are, in which order, and which of them
//! are on.

use vstd::prelude::*;

use crate::parakeet::{descriptors, PARAKEET_PLUGIN_ID};
use crate::selection::{position_of, Identified};
use crate::text::{owned, push_text, text_equal};
use crate::vst_chain::move_item;

verus! {

/// Stable id of the built-in analyzer.
pub const VOICE_ACTIVITY_ID: &'static str = "builtin.voice-activity";

/// An analyzer that can be switched on.
#[derive(Debug)]
pub struct LocalAnalyzerSelection {
    pub id: String,
    pub name: String,
    pub description: String,
    pub enabled: bool,
}

impl Identified for LocalAnalyzerSelection {
    open spec fn id_text(&self) -> Seq<char> {
        self.id@
    }

    fn id_str(&self) -> (s: &str) {
        self.id.as_str()
    }
}

/// The analyzer is the described one, switched off.
pub open spec fn is_offered(
    a: LocalAnalyzerSelection,
    id: Seq<char>,
    name: Seq<char>,
    description: Seq<char>,
) -> bool {
    &&& a.id@ == id
    &&& a.name@ == name
    &&& a.description@ == description
    &&& !a.enabled
}

/// These are all analyzers, switched off.
pub open spec fn are_all_offered(v: Seq<LocalAnalyzerSelection>) -> bool {
    &&& v.len() == 2
    &&& is_offered(
        v[0],
        VOICE_ACTIVITY_ID@,
        "Voice activity"@,
        "Built-in RMS threshold analyzer for proving analyzer events."@,
    )
    &&& is_offered(
        v[1],
        PARAKEET_PLUGIN_ID@,
        "NVIDIA Parakeet Unified EN 0.6B"@,
        "Streams enhanced audio chunks to a local NeMo sidecar and emits transcript events."@,
    )
}

/// All analyzers, switched off.
pub fn default_local_analyzers() -> (v: Vec<LocalAnalyzerSelection>)
    ensures
        are_all_offered(v@),
{
    let mut v: Vec<LocalAnalyzerSelection> = Vec::new();
    v.push(
        LocalAnalyzerSelection {
            id: owned(VOICE_ACTIVITY_ID),
            name: owned("Voice activity"),
            description: owned("Built-in RMS threshold analyzer for proving analyzer events."),
            enabled: false,
        },
    );
    let known = descriptors();
    let mut i: usize = 0;
    while i < known.len()
        invariant
            i <= known@.len(),
            v@.len() == 1 + i,
            is_offered(
                v@[0],
                VOICE_ACTIVITY_ID@,
                "Voice activity"@,
                "Built-in RMS threshold analyzer for proving analyzer events."@,
            ),
            forall|k: int|
                0 <= k < i ==> is_offered(
                    v@[1 + k],
                    #[trigger] known@[k].id@,
                    known@[k].name@,
                    known@[k].description@,
                ),
        decreases known@.len() - i,
    {
        v.push(
            LocalAnalyzerSelection {
                id: owned(known[i].id),
                name: owned(known[i].name),
                description: owned(known[i].description),
                enabled: false,
            },
        );
        i += 1;
    }
    assert(is_offered(v@[1], known@[0].id@, known@[0].name@, known@[0].description@));
    v
}

/// The items in the given order; those that it does not name come last, as they stood.
pub open spec fn ordered<T: Identified>(items: Seq<T>, order: Seq<Seq<char>>) -> Seq<T>
    decreases order.len(),
{
    if order.len() == 0 {
        items
    } else {
        match crate::selection::position(items, order[0]) {
            Some(i) => seq![items[i as int]] + ordered(items.remove(i as int), order.skip(1)),
            None => ordered(items, order.skip(1)),
        }
    }
}

/// Puts the items in the given order; those that it does not name come last, as they stood.
pub fn restore_order<T: Identified>(items: Vec<T>, order: &Vec<String>) -> (r: Vec<T>)
    ensures
        r@ == ordered(items@, crate::transcript::texts(order@)),
{
    let ghost all = items@;
    let ghost ids = crate::transcript::texts(order@);
    let mut rest = items;
    let mut r: Vec<T> = Vec::new();
    let mut k: usize = 0;
    assert(ids.skip(0) =~= ids);
    assert(r@ + ordered(rest@, ids) =~= ordered(all, ids));
    while k < order.len()
        invariant
            ids == crate::transcript::texts(order@),
            k <= order@.len(),
            r@ + ordered(rest@, ids.skip(k as int)) == ordered(all, ids),
        decreases order@.len() - k,
    {
        let ghost before = rest@;
        let ghost done = r@;
        let ghost left = ids.skip(k as int);
        assert(left[0] == order@[k as int]@);
        assert(left.skip(1) =~= ids.skip(k + 1));
        proof {
            crate::selection::lemma_position(before, left[0]);
        }
        match position_of(&rest, order[k].as_str()) {
            Some(i) => {
                let item = rest.remove(i);
                r.push(item);
                assert(r@ + ordered(rest@, ids.skip(k + 1)) =~= done + (seq![before[i as int]]
                    + ordered(before.remove(i as int), left.skip(1))));
            },
            None => {},
        }
        k += 1;
    }
    assert(ids.skip(ids.len() as int).len() == 0);
    let ghost done = r@;
    let ghost last = rest@;
    r.append(&mut rest);
    assert(r@ =~= done + last);
    r
}

/// Putting analyzers in order neither loses nor doubles any.
pub proof fn ordering_keeps_the_items<T: Identified>(items: Seq<T>, order: Seq<Seq<char>>)
    ensures
        ordered(items, order).to_multiset() == items.to_multiset(),
    decreases order.len(),
{
    broadcast use vstd::seq_lib::group_to_multiset_ensures;

    if order.len() > 0 {
        crate::selection::lemma_position(items, order[0]);
        match crate::selection::position(items, order[0]) {
            Some(i) => {
                let rest = items.remove(i as int);
                let tail = ordered(rest, order.skip(1));
                ordering_keeps_the_items(rest, order.skip(1));
                vstd::seq_lib::to_multiset_remove(items, i as int);
                assert(seq![items[i as int]] + tail =~= tail.insert(0, items[i as int]));
                vstd::seq_lib::to_multiset_insert(tail, 0, items[i as int]);
                assert(items.contains(items[i as int]));
                assert(items.to_multiset().count(items[i as int]) > 0);
                assert(ordered(items, order).to_multiset() =~= items.to_multiset());
            },
            None => {
                ordering_keeps_the_items(items, order.skip(1));
            },
        }
    }
}

/// The identifiers of some items.
pub open spec fn ids_of<T: Identified>(items: Seq<T>) -> Seq<Seq<char>> {
    items.map_values(|t: T| t.id_text())
}

/// A saved order comes back: where the items are the same and no identifier occurs twice, they
/// stand in the order that was saved.
pub proof fn saved_order_is_restored<T: Identified>(items: Seq<T>, order: Seq<Seq<char>>)
    requires
        items.len() == order.len(),
        order.no_duplicates(),
        forall|k: int| 0 <= k < order.len() ==> ids_of(items).contains(#[trigger] order[k]),
    ensures
        ids_of(ordered(items, order)) == order,
    decreases order.len(),
{
    if order.len() > 0 {
        let id = order[0];
        let later = order.skip(1);
        crate::selection::lemma_position(items, id);
        assert(ids_of(items).contains(order[0]));
        let at = choose|k: int| 0 <= k < ids_of(items).len() && ids_of(items)[k] == order[0];
        assert(items[at].id_text() == id);
        let i = crate::selection::position(items, id)->0 as int;
        let rest = items.remove(i);
        assert forall|k: int| 0 <= k < later.len() implies ids_of(rest).contains(
            #[trigger] later[k],
        ) by {
            assert(later[k] == order[k + 1]);
            assert(ids_of(items).contains(order[k + 1]));
            let p = choose|p: int|
                0 <= p < ids_of(items).len() && ids_of(items)[p] == order[k + 1];
            assert(items[p].id_text() == order[k + 1]);
            assert(order[k + 1] != order[0]);
            assert(p != i);
            let q = if p < i {
                p
            } else {
                p - 1
            };
            assert(rest[q] == items[p]);
            assert(ids_of(rest)[q] == later[k]);
        }
        saved_order_is_restored(rest, later);
        assert(ids_of(ordered(items, order)) =~= seq![id] + ids_of(ordered(rest, later)));
        assert(seq![id] + later =~= order);
    }
}

/// The identifier is among the given ones.
pub open spec fn is_listed(ids: Seq<String>, id: Seq<char>) -> bool {
    exists|k: int| 0 <= k < ids.len() && (#[trigger] ids[k])@ == id
}

fn listed(ids: &Vec<String>, id: &str) -> (r: bool)
    ensures
        r == is_listed(ids@, id@),
{
    let mut i: usize = 0;
    while i < ids.len()
        invariant
            i <= ids@.len(),
            forall|k: int| 0 <= k < i ==> (#[trigger] ids@[k])@ != id@,
        decreases ids@.len() - i,
    {
        if text_equal(ids[i].as_str(), id) {
            return true;
        }
        i += 1;
    }
    false
}

/// Another state of the same analyzer.
pub open spec fn same_analyzer(a: LocalAnalyzerSelection, b: LocalAnalyzerSelection) -> bool {
    &&& a.id == b.id
    &&& a.name == b.name
    &&& a.description == b.description
}

/// Other states of the same analyzers.
pub open spec fn same_analyzers(
    a: Seq<LocalAnalyzerSelection>,
    b: Seq<LocalAnalyzerSelection>,
) -> bool {
    &&& a.len() == b.len()
    &&& forall|k: int| 0 <= k < a.len() ==> same_analyzer(#[trigger] a[k], b[k])
}

/// Switches on the analyzers that are listed and all others off.
pub fn restore_enabled(items: Vec<LocalAnalyzerSelection>, enabled: &Vec<String>) -> (r: Vec<
    LocalAnalyzerSelection,
>)
    ensures
        r@.len() == items@.len(),
        forall|k: int|
            0 <= k < r@.len() ==> {
                &&& same_analyzer(#[trigger] r@[k], items@[k])
                &&& r@[k].enabled == is_listed(enabled@, items@[k].id@)
            },
{
    let ghost all = items@;
    let mut r: Vec<LocalAnalyzerSelection> = Vec::new();
    for a in it: items
        invariant
            it.seq() == all,
            r@.len() == it.index(),
            forall|k: int|
                0 <= k < r@.len() ==> {
                    &&& same_analyzer(#[trigger] r@[k], all[k])
                    &&& r@[k].enabled == is_listed(enabled@, all[k].id@)
                },
    {
        let on = listed(enabled, a.id.as_str());
        r.push(
            LocalAnalyzerSelection {
                id: a.id,
                name: a.name,
                description: a.description,
                enabled: on,
            },
        );
    }
    r
}

/// What the analyzers' list comes to at the start: in the saved order, with the saved ones on.
pub fn restored_analyzers(order: &Vec<String>, enabled: &Vec<String>) -> (r: Vec<
    LocalAnalyzerSelection,
>)
    ensures
        r@.len() == 2,
        exists|all: Seq<LocalAnalyzerSelection>| #[trigger]
            are_all_offered(all) && same_analyzers(
                r@,
                ordered(all, crate::transcript::texts(order@)),
            ),
        forall|k: int|
            0 <= k < r@.len() ==> (#[trigger] r@[k]).enabled == is_listed(enabled@, r@[k].id@),
{
    let all = default_local_analyzers();
    let ghost known = all@;
    let ghost ids = crate::transcript::texts(order@);
    let sorted = restore_order(all, order);
    proof {
        ordering_keeps_the_items(known, ids);
        vstd::seq_lib::to_multiset_len(known);
        vstd::seq_lib::to_multiset_len(sorted@);
    }
    let r = restore_enabled(sorted, enabled);
    assert(are_all_offered(known) && same_analyzers(r@, ordered(known, ids)));
    r
}

/// The analyzers with one of them switched.
pub open spec fn switched(items: Seq<LocalAnalyzerSelection>, i: int, on: bool) -> Seq<
    LocalAnalyzerSelection,
> {
    items.update(i, LocalAnalyzerSelection { enabled: on, ..items[i] })
}

/// Switches an analyzer on or off; tells whether there is one at that place.
pub fn set_enabled(items: &mut Vec<LocalAnalyzerSelection>, i: usize, on: bool) -> (found: bool)
    ensures
        found == (i < old(items)@.len()),
        final(items)@ == if i < old(items)@.len() {
            switched(old(items)@, i as int, on)
        } else {
            old(items)@
        },
{
    if i >= items.len() {
        return false;
    }
    let ghost before = items@;
    let a = items.remove(i);
    items.insert(
        i,
        LocalAnalyzerSelection {
            id: a.id,
            name: a.name,
            description: a.description,
            enabled: on,
        },
    );
    assert(items@ =~= switched(before, i as int, on));
    true
}

/// Moves an analyzer to another place; tells whether anything moved.
pub fn move_internal_plugin_to(items: &mut Vec<LocalAnalyzerSelection>, from: usize, to: usize) -> (m:
    bool)
    ensures
        m == (from < old(items)@.len() && to < old(items)@.len() && from != to),
        final(items)@ == if m {
            crate::vst_chain::moved(old(items)@, from as int, to as int)
        } else {
            old(items)@
        },
{
    if from >= items.len() || to >= items.len() || from == to {
        return false;
    }
    move_item(items, from, to);
    true
}

/// The identifiers in order.
pub fn analyzer_order(items: &Vec<LocalAnalyzerSelection>) -> (ids: Vec<String>)
    ensures
        crate::transcript::texts(ids@) == ids_of(items@),
{
    let mut ids: Vec<String> = Vec::new();
    let mut i: usize = 0;
    while i < items.len()
        invariant
            i <= items@.len(),
            crate::transcript::texts(ids@) == ids_of(items@).take(i as int),
        decreases items@.len() - i,
    {
        let ghost before = ids@;
        ids.push(owned(items[i].id.as_str()));
        assert(crate::transcript::texts(ids@) =~= crate::transcript::texts(before).push(
            items@[i as int].id@,
        ));
        assert(ids_of(items@).take(i + 1) =~= ids_of(items@).take(i as int).push(
            items@[i as int].id@,
        ));
        i += 1;
    }
    assert(ids_of(items@).take(items@.len() as int) =~= ids_of(items@));
    ids
}

/// The identifiers of the analyzers that are on.
pub open spec fn enabled_ids(items: Seq<LocalAnalyzerSelection>) -> Seq<Seq<char>>
    decreases items.len(),
{
    if items.len() == 0 {
        Seq::empty()
    } else if items.last().enabled {
        enabled_ids(items.drop_last()).push(items.last().id@)
    } else {
        enabled_ids(items.drop_last())
    }
}

/// The identifiers of the analyzers that are on, in order.
pub fn enabled_analyzers(items: &Vec<LocalAnalyzerSelection>) -> (ids: Vec<String>)
    ensures
        crate::transcript::texts(ids@) == enabled_ids(items@),
{
    let mut ids: Vec<String> = Vec::new();
    let mut i: usize = 0;
    assert(crate::transcript::texts(ids@) =~= enabled_ids(items@.take(0)));
    while i < items.len()
        invariant
            i <= items@.len(),
            crate::transcript::texts(ids@) == enabled_ids(items@.take(i as int)),
        decreases items@.len() - i,
    {
        assert(items@.take(i + 1).drop_last() =~= items@.take(i as int));
        if items[i].enabled {
            let ghost before = ids@;
            ids.push(owned(items[i].id.as_str()));
            assert(crate::transcript::texts(ids@) =~= crate::transcript::texts(before).push(
                items@[i as int].id@,
            ));
        }
        i += 1;
    }
    assert(items@.take(items@.len() as int) =~= items@);
    ids
}

/// Some texts with a mark between each two.
pub open spec fn joined(parts: Seq<Seq<char>>, mark: Seq<char>) -> Seq<char>
    decreases parts.len(),
{
    if parts.len() == 0 {
        Seq::empty()
    } else if parts.len() == 1 {
        parts[0]
    } else {
        joined(parts.drop_last(), mark) + mark + parts.last()
    }
}

/// Puts a mark between each two of some texts.
pub fn join(parts: &Vec<String>, mark: &str) -> (s: String)
    ensures
        s@ == joined(crate::transcript::texts(parts@), mark@),
{
    let ghost all = crate::transcript::texts(parts@);
    let mut s = String::new();
    let mut i: usize = 0;
    while i < parts.len()
        invariant
            all == crate::transcript::texts(parts@),
            i <= parts@.len(),
            s@ == joined(all.take(i as int), mark@),
        decreases parts@.len() - i,
    {
        let ghost before = s@;
        assert(all.take(i + 1).drop_last() =~= all.take(i as int));
        if i > 0 {
            push_text(&mut s, mark);
        }
        push_text(&mut s, parts[i].as_str());
        assert(s@ =~= joined(all.take(i + 1), mark@));
        i += 1;
    }
    assert(all.take(all.len() as int) =~= all);
    s
}

/// What tells one set of running analyzers from another.
pub fn analyzer_signature(items: &Vec<LocalAnalyzerSelection>) -> (s: String)
    ensures
        s@ == joined(enabled_ids(items@), ","@),
{
    join(&enabled_analyzers(items), ",")
}

/// An analyzer that can be built.
#[derive(Debug, Clone, Copy, PartialEq, Eq, Structural)]
pub enum AnalyzerKind {
    VoiceActivity,
    Parakeet,
}

/// The analyzer behind an identifier.
pub open spec fn kind_of(id: Seq<char>) -> Option<AnalyzerKind> {
    if id == VOICE_ACTIVITY_ID@ {
        Some(AnalyzerKind::VoiceActivity)
    } else if id == PARAKEET_PLUGIN_ID@ {
        Some(AnalyzerKind::Parakeet)
    } else {
        None
    }
}

/// The analyzers to build, or the first identifier that stands for none.
pub open spec fn planned(items: Seq<LocalAnalyzerSelection>) -> std::result::Result<
    Seq<AnalyzerKind>,
    Seq<char>,
>
    decreases items.len(),
{
    if items.len() == 0 {
        Ok(Seq::empty())
    } else {
        match planned(items.drop_last()) {
            Err(id) => Err(id),
            Ok(kinds) => if !items.last().enabled {
                Ok(kinds)
            } else {
                match kind_of(items.last().id@) {
                    Some(kind) => Ok(kinds.push(kind)),
                    None => Err(items.last().id@),
                }
            },
        }
    }
}

proof fn lemma_unknown_stays(items: Seq<LocalAnalyzerSelection>, n: int)
    requires
        0 <= n <= items.len(),
        planned(items.take(n)) is Err,
    ensures
        planned(items) == planned(items.take(n)),
    decreases items.len(),
{
    if n < items.len() {
        assert(items.drop_last().take(n) =~= items.take(n));
        lemma_unknown_stays(items.drop_last(), n);
    } else {
        assert(items.take(n) =~= items);
    }
}

/// The analyzers to build, in order; fails on the first one that is on and not known.
pub fn plan_analyzers(items: &Vec<LocalAnalyzerSelection>) -> (r: std::result::Result<
    Vec<AnalyzerKind>,
    String,
>)
    ensures
        match planned(items@) {
            Ok(kinds) => r is Ok && r->Ok_0@ == kinds,
            Err(id) => r is Err && r->Err_0@ == "unknown local analyzer plugin: "@ + id,
        },
{
    let mut kinds: Vec<AnalyzerKind> = Vec::new();
    let mut i: usize = 0;
    while i < items.len()
        invariant
            i <= items@.len(),
            planned(items@.take(i as int)) == Ok::<Seq<AnalyzerKind>, Seq<char>>(kinds@),
        decreases items@.len() - i,
    {
        assert(items@.take(i + 1).drop_last() =~= items@.take(i as int));
        if items[i].enabled {
            let id = items[i].id.as_str();
            if text_equal(id, VOICE_ACTIVITY_ID) {
                kinds.push(AnalyzerKind::VoiceActivity);
            } else if text_equal(id, PARAKEET_PLUGIN_ID) {
                kinds.push(AnalyzerKind::Parakeet);
            } else {
                proof {
                    lemma_unknown_stays(items@, i + 1);
                }
                let mut e = owned("unknown local analyzer plugin: ");
                push_text(&mut e, id);
                return Err(e);
            }
        }
        i += 1;
    }
    assert(items@.take(items@.len() as int) =~= items@);
    Ok(kinds)
}

/// What a click on an analyzer without a further key shows: nothing where it has a panel of its
/// own, else a message.
pub fn properties_message(a: &LocalAnalyzerSelection) -> (r: Option<String>)
    ensures
        a.id@ == PARAKEET_PLUGIN_ID@ ==> r is None,
        a.id@ != PARAKEET_PLUGIN_ID@ ==> r is Some && r->0@ == a.name@
            + " has no properties panel (only Parakeet does today)."@,
{
    if text_equal(a.id.as_str(), PARAKEET_PLUGIN_ID) {
        return None;
    }
    let mut s = owned(a.name.as_str());
    push_text(&mut s, " has no properties panel (only Parakeet does today).");
    Some(s)
}

/// What is switched on is listed: the identifiers of the analyzers that are switched on, in order.
pub proof fn switched_on_analyzers_are_listed(
    items: Seq<LocalAnalyzerSelection>,
    pick: spec_fn(LocalAnalyzerSelection) -> Option<Seq<char>>,
)
    requires
        forall|a: LocalAnalyzerSelection| #[trigger]
            pick(a) == if a.enabled {
                Some(a.id@)
            } else {
                None
            },
    ensures
        enabled_ids(items) == items.filter_map(pick),
    decreases items.len(),
{
    if items.len() > 0 {
        switched_on_analyzers_are_listed(items.drop_last(), pick);
    }
    assert(enabled_ids(items) =~= items.filter_map(pick));
}

/// Exactly the analyzers that are switched on are planned, in order; an identifier that nobody
/// knows matters only where it is switched on, and the first such one is named.
pub proof fn switched_on_analyzers_are_planned(
    items: Seq<LocalAnalyzerSelection>,
    pick: spec_fn(LocalAnalyzerSelection) -> Option<AnalyzerKind>,
)
    requires
        forall|a: LocalAnalyzerSelection| #[trigger]
            pick(a) == if !a.enabled {
                None
            } else if a.id@ == VOICE_ACTIVITY_ID@ {
                Some(AnalyzerKind::VoiceActivity)
            } else if a.id@ == PARAKEET_PLUGIN_ID@ {
                Some(AnalyzerKind::Parakeet)
            } else {
                None
            },
    ensures
        match planned(items) {
            Ok(kinds) => {
                &&& kinds == items.filter_map(pick)
                &&& forall|i: int|
                    0 <= i < items.len() && (#[trigger] items[i]).enabled ==> items[i].id@
                        == VOICE_ACTIVITY_ID@ || items[i].id@ == PARAKEET_PLUGIN_ID@
            },
            Err(id) => exists|i: int|
                {
                    &&& 0 <= i < items.len()
                    &&& (#[trigger] items[i]).enabled
                    &&& items[i].id@ == id
                    &&& id != VOICE_ACTIVITY_ID@
                    &&& id != PARAKEET_PLUGIN_ID@
                    &&& forall|j: int|
                        0 <= j < i && (#[trigger] items[j]).enabled ==> items[j].id@
                            == VOICE_ACTIVITY_ID@ || items[j].id@ == PARAKEET_PLUGIN_ID@
                },
        },
    decreases items.len(),
{
    if items.len() > 0 {
        let rest = items.drop_last();
        switched_on_analyzers_are_planned(rest, pick);
        match planned(rest) {
            Ok(kinds) => {
                assert forall|i: int| 0 <= i < rest.len() implies #[trigger] items[i]
                    == rest[i] by {}
                if let Ok(all) = planned(items) {
                    assert(all =~= items.filter_map(pick));
                } else {
                    let i = items.len() - 1;
                    assert(items[i].enabled && items[i].id@ == planned(items)->Err_0);
                }
            },
            Err(id) => {
                let i = choose|i: int|
                    {
                        &&& 0 <= i < rest.len()
                        &&& (#[trigger] rest[i]).enabled
                        &&& rest[i].id@ == id
                        &&& forall|j: int|
                            0 <= j < i && (#[trigger] rest[j]).enabled ==> rest[j].id@
                                == VOICE_ACTIVITY_ID@ || rest[j].id@ == PARAKEET_PLUGIN_ID@
                    };
                assert(items[i].enabled && items[i].id@ == id);
                assert forall|j: int| 0 <= j < i implies #[trigger] items[j] == rest[j] by {}
            },
        }
    }
}

/// Joined parts are the parts in order with the mark between each two: joining more parts behind
/// some is joining them to what the first gave, by one mark.
pub proof fn parts_are_joined_by_the_mark(a: Seq<Seq<char>>, b: Seq<Seq<char>>, mark: Seq<char>)
    requires
        a.len() > 0,
        b.len() > 0,
    ensures
        joined(a + b, mark) == joined(a, mark) + mark + joined(b, mark),
        joined(seq![a[0]], mark) == a[0],
    decreases b.len(),
{
    if b.len() == 1 {
        assert((a + b).drop_last() =~= a);
        assert(joined(a + b, mark) =~= joined(a, mark) + mark + joined(b, mark));
    } else {
        parts_are_joined_by_the_mark(a, b.drop_last(), mark);
        assert((a + b).drop_last() =~= a + b.drop_last());
        assert(joined(a + b, mark) =~= joined(a, mark) + mark + joined(b, mark));
    }
}

} // verus!
