//! Content packs: manifests naming data files, and merging a pack's items
//! over the base game's by id, later items replacing earlier ones.

use vstd::prelude::*;
use vstd::hash_map::StringHashMap;
use crate::campaign::CampaignDefinition;
use crate::scenario::ScenarioDefinition;
use crate::technologies::TechData;

verus! {

/// Content that carries a string id by which packs override it.
pub trait Identified {
    /// The item's id as a value: what `id` returns.
    spec fn spec_id(&self) -> Seq<char>;

    fn id(&self) -> (r: &str)
        ensures
            r@ == self.spec_id(),
    ;
}

impl Identified for CampaignDefinition {
    open spec fn spec_id(&self) -> Seq<char> {
        self.id@
    }

    fn id(&self) -> (r: &str) {
        self.id.as_str()
    }
}

impl Identified for TechData {
    open spec fn spec_id(&self) -> Seq<char> {
        self.id@
    }

    fn id(&self) -> (r: &str) {
        self.id.as_str()
    }
}

impl Identified for ScenarioDefinition {
    open spec fn spec_id(&self) -> Seq<char> {
        self.meta.id@
    }

    fn id(&self) -> (r: &str) {
        self.meta.id.as_str()
    }
}

/// A pack's `pack.json`.
#[derive(Debug, Clone, Default)]
pub struct ContentPackManifest {
    pub id: String,
    pub name: String,
    pub version: String,
    pub priority: i32,
    pub data: ContentPackDataPaths,
    pub assets: Vec<String>,
    pub maps: Vec<String>,
}

/// The data files a pack supplies, per kind of content, relative to the
/// pack's root.
#[derive(Debug, Clone, Default)]
pub struct ContentPackDataPaths {
    pub tiles: Vec<String>,
    pub rooms: Vec<String>,
    pub monsters: Vec<String>,
    pub heroes: Vec<String>,
    pub spells: Vec<String>,
    pub traps: Vec<String>,
    pub technologies: Vec<String>,
    pub traits: Vec<String>,
    pub hero_buildings: Vec<String>,
    pub scenarios: Vec<String>,
    pub campaigns: Vec<String>,
}

/// The pack directories to apply, in order.
#[derive(Debug, Clone, Default)]
pub struct ContentPackLoadOrder {
    pub packs: Vec<String>,
}

/// Which ids a pack added and which it replaced.
#[derive(Debug, Clone, Default, PartialEq, Eq)]
pub struct ContentPackReport {
    pub pack_id: String,
    pub replaced_ids: Vec<String>,
    pub added_ids: Vec<String>,
}

/// The text of each string in a list.
pub open spec fn texts(v: Seq<String>) -> Seq<Seq<char>> {
    v.map_values(|s: String| s@)
}

/// Merging `items` into a map by id, one at a time: the resulting map, and
/// the ids that replaced an entry and that added one, in item order.
pub open spec fn merged<T: Identified>(m: Map<Seq<char>, T>, items: Seq<T>) -> (
    Map<Seq<char>, T>,
    Seq<Seq<char>>,
    Seq<Seq<char>>,
)
    decreases items.len(),
{
    if items.len() == 0 {
        (m, Seq::empty(), Seq::empty())
    } else {
        let (m1, replaced, added) = merged(m, items.drop_last());
        let item = items.last();
        let id = item.spec_id();
        if m1.contains_key(id) {
            (m1.insert(id, item), replaced.push(id), added)
        } else {
            (m1.insert(id, item), replaced, added.push(id))
        }
    }
}

/// Merge `items` into `target` by id, in order: each item replaces any
/// entry with its id. The report lists, in item order, the ids that
/// replaced an existing entry and the ids that were new; its `pack_id` is
/// left empty.
pub fn merge_items<T: Identified>(target: &mut StringHashMap<T>, items: Vec<T>) -> (report:
    ContentPackReport)
    ensures
        final(target)@ == merged(old(target)@, items@).0,
        texts(report.replaced_ids@) == merged(old(target)@, items@).1,
        texts(report.added_ids@) == merged(old(target)@, items@).2,
        report.pack_id@ == Seq::<char>::empty(),
{
    let ghost all = items@;
    let mut rest = items;
    let mut replaced_ids: Vec<String> = Vec::new();
    let mut added_ids: Vec<String> = Vec::new();
    let mut i: usize = 0;
    let total = rest.len();
    while rest.len() > 0
        invariant
            total == all.len(),
            i <= all.len(),
            rest@ == all.skip(i as int),
            i + rest@.len() == all.len(),
            target@ == merged(old(target)@, all.take(i as int)).0,
            texts(replaced_ids@) == merged(old(target)@, all.take(i as int)).1,
            texts(added_ids@) == merged(old(target)@, all.take(i as int)).2,
        decreases rest@.len(),
    {
        let item = rest.remove(0);
        assert(all.take(i + 1).drop_last() =~= all.take(i as int));
        assert(all.take(i + 1).last() == item);
        let id = item.id().to_owned();
        if target.contains_key(id.as_str()) {
            replaced_ids.push(id.clone());
        } else {
            added_ids.push(id.clone());
        }
        target.insert(id, item);
        i = i + 1;
        assert(rest@ =~= all.skip(i as int));
        assert(texts(replaced_ids@) =~= merged(old(target)@, all.take(i as int)).1);
        assert(texts(added_ids@) =~= merged(old(target)@, all.take(i as int)).2);
    }
    assert(all.take(i as int) =~= all);
    ContentPackReport { pack_id: String::new(), replaced_ids, added_ids }
}

/// Merge the items of one data file into `target`, and record in `report`,
/// after what it already lists, the ids they replaced and the ids they added.
pub fn merge_into_report<T: Identified>(
    target: &mut StringHashMap<T>,
    items: Vec<T>,
    report: &mut ContentPackReport,
)
    ensures
        final(target)@ == merged(old(target)@, items@).0,
        texts(final(report).replaced_ids@) == texts(old(report).replaced_ids@) + merged(
            old(target)@,
            items@,
        ).1,
        texts(final(report).added_ids@) == texts(old(report).added_ids@) + merged(
            old(target)@,
            items@,
        ).2,
        final(report).pack_id == old(report).pack_id,
{
    let file_report = merge_items(target, items);
    let mut replaced = file_report.replaced_ids;
    let mut added = file_report.added_ids;
    let ghost before_replaced = report.replaced_ids@;
    let ghost before_added = report.added_ids@;
    report.replaced_ids.append(&mut replaced);
    report.added_ids.append(&mut added);
    proof {
        assert(texts(report.replaced_ids@) =~= texts(before_replaced) + texts(
            file_report.replaced_ids@,
        ));
        assert(texts(report.added_ids@) =~= texts(before_added) + texts(file_report.added_ids@));
    }
}

/// Later items win: after a merge, an id carried by some item maps to the
/// last item carrying it, every other id keeps its old entry, and nothing
/// else is added.
pub proof fn later_items_win<T: Identified>(m: Map<Seq<char>, T>, items: Seq<T>)
    ensures
        forall|id: Seq<char>|
            #[trigger] merged(m, items).0.contains_key(id) <==> (m.contains_key(id) || exists|i: int|
                0 <= i < items.len() && items[i].spec_id() == id),
        forall|i: int|
            0 <= i < items.len() && (forall|j: int|
                i < j < items.len() ==> (#[trigger] items[j]).spec_id() != items[i].spec_id())
                ==> merged(m, items).0[(#[trigger] items[i]).spec_id()] == items[i],
        forall|id: Seq<char>|
            m.contains_key(id) && (forall|i: int| 0 <= i < items.len() ==> (#[trigger] items[i]).spec_id() != id)
                ==> #[trigger] merged(m, items).0[id] == m[id],
        merged(m, items).1.len() + merged(m, items).2.len() == items.len(),
    decreases items.len(),
{
    if items.len() > 0 {
        let rest = items.drop_last();
        later_items_win(m, rest);
        let last = items.last();
        assert forall|id: Seq<char>|
            #[trigger] merged(m, items).0.contains_key(id) <==> (m.contains_key(id) || exists|i: int|
                0 <= i < items.len() && items[i].spec_id() == id) by {
            if merged(m, items).0.contains_key(id) && id != last.spec_id() && !m.contains_key(id) {
                let i = choose|i: int| 0 <= i < rest.len() && rest[i].spec_id() == id;
                assert(items[i] == rest[i]);
            }
            if exists|i: int| 0 <= i < items.len() && items[i].spec_id() == id {
                let i = choose|i: int| 0 <= i < items.len() && items[i].spec_id() == id;
                if i < rest.len() {
                    assert(rest[i] == items[i]);
                }
            }
        }
        assert forall|i: int|
            0 <= i < items.len() && (forall|j: int|
                i < j < items.len() ==> (#[trigger] items[j]).spec_id() != items[i].spec_id())
                implies merged(m, items).0[(#[trigger] items[i]).spec_id()] == items[i] by {
            if i < rest.len() {
                assert(items[i] == rest[i]);
                assert(items[items.len() - 1].spec_id() != items[i].spec_id());
                assert forall|j: int| i < j < rest.len() implies (#[trigger] rest[j]).spec_id()
                    != rest[i].spec_id() by {
                    assert(rest[j] == items[j]);
                }
            }
        }
        assert forall|id: Seq<char>|
            m.contains_key(id) && (forall|i: int| 0 <= i < items.len() ==> (#[trigger] items[i]).spec_id() != id)
                implies #[trigger] merged(m, items).0[id] == m[id] by {
            assert(items[items.len() - 1].spec_id() != id);
            assert forall|i: int| 0 <= i < rest.len() implies (#[trigger] rest[i]).spec_id() != id by {
                assert(rest[i] == items[i]);
            }
        }
    }
}

} // verus!
