//! Scenario descriptions: the parts made of text, whole numbers and flags,
//! and the values a scenario file falls back to when it leaves a field out.

use vstd::prelude::*;
use vstd::hash_set::StringHashSet;

verus! {

#[derive(Debug, Clone)]
pub struct ScenarioMeta {
    pub id: String,
    pub name: String,
    pub description: String,
    pub author: String,
    /// Story lines shown as an intro overlay when the scenario starts.
    pub intro: Vec<String>,
}

#[derive(Debug, Clone)]
pub struct ScenarioMap {
    pub path: String,
    pub width: Option<usize>,
    pub height: Option<usize>,
    pub biome: Option<String>,
    pub above_ground: bool,
}

#[derive(Debug, Clone, Copy, PartialEq, Eq, Structural)]
pub enum ScenarioPlayerRole {
    Human,
    RivalKeeper,
    Heroes,
    Neutral,
    AboveGround,
}

#[derive(Debug, Clone)]
pub struct HeroPartyDefinition {
    pub id: String,
    pub behavior: HeroPartyBehavior,
    pub members: Vec<HeroPartyMember>,
}

/// What a spawned hero party sets out to do.
#[derive(Debug, Clone, Copy, PartialEq, Eq, Structural)]
pub enum HeroPartyBehavior {
    AttackDungeonHeart,
    DefendLocation,
    StealGold,
    Explore,
}

impl Default for HeroPartyBehavior {
    /// A party attacks the dungeon heart unless told otherwise.
    fn default() -> (r: Self)
        ensures
            r == HeroPartyBehavior::AttackDungeonHeart,
    {
        HeroPartyBehavior::AttackDungeonHeart
    }
}

#[derive(Debug, Clone)]
pub struct HeroPartyMember {
    pub hero: String,
    pub level: u32,
    pub count: u32,
}

/// A flag a scenario leaves out is on.
pub fn default_true() -> (r: bool)
    ensures
        r,
{
    true
}

/// A party member's level when the scenario leaves it out.
pub fn default_level() -> (r: u32)
    ensures
        r == 1,
{
    1
}

/// How many of a party member spawn when the scenario leaves it out.
pub fn default_count() -> (r: u32)
    ensures
        r == 1,
{
    1
}

/// An action point's radius when the scenario leaves it out.
pub fn default_action_point_radius() -> (r: i32)
    ensures
        r == 1,
{
    1
}


/// Whether a room, spell, trap or creature is on offer in a scenario. The
/// owner a rule may be limited to is not kept here.
#[derive(Debug, Clone)]
pub struct AvailabilityRule {
    pub available: bool,
    pub unlocked: bool,
    pub min_level: Option<u32>,
}

/// The availability rules of a scenario, each keyed by the id of the room,
/// spell, trap or creature it governs.
#[derive(Debug, Clone, Default)]
pub struct ScenarioAvailability {
    pub rooms: Vec<(String, AvailabilityRule)>,
    pub spells: Vec<(String, AvailabilityRule)>,
    pub traps: Vec<(String, AvailabilityRule)>,
    pub creatures: Vec<(String, AvailabilityRule)>,
}

/// A rival keeper's plan. The owner it plays as and its attack timings,
/// fractional numbers of seconds, are not kept here.
#[derive(Debug, Clone)]
pub struct RivalKeeperDefinition {
    pub ai_profile: String,
    pub starting_rooms: Vec<String>,
    pub preferred_creatures: Vec<String>,
    pub min_garrison: usize,
    pub raid_size: usize,
    pub dig_batch: usize,
    pub room_size: usize,
}

/// One of a scenario's players. The owner it plays as is not kept here.
#[derive(Debug, Clone)]
pub struct ScenarioPlayer {
    pub id: String,
    pub role: ScenarioPlayerRole,
    pub start_gold: i32,
    pub start_mana: i32,
    pub max_creatures: Option<u32>,
    pub ai_profile: Option<String>,
}

/// A named point on the map that fires events when reached. The owner it
/// may be limited to is not kept here.
#[derive(Debug, Clone)]
pub struct ActionPointDefinition {
    pub id: String,
    pub x: i32,
    pub y: i32,
    pub radius: i32,
}

/// A scenario: its description, map, players and action points, its
/// creature pool (creature ids with how many may be recruited), its
/// availability rules, its hero parties and its rival keepers. Its rules,
/// objectives and events, which hold fractional times and name owners, are
/// not kept here.
#[derive(Debug, Clone)]
pub struct ScenarioDefinition {
    pub meta: ScenarioMeta,
    pub map: ScenarioMap,
    pub players: Vec<ScenarioPlayer>,
    pub action_points: Vec<ActionPointDefinition>,
    pub creature_pool: Vec<(String, u32)>,
    pub availability: ScenarioAvailability,
    pub hero_parties: Vec<HeroPartyDefinition>,
    pub rival_keepers: Vec<RivalKeeperDefinition>,
}

/// The ids of the content the game has loaded, by kind.
pub struct KnownContent {
    pub monsters: StringHashSet,
    pub rooms: StringHashSet,
    pub spells: StringHashSet,
    pub traps: StringHashSet,
    pub heroes: StringHashSet,
}

/// The report on a scenario naming a `kind` of content with an unknown `id`.
pub open spec fn unknown_message(scenario: Seq<char>, kind: Seq<char>, id: Seq<char>) -> Seq<
    char,
> {
    "Scenario '"@ + scenario + "' references unknown "@ + kind + " '"@ + id + "'"@
}

/// The reports on the `ids`, in order, that `known` lacks.
pub open spec fn unknown_refs(
    scenario: Seq<char>,
    kind: Seq<char>,
    ids: Seq<Seq<char>>,
    known: Set<Seq<char>>,
) -> Seq<Seq<char>>
    decreases ids.len(),
{
    if ids.len() == 0 {
        Seq::empty()
    } else {
        unknown_refs(scenario, kind, ids.drop_last(), known) + if known.contains(ids.last()) {
            Seq::<Seq<char>>::empty()
        } else {
            seq![unknown_message(scenario, kind, ids.last())]
        }
    }
}

/// The text of each string.
pub open spec fn texts_of(v: Seq<String>) -> Seq<Seq<char>> {
    v.map_values(|s: String| s@)
}

/// The ids a list of keyed entries names, in order.
pub open spec fn keys_of<T>(v: Seq<(String, T)>) -> Seq<Seq<char>> {
    v.map_values(|e: (String, T)| e.0@)
}

/// The report on a party member naming an unknown hero.
pub open spec fn unknown_hero_message(scenario: Seq<char>, party: Seq<char>, hero: Seq<char>) -> Seq<
    char,
> {
    "Scenario '"@ + scenario + "' party '"@ + party + "' references unknown hero '"@ + hero + "'"@
}

/// The reports on the members of a party, in order, naming unknown heroes.
pub open spec fn member_refs(
    scenario: Seq<char>,
    party: Seq<char>,
    members: Seq<HeroPartyMember>,
    heroes: Set<Seq<char>>,
) -> Seq<Seq<char>>
    decreases members.len(),
{
    if members.len() == 0 {
        Seq::empty()
    } else {
        member_refs(scenario, party, members.drop_last(), heroes) + if heroes.contains(
            members.last().hero@,
        ) {
            Seq::<Seq<char>>::empty()
        } else {
            seq![unknown_hero_message(scenario, party, members.last().hero@)]
        }
    }
}

/// The reports on every party's members, party by party.
pub open spec fn party_refs(
    scenario: Seq<char>,
    parties: Seq<HeroPartyDefinition>,
    heroes: Set<Seq<char>>,
) -> Seq<Seq<char>>
    decreases parties.len(),
{
    if parties.len() == 0 {
        Seq::empty()
    } else {
        party_refs(scenario, parties.drop_last(), heroes) + member_refs(
            scenario,
            parties.last().id@,
            parties.last().members@,
            heroes,
        )
    }
}

/// The reports on every rival keeper's starting rooms, then its preferred
/// creatures, keeper by keeper.
pub open spec fn keeper_refs(
    scenario: Seq<char>,
    keepers: Seq<RivalKeeperDefinition>,
    rooms: Set<Seq<char>>,
    monsters: Set<Seq<char>>,
) -> Seq<Seq<char>>
    decreases keepers.len(),
{
    if keepers.len() == 0 {
        Seq::empty()
    } else {
        let k = keepers.last();
        keeper_refs(scenario, keepers.drop_last(), rooms, monsters) + unknown_refs(
            scenario,
            "rival keeper room"@,
            texts_of(k.starting_rooms@),
            rooms,
        ) + unknown_refs(scenario, "rival keeper creature"@, texts_of(k.preferred_creatures@), monsters)
    }
}

/// Every dangling reference of a scenario, in the order they are checked:
/// the creature pool, the available rooms, spells, traps and creatures, the
/// hero parties' members, then the rival keepers.
pub open spec fn reference_problems(s: ScenarioDefinition, known: KnownContent) -> Seq<Seq<char>> {
    let id = s.meta.id@;
    unknown_refs(id, "creature"@, keys_of(s.creature_pool@), known.monsters@) + unknown_refs(
        id,
        "room"@,
        keys_of(s.availability.rooms@),
        known.rooms@,
    ) + unknown_refs(id, "spell"@, keys_of(s.availability.spells@), known.spells@) + unknown_refs(
        id,
        "trap"@,
        keys_of(s.availability.traps@),
        known.traps@,
    ) + unknown_refs(id, "creature"@, keys_of(s.availability.creatures@), known.monsters@)
        + party_refs(id, s.hero_parties@, known.heroes@) + keeper_refs(
        id,
        s.rival_keepers@,
        known.rooms@,
        known.monsters@,
    )
}

/// `"Scenario '{scenario}' references unknown {kind} '{id}'"`.
fn unknown_text(scenario: &str, kind: &str, id: &str) -> (r: String)
    ensures
        r@ == unknown_message(scenario@, kind@, id@),
{
    let mut s = String::from_str("Scenario '");
    s.append(scenario);
    s.append("' references unknown ");
    s.append(kind);
    s.append(" '");
    s.append(id);
    s.append("'");
    s
}

/// Report, after what `errors` holds, each of `ids` that `known` lacks.
fn check_keys(
    errors: &mut Vec<String>,
    scenario_id: &str,
    kind: &str,
    ids: &Vec<String>,
    known: &StringHashSet,
)
    ensures
        texts_of(final(errors)@) == texts_of(old(errors)@) + unknown_refs(
            scenario_id@,
            kind@,
            texts_of(ids@),
            known@,
        ),
{
    let ghost start = errors@;
    let mut i: usize = 0;
    assert(texts_of(ids@.take(0)) =~= Seq::<Seq<char>>::empty());
    assert(texts_of(errors@) =~= texts_of(start) + Seq::<Seq<char>>::empty());
    while i < ids.len()
        invariant
            i <= ids@.len(),
            texts_of(errors@) == texts_of(start) + unknown_refs(
                scenario_id@,
                kind@,
                texts_of(ids@.take(i as int)),
                known@,
            ),
        decreases ids@.len() - i,
    {
        let ghost done = texts_of(ids@.take(i as int));
        let ghost next = texts_of(ids@.take(i + 1));
        assert(next.drop_last() =~= done);
        assert(next.last() == ids@[i as int]@);
        let ghost before = errors@;
        if !known.contains(ids[i].as_str()) {
            let m = unknown_text(scenario_id, kind, ids[i].as_str());
            errors.push(m);
            assert(texts_of(errors@) =~= texts_of(before).push(m@));
        } else {
            assert(texts_of(errors@) =~= texts_of(before));
        }
        i = i + 1;
        assert(texts_of(errors@) =~= texts_of(start) + unknown_refs(
            scenario_id@,
            kind@,
            next,
            known@,
        ));
    }
    assert(ids@.take(ids@.len() as int) =~= ids@);
}

/// The ids of a list of keyed entries, in order.
fn key_list<T>(entries: &Vec<(String, T)>) -> (r: Vec<String>)
    ensures
        texts_of(r@) == keys_of(entries@),
{
    let mut out: Vec<String> = Vec::new();
    let mut i: usize = 0;
    while i < entries.len()
        invariant
            i <= entries@.len(),
            out@.len() == i,
            forall|j: int| 0 <= j < i ==> (#[trigger] out@[j])@ == entries@[j].0@,
        decreases entries@.len() - i,
    {
        out.push(entries[i].0.clone());
        i = i + 1;
    }
    assert(texts_of(out@) =~= keys_of(entries@));
    out
}

/// Report, after what `errors` holds, each member of `party` naming an
/// unknown hero.
fn check_party(
    errors: &mut Vec<String>,
    scenario_id: &str,
    party: &HeroPartyDefinition,
    heroes: &StringHashSet,
)
    ensures
        texts_of(final(errors)@) == texts_of(old(errors)@) + member_refs(
            scenario_id@,
            party.id@,
            party.members@,
            heroes@,
        ),
{
    let ghost start = errors@;
    let members = &party.members;
    let mut i: usize = 0;
    while i < members.len()
        invariant
            i <= members@.len(),
            *members == party.members,
            texts_of(errors@) == texts_of(start) + member_refs(
                scenario_id@,
                party.id@,
                members@.take(i as int),
                heroes@,
            ),
        decreases members@.len() - i,
    {
        let ghost next = members@.take(i + 1);
        assert(next.drop_last() =~= members@.take(i as int));
        assert(next.last() == members@[i as int]);
        let ghost before = errors@;
        let hero = members[i].hero.as_str();
        if !heroes.contains(hero) {
            let mut s = String::from_str("Scenario '");
            s.append(scenario_id);
            s.append("' party '");
            s.append(party.id.as_str());
            s.append("' references unknown hero '");
            s.append(hero);
            s.append("'");
            errors.push(s);
            assert(texts_of(errors@) =~= texts_of(before).push(s@));
        } else {
            assert(texts_of(errors@) =~= texts_of(before));
        }
        i = i + 1;
        assert(texts_of(errors@) =~= texts_of(start) + member_refs(
            scenario_id@,
            party.id@,
            next,
            heroes@,
        ));
    }
    assert(members@.take(members@.len() as int) =~= members@);
}

impl ScenarioDefinition {
    /// Every reference the scenario makes to content the game does not
    /// know, as one message each, in the order of [`reference_problems`].
    pub fn validate_references(&self, known: &KnownContent) -> (errors: Vec<String>)
        ensures
            texts_of(errors@) == reference_problems(*self, *known),
    {
        let id = self.meta.id.as_str();
        let mut errors: Vec<String> = Vec::new();
        assert(texts_of(errors@) =~= Seq::<Seq<char>>::empty());
        check_keys(&mut errors, id, "creature", &key_list(&self.creature_pool), &known.monsters);
        check_keys(&mut errors, id, "room", &key_list(&self.availability.rooms), &known.rooms);
        check_keys(&mut errors, id, "spell", &key_list(&self.availability.spells), &known.spells);
        check_keys(&mut errors, id, "trap", &key_list(&self.availability.traps), &known.traps);
        check_keys(
            &mut errors,
            id,
            "creature",
            &key_list(&self.availability.creatures),
            &known.monsters,
        );
        let ghost before_parties = errors@;
        let parties = &self.hero_parties;
        let mut p: usize = 0;
        while p < parties.len()
            invariant
                p <= parties@.len(),
                *parties == self.hero_parties,
                texts_of(errors@) == texts_of(before_parties) + party_refs(
                    id@,
                    parties@.take(p as int),
                    known.heroes@,
                ),
            decreases parties@.len() - p,
        {
            assert(parties@.take(p + 1).drop_last() =~= parties@.take(p as int));
            check_party(&mut errors, id, &parties[p], &known.heroes);
            p = p + 1;
            assert(texts_of(errors@) =~= texts_of(before_parties) + party_refs(
                id@,
                parties@.take(p as int),
                known.heroes@,
            ));
        }
        assert(parties@.take(parties@.len() as int) =~= parties@);
        let ghost before_keepers = errors@;
        let keepers = &self.rival_keepers;
        let mut k: usize = 0;
        while k < keepers.len()
            invariant
                k <= keepers@.len(),
                *keepers == self.rival_keepers,
                texts_of(errors@) == texts_of(before_keepers) + keeper_refs(
                    id@,
                    keepers@.take(k as int),
                    known.rooms@,
                    known.monsters@,
                ),
            decreases keepers@.len() - k,
        {
            assert(keepers@.take(k + 1).drop_last() =~= keepers@.take(k as int));
            check_keys(
                &mut errors,
                id,
                "rival keeper room",
                &keepers[k].starting_rooms,
                &known.rooms,
            );
            check_keys(
                &mut errors,
                id,
                "rival keeper creature",
                &keepers[k].preferred_creatures,
                &known.monsters,
            );
            k = k + 1;
            assert(texts_of(errors@) =~= texts_of(before_keepers) + keeper_refs(
                id@,
                keepers@.take(k as int),
                known.rooms@,
                known.monsters@,
            ));
        }
        assert(keepers@.take(keepers@.len() as int) =~= keepers@);
        errors
    }
}

/// Every dangling reference of every scenario, scenario by scenario.
pub open spec fn all_reference_problems(scenarios: Seq<ScenarioDefinition>, known: KnownContent) -> Seq<
    Seq<char>,
>
    decreases scenarios.len(),
{
    if scenarios.len() == 0 {
        Seq::empty()
    } else {
        all_reference_problems(scenarios.drop_last(), known) + reference_problems(
            scenarios.last(),
            known,
        )
    }
}

/// The reference problems of all `scenarios`, one after another.
pub fn validate_scenarios(scenarios: &Vec<ScenarioDefinition>, known: &KnownContent) -> (errors: Vec<
    String,
>)
    ensures
        texts_of(errors@) == all_reference_problems(scenarios@, *known),
{
    let mut errors: Vec<String> = Vec::new();
    let mut i: usize = 0;
    assert(texts_of(errors@) =~= Seq::<Seq<char>>::empty());
    while i < scenarios.len()
        invariant
            i <= scenarios@.len(),
            texts_of(errors@) == all_reference_problems(scenarios@.take(i as int), *known),
        decreases scenarios@.len() - i,
    {
        let ghost before = errors@;
        assert(scenarios@.take(i + 1).drop_last() =~= scenarios@.take(i as int));
        let mut more = scenarios[i].validate_references(known);
        errors.append(&mut more);
        i = i + 1;
        assert(texts_of(errors@) =~= all_reference_problems(scenarios@.take(i as int), *known));
    }
    assert(scenarios@.take(scenarios@.len() as int) =~= scenarios@);
    errors
}

/// Every id of `ids` is among `known`.
pub open spec fn all_known(ids: Seq<Seq<char>>, known: Set<Seq<char>>) -> bool {
    forall|i: int| 0 <= i < ids.len() ==> known.contains(#[trigger] ids[i])
}

/// Every member of every party is a known hero.
pub open spec fn parties_resolve(parties: Seq<HeroPartyDefinition>, heroes: Set<Seq<char>>) -> bool {
    forall|p: int|
        0 <= p < parties.len() ==> forall|m: int|
            0 <= m < (#[trigger] parties[p]).members@.len() ==> heroes.contains(
                (#[trigger] parties[p].members@[m]).hero@,
            )
}

/// Every rival keeper starts with known rooms and prefers known creatures.
pub open spec fn keepers_resolve(
    keepers: Seq<RivalKeeperDefinition>,
    rooms: Set<Seq<char>>,
    monsters: Set<Seq<char>>,
) -> bool {
    forall|k: int|
        0 <= k < keepers.len() ==> all_known(texts_of((#[trigger] keepers[k]).starting_rooms@), rooms)
            && all_known(texts_of(keepers[k].preferred_creatures@), monsters)
}

/// Every id a scenario names is one the game knows, of the right kind.
pub open spec fn references_resolve(s: ScenarioDefinition, known: KnownContent) -> bool {
    &&& all_known(keys_of(s.creature_pool@), known.monsters@)
    &&& all_known(keys_of(s.availability.rooms@), known.rooms@)
    &&& all_known(keys_of(s.availability.spells@), known.spells@)
    &&& all_known(keys_of(s.availability.traps@), known.traps@)
    &&& all_known(keys_of(s.availability.creatures@), known.monsters@)
    &&& parties_resolve(s.hero_parties@, known.heroes@)
    &&& keepers_resolve(s.rival_keepers@, known.rooms@, known.monsters@)
}

proof fn lemma_unknown_refs_empty(
    scenario: Seq<char>,
    kind: Seq<char>,
    ids: Seq<Seq<char>>,
    known: Set<Seq<char>>,
)
    ensures
        unknown_refs(scenario, kind, ids, known).len() == 0 <==> all_known(ids, known),
    decreases ids.len(),
{
    if ids.len() > 0 {
        lemma_unknown_refs_empty(scenario, kind, ids.drop_last(), known);
        if all_known(ids, known) {
            assert forall|i: int| 0 <= i < ids.drop_last().len() implies known.contains(
                #[trigger] ids.drop_last()[i],
            ) by {
                assert(ids.drop_last()[i] == ids[i]);
            }
            assert(known.contains(ids[ids.len() - 1]));
        }
        if unknown_refs(scenario, kind, ids, known).len() == 0 {
            assert forall|i: int| 0 <= i < ids.len() implies known.contains(#[trigger] ids[i]) by {
                if i < ids.len() - 1 {
                    assert(ids.drop_last()[i] == ids[i]);
                }
            }
        }
    }
}

proof fn lemma_member_refs_empty(
    scenario: Seq<char>,
    party: Seq<char>,
    members: Seq<HeroPartyMember>,
    heroes: Set<Seq<char>>,
)
    ensures
        member_refs(scenario, party, members, heroes).len() == 0 <==> forall|m: int|
            0 <= m < members.len() ==> heroes.contains((#[trigger] members[m]).hero@),
    decreases members.len(),
{
    if members.len() > 0 {
        lemma_member_refs_empty(scenario, party, members.drop_last(), heroes);
        if forall|m: int| 0 <= m < members.len() ==> heroes.contains((#[trigger] members[m]).hero@) {
            assert forall|m: int| 0 <= m < members.drop_last().len() implies heroes.contains(
                (#[trigger] members.drop_last()[m]).hero@,
            ) by {
                assert(members.drop_last()[m] == members[m]);
            }
            assert(heroes.contains(members[members.len() - 1].hero@));
        }
        if member_refs(scenario, party, members, heroes).len() == 0 {
            assert forall|m: int| 0 <= m < members.len() implies heroes.contains(
                (#[trigger] members[m]).hero@,
            ) by {
                if m < members.len() - 1 {
                    assert(members.drop_last()[m] == members[m]);
                }
            }
        }
    }
}

proof fn lemma_party_refs_empty(
    scenario: Seq<char>,
    parties: Seq<HeroPartyDefinition>,
    heroes: Set<Seq<char>>,
)
    ensures
        party_refs(scenario, parties, heroes).len() == 0 <==> parties_resolve(parties, heroes),
    decreases parties.len(),
{
    if parties.len() > 0 {
        let last = parties.last();
        lemma_party_refs_empty(scenario, parties.drop_last(), heroes);
        lemma_member_refs_empty(scenario, last.id@, last.members@, heroes);
        if parties_resolve(parties, heroes) {
            assert forall|p: int| 0 <= p < parties.drop_last().len() implies forall|m: int|
                0 <= m < (#[trigger] parties.drop_last()[p]).members@.len() ==> heroes.contains(
                    (#[trigger] parties.drop_last()[p].members@[m]).hero@,
                ) by {
                assert(parties.drop_last()[p] == parties[p]);
            }
            assert forall|m: int| 0 <= m < last.members@.len() implies heroes.contains(
                (#[trigger] last.members@[m]).hero@,
            ) by {
                assert(parties[parties.len() - 1].members@[m] == last.members@[m]);
            }
        }
        if party_refs(scenario, parties, heroes).len() == 0 {
            assert forall|p: int| 0 <= p < parties.len() implies forall|m: int|
                0 <= m < (#[trigger] parties[p]).members@.len() ==> heroes.contains(
                    (#[trigger] parties[p].members@[m]).hero@,
                ) by {
                if p < parties.len() - 1 {
                    assert(parties.drop_last()[p] == parties[p]);
                }
            }
        }
    }
}

proof fn lemma_keeper_refs_empty(
    scenario: Seq<char>,
    keepers: Seq<RivalKeeperDefinition>,
    rooms: Set<Seq<char>>,
    monsters: Set<Seq<char>>,
)
    ensures
        keeper_refs(scenario, keepers, rooms, monsters).len() == 0 <==> keepers_resolve(
            keepers,
            rooms,
            monsters,
        ),
    decreases keepers.len(),
{
    if keepers.len() > 0 {
        let last = keepers.last();
        lemma_keeper_refs_empty(scenario, keepers.drop_last(), rooms, monsters);
        lemma_unknown_refs_empty(
            scenario,
            "rival keeper room"@,
            texts_of(last.starting_rooms@),
            rooms,
        );
        lemma_unknown_refs_empty(
            scenario,
            "rival keeper creature"@,
            texts_of(last.preferred_creatures@),
            monsters,
        );
        if keepers_resolve(keepers, rooms, monsters) {
            assert forall|k: int| 0 <= k < keepers.drop_last().len() implies all_known(
                texts_of((#[trigger] keepers.drop_last()[k]).starting_rooms@),
                rooms,
            ) && all_known(texts_of(keepers.drop_last()[k].preferred_creatures@), monsters) by {
                assert(keepers.drop_last()[k] == keepers[k]);
            }
            assert(keepers[keepers.len() - 1] == last);
        }
        if keeper_refs(scenario, keepers, rooms, monsters).len() == 0 {
            assert forall|k: int| 0 <= k < keepers.len() implies all_known(
                texts_of((#[trigger] keepers[k]).starting_rooms@),
                rooms,
            ) && all_known(texts_of(keepers[k].preferred_creatures@), monsters) by {
                if k < keepers.len() - 1 {
                    assert(keepers.drop_last()[k] == keepers[k]);
                }
            }
        }
    }
}

/// A scenario passes the reference check, with nothing reported, exactly
/// when every id it names is known content of the right kind.
pub proof fn clean_scenarios_name_only_known_content(s: ScenarioDefinition, known: KnownContent)
    ensures
        reference_problems(s, known).len() == 0 <==> references_resolve(s, known),
{
    let id = s.meta.id@;
    lemma_unknown_refs_empty(id, "creature"@, keys_of(s.creature_pool@), known.monsters@);
    lemma_unknown_refs_empty(id, "room"@, keys_of(s.availability.rooms@), known.rooms@);
    lemma_unknown_refs_empty(id, "spell"@, keys_of(s.availability.spells@), known.spells@);
    lemma_unknown_refs_empty(id, "trap"@, keys_of(s.availability.traps@), known.traps@);
    lemma_unknown_refs_empty(id, "creature"@, keys_of(s.availability.creatures@), known.monsters@);
    lemma_party_refs_empty(id, s.hero_parties@, known.heroes@);
    lemma_keeper_refs_empty(id, s.rival_keepers@, known.rooms@, known.monsters@);
}

} // verus!
