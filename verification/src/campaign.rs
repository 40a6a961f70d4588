//! Campaigns: an authored list of missions, and a player's progress through
//! it.

use vstd::prelude::*;
use vstd::hash_set::StringHashSet;
use crate::text::clone_strings;

verus! {

/// A campaign as authored: its missions in order, which one starts, and what
/// it unlocks for good.
#[derive(Debug, Clone)]
pub struct CampaignDefinition {
    pub id: String,
    pub name: String,
    pub description: String,
    pub starting_mission: String,
    pub missions: Vec<CampaignMission>,
    pub persistent_unlocks: CampaignUnlocks,
}

/// One mission of a campaign.
#[derive(Debug, Clone)]
pub struct CampaignMission {
    pub id: String,
    pub scenario_id: String,
    pub name: String,
    pub briefing: String,
    /// Missions that become unlocked once this one is completed.
    pub unlocks_after: Vec<String>,
    /// Missions that must all be completed before this one can be played.
    pub required_completed: Vec<String>,
}

/// Content a campaign makes available in every one of its missions.
#[derive(Debug, Clone, Default)]
pub struct CampaignUnlocks {
    pub rooms: Vec<String>,
    pub spells: Vec<String>,
    pub traps: Vec<String>,
    pub creatures: Vec<String>,
}

impl CampaignUnlocks {
    /// A field-for-field copy.
    pub fn duplicate(&self) -> (r: Self)
        ensures
            r.rooms@ == self.rooms@,
            r.spells@ == self.spells@,
            r.traps@ == self.traps@,
            r.creatures@ == self.creatures@,
    {
        CampaignUnlocks {
            rooms: clone_strings(&self.rooms),
            spells: clone_strings(&self.spells),
            traps: clone_strings(&self.traps),
            creatures: clone_strings(&self.creatures),
        }
    }
}

/// A player's progress through one campaign.
pub struct CampaignProgress {
    pub campaign_id: String,
    pub active_mission: String,
    pub completed_missions: StringHashSet,
    pub unlocked_missions: StringHashSet,
    pub persistent_unlocks: CampaignUnlocks,
}

/// Where a mission stands for the mission-select screen.
#[derive(Debug, Clone, Copy, PartialEq, Eq, Structural)]
pub enum MissionStatus {
    /// Beaten already — replayable.
    Completed,
    /// Unlocked and its prerequisites are met — playable now.
    Available,
    /// Not yet reachable.
    Locked,
}

/// One line of the mission-select screen.
#[derive(Debug, Clone, PartialEq, Eq)]
pub struct MissionMenuEntry {
    pub id: String,
    pub name: String,
    pub scenario_id: String,
    pub briefing: String,
    pub status: MissionStatus,
}

/// The first index of `ms` whose mission satisfies `pred`.
pub open spec fn first_index(
    ms: Seq<CampaignMission>,
    pred: spec_fn(CampaignMission) -> bool,
) -> Option<int>
    decreases ms.len(),
{
    if ms.len() == 0 {
        None
    } else {
        match first_index(ms.drop_last(), pred) {
            Some(k) => Some(k),
            None => if pred(ms.last()) {
                Some(ms.len() - 1)
            } else {
                None
            },
        }
    }
}

/// A mission is the one named `id`.
pub open spec fn has_id(id: Seq<char>) -> spec_fn(CampaignMission) -> bool {
    |m: CampaignMission| m.id@ == id
}

/// Every mission `m` requires has been completed.
pub open spec fn prerequisites_met(m: CampaignMission, completed: Set<Seq<char>>) -> bool {
    forall|i: int|
        0 <= i < m.required_completed@.len() ==> completed.contains(
            (#[trigger] m.required_completed@[i])@,
        )
}

/// The status of `m` given the completed and unlocked mission ids.
pub open spec fn status_of(
    m: CampaignMission,
    completed: Set<Seq<char>>,
    unlocked: Set<Seq<char>>,
) -> MissionStatus {
    if completed.contains(m.id@) {
        MissionStatus::Completed
    } else if unlocked.contains(m.id@) && prerequisites_met(m, completed) {
        MissionStatus::Available
    } else {
        MissionStatus::Locked
    }
}

/// A mission is playable now.
pub open spec fn is_available(
    completed: Set<Seq<char>>,
    unlocked: Set<Seq<char>>,
) -> spec_fn(CampaignMission) -> bool {
    |m: CampaignMission| status_of(m, completed, unlocked) == MissionStatus::Available
}

/// The mission a new progress starts on: the authored starting mission, or
/// else the first mission, or else none (the empty id).
pub open spec fn starting_mission_of(c: CampaignDefinition) -> Seq<char> {
    if c.starting_mission@.len() == 0 {
        if c.missions@.len() > 0 {
            c.missions@[0].id@
        } else {
            Seq::empty()
        }
    } else {
        c.starting_mission@
    }
}

/// The missions of `ms` whose ids are unlocked, in authored order.
pub open spec fn missions_unlocked(ms: Seq<CampaignMission>, unlocked: Set<Seq<char>>) -> Seq<
    CampaignMission,
>
    decreases ms.len(),
{
    if ms.len() == 0 {
        Seq::empty()
    } else {
        let rest = missions_unlocked(ms.drop_last(), unlocked);
        if unlocked.contains(ms.last().id@) {
            rest.push(ms.last())
        } else {
            rest
        }
    }
}

/// The unlocked ids once `m` has been completed: its `unlocks_after` added.
pub open spec fn unlocked_after(m: CampaignMission, unlocked: Set<Seq<char>>) -> Set<Seq<char>> {
    unlocked.union(m.unlocks_after@.map_values(|s: String| s@).to_set())
}

/// The first index found in a prefix stays the first index of the whole.
proof fn lemma_first_index_prefix(
    ms: Seq<CampaignMission>,
    pred: spec_fn(CampaignMission) -> bool,
    i: int,
)
    requires
        0 <= i <= ms.len(),
        first_index(ms.take(i), pred) is Some,
    ensures
        first_index(ms, pred) == first_index(ms.take(i), pred),
    decreases ms.len() - i,
{
    if i < ms.len() {
        assert(ms.take(i + 1).drop_last() =~= ms.take(i));
        lemma_first_index_prefix(ms, pred, i + 1);
    } else {
        assert(ms.take(i) =~= ms);
    }
}

/// Extending a prefix that has no match by one mission.
proof fn lemma_first_index_step(
    ms: Seq<CampaignMission>,
    pred: spec_fn(CampaignMission) -> bool,
    i: int,
)
    requires
        0 <= i < ms.len(),
        first_index(ms.take(i), pred) is None,
    ensures
        first_index(ms.take(i + 1), pred) == (if pred(ms[i]) {
            Some(i)
        } else {
            None::<int>
        }),
{
    assert(ms.take(i + 1).drop_last() =~= ms.take(i));
}

/// The index of the first mission named `id`.
pub fn find_mission(missions: &Vec<CampaignMission>, id: &str) -> (r: Option<usize>)
    ensures
        match r {
            Some(i) => first_index(missions@, has_id(id@)) == Some(i as int) && i
                < missions@.len(),
            None => first_index(missions@, has_id(id@)) is None,
        },
{
    let mut i: usize = 0;
    assert(missions@.take(0) =~= Seq::<CampaignMission>::empty());
    while i < missions.len()
        invariant
            i <= missions@.len(),
            first_index(missions@.take(i as int), has_id(id@)) is None,
        decreases missions@.len() - i,
    {
        proof {
            lemma_first_index_step(missions@, has_id(id@), i as int);
        }
        if crate::text::str_equal(missions[i].id.as_str(), id) {
            proof {
                lemma_first_index_prefix(missions@, has_id(id@), i + 1);
            }
            return Some(i);
        }
        i = i + 1;
    }
    assert(missions@.take(missions@.len() as int) =~= missions@);
    None
}

/// Whether every id in `ids` is in `set`.
fn all_in(ids: &Vec<String>, set: &StringHashSet) -> (r: bool)
    ensures
        r == forall|i: int| 0 <= i < ids@.len() ==> set@.contains((#[trigger] ids@[i])@),
{
    let mut i: usize = 0;
    while i < ids.len()
        invariant
            i <= ids@.len(),
            forall|k: int| 0 <= k < i ==> set@.contains((#[trigger] ids@[k])@),
        decreases ids@.len() - i,
    {
        if !set.contains(ids[i].as_str()) {
            return false;
        }
        i = i + 1;
    }
    true
}

impl CampaignProgress {
    /// Start a campaign: its starting mission (or else its first) is active
    /// and unlocked, nothing is completed, and the campaign's persistent
    /// unlocks are carried along.
    pub fn new(campaign: &CampaignDefinition) -> (r: Self)
        ensures
            r.campaign_id@ == campaign.id@,
            r.active_mission@ == starting_mission_of(*campaign),
            r.completed_missions@ == Set::<Seq<char>>::empty(),
            r.unlocked_missions@ == (if starting_mission_of(*campaign).len() == 0 {
                Set::<Seq<char>>::empty()
            } else {
                Set::<Seq<char>>::empty().insert(starting_mission_of(*campaign))
            }),
            r.persistent_unlocks.rooms@ == campaign.persistent_unlocks.rooms@,
            r.persistent_unlocks.spells@ == campaign.persistent_unlocks.spells@,
            r.persistent_unlocks.traps@ == campaign.persistent_unlocks.traps@,
            r.persistent_unlocks.creatures@ == campaign.persistent_unlocks.creatures@,
    {
        let active_mission = if campaign.starting_mission.as_str().is_empty() {
            if campaign.missions.len() > 0 {
                campaign.missions[0].id.clone()
            } else {
                String::new()
            }
        } else {
            campaign.starting_mission.clone()
        };
        let mut unlocked_missions = StringHashSet::new();
        if !active_mission.as_str().is_empty() {
            unlocked_missions.insert(active_mission.clone());
        }
        CampaignProgress {
            campaign_id: campaign.id.clone(),
            active_mission,
            completed_missions: StringHashSet::new(),
            unlocked_missions,
            persistent_unlocks: campaign.persistent_unlocks.duplicate(),
        }
    }

    /// Status of a mission for the mission-select screen.
    pub fn mission_status(&self, mission: &CampaignMission) -> (r: MissionStatus)
        ensures
            r == status_of(*mission, self.completed_missions@, self.unlocked_missions@),
            r == MissionStatus::Available ==> forall|i: int|
                0 <= i < mission.required_completed@.len() ==> self.completed_missions@.contains(
                    (#[trigger] mission.required_completed@[i])@,
                ),
    {
        if self.completed_missions.contains(mission.id.as_str()) {
            MissionStatus::Completed
        } else if self.unlocked_missions.contains(mission.id.as_str()) && all_in(
            &mission.required_completed,
            &self.completed_missions,
        ) {
            MissionStatus::Available
        } else {
            MissionStatus::Locked
        }
    }

    /// Record `mission_id` as completed: it joins the completed missions, the
    /// missions it unlocks (if a mission of that id is authored) join the
    /// unlocked ones, and the first mission that is then playable, if any,
    /// becomes the active one.
    pub fn complete_mission(&mut self, campaign: &CampaignDefinition, mission_id: &str)
        ensures
            final(self).completed_missions@ == old(self).completed_missions@.insert(mission_id@),
            final(self).unlocked_missions@ == (match first_index(
                campaign.missions@,
                has_id(mission_id@),
            ) {
                Some(k) => unlocked_after(campaign.missions@[k], old(self).unlocked_missions@),
                None => old(self).unlocked_missions@,
            }),
            final(self).active_mission@ == (match first_index(
                campaign.missions@,
                is_available(final(self).completed_missions@, final(self).unlocked_missions@),
            ) {
                Some(k) => campaign.missions@[k].id@,
                None => old(self).active_mission@,
            }),
            final(self).campaign_id == old(self).campaign_id,
            final(self).persistent_unlocks == old(self).persistent_unlocks,
    {
        self.completed_missions.insert(mission_id.to_owned());
        if let Some(k) = find_mission(&campaign.missions, mission_id) {
            let unlocks = &campaign.missions[k].unlocks_after;
            let ghost start = self.unlocked_missions@;
            let mut i: usize = 0;
            while i < unlocks.len()
                invariant
                    i <= unlocks@.len(),
                    self.unlocked_missions@ == start.union(
                        unlocks@.take(i as int).map_values(|s: String| s@).to_set(),
                    ),
                    self.completed_missions@ == old(self).completed_missions@.insert(mission_id@),
                    self.campaign_id == old(self).campaign_id,
                    self.active_mission == old(self).active_mission,
                    self.persistent_unlocks == old(self).persistent_unlocks,
                decreases unlocks@.len() - i,
            {
                self.unlocked_missions.insert(unlocks[i].clone());
                proof {
                    let f = |s: String| s@;
                    assert(unlocks@.take(i + 1).map_values(f) =~= unlocks@.take(i as int).map_values(
                        f,
                    ).push(unlocks@[i as int]@));
                    unlocks@.take(i as int).map_values(f).lemma_push_to_set_commute(
                        unlocks@[i as int]@,
                    );
                }
                i = i + 1;
            }
            assert(unlocks@.take(unlocks@.len() as int) =~= unlocks@);
        }
        assert(self.unlocked_missions@ == (match first_index(campaign.missions@, has_id(mission_id@)) {
            Some(k) => unlocked_after(campaign.missions@[k], old(self).unlocked_missions@),
            None => old(self).unlocked_missions@,
        }));
        let ghost completed = self.completed_missions@;
        let ghost unlocked = self.unlocked_missions@;
        let mut j: usize = 0;
        assert(campaign.missions@.take(0) =~= Seq::<CampaignMission>::empty());
        while j < campaign.missions.len()
            invariant
                j <= campaign.missions@.len(),
                completed == self.completed_missions@,
                unlocked == self.unlocked_missions@,
                completed == old(self).completed_missions@.insert(mission_id@),
                unlocked == (match first_index(campaign.missions@, has_id(mission_id@)) {
                    Some(k) => unlocked_after(campaign.missions@[k], old(self).unlocked_missions@),
                    None => old(self).unlocked_missions@,
                }),
                first_index(campaign.missions@.take(j as int), is_available(completed, unlocked))
                    is None,
                self.active_mission == old(self).active_mission,
                self.campaign_id == old(self).campaign_id,
                self.persistent_unlocks == old(self).persistent_unlocks,
            decreases campaign.missions@.len() - j,
        {
            proof {
                lemma_first_index_step(
                    campaign.missions@,
                    is_available(completed, unlocked),
                    j as int,
                );
            }
            if self.mission_status(&campaign.missions[j]) == MissionStatus::Available {
                proof {
                    lemma_first_index_prefix(
                        campaign.missions@,
                        is_available(completed, unlocked),
                        j + 1,
                    );
                }
                self.active_mission = campaign.missions[j].id.clone();
                return;
            }
            j = j + 1;
        }
        assert(campaign.missions@.take(campaign.missions@.len() as int) =~= campaign.missions@);
    }

    /// The mission currently being played, if the campaign authors one with
    /// the active id (the first such).
    pub fn active_mission<'a>(&self, campaign: &'a CampaignDefinition) -> (r: Option<
        &'a CampaignMission,
    >)
        ensures
            match first_index(campaign.missions@, has_id(self.active_mission@)) {
                Some(k) => r == Some(&campaign.missions@[k]),
                None => r is None,
            },
    {
        match find_mission(&campaign.missions, self.active_mission.as_str()) {
            Some(k) => Some(&campaign.missions[k]),
            None => None,
        }
    }

    /// The missions whose ids are unlocked, in authored order.
    pub fn unlocked_missions<'a>(&self, campaign: &'a CampaignDefinition) -> (r: Vec<
        &'a CampaignMission,
    >)
        ensures
            r@.len() == missions_unlocked(campaign.missions@, self.unlocked_missions@).len(),
            forall|i: int|
                0 <= i < r@.len() ==> *r@[i] == #[trigger] missions_unlocked(
                    campaign.missions@,
                    self.unlocked_missions@,
                )[i],
    {
        let ms = &campaign.missions;
        let mut out: Vec<&'a CampaignMission> = Vec::new();
        let mut i: usize = 0;
        while i < ms.len()
            invariant
                *ms == campaign.missions,
                i <= ms@.len(),
                out@.len() == missions_unlocked(ms@.take(i as int), self.unlocked_missions@).len(),
                forall|k: int|
                    0 <= k < out@.len() ==> *out@[k] == #[trigger] missions_unlocked(
                        ms@.take(i as int),
                        self.unlocked_missions@,
                    )[k],
            decreases ms@.len() - i,
        {
            assert(ms@.take(i + 1).drop_last() =~= ms@.take(i as int));
            if self.unlocked_missions.contains(ms[i].id.as_str()) {
                out.push(&ms[i]);
            }
            i = i + 1;
        }
        assert(ms@.take(ms@.len() as int) =~= ms@);
        out
    }

    /// The full mission list for the mission-select UI: every mission in
    /// authored order, tagged with its per-player status.
    pub fn mission_menu(&self, campaign: &CampaignDefinition) -> (r: Vec<MissionMenuEntry>)
        ensures
            r@.len() == campaign.missions@.len(),
            forall|i: int|
                0 <= i < r@.len() ==> {
                    &&& (#[trigger] r@[i]).id@ == campaign.missions@[i].id@
                    &&& r@[i].name@ == campaign.missions@[i].name@
                    &&& r@[i].scenario_id@ == campaign.missions@[i].scenario_id@
                    &&& r@[i].briefing@ == campaign.missions@[i].briefing@
                    &&& r@[i].status == status_of(
                        campaign.missions@[i],
                        self.completed_missions@,
                        self.unlocked_missions@,
                    )
                },
    {
        let ms = &campaign.missions;
        let mut out: Vec<MissionMenuEntry> = Vec::new();
        let mut i: usize = 0;
        while i < ms.len()
            invariant
                *ms == campaign.missions,
                i <= ms@.len(),
                out@.len() == i,
                forall|k: int|
                    0 <= k < i ==> {
                        &&& (#[trigger] out@[k]).id@ == ms@[k].id@
                        &&& out@[k].name@ == ms@[k].name@
                        &&& out@[k].scenario_id@ == ms@[k].scenario_id@
                        &&& out@[k].briefing@ == ms@[k].briefing@
                        &&& out@[k].status == status_of(
                            ms@[k],
                            self.completed_missions@,
                            self.unlocked_missions@,
                        )
                    },
            decreases ms@.len() - i,
        {
            let mission = &ms[i];
            out.push(
                MissionMenuEntry {
                    id: mission.id.clone(),
                    name: mission.name.clone(),
                    scenario_id: mission.scenario_id.clone(),
                    briefing: mission.briefing.clone(),
                    status: self.mission_status(mission),
                },
            );
            i = i + 1;
        }
        out
    }

    /// Choose a mission to play from the mission-select screen. Only a
    /// mission the player can actually start (Available, or a Completed one
    /// being replayed) may be selected; a Locked or unknown mission is
    /// rejected and nothing changes. On success the mission becomes the
    /// active one. Returns whether the selection took.
    pub fn select_mission(&mut self, campaign: &CampaignDefinition, mission_id: &str) -> (r: bool)
        ensures
            r == (match first_index(campaign.missions@, has_id(mission_id@)) {
                Some(k) => status_of(
                    campaign.missions@[k],
                    old(self).completed_missions@,
                    old(self).unlocked_missions@,
                ) != MissionStatus::Locked,
                None => false,
            }),
            r ==> final(self).active_mission@ == mission_id@,
            !r ==> final(self).active_mission == old(self).active_mission,
            final(self).completed_missions == old(self).completed_missions,
            final(self).unlocked_missions == old(self).unlocked_missions,
            final(self).campaign_id == old(self).campaign_id,
            final(self).persistent_unlocks == old(self).persistent_unlocks,
    {
        let k = match find_mission(&campaign.missions, mission_id) {
            Some(k) => k,
            None => {
                return false;
            },
        };
        if self.mission_status(&campaign.missions[k]) == MissionStatus::Locked {
            return false;
        }
        self.active_mission = mission_id.to_owned();
        true
    }
}

/// A mission that has been completed reports as `Completed` from then on,
/// whatever else is unlocked.
pub proof fn completed_missions_stay_completed(
    m: CampaignMission,
    completed: Set<Seq<char>>,
    unlocked: Set<Seq<char>>,
    mission_id: Seq<char>,
)
    requires
        m.id@ == mission_id,
    ensures
        status_of(m, completed.insert(mission_id), unlocked) == MissionStatus::Completed,
{
}

/// A mission is playable exactly when it is not completed, it is unlocked,
/// and every one of its prerequisites has been completed; one missing
/// prerequisite, wherever it stands in the list, keeps it locked.
pub proof fn missions_wait_for_every_prerequisite(
    m: CampaignMission,
    completed: Set<Seq<char>>,
    unlocked: Set<Seq<char>>,
)
    ensures
        status_of(m, completed, unlocked) == MissionStatus::Available <==> (!completed.contains(
            m.id@,
        ) && unlocked.contains(m.id@) && forall|i: int|
            0 <= i < m.required_completed@.len() ==> completed.contains(
                (#[trigger] m.required_completed@[i])@,
            )),
        forall|i: int|
            0 <= i < m.required_completed@.len() && !completed.contains(
                (#[trigger] m.required_completed@[i])@,
            ) && !completed.contains(m.id@) ==> status_of(m, completed, unlocked)
                == MissionStatus::Locked,
{
}

/// Selecting a mission takes only where the mission is authored and either
/// completed already or unlocked with every prerequisite completed.
pub proof fn selection_needs_every_prerequisite(
    ms: Seq<CampaignMission>,
    completed: Set<Seq<char>>,
    unlocked: Set<Seq<char>>,
    mission_id: Seq<char>,
)
    requires
        first_index(ms, has_id(mission_id)) is Some,
    ensures
        ({
            let m = ms[first_index(ms, has_id(mission_id))->0];
            status_of(m, completed, unlocked) != MissionStatus::Locked <==> (completed.contains(
                mission_id,
            ) || (unlocked.contains(mission_id) && forall|i: int|
                0 <= i < m.required_completed@.len() ==> completed.contains(
                    (#[trigger] m.required_completed@[i])@,
                )))
        }),
{
    lemma_first_index_found(ms, has_id(mission_id));
}

/// A completed mission can always be selected again: replaying is allowed.
pub proof fn completed_missions_can_be_replayed(
    ms: Seq<CampaignMission>,
    completed: Set<Seq<char>>,
    unlocked: Set<Seq<char>>,
    mission_id: Seq<char>,
)
    requires
        completed.contains(mission_id),
        first_index(ms, has_id(mission_id)) is Some,
    ensures
        status_of(ms[first_index(ms, has_id(mission_id))->0], completed, unlocked)
            != MissionStatus::Locked,
{
    lemma_first_index_found(ms, has_id(mission_id));
}

/// What `first_index` finds satisfies the predicate and lies in range.
pub proof fn lemma_first_index_found(ms: Seq<CampaignMission>, pred: spec_fn(CampaignMission) -> bool)
    requires
        first_index(ms, pred) is Some,
    ensures
        0 <= first_index(ms, pred)->0 < ms.len(),
        pred(ms[first_index(ms, pred)->0]),
    decreases ms.len(),
{
    if first_index(ms.drop_last(), pred) is Some {
        lemma_first_index_found(ms.drop_last(), pred);
    }
}

/// Progress only ever grows: completing a mission keeps every mission that
/// was completed or unlocked before, and the just-completed mission is never
/// the one made active next.
pub proof fn progress_only_grows(
    ms: Seq<CampaignMission>,
    completed: Set<Seq<char>>,
    unlocked: Set<Seq<char>>,
    mission_id: Seq<char>,
)
    ensures
        completed.subset_of(completed.insert(mission_id)),
        forall|k: int|
            0 <= k < ms.len() ==> unlocked.subset_of(unlocked_after(#[trigger] ms[k], unlocked)),
        first_index(
            ms,
            is_available(
                completed.insert(mission_id),
                match first_index(ms, has_id(mission_id)) {
                    Some(k) => unlocked_after(ms[k], unlocked),
                    None => unlocked,
                },
            ),
        ) matches Some(n) ==> ms[n].id@ != mission_id,
{
    let c2 = completed.insert(mission_id);
    let u2 = match first_index(ms, has_id(mission_id)) {
        Some(k) => unlocked_after(ms[k], unlocked),
        None => unlocked,
    };
    if first_index(ms, is_available(c2, u2)) is Some {
        lemma_first_index_found(ms, is_available(c2, u2));
    }
}

} // verus!
