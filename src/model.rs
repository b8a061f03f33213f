use vstd::prelude::*;
use vstd::pervasive::VecAdditionalExecFns;

verus! {

/// The most hedgehogs that a room can hold over all its teams.
pub const MAX_HEDGEHOGS_IN_ROOM: u8 = 48;

/// The most hedgehogs in one team.
pub const MAX_HEDGEHOGS_PER_TEAM: u8 = 8;

/// The hedgehog count given to the first team of a room.
pub const DEFAULT_HEDGEHOG_NUMBER: u8 = 4;

/// A team of hedgehogs as a client describes it.
pub struct TeamInfo {
    pub name: String,
    pub color: u8,
    pub grave: String,
    pub fort: String,
    pub voice_pack: String,
    pub flag: String,
    pub difficulty: u8,
    pub hedgehogs_number: u8,
}

/// One setting of a room's game configuration: its name and values.
pub struct GameCfg {
    pub name: String,
    pub values: Vec<String>,
}

/// The state of a round in progress.
pub struct GameInfo {
    /// Encoded engine-message batches, in the order they came.
    pub msg_log: Vec<String>,
    /// The last significant engine message, if any.
    pub last_msg: Option<String>,
}

pub struct HWRoom {
    pub id: usize,
    pub name: String,
    pub password: Option<String>,
    pub protocol_number: u32,
    /// How many clients of the room are ready.
    pub ready_players_number: usize,
    pub team_limit: u8,
    /// The teams of the room with the id of the client that owns each.
    pub teams: Vec<(usize, TeamInfo)>,
    pub config: Vec<GameCfg>,
    /// Present while a round is in progress.
    pub game_info: Option<GameInfo>,
}

pub struct HWClient {
    pub id: usize,
    pub nick: String,
    pub room_id: Option<usize>,
    pub protocol_number: u32,
    pub is_master: bool,
    pub is_ready: bool,
    pub is_in_game: bool,
    /// How many teams the client plays in its room.
    pub teams_in_game: u8,
    /// The color of the client's teams.
    pub clan: Option<u8>,
    /// The team indices the client plays in the current round.
    pub team_indices: Vec<u8>,
}

/// The clients and rooms of a server; ids are positions in each list.
pub struct HWServer {
    pub clients: Vec<HWClient>,
    pub rooms: Vec<HWRoom>,
}

/// The sum of the hedgehog counts of `teams`.
pub open spec fn hedgehogs_total(teams: Seq<(usize, TeamInfo)>) -> int
    decreases teams.len(),
{
    if teams.len() == 0 {
        0
    } else {
        hedgehogs_total(teams.drop_last()) + teams.last().1.hedgehogs_number
    }
}

/// How many of `clients` are in room `room_id` and ready.
pub open spec fn ready_count(clients: Seq<HWClient>, room_id: usize) -> nat
    decreases clients.len(),
{
    if clients.len() == 0 {
        0
    } else {
        ready_count(clients.drop_last(), room_id) + if clients.last().room_id == Some(room_id)
            && clients.last().is_ready {
            1nat
        } else {
            0nat
        }
    }
}

/// Whether some team of `teams` is named `name`.
pub open spec fn has_team_named(teams: Seq<(usize, TeamInfo)>, name: Seq<char>) -> bool {
    exists|k: int| 0 <= k < teams.len() && (#[trigger] teams[k]).1.name@ == name
}

/// The position of the first team named `name`, if any.
pub open spec fn is_first_team_named(teams: Seq<(usize, TeamInfo)>, name: Seq<char>, k: int) -> bool {
    &&& 0 <= k < teams.len()
    &&& teams[k].1.name@ == name
    &&& forall|j: int| 0 <= j < k ==> (#[trigger] teams[j]).1.name@ != name
}

/// The color of the first team owned by `owner`, if there is one.
pub open spec fn owned_team_color(teams: Seq<(usize, TeamInfo)>, owner: usize) -> Option<u8>
    decreases teams.len(),
{
    if teams.len() == 0 {
        None
    } else if teams[0].0 == owner {
        Some(teams[0].1.color)
    } else {
        owned_team_color(teams.subrange(1, teams.len() as int), owner)
    }
}

/// How many teams of `teams` `owner` owns.
pub open spec fn owned_count(teams: Seq<(usize, TeamInfo)>, owner: usize) -> nat
    decreases teams.len(),
{
    if teams.len() == 0 {
        0
    } else {
        owned_count(teams.drop_last(), owner) + if teams.last().0 == owner {
            1nat
        } else {
            0nat
        }
    }
}

/// No two teams of `teams` share a name.
pub open spec fn team_names_unique(teams: Seq<(usize, TeamInfo)>) -> bool {
    forall|k1: int, k2: int|
        0 <= k1 < teams.len() && 0 <= k2 < teams.len() && k1 != k2 ==> (#[trigger] teams[k1]).1.name@
            != (#[trigger] teams[k2]).1.name@
}

/// Each client plays as many teams as it owns in its room, and none
/// outside a room.
pub open spec fn teams_counted(clients: Seq<HWClient>, rooms: Seq<HWRoom>) -> bool {
    forall|i: int|
        0 <= i < clients.len() ==> (#[trigger] clients[i]).teams_in_game == match clients[i].room_id {
            Some(r) => owned_count(rooms[r as int].teams@, i as usize),
            None => 0,
        }
}

/// A client owns no more teams than there are.
pub proof fn lemma_owned_count_bound(teams: Seq<(usize, TeamInfo)>, owner: usize)
    ensures
        owned_count(teams, owner) <= teams.len(),
    decreases teams.len(),
{
    if teams.len() > 0 {
        lemma_owned_count_bound(teams.drop_last(), owner);
    }
}

/// Replacing a team by one of the same owner keeps every owner's count.
pub proof fn lemma_owned_count_update(teams: Seq<(usize, TeamInfo)>, k: int, t: (usize, TeamInfo), owner: usize)
    requires
        0 <= k < teams.len(),
        t.0 == teams[k].0,
    ensures
        owned_count(teams.update(k, t), owner) == owned_count(teams, owner),
    decreases teams.len(),
{
    let u = teams.update(k, t);
    if k == teams.len() - 1 {
        assert(u.drop_last() =~= teams.drop_last());
    } else {
        assert(u.drop_last() =~= teams.drop_last().update(k, t));
        lemma_owned_count_update(teams.drop_last(), k, t, owner);
    }
}

/// Removing a team takes it from its owner's count.
pub proof fn lemma_owned_count_remove(teams: Seq<(usize, TeamInfo)>, k: int, owner: usize)
    requires
        0 <= k < teams.len(),
    ensures
        owned_count(teams.remove(k), owner) + (if teams[k].0 == owner {
            1int
        } else {
            0int
        }) == owned_count(teams, owner),
    decreases teams.len(),
{
    let u = teams.remove(k);
    if k == teams.len() - 1 {
        assert(u =~= teams.drop_last());
    } else {
        assert(u.drop_last() =~= teams.drop_last().remove(k));
        lemma_owned_count_remove(teams.drop_last(), k, owner);
    }
}

/// Removing a team takes its hedgehogs from the total.
pub proof fn lemma_total_remove(teams: Seq<(usize, TeamInfo)>, k: int)
    requires
        0 <= k < teams.len(),
    ensures
        hedgehogs_total(teams.remove(k)) == hedgehogs_total(teams) - teams[k].1.hedgehogs_number,
    decreases teams.len(),
{
    let u = teams.remove(k);
    if k == teams.len() - 1 {
        assert(u =~= teams.drop_last());
    } else {
        assert(u.drop_last() =~= teams.drop_last().remove(k));
        lemma_total_remove(teams.drop_last(), k);
    }
}

/// The team counts stay right when no client changes room or count and no
/// room changes any owner's count.
pub proof fn lemma_teams_counted_kept(
    c1: Seq<HWClient>,
    r1: Seq<HWRoom>,
    c2: Seq<HWClient>,
    r2: Seq<HWRoom>,
)
    requires
        teams_counted(c1, r1),
        forall|i: int|
            0 <= i < c1.len() ==> match (#[trigger] c1[i]).room_id {
                Some(r) => r < r1.len(),
                None => true,
            },
        c2.len() == c1.len(),
        forall|i: int|
            0 <= i < c1.len() ==> (#[trigger] c2[i]).room_id == c1[i].room_id && c2[i].teams_in_game
                == c1[i].teams_in_game,
        r1.len() <= r2.len(),
        forall|j: int, o: usize|
            0 <= j < r1.len() ==> #[trigger] owned_count(r2[j].teams@, o) == owned_count(r1[j].teams@, o),
    ensures
        teams_counted(c2, r2),
{
    assert forall|i: int| 0 <= i < c2.len() implies (#[trigger] c2[i]).teams_in_game == match c2[i].room_id {
        Some(r) => owned_count(r2[r as int].teams@, i as usize),
        None => 0,
    } by {
        assert(c1[i].teams_in_game == match c1[i].room_id {
            Some(r) => owned_count(r1[r as int].teams@, i as usize),
            None => 0,
        });
        if let Some(r) = c1[i].room_id {
            assert(owned_count(r2[r as int].teams@, i as usize) == owned_count(r1[r as int].teams@, i as usize));
        }
    }
}

/// Whether some team of `teams` has color `c`.
pub open spec fn color_used(teams: Seq<(usize, TeamInfo)>, c: u8) -> bool {
    exists|k: int| 0 <= k < teams.len() && (#[trigger] teams[k]).1.color == c
}

/// The smallest color that no team has, or 0 when all are taken.
pub open spec fn is_first_free_color(teams: Seq<(usize, TeamInfo)>, c: u8) -> bool {
    if exists|d: u8| !color_used(teams, d) {
        &&& !color_used(teams, c)
        &&& forall|d: u8| d < c ==> color_used(teams, d)
    } else {
        c == 0
    }
}

/// The hedgehog count of a team added to `room`: the first team's count
/// (4 for the first team), no more than the room can take.
pub open spec fn added_hedgehogs(room: HWRoom) -> u8 {
    let base = if room.teams@.len() == 0 {
        DEFAULT_HEDGEHOG_NUMBER
    } else {
        room.teams@[0].1.hedgehogs_number
    };
    if base as int <= room.spec_addable_hedgehogs() {
        base
    } else {
        room.spec_addable_hedgehogs() as u8
    }
}

impl HWRoom {
    /// Room invariant: team names are unique, each team holds 1 to 8
    /// hedgehogs and the room no more than its capacity.
    pub open spec fn wf(&self) -> bool {
        &&& hedgehogs_total(self.teams@) <= MAX_HEDGEHOGS_IN_ROOM
        &&& team_names_unique(self.teams@)
        &&& forall|k: int|
            0 <= k < self.teams@.len() ==> 1 <= (#[trigger] self.teams@[k]).1.hedgehogs_number
                <= MAX_HEDGEHOGS_PER_TEAM
    }

    /// How many more hedgehogs the room can take.
    pub open spec fn spec_addable_hedgehogs(&self) -> int {
        MAX_HEDGEHOGS_IN_ROOM - hedgehogs_total(self.teams@)
    }
}

impl TeamInfo {
    /// A copy of the team.
    pub fn copy(&self) -> (r: TeamInfo)
        ensures
            r == *self,
    {
        TeamInfo {
            name: self.name.clone(),
            color: self.color,
            grave: self.grave.clone(),
            fort: self.fort.clone(),
            voice_pack: self.voice_pack.clone(),
            flag: self.flag.clone(),
            difficulty: self.difficulty,
            hedgehogs_number: self.hedgehogs_number,
        }
    }
}

/// `a` holds the same setting as `b`.
pub open spec fn same_cfg(a: GameCfg, b: GameCfg) -> bool {
    a.name@ == b.name@ && a.values@ == b.values@
}

/// `new` is the configuration `old` with `cfg` set: it takes the place of
/// the first setting of the same name, or comes last when there is none.
pub open spec fn config_set(old: Seq<GameCfg>, new: Seq<GameCfg>, cfg: GameCfg) -> bool {
    if exists|k: int| 0 <= k < old.len() && (#[trigger] old[k]).name@ == cfg.name@ {
        exists|k: int|
            0 <= k < old.len() && (#[trigger] old[k]).name@ == cfg.name@ && (forall|j: int|
                0 <= j < k ==> (#[trigger] old[j]).name@ != cfg.name@) && new.len() == old.len()
                && same_cfg(new[k], cfg) && (forall|j: int|
                0 <= j < old.len() && j != k ==> new[j] == old[j])
    } else {
        new.len() == old.len() + 1 && new.take(old.len() as int) == old && same_cfg(new.last(), cfg)
    }
}

impl GameCfg {
    /// A copy of the setting.
    pub fn copy(&self) -> (r: GameCfg)
        ensures
            same_cfg(r, *self),
    {
        let mut values: Vec<String> = Vec::new();
        let mut i: usize = 0;
        while i < self.values.len()
            invariant
                i <= self.values@.len(),
                values@ == self.values@.take(i as int),
            decreases self.values@.len() - i,
        {
            values.push(self.values[i].clone());
            proof {
                assert(self.values@.take(i + 1) =~= self.values@.take(i as int).push(self.values@[i as int]));
            }
            i += 1;
        }
        proof {
            assert(self.values@.take(i as int) =~= self.values@);
        }
        GameCfg { name: self.name.clone(), values }
    }
}

impl HWRoom {
    /// Sets one setting of the room's configuration.
    pub fn set_config(&mut self, cfg: GameCfg)
        ensures
            config_set(old(self).config@, final(self).config@, cfg),
            *final(self) == (HWRoom { config: final(self).config, ..*old(self) }),
    {
        let mut k: usize = 0;
        while k < self.config.len()
            invariant
                *self == *old(self),
                k <= self.config@.len(),
                forall|j: int| 0 <= j < k ==> (#[trigger] self.config@[j]).name@ != cfg.name@,
            decreases self.config@.len() - k,
        {
            if self.config[k].name == cfg.name {
                let ghost before = self.config@;
                self.config.set(k, cfg);
                proof {
                    assert(0 <= k < before.len() && before[k as int].name@ == cfg.name@);
                    assert(same_cfg(self.config@[k as int], cfg));
                }
                return;
            }
            k += 1;
        }
        let ghost before = self.config@;
        self.config.push(cfg);
        proof {
            assert(self.config@.take(before.len() as int) =~= before);
            assert(same_cfg(self.config@.last(), cfg));
        }
    }
}

impl HWServer {
    pub open spec fn has_room_named(&self, name: Seq<char>) -> bool {
        exists|j: int| 0 <= j < self.rooms@.len() && (#[trigger] self.rooms@[j]).name@ == name
    }

    /// Server invariant: ids are positions, a client's room exists, room
    /// names are unique, each room's ready count is the number of its ready
    /// clients, each team's owner is a client, and each client plays as many
    /// teams as it owns in its room.
    pub open spec fn wf(&self) -> bool {
        &&& self.clients@.len() <= usize::MAX
        &&& self.rooms@.len() <= usize::MAX
        &&& teams_counted(self.clients@, self.rooms@)
        &&& forall|i: int|
            0 <= i < self.clients@.len() ==> (#[trigger] self.clients@[i]).id == i && (
            self.clients@[i].room_id matches Some(r) ==> r < self.rooms@.len())
        &&& forall|j: int|
            0 <= j < self.rooms@.len() ==> {
                &&& (#[trigger] self.rooms@[j]).id == j
                &&& self.rooms@[j].wf()
                &&& self.rooms@[j].ready_players_number == ready_count(self.clients@, j as usize)
                &&& forall|k: int|
                    0 <= k < self.rooms@[j].teams@.len() ==> (#[trigger] self.rooms@[j].teams@[k]).0
                        < self.clients@.len()
            }
        &&& forall|j1: int, j2: int|
            0 <= j1 < self.rooms@.len() && 0 <= j2 < self.rooms@.len() && j1 != j2 ==> (
            #[trigger] self.rooms@[j1]).name@ != (#[trigger] self.rooms@[j2]).name@
    }
}

/// No prefix of `teams` holds more hedgehogs than the whole.
pub proof fn lemma_total_prefix(teams: Seq<(usize, TeamInfo)>, i: int)
    requires
        0 <= i <= teams.len(),
    ensures
        hedgehogs_total(teams.take(i)) <= hedgehogs_total(teams),
    decreases teams.len(),
{
    if i == teams.len() {
        assert(teams.take(i) =~= teams);
    } else {
        assert(teams.drop_last().take(i) =~= teams.take(i));
        lemma_total_prefix(teams.drop_last(), i);
    }
}

/// Changing one team's hedgehog count changes the total by the difference.
pub proof fn lemma_total_update(teams: Seq<(usize, TeamInfo)>, k: int, t: (usize, TeamInfo))
    requires
        0 <= k < teams.len(),
    ensures
        hedgehogs_total(teams.update(k, t)) == hedgehogs_total(teams) - teams[k].1.hedgehogs_number
            + t.1.hedgehogs_number,
    decreases teams.len(),
{
    let u = teams.update(k, t);
    if k == teams.len() - 1 {
        assert(u.drop_last() =~= teams.drop_last());
    } else {
        assert(u.drop_last() =~= teams.drop_last().update(k, t));
        lemma_total_update(teams.drop_last(), k, t);
    }
}

fn team_color_used(teams: &Vec<(usize, TeamInfo)>, c: u8) -> (r: bool)
    ensures
        r == color_used(teams@, c),
{
    let mut k: usize = 0;
    while k < teams.len()
        invariant
            k <= teams.len(),
            forall|j: int| 0 <= j < k ==> (#[trigger] teams@[j]).1.color != c,
        decreases teams.len() - k,
    {
        if teams[k].1.color == c {
            return true;
        }
        k += 1;
    }
    false
}

impl HWRoom {
    /// How many more hedgehogs the room can take.
    pub fn addable_hedgehogs(&self) -> (r: u8)
        requires
            self.wf(),
        ensures
            r as int == self.spec_addable_hedgehogs(),
    {
        let mut total: u8 = 0;
        let mut i: usize = 0;
        while i < self.teams.len()
            invariant
                self.wf(),
                i <= self.teams@.len(),
                total as int == hedgehogs_total(self.teams@.take(i as int)),
            decreases self.teams@.len() - i,
        {
            proof {
                lemma_total_prefix(self.teams@, i + 1);
                assert(self.teams@.take(i + 1).drop_last() =~= self.teams@.take(i as int));
            }
            total = total + self.teams[i].1.hedgehogs_number;
            i += 1;
        }
        proof {
            assert(self.teams@.take(i as int) =~= self.teams@);
        }
        MAX_HEDGEHOGS_IN_ROOM - total
    }

    /// The position of the first team named `name`.
    pub fn find_team(&self, name: &String) -> (r: Option<usize>)
        ensures
            match r {
                Some(k) => is_first_team_named(self.teams@, name@, k as int),
                None => !has_team_named(self.teams@, name@),
            },
    {
        let mut k: usize = 0;
        while k < self.teams.len()
            invariant
                k <= self.teams@.len(),
                forall|j: int| 0 <= j < k ==> (#[trigger] self.teams@[j]).1.name@ != name@,
            decreases self.teams@.len() - k,
        {
            if self.teams[k].1.name == *name {
                return Some(k);
            }
            k += 1;
        }
        None
    }

    /// The color of the first team owned by `owner`.
    pub fn find_team_color(&self, owner: usize) -> (r: Option<u8>)
        ensures
            r == owned_team_color(self.teams@, owner),
    {
        let len = self.teams.len();
        let mut i: usize = 0;
        proof {
            assert(self.teams@.subrange(0, len as int) =~= self.teams@);
        }
        while i < len
            invariant
                len == self.teams@.len(),
                i <= len,
                owned_team_color(self.teams@, owner) == owned_team_color(
                    self.teams@.subrange(i as int, len as int),
                    owner,
                ),
            decreases len - i,
        {
            let ghost t = self.teams@.subrange(i as int, len as int);
            assert(t[0] == self.teams@[i as int]);
            assert(t.subrange(1, t.len() as int) =~= self.teams@.subrange(i + 1, len as int));
            if self.teams[i].0 == owner {
                return Some(self.teams[i].1.color);
            }
            i += 1;
        }
        None
    }

    /// The smallest color that no team of the room has, or 0.
    pub fn first_free_color(&self) -> (r: u8)
        ensures
            is_first_free_color(self.teams@, r),
    {
        let mut c: u8 = 0;
        loop
            invariant
                forall|d: u8| d < c ==> color_used(self.teams@, d),
            decreases 255 - c,
        {
            if !team_color_used(&self.teams, c) {
                return c;
            }
            if c == 255 {
                assert forall|d: u8| color_used(self.teams@, d) by {
                    if d < c {
                    } else {
                        assert(d == c);
                    }
                }
                return 0;
            }
            c = c + 1;
        }
    }

    /// Adds a team owned by `owner`: it gets the first free color and the
    /// first team's hedgehog count (4 for the first team), no more than the
    /// room can take. Returns its position.
    pub fn add_team(&mut self, owner: usize, info: TeamInfo) -> (r: usize)
        requires
            old(self).wf(),
            old(self).spec_addable_hedgehogs() > 0,
            !has_team_named(old(self).teams@, info.name@),
        ensures
            final(self).wf(),
            r == old(self).teams@.len(),
            final(self).teams@.len() == r + 1,
            final(self).teams@.take(r as int) == old(self).teams@,
            final(self).teams@[r as int] == (owner, TeamInfo {
                color: final(self).teams@[r as int].1.color,
                hedgehogs_number: added_hedgehogs(*old(self)),
                ..info
            }),
            is_first_free_color(old(self).teams@, final(self).teams@[r as int].1.color),
            final(self).id == old(self).id,
            final(self).name == old(self).name,
            final(self).password == old(self).password,
            final(self).protocol_number == old(self).protocol_number,
            final(self).ready_players_number == old(self).ready_players_number,
            final(self).team_limit == old(self).team_limit,
            final(self).config == old(self).config,
            final(self).game_info == old(self).game_info,
    {
        let mut info = info;
        info.color = self.first_free_color();
        let addable = self.addable_hedgehogs();
        let base = if self.teams.len() == 0 {
            DEFAULT_HEDGEHOG_NUMBER
        } else {
            self.teams[0].1.hedgehogs_number
        };
        info.hedgehogs_number = if base <= addable {
            base
        } else {
            addable
        };
        let ghost before = self.teams@;
        let pos = self.teams.len();
        self.teams.push((owner, info));
        proof {
            assert(self.teams@.drop_last() =~= before);
            assert(self.teams@.take(before.len() as int) =~= before);
            assert forall|k: int| 0 <= k < self.teams@.len() implies 1 <= (
            #[trigger] self.teams@[k]).1.hedgehogs_number <= MAX_HEDGEHOGS_PER_TEAM by {
                if k < before.len() {
                    assert(self.teams@[k] == before[k]);
                }
            }
            assert forall|k1: int, k2: int|
                0 <= k1 < self.teams@.len() && 0 <= k2 < self.teams@.len() && k1 != k2 implies (
                #[trigger] self.teams@[k1]).1.name@ != (#[trigger] self.teams@[k2]).1.name@ by {
                if k1 < before.len() {
                    assert(self.teams@[k1] == before[k1]);
                }
                if k2 < before.len() {
                    assert(self.teams@[k2] == before[k2]);
                }
            }
        }
        pos
    }
}

impl HWServer {
    /// Whether some room is named `name`.
    pub fn has_room(&self, name: &String) -> (r: bool)
        ensures
            r == self.has_room_named(name@),
    {
        let mut j: usize = 0;
        while j < self.rooms.len()
            invariant
                j <= self.rooms@.len(),
                forall|k: int| 0 <= k < j ==> (#[trigger] self.rooms@[k]).name@ != name@,
            decreases self.rooms@.len() - j,
        {
            if self.rooms[j].name == *name {
                return true;
            }
            j += 1;
        }
        false
    }
}

/// The nicks of the clients in room `room_id`, in client order.
pub open spec fn occupant_nicks(clients: Seq<HWClient>, room_id: usize) -> Seq<String>
    decreases clients.len(),
{
    if clients.len() == 0 {
        Seq::empty()
    } else if clients.last().room_id == Some(room_id) {
        occupant_nicks(clients.drop_last(), room_id).push(clients.last().nick)
    } else {
        occupant_nicks(clients.drop_last(), room_id)
    }
}

/// The position of the room named `name`, if any.
pub open spec fn is_room_named(rooms: Seq<HWRoom>, name: Seq<char>, j: int) -> bool {
    0 <= j < rooms.len() && rooms[j].name@ == name
}

impl HWServer {
    /// The position of the first room named `name`.
    pub fn find_room(&self, name: &String) -> (r: Option<usize>)
        ensures
            match r {
                Some(j) => is_room_named(self.rooms@, name@, j as int),
                None => !self.has_room_named(name@),
            },
    {
        let mut j: usize = 0;
        while j < self.rooms.len()
            invariant
                j <= self.rooms@.len(),
                forall|k: int| 0 <= k < j ==> (#[trigger] self.rooms@[k]).name@ != name@,
            decreases self.rooms@.len() - j,
        {
            if self.rooms[j].name == *name {
                return Some(j);
            }
            j += 1;
        }
        None
    }

    /// The nicks of the clients in room `room_id`.
    pub fn room_nicks(&self, room_id: usize) -> (r: Vec<String>)
        ensures
            r@ == occupant_nicks(self.clients@, room_id),
    {
        let mut r: Vec<String> = Vec::new();
        let mut i: usize = 0;
        while i < self.clients.len()
            invariant
                i <= self.clients@.len(),
                r@ == occupant_nicks(self.clients@.take(i as int), room_id),
            decreases self.clients@.len() - i,
        {
            proof {
                assert(self.clients@.take(i + 1).drop_last() =~= self.clients@.take(i as int));
            }
            if self.clients[i].room_id == Some(room_id) {
                r.push(self.clients[i].nick.clone());
            }
            i += 1;
        }
        proof {
            assert(self.clients@.take(i as int) =~= self.clients@);
        }
        r
    }
}

/// The most teams a new room takes.
pub const MAX_TEAMS_IN_ROOM: u8 = 8;

/// No more clients are ready in a room than there are clients.
pub proof fn lemma_ready_count_bound(clients: Seq<HWClient>, room_id: usize)
    ensures
        ready_count(clients, room_id) <= clients.len(),
    decreases clients.len(),
{
    if clients.len() > 0 {
        lemma_ready_count_bound(clients.drop_last(), room_id);
    }
}

/// Replacing one client changes a room's ready count by what the old and
/// the new client contribute.
pub proof fn lemma_ready_count_update(clients: Seq<HWClient>, i: int, c: HWClient, room_id: usize)
    requires
        0 <= i < clients.len(),
    ensures
        ready_count(clients.update(i, c), room_id) == ready_count(clients, room_id) - (if clients[i].room_id
            == Some(room_id) && clients[i].is_ready {
            1int
        } else {
            0int
        }) + (if c.room_id == Some(room_id) && c.is_ready {
            1int
        } else {
            0int
        }),
    decreases clients.len(),
{
    let u = clients.update(i, c);
    if i == clients.len() - 1 {
        assert(u.drop_last() =~= clients.drop_last());
    } else {
        assert(u.drop_last() =~= clients.drop_last().update(i, c));
        lemma_ready_count_update(clients.drop_last(), i, c, room_id);
    }
}

/// A room that no client is in has no ready client.
pub proof fn lemma_ready_count_empty_room(clients: Seq<HWClient>, room_id: usize)
    requires
        forall|i: int| 0 <= i < clients.len() ==> (#[trigger] clients[i]).room_id != Some(room_id),
    ensures
        ready_count(clients, room_id) == 0,
    decreases clients.len(),
{
    if clients.len() > 0 {
        lemma_ready_count_empty_room(clients.drop_last(), room_id);
    }
}

/// `t` is `s` with one more room, named `name`, at the end.
pub open spec fn room_added(s: HWServer, t: HWServer, name: Seq<char>) -> bool {
    &&& t.clients@ == s.clients@
    &&& t.rooms@.len() == s.rooms@.len() + 1
    &&& t.rooms@.take(s.rooms@.len() as int) == s.rooms@
    &&& t.rooms@.last().name@ == name
}

impl HWServer {
    /// A server with no clients and no rooms.
    pub fn new() -> (r: HWServer)
        ensures
            r.wf(),
            r.clients@.len() == 0,
            r.rooms@.len() == 0,
    {
        HWServer { clients: Vec::new(), rooms: Vec::new() }
    }

    /// Adds a client in the lobby and returns its id.
    pub fn add_client(&mut self, nick: String, protocol_number: u32) -> (r: usize)
        requires
            old(self).wf(),
        ensures
            final(self).wf(),
            r == old(self).clients@.len(),
            final(self).rooms@ == old(self).rooms@,
            final(self).clients@.take(r as int) == old(self).clients@,
            final(self).clients@.len() == r + 1,
            final(self).clients@[r as int].nick == nick,
            final(self).clients@[r as int].room_id is None,
            final(self).clients@[r as int].protocol_number == protocol_number,
    {
        let id = self.clients.len();
        let c = HWClient {
            id,
            nick,
            room_id: None,
            protocol_number,
            is_master: false,
            is_ready: false,
            is_in_game: false,
            teams_in_game: 0,
            clan: None,
            team_indices: Vec::new(),
        };
        let ghost before = self.clients@;
        self.clients.push(c);
        let n = self.clients.len();
        proof {
            assert(n == id + 1);
            assert(self.clients@.drop_last() =~= before);
            assert forall|i: int| 0 <= i < self.clients@.len() implies (#[trigger] self.clients@[i]).teams_in_game
                == match self.clients@[i].room_id {
                Some(r) => owned_count(self.rooms@[r as int].teams@, i as usize),
                None => 0,
            } by {
                if i < id {
                    assert(self.clients@[i] == before[i]);
                }
            }
            assert(self.clients@.take(id as int) =~= before);
            assert forall|j: int| 0 <= j < self.rooms@.len() implies (#[trigger] self.rooms@[j]).ready_players_number
                == ready_count(self.clients@, j as usize) by {
                assert(self.clients@.drop_last() =~= before);
            }
        }
        id
    }

    /// Opens a room named `name` with the protocol of client `client_id`;
    /// the name must be free. Returns the room's id.
    pub fn add_room(&mut self, client_id: usize, name: String, password: Option<String>) -> (r: usize)
        requires
            old(self).wf(),
            client_id < old(self).clients@.len(),
            !old(self).has_room_named(name@),
        ensures
            final(self).wf(),
            room_added(*old(self), *final(self), name@),
            r == old(self).rooms@.len(),
            final(self).rooms@[r as int].protocol_number == old(self).clients@[client_id as int].protocol_number,
            final(self).rooms@[r as int].teams@.len() == 0,
            final(self).rooms@[r as int].game_info is None,
    {
        let id = self.rooms.len();
        let room = HWRoom {
            id,
            name,
            password,
            protocol_number: self.clients[client_id].protocol_number,
            ready_players_number: 0,
            team_limit: MAX_TEAMS_IN_ROOM,
            teams: Vec::new(),
            config: Vec::new(),
            game_info: None,
        };
        let ghost before = self.rooms@;
        proof {
            lemma_ready_count_empty_room(self.clients@, id);
        }
        self.rooms.push(room);
        let n = self.rooms.len();
        proof {
            assert(n == id + 1);
            assert forall|j: int, o: usize| 0 <= j < before.len() implies #[trigger] owned_count(self.rooms@[j].teams@, o) == owned_count(before[j].teams@, o) by {
                assert(self.rooms@[j] == before[j]);
            }
            lemma_teams_counted_kept(self.clients@, before, self.clients@, self.rooms@);
            assert(self.rooms@.take(id as int) =~= before);
            assert(hedgehogs_total(self.rooms@[id as int].teams@) == 0);
            assert forall|j: int| 0 <= j < self.rooms@.len() implies {
                &&& (#[trigger] self.rooms@[j]).id == j
                &&& self.rooms@[j].wf()
                &&& self.rooms@[j].ready_players_number == ready_count(self.clients@, j as usize)
                &&& forall|k: int|
                    0 <= k < self.rooms@[j].teams@.len() ==> (#[trigger] self.rooms@[j].teams@[k]).0
                        < self.clients@.len()
            } by {
                if j < id {
                    assert(self.rooms@[j] == before[j]);
                }
            }
            assert forall|j1: int, j2: int|
                0 <= j1 < self.rooms@.len() && 0 <= j2 < self.rooms@.len() && j1 != j2 implies (
                #[trigger] self.rooms@[j1]).name@ != (#[trigger] self.rooms@[j2]).name@ by {
                if j1 < id {
                    assert(self.rooms@[j1] == before[j1]);
                }
                if j2 < id {
                    assert(self.rooms@[j2] == before[j2]);
                }
            }
        }
        id
    }
}

} // verus!
