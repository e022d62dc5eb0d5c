//! The store of everything the simulation needs per frame: each player's inputs
//! and the bonus events, with the requests to make when some of it is missing.
use vstd::prelude::*;

use std::collections::HashMap;

use crate::syncer::{
    BonusEvent, ExtractNewPlayers, NewPlayerInfo, SyncerData, SyncerRequestType, SyncerRequestTyped,
    SyncerStore, stream_has, missing_request, players_in_frames, segment_landed,
};
use crate::{FrameIndex, PlayerID};

verus! {

broadcast use vstd::std_specs::hash::group_hash_axioms;

/// How many frames the head simulation runs ahead of the tail.
pub const HEAD_AHEAD_FRAME_COUNT: usize = 20;

/// A message that changes the stored data.
#[derive(Clone, Debug)]
pub enum LogicInwardsMessage<I> {
    SyncerBonusUpdate(SyncerData<Vec<BonusEvent>>),
    SyncerInputsUpdate(SyncerData<I>),
}

/// A message the simulation sends out.
#[derive(Clone, Copy, Debug, PartialEq, Eq)]
pub enum LogicOutwardsMessage {
    DataNeeded(SyncerRequestTyped),
    IAmInitialized(),
}

/// Everything one frame's simulation step uses.
#[derive(Clone, Debug)]
pub struct InfoForSim<I> {
    pub inputs_map: HashMap<PlayerID, I>,
    pub bonus_events: Vec<BonusEvent>,
}

/// What a frame's simulation can use, and the requests for what was missing.
pub struct FrameSimQueryResults<I> {
    pub missing_info: Vec<SyncerRequestTyped>,
    pub sim_info: InfoForSim<I>,
}

/// What to do for the next tail frame: simulate it with everything it needs, or ask for
/// what is missing first.
pub enum TailFrameStep<I> {
    Simulate(InfoForSim<I>),
    AskFor(Vec<SyncerRequestTyped>),
}

/// Per-player input streams and the bonus event stream.
#[derive(Clone, Debug)]
pub struct LogicDataStorage<I> {
    player_inputs: HashMap<PlayerID, SyncerStore<I>>,
    pub bonus_events: SyncerStore<Vec<BonusEvent>>,
}

/// `v` is a value that `I::default()` can return.
pub open spec fn is_default_value<I: Default>(v: I) -> bool {
    call_ensures(I::default, (), v)
}

/// The input used for a player on a frame: the frame's own input where held,
/// else the last input held, else a default input.
pub open spec fn input_used_for<I: Clone + Default>(store: (usize, Seq<I>), frame: int, v: I) -> bool {
    if stream_has(store, frame) {
        cloned(store.1[frame - store.0], v)
    } else if store.1.len() > 0 {
        cloned(store.1.last(), v)
    } else {
        is_default_value(v)
    }
}

/// The requests made on `frame` for the players whose stream has started but lacks that frame.
pub open spec fn player_requests<I>(
    players: Map<PlayerID, (usize, Seq<I>)>,
    frame: FrameIndex,
) -> Set<SyncerRequestTyped> {
    Set::new(
        |q: SyncerRequestTyped|
            exists|p: PlayerID|
                #![trigger players.contains_key(p)]
                players.contains_key(p) && players[p].0 <= frame && !stream_has(
                    players[p],
                    frame as int,
                ) && q == missing_request(
                    frame,
                    SyncerRequestType::PlayerInputs(p),
                ),
    )
}

/// The player's stream has started by `frame` but does not hold it.
pub open spec fn lacks_frame<I>(players: Map<PlayerID, (usize, Seq<I>)>, p: PlayerID, frame: FrameIndex) -> bool {
    players[p].0 <= frame && !stream_has(players[p], frame as int)
}

/// The requests made on `frame` for the players in `seen` that lack it.
pub open spec fn requests_of<I>(
    players: Map<PlayerID, (usize, Seq<I>)>,
    seen: Set<PlayerID>,
    frame: FrameIndex,
) -> Set<SyncerRequestTyped> {
    Set::new(
        |q: SyncerRequestTyped|
            exists|p: PlayerID|
                #![trigger seen.contains(p)]
                seen.contains(p) && lacks_frame(players, p, frame) && q == missing_request(
                    frame,
                    SyncerRequestType::PlayerInputs(p),
                ),
    )
}

/// The requests made for all the known players are the player requests.
proof fn lemma_requests_of_all<I>(players: Map<PlayerID, (usize, Seq<I>)>, frame: FrameIndex)
    ensures
        requests_of(players, players.dom(), frame) == player_requests(players, frame),
{
    assert forall|q: SyncerRequestTyped| #[trigger] requests_of(players, players.dom(), frame).contains(q)
        <==> player_requests(players, frame).contains(q) by {
        if player_requests(players, frame).contains(q) {
            let p = choose|p: PlayerID|
                #![trigger players.contains_key(p)]
                players.contains_key(p) && players[p].0 <= frame && !stream_has(players[p], frame as int)
                    && q == missing_request(frame, SyncerRequestType::PlayerInputs(p));
            assert(players.dom().contains(p));
        }
        if requests_of(players, players.dom(), frame).contains(q) {
            let p = choose|p: PlayerID|
                #![trigger players.dom().contains(p)]
                players.dom().contains(p) && lacks_frame(players, p, frame) && q == missing_request(
                    frame,
                    SyncerRequestType::PlayerInputs(p),
                );
            assert(players.contains_key(p));
        }
    }
    assert(requests_of(players, players.dom(), frame) =~= player_requests(players, frame));
}

/// Visiting one more player adds its request, made where it lacks the frame, to the requests
/// of the players visited before, without repeating one.
proof fn lemma_requests_step<I>(
    players: Map<PlayerID, (usize, Seq<I>)>,
    seen: Set<PlayerID>,
    p0: PlayerID,
    frame: FrameIndex,
    old_rest: Seq<SyncerRequestTyped>,
    new_rest: Seq<SyncerRequestTyped>,
)
    requires
        !seen.contains(p0),
        old_rest.no_duplicates(),
        forall|q: SyncerRequestTyped| #[trigger] old_rest.contains(q) <==> requests_of(players, seen, frame).contains(q),
        new_rest == (if lacks_frame(players, p0, frame) {
            old_rest.push(missing_request(frame, SyncerRequestType::PlayerInputs(p0)))
        } else {
            old_rest
        }),
    ensures
        new_rest.no_duplicates(),
        forall|q: SyncerRequestTyped|
            #[trigger] new_rest.contains(q) <==> requests_of(players, seen.insert(p0), frame).contains(q),
{
    let r0 = missing_request(frame, SyncerRequestType::PlayerInputs(p0));
    let seen2 = seen.insert(p0);
    if lacks_frame(players, p0, frame) {
        assert(!old_rest.contains(r0)) by {
            if old_rest.contains(r0) {
                let p = choose|p: PlayerID|
                    #![trigger seen.contains(p)]
                    seen.contains(p) && lacks_frame(players, p, frame) && r0 == missing_request(
                        frame,
                        SyncerRequestType::PlayerInputs(p),
                    );
                assert(p == p0);
            }
        }
        assert forall|a: int, b: int| 0 <= a < b < new_rest.len() implies new_rest[a] != new_rest[b] by {
            if b == old_rest.len() {
                assert(old_rest.contains(old_rest[a]));
            }
        }
    }
    assert forall|q: SyncerRequestTyped|
        #[trigger] new_rest.contains(q) <==> requests_of(players, seen2, frame).contains(q) by {
        if requests_of(players, seen2, frame).contains(q) {
            let p = choose|p: PlayerID|
                #![trigger seen2.contains(p)]
                seen2.contains(p) && lacks_frame(players, p, frame) && q == missing_request(
                    frame,
                    SyncerRequestType::PlayerInputs(p),
                );
            if p == p0 {
                assert(new_rest[new_rest.len() - 1] == q);
            } else {
                assert(seen.contains(p));
                assert(requests_of(players, seen, frame).contains(q));
                assert(old_rest.contains(q));
                let j = choose|j: int| 0 <= j < old_rest.len() && old_rest[j] == q;
                assert(new_rest[j] == q);
            }
        }
        if new_rest.contains(q) {
            if lacks_frame(players, p0, frame) && q == r0 {
                assert(seen2.contains(p0));
            } else {
                let j = choose|j: int| 0 <= j < new_rest.len() && new_rest[j] == q;
                assert(old_rest[j] == q);
                assert(old_rest.contains(q));
                let p = choose|p: PlayerID|
                    #![trigger seen.contains(p)]
                    seen.contains(p) && lacks_frame(players, p, frame) && q == missing_request(
                        frame,
                        SyncerRequestType::PlayerInputs(p),
                    );
                assert(seen2.contains(p));
            }
        }
    }
}

/// The players whose streams have started by `frame`.
pub open spec fn started_players<I>(players: Map<PlayerID, (usize, Seq<I>)>, frame: FrameIndex) -> Set<
    PlayerID,
> {
    players.dom().filter(|p: PlayerID| players[p].0 <= frame)
}

/// The players added by a list of announcements, later ones overriding earlier ones.
pub open spec fn with_new_players<I>(
    players: Map<PlayerID, (usize, Seq<I>)>,
    news: Seq<NewPlayerInfo>,
) -> Map<PlayerID, (usize, Seq<I>)>
    decreases news.len(),
{
    if news.len() == 0 {
        players
    } else {
        with_new_players(players, news.drop_last()).insert(
            news.last().player_id,
            (news.last().frame_added, Seq::empty()),
        )
    }
}

/// After a list of announcements, a player announced in it has an empty stream starting at the
/// frame of its last announcement, and every other player keeps the stream it had.
pub proof fn lemma_announced_players<I>(
    players: Map<PlayerID, (usize, Seq<I>)>,
    news: Seq<NewPlayerInfo>,
    p: PlayerID,
)
    ensures
        forall|i: int|
            0 <= i < news.len() && #[trigger] news[i].player_id == p && (forall|j: int|
                i < j < news.len() ==> news[j].player_id != p) ==> with_new_players(
                players,
                news,
            ).contains_key(p) && with_new_players(players, news)[p] == (
                news[i].frame_added,
                Seq::<I>::empty(),
            ),
        (forall|i: int| 0 <= i < news.len() ==> news[i].player_id != p) ==> (with_new_players(
            players,
            news,
        ).contains_key(p) == players.contains_key(p) && (players.contains_key(p) ==> with_new_players(
            players,
            news,
        )[p] == players[p])),
    decreases news.len(),
{
    if news.len() > 0 {
        let init = news.drop_last();
        lemma_announced_players(players, init, p);
        assert forall|i: int|
            0 <= i < news.len() && #[trigger] news[i].player_id == p && (forall|j: int|
                i < j < news.len() ==> news[j].player_id != p) implies with_new_players(
            players,
            news,
        ).contains_key(p) && with_new_players(players, news)[p] == (
            news[i].frame_added,
            Seq::<I>::empty(),
        ) by {
            if i < news.len() - 1 {
                assert(news[news.len() - 1].player_id != p);
                assert(init[i] == news[i]);
                assert forall|j: int| i < j < init.len() implies init[j].player_id != p by {
                    assert(init[j] == news[j]);
                }
            }
        }
        if forall|i: int| 0 <= i < news.len() ==> news[i].player_id != p {
            assert forall|i: int| 0 <= i < init.len() implies init[i].player_id != p by {
                assert(init[i] == news[i]);
            }
            assert(news.last().player_id != p);
        }
    }
}

/// Whether `msg` can be taken in by a storage in state `s`: an inputs update must name a
/// known player and fit that player's stream, a bonus update must fit the bonus stream.
pub open spec fn accepts<I: Clone + Default>(s: LogicDataStorage<I>, msg: LogicInwardsMessage<I>) -> bool {
    match msg {
        LogicInwardsMessage::SyncerInputsUpdate(data) => {
            &&& data.owning_player >= 0
            &&& s.players().contains_key(data.owning_player as usize)
            &&& data.data@.len() > 0 ==> data.start_frame >= s.players()[data.owning_player as usize].0
            &&& data.data@.len() > 0 ==> data.start_frame + data.data@.len() - 1 <= usize::MAX
        },
        LogicInwardsMessage::SyncerBonusUpdate(data) => {
            &&& data.data@.len() > 0 ==> data.start_frame >= s.bonus_store().frames_index_offset
            &&& data.data@.len() > 0 ==> data.start_frame + data.data@.len() - 1 <= usize::MAX
        },
    }
}

/// Whether an update is taken in depends only on which players are known, where each stream
/// starts, and where the bonus stream starts: not on what the streams already hold.
pub proof fn lemma_acceptance_ignores_contents<I: Clone + Default>(
    s1: LogicDataStorage<I>,
    s2: LogicDataStorage<I>,
    msg: LogicInwardsMessage<I>,
)
    requires
        s1.players().dom() == s2.players().dom(),
        forall|p: PlayerID| #[trigger] s1.players().contains_key(p) ==> s1.players()[p].0 == s2.players()[p].0,
        s1.bonus_store().frames_index_offset == s2.bonus_store().frames_index_offset,
    ensures
        accepts(s1, msg) == accepts(s2, msg),
{
    match msg {
        LogicInwardsMessage::SyncerInputsUpdate(d) => {
            if d.owning_player >= 0 {
                assert(s1.players().contains_key(d.owning_player as usize) == s2.players().contains_key(
                    d.owning_player as usize,
                ));
            }
        },
        LogicInwardsMessage::SyncerBonusUpdate(_) => {},
    }
}

/// An inputs update that was taken in leaves its player's stream starting where it did, so
/// any later update for that player starting at or after the stream's first frame, such as
/// one that rewrites the same frames, is taken in too.
pub proof fn lemma_rewrite_accepted<I: Clone + Default>(
    before: LogicDataStorage<I>,
    after: LogicDataStorage<I>,
    first: SyncerData<I>,
    second: SyncerData<I>,
)
    requires
        accepts(before, LogicInwardsMessage::SyncerInputsUpdate(first)),
        after.players().dom() == before.players().dom(),
        after.players()[first.owning_player as usize].0 == before.players()[first.owning_player as usize].0,
        second.owning_player == first.owning_player,
        second.data@.len() > 0 ==> second.start_frame >= before.players()[first.owning_player as usize].0,
        second.data@.len() > 0 ==> second.start_frame + second.data@.len() - 1 <= usize::MAX,
    ensures
        accepts(after, LogicInwardsMessage::SyncerInputsUpdate(second)),
{
}

/// Once a bonus update announcing a player has been taken in, an inputs update from that
/// player that starts at or after the frame of its last announcement, and fits in frame
/// numbers, is taken in too.
pub proof fn lemma_announced_player_accepted<I: Clone + Default>(
    before: LogicDataStorage<I>,
    after: LogicDataStorage<I>,
    bonus: SyncerData<Vec<BonusEvent>>,
    inputs: SyncerData<I>,
    i: int,
)
    requires
        after.players() == with_new_players(
            before.players(),
            players_in_frames(bonus.data@, bonus.start_frame as int),
        ),
        ({
            let news = players_in_frames(bonus.data@, bonus.start_frame as int);
            &&& 0 <= i < news.len()
            &&& inputs.owning_player >= 0
            &&& news[i].player_id == inputs.owning_player as usize
            &&& forall|j: int| i < j < news.len() ==> news[j].player_id != inputs.owning_player as usize
            &&& inputs.start_frame >= news[i].frame_added
        }),
        inputs.data@.len() > 0 ==> inputs.start_frame + inputs.data@.len() - 1 <= usize::MAX,
    ensures
        accepts(after, LogicInwardsMessage::SyncerInputsUpdate(inputs)),
{
    let news = players_in_frames(bonus.data@, bonus.start_frame as int);
    lemma_announced_players(before.players(), news, inputs.owning_player as usize);
}

impl<I: Clone + Default> LogicDataStorage<I> {
    /// The input stream of each known player.
    pub closed spec fn players(&self) -> Map<PlayerID, (usize, Seq<I>)> {
        self.player_inputs@.map_values(|s: SyncerStore<I>| s@)
    }

    /// The bonus event stream.
    pub closed spec fn bonus_store(&self) -> SyncerStore<Vec<BonusEvent>> {
        self.bonus_events
    }

    /// The first frame of the bonus event stream.
    pub fn bonus_frames_offset(&self) -> (r: FrameIndex)
        ensures
            r == self.bonus_store().frames_index_offset,
    {
        self.bonus_events.frames_index_offset
    }

    /// No players yet, and an empty bonus stream starting at `bonus_frame_offset`.
    pub fn new(bonus_frame_offset: FrameIndex) -> (r: LogicDataStorage<I>)
        ensures
            r.players() == Map::<PlayerID, (usize, Seq<I>)>::empty(),
            r.bonus_store().frames_index_offset == bonus_frame_offset,
            r.bonus_store().data@.len() == 0,
    {
        LogicDataStorage {
            player_inputs: HashMap::new(),
            bonus_events: SyncerStore::<Vec<BonusEvent>>::gen_bonus_store(bonus_frame_offset),
        }
    }

    /// Whether `msg` can be taken in (see `accepts`): an inputs update from a negative or
    /// unknown player, or one before its player's stream starts, cannot.
    pub fn accepts_msg(&self, msg: &LogicInwardsMessage<I>) -> (r: bool)
        ensures
            r == accepts(*self, *msg),
            msg matches LogicInwardsMessage::SyncerInputsUpdate(d) ==> (r <==> {
                &&& d.owning_player >= 0
                &&& self.players().contains_key(d.owning_player as usize)
                &&& d.data@.len() > 0 ==> d.start_frame >= self.players()[d.owning_player as usize].0
                    && d.start_frame + d.data@.len() - 1 <= usize::MAX
            }),
            msg matches LogicInwardsMessage::SyncerBonusUpdate(d) ==> (r <==> (d.data@.len() > 0
                ==> d.start_frame >= self.bonus_store().frames_index_offset && d.start_frame
                + d.data@.len() - 1 <= usize::MAX)),
    {
        match msg {
            LogicInwardsMessage::SyncerInputsUpdate(data) => {
                if data.owning_player < 0 {
                    return false;
                }
                let p = data.owning_player as usize;
                match self.player_inputs.get(&p) {
                    Some(store) => data.data.len() == 0 || (data.start_frame
                        >= store.frames_index_offset && data.data.len() - 1 <= usize::MAX
                        - data.start_frame),
                    None => false,
                }
            },
            LogicInwardsMessage::SyncerBonusUpdate(data) => {
                data.data.len() == 0 || (data.start_frame >= self.bonus_events.frames_index_offset
                    && data.data.len() - 1 <= usize::MAX - data.start_frame)
            },
        }
    }

    /// Starts an empty input stream for the player at the frame it was added on,
    /// replacing any stream the player had.
    pub fn add_player_section(&mut self, new_player_info: &NewPlayerInfo)
        ensures
            final(self).players() == old(self).players().insert(
                new_player_info.player_id,
                (new_player_info.frame_added, Seq::<I>::empty()),
            ),
            final(self).bonus_store() == old(self).bonus_store(),
    {
        let store = SyncerStore::<I>::gen_inputs_store(new_player_info.frame_added);
        proof {
            assert(store@.1 =~= Seq::<I>::empty());
        }
        self.player_inputs.insert(new_player_info.player_id, store);
        proof {
            assert(self.players() =~= old(self).players().insert(
                new_player_info.player_id,
                (new_player_info.frame_added, Seq::<I>::empty()),
            ));
        }
    }

    /// Starts a stream for every player that the bonus events announce.
    fn extract_new_players(&mut self, data: &SyncerData<Vec<BonusEvent>>)
        requires
            data.frames_fit(),
        ensures
            final(self).players() =~= with_new_players(
                old(self).players(),
                players_in_frames(data.data@, data.start_frame as int),
            ),
            final(self).bonus_store() == old(self).bonus_store(),
    {
        let new_players = data.extract_new_players();
        let mut k: usize = 0;
        while k < new_players.len()
            invariant
                k <= new_players@.len(),
                self.bonus_events == old(self).bonus_events,
                self.players() =~= with_new_players(old(self).players(), new_players@.take(k as int)),
            decreases new_players@.len() - k,
        {
            self.add_player_section(&new_players[k]);
            proof {
                let t = new_players@.take(k as int + 1);
                assert(t.drop_last() == new_players@.take(k as int));
            }
            k = k + 1;
        }
        proof {
            assert(new_players@.take(k as int) == new_players@);
        }
    }

    /// Takes in an update: input segments go to their player's stream; bonus segments
    /// first start a stream for each player they announce, then go to the bonus stream.
    pub fn handle_inwards_msg(&mut self, msg: LogicInwardsMessage<I>)
        requires
            accepts(*old(self), msg),
        ensures
            match msg {
                LogicInwardsMessage::SyncerInputsUpdate(data) => {
                    let p = data.owning_player as usize;
                    let before = old(self).players()[p];
                    let after = final(self).players()[p];
                    &&& final(self).players().dom() == old(self).players().dom()
                    &&& forall|q: PlayerID|
                        q != p && #[trigger] old(self).players().contains_key(q)
                            ==> final(self).players()[q] == old(self).players()[q]
                    &&& final(self).bonus_store() == old(self).bonus_store()
                    &&& after.0 == before.0
                    &&& segment_landed(before.1, after.1, data, before.0)
                },
                LogicInwardsMessage::SyncerBonusUpdate(data) => {
                    &&& final(self).players() =~= with_new_players(
                        old(self).players(),
                        players_in_frames(data.data@, data.start_frame as int),
                    )
                    &&& final(self).bonus_store().frames_index_offset
                        == old(self).bonus_store().frames_index_offset
                    &&& segment_landed(
                        old(self).bonus_store().data@,
                        final(self).bonus_store().data@,
                        data,
                        old(self).bonus_store().frames_index_offset,
                    )
                },
            },
    {
        match msg {
            LogicInwardsMessage::SyncerInputsUpdate(data) => {
                let p = data.owning_player as usize;
                let removed = self.player_inputs.remove(&p);
                match removed {
                    Some(mut player_sync) => {
                        player_sync.insert_data_segment(data);
                        self.player_inputs.insert(p, player_sync);
                        proof {
                            assert(self.player_inputs@.dom() =~= old(self).player_inputs@.dom());
                        }
                    },
                    None => {},
                }
            },
            LogicInwardsMessage::SyncerBonusUpdate(data) => {
                proof {
                    if data.data@.len() > 0 {
                        assert(data.start_frame + data.data@.len() - 1 <= usize::MAX);
                    }
                }
                self.extract_new_players(&data);
                self.bonus_events.insert_data_segment(data);
            },
        }
    }
}

impl<I: Clone + Default> LogicDataStorage<I> {
    /// `info` is what simulating `frame` uses: the bonus events of that frame (else of the
    /// last frame held, else none) and, for each player whose stream has started by then,
    /// its input for that frame (else its last input, else a default input).
    pub open spec fn is_sim_info_for(&self, frame: FrameIndex, info: InfoForSim<I>) -> bool {
        let bonus = self.bonus_store()@;
        &&& if stream_has(bonus, frame as int) {
            cloned(bonus.1[frame - bonus.0], info.bonus_events)
        } else if bonus.1.len() > 0 {
            cloned(bonus.1.last(), info.bonus_events)
        } else {
            info.bonus_events@.len() == 0
        }
        &&& info.inputs_map@.dom() == started_players(self.players(), frame)
        &&& forall|p: PlayerID|
            #[trigger] info.inputs_map@.contains_key(p) ==> input_used_for(
                self.players()[p],
                frame as int,
                info.inputs_map@[p],
            )
    }

    /// Whether the bonus stream and every player stream that has started by `frame` hold `frame`.
    pub open spec fn holds_all_for(&self, frame: FrameIndex) -> bool {
        &&& stream_has(self.bonus_store()@, frame as int)
        &&& player_requests(self.players(), frame) == Set::<SyncerRequestTyped>::empty()
    }

    /// The tail simulation's step for `frame`: where every stream holds the frame, simulate it
    /// with what it uses; else ask for the missing frames, the bonus request first, then one
    /// request per player lacking it.
    pub fn tail_frame_step(&self, frame: FrameIndex) -> (r: TailFrameStep<I>)
        requires
            frame >= self.bonus_store().frames_index_offset,
        ensures
            match r {
                TailFrameStep::Simulate(info) => self.holds_all_for(frame) && self.is_sim_info_for(
                    frame,
                    info,
                ),
                TailFrameStep::AskFor(requests) => {
                    let bonus = self.bonus_store()@;
                    let k: int = if stream_has(bonus, frame as int) { 0 } else { 1 };
                    let rest = requests@.subrange(k, requests@.len() as int);
                    &&& !self.holds_all_for(frame)
                    &&& requests@.len() >= k
                    &&& k == 1 ==> requests@[0] == missing_request(frame, SyncerRequestType::BonusEvents)
                    &&& rest.no_duplicates()
                    &&& rest.to_set() == player_requests(self.players(), frame)
                },
            },
    {
        let result = self.clone_info_for_sim(frame);
        let ghost k: int = if stream_has(self.bonus_store()@, frame as int) { 0 } else { 1 };
        let ghost rest = result.missing_info@.subrange(k, result.missing_info@.len() as int);
        if result.missing_info.len() > 0 {
            proof {
                if k == 0 {
                    assert(rest.len() > 0);
                    assert(rest.to_set().contains(rest[0]));
                    assert(player_requests(self.players(), frame).contains(rest[0]));
                }
            }
            TailFrameStep::AskFor(result.missing_info)
        } else {
            proof {
                assert(rest.to_set() =~= Set::<SyncerRequestTyped>::empty());
            }
            TailFrameStep::Simulate(result.sim_info)
        }
    }

    /// What simulating each of the `HEAD_AHEAD_FRAME_COUNT` frames after `tail_frame` uses,
    /// in frame order, whatever is missing.
    pub fn infos_for_head(&self, tail_frame: FrameIndex) -> (r: Vec<InfoForSim<I>>)
        requires
            tail_frame + 1 >= self.bonus_store().frames_index_offset,
            tail_frame + 1 + HEAD_AHEAD_FRAME_COUNT <= usize::MAX,
        ensures
            r@.len() == HEAD_AHEAD_FRAME_COUNT,
            forall|k: int|
                0 <= k < HEAD_AHEAD_FRAME_COUNT ==> self.is_sim_info_for(
                    (tail_frame + 1 + k) as usize,
                    #[trigger] r@[k],
                ),
    {
        let first_head_to_sim = tail_frame + 1;
        let mut infos_for_sims: Vec<InfoForSim<I>> = Vec::new();
        let mut frame_index = first_head_to_sim;
        while frame_index < first_head_to_sim + HEAD_AHEAD_FRAME_COUNT
            invariant
                first_head_to_sim == tail_frame + 1,
                first_head_to_sim >= self.bonus_store().frames_index_offset,
                first_head_to_sim + HEAD_AHEAD_FRAME_COUNT <= usize::MAX,
                first_head_to_sim <= frame_index <= first_head_to_sim + HEAD_AHEAD_FRAME_COUNT,
                infos_for_sims@.len() == frame_index - first_head_to_sim,
                forall|k: int|
                    0 <= k < infos_for_sims@.len() ==> self.is_sim_info_for(
                        (tail_frame + 1 + k) as usize,
                        #[trigger] infos_for_sims@[k],
                    ),
            decreases first_head_to_sim + HEAD_AHEAD_FRAME_COUNT - frame_index,
        {
            let clone_data_result = self.clone_info_for_sim(frame_index);
            infos_for_sims.push(clone_data_result.sim_info);
            frame_index = frame_index + 1;
        }
        infos_for_sims
    }

    /// What simulating `frame_index` can use: the bonus events of that frame (else of the
    /// last frame held, else none) and, for each player whose stream has started by then,
    /// its input for that frame (else its last input, else a default input). Each stream
    /// lacking the frame adds a request for it: the bonus request first, then the players'
    /// requests in no fixed order.
    pub fn clone_info_for_sim(&self, frame_index: FrameIndex) -> (r: FrameSimQueryResults<I>)
        requires
            frame_index >= self.bonus_store().frames_index_offset,
        ensures
            ({
                let bonus = self.bonus_store()@;
                let k: int = if stream_has(bonus, frame_index as int) { 0 } else { 1 };
                let rest = r.missing_info@.subrange(k, r.missing_info@.len() as int);
                &&& r.missing_info@.len() >= k
                &&& k == 1 ==> r.missing_info@[0] == missing_request(
                    frame_index,
                    SyncerRequestType::BonusEvents,
                )
                &&& rest.no_duplicates()
                &&& rest.to_set() == player_requests(self.players(), frame_index)
            }),
            self.is_sim_info_for(frame_index, r.sim_info),
    {
        let mut missing_item_requests: Vec<SyncerRequestTyped> = Vec::new();
        let (bonus_list, problem_bonus) = self.bonus_events.get_or_last_query(
            frame_index,
            SyncerRequestType::BonusEvents,
        );
        match problem_bonus {
            Some(request) => {
                missing_item_requests.push(request);
            },
            None => {},
        }
        let ghost k: int = missing_item_requests@.len() as int;
        let ghost players = self.players();
        let ghost mut seen: Set<PlayerID> = Set::empty();
        let mut latest_inputs: HashMap<PlayerID, I> = HashMap::new();
        for (player_id, data) in it: self.player_inputs.iter()
            invariant
                players == self.players(),
                k == (if stream_has(self.bonus_store()@, frame_index as int) { 0int } else { 1int }),
                missing_item_requests@.len() >= k,
                k == 1 ==> missing_item_requests@[0] == missing_request(
                    frame_index,
                    SyncerRequestType::BonusEvents,
                ),
                it.seq().no_duplicates(),
                forall|p: PlayerID|
                    #[trigger] self.player_inputs@.contains_key(p) ==> exists|i: int|
                        0 <= i < it.seq().len() && *it.seq()[i].0 == p,
                forall|i: int|
                    0 <= i < it.seq().len() ==> #[trigger] self.player_inputs@.contains_key(
                        *it.seq()[i].0,
                    ) && self.player_inputs@[*it.seq()[i].0] == *it.seq()[i].1,
                forall|p: PlayerID|
                    #[trigger] seen.contains(p) <==> exists|i: int|
                        0 <= i < it.index() && *it.seq()[i].0 == p,
                it.index() == it.seq().len() ==> seen =~= self.player_inputs@.dom(),
                forall|p: PlayerID|
                    #[trigger] latest_inputs@.contains_key(p) <==> (seen.contains(p) && players[p].0
                        <= frame_index),
                forall|p: PlayerID|
                    #[trigger] latest_inputs@.contains_key(p) ==> input_used_for(
                        players[p],
                        frame_index as int,
                        latest_inputs@[p],
                    ),
                missing_item_requests@.subrange(k, missing_item_requests@.len() as int).no_duplicates(),
                forall|q: SyncerRequestTyped|
                    #[trigger] missing_item_requests@.subrange(
                        k,
                        missing_item_requests@.len() as int,
                    ).contains(q) <==> requests_of(players, seen, frame_index).contains(q),
        {
            let ghost idx = it.index();
            let ghost old_missing = missing_item_requests@;
            let ghost old_seen = seen;
            assert(player_id == it.seq()[idx].0);
            assert(self.player_inputs@.contains_key(*player_id));
            assert(players[*player_id] == (*data)@);
            // The walk visits each key once.
            assert(!old_seen.contains(*player_id)) by {
                if old_seen.contains(*player_id) {
                    let i = choose|i: int| 0 <= i < idx && *it.seq()[i].0 == *player_id;
                    assert(self.player_inputs@.contains_key(*it.seq()[i].0));
                    assert(it.seq()[i] == it.seq()[idx]);
                }
            }
            proof {
                seen = seen.insert(*player_id);
            }
            if frame_index >= data.frames_index_offset {
                let (player_inputs, problem_inputs) = data.get_or_last_query(
                    frame_index,
                    SyncerRequestType::PlayerInputs(*player_id),
                );
                let value = match player_inputs {
                    Some(found) => found,
                    None => I::default(),
                };
                latest_inputs.insert(*player_id, value);
                match problem_inputs {
                    Some(request) => {
                        missing_item_requests.push(request);
                    },
                    None => {},
                }
            }
            proof {
                let old_rest = old_missing.subrange(k, old_missing.len() as int);
                let new_rest = missing_item_requests@.subrange(k, missing_item_requests@.len() as int);
                if lacks_frame(players, *player_id, frame_index) {
                    assert(new_rest =~= old_rest.push(
                        missing_request(frame_index, SyncerRequestType::PlayerInputs(*player_id)),
                    ));
                } else {
                    assert(new_rest =~= old_rest);
                }
                lemma_requests_step(players, old_seen, *player_id, frame_index, old_rest, new_rest);
                assert forall|p: PlayerID|
                    #[trigger] seen.contains(p) <==> exists|i: int|
                        0 <= i < idx + 1 && *it.seq()[i].0 == p by {
                    if seen.contains(p) && p == *player_id {
                        assert(*it.seq()[idx].0 == p);
                    }
                }
            }
        }
        proof {
            let rest = missing_item_requests@.subrange(k, missing_item_requests@.len() as int);
            assert(seen =~= players.dom());
            lemma_requests_of_all(players, frame_index);
            assert(rest.to_set() =~= player_requests(players, frame_index));
            assert(latest_inputs@.dom() =~= started_players(players, frame_index));
        }
        let bonus_events = match bonus_list {
            Some(list) => list,
            None => Vec::new(),
        };
        FrameSimQueryResults {
            missing_info: missing_item_requests,
            sim_info: InfoForSim { inputs_map: latest_inputs, bonus_events },
        }
    }
}

} // verus!
