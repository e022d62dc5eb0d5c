//! Frame-indexed streams of synchronised data (player inputs, bonus events).
//!
//! A `SyncerStore` holds one item per frame, starting at `frames_index_offset`.
//! Segments of consecutive frames (`SyncerData`) are merged into a store and
//! cut back out of it to answer requests for missing frames.
use vstd::prelude::*;

use crate::{FrameIndex, PlayerID};

verus! {

/// Number of frames asked for when a frame is found missing.
pub const MISSING_REQUEST_FRAMES: usize = 20;

/// An out-of-band event scheduled for a frame.
#[derive(Clone, Copy, Debug, PartialEq, Eq)]
pub enum BonusEvent {
    NewPlayer(PlayerID),
}

/// A player that joined, and the first frame on which it has inputs.
#[derive(Clone, Copy, Debug, PartialEq, Eq)]
pub struct NewPlayerInfo {
    pub player_id: PlayerID,
    pub frame_added: FrameIndex,
}

/// A run of items for consecutive frames, the first being `start_frame`.
#[derive(Clone, Debug)]
pub struct SyncerData<T> {
    pub data: Vec<T>,
    pub start_frame: FrameIndex,
    /// The player whose inputs these are; `-1` for bonus events.
    pub owning_player: i32,
}

/// Which stream a request is about.
#[derive(Clone, Copy, Debug, PartialEq, Eq)]
pub enum SyncerRequestType {
    PlayerInputs(PlayerID),
    BonusEvents,
}

/// A request for a stream's items on `number_of_frames` frames from `start_frame`.
#[derive(Clone, Copy, Debug, PartialEq, Eq)]
pub struct SyncerRequest {
    pub start_frame: FrameIndex,
    pub number_of_frames: usize,
}

/// A request together with the stream it is about.
#[derive(Clone, Copy, Debug, PartialEq, Eq)]
pub struct SyncerRequestTyped {
    pub request: SyncerRequest,
    pub type_needed: SyncerRequestType,
}

/// One item per frame, the first item belonging to frame `frames_index_offset`.
#[derive(Clone, Debug)]
pub struct SyncerStore<T> {
    pub frames_index_offset: usize,
    pub data: Vec<T>,
}

/// Things that can list the players whose joining they announce.
pub trait ExtractNewPlayers {
    /// Whether every frame the announcements speak of is a valid frame index.
    spec fn frames_fit(&self) -> bool;

    fn extract_new_players(&self) -> Vec<NewPlayerInfo>
        requires
            self.frames_fit(),
    ;
}

/// The request made when frame `frame` of stream `kind` is missing.
pub open spec fn missing_request(frame: FrameIndex, kind: SyncerRequestType) -> SyncerRequestTyped {
    SyncerRequestTyped {
        request: SyncerRequest { start_frame: frame, number_of_frames: MISSING_REQUEST_FRAMES },
        type_needed: kind,
    }
}

/// The player a segment answering a request of type `kind` belongs to.
pub open spec fn owner_of_request(kind: SyncerRequestType) -> i32 {
    match kind {
        SyncerRequestType::PlayerInputs(id) => id as i32,
        SyncerRequestType::BonusEvents => -1i32,
    }
}

/// The players announced by one frame's events, all added on `frame`.
pub open spec fn players_in_frame(events: Seq<BonusEvent>, frame: int) -> Seq<NewPlayerInfo> {
    events.map_values(
        |e: BonusEvent|
            match e {
                BonusEvent::NewPlayer(id) => NewPlayerInfo { player_id: id, frame_added: frame as usize },
            },
    )
}

/// The players announced by a run of frames' event lists, the first list being frame `start`,
/// in frame order and, within a frame, in list order.
pub open spec fn players_in_frames(lists: Seq<Vec<BonusEvent>>, start: int) -> Seq<NewPlayerInfo>
    decreases lists.len(),
{
    if lists.len() == 0 {
        Seq::empty()
    } else {
        players_in_frames(lists.drop_last(), start) + players_in_frame(
            lists.last()@,
            start + lists.len() - 1,
        )
    }
}

/// The position at which a segment starting at relative index `rel` lands in a list of length `len`:
/// its own position where that is inside or just past the list, else the list's end.
pub open spec fn landing_index(rel: int, len: int) -> int {
    if rel <= len { rel } else { len }
}

/// Length of a list of length `len` after a segment of `n` items lands at `p`.
pub open spec fn len_after_landing(p: int, n: int, len: int) -> int {
    if p + n > len { p + n } else { len }
}

/// `after` is `before` with segment `data` written in as `SyncerStore::insert_data_segment` does,
/// for a store whose first frame is `offset`.
pub open spec fn segment_landed<T: Clone>(
    before: Seq<T>,
    after: Seq<T>,
    data: SyncerData<T>,
    offset: usize,
) -> bool {
    let len = before.len() as int;
    let p = landing_index(data.start_frame - offset, len);
    let n = data.data@.len() as int;
    &&& after.len() == len_after_landing(p, n, len)
    &&& forall|i: int| 0 <= i < after.len() && !(p <= i < p + n) ==> #[trigger] after[i] == before[i]
    &&& forall|i: int| p <= i < p + n ==> cloned(data.data@[i - p], #[trigger] after[i])
}


impl ExtractNewPlayers for SyncerData<Vec<BonusEvent>> {
    open spec fn frames_fit(&self) -> bool {
        self.data@.len() > 0 ==> self.start_frame + self.data@.len() - 1 <= usize::MAX
    }

    /// Every `NewPlayer` event, with the frame of the list it stands in.
    fn extract_new_players(&self) -> (r: Vec<NewPlayerInfo>)
        ensures
            r@ == players_in_frames(self.data@, self.start_frame as int),
    {
        let mut new_players: Vec<NewPlayerInfo> = Vec::new();
        let mut k: usize = 0;
        while k < self.data.len()
            invariant
                k <= self.data.len(),
                self.data.len() > 0 ==> self.start_frame + self.data.len() - 1 <= usize::MAX,
                new_players@ == players_in_frames(self.data@.take(k as int), self.start_frame as int),
            decreases self.data.len() - k,
        {
            let frame: usize = self.start_frame + k;
            let list = &self.data[k];
            let ghost before = new_players@;
            let mut j: usize = 0;
            while j < list.len()
                invariant
                    j <= list.len(),
                    frame == self.start_frame + k,
                    new_players@ == before + players_in_frame(list@.take(j as int), frame as int),
                decreases list.len() - j,
            {
                match list[j] {
                    BonusEvent::NewPlayer(player_id) => {
                        new_players.push(NewPlayerInfo { player_id, frame_added: frame });
                    },
                }
                proof {
                    assert(list@.take(j as int + 1) == list@.take(j as int).push(list@[j as int]));
                }
                j = j + 1;
            }
            proof {
                assert(list@.take(j as int) == list@);
                let next = self.data@.take(k as int + 1);
                assert(next.drop_last() == self.data@.take(k as int));
                assert(next.last() == self.data@[k as int]);
            }
            k = k + 1;
        }
        proof {
            assert(self.data@.take(k as int) == self.data@);
        }
        new_players
    }
}

/// Puts `item` at `index` where that is inside `list`, else at the end of `list`.
pub fn vec_replace_or_end<T>(list: &mut Vec<T>, index: usize, item: T)
    ensures
        index < old(list)@.len() ==> final(list)@ == old(list)@.update(index as int, item),
        index >= old(list)@.len() ==> final(list)@ == old(list)@.push(item),
{
    if index < list.len() {
        list.set(index, item);
    } else {
        list.push(item);
    }
}

impl<T> View for SyncerStore<T> {
    /// The first frame held, and the items held from it on.
    type V = (usize, Seq<T>);

    open spec fn view(&self) -> (usize, Seq<T>) {
        (self.frames_index_offset, self.data@)
    }
}

/// Whether a stream viewed as (first frame, items) holds an item for `frame`.
pub open spec fn stream_has<T>(v: (usize, Seq<T>), frame: int) -> bool {
    v.0 <= frame < v.0 + v.1.len()
}

impl<T> SyncerStore<T> {
    /// Whether the store holds an item for `frame_index`.
    pub open spec fn has_frame(&self, frame_index: int) -> bool {
        self.frames_index_offset <= frame_index < self.frames_index_offset + self.data@.len()
    }

    /// The item stored for `frame_index`.
    pub open spec fn item_at(&self, frame_index: int) -> T {
        self.data@[frame_index - self.frames_index_offset]
    }
}

/// `seg` answers `request` from `store`: it starts at the requested frame, belongs to the
/// requested stream's owner, and holds copies of the items held for the requested frames,
/// stopping at the first frame not held.
pub open spec fn cut_from<T: Clone>(store: SyncerStore<T>, request: SyncerRequestTyped, seg: SyncerData<T>) -> bool {
    let rel = request.request.start_frame - store.frames_index_offset;
    let avail = if rel < store.data@.len() { store.data@.len() - rel } else { 0 };
    let n = request.request.number_of_frames as int;
    &&& seg.start_frame == request.request.start_frame
    &&& seg.owning_player == owner_of_request(request.type_needed)
    &&& seg.data@.len() == (if n < avail { n } else { avail })
    &&& forall|i: int| 0 <= i < seg.data@.len() ==> cloned(store.data@[rel + i], #[trigger] seg.data@[i])
}

/// A segment cut out of one store to answer a request, once written into another store that
/// holds every frame before the segment's start, gives that store every frame the first one
/// held of those asked for, each a copy of a copy of the first store's item.
pub proof fn lemma_requested_segment_fills_gap<T: Clone>(
    source: SyncerStore<T>,
    request: SyncerRequestTyped,
    seg: SyncerData<T>,
    before: SyncerStore<T>,
    after: SyncerStore<T>,
)
    requires
        request.request.start_frame >= source.frames_index_offset,
        cut_from(source, request, seg),
        after.frames_index_offset == before.frames_index_offset,
        segment_landed(before.data@, after.data@, seg, before.frames_index_offset),
        before.frames_index_offset <= request.request.start_frame <= before.frames_index_offset
            + before.data@.len(),
    ensures
        forall|f: int|
            request.request.start_frame <= f < request.request.start_frame
                + request.request.number_of_frames && #[trigger] source.has_frame(f) ==> {
                &&& after.has_frame(f)
                &&& cloned(source.item_at(f), seg.data@[f - request.request.start_frame])
                &&& cloned(seg.data@[f - request.request.start_frame], after.item_at(f))
            },
{
    lemma_segment_reads_back(before, after, seg);
    let start = request.request.start_frame as int;
    assert forall|f: int|
        start <= f < start + request.request.number_of_frames && #[trigger] source.has_frame(f) implies {
        &&& after.has_frame(f)
        &&& cloned(source.item_at(f), seg.data@[f - start])
        &&& cloned(seg.data@[f - start], after.item_at(f))
    } by {
        let i = f - start;
        assert(0 <= i < seg.data@.len());
        assert(after.item_at(seg.start_frame + i) == after.item_at(f));
    }
}

/// Cloning a `T` gives back an equal value.
pub open spec fn clone_is_exact<T: Clone>() -> bool {
    forall|a: T, b: T| #[trigger] cloned(a, b) ==> a == b
}

/// For items whose clone is exact, writing back into a store a segment it served itself
/// changes nothing.
pub proof fn lemma_served_segment_changes_nothing<T: Clone>(
    store: SyncerStore<T>,
    request: SyncerRequestTyped,
    seg: SyncerData<T>,
    after: SyncerStore<T>,
)
    requires
        clone_is_exact::<T>(),
        request.request.start_frame >= store.frames_index_offset,
        cut_from(store, request, seg),
        after.frames_index_offset == store.frames_index_offset,
        segment_landed(store.data@, after.data@, seg, store.frames_index_offset),
    ensures
        after.data@ == store.data@,
{
    let len = store.data@.len() as int;
    let rel = request.request.start_frame - store.frames_index_offset;
    let p = landing_index(rel, len);
    let n = seg.data@.len() as int;
    assert(p + n <= len);
    assert forall|i: int| 0 <= i < len implies after.data@[i] == store.data@[i] by {
        if p <= i < p + n {
            assert(p == rel);
            assert(cloned(seg.data@[i - p], after.data@[i]));
            assert(cloned(store.data@[rel + (i - p)], seg.data@[i - p]));
        }
    }
    assert(after.data@ =~= store.data@);
}

/// For items whose clone is exact, writing the same segment twice, where it starts at or
/// before the store's end, leaves the store as writing it once does.
pub proof fn lemma_segment_twice_as_once<T: Clone>(
    once: Seq<T>,
    first: Seq<T>,
    twice: Seq<T>,
    seg: SyncerData<T>,
    offset: usize,
)
    requires
        clone_is_exact::<T>(),
        segment_landed(once, first, seg, offset),
        segment_landed(first, twice, seg, offset),
        offset <= seg.start_frame <= offset + once.len(),
    ensures
        twice == first,
{
    let rel = seg.start_frame - offset;
    let n = seg.data@.len() as int;
    assert(landing_index(rel, once.len() as int) == rel);
    assert(first.len() >= rel + n);
    assert(landing_index(rel, first.len() as int) == rel);
    assert forall|i: int| 0 <= i < first.len() implies twice[i] == first[i] by {
        if rel <= i < rel + n {
            assert(cloned(seg.data@[i - rel], first[i]));
            assert(cloned(seg.data@[i - rel], twice[i]));
        }
    }
    assert(twice =~= first);
}

/// After a segment that starts at or before the end of a store is written into it, the store
/// holds every frame of the segment, each as a copy of the segment's item; every frame held
/// before and not written keeps its item; and no frame held before is lost.
pub proof fn lemma_segment_reads_back<T: Clone>(
    before: SyncerStore<T>,
    after: SyncerStore<T>,
    seg: SyncerData<T>,
)
    requires
        after.frames_index_offset == before.frames_index_offset,
        segment_landed(before.data@, after.data@, seg, before.frames_index_offset),
        before.frames_index_offset <= seg.start_frame <= before.frames_index_offset
            + before.data@.len(),
    ensures
        forall|i: int|
            0 <= i < seg.data@.len() ==> after.has_frame(seg.start_frame + i) && cloned(
                seg.data@[i],
                #[trigger] after.item_at(seg.start_frame + i),
            ),
        forall|f: int|
            #[trigger] before.has_frame(f) && !(seg.start_frame <= f < seg.start_frame
                + seg.data@.len()) ==> after.has_frame(f) && after.item_at(f) == before.item_at(f),
        forall|f: int| #[trigger] before.has_frame(f) ==> after.has_frame(f),
{
    let off = before.frames_index_offset as int;
    let p = seg.start_frame - off;
    assert(landing_index(p, before.data@.len() as int) == p);
    assert forall|i: int| 0 <= i < seg.data@.len() implies after.has_frame(seg.start_frame + i) && cloned(
        seg.data@[i],
        #[trigger] after.item_at(seg.start_frame + i),
    ) by {
        assert(after.data@[p + i] == after.item_at(seg.start_frame + i));
    }
    assert forall|f: int|
        #[trigger] before.has_frame(f) && !(seg.start_frame <= f < seg.start_frame
            + seg.data@.len()) implies after.has_frame(f) && after.item_at(f) == before.item_at(f) by {
        assert(after.data@[f - off] == before.data@[f - off]);
    }
}

impl<T> SyncerStore<T> where T: Clone {
    /// An empty store of bonus-event lists whose first frame is `frames_index_offset`.
    pub fn gen_bonus_store(frames_index_offset: usize) -> (r: SyncerStore<Vec<BonusEvent>>)
        ensures
            r.frames_index_offset == frames_index_offset,
            r.data@.len() == 0,
    {
        SyncerStore { frames_index_offset, data: Vec::new() }
    }

    /// An empty store whose first frame is `frames_index_offset`.
    pub fn gen_inputs_store(frames_index_offset: usize) -> (r: SyncerStore<T>)
        ensures
            r.frames_index_offset == frames_index_offset,
            r.data@.len() == 0,
    {
        SyncerStore { frames_index_offset, data: Vec::new() }
    }

    /// The item for `frame_index`, if the store holds one.
    /// Frames before the store's first frame may not be asked for.
    pub fn get_single_item(&self, frame_index: FrameIndex) -> (r: Option<&T>)
        requires
            frame_index >= self.frames_index_offset,
        ensures
            r == (if self.has_frame(frame_index as int) {
                Some(&self.item_at(frame_index as int))
            } else {
                None
            }),
    {
        let relative = frame_index - self.frames_index_offset;
        if relative < self.data.len() {
            Some(&self.data[relative])
        } else {
            None
        }
    }

    /// The item for the last frame held, if any.
    pub fn get_last(&self) -> (r: Option<&T>)
        ensures
            r == (if self.data@.len() > 0 {
                Some(&self.data@.last())
            } else {
                None
            }),
    {
        if self.data.len() > 0 {
            Some(&self.data[self.data.len() - 1])
        } else {
            None
        }
    }

    /// A copy of the item for `frame_index` and no request where it is held; else a copy
    /// of the last item held (if any) and a request for `MISSING_REQUEST_FRAMES` frames
    /// from `frame_index`.
    pub fn get_or_last_query(&self, frame_index: FrameIndex, request_type: SyncerRequestType) -> (r: (
        Option<T>,
        Option<SyncerRequestTyped>,
    ))
        requires
            frame_index >= self.frames_index_offset,
        ensures
            self.has_frame(frame_index as int) ==> {
                &&& r.1 is None
                &&& r.0 is Some
                &&& cloned(self.item_at(frame_index as int), r.0->0)
            },
            !self.has_frame(frame_index as int) ==> {
                &&& r.1 == Some(missing_request(frame_index, request_type))
                &&& (r.0 is Some <==> self.data@.len() > 0)
                &&& r.0 is Some ==> cloned(self.data@.last(), r.0->0)
            },
    {
        let data_option = self.get_single_item(frame_index);
        match data_option {
            Some(found_data) => (Some(found_data.clone()), None),
            None => {
                let missing = SyncerRequestTyped {
                    request: SyncerRequest {
                        start_frame: frame_index,
                        number_of_frames: MISSING_REQUEST_FRAMES,
                    },
                    type_needed: request_type,
                };
                let last = match self.get_last() {
                    Some(item) => Some(item.clone()),
                    None => None,
                };
                (last, Some(missing))
            },
        }
    }

    /// The items held for the requested frames, stopping at the first frame not held;
    /// the segment starts at the requested frame and belongs to the requested player
    /// (`-1` for bonus events).
    pub fn get_data_segment(&self, request: &SyncerRequestTyped) -> (r: SyncerData<T>)
        requires
            request.request.start_frame >= self.frames_index_offset,
            request.request.start_frame - self.frames_index_offset + request.request.number_of_frames
                <= usize::MAX,
        ensures
            cut_from(*self, *request, r),
    {
        let relative_start_frame = request.request.start_frame - self.frames_index_offset;
        let end = relative_start_frame + request.request.number_of_frames;
        let mut data_found: Vec<T> = Vec::new();
        let mut relative_index = relative_start_frame;
        while relative_index < end && relative_index < self.data.len()
            invariant
                relative_start_frame <= relative_index <= end,
                end == relative_start_frame + request.request.number_of_frames,
                relative_start_frame == request.request.start_frame - self.frames_index_offset,
                relative_index > relative_start_frame ==> relative_index <= self.data@.len(),
                data_found@.len() == relative_index - relative_start_frame,
                forall|i: int|
                    0 <= i < data_found@.len() ==> cloned(
                        self.data@[relative_start_frame + i],
                        #[trigger] data_found@[i],
                    ),
            decreases end - relative_index,
        {
            data_found.push(self.data[relative_index].clone());
            relative_index = relative_index + 1;
        }
        let player_id: i32 = match request.type_needed {
            SyncerRequestType::PlayerInputs(id) => id as i32,
            SyncerRequestType::BonusEvents => -1,
        };
        SyncerData {
            data: data_found,
            start_frame: request.request.start_frame,
            owning_player: player_id,
        }
    }

    /// Writes each item of the segment at its frame; an item whose frame lies past the
    /// end of the store goes to the end of the store instead.
    pub fn insert_data_segment(&mut self, syncer_data: SyncerData<T>)
        requires
            syncer_data.data@.len() > 0 ==> syncer_data.start_frame >= old(self).frames_index_offset,
            syncer_data.data@.len() > 0 ==> syncer_data.start_frame + syncer_data.data@.len() - 1
                <= usize::MAX,
        ensures
            final(self).frames_index_offset == old(self).frames_index_offset,
            segment_landed(old(self).data@, final(self).data@, syncer_data, old(self).frames_index_offset),
    {
        let ghost len = self.data@.len() as int;
        let ghost rel0 = syncer_data.start_frame - self.frames_index_offset;
        let ghost p = landing_index(rel0, len);
        let ghost old_data = self.data@;
        let mut k: usize = 0;
        while k < syncer_data.data.len()
            invariant
                k <= syncer_data.data@.len(),
                self.frames_index_offset == old(self).frames_index_offset,
                syncer_data.data@.len() > 0 ==> syncer_data.start_frame >= self.frames_index_offset,
                syncer_data.data@.len() > 0 ==> syncer_data.start_frame + syncer_data.data@.len() - 1
                    <= usize::MAX,
                rel0 == syncer_data.start_frame - self.frames_index_offset,
                p == landing_index(rel0, len),
                len == old_data.len(),
                self.data@.len() == len_after_landing(p, k as int, len),
                forall|i: int|
                    0 <= i < self.data@.len() && !(p <= i < p + k) ==> #[trigger] self.data@[i]
                        == old_data[i],
                forall|i: int|
                    p <= i < p + k ==> cloned(syncer_data.data@[i - p], #[trigger] self.data@[i]),
            decreases syncer_data.data@.len() - k,
        {
            let absolute_index = syncer_data.start_frame + k;
            let relative_index = absolute_index - self.frames_index_offset;
            let item = syncer_data.data[k].clone();
            proof {
                // Where the segment started past the end, every item so far went to the end.
                if rel0 > len {
                    assert(self.data@.len() == len + k);
                    assert(relative_index >= self.data@.len());
                } else {
                    assert(relative_index == p + k);
                }
            }
            vec_replace_or_end(&mut self.data, relative_index, item);
            k = k + 1;
        }
    }
}

} // verus!
