//! Where the local player's inputs go: each change goes to the local logic at once, and when a
//! new frame starts the input held for the frame that just closed goes to the network.
use vstd::prelude::*;

use crate::logic_storage::LogicInwardsMessage;
use crate::syncer::SyncerData;
use crate::FrameIndex;

verus! {

/// The input held now, the frame it is for, and the player it belongs to.
pub struct InputDist<I> {
    pub current: I,
    pub target_frame: FrameIndex,
    pub player: i32,
}

/// What happened: the input changed to a new state, or a new frame started.
pub enum InputDistEvent<I> {
    InputsChanged(I),
    NewFrame(FrameIndex),
}

/// Where to send an update: to the local logic, or to the network.
pub enum InputDistAction<I> {
    ToLogic(LogicInwardsMessage<I>),
    ToNet(LogicInwardsMessage<I>),
}

/// `msg` is an inputs update of one item, a copy of `input`, for `frame`, owned by `player`.
pub open spec fn one_input_update<I: Clone>(msg: LogicInwardsMessage<I>, input: I, frame: FrameIndex, player: i32) -> bool {
    &&& msg matches LogicInwardsMessage::SyncerInputsUpdate(d)
    &&& d.start_frame == frame
    &&& d.owning_player == player
    &&& d.data@.len() == 1
    &&& cloned(input, d.data@[0])
}

impl<I: Clone> InputDist<I> {
    /// Handles one event. On an input change, the new input is held and sent to the logic for
    /// the frame being filled; on a new frame, the input held is sent to the network for the
    /// frame being filled, and the new frame is filled from then on.
    pub fn step(&mut self, event: InputDistEvent<I>) -> (a: InputDistAction<I>)
        ensures
            final(self).player == old(self).player,
            match event {
                InputDistEvent::InputsChanged(i) => {
                    &&& final(self).current == i
                    &&& final(self).target_frame == old(self).target_frame
                    &&& a matches InputDistAction::ToLogic(msg) && one_input_update(
                        msg,
                        i,
                        old(self).target_frame,
                        old(self).player,
                    )
                },
                InputDistEvent::NewFrame(f) => {
                    &&& final(self).current == old(self).current
                    &&& final(self).target_frame == f
                    &&& a matches InputDistAction::ToNet(msg) && one_input_update(
                        msg,
                        old(self).current,
                        old(self).target_frame,
                        old(self).player,
                    )
                },
            },
    {
        match event {
            InputDistEvent::InputsChanged(input) => {
                self.current = input;
                let data = vec![self.current.clone()];
                InputDistAction::ToLogic(
                    LogicInwardsMessage::SyncerInputsUpdate(
                        SyncerData { data, start_frame: self.target_frame, owning_player: self.player },
                    ),
                )
            },
            InputDistEvent::NewFrame(next_frame_index) => {
                let data = vec![self.current.clone()];
                let msg = LogicInwardsMessage::SyncerInputsUpdate(
                    SyncerData { data, start_frame: self.target_frame, owning_player: self.player },
                );
                self.target_frame = next_frame_index;
                InputDistAction::ToNet(msg)
            },
        }
    }
}

} // verus!
