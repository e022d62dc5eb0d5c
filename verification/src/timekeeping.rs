//! Which frame the game should be on, from a frame whose start time is known.
use vstd::prelude::*;

use std::time::SystemTime;

use crate::clock::{duration_millis, system_duration_since, system_now};
use crate::FrameIndex;

verus! {

/// Length of a frame in milliseconds.
pub const FRAME_DURATION_MILLIS: u128 = 100;

/// A frame and the time it started.
#[derive(Debug)]
pub struct KnownFrameInfo {
    pub known_frame_index: FrameIndex,
    pub time: SystemTime,
}

/// The frame reached `elapsed_millis` after frame `known` started: one frame per whole
/// `FRAME_DURATION_MILLIS`, held at the last frame index there is.
pub open spec fn frame_after(known: FrameIndex, elapsed_millis: u128) -> FrameIndex {
    let f = known + elapsed_millis / FRAME_DURATION_MILLIS;
    if f > usize::MAX {
        usize::MAX
    } else {
        f as usize
    }
}

/// The frame the game should be on `elapsed_millis` after frame `known` started.
pub fn intended_frame_from(known: FrameIndex, elapsed_millis: u128) -> (r: FrameIndex)
    ensures
        r == frame_after(known, elapsed_millis),
{
    let frames = elapsed_millis / FRAME_DURATION_MILLIS;
    if frames > (usize::MAX - known) as u128 {
        usize::MAX
    } else {
        known + frames as usize
    }
}

impl KnownFrameInfo {
    /// The frame the game should be on now, counted from the known frame; `None` where the
    /// system clock reads earlier than the known frame's start.
    pub fn get_intended_current_frame(&self) -> (r: Option<FrameIndex>)
        ensures
            r matches Some(f) ==> f >= self.known_frame_index && exists|ms: u128|
                f == frame_after(self.known_frame_index, ms),
    {
        let now = system_now();
        match system_duration_since(&now, &self.time) {
            Some(d) => {
                let ms = duration_millis(&d);
                let f = intended_frame_from(self.known_frame_index, ms);
                proof {
                    assert(f == frame_after(self.known_frame_index, ms));
                }
                Some(f)
            },
            None => None,
        }
    }

    /// The frame the game should be on now, with the current time as its start; `None` where
    /// the system clock reads earlier than the reference frame's start.
    pub fn new_from_current_time(frame_reference: &KnownFrameInfo) -> (r: Option<Self>)
        ensures
            r matches Some(info) ==> info.known_frame_index >= frame_reference.known_frame_index,
    {
        match frame_reference.get_intended_current_frame() {
            Some(frame) => Some(KnownFrameInfo { known_frame_index: frame, time: system_now() }),
            None => None,
        }
    }
}

/// The state of a stream of frame numbers that are sent as their time comes.
pub struct FrameStreamState {
    next_to_send: FrameIndex,
}

impl FrameStreamState {
    /// The next frame this stream will send.
    pub closed spec fn next(&self) -> FrameIndex {
        self.next_to_send
    }

    /// The next frame this stream will send.
    pub fn next_frame(&self) -> (r: FrameIndex)
        ensures
            r == self.next(),
    {
        self.next_to_send
    }

    /// A stream whose first frame is `first_to_send`.
    pub fn start(first_to_send: FrameIndex) -> (r: Self)
        ensures
            r.next() == first_to_send,
    {
        FrameStreamState { next_to_send: first_to_send }
    }

    /// The frame to send now that the game should be on `intended_frame`: the next frame, if
    /// its time has come; frames are sent one at a time, in order, none ahead of its time.
    pub fn poll(&mut self, intended_frame: FrameIndex) -> (r: Option<FrameIndex>)
        requires
            old(self).next() < usize::MAX,
        ensures
            old(self).next() <= intended_frame ==> r == Some(old(self).next()) && final(self).next()
                == old(self).next() + 1,
            old(self).next() > intended_frame ==> r is None && final(self).next() == old(self).next(),
    {
        if self.next_to_send <= intended_frame {
            let frame = self.next_to_send;
            self.next_to_send = frame + 1;
            Some(frame)
        } else {
            None
        }
    }
}

} // verus!
