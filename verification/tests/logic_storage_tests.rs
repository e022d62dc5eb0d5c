use poggy::logic_storage::{
    LogicDataStorage, LogicInwardsMessage, LogicOutwardsMessage, TailFrameStep, HEAD_AHEAD_FRAME_COUNT,
};
use poggy::syncer::{
    BonusEvent, NewPlayerInfo, SyncerData, SyncerRequest, SyncerRequestType, SyncerRequestTyped,
    MISSING_REQUEST_FRAMES,
};

fn request(frame: usize, kind: SyncerRequestType) -> SyncerRequestTyped {
    SyncerRequestTyped {
        request: SyncerRequest { start_frame: frame, number_of_frames: MISSING_REQUEST_FRAMES },
        type_needed: kind,
    }
}

fn announce(storage: &mut LogicDataStorage<u32>, frame: usize, events: Vec<BonusEvent>) {
    storage.handle_inwards_msg(LogicInwardsMessage::SyncerBonusUpdate(SyncerData {
        data: vec![events],
        start_frame: frame,
        owning_player: -1,
    }));
}

#[test]
fn empty_storage_asks_for_bonus_events_only() {
    let storage: LogicDataStorage<u32> = LogicDataStorage::new(0);
    let result = storage.clone_info_for_sim(0);
    assert_eq!(result.missing_info, vec![request(0, SyncerRequestType::BonusEvents)]);
    assert!(result.sim_info.inputs_map.is_empty());
    assert!(result.sim_info.bonus_events.is_empty());
}

#[test]
fn announced_player_inputs_are_taken_and_used() {
    let mut storage: LogicDataStorage<u32> = LogicDataStorage::new(0);
    announce(&mut storage, 0, vec![BonusEvent::NewPlayer(7)]);
    storage.handle_inwards_msg(LogicInwardsMessage::SyncerInputsUpdate(SyncerData {
        data: vec![11, 12],
        start_frame: 0,
        owning_player: 7,
    }));
    let result = storage.clone_info_for_sim(1);
    // Frame 1 has no bonus events yet: the bonus stream asks, the player does not.
    assert_eq!(result.missing_info, vec![request(1, SyncerRequestType::BonusEvents)]);
    assert_eq!(result.sim_info.inputs_map.get(&7), Some(&12));
    assert_eq!(result.sim_info.bonus_events, vec![BonusEvent::NewPlayer(7)]);
}

#[test]
fn missing_player_input_uses_last_and_asks() {
    let mut storage: LogicDataStorage<u32> = LogicDataStorage::new(0);
    announce(&mut storage, 0, vec![BonusEvent::NewPlayer(3)]);
    storage.handle_inwards_msg(LogicInwardsMessage::SyncerInputsUpdate(SyncerData {
        data: vec![5],
        start_frame: 0,
        owning_player: 3,
    }));
    let result = storage.clone_info_for_sim(0);
    assert!(result.missing_info.is_empty());
    assert_eq!(result.sim_info.inputs_map.get(&3), Some(&5));
    storage.handle_inwards_msg(LogicInwardsMessage::SyncerBonusUpdate(SyncerData {
        data: vec![vec![]],
        start_frame: 1,
        owning_player: -1,
    }));
    let later = storage.clone_info_for_sim(1);
    assert_eq!(later.missing_info, vec![request(1, SyncerRequestType::PlayerInputs(3))]);
    assert_eq!(later.sim_info.inputs_map.get(&3), Some(&5));
}

#[test]
fn player_without_inputs_gets_default_input() {
    let mut storage: LogicDataStorage<u32> = LogicDataStorage::new(0);
    announce(&mut storage, 0, vec![BonusEvent::NewPlayer(1)]);
    let result = storage.clone_info_for_sim(0);
    assert_eq!(result.missing_info, vec![request(0, SyncerRequestType::PlayerInputs(1))]);
    assert_eq!(result.sim_info.inputs_map.get(&1), Some(&0));
}

#[test]
fn player_not_started_yet_is_left_out() {
    let mut storage: LogicDataStorage<u32> = LogicDataStorage::new(0);
    storage.add_player_section(&NewPlayerInfo { player_id: 9, frame_added: 50 });
    announce(&mut storage, 0, vec![]);
    let result = storage.clone_info_for_sim(0);
    assert!(result.missing_info.is_empty());
    assert!(result.sim_info.inputs_map.is_empty());
}

#[test]
fn two_players_missing_each_ask_once() {
    let mut storage: LogicDataStorage<u32> = LogicDataStorage::new(0);
    announce(&mut storage, 0, vec![BonusEvent::NewPlayer(1), BonusEvent::NewPlayer(2)]);
    let result = storage.clone_info_for_sim(0);
    let mut missing = result.missing_info.clone();
    missing.sort_by_key(|q| match q.type_needed {
        SyncerRequestType::PlayerInputs(p) => p,
        SyncerRequestType::BonusEvents => 0,
    });
    assert_eq!(
        missing,
        vec![
            request(0, SyncerRequestType::PlayerInputs(1)),
            request(0, SyncerRequestType::PlayerInputs(2)),
        ]
    );
}

#[test]
fn tail_frame_step_simulates_when_all_is_there() {
    let mut storage: LogicDataStorage<u32> = LogicDataStorage::new(0);
    announce(&mut storage, 0, vec![BonusEvent::NewPlayer(4)]);
    storage.handle_inwards_msg(LogicInwardsMessage::SyncerInputsUpdate(SyncerData {
        data: vec![42],
        start_frame: 0,
        owning_player: 4,
    }));
    match storage.tail_frame_step(0) {
        TailFrameStep::Simulate(info) => {
            assert_eq!(info.inputs_map.get(&4), Some(&42));
            assert_eq!(info.bonus_events, vec![BonusEvent::NewPlayer(4)]);
        },
        TailFrameStep::AskFor(_) => panic!("frame 0 is complete"),
    }
    match storage.tail_frame_step(1) {
        TailFrameStep::Simulate(_) => panic!("frame 1 is not there yet"),
        TailFrameStep::AskFor(requests) => {
            assert_eq!(requests[0], request(1, SyncerRequestType::BonusEvents));
            assert_eq!(requests.len(), 2);
            assert_eq!(requests[1], request(1, SyncerRequestType::PlayerInputs(4)));
        },
    }
}

#[test]
fn infos_for_head_covers_the_frames_after_the_tail() {
    let mut storage: LogicDataStorage<u32> = LogicDataStorage::new(0);
    announce(&mut storage, 0, vec![BonusEvent::NewPlayer(2)]);
    storage.handle_inwards_msg(LogicInwardsMessage::SyncerInputsUpdate(SyncerData {
        data: vec![1, 2, 3],
        start_frame: 0,
        owning_player: 2,
    }));
    let infos = storage.infos_for_head(0);
    assert_eq!(infos.len(), HEAD_AHEAD_FRAME_COUNT);
    assert_eq!(infos[0].inputs_map.get(&2), Some(&2));
    assert_eq!(infos[1].inputs_map.get(&2), Some(&3));
    assert_eq!(infos[5].inputs_map.get(&2), Some(&3));
}

#[test]
fn later_announcement_restarts_player_stream() {
    let mut storage: LogicDataStorage<u32> = LogicDataStorage::new(0);
    announce(&mut storage, 0, vec![BonusEvent::NewPlayer(5)]);
    storage.handle_inwards_msg(LogicInwardsMessage::SyncerInputsUpdate(SyncerData {
        data: vec![8],
        start_frame: 0,
        owning_player: 5,
    }));
    announce(&mut storage, 1, vec![BonusEvent::NewPlayer(5)]);
    let result = storage.clone_info_for_sim(1);
    assert_eq!(result.missing_info, vec![request(1, SyncerRequestType::PlayerInputs(5))]);
    assert_eq!(result.sim_info.inputs_map.get(&5), Some(&0));
}

#[test]
fn outwards_messages_compare() {
    let a = LogicOutwardsMessage::DataNeeded(request(3, SyncerRequestType::BonusEvents));
    assert_eq!(a, LogicOutwardsMessage::DataNeeded(request(3, SyncerRequestType::BonusEvents)));
    assert_ne!(a, LogicOutwardsMessage::IAmInitialized());
}

#[test]
fn accepts_msg_refuses_unknown_and_early_inputs() {
    let mut storage: LogicDataStorage<u32> = LogicDataStorage::new(4);
    let unknown = LogicInwardsMessage::SyncerInputsUpdate(SyncerData { data: vec![1], start_frame: 4, owning_player: 2 });
    assert!(!storage.accepts_msg(&unknown));
    let negative = LogicInwardsMessage::SyncerInputsUpdate(SyncerData { data: vec![1], start_frame: 4, owning_player: -1 });
    assert!(!storage.accepts_msg(&negative));
    let early_bonus = LogicInwardsMessage::SyncerBonusUpdate(SyncerData { data: vec![vec![]], start_frame: 3, owning_player: -1 });
    assert!(!storage.accepts_msg(&early_bonus));
    let bonus = LogicInwardsMessage::SyncerBonusUpdate(SyncerData {
        data: vec![vec![BonusEvent::NewPlayer(2)]],
        start_frame: 6,
        owning_player: -1,
    });
    assert!(storage.accepts_msg(&bonus));
    storage.handle_inwards_msg(bonus);
    assert!(storage.accepts_msg(&LogicInwardsMessage::SyncerInputsUpdate(SyncerData {
        data: vec![1],
        start_frame: 6,
        owning_player: 2,
    })));
    assert!(!storage.accepts_msg(&LogicInwardsMessage::SyncerInputsUpdate(SyncerData {
        data: vec![1],
        start_frame: 5,
        owning_player: 2,
    })));
}

#[test]
fn empty_updates_before_stream_start_are_taken_as_no_ops() {
    let mut storage: LogicDataStorage<u32> = LogicDataStorage::new(5);
    let empty_bonus = LogicInwardsMessage::SyncerBonusUpdate(SyncerData { data: vec![], start_frame: 1, owning_player: -1 });
    assert!(storage.accepts_msg(&empty_bonus));
    storage.handle_inwards_msg(empty_bonus);
    storage.add_player_section(&NewPlayerInfo { player_id: 3, frame_added: 8 });
    let empty_inputs = LogicInwardsMessage::SyncerInputsUpdate(SyncerData { data: vec![], start_frame: 0, owning_player: 3 });
    assert!(storage.accepts_msg(&empty_inputs));
    storage.handle_inwards_msg(empty_inputs);
    assert_eq!(storage.bonus_frames_offset(), 5);
    assert!(storage.bonus_events.data.is_empty());
}
