use poggy::input_dist::{InputDist, InputDistAction, InputDistEvent};
use poggy::logic_storage::LogicInwardsMessage;

fn inputs_of(msg: &LogicInwardsMessage<u32>) -> (Vec<u32>, usize, i32) {
    match msg {
        LogicInwardsMessage::SyncerInputsUpdate(d) => (d.data.clone(), d.start_frame, d.owning_player),
        LogicInwardsMessage::SyncerBonusUpdate(_) => panic!("expected an inputs update"),
    }
}

#[test]
fn input_change_goes_to_logic_for_the_frame_being_filled() {
    let mut dist = InputDist { current: 0u32, target_frame: 20, player: 4 };
    match dist.step(InputDistEvent::InputsChanged(9)) {
        InputDistAction::ToLogic(msg) => assert_eq!(inputs_of(&msg), (vec![9], 20, 4)),
        InputDistAction::ToNet(_) => panic!("an input change goes to the logic"),
    }
    assert_eq!(dist.current, 9);
    assert_eq!(dist.target_frame, 20);
}

#[test]
fn new_frame_sends_held_input_to_network_and_moves_on() {
    let mut dist = InputDist { current: 5u32, target_frame: 20, player: 1 };
    match dist.step(InputDistEvent::NewFrame(21)) {
        InputDistAction::ToNet(msg) => assert_eq!(inputs_of(&msg), (vec![5], 20, 1)),
        InputDistAction::ToLogic(_) => panic!("a new frame goes to the network"),
    }
    assert_eq!(dist.target_frame, 21);
    assert_eq!(dist.current, 5);
}
