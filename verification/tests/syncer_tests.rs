use poggy::syncer::{
    vec_replace_or_end, BonusEvent, ExtractNewPlayers, NewPlayerInfo, SyncerData, SyncerRequest,
    SyncerRequestType, SyncerRequestTyped, SyncerStore, MISSING_REQUEST_FRAMES,
};

fn store_with(offset: usize, items: Vec<u32>) -> SyncerStore<u32> {
    SyncerStore { frames_index_offset: offset, data: items }
}

#[test]
fn gen_stores_start_empty_at_offset() {
    let inputs = SyncerStore::<u32>::gen_inputs_store(7);
    assert_eq!(inputs.frames_index_offset, 7);
    assert!(inputs.data.is_empty());
    let bonus = SyncerStore::<u32>::gen_bonus_store(3);
    assert_eq!(bonus.frames_index_offset, 3);
    assert!(bonus.data.is_empty());
}

#[test]
fn get_single_item_inside_and_past_end() {
    let store = store_with(10, vec![100, 101, 102]);
    assert_eq!(store.get_single_item(10), Some(&100));
    assert_eq!(store.get_single_item(12), Some(&102));
    assert_eq!(store.get_single_item(13), None);
    assert_eq!(store.get_single_item(1000), None);
}

#[test]
fn get_last_of_empty_and_full() {
    let empty = store_with(0, vec![]);
    assert_eq!(empty.get_last(), None);
    let store = store_with(4, vec![1, 2, 9]);
    assert_eq!(store.get_last(), Some(&9));
}

#[test]
fn get_or_last_query_found_needs_no_request() {
    let store = store_with(5, vec![50, 60, 70]);
    let (item, request) = store.get_or_last_query(6, SyncerRequestType::PlayerInputs(2));
    assert_eq!(item, Some(60));
    assert_eq!(request, None);
}

#[test]
fn get_or_last_query_missing_gives_last_and_request() {
    let store = store_with(5, vec![50, 60, 70]);
    let (item, request) = store.get_or_last_query(9, SyncerRequestType::PlayerInputs(2));
    assert_eq!(item, Some(70));
    assert_eq!(
        request,
        Some(SyncerRequestTyped {
            request: SyncerRequest { start_frame: 9, number_of_frames: MISSING_REQUEST_FRAMES },
            type_needed: SyncerRequestType::PlayerInputs(2),
        })
    );
    assert_eq!(MISSING_REQUEST_FRAMES, 20);
}

#[test]
fn get_or_last_query_on_empty_store() {
    let store = store_with(5, vec![]);
    let (item, request) = store.get_or_last_query(5, SyncerRequestType::BonusEvents);
    assert_eq!(item, None);
    assert_eq!(request.unwrap().type_needed, SyncerRequestType::BonusEvents);
}

#[test]
fn get_data_segment_stops_at_end_of_store() {
    let store = store_with(10, vec![1, 2, 3, 4]);
    let request = SyncerRequestTyped {
        request: SyncerRequest { start_frame: 12, number_of_frames: 5 },
        type_needed: SyncerRequestType::PlayerInputs(3),
    };
    let segment = store.get_data_segment(&request);
    assert_eq!(segment.start_frame, 12);
    assert_eq!(segment.data, vec![3, 4]);
    assert_eq!(segment.owning_player, 3);
}

#[test]
fn get_data_segment_takes_only_the_frames_asked_for() {
    let store = store_with(0, vec![1, 2, 3, 4, 5]);
    let request = SyncerRequestTyped {
        request: SyncerRequest { start_frame: 1, number_of_frames: 2 },
        type_needed: SyncerRequestType::BonusEvents,
    };
    let segment = store.get_data_segment(&request);
    assert_eq!(segment.data, vec![2, 3]);
    assert_eq!(segment.owning_player, -1);
}

#[test]
fn get_data_segment_past_the_end_is_empty() {
    let store = store_with(0, vec![1, 2]);
    let request = SyncerRequestTyped {
        request: SyncerRequest { start_frame: 6, number_of_frames: 3 },
        type_needed: SyncerRequestType::BonusEvents,
    };
    let segment = store.get_data_segment(&request);
    assert!(segment.data.is_empty());
    assert_eq!(segment.start_frame, 6);
}

#[test]
fn insert_data_segment_overwrites_and_extends() {
    let mut store = store_with(10, vec![1, 2, 3]);
    store.insert_data_segment(SyncerData { data: vec![20, 30, 40, 50], start_frame: 11, owning_player: 0 });
    assert_eq!(store.data, vec![1, 20, 30, 40, 50]);
    assert_eq!(store.frames_index_offset, 10);
}

#[test]
fn insert_data_segment_past_the_end_appends() {
    let mut store = store_with(0, vec![1]);
    store.insert_data_segment(SyncerData { data: vec![7, 8], start_frame: 5, owning_player: 0 });
    assert_eq!(store.data, vec![1, 7, 8]);
}

#[test]
fn written_segment_reads_back() {
    // A segment starting inside the store: every frame it covers reads back, others are kept.
    let mut store = store_with(100, vec![5, 6, 7, 8]);
    let segment = SyncerData { data: vec![60, 70], start_frame: 101, owning_player: 1 };
    store.insert_data_segment(segment.clone());
    for (i, item) in segment.data.iter().enumerate() {
        assert_eq!(store.get_single_item(segment.start_frame + i), Some(item));
    }
    assert_eq!(store.get_single_item(100), Some(&5));
    assert_eq!(store.get_single_item(103), Some(&8));
    let (_, request) = store.get_or_last_query(102, SyncerRequestType::PlayerInputs(1));
    assert_eq!(request, None);
}

#[test]
fn segment_cut_out_and_written_elsewhere_reads_back() {
    let source = store_with(0, vec![9, 8, 7, 6]);
    let request = SyncerRequestTyped {
        request: SyncerRequest { start_frame: 0, number_of_frames: 4 },
        type_needed: SyncerRequestType::PlayerInputs(0),
    };
    let segment = source.get_data_segment(&request);
    let mut target = SyncerStore::<u32>::gen_inputs_store(0);
    target.insert_data_segment(segment);
    assert_eq!(target.data, source.data);
}

#[test]
fn vec_replace_or_end_replaces_inside_and_pushes_past_end() {
    let mut list = vec![1, 2, 3];
    vec_replace_or_end(&mut list, 1, 20);
    assert_eq!(list, vec![1, 20, 3]);
    vec_replace_or_end(&mut list, 3, 4);
    assert_eq!(list, vec![1, 20, 3, 4]);
    vec_replace_or_end(&mut list, 99, 5);
    assert_eq!(list, vec![1, 20, 3, 4, 5]);
}

#[test]
fn extract_new_players_lists_each_event_with_its_frame() {
    let data = SyncerData {
        data: vec![
            vec![BonusEvent::NewPlayer(1)],
            vec![],
            vec![BonusEvent::NewPlayer(4), BonusEvent::NewPlayer(2)],
        ],
        start_frame: 30,
        owning_player: -1,
    };
    let players = data.extract_new_players();
    assert_eq!(
        players,
        vec![
            NewPlayerInfo { player_id: 1, frame_added: 30 },
            NewPlayerInfo { player_id: 4, frame_added: 32 },
            NewPlayerInfo { player_id: 2, frame_added: 32 },
        ]
    );
}

#[test]
fn extract_new_players_of_empty_segment() {
    let data: SyncerData<Vec<BonusEvent>> = SyncerData { data: vec![], start_frame: 0, owning_player: -1 };
    assert!(data.extract_new_players().is_empty());
}

#[test]
fn empty_segment_before_store_start_changes_nothing() {
    let mut store = store_with(10, vec![1, 2]);
    store.insert_data_segment(SyncerData { data: vec![], start_frame: 3, owning_player: 0 });
    assert_eq!(store.data, vec![1, 2]);
    assert_eq!(store.frames_index_offset, 10);
}

#[test]
fn segment_ending_at_last_frame_index() {
    let mut store = store_with(usize::MAX - 1, vec![]);
    store.insert_data_segment(SyncerData { data: vec![4, 5], start_frame: usize::MAX - 1, owning_player: 0 });
    assert_eq!(store.get_single_item(usize::MAX), Some(&5));
}

#[test]
fn served_segment_written_back_changes_nothing_and_twice_is_once() {
    let mut store = store_with(2, vec![7, 8, 9]);
    let request = SyncerRequestTyped {
        request: SyncerRequest { start_frame: 3, number_of_frames: 5 },
        type_needed: SyncerRequestType::PlayerInputs(1),
    };
    let segment = store.get_data_segment(&request);
    store.insert_data_segment(segment);
    assert_eq!(store.data, vec![7, 8, 9]);
    let seg = SyncerData { data: vec![1, 1, 1], start_frame: 4, owning_player: 1 };
    store.insert_data_segment(seg.clone());
    let once = store.data.clone();
    store.insert_data_segment(seg);
    assert_eq!(store.data, once);
    assert_eq!(once, vec![7, 8, 1, 1, 1]);
}
