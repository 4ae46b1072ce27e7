use nerv::data::{sorted_frame_names, CustomDataSet, DataLoader};

fn names(list: &[&str]) -> Vec<String> {
    list.iter().map(|s| s.to_string()).collect()
}

#[test]
fn frames_sort_like_strings() {
    let listed = names(&["frame_0010.png", "frame_0002.png", "Frame_0001.png", "frame_0001.png", "ä.png", "a.png"]);
    let mut expected = listed.clone();
    expected.sort();
    assert_eq!(sorted_frame_names(&listed), expected);
    assert!(sorted_frame_names(&Vec::new()).is_empty());
}

#[test]
fn dataset_keeps_every_frame_in_name_order() {
    let ds = CustomDataSet::new("./data/bunny", &names(&["c.png", "a.png", "b.png"]), None, 1);
    assert_eq!(ds.len(), 3);
    assert!(!ds.is_empty());
    assert_eq!(ds.main_dir(), "./data/bunny");
    let f = ds.get(0);
    assert_eq!((f.file_name.as_str(), f.position, f.total), ("a.png", 0, 3));
    let f = ds.get(2);
    assert_eq!((f.file_name.as_str(), f.position, f.total), ("c.png", 2, 3));
}

#[test]
fn dataset_with_chosen_frames_and_gap() {
    let ds = CustomDataSet::new("d", &names(&["3", "1", "0", "2", "4"]), Some(&[4, 0, 2]), 2);
    // three chosen frames read every second one: one sample
    assert_eq!(ds.len(), 1);
    let f = ds.get(0);
    assert_eq!((f.file_name.as_str(), f.position, f.total), ("4", 4, 5));
    let ds = CustomDataSet::new("d", &names(&["3", "1", "0", "2", "4"]), Some(&[4, 0, 2]), 1);
    assert_eq!(ds.len(), 3);
    let f = ds.get(1);
    assert_eq!((f.file_name.as_str(), f.position), ("0", 0));
    let f = ds.get(2);
    assert_eq!((f.file_name.as_str(), f.position), ("2", 2));
}

#[test]
fn empty_dataset() {
    let ds = CustomDataSet::new("d", &Vec::new(), None, 1);
    assert!(ds.is_empty());
    let mut loader = DataLoader::new(ds, 4, true);
    loader.reset();
    assert_eq!(loader.len(), 0);
    assert_eq!(loader.next_batch(), None);
}

fn dataset(n: usize) -> CustomDataSet {
    let listed: Vec<String> = (0..n).map(|i| format!("f{:03}.png", i)).collect();
    CustomDataSet::new("d", &listed, None, 1)
}

#[test]
fn loader_batches_in_order() {
    let mut loader = DataLoader::new(dataset(7), 3, false);
    assert_eq!(loader.len(), 3);
    assert_eq!(loader.dataset_len(), 7);
    assert_eq!(loader.next_batch(), Some(vec![0, 1, 2]));
    assert_eq!(loader.next_batch(), Some(vec![3, 4, 5]));
    assert_eq!(loader.next_batch(), Some(vec![6]));
    assert_eq!(loader.next_batch(), None);
    assert_eq!(loader.next_batch(), None);
    loader.reset();
    assert_eq!(loader.next_batch(), Some(vec![0, 1, 2]));
}

#[test]
fn shuffled_epoch_visits_every_sample_once() {
    let mut loader = DataLoader::new(dataset(23), 4, true);
    for _ in 0..5 {
        loader.reset();
        let mut seen = Vec::new();
        let mut batches = 0;
        while let Some(b) = loader.next_batch() {
            assert!(!b.is_empty() && b.len() <= 4);
            for &i in &b {
                let f = loader.dataset().get(i);
                assert_eq!(f.position, i);
            }
            seen.extend(b);
            batches += 1;
        }
        assert_eq!(batches, loader.len());
        seen.sort();
        assert_eq!(seen, (0..23).collect::<Vec<usize>>());
    }
}

#[test]
fn loader_with_gap() {
    let listed: Vec<String> = (0..10).map(|i| format!("{}", i)).collect();
    let ds = CustomDataSet::new("d", &listed, None, 3);
    let mut loader = DataLoader::new(ds, 2, false);
    assert_eq!(loader.dataset_len(), 3);
    assert_eq!(loader.len(), 2);
    let b = loader.next_batch().unwrap();
    assert_eq!(b, vec![0, 1]);
    assert_eq!(loader.dataset().get(1).position, 3);
    assert_eq!(loader.next_batch(), Some(vec![2]));
    assert_eq!(loader.dataset().get(2).position, 6);
}

#[test]
fn loader_reads_the_data_set_it_was_given() {
    let ds = CustomDataSet::new("./data/video", &names(&["b.png", "a.png"]), None, 1);
    let mut loader = DataLoader::new(ds, 1, true);
    assert_eq!(loader.dataset().main_dir(), "./data/video");
    assert_eq!(loader.dataset().get(0).file_name, "a.png");
    loader.reset();
    let _ = loader.next_batch();
    assert_eq!(loader.dataset().main_dir(), "./data/video");
    assert_eq!(loader.dataset().frame_count(), 2);
}

#[test]
fn fresh_shuffling_loader_starts_in_order() {
    let mut loader = DataLoader::new(dataset(5), 2, true);
    assert_eq!(loader.next_batch(), Some(vec![0, 1]));
    assert_eq!(loader.next_batch(), Some(vec![2, 3]));
    assert_eq!(loader.next_batch(), Some(vec![4]));
    assert_eq!(loader.next_batch(), None);
}

#[test]
fn reset_mid_epoch_restarts_in_order_without_shuffle() {
    let mut loader = DataLoader::new(dataset(5), 2, false);
    assert_eq!(loader.next_batch(), Some(vec![0, 1]));
    loader.reset();
    let mut seen = Vec::new();
    while let Some(b) = loader.next_batch() {
        seen.extend(b);
    }
    assert_eq!(seen, vec![0, 1, 2, 3, 4]);
}
